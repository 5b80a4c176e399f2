//! Category service behaviour, exercised end to end against the store.

use product_catalog::Catalog;
use product_catalog::ApiError;
use product_catalog::models::category::{
    CategoryQueryParams, CreateCategoryRequest, UpdateCategoryRequest,
};
use product_catalog::models::product::CreateProductRequest;

fn create_test_category(c: &mut Catalog) -> i32 {
    let resp = c
        .create_category(
            CreateCategoryRequest {
                name: "Test Category".to_string(),
                description: Some("A test category".to_string()),
            },
            1_000,
        )
        .unwrap();
    resp.id
}

fn create_test_product(c: &mut Catalog, category_ids: Vec<i32>) -> i32 {
    let resp = c
        .create_product(
            CreateProductRequest {
                name: "Test Product".to_string(),
                description: Some("A test product".to_string()),
                price: 1999,
                sku: Some("TEST-SKU-123".to_string()),
                category_ids,
            },
            1_001,
        )
        .unwrap();
    resp.id
}

#[test]
fn test_list_categories() {
    let mut c = Catalog::new();
    create_test_category(&mut c);
    c.create_category(
        CreateCategoryRequest {
            name: "Second Test Category".to_string(),
            description: Some("Another test category".to_string()),
        },
        1_002,
    )
    .unwrap();

    let listing = c.list_categories(CategoryQueryParams { include_product_count: None });
    assert_eq!(listing.categories.len(), 2);
    assert!(listing.categories.iter().any(|x| x.name == "Test Category"));
    assert!(listing.categories.iter().any(|x| x.name == "Second Test Category"));
    assert!(listing.categories.iter().all(|x| x.product_count.is_none()));

    let listing = c.list_categories(CategoryQueryParams { include_product_count: Some(true) });
    assert_eq!(listing.categories.len(), 2);
    assert!(listing.categories.iter().all(|x| x.product_count.is_some()));
    // name order: "Second Test Category" < "Test Category"
    assert_eq!(listing.categories[0].name, "Second Test Category");
    assert_eq!(listing.categories[1].name, "Test Category");
}

#[test]
fn test_get_category() {
    let mut c = Catalog::new();
    let id = create_test_category(&mut c);

    let got = c.get_category(id).unwrap();
    assert_eq!(got.id, id);
    assert_eq!(got.name, "Test Category");
    assert_eq!(got.description.as_deref(), Some("A test category"));

    let missing = c.get_category(9999);
    assert!(matches!(missing, Err(ApiError::NotFound(_))));
}

#[test]
fn test_create_category() {
    let mut c = Catalog::new();
    let resp = c
        .create_category(
            CreateCategoryRequest {
                name: "New Category".to_string(),
                description: Some("A brand new category".to_string()),
            },
            7,
        )
        .unwrap();
    assert!(resp.id >= 1);
    assert_eq!(resp.name, "New Category");
    assert_eq!(resp.description.as_deref(), Some("A brand new category"));
    assert_eq!(resp.created_at, 7);
    assert_eq!(resp.updated_at, 7);

    // an empty name is invalid
    let invalid = c.create_category(
        CreateCategoryRequest { name: "".to_string(), description: None },
        8,
    );
    assert!(matches!(invalid, Err(ApiError::Validation(_))));
    assert_eq!(c.list_categories(CategoryQueryParams { include_product_count: None }).categories.len(), 1);
}

#[test]
fn test_update_category() {
    let mut c = Catalog::new();
    let id = create_test_category(&mut c);

    let updated = c
        .update_category(
            id,
            UpdateCategoryRequest {
                name: Some("Updated Category".to_string()),
                description: Some("Updated description".to_string()),
            },
            2_000,
        )
        .unwrap();
    assert_eq!(updated.id, id);
    assert_eq!(updated.name, "Updated Category");
    assert_eq!(updated.description.as_deref(), Some("Updated description"));
    assert_eq!(updated.created_at, 1_000);
    assert_eq!(updated.updated_at, 2_000);

    let missing = c.update_category(
        9999,
        UpdateCategoryRequest { name: Some("X".to_string()), description: None },
        2_001,
    );
    assert!(matches!(missing, Err(ApiError::NotFound(_))));
}

#[test]
fn test_update_category_partial_fields() {
    let mut c = Catalog::new();
    let id = create_test_category(&mut c);

    // omitted fields keep their prior values
    let updated = c
        .update_category(id, UpdateCategoryRequest { name: None, description: None }, 3_000)
        .unwrap();
    assert_eq!(updated.name, "Test Category");
    assert_eq!(updated.description.as_deref(), Some("A test category"));
    assert_eq!(updated.updated_at, 3_000);
}

#[test]
fn test_update_category_name_conflict() {
    let mut c = Catalog::new();
    let id = create_test_category(&mut c);
    c.create_category(
        CreateCategoryRequest { name: "Other".to_string(), description: None },
        1_005,
    )
    .unwrap();

    // renaming onto another category's name conflicts
    let conflict = c.update_category(
        id,
        UpdateCategoryRequest { name: Some("Other".to_string()), description: None },
        1_006,
    );
    assert!(matches!(conflict, Err(ApiError::Conflict(_))));

    // renaming onto the category's own name is fine
    let same = c.update_category(
        id,
        UpdateCategoryRequest { name: Some("Test Category".to_string()), description: None },
        1_007,
    );
    assert!(same.is_ok());
}

#[test]
fn test_delete_category() {
    let mut c = Catalog::new();
    let id = create_test_category(&mut c);

    c.delete_category(id).unwrap();
    assert!(matches!(c.get_category(id), Err(ApiError::NotFound(_))));

    let missing = c.delete_category(9999);
    assert!(matches!(missing, Err(ApiError::NotFound(_))));
}

#[test]
fn test_get_category_products() {
    let mut c = Catalog::new();
    let cat = create_test_category(&mut c);
    create_test_product(&mut c, vec![cat]);
    c.create_product(
        CreateProductRequest {
            name: "Second Product".to_string(),
            description: Some("Another product in the category".to_string()),
            price: 2900,
            sku: Some("CAT-SKU-456".to_string()),
            category_ids: vec![cat],
        },
        1_010,
    )
    .unwrap();

    let products = c.get_products_by_category(cat).unwrap();
    assert_eq!(products.len(), 2);
    // products come back in id order
    assert_eq!(products[0].name, "Test Product");
    assert_eq!(products[1].name, "Second Product");
    // each product carries its own full category list
    for p in &products {
        assert_eq!(p.categories.len(), 1);
        assert_eq!(p.categories[0].id, cat);
    }

    let missing = c.get_products_by_category(9999);
    assert!(matches!(missing, Err(ApiError::NotFound(_))));
}
