//! Product service behaviour, exercised end to end against the store.

use product_catalog::Catalog;
use product_catalog::ApiError;
use product_catalog::models::category::CreateCategoryRequest;
use product_catalog::models::product::{
    CreateProductRequest, ProductQueryParams, UpdateProductRequest,
};

fn new_category(c: &mut Catalog, name: &str) -> i32 {
    c.create_category(
        CreateCategoryRequest { name: name.to_string(), description: Some("A test category".to_string()) },
        100,
    )
    .unwrap()
    .id
}

fn new_product(c: &mut Catalog, name: &str, price: i64, category_ids: Vec<i32>) -> i32 {
    c.create_product(
        CreateProductRequest {
            name: name.to_string(),
            description: Some("A test product".to_string()),
            price,
            sku: None,
            category_ids,
        },
        101,
    )
    .unwrap()
    .id
}

#[test]
fn test_list_products() {
    let mut c = Catalog::new();
    let cat = new_category(&mut c, "Test Category");
    new_product(&mut c, "Test Product", 1999, vec![cat]);
    c.create_product(
        CreateProductRequest {
            name: "Second Test Product".to_string(),
            description: Some("Another test product".to_string()),
            price: 2999,
            sku: Some("TEST-SKU-456".to_string()),
            category_ids: vec![cat],
        },
        102,
    )
    .unwrap();

    let all = c.list_products(ProductQueryParams { page: None, page_size: None, category_id: None });
    assert_eq!(all.total, 2);
    assert_eq!(all.products.len(), 2);
    assert!(all.products.iter().any(|p| p.name == "Test Product"));
    assert!(all.products.iter().any(|p| p.name == "Second Test Product"));

    let page1 = c.list_products(ProductQueryParams {
        page: Some(1),
        page_size: Some(1),
        category_id: None,
    });
    assert_eq!(page1.total, 2);
    assert_eq!(page1.products.len(), 1);
    assert_eq!(page1.page, 1);
    assert_eq!(page1.page_size, 1);
}

#[test]
fn test_get_product() {
    let mut c = Catalog::new();
    let cat = new_category(&mut c, "Test Category");
    let pid = new_product(&mut c, "Test Product", 1999, vec![cat]);

    let got = c.get_product(pid).unwrap();
    assert_eq!(got.id, pid);
    assert_eq!(got.name, "Test Product");
    assert_eq!(got.price, 1999);
    assert_eq!(got.categories.len(), 1);
    assert_eq!(got.categories[0].id, cat);

    let missing = c.get_product(9999);
    assert!(matches!(missing, Err(ApiError::NotFound(_))));
}

#[test]
fn test_create_product() {
    let mut c = Catalog::new();
    let cat = new_category(&mut c, "Test Category");

    let resp = c
        .create_product(
            CreateProductRequest {
                name: "New Product".to_string(),
                description: Some("A brand new product".to_string()),
                price: 3999,
                sku: Some("NEW-SKU-789".to_string()),
                category_ids: vec![cat],
            },
            103,
        )
        .unwrap();
    assert_eq!(resp.name, "New Product");
    assert_eq!(resp.description.as_deref(), Some("A brand new product"));
    assert_eq!(resp.price, 3999);
    assert_eq!(resp.sku.as_deref(), Some("NEW-SKU-789"));

    // an empty name fails validation and persists nothing
    let invalid = c.create_product(
        CreateProductRequest {
            name: "".to_string(),
            description: Some("Invalid product".to_string()),
            price: 999,
            sku: Some("INV-SKU".to_string()),
            category_ids: vec![cat],
        },
        104,
    );
    assert!(matches!(invalid, Err(ApiError::Validation(_))));

    // a nonexistent category fails and persists nothing
    let invalid_category = c.create_product(
        CreateProductRequest {
            name: "Invalid Category Product".to_string(),
            description: Some("A product with invalid category".to_string()),
            price: 1999,
            sku: Some("IC-SKU".to_string()),
            category_ids: vec![9999],
        },
        105,
    );
    assert!(matches!(invalid_category, Err(ApiError::Validation(_))));

    let listing = c.list_products(ProductQueryParams { page: None, page_size: None, category_id: None });
    assert_eq!(listing.total, 1);
}

#[test]
fn test_update_product() {
    let mut c = Catalog::new();
    let cat = new_category(&mut c, "Test Category");
    let pid = new_product(&mut c, "Test Product", 1999, vec![cat]);

    let updated = c
        .update_product(
            pid,
            UpdateProductRequest {
                name: Some("Updated Product".to_string()),
                description: Some("Updated description".to_string()),
                price: Some(4999),
                sku: Some("UPD-SKU-123".to_string()),
                category_ids: None,
            },
            200,
        )
        .unwrap();
    assert_eq!(updated.id, pid);
    assert_eq!(updated.name, "Updated Product");
    assert_eq!(updated.description.as_deref(), Some("Updated description"));
    assert_eq!(updated.price, 4999);
    assert_eq!(updated.sku.as_deref(), Some("UPD-SKU-123"));
    assert_eq!(updated.updated_at, 200);
    // associations were left untouched
    assert_eq!(updated.categories.len(), 1);
    assert_eq!(updated.categories[0].id, cat);

    let missing = c.update_product(
        9999,
        UpdateProductRequest {
            name: Some("X".to_string()),
            description: None,
            price: None,
            sku: None,
            category_ids: None,
        },
        201,
    );
    assert!(matches!(missing, Err(ApiError::NotFound(_))));
}

#[test]
fn test_delete_product() {
    let mut c = Catalog::new();
    let cat = new_category(&mut c, "Test Category");
    let pid = new_product(&mut c, "Test Product", 1999, vec![cat]);

    c.delete_product(pid).unwrap();
    assert!(matches!(c.get_product(pid), Err(ApiError::NotFound(_))));
    // the category it was tied to still exists
    assert!(c.get_category(cat).is_ok());

    let missing = c.delete_product(9999);
    assert!(matches!(missing, Err(ApiError::NotFound(_))));
}

#[test]
fn test_product_category_many_to_many() {
    let mut c = Catalog::new();
    let category1 = new_category(&mut c, "Test Category");
    let category2 = c
        .create_category(
            CreateCategoryRequest {
                name: "Second Category".to_string(),
                description: Some("Another test category".to_string()),
            },
            110,
        )
        .unwrap()
        .id;

    let product = c
        .create_product(
            CreateProductRequest {
                name: "Multi-Category Product".to_string(),
                description: Some("A product with multiple categories".to_string()),
                price: 3999,
                sku: Some("MULTI-CAT-001".to_string()),
                category_ids: vec![category1, category2],
            },
            111,
        )
        .unwrap();
    assert_eq!(product.categories.len(), 2);
    assert!(product.categories.iter().any(|b| b.id == category1));
    assert!(product.categories.iter().any(|b| b.id == category2));

    let category3 = c
        .create_category(
            CreateCategoryRequest {
                name: "Third Category".to_string(),
                description: Some("Yet another test category".to_string()),
            },
            112,
        )
        .unwrap()
        .id;

    // replace the associations: drop the first category, add the third
    let updated = c
        .update_product(
            product.id,
            UpdateProductRequest {
                name: None,
                description: None,
                price: None,
                sku: None,
                category_ids: Some(vec![category2, category3]),
            },
            113,
        )
        .unwrap();
    assert_eq!(updated.categories.len(), 2);
    assert!(!updated.categories.iter().any(|b| b.id == category1));
    assert!(updated.categories.iter().any(|b| b.id == category2));
    assert!(updated.categories.iter().any(|b| b.id == category3));
}
