//! The store's observable properties: validation rules, cascade-safe
//! deletion, association replacement, pagination and filtering, ordering,
//! and name uniqueness.

use product_catalog::Catalog;
use product_catalog::ApiError;
use product_catalog::models::category::{CategoryQueryParams, CreateCategoryRequest};
use product_catalog::models::product::{
    CreateProductRequest, ProductQueryParams, UpdateProductRequest,
};

fn category(c: &mut Catalog, name: &str) -> i32 {
    c.create_category(
        CreateCategoryRequest { name: name.to_string(), description: None },
        10,
    )
    .unwrap()
    .id
}

fn product(c: &mut Catalog, name: &str, price: i64, ids: Vec<i32>) -> i32 {
    c.create_product(
        CreateProductRequest {
            name: name.to_string(),
            description: None,
            price,
            sku: None,
            category_ids: ids,
        },
        11,
    )
    .unwrap()
    .id
}

#[test]
fn empty_category_list_is_rejected() {
    let mut c = Catalog::new();
    category(&mut c, "Books");
    let r = c.create_product(
        CreateProductRequest {
            name: "Orphan".to_string(),
            description: None,
            price: 100,
            sku: None,
            category_ids: vec![],
        },
        12,
    );
    assert!(matches!(r, Err(ApiError::Validation(_))));
    let listing = c.list_products(ProductQueryParams { page: None, page_size: None, category_id: None });
    assert_eq!(listing.total, 0);

    // the same rule holds for an explicit empty replacement list on update
    let cat = c.list_categories(CategoryQueryParams { include_product_count: None }).categories[0].id;
    let pid = product(&mut c, "Kept", 100, vec![cat]);
    let r = c.update_product(
        pid,
        UpdateProductRequest {
            name: None,
            description: None,
            price: None,
            sku: None,
            category_ids: Some(vec![]),
        },
        13,
    );
    assert!(matches!(r, Err(ApiError::Validation(_))));
    assert_eq!(c.get_product(pid).unwrap().categories.len(), 1);
}

#[test]
fn non_positive_price_is_rejected() {
    let mut c = Catalog::new();
    let cat = category(&mut c, "Books");
    for price in [0i64, -1, -999] {
        let r = c.create_product(
            CreateProductRequest {
                name: "Freebie".to_string(),
                description: None,
                price,
                sku: None,
                category_ids: vec![cat],
            },
            14,
        );
        assert!(matches!(r, Err(ApiError::Validation(_))));
    }
    let listing = c.list_products(ProductQueryParams { page: None, page_size: None, category_id: None });
    assert_eq!(listing.total, 0);

    let pid = product(&mut c, "Paid", 1, vec![cat]);
    let r = c.update_product(
        pid,
        UpdateProductRequest {
            name: None,
            description: None,
            price: Some(0),
            sku: None,
            category_ids: None,
        },
        15,
    );
    assert!(matches!(r, Err(ApiError::Validation(_))));
    assert_eq!(c.get_product(pid).unwrap().price, 1);
}

#[test]
fn duplicate_category_name_conflicts() {
    let mut c = Catalog::new();
    let first = c.create_category(
        CreateCategoryRequest { name: "Books".to_string(), description: None },
        16,
    );
    assert!(first.is_ok());
    let second = c.create_category(
        CreateCategoryRequest { name: "Books".to_string(), description: Some("again".to_string()) },
        17,
    );
    assert!(matches!(second, Err(ApiError::Conflict(_))));
    let with_name = c
        .list_categories(CategoryQueryParams { include_product_count: None })
        .categories
        .iter()
        .filter(|x| x.name == "Books")
        .count();
    assert_eq!(with_name, 1);
    // the match is case-sensitive: a different casing is a new category
    assert!(c
        .create_category(CreateCategoryRequest { name: "books".to_string(), description: None }, 18)
        .is_ok());
}

#[test]
fn deleting_category_keeps_products() {
    let mut c = Catalog::new();
    let a = category(&mut c, "A");
    let b = category(&mut c, "B");
    let p1 = product(&mut c, "P1", 100, vec![a, b]);
    let p2 = product(&mut c, "P2", 200, vec![a]);

    c.delete_category(a).unwrap();

    // the products themselves still exist
    let got1 = c.get_product(p1).unwrap();
    let got2 = c.get_product(p2).unwrap();
    // no association row referencing the category remains
    assert_eq!(got1.categories.iter().filter(|x| x.id == a).count(), 0);
    assert_eq!(got1.categories.len(), 1);
    assert_eq!(got1.categories[0].id, b);
    assert_eq!(got2.categories.len(), 0);
}

#[test]
fn deleting_product_keeps_categories() {
    let mut c = Catalog::new();
    let a = category(&mut c, "A");
    let b = category(&mut c, "B");
    let p = product(&mut c, "P", 100, vec![a, b]);

    c.delete_product(p).unwrap();

    assert!(c.get_category(a).is_ok());
    assert!(c.get_category(b).is_ok());
    let counted = c.list_categories(CategoryQueryParams { include_product_count: Some(true) });
    for entry in &counted.categories {
        assert_eq!(entry.product_count, Some(0));
    }
}

#[test]
fn update_replaces_association_set_exactly() {
    let mut c = Catalog::new();
    let a = category(&mut c, "A");
    let b = category(&mut c, "B");
    let d = category(&mut c, "D");
    let p = product(&mut c, "P", 100, vec![a]);

    let updated = c
        .update_product(
            p,
            UpdateProductRequest {
                name: None,
                description: None,
                price: None,
                sku: None,
                // a repeated id stands for one membership
                category_ids: Some(vec![b, d, b]),
            },
            20,
        )
        .unwrap();
    let mut got: Vec<i32> = updated.categories.iter().map(|x| x.id).collect();
    got.sort();
    let mut want = vec![b, d];
    want.sort();
    assert_eq!(got, want);
}

#[test]
fn update_with_unknown_category_changes_nothing() {
    let mut c = Catalog::new();
    let a = category(&mut c, "A");
    let b = category(&mut c, "B");
    let p = product(&mut c, "P", 100, vec![a]);

    // one bad id in the replacement list rolls back the whole update
    let r = c.update_product(
        p,
        UpdateProductRequest {
            name: Some("Renamed".to_string()),
            description: None,
            price: Some(555),
            sku: None,
            category_ids: Some(vec![b, 9999]),
        },
        21,
    );
    assert!(matches!(r, Err(ApiError::Validation(_))));
    let got = c.get_product(p).unwrap();
    assert_eq!(got.name, "P");
    assert_eq!(got.price, 100);
    assert_eq!(got.categories.len(), 1);
    assert_eq!(got.categories[0].id, a);
}

#[test]
fn pagination_is_exact() {
    let mut c = Catalog::new();
    let cat = category(&mut c, "A");
    let mut ids: Vec<i32> = Vec::new();
    for k in 0..5 {
        ids.push(product(&mut c, &format!("P{}", k), 100 + k as i64, vec![cat]));
    }

    // ceil(5 / 2) == 3 pages: 2, 2, 1 rows
    let mut seen: Vec<i32> = Vec::new();
    for page in 1..=3i64 {
        let r = c.list_products(ProductQueryParams {
            page: Some(page),
            page_size: Some(2),
            category_id: None,
        });
        assert_eq!(r.total, 5);
        let want_len = if page < 3 { 2 } else { 1 };
        assert_eq!(r.products.len(), want_len);
        for p in &r.products {
            seen.push(p.id);
        }
    }
    // no repeats, no skips, id order
    assert_eq!(seen, ids);

    // a page past the end is empty, and total is unchanged
    let beyond = c.list_products(ProductQueryParams {
        page: Some(4),
        page_size: Some(2),
        category_id: None,
    });
    assert_eq!(beyond.total, 5);
    assert_eq!(beyond.products.len(), 0);

    // defaults and clamps
    let r = c.list_products(ProductQueryParams { page: None, page_size: None, category_id: None });
    assert_eq!(r.page, 1);
    assert_eq!(r.page_size, 10);
    let r = c.list_products(ProductQueryParams {
        page: Some(0),
        page_size: Some(0),
        category_id: None,
    });
    assert_eq!(r.page, 1);
    assert_eq!(r.page_size, 1);
    let r = c.list_products(ProductQueryParams {
        page: Some(-3),
        page_size: Some(1000),
        category_id: None,
    });
    assert_eq!(r.page, 1);
    assert_eq!(r.page_size, 100);
}

#[test]
fn category_filter_restricts_page_and_total() {
    let mut c = Catalog::new();
    let a = category(&mut c, "A");
    let b = category(&mut c, "B");
    let p1 = product(&mut c, "P1", 100, vec![a]);
    let _p2 = product(&mut c, "P2", 200, vec![b]);
    let p3 = product(&mut c, "P3", 300, vec![a, b]);

    let r = c.list_products(ProductQueryParams {
        page: None,
        page_size: None,
        category_id: Some(a),
    });
    assert_eq!(r.total, 2);
    assert_eq!(r.products.len(), 2);
    for p in &r.products {
        assert!(p.categories.iter().any(|x| x.id == a));
    }
    assert_eq!(r.products[0].id, p1);
    assert_eq!(r.products[1].id, p3);
}

#[test]
fn briefs_and_listing_are_ordered_by_name() {
    let mut c = Catalog::new();
    let zoo = category(&mut c, "Zoo");
    let attic = category(&mut c, "Attic");
    let mid = category(&mut c, "Middle");
    let p = product(&mut c, "P", 100, vec![zoo, attic, mid]);

    let got = c.get_product(p).unwrap();
    let names: Vec<&str> = got.categories.iter().map(|x| x.name.as_str()).collect();
    assert_eq!(names, vec!["Attic", "Middle", "Zoo"]);

    let listing = c.list_categories(CategoryQueryParams { include_product_count: None });
    let names: Vec<&str> = listing.categories.iter().map(|x| x.name.as_str()).collect();
    assert_eq!(names, vec!["Attic", "Middle", "Zoo"]);
}

#[test]
fn product_counts_are_per_category() {
    let mut c = Catalog::new();
    let a = category(&mut c, "A");
    let b = category(&mut c, "B");
    product(&mut c, "P1", 100, vec![a]);
    product(&mut c, "P2", 200, vec![a, b]);

    let listing = c.list_categories(CategoryQueryParams { include_product_count: Some(true) });
    let count_of = |name: &str| {
        listing
            .categories
            .iter()
            .find(|x| x.name == name)
            .unwrap()
            .product_count
    };
    assert_eq!(count_of("A"), Some(2));
    assert_eq!(count_of("B"), Some(1));
}

#[test]
fn field_length_bounds() {
    let mut c = Catalog::new();
    // category names: 100 characters pass, 101 fail
    assert!(c
        .create_category(CreateCategoryRequest { name: "x".repeat(100), description: None }, 30)
        .is_ok());
    assert!(matches!(
        c.create_category(CreateCategoryRequest { name: "x".repeat(101), description: None }, 31),
        Err(ApiError::Validation(_))
    ));
    // product names: 255 characters pass, 256 fail
    let cat = category(&mut c, "C");
    assert!(c
        .create_product(
            CreateProductRequest {
                name: "y".repeat(255),
                description: None,
                price: 1,
                sku: None,
                category_ids: vec![cat],
            },
            32,
        )
        .is_ok());
    assert!(matches!(
        c.create_product(
            CreateProductRequest {
                name: "y".repeat(256),
                description: None,
                price: 1,
                sku: None,
                category_ids: vec![cat],
            },
            33,
        ),
        Err(ApiError::Validation(_))
    ));
    // SKUs: 50 characters pass, 51 fail
    assert!(c
        .create_product(
            CreateProductRequest {
                name: "Z".to_string(),
                description: None,
                price: 1,
                sku: Some("s".repeat(50)),
                category_ids: vec![cat],
            },
            34,
        )
        .is_ok());
    assert!(matches!(
        c.create_product(
            CreateProductRequest {
                name: "Z".to_string(),
                description: None,
                price: 1,
                sku: Some("s".repeat(51)),
                category_ids: vec![cat],
            },
            35,
        ),
        Err(ApiError::Validation(_))
    ));
}

#[test]
fn electronics_widget_scenario() {
    let mut c = Catalog::new();
    let electronics = c
        .create_category(
            CreateCategoryRequest { name: "Electronics".to_string(), description: None },
            40,
        )
        .unwrap();
    assert!(electronics.id >= 1);

    let widget = c
        .create_product(
            CreateProductRequest {
                name: "Widget".to_string(),
                description: None,
                price: 999,
                sku: None,
                category_ids: vec![electronics.id],
            },
            41,
        )
        .unwrap();
    assert_eq!(widget.categories.len(), 1);
    assert_eq!(widget.categories[0].id, electronics.id);
    assert_eq!(widget.categories[0].name, "Electronics");

    let got = c.get_product(widget.id).unwrap();
    assert_eq!(got.categories.len(), 1);
    assert_eq!(got.categories[0].name, "Electronics");

    // an empty replacement list is rejected and the association survives
    let rejected = c.update_product(
        widget.id,
        UpdateProductRequest {
            name: None,
            description: None,
            price: None,
            sku: None,
            category_ids: Some(vec![]),
        },
        42,
    );
    assert!(matches!(rejected, Err(ApiError::Validation(_))));
    assert_eq!(c.get_product(widget.id).unwrap().categories.len(), 1);

    // deleting the category leaves the product, with an empty category list
    c.delete_category(electronics.id).unwrap();
    let got = c.get_product(widget.id).unwrap();
    assert_eq!(got.name, "Widget");
    assert_eq!(got.categories.len(), 0);
}

#[test]
fn two_creates_one_name_one_winner() {
    // the storage backend serializes the two calls; whichever runs second
    // observes the conflict
    let mut c = Catalog::new();
    let r1 = c.create_category(
        CreateCategoryRequest { name: "Books".to_string(), description: None },
        50,
    );
    let r2 = c.create_category(
        CreateCategoryRequest { name: "Books".to_string(), description: None },
        50,
    );
    assert!(r1.is_ok());
    assert!(matches!(r2, Err(ApiError::Conflict(_))));
    let with_name = c
        .list_categories(CategoryQueryParams { include_product_count: None })
        .categories
        .iter()
        .filter(|x| x.name == "Books")
        .count();
    assert_eq!(with_name, 1);
}

#[test]
fn error_builders_carry_their_message() {
    assert!(matches!(
        ApiError::not_found_simple("Category not found"),
        ApiError::NotFound(m) if m == "Category not found"
    ));
    assert!(matches!(
        ApiError::bad_request("bad"),
        ApiError::BadRequest(m) if m == "bad"
    ));
    assert!(matches!(
        ApiError::internal_server_error("boom"),
        ApiError::Internal(m) if m == "boom"
    ));
}

#[test]
fn query_param_defaults() {
    let p = ProductQueryParams { page: None, page_size: None, category_id: None };
    assert_eq!(p.page(), 1);
    assert_eq!(p.page_size(), 10);
    assert_eq!(p.offset(), 0);
    let p = ProductQueryParams { page: Some(3), page_size: Some(25), category_id: None };
    assert_eq!(p.page(), 3);
    assert_eq!(p.page_size(), 25);
    assert_eq!(p.offset(), 50);
    let q = CategoryQueryParams { include_product_count: None };
    assert!(!q.include_product_count());
    let q = CategoryQueryParams { include_product_count: Some(true) };
    assert!(q.include_product_count());
}
