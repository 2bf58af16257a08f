use product_catalog::models::{
    CatalogError, NewCompleteProduct, NewProduct, NewVariant, NewVariantValue,
};
use product_catalog::store::Catalog;

fn size_variants(values: Vec<i32>) -> Vec<NewVariantValue> {
    vec![NewVariantValue {
        variant: NewVariant { name: "size".to_string() },
        values: values.into_iter().map(|v| Some(v.to_string())).collect(),
    }]
}

fn new_product(name: &str, cost_cents: u64, variants: Vec<NewVariantValue>) -> NewCompleteProduct {
    NewCompleteProduct {
        product: NewProduct { name: name.to_string(), cost_cents, active: true },
        variants,
    }
}

#[test]
fn create_product_test() {
    let mut catalog = Catalog::new();
    catalog
        .create_product(new_product("boots", 1323, size_variants(vec![12, 14, 16, 18])))
        .unwrap();

    let listed = catalog.list_products().unwrap();
    assert_eq!(listed.len(), 1);
    let (product, rows) = &listed[0];
    assert_eq!(product.id, 1);
    assert_eq!(product.name, "boots");
    assert_eq!(product.cost_cents, 1323);
    assert!(product.active);
    let expected: Vec<(Option<String>, String)> = vec![
        (Some(12.to_string()), "size".to_string()),
        (Some(14.to_string()), "size".to_string()),
        (Some(16.to_string()), "size".to_string()),
        (Some(18.to_string()), "size".to_string()),
    ];
    let got: Vec<(Option<String>, String)> =
        rows.iter().map(|(pv, v)| (pv.value.clone(), v.name.clone())).collect();
    assert_eq!(got, expected);
}

#[test]
fn test_list_products() {
    let mut catalog = Catalog::new();
    catalog
        .create_product(new_product("boots", 1323, size_variants(vec![12, 14, 16, 18])))
        .unwrap();
    catalog
        .create_product(new_product("high heels", 2099, size_variants(vec![12, 14, 16, 18])))
        .unwrap();
    catalog
        .create_product(new_product("running shoes", 1099, size_variants(vec![12, 14, 16, 18])))
        .unwrap();

    let listed = catalog.list_products().unwrap();
    assert_eq!(listed.len(), 3);

    let expected_products =
        vec![(1, "boots", 1323u64), (2, "high heels", 2099u64), (3, "running shoes", 1099u64)];
    for (pi, (id, name, cost_cents)) in expected_products.into_iter().enumerate() {
        let (product, rows) = &listed[pi];
        assert_eq!(product.id, id);
        assert_eq!(product.name, name);
        assert_eq!(product.cost_cents, cost_cents);
        assert!(product.active);
        assert_eq!(rows.len(), 4);
        let start_id = (pi as i32) * 4;
        let values = ["12", "14", "16", "18"];
        for (ri, value) in values.iter().enumerate() {
            let (pv, variant) = &rows[ri];
            assert_eq!(pv.id, start_id + 1 + ri as i32);
            assert_eq!(pv.variant_id, 1);
            assert_eq!(pv.product_id, id);
            assert_eq!(pv.value, Some(value.to_string()));
            assert_eq!(variant.id, 1);
            assert_eq!(variant.name, "size");
        }
    }
}

#[test]
fn show_product_test() {
    let mut catalog = Catalog::new();
    let product_id = catalog
        .create_product(new_product("boots", 1323, size_variants(vec![12, 14, 16, 18])))
        .unwrap();

    let (product, rows) = catalog.show_product(product_id).unwrap();
    assert_eq!(product.id, 1);
    assert_eq!(product.name, "boots");
    assert_eq!(product.cost_cents, 1323);
    assert!(product.active);
    assert_eq!(rows.len(), 4);
    let values = ["12", "14", "16", "18"];
    for (ri, value) in values.iter().enumerate() {
        let (pv, variant) = &rows[ri];
        assert_eq!(pv.id, 1 + ri as i32);
        assert_eq!(pv.variant_id, 1);
        assert_eq!(pv.product_id, 1);
        assert_eq!(pv.value, Some(value.to_string()));
        assert_eq!(variant.id, 1);
        assert_eq!(variant.name, "size");
    }
}

#[test]
fn search_products_test() {
    let mut catalog = Catalog::new();
    catalog.create_product(new_product("boots", 1323, size_variants(vec![12]))).unwrap();
    catalog.create_product(new_product("high heels", 2099, size_variants(vec![12]))).unwrap();
    catalog.create_product(new_product("running shoes", 1099, size_variants(vec![12]))).unwrap();

    let found = catalog.search_products("shoes".to_string()).unwrap();
    assert_eq!(found.len(), 1);
    let (product, rows) = &found[0];
    assert_eq!(product.id, 3);
    assert_eq!(product.name, "running shoes");
    assert_eq!(product.cost_cents, 1099);
    assert!(product.active);
    assert_eq!(rows.len(), 1);
    let (pv, variant) = &rows[0];
    assert_eq!(pv.id, 3);
    assert_eq!(pv.variant_id, 1);
    assert_eq!(pv.product_id, 3);
    assert_eq!(pv.value, Some("12".to_string()));
    assert_eq!(variant.id, 1);
    assert_eq!(variant.name, "size");
}

#[test]
fn list_is_capped_at_ten_products() {
    let mut catalog = Catalog::new();
    for n in 0..12 {
        catalog.create_product(new_product(&format!("product {}", n), 100, vec![])).unwrap();
    }
    let listed = catalog.list_products().unwrap();
    assert_eq!(listed.len(), 10);
    for (i, (product, _)) in listed.iter().enumerate() {
        assert_eq!(product.id, 1 + i as i32);
    }
}

#[test]
fn list_of_empty_catalog_is_empty() {
    let catalog = Catalog::new();
    assert_eq!(catalog.list_products().unwrap().len(), 0);
}

#[test]
fn show_unknown_id_is_not_found() {
    let mut catalog = Catalog::new();
    assert!(matches!(catalog.show_product(1), Err(CatalogError::NotFound)));
    catalog.create_product(new_product("boots", 1323, size_variants(vec![12]))).unwrap();
    assert!(matches!(catalog.show_product(2), Err(CatalogError::NotFound)));
    assert!(matches!(catalog.show_product(0), Err(CatalogError::NotFound)));
    assert!(matches!(catalog.show_product(-7), Err(CatalogError::NotFound)));
    assert!(catalog.show_product(1).is_ok());
}

#[test]
fn shared_variant_dimension_is_stored_once() {
    let mut catalog = Catalog::new();
    catalog.create_product(new_product("boots", 1323, size_variants(vec![12]))).unwrap();
    catalog.create_product(new_product("sandals", 999, size_variants(vec![14, 16]))).unwrap();

    for id in [1, 2] {
        let (_, rows) = catalog.show_product(id).unwrap();
        for (pv, variant) in &rows {
            assert_eq!(pv.variant_id, 1);
            assert_eq!(variant.id, 1);
            assert_eq!(variant.name, "size");
        }
    }
    // A third dimension name gets the next id, not a duplicate of "size".
    let mut variants = size_variants(vec![18]);
    variants.push(NewVariantValue {
        variant: NewVariant { name: "color".to_string() },
        values: vec![Some("red".to_string()), None],
    });
    catalog.create_product(new_product("hat", 550, variants)).unwrap();
    let (_, rows) = catalog.show_product(3).unwrap();
    assert_eq!(rows.len(), 3);
    assert_eq!(rows[0].1.name, "size");
    assert_eq!(rows[0].1.id, 1);
    assert_eq!(rows[1].1.name, "color");
    assert_eq!(rows[1].1.id, 2);
    assert_eq!(rows[1].0.value, Some("red".to_string()));
    assert_eq!(rows[2].1.name, "color");
    assert_eq!(rows[2].0.value, None);
}

#[test]
fn search_matches_are_literal_substrings() {
    let mut catalog = Catalog::new();
    catalog.create_product(new_product("boots", 1323, vec![])).unwrap();
    catalog.create_product(new_product("100% wool socks", 450, vec![])).unwrap();

    // No wildcard reading: "%" only matches itself.
    let found = catalog.search_products("%".to_string()).unwrap();
    assert_eq!(found.len(), 1);
    assert_eq!(found[0].0.name, "100% wool socks");
    assert_eq!(catalog.search_products("b%ts".to_string()).unwrap().len(), 0);

    // The empty needle matches every product.
    assert_eq!(catalog.search_products(String::new()).unwrap().len(), 2);

    // A needle no name contains matches nothing.
    assert_eq!(catalog.search_products("sneaker".to_string()).unwrap().len(), 0);
}

#[test]
fn variant_dimension_without_values_adds_no_rows() {
    let mut catalog = Catalog::new();
    let variants = vec![NewVariantValue {
        variant: NewVariant { name: "size".to_string() },
        values: vec![],
    }];
    catalog.create_product(new_product("boots", 1323, variants)).unwrap();
    let (_, rows) = catalog.show_product(1).unwrap();
    assert_eq!(rows.len(), 0);
}
