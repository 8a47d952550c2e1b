//! Tests for the relational store: dimension, category and product
//! upserts, association reconciliation, and the id-list encoding.

use ransaq::detailed_info::Decimal;
use ransaq::store::{to_value_list, Client, DimensionKind, ProductUpsertFields, StoreError};

fn minimal_fields(code: &str, name: &str) -> ProductUpsertFields {
    ProductUpsertFields {
        abv_percentage: None,
        availability: "in_stock".to_string(),
        classification_id: None,
        color_id: None,
        container_count: None,
        container_milliliters: None,
        country_id: None,
        description: "a bottle".to_string(),
        designation_of_origin_id: None,
        image_url: "https://example.invalid/img".to_string(),
        item_condition: "new".to_string(),
        name: name.to_string(),
        price_cad: Decimal { mantissa: 1995, scale: 2 },
        producer_id: None,
        product_of_quebec: None,
        promoting_agent_id: None,
        region_id: None,
        regulated_designation_id: None,
        saq_code: code.to_string(),
        sugar_content_equality: None,
        sugar_content_grams_per_liter: None,
        upc_code: None,
    }
}

#[test]
fn dimension_upsert_is_idempotent() {
    let mut db = Client::new();
    let first = db.upsert_dimension(DimensionKind::Producer, "Upserted Name").unwrap();
    let second = db.upsert_dimension(DimensionKind::Producer, "Upserted Name").unwrap();
    assert_eq!(first, second);
    let idx = DimensionKind::Producer.index();
    let rows = &db.dims[idx].rows;
    assert_eq!(
        1,
        rows.iter().filter(|r| r.name == "Upserted Name").count()
    );
    // the second call wrote nothing: updated_at is untouched
    assert_eq!(rows[0].created_at, rows[0].updated_at);
}

#[test]
fn dimension_upsert_distinguishes_names_and_tables() {
    let mut db = Client::new();
    let a = db.upsert_dimension(DimensionKind::Color, "Amber").unwrap();
    let b = db.upsert_dimension(DimensionKind::Color, "Beige").unwrap();
    let c = db.upsert_dimension(DimensionKind::Country, "Amber").unwrap();
    assert_ne!(a, b);
    assert_eq!(1, a);
    assert_eq!(2, b);
    assert_eq!(1, c);
}

#[test]
fn category_upsert_touches_only_on_change() {
    let mut db = Client::new();
    let id1 = db.upsert_category("Wine", "https://example.invalid/wine", None).unwrap();
    let stamp1 = db.categories.rows[0].updated_at;
    let id2 = db.upsert_category("Wine", "https://example.invalid/wine", None).unwrap();
    assert_eq!(id1, id2);
    assert_eq!(stamp1, db.categories.rows[0].updated_at);

    let id3 = db.upsert_category("Wine", "https://example.invalid/red-wine", None).unwrap();
    assert_eq!(id1, id3);
    assert!(db.categories.rows[0].updated_at > stamp1);
    assert_eq!("https://example.invalid/red-wine", db.categories.rows[0].url);

    // changing the parent alone also touches the row
    let parent = db.upsert_category("Drinks", "https://example.invalid/drinks", None).unwrap();
    let stamp2 = db.categories.rows[0].updated_at;
    db.upsert_category("Wine", "https://example.invalid/red-wine", Some(parent)).unwrap();
    assert!(db.categories.rows[0].updated_at > stamp2);
    assert_eq!(Some(parent), db.categories.rows[0].parent_id);
}

#[test]
fn category_upsert_refuses_unknown_parent() {
    let mut db = Client::new();
    let err = db.upsert_category("Wine", "https://example.invalid/wine", Some(7)).unwrap_err();
    assert_eq!(StoreError::ForeignKey, err);
    assert_eq!(0, db.categories.rows.len());
}

#[test]
fn product_upsert_round_trip() {
    let mut db = Client::new();
    let first = db.upsert_product(minimal_fields("X", "First name")).unwrap();
    let created = db.products.rows[0].created_at;
    let updated1 = db.products.rows[0].updated_at;
    let second = db.upsert_product(minimal_fields("X", "Second name")).unwrap();
    assert_eq!(first, second);
    assert_eq!(1, db.products.rows.len());
    assert_eq!("Second name", db.products.rows[0].fields.name);
    assert_eq!(created, db.products.rows[0].created_at);
    assert!(db.products.rows[0].updated_at > updated1);
}

#[test]
fn product_upsert_touches_even_without_changes() {
    let mut db = Client::new();
    db.upsert_product(minimal_fields("X", "Same")).unwrap();
    let updated1 = db.products.rows[0].updated_at;
    db.upsert_product(minimal_fields("X", "Same")).unwrap();
    assert!(db.products.rows[0].updated_at > updated1);
}

#[test]
fn product_upsert_checks_enumerated_columns() {
    let mut db = Client::new();
    let mut bad = minimal_fields("X", "Name");
    bad.availability = "whenever".to_string();
    assert_eq!(StoreError::Check, db.upsert_product(bad).unwrap_err());

    let mut bad2 = minimal_fields("X", "Name");
    bad2.sugar_content_equality = Some("~".to_string());
    assert_eq!(StoreError::Check, db.upsert_product(bad2).unwrap_err());
    assert_eq!(0, db.products.rows.len());
}

#[test]
fn product_upsert_checks_foreign_keys() {
    let mut db = Client::new();
    let mut bad = minimal_fields("X", "Name");
    bad.producer_id = Some(3);
    assert_eq!(StoreError::ForeignKey, db.upsert_product(bad).unwrap_err());
    assert_eq!(0, db.products.rows.len());
}

fn assoc_set(rows: &[ransaq::store::AssocRow], pid: i64) -> Vec<i64> {
    let mut ids: Vec<i64> = rows
        .iter()
        .filter(|r| r.product_id == pid)
        .map(|r| r.other_id)
        .collect();
    ids.sort();
    ids
}

#[test]
fn reconciliation_converges_to_the_target_set() {
    let mut db = Client::new();
    let pid = db.upsert_product(minimal_fields("X", "Name")).unwrap();
    for name in ["Organic product", "Natural Wine", "Orange Wine"] {
        db.upsert_dimension(DimensionKind::SpecialFeature, name).unwrap();
    }

    // reconcile to A = {1, 2}
    db.ensure_product_special_features(pid, vec![1, 2]).unwrap();
    assert_eq!(vec![1, 2], assoc_set(&db.product_special_features.rows, pid));
    let created_of_2 = db
        .product_special_features
        .rows
        .iter()
        .find(|r| r.other_id == 2)
        .unwrap()
        .created_at;

    // reconcile to B = {2, 3}: 1 goes, 3 comes, 2 keeps its created_at
    db.ensure_product_special_features(pid, vec![2, 3]).unwrap();
    assert_eq!(vec![2, 3], assoc_set(&db.product_special_features.rows, pid));
    let row_2 = db
        .product_special_features
        .rows
        .iter()
        .find(|r| r.other_id == 2)
        .unwrap();
    assert_eq!(created_of_2, row_2.created_at);
    assert!(row_2.updated_at > row_2.created_at);
}

#[test]
fn reconciliation_keeps_other_products_apart() {
    let mut db = Client::new();
    let p1 = db.upsert_product(minimal_fields("X", "One")).unwrap();
    let p2 = db.upsert_product(minimal_fields("Y", "Two")).unwrap();
    db.upsert_dimension(DimensionKind::SpecialFeature, "Organic product").unwrap();
    db.ensure_product_special_features(p1, vec![1]).unwrap();
    db.ensure_product_special_features(p2, vec![1]).unwrap();
    db.ensure_product_special_features(p1, vec![]).unwrap();
    assert_eq!(Vec::<i64>::new(), assoc_set(&db.product_special_features.rows, p1));
    assert_eq!(vec![1], assoc_set(&db.product_special_features.rows, p2));
}

#[test]
fn reconciliation_updates_grape_percentages() {
    let mut db = Client::new();
    let pid = db.upsert_product(minimal_fields("X", "Name")).unwrap();
    db.upsert_dimension(DimensionKind::GrapeVariety, "Zinfandel").unwrap();
    db.ensure_product_grape_varieties(pid, vec![(1, Some(95))]).unwrap();
    assert_eq!(Some(95), db.product_grape_varieties.rows[0].percentage);
    db.ensure_product_grape_varieties(pid, vec![(1, Some(80))]).unwrap();
    assert_eq!(1, db.product_grape_varieties.rows.len());
    assert_eq!(Some(80), db.product_grape_varieties.rows[0].percentage);
}

#[test]
fn reconciliation_refuses_unknown_ids() {
    let mut db = Client::new();
    let pid = db.upsert_product(minimal_fields("X", "Name")).unwrap();
    assert_eq!(
        StoreError::ForeignKey,
        db.ensure_product_special_features(pid, vec![4]).unwrap_err()
    );
    assert_eq!(
        StoreError::ForeignKey,
        db.ensure_product_categories(99, vec![]).unwrap_err()
    );
    assert_eq!(0, db.product_special_features.rows.len());
}

#[test]
fn value_list_writes_ids_in_decimal() {
    assert_eq!("", to_value_list(&vec![]));
    assert_eq!("7", to_value_list(&vec![7]));
    assert_eq!("1,2,3", to_value_list(&vec![1, 2, 3]));
    assert_eq!("-5,10,1234567890123", to_value_list(&vec![-5, 10, 1234567890123]));
    assert_eq!(
        "-9223372036854775808,9223372036854775807",
        to_value_list(&vec![i64::MIN, i64::MAX])
    );
}
