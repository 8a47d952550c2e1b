//! Tests for the crawl pipeline's decisions, its queue discipline, the
//! extraction helpers, and the persistence orchestrator.

use ransaq::crawler::{
    crawl_outcome, persist_product, producer_step, worker_step, BoundedQueue, PersistError,
    ProducerDecision, QueueRefusal, WorkerDecision,
};
use ransaq::detailed_info::{Decimal, DetailedInfo, GrapeVariety, SugarContent, SugarContentEquality};
use ransaq::glue::DbSerialize;
use ransaq::linked_data::{
    BreadcrumbList, Entity, Item, ItemAvailability, ItemListElement, LinkedData, ListItem, Offer,
    OfferCatalog, OfferItemCondition, Product, WebPage,
};
use ransaq::saq::{catalog_products, page_outcome, Category, ExtractedProduct};
use ransaq::store::Client;

fn stub(sku: &str) -> Product {
    Product {
        description: format!("product {sku}"),
        image: "https://example.invalid/img".to_string(),
        name: format!("Name {sku}"),
        offers: Offer {
            availability: ItemAvailability::InStock,
            item_condition: OfferItemCondition::New,
            price: Decimal { mantissa: 1099, scale: 2 },
            price_currency: "CAD".to_string(),
            url: format!("https://example.invalid/{sku}"),
        },
        sku: sku.to_string(),
        category: None,
    }
}

#[test]
fn db_serialize_writes_the_fixed_strings() {
    assert_eq!("in_stock", ItemAvailability::InStock.db_serialize());
    assert_eq!("sold_out", ItemAvailability::SoldOut.db_serialize());
    assert_eq!("new", OfferItemCondition::New.db_serialize());
    assert_eq!(
        "origine_quebec",
        ransaq::detailed_info::ProductOfQuebec::Origine.db_serialize()
    );
    assert_eq!(">", SugarContentEquality::GreaterThan.db_serialize());
}

#[test]
fn pagination_terminates_when_the_catalog_wraps_around() {
    // A fake catalog source: page 1 renders itself, any later request
    // renders page 1 again. The producer must finish Ok after one page.
    let fake_fetch = |requested: u32| -> Result<Option<Vec<Product>>, String> {
        let rendered = 1u32;
        Ok(page_outcome(requested, rendered, vec![stub("a"), stub("b")]))
    };

    let mut page: u32 = 1;
    let mut seen: Vec<Product> = Vec::new();
    let mut rounds = 0;
    loop {
        rounds += 1;
        match producer_step(page, fake_fetch(page)) {
            ProducerDecision::Continue { stubs, next_page } => {
                seen.extend(stubs);
                page = next_page;
            }
            ProducerDecision::FinishOk => break,
            ProducerDecision::FinishErr(e) => panic!("unexpected error: {e}"),
        }
        assert!(rounds < 10, "producer failed to terminate");
    }
    assert_eq!(2, rounds);
    assert_eq!(2, seen.len());
}

#[test]
fn producer_surfaces_fetch_errors() {
    match producer_step::<String>(3, Err("boom".to_string())) {
        ProducerDecision::FinishErr(e) => assert_eq!("boom", e),
        _ => panic!("expected an error decision"),
    }
}

#[test]
fn backpressure_blocks_the_producer_until_a_receive() {
    // Queue capacity 1, one slow worker: of 3 stubs the 2nd send must
    // wait until the worker receives the 1st.
    let mut q: BoundedQueue<Product> = BoundedQueue::new(1);

    assert!(q.send(stub("1")).is_ok());
    match q.send(stub("2")) {
        Err((QueueRefusal::WouldBlock, _)) => {}
        _ => panic!("the second send should have to wait"),
    }
    let first = q.recv().unwrap();
    assert_eq!("1", first.sku);
    assert!(q.send(stub("2")).is_ok());
    assert!(q.send(stub("3")).is_err());
}

#[test]
fn queue_drains_after_close() {
    let mut q: BoundedQueue<i64> = BoundedQueue::new(4);
    q.send(10).unwrap();
    q.send(20).unwrap();
    q.close();
    match q.send(30) {
        Err((QueueRefusal::Closed, v)) => assert_eq!(30, v),
        _ => panic!("a closed queue must refuse sends"),
    }
    assert_eq!(10, q.recv().unwrap());
    assert_eq!(20, q.recv().unwrap());
    assert_eq!(Err(QueueRefusal::Closed), q.recv());
}

#[test]
fn open_empty_queue_makes_receivers_wait() {
    let mut q: BoundedQueue<i64> = BoundedQueue::new(2);
    assert_eq!(Err(QueueRefusal::WouldBlock), q.recv());
}

#[test]
fn worker_works_items_and_exits_on_closure() {
    match worker_step(Ok(stub("z"))) {
        Ok(WorkerDecision::Work(p)) => assert_eq!("z", p.sku),
        _ => panic!("expected work"),
    }
    assert!(matches!(
        worker_step(Err(QueueRefusal::Closed)),
        Ok(WorkerDecision::Exit)
    ));
    assert!(matches!(
        worker_step(Err(QueueRefusal::WouldBlock)),
        Err(QueueRefusal::WouldBlock)
    ));
}

#[test]
fn crawl_outcome_prefers_the_producer_error() {
    let r = crawl_outcome::<String>(
        Err("producer failed".to_string()),
        vec![Err("worker failed".to_string())],
    );
    assert_eq!(Err("producer failed".to_string()), r);
}

#[test]
fn crawl_outcome_takes_the_first_worker_error() {
    let r = crawl_outcome::<String>(
        Ok(()),
        vec![Ok(()), Err("first".to_string()), Err("second".to_string())],
    );
    assert_eq!(Err("first".to_string()), r);
    assert_eq!(Ok(()), crawl_outcome::<String>(Ok(()), vec![Ok(()), Ok(())]));
}

#[test]
fn page_outcome_detects_the_wraparound() {
    assert!(page_outcome(2, 1, vec![stub("a")]).is_none());
    let products = page_outcome(2, 2, vec![stub("a")]).unwrap();
    assert_eq!(1, products.len());
}

#[test]
fn catalog_products_reads_the_offer_catalog() {
    let lds = vec![
        LinkedData::WebSite,
        LinkedData::WebPage(WebPage {
            main_entity: Some(Entity::OfferCatalog(OfferCatalog {
                name: "catalog".to_string(),
                url: "https://example.invalid/products".to_string(),
                number_of_items: 2,
                item_list_element: vec![
                    ItemListElement::Product(stub("a")),
                    ItemListElement::Other,
                    ItemListElement::Product(stub("b")),
                ],
            })),
            url: None,
        }),
    ];
    let products = catalog_products(lds).unwrap();
    assert_eq!(2, products.len());
    assert_eq!("a", products[0].sku);
    assert_eq!("b", products[1].sku);

    assert!(catalog_products(vec![LinkedData::WebSite]).is_none());
}

fn breadcrumbs() -> LinkedData {
    LinkedData::BreadcrumbList(BreadcrumbList {
        item_list_element: vec![
            ListItem {
                item: Item {
                    id: "https://www.saq.com/en".to_string(),
                    name: "Home".to_string(),
                },
                position: 1,
            },
            ListItem {
                item: Item {
                    id: "https://www.saq.com/en/products/wine".to_string(),
                    name: "Wine".to_string(),
                },
                position: 2,
            },
            ListItem {
                item: Item {
                    id: "https://www.saq.com/en/products/wine/red-wine".to_string(),
                    name: "Red wine".to_string(),
                },
                position: 3,
            },
        ],
    })
}

fn extracted(code: &str) -> ExtractedProduct {
    ExtractedProduct {
        linked_data: vec![LinkedData::WebSite, breadcrumbs(), LinkedData::Product(stub(code))],
        detailed_info: DetailedInfo {
            producer: Some("A producer".to_string()),
            saq_code: code.to_string(),
            promoting_agent: None,
            abv_percentage: Some(Decimal { mantissa: 125, scale: 1 }),
            size: Some(ransaq::Size { container_count: 1, container_milliliters: 750 }),
            color: Some("Red".to_string()),
            region: None,
            upc_code: None,
            country: Some("Canada".to_string()),
            product_of_quebec: None,
            grape_varieties: Some(vec![
                GrapeVariety { name: "Zinfandel".to_string(), percentage: Some(95) },
                GrapeVariety { name: "Petite sirah".to_string(), percentage: Some(5) },
            ]),
            sugar_content: Some(SugarContent {
                grams_per_liter: Decimal { mantissa: 29, scale: 1 },
                equality: SugarContentEquality::Equal,
            }),
            regulated_designation: None,
            designation_of_origin: None,
            classification: None,
            special_features: Some(vec!["Organic product".to_string()]),
        },
    }
}

#[test]
fn extract_categories_keeps_only_product_listing_entries() {
    let ep = extracted("1");
    let cats: Vec<Category> = ep.extract_categories().unwrap();
    assert_eq!(2, cats.len());
    assert_eq!("Wine", cats[0].name);
    assert_eq!("https://www.saq.com/en/products/wine", cats[0].url);
    assert_eq!("Red wine", cats[1].name);
}

#[test]
fn get_ld_product_finds_the_product_entry() {
    let ep = extracted("1");
    assert_eq!("1", ep.get_ld_product().unwrap().sku);

    let empty = ExtractedProduct { linked_data: vec![LinkedData::WebSite], ..extracted("1") };
    assert!(matches!(
        empty.get_ld_product(),
        Err(ransaq::saq::ExtractError::MissingProduct)
    ));
}

#[test]
fn persist_product_writes_the_whole_aggregate() {
    let mut db = Client::new();
    let ep = extracted("14564273");
    persist_product(&mut db, &ep).unwrap();

    assert_eq!(1, db.products.rows.len());
    let row = &db.products.rows[0];
    assert_eq!("14564273", row.fields.saq_code);
    assert_eq!("Name 14564273", row.fields.name);
    assert_eq!("in_stock", row.fields.availability);
    assert_eq!("new", row.fields.item_condition);
    assert_eq!(Some(Decimal { mantissa: 125, scale: 1 }), row.fields.abv_percentage);
    assert_eq!(Some(750), row.fields.container_milliliters);
    assert!(row.fields.producer_id.is_some());
    assert!(row.fields.color_id.is_some());
    assert!(row.fields.region_id.is_none());

    // the three association sets match the extraction
    assert_eq!(1, db.product_special_features.rows.len());
    assert_eq!(2, db.product_grape_varieties.rows.len());
    assert_eq!(Some(95), db.product_grape_varieties.rows[0].percentage);
    assert_eq!(2, db.product_categories.rows.len());

    // the category chain is linked parent to child
    assert_eq!("Wine", db.categories.rows[0].name);
    assert_eq!(None, db.categories.rows[0].parent_id);
    assert_eq!("Red wine", db.categories.rows[1].name);
    assert_eq!(Some(db.categories.rows[0].id), db.categories.rows[1].parent_id);
}

#[test]
fn persist_product_is_idempotent_per_crawl() {
    let mut db = Client::new();
    let ep = extracted("14564273");
    persist_product(&mut db, &ep).unwrap();
    let pid = db.products.rows[0].id;
    persist_product(&mut db, &ep).unwrap();
    assert_eq!(1, db.products.rows.len());
    assert_eq!(pid, db.products.rows[0].id);
    assert_eq!(1, db.product_special_features.rows.len());
    assert_eq!(2, db.product_grape_varieties.rows.len());
    assert_eq!(2, db.categories.rows.len());
}

#[test]
fn persist_product_leaves_other_products_alone() {
    let mut db = Client::new();
    let first = extracted("1001");
    persist_product(&mut db, &first).unwrap();
    let first_id = db.products.rows[0].id;
    let first_features: Vec<i64> = db
        .product_special_features
        .rows
        .iter()
        .filter(|r| r.product_id == first_id)
        .map(|r| r.other_id)
        .collect();

    let mut second = extracted("2002");
    second.detailed_info.special_features = None;
    persist_product(&mut db, &second).unwrap();

    // the first product's row and associations read as before
    assert_eq!("Name 1001", db.products.rows[0].fields.name);
    let first_features_after: Vec<i64> = db
        .product_special_features
        .rows
        .iter()
        .filter(|r| r.product_id == first_id)
        .map(|r| r.other_id)
        .collect();
    assert_eq!(first_features, first_features_after);
}

#[test]
fn persist_product_updates_grape_percentages() {
    let mut db = Client::new();
    let ep = extracted("1001");
    persist_product(&mut db, &ep).unwrap();
    assert_eq!(Some(95), db.product_grape_varieties.rows[0].percentage);

    let mut again = extracted("1001");
    again.detailed_info.grape_varieties = Some(vec![
        GrapeVariety { name: "Zinfandel".to_string(), percentage: Some(80) },
        GrapeVariety { name: "Petite sirah".to_string(), percentage: Some(20) },
    ]);
    persist_product(&mut db, &again).unwrap();
    assert_eq!(2, db.product_grape_varieties.rows.len());
    assert_eq!(Some(80), db.product_grape_varieties.rows[0].percentage);
    assert_eq!(Some(20), db.product_grape_varieties.rows[1].percentage);
}

#[test]
fn persist_product_requires_the_linked_data_product() {
    let mut db = Client::new();
    let mut ep = extracted("1");
    ep.linked_data = vec![LinkedData::WebSite, breadcrumbs()];
    assert!(matches!(
        persist_product(&mut db, &ep),
        Err(PersistError::Extract(ransaq::saq::ExtractError::MissingProduct))
    ));

    let mut ep2 = extracted("1");
    ep2.linked_data = vec![LinkedData::Product(stub("1"))];
    assert!(matches!(
        persist_product(&mut db, &ep2),
        Err(PersistError::Extract(ransaq::saq::ExtractError::MissingBreadcrumbs))
    ));
}
