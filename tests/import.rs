use mage_importer::client::{decode_children, decode_listing, decode_page, join_ids, FetchError, MagentoRestClient};
use mage_importer::config::{ElasticsearchConfiguration, MagentoConfiguration};
use mage_importer::entities::{
    child_summary_of, flatten_fields, media_entry_of, Attribute, AttributeMapper, Category, CategoryMapper,
    ChildrenOutcome, Product, ProductMapper, RecordError,
};
use mage_importer::json::JsonValue;
use mage_importer::pipeline::{
    decode_response, product_batch, EntityKind, FetchRequest, ImportRun, ImportWorker,
    Mage2Importer, RunAction, RunState,
};
use mage_importer::config::AppConfiguration;
use mage_importer::sink::ESClient;
use mage_importer::text::decimal_text;

fn s(t: &str) -> JsonValue {
    JsonValue::Str(t.to_string())
}

fn obj(entries: Vec<(&str, JsonValue)>) -> JsonValue {
    JsonValue::Object(entries.into_iter().map(|(k, v)| (k.to_string(), v)).collect())
}

fn show(v: &JsonValue) -> String {
    format!("{:?}", v)
}

fn member<'a>(v: &'a JsonValue, key: &str) -> Option<&'a JsonValue> {
    match v {
        JsonValue::Object(entries) => entries.iter().find(|(k, _)| k == key).map(|(_, v)| v),
        _ => None,
    }
}

fn keys(v: &JsonValue) -> Vec<String> {
    match v {
        JsonValue::Object(entries) => entries.iter().map(|(k, _)| k.clone()).collect(),
        _ => Vec::new(),
    }
}

fn magento() -> MagentoConfiguration {
    MagentoConfiguration {
        url: "http://shop.test/rest".to_string(),
        consumer_key: "ck".to_string(),
        consumer_secret: "cs".to_string(),
        access_token: "tok".to_string(),
        access_token_secret: "ts".to_string(),
    }
}

fn es_config() -> ElasticsearchConfiguration {
    ElasticsearchConfiguration { url: "http://localhost:9200".to_string(), index: "shop".to_string() }
}

fn product_raw(id: i64, type_id: &str, sku: &str) -> JsonValue {
    obj(vec![
        ("id", JsonValue::Int(id)),
        ("sku", s(sku)),
        ("type_id", s(type_id)),
        ("name", s("Shirt")),
    ])
}

#[test]
fn media_gallery_entry_is_reshaped() {
    let entry = obj(vec![
        ("file", s("a.jpg")),
        ("position", JsonValue::Int(2)),
        ("media_type", s("image")),
        ("label", JsonValue::Null),
    ]);
    let expected = obj(vec![
        ("image", s("a.jpg")),
        ("pos", JsonValue::Int(2)),
        ("typ", s("image")),
        ("lab", s("")),
    ]);
    assert_eq!(show(&media_entry_of(entry)), show(&expected));
}

#[test]
fn media_gallery_defaults_apply_one_by_one() {
    let entry = obj(vec![("position", s("x"))]);
    let expected = obj(vec![("image", s("")), ("pos", JsonValue::Int(0)), ("typ", s("")), ("lab", s(""))]);
    assert_eq!(show(&media_entry_of(entry)), show(&expected));
}

#[test]
fn product_media_gallery_replaces_entries() {
    let raw = obj(vec![
        ("id", JsonValue::Int(7)),
        ("sku", s("S-7")),
        ("type_id", s("simple")),
        (
            "media_gallery_entries",
            JsonValue::Array(vec![obj(vec![
                ("file", s("a.jpg")),
                ("position", JsonValue::Int(2)),
                ("media_type", s("image")),
                ("label", JsonValue::Null),
            ])]),
        ),
    ]);
    let p = Product::from_value(raw).unwrap();
    assert_eq!(p.id(), "7");
    assert!(member(p.value(), "media_gallery_entries").is_none());
    let expected = JsonValue::Array(vec![obj(vec![
        ("image", s("a.jpg")),
        ("pos", JsonValue::Int(2)),
        ("typ", s("image")),
        ("lab", s("")),
    ])]);
    assert_eq!(show(member(p.value(), "media_gallery").unwrap()), show(&expected));
}

#[test]
fn custom_attributes_become_fields() {
    let raw = obj(vec![
        ("id", JsonValue::Int(3)),
        ("name", s("Base")),
        (
            "custom_attributes",
            JsonValue::Array(vec![
                obj(vec![("attribute_code", s("color")), ("value", s("red"))]),
                obj(vec![("attribute_code", s("name")), ("value", s("Shadow"))]),
            ]),
        ),
    ]);
    let c = Category::from_value(raw).unwrap();
    assert_eq!(c.id(), "3");
    let v = c.value();
    assert_eq!(show(member(v, "color").unwrap()), show(&s("red")));
    assert_eq!(show(member(v, "name").unwrap()), show(&s("Shadow")));
    assert!(member(v, "custom_attributes").is_none());
    assert_eq!(keys(v), vec!["id", "name", "color"]);
}

#[test]
fn custom_attribute_without_value_is_null() {
    let entries = vec![(
        "custom_attributes".to_string(),
        JsonValue::Array(vec![obj(vec![("attribute_code", s("flag"))])]),
    )];
    let out = flatten_fields(entries).unwrap();
    assert_eq!(show(&JsonValue::Object(out)), show(&obj(vec![("flag", JsonValue::Null)])));
}

#[test]
fn malformed_record_is_dropped_and_order_kept() {
    let good = |id: i64| obj(vec![("id", JsonValue::Int(id)), ("name", s("c"))]);
    let bad = obj(vec![
        ("id", JsonValue::Int(3)),
        ("custom_attributes", JsonValue::Array(vec![obj(vec![("value", s("x"))])])),
    ]);
    let records = vec![good(1), good(2), bad, good(4), good(5)];
    let docs = CategoryMapper::new().map(records);
    let ids: Vec<String> = docs.iter().map(|d| d.id()).collect();
    assert_eq!(ids, vec!["1", "2", "4", "5"]);
}

#[test]
fn record_errors_are_reported() {
    assert_eq!(Category::from_value(s("x")).err(), Some(RecordError::NotAnObject));
    assert_eq!(Category::from_value(obj(vec![("name", s("n"))])).err(), Some(RecordError::MissingId));
    assert_eq!(
        Category::from_value(obj(vec![("id", JsonValue::Int(1)), ("custom_attributes", s("bad"))])).err(),
        Some(RecordError::MalformedCustomAttributes)
    );
    assert_eq!(
        Category::from_value(obj(vec![
            ("id", JsonValue::Int(1)),
            ("custom_attributes", JsonValue::Array(vec![obj(vec![("attribute_code", JsonValue::Int(4))])])),
        ]))
        .err(),
        Some(RecordError::MissingAttributeCode)
    );
    assert_eq!(
        Product::from_value(obj(vec![
            ("id", JsonValue::Int(1)),
            ("sku", s("a")),
            ("type_id", s("simple")),
            ("media_gallery_entries", s("bad")),
        ]))
        .err(),
        Some(RecordError::MalformedMediaGallery)
    );
    assert_eq!(
        Category::from_value(obj(vec![("id", JsonValue::Int(1)), ("custom_attributes", JsonValue::Null)])).err(),
        Some(RecordError::MalformedCustomAttributes)
    );
}

#[test]
fn ids_are_written_as_text() {
    assert_eq!(decimal_text(-42), "-42");
    assert_eq!(decimal_text(0), "0");
    assert_eq!(decimal_text(i64::MIN), "-9223372036854775808");
    let c = Category::from_value(obj(vec![("id", s("abc"))])).unwrap();
    assert_eq!(c.id(), "abc");
}

#[test]
fn pagination_marks_final_page_by_strict_comparison() {
    let body = || obj(vec![("items", JsonValue::Array(vec![])), ("total_count", JsonValue::Int(1200))]);
    assert!(!decode_page(body(), 500, 0).unwrap().is_final_page);
    assert!(!decode_page(body(), 500, 1).unwrap().is_final_page);
    assert!(!decode_page(body(), 500, 2).unwrap().is_final_page);
    assert!(decode_page(body(), 500, 3).unwrap().is_final_page);
    let exact = obj(vec![("items", JsonValue::Array(vec![])), ("total_count", JsonValue::Int(1000))]);
    assert!(!decode_page(exact, 500, 2).unwrap().is_final_page);
}

#[test]
fn bad_bodies_are_decode_errors() {
    assert_eq!(decode_page(obj(vec![("items", JsonValue::Array(vec![]))]), 500, 0).err(), Some(FetchError::Decode));
    assert_eq!(decode_listing(obj(vec![("total_count", JsonValue::Int(1))])).err(), Some(FetchError::Decode));
    let ok = decode_listing(obj(vec![("items", JsonValue::Array(vec![s("a"), s("b")]))])).unwrap();
    assert_eq!(ok.records.len(), 2);
    assert!(ok.is_final_page);
    assert!(matches!(decode_children(s("no")), ChildrenOutcome::Degraded));
}

#[test]
fn configurable_product_gets_children() {
    let client = MagentoRestClient::new(magento());
    let mapper = ProductMapper::new(&client);
    let p = Product::from_value(product_raw(10, "configurable", "TEE")).unwrap();
    assert_eq!(mapper.children_url(&p).unwrap(), "http://shop.test/rest/V1/configurable-products/TEE/children");
    let child = obj(vec![("id", JsonValue::Int(11)), ("sku", s("TEE-S")), ("color", s("red"))]);
    let outcome = decode_children(JsonValue::Array(vec![child]));
    let p = mapper.enrich(p, outcome);
    let kids = member(p.value(), "configurable_children").unwrap();
    let expected = JsonValue::Array(vec![obj(vec![
        ("id", JsonValue::Int(11)),
        ("sku", s("TEE-S")),
        ("status", JsonValue::Null),
        ("visibility", JsonValue::Null),
        ("name", JsonValue::Null),
        ("price", JsonValue::Null),
        ("tier_prices", JsonValue::Null),
        ("special_price", JsonValue::Null),
        ("stock", JsonValue::Null),
    ])]);
    assert_eq!(show(kids), show(&expected));
}

#[test]
fn degraded_children_give_empty_list() {
    let client = MagentoRestClient::new(magento());
    let mapper = ProductMapper::new(&client);
    let p = Product::from_value(product_raw(10, "configurable", "TEE")).unwrap();
    let p = mapper.enrich(p, ChildrenOutcome::Degraded);
    assert_eq!(show(member(p.value(), "configurable_children").unwrap()), show(&JsonValue::Array(vec![])));
}

#[test]
fn simple_product_gets_no_children() {
    let client = MagentoRestClient::new(magento());
    let mapper = ProductMapper::new(&client);
    let p = Product::from_value(product_raw(5, "simple", "S")).unwrap();
    assert!(mapper.children_url(&p).is_none());
    let before = show(p.value());
    let p = mapper.enrich(p, ChildrenOutcome::Fetched(vec![obj(vec![("id", JsonValue::Int(1))])]));
    assert_eq!(show(p.value()), before);
    assert!(member(p.value(), "configurable_children").is_none());
}

#[test]
fn child_summary_of_non_object_is_all_null() {
    let r = child_summary_of(s("x"));
    assert_eq!(keys(&r).len(), 9);
    assert_eq!(show(member(&r, "stock").unwrap()), show(&JsonValue::Null));
}

#[test]
fn sku_is_percent_encoded_in_children_url() {
    let client = MagentoRestClient::new(magento());
    assert_eq!(
        client.configurable_children_url("a b/c"),
        "http://shop.test/rest/V1/configurable-products/a%20b%2Fc/children"
    );
}

#[test]
fn attribute_adapter_ignores_ids() {
    let worker = ImportWorker::new(MagentoRestClient::new(magento()), ESClient::new(es_config()));
    let adapter = worker.get_adapter("attribute").unwrap();
    assert_eq!(adapter.kind(), EntityKind::Attribute);
    let req = adapter.request(&Some(vec!["1".to_string(), "2".to_string()]));
    assert!(matches!(req, FetchRequest::Listing));
    assert_eq!(adapter.request_url(&req), "http://shop.test/rest/V1/products/attributes?searchCriteria=");
}

#[test]
fn product_requests_follow_ids_and_pages() {
    let worker = ImportWorker::new(MagentoRestClient::new(magento()), ESClient::new(es_config()));
    let adapter = worker.get_adapter("product").unwrap();
    let req = adapter.request(&None);
    assert!(matches!(req, FetchRequest::Page { page_size: 500, page: 0 }));
    assert_eq!(
        adapter.request_url(&req),
        "http://shop.test/rest/V1/products?searchCriteria%5BpageSize%5D=500&searchCriteria%5BcurrentPage%5D=0"
    );
    let req = adapter.request(&Some(vec!["1".to_string(), "2".to_string()]));
    assert_eq!(
        adapter.request_url(&req),
        "http://shop.test/rest/V1/products?searchCriteria[filter_groups][0][filters][0][field]=entity_id&searchCriteria[filter_groups][0][filters][0][value]=1,2&searchCriteria[filter_groups][0][filters][0][condition_type]=in"
    );
    let cat = worker.get_adapter("category").unwrap();
    assert!(matches!(cat.request(&None), FetchRequest::Listing));
    assert_eq!(cat.request_url(&FetchRequest::Listing), "http://shop.test/rest/V1/categories/list?searchCriteria");
}

#[test]
fn unknown_adapter_is_not_found() {
    let worker = ImportWorker::new(MagentoRestClient::new(magento()), ESClient::new(es_config()));
    assert!(worker.get_adapter("customer").is_none());
    assert!(worker.start("", None).is_none());
}

#[test]
fn run_pages_until_final() {
    let worker = ImportWorker::new(MagentoRestClient::new(magento()), ESClient::new(es_config()));
    let mut run = worker.start("product", None).unwrap();
    assert!(matches!(run.next_action(), RunAction::Fetch(FetchRequest::Page { page: 0, .. })));
    run.on_fetched(Ok(false));
    assert!(matches!(run.next_action(), RunAction::Index));
    run.on_indexed();
    assert_eq!(run.adapter.page(), 1);
    assert!(matches!(run.next_action(), RunAction::Fetch(FetchRequest::Page { page: 1, .. })));
    run.on_fetched(Ok(true));
    run.on_indexed();
    assert_eq!(run.state, RunState::Done);
    assert!(matches!(run.next_action(), RunAction::Finish));
}

#[test]
fn id_filtered_run_keeps_ids_and_stops_after_one_page() {
    let worker = ImportWorker::new(MagentoRestClient::new(magento()), ESClient::new(es_config()));
    let mut run = worker.start("category", Some(vec!["4".to_string()])).unwrap();
    let req = match run.next_action() {
        RunAction::Fetch(r) => r,
        _ => panic!("expected a fetch"),
    };
    assert!(matches!(req, FetchRequest::ByIds(ref v) if v == &vec!["4".to_string()]));
    let res = decode_response(&req, obj(vec![("items", JsonValue::Array(vec![]))])).unwrap();
    run.on_fetched(Ok(res.is_final_page));
    run.on_indexed();
    assert_eq!(run.state, RunState::Done);
}

#[test]
fn fetch_failure_aborts_run() {
    let worker = ImportWorker::new(MagentoRestClient::new(magento()), ESClient::new(es_config()));
    let mut run = ImportRun::new(worker.get_adapter("category").unwrap(), None);
    run.on_fetched(Err(FetchError::Transport));
    assert_eq!(run.state, RunState::Failed);
    assert!(matches!(run.next_action(), RunAction::Abort));
}

#[test]
fn bulk_request_upserts_by_id() {
    let es = ESClient::new(es_config());
    assert_eq!(es.index_name("product"), "shop_product");
    let p = Product::from_value(product_raw(9, "simple", "S9")).unwrap();
    let value = show(p.value());
    let req = product_batch(&es, vec![p]);
    assert_eq!(req.index, "shop_product");
    assert_eq!(req.body.len(), 2);
    assert_eq!(show(&req.body[0]), show(&obj(vec![("index", obj(vec![("_id", s("9"))]))])));
    assert_eq!(show(&req.body[1]), value);
}

#[test]
fn attributes_pass_through_verbatim() {
    let raw = obj(vec![("attribute_id", JsonValue::Int(93)), ("custom_attributes", s("kept"))]);
    let before = show(&raw);
    let a = Attribute::new(raw).unwrap();
    assert_eq!(a.id(), "93");
    assert_eq!(show(a.value()), before);
    let docs = AttributeMapper::new().map(vec![JsonValue::Null, obj(vec![("attribute_id", s("x"))])]);
    assert_eq!(docs.len(), 1);
}

#[test]
fn join_and_auth_header() {
    assert_eq!(join_ids(&vec!["1".to_string(), "2".to_string(), "3".to_string()]), "1,2,3");
    assert_eq!(join_ids(&vec![]), "");
    let client = MagentoRestClient::new(magento());
    assert_eq!(client.get_auth_header(), "Bearer tok");
    assert_eq!(client.get_api_url(), "http://shop.test/rest/V1");
}

#[test]
fn importer_builds_runs_by_name() {
    let config = AppConfiguration {
        version: "1".to_string(),
        redis: vec![],
        elasticsearch: es_config(),
        magento: magento(),
    };
    let importer = Mage2Importer::new(config);
    let run = importer.run("attribute", None).unwrap();
    assert_eq!(run.adapter.kind(), EntityKind::Attribute);
    assert!(importer.run("nope", None).is_none());
}

#[test]
fn product_without_type_id_or_sku_is_kept() {
    let raw = obj(vec![
        ("id", JsonValue::Int(42)),
        ("sku", s("X")),
        ("custom_attributes", JsonValue::Array(vec![obj(vec![("attribute_code", s("color")), ("value", s("red"))])])),
        ("media_gallery_entries", JsonValue::Array(vec![])),
    ]);
    let p = Product::from_value(raw).unwrap();
    assert_eq!(p.id(), "42");
    let expected = obj(vec![
        ("id", JsonValue::Int(42)),
        ("sku", s("X")),
        ("color", s("red")),
        ("media_gallery", JsonValue::Array(vec![])),
    ]);
    assert_eq!(show(p.value()), show(&expected));

    let bare = obj(vec![("id", JsonValue::Int(3)), ("media_gallery_entries", JsonValue::Array(vec![obj(vec![])]))]);
    let p = Product::from_value(bare).unwrap();
    let expected = obj(vec![
        ("id", JsonValue::Int(3)),
        ("media_gallery", JsonValue::Array(vec![obj(vec![("image", s("")), ("pos", JsonValue::Int(0)), ("typ", s("")), ("lab", s(""))])])),
    ]);
    assert_eq!(show(p.value()), show(&expected));
}

#[test]
fn configurable_product_without_sku_gets_empty_children() {
    let client = MagentoRestClient::new(magento());
    let mapper = ProductMapper::new(&client);
    let p = Product::from_value(obj(vec![("id", JsonValue::Int(8)), ("type_id", s("configurable"))])).unwrap();
    assert!(mapper.children_url(&p).is_none());
    let p = mapper.enrich(p, ChildrenOutcome::Degraded);
    assert_eq!(show(member(p.value(), "configurable_children").unwrap()), show(&JsonValue::Array(vec![])));
}

#[test]
fn raw_constructors_keep_record() {
    let raw = obj(vec![("id", JsonValue::Int(5)), ("custom_attributes", JsonValue::Array(vec![]))]);
    let before = show(&raw);
    let p = Product::new(raw).unwrap();
    assert_eq!(p.id(), "5");
    assert_eq!(show(p.value()), before);
    let c = Category::new(obj(vec![("id", s("c1"))])).unwrap();
    assert_eq!(c.id(), "c1");
    assert_eq!(Category::new(JsonValue::Null).err(), Some(RecordError::MissingId));
}
