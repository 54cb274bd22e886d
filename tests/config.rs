use event_store::config::load_connection;
use event_store::error::StoreError;
use event_store::json::Json;

fn s(x: &str) -> String {
    x.to_string()
}

fn doc(domains: Json) -> Json {
    Json::Object(vec![(
        s("prod"),
        Json::Object(vec![
            (s("source_db_uri"), Json::Str(s("postgres://src"))),
            (s("dest_db_uri"), Json::Str(s("postgres://dst/event-store"))),
            (s("domains"), domains),
        ]),
    )])
}

#[test]
fn connection_block_is_read() {
    let d = doc(Json::Object(vec![
        (s("billing"), Json::Str(s("com.example.billing"))),
        (s("shipping"), Json::Str(s("com.example.shipping"))),
    ]));
    let c = load_connection(&d, "prod").expect("well-formed");
    assert_eq!(c.source_db_uri, "postgres://src");
    assert_eq!(c.dest_db_uri, "postgres://dst/event-store");
    assert_eq!(c.domains, vec![(s("billing"), s("com.example.billing")), (s("shipping"), s("com.example.shipping"))]);
}

#[test]
fn missing_or_malformed_config_is_reported() {
    let d = doc(Json::Object(vec![(s("billing"), Json::Int(3))]));
    assert!(matches!(load_connection(&d, "prod"), Err(StoreError::Config)));
    let d = doc(Json::Object(vec![]));
    assert!(matches!(load_connection(&d, "staging"), Err(StoreError::Config)));
    assert!(matches!(load_connection(&Json::Null, "prod"), Err(StoreError::Config)));
}
