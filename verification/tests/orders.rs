use integrations_api::api;
use integrations_api::db;

#[test]
fn test_order_default() {
    assert_eq!(db::Order::default(), db::Order::Asc);
}

#[test]
fn test_order_display() {
    assert_eq!(db::Order::Asc.to_string(), "ASC");
    assert_eq!(db::Order::Desc.to_string(), "DESC");
    assert_eq!(db::Order::Asc.to_string(), "ASC");
    assert_eq!(db::Order::Desc.to_string(), "DESC");
}

#[test]
fn test_order_is_default_to_desc() {
    assert_eq!(api::types::Order::default(), api::types::Order::Desc);
}

#[test]
fn test_order_converts_to_db_order_for_asc() {
    let api_order = api::types::Order::Asc;
    let db_order = db::Order::from(api_order);
    assert_eq!(db_order, db::Order::Asc);

    let db_order: db::Order = api_order.into();
    assert_eq!(db_order, db::Order::Asc);
}

#[test]
fn test_order_converts_to_db_order_for_desc() {
    let api_order = api::types::Order::Desc;
    let db_order = db::Order::from(api_order);
    assert_eq!(db_order, db::Order::Desc);

    let db_order: db::Order = api_order.into();
    assert_eq!(db_order, db::Order::Desc);
}
