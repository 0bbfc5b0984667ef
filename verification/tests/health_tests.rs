use watchlist_core::health::get_health;

#[test]
fn test_unit_get_health() {
    let result = get_health();

    assert!(result.is_ok());
    assert_eq!(result.unwrap().status, "ok".to_string())
}
