use watchlist_core::b64::b64_decode_bytes;
use watchlist_core::dto::{
    deserialize_groups, deserialize_watchlists, serialize_groups, serialize_watchlists,
    WatchlistGroupResponse, WatchlistResponse,
};
use watchlist_core::errors::ErrorResponse;
use watchlist_core::helpers::{format_datetime, DateTimeParts};
use watchlist_core::watchlist::all_watchlist_key;
use watchlist_core::watchlistgroup::all_watchlist_group_key;

#[test]
fn watchlist_serialization_has_exact_shape() {
    let items = vec![
        WatchlistResponse { id: 1, name: "Bitcoin".to_string(), symbol: "BTC".to_string() },
        WatchlistResponse { id: 2, name: "Ether".to_string(), symbol: "ETH".to_string() },
    ];
    let bytes = serialize_watchlists(&items);
    assert_eq!(
        bytes,
        b"[{\"id\":1,\"name\":\"Bitcoin\",\"symbol\":\"BTC\"},{\"id\":2,\"name\":\"Ether\",\"symbol\":\"ETH\"}]"
            .to_vec()
    );
}

#[test]
fn empty_collection_serializes_to_empty_array() {
    let bytes = serialize_watchlists(&vec![]);
    assert_eq!(bytes, b"[]".to_vec());
    let back = deserialize_watchlists(&bytes).unwrap();
    assert!(back.is_empty());
}

#[test]
fn watchlist_round_trip_preserves_every_field() {
    let items = vec![
        WatchlistResponse { id: -5, name: "a\"b\\c".to_string(), symbol: "X_1".to_string() },
        WatchlistResponse { id: 2147483647, name: "plain".to_string(), symbol: "P".to_string() },
    ];
    let bytes = serialize_watchlists(&items);
    let back = deserialize_watchlists(&bytes).unwrap();
    assert_eq!(back.len(), 2);
    assert_eq!(back[0].id, -5);
    assert_eq!(back[0].name, "a\"b\\c");
    assert_eq!(back[0].symbol, "X_1");
    assert_eq!(back[1].id, 2147483647);
    assert_eq!(back[1].name, "plain");
}

#[test]
fn group_round_trip_preserves_every_field() {
    let items = vec![WatchlistGroupResponse {
        id: 1,
        user_id: 7,
        name: "DeFi".to_string(),
        created_at: "2024-01-02 03:04:05".to_string(),
    }];
    let bytes = serialize_groups(&items);
    assert_eq!(
        bytes,
        b"[{\"id\":1,\"user_id\":7,\"name\":\"DeFi\",\"created_at\":\"2024-01-02 03:04:05\"}]"
            .to_vec()
    );
    let back = deserialize_groups(&bytes).unwrap();
    assert_eq!(back.len(), 1);
    assert_eq!(back[0].id, 1);
    assert_eq!(back[0].user_id, 7);
    assert_eq!(back[0].name, "DeFi");
    assert_eq!(back[0].created_at, "2024-01-02 03:04:05");
}

#[test]
fn corrupt_entries_do_not_decode() {
    assert!(deserialize_watchlists(&b"garbage".to_vec()).is_none());
    assert!(deserialize_watchlists(&b"{}".to_vec()).is_none());
    assert!(deserialize_watchlists(&b"[{\"id\":1,\"name\":\"a\",\"symbol\":\"b\"}]x".to_vec())
        .is_none());
    assert!(deserialize_groups(&b"[{\"id\":1}]".to_vec()).is_none());
    assert!(deserialize_watchlists(&b"[{\"id\":99999999999,\"name\":\"a\",\"symbol\":\"b\"}]"
        .to_vec())
        .is_none());
}

#[test]
fn error_body_lists_each_message() {
    let one = ErrorResponse::new(vec!["Missing Token".to_string()]).to_bytes();
    assert_eq!(one, b"{\"errors\":[\"Missing Token\"]}".to_vec());
    let two =
        ErrorResponse::new(vec!["first".to_string(), "sec\"ond".to_string()]).to_bytes();
    assert_eq!(two, b"{\"errors\":[\"first\",\"sec\\\"ond\"]}".to_vec());
    let none = ErrorResponse::new(vec![]).to_bytes();
    assert_eq!(none, b"{\"errors\":[]}".to_vec());
}

#[test]
fn datetime_renders_zero_padded() {
    let d = DateTimeParts { year: 2023, month: 1, day: 5, hour: 7, minute: 9, second: 3 };
    assert_eq!(format_datetime(Some(d)), "2023-01-05 07:09:03");
    let early = DateTimeParts { year: 45, month: 12, day: 31, hour: 23, minute: 59, second: 59 };
    assert_eq!(format_datetime(Some(early)), "0045-12-31 23:59:59");
    assert_eq!(format_datetime(None), "");
}

#[test]
fn cache_keys_are_deterministic() {
    assert_eq!(all_watchlist_key(42), "all_watchlist::42");
    assert_eq!(all_watchlist_key(42), all_watchlist_key(42));
    assert_eq!(all_watchlist_group_key(7), "all_watchlist_group::7");
    assert_eq!(all_watchlist_key(-3), "all_watchlist::-3");
}

#[test]
fn base64url_decoding_is_strict() {
    assert_eq!(b64_decode_bytes(&b"TWFu".to_vec()), Some(b"Man".to_vec()));
    assert_eq!(b64_decode_bytes(&b"TWE".to_vec()), Some(b"Ma".to_vec()));
    assert_eq!(b64_decode_bytes(&b"TQ".to_vec()), Some(b"M".to_vec()));
    assert_eq!(b64_decode_bytes(&b"".to_vec()), Some(b"".to_vec()));
    assert_eq!(b64_decode_bytes(&b"TWFuT".to_vec()), None);
    assert_eq!(b64_decode_bytes(&b"TW=u".to_vec()), None);
    assert_eq!(b64_decode_bytes(&b"TR".to_vec()), None);
}

