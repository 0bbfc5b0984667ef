use std::cell::Cell;

use watchlist_core::cache::{
    auth_command, classify_auth_reply, classify_get_reply, del_command, get_command, set_command,
    CacheDb, WireReply,
};
use watchlist_core::coordinator::{mutate_and_invalidate, read_through_watchlists};
use watchlist_core::errors::{ApiError, DbError};
use watchlist_core::helpers::DateTimeParts;
use watchlist_core::dto::{WatchlistGroupResponse, WatchlistResponse};
use watchlist_core::watchlist::{create_watchlist, delete_watchlist, retrieve_all_watchlist,
    WatchlistCreateOrDeleteRequest};
use watchlist_core::watchlistgroup::{
    create_watchlist_group, delete_watchlist_group, retrieve_all_watchlist_groups,
    update_watchlist_group,
};

fn sample_rows() -> Vec<WatchlistResponse> {
    vec![
        WatchlistResponse { id: 1, name: "Bitcoin".to_string(), symbol: "BTC".to_string() },
    ]
}

#[test]
fn commands_are_arrays_of_byte_strings() {
    assert_eq!(auth_command("pw"), vec![b"AUTH".to_vec(), b"pw".to_vec()]);
    assert_eq!(get_command("k1"), vec![b"GET".to_vec(), b"k1".to_vec()]);
    assert_eq!(
        set_command("k1", b"payload".to_vec()),
        vec![b"SET".to_vec(), b"k1".to_vec(), b"payload".to_vec()]
    );
    assert_eq!(del_command("k1"), vec![b"DEL".to_vec(), b"k1".to_vec()]);
}

#[test]
fn get_replies_classify_four_ways() {
    assert!(matches!(
        classify_get_reply(WireReply::Bulk(b"x".to_vec())),
        Ok(b) if b == b"x".to_vec()
    ));
    let miss = classify_get_reply(WireReply::Nil);
    assert!(matches!(miss, Err(ApiError::RedisNil)));
    let err = classify_get_reply(WireReply::Error("boom".to_string()));
    match err {
        Err(e @ ApiError::RedisError(_)) => assert_eq!(e.status_code(), 500),
        other => panic!("expected RedisError, got {:?}", other),
    }
    let odd = classify_get_reply(WireReply::Other);
    assert!(matches!(odd, Err(ApiError::RedisError(_))));
}

#[test]
fn handshake_accepts_only_ok() {
    assert!(classify_auth_reply(&WireReply::Status("OK".to_string())));
    assert!(!classify_auth_reply(&WireReply::Status("NO".to_string())));
    assert!(!classify_auth_reply(&WireReply::Nil));
    assert!(!classify_auth_reply(&WireReply::Error("denied".to_string())));
}

#[test]
fn read_through_loads_once_then_serves_cached() {
    let mut cache = CacheDb::new();
    let calls = Cell::new(0);
    let rows = sample_rows();
    let loader = || -> Result<Vec<WatchlistResponse>, DbError> {
        calls.set(calls.get() + 1);
        Ok(rows)
    };
    let first = read_through_watchlists(&mut cache, "k", loader).unwrap();
    assert_eq!(calls.get(), 1);
    assert_eq!(first.len(), 1);
    assert!(cache.get("k").is_some());

    let second_loader = || -> Result<Vec<WatchlistResponse>, DbError> {
        panic!("a cached key must not consult the loader");
    };
    let second = read_through_watchlists(&mut cache, "k", second_loader).unwrap();
    assert_eq!(second.len(), 1);
    assert_eq!(second[0].id, 1);
    assert_eq!(second[0].name, "Bitcoin");
    assert_eq!(calls.get(), 1);
}

#[test]
fn read_through_fails_closed_on_corrupt_entry() {
    let mut cache = CacheDb::new();
    cache.set("k", b"not a collection".to_vec());
    let loader = || -> Result<Vec<WatchlistResponse>, DbError> {
        panic!("a corrupt entry must surface, not fall through to the loader");
    };
    let r = read_through_watchlists(&mut cache, "k", loader);
    match r {
        Err(e @ ApiError::SerdeError(_)) => assert_eq!(e.status_code(), 500),
        other => panic!("expected SerdeError, got {:?}", other),
    }
}

#[test]
fn read_through_surfaces_loader_errors() {
    let mut cache = CacheDb::new();
    let loader = || -> Result<Vec<WatchlistResponse>, DbError> { Err(DbError::Other) };
    let r = read_through_watchlists(&mut cache, "k", loader);
    assert!(matches!(r, Err(ApiError::InternalServerError)));
    assert!(cache.get("k").is_none());
}

#[test]
fn invalidation_forces_a_reload() {
    let mut cache = CacheDb::new();
    let pre = sample_rows();
    let loader = move || -> Result<Vec<WatchlistResponse>, DbError> { Ok(pre) };
    read_through_watchlists(&mut cache, "k", loader).unwrap();
    assert!(cache.get("k").is_some());

    let keys = vec!["k".to_string()];
    let n = mutate_and_invalidate(&mut cache, &keys, || -> Result<u64, DbError> { Ok(1) })
        .unwrap();
    assert_eq!(n, 1);
    assert!(cache.get("k").is_none());

    let calls = Cell::new(0);
    let post = vec![
        WatchlistResponse { id: 9, name: "Solana".to_string(), symbol: "SOL".to_string() },
    ];
    let reload = || -> Result<Vec<WatchlistResponse>, DbError> {
        calls.set(calls.get() + 1);
        Ok(post)
    };
    let after = read_through_watchlists(&mut cache, "k", reload).unwrap();
    assert_eq!(calls.get(), 1);
    assert_eq!(after[0].id, 9);
    assert_eq!(after[0].name, "Solana");
}

#[test]
fn failed_or_empty_mutations_skip_invalidation() {
    let mut cache = CacheDb::new();
    cache.set("k", b"[]".to_vec());
    let keys = vec!["k".to_string()];
    let zero = mutate_and_invalidate(&mut cache, &keys, || -> Result<u64, DbError> { Ok(0) })
        .unwrap();
    assert_eq!(zero, 0);
    assert!(cache.get("k").is_some());
    let failed = mutate_and_invalidate(&mut cache, &keys, || -> Result<u64, DbError> {
        Err(DbError::RowNotFound)
    });
    assert!(matches!(failed, Err(ApiError::NotFound)));
    assert!(cache.get("k").is_some());
}

#[test]
fn group_lifecycle_for_one_user() {
    let mut cache = CacheDb::new();

    let empty = retrieve_all_watchlist_groups(&mut cache, 7, || -> Result<
        Vec<WatchlistGroupResponse>,
        DbError,
    > { Ok(vec![]) })
    .unwrap();
    assert!(empty.is_empty());
    assert_eq!(cache.get("all_watchlist_group::7"), Some(b"[]".to_vec()));

    let created = create_watchlist_group(&mut cache, 7, "DeFi".to_string(), || -> Result<
        (i32, Option<DateTimeParts>),
        DbError,
    > {
        Ok((1, Some(DateTimeParts { year: 2024, month: 1, day: 2, hour: 3, minute: 4, second: 5 })))
    })
    .unwrap();
    assert_eq!(created.id, 1);
    assert_eq!(created.user_id, 7);
    assert_eq!(created.name, "DeFi");
    assert_eq!(created.created_at, "2024-01-02 03:04:05");
    assert!(cache.get("all_watchlist_group::7").is_none());

    let calls = Cell::new(0);
    let reloaded = retrieve_all_watchlist_groups(&mut cache, 7, || -> Result<
        Vec<WatchlistGroupResponse>,
        DbError,
    > {
        calls.set(calls.get() + 1);
        Ok(vec![WatchlistGroupResponse {
            id: 1,
            user_id: 7,
            name: "DeFi".to_string(),
            created_at: "2024-01-02 03:04:05".to_string(),
        }])
    })
    .unwrap();
    assert_eq!(calls.get(), 1);
    assert_eq!(reloaded.len(), 1);
    assert_eq!(reloaded[0].name, "DeFi");
    assert!(cache.get("all_watchlist_group::7").is_some());
}

#[test]
fn create_watchlist_checks_then_invalidates() {
    let mut cache = CacheDb::new();
    cache.set("all_watchlist::3", b"[]".to_vec());
    let body = WatchlistCreateOrDeleteRequest { group_id: 3, asset_id: 10 };

    let missing_group = create_watchlist(
        &mut cache,
        &body,
        || -> Result<bool, DbError> { Ok(false) },
        || -> Result<bool, DbError> { panic!("asset check must not run") },
        || -> Result<u64, DbError> { panic!("mutation must not run") },
    );
    match missing_group {
        Err(e @ ApiError::BadRequest(_)) => {
            assert_eq!(e.status_code(), 400);
            assert_eq!(e.message(), "Bad request: Watchlist Group not found");
        }
        other => panic!("expected BadRequest, got {:?}", other),
    }
    assert!(cache.get("all_watchlist::3").is_some());

    let missing_asset = create_watchlist(
        &mut cache,
        &body,
        || -> Result<bool, DbError> { Ok(true) },
        || -> Result<bool, DbError> { Ok(false) },
        || -> Result<u64, DbError> { panic!("mutation must not run") },
    );
    match missing_asset {
        Err(ApiError::BadRequest(s)) => assert_eq!(s, "Asset not found"),
        other => panic!("expected BadRequest, got {:?}", other),
    }

    let no_rows = create_watchlist(
        &mut cache,
        &body,
        || -> Result<bool, DbError> { Ok(true) },
        || -> Result<bool, DbError> { Ok(true) },
        || -> Result<u64, DbError> { Ok(0) },
    );
    assert!(matches!(no_rows, Err(ApiError::InternalServerError)));
    assert!(cache.get("all_watchlist::3").is_some());

    create_watchlist(
        &mut cache,
        &body,
        || -> Result<bool, DbError> { Ok(true) },
        || -> Result<bool, DbError> { Ok(true) },
        || -> Result<u64, DbError> { Ok(1) },
    )
    .unwrap();
    assert!(cache.get("all_watchlist::3").is_none());
}

#[test]
fn delete_watchlist_requires_an_existing_row() {
    let mut cache = CacheDb::new();
    cache.set("all_watchlist::3", b"[]".to_vec());
    let body = WatchlistCreateOrDeleteRequest { group_id: 3, asset_id: 10 };

    let missing = delete_watchlist(
        &mut cache,
        &body,
        || -> Result<bool, DbError> { Ok(false) },
        || -> Result<u64, DbError> { panic!("mutation must not run") },
    );
    match missing {
        Err(ApiError::BadRequest(s)) => assert_eq!(s, "Watchlist not found"),
        other => panic!("expected BadRequest, got {:?}", other),
    }

    delete_watchlist(
        &mut cache,
        &body,
        || -> Result<bool, DbError> { Ok(true) },
        || -> Result<u64, DbError> { Ok(1) },
    )
    .unwrap();
    assert!(cache.get("all_watchlist::3").is_none());
}

#[test]
fn update_group_invalidates_the_user_collection() {
    let mut cache = CacheDb::new();
    cache.set("all_watchlist_group::7", b"[]".to_vec());
    let updated = update_watchlist_group(&mut cache, 7, 1, || -> Result<
        (String, Option<DateTimeParts>),
        DbError,
    > { Ok(("Renamed".to_string(), None)) })
    .unwrap();
    assert_eq!(updated.id, 1);
    assert_eq!(updated.user_id, 7);
    assert_eq!(updated.name, "Renamed");
    assert_eq!(updated.created_at, "");
    assert!(cache.get("all_watchlist_group::7").is_none());
}

#[test]
fn delete_group_invalidates_both_collections() {
    let mut cache = CacheDb::new();
    cache.set("all_watchlist_group::7", b"[]".to_vec());
    cache.set("all_watchlist::1", b"[]".to_vec());

    let gone = delete_watchlist_group(&mut cache, 7, 1, || -> Result<u64, DbError> { Ok(0) });
    match gone {
        Err(e @ ApiError::NotFound) => assert_eq!(e.status_code(), 404),
        other => panic!("expected NotFound, got {:?}", other),
    }
    assert!(cache.get("all_watchlist_group::7").is_some());

    delete_watchlist_group(&mut cache, 7, 1, || -> Result<u64, DbError> { Ok(1) }).unwrap();
    assert!(cache.get("all_watchlist_group::7").is_none());
    assert!(cache.get("all_watchlist::1").is_none());
}

#[test]
fn retrieve_watchlist_uses_the_group_key() {
    let mut cache = CacheDb::new();
    let rows = sample_rows();
    let loaded =
        retrieve_all_watchlist(&mut cache, 3, move || -> Result<Vec<WatchlistResponse>, DbError> {
            Ok(rows)
        })
        .unwrap();
    assert_eq!(loaded.len(), 1);
    assert_eq!(
        cache.get("all_watchlist::3"),
        Some(b"[{\"id\":1,\"name\":\"Bitcoin\",\"symbol\":\"BTC\"}]".to_vec())
    );
}
