//! The watchlist endpoints: list the assets of a group through the cache,
//! and add or remove one asset, invalidating the group's cached collection
//! afterwards. The source-of-truth calls are taken as arguments, so the
//! policy here is checked for every outcome they can have.
use vstd::prelude::*;

use crate::cache::CacheDb;
use crate::coordinator::{
    key_views, lemma_remove_keys_one, mutate_and_invalidate, read_through_watchlists,
};
use crate::dto::{
    deser_watchlists, ser_watchlist_list, watchlist_views, wf_watchlist_vec, WatchlistResponse,
};
use crate::errors::{api_of_db, ApiError, DbError};
use crate::json::{
    chars_of, lemma_dec_digits_are_digits, lit_bytes, push_dec_i32, push_lit, ser_int,
};

verus! {

/// What a client sends to add or remove one asset.
#[derive(Debug, Clone, Copy, PartialEq, Eq, Structural)]
pub struct WatchlistCreateOrDeleteRequest {
    pub group_id: i32,
    pub asset_id: i32,
}

/// The cache key of a group's asset collection.
pub open spec fn watchlist_items_key(group_id: i32) -> Seq<char> {
    chars_of(lit_bytes("all_watchlist::"@) + ser_int(group_id as int))
}

/// The digits of an integer are below 128, as is a leading minus sign.
pub proof fn lemma_ser_int_ascii(i: int)
    ensures
        forall|k: int| 0 <= k < ser_int(i).len() ==> #[trigger] ser_int(i)[k] < 128,
{
    if i < 0 {
        lemma_dec_digits_are_digits((-i) as nat);
    } else {
        lemma_dec_digits_are_digits(i as nat);
    }
}

/// Derive the cache key of a group's asset collection. The same group always
/// yields the identical key.
pub fn all_watchlist_key(group_id: i32) -> (r: String)
    ensures
        r@ == watchlist_items_key(group_id),
{
    proof {
        reveal_strlit("all_watchlist::");
    }
    let mut out: Vec<u8> = Vec::new();
    push_lit(&mut out, "all_watchlist::");
    push_dec_i32(&mut out, group_id);
    proof {
        lemma_ser_int_ascii(group_id as int);
        assert(forall|k: int| 0 <= k < out@.len() ==> out@[k] < 128) by {
            assert(forall|k: int|
                0 <= k < lit_bytes("all_watchlist::"@).len()
                    ==> #[trigger] lit_bytes("all_watchlist::"@)[k] < 128);
        }
    }
    crate::json::ascii_to_string(out)
}

/// List the assets of one group, serving the cached collection when it is
/// Present and loading and remembering it when it is Absent.
pub fn retrieve_all_watchlist<F: FnOnce() -> Result<Vec<WatchlistResponse>, DbError>>(
    cache: &mut CacheDb,
    group_id: i32,
    loader: F,
) -> (r: Result<Vec<WatchlistResponse>, ApiError>)
    requires
        call_requires(loader, ()),
        forall|rows: Vec<WatchlistResponse>|
            call_ensures(loader, (), Ok::<Vec<WatchlistResponse>, DbError>(rows))
                ==> wf_watchlist_vec(rows@),
    ensures
        match r {
            Ok(ws) => {
                &&& wf_watchlist_vec(ws@)
                &&& if old(cache)@.contains_key(watchlist_items_key(group_id)) {
                    &&& (deser_watchlists(old(cache)@[watchlist_items_key(group_id)]) == Some(
                        watchlist_views(ws@),
                    ))
                    &&& final(cache)@ == old(cache)@
                } else {
                    &&& call_ensures(loader, (), Ok::<Vec<WatchlistResponse>, DbError>(ws))
                    &&& final(cache)@ == old(cache)@.insert(
                        watchlist_items_key(group_id),
                        ser_watchlist_list(watchlist_views(ws@)),
                    )
                }
            },
            Err(e) => {
                &&& final(cache)@ == old(cache)@
                &&& if old(cache)@.contains_key(watchlist_items_key(group_id)) {
                    &&& deser_watchlists(old(cache)@[watchlist_items_key(group_id)]) is None
                    &&& e is SerdeError
                } else {
                    exists|de: DbError| #![auto]
                        call_ensures(loader, (), Err::<Vec<WatchlistResponse>, DbError>(de)) && e
                            == api_of_db(de)
                }
            },
        },
{
    let key = all_watchlist_key(group_id);
    read_through_watchlists(cache, key.as_str(), loader)
}

/// Add one asset to a group: both the group and the asset must exist, the
/// insert must touch a row, and the group's cached collection is invalidated
/// before the call returns.
pub fn create_watchlist<
    G: FnOnce() -> Result<bool, DbError>,
    A: FnOnce() -> Result<bool, DbError>,
    M: FnOnce() -> Result<u64, DbError>,
>(
    cache: &mut CacheDb,
    body: &WatchlistCreateOrDeleteRequest,
    group_exists: G,
    asset_exists: A,
    mutation: M,
) -> (r: Result<(), ApiError>)
    requires
        call_requires(group_exists, ()),
        call_requires(asset_exists, ()),
        call_requires(mutation, ()),
    ensures
        match r {
            Ok(()) => {
                &&& call_ensures(group_exists, (), Ok::<bool, DbError>(true))
                &&& call_ensures(asset_exists, (), Ok::<bool, DbError>(true))
                &&& exists|n: u64| #![auto]
                    call_ensures(mutation, (), Ok::<u64, DbError>(n)) && n > 0
                &&& final(cache)@ == old(cache)@.remove(watchlist_items_key(body.group_id))
            },
            Err(e) => {
                &&& final(cache)@ == old(cache)@
                &&& match e {
                    ApiError::BadRequest(s) => {
                        ||| (s@ == "Watchlist Group not found"@ && call_ensures(
                            group_exists,
                            (),
                            Ok::<bool, DbError>(false),
                        ))
                        ||| (s@ == "Asset not found"@ && call_ensures(
                            group_exists,
                            (),
                            Ok::<bool, DbError>(true),
                        ) && call_ensures(asset_exists, (), Ok::<bool, DbError>(false)))
                    },
                    ApiError::InternalServerError => {
                        ||| call_ensures(group_exists, (), Err::<bool, DbError>(DbError::Other))
                        ||| call_ensures(asset_exists, (), Err::<bool, DbError>(DbError::Other))
                        ||| call_ensures(mutation, (), Err::<u64, DbError>(DbError::Other))
                        ||| call_ensures(mutation, (), Ok::<u64, DbError>(0))
                    },
                    ApiError::NotFound => {
                        ||| call_ensures(
                            group_exists,
                            (),
                            Err::<bool, DbError>(DbError::RowNotFound),
                        )
                        ||| call_ensures(
                            asset_exists,
                            (),
                            Err::<bool, DbError>(DbError::RowNotFound),
                        )
                        ||| call_ensures(mutation, (), Err::<u64, DbError>(DbError::RowNotFound))
                    },
                    _ => false,
                }
            },
        },
{
    let ge = match group_exists() {
        Ok(b) => b,
        Err(de) => {
            return Err(ApiError::from(de));
        },
    };
    if !ge {
        return Err(ApiError::BadRequest(String::from_str("Watchlist Group not found")));
    }
    let ae = match asset_exists() {
        Ok(b) => b,
        Err(de) => {
            return Err(ApiError::from(de));
        },
    };
    if !ae {
        return Err(ApiError::BadRequest(String::from_str("Asset not found")));
    }
    let mut keys: Vec<String> = Vec::new();
    keys.push(all_watchlist_key(body.group_id));
    match mutate_and_invalidate(cache, &keys, mutation) {
        Ok(n) => {
            if n == 0 {
                return Err(ApiError::InternalServerError);
            }
            proof {
                assert(key_views(keys@) =~= seq![watchlist_items_key(body.group_id)]);
                lemma_remove_keys_one(old(cache)@, watchlist_items_key(body.group_id));
            }
            Ok(())
        },
        Err(e) => Err(e),
    }
}

/// Remove one asset from a group: the watchlist must exist for this caller,
/// the delete must touch a row, and the group's cached collection is
/// invalidated before the call returns.
pub fn delete_watchlist<
    F: FnOnce() -> Result<bool, DbError>,
    M: FnOnce() -> Result<u64, DbError>,
>(
    cache: &mut CacheDb,
    body: &WatchlistCreateOrDeleteRequest,
    watchlist_exists: F,
    mutation: M,
) -> (r: Result<(), ApiError>)
    requires
        call_requires(watchlist_exists, ()),
        call_requires(mutation, ()),
    ensures
        match r {
            Ok(()) => {
                &&& call_ensures(watchlist_exists, (), Ok::<bool, DbError>(true))
                &&& exists|n: u64| #![auto]
                    call_ensures(mutation, (), Ok::<u64, DbError>(n)) && n > 0
                &&& final(cache)@ == old(cache)@.remove(watchlist_items_key(body.group_id))
            },
            Err(e) => {
                &&& final(cache)@ == old(cache)@
                &&& match e {
                    ApiError::BadRequest(s) => s@ == "Watchlist not found"@ && call_ensures(
                        watchlist_exists,
                        (),
                        Ok::<bool, DbError>(false),
                    ),
                    ApiError::InternalServerError => {
                        ||| call_ensures(
                            watchlist_exists,
                            (),
                            Err::<bool, DbError>(DbError::Other),
                        )
                        ||| call_ensures(mutation, (), Err::<u64, DbError>(DbError::Other))
                        ||| call_ensures(mutation, (), Ok::<u64, DbError>(0))
                    },
                    ApiError::NotFound => {
                        ||| call_ensures(
                            watchlist_exists,
                            (),
                            Err::<bool, DbError>(DbError::RowNotFound),
                        )
                        ||| call_ensures(mutation, (), Err::<u64, DbError>(DbError::RowNotFound))
                    },
                    _ => false,
                }
            },
        },
{
    let found = match watchlist_exists() {
        Ok(b) => b,
        Err(de) => {
            return Err(ApiError::from(de));
        },
    };
    if !found {
        return Err(ApiError::BadRequest(String::from_str("Watchlist not found")));
    }
    let mut keys: Vec<String> = Vec::new();
    keys.push(all_watchlist_key(body.group_id));
    match mutate_and_invalidate(cache, &keys, mutation) {
        Ok(n) => {
            if n == 0 {
                return Err(ApiError::InternalServerError);
            }
            proof {
                assert(key_views(keys@) =~= seq![watchlist_items_key(body.group_id)]);
                lemma_remove_keys_one(old(cache)@, watchlist_items_key(body.group_id));
            }
            Ok(())
        },
        Err(e) => Err(e),
    }
}

} // verus!
