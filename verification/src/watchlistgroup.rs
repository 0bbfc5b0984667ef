//! The watchlist-group endpoints: list a user's groups through the cache,
//! and create, rename or delete a group, invalidating the affected cached
//! collections before the call returns.
use vstd::prelude::*;

use crate::cache::CacheDb;
use crate::coordinator::{
    key_views, lemma_remove_keys_two, mutate_and_invalidate, read_through_groups,
};
use crate::dto::{
    deser_groups, group_views, ser_group_list, wf_group_vec, WatchlistGroupResponse,
};
use crate::errors::{api_of_db, ApiError, DbError};
use crate::helpers::{datetime_text, format_datetime, DateTimeParts};
use crate::json::{chars_of, lit_bytes, push_dec_i32, push_lit, ser_int};
use crate::watchlist::{all_watchlist_key, lemma_ser_int_ascii, watchlist_items_key};

verus! {

/// What a client sends to create or rename a group.
#[derive(Debug, Clone)]
pub struct WatchlistGroupCreateOrUpdateRequest {
    pub name: String,
}

/// The cache key of a user's group collection.
pub open spec fn user_groups_key(user_id: i32) -> Seq<char> {
    chars_of(lit_bytes("all_watchlist_group::"@) + ser_int(user_id as int))
}

/// Derive the cache key of a user's group collection. The same user always
/// yields the identical key.
pub fn all_watchlist_group_key(user_id: i32) -> (r: String)
    ensures
        r@ == user_groups_key(user_id),
{
    proof {
        reveal_strlit("all_watchlist_group::");
    }
    let mut out: Vec<u8> = Vec::new();
    push_lit(&mut out, "all_watchlist_group::");
    push_dec_i32(&mut out, user_id);
    proof {
        lemma_ser_int_ascii(user_id as int);
        assert(forall|k: int| 0 <= k < out@.len() ==> out@[k] < 128) by {
            assert(forall|k: int|
                0 <= k < lit_bytes("all_watchlist_group::"@).len()
                    ==> #[trigger] lit_bytes("all_watchlist_group::"@)[k] < 128);
        }
    }
    crate::json::ascii_to_string(out)
}

/// List one user's groups, serving the cached collection when it is Present
/// and loading and remembering it when it is Absent.
pub fn retrieve_all_watchlist_groups<F: FnOnce() -> Result<Vec<WatchlistGroupResponse>, DbError>>(
    cache: &mut CacheDb,
    user_id: i32,
    loader: F,
) -> (r: Result<Vec<WatchlistGroupResponse>, ApiError>)
    requires
        call_requires(loader, ()),
        forall|rows: Vec<WatchlistGroupResponse>|
            call_ensures(loader, (), Ok::<Vec<WatchlistGroupResponse>, DbError>(rows))
                ==> wf_group_vec(rows@),
    ensures
        match r {
            Ok(ws) => {
                &&& wf_group_vec(ws@)
                &&& if old(cache)@.contains_key(user_groups_key(user_id)) {
                    &&& (deser_groups(old(cache)@[user_groups_key(user_id)]) == Some(
                        group_views(ws@),
                    ))
                    &&& final(cache)@ == old(cache)@
                } else {
                    &&& call_ensures(loader, (), Ok::<Vec<WatchlistGroupResponse>, DbError>(ws))
                    &&& final(cache)@ == old(cache)@.insert(
                        user_groups_key(user_id),
                        ser_group_list(group_views(ws@)),
                    )
                }
            },
            Err(e) => {
                &&& final(cache)@ == old(cache)@
                &&& if old(cache)@.contains_key(user_groups_key(user_id)) {
                    &&& deser_groups(old(cache)@[user_groups_key(user_id)]) is None
                    &&& e is SerdeError
                } else {
                    exists|de: DbError| #![auto]
                        call_ensures(loader, (), Err::<Vec<WatchlistGroupResponse>, DbError>(de))
                            && e == api_of_db(de)
                }
            },
        },
{
    let key = all_watchlist_group_key(user_id);
    read_through_groups(cache, key.as_str(), loader)
}

/// Create a group for a user: the insert returns the new row's id and
/// creation time; the user's cached group collection is invalidated before
/// the new group is returned.
pub fn create_watchlist_group<
    M: FnOnce() -> Result<(i32, Option<DateTimeParts>), DbError>,
>(
    cache: &mut CacheDb,
    user_id: i32,
    name: String,
    mutation: M,
) -> (r: Result<WatchlistGroupResponse, ApiError>)
    requires
        call_requires(mutation, ()),
    ensures
        match r {
            Ok(g) => {
                &&& exists|row: (i32, Option<DateTimeParts>)| #![auto]
                    call_ensures(mutation, (), Ok::<(i32, Option<DateTimeParts>), DbError>(row))
                        && g.id == row.0 && g.created_at@ == datetime_text(row.1)
                &&& g.user_id == user_id
                &&& g.name@ == name@
                &&& final(cache)@ == old(cache)@.remove(user_groups_key(user_id))
            },
            Err(e) => {
                &&& final(cache)@ == old(cache)@
                &&& exists|de: DbError| #![auto]
                    call_ensures(mutation, (), Err::<(i32, Option<DateTimeParts>), DbError>(de))
                        && e == api_of_db(de)
            },
        },
{
    match mutation() {
        Ok((id, created_at)) => {
            let text = format_datetime(created_at);
            let g = WatchlistGroupResponse { id, user_id, name, created_at: text };
            let key = all_watchlist_group_key(user_id);
            cache.del(key.as_str());
            proof {
                assert(call_ensures(
                    mutation,
                    (),
                    Ok::<(i32, Option<DateTimeParts>), DbError>((id, created_at)),
                ));
            }
            Ok(g)
        },
        Err(de) => Err(ApiError::from(de)),
    }
}

/// Rename a group of a user: the update returns the row's name and creation
/// time; the user's cached group collection is invalidated before the
/// updated group is returned.
pub fn update_watchlist_group<
    M: FnOnce() -> Result<(String, Option<DateTimeParts>), DbError>,
>(
    cache: &mut CacheDb,
    user_id: i32,
    group_id: i32,
    mutation: M,
) -> (r: Result<WatchlistGroupResponse, ApiError>)
    requires
        call_requires(mutation, ()),
    ensures
        match r {
            Ok(g) => {
                &&& exists|row: (String, Option<DateTimeParts>)| #![auto]
                    call_ensures(mutation, (), Ok::<(String, Option<DateTimeParts>), DbError>(row))
                        && g.name@ == row.0@ && g.created_at@ == datetime_text(row.1)
                &&& g.id == group_id
                &&& g.user_id == user_id
                &&& final(cache)@ == old(cache)@.remove(user_groups_key(user_id))
            },
            Err(e) => {
                &&& final(cache)@ == old(cache)@
                &&& exists|de: DbError| #![auto]
                    call_ensures(mutation, (), Err::<(String, Option<DateTimeParts>), DbError>(de))
                        && e == api_of_db(de)
            },
        },
{
    match mutation() {
        Ok((new_name, created_at)) => {
            let ghost row = (new_name, created_at);
            let text = format_datetime(created_at);
            let g = WatchlistGroupResponse { id: group_id, user_id, name: new_name, created_at: text };
            let key = all_watchlist_group_key(user_id);
            cache.del(key.as_str());
            proof {
                assert(call_ensures(
                    mutation,
                    (),
                    Ok::<(String, Option<DateTimeParts>), DbError>(row),
                ));
            }
            Ok(g)
        },
        Err(de) => Err(ApiError::from(de)),
    }
}

/// Delete a group of a user: the delete must touch a row, and both the
/// user's cached group collection and the group's cached asset collection
/// are invalidated before the call returns.
pub fn delete_watchlist_group<M: FnOnce() -> Result<u64, DbError>>(
    cache: &mut CacheDb,
    user_id: i32,
    group_id: i32,
    mutation: M,
) -> (r: Result<(), ApiError>)
    requires
        call_requires(mutation, ()),
    ensures
        match r {
            Ok(()) => {
                &&& exists|n: u64| #![auto]
                    call_ensures(mutation, (), Ok::<u64, DbError>(n)) && n > 0
                &&& final(cache)@ == old(cache)@.remove(user_groups_key(user_id)).remove(
                    watchlist_items_key(group_id),
                )
            },
            Err(e) => {
                &&& final(cache)@ == old(cache)@
                &&& match e {
                    ApiError::NotFound => {
                        ||| call_ensures(mutation, (), Ok::<u64, DbError>(0))
                        ||| call_ensures(mutation, (), Err::<u64, DbError>(DbError::RowNotFound))
                    },
                    ApiError::InternalServerError => call_ensures(
                        mutation,
                        (),
                        Err::<u64, DbError>(DbError::Other),
                    ),
                    _ => false,
                }
            },
        },
{
    let mut keys: Vec<String> = Vec::new();
    keys.push(all_watchlist_group_key(user_id));
    keys.push(all_watchlist_key(group_id));
    match mutate_and_invalidate(cache, &keys, mutation) {
        Ok(n) => {
            if n == 0 {
                return Err(ApiError::NotFound);
            }
            proof {
                assert(key_views(keys@) =~= seq![
                    user_groups_key(user_id),
                    watchlist_items_key(group_id),
                ]);
                lemma_remove_keys_two(
                    old(cache)@,
                    user_groups_key(user_id),
                    watchlist_items_key(group_id),
                );
            }
            Ok(())
        },
        Err(e) => Err(e),
    }
}

} // verus!
