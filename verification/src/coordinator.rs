//! The cache-aside coordinator: the one place that reads the cache, fills it
//! on a miss, and clears it on a write. Reads serve the cached entry when one
//! is there (a corrupt entry fails the request rather than being masked),
//! load from the source of truth otherwise, and remember what was loaded.
//! Writes run the mutation first and clear every affected key only when the
//! mutation reports success on at least one row.
use vstd::prelude::*;

use crate::cache::CacheDb;
use crate::dto::{
    deser_watchlists, deserialize_watchlists, serialize_watchlists, ser_watchlist_list,
    watchlist_views, wf_watchlist_seq, wf_watchlist_vec, WatchlistResponse,
    deser_groups, deserialize_groups, serialize_groups, ser_group_list, group_views, wf_group_seq,
    wf_group_vec, WatchlistGroupResponse, lemma_watchlists_round_trip, lemma_groups_round_trip,
};
use crate::errors::{api_of_db, ApiError, DbError};

verus! {

/// The cache contents after a set of keys has been invalidated, first key
/// first.
pub open spec fn remove_keys(m: Map<Seq<char>, Seq<u8>>, ks: Seq<Seq<char>>) -> Map<
    Seq<char>,
    Seq<u8>,
>
    decreases ks.len(),
{
    if ks.len() == 0 {
        m
    } else {
        remove_keys(m.remove(ks[0]), ks.skip(1))
    }
}

pub open spec fn key_views(ks: Seq<String>) -> Seq<Seq<char>> {
    ks.map_values(|k: String| k@)
}

/// Invalidating a single key is removing it.
pub proof fn lemma_remove_keys_one(m: Map<Seq<char>, Seq<u8>>, k: Seq<char>)
    ensures
        remove_keys(m, seq![k]) == m.remove(k),
{
    assert(seq![k].skip(1) =~= Seq::<Seq<char>>::empty());
    assert(remove_keys(m.remove(k), Seq::<Seq<char>>::empty()) == m.remove(k));
}

/// Invalidating two keys removes both, first key first.
pub proof fn lemma_remove_keys_two(m: Map<Seq<char>, Seq<u8>>, a: Seq<char>, b: Seq<char>)
    ensures
        remove_keys(m, seq![a, b]) == m.remove(a).remove(b),
{
    assert(seq![a, b].skip(1) =~= seq![b]);
    lemma_remove_keys_one(m.remove(a), b);
}

pub proof fn lemma_remove_keys_push(m: Map<Seq<char>, Seq<u8>>, ks: Seq<Seq<char>>, k: Seq<char>)
    ensures
        remove_keys(m, ks.push(k)) == remove_keys(m, ks).remove(k),
    decreases ks.len(),
{
    if ks.len() == 0 {
        assert(ks.push(k)[0] == k);
        assert(ks.push(k).skip(1) =~= Seq::<Seq<char>>::empty());
        assert(remove_keys(m.remove(k), Seq::<Seq<char>>::empty()) == m.remove(k));
        assert(remove_keys(m, ks.push(k)) =~= remove_keys(m, ks).remove(k));
    } else {
        assert(ks.push(k)[0] == ks[0]);
        assert(ks.push(k).skip(1) =~= ks.skip(1).push(k));
        lemma_remove_keys_push(m.remove(ks[0]), ks.skip(1), k);
    }
}

/// Invalidation correctness: a key named by a successful invalidation is
/// Absent afterwards, so the next read of that key cannot be served from the
/// cache and must load from the source of truth; the pre-mutation entry is
/// gone.
pub proof fn lemma_invalidation_clears(
    m: Map<Seq<char>, Seq<u8>>,
    ks: Seq<Seq<char>>,
    key: Seq<char>,
)
    requires
        ks.contains(key),
    ensures
        !remove_keys(m, ks).contains_key(key),
    decreases ks.len(),
{
    if ks.len() > 0 {
        if ks[0] == key {
            lemma_remove_keys_still_absent(m.remove(ks[0]), ks.skip(1), key);
        } else {
            let i = choose|i: int| 0 <= i < ks.len() && ks[i] == key;
            assert(ks.skip(1)[i - 1] == key);
            assert(ks.skip(1).contains(key));
            lemma_invalidation_clears(m.remove(ks[0]), ks.skip(1), key);
        }
    }
}

/// A key Absent before an invalidation is still Absent after it.
pub proof fn lemma_remove_keys_still_absent(
    m: Map<Seq<char>, Seq<u8>>,
    ks: Seq<Seq<char>>,
    key: Seq<char>,
)
    requires
        !m.contains_key(key),
    ensures
        !remove_keys(m, ks).contains_key(key),
    decreases ks.len(),
{
    if ks.len() > 0 {
        lemma_remove_keys_still_absent(m.remove(ks[0]), ks.skip(1), key);
    }
}

/// Cache-aside correctness for a populated key: the entry a miss stored
/// decodes to exactly the rows the loader produced, so a second read of the
/// same key serves that collection from the cache, without any loader.
pub proof fn lemma_cache_aside_watchlists(
    m: Map<Seq<char>, Seq<u8>>,
    key: Seq<char>,
    rows: Seq<crate::dto::WatchlistV>,
)
    requires
        wf_watchlist_seq(rows),
    ensures
        m.insert(key, ser_watchlist_list(rows)).contains_key(key),
        (deser_watchlists(m.insert(key, ser_watchlist_list(rows))[key]) == Some(rows)),
{
    lemma_watchlists_round_trip(rows);
}

/// Cache-aside correctness for a populated key holding groups.
pub proof fn lemma_cache_aside_groups(
    m: Map<Seq<char>, Seq<u8>>,
    key: Seq<char>,
    rows: Seq<crate::dto::WatchlistGroupV>,
)
    requires
        wf_group_seq(rows),
    ensures
        m.insert(key, ser_group_list(rows)).contains_key(key),
        (deser_groups(m.insert(key, ser_group_list(rows))[key]) == Some(rows)),
{
    lemma_groups_round_trip(rows);
}

/// Read a watchlist collection through the cache. A Present key is served
/// from the cache and the loader is never consulted; a corrupt entry fails
/// the request rather than being masked; an Absent key is loaded from the
/// source of truth and, on success, stored under the key before returning.
pub fn read_through_watchlists<F: FnOnce() -> Result<Vec<WatchlistResponse>, DbError>>(
    cache: &mut CacheDb,
    key: &str,
    loader: F,
) -> (r: Result<Vec<WatchlistResponse>, ApiError>)
    requires
        call_requires(loader, ()),
        forall|rows: Vec<WatchlistResponse>|
            call_ensures(loader, (), Ok::<Vec<WatchlistResponse>, DbError>(rows))
                ==> wf_watchlist_vec(rows@),
    ensures
        match r {
            Ok(ws) => {
                &&& wf_watchlist_vec(ws@)
                &&& if old(cache)@.contains_key(key@) {
                    &&& (deser_watchlists(old(cache)@[key@]) == Some(watchlist_views(ws@)))
                    &&& final(cache)@ == old(cache)@
                } else {
                    &&& call_ensures(loader, (), Ok::<Vec<WatchlistResponse>, DbError>(ws))
                    &&& final(cache)@ == old(cache)@.insert(
                        key@,
                        ser_watchlist_list(watchlist_views(ws@)),
                    )
                }
            },
            Err(e) => {
                &&& final(cache)@ == old(cache)@
                &&& if old(cache)@.contains_key(key@) {
                    &&& deser_watchlists(old(cache)@[key@]) is None
                    &&& e is SerdeError
                } else {
                    exists|de: DbError| #![auto]
                        call_ensures(loader, (), Err::<Vec<WatchlistResponse>, DbError>(de)) && e
                            == api_of_db(de)
                }
            },
        },
{
    match cache.get(key) {
        Some(bytes) => match deserialize_watchlists(&bytes) {
            Some(ws) => Ok(ws),
            None => Err(ApiError::SerdeError(String::from_str("corrupt cache entry"))),
        },
        None => match loader() {
            Ok(rows) => {
                let bytes = serialize_watchlists(&rows);
                cache.set(key, bytes);
                Ok(rows)
            },
            Err(de) => Err(ApiError::from(de)),
        },
    }
}

/// Read a group collection through the cache; same policy as for watchlists.
pub fn read_through_groups<F: FnOnce() -> Result<Vec<WatchlistGroupResponse>, DbError>>(
    cache: &mut CacheDb,
    key: &str,
    loader: F,
) -> (r: Result<Vec<WatchlistGroupResponse>, ApiError>)
    requires
        call_requires(loader, ()),
        forall|rows: Vec<WatchlistGroupResponse>|
            call_ensures(loader, (), Ok::<Vec<WatchlistGroupResponse>, DbError>(rows))
                ==> wf_group_vec(rows@),
    ensures
        match r {
            Ok(ws) => {
                &&& wf_group_vec(ws@)
                &&& if old(cache)@.contains_key(key@) {
                    &&& (deser_groups(old(cache)@[key@]) == Some(group_views(ws@)))
                    &&& final(cache)@ == old(cache)@
                } else {
                    &&& call_ensures(loader, (), Ok::<Vec<WatchlistGroupResponse>, DbError>(ws))
                    &&& final(cache)@ == old(cache)@.insert(
                        key@,
                        ser_group_list(group_views(ws@)),
                    )
                }
            },
            Err(e) => {
                &&& final(cache)@ == old(cache)@
                &&& if old(cache)@.contains_key(key@) {
                    &&& deser_groups(old(cache)@[key@]) is None
                    &&& e is SerdeError
                } else {
                    exists|de: DbError| #![auto]
                        call_ensures(loader, (), Err::<Vec<WatchlistGroupResponse>, DbError>(de))
                            && e == api_of_db(de)
                }
            },
        },
{
    match cache.get(key) {
        Some(bytes) => match deserialize_groups(&bytes) {
            Some(ws) => Ok(ws),
            None => Err(ApiError::SerdeError(String::from_str("corrupt cache entry"))),
        },
        None => match loader() {
            Ok(rows) => {
                let bytes = serialize_groups(&rows);
                cache.set(key, bytes);
                Ok(rows)
            },
            Err(de) => Err(ApiError::from(de)),
        },
    }
}

/// Run a mutation against the source of truth; when it succeeds on at least
/// one row, delete every affected key before returning, so that no reader
/// can be served the pre-mutation entries. A failed or empty mutation leaves
/// the cache untouched and is surfaced as it came.
pub fn mutate_and_invalidate<M: FnOnce() -> Result<u64, DbError>>(
    cache: &mut CacheDb,
    keys: &Vec<String>,
    mutation: M,
) -> (r: Result<u64, ApiError>)
    requires
        call_requires(mutation, ()),
    ensures
        match r {
            Ok(n) => {
                &&& call_ensures(mutation, (), Ok::<u64, DbError>(n))
                &&& (n > 0 ==> final(cache)@ == remove_keys(old(cache)@, key_views(keys@)))
                &&& (n == 0 ==> final(cache)@ == old(cache)@)
            },
            Err(e) => {
                &&& final(cache)@ == old(cache)@
                &&& exists|de: DbError| #![auto]
                    call_ensures(mutation, (), Err::<u64, DbError>(de)) && e == api_of_db(de)
            },
        },
{
    match mutation() {
        Ok(n) => {
            if n == 0 {
                return Ok(0);
            }
            let mut i: usize = 0;
            proof {
                assert(cache@ =~= remove_keys(old(cache)@, key_views(keys@).take(0)));
            }
            while i < keys.len()
                invariant
                    0 <= i <= keys@.len(),
                    cache@ == remove_keys(old(cache)@, key_views(keys@).take(i as int)),
                decreases keys@.len() - i,
            {
                cache.del(keys[i].as_str());
                proof {
                    let kv = key_views(keys@);
                    assert(kv.take(i + 1 as int) =~= kv.take(i as int).push(kv[i as int]));
                    lemma_remove_keys_push(old(cache)@, kv.take(i as int), kv[i as int]);
                }
                i = i + 1;
            }
            proof {
                assert(key_views(keys@).take(keys@.len() as int) =~= key_views(keys@));
            }
            Ok(n)
        },
        Err(de) => Err(ApiError::from(de)),
    }
}

} // verus!
