//! Response collections served by the watchlist endpoints, together with the
//! encoding used when a collection is stored in the cache. The encoder and
//! decoder are exact inverses on well-formed values, which is what keeps a
//! cache hit indistinguishable from a fresh load.
use vstd::prelude::*;

use crate::json::{
    expect, lemma_expect_lit, lemma_parse_ser_int, lemma_parse_ser_string, lit_bytes, parse_i32,
    parse_json_i32, parse_json_string, parse_string, push_dec_i32, push_json_string, push_lit,
    ser_int, ser_string, stringable,
};

verus! {

/// Mathematical image of one watchlist row: an asset id with its name and
/// ticker symbol.
pub struct WatchlistV {
    pub id: i32,
    pub name: Seq<char>,
    pub symbol: Seq<char>,
}

/// One asset inside a watchlist group, as returned to clients.
#[derive(Debug, Clone)]
pub struct WatchlistResponse {
    pub id: i32,
    pub name: String,
    pub symbol: String,
}

impl View for WatchlistResponse {
    type V = WatchlistV;

    open spec fn view(&self) -> WatchlistV {
        WatchlistV { id: self.id, name: self.name@, symbol: self.symbol@ }
    }
}

/// Text fields hold printable ASCII; that is what the encoding can carry.
pub open spec fn wf_watchlist_v(v: WatchlistV) -> bool {
    stringable(v.name) && stringable(v.symbol)
}

impl WatchlistResponse {
    pub open spec fn wf(&self) -> bool {
        wf_watchlist_v(self@)
    }
}

/// Encoded form of one watchlist entry.
pub open spec fn ser_watchlist(v: WatchlistV) -> Seq<u8> {
    lit_bytes("{\"id\":"@) + ser_int(v.id as int) + lit_bytes(",\"name\":"@) + ser_string(v.name)
        + lit_bytes(",\"symbol\":"@) + ser_string(v.symbol) + lit_bytes("}"@)
}

/// Decode one watchlist entry from the head of `s`.
pub open spec fn parse_watchlist(s: Seq<u8>) -> Option<(WatchlistV, Seq<u8>)> {
    match expect(s, lit_bytes("{\"id\":"@)) {
        Some(s1) => match parse_i32(s1) {
            Some((id, s2)) => match expect(s2, lit_bytes(",\"name\":"@)) {
                Some(s3) => match parse_string(s3) {
                    Some((name, s4)) => match expect(s4, lit_bytes(",\"symbol\":"@)) {
                        Some(s5) => match parse_string(s5) {
                            Some((symbol, s6)) => match expect(s6, lit_bytes("}"@)) {
                                Some(s7) => Some((WatchlistV { id, name, symbol }, s7)),
                                None => None,
                            },
                            None => None,
                        },
                        None => None,
                    },
                    None => None,
                },
                None => None,
            },
            None => None,
        },
        None => None,
    }
}

/// Round trip for one watchlist entry.
pub proof fn lemma_parse_ser_watchlist(v: WatchlistV, tail: Seq<u8>)
    requires
        wf_watchlist_v(v),
    ensures
        (parse_watchlist(ser_watchlist(v) + tail) == Some((v, tail))),
{
    reveal_strlit("{\"id\":");
    reveal_strlit(",\"name\":");
    reveal_strlit(",\"symbol\":");
    reveal_strlit("}");
    let l1 = lit_bytes("{\"id\":"@);
    let l2 = lit_bytes(",\"name\":"@);
    let l3 = lit_bytes(",\"symbol\":"@);
    let l4 = lit_bytes("}"@);
    let sint = ser_int(v.id as int);
    let sname = ser_string(v.name);
    let ssym = ser_string(v.symbol);
    let r1 = sint + (l2 + (sname + (l3 + (ssym + (l4 + tail)))));
    assert(ser_watchlist(v) + tail =~= l1 + r1);
    lemma_expect_lit(l1, r1);
    assert(l2[0] == (',' as u8));
    assert(!crate::json::is_digit_byte((l2 + (sname + (l3 + (ssym + (l4 + tail)))))[0]));
    lemma_parse_ser_int(v.id as int, l2 + (sname + (l3 + (ssym + (l4 + tail)))));
    lemma_expect_lit(l2, sname + (l3 + (ssym + (l4 + tail))));
    lemma_parse_ser_string(v.name, l3 + (ssym + (l4 + tail)));
    lemma_expect_lit(l3, ssym + (l4 + tail));
    lemma_parse_ser_string(v.symbol, l4 + tail);
    lemma_expect_lit(l4, tail);
    assert(WatchlistV { id: v.id, name: v.name, symbol: v.symbol } == v);
}

/// Append the encoding of one watchlist entry to `out`.
pub fn write_watchlist_item(out: &mut Vec<u8>, w: &WatchlistResponse)
    requires
        w.wf(),
    ensures
        final(out)@ == old(out)@ + ser_watchlist(w@),
{
    proof {
        reveal_strlit("{\"id\":");
        reveal_strlit(",\"name\":");
        reveal_strlit(",\"symbol\":");
        reveal_strlit("}");
    }
    push_lit(out, "{\"id\":");
    push_dec_i32(out, w.id);
    push_lit(out, ",\"name\":");
    push_json_string(out, w.name.as_str());
    push_lit(out, ",\"symbol\":");
    push_json_string(out, w.symbol.as_str());
    push_lit(out, "}");
    proof {
        assert(out@ =~= old(out)@ + ser_watchlist(w@));
    }
}

/// Decode one watchlist entry at position `i` of `v`.
pub fn read_watchlist_item(v: &Vec<u8>, i: usize) -> (r: Option<(WatchlistResponse, usize)>)
    requires
        i <= v@.len(),
    ensures
        match r {
            Some((w, j)) => {
                &&& i <= j <= v@.len()
                &&& (parse_watchlist(v@.skip(i as int)) == Some((w@, v@.skip(j as int))))
                &&& w.wf()
            },
            None => parse_watchlist(v@.skip(i as int)) is None,
        },
{
    proof {
        reveal_strlit("{\"id\":");
        reveal_strlit(",\"name\":");
        reveal_strlit(",\"symbol\":");
        reveal_strlit("}");
    }
    let s1 = match crate::json::expect_lit(v, i, "{\"id\":") {
        Some(j) => j,
        None => {
            return None;
        },
    };
    let (id, s2) = match parse_json_i32(v, s1) {
        Some(p) => p,
        None => {
            return None;
        },
    };
    let s3 = match crate::json::expect_lit(v, s2, ",\"name\":") {
        Some(j) => j,
        None => {
            return None;
        },
    };
    let (name, s4) = match parse_json_string(v, s3) {
        Some(p) => p,
        None => {
            return None;
        },
    };
    let s5 = match crate::json::expect_lit(v, s4, ",\"symbol\":") {
        Some(j) => j,
        None => {
            return None;
        },
    };
    let (symbol, s6) = match parse_json_string(v, s5) {
        Some(p) => p,
        None => {
            return None;
        },
    };
    let s7 = match crate::json::expect_lit(v, s6, "}") {
        Some(j) => j,
        None => {
            return None;
        },
    };
    Some((WatchlistResponse { id, name, symbol }, s7))
}


/// The views of a vector of responses.
pub open spec fn watchlist_views(items: Seq<WatchlistResponse>) -> Seq<WatchlistV> {
    items.map_values(|w: WatchlistResponse| w@)
}

pub open spec fn wf_watchlist_seq(items: Seq<WatchlistV>) -> bool {
    forall|i: int| 0 <= i < items.len() ==> wf_watchlist_v(#[trigger] items[i])
}

/// Every response in the vector is well formed.
pub open spec fn wf_watchlist_vec(items: Seq<WatchlistResponse>) -> bool {
    forall|i: int| 0 <= i < items.len() ==> (#[trigger] items[i]).wf()
}

/// Encoded form of the entries after the first, each preceded by a comma.
pub open spec fn ser_watchlist_rest(items: Seq<WatchlistV>) -> Seq<u8>
    decreases items.len(),
{
    if items.len() == 0 {
        Seq::empty()
    } else {
        lit_bytes(","@) + ser_watchlist(items[0]) + ser_watchlist_rest(items.skip(1))
    }
}

/// Encoded form of a whole collection.
pub open spec fn ser_watchlist_list(items: Seq<WatchlistV>) -> Seq<u8> {
    if items.len() == 0 {
        lit_bytes("[]"@)
    } else {
        lit_bytes("["@) + ser_watchlist(items[0]) + ser_watchlist_rest(items.skip(1)) + lit_bytes(
            "]"@,
        )
    }
}

/// Decode the entries after the first; `fuel` bounds the recursion and any
/// value at least the remaining input length is enough.
pub open spec fn parse_watchlist_rest(s: Seq<u8>, fuel: nat) -> Option<
    (Seq<WatchlistV>, Seq<u8>),
>
    decreases fuel,
{
    if s.len() > 0 && s[0] == 93 {
        Some((Seq::empty(), s.skip(1)))
    } else if s.len() > 0 && s[0] == 44 && fuel > 0 {
        match parse_watchlist(s.skip(1)) {
            Some((v, rest)) => match parse_watchlist_rest(rest, (fuel - 1) as nat) {
                Some((vs, r2)) => Some((seq![v] + vs, r2)),
                None => None,
            },
            None => None,
        }
    } else {
        None
    }
}

/// Decode a whole collection from the head of `s`.
pub open spec fn parse_watchlist_list(s: Seq<u8>) -> Option<(Seq<WatchlistV>, Seq<u8>)> {
    match expect(s, lit_bytes("["@)) {
        Some(s1) => if s1.len() > 0 && s1[0] == 93 {
            Some((Seq::empty(), s1.skip(1)))
        } else {
            match parse_watchlist(s1) {
                Some((v, rest)) => match parse_watchlist_rest(rest, rest.len()) {
                    Some((vs, r2)) => Some((seq![v] + vs, r2)),
                    None => None,
                },
                None => None,
            }
        },
        None => None,
    }
}

/// A collection decodes from exactly `bs`, with nothing left over.
pub open spec fn deser_watchlists(bs: Seq<u8>) -> Option<Seq<WatchlistV>> {
    match parse_watchlist_list(bs) {
        Some((vs, rest)) => if rest.len() == 0 {
            Some(vs)
        } else {
            None
        },
        None => None,
    }
}

proof fn lemma_ser_watchlist_rest_len(items: Seq<WatchlistV>)
    ensures
        ser_watchlist_rest(items).len() >= items.len(),
    decreases items.len(),
{
    reveal_strlit(",");
    if items.len() > 0 {
        lemma_ser_watchlist_rest_len(items.skip(1));
    }
}

pub proof fn lemma_ser_watchlist_rest_push(items: Seq<WatchlistV>, v: WatchlistV)
    ensures
        ser_watchlist_rest(items.push(v)) == ser_watchlist_rest(items) + (lit_bytes(","@)
            + ser_watchlist(v)),
    decreases items.len(),
{
    if items.len() == 0 {
        assert(items =~= Seq::<WatchlistV>::empty());
        assert(items.push(v)[0] == v);
        assert(items.push(v).skip(1) =~= Seq::<WatchlistV>::empty());
        assert(ser_watchlist_rest(items.push(v)) =~= ser_watchlist_rest(items) + (lit_bytes(","@)
            + ser_watchlist(v)));
    } else {
        assert(items.push(v)[0] == items[0]);
        assert(items.push(v).skip(1) =~= items.skip(1).push(v));
        lemma_ser_watchlist_rest_push(items.skip(1), v);
        assert(ser_watchlist_rest(items.push(v)) =~= ser_watchlist_rest(items) + (lit_bytes(","@)
            + ser_watchlist(v)));
    }
}

proof fn lemma_parse_ser_watchlist_rest(items: Seq<WatchlistV>, tail: Seq<u8>, fuel: nat)
    requires
        wf_watchlist_seq(items),
        fuel >= items.len(),
    ensures
        (parse_watchlist_rest(ser_watchlist_rest(items) + seq![93u8] + tail, fuel) == Some(
            (items, tail),
        )),
    decreases items.len(),
{
    reveal_strlit(",");
    let whole = ser_watchlist_rest(items) + seq![93u8] + tail;
    if items.len() == 0 {
        assert(whole =~= seq![93u8] + tail);
        assert(whole[0] == 93);
        assert(whole.skip(1) =~= tail);
    } else {
        let v0 = items[0];
        let rest_items = items.skip(1);
        assert(wf_watchlist_v(v0));
        let inner = ser_watchlist_rest(rest_items) + seq![93u8] + tail;
        assert(whole =~= lit_bytes(","@) + (ser_watchlist(v0) + inner));
        assert(lit_bytes(","@)[0] == (',' as u8));
        assert(whole[0] == 44);
        assert(whole.skip(1) =~= ser_watchlist(v0) + inner);
        lemma_parse_ser_watchlist(v0, inner);
        lemma_parse_ser_watchlist_rest(rest_items, tail, (fuel - 1) as nat);
        assert(seq![v0] + rest_items =~= items);
    }
}

/// Round trip for a whole collection followed by arbitrary trailing input.
pub proof fn lemma_parse_ser_watchlist_list(items: Seq<WatchlistV>, tail: Seq<u8>)
    requires
        wf_watchlist_seq(items),
    ensures
        (parse_watchlist_list(ser_watchlist_list(items) + tail) == Some((items, tail))),
{
    reveal_strlit("[");
    reveal_strlit("[]");
    reveal_strlit("]");
    reveal_strlit("{\"id\":");
    let whole = ser_watchlist_list(items) + tail;
    if items.len() == 0 {
        assert(whole =~= lit_bytes("["@) + (seq![93u8] + tail));
        lemma_expect_lit(lit_bytes("["@), seq![93u8] + tail);
        assert((seq![93u8] + tail)[0] == 93);
        assert((seq![93u8] + tail).skip(1) =~= tail);
    } else {
        let v0 = items[0];
        let rest = items.skip(1);
        assert(wf_watchlist_v(v0));
        let inner = ser_watchlist_rest(rest) + seq![93u8] + tail;
        assert(lit_bytes("]"@) =~= seq![93u8]);
        assert(whole =~= lit_bytes("["@) + (ser_watchlist(v0) + inner));
        lemma_expect_lit(lit_bytes("["@), ser_watchlist(v0) + inner);
        assert((ser_watchlist(v0) + inner)[0] == lit_bytes("{\"id\":"@)[0]);
        assert((ser_watchlist(v0) + inner)[0] == 123);
        assert((ser_watchlist(v0) + inner).len() > 0);
        lemma_parse_ser_watchlist(v0, inner);
        lemma_ser_watchlist_rest_len(rest);
        lemma_parse_ser_watchlist_rest(rest, tail, inner.len());
        assert(seq![v0] + rest =~= items);
    }
}

/// The round trip of the whole cached form: decoding what was encoded gives
/// back the same collection, field for field.
pub proof fn lemma_watchlists_round_trip(items: Seq<WatchlistV>)
    requires
        wf_watchlist_seq(items),
    ensures
        (deser_watchlists(ser_watchlist_list(items)) == Some(items)),
{
    lemma_parse_ser_watchlist_list(items, Seq::<u8>::empty());
    assert(ser_watchlist_list(items) + Seq::<u8>::empty() =~= ser_watchlist_list(items));
}

/// Encode a collection for the cache.
pub fn serialize_watchlists(items: &Vec<WatchlistResponse>) -> (out: Vec<u8>)
    requires
        forall|i: int| 0 <= i < items@.len() ==> (#[trigger] items@[i]).wf(),
    ensures
        out@ == ser_watchlist_list(watchlist_views(items@)),
{
    proof {
        reveal_strlit("[");
        reveal_strlit("[]");
        reveal_strlit("]");
        reveal_strlit(",");
    }
    let ghost vs = watchlist_views(items@);
    let mut out: Vec<u8> = Vec::new();
    if items.len() == 0 {
        push_lit(&mut out, "[]");
        proof {
            assert(out@ =~= ser_watchlist_list(vs));
        }
        return out;
    }
    push_lit(&mut out, "[");
    write_watchlist_item(&mut out, &items[0]);
    let mut k: usize = 1;
    while k < items.len()
        invariant
            1 <= k <= items@.len(),
            vs == watchlist_views(items@),
            vs.len() == items@.len(),
            forall|i: int| 0 <= i < items@.len() ==> (#[trigger] items@[i]).wf(),
            out@ == lit_bytes("["@) + ser_watchlist(vs[0]) + ser_watchlist_rest(
                vs.subrange(1, k as int),
            ),
        decreases items@.len() - k,
    {
        proof {
            reveal_strlit(",");
            reveal_strlit("[");
        }
        push_lit(&mut out, ",");
        write_watchlist_item(&mut out, &items[k]);
        proof {
            assert(vs.subrange(1, k + 1 as int) =~= vs.subrange(1, k as int).push(vs[k as int]));
            lemma_ser_watchlist_rest_push(vs.subrange(1, k as int), vs[k as int]);
            assert(out@ =~= lit_bytes("["@) + ser_watchlist(vs[0]) + ser_watchlist_rest(
                vs.subrange(1, k + 1 as int),
            ));
        }
        k = k + 1;
    }
    push_lit(&mut out, "]");
    proof {
        assert(vs.subrange(1, vs.len() as int) =~= vs.skip(1));
        assert(out@ =~= ser_watchlist_list(vs));
    }
    out
}

/// Decode the entries after the first; `fuel` bounds the recursion depth.
fn read_watchlist_rest(v: &Vec<u8>, i: usize, fuel: usize) -> (r: Option<
    (Vec<WatchlistResponse>, usize),
>)
    requires
        i <= v@.len(),
    ensures
        match r {
            Some((ws, j)) => {
                &&& i <= j <= v@.len()
                &&& (parse_watchlist_rest(v@.skip(i as int), fuel as nat) == Some(
                    (watchlist_views(ws@), v@.skip(j as int)),
                ))
                &&& forall|t: int| 0 <= t < ws@.len() ==> (#[trigger] ws@[t]).wf()
            },
            None => parse_watchlist_rest(v@.skip(i as int), fuel as nat) is None,
        },
    decreases fuel,
{
    if i >= v.len() {
        proof {
            assert(v@.skip(i as int) =~= Seq::<u8>::empty());
        }
        return None;
    }
    proof {
        assert(v@.skip(i as int)[0] == v@[i as int]);
    }
    if v[i] == 93 {
        let ws: Vec<WatchlistResponse> = Vec::new();
        proof {
            assert(watchlist_views(ws@) =~= Seq::<WatchlistV>::empty());
            assert(v@.skip(i as int).skip(1) =~= v@.skip(i + 1 as int));
        }
        return Some((ws, i + 1));
    }
    if v[i] == 44 && fuel > 0 {
        proof {
            assert(v@.skip(i as int).skip(1) =~= v@.skip(i + 1 as int));
        }
        match read_watchlist_item(v, i + 1) {
            Some((w, j)) => match read_watchlist_rest(v, j, fuel - 1) {
                Some((mut ws, j2)) => {
                    ws.insert(0, w);
                    proof {
                        assert(watchlist_views(ws@) =~= seq![w@] + watchlist_views(
                            ws@.skip(1),
                        ));
                    }
                    Some((ws, j2))
                },
                None => None,
            },
            None => None,
        }
    } else {
        None
    }
}

/// Decode a whole cached collection; succeeds only when `v` holds exactly one
/// encoded collection.
pub fn deserialize_watchlists(v: &Vec<u8>) -> (r: Option<Vec<WatchlistResponse>>)
    ensures
        match r {
            Some(ws) => {
                &&& (deser_watchlists(v@) == Some(watchlist_views(ws@)))
                &&& forall|t: int| 0 <= t < ws@.len() ==> (#[trigger] ws@[t]).wf()
            },
            None => deser_watchlists(v@) is None,
        },
{
    proof {
        reveal_strlit("[");
        assert(v@.skip(0) =~= v@);
    }
    let s1 = match crate::json::expect_lit(v, 0, "[") {
        Some(j) => j,
        None => {
            return None;
        },
    };
    if s1 < v.len() {
        proof {
            assert(v@.skip(s1 as int)[0] == v@[s1 as int]);
        }
    }
    if s1 < v.len() && v[s1] == 93 {
        proof {
            assert(v@.skip(s1 as int).skip(1) =~= v@.skip(s1 + 1 as int));
        }
        if s1 + 1 == v.len() {
            let ws: Vec<WatchlistResponse> = Vec::new();
            proof {
                assert(watchlist_views(ws@) =~= Seq::<WatchlistV>::empty());
                assert(v@.skip(s1 + 1 as int).len() == 0);
            }
            return Some(ws);
        } else {
            return None;
        }
    }
    let (w, j) = match read_watchlist_item(v, s1) {
        Some(p) => p,
        None => {
            return None;
        },
    };
    proof {
        assert(v@.skip(j as int).len() == v@.len() - j);
    }
    match read_watchlist_rest(v, j, v.len() - j) {
        Some((mut ws, j2)) => {
            if j2 == v.len() {
                ws.insert(0, w);
                proof {
                    assert(watchlist_views(ws@) =~= seq![w@] + watchlist_views(ws@.skip(1)));
                    assert(v@.skip(j2 as int).len() == 0);
                }
                Some(ws)
            } else {
                None
            }
        },
        None => None,
    }
}


/// Mathematical image of one watchlist group row.
pub struct WatchlistGroupV {
    pub id: i32,
    pub user_id: i32,
    pub name: Seq<char>,
    pub created_at: Seq<char>,
}

/// One watchlist group owned by a user, as returned to clients.
#[derive(Debug, Clone)]
pub struct WatchlistGroupResponse {
    pub id: i32,
    pub user_id: i32,
    pub name: String,
    pub created_at: String,
}

impl View for WatchlistGroupResponse {
    type V = WatchlistGroupV;

    open spec fn view(&self) -> WatchlistGroupV {
        WatchlistGroupV {
            id: self.id,
            user_id: self.user_id,
            name: self.name@,
            created_at: self.created_at@,
        }
    }
}

pub open spec fn wf_group_v(v: WatchlistGroupV) -> bool {
    stringable(v.name) && stringable(v.created_at)
}

impl WatchlistGroupResponse {
    pub open spec fn wf(&self) -> bool {
        wf_group_v(self@)
    }
}

pub open spec fn group_views(items: Seq<WatchlistGroupResponse>) -> Seq<WatchlistGroupV> {
    items.map_values(|w: WatchlistGroupResponse| w@)
}

pub open spec fn wf_group_seq(items: Seq<WatchlistGroupV>) -> bool {
    forall|i: int| 0 <= i < items.len() ==> wf_group_v(#[trigger] items[i])
}

/// Every group response in the vector is well formed.
pub open spec fn wf_group_vec(items: Seq<WatchlistGroupResponse>) -> bool {
    forall|i: int| 0 <= i < items.len() ==> (#[trigger] items[i]).wf()
}

/// Encoded form of one group entry.
pub open spec fn ser_group(v: WatchlistGroupV) -> Seq<u8> {
    lit_bytes("{\"id\":"@) + ser_int(v.id as int) + lit_bytes(",\"user_id\":"@) + ser_int(
        v.user_id as int,
    ) + lit_bytes(",\"name\":"@) + ser_string(v.name) + lit_bytes(",\"created_at\":"@)
        + ser_string(v.created_at) + lit_bytes("}"@)
}

/// Decode one group entry from the head of `s`.
pub open spec fn parse_group(s: Seq<u8>) -> Option<(WatchlistGroupV, Seq<u8>)> {
    match expect(s, lit_bytes("{\"id\":"@)) {
        Some(s1) => match parse_i32(s1) {
            Some((id, s2)) => match expect(s2, lit_bytes(",\"user_id\":"@)) {
                Some(s3) => match parse_i32(s3) {
                    Some((user_id, s4)) => match expect(s4, lit_bytes(",\"name\":"@)) {
                        Some(s5) => match parse_string(s5) {
                            Some((name, s6)) => match expect(s6, lit_bytes(",\"created_at\":"@)) {
                                Some(s7) => match parse_string(s7) {
                                    Some((created_at, s8)) => match expect(s8, lit_bytes("}"@)) {
                                        Some(s9) => Some(
                                            (WatchlistGroupV { id, user_id, name, created_at }, s9),
                                        ),
                                        None => None,
                                    },
                                    None => None,
                                },
                                None => None,
                            },
                            None => None,
                        },
                        None => None,
                    },
                    None => None,
                },
                None => None,
            },
            None => None,
        },
        None => None,
    }
}

/// Round trip for one group entry.
pub proof fn lemma_parse_ser_group(v: WatchlistGroupV, tail: Seq<u8>)
    requires
        wf_group_v(v),
    ensures
        (parse_group(ser_group(v) + tail) == Some((v, tail))),
{
    reveal_strlit("{\"id\":");
    reveal_strlit(",\"user_id\":");
    reveal_strlit(",\"name\":");
    reveal_strlit(",\"created_at\":");
    reveal_strlit("}");
    let l1 = lit_bytes("{\"id\":"@);
    let l2 = lit_bytes(",\"user_id\":"@);
    let l3 = lit_bytes(",\"name\":"@);
    let l4 = lit_bytes(",\"created_at\":"@);
    let l5 = lit_bytes("}"@);
    let sid = ser_int(v.id as int);
    let suid = ser_int(v.user_id as int);
    let sname = ser_string(v.name);
    let screated = ser_string(v.created_at);
    let r1 = sid + (l2 + (suid + (l3 + (sname + (l4 + (screated + (l5 + tail)))))));
    assert(ser_group(v) + tail =~= l1 + r1);
    lemma_expect_lit(l1, r1);
    assert(l2[0] == (',' as u8));
    lemma_parse_ser_int(v.id as int, l2 + (suid + (l3 + (sname + (l4 + (screated + (l5
        + tail)))))));
    lemma_expect_lit(l2, suid + (l3 + (sname + (l4 + (screated + (l5 + tail))))));
    assert(l3[0] == (',' as u8));
    lemma_parse_ser_int(v.user_id as int, l3 + (sname + (l4 + (screated + (l5 + tail)))));
    lemma_expect_lit(l3, sname + (l4 + (screated + (l5 + tail))));
    lemma_parse_ser_string(v.name, l4 + (screated + (l5 + tail)));
    lemma_expect_lit(l4, screated + (l5 + tail));
    lemma_parse_ser_string(v.created_at, l5 + tail);
    lemma_expect_lit(l5, tail);
    assert(WatchlistGroupV {
        id: v.id,
        user_id: v.user_id,
        name: v.name,
        created_at: v.created_at,
    } == v);
}

/// Append the encoding of one group entry to `out`.
pub fn write_group_item(out: &mut Vec<u8>, w: &WatchlistGroupResponse)
    requires
        w.wf(),
    ensures
        final(out)@ == old(out)@ + ser_group(w@),
{
    proof {
        reveal_strlit("{\"id\":");
        reveal_strlit(",\"user_id\":");
        reveal_strlit(",\"name\":");
        reveal_strlit(",\"created_at\":");
        reveal_strlit("}");
    }
    push_lit(out, "{\"id\":");
    push_dec_i32(out, w.id);
    push_lit(out, ",\"user_id\":");
    push_dec_i32(out, w.user_id);
    push_lit(out, ",\"name\":");
    push_json_string(out, w.name.as_str());
    push_lit(out, ",\"created_at\":");
    push_json_string(out, w.created_at.as_str());
    push_lit(out, "}");
    proof {
        assert(out@ =~= old(out)@ + ser_group(w@));
    }
}

/// Decode one group entry at position `i` of `v`.
pub fn read_group_item(v: &Vec<u8>, i: usize) -> (r: Option<(WatchlistGroupResponse, usize)>)
    requires
        i <= v@.len(),
    ensures
        match r {
            Some((w, j)) => {
                &&& i <= j <= v@.len()
                &&& (parse_group(v@.skip(i as int)) == Some((w@, v@.skip(j as int))))
                &&& w.wf()
            },
            None => parse_group(v@.skip(i as int)) is None,
        },
{
    proof {
        reveal_strlit("{\"id\":");
        reveal_strlit(",\"user_id\":");
        reveal_strlit(",\"name\":");
        reveal_strlit(",\"created_at\":");
        reveal_strlit("}");
    }
    let s1 = match crate::json::expect_lit(v, i, "{\"id\":") {
        Some(j) => j,
        None => {
            return None;
        },
    };
    let (id, s2) = match parse_json_i32(v, s1) {
        Some(p) => p,
        None => {
            return None;
        },
    };
    let s3 = match crate::json::expect_lit(v, s2, ",\"user_id\":") {
        Some(j) => j,
        None => {
            return None;
        },
    };
    let (user_id, s4) = match parse_json_i32(v, s3) {
        Some(p) => p,
        None => {
            return None;
        },
    };
    let s5 = match crate::json::expect_lit(v, s4, ",\"name\":") {
        Some(j) => j,
        None => {
            return None;
        },
    };
    let (name, s6) = match parse_json_string(v, s5) {
        Some(p) => p,
        None => {
            return None;
        },
    };
    let s7 = match crate::json::expect_lit(v, s6, ",\"created_at\":") {
        Some(j) => j,
        None => {
            return None;
        },
    };
    let (created_at, s8) = match parse_json_string(v, s7) {
        Some(p) => p,
        None => {
            return None;
        },
    };
    let s9 = match crate::json::expect_lit(v, s8, "}") {
        Some(j) => j,
        None => {
            return None;
        },
    };
    Some((WatchlistGroupResponse { id, user_id, name, created_at }, s9))
}


/// The views of a vector of group responses.
/// Encoded form of the entries after the first, each preceded by a comma.
pub open spec fn ser_group_rest(items: Seq<WatchlistGroupV>) -> Seq<u8>
    decreases items.len(),
{
    if items.len() == 0 {
        Seq::empty()
    } else {
        lit_bytes(","@) + ser_group(items[0]) + ser_group_rest(items.skip(1))
    }
}

/// Encoded form of a whole collection.
pub open spec fn ser_group_list(items: Seq<WatchlistGroupV>) -> Seq<u8> {
    if items.len() == 0 {
        lit_bytes("[]"@)
    } else {
        lit_bytes("["@) + ser_group(items[0]) + ser_group_rest(items.skip(1)) + lit_bytes(
            "]"@,
        )
    }
}

/// Decode the entries after the first; `fuel` bounds the recursion and any
/// value at least the remaining input length is enough.
pub open spec fn parse_group_rest(s: Seq<u8>, fuel: nat) -> Option<
    (Seq<WatchlistGroupV>, Seq<u8>),
>
    decreases fuel,
{
    if s.len() > 0 && s[0] == 93 {
        Some((Seq::empty(), s.skip(1)))
    } else if s.len() > 0 && s[0] == 44 && fuel > 0 {
        match parse_group(s.skip(1)) {
            Some((v, rest)) => match parse_group_rest(rest, (fuel - 1) as nat) {
                Some((vs, r2)) => Some((seq![v] + vs, r2)),
                None => None,
            },
            None => None,
        }
    } else {
        None
    }
}

/// Decode a whole collection from the head of `s`.
pub open spec fn parse_group_list(s: Seq<u8>) -> Option<(Seq<WatchlistGroupV>, Seq<u8>)> {
    match expect(s, lit_bytes("["@)) {
        Some(s1) => if s1.len() > 0 && s1[0] == 93 {
            Some((Seq::empty(), s1.skip(1)))
        } else {
            match parse_group(s1) {
                Some((v, rest)) => match parse_group_rest(rest, rest.len()) {
                    Some((vs, r2)) => Some((seq![v] + vs, r2)),
                    None => None,
                },
                None => None,
            }
        },
        None => None,
    }
}

/// A collection decodes from exactly `bs`, with nothing left over.
pub open spec fn deser_groups(bs: Seq<u8>) -> Option<Seq<WatchlistGroupV>> {
    match parse_group_list(bs) {
        Some((vs, rest)) => if rest.len() == 0 {
            Some(vs)
        } else {
            None
        },
        None => None,
    }
}

proof fn lemma_ser_group_rest_len(items: Seq<WatchlistGroupV>)
    ensures
        ser_group_rest(items).len() >= items.len(),
    decreases items.len(),
{
    reveal_strlit(",");
    if items.len() > 0 {
        lemma_ser_group_rest_len(items.skip(1));
    }
}

pub proof fn lemma_ser_group_rest_push(items: Seq<WatchlistGroupV>, v: WatchlistGroupV)
    ensures
        ser_group_rest(items.push(v)) == ser_group_rest(items) + (lit_bytes(","@)
            + ser_group(v)),
    decreases items.len(),
{
    if items.len() == 0 {
        assert(items =~= Seq::<WatchlistGroupV>::empty());
        assert(items.push(v)[0] == v);
        assert(items.push(v).skip(1) =~= Seq::<WatchlistGroupV>::empty());
        assert(ser_group_rest(items.push(v)) =~= ser_group_rest(items) + (lit_bytes(","@)
            + ser_group(v)));
    } else {
        assert(items.push(v)[0] == items[0]);
        assert(items.push(v).skip(1) =~= items.skip(1).push(v));
        lemma_ser_group_rest_push(items.skip(1), v);
        assert(ser_group_rest(items.push(v)) =~= ser_group_rest(items) + (lit_bytes(","@)
            + ser_group(v)));
    }
}

proof fn lemma_parse_ser_group_rest(items: Seq<WatchlistGroupV>, tail: Seq<u8>, fuel: nat)
    requires
        wf_group_seq(items),
        fuel >= items.len(),
    ensures
        (parse_group_rest(ser_group_rest(items) + seq![93u8] + tail, fuel) == Some(
            (items, tail),
        )),
    decreases items.len(),
{
    reveal_strlit(",");
    let whole = ser_group_rest(items) + seq![93u8] + tail;
    if items.len() == 0 {
        assert(whole =~= seq![93u8] + tail);
        assert(whole[0] == 93);
        assert(whole.skip(1) =~= tail);
    } else {
        let v0 = items[0];
        let rest_items = items.skip(1);
        assert(wf_group_v(v0));
        let inner = ser_group_rest(rest_items) + seq![93u8] + tail;
        assert(whole =~= lit_bytes(","@) + (ser_group(v0) + inner));
        assert(lit_bytes(","@)[0] == (',' as u8));
        assert(whole[0] == 44);
        assert(whole.skip(1) =~= ser_group(v0) + inner);
        lemma_parse_ser_group(v0, inner);
        lemma_parse_ser_group_rest(rest_items, tail, (fuel - 1) as nat);
        assert(seq![v0] + rest_items =~= items);
    }
}

/// Round trip for a whole collection followed by arbitrary trailing input.
pub proof fn lemma_parse_ser_group_list(items: Seq<WatchlistGroupV>, tail: Seq<u8>)
    requires
        wf_group_seq(items),
    ensures
        (parse_group_list(ser_group_list(items) + tail) == Some((items, tail))),
{
    reveal_strlit("[");
    reveal_strlit("[]");
    reveal_strlit("]");
    reveal_strlit("{\"id\":");
    let whole = ser_group_list(items) + tail;
    if items.len() == 0 {
        assert(whole =~= lit_bytes("["@) + (seq![93u8] + tail));
        lemma_expect_lit(lit_bytes("["@), seq![93u8] + tail);
        assert((seq![93u8] + tail)[0] == 93);
        assert((seq![93u8] + tail).skip(1) =~= tail);
    } else {
        let v0 = items[0];
        let rest = items.skip(1);
        assert(wf_group_v(v0));
        let inner = ser_group_rest(rest) + seq![93u8] + tail;
        assert(lit_bytes("]"@) =~= seq![93u8]);
        assert(whole =~= lit_bytes("["@) + (ser_group(v0) + inner));
        lemma_expect_lit(lit_bytes("["@), ser_group(v0) + inner);
        assert((ser_group(v0) + inner)[0] == lit_bytes("{\"id\":"@)[0]);
        assert((ser_group(v0) + inner)[0] == 123);
        assert((ser_group(v0) + inner).len() > 0);
        lemma_parse_ser_group(v0, inner);
        lemma_ser_group_rest_len(rest);
        lemma_parse_ser_group_rest(rest, tail, inner.len());
        assert(seq![v0] + rest =~= items);
    }
}

/// The round trip of the whole cached form: decoding what was encoded gives
/// back the same collection, field for field.
pub proof fn lemma_groups_round_trip(items: Seq<WatchlistGroupV>)
    requires
        wf_group_seq(items),
    ensures
        (deser_groups(ser_group_list(items)) == Some(items)),
{
    lemma_parse_ser_group_list(items, Seq::<u8>::empty());
    assert(ser_group_list(items) + Seq::<u8>::empty() =~= ser_group_list(items));
}

/// Encode a collection for the cache.
pub fn serialize_groups(items: &Vec<WatchlistGroupResponse>) -> (out: Vec<u8>)
    requires
        forall|i: int| 0 <= i < items@.len() ==> (#[trigger] items@[i]).wf(),
    ensures
        out@ == ser_group_list(group_views(items@)),
{
    proof {
        reveal_strlit("[");
        reveal_strlit("[]");
        reveal_strlit("]");
        reveal_strlit(",");
    }
    let ghost vs = group_views(items@);
    let mut out: Vec<u8> = Vec::new();
    if items.len() == 0 {
        push_lit(&mut out, "[]");
        proof {
            assert(out@ =~= ser_group_list(vs));
        }
        return out;
    }
    push_lit(&mut out, "[");
    write_group_item(&mut out, &items[0]);
    let mut k: usize = 1;
    while k < items.len()
        invariant
            1 <= k <= items@.len(),
            vs == group_views(items@),
            vs.len() == items@.len(),
            forall|i: int| 0 <= i < items@.len() ==> (#[trigger] items@[i]).wf(),
            out@ == lit_bytes("["@) + ser_group(vs[0]) + ser_group_rest(
                vs.subrange(1, k as int),
            ),
        decreases items@.len() - k,
    {
        proof {
            reveal_strlit(",");
            reveal_strlit("[");
        }
        push_lit(&mut out, ",");
        write_group_item(&mut out, &items[k]);
        proof {
            assert(vs.subrange(1, k + 1 as int) =~= vs.subrange(1, k as int).push(vs[k as int]));
            lemma_ser_group_rest_push(vs.subrange(1, k as int), vs[k as int]);
            assert(out@ =~= lit_bytes("["@) + ser_group(vs[0]) + ser_group_rest(
                vs.subrange(1, k + 1 as int),
            ));
        }
        k = k + 1;
    }
    push_lit(&mut out, "]");
    proof {
        assert(vs.subrange(1, vs.len() as int) =~= vs.skip(1));
        assert(out@ =~= ser_group_list(vs));
    }
    out
}

/// Decode the entries after the first; `fuel` bounds the recursion depth.
fn read_group_rest(v: &Vec<u8>, i: usize, fuel: usize) -> (r: Option<
    (Vec<WatchlistGroupResponse>, usize),
>)
    requires
        i <= v@.len(),
    ensures
        match r {
            Some((ws, j)) => {
                &&& i <= j <= v@.len()
                &&& (parse_group_rest(v@.skip(i as int), fuel as nat) == Some(
                    (group_views(ws@), v@.skip(j as int)),
                ))
                &&& forall|t: int| 0 <= t < ws@.len() ==> (#[trigger] ws@[t]).wf()
            },
            None => parse_group_rest(v@.skip(i as int), fuel as nat) is None,
        },
    decreases fuel,
{
    if i >= v.len() {
        proof {
            assert(v@.skip(i as int) =~= Seq::<u8>::empty());
        }
        return None;
    }
    proof {
        assert(v@.skip(i as int)[0] == v@[i as int]);
    }
    if v[i] == 93 {
        let ws: Vec<WatchlistGroupResponse> = Vec::new();
        proof {
            assert(group_views(ws@) =~= Seq::<WatchlistGroupV>::empty());
            assert(v@.skip(i as int).skip(1) =~= v@.skip(i + 1 as int));
        }
        return Some((ws, i + 1));
    }
    if v[i] == 44 && fuel > 0 {
        proof {
            assert(v@.skip(i as int).skip(1) =~= v@.skip(i + 1 as int));
        }
        match read_group_item(v, i + 1) {
            Some((w, j)) => match read_group_rest(v, j, fuel - 1) {
                Some((mut ws, j2)) => {
                    ws.insert(0, w);
                    proof {
                        assert(group_views(ws@) =~= seq![w@] + group_views(
                            ws@.skip(1),
                        ));
                    }
                    Some((ws, j2))
                },
                None => None,
            },
            None => None,
        }
    } else {
        None
    }
}

/// Decode a whole cached collection; succeeds only when `v` holds exactly one
/// encoded collection.
pub fn deserialize_groups(v: &Vec<u8>) -> (r: Option<Vec<WatchlistGroupResponse>>)
    ensures
        match r {
            Some(ws) => {
                &&& (deser_groups(v@) == Some(group_views(ws@)))
                &&& forall|t: int| 0 <= t < ws@.len() ==> (#[trigger] ws@[t]).wf()
            },
            None => deser_groups(v@) is None,
        },
{
    proof {
        reveal_strlit("[");
        assert(v@.skip(0) =~= v@);
    }
    let s1 = match crate::json::expect_lit(v, 0, "[") {
        Some(j) => j,
        None => {
            return None;
        },
    };
    if s1 < v.len() {
        proof {
            assert(v@.skip(s1 as int)[0] == v@[s1 as int]);
        }
    }
    if s1 < v.len() && v[s1] == 93 {
        proof {
            assert(v@.skip(s1 as int).skip(1) =~= v@.skip(s1 + 1 as int));
        }
        if s1 + 1 == v.len() {
            let ws: Vec<WatchlistGroupResponse> = Vec::new();
            proof {
                assert(group_views(ws@) =~= Seq::<WatchlistGroupV>::empty());
                assert(v@.skip(s1 + 1 as int).len() == 0);
            }
            return Some(ws);
        } else {
            return None;
        }
    }
    let (w, j) = match read_group_item(v, s1) {
        Some(p) => p,
        None => {
            return None;
        },
    };
    proof {
        assert(v@.skip(j as int).len() == v@.len() - j);
    }
    match read_group_rest(v, j, v.len() - j) {
        Some((mut ws, j2)) => {
            if j2 == v.len() {
                ws.insert(0, w);
                proof {
                    assert(group_views(ws@) =~= seq![w@] + group_views(ws@.skip(1)));
                    assert(v@.skip(j2 as int).len() == 0);
                }
                Some(ws)
            } else {
                None
            }
        },
        None => None,
    }
}


} // verus!
