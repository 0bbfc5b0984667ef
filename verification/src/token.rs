//! Bearer-token validation: a token is three unpadded base64url segments
//! separated by dots; the first names the signing algorithm, the second
//! carries the identity claims, the third is an HMAC-SHA256 signature over
//! the first two. Validation classifies every token as well formed and
//! properly signed, or as exactly one of three failures: malformed structure,
//! a signature (or algorithm) that does not verify, or an expired claim.
use vstd::prelude::*;
use vstd::string::StrSliceExecFns;

use crate::b64::b64_decode;
use crate::b64::b64_decode_bytes;
use crate::json::{
    expect, lit_bytes, parse_i32, parse_json_i32, parse_json_string, parse_json_u64, parse_string,
    parse_u64,
};

verus! {

/// Identity carried by a verified token, for the lifetime of one request.
#[derive(Debug, Clone)]
pub struct Claims {
    pub user_id: i32,
    pub username: String,
    pub exp: u64,
}

/// Mathematical image of the claims.
pub struct ClaimsV {
    pub user_id: i32,
    pub username: Seq<char>,
    pub exp: u64,
}

impl View for Claims {
    type V = ClaimsV;

    open spec fn view(&self) -> ClaimsV {
        ClaimsV { user_id: self.user_id, username: self.username@, exp: self.exp }
    }
}

/// Why a token was rejected.
#[derive(Debug, Clone, Copy, PartialEq, Eq, Structural)]
pub enum TokenError {
    /// Wrong segment count, a segment that does not decode, or an
    /// unreadable header or payload.
    Malformed,
    /// The signature does not verify, or the header names another algorithm.
    InvalidSignature,
    /// Structure and signature are good but the expiry is in the past.
    Expired,
}

/// Claim fields collected so far while reading the payload object; a field
/// may be filled at most once.
pub struct ClaimSlots {
    pub user_id: Option<i32>,
    pub username: Option<Seq<char>>,
    pub exp: Option<u64>,
}

/// Read one `"key":value` pair and fill its slot. A key seen twice, an
/// unknown key or a value of the wrong shape rejects the payload.
pub open spec fn parse_claim_member(s: Seq<u8>, sl: ClaimSlots) -> Option<(ClaimSlots, Seq<u8>)> {
    match expect(s, lit_bytes("\"user_id\":"@)) {
        Some(s1) => match sl.user_id {
            None => match parse_i32(s1) {
                Some((n, r)) => Some(
                    (ClaimSlots { user_id: Some(n), username: sl.username, exp: sl.exp }, r),
                ),
                None => None,
            },
            Some(_) => None,
        },
        None => match expect(s, lit_bytes("\"username\":"@)) {
            Some(s1) => match sl.username {
                None => match parse_string(s1) {
                    Some((t, r)) => Some(
                        (ClaimSlots { user_id: sl.user_id, username: Some(t), exp: sl.exp }, r),
                    ),
                    None => None,
                },
                Some(_) => None,
            },
            None => match expect(s, lit_bytes("\"exp\":"@)) {
                Some(s1) => match sl.exp {
                    None => match parse_u64(s1) {
                        Some((n, r)) => Some(
                            (
                                ClaimSlots {
                                    user_id: sl.user_id,
                                    username: sl.username,
                                    exp: Some(n),
                                },
                                r,
                            ),
                        ),
                        None => None,
                    },
                    Some(_) => None,
                },
                None => None,
            },
        },
    }
}

/// Decode the payload object: exactly the three claim fields, in any order.
pub open spec fn parse_claims(bs: Seq<u8>) -> Option<ClaimsV> {
    let sl0 = ClaimSlots { user_id: None, username: None, exp: None };
    match expect(bs, lit_bytes("{"@)) {
        Some(s1) => match parse_claim_member(s1, sl0) {
            Some((sl1, r1)) => match expect(r1, lit_bytes(","@)) {
                Some(s2) => match parse_claim_member(s2, sl1) {
                    Some((sl2, r2)) => match expect(r2, lit_bytes(","@)) {
                        Some(s3) => match parse_claim_member(s3, sl2) {
                            Some((sl3, r3)) => match expect(r3, lit_bytes("}"@)) {
                                Some(r4) => if r4.len() == 0 {
                                    match (sl3.user_id, sl3.username, sl3.exp) {
                                        (Some(u), Some(un), Some(e)) => Some(
                                            ClaimsV { user_id: u, username: un, exp: e },
                                        ),
                                        _ => None,
                                    }
                                } else {
                                    None
                                },
                                None => None,
                            },
                            None => None,
                        },
                        None => None,
                    },
                    None => None,
                },
                None => None,
            },
            None => None,
        },
        None => None,
    }
}

/// Header fields collected so far: the declared type and the algorithm.
pub struct HeaderSlots {
    pub typ: Option<Seq<char>>,
    pub alg: Option<Seq<char>>,
}

/// Read one header member; both known members carry string values.
pub open spec fn parse_header_member(s: Seq<u8>, sl: HeaderSlots) -> Option<
    (HeaderSlots, Seq<u8>),
> {
    match expect(s, lit_bytes("\"typ\":"@)) {
        Some(s1) => match sl.typ {
            None => match parse_string(s1) {
                Some((t, r)) => Some((HeaderSlots { typ: Some(t), alg: sl.alg }, r)),
                None => None,
            },
            Some(_) => None,
        },
        None => match expect(s, lit_bytes("\"alg\":"@)) {
            Some(s1) => match sl.alg {
                None => match parse_string(s1) {
                    Some((t, r)) => Some((HeaderSlots { typ: sl.typ, alg: Some(t) }, r)),
                    None => None,
                },
                Some(_) => None,
            },
            None => None,
        },
    }
}

/// Decode the header object and yield the declared algorithm; one or two
/// members, the algorithm required.
pub open spec fn parse_header_alg(bs: Seq<u8>) -> Option<Seq<char>> {
    let sl0 = HeaderSlots { typ: None, alg: None };
    match expect(bs, lit_bytes("{"@)) {
        Some(s1) => match parse_header_member(s1, sl0) {
            Some((sl1, r1)) => match expect(r1, lit_bytes("}"@)) {
                Some(r2) => if r2.len() == 0 {
                    sl1.alg
                } else {
                    None
                },
                None => match expect(r1, lit_bytes(","@)) {
                    Some(s2) => match parse_header_member(s2, sl1) {
                        Some((sl2, r2)) => match expect(r2, lit_bytes("}"@)) {
                            Some(r3) => if r3.len() == 0 {
                                sl2.alg
                            } else {
                                None
                            },
                            None => None,
                        },
                        None => None,
                    },
                    None => None,
                },
            },
            None => None,
        },
        None => None,
    }
}

/// The position of the first dot at or after `from`.
pub open spec fn first_dot_from(bs: Seq<u8>, from: int) -> Option<int>
    decreases bs.len() - from when 0 <= from <= bs.len()
{
    if from >= bs.len() {
        None
    } else if bs[from] == 46 {
        Some(from)
    } else {
        first_dot_from(bs, from + 1)
    }
}

/// The positions of the two dots of a three-segment token; any other dot
/// count rejects the token.
pub open spec fn token_dots(bs: Seq<u8>) -> Option<(int, int)> {
    match first_dot_from(bs, 0) {
        Some(d1) => match first_dot_from(bs, d1 + 1) {
            Some(d2) => match first_dot_from(bs, d2 + 1) {
                None => Some((d1, d2)),
                Some(_) => None,
            },
            None => None,
        },
        None => None,
    }
}

/// The bytes of an ASCII token, one per character.
pub open spec fn token_bytes(t: Seq<char>) -> Seq<u8> {
    t.map_values(|c: char| c as u8)
}

/// Everything the structure of a token determines: the dot positions, the
/// declared algorithm and the decoded claims.
pub struct TokenParts {
    pub d1: int,
    pub d2: int,
    pub alg: Seq<char>,
    pub claims: ClaimsV,
}

/// Take a token apart; `None` is a structurally invalid token.
pub open spec fn token_parts(t: Seq<char>) -> Option<TokenParts> {
    if !vstd::utf8::is_ascii_chars(t) {
        None
    } else {
        let bs = token_bytes(t);
        match token_dots(bs) {
            Some((d1, d2)) => match b64_decode(bs.subrange(0, d1)) {
                Some(hb) => match parse_header_alg(hb) {
                    Some(alg) => match b64_decode(bs.subrange(d1 + 1, d2)) {
                        Some(pb) => match parse_claims(pb) {
                            Some(claims) => Some(TokenParts { d1, d2, alg, claims }),
                            None => None,
                        },
                        None => None,
                    },
                    None => None,
                },
                None => None,
            },
            None => None,
        }
    }
}

/// The signed portion of a token: everything before the second dot.
pub open spec fn token_msg(t: Seq<char>, d2: int) -> Seq<u8> {
    token_bytes(t).subrange(0, d2)
}

/// The signature segment of a token: everything after the second dot.
pub open spec fn token_sig(t: Seq<char>, d2: int) -> Seq<char> {
    t.subrange(d2 + 1, t.len() as int)
}

/// Whether an HMAC-SHA256 signature, written in unpadded base64url, matches
/// a message under a secret. The outcome is a function of the three
/// arguments alone.
pub uninterp spec fn hs256_sig_ok(message: Seq<u8>, signature: Seq<char>, secret: Seq<u8>) -> bool;

/// Relies on jsonwebtoken::crypto::verify with Algorithm::HS256 and a key
/// from DecodingKey::from_secret: recomputes the HMAC-SHA256 of `message`
/// under `secret` and compares it with the base64url `signature`; false when
/// the signature does not decode or does not match.
#[verifier::external_body]
fn hs256_verify(message: &[u8], signature: &str, secret: &[u8]) -> (r: bool)
    ensures
        r == hs256_sig_ok(message@, signature@, secret@),
{
    let key = jsonwebtoken::DecodingKey::from_secret(secret);
    matches!(
        jsonwebtoken::crypto::verify(signature, message, &key, jsonwebtoken::Algorithm::HS256),
        Ok(true)
    )
}


/// Claim fields collected so far, in executable form.
pub struct ExecClaimSlots {
    pub user_id: Option<i32>,
    pub username: Option<String>,
    pub exp: Option<u64>,
}

pub open spec fn claim_slots_view(e: ExecClaimSlots) -> ClaimSlots {
    ClaimSlots {
        user_id: e.user_id,
        username: match e.username {
            Some(s) => Some(s@),
            None => None,
        },
        exp: e.exp,
    }
}

/// Read one claim member at position `i` of `v`.
fn read_claim_member(v: &Vec<u8>, i: usize, sl: ExecClaimSlots) -> (r: Option<
    (ExecClaimSlots, usize),
>)
    requires
        i <= v@.len(),
    ensures
        match r {
            Some((sl2, j)) => {
                &&& i <= j <= v@.len()
                &&& (parse_claim_member(v@.skip(i as int), claim_slots_view(sl)) == Some(
                    (claim_slots_view(sl2), v@.skip(j as int)),
                ))
            },
            None => parse_claim_member(v@.skip(i as int), claim_slots_view(sl)) is None,
        },
{
    proof {
        reveal_strlit("\"user_id\":");
        reveal_strlit("\"username\":");
        reveal_strlit("\"exp\":");
    }
    match crate::json::expect_lit(v, i, "\"user_id\":") {
        Some(s1) => match sl.user_id {
            None => match parse_json_i32(v, s1) {
                Some((n, r)) => Some(
                    (
                        ExecClaimSlots { user_id: Some(n), username: sl.username, exp: sl.exp },
                        r,
                    ),
                ),
                None => None,
            },
            Some(_) => None,
        },
        None => match crate::json::expect_lit(v, i, "\"username\":") {
            Some(s1) => match sl.username {
                None => match parse_json_string(v, s1) {
                    Some((t, r)) => Some(
                        (
                            ExecClaimSlots { user_id: sl.user_id, username: Some(t), exp: sl.exp },
                            r,
                        ),
                    ),
                    None => None,
                },
                Some(_) => None,
            },
            None => match crate::json::expect_lit(v, i, "\"exp\":") {
                Some(s1) => match sl.exp {
                    None => match parse_json_u64(v, s1) {
                        Some((n, r)) => Some(
                            (
                                ExecClaimSlots {
                                    user_id: sl.user_id,
                                    username: sl.username,
                                    exp: Some(n),
                                },
                                r,
                            ),
                        ),
                        None => None,
                    },
                    Some(_) => None,
                },
                None => None,
            },
        },
    }
}

/// Decode a payload into claims; succeeds only on exactly the three claim
/// fields, in any order, spanning the whole payload.
pub fn parse_claims_bytes(v: &Vec<u8>) -> (r: Option<Claims>)
    ensures
        match r {
            Some(c) => (parse_claims(v@) == Some(c@)),
            None => parse_claims(v@) is None,
        },
{
    proof {
        reveal_strlit("{");
        reveal_strlit(",");
        reveal_strlit("}");
        assert(v@.skip(0) =~= v@);
    }
    let sl0 = ExecClaimSlots { user_id: None, username: None, exp: None };
    let s1 = match crate::json::expect_lit(v, 0, "{") {
        Some(j) => j,
        None => {
            return None;
        },
    };
    let (sl1, r1) = match read_claim_member(v, s1, sl0) {
        Some(p) => p,
        None => {
            return None;
        },
    };
    let s2 = match crate::json::expect_lit(v, r1, ",") {
        Some(j) => j,
        None => {
            return None;
        },
    };
    let (sl2, r2) = match read_claim_member(v, s2, sl1) {
        Some(p) => p,
        None => {
            return None;
        },
    };
    let s3 = match crate::json::expect_lit(v, r2, ",") {
        Some(j) => j,
        None => {
            return None;
        },
    };
    let (sl3, r3) = match read_claim_member(v, s3, sl2) {
        Some(p) => p,
        None => {
            return None;
        },
    };
    let r4 = match crate::json::expect_lit(v, r3, "}") {
        Some(j) => j,
        None => {
            return None;
        },
    };
    if r4 != v.len() {
        return None;
    }
    proof {
        assert(v@.skip(r4 as int).len() == 0);
    }
    match (sl3.user_id, sl3.username, sl3.exp) {
        (Some(u), Some(un), Some(e)) => Some(Claims { user_id: u, username: un, exp: e }),
        _ => None,
    }
}

/// Header fields collected so far, in executable form.
pub struct ExecHeaderSlots {
    pub typ: Option<String>,
    pub alg: Option<String>,
}

pub open spec fn header_slots_view(e: ExecHeaderSlots) -> HeaderSlots {
    HeaderSlots {
        typ: match e.typ {
            Some(s) => Some(s@),
            None => None,
        },
        alg: match e.alg {
            Some(s) => Some(s@),
            None => None,
        },
    }
}

/// Read one header member at position `i` of `v`.
fn read_header_member(v: &Vec<u8>, i: usize, sl: ExecHeaderSlots) -> (r: Option<
    (ExecHeaderSlots, usize),
>)
    requires
        i <= v@.len(),
    ensures
        match r {
            Some((sl2, j)) => {
                &&& i <= j <= v@.len()
                &&& (parse_header_member(v@.skip(i as int), header_slots_view(sl)) == Some(
                    (header_slots_view(sl2), v@.skip(j as int)),
                ))
            },
            None => parse_header_member(v@.skip(i as int), header_slots_view(sl)) is None,
        },
{
    proof {
        reveal_strlit("\"typ\":");
        reveal_strlit("\"alg\":");
    }
    match crate::json::expect_lit(v, i, "\"typ\":") {
        Some(s1) => match sl.typ {
            None => match parse_json_string(v, s1) {
                Some((t, r)) => Some((ExecHeaderSlots { typ: Some(t), alg: sl.alg }, r)),
                None => None,
            },
            Some(_) => None,
        },
        None => match crate::json::expect_lit(v, i, "\"alg\":") {
            Some(s1) => match sl.alg {
                None => match parse_json_string(v, s1) {
                    Some((t, r)) => Some((ExecHeaderSlots { typ: sl.typ, alg: Some(t) }, r)),
                    None => None,
                },
                Some(_) => None,
            },
            None => None,
        },
    }
}

/// Decode a header and yield the declared algorithm.
pub fn parse_header_alg_bytes(v: &Vec<u8>) -> (r: Option<String>)
    ensures
        match r {
            Some(a) => (parse_header_alg(v@) == Some(a@)),
            None => parse_header_alg(v@) is None,
        },
{
    proof {
        reveal_strlit("{");
        reveal_strlit(",");
        reveal_strlit("}");
        assert(v@.skip(0) =~= v@);
    }
    let sl0 = ExecHeaderSlots { typ: None, alg: None };
    let s1 = match crate::json::expect_lit(v, 0, "{") {
        Some(j) => j,
        None => {
            return None;
        },
    };
    let (sl1, r1) = match read_header_member(v, s1, sl0) {
        Some(p) => p,
        None => {
            return None;
        },
    };
    match crate::json::expect_lit(v, r1, "}") {
        Some(r2) => {
            if r2 == v.len() {
                proof {
                    assert(v@.skip(r2 as int).len() == 0);
                }
                return sl1.alg;
            }
            return None;
        },
        None => {},
    }
    let s2 = match crate::json::expect_lit(v, r1, ",") {
        Some(j) => j,
        None => {
            return None;
        },
    };
    let (sl2, r2) = match read_header_member(v, s2, sl1) {
        Some(p) => p,
        None => {
            return None;
        },
    };
    let r3 = match crate::json::expect_lit(v, r2, "}") {
        Some(j) => j,
        None => {
            return None;
        },
    };
    if r3 == v.len() {
        proof {
            assert(v@.skip(r3 as int).len() == 0);
        }
        sl2.alg
    } else {
        None
    }
}

/// The first dot at or after position `i` of `v`.
fn find_dot_from(v: &Vec<u8>, i: usize) -> (r: Option<usize>)
    requires
        i <= v@.len(),
    ensures
        match r {
            Some(j) => {
                &&& i <= j < v@.len()
                &&& (first_dot_from(v@, i as int) == Some(j as int))
            },
            None => first_dot_from(v@, i as int) is None,
        },
    decreases v@.len() - i,
{
    if i >= v.len() {
        None
    } else if v[i] == 46 {
        Some(i)
    } else {
        find_dot_from(v, i + 1)
    }
}

/// Copy the bytes of `v` between `a` and `b`.
fn sub_bytes(v: &Vec<u8>, a: usize, b: usize) -> (out: Vec<u8>)
    requires
        a <= b <= v@.len(),
    ensures
        out@ == v@.subrange(a as int, b as int),
{
    let mut out: Vec<u8> = Vec::new();
    proof {
        assert(v@.subrange(a as int, a as int) =~= Seq::<u8>::empty());
    }
    let mut k: usize = a;
    while k < b
        invariant
            a <= k <= b <= v@.len(),
            out@ == v@.subrange(a as int, k as int),
        decreases b - k,
    {
        out.push(v[k]);
        proof {
            assert(v@.subrange(a as int, k + 1 as int) =~= v@.subrange(a as int, k as int).push(
                v@[k as int],
            ));
        }
        k = k + 1;
    }
    out
}

/// The token's header declares the one supported algorithm.
pub open spec fn token_alg_ok(t: Seq<char>) -> bool {
    token_parts(t) is Some && token_parts(t)->Some_0.alg == "HS256"@
}

/// The token's signature segment verifies over its first two segments.
pub open spec fn token_sig_good(t: Seq<char>, secret: Seq<u8>) -> bool {
    token_parts(t) is Some && hs256_sig_ok(
        token_msg(t, token_parts(t)->Some_0.d2),
        token_sig(t, token_parts(t)->Some_0.d2),
        secret,
    )
}

/// The claims a well-formed token carries.
pub open spec fn token_claims_of(t: Seq<char>) -> ClaimsV {
    token_parts(t)->Some_0.claims
}

/// Validate a bearer token under `secret` at time `now` (Unix seconds):
/// check its structure, the declared algorithm, the signature over the first
/// two segments, and the expiry claim, in that order.
pub fn verify(token: &str, secret: &[u8], now: u64) -> (r: Result<Claims, TokenError>)
    ensures
        match r {
            Ok(c) => {
                &&& token_parts(token@) is Some
                &&& token_alg_ok(token@)
                &&& token_sig_good(token@, secret@)
                &&& token_claims_of(token@).exp >= now
                &&& c@ == token_claims_of(token@)
            },
            Err(TokenError::Malformed) => token_parts(token@) is None,
            Err(TokenError::InvalidSignature) => {
                &&& token_parts(token@) is Some
                &&& (!token_alg_ok(token@) || !token_sig_good(token@, secret@))
            },
            Err(TokenError::Expired) => {
                &&& token_parts(token@) is Some
                &&& token_alg_ok(token@)
                &&& token_sig_good(token@, secret@)
                &&& token_claims_of(token@).exp < now
            },
        },
{
    if !token.is_ascii() {
        return Err(TokenError::Malformed);
    }
    let bytes = token.as_bytes_vec();
    proof {
        broadcast use vstd::string::is_ascii_spec_bytes;

        assert(bytes@ =~= token_bytes(token@));
    }
    let d1 = match find_dot_from(&bytes, 0) {
        Some(d) => d,
        None => {
            return Err(TokenError::Malformed);
        },
    };
    let d2 = match find_dot_from(&bytes, d1 + 1) {
        Some(d) => d,
        None => {
            return Err(TokenError::Malformed);
        },
    };
    match find_dot_from(&bytes, d2 + 1) {
        Some(_) => {
            return Err(TokenError::Malformed);
        },
        None => {},
    }
    let header_seg = sub_bytes(&bytes, 0, d1);
    let hb = match b64_decode_bytes(&header_seg) {
        Some(x) => x,
        None => {
            return Err(TokenError::Malformed);
        },
    };
    let alg = match parse_header_alg_bytes(&hb) {
        Some(a) => a,
        None => {
            return Err(TokenError::Malformed);
        },
    };
    let payload_seg = sub_bytes(&bytes, d1 + 1, d2);
    let pb = match b64_decode_bytes(&payload_seg) {
        Some(x) => x,
        None => {
            return Err(TokenError::Malformed);
        },
    };
    let claims = match parse_claims_bytes(&pb) {
        Some(c) => c,
        None => {
            return Err(TokenError::Malformed);
        },
    };
    let ghost parts = TokenParts { d1: d1 as int, d2: d2 as int, alg: alg@, claims: claims@ };
    proof {
        assert(token_parts(token@) == Some(parts));
    }
    let hs = String::from_str("HS256");
    if !(alg == hs) {
        return Err(TokenError::InvalidSignature);
    }
    let n = token.unicode_len();
    let sig = token.substring_ascii(d2 + 1, n);
    let msg = sub_bytes(&bytes, 0, d2);
    if !hs256_verify(msg.as_slice(), sig, secret) {
        return Err(TokenError::InvalidSignature);
    }
    if claims.exp < now {
        return Err(TokenError::Expired);
    }
    Ok(claims)
}

} // verus!
