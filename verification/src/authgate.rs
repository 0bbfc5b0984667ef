//! The authentication stage that every request passes through before any
//! handler runs. An exempt path is forwarded untouched; everything else must
//! carry a bearer token that validates, and a rejection names exactly one
//! reason.
use vstd::prelude::*;
use vstd::string::StrSliceExecFns;

use crate::errors::ApiError;
use crate::token::{
    token_alg_ok, token_claims_of, token_parts, token_sig_good, verify, Claims, TokenError,
};

verus! {

/// What the authentication stage does with one request.
#[derive(Debug)]
pub enum AuthDecision {
    /// The path is exempt: forward with no identity attached.
    ForwardExempt,
    /// The token verified: forward with these claims attached.
    Forward(Claims),
    /// Reject with this error; the request never reaches a handler.
    Reject(ApiError),
}

/// The liveness path bypasses authentication entirely.
pub open spec fn is_exempt(path: Seq<char>) -> bool {
    path == "/health"@
}

/// The token inside a well-formed bearer header.
pub open spec fn bearer_token(h: Seq<char>) -> Option<Seq<char>> {
    if h.len() >= 7 && h.subrange(0, 7) == "Bearer "@ {
        Some(h.skip(7))
    } else {
        None
    }
}

/// The view of an optional header value.
pub open spec fn header_view(h: Option<&str>) -> Option<Seq<char>> {
    match h {
        Some(s) => Some(s@),
        None => None,
    }
}

/// The token a request presents, if its header is bearer-shaped.
pub open spec fn req_token(h: Option<Seq<char>>) -> Option<Seq<char>> {
    match h {
        Some(s) => bearer_token(s),
        None => None,
    }
}

/// The presented token of a request whose header is bearer-shaped.
pub open spec fn gate_tok(h: Option<&str>) -> Seq<char> {
    req_token(header_view(h))->Some_0
}

fn str_eq(a: &str, b: &str) -> (r: bool)
    ensures
        r == (a@ == b@),
{
    let x = a.to_owned();
    let y = b.to_owned();
    x == y
}

/// Strip the bearer prefix from a header value.
fn bearer_of(h: &str) -> (r: Option<&str>)
    ensures
        match r {
            Some(t) => (bearer_token(h@) == Some(t@)),
            None => bearer_token(h@) is None,
        },
{
    proof {
        reveal_strlit("Bearer ");
    }
    let n = h.unicode_len();
    if n < 7 {
        return None;
    }
    let ok = h.get_char(0) == 'B' && h.get_char(1) == 'e' && h.get_char(2) == 'a' && h.get_char(3)
        == 'r' && h.get_char(4) == 'e' && h.get_char(5) == 'r' && h.get_char(6) == ' ';
    if !ok {
        proof {
            assert(h@.subrange(0, 7) != "Bearer "@) by {
                if h@.subrange(0, 7) == "Bearer "@ {
                    assert(h@[0] == h@.subrange(0, 7)[0]);
                    assert(h@[1] == h@.subrange(0, 7)[1]);
                    assert(h@[2] == h@.subrange(0, 7)[2]);
                    assert(h@[3] == h@.subrange(0, 7)[3]);
                    assert(h@[4] == h@.subrange(0, 7)[4]);
                    assert(h@[5] == h@.subrange(0, 7)[5]);
                    assert(h@[6] == h@.subrange(0, 7)[6]);
                }
            }
        }
        return None;
    }
    proof {
        assert(h@.subrange(0, 7) =~= "Bearer "@);
    }
    let t = h.substring_char(7, n);
    proof {
        assert(t@ =~= h@.skip(7));
    }
    Some(t)
}

/// Decide one request. The verdict is a function of the path, the header,
/// the secret and the clock, and names the exact reason for each rejection.
pub fn auth_gate(path: &str, auth_header: Option<&str>, secret: &[u8], now: u64) -> (r:
    AuthDecision)
    ensures
        match r {
            AuthDecision::ForwardExempt => is_exempt(path@),
            AuthDecision::Forward(c) => {
                &&& !is_exempt(path@)
                &&& req_token(header_view(auth_header)) is Some
                &&& token_parts(gate_tok(auth_header)) is Some
                &&& token_alg_ok(gate_tok(auth_header))
                &&& token_sig_good(gate_tok(auth_header), secret@)
                &&& token_claims_of(gate_tok(auth_header)).exp >= now
                &&& c@ == token_claims_of(gate_tok(auth_header))
            },
            AuthDecision::Reject(e) => {
                &&& !is_exempt(path@)
                &&& match e {
                    ApiError::MissingAuthorizationHeader => auth_header is None,
                    ApiError::MalformedAuthorizationToken => {
                        &&& auth_header is Some
                        &&& (req_token(header_view(auth_header)) is None || token_parts(
                            gate_tok(auth_header),
                        ) is None)
                    },
                    ApiError::InvalidToken => {
                        &&& req_token(header_view(auth_header)) is Some
                        &&& token_parts(gate_tok(auth_header)) is Some
                        &&& (!token_alg_ok(gate_tok(auth_header)) || !token_sig_good(
                            gate_tok(auth_header),
                            secret@,
                        ))
                    },
                    ApiError::ExpiredSignature => {
                        &&& req_token(header_view(auth_header)) is Some
                        &&& token_parts(gate_tok(auth_header)) is Some
                        &&& token_alg_ok(gate_tok(auth_header))
                        &&& token_sig_good(gate_tok(auth_header), secret@)
                        &&& token_claims_of(gate_tok(auth_header)).exp < now
                    },
                    _ => false,
                }
            },
        },
{
    if str_eq(path, "/health") {
        return AuthDecision::ForwardExempt;
    }
    let h = match auth_header {
        Some(h) => h,
        None => {
            return AuthDecision::Reject(ApiError::MissingAuthorizationHeader);
        },
    };
    let tok = match bearer_of(h) {
        Some(t) => t,
        None => {
            return AuthDecision::Reject(ApiError::MalformedAuthorizationToken);
        },
    };
    match verify(tok, secret, now) {
        Ok(c) => AuthDecision::Forward(c),
        Err(TokenError::Malformed) => AuthDecision::Reject(ApiError::MalformedAuthorizationToken),
        Err(TokenError::InvalidSignature) => AuthDecision::Reject(ApiError::InvalidToken),
        Err(TokenError::Expired) => AuthDecision::Reject(ApiError::ExpiredSignature),
    }
}

/// The authentication stage's configuration: holds the shared secret and is
/// turned into a per-service stage at startup.
pub struct JWTMiddleware {
    pub secret: String,
}

impl JWTMiddleware {
    pub fn new(secret: String) -> (r: Self)
        ensures
            r.secret@ == secret@,
    {
        JWTMiddleware { secret }
    }

    /// Wrap an inner service with this stage.
    pub fn transform<S>(&self, service: S) -> (r: JwtMiddlewareMiddleware<S>)
        ensures
            r.secret@ == self.secret@,
    {
        JwtMiddlewareMiddleware { service, secret: self.secret.clone() }
    }
}

/// The authentication stage wrapped around one inner service.
pub struct JwtMiddlewareMiddleware<S> {
    pub service: S,
    pub secret: String,
}

impl<S> JwtMiddlewareMiddleware<S> {
    /// Decide one request with this stage's secret; the verdict is the one
    /// `auth_gate` gives under the secret's encoded bytes.
    pub fn decide(&self, path: &str, auth_header: Option<&str>, now: u64) -> (r: AuthDecision)
        ensures
            match r {
                AuthDecision::ForwardExempt => is_exempt(path@),
                AuthDecision::Forward(c) => {
                    &&& !is_exempt(path@)
                    &&& req_token(header_view(auth_header)) is Some
                    &&& token_parts(gate_tok(auth_header)) is Some
                    &&& token_alg_ok(gate_tok(auth_header))
                    &&& token_sig_good(
                        gate_tok(auth_header),
                        vstd::utf8::encode_utf8(self.secret@),
                    )
                    &&& token_claims_of(gate_tok(auth_header)).exp >= now
                    &&& c@ == token_claims_of(gate_tok(auth_header))
                },
                AuthDecision::Reject(e) => {
                    &&& !is_exempt(path@)
                    &&& match e {
                        ApiError::MissingAuthorizationHeader => auth_header is None,
                        ApiError::MalformedAuthorizationToken => {
                            &&& auth_header is Some
                            &&& (req_token(header_view(auth_header)) is None || token_parts(
                                gate_tok(auth_header),
                            ) is None)
                        },
                        ApiError::InvalidToken => {
                            &&& req_token(header_view(auth_header)) is Some
                            &&& token_parts(gate_tok(auth_header)) is Some
                            &&& (!token_alg_ok(gate_tok(auth_header)) || !token_sig_good(
                                gate_tok(auth_header),
                                vstd::utf8::encode_utf8(self.secret@),
                            ))
                        },
                        ApiError::ExpiredSignature => {
                            &&& req_token(header_view(auth_header)) is Some
                            &&& token_parts(gate_tok(auth_header)) is Some
                            &&& token_alg_ok(gate_tok(auth_header))
                            &&& token_sig_good(
                                gate_tok(auth_header),
                                vstd::utf8::encode_utf8(self.secret@),
                            )
                            &&& token_claims_of(gate_tok(auth_header)).exp < now
                        },
                        _ => false,
                    }
                },
            },
    {
        let sb = self.secret.as_str().as_bytes();
        auth_gate(path, auth_header, sb, now)
    }
}

} // verus!
