//! The error taxonomy of the request pipeline, the HTTP status each error
//! maps to, and the exact body a client sees: an object holding a list of
//! message strings.
use vstd::prelude::*;

use crate::json::{lit_bytes, push_json_string, push_lit, ser_string, stringable};

verus! {

/// Everything the pipeline can fail with. `RedisNil` is an internal signal
/// (a cache miss) and is always recovered before a response is built.
#[derive(Debug)]
pub enum ApiError {
    BadRequest(String),
    InternalServerError,
    NotFound,
    InvalidToken,
    ExpiredSignature,
    MissingAuthorizationHeader,
    MalformedAuthorizationToken,
    RedisError(String),
    SerdeError(String),
    RedisNil,
}

/// What the source of truth can report back to the pipeline.
#[derive(Debug, Clone, PartialEq, Eq, Structural)]
pub enum DbError {
    RowNotFound,
    Other,
}

/// The HTTP status an error is answered with.
pub open spec fn status_of(e: ApiError) -> int {
    match e {
        ApiError::BadRequest(_) => 400,
        ApiError::InternalServerError => 500,
        ApiError::NotFound => 404,
        ApiError::InvalidToken => 401,
        ApiError::ExpiredSignature => 401,
        ApiError::MissingAuthorizationHeader => 401,
        ApiError::MalformedAuthorizationToken => 401,
        ApiError::RedisError(_) => 500,
        ApiError::SerdeError(_) => 500,
        ApiError::RedisNil => 404,
    }
}

/// The message a client sees for an error.
pub open spec fn message_of(e: ApiError) -> Seq<char> {
    match e {
        ApiError::BadRequest(d) => "Bad request: "@ + d@,
        ApiError::InternalServerError => "Internal server error"@,
        ApiError::NotFound => "The data is not found"@,
        ApiError::InvalidToken => "Invalid Token"@,
        ApiError::ExpiredSignature => "Token has expired"@,
        ApiError::MissingAuthorizationHeader => "Missing Token"@,
        ApiError::MalformedAuthorizationToken => "Malformed Token"@,
        ApiError::RedisError(d) => "Internal server error, Redis: "@ + d@,
        ApiError::SerdeError(d) => "Internal server error, Serde: "@ + d@,
        ApiError::RedisNil => "Data not found in Redis"@,
    }
}

impl ApiError {
    /// The HTTP status code for this error.
    pub fn status_code(&self) -> (r: u16)
        ensures
            r as int == status_of(*self),
    {
        match self {
            ApiError::BadRequest(_) => 400,
            ApiError::InternalServerError => 500,
            ApiError::NotFound => 404,
            ApiError::InvalidToken => 401,
            ApiError::ExpiredSignature => 401,
            ApiError::MissingAuthorizationHeader => 401,
            ApiError::MalformedAuthorizationToken => 401,
            ApiError::RedisError(_) => 500,
            ApiError::SerdeError(_) => 500,
            ApiError::RedisNil => 404,
        }
    }

    /// The message shown to a client.
    pub fn message(&self) -> (r: String)
        ensures
            r@ == message_of(*self),
    {
        match self {
            ApiError::BadRequest(d) => {
                let mut s = String::from_str("Bad request: ");
                s.append(d.as_str());
                s
            },
            ApiError::InternalServerError => String::from_str("Internal server error"),
            ApiError::NotFound => String::from_str("The data is not found"),
            ApiError::InvalidToken => String::from_str("Invalid Token"),
            ApiError::ExpiredSignature => String::from_str("Token has expired"),
            ApiError::MissingAuthorizationHeader => String::from_str("Missing Token"),
            ApiError::MalformedAuthorizationToken => String::from_str("Malformed Token"),
            ApiError::RedisError(d) => {
                let mut s = String::from_str("Internal server error, Redis: ");
                s.append(d.as_str());
                s
            },
            ApiError::SerdeError(d) => {
                let mut s = String::from_str("Internal server error, Serde: ");
                s.append(d.as_str());
                s
            },
            ApiError::RedisNil => String::from_str("Data not found in Redis"),
        }
    }
}

/// How a source-of-truth failure is surfaced to clients.
pub open spec fn api_of_db(e: DbError) -> ApiError {
    match e {
        DbError::RowNotFound => ApiError::NotFound,
        DbError::Other => ApiError::InternalServerError,
    }
}

impl From<DbError> for ApiError {
    /// A missing row is the client's mistake; everything else is the
    /// server's.
    fn from(e: DbError) -> (r: ApiError) {
        match e {
            DbError::RowNotFound => ApiError::NotFound,
            DbError::Other => ApiError::InternalServerError,
        }
    }
}

impl vstd::std_specs::convert::FromSpecImpl<DbError> for ApiError {
    open spec fn obeys_from_spec() -> bool {
        true
    }

    open spec fn from_spec(e: DbError) -> ApiError {
        api_of_db(e)
    }
}

/// The body sent with an error response: a list of message strings.
#[derive(Debug)]
pub struct ErrorResponse {
    pub errors: Vec<String>,
}

impl ErrorResponse {
    pub fn new(errors: Vec<String>) -> (r: ErrorResponse)
        ensures
            r.errors@ == errors@,
    {
        ErrorResponse { errors }
    }
}

/// Encoded form of the messages after the first, each preceded by a comma.
pub open spec fn ser_msgs_rest(msgs: Seq<Seq<char>>) -> Seq<u8>
    decreases msgs.len(),
{
    if msgs.len() == 0 {
        Seq::empty()
    } else {
        lit_bytes(","@) + ser_string(msgs[0]) + ser_msgs_rest(msgs.skip(1))
    }
}

/// Encoded form of a list of message strings.
pub open spec fn ser_msg_list(msgs: Seq<Seq<char>>) -> Seq<u8> {
    if msgs.len() == 0 {
        lit_bytes("[]"@)
    } else {
        lit_bytes("["@) + ser_string(msgs[0]) + ser_msgs_rest(msgs.skip(1)) + lit_bytes("]"@)
    }
}

/// Encoded form of the whole error body.
pub open spec fn ser_error_body(msgs: Seq<Seq<char>>) -> Seq<u8> {
    lit_bytes("{\"errors\":"@) + ser_msg_list(msgs) + lit_bytes("}"@)
}

pub open spec fn msg_views(msgs: Seq<String>) -> Seq<Seq<char>> {
    msgs.map_values(|m: String| m@)
}

proof fn lemma_ser_msgs_rest_push(msgs: Seq<Seq<char>>, m: Seq<char>)
    ensures
        ser_msgs_rest(msgs.push(m)) == ser_msgs_rest(msgs) + (lit_bytes(","@) + ser_string(m)),
    decreases msgs.len(),
{
    if msgs.len() == 0 {
        assert(msgs =~= Seq::<Seq<char>>::empty());
        assert(msgs.push(m)[0] == m);
        assert(msgs.push(m).skip(1) =~= Seq::<Seq<char>>::empty());
        assert(ser_msgs_rest(msgs.push(m)) =~= ser_msgs_rest(msgs) + (lit_bytes(","@)
            + ser_string(m)));
    } else {
        assert(msgs.push(m)[0] == msgs[0]);
        assert(msgs.push(m).skip(1) =~= msgs.skip(1).push(m));
        lemma_ser_msgs_rest_push(msgs.skip(1), m);
        assert(ser_msgs_rest(msgs.push(m)) =~= ser_msgs_rest(msgs) + (lit_bytes(","@)
            + ser_string(m)));
    }
}

impl ErrorResponse {
    /// Encode this body exactly as a client receives it.
    pub fn to_bytes(&self) -> (out: Vec<u8>)
        requires
            forall|i: int| 0 <= i < self.errors@.len() ==> stringable(
                (#[trigger] self.errors@[i])@,
            ),
        ensures
            out@ == ser_error_body(msg_views(self.errors@)),
    {
        proof {
            reveal_strlit("{\"errors\":");
            reveal_strlit("[");
            reveal_strlit("[]");
            reveal_strlit("]");
            reveal_strlit("}");
        }
        let ghost vs = msg_views(self.errors@);
        let mut out: Vec<u8> = Vec::new();
        push_lit(&mut out, "{\"errors\":");
        if self.errors.len() == 0 {
            push_lit(&mut out, "[]");
            push_lit(&mut out, "}");
            proof {
                assert(out@ =~= ser_error_body(vs));
            }
            return out;
        }
        push_lit(&mut out, "[");
        push_json_string(&mut out, self.errors[0].as_str());
        let mut k: usize = 1;
        while k < self.errors.len()
            invariant
                1 <= k <= self.errors@.len(),
                vs == msg_views(self.errors@),
                vs.len() == self.errors@.len(),
                forall|i: int| 0 <= i < self.errors@.len() ==> stringable(
                    (#[trigger] self.errors@[i])@,
                ),
                out@ == lit_bytes("{\"errors\":"@) + lit_bytes("["@) + ser_string(vs[0])
                    + ser_msgs_rest(vs.subrange(1, k as int)),
            decreases self.errors@.len() - k,
        {
            proof {
                reveal_strlit(",");
            }
            push_lit(&mut out, ",");
            push_json_string(&mut out, self.errors[k].as_str());
            proof {
                assert(vs.subrange(1, k + 1 as int) =~= vs.subrange(1, k as int).push(
                    vs[k as int],
                ));
                lemma_ser_msgs_rest_push(vs.subrange(1, k as int), vs[k as int]);
                assert(out@ =~= lit_bytes("{\"errors\":"@) + lit_bytes("["@) + ser_string(vs[0])
                    + ser_msgs_rest(vs.subrange(1, k + 1 as int)));
            }
            k = k + 1;
        }
        push_lit(&mut out, "]");
        push_lit(&mut out, "}");
        proof {
            assert(vs.subrange(1, vs.len() as int) =~= vs.skip(1));
            assert(out@ =~= ser_error_body(vs));
        }
        out
    }
}

} // verus!
