//! The cache wire layer and the logical cache state. A command goes on the
//! wire as an array of byte strings whose first element names the command;
//! a reply is a status line, a byte payload, the nil marker, an error line,
//! or something outside that four-way contract. `CacheDb` is the logical
//! content of the cache: a map from key to stored bytes, the state the
//! coordinator's guarantees are stated over.
use vstd::prelude::*;
use vstd::string::StrSliceExecFns;

use crate::errors::ApiError;

verus! {

/// The byte strings of a command array.
pub open spec fn parts_view(c: Seq<Vec<u8>>) -> Seq<Seq<u8>> {
    c.map_values(|p: Vec<u8>| p@)
}

pub open spec fn auth_command_spec(pw: Seq<char>) -> Seq<Seq<u8>> {
    seq![vstd::utf8::encode_utf8("AUTH"@), vstd::utf8::encode_utf8(pw)]
}

pub open spec fn get_command_spec(key: Seq<char>) -> Seq<Seq<u8>> {
    seq![vstd::utf8::encode_utf8("GET"@), vstd::utf8::encode_utf8(key)]
}

pub open spec fn set_command_spec(key: Seq<char>, val: Seq<u8>) -> Seq<Seq<u8>> {
    seq![vstd::utf8::encode_utf8("SET"@), vstd::utf8::encode_utf8(key), val]
}

pub open spec fn del_command_spec(key: Seq<char>) -> Seq<Seq<u8>> {
    seq![vstd::utf8::encode_utf8("DEL"@), vstd::utf8::encode_utf8(key)]
}

/// The credential exchange sent once, right after connecting.
pub fn auth_command(password: &str) -> (c: Vec<Vec<u8>>)
    ensures
        parts_view(c@) == auth_command_spec(password@),
{
    let mut c: Vec<Vec<u8>> = Vec::new();
    c.push("AUTH".as_bytes_vec());
    c.push(password.as_bytes_vec());
    proof {
        assert(parts_view(c@) =~= auth_command_spec(password@));
    }
    c
}

/// The lookup command for one key.
pub fn get_command(key: &str) -> (c: Vec<Vec<u8>>)
    ensures
        parts_view(c@) == get_command_spec(key@),
{
    let mut c: Vec<Vec<u8>> = Vec::new();
    c.push("GET".as_bytes_vec());
    c.push(key.as_bytes_vec());
    proof {
        assert(parts_view(c@) =~= get_command_spec(key@));
    }
    c
}

/// The store command for one key and payload.
pub fn set_command(key: &str, val: Vec<u8>) -> (c: Vec<Vec<u8>>)
    ensures
        parts_view(c@) == set_command_spec(key@, val@),
{
    let mut c: Vec<Vec<u8>> = Vec::new();
    c.push("SET".as_bytes_vec());
    c.push(key.as_bytes_vec());
    c.push(val);
    proof {
        assert(parts_view(c@) =~= set_command_spec(key@, c@[2]@));
    }
    c
}

/// The invalidation command for one key.
pub fn del_command(key: &str) -> (c: Vec<Vec<u8>>)
    ensures
        parts_view(c@) == del_command_spec(key@),
{
    let mut c: Vec<Vec<u8>> = Vec::new();
    c.push("DEL".as_bytes_vec());
    c.push(key.as_bytes_vec());
    proof {
        assert(parts_view(c@) =~= del_command_spec(key@));
    }
    c
}

/// One reply as it comes off the wire.
#[derive(Debug)]
pub enum WireReply {
    /// A simple status line.
    Status(String),
    /// A byte-string payload.
    Bulk(Vec<u8>),
    /// The nil marker: the key has no value.
    Nil,
    /// An error line from the cache server.
    Error(String),
    /// A reply shape outside the four-way contract.
    Other,
}

/// Read a lookup reply: a payload is a hit, nil is a miss, anything else is
/// a protocol error that the read path treats as fatal.
pub fn classify_get_reply(r: WireReply) -> (out: Result<Vec<u8>, ApiError>)
    ensures
        match r {
            WireReply::Bulk(b) => (out == Ok::<Vec<u8>, ApiError>(b)),
            WireReply::Nil => (out == Err::<Vec<u8>, ApiError>(ApiError::RedisNil)),
            _ => match out {
                Err(ApiError::RedisError(s)) => s@ == "Failed to get value"@,
                _ => false,
            },
        },
{
    match r {
        WireReply::Bulk(b) => Ok(b),
        WireReply::Nil => Err(ApiError::RedisNil),
        _ => Err(ApiError::RedisError(String::from_str("Failed to get value"))),
    }
}

/// Read the handshake reply: only an OK status makes the connection usable.
pub fn classify_auth_reply(r: &WireReply) -> (ok: bool)
    ensures
        ok == (match r {
            WireReply::Status(s) => s@ == "OK"@,
            _ => false,
        }),
{
    let expected = String::from_str("OK");
    match r {
        WireReply::Status(s) => *s == expected,
        _ => false,
    }
}

/// The logical content of the cache: each key is Absent or holds one byte
/// payload. A key's transition from Present to Absent happens only through
/// `del`, and `set` is the only way to make it Present.
pub struct CacheDb {
    m: vstd::hash_map::StringHashMap<Vec<u8>>,
}

impl View for CacheDb {
    type V = Map<Seq<char>, Seq<u8>>;

    closed spec fn view(&self) -> Map<Seq<char>, Seq<u8>> {
        self.m@.map_values(|v: Vec<u8>| v@)
    }
}

impl CacheDb {
    /// An empty cache: every key Absent.
    pub fn new() -> (r: Self)
        ensures
            r@ == Map::<Seq<char>, Seq<u8>>::empty(),
    {
        let r = CacheDb { m: vstd::hash_map::StringHashMap::new() };
        proof {
            assert(r@ =~= Map::<Seq<char>, Seq<u8>>::empty());
        }
        r
    }

    /// Look a key up; the stored bytes when Present.
    pub fn get(&self, key: &str) -> (r: Option<Vec<u8>>)
        ensures
            match r {
                Some(v) => self@.contains_key(key@) && v@ == self@[key@],
                None => !self@.contains_key(key@),
            },
    {
        match self.m.get(key) {
            Some(v) => {
                let c = v.clone();
                proof {
                    assert(c@ =~= v@);
                }
                Some(c)
            },
            None => None,
        }
    }

    /// Store a payload under a key, making it Present.
    pub fn set(&mut self, key: &str, val: Vec<u8>)
        ensures
            final(self)@ == old(self)@.insert(key@, val@),
    {
        let ghost v0 = val@;
        self.m.insert(key.to_owned(), val);
        proof {
            assert(self@ =~= old(self)@.insert(key@, v0));
        }
    }

    /// Delete a key, making it Absent.
    pub fn del(&mut self, key: &str)
        ensures
            final(self)@ == old(self)@.remove(key@),
    {
        self.m.remove(key);
        proof {
            assert(self@ =~= old(self)@.remove(key@));
        }
    }
}

} // verus!
