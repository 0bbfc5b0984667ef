//! Unpadded URL-safe base64, the alphabet bearer-token segments are written
//! in. Only decoding is needed: a segment is decoded before its contents are
//! read. The decoder is strict: a stray character, an impossible length or
//! nonzero trailing bits reject the segment.
use vstd::prelude::*;

verus! {

/// The six-bit value of an alphabet character, or 64 for anything else.
pub open spec fn b64_val(b: u8) -> u8 {
    if 65 <= b <= 90 {
        (b - 65) as u8
    } else if 97 <= b <= 122 {
        (b - 71) as u8
    } else if 48 <= b <= 57 {
        (b + 4) as u8
    } else if b == 45 {
        62
    } else if b == 95 {
        63
    } else {
        64
    }
}

/// Decode a whole unpadded segment: full four-character groups, then a tail
/// of two or three characters whose unused low bits must be zero.
pub open spec fn b64_decode(s: Seq<u8>) -> Option<Seq<u8>>
    decreases s.len(),
{
    if s.len() == 0 {
        Some(Seq::empty())
    } else if s.len() == 1 {
        None
    } else if s.len() == 2 {
        let v0 = b64_val(s[0]) as int;
        let v1 = b64_val(s[1]) as int;
        if v0 < 64 && v1 < 64 && v1 % 16 == 0 {
            Some(seq![(v0 * 4 + v1 / 16) as u8])
        } else {
            None
        }
    } else if s.len() == 3 {
        let v0 = b64_val(s[0]) as int;
        let v1 = b64_val(s[1]) as int;
        let v2 = b64_val(s[2]) as int;
        if v0 < 64 && v1 < 64 && v2 < 64 && v2 % 4 == 0 {
            Some(seq![(v0 * 4 + v1 / 16) as u8, ((v1 % 16) * 16 + v2 / 4) as u8])
        } else {
            None
        }
    } else {
        let v0 = b64_val(s[0]) as int;
        let v1 = b64_val(s[1]) as int;
        let v2 = b64_val(s[2]) as int;
        let v3 = b64_val(s[3]) as int;
        if v0 < 64 && v1 < 64 && v2 < 64 && v3 < 64 {
            match b64_decode(s.skip(4)) {
                Some(rest) => Some(
                    seq![
                        (v0 * 4 + v1 / 16) as u8,
                        ((v1 % 16) * 16 + v2 / 4) as u8,
                        ((v2 % 4) * 64 + v3) as u8,
                    ] + rest,
                ),
                None => None,
            }
        } else {
            None
        }
    }
}

/// The six-bit value of an alphabet character, or 64 for anything else.
fn b64v(b: u8) -> (r: u8)
    ensures
        r == b64_val(b),
{
    if 65 <= b && b <= 90 {
        b - 65
    } else if 97 <= b && b <= 122 {
        b - 71
    } else if 48 <= b && b <= 57 {
        b + 4
    } else if b == 45 {
        62
    } else if b == 95 {
        63
    } else {
        64
    }
}

/// Decode an unpadded segment held in `v`.
pub fn b64_decode_bytes(v: &Vec<u8>) -> (r: Option<Vec<u8>>)
    ensures
        match r {
            Some(out) => (b64_decode(v@) == Some(out@)),
            None => b64_decode(v@) is None,
        },
{
    let n = v.len();
    let mut j: usize = 0;
    let mut acc: Vec<u8> = Vec::new();
    proof {
        assert(v@.skip(0) =~= v@);
        if b64_decode(v@) is Some {
            let t = b64_decode(v@)->Some_0;
            assert(Seq::<u8>::empty() + t =~= t);
        }
    }
    while n - j >= 4
        invariant
            0 <= j <= n,
            n == v@.len(),
            b64_decode(v@) == (match b64_decode(v@.skip(j as int)) {
                Some(t) => Some(acc@ + t),
                None => None::<Seq<u8>>,
            }),
        decreases n - j,
    {
        let ghost sj = v@.skip(j as int);
        proof {
            assert(sj[0] == v@[j as int]);
            assert(sj[1] == v@[j + 1]);
            assert(sj[2] == v@[j + 2]);
            assert(sj[3] == v@[j + 3]);
            assert(sj.skip(4) =~= v@.skip(j + 4));
        }
        let v0 = b64v(v[j]);
        let v1 = b64v(v[j + 1]);
        let v2 = b64v(v[j + 2]);
        let v3 = b64v(v[j + 3]);
        if v0 == 64 || v1 == 64 || v2 == 64 || v3 == 64 {
            return None;
        }
        let ghost acc0 = acc@;
        let b0 = v0 * 4 + v1 / 16;
        let b1 = (v1 % 16) * 16 + v2 / 4;
        let b2 = (v2 % 4) * 64 + v3;
        acc.push(b0);
        acc.push(b1);
        acc.push(b2);
        proof {
            assert(acc@ =~= acc0 + seq![b0, b1, b2]);
            if b64_decode(v@.skip(j + 4)) is Some {
                let t = b64_decode(v@.skip(j + 4))->Some_0;
                assert(acc0 + (seq![b0, b1, b2] + t) =~= acc@ + t);
            }
        }
        j = j + 4;
    }
    let rem = n - j;
    let ghost sj = v@.skip(j as int);
    if rem == 0 {
        proof {
            assert(sj =~= Seq::<u8>::empty());
            assert(acc@ + Seq::<u8>::empty() =~= acc@);
        }
        Some(acc)
    } else if rem == 1 {
        None
    } else if rem == 2 {
        proof {
            assert(sj[0] == v@[j as int]);
            assert(sj[1] == v@[j + 1]);
        }
        let v0 = b64v(v[j]);
        let v1 = b64v(v[j + 1]);
        if v0 == 64 || v1 == 64 || v1 % 16 != 0 {
            return None;
        }
        acc.push(v0 * 4 + v1 / 16);
        proof {
            assert(acc@ =~= acc@.subrange(0, acc@.len() - 1) + seq![acc@[acc@.len() - 1]]);
        }
        Some(acc)
    } else {
        proof {
            assert(sj[0] == v@[j as int]);
            assert(sj[1] == v@[j + 1]);
            assert(sj[2] == v@[j + 2]);
        }
        let v0 = b64v(v[j]);
        let v1 = b64v(v[j + 1]);
        let v2 = b64v(v[j + 2]);
        if v0 == 64 || v1 == 64 || v2 == 64 || v2 % 4 != 0 {
            return None;
        }
        acc.push(v0 * 4 + v1 / 16);
        acc.push((v1 % 16) * 16 + v2 / 4);
        proof {
            assert(acc@ =~= acc@.subrange(0, acc@.len() - 2) + seq![
                acc@[acc@.len() - 2],
                acc@[acc@.len() - 1],
            ]);
        }
        Some(acc)
    }
}

} // verus!
