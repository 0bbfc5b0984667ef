//! Rendering of timestamps for response bodies: year down to second, dash
//! and colon separated, each part zero-padded to a fixed width.
use vstd::prelude::*;

use crate::json::{chars_of, dec_digits, is_digit_byte, lemma_dec_digits_are_digits, push_dec_u64};

verus! {

/// A calendar timestamp broken into its parts, as read from the store.
#[derive(Debug, Clone, Copy, PartialEq, Eq, Structural)]
pub struct DateTimeParts {
    pub year: u32,
    pub month: u8,
    pub day: u8,
    pub hour: u8,
    pub minute: u8,
    pub second: u8,
}

/// A number zero-padded to two digits.
pub open spec fn pad2(n: nat) -> Seq<u8> {
    if n < 10 {
        seq![48u8] + dec_digits(n)
    } else {
        dec_digits(n)
    }
}

/// A number zero-padded to four digits.
pub open spec fn pad4(n: nat) -> Seq<u8> {
    if n < 10 {
        seq![48u8, 48u8, 48u8] + dec_digits(n)
    } else if n < 100 {
        seq![48u8, 48u8] + dec_digits(n)
    } else if n < 1000 {
        seq![48u8] + dec_digits(n)
    } else {
        dec_digits(n)
    }
}

/// The rendered form of a timestamp.
pub open spec fn datetime_bytes(d: DateTimeParts) -> Seq<u8> {
    pad4(d.year as nat) + seq![45u8] + pad2(d.month as nat) + seq![45u8] + pad2(d.day as nat)
        + seq![32u8] + pad2(d.hour as nat) + seq![58u8] + pad2(d.minute as nat) + seq![58u8]
        + pad2(d.second as nat)
}

/// The rendered form of an optional timestamp: empty when there is none.
pub open spec fn datetime_text(d: Option<DateTimeParts>) -> Seq<char> {
    match d {
        Some(p) => chars_of(datetime_bytes(p)),
        None => Seq::empty(),
    }
}

fn push_pad2(out: &mut Vec<u8>, n: u8)
    ensures
        final(out)@ == old(out)@ + pad2(n as nat),
{
    if n < 10 {
        out.push(48);
    }
    push_dec_u64(out, n as u64);
    proof {
        assert(out@ =~= old(out)@ + pad2(n as nat));
    }
}

fn push_pad4(out: &mut Vec<u8>, n: u32)
    ensures
        final(out)@ == old(out)@ + pad4(n as nat),
{
    if n < 10 {
        out.push(48);
        out.push(48);
        out.push(48);
    } else if n < 100 {
        out.push(48);
        out.push(48);
    } else if n < 1000 {
        out.push(48);
    }
    push_dec_u64(out, n as u64);
    proof {
        assert(out@ =~= old(out)@ + pad4(n as nat));
    }
}

proof fn lemma_datetime_bytes_ascii(d: DateTimeParts)
    ensures
        forall|i: int| 0 <= i < datetime_bytes(d).len() ==> #[trigger] datetime_bytes(d)[i] < 128,
{
    lemma_dec_digits_are_digits(d.year as nat);
    lemma_dec_digits_are_digits(d.month as nat);
    lemma_dec_digits_are_digits(d.day as nat);
    lemma_dec_digits_are_digits(d.hour as nat);
    lemma_dec_digits_are_digits(d.minute as nat);
    lemma_dec_digits_are_digits(d.second as nat);
}

/// Render an optional timestamp; a missing one renders as the empty string.
pub fn format_datetime(datetime: Option<DateTimeParts>) -> (r: String)
    ensures
        r@ == datetime_text(datetime),
{
    match datetime {
        Some(d) => {
            let mut out: Vec<u8> = Vec::new();
            push_pad4(&mut out, d.year);
            out.push(45);
            push_pad2(&mut out, d.month);
            out.push(45);
            push_pad2(&mut out, d.day);
            out.push(32);
            push_pad2(&mut out, d.hour);
            out.push(58);
            push_pad2(&mut out, d.minute);
            out.push(58);
            push_pad2(&mut out, d.second);
            proof {
                assert(out@ =~= datetime_bytes(d));
                lemma_datetime_bytes_ascii(d);
            }
            crate::json::ascii_to_string(out)
        },
        None => String::new(),
    }
}

} // verus!
