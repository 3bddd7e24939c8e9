//! Reading colours given on the command line.

use vstd::prelude::*;

use vstd::utf8::encode_utf8;

use crate::color::{all_hex, hash_prefix_end, hex_digit_exec, hex_digit_value, strip_hashes};
use crate::text::{decimal, push_decimal};

verus! {

pub open spec fn invalid_digit_message() -> Seq<char> {
    "invalid hex color: invalid digit found in string"@
}

pub open spec fn digit_count_message(n: nat) -> Seq<char> {
    "expected 6 or 8 hex digits, got "@ + decimal(n)
}

/// The byte that the two hexadecimal digits `h[i]`, `h[i + 1]` denote.
pub open spec fn hex_pair(h: Seq<u8>, i: int) -> u8 {
    (hex_digit_value(h[i])->Some_0 * 16 + hex_digit_value(h[i + 1])->Some_0) as u8
}

/// The colour that a command-line argument denotes: after any leading `#`,
/// six ASCII hexadecimal digits give RGB with alpha 255 and eight give RGBA.
/// Text with any other byte is an invalid digit; hexadecimal digits of any
/// other number are an error that gives the number.
pub open spec fn arg_color(text: Seq<char>) -> Result<Seq<u8>, Seq<char>> {
    let h = strip_hashes(encode_utf8(text));
    if !all_hex(h) {
        Err(invalid_digit_message())
    } else if h.len() == 6 {
        Ok(seq![hex_pair(h, 0), hex_pair(h, 2), hex_pair(h, 4), 255u8])
    } else if h.len() == 8 {
        Ok(seq![hex_pair(h, 0), hex_pair(h, 2), hex_pair(h, 4), hex_pair(h, 6)])
    } else {
        Err(digit_count_message(h.len()))
    }
}

/// The byte that the hexadecimal digits `b[i]`, `b[i + 1]` denote.
fn pair_exec(b: &[u8], i: usize) -> (r: u8)
    requires
        i + 1 < b@.len(),
        hex_digit_value(b@[i as int]) is Some,
        hex_digit_value(b@[i + 1]) is Some,
    ensures
        r == hex_pair(b@, i as int),
{
    let hi = match hex_digit_exec(b[i]) {
        Some(d) => d,
        None => 0,
    };
    let lo = match hex_digit_exec(b[i + 1]) {
        Some(d) => d,
        None => 0,
    };
    hi * 16 + lo
}

/// Parses a colour given as `RRGGBB` or `RRGGBBAA` (with or without `#`).
pub fn parse_hex_color(s: &str) -> (r: Result<[u8; 4], String>)
    ensures
        match arg_color(s@) {
            Ok(c) => r matches Ok(x) && x@ == c,
            Err(m) => r matches Err(e) && e@ == m,
        },
{
    let b = s.as_bytes();
    let mut k: usize = 0;
    while k < b.len() && b[k] == 35
        invariant
            k <= b@.len(),
            hash_prefix_end(b@, 0) == hash_prefix_end(b@, k as int),
        decreases b@.len() - k,
    {
        k = k + 1;
    }
    let ghost h = b@.subrange(k as int, b@.len() as int);
    assert(h == strip_hashes(encode_utf8(s@)));
    let mut i = k;
    while i < b.len()
        invariant
            k <= i <= b@.len(),
            h == b@.subrange(k as int, b@.len() as int),
            h == strip_hashes(encode_utf8(s@)),
            forall|j: int| k <= j < i ==> hex_digit_value(#[trigger] b@[j]) is Some,
        decreases b@.len() - i,
    {
        let d = hex_digit_exec(b[i]);
        if d.is_none() {
            assert(h[i - k] == b@[i as int]);
            assert(hex_digit_value(h[i - k]) is None);
            assert(!all_hex(h));
            let e = String::from_str("invalid hex color: invalid digit found in string");
            return Err(e);
        }
        i = i + 1;
    }
    assert forall|j: int| 0 <= j < h.len() implies #[trigger] hex_digit_value(h[j]) is Some by {
        assert(h[j] == b@[k + j]);
    }
    let n = b.len() - k;
    if n == 6 || n == 8 {
        let r = pair_exec(b, k);
        let g = pair_exec(b, k + 2);
        let bl = pair_exec(b, k + 4);
        let a = if n == 8 {
            pair_exec(b, k + 6)
        } else {
            255
        };
        assert(hex_pair(b@, k as int) == hex_pair(h, 0));
        assert(hex_pair(b@, k + 2) == hex_pair(h, 2));
        assert(hex_pair(b@, k + 4) == hex_pair(h, 4));
        assert(n == 8 ==> hex_pair(b@, k + 6) == hex_pair(h, 6));
        let c = [r, g, bl, a];
        assert(n == 6 ==> c@ =~= seq![hex_pair(h, 0), hex_pair(h, 2), hex_pair(h, 4), 255u8]);
        assert(n == 8 ==> c@ =~= seq![hex_pair(h, 0), hex_pair(h, 2), hex_pair(h, 4), hex_pair(h, 6)]);
        Ok(c)
    } else {
        let mut e = String::from_str("expected 6 or 8 hex digits, got ");
        push_decimal(&mut e, n);
        Err(e)
    }
}

} // verus!
