//! Colours: parsing hexadecimal colour notations and writing SVG colours.
//!
//! Parsing works on the UTF-8 bytes of the text, as `str` slicing does; each
//! field of a colour is hexadecimal digits and nothing else.

use vstd::prelude::*;

use vstd::utf8::encode_utf8;

use crate::text::push_char;

verus! {

// ---------------------------------------------------------------------------
// Hexadecimal numbers
// ---------------------------------------------------------------------------

/// The value of an ASCII hexadecimal digit (either case).
pub open spec fn hex_digit_value(b: u8) -> Option<u8> {
    if 48 <= b <= 57 {
        Some((b - 48) as u8)
    } else if 97 <= b <= 102 {
        Some((b - 87) as u8)
    } else if 65 <= b <= 70 {
        Some((b - 55) as u8)
    } else {
        None
    }
}

/// Every byte of `d` is a hexadecimal digit.
pub open spec fn all_hex(d: Seq<u8>) -> bool {
    forall|i: int| 0 <= i < d.len() ==> #[trigger] hex_digit_value(d[i]) is Some
}

/// The number that the hexadecimal digits `d` denote.
pub open spec fn hex_value(d: Seq<u8>) -> nat
    decreases d.len(),
{
    if d.len() == 0 {
        0
    } else {
        hex_value(d.drop_last()) * 16 + match hex_digit_value(d.last()) {
            Some(v) => v as nat,
            None => 0,
        }
    }
}

/// The value of a field of a colour, the bytes `src`: one or more ASCII
/// hexadecimal digits whose value fits in a `u8` (no sign, no other byte).
pub open spec fn radix16_u8(src: Seq<u8>) -> Option<u8> {
    if src.len() == 0 || !all_hex(src) || hex_value(src) > 255 {
        None
    } else {
        Some(hex_value(src) as u8)
    }
}

/// `str::is_char_boundary` on the bytes of a string: index 0, the end, or an
/// index whose byte is not a UTF-8 continuation byte.
pub open spec fn is_boundary(b: Seq<u8>, i: int) -> bool {
    i == 0 || i == b.len() || (0 < i < b.len() && !(0x80 <= b[i] <= 0xbf))
}

/// The number of `#` bytes that `b` begins with, counting from `i`.
pub open spec fn hash_prefix_end(b: Seq<u8>, i: int) -> int
    decreases b.len() - i,
{
    if 0 <= i < b.len() && b[i] == 35 {
        hash_prefix_end(b, i + 1)
    } else {
        i
    }
}

/// `trim_start_matches('#')` on the bytes `b`.
pub open spec fn strip_hashes(b: Seq<u8>) -> Seq<u8> {
    b.subrange(hash_prefix_end(b, 0), b.len() as int)
}

pub proof fn lemma_hash_prefix_end(b: Seq<u8>, i: int)
    requires
        0 <= i <= b.len(),
    ensures
        i <= hash_prefix_end(b, i) <= b.len(),
    decreases b.len() - i,
{
    if i < b.len() && b[i] == 35 {
        lemma_hash_prefix_end(b, i + 1);
    }
}

pub(crate) fn hex_digit_exec(b: u8) -> (r: Option<u8>)
    ensures
        r == hex_digit_value(b),
{
    if 48 <= b && b <= 57 {
        Some(b - 48)
    } else if 97 <= b && b <= 102 {
        Some(b - 87)
    } else if 65 <= b && b <= 70 {
        Some(b - 55)
    } else {
        None
    }
}

/// The value of the colour field `b[lo..hi]`: hexadecimal digits only.
pub fn radix16_in(b: &[u8], lo: usize, hi: usize) -> (r: Option<u8>)
    requires
        lo <= hi <= b@.len(),
    ensures
        r == radix16_u8(b@.subrange(lo as int, hi as int)),
{
    let ghost src = b@.subrange(lo as int, hi as int);
    let start = lo;
    let ghost digits = b@.subrange(start as int, hi as int);
    if start == hi {
        return None;
    }
    let mut k = start;
    let mut acc: u32 = 0;
    while k < hi
        invariant
            lo <= start <= k <= hi <= b@.len(),
            digits == b@.subrange(start as int, hi as int),
            src == b@.subrange(lo as int, hi as int),
            digits == src,
            digits.len() > 0,
            all_hex(b@.subrange(start as int, k as int)),
            acc == (if hex_value(b@.subrange(start as int, k as int)) > 256 {
                256
            } else {
                hex_value(b@.subrange(start as int, k as int))
            }),
        decreases hi - k,
    {
        let ghost before = hex_value(b@.subrange(start as int, k as int));
        match hex_digit_exec(b[k]) {
            None => {
                assert(digits[k - start] == b@[k as int]);
                assert(hex_digit_value(digits[k - start]) is None);
                assert(!all_hex(digits));
                return None;
            },
            Some(d) => {
                assert(b@.subrange(start as int, k + 1).drop_last() =~= b@.subrange(
                    start as int,
                    k as int,
                ));
                assert(hex_value(b@.subrange(start as int, k + 1)) == before * 16 + d);
                assert forall|i: int| 0 <= i < k + 1 - start implies #[trigger] hex_digit_value(
                    b@.subrange(start as int, k + 1)[i],
                ) is Some by {
                    if i < k - start {
                        assert(b@.subrange(start as int, k + 1)[i] == b@.subrange(
                            start as int,
                            k as int,
                        )[i]);
                    }
                }
                if acc >= 256 {
                    acc = 256;
                } else {
                    let v = acc * 16 + d as u32;
                    acc = if v > 256 {
                        256
                    } else {
                        v
                    };
                }
            },
        }
        k = k + 1;
    }
    if acc > 255 {
        None
    } else {
        Some(acc as u8)
    }
}

// ---------------------------------------------------------------------------
// `#RGB`, `#RRGGBB`, `#RRGGBBAA`
// ---------------------------------------------------------------------------

/// How reading a colour's hexadecimal fields ends: a slice that is not at a
/// character boundary (a panic), a field that is not a number, or the field
/// values.
pub enum HexOutcome {
    Panics,
    Fails,
    Parsed(Seq<u8>),
}

/// Reads the fields `h[cuts[j]..cuts[j + 1]]` from field `j` on, after the
/// values `acc`, stopping at the first slice that cannot be taken or field
/// that is not a number.
pub open spec fn chunk_values(h: Seq<u8>, cuts: Seq<usize>, j: int, acc: Seq<u8>) -> HexOutcome
    decreases cuts.len() - j,
{
    if j < 0 || j + 1 >= cuts.len() {
        HexOutcome::Parsed(acc)
    } else if !(cuts[j] <= cuts[j + 1] <= h.len()) || !is_boundary(h, cuts[j] as int)
        || !is_boundary(h, cuts[j + 1] as int) {
        HexOutcome::Panics
    } else {
        match radix16_u8(h.subrange(cuts[j] as int, cuts[j + 1] as int)) {
            None => HexOutcome::Fails,
            Some(v) => chunk_values(h, cuts, j + 1, acc.push(v)),
        }
    }
}

/// Where the fields of a colour with `n` hexadecimal digits begin and end.
pub open spec fn color_cuts(n: int) -> Seq<usize> {
    if n == 3 {
        seq![0usize, 1, 2, 3]
    } else if n == 6 {
        seq![0usize, 2, 4, 6]
    } else {
        seq![0usize, 2, 4, 6, 8]
    }
}

/// Reading the digits `h` (without the `#`) as a colour's fields.
pub open spec fn hex_outcome(h: Seq<u8>) -> HexOutcome {
    if h.len() == 3 || h.len() == 6 || h.len() == 8 {
        chunk_values(h, color_cuts(h.len() as int), 0, Seq::empty())
    } else {
        HexOutcome::Fails
    }
}

/// Reading the colour `text` slices a string off a character boundary.
pub open spec fn hex_color_panics(text: Seq<char>) -> bool {
    hex_outcome(strip_hashes(encode_utf8(text))) is Panics
}

/// The RGBA colour that `text` (`#RGB`, `#RRGGBB` or `#RRGGBBAA`, any number
/// of leading `#`) denotes; a digit of `#RGB` is doubled, and alpha is 255
/// unless given.
pub open spec fn hex_color_of(text: Seq<char>) -> Option<Seq<u8>> {
    let h = strip_hashes(encode_utf8(text));
    match hex_outcome(h) {
        HexOutcome::Parsed(v) => Some(
            if h.len() == 3 {
                seq![(v[0] * 17) as u8, (v[1] * 17) as u8, (v[2] * 17) as u8, 255u8]
            } else if h.len() == 6 {
                seq![v[0], v[1], v[2], 255u8]
            } else {
                seq![v[0], v[1], v[2], v[3]]
            },
        ),
        _ => None,
    }
}

/// The end of the leading `#` bytes of `b`.
fn hash_prefix_end_exec(b: &[u8]) -> (k: usize)
    ensures
        k == hash_prefix_end(b@, 0),
        k <= b@.len(),
{
    let mut k: usize = 0;
    while k < b.len() && b[k] == 35
        invariant
            k <= b@.len(),
            hash_prefix_end(b@, 0) == hash_prefix_end(b@, k as int),
        decreases b@.len() - k,
    {
        k = k + 1;
    }
    k
}

/// Reads the colour fields of the bytes `b[k..]` at the given cuts; `None`
/// when a slice would not be at a character boundary.
fn read_fields(b: &[u8], k: usize, cuts: &[usize]) -> (r: Option<Option<Vec<u8>>>)
    requires
        k <= b@.len(),
    ensures
        ({
            let h = b@.subrange(k as int, b@.len() as int);
            match chunk_values(h, cuts@, 0, Seq::empty()) {
                HexOutcome::Panics => r is None,
                HexOutcome::Fails => r == Some(None::<Vec<u8>>),
                HexOutcome::Parsed(v) => r matches Some(Some(w)) && w@ == v,
            }
        }),
{
    let ghost h = b@.subrange(k as int, b@.len() as int);
    let n = b.len() - k;
    let mut vals: Vec<u8> = Vec::new();
    let mut j: usize = 0;
    while j < cuts.len() && j + 1 < cuts.len()
        invariant
            k <= b@.len(),
            b.len() == b@.len(),
            n == b@.len() - k,
            h == b@.subrange(k as int, b@.len() as int),
            chunk_values(h, cuts@, 0, Seq::empty()) == chunk_values(h, cuts@, j as int, vals@),
        decreases cuts@.len() - j,
    {
        let x = cuts[j];
        let y = cuts[j + 1];
        if !(x <= y && y <= n) {
            return None;
        }
        let bx = if x == 0 {
            true
        } else if x == n {
            true
        } else {
            !(0x80 <= b[k + x] && b[k + x] <= 0xbf)
        };
        let by = if y == 0 {
            true
        } else if y == n {
            true
        } else {
            !(0x80 <= b[k + y] && b[k + y] <= 0xbf)
        };
        assert(bx == is_boundary(h, x as int));
        assert(by == is_boundary(h, y as int));
        if !bx || !by {
            return None;
        }
        assert(h.subrange(x as int, y as int) =~= b@.subrange(k + x, k + y));
        match radix16_in(b, k + x, k + y) {
            None => {
                return Some(None);
            },
            Some(v) => {
                vals.push(v);
            },
        }
        j = j + 1;
    }
    Some(Some(vals))
}

/// The cuts of a colour with `n` hexadecimal digits.
fn color_cuts_exec(n: usize) -> (r: &'static [usize])
    requires
        n == 3 || n == 6 || n == 8,
    ensures
        r@ == color_cuts(n as int),
{
    let r: &'static [usize] = if n == 3 {
        &[0, 1, 2, 3]
    } else if n == 6 {
        &[0, 2, 4, 6]
    } else {
        &[0, 2, 4, 6, 8]
    };
    assert(r@ =~= color_cuts(n as int));
    r
}

proof fn lemma_single_digit(src: Seq<u8>)
    requires
        src.len() == 1,
        radix16_u8(src) is Some,
    ensures
        radix16_u8(src)->Some_0 <= 15,
{
    assert(src.drop_last().len() == 0);
    assert(hex_value(src.drop_last()) == 0);
    assert(hex_digit_value(src[0]) is Some);
}

/// The values that reading the fields yields: one per field, each that of
/// its field.
#[verifier::rlimit(40)]
proof fn lemma_fields(h: Seq<u8>, cuts: Seq<usize>, j: int, acc: Seq<u8>, v: Seq<u8>)
    requires
        0 <= j < cuts.len(),
        chunk_values(h, cuts, j, acc) == HexOutcome::Parsed(v),
    ensures
        v.len() == acc.len() + cuts.len() - 1 - j,
        v.subrange(0, acc.len() as int) == acc,
        forall|m: int|
            #![trigger cuts[m]]
            j <= m < cuts.len() - 1 ==> cuts[m] <= cuts[m + 1] <= h.len() && radix16_u8(
                h.subrange(cuts[m] as int, cuts[m + 1] as int),
            ) == Some(v[acc.len() + m - j]),
    decreases cuts.len() - j,
{
    if j + 1 < cuts.len() {
        let x = radix16_u8(h.subrange(cuts[j] as int, cuts[j + 1] as int))->Some_0;
        lemma_fields(h, cuts, j + 1, acc.push(x), v);
        assert(v.subrange(0, acc.len() as int) =~= v.subrange(0, acc.len() + 1 as int).drop_last());
        assert(acc.push(x).drop_last() =~= acc);
        assert(v[acc.len() as int] == v.subrange(0, acc.len() + 1 as int)[acc.len() as int]);
        assert forall|m: int| #![trigger cuts[m]] j <= m < cuts.len() - 1 implies cuts[m] <= cuts[m + 1] <= h.len()
            && radix16_u8(h.subrange(cuts[m] as int, cuts[m + 1] as int)) == Some(
            v[acc.len() + m - j],
        ) by {
            if m > j {
                assert(acc.push(x).len() + m - (j + 1) == acc.len() + m - j);
            }
        }
    } else {
        assert(v =~= acc);
    }
}

/// Parses `#RGB`, `#RRGGBB` or `#RRGGBBAA` (any number of leading `#`) into
/// RGBA; `None` when the text is not such a colour.
pub fn parse_hex_color(hex: &str) -> (r: Option<[u8; 4]>)
    requires
        !hex_color_panics(hex@),
    ensures
        match r {
            Some(c) => hex_color_of(hex@) == Some(c@),
            None => hex_color_of(hex@) is None,
        },
{
    let b = hex.as_bytes();
    let k = hash_prefix_end_exec(b);
    let ghost h = b@.subrange(k as int, b@.len() as int);
    assert(h == strip_hashes(encode_utf8(hex@)));
    let n = b.len() - k;
    if !(n == 3 || n == 6 || n == 8) {
        return None;
    }
    let cuts = color_cuts_exec(n);
    match read_fields(b, k, cuts) {
        None => None,
        Some(None) => None,
        Some(Some(v)) => {
            proof {
                lemma_fields(h, cuts@, 0, Seq::empty(), v@);
            }
            if n == 3 {
                proof {
                    assert(cuts@[0] == 0 && cuts@[1] == 1 && cuts@[2] == 2 && cuts@[3] == 3);
                    assert(radix16_u8(h.subrange(cuts@[0] as int, cuts@[1] as int)) == Some(v@[0]));
                    assert(radix16_u8(h.subrange(cuts@[1] as int, cuts@[2] as int)) == Some(v@[1]));
                    assert(radix16_u8(h.subrange(cuts@[2] as int, cuts@[3] as int)) == Some(v@[2]));
                    lemma_single_digit(h.subrange(0, 1));
                    lemma_single_digit(h.subrange(1, 2));
                    lemma_single_digit(h.subrange(2, 3));
                }
                let c = [v[0] * 17, v[1] * 17, v[2] * 17, 255];
                assert(c@ =~= seq![
                    (v@[0] * 17) as u8,
                    (v@[1] * 17) as u8,
                    (v@[2] * 17) as u8,
                    255u8,
                ]);
                Some(c)
            } else if n == 6 {
                let c = [v[0], v[1], v[2], 255];
                assert(c@ =~= seq![v@[0], v@[1], v@[2], 255u8]);
                Some(c)
            } else {
                let c = [v[0], v[1], v[2], v[3]];
                assert(c@ =~= seq![v@[0], v@[1], v@[2], v@[3]]);
                Some(c)
            }
        },
    }
}

/// Whether reading `hex` as a colour would slice it off a character boundary
/// (which `parse_hex_color` excludes).
pub fn hex_color_would_panic(hex: &str) -> (p: bool)
    ensures
        p == hex_color_panics(hex@),
{
    let b = hex.as_bytes();
    let k = hash_prefix_end_exec(b);
    let n = b.len() - k;
    if !(n == 3 || n == 6 || n == 8) {
        return false;
    }
    let cuts = color_cuts_exec(n);
    read_fields(b, k, cuts).is_none()
}

// ---------------------------------------------------------------------------
// Writing colours
// ---------------------------------------------------------------------------

/// The lowercase hexadecimal digit of `d` (below 16).
pub open spec fn hex_char(d: nat) -> char {
    if d < 10 {
        ((48 + d) as u32) as char
    } else {
        ((87 + d) as u32) as char
    }
}

/// The two lowercase hexadecimal digits of a byte (`{:02x}`).
pub open spec fn hex_byte(b: u8) -> Seq<char> {
    seq![hex_char((b / 16) as nat), hex_char((b % 16) as nat)]
}

/// The bytes `bytes`, each as two lowercase hexadecimal digits.
pub open spec fn hex_string(bytes: Seq<u8>) -> Seq<char>
    decreases bytes.len(),
{
    if bytes.len() == 0 {
        Seq::empty()
    } else {
        hex_string(bytes.drop_last()) + hex_byte(bytes.last())
    }
}

/// A lowercase hexadecimal digit: `0`-`9` or `a`-`f`.
pub open spec fn is_lower_hex_digit(c: char) -> bool {
    ('0' <= c && c <= '9') || ('a' <= c && c <= 'f')
}

/// The hex text of `bytes` has two lowercase hexadecimal digits per byte.
pub proof fn lemma_hex_string_shape(bytes: Seq<u8>)
    ensures
        hex_string(bytes).len() == 2 * bytes.len(),
        forall|i: int|
            0 <= i < hex_string(bytes).len() ==> is_lower_hex_digit(#[trigger] hex_string(bytes)[i]),
    decreases bytes.len(),
{
    if bytes.len() > 0 {
        lemma_hex_string_shape(bytes.drop_last());
        let b = bytes.last();
        let hi = (b / 16) as nat;
        let lo = (b % 16) as nat;
        assert(is_lower_hex_digit(hex_char(hi)));
        assert(is_lower_hex_digit(hex_char(lo)));
        let prev = hex_string(bytes.drop_last());
        assert forall|i: int| 0 <= i < hex_string(bytes).len() implies is_lower_hex_digit(
            #[trigger] hex_string(bytes)[i],
        ) by {
            if i < prev.len() {
                assert(hex_string(bytes)[i] == prev[i]);
            }
        }
    }
}

/// `alpha / 255` in hundredths, rounded to the nearest (`{:.2}` of the
/// quotient: no quotient of a `u8` by 255 lies at a tie).
pub open spec fn opacity_hundredths(alpha: u8) -> nat {
    ((alpha as nat) * 200 + 255) / 510
}

/// `alpha / 255` with two decimals, such as `0.50` or `1.00`.
pub open spec fn opacity_text(alpha: u8) -> Seq<char> {
    let h = opacity_hundredths(alpha);
    seq![
        crate::text::digit_char(h / 100),
        '.',
        crate::text::digit_char((h / 10) % 10),
        crate::text::digit_char(h % 10),
    ]
}

/// The text between the colour and the opacity of a translucent SVG fill.
pub open spec fn fill_opacity_attr() -> Seq<char> {
    seq!['"', ' ', 'f', 'i', 'l', 'l', '-', 'o', 'p', 'a', 'c', 'i', 't', 'y', '=', '"']
}

/// An RGBA colour as SVG writes it: `#rrggbb`, followed, for a colour that is
/// not opaque, by `" fill-opacity="` and the opacity with two decimals (the
/// colour is written inside a `fill="..."` attribute).
pub open spec fn svg_color(c: Seq<u8>) -> Seq<char> {
    let rgb = seq!['#'] + hex_byte(c[0]) + hex_byte(c[1]) + hex_byte(c[2]);
    if c[3] == 255 {
        rgb
    } else {
        rgb + fill_opacity_attr() + opacity_text(c[3])
    }
}

fn hex_char_exec(d: u8) -> (c: char)
    requires
        d < 16,
    ensures
        c == hex_char(d as nat),
{
    if d < 10 {
        (48 + d) as char
    } else {
        (87 + d) as char
    }
}

/// Appends the two lowercase hexadecimal digits of `b`.
pub fn push_hex_byte(s: &mut String, b: u8)
    ensures
        final(s)@ == old(s)@ + hex_byte(b),
{
    push_char(s, hex_char_exec(b / 16));
    push_char(s, hex_char_exec(b % 16));
    assert(final(s)@ =~= old(s)@ + hex_byte(b));
}

/// The bytes, each as two lowercase hexadecimal digits.
pub fn hex_encode(bytes: &[u8]) -> (s: String)
    ensures
        s@ == hex_string(bytes@),
{
    let mut s = String::new();
    let mut i: usize = 0;
    assert(bytes@.take(0) =~= Seq::<u8>::empty());
    while i < bytes.len()
        invariant
            i <= bytes@.len(),
            s@ == hex_string(bytes@.take(i as int)),
        decreases bytes@.len() - i,
    {
        push_hex_byte(&mut s, bytes[i]);
        assert(bytes@.take(i + 1).drop_last() =~= bytes@.take(i as int));
        i = i + 1;
    }
    assert(bytes@.take(bytes@.len() as int) =~= bytes@);
    s
}

/// `alpha / 255` with two decimals.
pub fn format_opacity(alpha: u8) -> (s: String)
    ensures
        s@ == opacity_text(alpha),
{
    let h: u32 = ((alpha as u32) * 200 + 255) / 510;
    assert(h <= 100);
    let mut s = String::new();
    push_char(&mut s, ((48 + h / 100) as u8) as char);
    push_char(&mut s, '.');
    push_char(&mut s, ((48 + (h / 10) % 10) as u8) as char);
    push_char(&mut s, ((48 + h % 10) as u8) as char);
    assert(s@ =~= opacity_text(alpha));
    s
}

/// An RGBA colour as SVG writes it: `#rrggbb`, and for a colour that is not
/// opaque, the `fill-opacity` that goes with it.
pub fn color_to_svg(rgba: [u8; 4]) -> (s: String)
    ensures
        s@ == svg_color(rgba@),
{
    let mut s = String::new();
    push_char(&mut s, '#');
    push_hex_byte(&mut s, rgba[0]);
    push_hex_byte(&mut s, rgba[1]);
    push_hex_byte(&mut s, rgba[2]);
    if rgba[3] != 255 {
        let attr: &[char] = &['"', ' ', 'f', 'i', 'l', 'l', '-', 'o', 'p', 'a', 'c', 'i', 't', 'y', '=', '"'];
        crate::text::push_chars(&mut s, attr);
        assert(attr@ =~= fill_opacity_attr());
        let o = format_opacity(rgba[3]);
        s.append(o.as_str());
    }
    assert(s@ =~= svg_color(rgba@));
    s
}

// ---------------------------------------------------------------------------
// Frame fills
// ---------------------------------------------------------------------------

/// The built-in fill of a frame at nesting depth `d` (0 to 4): transparent at
/// depth 0, then light blue of growing opacity.
pub open spec fn default_frame_fill(d: int) -> Seq<u8> {
    if d == 0 {
        seq![0xFFu8, 0xFF, 0xFF, 0x00]
    } else if d == 1 {
        seq![0xBBu8, 0xCC, 0xDD, 0x1A]
    } else if d == 2 {
        seq![0xBBu8, 0xCC, 0xDD, 0x26]
    } else if d == 3 {
        seq![0xBBu8, 0xCC, 0xDD, 0x33]
    } else {
        seq![0xBBu8, 0xCC, 0xDD, 0x40]
    }
}

/// The fill given for depth `d`, or else for the nearest shallower depth.
pub open spec fn given_fill(fills: Seq<Option<[u8; 4]>>, d: int) -> Option<[u8; 4]>
    decreases d + 1,
{
    if d < 0 {
        None
    } else {
        match fills[d] {
            Some(c) => Some(c),
            None => given_fill(fills, d - 1),
        }
    }
}

/// The fill of a frame at nesting depth `depth`: depths beyond 4 count as 4;
/// a fill given for the depth, or else for the nearest shallower depth, or
/// else the built-in fill.
pub open spec fn frame_fill(fills: Seq<Option<[u8; 4]>>, depth: int) -> Seq<u8> {
    let d = if depth > 4 {
        4
    } else {
        depth
    };
    match given_fill(fills, d) {
        Some(c) => c@,
        None => default_frame_fill(d),
    }
}

/// Resolves the fill colour of a frame at a given nesting depth: the fill
/// given for that depth (depths beyond 4 count as 4), falling back through
/// the shallower depths, then to the built-in fill of the depth.
pub fn frame_fill_for_depth(frame_fills: &[Option<[u8; 4]>; 5], depth: usize) -> (c: [u8; 4])
    ensures
        c@ == frame_fill(frame_fills@, depth as int),
{
    let clamped = if depth > 4 {
        4
    } else {
        depth
    };
    let mut d = clamped + 1;
    while d > 0
        invariant
            d <= clamped + 1,
            clamped <= 4,
            clamped == (if depth > 4 {
                4
            } else {
                depth
            }),
            frame_fills@.len() == 5,
            given_fill(frame_fills@, clamped as int) == given_fill(frame_fills@, d - 1),
        decreases d,
    {
        if let Some(color) = frame_fills[d - 1] {
            assert(frame_fills@[d - 1] == Some(color));
            assert(given_fill(frame_fills@, d - 1) == Some(color));
            return color;
        }
        d = d - 1;
    }
    let c: [u8; 4] = if clamped == 0 {
        [0xFF, 0xFF, 0xFF, 0x00]
    } else if clamped == 1 {
        [0xBB, 0xCC, 0xDD, 0x1A]
    } else if clamped == 2 {
        [0xBB, 0xCC, 0xDD, 0x26]
    } else if clamped == 3 {
        [0xBB, 0xCC, 0xDD, 0x33]
    } else {
        [0xBB, 0xCC, 0xDD, 0x40]
    };
    assert(c@ =~= default_frame_fill(clamped as int));
    c
}

// ---------------------------------------------------------------------------
// Laws
// ---------------------------------------------------------------------------

proof fn lemma_hex_char_digit(d: nat)
    requires
        d < 16,
    ensures
        hex_char(d) as u8 != 43,
        hex_char(d) as u8 != 35,
        (hex_char(d) as u8) < 0x80,
        '\0' <= hex_char(d) <= '\u{7f}',
        hex_digit_value(hex_char(d) as u8) == Some(d as u8),
{
    if d < 10 {
        assert(hex_char(d) as u32 == 48 + d);
    } else {
        assert(hex_char(d) as u32 == 87 + d);
    }
}

proof fn lemma_hex_byte_radix(x: u8)
    ensures
        radix16_u8(seq![hex_byte(x)[0] as u8, hex_byte(x)[1] as u8]) == Some(x),
{
    let hi = (x / 16) as nat;
    let lo = (x % 16) as nat;
    lemma_hex_char_digit(hi);
    lemma_hex_char_digit(lo);
    let d = seq![hex_char(hi) as u8, hex_char(lo) as u8];
    assert(d.drop_last() =~= seq![hex_char(hi) as u8]);
    assert(d.drop_last().drop_last() =~= Seq::<u8>::empty());
    assert(d.drop_last().last() == hex_char(hi) as u8);
    assert(hex_value(Seq::<u8>::empty()) == 0);
    assert(hex_value(d.drop_last()) == hi);
    assert(hex_value(d) == hi * 16 + lo);
    assert(all_hex(d));
}

/// Frames nested deeper than four levels share the fill of the fourth.
pub proof fn law_deep_frames_share_the_deepest_fill(fills: Seq<Option<[u8; 4]>>, depth: int)
    requires
        depth >= 4,
    ensures
        frame_fill(fills, depth) == frame_fill(fills, 4),
{
}

/// Reading back an opaque colour as SVG writes it (`#rrggbb`) gives the same
/// colour, and never slices off a character boundary.
pub proof fn law_opaque_color_roundtrip(c: Seq<u8>)
    requires
        c.len() == 4,
        c[3] == 255,
    ensures
        !hex_color_panics(svg_color(c)),
        hex_color_of(svg_color(c)) == Some(c),
{
    let t = svg_color(c);
    let digits = hex_byte(c[0]) + hex_byte(c[1]) + hex_byte(c[2]);
    assert(t =~= seq!['#'] + digits);
    assert(t.len() == 7);
    lemma_hex_char_digit((c[0] / 16) as nat);
    lemma_hex_char_digit((c[0] % 16) as nat);
    lemma_hex_char_digit((c[1] / 16) as nat);
    lemma_hex_char_digit((c[1] % 16) as nat);
    lemma_hex_char_digit((c[2] / 16) as nat);
    lemma_hex_char_digit((c[2] % 16) as nat);
    assert(t[1] == hex_char((c[0] / 16) as nat));
    assert(t[2] == hex_char((c[0] % 16) as nat));
    assert(t[3] == hex_char((c[1] / 16) as nat));
    assert(t[4] == hex_char((c[1] % 16) as nat));
    assert(t[5] == hex_char((c[2] / 16) as nat));
    assert(t[6] == hex_char((c[2] % 16) as nat));
    assert(vstd::utf8::is_ascii_chars(t));
    vstd::utf8::is_ascii_chars_encode_utf8(t);
    let b = encode_utf8(t);
    assert(b[0] == 35);
    assert(b[1] != 35);
    assert(hash_prefix_end(b, 1) == 1);
    assert(hash_prefix_end(b, 0) == 1);
    let h = strip_hashes(b);
    assert(h =~= b.subrange(1, 7));
    let cuts = color_cuts(6);
    lemma_hex_byte_radix(c[0]);
    lemma_hex_byte_radix(c[1]);
    lemma_hex_byte_radix(c[2]);
    assert(h.subrange(0, 2) =~= seq![hex_byte(c[0])[0] as u8, hex_byte(c[0])[1] as u8]);
    assert(h.subrange(2, 4) =~= seq![hex_byte(c[1])[0] as u8, hex_byte(c[1])[1] as u8]);
    assert(h.subrange(4, 6) =~= seq![hex_byte(c[2])[0] as u8, hex_byte(c[2])[1] as u8]);
    assert(is_boundary(h, 2) && is_boundary(h, 4) && is_boundary(h, 6) && is_boundary(h, 0));
    assert(cuts[0] == 0 && cuts[1] == 2 && cuts[2] == 4 && cuts[3] == 6 && cuts.len() == 4);
    assert(seq![c[0], c[1]].push(c[2]) =~= seq![c[0], c[1], c[2]]);
    assert(seq![c[0]].push(c[1]) =~= seq![c[0], c[1]]);
    assert(Seq::<u8>::empty().push(c[0]) =~= seq![c[0]]);
    assert(chunk_values(h, cuts, 3, seq![c[0], c[1], c[2]]) == HexOutcome::Parsed(
        seq![c[0], c[1], c[2]],
    ));
    assert(chunk_values(h, cuts, 2, seq![c[0], c[1]]) == HexOutcome::Parsed(
        seq![c[0], c[1], c[2]],
    ));
    assert(chunk_values(h, cuts, 1, seq![c[0]]) == HexOutcome::Parsed(seq![c[0], c[1], c[2]]));
    assert(chunk_values(h, cuts, 0, Seq::empty()) == HexOutcome::Parsed(seq![c[0], c[1], c[2]]));
    assert(hex_color_of(t) == Some(seq![c[0], c[1], c[2], 255u8]));
    assert(seq![c[0], c[1], c[2], 255u8] =~= c);
}

} // verus!
