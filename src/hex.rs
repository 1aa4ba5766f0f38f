//! The `#rrggbb` text form of an sRGB colour, as three bytes.
use vstd::prelude::*;
use vstd::utf8::{encode_utf8, is_ascii_chars, is_ascii_chars_encode_utf8};
use vstd::string::{StrSliceExecFns, StringExecFns, StringSliceAdditionalSpecFns};

verus! {

/// An sRGB colour quantised to one byte per channel.
#[derive(Clone, Copy, Debug, PartialEq, Eq, Structural)]
pub struct Rgb8 {
    pub r: u8,
    pub g: u8,
    pub b: u8,
}

/// The value of an ASCII hexadecimal digit (either case), if `c` is one.
pub open spec fn digit_value(c: u8) -> Option<nat> {
    if 48 <= c <= 57 {
        Some((c - 48) as nat)
    } else if 97 <= c <= 102 {
        Some((c - 87) as nat)
    } else if 65 <= c <= 70 {
        Some((c - 55) as nat)
    } else {
        None
    }
}

/// Reads one hexadecimal digit.
pub fn hex_digit(c: u8) -> (r: Option<u8>)
    ensures
        r matches Some(v) ==> digit_value(c) == Some(v as nat),
        r is None <==> digit_value(c) is None,
{
    // '0'..='9', 'a'..='f', 'A'..='F'
    if 48 <= c && c <= 57 {
        Some(c - 48)
    } else if 97 <= c && c <= 102 {
        Some(c - 87)
    } else if 65 <= c && c <= 70 {
        Some(c - 55)
    } else {
        None
    }
}

/// The byte written by the two digits `hi`, `lo`; a pair that is not two
/// hexadecimal digits reads as zero.
pub open spec fn pair_value(hi: u8, lo: u8) -> u8 {
    match (digit_value(hi), digit_value(lo)) {
        (Some(h), Some(l)) => (16 * h + l) as u8,
        _ => 0,
    }
}

/// The text with one leading `#` taken off, if it has one.
pub open spec fn without_hash(b: Seq<u8>) -> Seq<u8> {
    if b.len() > 0 && b[0] == 35 {
        b.drop_first()
    } else {
        b
    }
}

/// What the bytes of a hex colour decode to: nothing unless exactly six bytes
/// follow the optional `#`, else one channel for each pair of them.
pub open spec fn decoded(b: Seq<u8>) -> Option<Rgb8> {
    let d = without_hash(b);
    if d.len() == 6 {
        Some(Rgb8 { r: pair_value(d[0], d[1]), g: pair_value(d[2], d[3]), b: pair_value(d[4], d[5]) })
    } else {
        None
    }
}

/// Reads the byte written by two hexadecimal digits, or zero where either
/// is not a digit.
fn hex_pair(hi: u8, lo: u8) -> (r: u8)
    ensures
        r == pair_value(hi, lo),
{
    match (hex_digit(hi), hex_digit(lo)) {
        (Some(h), Some(l)) => 16 * h + l,
        _ => 0,
    }
}

/// Reads `#rrggbb` (the `#` is optional, digits in either case).
///
/// Returns `None` when the text after the optional `#` is not six bytes
/// long. A pair of bytes that is not two hexadecimal digits gives a zero
/// channel.
pub fn decode_hex(raw: &str) -> (r: Option<Rgb8>)
    ensures
        r == decoded(raw.spec_bytes()),
{
    let bytes = raw.as_bytes();
    let start: usize = if bytes.len() > 0 && bytes[0] == 35 {
        1
    } else {
        0
    };
    if bytes.len() - start != 6 {
        return None;
    }
    proof {
        assert(without_hash(bytes@) =~= bytes@.subrange(start as int, bytes@.len() as int));
    }
    Some(
        Rgb8 {
            r: hex_pair(bytes[start], bytes[start + 1]),
            g: hex_pair(bytes[start + 2], bytes[start + 3]),
            b: hex_pair(bytes[start + 4], bytes[start + 5]),
        },
    )
}

/// The lowercase hexadecimal digit for `n` (below sixteen).
pub open spec fn digit_char(n: nat) -> char {
    seq!['0', '1', '2', '3', '4', '5', '6', '7', '8', '9', 'a', 'b', 'c', 'd', 'e', 'f'][n as int]
}

/// The two lowercase digits that write the byte `v`.
pub open spec fn pair_text(v: u8) -> Seq<char> {
    seq![digit_char((v / 16) as nat), digit_char((v % 16) as nat)]
}

/// The text `#rrggbb` of a colour, in lowercase digits.
pub open spec fn hex_text(c: Rgb8) -> Seq<char> {
    seq!['#'] + pair_text(c.r) + pair_text(c.g) + pair_text(c.b)
}

/// Appends the two lowercase digits of `v`.
fn push_pair(s: &mut String, v: u8)
    ensures
        final(s)@ == old(s)@ + pair_text(v),
{
    let digits = "0123456789abcdef";
    proof {
        reveal_strlit("0123456789abcdef");
    }
    assert(digits.is_ascii());
    let hi = (v / 16) as usize;
    let lo = (v % 16) as usize;
    s.append(digits.substring_ascii(hi, hi + 1));
    s.append(digits.substring_ascii(lo, lo + 1));
    assert(s@ =~= old(s)@ + pair_text(v));
}

/// Writes a colour as `#rrggbb` in lowercase digits.
pub fn encode_hex(c: Rgb8) -> (r: String)
    ensures
        r@ == hex_text(c),
{
    let mut s = String::from_str("#");
    proof {
        reveal_strlit("#");
    }
    push_pair(&mut s, c.r);
    push_pair(&mut s, c.g);
    push_pair(&mut s, c.b);
    assert(s@ =~= hex_text(c));
    s
}

/// A channel in thousandths of full scale, limited to `0..=1000`.
pub open spec fn clamped_thousandths(k: int) -> int {
    if k < 0 {
        0
    } else if k > 1000 {
        1000
    } else {
        k
    }
}

/// The byte for a channel of `k` thousandths: the channel is limited to
/// `[0, 1]`, scaled by 255 and rounded to the nearest integer, halves up.
pub open spec fn byte_of_thousandths(k: int) -> int {
    (clamped_thousandths(k) * 255 + 500) / 1000
}

/// Turns a channel, already rounded to thousandths of full scale, into the
/// byte that its hex form carries. Values outside `0..=1000` are clamped.
pub fn channel_to_byte(thousandths: i64) -> (r: u8)
    ensures
        r as int == byte_of_thousandths(thousandths as int),
{
    let k: u32 = if thousandths < 0 {
        0
    } else if thousandths > 1000 {
        1000
    } else {
        thousandths as u32
    };
    let r: u32 = (k * 255 + 500) / 1000;
    assert(r <= 255) by {
        assert(k * 255 + 500 <= 255500);
    }
    r as u8
}

/// Each lowercase digit reads back as the value it was written for.
proof fn lemma_digit_char_value(n: nat)
    requires
        n < 16,
    ensures
        ('\0' <= digit_char(n) <= '\u{7f}'),
        digit_value(digit_char(n) as u8) == Some(n),
{
    assert(n == 0 || n == 1 || n == 2 || n == 3 || n == 4 || n == 5 || n == 6 || n == 7 || n == 8
        || n == 9 || n == 10 || n == 11 || n == 12 || n == 13 || n == 14 || n == 15);
}

/// The two digits written for a byte read back as that byte.
proof fn lemma_pair_text_value(v: u8)
    ensures
        is_ascii_chars(pair_text(v)),
        pair_value(pair_text(v)[0] as u8, pair_text(v)[1] as u8) == v,
{
    lemma_digit_char_value((v / 16) as nat);
    lemma_digit_char_value((v % 16) as nat);
}

/// Writing a colour as hex and reading the text back gives the same colour.
pub proof fn hex_round_trip(c: Rgb8)
    ensures
        decoded(encode_utf8(hex_text(c))) == Some(c),
{
    let t = hex_text(c);
    lemma_pair_text_value(c.r);
    lemma_pair_text_value(c.g);
    lemma_pair_text_value(c.b);
    assert(is_ascii_chars(t));
    is_ascii_chars_encode_utf8(t);
    let b = encode_utf8(t);
    assert(without_hash(b) =~= b.drop_first());
}

/// A colour whose channels are given in thousandths of full scale (each in
/// `0..=1000`), turned into bytes and written as hex, reads back as those
/// bytes, and each byte over 255 lies within half a byte step (1/510) of
/// its channel.
pub proof fn hex_round_trip_within_half_step(kr: int, kg: int, kb: int)
    requires
        0 <= kr <= 1000,
        0 <= kg <= 1000,
        0 <= kb <= 1000,
    ensures
        ({
            let c = Rgb8 {
                r: byte_of_thousandths(kr) as u8,
                g: byte_of_thousandths(kg) as u8,
                b: byte_of_thousandths(kb) as u8,
            };
            &&& decoded(encode_utf8(hex_text(c))) == Some(c)
            &&& within_half_step(c.r, kr)
            &&& within_half_step(c.g, kg)
            &&& within_half_step(c.b, kb)
        }),
{
    lemma_byte_within_half_step(kr);
    lemma_byte_within_half_step(kg);
    lemma_byte_within_half_step(kb);
    hex_round_trip(
        Rgb8 {
            r: byte_of_thousandths(kr) as u8,
            g: byte_of_thousandths(kg) as u8,
            b: byte_of_thousandths(kb) as u8,
        },
    );
}

/// `|b / 255 - k / 1000| <= 1 / 510`, cleared of denominators.
pub open spec fn within_half_step(b: u8, k: int) -> bool {
    -500 <= 1000 * b - 255 * k <= 500
}

/// The byte for a channel in `0..=1000` thousandths is within half a step
/// of it.
proof fn lemma_byte_within_half_step(k: int)
    requires
        0 <= k <= 1000,
    ensures
        0 <= byte_of_thousandths(k) <= 255,
        within_half_step(byte_of_thousandths(k) as u8, k),
{
    let n = k * 255 + 500;
    let q = n / 1000;
    assert(q * 1000 <= n < q * 1000 + 1000) by (nonlinear_arith)
        requires
            q == n / 1000,
            n >= 0,
    ;
}

} // verus!
