//! Bytes read as text, whatever they hold: what is no UTF-8 becomes a replacement
//! character.
use vstd::prelude::*;
use vstd::utf8;

verus! {

/// `char::from_u32` gives the character of a Unicode scalar value, and of nothing else.
pub assume_specification[ char::from_u32 ](i: u32) -> (r: Option<char>)
    ensures
        r is Some <==> utf8::is_scalar(i),
        r is Some ==> r->0 == i as char,
;

/// What stands for bytes that are no UTF-8.
pub open spec fn replacement() -> char {
    '\u{fffd}'
}

/// Whether two bytes begin the encoding of a character that is three or four bytes long.
pub open spec fn begins_long(b0: u8, b1: u8) -> bool {
    ||| b0 == 0xe0 && 0xa0 <= b1 <= 0xbf
    ||| 0xe1 <= b0 <= 0xec && 0x80 <= b1 <= 0xbf
    ||| b0 == 0xed && 0x80 <= b1 <= 0x9f
    ||| 0xee <= b0 <= 0xef && 0x80 <= b1 <= 0xbf
    ||| b0 == 0xf0 && 0x90 <= b1 <= 0xbf
    ||| 0xf1 <= b0 <= 0xf3 && 0x80 <= b1 <= 0xbf
    ||| b0 == 0xf4 && 0x80 <= b1 <= 0x8f
}

/// How many bytes one replacement character stands for: as many as begin the encoding of
/// a character, and at least one.
pub open spec fn broken_len(s: Seq<u8>) -> int {
    if s.len() < 2 || !begins_long(s[0], s[1]) {
        1
    } else if s.len() < 3 || !utf8::is_continuation_byte(s[2]) {
        2
    } else {
        3
    }
}

/// How many bytes the first character takes.
pub open spec fn first_len(s: Seq<u8>) -> int {
    if utf8::valid_first_scalar(s) {
        utf8::length_of_first_scalar(s)
    } else {
        broken_len(s)
    }
}

/// The first character.
pub open spec fn first_char(s: Seq<u8>) -> char {
    if utf8::valid_first_scalar(s) {
        utf8::decode_first_scalar(s) as char
    } else {
        replacement()
    }
}

/// The text of bytes.
pub open spec fn lossy(s: Seq<u8>) -> Seq<char>
    decreases s.len(),
{
    if s.len() == 0 || first_len(s) <= 0 {
        Seq::empty()
    } else {
        seq![first_char(s)] + lossy(s.skip(first_len(s)))
    }
}

/// The first character takes at least one byte, and no more than there are.
proof fn first_len_fits(s: Seq<u8>)
    requires
        s.len() > 0,
    ensures
        1 <= first_len(s) <= s.len(),
{
}

fn is_continuation(b: u8) -> (r: bool)
    ensures
        r == utf8::is_continuation_byte(b),
{
    0x80 <= b && b <= 0xbf
}

/// The code point of the first bytes, and how many they are, where they have the pattern
/// of an encoding.
fn first_pattern(s: &[u8], i: usize) -> (r: Option<(u32, usize)>)
    requires
        i < s@.len(),
    ensures
        r is Some <==> utf8::valid_leading_and_continuation_bytes_first_codepoint(s@.skip(i as int)),
        r is Some ==> (r->0).0 == utf8::decode_first_codepoint(s@.skip(i as int)) && (r->0).1
            == utf8::length_of_first_codepoint(s@.skip(i as int)),
{
    let ghost t = s@.skip(i as int);
    let n: usize = s.len() - i;
    let b0: u8 = s[i];
    assert(t[0] == b0);
    if b0 <= 0x7f {
        return Some(((b0 & 0x7f) as u32, 1));
    }
    if n < 2 {
        return None;
    }
    let b1: u8 = s[i + 1];
    assert(t[1] == b1);
    if 0xc0 <= b0 && b0 <= 0xdf {
        if !is_continuation(b1) {
            return None;
        }
        return Some(((((b0 & 0x1f) as u32) << 6) | ((b1 & 0x3f) as u32), 2));
    }
    if n < 3 {
        return None;
    }
    let b2: u8 = s[i + 2];
    assert(t[2] == b2);
    if 0xe0 <= b0 && b0 <= 0xef {
        if !is_continuation(b1) || !is_continuation(b2) {
            return None;
        }
        return Some(
            ((((b0 & 0x0f) as u32) << 12) | (((b1 & 0x3f) as u32) << 6) | ((b2 & 0x3f) as u32), 3),
        );
    }
    if n < 4 {
        return None;
    }
    let b3: u8 = s[i + 3];
    assert(t[3] == b3);
    if 0xf0 <= b0 && b0 <= 0xf7 {
        if !is_continuation(b1) || !is_continuation(b2) || !is_continuation(b3) {
            return None;
        }
        return Some(
            (
                (((b0 & 0x07) as u32) << 18) | (((b1 & 0x3f) as u32) << 12) | (((b2 & 0x3f) as u32)
                    << 6) | ((b3 & 0x3f) as u32),
                4,
            ),
        );
    }
    None
}

fn begins_long_bytes(b0: u8, b1: u8) -> (r: bool)
    ensures
        r == begins_long(b0, b1),
{
    (b0 == 0xe0 && 0xa0 <= b1 && b1 <= 0xbf) || (0xe1 <= b0 && b0 <= 0xec && 0x80 <= b1 && b1
        <= 0xbf) || (b0 == 0xed && 0x80 <= b1 && b1 <= 0x9f) || (0xee <= b0 && b0 <= 0xef && 0x80
        <= b1 && b1 <= 0xbf) || (b0 == 0xf0 && 0x90 <= b1 && b1 <= 0xbf) || (0xf1 <= b0 && b0
        <= 0xf3 && 0x80 <= b1 && b1 <= 0xbf) || (b0 == 0xf4 && 0x80 <= b1 && b1 <= 0x8f)
}

/// The first character from a place on, and how many bytes it takes.
fn decode_at(s: &[u8], i: usize) -> (r: (char, usize))
    requires
        i < s@.len(),
    ensures
        r.0 == first_char(s@.skip(i as int)),
        r.1 == first_len(s@.skip(i as int)),
        1 <= r.1 <= s@.len() - i,
{
    let ghost t = s@.skip(i as int);
    if let Some((code, len)) = first_pattern(s, i) {
        let long_enough = (len != 2 || code >= 0x80) && (len != 3 || code >= 0x800) && (len != 4
            || (code >= 0x10000 && code <= 0x10ffff));
        if long_enough && !(0xd800 <= code && code <= 0xdfff) {
            assert(utf8::valid_first_scalar(t));
            proof {
                let b0: u8 = t[0];
                let b1: u8 = t[1];
                let b2: u8 = t[2];
                assert(b0 & 0x7f <= 0x7f) by (bit_vector);
                assert((((b0 & 0x1f) as u32) << 6) | ((b1 & 0x3f) as u32) <= 0x7ff) by (bit_vector);
                assert((((b0 & 0x0f) as u32) << 12) | (((b1 & 0x3f) as u32) << 6) | ((b2 & 0x3f) as u32)
                    <= 0xffff) by (bit_vector);
            }
            if let Some(c) = char::from_u32(code) {
                return (c, len);
            }
            assert(false);
        }
    }
    assert(!utf8::valid_first_scalar(t));
    let n: usize = s.len() - i;
    let len: usize = if n < 2 || !begins_long_bytes(s[i], s[i + 1]) {
        1
    } else if n < 3 || !is_continuation(s[i + 2]) {
        2
    } else {
        3
    };
    ('\u{fffd}', len)
}

/// Reads bytes as text.
pub fn from_utf8_lossy(s: &[u8]) -> (r: String)
    ensures
        r@ == lossy(s@),
{
    let mut r = String::new();
    let mut i: usize = 0;
    assert(s@.skip(0) == s@);
    while i < s.len()
        invariant
            i <= s@.len(),
            r@ + lossy(s@.skip(i as int)) == lossy(s@),
        decreases s@.len() - i,
    {
        let ghost t = s@.skip(i as int);
        let ghost before = r@;
        let (c, len) = decode_at(s, i);
        r.push(c);
        assert(t.skip(len as int) == s@.skip(i + len));
        assert(before.push(c) + lossy(s@.skip(i + len)) =~= before + lossy(t));
        i += len;
    }
    assert(lossy(s@.skip(i as int)) =~= Seq::<char>::empty());
    assert(r@ =~= lossy(s@));
    r
}

/// Bytes that are UTF-8 come out as the text that they encode.
pub proof fn lossy_of_valid(s: Seq<u8>)
    requires
        utf8::valid_utf8(s),
    ensures
        lossy(s) == utf8::decode_utf8(s),
    decreases s.len(),
{
    if s.len() > 0 {
        let n = utf8::length_of_first_scalar(s);
        assert(utf8::pop_first_scalar(s) =~= s.skip(n));
        lossy_of_valid(utf8::pop_first_scalar(s));
    }
}

/// The text of a string's bytes is the string.
pub proof fn lossy_of_encoded(chars: Seq<char>)
    ensures
        lossy(utf8::encode_utf8(chars)) == chars,
{
    utf8::encode_utf8_valid_utf8(chars);
    utf8::encode_utf8_decode_utf8(chars);
    lossy_of_valid(utf8::encode_utf8(chars));
}

/// Before a line feed the first character is the same, whatever follows the line feed.
proof fn first_before_feed(a: Seq<u8>, b: Seq<u8>)
    requires
        a.len() > 0,
    ensures
        first_len(a + seq![10u8] + b) == first_len(a),
        first_char(a + seq![10u8] + b) == first_char(a),
{
    let s = a + seq![10u8] + b;
    assert(s[a.len() as int] == 10);
    assert(s[0] == a[0]);
    if a.len() > 1 {
        assert(s[1] == a[1]);
    }
    if a.len() > 2 {
        assert(s[2] == a[2]);
    }
    if a.len() > 3 {
        assert(s[3] == a[3]);
    }
}

/// A line feed parts the text as it parts the bytes.
pub proof fn lossy_splits_at_feed(a: Seq<u8>, b: Seq<u8>)
    ensures
        lossy(a + seq![10u8] + b) == lossy(a) + seq!['\n'] + lossy(b),
    decreases a.len(),
{
    let s = a + seq![10u8] + b;
    if a.len() == 0 {
        assert(s[0] == 10);
        assert(10u8 & 0x7f == 10u8) by (bit_vector);
        assert(first_len(s) == 1);
        assert(first_char(s) == '\n');
        assert(s.skip(1) =~= b);
        assert(lossy(a) =~= Seq::<char>::empty());
        assert(lossy(s) =~= lossy(a) + seq!['\n'] + lossy(b));
    } else {
        first_before_feed(a, b);
        first_len_fits(a);
        let n = first_len(a);
        lossy_splits_at_feed(a.skip(n), b);
        assert(s.skip(n) =~= a.skip(n) + seq![10u8] + b);
        assert(lossy(s) =~= lossy(a) + seq!['\n'] + lossy(b));
    }
}

/// A byte that can begin no character is one replacement character, and the bytes behind it
/// are read by themselves.
pub proof fn stray_byte_is_replaced(b: u8, rest: Seq<u8>)
    requires
        0x80 <= b <= 0xc1 || 0xf5 <= b,
    ensures
        lossy(seq![b] + rest) == seq!['\u{fffd}'] + lossy(rest),
{
    let s = seq![b] + rest;
    assert(s[0] == b);
    assert(s.skip(1) =~= rest);
    if rest.len() > 0 {
        let c: u8 = s[1];
        assert((b == 0xc0 || b == 0xc1) ==> (((b & 0x1f) as u32) << 6) | ((c & 0x3f) as u32) < 0x80)
            by (bit_vector);
        if rest.len() > 2 {
            let d: u8 = s[2];
            let e: u8 = s[3];
            assert(0xf5 <= b <= 0xf7 ==> (((b & 0x07) as u32) << 18) | (((c & 0x3f) as u32) << 12) | (((d
                & 0x3f) as u32) << 6) | ((e & 0x3f) as u32) > 0x10ffff) by (bit_vector);
        }
    }
    assert(!utf8::valid_first_scalar(s));
    assert(first_len(s) == 1);
}

/// A byte that begins a character of two bytes, without its second byte, is one replacement
/// character, and the bytes behind it are read by themselves.
pub proof fn cut_character_is_replaced(b: u8, rest: Seq<u8>)
    requires
        0xc2 <= b <= 0xdf,
        rest.len() > 0 ==> !(0x80 <= rest[0] <= 0xbf),
    ensures
        lossy(seq![b] + rest) == seq!['\u{fffd}'] + lossy(rest),
{
    let s = seq![b] + rest;
    assert(s[0] == b);
    assert(s.skip(1) =~= rest);
    if rest.len() > 0 {
        assert(s[1] == rest[0]);
    }
    assert(!utf8::valid_first_scalar(s));
    assert(first_len(s) == 1);
}

/// A byte below 0x80 is the character of that number, and the bytes behind it are read by
/// themselves.
pub proof fn plain_byte_is_its_character(b: u8, rest: Seq<u8>)
    requires
        b < 0x80,
    ensures
        lossy(seq![b] + rest) == seq![b as char] + lossy(rest),
        lossy(Seq::empty()) == Seq::<char>::empty(),
{
    let s = seq![b] + rest;
    assert(s[0] == b);
    assert(s.skip(1) =~= rest);
    assert(b < 0x80 ==> b & 0x7f == b) by (bit_vector);
    assert(first_len(s) == 1);
    assert(first_char(s) == b as char);
}

/// A character that is encoded as it should be is that character, and the bytes behind it are
/// read by themselves.
pub proof fn encoded_character_is_kept(s: Seq<u8>)
    requires
        utf8::valid_first_scalar(s),
    ensures
        lossy(s) == seq![utf8::decode_first_scalar(s) as char] + lossy(
            s.skip(utf8::length_of_first_scalar(s)),
        ),
{
}

/// The first two or three bytes of a longer character, without the byte that should come next,
/// are one replacement character together, and the bytes behind them are read by themselves.
pub proof fn longer_cut_character_is_replaced(b0: u8, b1: u8, b2: u8, rest: Seq<u8>)
    requires
        (b0 == 0xe0 && 0xa0 <= b1 <= 0xbf) || (0xe1 <= b0 <= 0xef && b0 != 0xed && 0x80 <= b1 <= 0xbf) || (b0
            == 0xed && 0x80 <= b1 <= 0x9f) || (b0 == 0xf0 && 0x90 <= b1 <= 0xbf) || (0xf1 <= b0 <= 0xf3
            && 0x80 <= b1 <= 0xbf) || (b0 == 0xf4 && 0x80 <= b1 <= 0x8f),
        0x80 <= b2 <= 0xbf,
        rest.len() > 0 ==> !(0x80 <= rest[0] <= 0xbf),
    ensures
        lossy(seq![b0, b1] + rest) == seq!['\u{fffd}'] + lossy(rest),
        b0 >= 0xf0 ==> lossy(seq![b0, b1, b2] + rest) == seq!['\u{fffd}'] + lossy(rest),
{
    let s = seq![b0, b1] + rest;
    assert(s[0] == b0 && s[1] == b1);
    if rest.len() > 0 {
        assert(s[2] == rest[0]);
    }
    assert(!utf8::valid_first_scalar(s));
    assert(first_len(s) == 2);
    assert(s.skip(2) =~= rest);
    let t = seq![b0, b1, b2] + rest;
    assert(t[0] == b0 && t[1] == b1 && t[2] == b2);
    if rest.len() > 0 {
        assert(t[3] == rest[0]);
    }
    if b0 >= 0xf0 {
        assert(!utf8::valid_first_scalar(t));
        assert(first_len(t) == 3);
        assert(t.skip(3) =~= rest);
    }
}

/// The first byte of a longer character, without a second byte that can follow it, is one
/// replacement character, and the bytes behind it are read by themselves.
pub proof fn lone_first_byte_is_replaced(b: u8, rest: Seq<u8>)
    requires
        0xe0 <= b <= 0xf4,
        rest.len() > 0 ==> !(0x80 <= rest[0] <= 0xbf) || (b == 0xe0 && rest[0] < 0xa0) || (b == 0xed && rest[0]
            > 0x9f) || (b == 0xf0 && rest[0] < 0x90) || (b == 0xf4 && rest[0] > 0x8f),
    ensures
        lossy(seq![b] + rest) == seq!['\u{fffd}'] + lossy(rest),
{
    let s = seq![b] + rest;
    assert(s[0] == b);
    assert(s.skip(1) =~= rest);
    if rest.len() > 0 {
        let c: u8 = s[1];
        assert(c == rest[0]);
        if rest.len() > 1 {
            let d: u8 = s[2];
            assert(b == 0xe0 && c < 0xa0 && 0x80 <= c ==> (((b & 0x0f) as u32) << 12) | (((c & 0x3f) as u32)
                << 6) | ((d & 0x3f) as u32) < 0x800) by (bit_vector);
            assert(b == 0xed && 0xa0 <= c <= 0xbf ==> 0xd800 <= (((b & 0x0f) as u32) << 12) | (((c & 0x3f) as u32)
                << 6) | ((d & 0x3f) as u32) <= 0xdfff) by (bit_vector);
            if rest.len() > 2 {
                let e: u8 = s[3];
                assert(b == 0xf0 && 0x80 <= c < 0x90 ==> (((b & 0x07) as u32) << 18) | (((c & 0x3f) as u32)
                    << 12) | (((d & 0x3f) as u32) << 6) | ((e & 0x3f) as u32) < 0x10000) by (bit_vector);
                assert(b == 0xf4 && 0x90 <= c <= 0xbf ==> (((b & 0x07) as u32) << 18) | (((c & 0x3f) as u32)
                    << 12) | (((d & 0x3f) as u32) << 6) | ((e & 0x3f) as u32) > 0x10ffff) by (bit_vector);
            }
        }
    }
    assert(!utf8::valid_first_scalar(s));
    assert(first_len(s) == 1);
}

} // verus!
