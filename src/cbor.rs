//! The CBOR building blocks that the message encoding uses: data-item heads
//! in their shortest form, text strings, and arrays of small unsigned integers.

use vstd::prelude::*;
use vstd::slice::slice_subrange;
use vstd::string::StringSliceAdditionalSpecFns;
use vstd::utf8::{decode_utf8, encode_utf8, valid_utf8};

verus! {

/// Byte `shift / 8` (counted from the least significant end) of `n`.
pub open spec fn byte_of(n: u64, shift: u64) -> u8 {
    ((n >> shift) & 0xff) as u8
}

/// Two bytes read as a big-endian number.
pub open spec fn be16(a: u8, b: u8) -> u64 {
    ((a as u64) << 8u64) | (b as u64)
}

/// Four bytes read as a big-endian number.
pub open spec fn be32(a: u8, b: u8, c: u8, d: u8) -> u64 {
    ((a as u64) << 24u64) | ((b as u64) << 16u64) | ((c as u64) << 8u64) | (d as u64)
}

/// Eight bytes read as a big-endian number.
pub open spec fn be64(a: u8, b: u8, c: u8, d: u8, e: u8, f: u8, g: u8, h: u8) -> u64 {
    ((a as u64) << 56u64) | ((b as u64) << 48u64) | ((c as u64) << 40u64) | ((d as u64) << 32u64)
        | ((e as u64) << 24u64) | ((f as u64) << 16u64) | ((g as u64) << 8u64) | (h as u64)
}

/// The shortest head of a data item of major type `major` with argument `n`.
pub open spec fn head(major: u8, n: u64) -> Seq<u8> {
    let m = major as int * 32;
    if n < 24 {
        seq![(m + n) as u8]
    } else if n < 0x100 {
        seq![(m + 24) as u8, n as u8]
    } else if n < 0x10000 {
        seq![(m + 25) as u8, byte_of(n, 8), byte_of(n, 0)]
    } else if n < 0x1_0000_0000 {
        seq![(m + 26) as u8, byte_of(n, 24), byte_of(n, 16), byte_of(n, 8), byte_of(n, 0)]
    } else {
        seq![
            (m + 27) as u8,
            byte_of(n, 56),
            byte_of(n, 48),
            byte_of(n, 40),
            byte_of(n, 32),
            byte_of(n, 24),
            byte_of(n, 16),
            byte_of(n, 8),
            byte_of(n, 0),
        ]
    }
}

/// Reads the head at position `i` of `s`: its major type, its argument and the
/// position after it. Only the shortest form of each argument is accepted.
#[verifier::opaque]
pub open spec fn parse_head(s: Seq<u8>, i: int) -> Option<(u8, u64, int)> {
    if !(0 <= i < s.len()) {
        None
    } else {
        let major = (s[i] / 32) as u8;
        let info = s[i] % 32;
        if info < 24 {
            Some((major, info as u64, i + 1))
        } else if info == 24 {
            if i + 2 <= s.len() && s[i + 1] >= 24 {
                Some((major, s[i + 1] as u64, i + 2))
            } else {
                None
            }
        } else if info == 25 {
            if i + 3 <= s.len() && be16(s[i + 1], s[i + 2]) >= 0x100 {
                Some((major, be16(s[i + 1], s[i + 2]), i + 3))
            } else {
                None
            }
        } else if info == 26 {
            if i + 5 <= s.len() && be32(s[i + 1], s[i + 2], s[i + 3], s[i + 4]) >= 0x10000 {
                Some((major, be32(s[i + 1], s[i + 2], s[i + 3], s[i + 4]), i + 5))
            } else {
                None
            }
        } else if info == 27 {
            if i + 9 <= s.len() && be64(
                s[i + 1],
                s[i + 2],
                s[i + 3],
                s[i + 4],
                s[i + 5],
                s[i + 6],
                s[i + 7],
                s[i + 8],
            ) >= 0x1_0000_0000 {
                Some(
                    (
                        major,
                        be64(s[i + 1], s[i + 2], s[i + 3], s[i + 4], s[i + 5], s[i + 6], s[i + 7], s[i + 8]),
                        i + 9,
                    ),
                )
            } else {
                None
            }
        } else {
            None
        }
    }
}

proof fn lemma_bytes16(n: u64)
    requires
        n < 0x10000,
    ensures
        be16(byte_of(n, 8), byte_of(n, 0)) == n,
{
    assert((((((n >> 8u64) & 0xff) as u8) as u64) << 8u64) | ((((n >> 0u64) & 0xff) as u8) as u64)
        == n) by (bit_vector)
        requires
            n < 0x10000,
    ;
}

proof fn lemma_unbytes16(a: u8, b: u8)
    ensures
        byte_of(be16(a, b), 8) == a,
        byte_of(be16(a, b), 0) == b,
        be16(a, b) < 0x10000,
{
    let v = be16(a, b);
    assert(((((((a as u64) << 8u64) | (b as u64)) >> 8u64) & 0xff) as u8) == a) by (bit_vector);
    assert(((((((a as u64) << 8u64) | (b as u64)) >> 0u64) & 0xff) as u8) == b) by (bit_vector);
    assert((((a as u64) << 8u64) | (b as u64)) < 0x10000) by (bit_vector);
}

proof fn lemma_bytes32(n: u64)
    requires
        n < 0x1_0000_0000,
    ensures
        be32(byte_of(n, 24), byte_of(n, 16), byte_of(n, 8), byte_of(n, 0)) == n,
{
    assert((((((n >> 24u64) & 0xff) as u8) as u64) << 24u64) | (((((n >> 16u64) & 0xff) as u8) as u64)
        << 16u64) | (((((n >> 8u64) & 0xff) as u8) as u64) << 8u64) | ((((n >> 0u64) & 0xff) as u8)
        as u64) == n) by (bit_vector)
        requires
            n < 0x1_0000_0000,
    ;
}

proof fn lemma_unbytes32(a: u8, b: u8, c: u8, d: u8)
    ensures
        byte_of(be32(a, b, c, d), 24) == a,
        byte_of(be32(a, b, c, d), 16) == b,
        byte_of(be32(a, b, c, d), 8) == c,
        byte_of(be32(a, b, c, d), 0) == d,
        be32(a, b, c, d) < 0x1_0000_0000,
{
    let v = be32(a, b, c, d);
    assert(((((((a as u64) << 24u64) | ((b as u64) << 16u64) | ((c as u64) << 8u64) | (d as u64))
        >> 24u64) & 0xff) as u8) == a) by (bit_vector);
    assert(((((((a as u64) << 24u64) | ((b as u64) << 16u64) | ((c as u64) << 8u64) | (d as u64))
        >> 16u64) & 0xff) as u8) == b) by (bit_vector);
    assert(((((((a as u64) << 24u64) | ((b as u64) << 16u64) | ((c as u64) << 8u64) | (d as u64))
        >> 8u64) & 0xff) as u8) == c) by (bit_vector);
    assert(((((((a as u64) << 24u64) | ((b as u64) << 16u64) | ((c as u64) << 8u64) | (d as u64))
        >> 0u64) & 0xff) as u8) == d) by (bit_vector);
    assert((((a as u64) << 24u64) | ((b as u64) << 16u64) | ((c as u64) << 8u64) | (d as u64))
        < 0x1_0000_0000) by (bit_vector);
}

proof fn lemma_bytes64(n: u64)
    ensures
        be64(
            byte_of(n, 56),
            byte_of(n, 48),
            byte_of(n, 40),
            byte_of(n, 32),
            byte_of(n, 24),
            byte_of(n, 16),
            byte_of(n, 8),
            byte_of(n, 0),
        ) == n,
{
    assert((((((n >> 56u64) & 0xff) as u8) as u64) << 56u64) | (((((n >> 48u64) & 0xff) as u8) as u64)
        << 48u64) | (((((n >> 40u64) & 0xff) as u8) as u64) << 40u64) | (((((n >> 32u64) & 0xff)
        as u8) as u64) << 32u64) | (((((n >> 24u64) & 0xff) as u8) as u64) << 24u64) | (((((n
        >> 16u64) & 0xff) as u8) as u64) << 16u64) | (((((n >> 8u64) & 0xff) as u8) as u64)
        << 8u64) | ((((n >> 0u64) & 0xff) as u8) as u64) == n) by (bit_vector);
}

proof fn lemma_unbytes64(a: u8, b: u8, c: u8, d: u8, e: u8, f: u8, g: u8, h: u8)
    ensures
        byte_of(be64(a, b, c, d, e, f, g, h), 56) == a,
        byte_of(be64(a, b, c, d, e, f, g, h), 48) == b,
        byte_of(be64(a, b, c, d, e, f, g, h), 40) == c,
        byte_of(be64(a, b, c, d, e, f, g, h), 32) == d,
        byte_of(be64(a, b, c, d, e, f, g, h), 24) == e,
        byte_of(be64(a, b, c, d, e, f, g, h), 16) == f,
        byte_of(be64(a, b, c, d, e, f, g, h), 8) == g,
        byte_of(be64(a, b, c, d, e, f, g, h), 0) == h,
{
    let v = be64(a, b, c, d, e, f, g, h);
    assert(v == ((a as u64) << 56u64) | ((b as u64) << 48u64) | ((c as u64) << 40u64) | ((d as u64)
        << 32u64) | ((e as u64) << 24u64) | ((f as u64) << 16u64) | ((g as u64) << 8u64) | (h as u64));
    assert(((((v >> 56u64) & 0xff) as u8) == a) && ((((v >> 48u64) & 0xff) as u8) == b) && ((((v
        >> 40u64) & 0xff) as u8) == c) && ((((v >> 32u64) & 0xff) as u8) == d) && ((((v >> 24u64)
        & 0xff) as u8) == e) && ((((v >> 16u64) & 0xff) as u8) == f) && ((((v >> 8u64) & 0xff)
        as u8) == g) && ((((v >> 0u64) & 0xff) as u8) == h)) by (bit_vector)
        requires
            v == ((a as u64) << 56u64) | ((b as u64) << 48u64) | ((c as u64) << 40u64) | ((d as u64)
                << 32u64) | ((e as u64) << 24u64) | ((f as u64) << 16u64) | ((g as u64) << 8u64)
                | (h as u64),
    ;
}

/// A head written in shortest form reads back as the same major type and argument.
pub proof fn lemma_head_parses(s: Seq<u8>, i: int, major: u8, n: u64)
    requires
        major < 8,
        0 <= i,
        i + head(major, n).len() <= s.len(),
        s.subrange(i, i + head(major, n).len()) == head(major, n),
    ensures
        parse_head(s, i) == Some((major, n, i + head(major, n).len())),
{
    reveal(parse_head);
    let h = head(major, n);
    assert forall|k: int| 0 <= k < h.len() implies s[i + k] == h[k] by {
        assert(s.subrange(i, i + h.len())[k] == s[i + k]);
    }
    if n < 24 {
        assert(s[i] == h[0]);
    } else if n < 0x100 {
        assert(s[i] == h[0] && s[i + 1] == h[1]);
    } else if n < 0x10000 {
        assert(s[i] == h[0] && s[i + 1] == h[1] && s[i + 2] == h[2]);
        lemma_bytes16(n);
    } else if n < 0x1_0000_0000 {
        assert(s[i] == h[0] && s[i + 1] == h[1] && s[i + 2] == h[2] && s[i + 3] == h[3] && s[i + 4]
            == h[4]);
        lemma_bytes32(n);
    } else {
        assert(s[i] == h[0] && s[i + 1] == h[1] && s[i + 2] == h[2] && s[i + 3] == h[3] && s[i + 4]
            == h[4]);
        assert(s[i + 5] == h[5] && s[i + 6] == h[6] && s[i + 7] == h[7] && s[i + 8] == h[8]);
        lemma_bytes64(n);
    }
}

/// Whatever `parse_head` accepts is a head in shortest form.
pub proof fn lemma_head_sound(s: Seq<u8>, i: int)
    requires
        parse_head(s, i) is Some,
    ensures
        ({
            let (major, n, j) = parse_head(s, i)->0;
            &&& major < 8
            &&& 0 <= i
            &&& j == i + head(major, n).len()
            &&& j <= s.len()
            &&& s.subrange(i, j) == head(major, n)
        }),
{
    reveal(parse_head);
    let (major, n, j) = parse_head(s, i)->0;
    let h = head(major, n);
    let info = s[i] % 32;
    if info == 25 {
        lemma_unbytes16(s[i + 1], s[i + 2]);
    } else if info == 26 {
        lemma_unbytes32(s[i + 1], s[i + 2], s[i + 3], s[i + 4]);
    } else if info == 27 {
        lemma_unbytes64(s[i + 1], s[i + 2], s[i + 3], s[i + 4], s[i + 5], s[i + 6], s[i + 7], s[i + 8]);
    }
    assert(s.subrange(i, j) =~= h);
}

fn byte_at(n: u64, shift: u64) -> (r: u8)
    requires
        shift < 64,
    ensures
        r == byte_of(n, shift),
{
    ((n >> shift) & 0xff) as u8
}

/// Appends the shortest head for major type `major` and argument `n`.
pub fn push_head(out: &mut Vec<u8>, major: u8, n: u64)
    requires
        major < 8,
    ensures
        final(out)@ == old(out)@ + head(major, n),
{
    let m: u8 = major * 32;
    if n < 24 {
        out.push(m + n as u8);
    } else if n < 0x100 {
        out.push(m + 24);
        out.push(n as u8);
    } else if n < 0x10000 {
        out.push(m + 25);
        out.push(byte_at(n, 8));
        out.push(byte_at(n, 0));
    } else if n < 0x1_0000_0000 {
        out.push(m + 26);
        out.push(byte_at(n, 24));
        out.push(byte_at(n, 16));
        out.push(byte_at(n, 8));
        out.push(byte_at(n, 0));
    } else {
        out.push(m + 27);
        out.push(byte_at(n, 56));
        out.push(byte_at(n, 48));
        out.push(byte_at(n, 40));
        out.push(byte_at(n, 32));
        out.push(byte_at(n, 24));
        out.push(byte_at(n, 16));
        out.push(byte_at(n, 8));
        out.push(byte_at(n, 0));
    }
    assert(out@ =~= old(out)@ + head(major, n));
}

/// Reads the head at position `i` of `b`, as `parse_head` does.
pub fn read_head(b: &[u8], i: usize) -> (r: Option<(u8, u64, usize)>)
    ensures
        match r {
            Some((major, n, j)) => parse_head(b@, i as int) == Some((major, n, j as int)),
            None => parse_head(b@, i as int) is None,
        },
{
    proof {
        reveal(parse_head);
    }
    if i >= b.len() {
        return None;
    }
    let first = b[i];
    let major = first / 32;
    let info = first % 32;
    let avail = b.len() - i;
    if info < 24 {
        Some((major, info as u64, i + 1))
    } else if info == 24 {
        if avail >= 2 && b[i + 1] >= 24 {
            Some((major, b[i + 1] as u64, i + 2))
        } else {
            None
        }
    } else if info == 25 {
        if avail < 3 {
            return None;
        }
        let v: u64 = ((b[i + 1] as u64) << 8u64) | (b[i + 2] as u64);
        if v >= 0x100 {
            Some((major, v, i + 3))
        } else {
            None
        }
    } else if info == 26 {
        if avail < 5 {
            return None;
        }
        let v: u64 = ((b[i + 1] as u64) << 24u64) | ((b[i + 2] as u64) << 16u64) | ((b[i + 3] as u64)
            << 8u64) | (b[i + 4] as u64);
        if v >= 0x10000 {
            Some((major, v, i + 5))
        } else {
            None
        }
    } else if info == 27 {
        if avail < 9 {
            return None;
        }
        let v: u64 = ((b[i + 1] as u64) << 56u64) | ((b[i + 2] as u64) << 48u64) | ((b[i + 3] as u64)
            << 40u64) | ((b[i + 4] as u64) << 32u64) | ((b[i + 5] as u64) << 24u64) | ((b[i + 6]
            as u64) << 16u64) | ((b[i + 7] as u64) << 8u64) | (b[i + 8] as u64);
        if v >= 0x1_0000_0000 {
            Some((major, v, i + 9))
        } else {
            None
        }
    } else {
        None
    }
}

/// A text string: its head, then its UTF-8 bytes.
pub open spec fn text_item(t: Seq<char>) -> Seq<u8> {
    head(3, encode_utf8(t).len() as u64) + encode_utf8(t)
}

/// Whether the UTF-8 form of `t` has a length that a head can state.
pub open spec fn text_fits(t: Seq<char>) -> bool {
    encode_utf8(t).len() <= u64::MAX
}

/// Reads a text string at position `i`: its characters and the position after it.
#[verifier::opaque]
pub open spec fn parse_text(s: Seq<u8>, i: int) -> Option<(Seq<char>, int)> {
    match parse_head(s, i) {
        Some((major, n, j)) => {
            if major == 3 && j + n <= s.len() && valid_utf8(s.subrange(j, j + n)) {
                Some((decode_utf8(s.subrange(j, j + n)), j + n))
            } else {
                None
            }
        },
        None => None,
    }
}

/// A text string written at position `i` reads back as the same characters.
pub proof fn lemma_text_parses(s: Seq<u8>, i: int, t: Seq<char>)
    requires
        text_fits(t),
        0 <= i,
        i + text_item(t).len() <= s.len(),
        s.subrange(i, i + text_item(t).len()) == text_item(t),
    ensures
        parse_text(s, i) == Some((t, i + text_item(t).len())),
{
    reveal(parse_text);
    let u = encode_utf8(t);
    let h = head(3, u.len() as u64);
    let j = i + h.len();
    assert(s.subrange(i, j) =~= s.subrange(i, i + text_item(t).len()).subrange(0, h.len() as int));
    assert(s.subrange(i, i + text_item(t).len()).subrange(0, h.len() as int) =~= h);
    lemma_head_parses(s, i, 3, u.len() as u64);
    assert(s.subrange(j, j + u.len()) =~= s.subrange(i, i + text_item(t).len()).subrange(
        h.len() as int,
        text_item(t).len() as int,
    ));
    assert(s.subrange(j, j + u.len()) =~= u);
    vstd::utf8::encode_utf8_valid_utf8(t);
    vstd::utf8::encode_utf8_decode_utf8(t);
}

/// Whatever `parse_text` accepts is a text string in shortest form.
pub proof fn lemma_text_sound(s: Seq<u8>, i: int)
    requires
        parse_text(s, i) is Some,
    ensures
        ({
            let (t, j) = parse_text(s, i)->0;
            &&& text_fits(t)
            &&& j == i + text_item(t).len()
            &&& j <= s.len()
            &&& s.subrange(i, j) == text_item(t)
        }),
{
    reveal(parse_text);
    lemma_head_sound(s, i);
    let (major, n, j) = parse_head(s, i)->0;
    let (t, k) = parse_text(s, i)->0;
    let body = s.subrange(j, j + n);
    vstd::utf8::decode_utf8_encode_utf8(body);
    assert(encode_utf8(t) == body);
    assert(s.subrange(i, k) =~= s.subrange(i, j) + body);
}

/// Relies on `std::str::from_utf8`: it accepts exactly the well-formed UTF-8
/// sequences and views the same bytes as a string slice.
#[verifier::external_body]
fn utf8_str(b: &[u8]) -> (r: Option<&str>)
    ensures
        r is Some <==> valid_utf8(b@),
        r matches Some(t) ==> t.spec_bytes() == b@,
{
    std::str::from_utf8(b).ok()
}

/// Appends `b` to `out`.
pub fn push_bytes(out: &mut Vec<u8>, b: &[u8])
    ensures
        final(out)@ == old(out)@ + b@,
{
    let mut k: usize = 0;
    while k < b.len()
        invariant
            k <= b@.len(),
            out@ == old(out)@ + b@.subrange(0, k as int),
        decreases b@.len() - k,
    {
        out.push(b[k]);
        k = k + 1;
        assert(out@ =~= old(out)@ + b@.subrange(0, k as int));
    }
    assert(b@.subrange(0, k as int) =~= b@);
}

/// Appends `t` as a text string.
pub fn push_text(out: &mut Vec<u8>, t: &str)
    ensures
        final(out)@ == old(out)@ + text_item(t@),
        text_fits(t@),
{
    let bytes = t.as_bytes();
    push_head(out, 3, bytes.len() as u64);
    push_bytes(out, bytes);
    assert(final(out)@ =~= old(out)@ + text_item(t@));
}

/// Reads a text string at position `i` of `b`, as `parse_text` does.
pub fn read_text(b: &[u8], i: usize) -> (r: Option<(String, usize)>)
    ensures
        match r {
            Some((t, j)) => parse_text(b@, i as int) == Some((t@, j as int)),
            None => parse_text(b@, i as int) is None,
        },
{
    proof {
        reveal(parse_text);
    }
    match read_head(b, i) {
        Some((major, n, j)) => {
            proof {
                lemma_head_sound(b@, i as int);
            }
            if major != 3 || n > (b.len() - j) as u64 {
                return None;
            }
            let end = j + n as usize;
            let body = slice_subrange(b, j, end);
            match utf8_str(body) {
                Some(t) => {
                    proof {
                        vstd::utf8::encode_utf8_decode_utf8(t@);
                    }
                    Some((t.to_owned(), end))
                },
                None => None,
            }
        },
        None => None,
    }
}

/// The items of an array of small unsigned integers, one per byte of `c`.
pub open spec fn byte_items(c: Seq<u8>) -> Seq<u8>
    decreases c.len(),
{
    if c.len() == 0 {
        seq![]
    } else {
        byte_items(c.drop_last()) + head(0, c.last() as u64)
    }
}

/// An array of small unsigned integers, one per byte of `c`.
pub open spec fn byte_array(c: Seq<u8>) -> Seq<u8> {
    head(4, c.len() as u64) + byte_items(c)
}

/// Reads `count` unsigned integers below 256 from position `i`.
pub open spec fn parse_items(s: Seq<u8>, i: int, count: nat) -> Option<(Seq<u8>, int)>
    decreases count,
{
    if count == 0 {
        Some((seq![], i))
    } else {
        match parse_items(s, i, (count - 1) as nat) {
            Some((c, j)) => match parse_head(s, j) {
                Some((major, n, k)) => {
                    if major == 0 && n < 0x100 {
                        Some((c.push(n as u8), k))
                    } else {
                        None
                    }
                },
                None => None,
            },
            None => None,
        }
    }
}

/// Reads an array of unsigned integers below 256 at position `i`.
#[verifier::opaque]
pub open spec fn parse_byte_array(s: Seq<u8>, i: int) -> Option<(Seq<u8>, int)> {
    match parse_head(s, i) {
        Some((major, n, j)) => {
            if major == 4 {
                parse_items(s, j, n as nat)
            } else {
                None
            }
        },
        None => None,
    }
}

proof fn lemma_items_parse(s: Seq<u8>, i: int, c: Seq<u8>)
    requires
        0 <= i,
        i + byte_items(c).len() <= s.len(),
        s.subrange(i, i + byte_items(c).len()) == byte_items(c),
    ensures
        parse_items(s, i, c.len()) == Some((c, i + byte_items(c).len())),
    decreases c.len(),
{
    if c.len() > 0 {
        let front = byte_items(c.drop_last());
        let h = head(0, c.last() as u64);
        let whole = s.subrange(i, i + byte_items(c).len());
        assert(s.subrange(i, i + front.len()) =~= whole.subrange(0, front.len() as int));
        assert(whole.subrange(0, front.len() as int) =~= front);
        lemma_items_parse(s, i, c.drop_last());
        let j = i + front.len();
        assert(s.subrange(j, j + h.len()) =~= whole.subrange(front.len() as int, whole.len() as int));
        assert(whole.subrange(front.len() as int, whole.len() as int) =~= h);
        lemma_head_parses(s, j, 0, c.last() as u64);
        assert(c.drop_last().push(c.last()) =~= c);
    }
}

proof fn lemma_items_sound(s: Seq<u8>, i: int, count: nat)
    requires
        0 <= i <= s.len(),
        parse_items(s, i, count) is Some,
    ensures
        ({
            let (c, j) = parse_items(s, i, count)->0;
            &&& c.len() == count
            &&& j == i + byte_items(c).len()
            &&& j <= s.len()
            &&& s.subrange(i, j) == byte_items(c)
        }),
    decreases count,
{
    if count > 0 {
        lemma_items_sound(s, i, (count - 1) as nat);
        let (c0, j) = parse_items(s, i, (count - 1) as nat)->0;
        lemma_head_sound(s, j);
        let (c, k) = parse_items(s, i, count)->0;
        assert(c.drop_last() =~= c0);
        assert(s.subrange(i, k) =~= s.subrange(i, j) + s.subrange(j, k));
    } else {
        assert(s.subrange(i, i) =~= byte_items(seq![]));
    }
}

/// An array written at position `i` reads back as the same bytes.
pub proof fn lemma_byte_array_parses(s: Seq<u8>, i: int, c: Seq<u8>)
    requires
        c.len() <= u64::MAX,
        0 <= i,
        i + byte_array(c).len() <= s.len(),
        s.subrange(i, i + byte_array(c).len()) == byte_array(c),
    ensures
        parse_byte_array(s, i) == Some((c, i + byte_array(c).len())),
{
    reveal(parse_byte_array);
    let h = head(4, c.len() as u64);
    let whole = s.subrange(i, i + byte_array(c).len());
    assert(s.subrange(i, i + h.len()) =~= whole.subrange(0, h.len() as int));
    assert(whole.subrange(0, h.len() as int) =~= h);
    lemma_head_parses(s, i, 4, c.len() as u64);
    let j = i + h.len();
    assert(s.subrange(j, j + byte_items(c).len()) =~= whole.subrange(h.len() as int, whole.len() as int));
    assert(whole.subrange(h.len() as int, whole.len() as int) =~= byte_items(c));
    lemma_items_parse(s, j, c);
}

/// Whatever `parse_byte_array` accepts is an array in shortest form.
pub proof fn lemma_byte_array_sound(s: Seq<u8>, i: int)
    requires
        0 <= i,
        parse_byte_array(s, i) is Some,
    ensures
        ({
            let (c, j) = parse_byte_array(s, i)->0;
            &&& c.len() <= u64::MAX
            &&& j == i + byte_array(c).len()
            &&& j <= s.len()
            &&& s.subrange(i, j) == byte_array(c)
        }),
{
    reveal(parse_byte_array);
    lemma_head_sound(s, i);
    let (major, n, j) = parse_head(s, i)->0;
    lemma_items_sound(s, j, n as nat);
    let (c, k) = parse_byte_array(s, i)->0;
    assert(s.subrange(i, k) =~= s.subrange(i, j) + s.subrange(j, k));
}

/// Appends `c` as an array of unsigned integers.
pub fn push_byte_array(out: &mut Vec<u8>, c: &[u8])
    ensures
        final(out)@ == old(out)@ + byte_array(c@),
        c@.len() <= u64::MAX,
{
    let len = c.len();
    assert(len as int <= u64::MAX);
    push_head(out, 4, c.len() as u64);
    let ghost start = out@;
    let mut k: usize = 0;
    while k < c.len()
        invariant
            k <= c@.len(),
            out@ == start + byte_items(c@.subrange(0, k as int)),
        decreases c@.len() - k,
    {
        push_head(out, 0, c[k] as u64);
        proof {
            let next = c@.subrange(0, k + 1);
            assert(next.drop_last() =~= c@.subrange(0, k as int));
        }
        k = k + 1;
    }
    assert(c@.subrange(0, k as int) =~= c@);
}

/// Reads an array of unsigned integers below 256 at position `i` of `b`, as
/// `parse_byte_array` does.
pub fn read_byte_array(b: &[u8], i: usize) -> (r: Option<(Vec<u8>, usize)>)
    ensures
        match r {
            Some((c, j)) => parse_byte_array(b@, i as int) == Some((c@, j as int)),
            None => parse_byte_array(b@, i as int) is None,
        },
{
    proof {
        reveal(parse_byte_array);
    }
    let (major, n, j) = match read_head(b, i) {
        Some(h) => h,
        None => return None,
    };
    if major != 4 {
        return None;
    }
    let mut c: Vec<u8> = Vec::new();
    let mut p: usize = j;
    let mut t: u64 = 0;
    while t < n
        invariant
            t <= n,
            parse_byte_array(b@, i as int) == parse_items(b@, j as int, n as nat),
            parse_items(b@, j as int, t as nat) == Some((c@, p as int)),
        decreases n - t,
    {
        match read_head(b, p) {
            Some((mj, v, q)) => {
                if mj != 0 || v >= 0x100 {
                    proof {
                        lemma_items_none_after(b@, j as int, t as nat, n as nat);
                    }
                    return None;
                }
                c.push(v as u8);
                p = q;
            },
            None => {
                proof {
                    lemma_items_none_after(b@, j as int, t as nat, n as nat);
                }
                return None;
            },
        }
        t = t + 1;
    }
    Some((c, p))
}

/// Once reading the items fails, reading more of them fails too.
proof fn lemma_items_none_after(s: Seq<u8>, i: int, t: nat, n: nat)
    requires
        t < n,
        parse_items(s, i, (t + 1) as nat) is None,
    ensures
        parse_items(s, i, n) is None,
    decreases n - t,
{
    if n > t + 1 {
        lemma_items_none_after(s, i, t, (n - 1) as nat);
    }
}

} // verus!
