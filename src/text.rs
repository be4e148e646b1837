//! String helpers: comparison of two strings, and the text transformations
//! offered to users of the relay.

use vstd::prelude::*;
use vstd::string::StringSliceAdditionalSpecFns;

verus! {

/// Whether `a` and `b` hold the same characters.
pub fn same_text(a: &str, b: &str) -> (r: bool)
    ensures
        r == (a@ == b@),
{
    let x = a.as_bytes();
    let y = b.as_bytes();
    proof {
        vstd::utf8::encode_utf8_decode_utf8(a@);
        vstd::utf8::encode_utf8_decode_utf8(b@);
    }
    if x.len() != y.len() {
        return false;
    }
    let mut k: usize = 0;
    while k < x.len()
        invariant
            x@ == a.spec_bytes(),
            y@ == b.spec_bytes(),
            x@.len() == y@.len(),
            k <= x@.len(),
            forall|q: int| 0 <= q < k ==> x@[q] == y@[q],
        decreases x@.len() - k,
    {
        if x[k] != y[k] {
            assert(x@[k as int] != y@[k as int]);
            return false;
        }
        k = k + 1;
    }
    assert(x@ =~= y@);
    true
}

/// What `str::to_lowercase` makes of a string.
pub uninterp spec fn lower_of(s: Seq<char>) -> Seq<char>;

/// What `str::to_uppercase` makes of a string.
pub uninterp spec fn upper_of(s: Seq<char>) -> Seq<char>;

/// Relies on `str::to_lowercase`: the result depends on the characters alone.
#[verifier::external_body]
fn to_lower(s: &str) -> (r: String)
    ensures
        r@ == lower_of(s@),
{
    s.to_lowercase()
}

/// Relies on `str::to_uppercase`: the result depends on the characters alone.
#[verifier::external_body]
fn to_upper(s: &str) -> (r: String)
    ensures
        r@ == upper_of(s@),
{
    s.to_uppercase()
}

/// Relies on `String::push`: appends one character.
#[verifier::external_body]
pub(crate) fn push_char(s: &mut String, c: char)
    ensures
        final(s)@ == old(s)@.push(c),
{
    s.push(c)
}

/// The characters of `s`, in order.
pub fn chars_of(s: &str) -> (r: Vec<char>)
    ensures
        r@ == s@,
{
    let mut r: Vec<char> = Vec::new();
    for c in it: s.chars()
        invariant
            it.seq() == s@,
            r@ == s@.subrange(0, it.index() as int),
    {
        r.push(c);
        assert(r@ =~= s@.subrange(0, it.index() + 1));
    }
    assert(s@.subrange(0, s@.len() as int) =~= s@);
    r
}

/// `input` in lower case.
pub fn lowercase(input: &str) -> (r: String)
    ensures
        r@ == lower_of(input@),
{
    to_lower(input)
}

/// `input` in upper case.
pub fn uppercase(input: &str) -> (r: String)
    ensures
        r@ == upper_of(input@),
{
    to_upper(input)
}

/// `input` with every space character removed.
pub fn no_spaces(input: &str) -> (r: String)
    ensures
        r@ == input@.filter(|c: char| c != ' '),
{
    let cs = chars_of(input);
    let ghost keep = |c: char| c != ' ';
    let mut r = String::new();
    let mut k: usize = 0;
    while k < cs.len()
        invariant
            cs@ == input@,
            k <= cs@.len(),
            keep == (|c: char| c != ' '),
            r@ == cs@.subrange(0, k as int).filter(keep),
        decreases cs@.len() - k,
    {
        let c = cs[k];
        if c != ' ' {
            push_char(&mut r, c);
        }
        proof {
            let next = cs@.subrange(0, k + 1);
            assert(next.drop_last() =~= cs@.subrange(0, k as int));
            reveal(Seq::filter);
        }
        k = k + 1;
    }
    assert(cs@.subrange(0, k as int) =~= cs@);
    r
}

/// The characters of `input` in reverse order.
pub fn reverse(input: &str) -> (r: String)
    ensures
        r@ == input@.reverse(),
{
    let cs = chars_of(input);
    let mut r = String::new();
    let mut k: usize = cs.len();
    while k > 0
        invariant
            cs@ == input@,
            k <= cs@.len(),
            r@.len() == cs@.len() - k,
            forall|i: int| 0 <= i < r@.len() ==> r@[i] == cs@[cs@.len() - 1 - i],
        decreases k,
    {
        k = k - 1;
        push_char(&mut r, cs[k]);
    }
    assert(r@ =~= input@.reverse());
    r
}

/// `input` in capitals.
pub fn capitalize(input: &str) -> (r: String)
    ensures
        r@ == upper_of(input@),
{
    to_upper(input)
}

} // verus!
