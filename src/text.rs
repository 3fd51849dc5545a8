//! Character-level helpers on script lines: prefixes and whitespace trimming.

use vstd::prelude::*;

verus! {

/// The code points that carry the Unicode `White_Space` property
/// (half-width and full-width spaces, tabs, line and paragraph breaks).
pub open spec fn is_white_space(c: char) -> bool {
    let u = c as u32;
    ||| 0x09 <= u <= 0x0D
    ||| u == 0x20
    ||| u == 0x85
    ||| u == 0xA0
    ||| u == 0x1680
    ||| 0x2000 <= u <= 0x200A
    ||| u == 0x2028
    ||| u == 0x2029
    ||| u == 0x202F
    ||| u == 0x205F
    ||| u == 0x3000
}

/// Relies on `char::is_whitespace`: true exactly when the character has the
/// Unicode `White_Space` property.
#[verifier::external_body]
fn char_is_whitespace(c: char) -> (r: bool)
    ensures
        r == is_white_space(c),
{
    c.is_whitespace()
}

/// `s` without its leading whitespace.
pub open spec fn trim_start_ws(s: Seq<char>) -> Seq<char>
    decreases s.len(),
{
    if s.len() > 0 && is_white_space(s[0]) {
        trim_start_ws(s.drop_first())
    } else {
        s
    }
}

/// `s` without its trailing whitespace.
pub open spec fn trim_end_ws(s: Seq<char>) -> Seq<char>
    decreases s.len(),
{
    if s.len() > 0 && is_white_space(s.last()) {
        trim_end_ws(s.drop_last())
    } else {
        s
    }
}

/// `s` without leading and trailing whitespace.
pub open spec fn trim_ws(s: Seq<char>) -> Seq<char> {
    trim_end_ws(trim_start_ws(s))
}

/// The characters of `s` from position `start`, at most `length` of them;
/// empty where `start` lies at or past the end.
pub open spec fn substring_of(s: Seq<char>, start: int, length: int) -> Seq<char> {
    let lo = if start < s.len() { start } else { s.len() as int };
    let hi = if start + length < s.len() { start + length } else { s.len() as int };
    s.subrange(lo, hi)
}

/// The part of `s` that starts at character `start` and holds at most
/// `length` characters.
pub fn substring(s: &str, start: usize, length: usize) -> (r: &str)
    ensures
        r@ == substring_of(s@, start as int, length as int),
{
    let n = s.unicode_len();
    if length == 0 || start >= n {
        let r = s.substring_char(n, n);
        assert(r@ =~= substring_of(s@, start as int, length as int));
        return r;
    }
    let hi: usize = if length >= n - start { n } else { start + length };
    s.substring_char(start, hi)
}

/// `s` with half-width and full-width whitespace removed from both ends.
pub fn trim(s: &str) -> (r: &str)
    ensures
        r@ == trim_ws(s@),
{
    let n = s.unicode_len();
    let mut i: usize = 0;
    assert(s@.subrange(0, n as int) =~= s@);
    while i < n && char_is_whitespace(s.get_char(i))
        invariant
            i <= n,
            n == s@.len(),
            trim_start_ws(s@) == trim_start_ws(s@.subrange(i as int, n as int)),
        decreases n - i,
    {
        assert(s@.subrange(i as int, n as int).drop_first() =~= s@.subrange(i + 1, n as int));
        i = i + 1;
    }
    assert(trim_start_ws(s@) == s@.subrange(i as int, n as int));
    let mut j: usize = n;
    while j > i && char_is_whitespace(s.get_char(j - 1))
        invariant
            i <= j <= n,
            n == s@.len(),
            trim_ws(s@) == trim_end_ws(s@.subrange(i as int, j as int)),
        decreases j,
    {
        assert(s@.subrange(i as int, j as int).drop_last() =~= s@.subrange(i as int, j - 1));
        j = j - 1;
    }
    s.substring_char(i, j)
}

} // verus!
