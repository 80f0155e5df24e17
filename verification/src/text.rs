use vstd::prelude::*;

verus! {

/// Whether a character counts as alphanumeric outside the ASCII range, as
/// `char::is_alphanumeric` decides it from the Unicode tables.
pub uninterp spec fn unicode_alphanumeric(c: char) -> bool;

/// The ASCII letters and digits.
pub open spec fn ascii_alphanumeric(c: char) -> bool {
    ('a' <= c && c <= 'z') || ('A' <= c && c <= 'Z') || ('0' <= c && c <= '9')
}

/// What `char::is_alphanumeric` answers: letters and digits in the ASCII
/// range, the Unicode tables beyond it.
pub open spec fn alphanumeric(c: char) -> bool {
    if c <= '\x7f' {
        ascii_alphanumeric(c)
    } else {
        unicode_alphanumeric(c)
    }
}

/// Trusted: `char::is_alphanumeric` is a function of the character alone. In
/// the ASCII range it accepts exactly `a`-`z`, `A`-`Z` and `0`-`9` (the only
/// ASCII characters with the Unicode properties Alphabetic or Numeric);
/// beyond that range its answer is only named, not described.
pub assume_specification[ char::is_alphanumeric ](c: char) -> (b: bool)
    ensures
        c <= '\x7f' ==> b == ascii_alphanumeric(c),
        c > '\x7f' ==> b == unicode_alphanumeric(c),
;

/// Trusted: `==` on string slices compares them character by character.
pub assume_specification[ <str as PartialEq>::eq ](a: &str, b: &str) -> (r: bool)
    ensures
        r == (a@ == b@),
;

/// What a sequence of strings holds, each string as its characters.
pub open spec fn strings(items: Seq<String>) -> Seq<Seq<char>> {
    items.map_values(|s: String| s@)
}

/// The characters of `s`, in order.
pub fn chars_of(s: &str) -> (v: Vec<char>)
    ensures
        v@ == s@,
{
    let mut v: Vec<char> = Vec::new();
    for c in it: s.chars()
        invariant
            v@ == it.seq().take(it.index() as int),
    {
        v.push(c);
    }
    v
}

} // verus!
