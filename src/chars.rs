//! Character classes and case mappings, over sequences of `char`.
use vstd::prelude::*;

verus! {

/// What `str::to_lowercase` returns on text that is not all ASCII.
pub uninterp spec fn lower_beyond_ascii(s: Seq<char>) -> Seq<char>;

/// What `str::to_uppercase` returns on text that is not all ASCII.
pub uninterp spec fn upper_beyond_ascii(s: Seq<char>) -> Seq<char>;

/// Whether `char::is_uppercase` holds of a character outside ASCII.
pub uninterp spec fn upper_beyond_ascii_class(c: char) -> bool;

/// Whether `char::is_lowercase` holds of a character outside ASCII.
pub uninterp spec fn lower_beyond_ascii_class(c: char) -> bool;

pub open spec fn is_ascii_char(c: char) -> bool {
    (c as u32) < 128
}

pub open spec fn all_ascii(s: Seq<char>) -> bool {
    forall|i: int| 0 <= i < s.len() ==> is_ascii_char(#[trigger] s[i])
}

pub open spec fn is_ascii_upper(c: char) -> bool {
    'A' <= c && c <= 'Z'
}

pub open spec fn is_ascii_lower(c: char) -> bool {
    'a' <= c && c <= 'z'
}

/// `A` to `Z` mapped to `a` to `z`; every other character kept.
pub open spec fn ascii_lower(c: char) -> char {
    if is_ascii_upper(c) {
        ((c as u32) + 32) as char
    } else {
        c
    }
}

/// `a` to `z` mapped to `A` to `Z`; every other character kept.
pub open spec fn ascii_upper(c: char) -> char {
    if is_ascii_lower(c) {
        ((c as u32) - 32) as char
    } else {
        c
    }
}

/// The lowercase form of a text: on ASCII, letter by letter.
pub open spec fn lower_of(s: Seq<char>) -> Seq<char> {
    if all_ascii(s) {
        s.map_values(|c: char| ascii_lower(c))
    } else {
        lower_beyond_ascii(s)
    }
}

/// The uppercase form of a text: on ASCII, letter by letter.
pub open spec fn upper_of(s: Seq<char>) -> Seq<char> {
    if all_ascii(s) {
        s.map_values(|c: char| ascii_upper(c))
    } else {
        upper_beyond_ascii(s)
    }
}

/// An uppercase character: on ASCII, `A` to `Z`.
pub open spec fn upper_class(c: char) -> bool {
    if is_ascii_char(c) {
        is_ascii_upper(c)
    } else {
        upper_beyond_ascii_class(c)
    }
}

/// A lowercase character: on ASCII, `a` to `z`.
pub open spec fn lower_class(c: char) -> bool {
    if is_ascii_char(c) {
        is_ascii_lower(c)
    } else {
        lower_beyond_ascii_class(c)
    }
}

/// An ASCII decimal digit.
pub open spec fn is_digit(c: char) -> bool {
    '0' <= c && c <= '9'
}

/// A character that has a case: the alternating pattern counts only these.
pub open spec fn is_cased(c: char) -> bool {
    upper_class(c) || lower_class(c)
}

/// Relies on `char::is_uppercase`: whether the character has the Unicode
/// Uppercase property, which within ASCII holds of `A` to `Z` alone.
#[verifier::external_body]
pub fn is_upper(c: char) -> (r: bool)
    ensures
        is_ascii_char(c) ==> r == is_ascii_upper(c),
        !is_ascii_char(c) ==> r == upper_beyond_ascii_class(c),
{
    c.is_uppercase()
}

/// Relies on `char::is_lowercase`: whether the character has the Unicode
/// Lowercase property, which within ASCII holds of `a` to `z` alone.
#[verifier::external_body]
pub fn is_lower(c: char) -> (r: bool)
    ensures
        is_ascii_char(c) ==> r == is_ascii_lower(c),
        !is_ascii_char(c) ==> r == lower_beyond_ascii_class(c),
{
    c.is_lowercase()
}

pub fn is_ascii_digit(c: char) -> (r: bool)
    ensures
        r == is_digit(c),
{
    '0' <= c && c <= '9'
}

/// Relies on `str::to_lowercase`: the lowercase form depends on the characters
/// alone; on ASCII text it maps `A` to `Z` to `a` to `z` and keeps the rest.
#[verifier::external_body]
pub fn to_lower(w: &Vec<char>) -> (r: Vec<char>)
    ensures
        all_ascii(w@) ==> r@ == w@.map_values(|c: char| ascii_lower(c)),
        !all_ascii(w@) ==> r@ == lower_beyond_ascii(w@),
{
    let s: String = w.iter().collect();
    s.to_lowercase().chars().collect()
}

/// Relies on `str::to_uppercase`: the uppercase form depends on the characters
/// alone; on ASCII text it maps `a` to `z` to `A` to `Z` and keeps the rest.
#[verifier::external_body]
pub fn to_upper(w: &Vec<char>) -> (r: Vec<char>)
    ensures
        all_ascii(w@) ==> r@ == w@.map_values(|c: char| ascii_upper(c)),
        !all_ascii(w@) ==> r@ == upper_beyond_ascii(w@),
{
    let s: String = w.iter().collect();
    s.to_uppercase().chars().collect()
}

/// Relies on `String`'s `FromIterator<&char>`: the string holds the characters in order.
#[verifier::external_body]
pub fn string_of(w: &Vec<char>) -> (r: String)
    ensures
        r@ == w@,
{
    w.iter().collect()
}

/// The characters of a string, in order.
pub fn chars_of(s: &str) -> (r: Vec<char>)
    ensures
        r@ == s@,
{
    let n = s.unicode_len();
    let mut r: Vec<char> = Vec::new();
    let mut i: usize = 0;
    while i < n
        invariant
            n == s@.len(),
            i <= n,
            r@ == s@.subrange(0, i as int),
        decreases n - i,
    {
        r.push(s.get_char(i));
        i = i + 1;
        assert(r@ =~= s@.subrange(0, i as int));
    }
    assert(r@ =~= s@);
    r
}

/// Appends the characters of `src` to `out`.
pub fn extend_chars(out: &mut Vec<char>, src: &Vec<char>)
    ensures
        final(out)@ == old(out)@ + src@,
{
    let mut i: usize = 0;
    while i < src.len()
        invariant
            i <= src@.len(),
            out@ == old(out)@ + src@.subrange(0, i as int),
        decreases src@.len() - i,
    {
        out.push(src[i]);
        i = i + 1;
        assert(out@ =~= old(out)@ + src@.subrange(0, i as int));
    }
    assert(src@.subrange(0, src@.len() as int) =~= src@);
}

} // verus!
