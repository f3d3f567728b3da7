//! Word boundaries, and the segmenter that splits text into words along them.
use vstd::prelude::*;
use crate::chars::{is_ascii_digit, is_digit, is_lower, is_upper, lower_class, upper_class};

verus! {

/// A rule that marks where one word ends and the next begins.
///
/// `Underscore`, `Hyphen` and `Space` are delimiters: the character is removed.
/// The others split between two characters without removing any.
#[derive(Clone, Copy, Debug, PartialEq, Eq, Hash, Structural)]
pub enum Boundary {
    /// `_`
    Underscore,
    /// `-`
    Hyphen,
    /// ` `
    Space,
    /// A lowercase letter followed by an uppercase one: `aB`.
    LowerUpper,
    /// An uppercase letter followed by a digit: `A1`.
    UpperDigit,
    /// A digit followed by an uppercase letter: `1A`.
    DigitUpper,
    /// A digit followed by a lowercase letter: `1a`.
    DigitLower,
    /// A lowercase letter followed by a digit: `a1`.
    LowerDigit,
    /// Two uppercase letters followed by a lowercase one: the split falls
    /// after the first, so that `HTTPServer` gives `HTTP` and `Server`.
    Acronyms,
}

impl Boundary {
    /// The character this boundary consumes, for a delimiter.
    pub open spec fn consumes(self, c: char) -> bool {
        match self {
            Boundary::Underscore => c == '_',
            Boundary::Hyphen => c == '-',
            Boundary::Space => c == ' ',
            _ => false,
        }
    }

    /// Whether this boundary splits between `a` and `b`, looking at `a`, `b`
    /// and, for acronyms, the character `c` after them (`None` at the end).
    pub open spec fn splits(self, a: char, b: char, c: Option<char>) -> bool {
        match self {
            Boundary::LowerUpper => lower_class(a) && upper_class(b),
            Boundary::UpperDigit => upper_class(a) && is_digit(b),
            Boundary::DigitUpper => is_digit(a) && upper_class(b),
            Boundary::DigitLower => is_digit(a) && lower_class(b),
            Boundary::LowerDigit => lower_class(a) && is_digit(b),
            Boundary::Acronyms => upper_class(a) && upper_class(b) && c is Some && lower_class(
                c->0,
            ),
            _ => false,
        }
    }

    pub fn is_consumed(&self, c: char) -> (r: bool)
        ensures
            r == self.consumes(c),
    {
        match self {
            Boundary::Underscore => c == '_',
            Boundary::Hyphen => c == '-',
            Boundary::Space => c == ' ',
            _ => false,
        }
    }

    pub fn splits_at(&self, a: char, b: char, c: Option<char>) -> (r: bool)
        ensures
            r == self.splits(a, b, c),
    {
        match self {
            Boundary::LowerUpper => is_lower(a) && is_upper(b),
            Boundary::UpperDigit => is_upper(a) && is_ascii_digit(b),
            Boundary::DigitUpper => is_ascii_digit(a) && is_upper(b),
            Boundary::DigitLower => is_ascii_digit(a) && is_lower(b),
            Boundary::LowerDigit => is_lower(a) && is_ascii_digit(b),
            Boundary::Acronyms => {
                is_upper(a) && is_upper(b) && match c {
                    Some(t) => is_lower(t),
                    None => false,
                }
            },
            _ => false,
        }
    }
}

/// Some boundary of `bs` consumes `c`.
pub open spec fn is_delimiter(bs: Seq<Boundary>, c: char) -> bool {
    exists|k: int| 0 <= k < bs.len() && #[trigger] bs[k].consumes(c)
}

/// The character after position `i`, if any.
pub open spec fn next_char(s: Seq<char>, i: int) -> Option<char> {
    if i + 1 < s.len() {
        Some(s[i + 1])
    } else {
        None
    }
}

/// Some boundary of `bs` splits between positions `i - 1` and `i` of `s`.
pub open spec fn cut_before(bs: Seq<Boundary>, s: Seq<char>, i: int) -> bool {
    0 < i < s.len() && exists|k: int|
        0 <= k < bs.len() && #[trigger] bs[k].splits(s[i - 1], s[i], next_char(s, i))
}

/// `words` with `cur` added as a word, unless `cur` is empty.
pub open spec fn close_word(words: Seq<Seq<char>>, cur: Seq<char>) -> Seq<Seq<char>> {
    if cur.len() > 0 {
        words.push(cur)
    } else {
        words
    }
}

/// The words closed, and the word begun, after the first `n` characters of `s`.
pub open spec fn scan(bs: Seq<Boundary>, s: Seq<char>, n: nat) -> (Seq<Seq<char>>, Seq<char>)
    decreases n,
{
    if n == 0 {
        (seq![], seq![])
    } else {
        let (words, cur) = scan(bs, s, (n - 1) as nat);
        let i = n - 1;
        if is_delimiter(bs, s[i]) {
            (close_word(words, cur), seq![])
        } else if cut_before(bs, s, i) {
            (close_word(words, cur), seq![s[i]])
        } else {
            (words, cur.push(s[i]))
        }
    }
}

/// The words of `s` under the boundaries `bs`, left to right.
pub open spec fn segment(bs: Seq<Boundary>, s: Seq<char>) -> Seq<Seq<char>> {
    let (words, cur) = scan(bs, s, s.len());
    close_word(words, cur)
}

fn any_consumes(bs: &Vec<Boundary>, c: char) -> (r: bool)
    ensures
        r == is_delimiter(bs@, c),
{
    let mut k: usize = 0;
    while k < bs.len()
        invariant
            k <= bs@.len(),
            forall|j: int| 0 <= j < k ==> !(#[trigger] bs@[j]).consumes(c),
        decreases bs@.len() - k,
    {
        if bs[k].is_consumed(c) {
            return true;
        }
        k = k + 1;
    }
    false
}

fn any_splits(bs: &Vec<Boundary>, a: char, b: char, c: Option<char>) -> (r: bool)
    ensures
        r == exists|k: int| 0 <= k < bs@.len() && #[trigger] bs@[k].splits(a, b, c),
{
    let mut k: usize = 0;
    while k < bs.len()
        invariant
            k <= bs@.len(),
            forall|j: int| 0 <= j < k ==> !(#[trigger] bs@[j]).splits(a, b, c),
        decreases bs@.len() - k,
    {
        if bs[k].splits_at(a, b, c) {
            return true;
        }
        k = k + 1;
    }
    false
}

fn push_word(words: &mut Vec<Vec<char>>, cur: Vec<char>)
    ensures
        final(words).deep_view() == close_word(old(words).deep_view(), cur@),
{
    if cur.len() > 0 {
        let ghost before = words@;
        let ghost cv = cur@;
        words.push(cur);
        assert(words@ == before.push(cur));
        assert(words.deep_view() =~= old(words).deep_view().push(cv)) by {
            assert forall|j: int| 0 <= j < words@.len() implies #[trigger] words.deep_view()[j]
                == old(words).deep_view().push(cv)[j] by {
                if j < before.len() {
                    assert(words@[j] == before[j]);
                }
            }
        }
    }
}

/// Splits `s` into words along the boundaries `bs`.
pub fn split(s: &Vec<char>, bs: &Vec<Boundary>) -> (r: Vec<Vec<char>>)
    ensures
        r.deep_view() == segment(bs@, s@),
{
    let mut words: Vec<Vec<char>> = Vec::new();
    let mut cur: Vec<char> = Vec::new();
    let mut i: usize = 0;
    assert(words.deep_view() =~= seq![]);
    assert(cur@ =~= seq![]);
    while i < s.len()
        invariant
            i <= s@.len(),
            (words.deep_view(), cur@) == scan(bs@, s@, i as nat),
        decreases s@.len() - i,
    {
        let c = s[i];
        if any_consumes(bs, c) {
            push_word(&mut words, cur);
            cur = Vec::new();
            assert(cur@ =~= seq![]);
        } else {
            let after = if i + 1 < s.len() {
                Some(s[i + 1])
            } else {
                None
            };
            if i > 0 && any_splits(bs, s[i - 1], c, after) {
                push_word(&mut words, cur);
                cur = Vec::new();
                cur.push(c);
                assert(cur@ =~= seq![c]);
            } else {
                cur.push(c);
            }
        }
        i = i + 1;
    }
    push_word(&mut words, cur);
    words
}

} // verus!
