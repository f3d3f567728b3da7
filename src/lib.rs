//! Converts text between naming conventions: snake case, camel case, title case
//! and others.
//!
//! Text is split into words along a set of boundaries, each word is rendered
//! under a capitalization pattern, and the words are joined with a delimiter.
use vstd::prelude::*;

pub mod chars;
pub mod boundary;
pub mod pattern;
pub mod case;
pub mod laws;

pub use boundary::Boundary;
pub use pattern::Pattern;
pub use case::Case;

use boundary::{segment, split};
use chars::{chars_of, string_of};
use pattern::{join, join_words, mutate_words};

verus! {

/// The boundaries used when the source case is not given: every delimiter and
/// every transition.
pub open spec fn default_boundaries() -> Seq<Boundary> {
    seq![
        Boundary::Underscore,
        Boundary::Hyphen,
        Boundary::Space,
        Boundary::LowerUpper,
        Boundary::UpperDigit,
        Boundary::DigitUpper,
        Boundary::DigitLower,
        Boundary::LowerDigit,
        Boundary::Acronyms,
    ]
}

/// `s` split along `bs`, rendered under `p`, and joined with `d`.
pub open spec fn convert_spec(s: Seq<char>, bs: Seq<Boundary>, p: Pattern, d: Seq<char>) -> Seq<
    char,
> {
    join_words(mutate_words(p, segment(bs, s)), d)
}

/// `s` split along `bs` and joined with `d`, the words rendered under `p`
/// where a pattern is given and kept as they are where none is.
pub open spec fn staged_spec(s: Seq<char>, bs: Seq<Boundary>, p: Option<Pattern>, d: Seq<char>) -> Seq<
    char,
> {
    match p {
        Some(p) => convert_spec(s, bs, p, d),
        None => join_words(segment(bs, s), d),
    }
}

/// `s` converted to `case`, split along the default boundaries.
pub open spec fn to_case_spec(s: Seq<char>, case: Case) -> Seq<char> {
    convert_spec(s, default_boundaries(), case.pattern_spec(), case.delim_spec())
}

/// `s` converted from `from` to `to`: split along the boundaries of `from`.
pub open spec fn from_to_spec(s: Seq<char>, from: Case, to: Case) -> Seq<char> {
    convert_spec(s, from.boundaries_spec(), to.pattern_spec(), to.delim_spec())
}

/// Converting `s` to `case` leaves it as it is.
pub open spec fn is_case_spec(s: Seq<char>, case: Case) -> bool {
    to_case_spec(s, case) == s
}

/// Reading `s` in `case` and writing it back in `case` gives `s` again.
pub open spec fn reproduces(s: Seq<char>, case: Case) -> bool {
    from_to_spec(s, case, case) == s
}

/// The cases, of the deterministic ones and in their order, that `s` may be written in.
pub open spec fn possible_cases_spec(s: Seq<char>) -> Seq<Case> {
    Case::deterministic_spec().filter(|c: Case| reproduces(s, c))
}

fn default_boundary_list() -> (r: Vec<Boundary>)
    ensures
        r@ == default_boundaries(),
{
    let r = vec![
        Boundary::Underscore,
        Boundary::Hyphen,
        Boundary::Space,
        Boundary::LowerUpper,
        Boundary::UpperDigit,
        Boundary::DigitUpper,
        Boundary::DigitLower,
        Boundary::LowerDigit,
        Boundary::Acronyms,
    ];
    assert(r@ =~= default_boundaries());
    r
}

/// Splits `s` along `bs`, renders the words under `p` and joins them with `d`.
fn render(s: &str, bs: &Vec<Boundary>, p: Option<Pattern>, d: &str) -> (r: String)
    ensures
        r@ == staged_spec(s@, bs@, p, d@),
{
    let words = split(&chars_of(s), bs);
    let rendered = match p {
        Some(p) => p.mutate(&words),
        None => words,
    };
    string_of(&join(&rendered, &chars_of(d)))
}

/// The deterministic cases in which `s` reads back as itself.
pub fn possible_cases(s: &String) -> (r: Vec<Case>)
    ensures
        r@ == possible_cases_spec(s@),
{
    let cases = Case::deterministic_cases();
    let ghost pred = |c: Case| reproduces(s@, c);
    let mut r: Vec<Case> = Vec::new();
    let mut i: usize = 0;
    assert(cases@.take(0) =~= seq![]);
    reveal_with_fuel(Seq::filter, 1);
    while i < cases.len()
        invariant
            cases@ == Case::deterministic_spec(),
            i <= cases@.len(),
            pred == (|c: Case| reproduces(s@, c)),
            r@ == cases@.take(i as int).filter(pred),
        decreases cases@.len() - i,
    {
        let c = cases[i];
        let t = s.from_case(c).to_case(c);
        proof {
            assert(cases@.take(i + 1) =~= cases@.take(i as int).push(c));
            cases@.take(i as int).lemma_filter_push(c, pred);
        }
        if t == *s {
            r.push(c);
        }
        i = i + 1;
    }
    assert(cases@.take(cases@.len() as int) =~= cases@);
    r
}

/// Text that can be converted between cases.
pub trait Casing {
    /// The characters of the text.
    spec fn text_of(&self) -> Seq<char>;

    /// The text converted to `case`, split along the default boundaries.
    fn to_case(&self, case: Case) -> (r: String)
        ensures
            r@ == to_case_spec(self.text_of(), case),
    ;

    /// A converter that will split the text along the boundaries of `case`.
    fn from_case(&self, case: Case) -> (r: Converter)
        ensures
            r.text() == self.text_of(),
            r.splits() == case.boundaries_spec(),
            r.pattern_of() == None::<Pattern>,
            r.delim_of() == Seq::<char>::empty(),
    ;

    /// Whether converting the text to `case` leaves it as it is.
    fn is_case(&self, case: Case) -> (r: bool)
        ensures
            r == is_case_spec(self.text_of(), case),
    ;
}

impl Casing for str {
    open spec fn text_of(&self) -> Seq<char> {
        self@
    }

    fn to_case(&self, case: Case) -> (r: String) {
        Converter::new(String::from_str(self)).to_case(case)
    }

    fn from_case(&self, case: Case) -> (r: Converter) {
        Converter::new_from_case(String::from_str(self), case)
    }

    fn is_case(&self, case: Case) -> (r: bool) {
        let own = String::from_str(self);
        self.to_case(case) == own
    }
}

impl Casing for String {
    open spec fn text_of(&self) -> Seq<char> {
        self@
    }

    fn to_case(&self, case: Case) -> (r: String) {
        Converter::new(self.clone()).to_case(case)
    }

    fn from_case(&self, case: Case) -> (r: Converter) {
        Converter::new_from_case(self.clone(), case)
    }

    fn is_case(&self, case: Case) -> (r: bool) {
        self.to_case(case) == *self
    }
}

/// A conversion being set up: the text, the boundaries to split it along, and
/// the pattern and delimiter to render the words with.
pub struct Converter {
    s: String,
    boundaries: Vec<Boundary>,
    pattern: Option<Pattern>,
    delim: String,
}

impl Converter {
    /// The text to convert.
    pub closed spec fn text(&self) -> Seq<char> {
        self.s@
    }

    /// The boundaries the text will be split along.
    pub closed spec fn splits(&self) -> Seq<Boundary> {
        self.boundaries@
    }

    /// The pattern the words will be rendered with; with none they are kept
    /// as they are.
    pub closed spec fn pattern_of(&self) -> Option<Pattern> {
        self.pattern
    }

    /// The delimiter the words will be joined with.
    pub closed spec fn delim_of(&self) -> Seq<char> {
        self.delim@
    }

    fn new(s: String) -> (r: Self)
        ensures
            r.text() == s@,
            r.splits() == default_boundaries(),
            r.pattern_of() == None::<Pattern>,
            r.delim_of() == Seq::<char>::empty(),
    {
        Converter {
            s,
            boundaries: default_boundary_list(),
            delim: String::new(),
            pattern: None,
        }
    }

    fn new_from_case(s: String, case: Case) -> (r: Self)
        ensures
            r.text() == s@,
            r.splits() == case.boundaries_spec(),
            r.pattern_of() == None::<Pattern>,
            r.delim_of() == Seq::<char>::empty(),
    {
        Converter {
            s,
            boundaries: case.boundaries(),
            delim: String::new(),
            pattern: None,
        }
    }

    /// Splits the text along the staged boundaries, renders the words with the
    /// staged pattern, if any, and joins them with the staged delimiter.
    pub fn convert(self) -> (r: String)
        ensures
            r@ == staged_spec(self.text(), self.splits(), self.pattern_of(), self.delim_of()),
    {
        render(self.s.as_str(), &self.boundaries, self.pattern, self.delim.as_str())
    }

    /// Converts the text to `case`, split along the staged boundaries.
    pub fn to_case(self, case: Case) -> (r: String)
        ensures
            r@ == convert_spec(self.text(), self.splits(), case.pattern_spec(), case.delim_spec()),
    {
        render(self.s.as_str(), &self.boundaries, Some(case.pattern()), case.delim())
    }

    /// Stages the boundaries of `case` for splitting the text.
    pub fn from_case(&mut self, case: Case)
        ensures
            final(self).text() == old(self).text(),
            final(self).splits() == case.boundaries_spec(),
            final(self).pattern_of() == old(self).pattern_of(),
            final(self).delim_of() == old(self).delim_of(),
    {
        self.boundaries = case.boundaries();
    }

    /// Whether converting the text to `case`, split along the staged
    /// boundaries, leaves it as it is.
    pub fn is_case(&self, case: Case) -> (r: bool)
        ensures
            r == (convert_spec(self.text(), self.splits(), case.pattern_spec(), case.delim_spec())
                == self.text()),
    {
        render(self.s.as_str(), &self.boundaries, Some(case.pattern()), case.delim()) == self.s
    }
}

} // verus!
