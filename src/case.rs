//! The named cases, each bound to its boundaries, pattern and delimiter.
use vstd::prelude::*;
use crate::boundary::Boundary;
use crate::pattern::Pattern;

verus! {

/// A naming convention.
#[derive(Clone, Copy, Debug, PartialEq, Eq, Hash, Structural)]
pub enum Case {
    /// `MY VARIABLE NAME`
    Upper,
    /// `my variable name`
    Lower,
    /// `My Variable Name`
    Title,
    /// `mY vARIABLE nAME`
    Toggle,
    /// `myVariableName`
    Camel,
    /// `MyVariableName`
    Pascal,
    /// `MyVariableName`, another name for `Pascal`.
    UpperCamel,
    /// `my_variable_name`
    Snake,
    /// `MY_VARIABLE_NAME`
    UpperSnake,
    /// `MY_VARIABLE_NAME`, another name for `UpperSnake`.
    ScreamingSnake,
    /// `my-variable-name`
    Kebab,
    /// `MY-VARIABLE-NAME`
    Cobol,
    /// `My-Variable-Name`
    Train,
    /// `myvariablename`
    Flat,
    /// `MYVARIABLENAME`
    UpperFlat,
    /// `mY vArIaBlE nAmE`
    Alternating,
}

/// The transition boundaries that camel-like cases split on.
pub open spec fn camel_boundaries() -> Seq<Boundary> {
    seq![
        Boundary::LowerUpper,
        Boundary::Acronyms,
        Boundary::LowerDigit,
        Boundary::UpperDigit,
        Boundary::DigitLower,
        Boundary::DigitUpper,
    ]
}

impl Case {
    /// The boundaries that text written in this case is split on.
    pub open spec fn boundaries_spec(self) -> Seq<Boundary> {
        match self {
            Case::Upper | Case::Lower | Case::Title | Case::Toggle | Case::Alternating => seq![
                Boundary::Space,
            ],
            Case::Snake | Case::UpperSnake | Case::ScreamingSnake => seq![Boundary::Underscore],
            Case::Kebab | Case::Cobol | Case::Train => seq![Boundary::Hyphen],
            Case::Flat | Case::UpperFlat => seq![],
            Case::Camel | Case::UpperCamel | Case::Pascal => camel_boundaries(),
        }
    }

    /// The pattern that words take in this case.
    pub open spec fn pattern_spec(self) -> Pattern {
        match self {
            Case::Upper | Case::UpperSnake | Case::ScreamingSnake | Case::UpperFlat
            | Case::Cobol => Pattern::Uppercase,
            Case::Lower | Case::Snake | Case::Kebab | Case::Flat => Pattern::Lowercase,
            Case::Title | Case::Pascal | Case::UpperCamel | Case::Train => Pattern::Capital,
            Case::Camel => Pattern::Camel,
            Case::Toggle => Pattern::Toggle,
            Case::Alternating => Pattern::Alternating,
        }
    }

    /// The text put between the words in this case.
    pub open spec fn delim_spec(self) -> Seq<char> {
        match self {
            Case::Upper | Case::Lower | Case::Title | Case::Toggle | Case::Alternating => seq![' '],
            Case::Snake | Case::UpperSnake | Case::ScreamingSnake => seq!['_'],
            Case::Kebab | Case::Cobol | Case::Train => seq!['-'],
            Case::Flat | Case::UpperFlat | Case::Camel | Case::UpperCamel | Case::Pascal => seq![],
        }
    }

    pub fn boundaries(&self) -> (r: Vec<Boundary>)
        ensures
            r@ == self.boundaries_spec(),
    {
        let r = match self {
            Case::Upper | Case::Lower | Case::Title | Case::Toggle | Case::Alternating => vec![
                Boundary::Space,
            ],
            Case::Snake | Case::UpperSnake | Case::ScreamingSnake => vec![Boundary::Underscore],
            Case::Kebab | Case::Cobol | Case::Train => vec![Boundary::Hyphen],
            Case::Flat | Case::UpperFlat => vec![],
            Case::Camel | Case::UpperCamel | Case::Pascal => vec![
                Boundary::LowerUpper,
                Boundary::Acronyms,
                Boundary::LowerDigit,
                Boundary::UpperDigit,
                Boundary::DigitLower,
                Boundary::DigitUpper,
            ],
        };
        assert(r@ =~= self.boundaries_spec());
        r
    }

    pub fn pattern(&self) -> (r: Pattern)
        ensures
            r == self.pattern_spec(),
    {
        match self {
            Case::Upper | Case::UpperSnake | Case::ScreamingSnake | Case::UpperFlat
            | Case::Cobol => Pattern::Uppercase,
            Case::Lower | Case::Snake | Case::Kebab | Case::Flat => Pattern::Lowercase,
            Case::Title | Case::Pascal | Case::UpperCamel | Case::Train => Pattern::Capital,
            Case::Camel => Pattern::Camel,
            Case::Toggle => Pattern::Toggle,
            Case::Alternating => Pattern::Alternating,
        }
    }

    pub fn delim(&self) -> (r: &'static str)
        ensures
            r@ == self.delim_spec(),
    {
        proof {
            reveal_strlit(" ");
            reveal_strlit("_");
            reveal_strlit("-");
            reveal_strlit("");
        }
        match self {
            Case::Upper | Case::Lower | Case::Title | Case::Toggle | Case::Alternating => " ",
            Case::Snake | Case::UpperSnake | Case::ScreamingSnake => "_",
            Case::Kebab | Case::Cobol | Case::Train => "-",
            Case::Flat | Case::UpperFlat | Case::Camel | Case::UpperCamel | Case::Pascal => "",
        }
    }

    /// The cases whose output is a function of the input alone, in a fixed order.
    pub open spec fn deterministic_spec() -> Seq<Case> {
        seq![
            Case::Upper,
            Case::Lower,
            Case::Title,
            Case::Toggle,
            Case::Camel,
            Case::Pascal,
            Case::UpperCamel,
            Case::Snake,
            Case::UpperSnake,
            Case::ScreamingSnake,
            Case::Kebab,
            Case::Cobol,
            Case::Train,
            Case::Flat,
            Case::UpperFlat,
            Case::Alternating,
        ]
    }

    pub fn deterministic_cases() -> (r: Vec<Case>)
        ensures
            r@ == Case::deterministic_spec(),
    {
        let r = vec![
            Case::Upper,
            Case::Lower,
            Case::Title,
            Case::Toggle,
            Case::Camel,
            Case::Pascal,
            Case::UpperCamel,
            Case::Snake,
            Case::UpperSnake,
            Case::ScreamingSnake,
            Case::Kebab,
            Case::Cobol,
            Case::Train,
            Case::Flat,
            Case::UpperFlat,
            Case::Alternating,
        ];
        assert(r@ =~= Case::deterministic_spec());
        r
    }
}

} // verus!
