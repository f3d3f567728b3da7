//! Capitalization patterns, applied to a sequence of words, and joining.
use vstd::prelude::*;
use crate::chars::{
    extend_chars, is_cased, is_lower, is_upper, lower_of, to_lower, to_upper, upper_of,
};

verus! {

/// How the words of a conversion are capitalized.
#[derive(Clone, Copy, Debug, PartialEq, Eq, Hash, Structural)]
pub enum Pattern {
    /// Every word lowercase.
    Lowercase,
    /// Every word uppercase.
    Uppercase,
    /// Every word with its first character uppercase and the rest lowercase.
    Capital,
    /// The first word capitalized, the others lowercase.
    Sentence,
    /// The first word lowercase, the others capitalized.
    Camel,
    /// Letters alternate lowercase and uppercase, starting lowercase, across
    /// all the words; characters without case are skipped.
    Alternating,
    /// Every word with its first character lowercase and the rest uppercase.
    Toggle,
}

/// The first character uppercase, the rest lowercase.
pub open spec fn capital(w: Seq<char>) -> Seq<char> {
    if w.len() == 0 {
        w
    } else {
        upper_of(seq![w[0]]) + lower_of(w.drop_first())
    }
}

/// The first character lowercase, the rest uppercase.
pub open spec fn toggled(w: Seq<char>) -> Seq<char> {
    if w.len() == 0 {
        w
    } else {
        lower_of(seq![w[0]]) + upper_of(w.drop_first())
    }
}

/// The form of the word at position `i` under a per-word pattern.
pub open spec fn word_form(p: Pattern, i: int, w: Seq<char>) -> Seq<char> {
    match p {
        Pattern::Lowercase => lower_of(w),
        Pattern::Uppercase => upper_of(w),
        Pattern::Capital => capital(w),
        Pattern::Sentence => if i == 0 {
            capital(w)
        } else {
            lower_of(w)
        },
        Pattern::Camel => if i == 0 {
            lower_of(w)
        } else {
            capital(w)
        },
        Pattern::Toggle => toggled(w),
        Pattern::Alternating => alternate_word(w, w.len(), false).0,
    }
}

/// One character under the alternating pattern, `up` telling which case is due.
pub open spec fn alternate_char(c: char, up: bool) -> Seq<char> {
    if !is_cased(c) {
        seq![c]
    } else if up {
        upper_of(seq![c])
    } else {
        lower_of(seq![c])
    }
}

/// The case due after `c`, when `up` was due at `c`.
pub open spec fn flip_after(c: char, up: bool) -> bool {
    if is_cased(c) {
        !up
    } else {
        up
    }
}

/// The first `n` characters of `w` under the alternating pattern, starting
/// with `up`, and the case due after them.
pub open spec fn alternate_word(w: Seq<char>, n: nat, up: bool) -> (Seq<char>, bool)
    decreases n,
{
    if n == 0 {
        (seq![], up)
    } else {
        let (out, due) = alternate_word(w, (n - 1) as nat, up);
        (out + alternate_char(w[n - 1], due), flip_after(w[n - 1], due))
    }
}

/// The first `n` words under the alternating pattern, starting lowercase, and
/// the case due after them.
pub open spec fn alternate_words(ws: Seq<Seq<char>>, n: nat) -> (Seq<Seq<char>>, bool)
    decreases n,
{
    if n == 0 {
        (seq![], false)
    } else {
        let (out, due) = alternate_words(ws, (n - 1) as nat);
        let (w, next) = alternate_word(ws[n - 1], ws[n - 1].len(), due);
        (out.push(w), next)
    }
}

/// The words rendered under pattern `p`.
pub open spec fn mutate_words(p: Pattern, ws: Seq<Seq<char>>) -> Seq<Seq<char>> {
    if p == Pattern::Alternating {
        alternate_words(ws, ws.len()).0
    } else {
        Seq::new(ws.len(), |i: int| word_form(p, i, ws[i]))
    }
}

/// The words with `d` between each two of them.
pub open spec fn join_words(ws: Seq<Seq<char>>, d: Seq<char>) -> Seq<char>
    decreases ws.len(),
{
    if ws.len() == 0 {
        seq![]
    } else if ws.len() == 1 {
        ws[0]
    } else {
        join_words(ws.drop_last(), d) + d + ws.last()
    }
}

fn first_and_rest(w: &Vec<char>) -> (r: (Vec<char>, Vec<char>))
    requires
        w@.len() > 0,
    ensures
        r.0@ == seq![w@[0]],
        r.1@ == w@.drop_first(),
{
    let mut first: Vec<char> = Vec::new();
    first.push(w[0]);
    let mut rest: Vec<char> = Vec::new();
    let mut i: usize = 1;
    while i < w.len()
        invariant
            1 <= i <= w@.len(),
            rest@ == w@.subrange(1, i as int),
        decreases w@.len() - i,
    {
        rest.push(w[i]);
        i = i + 1;
        assert(rest@ =~= w@.subrange(1, i as int));
    }
    assert(rest@ =~= w@.drop_first());
    assert(first@ =~= seq![w@[0]]);
    (first, rest)
}

/// The first character uppercase, the rest lowercase.
pub fn capitalize(w: &Vec<char>) -> (r: Vec<char>)
    ensures
        r@ == capital(w@),
{
    if w.len() == 0 {
        return Vec::new();
    }
    let (first, rest) = first_and_rest(w);
    let mut r = to_upper(&first);
    extend_chars(&mut r, &to_lower(&rest));
    r
}

/// The first character lowercase, the rest uppercase.
pub fn toggle(w: &Vec<char>) -> (r: Vec<char>)
    ensures
        r@ == toggled(w@),
{
    if w.len() == 0 {
        return Vec::new();
    }
    let (first, rest) = first_and_rest(w);
    let mut r = to_lower(&first);
    extend_chars(&mut r, &to_upper(&rest));
    r
}

/// Renders `w` under the alternating pattern starting with `up`; returns the
/// word and the case due after it.
fn alternate(w: &Vec<char>, up: bool) -> (r: (Vec<char>, bool))
    ensures
        (r.0@, r.1) == alternate_word(w@, w@.len(), up),
{
    let mut out: Vec<char> = Vec::new();
    let mut due = up;
    let mut i: usize = 0;
    assert(out@ =~= seq![]);
    while i < w.len()
        invariant
            i <= w@.len(),
            (out@, due) == alternate_word(w@, i as nat, up),
        decreases w@.len() - i,
    {
        let c = w[i];
        let mut one: Vec<char> = Vec::new();
        one.push(c);
        if is_upper(c) || is_lower(c) {
            if due {
                extend_chars(&mut out, &to_upper(&one));
            } else {
                extend_chars(&mut out, &to_lower(&one));
            }
            due = !due;
        } else {
            extend_chars(&mut out, &one);
        }
        assert(one@ =~= seq![c]);
        i = i + 1;
    }
    (out, due)
}

impl Pattern {
    /// Renders the word at position `i` under this pattern, taken word by word.
    fn form(&self, i: usize, w: &Vec<char>) -> (r: Vec<char>)
        requires
            *self != Pattern::Alternating,
        ensures
            r@ == word_form(*self, i as int, w@),
    {
        match self {
            Pattern::Lowercase => to_lower(w),
            Pattern::Uppercase => to_upper(w),
            Pattern::Capital => capitalize(w),
            Pattern::Sentence => if i == 0 {
                capitalize(w)
            } else {
                to_lower(w)
            },
            Pattern::Camel => if i == 0 {
                to_lower(w)
            } else {
                capitalize(w)
            },
            Pattern::Toggle => toggle(w),
            Pattern::Alternating => Vec::new(),
        }
    }

    /// The words rendered under this pattern.
    pub fn mutate(&self, words: &Vec<Vec<char>>) -> (r: Vec<Vec<char>>)
        ensures
            r.deep_view() == mutate_words(*self, words.deep_view()),
    {
        let ghost ws = words.deep_view();
        let mut out: Vec<Vec<char>> = Vec::new();
        let mut due = false;
        let mut i: usize = 0;
        while i < words.len()
            invariant
                ws == words.deep_view(),
                i <= ws.len(),
                out@.len() == i,
                *self == Pattern::Alternating ==> (out.deep_view(), due) == alternate_words(
                    ws,
                    i as nat,
                ),
                *self != Pattern::Alternating ==> forall|j: int|
                    0 <= j < i ==> #[trigger] out@[j]@ == word_form(*self, j, ws[j]),
            decreases ws.len() - i,
        {
            let ghost before = out@;
            let ghost due_before = due;
            if *self == Pattern::Alternating {
                let (w, next) = alternate(&words[i], due);
                assert(words[i as int]@ == ws[i as int]);
                out.push(w);
                due = next;
                assert(out.deep_view() =~= alternate_words(ws, (i + 1) as nat).0) by {
                    assert forall|j: int| 0 <= j < out@.len() implies #[trigger] out.deep_view()[j]
                        == alternate_words(ws, (i + 1) as nat).0[j] by {
                        if j < i {
                            assert(out@[j] == before[j]);
                        }
                    }
                }
            } else {
                let w = self.form(i, &words[i]);
                assert(words[i as int]@ == ws[i as int]);
                out.push(w);
                assert(forall|j: int| 0 <= j < i ==> out@[j] == before[j]);
            }
            i = i + 1;
        }
        if *self != Pattern::Alternating {
            assert(out.deep_view() =~= mutate_words(*self, ws)) by {
                assert forall|j: int| 0 <= j < ws.len() implies #[trigger] out.deep_view()[j]
                    == mutate_words(*self, ws)[j] by {
                    assert(out@[j]@ == word_form(*self, j, ws[j]));
                }
            }
        }
        out
    }
}

/// Joins the words with `d` between each two of them.
pub fn join(words: &Vec<Vec<char>>, d: &Vec<char>) -> (r: Vec<char>)
    ensures
        r@ == join_words(words.deep_view(), d@),
{
    let ghost ws = words.deep_view();
    let mut out: Vec<char> = Vec::new();
    let mut i: usize = 0;
    while i < words.len()
        invariant
            ws == words.deep_view(),
            i <= ws.len(),
            out@ == join_words(ws.take(i as int), d@),
        decreases ws.len() - i,
    {
        if i > 0 {
            extend_chars(&mut out, d);
        }
        extend_chars(&mut out, &words[i]);
        assert(words[i as int]@ == ws[i as int]);
        assert(ws.take(i + 1).drop_last() =~= ws.take(i as int));
        i = i + 1;
        if i == 1 {
            assert(out@ =~= join_words(ws.take(i as int), d@));
        }
    }
    assert(ws.take(ws.len() as int) =~= ws);
    out
}

} // verus!
