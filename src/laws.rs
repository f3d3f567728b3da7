//! Laws of conversion, proved from the specifications of the segmenter, the
//! patterns and the case registry.
use vstd::prelude::*;
use crate::boundary::{close_word, cut_before, is_delimiter, next_char, scan, segment, Boundary};
use crate::case::Case;
use crate::chars::{
    all_ascii, ascii_lower, ascii_upper, is_ascii_char, is_digit, lower_class, lower_of,
    upper_class, upper_of,
};
use crate::pattern::{alternate_words, capital, join_words, mutate_words, word_form, Pattern};
use crate::{convert_spec, default_boundaries, to_case_spec};

verus! {

/// Converting the empty text gives the empty text, whatever the boundaries,
/// the pattern and the delimiter.
pub proof fn lemma_empty_input(bs: Seq<Boundary>, p: Pattern, d: Seq<char>)
    ensures
        convert_spec(Seq::empty(), bs, p, d) == Seq::<char>::empty(),
{
    let e = Seq::<char>::empty();
    assert(scan(bs, e, 0) == (Seq::<Seq<char>>::empty(), e));
    assert(segment(bs, e) =~= Seq::<Seq<char>>::empty());
    assert(alternate_words(Seq::<Seq<char>>::empty(), 0).0 == Seq::<Seq<char>>::empty());
    assert(mutate_words(p, Seq::empty()) =~= Seq::<Seq<char>>::empty());
}

/// A change of character class at which the default boundaries split.
pub open spec fn transition(a: char, b: char) -> bool {
    (lower_class(a) && upper_class(b)) || (upper_class(a) && is_digit(b)) || (is_digit(a)
        && upper_class(b)) || (is_digit(a) && lower_class(b)) || (lower_class(a) && is_digit(b))
}

/// Two uppercase characters followed by a lowercase one.
pub open spec fn acronym(a: char, b: char, c: Option<char>) -> bool {
    upper_class(a) && upper_class(b) && c is Some && lower_class(c->0)
}

pub open spec fn is_default_delimiter(c: char) -> bool {
    c == '_' || c == '-' || c == ' '
}

proof fn lemma_default_delimiter(c: char)
    ensures
        is_delimiter(default_boundaries(), c) == is_default_delimiter(c),
{
    let bs = default_boundaries();
    if is_default_delimiter(c) {
        if c == '_' {
            assert(bs[0].consumes(c));
        } else if c == '-' {
            assert(bs[1].consumes(c));
        } else {
            assert(bs[2].consumes(c));
        }
    }
    if is_delimiter(bs, c) {
        let k = choose|k: int| 0 <= k < bs.len() && #[trigger] bs[k].consumes(c);
        assert(bs[k].consumes(c));
        if k == 0 {
        } else if k == 1 {
        } else if k == 2 {
        } else {
            assert(k >= 3);
        }
    }
}

proof fn lemma_default_cut(s: Seq<char>, i: int)
    ensures
        cut_before(default_boundaries(), s, i) == (0 < i < s.len() && (transition(s[i - 1], s[i])
            || acronym(s[i - 1], s[i], next_char(s, i)))),
{
    let bs = default_boundaries();
    if 0 < i < s.len() {
        let (a, b, c) = (s[i - 1], s[i], next_char(s, i));
        if lower_class(a) && upper_class(b) {
            assert(bs[3].splits(a, b, c));
        } else if upper_class(a) && is_digit(b) {
            assert(bs[4].splits(a, b, c));
        } else if is_digit(a) && upper_class(b) {
            assert(bs[5].splits(a, b, c));
        } else if is_digit(a) && lower_class(b) {
            assert(bs[6].splits(a, b, c));
        } else if lower_class(a) && is_digit(b) {
            assert(bs[7].splits(a, b, c));
        } else if acronym(a, b, c) {
            assert(bs[8].splits(a, b, c));
        }
        if cut_before(bs, s, i) {
            let k = choose|k: int| 0 <= k < bs.len() && #[trigger] bs[k].splits(a, b, c);
            if k == 0 {
            } else if k == 1 {
            } else if k == 2 {
            } else if k == 3 {
            } else if k == 4 {
            } else if k == 5 {
            } else if k == 6 {
            } else if k == 7 {
            } else {
                assert(k == 8);
            }
        }
    }
}

/// ASCII text with no default delimiter and no transition inside.
pub open spec fn plain_word(w: Seq<char>) -> bool {
    &&& all_ascii(w)
    &&& forall|j: int| 0 <= j < w.len() ==> !is_default_delimiter(#[trigger] w[j])
    &&& forall|j: int| 1 <= j < w.len() ==> !transition(w[j - 1], #[trigger] w[j])
}

/// A non-empty plain word with no acronym inside: the default boundaries read
/// it back as one word.
pub open spec fn clean_word(v: Seq<char>) -> bool {
    &&& v.len() > 0
    &&& plain_word(v)
    &&& forall|j: int| 1 <= j && j + 1 < v.len() ==> !acronym(v[j - 1], #[trigger] v[j], Some(v[j + 1]))
}

proof fn lemma_scan_default(s: Seq<char>, n: nat)
    requires
        all_ascii(s),
        n <= s.len(),
    ensures
        ({
            let (ws, cur) = scan(default_boundaries(), s, n);
            &&& forall|k: int| 0 <= k < ws.len() ==> (#[trigger] ws[k]).len() > 0 && plain_word(ws[k])
            &&& plain_word(cur)
            &&& cur.len() > 0 ==> n > 0 && cur.last() == s[n - 1]
        }),
    decreases n,
{
    let bs = default_boundaries();
    if n > 0 {
        lemma_scan_default(s, (n - 1) as nat);
        let (ws, cur) = scan(bs, s, (n - 1) as nat);
        let i = n - 1;
        let c = s[i];
        assert(is_ascii_char(c));
        lemma_default_delimiter(c);
        lemma_default_cut(s, i);
        let (ws2, cur2) = scan(bs, s, n);
        assert forall|k: int| 0 <= k < ws2.len() implies (#[trigger] ws2[k]).len() > 0
            && plain_word(ws2[k]) by {
            if k < ws.len() {
                assert(ws2[k] == ws[k]);
            }
        }
        if !is_delimiter(bs, c) && !cut_before(bs, s, i) {
            assert(cur2 == cur.push(c));
            assert forall|j: int| 1 <= j < cur2.len() implies !transition(
                cur2[j - 1],
                #[trigger] cur2[j],
            ) by {
                if j < cur.len() {
                    assert(cur2[j] == cur[j] && cur2[j - 1] == cur[j - 1]);
                }
            }
            assert forall|j: int| 0 <= j < cur2.len() implies is_ascii_char(#[trigger] cur2[j]) by {
                if j < cur.len() {
                    assert(cur2[j] == cur[j]);
                }
            }
            assert forall|j: int| 0 <= j < cur2.len() implies !is_default_delimiter(
                #[trigger] cur2[j],
            ) by {
                if j < cur.len() {
                    assert(cur2[j] == cur[j]);
                }
            }
        }
    }
}

/// Scanning with the default boundaries depends on the characters and the
/// cut positions of the prefix alone.
proof fn lemma_scan_prefix(s1: Seq<char>, s2: Seq<char>, n: nat)
    requires
        n <= s1.len(),
        n <= s2.len(),
        forall|i: int| 0 <= i < n ==> #[trigger] s1[i] == s2[i],
        forall|i: int|
            0 <= i < n ==> #[trigger] cut_before(default_boundaries(), s1, i) == cut_before(
                default_boundaries(),
                s2,
                i,
            ),
    ensures
        scan(default_boundaries(), s1, n) == scan(default_boundaries(), s2, n),
    decreases n,
{
    if n > 0 {
        lemma_scan_prefix(s1, s2, (n - 1) as nat);
        assert(s1[n - 1] == s2[n - 1]);
        assert(cut_before(default_boundaries(), s1, n - 1) == cut_before(
            default_boundaries(),
            s2,
            n - 1,
        ));
    }
}

/// Scanning a clean word that starts a new word gives that word, one
/// character at a time.
proof fn lemma_scan_word(t: Seq<char>, p: int, ws: Seq<Seq<char>>, v: Seq<char>, j: int)
    requires
        0 <= p,
        p + v.len() <= t.len(),
        t.subrange(p, p + v.len()) == v,
        clean_word(v),
        p + v.len() < t.len() ==> !lower_class(t[p + v.len()]),
        scan(default_boundaries(), t, p as nat) == (ws, Seq::<char>::empty()),
        1 <= j <= v.len(),
    ensures
        scan(default_boundaries(), t, (p + j) as nat) == (ws, v.take(j)),
    decreases j,
{
    let bs = default_boundaries();
    let i = p + j - 1;
    assert(t[i] == v[j - 1]);
    lemma_default_delimiter(v[j - 1]);
    if j == 1 {
        assert(Seq::<char>::empty().push(v[0]) =~= v.take(1));
        assert(seq![v[0]] =~= v.take(1));
    } else {
        lemma_scan_word(t, p, ws, v, j - 1);
        lemma_default_cut(t, i);
        assert(t[i - 1] == v[j - 2]);
        assert(!transition(v[j - 2], v[j - 1]));
        if j < v.len() {
            assert(t[i + 1] == v[j]);
            assert(!acronym(v[j - 2], v[j - 1], Some(v[j])));
        }
        assert(!cut_before(bs, t, i));
        assert(v.take(j - 1).push(v[j - 1]) =~= v.take(j));
    }
}

/// The default boundaries split clean words joined by a delimiter character
/// back into those words.
proof fn lemma_segment_join(vs: Seq<Seq<char>>, d: char)
    requires
        is_default_delimiter(d),
        forall|k: int| 0 <= k < vs.len() ==> clean_word(#[trigger] vs[k]),
    ensures
        segment(default_boundaries(), join_words(vs, seq![d])) == vs,
    decreases vs.len(),
{
    let bs = default_boundaries();
    let e = Seq::<char>::empty();
    if vs.len() == 0 {
        assert(scan(bs, e, 0) == (Seq::<Seq<char>>::empty(), e));
        assert(segment(bs, e) =~= vs);
    } else if vs.len() == 1 {
        let v = vs[0];
        assert(clean_word(v));
        assert(scan(bs, v, 0) == (Seq::<Seq<char>>::empty(), e));
        assert(v.subrange(0, v.len() as int) =~= v);
        lemma_scan_word(v, 0, Seq::empty(), v, v.len() as int);
        assert(v.take(v.len() as int) =~= v);
        assert(segment(bs, v) =~= vs);
    } else {
        let init = vs.drop_last();
        let v = vs.last();
        assert(clean_word(v));
        assert forall|k: int| 0 <= k < init.len() implies clean_word(#[trigger] init[k]) by {
            assert(init[k] == vs[k]);
        }
        lemma_segment_join(init, d);
        let a = join_words(init, seq![d]);
        let t = a + seq![d] + v;
        assert(join_words(vs, seq![d]) == t);
        assert forall|i: int| 0 <= i < a.len() implies #[trigger] t[i] == a[i] by {}
        assert forall|i: int| 0 <= i < a.len() implies #[trigger] cut_before(bs, t, i)
            == cut_before(bs, a, i) by {
            lemma_default_cut(t, i);
            lemma_default_cut(a, i);
            if i + 1 == a.len() {
                assert(t[i + 1] == d);
            } else if i + 1 < a.len() {
                assert(t[i + 1] == a[i + 1]);
            }
        }
        lemma_scan_prefix(t, a, a.len());
        assert(t[a.len() as int] == d);
        lemma_default_delimiter(d);
        let p: int = a.len() as int + 1;
        assert(scan(bs, t, p as nat) == (init, e));
        assert(t.subrange(p, p + v.len()) =~= v);
        lemma_scan_word(t, p, init, v, v.len() as int);
        assert(v.take(v.len() as int) =~= v);
        assert(t.len() == p + v.len());
        assert(segment(bs, t) =~= vs);
    }
}

/// The cases whose words are rendered one by one (lowercase, uppercase or
/// capitalized) and joined by one delimiter character.
pub open spec fn delimited_case(case: Case) -> bool {
    match case {
        Case::Lower | Case::Upper | Case::Title | Case::Snake | Case::UpperSnake
        | Case::ScreamingSnake | Case::Kebab | Case::Cobol | Case::Train => true,
        _ => false,
    }
}

/// The patterns that render each word on its own, by a letter-wise case change.
pub open spec fn wordwise(p: Pattern) -> bool {
    p == Pattern::Lowercase || p == Pattern::Uppercase || p == Pattern::Capital
}

proof fn lemma_form_index(p: Pattern, i: int, w: Seq<char>)
    requires
        wordwise(p),
        w.len() > 0,
        all_ascii(w),
    ensures
        word_form(p, i, w).len() == w.len(),
        forall|j: int|
            0 <= j < w.len() ==> #[trigger] word_form(p, i, w)[j] == if p == Pattern::Lowercase {
                ascii_lower(w[j])
            } else if p == Pattern::Uppercase || j == 0 {
                ascii_upper(w[j])
            } else {
                ascii_lower(w[j])
            },
{
    if p == Pattern::Capital {
        let first = seq![w[0]];
        let rest = w.drop_first();
        assert(all_ascii(first));
        assert forall|j: int| 0 <= j < rest.len() implies is_ascii_char(#[trigger] rest[j]) by {
            assert(rest[j] == w[j + 1]);
        }
        assert(capital(w) == upper_of(first) + lower_of(rest));
    }
}

proof fn lemma_form_clean(p: Pattern, i: int, w: Seq<char>)
    requires
        wordwise(p),
        w.len() > 0,
        plain_word(w),
    ensures
        clean_word(word_form(p, i, w)),
{
    lemma_form_index(p, i, w);
    let v = word_form(p, i, w);
    assert forall|j: int| 0 <= j < v.len() implies is_ascii_char(#[trigger] v[j])
        && !is_default_delimiter(v[j]) by {
        assert(is_ascii_char(w[j]));
        assert(!is_default_delimiter(w[j]));
    }
    assert forall|j: int| 1 <= j < v.len() implies !transition(v[j - 1], #[trigger] v[j]) by {
        assert(is_ascii_char(w[j - 1]) && is_ascii_char(w[j]));
        assert(!transition(w[j - 1], w[j]));
        assert(v[j - 1] == word_form(p, i, w)[j - 1]);
    }
    assert forall|j: int| 1 <= j && j + 1 < v.len() implies !acronym(
        v[j - 1],
        #[trigger] v[j],
        Some(v[j + 1]),
    ) by {
        assert(is_ascii_char(w[j - 1]) && is_ascii_char(w[j]) && is_ascii_char(w[j + 1]));
        assert(v[j - 1] == word_form(p, i, w)[j - 1]);
        assert(v[j + 1] == word_form(p, i, w)[j + 1]);
    }
}

proof fn lemma_form_idempotent(p: Pattern, i: int, w: Seq<char>)
    requires
        wordwise(p),
        w.len() > 0,
        all_ascii(w),
    ensures
        word_form(p, i, word_form(p, i, w)) == word_form(p, i, w),
{
    lemma_form_index(p, i, w);
    let v = word_form(p, i, w);
    assert forall|j: int| 0 <= j < v.len() implies is_ascii_char(#[trigger] v[j]) by {
        assert(is_ascii_char(w[j]));
    }
    lemma_form_index(p, i, v);
    assert forall|j: int| 0 <= j < v.len() implies #[trigger] word_form(p, i, v)[j] == v[j] by {
        assert(is_ascii_char(w[j]));
    }
    assert(word_form(p, i, v) =~= v);
}

proof fn lemma_delimited_idempotent(s: Seq<char>, case: Case)
    requires
        all_ascii(s),
        delimited_case(case),
    ensures
        to_case_spec(to_case_spec(s, case), case) == to_case_spec(s, case),
{
    let bs = default_boundaries();
    let p = case.pattern_spec();
    let d = case.delim_spec();
    assert(wordwise(p));
    lemma_scan_default(s, s.len());
    let (ws0, cur) = scan(bs, s, s.len());
    let ws = segment(bs, s);
    assert forall|k: int| 0 <= k < ws.len() implies (#[trigger] ws[k]).len() > 0 && plain_word(
        ws[k],
    ) by {
        if k < ws0.len() {
            assert(ws[k] == ws0[k]);
        }
    }
    let vs = mutate_words(p, ws);
    assert forall|k: int| 0 <= k < vs.len() implies clean_word(#[trigger] vs[k]) by {
        lemma_form_clean(p, k, ws[k]);
    }
    let delta = d[0];
    assert(d =~= seq![delta]);
    lemma_segment_join(vs, delta);
    assert(to_case_spec(s, case) == join_words(vs, d));
    assert forall|k: int| 0 <= k < vs.len() implies #[trigger] word_form(p, k, vs[k]) == vs[k] by {
        lemma_form_idempotent(p, k, ws[k]);
    }
    assert(mutate_words(p, vs) =~= vs);
}

/// ASCII text with no default delimiter.
pub open spec fn undelimited(s: Seq<char>) -> bool {
    forall|j: int| 0 <= j < s.len() ==> is_ascii_char(#[trigger] s[j]) && !is_default_delimiter(
        s[j],
    )
}

/// The words put together with nothing between them.
pub open spec fn concat(ws: Seq<Seq<char>>) -> Seq<char> {
    join_words(ws, Seq::empty())
}

/// A letter-wise case change: lowercase or uppercase.
pub open spec fn letterwise(p: Pattern, s: Seq<char>) -> Seq<char> {
    if p == Pattern::Lowercase {
        lower_of(s)
    } else {
        upper_of(s)
    }
}

proof fn lemma_concat_push(ws: Seq<Seq<char>>, w: Seq<char>)
    ensures
        concat(ws.push(w)) == concat(ws) + w,
{
    if ws.len() == 0 {
        assert(concat(ws) =~= Seq::<char>::empty());
        assert(concat(ws.push(w)) == ws.push(w)[0]);
        assert(concat(ws) + w =~= w);
    } else {
        assert(ws.push(w).drop_last() =~= ws);
        assert(concat(ws.push(w)) =~= concat(ws) + w);
    }
}

proof fn lemma_undelimited_append(a: Seq<char>, b: Seq<char>)
    requires
        undelimited(a),
        undelimited(b),
    ensures
        undelimited(a + b),
{
    assert forall|j: int| 0 <= j < (a + b).len() implies is_ascii_char(#[trigger] (a + b)[j])
        && !is_default_delimiter((a + b)[j]) by {
        if j < a.len() {
            assert((a + b)[j] == a[j]);
        } else {
            assert((a + b)[j] == b[j - a.len()]);
        }
    }
}

proof fn lemma_letterwise(p: Pattern, s: Seq<char>)
    requires
        p == Pattern::Lowercase || p == Pattern::Uppercase,
        undelimited(s),
    ensures
        letterwise(p, s).len() == s.len(),
        forall|j: int|
            0 <= j < s.len() ==> #[trigger] letterwise(p, s)[j] == if p == Pattern::Lowercase {
                ascii_lower(s[j])
            } else {
                ascii_upper(s[j])
            },
        undelimited(letterwise(p, s)),
        letterwise(p, letterwise(p, s)) == letterwise(p, s),
{
    assert(all_ascii(s));
    let v = letterwise(p, s);
    assert(undelimited(v));
    assert(all_ascii(v));
    assert(letterwise(p, v) =~= v);
}

/// A letter-wise case change of words put together is the case change of
/// their concatenation.
proof fn lemma_concat_letterwise(p: Pattern, ws: Seq<Seq<char>>)
    requires
        p == Pattern::Lowercase || p == Pattern::Uppercase,
        forall|k: int| 0 <= k < ws.len() ==> undelimited(#[trigger] ws[k]),
    ensures
        undelimited(concat(ws)),
        concat(mutate_words(p, ws)) == letterwise(p, concat(ws)),
    decreases ws.len(),
{
    if ws.len() == 0 {
        assert(concat(ws) =~= Seq::<char>::empty());
        assert(mutate_words(p, ws) =~= Seq::<Seq<char>>::empty());
        lemma_letterwise(p, concat(ws));
        assert(letterwise(p, concat(ws)) =~= Seq::<char>::empty());
    } else {
        let init = ws.drop_last();
        let w = ws.last();
        assert(init.push(w) =~= ws);
        assert forall|k: int| 0 <= k < init.len() implies undelimited(#[trigger] init[k]) by {
            assert(init[k] == ws[k]);
        }
        lemma_concat_letterwise(p, init);
        lemma_concat_push(init, w);
        assert(undelimited(w));
        lemma_undelimited_append(concat(init), w);
        let ms = mutate_words(p, ws);
        assert(ms =~= mutate_words(p, init).push(letterwise(p, w)));
        lemma_concat_push(mutate_words(p, init), letterwise(p, w));
        lemma_letterwise(p, concat(init));
        lemma_letterwise(p, w);
        lemma_letterwise(p, concat(ws));
        assert(letterwise(p, concat(ws)) =~= letterwise(p, concat(init)) + letterwise(p, w));
    }
}

/// Scanning text with no delimiter loses no character.
proof fn lemma_scan_keeps(s: Seq<char>, n: nat)
    requires
        undelimited(s),
        n <= s.len(),
    ensures
        ({
            let (ws, cur) = scan(default_boundaries(), s, n);
            concat(ws) + cur == s.take(n as int)
        }),
    decreases n,
{
    let bs = default_boundaries();
    if n == 0 {
        assert(concat(Seq::<Seq<char>>::empty()) =~= Seq::<char>::empty());
        assert(s.take(0) =~= Seq::<char>::empty());
        assert(concat(Seq::<Seq<char>>::empty()) + Seq::<char>::empty() =~= s.take(0));
    } else {
        lemma_scan_keeps(s, (n - 1) as nat);
        let (ws, cur) = scan(bs, s, (n - 1) as nat);
        let c = s[n - 1];
        lemma_default_delimiter(c);
        assert(s.take(n as int) =~= s.take(n - 1).push(c));
        lemma_concat_push(ws, cur);
        assert(concat(close_word(ws, cur)) =~= concat(ws) + cur);
        assert(concat(close_word(ws, cur)) + seq![c] =~= s.take(n as int));
        assert(concat(ws) + cur.push(c) =~= s.take(n as int));
    }
}

proof fn lemma_flat_idempotent(s: Seq<char>, case: Case)
    requires
        all_ascii(s),
        case == Case::Flat || case == Case::UpperFlat,
    ensures
        to_case_spec(to_case_spec(s, case), case) == to_case_spec(s, case),
{
    let bs = default_boundaries();
    let p = case.pattern_spec();
    assert(case.delim_spec() =~= Seq::<char>::empty());
    lemma_scan_default(s, s.len());
    let (ws0, cur) = scan(bs, s, s.len());
    let ws = segment(bs, s);
    assert forall|k: int| 0 <= k < ws.len() implies undelimited(#[trigger] ws[k]) by {
        if k < ws0.len() {
            assert(ws[k] == ws0[k]);
        }
    }
    lemma_concat_letterwise(p, ws);
    let o = to_case_spec(s, case);
    assert(o == letterwise(p, concat(ws)));
    lemma_letterwise(p, concat(ws));
    assert(undelimited(o));
    assert(all_ascii(o));
    lemma_scan_default(o, o.len());
    lemma_scan_keeps(o, o.len());
    let (vs0, vcur) = scan(bs, o, o.len());
    let vs = segment(bs, o);
    assert(o.take(o.len() as int) =~= o);
    lemma_concat_push(vs0, vcur);
    assert(concat(vs) == o);
    assert forall|k: int| 0 <= k < vs.len() implies undelimited(#[trigger] vs[k]) by {
        if k < vs0.len() {
            assert(vs[k] == vs0[k]);
        }
    }
    lemma_concat_letterwise(p, vs);
}

/// The cases in which converting twice changes nothing more: all but those
/// that capitalize words joined with no delimiter (`"a b"` in pascal case is
/// `"AB"`, which reads back as one word, `"Ab"`) and those that put uppercase
/// after lowercase inside a word (toggle and alternating).
pub open spec fn stable_case(case: Case) -> bool {
    !(case is Camel || case is Pascal || case is UpperCamel || case is Toggle
        || case is Alternating)
}

/// Converting ASCII text to a case twice gives what converting it once gave.
pub proof fn lemma_to_case_idempotent(s: Seq<char>, case: Case)
    requires
        all_ascii(s),
        stable_case(case),
    ensures
        to_case_spec(to_case_spec(s, case), case) == to_case_spec(s, case),
{
    if case is Flat || case is UpperFlat {
        lemma_flat_idempotent(s, case);
    } else {
        lemma_delimited_idempotent(s, case);
    }
}

} // verus!
