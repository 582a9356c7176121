//! The resolution that a dataset title names, in metres, and the order in
//! which titles are ranked by it.

use vstd::prelude::*;
use crate::linz_s3_filter::text::chars_of;

verus! {

/// One of the ten digits `0` to `9`.
pub open spec fn is_digit(c: char) -> bool {
    '0' <= c && c <= '9'
}

/// A row of digits; the empty row is one.
pub open spec fn is_digits(s: Seq<char>) -> bool {
    forall|i: int| 0 <= i < s.len() ==> is_digit(#[trigger] s[i])
}

/// The position of the first `c` in `s`, or the length of `s` if there is
/// none.
pub open spec fn index_of(s: Seq<char>, c: char) -> int
    decreases s.len(),
{
    if s.len() == 0 || s[0] == c {
        0
    } else {
        1 + index_of(s.drop_first(), c)
    }
}

/// `s` without the zeros at its start.
pub open spec fn strip_leading_zeros(s: Seq<char>) -> Seq<char>
    decreases s.len(),
{
    if s.len() > 0 && s[0] == '0' {
        strip_leading_zeros(s.drop_first())
    } else {
        s
    }
}

/// `s` without the zeros at its end.
pub open spec fn strip_trailing_zeros(s: Seq<char>) -> Seq<char>
    decreases s.len(),
{
    if s.len() > 0 && s.last() == '0' {
        strip_trailing_zeros(s.drop_last())
    } else {
        s
    }
}

/// A resolution as a decimal number in its shortest form: the digits before
/// the point without leading zeros (none at all for zero), the digits after
/// it without trailing zeros. A title that names none has the hint
/// `Unknown`, which ranks after every number.
pub ghost enum HintView {
    Metres { whole: Seq<char>, fraction: Seq<char> },
    Unknown,
}

/// The digits of a text before its first point; all of a text without one.
pub open spec fn whole_digits(t: Seq<char>) -> Seq<char> {
    t.subrange(0, index_of(t, '.'))
}

/// What follows the first point of a text; nothing in a text without one.
pub open spec fn fraction_digits(t: Seq<char>) -> Seq<char> {
    if index_of(t, '.') < t.len() {
        t.subrange(index_of(t, '.') + 1, t.len() as int)
    } else {
        Seq::empty()
    }
}

/// A text spells a number when it is made of digits, or of digits, a point
/// and digits.
pub open spec fn spells_number(t: Seq<char>) -> bool {
    &&& whole_digits(t).len() > 0
    &&& is_digits(whole_digits(t))
    &&& index_of(t, '.') == t.len() || (fraction_digits(t).len() > 0 && is_digits(
        fraction_digits(t),
    ))
}

/// The number that a text spells, in its shortest form. A text that spells
/// none has the hint `Unknown`.
pub open spec fn hint_of_text(t: Seq<char>) -> HintView {
    if spells_number(t) {
        HintView::Metres {
            whole: strip_leading_zeros(whole_digits(t)),
            fraction: strip_trailing_zeros(fraction_digits(t)),
        }
    } else {
        HintView::Unknown
    }
}

/// The hint for what the pattern of a resolution captured in a title:
/// `Unknown` where it captured nothing.
pub open spec fn hint_of_capture(capture: Option<Seq<char>>) -> HintView {
    match capture {
        Some(t) => hint_of_text(t),
        None => HintView::Unknown,
    }
}

/// Dictionary order by character code: a text comes before every longer
/// text that it begins.
pub open spec fn lex_lt(a: Seq<char>, b: Seq<char>) -> bool
    decreases a.len(),
{
    if b.len() == 0 {
        false
    } else if a.len() == 0 {
        true
    } else if a[0] != b[0] {
        a[0] < b[0]
    } else {
        lex_lt(a.drop_first(), b.drop_first())
    }
}

/// The order of whole numbers written without leading zeros: the shorter is
/// the smaller, and of two of one length the earlier in the dictionary.
pub open spec fn whole_lt(a: Seq<char>, b: Seq<char>) -> bool {
    a.len() < b.len() || (a.len() == b.len() && lex_lt(a, b))
}

/// The order of hints: numbers by value, and every number before `Unknown`.
/// Of two fractions written without trailing zeros the earlier in the
/// dictionary is the smaller.
pub open spec fn hint_lt(a: HintView, b: HintView) -> bool {
    match (a, b) {
        (
            HintView::Metres { whole: w1, fraction: f1 },
            HintView::Metres { whole: w2, fraction: f2 },
        ) => whole_lt(w1, w2) || (w1 == w2 && lex_lt(f1, f2)),
        (HintView::Metres { .. }, HintView::Unknown) => true,
        (HintView::Unknown, _) => false,
    }
}

proof fn lemma_index_of(s: Seq<char>, c: char, i: int)
    requires
        0 <= i <= s.len(),
        forall|j: int| 0 <= j < i ==> s[j] != c,
        i == s.len() || s[i] == c,
    ensures
        index_of(s, c) == i,
    decreases i,
{
    if i > 0 {
        let rest = s.drop_first();
        assert forall|j: int| 0 <= j < i - 1 implies rest[j] != c by {
            assert(rest[j] == s[j + 1]);
        }
        lemma_index_of(rest, c, i - 1);
    }
}

proof fn lemma_strip_leading_zeros(s: Seq<char>, k: int)
    requires
        0 <= k <= s.len(),
        forall|j: int| 0 <= j < k ==> s[j] == '0',
        k == s.len() || s[k] != '0',
    ensures
        strip_leading_zeros(s) == s.subrange(k, s.len() as int),
    decreases k,
{
    if k > 0 {
        let rest = s.drop_first();
        assert forall|j: int| 0 <= j < k - 1 implies rest[j] == '0' by {
            assert(rest[j] == s[j + 1]);
        }
        lemma_strip_leading_zeros(rest, k - 1);
        assert(rest.subrange(k - 1, rest.len() as int) =~= s.subrange(k, s.len() as int));
    } else {
        assert(s.subrange(0, s.len() as int) =~= s);
    }
}

proof fn lemma_strip_trailing_zeros(s: Seq<char>, e: int)
    requires
        0 <= e <= s.len(),
        forall|j: int| e <= j < s.len() ==> s[j] == '0',
        e == 0 || s[e - 1] != '0',
    ensures
        strip_trailing_zeros(s) == s.subrange(0, e),
    decreases s.len() - e,
{
    if e < s.len() {
        let rest = s.drop_last();
        lemma_strip_trailing_zeros(rest, e);
        assert(rest.subrange(0, e) =~= s.subrange(0, e));
    } else {
        assert(s.subrange(0, s.len() as int) =~= s);
    }
}

/// Two texts that agree on their first `i` characters are ordered as what
/// follows those characters.
pub proof fn lemma_lex_skip_common(a: Seq<char>, b: Seq<char>, i: int)
    requires
        0 <= i <= a.len(),
        i <= b.len(),
        forall|j: int| 0 <= j < i ==> a[j] == b[j],
    ensures
        lex_lt(a, b) == lex_lt(a.subrange(i, a.len() as int), b.subrange(i, b.len() as int)),
    decreases i,
{
    if i > 0 {
        let ra = a.drop_first();
        let rb = b.drop_first();
        assert forall|j: int| 0 <= j < i - 1 implies ra[j] == rb[j] by {
            assert(ra[j] == a[j + 1]);
            assert(rb[j] == b[j + 1]);
        }
        lemma_lex_skip_common(ra, rb, i - 1);
        assert(ra.subrange(i - 1, ra.len() as int) =~= a.subrange(i, a.len() as int));
        assert(rb.subrange(i - 1, rb.len() as int) =~= b.subrange(i, b.len() as int));
    } else {
        assert(a.subrange(0, a.len() as int) =~= a);
        assert(b.subrange(0, b.len() as int) =~= b);
    }
}

/// No text comes before itself.
pub proof fn lemma_lex_irreflexive(a: Seq<char>)
    ensures
        !lex_lt(a, a),
    decreases a.len(),
{
    if a.len() > 0 {
        lemma_lex_irreflexive(a.drop_first());
    }
}

/// Of two different texts one comes before the other.
pub proof fn lemma_lex_total(a: Seq<char>, b: Seq<char>)
    ensures
        lex_lt(a, b) || lex_lt(b, a) || a == b,
        !(lex_lt(a, b) && lex_lt(b, a)),
    decreases a.len(),
{
    if a.len() > 0 && b.len() > 0 {
        if a[0] == b[0] {
            lemma_lex_total(a.drop_first(), b.drop_first());
            if a.drop_first() == b.drop_first() {
                assert(a =~= seq![a[0]] + a.drop_first());
                assert(b =~= seq![b[0]] + b.drop_first());
            }
        }
    } else if a.len() == 0 && b.len() == 0 {
        assert(a =~= b);
    }
}

/// The dictionary order is transitive.
pub proof fn lemma_lex_transitive(a: Seq<char>, b: Seq<char>, c: Seq<char>)
    requires
        lex_lt(a, b),
        lex_lt(b, c),
    ensures
        lex_lt(a, c),
    decreases a.len(),
{
    if a.len() > 0 && b.len() > 0 && c.len() > 0 {
        if a[0] == b[0] && b[0] == c[0] {
            lemma_lex_transitive(a.drop_first(), b.drop_first(), c.drop_first());
        }
    }
}

/// The order of hints is a strict total order.
pub proof fn lemma_hint_total(a: HintView, b: HintView)
    ensures
        hint_lt(a, b) || hint_lt(b, a) || a == b,
        !(hint_lt(a, b) && hint_lt(b, a)),
{
    match (a, b) {
        (
            HintView::Metres { whole: w1, fraction: f1 },
            HintView::Metres { whole: w2, fraction: f2 },
        ) => {
            lemma_lex_total(w1, w2);
            lemma_lex_total(f1, f2);
        },
        _ => {},
    }
}

/// The order of hints is transitive.
pub proof fn lemma_hint_transitive(a: HintView, b: HintView, c: HintView)
    requires
        hint_lt(a, b),
        hint_lt(b, c),
    ensures
        hint_lt(a, c),
{
    match (a, b, c) {
        (
            HintView::Metres { whole: w1, fraction: f1 },
            HintView::Metres { whole: w2, fraction: f2 },
            HintView::Metres { whole: w3, fraction: f3 },
        ) => {
            lemma_lex_irreflexive(w1);
            lemma_lex_irreflexive(w2);
            if w1.len() == w2.len() && w2.len() == w3.len() {
                if lex_lt(w1, w2) && lex_lt(w2, w3) {
                    lemma_lex_transitive(w1, w2, w3);
                }
                if w1 == w2 && w2 == w3 {
                    lemma_lex_transitive(f1, f2, f3);
                }
            }
        },
        _ => {},
    }
}

/// The resolution that a title names.
#[derive(Debug, PartialEq, Eq)]
pub enum ResolutionHint {
    /// A number of metres in its shortest form: `whole` holds the digits
    /// before the point without leading zeros, `fraction` those after it
    /// without trailing zeros.
    Metres { whole: String, fraction: String },
    /// The title names no resolution.
    Unknown,
}

impl DeepView for ResolutionHint {
    type V = HintView;

    open spec fn deep_view(&self) -> HintView {
        match self {
            ResolutionHint::Metres { whole, fraction } => HintView::Metres {
                whole: whole@,
                fraction: fraction@,
            },
            ResolutionHint::Unknown => HintView::Unknown,
        }
    }
}

impl Clone for ResolutionHint {
    fn clone(&self) -> (r: Self)
        ensures
            r == *self,
    {
        match self {
            ResolutionHint::Metres { whole, fraction } => ResolutionHint::Metres {
                whole: whole.clone(),
                fraction: fraction.clone(),
            },
            ResolutionHint::Unknown => ResolutionHint::Unknown,
        }
    }
}

/// Whether `a` comes before `b` in the dictionary.
pub fn chars_before(a: &Vec<char>, b: &Vec<char>) -> (r: bool)
    ensures
        r == lex_lt(a@, b@),
{
    let mut i: usize = 0;
    while i < a.len() && i < b.len() && a[i] == b[i]
        invariant
            i <= a.len(),
            i <= b.len(),
            forall|j: int| 0 <= j < i ==> a@[j] == b@[j],
        decreases a.len() - i,
    {
        i += 1;
    }
    proof {
        lemma_lex_skip_common(a@, b@, i as int);
    }
    if i >= b.len() {
        false
    } else if i >= a.len() {
        true
    } else {
        a[i] < b[i]
    }
}

/// Whether `a` and `b` are the same text.
pub fn same_chars(a: &Vec<char>, b: &Vec<char>) -> (r: bool)
    ensures
        r == (a@ == b@),
{
    if a.len() != b.len() {
        return false;
    }
    let mut i: usize = 0;
    while i < a.len()
        invariant
            i <= a.len(),
            a.len() == b.len(),
            forall|j: int| 0 <= j < i ==> a@[j] == b@[j],
        decreases a.len() - i,
    {
        if a[i] != b[i] {
            return false;
        }
        i += 1;
    }
    assert(a@ =~= b@);
    true
}

fn all_digits(v: &Vec<char>, from: usize, to: usize) -> (r: bool)
    requires
        from <= to <= v.len(),
    ensures
        r == is_digits(v@.subrange(from as int, to as int)),
{
    let mut i: usize = from;
    while i < to
        invariant
            from <= i <= to,
            to <= v.len(),
            forall|j: int| from <= j < i ==> is_digit(v@[j]),
        decreases to - i,
    {
        let c = v[i];
        if !('0' <= c && c <= '9') {
            assert(v@.subrange(from as int, to as int)[i - from] == c);
            return false;
        }
        i += 1;
    }
    true
}

/// The number that `capture` spells, in its shortest form.
pub fn parse_resolution(capture: &str) -> (r: ResolutionHint)
    ensures
        r.deep_view() == hint_of_text(capture@),
{
    let v = chars_of(capture);
    let n: usize = v.len();
    let mut dot: usize = 0;
    while dot < n && v[dot] != '.'
        invariant
            dot <= n,
            n == v.len(),
            forall|j: int| 0 <= j < dot ==> v@[j] != '.',
        decreases n - dot,
    {
        dot += 1;
    }
    proof {
        lemma_index_of(v@, '.', dot as int);
    }
    if dot == 0 || !all_digits(&v, 0, dot) {
        return ResolutionHint::Unknown;
    }
    if dot < n && (dot + 1 == n || !all_digits(&v, dot + 1, n)) {
        return ResolutionHint::Unknown;
    }
    let mut lead: usize = 0;
    while lead < dot && v[lead] == '0'
        invariant
            lead <= dot,
            dot <= n,
            n == v.len(),
            forall|j: int| 0 <= j < lead ==> v@[j] == '0',
        decreases dot - lead,
    {
        lead += 1;
    }
    let ghost whole = v@.subrange(0, dot as int);
    proof {
        assert forall|j: int| 0 <= j < lead implies whole[j] == '0' by {}
        lemma_strip_leading_zeros(whole, lead as int);
        assert(whole.subrange(lead as int, dot as int) =~= v@.subrange(lead as int, dot as int));
    }
    let whole_text = capture.substring_char(lead, dot);
    if dot == n {
        proof {
            assert(strip_trailing_zeros(Seq::<char>::empty()) =~= Seq::<char>::empty());
        }
        return ResolutionHint::Metres { whole: whole_text.to_owned(), fraction: String::new() };
    }
    let start: usize = dot + 1;
    let mut end: usize = n;
    while end > start && v[end - 1] == '0'
        invariant
            start <= end <= n,
            n == v.len(),
            forall|j: int| end <= j < n ==> v@[j] == '0',
        decreases end,
    {
        end -= 1;
    }
    let ghost fraction = v@.subrange(start as int, n as int);
    proof {
        assert forall|j: int| end - start <= j < fraction.len() implies fraction[j] == '0' by {}
        lemma_strip_trailing_zeros(fraction, end - start);
        assert(fraction.subrange(0, end - start) =~= v@.subrange(start as int, end as int));
    }
    let fraction_text = capture.substring_char(start, end);
    ResolutionHint::Metres { whole: whole_text.to_owned(), fraction: fraction_text.to_owned() }
}

/// The hint for what a title's pattern captured: the number that the
/// capture spells, or `Unknown` where nothing was captured.
pub fn resolution_of_capture(capture: &Option<String>) -> (r: ResolutionHint)
    ensures
        r.deep_view() == hint_of_capture(capture.deep_view()),
{
    match capture {
        Some(t) => parse_resolution(t.as_str()),
        None => ResolutionHint::Unknown,
    }
}

/// A hint as a decimal number: at least one digit before the point, and
/// the point only where digits follow it. `Unknown` has no such text.
pub open spec fn hint_text(hint: HintView) -> Option<Seq<char>> {
    match hint {
        HintView::Metres { whole, fraction } => Some(
            (if whole.len() == 0 {
                seq!['0']
            } else {
                whole
            }) + (if fraction.len() == 0 {
                Seq::empty()
            } else {
                seq!['.'] + fraction
            }),
        ),
        HintView::Unknown => None,
    }
}

impl ResolutionHint {
    /// This hint as a decimal number, if it is one.
    pub fn decimal_text(&self) -> (text: Option<String>)
        ensures
            text.deep_view() == hint_text(self.deep_view()),
    {
        proof {
            reveal_strlit("0");
            reveal_strlit(".");
            assert("0"@ =~= seq!['0']);
            assert("."@ =~= seq!['.']);
        }
        match self {
            ResolutionHint::Unknown => None,
            ResolutionHint::Metres { whole, fraction } => {
                let mut text = if whole.as_str().unicode_len() == 0 {
                    "0".to_owned()
                } else {
                    whole.clone()
                };
                if fraction.as_str().unicode_len() != 0 {
                    let ghost before = text@;
                    text.append(".");
                    text.append(fraction.as_str());
                    assert(text@ =~= before + (seq!['.'] + fraction@));
                } else {
                    assert(text@ =~= text@ + Seq::<char>::empty());
                }
                Some(text)
            },
        }
    }

    /// Whether this hint ranks before `other`: a finer resolution before a
    /// coarser one, and every number before `Unknown`.
    pub fn is_before(&self, other: &ResolutionHint) -> (r: bool)
        ensures
            r == hint_lt(self.deep_view(), other.deep_view()),
    {
        match self {
            ResolutionHint::Unknown => false,
            ResolutionHint::Metres { whole: w1, fraction: f1 } => match other {
                ResolutionHint::Unknown => true,
                ResolutionHint::Metres { whole: w2, fraction: f2 } => {
                    let a = chars_of(w1.as_str());
                    let b = chars_of(w2.as_str());
                    if a.len() != b.len() {
                        a.len() < b.len()
                    } else if chars_before(&a, &b) {
                        true
                    } else if same_chars(&a, &b) {
                        let x = chars_of(f1.as_str());
                        let y = chars_of(f2.as_str());
                        chars_before(&x, &y)
                    } else {
                        false
                    }
                },
            },
        }
    }
}

} // verus!
