//! The value of a decimal numeral, and the proof that the order in which
//! resolution hints are ranked is the order of their values.

use vstd::prelude::*;
use crate::linz_s3_filter::resolution::{
    fraction_digits,
    hint_lt,
    hint_of_text,
    is_digit,
    is_digits,
    lemma_lex_irreflexive,
    lemma_lex_total,
    lex_lt,
    spells_number,
    strip_leading_zeros,
    strip_trailing_zeros,
    whole_digits,
    whole_lt,
    HintView,
};

verus! {

/// The value of a digit.
pub open spec fn digit_value(c: char) -> nat {
    if c == '1' {
        1
    } else if c == '2' {
        2
    } else if c == '3' {
        3
    } else if c == '4' {
        4
    } else if c == '5' {
        5
    } else if c == '6' {
        6
    } else if c == '7' {
        7
    } else if c == '8' {
        8
    } else if c == '9' {
        9
    } else {
        0
    }
}

/// The number that a row of digits spells.
pub open spec fn number_of(digits: Seq<char>) -> nat
    decreases digits.len(),
{
    if digits.len() == 0 {
        0
    } else {
        number_of(digits.drop_last()) * 10 + digit_value(digits.last())
    }
}

/// The `k`-th power of ten.
pub open spec fn pow10(k: nat) -> nat
    decreases k,
{
    if k == 0 {
        1
    } else {
        10 * pow10((k - 1) as nat)
    }
}

/// A row of `n` zeros.
pub open spec fn zeros(n: nat) -> Seq<char> {
    Seq::new(n, |i: int| '0')
}

/// A fraction filled up with zeros to `k` digits.
pub open spec fn padded(fraction: Seq<char>, k: nat) -> Seq<char> {
    fraction + zeros((k - fraction.len()) as nat)
}

/// The value of the decimal number `whole.fraction`, counted in units of
/// the `k`-th decimal place.
pub open spec fn scaled_value(whole: Seq<char>, fraction: Seq<char>, k: nat) -> nat {
    number_of(whole + padded(fraction, k))
}

/// A row of digits that does not begin with a zero.
pub open spec fn no_leading_zero(digits: Seq<char>) -> bool {
    digits.len() == 0 || digits[0] != '0'
}

/// A row of digits that does not end with a zero.
pub open spec fn no_trailing_zero(digits: Seq<char>) -> bool {
    digits.len() == 0 || digits.last() != '0'
}

/// Digits are ordered as their values.
pub proof fn lemma_digit_order(a: char, b: char)
    requires
        is_digit(a),
        is_digit(b),
    ensures
        a < b <==> digit_value(a) < digit_value(b),
        a == b <==> digit_value(a) == digit_value(b),
        digit_value(a) <= 9,
        a != '0' <==> digit_value(a) >= 1,
{
}

/// A power of ten is at least 1.
pub proof fn lemma_pow10_positive(k: nat)
    ensures
        pow10(k) >= 1,
    decreases k,
{
    if k > 0 {
        lemma_pow10_positive((k - 1) as nat);
    }
}

/// The powers of ten grow with their exponent.
pub proof fn lemma_pow10_monotone(a: nat, b: nat)
    requires
        a <= b,
    ensures
        pow10(a) <= pow10(b),
    decreases b,
{
    if a < b {
        lemma_pow10_monotone(a, (b - 1) as nat);
        lemma_pow10_positive((b - 1) as nat);
    }
}

/// A row of digits spells a number below the power of ten of its length.
pub proof fn lemma_number_bound(digits: Seq<char>)
    requires
        is_digits(digits),
    ensures
        number_of(digits) < pow10(digits.len()),
    decreases digits.len(),
{
    if digits.len() > 0 {
        lemma_number_bound(digits.drop_last());
        lemma_digit_order(digits.last(), digits.last());
    }
}

/// A row of digits that does not begin with a zero spells a number that
/// needs all of its digits.
pub proof fn lemma_number_floor(digits: Seq<char>)
    requires
        is_digits(digits),
        digits.len() > 0,
        digits[0] != '0',
    ensures
        number_of(digits) >= pow10((digits.len() - 1) as nat),
    decreases digits.len(),
{
    lemma_digit_order(digits.last(), digits.last());
    if digits.len() > 1 {
        let rest = digits.drop_last();
        assert(rest[0] == digits[0]);
        lemma_number_floor(rest);
    } else {
        assert(number_of(digits.drop_last()) == 0);
    }
}

/// The number of two rows of digits put together.
pub proof fn lemma_number_concat(a: Seq<char>, b: Seq<char>)
    ensures
        number_of(a + b) == number_of(a) * pow10(b.len()) + number_of(b),
    decreases b.len(),
{
    if b.len() == 0 {
        assert(a + b =~= a);
        assert(pow10(0) == 1);
        assert(number_of(a) * 1 == number_of(a));
    } else {
        lemma_number_concat(a, b.drop_last());
        assert((a + b).drop_last() =~= a + b.drop_last());
        assert((a + b).last() == b.last());
        let n = number_of(a);
        let p = pow10((b.len() - 1) as nat);
        let m = number_of(b.drop_last());
        let d = digit_value(b.last());
        assert(number_of(a + b.drop_last()) == n * p + m);
        assert(number_of(a + b) == (n * p + m) * 10 + d);
        assert(pow10(b.len()) == 10 * p);
        assert(number_of(b) == m * 10 + d);
        assert((n * p + m) * 10 == n * (10 * p) + m * 10) by (nonlinear_arith);
    }
}

/// Zeros spell zero.
pub proof fn lemma_number_of_zeros(n: nat)
    ensures
        number_of(zeros(n)) == 0,
        is_digits(zeros(n)),
    decreases n,
{
    if n > 0 {
        lemma_number_of_zeros((n - 1) as nat);
        assert(zeros(n).drop_last() =~= zeros((n - 1) as nat));
    }
}

/// A single digit spells its value.
pub proof fn lemma_number_single(c: char)
    ensures
        number_of(seq![c]) == digit_value(c),
{
    let s = seq![c];
    assert(s.drop_last() =~= Seq::<char>::empty());
    assert(number_of(Seq::<char>::empty()) == 0);
    assert(s.last() == c);
}

/// Two rows of digits of one length are ordered in the dictionary as the
/// numbers they spell.
pub proof fn lemma_same_length_order(a: Seq<char>, b: Seq<char>)
    requires
        is_digits(a),
        is_digits(b),
        a.len() == b.len(),
    ensures
        lex_lt(a, b) <==> number_of(a) < number_of(b),
        a == b <==> number_of(a) == number_of(b),
    decreases a.len(),
{
    if a.len() == 0 {
        assert(a =~= b);
    } else {
        let ra = a.drop_first();
        let rb = b.drop_first();
        assert(seq![a[0]] + ra =~= a);
        assert(seq![b[0]] + rb =~= b);
        lemma_number_concat(seq![a[0]], ra);
        lemma_number_concat(seq![b[0]], rb);
        lemma_number_single(a[0]);
        lemma_number_single(b[0]);
        lemma_number_bound(ra);
        lemma_number_bound(rb);
        lemma_digit_order(a[0], b[0]);
        lemma_same_length_order(ra, rb);
        let p = pow10(ra.len());
        let da = digit_value(a[0]);
        let db = digit_value(b[0]);
        let na = number_of(ra);
        let nb = number_of(rb);
        assert(number_of(a) == da * p + na);
        assert(number_of(b) == db * p + nb);
        if da < db {
            assert(da * p + na < db * p + nb) by (nonlinear_arith)
                requires
                    da < db,
                    na < p,
                    nb >= 0,
            ;
        } else if db < da {
            assert(db * p + nb < da * p + na) by (nonlinear_arith)
                requires
                    db < da,
                    nb < p,
                    na >= 0,
            ;
        } else {
            if ra == rb {
                assert(a =~= seq![a[0]] + ra);
                assert(b =~= seq![b[0]] + rb);
            }
        }
    }
}

/// Whole numbers written without leading zeros are ordered, the shorter
/// first and those of one length as in the dictionary, as their values.
pub proof fn lemma_whole_order(a: Seq<char>, b: Seq<char>)
    requires
        is_digits(a),
        is_digits(b),
        no_leading_zero(a),
        no_leading_zero(b),
    ensures
        whole_lt(a, b) <==> number_of(a) < number_of(b),
        a == b <==> number_of(a) == number_of(b),
{
    lemma_number_bound(a);
    lemma_number_bound(b);
    if a.len() == b.len() {
        lemma_same_length_order(a, b);
    } else if a.len() < b.len() {
        lemma_number_floor(b);
        lemma_pow10_monotone(a.len(), (b.len() - 1) as nat);
    } else {
        lemma_number_floor(a);
        lemma_pow10_monotone(b.len(), (a.len() - 1) as nat);
        lemma_lex_total(a, b);
    }
}

/// No row of digits comes before the zeros of its length.
pub proof fn lemma_not_below_zeros(digits: Seq<char>)
    requires
        is_digits(digits),
    ensures
        !lex_lt(digits, zeros(digits.len())),
    decreases digits.len(),
{
    if digits.len() > 0 {
        let rest = digits.drop_first();
        assert(zeros(digits.len()).drop_first() =~= zeros(rest.len()));
        assert(zeros(digits.len())[0] == '0');
        lemma_not_below_zeros(rest);
    }
}

/// Fractions written without trailing zeros are ordered in the dictionary
/// as they are once filled up with zeros to one length.
pub proof fn lemma_padded_order(f1: Seq<char>, f2: Seq<char>, k: nat)
    requires
        is_digits(f1),
        is_digits(f2),
        no_trailing_zero(f1),
        no_trailing_zero(f2),
        k >= f1.len(),
        k >= f2.len(),
    ensures
        lex_lt(f1, f2) <==> lex_lt(padded(f1, k), padded(f2, k)),
        f1 == f2 <==> padded(f1, k) == padded(f2, k),
        is_digits(padded(f1, k)),
        is_digits(padded(f2, k)),
        padded(f1, k).len() == k,
        padded(f2, k).len() == k,
    decreases f1.len() + f2.len(),
{
    let p1 = padded(f1, k);
    let p2 = padded(f2, k);
    if f1.len() == 0 && f2.len() == 0 {
        assert(f1 =~= f2);
        lemma_lex_irreflexive(p1);
    } else if f2.len() == 0 {
        assert(p2 =~= zeros(k));
        lemma_not_below_zeros(p1);
        assert(p1[f1.len() - 1] == f1.last());
        assert(p2[f1.len() - 1] == '0');
    } else if f1.len() == 0 {
        assert(p1 =~= zeros(k));
        lemma_not_below_zeros(p2);
        assert(p2[f2.len() - 1] == f2.last());
        assert(p1[f2.len() - 1] == '0');
        lemma_lex_total(p1, p2);
    } else {
        assert(p1[0] == f1[0]);
        assert(p2[0] == f2[0]);
        if f1[0] == f2[0] {
            let r1 = f1.drop_first();
            let r2 = f2.drop_first();
            assert(r1.len() > 0 ==> r1.last() == f1.last());
            assert(r2.len() > 0 ==> r2.last() == f2.last());
            lemma_padded_order(r1, r2, (k - 1) as nat);
            assert(p1.drop_first() =~= padded(r1, (k - 1) as nat));
            assert(p2.drop_first() =~= padded(r2, (k - 1) as nat));
            if r1 == r2 {
                assert(f1 =~= seq![f1[0]] + r1);
                assert(f2 =~= seq![f2[0]] + r2);
            }
            if p1 == p2 {
                assert(p1.drop_first() == p2.drop_first());
            }
        }
    }
}

/// The order of resolution hints is the order of their values: of two
/// numbers in their shortest form the hint of the smaller ranks first, and
/// two hints are the same only if the values are.
pub proof fn lemma_hint_order_is_numeric(
    w1: Seq<char>,
    f1: Seq<char>,
    w2: Seq<char>,
    f2: Seq<char>,
    k: nat,
)
    requires
        is_digits(w1),
        is_digits(f1),
        is_digits(w2),
        is_digits(f2),
        no_leading_zero(w1),
        no_leading_zero(w2),
        no_trailing_zero(f1),
        no_trailing_zero(f2),
        k >= f1.len(),
        k >= f2.len(),
    ensures
        hint_lt(
            HintView::Metres { whole: w1, fraction: f1 },
            HintView::Metres { whole: w2, fraction: f2 },
        ) <==> scaled_value(w1, f1, k) < scaled_value(w2, f2, k),
        (w1 == w2 && f1 == f2) <==> scaled_value(w1, f1, k) == scaled_value(w2, f2, k),
{
    let p1 = padded(f1, k);
    let p2 = padded(f2, k);
    lemma_padded_order(f1, f2, k);
    lemma_number_concat(w1, p1);
    lemma_number_concat(w2, p2);
    lemma_number_bound(p1);
    lemma_number_bound(p2);
    lemma_whole_order(w1, w2);
    lemma_same_length_order(p1, p2);
    lemma_lex_irreflexive(w1);
    let p = pow10(k);
    let a = number_of(w1);
    let b = number_of(w2);
    let x = number_of(p1);
    let y = number_of(p2);
    if a < b {
        assert(a * p + x < b * p + y) by (nonlinear_arith)
            requires
                a < b,
                x < p,
                y >= 0,
        ;
    } else if b < a {
        assert(b * p + y < a * p + x) by (nonlinear_arith)
            requires
                b < a,
                y < p,
                x >= 0,
        ;
    }
}

/// Taking the zeros from the start of the whole part and from the end of
/// the fraction leaves the value of a number as it is, and gives its
/// shortest form.
pub proof fn lemma_shortest_form_keeps_value(whole: Seq<char>, fraction: Seq<char>, k: nat)
    requires
        is_digits(whole),
        is_digits(fraction),
        k >= fraction.len(),
    ensures
        scaled_value(strip_leading_zeros(whole), strip_trailing_zeros(fraction), k) == scaled_value(
            whole,
            fraction,
            k,
        ),
        is_digits(strip_leading_zeros(whole)),
        is_digits(strip_trailing_zeros(fraction)),
        no_leading_zero(strip_leading_zeros(whole)),
        no_trailing_zero(strip_trailing_zeros(fraction)),
        strip_trailing_zeros(fraction).len() <= fraction.len(),
{
    lemma_strip_leading(whole);
    lemma_strip_trailing(fraction, k);
    lemma_number_concat(strip_leading_zeros(whole), padded(fraction, k));
    lemma_number_concat(whole, padded(fraction, k));
}

/// The value of the number that a text spells, counted in units of the
/// `k`-th decimal place.
pub open spec fn text_value(t: Seq<char>, k: nat) -> nat {
    scaled_value(whole_digits(t), fraction_digits(t), k)
}

/// Texts that spell numbers have their hints in the order of the numbers:
/// `0.96` before `1`, `1` before `1.5`, `8` before `10`, however the
/// numbers are written.
pub proof fn lemma_text_order_is_numeric(t1: Seq<char>, t2: Seq<char>, k: nat)
    requires
        spells_number(t1),
        spells_number(t2),
        k >= fraction_digits(t1).len(),
        k >= fraction_digits(t2).len(),
    ensures
        hint_lt(hint_of_text(t1), hint_of_text(t2)) <==> text_value(t1, k) < text_value(t2, k),
        hint_of_text(t1) == hint_of_text(t2) <==> text_value(t1, k) == text_value(t2, k),
{
    let (w1, f1) = (whole_digits(t1), fraction_digits(t1));
    let (w2, f2) = (whole_digits(t2), fraction_digits(t2));
    assert(is_digits(f1));
    assert(is_digits(f2));
    lemma_shortest_form_keeps_value(w1, f1, k);
    lemma_shortest_form_keeps_value(w2, f2, k);
    lemma_hint_order_is_numeric(
        strip_leading_zeros(w1),
        strip_trailing_zeros(f1),
        strip_leading_zeros(w2),
        strip_trailing_zeros(f2),
        k,
    );
}

proof fn lemma_strip_leading(whole: Seq<char>)
    requires
        is_digits(whole),
    ensures
        number_of(strip_leading_zeros(whole)) == number_of(whole),
        is_digits(strip_leading_zeros(whole)),
        no_leading_zero(strip_leading_zeros(whole)),
    decreases whole.len(),
{
    if whole.len() > 0 && whole[0] == '0' {
        let rest = whole.drop_first();
        lemma_strip_leading(rest);
        assert(seq!['0'] + rest =~= whole);
        lemma_number_concat(seq!['0'], rest);
        lemma_number_single('0');
        let z = number_of(seq!['0']);
        let p = pow10(rest.len());
        assert(z * p == 0) by (nonlinear_arith)
            requires
                z == 0,
        ;
    }
}

proof fn lemma_strip_trailing(fraction: Seq<char>, k: nat)
    requires
        is_digits(fraction),
        k >= fraction.len(),
    ensures
        padded(strip_trailing_zeros(fraction), k) == padded(fraction, k),
        is_digits(strip_trailing_zeros(fraction)),
        no_trailing_zero(strip_trailing_zeros(fraction)),
        strip_trailing_zeros(fraction).len() <= fraction.len(),
    decreases fraction.len(),
{
    if fraction.len() > 0 && fraction.last() == '0' {
        let rest = fraction.drop_last();
        lemma_strip_trailing(rest, k);
        assert(padded(rest, k) =~= padded(fraction, k));
    }
}

} // verus!
