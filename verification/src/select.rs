//! Which of the groups that a search found is taken, when the caller has
//! said beforehand how to choose.

use vstd::prelude::*;
use crate::linz_s3_filter::decimal::{digit_value, lemma_digit_order, number_of};
use crate::linz_s3_filter::resolution::is_digits;
use crate::linz_s3_filter::text::chars_of;

verus! {

/// How the caller wants a group to be chosen without being asked. At most
/// one way is set.
#[derive(Clone, Copy, Debug, PartialEq, Eq, Structural)]
pub struct AutoSelect {
    pub by_first_index: bool,
    pub by_index: Option<usize>,
    pub by_all: bool,
    pub by_size: bool,
}

/// What is done with the groups of a search.
#[derive(Clone, Copy, Debug, PartialEq, Eq, Structural)]
pub enum Choice {
    /// Nothing was found.
    NoDatasets,
    /// There is one group only, and it is taken.
    Single,
    /// The group at this position is taken, as the caller asked for it.
    ByIndex(usize),
    /// The group at this position is taken: the first with the most
    /// locations.
    BySize(usize),
    /// Every group is taken, in order.
    All,
    /// The position asked for does not exist.
    OutOfBounds { index: usize, available: usize },
    /// The caller is asked.
    Ask,
}

/// `at` is the first position of `sizes` that holds its largest value.
pub open spec fn is_first_largest(sizes: Seq<nat>, at: int) -> bool {
    &&& 0 <= at < sizes.len()
    &&& forall|j: int| 0 <= j < sizes.len() ==> sizes[j] <= sizes[at]
    &&& forall|j: int| 0 <= j < at ==> sizes[j] < sizes[at]
}

/// The number of locations of each group.
pub open spec fn sizes_of(tile_list: Seq<(Vec<String>, String)>) -> Seq<nat> {
    Seq::new(tile_list.len(), |i: int| tile_list[i].0@.len())
}

/// What is done with `available` groups under `auto`, `largest` being the
/// position of the first group with the most locations. A single group is
/// taken without asking. Among several, a position given (or the first, if
/// only that is asked for) is taken if it exists; else the largest group if
/// asked for; else all if asked for; else the caller is asked.
pub open spec fn choice_of(available: usize, auto: AutoSelect, largest: usize) -> Choice {
    if available == 0 {
        Choice::NoDatasets
    } else if available == 1 {
        Choice::Single
    } else if auto.by_first_index || auto.by_index is Some {
        let index = match auto.by_index {
            Some(i) => i,
            None => 0,
        };
        if index < available {
            Choice::ByIndex(index)
        } else {
            Choice::OutOfBounds { index, available }
        }
    } else if auto.by_size {
        Choice::BySize(largest)
    } else if auto.by_all {
        Choice::All
    } else {
        Choice::Ask
    }
}

/// The position of the first group with the most locations.
pub fn index_of_longest(tile_list: &Vec<(Vec<String>, String)>) -> (at: usize)
    requires
        tile_list.len() > 0,
    ensures
        is_first_largest(sizes_of(tile_list@), at as int),
{
    let ghost sizes = sizes_of(tile_list@);
    let mut at: usize = 0;
    let mut i: usize = 1;
    while i < tile_list.len()
        invariant
            1 <= i <= tile_list.len(),
            sizes == sizes_of(tile_list@),
            0 <= at < i,
            forall|j: int| 0 <= j < i ==> sizes[j] <= sizes[at as int],
            forall|j: int| 0 <= j < at ==> sizes[j] < sizes[at as int],
        decreases tile_list.len() - i,
    {
        if tile_list[i].0.len() > tile_list[at].0.len() {
            at = i;
        }
        i += 1;
    }
    at
}

/// What is done with the groups of a search under `auto`.
pub fn choose_datasets(tile_list: &Vec<(Vec<String>, String)>, auto: &AutoSelect) -> (choice:
    Choice)
    ensures
        exists|largest: usize|
            (tile_list.len() > 0 ==> is_first_largest(sizes_of(tile_list@), largest as int))
                && choice == #[trigger] choice_of(tile_list.len(), *auto, largest),
{
    let available = tile_list.len();
    if available == 0 {
        assert(Choice::NoDatasets == choice_of(available, *auto, 0));
        return Choice::NoDatasets;
    }
    let largest = index_of_longest(tile_list);
    let choice = if available == 1 {
        Choice::Single
    } else if auto.by_first_index || auto.by_index.is_some() {
        let index = match auto.by_index {
            Some(i) => i,
            None => 0,
        };
        if index < available {
            Choice::ByIndex(index)
        } else {
            Choice::OutOfBounds { index, available }
        }
    } else if auto.by_size {
        Choice::BySize(largest)
    } else if auto.by_all {
        Choice::All
    } else {
        Choice::Ask
    };
    assert(choice == choice_of(available, *auto, largest));
    choice
}

/// The first position with the largest value is one position only.
pub proof fn lemma_first_largest_is_unique(sizes: Seq<nat>, a: int, b: int)
    requires
        is_first_largest(sizes, a),
        is_first_largest(sizes, b),
    ensures
        a == b,
{
    if a < b {
        assert(sizes[a] < sizes[b]);
        assert(sizes[b] <= sizes[a]);
    } else if b < a {
        assert(sizes[b] < sizes[a]);
        assert(sizes[a] <= sizes[b]);
    }
}

/// A text without the white space at its start and at its end, as
/// `str::trim` gives it.
pub uninterp spec fn trimmed(text: Seq<char>) -> Seq<char>;

/// Calls `str::trim`. The contract claims only that the outcome is the one
/// named `trimmed`: what is white space is fixed by the characters.
#[verifier::external_body]
fn trim(text: &str) -> (r: &str)
    ensures
        r@ == trimmed(text@),
{
    text.trim()
}

/// What the caller answered when asked for a group.
#[derive(Clone, Copy, Debug, PartialEq, Eq, Structural)]
pub enum Answer {
    /// The caller gives up.
    Cancel,
    /// The group at this position.
    Pick(usize),
    /// Neither: the caller is asked again.
    Invalid,
}

/// Two characters that are the same but for the case of a letter of the
/// ASCII alphabet.
pub open spec fn same_letter(a: char, b: char) -> bool {
    ||| a == b
    ||| ('A' <= a && a <= 'Z' && b as int == a as int + 32)
    ||| ('A' <= b && b <= 'Z' && a as int == b as int + 32)
}

/// Two texts that are the same but for the case of ASCII letters.
pub open spec fn same_ignoring_case(a: Seq<char>, b: Seq<char>) -> bool {
    a.len() == b.len() && forall|i: int| 0 <= i < a.len() ==> same_letter(a[i], #[trigger] b[i])
}

/// The digits of a number: the text itself, without a plus sign at its
/// start.
pub open spec fn unsigned_digits(text: Seq<char>) -> Seq<char> {
    if text.len() > 0 && text[0] == '+' {
        text.drop_first()
    } else {
        text
    }
}

/// The position that a text spells: a row of at least one digit, which a
/// plus sign may precede, whose number fits a machine word.
pub open spec fn index_of_text(text: Seq<char>) -> Option<usize> {
    let digits = unsigned_digits(text);
    if digits.len() > 0 && is_digits(digits) && number_of(digits) <= usize::MAX {
        Some(number_of(digits) as usize)
    } else {
        None
    }
}

/// What an answer without white space around it says, among `available`
/// groups: `cancel` in any case gives up, a position below `available`
/// picks, and anything else is invalid.
pub open spec fn answer_of(text: Seq<char>, available: usize) -> Answer {
    if same_ignoring_case(text, "cancel"@) {
        Answer::Cancel
    } else {
        match index_of_text(text) {
            Some(index) => if index < available {
                Answer::Pick(index)
            } else {
                Answer::Invalid
            },
            None => Answer::Invalid,
        }
    }
}

/// Whether two texts are the same but for the case of ASCII letters.
pub fn eq_ignoring_case(a: &Vec<char>, b: &Vec<char>) -> (r: bool)
    ensures
        r == same_ignoring_case(a@, b@),
{
    if a.len() != b.len() {
        return false;
    }
    let mut i: usize = 0;
    while i < a.len()
        invariant
            i <= a.len(),
            a.len() == b.len(),
            forall|j: int| 0 <= j < i ==> same_letter(a@[j], #[trigger] b@[j]),
        decreases a.len() - i,
    {
        let x = a[i];
        let y = b[i];
        let same = x == y || ('A' <= x && x <= 'Z' && 'a' <= y && y <= 'z' && y as u32 == x as u32
            + 32) || ('A' <= y && y <= 'Z' && 'a' <= x && x <= 'z' && x as u32 == y as u32 + 32);
        assert(same == same_letter(x, y));
        if !same {
            return false;
        }
        i += 1;
    }
    true
}

/// A row of digits spells at least what a part of it from its start
/// spells.
proof fn lemma_number_grows(digits: Seq<char>, n: int)
    requires
        0 <= n <= digits.len(),
    ensures
        number_of(digits.subrange(0, n)) <= number_of(digits),
    decreases digits.len() - n,
{
    if n < digits.len() {
        lemma_number_grows(digits, n + 1);
        assert(digits.subrange(0, n + 1).drop_last() =~= digits.subrange(0, n));
    } else {
        assert(digits.subrange(0, n) =~= digits);
    }
}

/// The position that a text spells.
pub fn parse_index(text: &Vec<char>) -> (r: Option<usize>)
    ensures
        r == index_of_text(text@),
{
    let start: usize = if text.len() > 0 && text[0] == '+' {
        1
    } else {
        0
    };
    let ghost digits = unsigned_digits(text@);
    assert(digits =~= text@.subrange(start as int, text.len() as int));
    if start == text.len() {
        return None;
    }
    let mut value: usize = 0;
    let mut i: usize = start;
    assert(digits.subrange(0, 0) =~= Seq::<char>::empty());
    while i < text.len()
        invariant
            start <= i <= text.len(),
            start < text.len(),
            digits == text@.subrange(start as int, text.len() as int),
            digits == unsigned_digits(text@),
            is_digits(digits.subrange(0, i - start)),
            value == number_of(digits.subrange(0, i - start)),
        decreases text.len() - i,
    {
        let c = text[i];
        let ghost upto = digits.subrange(0, i - start + 1);
        proof {
            assert(upto.drop_last() =~= digits.subrange(0, i - start));
            assert(upto.last() == c);
            assert(digits[i - start] == c);
        }
        if !('0' <= c && c <= '9') {
            return None;
        }
        proof {
            lemma_digit_order(c, c);
            lemma_number_grows(digits, i - start + 1);
        }
        let d: usize = (c as u32 - '0' as u32) as usize;
        assert(d == digit_value(c));
        if value > (usize::MAX - d) / 10 {
            assert(number_of(upto) > usize::MAX);
            return None;
        }
        value = value * 10 + d;
        i += 1;
    }
    assert(digits.subrange(0, i - start) =~= digits);
    Some(value)
}

/// What an answer without white space around it says.
pub fn read_answer(text: &str, available: usize) -> (answer: Answer)
    ensures
        answer == answer_of(text@, available),
{
    let given = chars_of(text);
    let cancel = chars_of("cancel");
    if eq_ignoring_case(&given, &cancel) {
        return Answer::Cancel;
    }
    match parse_index(&given) {
        Some(index) => if index < available {
            Answer::Pick(index)
        } else {
            Answer::Invalid
        },
        None => Answer::Invalid,
    }
}

/// What a line that the caller typed says: the white space around it does
/// not count.
pub fn parse_answer(input: &str, available: usize) -> (answer: Answer)
    ensures
        answer == answer_of(trimmed(input@), available),
{
    read_answer(trim(input), available)
}

} // verus!
