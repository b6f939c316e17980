//! Characters: the classes the tokenizer tells apart, runs of one class, the
//! value of a run of digits, and the passage between text and characters.

use vstd::prelude::*;
use vstd::std_specs::iter::IteratorSpec;

verus! {

/// A set of characters that the tokenizer reads as a run.
#[derive(Clone, Copy, Debug, PartialEq, Eq)]
pub enum CharClass {
    /// Space, tab, carriage return and line feed.
    Whitespace,
    /// The decimal digits `0` to `9`.
    Digit,
    /// What may follow the first character of an identifier: the letters
    /// `a` to `z` and `A` to `Z`, the decimal digits, and `_`.
    IdentifierPart,
}

pub open spec fn is_whitespace(c: char) -> bool {
    c == ' ' || c == '\t' || c == '\r' || c == '\n'
}

pub open spec fn is_digit(c: char) -> bool {
    '0' <= c <= '9'
}

pub open spec fn is_letter(c: char) -> bool {
    ('a' <= c <= 'z') || ('A' <= c <= 'Z')
}

/// What an identifier may begin with: a letter or `_`.
pub open spec fn is_identifier_start(c: char) -> bool {
    is_letter(c) || c == '_'
}

impl CharClass {
    /// Whether `c` belongs to the class.
    pub open spec fn spec_contains(self, c: char) -> bool {
        match self {
            CharClass::Whitespace => is_whitespace(c),
            CharClass::Digit => is_digit(c),
            CharClass::IdentifierPart => is_letter(c) || is_digit(c) || c == '_',
        }
    }

    /// Whether `c` belongs to the class.
    pub fn contains(&self, c: char) -> (inside: bool)
        ensures
            inside == self.spec_contains(c),
    {
        match self {
            CharClass::Whitespace => c == ' ' || c == '\t' || c == '\r' || c == '\n',
            CharClass::Digit => char_is_digit(c),
            CharClass::IdentifierPart => char_is_letter(c) || char_is_digit(c) || c == '_',
        }
    }
}

pub(crate) fn char_is_digit(c: char) -> (digit: bool)
    ensures
        digit == is_digit(c),
{
    '0' <= c && c <= '9'
}

pub(crate) fn char_is_letter(c: char) -> (letter: bool)
    ensures
        letter == is_letter(c),
{
    ('a' <= c && c <= 'z') || ('A' <= c && c <= 'Z')
}

pub(crate) fn char_is_identifier_start(c: char) -> (start: bool)
    ensures
        start == is_identifier_start(c),
{
    char_is_letter(c) || c == '_'
}

/// Where the longest run of characters of `class` that begins at `from` ends:
/// the index of the first character at or after `from` that is not in the
/// class, or the length of `s` if there is none.
pub open spec fn spec_span(s: Seq<char>, from: int, class: CharClass) -> int
    decreases s.len() - from,
{
    if 0 <= from < s.len() && class.spec_contains(s[from]) {
        spec_span(s, from + 1, class)
    } else {
        from
    }
}

/// A run is the longest one: it lies inside the text, holds only characters
/// of the class, and stops at the end of the text or before a character that
/// is not in the class.
pub proof fn lemma_span_is_longest_run(s: Seq<char>, from: int, class: CharClass)
    requires
        0 <= from <= s.len(),
    ensures
        from <= spec_span(s, from, class) <= s.len(),
        forall|i: int|
            from <= i < spec_span(s, from, class) ==> class.spec_contains(#[trigger] s[i]),
        spec_span(s, from, class) < s.len() ==> !class.spec_contains(
            s[spec_span(s, from, class)],
        ),
    decreases s.len() - from,
{
    if from < s.len() && class.spec_contains(s[from]) {
        lemma_span_is_longest_run(s, from + 1, class);
    }
}

/// Where the run of characters of `class` that begins at `from` ends.
pub fn span(input: &[char], from: usize, class: CharClass) -> (end: usize)
    ensures
        end == spec_span(input@, from as int, class),
        from <= end,
        from <= input@.len() ==> end <= input@.len(),
{
    let mut end: usize = from;
    while end < input.len() && class.contains(input[end])
        invariant
            from <= end,
            from <= input@.len() ==> end <= input@.len(),
            spec_span(input@, from as int, class) == spec_span(input@, end as int, class),
        decreases input@.len() - end,
    {
        end = end + 1;
    }
    end
}

/// The number that a decimal digit stands for.
pub open spec fn digit_value(c: char) -> nat
    recommends
        is_digit(c),
{
    (c as int - '0' as int) as nat
}

/// The number that a run of decimal digits stands for, the first digit
/// weighing most.
pub open spec fn decimal_value(digits: Seq<char>) -> nat
    decreases digits.len(),
{
    if digits.len() == 0 {
        0
    } else {
        decimal_value(digits.drop_last()) * 10 + digit_value(digits.last())
    }
}

/// Reading one more digit never makes the number smaller.
pub proof fn lemma_decimal_value_grows(s: Seq<char>, from: int, mid: int, to: int)
    requires
        0 <= from <= mid <= to <= s.len(),
    ensures
        decimal_value(s.subrange(from, mid)) <= decimal_value(s.subrange(from, to)),
    decreases to - mid,
{
    if mid < to {
        lemma_decimal_value_grows(s, from, mid, to - 1);
        assert(s.subrange(from, to).drop_last() =~= s.subrange(from, to - 1));
    }
}

/// The number that the digit `c` stands for.
pub(crate) fn char_digit_value(c: char) -> (value: u8)
    requires
        is_digit(c),
    ensures
        value == digit_value(c),
        value <= 9,
{
    (c as u32 - '0' as u32) as u8
}

/// The characters of `text`, in order.
pub fn str_chars(text: &str) -> (chars: Vec<char>)
    ensures
        chars@ == text@,
{
    let mut chars: Vec<char> = Vec::new();
    for c in it: text.chars()
        invariant
            chars@ == it.seq().take(it.index()),
            it.seq() == text@,
    {
        chars.push(c);
    }
    chars
}

/// The text made of `chars`, in order. The body calls `Iterator::collect`,
/// which builds the `String` through its `FromIterator<&char>`. That the
/// string then holds exactly these characters, in this order, is what std
/// documents of it; it is believed here, not proved.
#[verifier::external_body]
pub(crate) fn string_from_chars(chars: &[char]) -> (text: String)
    ensures
        text@ == chars@,
{
    chars.iter().collect()
}

} // verus!
