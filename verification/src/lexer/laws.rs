//! Laws of the tokenizer: what holds of every text.

use crate::lexer::chars::{is_digit, lemma_span_is_longest_run, spec_span, CharClass};
use crate::lexer::token::{SpecToken, Token};
use crate::lexer::{
    ends_with_single_eof, lemma_lex_token_advances, spec_lex_integer, spec_lex_operator,
    spec_lex_punctuations, spec_lex_reserved_ident, spec_lex_string, spec_lex_token,
    spec_lex_tokens, spec_string_body, spec_tokenize, LexError, Lexer, Lexeme, SpecLexError,
};
use vstd::prelude::*;

verus! {

/// No token read from a text is the end marker.
pub proof fn lemma_lex_tokens_hold_no_eof(s: Seq<char>, pos: int)
    ensures
        spec_lex_tokens(s, pos) matches Ok(tokens) ==> forall|i: int|
            0 <= i < tokens.len() ==> tokens[i] != SpecToken::EOF,
    decreases s.len() - pos,
{
    let start = spec_span(s, pos, CharClass::Whitespace);
    lemma_lex_token_advances(s, start);
    if 0 <= pos <= s.len() {
        lemma_span_is_longest_run(s, pos, CharClass::Whitespace);
    }
    if let Ok(Some((len, token))) = spec_lex_token(s, start) {
        lemma_lex_tokens_hold_no_eof(s, start + len);
    }
}

/// The tokens of a text end with the end marker, and it stands nowhere else
/// among them.
pub proof fn lemma_tokenize_ends_with_single_eof(s: Seq<char>)
    ensures
        spec_tokenize(s) matches Ok(tokens) ==> ends_with_single_eof(tokens),
{
    lemma_lex_tokens_hold_no_eof(s, 0);
}

/// Tokenizing is a function of the text: two results that
/// [`Lexer::lex_tokens`] may give for texts of the same characters are both
/// a success or both a failure, and hold the same tokens or the same failure.
pub proof fn lemma_tokenize_deterministic(
    first_input: &str,
    second_input: &str,
    first: Result<(&str, Vec<Token>), LexError>,
    second: Result<(&str, Vec<Token>), LexError>,
)
    requires
        first_input@ == second_input@,
        Lexer::tokenizes(first_input, first),
        Lexer::tokenizes(second_input, second),
    ensures
        first.is_ok() == second.is_ok(),
        first matches Ok((first_rest, first_tokens)) ==> second matches Ok(
            (second_rest, second_tokens),
        ) && first_rest@ == second_rest@ && first_tokens.deep_view() == second_tokens.deep_view(),
        first matches Err(first_error) ==> second matches Err(second_error) && first_error
            == second_error,
{
}

/// Whether the quote that closes a string literal may stand at `at`, where
/// the body of the literal begins at `from`: a quote stands there, and no
/// backslash of the body stands before it.
pub open spec fn closes_string(s: Seq<char>, from: int, at: int) -> bool {
    &&& 0 <= from <= at < s.len()
    &&& s[at] == '"'
    &&& (at == from || s[at - 1] != '\\')
}

/// A string literal ends at the first quote that no backslash stands before,
/// and is unterminated exactly where the text holds no such quote.
pub proof fn lemma_string_ends_at_first_bare_quote(s: Seq<char>, from: int)
    requires
        0 <= from,
    ensures
        match spec_string_body(s, from) {
            Some((len, _)) => closes_string(s, from, from + len) && forall|at: int|
                from <= at < from + len ==> !closes_string(s, from, at),
            None => forall|at: int| !closes_string(s, from, at),
        },
    decreases s.len() - from,
{
    if from < s.len() && s[from] != '"' {
        let next = if s[from] == '\\' && from + 1 < s.len() && s[from + 1] == '"' {
            from + 2
        } else {
            from + 1
        };
        lemma_string_ends_at_first_bare_quote(s, next);
        assert forall|at: int| next <= at implies closes_string(s, from, at) == closes_string(
            s,
            next,
            at,
        ) by {}
        assert forall|at: int| from <= at < next implies !closes_string(s, from, at) by {}
    }
}

/// How many of the matchers for operators, punctuation, string literals,
/// words and integer literals find their token, or fail, at `pos`.
pub open spec fn matchers_that_answer(s: Seq<char>, pos: int) -> nat {
    let operator: nat = if spec_lex_operator(s, pos).is_some() {
        1
    } else {
        0
    };
    let punctuation: nat = if spec_lex_punctuations(s, pos).is_some() {
        1
    } else {
        0
    };
    let string: nat = if spec_lex_string(s, pos) != Ok::<Option<Lexeme>, SpecLexError>(None) {
        1
    } else {
        0
    };
    let word: nat = if spec_lex_reserved_ident(s, pos).is_some() {
        1
    } else {
        0
    };
    let integer: nat = if spec_lex_integer(s, pos) != Ok::<Option<Lexeme>, SpecLexError>(None) {
        1
    } else {
        0
    };
    operator + punctuation + string + word + integer
}

/// The kinds of token are told apart by their first character: at most one
/// of these five matchers answers at a position, so the order in which they
/// are tried decides nothing. Only the matcher that takes any one character
/// has to come last.
pub proof fn lemma_matchers_are_disjoint(s: Seq<char>, pos: int)
    ensures
        matchers_that_answer(s, pos) <= 1,
{
}

/// A word is as long as it can be: the character after it, if there is one,
/// is no letter, no digit and no `_`.
pub proof fn lemma_word_is_longest(s: Seq<char>, pos: int)
    ensures
        spec_lex_reserved_ident(s, pos) matches Some((len, _)) ==> pos + len == s.len()
            || !CharClass::IdentifierPart.spec_contains(s[pos + len]),
{
    if 0 <= pos < s.len() {
        lemma_span_is_longest_run(s, pos + 1, CharClass::IdentifierPart);
    }
}

/// An integer literal is as long as it can be: the character after it, if
/// there is one, is no digit.
pub proof fn lemma_integer_is_longest(s: Seq<char>, pos: int)
    ensures
        spec_lex_integer(s, pos) matches Ok(Some((len, _))) ==> pos + len == s.len()
            || !is_digit(s[pos + len]),
{
    if 0 <= pos < s.len() {
        lemma_span_is_longest_run(s, pos, CharClass::Digit);
    }
}

} // verus!
