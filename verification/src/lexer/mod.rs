//! The tokenizer: from characters to tokens.
//!
//! A matcher looks at the text from one position. Where it finds its kind of
//! token it gives the position after the token and the token. Its model, the
//! spec function of the same name with `spec_` before it, gives the length of
//! the token and the token. Positions count characters from the start of the
//! text.
//!
//! A character that begins no token is no failure: it becomes the token
//! `Illegal`, which no rule of the grammar reads, so that parsing fails at
//! it. A string literal that is not closed and an integer literal too large
//! for `i64` are failures.

pub mod chars;
pub mod laws;
pub mod spelling;
pub mod token;

use crate::lexer::chars::{
    char_digit_value, char_is_identifier_start, decimal_value, is_digit, is_identifier_start,
    lemma_decimal_value_grows, lemma_span_is_longest_run, span, spec_span, str_chars,
    string_from_chars, CharClass,
};
use crate::lexer::laws::lemma_tokenize_ends_with_single_eof;
use crate::lexer::token::{SpecToken, Token};
use vstd::prelude::*;
use vstd::slice::slice_subrange;

verus! {

/// Why text is not a sequence of tokens.
#[derive(Clone, Copy, Debug, PartialEq, Eq)]
pub enum LexErrorKind {
    /// A string literal is opened and the text ends before it is closed.
    UnterminatedString,
    /// An integer literal stands for a number above `i64::MAX`.
    IntegerOverflow,
}

/// A lexical failure: its kind, and the index of the character at which the
/// literal that failed begins.
#[derive(Clone, Copy, Debug, PartialEq, Eq)]
pub struct LexError {
    pub kind: LexErrorKind,
    pub position: usize,
}

/// The mathematical value of a [`LexError`].
pub struct SpecLexError {
    pub kind: LexErrorKind,
    pub position: int,
}

impl View for LexError {
    type V = SpecLexError;

    open spec fn view(&self) -> SpecLexError {
        SpecLexError { kind: self.kind, position: self.position as int }
    }
}

/// A token found at a position: its length in characters, and the token.
pub type Lexeme = (nat, SpecToken);

/// The result `found` of a matcher that cannot fail and read from `pos` says
/// what `model` says.
pub open spec fn agrees(found: Option<(usize, Token)>, pos: usize, model: Option<Lexeme>) -> bool {
    match model {
        Some((len, token)) => found matches Some((next, read)) && next == pos + len && read@
            == token,
        None => found.is_none(),
    }
}

/// The result `found` of a matcher that can fail and read from `pos` says
/// what `model` says.
pub open spec fn agrees_or_fails(
    found: Result<Option<(usize, Token)>, LexError>,
    pos: usize,
    model: Result<Option<Lexeme>, SpecLexError>,
) -> bool {
    match model {
        Ok(lexeme) => found matches Ok(read) && agrees(read, pos, lexeme),
        Err(error) => found matches Err(e) && e@ == error,
    }
}

/// The operator that two characters spell together.
pub open spec fn spec_two_char_operator(first: char, second: char) -> Option<SpecToken> {
    if second != '=' {
        None
    } else if first == '=' {
        Some(SpecToken::Equal)
    } else if first == '!' {
        Some(SpecToken::NotEqual)
    } else if first == '>' {
        Some(SpecToken::GreaterThanEqual)
    } else if first == '<' {
        Some(SpecToken::LessThanEqual)
    } else {
        None
    }
}

/// The operator that one character spells.
pub open spec fn spec_one_char_operator(c: char) -> Option<SpecToken> {
    if c == '=' {
        Some(SpecToken::Assign)
    } else if c == '+' {
        Some(SpecToken::Plus)
    } else if c == '-' {
        Some(SpecToken::Minus)
    } else if c == '*' {
        Some(SpecToken::Multiply)
    } else if c == '/' {
        Some(SpecToken::Divide)
    } else if c == '!' {
        Some(SpecToken::Not)
    } else if c == '>' {
        Some(SpecToken::GreaterThan)
    } else if c == '<' {
        Some(SpecToken::LessThan)
    } else {
        None
    }
}

/// The operator at `pos`: one of two characters where there is one, else one
/// of one character.
pub open spec fn spec_lex_operator(s: Seq<char>, pos: int) -> Option<Lexeme> {
    if 0 <= pos && pos + 1 < s.len() && spec_two_char_operator(s[pos], s[pos + 1]).is_some() {
        Some((2, spec_two_char_operator(s[pos], s[pos + 1]).unwrap()))
    } else if 0 <= pos < s.len() && spec_one_char_operator(s[pos]).is_some() {
        Some((1, spec_one_char_operator(s[pos]).unwrap()))
    } else {
        None
    }
}

fn two_char_operator(first: char, second: char) -> (token: Option<Token>)
    ensures
        token.is_some() == spec_two_char_operator(first, second).is_some(),
        token.is_some() ==> token.unwrap()@ == spec_two_char_operator(first, second).unwrap(),
{
    if second != '=' {
        None
    } else if first == '=' {
        Some(Token::Equal)
    } else if first == '!' {
        Some(Token::NotEqual)
    } else if first == '>' {
        Some(Token::GreaterThanEqual)
    } else if first == '<' {
        Some(Token::LessThanEqual)
    } else {
        None
    }
}

fn one_char_operator(c: char) -> (token: Option<Token>)
    ensures
        token.is_some() == spec_one_char_operator(c).is_some(),
        token.is_some() ==> token.unwrap()@ == spec_one_char_operator(c).unwrap(),
{
    if c == '=' {
        Some(Token::Assign)
    } else if c == '+' {
        Some(Token::Plus)
    } else if c == '-' {
        Some(Token::Minus)
    } else if c == '*' {
        Some(Token::Multiply)
    } else if c == '/' {
        Some(Token::Divide)
    } else if c == '!' {
        Some(Token::Not)
    } else if c == '>' {
        Some(Token::GreaterThan)
    } else if c == '<' {
        Some(Token::LessThan)
    } else {
        None
    }
}

/// Matches an operator at `pos`.
pub fn lex_operator(input: &[char], pos: usize) -> (found: Option<(usize, Token)>)
    ensures
        agrees(found, pos, spec_lex_operator(input@, pos as int)),
{
    if pos >= input.len() {
        return None;
    }
    if input.len() - pos >= 2 {
        if let Some(token) = two_char_operator(input[pos], input[pos + 1]) {
            return Some((pos + 2, token));
        }
    }
    match one_char_operator(input[pos]) {
        Some(token) => Some((pos + 1, token)),
        None => None,
    }
}

/// The punctuation mark that one character spells.
pub open spec fn spec_punctuation(c: char) -> Option<SpecToken> {
    if c == ',' {
        Some(SpecToken::Comma)
    } else if c == ';' {
        Some(SpecToken::SemiColon)
    } else if c == ':' {
        Some(SpecToken::Colon)
    } else if c == '(' {
        Some(SpecToken::LParen)
    } else if c == ')' {
        Some(SpecToken::RParen)
    } else if c == '{' {
        Some(SpecToken::LBrace)
    } else if c == '}' {
        Some(SpecToken::RBrace)
    } else if c == '[' {
        Some(SpecToken::LBracket)
    } else if c == ']' {
        Some(SpecToken::RBracket)
    } else {
        None
    }
}

/// The punctuation mark at `pos`.
pub open spec fn spec_lex_punctuations(s: Seq<char>, pos: int) -> Option<Lexeme> {
    if 0 <= pos < s.len() && spec_punctuation(s[pos]).is_some() {
        Some((1, spec_punctuation(s[pos]).unwrap()))
    } else {
        None
    }
}

/// Matches a punctuation mark at `pos`.
pub fn lex_punctuations(input: &[char], pos: usize) -> (found: Option<(usize, Token)>)
    ensures
        agrees(found, pos, spec_lex_punctuations(input@, pos as int)),
{
    if pos >= input.len() {
        return None;
    }
    let c = input[pos];
    let token = if c == ',' {
        Token::Comma
    } else if c == ';' {
        Token::SemiColon
    } else if c == ':' {
        Token::Colon
    } else if c == '(' {
        Token::LParen
    } else if c == ')' {
        Token::RParen
    } else if c == '{' {
        Token::LBrace
    } else if c == '}' {
        Token::RBrace
    } else if c == '[' {
        Token::LBracket
    } else if c == ']' {
        Token::RBracket
    } else {
        return None;
    };
    Some((pos + 1, token))
}

/// The body of a string literal, read from `from`: the number of characters
/// before the closing quote, and what they stand for. A backslash followed by
/// a quote stands for a quote; every other character stands for itself.
/// `None` where the text ends before a closing quote.
pub open spec fn spec_string_body(s: Seq<char>, from: int) -> Option<(nat, Seq<char>)>
    decreases s.len() - from,
{
    if from < 0 || from >= s.len() {
        None
    } else if s[from] == '"' {
        Some((0, Seq::empty()))
    } else if s[from] == '\\' && from + 1 < s.len() && s[from + 1] == '"' {
        match spec_string_body(s, from + 2) {
            Some((len, content)) => Some((len + 2, seq!['"'] + content)),
            None => None,
        }
    } else {
        match spec_string_body(s, from + 1) {
            Some((len, content)) => Some((len + 1, seq![s[from]] + content)),
            None => None,
        }
    }
}

/// The string literal at `pos`: its length with both quotes, and its content.
pub open spec fn spec_string(s: Seq<char>, pos: int) -> Result<
    Option<(nat, Seq<char>)>,
    SpecLexError,
> {
    if 0 <= pos < s.len() && s[pos] == '"' {
        match spec_string_body(s, pos + 1) {
            Some((len, content)) => Ok(Some((len + 2, content))),
            None => Err(SpecLexError { kind: LexErrorKind::UnterminatedString, position: pos }),
        }
    } else {
        Ok(None)
    }
}

/// The string literal at `pos`, as a token.
pub open spec fn spec_lex_string(s: Seq<char>, pos: int) -> Result<Option<Lexeme>, SpecLexError> {
    match spec_string(s, pos) {
        Ok(Some((len, content))) => Ok(Some((len, SpecToken::StringLiteral(content)))),
        Ok(None) => Ok(None),
        Err(error) => Err(error),
    }
}

/// Matches a string literal at `pos` and gives its content.
pub fn string(input: &[char], pos: usize) -> (found: Result<Option<(usize, String)>, LexError>)
    ensures
        match spec_string(input@, pos as int) {
            Ok(Some((len, content))) => found matches Ok(Some((next, text))) && next == pos + len
                && text@ == content,
            Ok(None) => found matches Ok(None),
            Err(error) => found matches Err(e) && e@ == error,
        },
{
    if pos >= input.len() || input[pos] != '"' {
        return Ok(None);
    }
    let mut content: Vec<char> = Vec::new();
    let mut at: usize = pos + 1;
    loop
        invariant
            pos < at <= input@.len(),
            input@[pos as int] == '"',
            spec_string_body(input@, pos + 1) == (match spec_string_body(input@, at as int) {
                Some((len, rest)) => Some(((len + at - (pos + 1)) as nat, content@ + rest)),
                None => None,
            }),
        decreases input@.len() - at,
    {
        if at >= input.len() {
            return Err(LexError { kind: LexErrorKind::UnterminatedString, position: pos });
        }
        let c = input[at];
        if c == '"' {
            assert(content@ + Seq::<char>::empty() =~= content@);
            let text = string_from_chars(content.as_slice());
            return Ok(Some((at + 1, text)));
        }
        let ghost before = content@;
        if c == '\\' && input.len() - at >= 2 && input[at + 1] == '"' {
            content.push('"');
            at = at + 2;
            assert forall|rest: Seq<char>| before + (seq!['"'] + rest) == content@ + rest by {
                assert(before + (seq!['"'] + rest) =~= content@ + rest);
            }
        } else {
            content.push(c);
            at = at + 1;
            assert forall|rest: Seq<char>| before + (seq![c] + rest) == content@ + rest by {
                assert(before + (seq![c] + rest) =~= content@ + rest);
            }
        }
    }
}

/// Matches a string literal at `pos`.
pub fn lex_string(input: &[char], pos: usize) -> (found: Result<Option<(usize, Token)>, LexError>)
    ensures
        agrees_or_fails(found, pos, spec_lex_string(input@, pos as int)),
{
    match string(input, pos) {
        Ok(Some((next, text))) => Ok(Some((next, Token::StringLiteral(text)))),
        Ok(None) => Ok(None),
        Err(error) => Err(error),
    }
}

/// The token of a reserved word, where `word` is one.
pub open spec fn spec_keyword(word: Seq<char>) -> Option<SpecToken> {
    if word == seq!['l', 'e', 't'] {
        Some(SpecToken::Let)
    } else if word == seq!['f', 'n'] {
        Some(SpecToken::Function)
    } else if word == seq!['i', 'f'] {
        Some(SpecToken::If)
    } else if word == seq!['e', 'l', 's', 'e'] {
        Some(SpecToken::Else)
    } else if word == seq!['r', 'e', 't', 'u', 'r', 'n'] {
        Some(SpecToken::Return)
    } else if word == seq!['t', 'r', 'u', 'e'] {
        Some(SpecToken::BoolLiteral(true))
    } else if word == seq!['f', 'a', 'l', 's', 'e'] {
        Some(SpecToken::BoolLiteral(false))
    } else {
        None
    }
}

/// The word at `pos`: a letter or `_`, then the longest run of letters,
/// digits and `_`. It is a reserved word's token where it spells one, else an
/// identifier.
pub open spec fn spec_lex_reserved_ident(s: Seq<char>, pos: int) -> Option<Lexeme> {
    if 0 <= pos < s.len() && is_identifier_start(s[pos]) {
        let end = spec_span(s, pos + 1, CharClass::IdentifierPart);
        let word = s.subrange(pos, end);
        Some(
            (
                (end - pos) as nat,
                match spec_keyword(word) {
                    Some(token) => token,
                    None => SpecToken::Ident(word),
                },
            ),
        )
    } else {
        None
    }
}

/// The token of a reserved word, where `word` is one.
fn keyword(word: &[char]) -> (token: Option<Token>)
    ensures
        token.is_some() == spec_keyword(word@).is_some(),
        token.is_some() ==> token.unwrap()@ == spec_keyword(word@).unwrap(),
{
    let len = word.len();
    if len == 3 && word[0] == 'l' && word[1] == 'e' && word[2] == 't' {
        assert(word@ =~= seq!['l', 'e', 't']);
        Some(Token::Let)
    } else if len == 2 && word[0] == 'f' && word[1] == 'n' {
        assert(word@ =~= seq!['f', 'n']);
        Some(Token::Function)
    } else if len == 2 && word[0] == 'i' && word[1] == 'f' {
        assert(word@ =~= seq!['i', 'f']);
        Some(Token::If)
    } else if len == 4 && word[0] == 'e' && word[1] == 'l' && word[2] == 's' && word[3] == 'e' {
        assert(word@ =~= seq!['e', 'l', 's', 'e']);
        Some(Token::Else)
    } else if len == 6 && word[0] == 'r' && word[1] == 'e' && word[2] == 't' && word[3] == 'u'
        && word[4] == 'r' && word[5] == 'n' {
        assert(word@ =~= seq!['r', 'e', 't', 'u', 'r', 'n']);
        Some(Token::Return)
    } else if len == 4 && word[0] == 't' && word[1] == 'r' && word[2] == 'u' && word[3] == 'e' {
        assert(word@ =~= seq!['t', 'r', 'u', 'e']);
        Some(Token::BoolLiteral(true))
    } else if len == 5 && word[0] == 'f' && word[1] == 'a' && word[2] == 'l' && word[3] == 's'
        && word[4] == 'e' {
        assert(word@ =~= seq!['f', 'a', 'l', 's', 'e']);
        Some(Token::BoolLiteral(false))
    } else {
        None
    }
}

/// Matches a reserved word or an identifier at `pos`.
pub fn lex_reserved_ident(input: &[char], pos: usize) -> (found: Option<(usize, Token)>)
    ensures
        agrees(found, pos, spec_lex_reserved_ident(input@, pos as int)),
{
    if pos >= input.len() || !char_is_identifier_start(input[pos]) {
        return None;
    }
    let end = span(input, pos + 1, CharClass::IdentifierPart);
    let word = slice_subrange(input, pos, end);
    let token = match keyword(word) {
        Some(token) => token,
        None => Token::Ident(string_from_chars(word)),
    };
    Some((end, token))
}

/// The integer literal at `pos`: the longest run of decimal digits, read as a
/// number. A number above `i64::MAX` is a failure.
pub open spec fn spec_lex_integer(s: Seq<char>, pos: int) -> Result<Option<Lexeme>, SpecLexError> {
    if 0 <= pos < s.len() && is_digit(s[pos]) {
        let end = spec_span(s, pos, CharClass::Digit);
        let value = decimal_value(s.subrange(pos, end));
        if value <= i64::MAX {
            Ok(Some(((end - pos) as nat, SpecToken::IntLiteral(value as i64))))
        } else {
            Err(SpecLexError { kind: LexErrorKind::IntegerOverflow, position: pos })
        }
    } else {
        Ok(None)
    }
}

/// Matches an integer literal at `pos`.
pub fn lex_integer(input: &[char], pos: usize) -> (found: Result<Option<(usize, Token)>, LexError>)
    ensures
        agrees_or_fails(found, pos, spec_lex_integer(input@, pos as int)),
{
    if pos >= input.len() || !CharClass::Digit.contains(input[pos]) {
        return Ok(None);
    }
    let end = span(input, pos, CharClass::Digit);
    proof {
        lemma_span_is_longest_run(input@, pos as int, CharClass::Digit);
    }
    let mut value: i64 = 0;
    let mut at: usize = pos;
    while at < end
        invariant
            pos <= at <= end <= input@.len(),
            pos < input@.len(),
            end == spec_span(input@, pos as int, CharClass::Digit),
            forall|i: int| pos <= i < end ==> is_digit(#[trigger] input@[i]),
            0 <= value,
            value == decimal_value(input@.subrange(pos as int, at as int)),
        decreases end - at,
    {
        let digit: i64 = char_digit_value(input[at]) as i64;
        proof {
            assert(input@.subrange(pos as int, at + 1).drop_last() =~= input@.subrange(
                pos as int,
                at as int,
            ));
            lemma_decimal_value_grows(input@, pos as int, at + 1, end as int);
        }
        if value > (i64::MAX - digit) / 10 {
            return Err(LexError { kind: LexErrorKind::IntegerOverflow, position: pos });
        }
        value = value * 10 + digit;
        at = at + 1;
    }
    Ok(Some((end, Token::IntLiteral(value))))
}

/// A character that begins no token is a token of its own.
pub open spec fn spec_lex_illegal(s: Seq<char>, pos: int) -> Option<Lexeme> {
    if 0 <= pos < s.len() {
        Some((1, SpecToken::Illegal))
    } else {
        None
    }
}

/// Matches any one character at `pos`.
pub fn lex_illegal(input: &[char], pos: usize) -> (found: Option<(usize, Token)>)
    ensures
        agrees(found, pos, spec_lex_illegal(input@, pos as int)),
{
    if pos < input.len() {
        Some((pos + 1, Token::Illegal))
    } else {
        None
    }
}

/// The token at `pos`: what the first of the matchers that finds one gives,
/// tried in this order: operator, punctuation, string literal, reserved word
/// or identifier, integer literal, any one character. `Ok(None)` where no
/// character is left.
pub open spec fn spec_lex_token(s: Seq<char>, pos: int) -> Result<Option<Lexeme>, SpecLexError> {
    if spec_lex_operator(s, pos).is_some() {
        Ok(spec_lex_operator(s, pos))
    } else if spec_lex_punctuations(s, pos).is_some() {
        Ok(spec_lex_punctuations(s, pos))
    } else if spec_lex_string(s, pos) != Ok::<Option<Lexeme>, SpecLexError>(None) {
        spec_lex_string(s, pos)
    } else if spec_lex_reserved_ident(s, pos).is_some() {
        Ok(spec_lex_reserved_ident(s, pos))
    } else if spec_lex_integer(s, pos) != Ok::<Option<Lexeme>, SpecLexError>(None) {
        spec_lex_integer(s, pos)
    } else {
        Ok(spec_lex_illegal(s, pos))
    }
}

/// The body of a string literal lies inside the text, closing quote included.
pub proof fn lemma_string_body_in_bounds(s: Seq<char>, from: int)
    requires
        0 <= from,
    ensures
        spec_string_body(s, from).is_some() ==> from + spec_string_body(s, from).unwrap().0
            < s.len(),
    decreases s.len() - from,
{
    if from < s.len() && s[from] != '"' {
        if s[from] == '\\' && from + 1 < s.len() && s[from + 1] == '"' {
            lemma_string_body_in_bounds(s, from + 2);
        } else {
            lemma_string_body_in_bounds(s, from + 1);
        }
    }
}

/// Every token holds at least one character, lies inside the text, and is
/// not the end marker. Where a character is left at `pos`, a token or a
/// failure is found there.
pub proof fn lemma_lex_token_advances(s: Seq<char>, pos: int)
    ensures
        spec_lex_token(s, pos) == Ok::<Option<Lexeme>, SpecLexError>(None) <==> !(0 <= pos
            < s.len()),
        match spec_lex_token(s, pos) {
            Ok(Some((len, token))) => 1 <= len && pos + len <= s.len() && token
                != SpecToken::EOF,
            _ => true,
        },
{
    if 0 <= pos < s.len() {
        lemma_string_body_in_bounds(s, pos + 1);
        lemma_span_is_longest_run(s, pos + 1, CharClass::IdentifierPart);
        lemma_span_is_longest_run(s, pos, CharClass::Digit);
    }
}

/// The tokens of the text from `pos` on: whitespace is passed over, then one
/// token after another is read until no character is left or one fails.
pub open spec fn spec_lex_tokens(s: Seq<char>, pos: int) -> Result<Seq<SpecToken>, SpecLexError>
    decreases s.len() - pos,
{
    let start = spec_span(s, pos, CharClass::Whitespace);
    match spec_lex_token(s, start) {
        Ok(Some((len, token))) => {
            proof {
                lemma_lex_token_advances(s, start);
                if 0 <= pos <= s.len() {
                    lemma_span_is_longest_run(s, pos, CharClass::Whitespace);
                }
            }
            match spec_lex_tokens(s, start + len) {
                Ok(rest) => Ok(seq![token] + rest),
                Err(error) => Err(error),
            }
        },
        Ok(None) => Ok(Seq::empty()),
        Err(error) => Err(error),
    }
}

/// The tokens of a whole text, closed by the end marker.
pub open spec fn spec_tokenize(s: Seq<char>) -> Result<Seq<SpecToken>, SpecLexError> {
    match spec_lex_tokens(s, 0) {
        Ok(tokens) => Ok(tokens.push(SpecToken::EOF)),
        Err(error) => Err(error),
    }
}

/// Matches one token at `pos`.
pub fn lex_token(input: &[char], pos: usize) -> (found: Result<Option<(usize, Token)>, LexError>)
    ensures
        agrees_or_fails(found, pos, spec_lex_token(input@, pos as int)),
        found matches Ok(Some((next, _))) ==> pos < next <= input@.len(),
        found matches Ok(None) <==> pos >= input@.len(),
{
    proof {
        lemma_lex_token_advances(input@, pos as int);
    }
    if let Some(found) = lex_operator(input, pos) {
        return Ok(Some(found));
    }
    if let Some(found) = lex_punctuations(input, pos) {
        return Ok(Some(found));
    }
    match lex_string(input, pos) {
        Ok(None) => {},
        found => {
            return found;
        },
    }
    if let Some(found) = lex_reserved_ident(input, pos) {
        return Ok(Some(found));
    }
    match lex_integer(input, pos) {
        Ok(None) => {},
        found => {
            return found;
        },
    }
    Ok(lex_illegal(input, pos))
}

/// Reads the tokens of `input` from `pos` on, without the end marker.
pub fn lex_tokens(input: &[char], pos: usize) -> (found: Result<Vec<Token>, LexError>)
    ensures
        match spec_lex_tokens(input@, pos as int) {
            Ok(tokens) => found matches Ok(read) && read.deep_view() == tokens,
            Err(error) => found matches Err(e) && e@ == error,
        },
{
    let mut tokens: Vec<Token> = Vec::new();
    let mut at: usize = pos;
    loop
        invariant
            spec_lex_tokens(input@, pos as int) == (match spec_lex_tokens(input@, at as int) {
                Ok(rest) => Ok(tokens.deep_view() + rest),
                Err(error) => Err(error),
            }),
        decreases input@.len() - at,
    {
        let start = span(input, at, CharClass::Whitespace);
        match lex_token(input, start) {
            Ok(Some((next, token))) => {
                let ghost before = tokens.deep_view();
                tokens.push(token);
                at = next;
                assert forall|rest: Seq<SpecToken>|
                    before + (seq![token@] + rest) == tokens.deep_view() + rest by {
                    assert(before + (seq![token@] + rest) =~= tokens.deep_view() + rest);
                }
            },
            Ok(None) => {
                assert(tokens.deep_view() + Seq::<SpecToken>::empty() =~= tokens.deep_view());
                return Ok(tokens);
            },
            Err(error) => {
                return Err(error);
            },
        }
    }
}

/// A token sequence ends with the end marker and holds it nowhere else.
pub open spec fn ends_with_single_eof(tokens: Seq<SpecToken>) -> bool {
    &&& tokens.len() >= 1
    &&& tokens.last() == SpecToken::EOF
    &&& forall|i: int| 0 <= i < tokens.len() - 1 ==> tokens[i] != SpecToken::EOF
}

/// The tokenizer.
pub struct Lexer;

impl Lexer {
    /// `found` is what tokenizing `input` gives: the tokens that
    /// [`spec_tokenize`] reads, with an empty rest, or its failure.
    pub open spec fn tokenizes(input: &str, found: Result<(&str, Vec<Token>), LexError>) -> bool {
        match spec_tokenize(input@) {
            Ok(tokens) => found matches Ok((rest, read)) && rest@ == Seq::<char>::empty()
                && read.deep_view() == tokens,
            Err(error) => found matches Err(e) && e@ == error,
        }
    }

    /// Turns a text into its tokens, closed by the end marker. With them
    /// comes the text that was not read, which is empty: a character that
    /// begins no token is a token of its own, so reading stops only at the
    /// end of the text or at a failure. The result depends on the text alone.
    pub fn lex_tokens(input: &str) -> (found: Result<(&str, Vec<Token>), LexError>)
        ensures
            Self::tokenizes(input, found),
            found matches Ok((_, read)) ==> ends_with_single_eof(read.deep_view()),
    {
        let chars = str_chars(input);
        proof {
            lemma_tokenize_ends_with_single_eof(input@);
        }
        match lex_tokens(chars.as_slice(), 0) {
            Ok(tokens) => {
                let mut tokens = tokens;
                let ghost before = tokens.deep_view();
                tokens.push(Token::EOF);
                assert(tokens.deep_view() =~= before.push(SpecToken::EOF));
                proof {
                    reveal_strlit("");
                }
                let rest: &str = "";
                assert(rest@ =~= Seq::<char>::empty());
                Ok((rest, tokens))
            },
            Err(error) => Err(error),
        }
    }
}

} // verus!
