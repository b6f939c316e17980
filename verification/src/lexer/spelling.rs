//! How tokens are spelled, and the proof that the tokenizer reads every
//! token back from its spelling.

use crate::lexer::chars::{
    decimal_value, digit_value, is_digit, is_identifier_start, is_whitespace, spec_span,
    CharClass,
};
use crate::lexer::token::SpecToken;
use crate::lexer::{
    lemma_lex_token_advances, spec_keyword, spec_lex_integer, spec_lex_reserved_ident,
    spec_lex_token, spec_lex_tokens, spec_string_body, spec_tokenize, Lexeme, SpecLexError,
};
use vstd::prelude::*;

verus! {

/// The characters `word` stand in `s` from `pos` on.
pub open spec fn stands_at(s: Seq<char>, pos: int, word: Seq<char>) -> bool {
    &&& 0 <= pos
    &&& pos + word.len() <= s.len()
    &&& forall|i: int| 0 <= i < word.len() ==> s[pos + i] == #[trigger] word[i]
}

/// A run of a class that is bounded on both sides is the longest one: where
/// every character from `from` up to `to` is in the class and the character
/// at `to`, if there is one, is not, the run that begins at `from` ends at
/// `to`.
pub proof fn lemma_span_ends_where_class_ends(s: Seq<char>, from: int, to: int, class: CharClass)
    requires
        0 <= from <= to <= s.len(),
        forall|i: int| from <= i < to ==> class.spec_contains(#[trigger] s[i]),
        to == s.len() || !class.spec_contains(s[to]),
    ensures
        spec_span(s, from, class) == to,
    decreases to - from,
{
    if from < to {
        lemma_span_ends_where_class_ends(s, from + 1, to, class);
    }
}

/// The decimal digit that stands for a number below ten.
pub open spec fn digit_char(d: nat) -> char
    recommends
        d < 10,
{
    ('0' as nat + d) as char
}

/// The decimal digits of a number, without leading zeros.
pub open spec fn digits(n: nat) -> Seq<char>
    decreases n,
{
    if n < 10 {
        seq![digit_char(n)]
    } else {
        digits(n / 10).push(digit_char(n % 10))
    }
}

/// The decimal digits of a number are digits, and stand for the number.
pub proof fn lemma_digits_stand_for_their_number(n: nat)
    ensures
        digits(n).len() >= 1,
        forall|i: int| 0 <= i < digits(n).len() ==> is_digit(#[trigger] digits(n)[i]),
        decimal_value(digits(n)) == n,
    decreases n,
{
    if n < 10 {
        assert(is_digit(digit_char(n)) && digit_value(digit_char(n)) == n);
        assert(digits(n).drop_last() =~= Seq::<char>::empty());
        assert(decimal_value(digits(n).drop_last()) == 0);
    } else {
        lemma_digits_stand_for_their_number(n / 10);
        let last = digit_char(n % 10);
        assert(is_digit(last) && digit_value(last) == n % 10);
        assert(digits(n).drop_last() =~= digits(n / 10));
        assert(digits(n).last() == last);
    }
}


/// The characters that spell `content` inside a string literal: a backslash
/// is put before every quote.
pub open spec fn escaped(content: Seq<char>) -> Seq<char>
    decreases content.len(),
{
    if content.len() == 0 {
        Seq::empty()
    } else if content.first() == '"' {
        seq!['\\', '"'] + escaped(content.drop_first())
    } else {
        seq![content.first()] + escaped(content.drop_first())
    }
}

/// Whether `content` can stand in a string literal: it does not end with a
/// backslash, which would be read together with the closing quote.
pub open spec fn closable(content: Seq<char>) -> bool {
    content.len() == 0 || content.last() != '\\'
}

/// The body of a string literal is read back from its spelling: where the
/// spelling of `content` stands at `from` and a quote follows it, the body
/// read at `from` is `content`.
pub proof fn lemma_string_body_reads_escaped(s: Seq<char>, from: int, content: Seq<char>)
    requires
        closable(content),
        stands_at(s, from, escaped(content).push('"')),
    ensures
        spec_string_body(s, from) == Some((escaped(content).len(), content)),
    decreases content.len(),
{
    let word = escaped(content).push('"');
    if content.len() == 0 {
        assert(s[from + 0] == word[0]);
    } else {
        let rest = content.drop_first();
        let tail = escaped(rest).push('"');
        let step: int = if content.first() == '"' {
            2
        } else {
            1
        };
        assert(closable(rest)) by {
            if rest.len() > 0 {
                assert(rest.last() == content.last());
            }
        }
        assert(s[from + 0] == word[0]);
        assert(s[from + 1] == word[1]);
        assert forall|i: int| 0 <= i < tail.len() implies s[from + step + i]
            == #[trigger] tail[i] by {
            assert(s[from + (step + i)] == word[step + i]);
        }
        lemma_string_body_reads_escaped(s, from + step, rest);
        assert(tail[0] != '"' || rest.len() == 0);
        if content.first() == '\\' {
            assert(rest.len() > 0) by {
                if rest.len() == 0 {
                    assert(content.last() == content.first());
                }
            }
            assert(s[from + 1] != '"');
        }
        assert(seq![content.first()] + rest =~= content);
    }
}


/// Whether `name` has the shape of an identifier: a letter or `_`, then
/// letters, digits and `_`.
pub open spec fn is_identifier(name: Seq<char>) -> bool {
    &&& name.len() >= 1
    &&& is_identifier_start(name[0])
    &&& forall|i: int|
        1 <= i < name.len() ==> CharClass::IdentifierPart.spec_contains(#[trigger] name[i])
}

/// The text that spells a token. The end marker and the illegal token are
/// spelled by no text of their own; neither are an identifier that has not
/// the shape of one or is a reserved word, a string that ends with a
/// backslash, and a negative integer.
pub open spec fn spelling(token: SpecToken) -> Option<Seq<char>> {
    match token {
        SpecToken::Illegal => None,
        SpecToken::EOF => None,
        SpecToken::Ident(name) => if is_identifier(name) && spec_keyword(name).is_none() {
            Some(name)
        } else {
            None
        },
        SpecToken::StringLiteral(content) => if closable(content) {
            Some(seq!['"'] + escaped(content).push('"'))
        } else {
            None
        },
        SpecToken::IntLiteral(value) => if value >= 0 {
            Some(digits(value as nat))
        } else {
            None
        },
        SpecToken::BoolLiteral(true) => Some(seq!['t', 'r', 'u', 'e']),
        SpecToken::BoolLiteral(false) => Some(seq!['f', 'a', 'l', 's', 'e']),
        SpecToken::Assign => Some(seq!['=']),
        SpecToken::Plus => Some(seq!['+']),
        SpecToken::Minus => Some(seq!['-']),
        SpecToken::Multiply => Some(seq!['*']),
        SpecToken::Divide => Some(seq!['/']),
        SpecToken::Not => Some(seq!['!']),
        SpecToken::Equal => Some(seq!['=', '=']),
        SpecToken::NotEqual => Some(seq!['!', '=']),
        SpecToken::GreaterThanEqual => Some(seq!['>', '=']),
        SpecToken::LessThanEqual => Some(seq!['<', '=']),
        SpecToken::GreaterThan => Some(seq!['>']),
        SpecToken::LessThan => Some(seq!['<']),
        SpecToken::Function => Some(seq!['f', 'n']),
        SpecToken::Let => Some(seq!['l', 'e', 't']),
        SpecToken::If => Some(seq!['i', 'f']),
        SpecToken::Else => Some(seq!['e', 'l', 's', 'e']),
        SpecToken::Return => Some(seq!['r', 'e', 't', 'u', 'r', 'n']),
        SpecToken::Comma => Some(seq![',']),
        SpecToken::Colon => Some(seq![':']),
        SpecToken::SemiColon => Some(seq![';']),
        SpecToken::LParen => Some(seq!['(']),
        SpecToken::RParen => Some(seq![')']),
        SpecToken::LBrace => Some(seq!['{']),
        SpecToken::RBrace => Some(seq!['}']),
        SpecToken::LBracket => Some(seq!['[']),
        SpecToken::RBracket => Some(seq![']']),
    }
}

/// Whether a token can end before `at`: the text ends there, or whitespace
/// stands there.
pub open spec fn breaks_at(s: Seq<char>, at: int) -> bool {
    at == s.len() || (0 <= at < s.len() && is_whitespace(s[at]))
}

/// A word is read as a whole: where a text of the shape of an identifier
/// stands at `pos` and a token can end after it, the word read at `pos` is
/// that text, as a reserved word's token or as an identifier.
pub proof fn lemma_word_is_read_whole(s: Seq<char>, pos: int, name: Seq<char>)
    requires
        is_identifier(name),
        stands_at(s, pos, name),
        breaks_at(s, pos + name.len()),
    ensures
        spec_lex_reserved_ident(s, pos) == Some(
            (
                name.len(),
                match spec_keyword(name) {
                    Some(token) => token,
                    None => SpecToken::Ident(name),
                },
            ),
        ),
{
    let end = pos + name.len();
    assert(s[pos + 0] == name[0]);
    assert forall|i: int| pos + 1 <= i < end implies CharClass::IdentifierPart.spec_contains(
        #[trigger] s[i],
    ) by {
        assert(s[pos + (i - pos)] == name[i - pos]);
    }
    lemma_span_ends_where_class_ends(s, pos + 1, end, CharClass::IdentifierPart);
    assert(s.subrange(pos, end) =~= name) by {
        assert forall|i: int| 0 <= i < name.len() implies s.subrange(pos, end)[i] == name[i] by {
            assert(s[pos + i] == name[i]);
        }
    }
}

/// An integer literal is read back from its digits: where the digits of a
/// number that fits `i64` stand at `pos` and a token can end after them,
/// the integer read at `pos` is that number.
pub proof fn lemma_integer_is_read_whole(s: Seq<char>, pos: int, value: i64)
    requires
        value >= 0,
        stands_at(s, pos, digits(value as nat)),
        breaks_at(s, pos + digits(value as nat).len()),
    ensures
        spec_lex_integer(s, pos) == Ok::<Option<Lexeme>, SpecLexError>(
            Some((digits(value as nat).len(), SpecToken::IntLiteral(value))),
        ),
{
    let word = digits(value as nat);
    let end = pos + word.len();
    lemma_digits_stand_for_their_number(value as nat);
    assert(s[pos + 0] == word[0]);
    assert forall|i: int| pos <= i < end implies CharClass::Digit.spec_contains(
        #[trigger] s[i],
    ) by {
        assert(s[pos + (i - pos)] == word[i - pos]);
    }
    lemma_span_ends_where_class_ends(s, pos, end, CharClass::Digit);
    assert(s.subrange(pos, end) =~= word) by {
        assert forall|i: int| 0 <= i < word.len() implies s.subrange(pos, end)[i] == word[i] by {
            assert(s[pos + i] == word[i]);
        }
    }
}


/// The reserved words have the shape of identifiers.
pub proof fn lemma_reserved_words_are_words(word: Seq<char>)
    requires
        spec_keyword(word).is_some(),
    ensures
        is_identifier(word),
{
}

/// Every token is read back from its spelling: where the spelling of a token
/// stands at `pos` and a token can end after it, the token read at `pos` is
/// that token, and it is as long as its spelling.
pub proof fn lemma_token_is_read_from_its_spelling(s: Seq<char>, pos: int, token: SpecToken)
    requires
        spelling(token).is_some(),
        stands_at(s, pos, spelling(token).unwrap()),
        breaks_at(s, pos + spelling(token).unwrap().len()),
    ensures
        spec_lex_token(s, pos) == Ok::<Option<Lexeme>, SpecLexError>(
            Some((spelling(token).unwrap().len(), token)),
        ),
{
    let word = spelling(token).unwrap();
    assert(word.len() >= 1) by {
        if token is IntLiteral {
            lemma_digits_stand_for_their_number(token->IntLiteral_0 as nat);
        }
    }
    assert(s[pos + 0] == word[0]);
    match token {
        SpecToken::Ident(name) => {
            lemma_word_is_read_whole(s, pos, name);
        },
        SpecToken::StringLiteral(content) => {
            let body = escaped(content).push('"');
            assert forall|i: int| 0 <= i < body.len() implies s[pos + 1 + i]
                == #[trigger] body[i] by {
                assert(s[pos + (1 + i)] == word[1 + i]);
            }
            lemma_string_body_reads_escaped(s, pos + 1, content);
        },
        SpecToken::IntLiteral(value) => {
            lemma_digits_stand_for_their_number(value as nat);
            assert(is_digit(word[0]));
            lemma_integer_is_read_whole(s, pos, value);
        },
        SpecToken::BoolLiteral(_)
        | SpecToken::Function
        | SpecToken::Let
        | SpecToken::If
        | SpecToken::Else
        | SpecToken::Return => {
            assert(spec_keyword(word) == Some(token));
            lemma_reserved_words_are_words(word);
            lemma_word_is_read_whole(s, pos, word);
        },
        SpecToken::Equal
        | SpecToken::NotEqual
        | SpecToken::GreaterThanEqual
        | SpecToken::LessThanEqual => {
            assert(s[pos + 1] == word[1]);
        },
        _ => {},
    }
}


/// Whether every token of a sequence is spelled by a text.
pub open spec fn all_spelled(tokens: Seq<SpecToken>) -> bool {
    forall|i: int| 0 <= i < tokens.len() ==> spelling(#[trigger] tokens[i]).is_some()
}

/// The text that spells a sequence of tokens: the spelling of each token, and
/// a space after it.
pub open spec fn written(tokens: Seq<SpecToken>) -> Seq<char>
    decreases tokens.len(),
{
    if tokens.len() == 0 {
        Seq::empty()
    } else {
        spelling(tokens.first()).unwrap() + seq![' '] + written(tokens.drop_first())
    }
}

/// A spelling holds at least one character, and does not begin with
/// whitespace.
pub proof fn lemma_spelling_begins_with_no_whitespace(token: SpecToken)
    requires
        spelling(token).is_some(),
    ensures
        spelling(token).unwrap().len() >= 1,
        !is_whitespace(spelling(token).unwrap()[0]),
{
    if token is IntLiteral {
        lemma_digits_stand_for_their_number(token->IntLiteral_0 as nat);
    }
}

/// The tokens of a written text are read back from it: where the text that
/// spells `tokens` stands at `pos` and ends `s`, the tokens read from `pos`
/// on are `tokens`.
pub proof fn lemma_tokens_are_read_from_written(s: Seq<char>, pos: int, tokens: Seq<SpecToken>)
    requires
        all_spelled(tokens),
        stands_at(s, pos, written(tokens)),
        pos + written(tokens).len() == s.len(),
    ensures
        spec_lex_tokens(s, pos) == Ok::<Seq<SpecToken>, SpecLexError>(tokens),
    decreases tokens.len(),
{
    if tokens.len() == 0 {
        lemma_lex_token_advances(s, pos);
        assert(tokens =~= Seq::<SpecToken>::empty());
    } else {
        let first = tokens.first();
        let rest = tokens.drop_first();
        let word = spelling(first).unwrap();
        let text = written(tokens);
        let after = pos + word.len();
        assert(spelling(tokens[0]).is_some());
        lemma_spelling_begins_with_no_whitespace(first);
        assert forall|i: int| 0 <= i < word.len() implies s[pos + i] == #[trigger] word[i] by {
            assert(s[pos + i] == text[i]);
        }
        assert(s[after] == ' ') by {
            assert(s[pos + word.len()] == text[word.len() as int]);
        }
        assert forall|i: int| 0 <= i < written(rest).len() implies s[after + 1 + i]
            == #[trigger] written(rest)[i] by {
            assert(s[pos + (word.len() + 1 + i)] == text[word.len() + 1 + i]);
        }
        assert(all_spelled(rest)) by {
            assert forall|i: int| 0 <= i < rest.len() implies spelling(
                #[trigger] rest[i],
            ).is_some() by {
                assert(rest[i] == tokens[i + 1]);
            }
        }
        assert(spec_span(s, pos, CharClass::Whitespace) == pos);
        lemma_token_is_read_from_its_spelling(s, pos, first);
        lemma_tokens_are_read_from_written(s, after + 1, rest);
        assert(spec_span(s, after, CharClass::Whitespace) == spec_span(
            s,
            after + 1,
            CharClass::Whitespace,
        ));
        assert(spec_lex_tokens(s, after) == spec_lex_tokens(s, after + 1));
        assert(seq![first] + rest =~= tokens);
    }
}

/// Tokenizing reads every token back from its spelling: the tokens of the
/// text that spells a sequence of tokens are that sequence, closed by the
/// end marker.
pub proof fn lemma_tokenize_reads_written(tokens: Seq<SpecToken>)
    requires
        all_spelled(tokens),
    ensures
        spec_tokenize(written(tokens)) == Ok::<Seq<SpecToken>, SpecLexError>(
            tokens.push(SpecToken::EOF),
        ),
{
    lemma_tokens_are_read_from_written(written(tokens), 0, tokens);
}

} // verus!
