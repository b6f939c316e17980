//! Tokens, and a read-only cursor over a finished token buffer.

use vstd::prelude::*;

verus! {

/// A lexical unit of the source text.
#[derive(Debug, PartialEq)]
pub enum Token {
    Illegal,
    EOF,
    // identifiers and literals
    Ident(String),
    StringLiteral(String),
    IntLiteral(i64),
    BoolLiteral(bool),
    // operators
    Assign,
    Plus,
    Minus,
    Multiply,
    Divide,
    Not,
    Equal,
    NotEqual,
    GreaterThanEqual,
    LessThanEqual,
    GreaterThan,
    LessThan,
    // reserved words
    Function,
    Let,
    If,
    Else,
    Return,
    // punctuation
    Comma,
    Colon,
    SemiColon,
    LParen,
    RParen,
    LBrace,
    RBrace,
    LBracket,
    RBracket,
}

/// The mathematical value of a [`Token`]: text is a sequence of characters.
pub enum SpecToken {
    Illegal,
    EOF,
    Ident(Seq<char>),
    StringLiteral(Seq<char>),
    IntLiteral(i64),
    BoolLiteral(bool),
    Assign,
    Plus,
    Minus,
    Multiply,
    Divide,
    Not,
    Equal,
    NotEqual,
    GreaterThanEqual,
    LessThanEqual,
    GreaterThan,
    LessThan,
    Function,
    Let,
    If,
    Else,
    Return,
    Comma,
    Colon,
    SemiColon,
    LParen,
    RParen,
    LBrace,
    RBrace,
    LBracket,
    RBracket,
}

impl View for Token {
    type V = SpecToken;

    open spec fn view(&self) -> SpecToken {
        match self {
            Token::Illegal => SpecToken::Illegal,
            Token::EOF => SpecToken::EOF,
            Token::Ident(name) => SpecToken::Ident(name@),
            Token::StringLiteral(text) => SpecToken::StringLiteral(text@),
            Token::IntLiteral(value) => SpecToken::IntLiteral(*value),
            Token::BoolLiteral(value) => SpecToken::BoolLiteral(*value),
            Token::Assign => SpecToken::Assign,
            Token::Plus => SpecToken::Plus,
            Token::Minus => SpecToken::Minus,
            Token::Multiply => SpecToken::Multiply,
            Token::Divide => SpecToken::Divide,
            Token::Not => SpecToken::Not,
            Token::Equal => SpecToken::Equal,
            Token::NotEqual => SpecToken::NotEqual,
            Token::GreaterThanEqual => SpecToken::GreaterThanEqual,
            Token::LessThanEqual => SpecToken::LessThanEqual,
            Token::GreaterThan => SpecToken::GreaterThan,
            Token::LessThan => SpecToken::LessThan,
            Token::Function => SpecToken::Function,
            Token::Let => SpecToken::Let,
            Token::If => SpecToken::If,
            Token::Else => SpecToken::Else,
            Token::Return => SpecToken::Return,
            Token::Comma => SpecToken::Comma,
            Token::Colon => SpecToken::Colon,
            Token::SemiColon => SpecToken::SemiColon,
            Token::LParen => SpecToken::LParen,
            Token::RParen => SpecToken::RParen,
            Token::LBrace => SpecToken::LBrace,
            Token::RBrace => SpecToken::RBrace,
            Token::LBracket => SpecToken::LBracket,
            Token::RBracket => SpecToken::RBracket,
        }
    }
}

impl DeepView for Token {
    type V = SpecToken;

    open spec fn deep_view(&self) -> SpecToken {
        self@
    }
}

impl Clone for Token {
    fn clone(&self) -> (copy: Token)
        ensures
            copy@ == self@,
    {
        match self {
            Token::Illegal => Token::Illegal,
            Token::EOF => Token::EOF,
            Token::Ident(name) => Token::Ident(name.clone()),
            Token::StringLiteral(text) => Token::StringLiteral(text.clone()),
            Token::IntLiteral(value) => Token::IntLiteral(*value),
            Token::BoolLiteral(value) => Token::BoolLiteral(*value),
            Token::Assign => Token::Assign,
            Token::Plus => Token::Plus,
            Token::Minus => Token::Minus,
            Token::Multiply => Token::Multiply,
            Token::Divide => Token::Divide,
            Token::Not => Token::Not,
            Token::Equal => Token::Equal,
            Token::NotEqual => Token::NotEqual,
            Token::GreaterThanEqual => Token::GreaterThanEqual,
            Token::LessThanEqual => Token::LessThanEqual,
            Token::GreaterThan => Token::GreaterThan,
            Token::LessThan => Token::LessThan,
            Token::Function => Token::Function,
            Token::Let => Token::Let,
            Token::If => Token::If,
            Token::Else => Token::Else,
            Token::Return => Token::Return,
            Token::Comma => Token::Comma,
            Token::Colon => Token::Colon,
            Token::SemiColon => Token::SemiColon,
            Token::LParen => Token::LParen,
            Token::RParen => Token::RParen,
            Token::LBrace => Token::LBrace,
            Token::RBrace => Token::RBrace,
            Token::LBracket => Token::LBracket,
            Token::RBracket => Token::RBracket,
        }
    }
}

/// The signal that a stream holds fewer tokens than were asked for.
#[derive(Clone, Copy, Debug, PartialEq, Eq)]
pub struct Needed {
    /// How many tokens are missing.
    pub missing: usize,
}

/// A read-only cursor over a token buffer that it does not own. It is the
/// window `start..end` of the buffer, and its value is the sequence of the
/// tokens in the window: those still to be read. A cursor never changes;
/// reading on gives a new cursor over the same buffer.
#[derive(Clone, Copy, Debug, PartialEq)]
pub struct Tokens<'a> {
    tokens: &'a [Token],
    start: usize,
    end: usize,
}

impl<'a> View for Tokens<'a> {
    type V = Seq<SpecToken>;

    /// The tokens still to be read.
    closed spec fn view(&self) -> Seq<SpecToken> {
        self.tokens.deep_view().subrange(self.start as int, self.end as int)
    }
}

impl<'a> Tokens<'a> {
    /// The window lies inside the buffer.
    #[verifier::type_invariant]
    spec fn wf(self) -> bool {
        self.start <= self.end <= self.tokens@.len()
    }

    /// A cursor over the whole of `vec`.
    pub fn new(vec: &'a [Token]) -> (stream: Self)
        ensures
            stream@ == vec.deep_view(),
    {
        let stream = Tokens { tokens: vec, start: 0, end: vec.len() };
        assert(stream@ =~= vec.deep_view());
        stream
    }

    /// The number of tokens still to be read.
    pub fn input_len(&self) -> (len: usize)
        ensures
            len == self@.len(),
    {
        proof {
            use_type_invariant(self);
        }
        self.end - self.start
    }

    /// Whether `count` tokens can be read: `count` itself if they can, else
    /// the number that is missing.
    pub fn slice_index(&self, count: usize) -> (index: Result<usize, Needed>)
        ensures
            match index {
                Ok(index) => count <= self@.len() && index == count,
                Err(needed) => count > self@.len() && needed.missing == count - self@.len(),
            },
    {
        let len = self.input_len();
        if count <= len {
            Ok(count)
        } else {
            Err(Needed { missing: count - len })
        }
    }

    /// The token `offset` places ahead, or `None` where the stream does not
    /// reach that far and more input would be needed.
    pub fn peek(&self, offset: usize) -> (token: Option<&'a Token>)
        ensures
            match token {
                Some(ahead) => offset < self@.len() && ahead@ == self@[offset as int],
                None => offset >= self@.len(),
            },
            self@.len() <= usize::MAX,
    {
        proof {
            use_type_invariant(self);
        }
        if offset < self.end - self.start {
            Some(&self.tokens[self.start + offset])
        } else {
            None
        }
    }

    /// A cursor over just the next `count` tokens, or the number of tokens
    /// that is missing where fewer remain.
    pub fn take(&self, count: usize) -> (prefix: Result<Tokens<'a>, Needed>)
        ensures
            match prefix {
                Ok(taken) => count <= self@.len() && taken@ == self@.take(count as int),
                Err(needed) => count > self@.len() && needed.missing == count - self@.len(),
            },
    {
        proof {
            use_type_invariant(self);
        }
        let len = self.input_len();
        if count <= len {
            let prefix = Tokens { tokens: self.tokens, start: self.start, end: self.start + count };
            assert(prefix@ =~= self@.take(count as int));
            Ok(prefix)
        } else {
            Err(Needed { missing: count - len })
        }
    }

    /// Splits the stream after `count` tokens: the tokens consumed, then those
    /// that remain. Both cursors are windows of the buffer of `self`.
    pub fn take_split(&self, count: usize) -> (parts: (Tokens<'a>, Tokens<'a>))
        requires
            count <= self@.len(),
        ensures
            parts.0@ == self@.take(count as int),
            parts.1@ == self@.skip(count as int),
    {
        proof {
            use_type_invariant(self);
        }
        let middle = self.start + count;
        let consumed = Tokens { tokens: self.tokens, start: self.start, end: middle };
        let remainder = Tokens { tokens: self.tokens, start: middle, end: self.end };
        assert(consumed@ =~= self@.take(count as int));
        assert(remainder@ =~= self@.skip(count as int));
        (consumed, remainder)
    }
}

} // verus!
