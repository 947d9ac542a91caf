//! Tokens of the language and their printed forms.

use crate::text::{push_str, text_eq};
use vstd::prelude::*;

verus! {

#[derive(Debug, PartialEq)]
pub enum Token {
    Illegal,
    Eof,
    // Identifiers + literals
    Ident(String),
    Int(String),
    String(String),
    // Operators
    Assign,
    Plus,
    Minus,
    Bang,
    Asterisk,
    Slash,
    Eq,
    NotEq,
    Lt,
    Gt,
    // Delimiters
    Comma,
    Semicolon,
    Colon,
    LParen,
    RParen,
    LBrace,
    RBrace,
    LBracket,
    RBracket,
    // Keywords
    Function,
    Let,
    True,
    False,
    If,
    Else,
    Return,
}

/// A token as a mathematical value: the texts are character sequences.
pub enum TokenView {
    Illegal,
    Eof,
    Ident(Seq<char>),
    Int(Seq<char>),
    Str(Seq<char>),
    Assign,
    Plus,
    Minus,
    Bang,
    Asterisk,
    Slash,
    Eq,
    NotEq,
    Lt,
    Gt,
    Comma,
    Semicolon,
    Colon,
    LParen,
    RParen,
    LBrace,
    RBrace,
    LBracket,
    RBracket,
    Function,
    Let,
    True,
    False,
    If,
    Else,
    Return,
}

impl View for Token {
    type V = TokenView;

    open spec fn view(&self) -> TokenView {
        match self {
            Token::Illegal => TokenView::Illegal,
            Token::Eof => TokenView::Eof,
            Token::Ident(s) => TokenView::Ident(s@),
            Token::Int(s) => TokenView::Int(s@),
            Token::String(s) => TokenView::Str(s@),
            Token::Assign => TokenView::Assign,
            Token::Plus => TokenView::Plus,
            Token::Minus => TokenView::Minus,
            Token::Bang => TokenView::Bang,
            Token::Asterisk => TokenView::Asterisk,
            Token::Slash => TokenView::Slash,
            Token::Eq => TokenView::Eq,
            Token::NotEq => TokenView::NotEq,
            Token::Lt => TokenView::Lt,
            Token::Gt => TokenView::Gt,
            Token::Comma => TokenView::Comma,
            Token::Semicolon => TokenView::Semicolon,
            Token::Colon => TokenView::Colon,
            Token::LParen => TokenView::LParen,
            Token::RParen => TokenView::RParen,
            Token::LBrace => TokenView::LBrace,
            Token::RBrace => TokenView::RBrace,
            Token::LBracket => TokenView::LBracket,
            Token::RBracket => TokenView::RBracket,
            Token::Function => TokenView::Function,
            Token::Let => TokenView::Let,
            Token::True => TokenView::True,
            Token::False => TokenView::False,
            Token::If => TokenView::If,
            Token::Else => TokenView::Else,
            Token::Return => TokenView::Return,
        }
    }
}

impl TokenView {
    /// The variant's position in the declaration.
    pub open spec fn ordinal(self) -> u8 {
        match self {
            TokenView::Illegal => 0,
            TokenView::Eof => 1,
            TokenView::Ident(_) => 2,
            TokenView::Int(_) => 3,
            TokenView::Str(_) => 4,
            TokenView::Assign => 5,
            TokenView::Plus => 6,
            TokenView::Minus => 7,
            TokenView::Bang => 8,
            TokenView::Asterisk => 9,
            TokenView::Slash => 10,
            TokenView::Eq => 11,
            TokenView::NotEq => 12,
            TokenView::Lt => 13,
            TokenView::Gt => 14,
            TokenView::Comma => 15,
            TokenView::Semicolon => 16,
            TokenView::Colon => 17,
            TokenView::LParen => 18,
            TokenView::RParen => 19,
            TokenView::LBrace => 20,
            TokenView::RBrace => 21,
            TokenView::LBracket => 22,
            TokenView::RBracket => 23,
            TokenView::Function => 24,
            TokenView::Let => 25,
            TokenView::True => 26,
            TokenView::False => 27,
            TokenView::If => 28,
            TokenView::Else => 29,
            TokenView::Return => 30,
        }
    }

    /// The token as source text would write it.
    pub open spec fn display(self) -> Seq<char> {
        match self {
            TokenView::Illegal => "ILLEGAL"@,
            TokenView::Eof => "EOF"@,
            TokenView::Ident(s) => s,
            TokenView::Int(s) => s,
            TokenView::Str(s) => s,
            TokenView::Assign => "="@,
            TokenView::Plus => "+"@,
            TokenView::Minus => "-"@,
            TokenView::Bang => "!"@,
            TokenView::Asterisk => "*"@,
            TokenView::Slash => "/"@,
            TokenView::Eq => "=="@,
            TokenView::NotEq => "!="@,
            TokenView::Lt => "<"@,
            TokenView::Gt => ">"@,
            TokenView::Comma => ","@,
            TokenView::Semicolon => ";"@,
            TokenView::Colon => ":"@,
            TokenView::LParen => "("@,
            TokenView::RParen => ")"@,
            TokenView::LBrace => "{"@,
            TokenView::RBrace => "}"@,
            TokenView::LBracket => "["@,
            TokenView::RBracket => "]"@,
            TokenView::Function => "fn"@,
            TokenView::Let => "let"@,
            TokenView::True => "true"@,
            TokenView::False => "false"@,
            TokenView::If => "if"@,
            TokenView::Else => "else"@,
            TokenView::Return => "return"@,
        }
    }

    /// The token as diagnostics name it: the variant's name, and for the
    /// three variants with a text that text in parentheses and double quotes.
    pub open spec fn describe(self) -> Seq<char> {
        match self {
            TokenView::Illegal => "Illegal"@,
            TokenView::Eof => "Eof"@,
            TokenView::Ident(s) => "Ident(\""@ + s + "\")"@,
            TokenView::Int(s) => "Int(\""@ + s + "\")"@,
            TokenView::Str(s) => "String(\""@ + s + "\")"@,
            TokenView::Assign => "Assign"@,
            TokenView::Plus => "Plus"@,
            TokenView::Minus => "Minus"@,
            TokenView::Bang => "Bang"@,
            TokenView::Asterisk => "Asterisk"@,
            TokenView::Slash => "Slash"@,
            TokenView::Eq => "Eq"@,
            TokenView::NotEq => "NotEq"@,
            TokenView::Lt => "Lt"@,
            TokenView::Gt => "Gt"@,
            TokenView::Comma => "Comma"@,
            TokenView::Semicolon => "Semicolon"@,
            TokenView::Colon => "Colon"@,
            TokenView::LParen => "LParen"@,
            TokenView::RParen => "RParen"@,
            TokenView::LBrace => "LBrace"@,
            TokenView::RBrace => "RBrace"@,
            TokenView::LBracket => "LBracket"@,
            TokenView::RBracket => "RBracket"@,
            TokenView::Function => "Function"@,
            TokenView::Let => "Let"@,
            TokenView::True => "True"@,
            TokenView::False => "False"@,
            TokenView::If => "If"@,
            TokenView::Else => "Else"@,
            TokenView::Return => "Return"@,
        }
    }
}

impl Clone for Token {
    fn clone(&self) -> (r: Token)
        ensures
            r@ == self@,
    {
        match self {
            Token::Illegal => Token::Illegal,
            Token::Eof => Token::Eof,
            Token::Ident(s) => Token::Ident(s.clone()),
            Token::Int(s) => Token::Int(s.clone()),
            Token::String(s) => Token::String(s.clone()),
            Token::Assign => Token::Assign,
            Token::Plus => Token::Plus,
            Token::Minus => Token::Minus,
            Token::Bang => Token::Bang,
            Token::Asterisk => Token::Asterisk,
            Token::Slash => Token::Slash,
            Token::Eq => Token::Eq,
            Token::NotEq => Token::NotEq,
            Token::Lt => Token::Lt,
            Token::Gt => Token::Gt,
            Token::Comma => Token::Comma,
            Token::Semicolon => Token::Semicolon,
            Token::Colon => Token::Colon,
            Token::LParen => Token::LParen,
            Token::RParen => Token::RParen,
            Token::LBrace => Token::LBrace,
            Token::RBrace => Token::RBrace,
            Token::LBracket => Token::LBracket,
            Token::RBracket => Token::RBracket,
            Token::Function => Token::Function,
            Token::Let => Token::Let,
            Token::True => Token::True,
            Token::False => Token::False,
            Token::If => Token::If,
            Token::Else => Token::Else,
            Token::Return => Token::Return,
        }
    }
}

impl Token {
    /// The text that stands for a token without a text of its own.
    fn fixed_text(&self) -> (s: &'static str)
        requires
            !(self is Ident || self is Int || self is String),
        ensures
            s@ == self@.display(),
    {
        match self {
            Token::Illegal => "ILLEGAL",
            Token::Eof => "EOF",
            Token::Assign => "=",
            Token::Plus => "+",
            Token::Minus => "-",
            Token::Bang => "!",
            Token::Asterisk => "*",
            Token::Slash => "/",
            Token::Eq => "==",
            Token::NotEq => "!=",
            Token::Lt => "<",
            Token::Gt => ">",
            Token::Comma => ",",
            Token::Semicolon => ";",
            Token::Colon => ":",
            Token::LParen => "(",
            Token::RParen => ")",
            Token::LBrace => "{",
            Token::RBrace => "}",
            Token::LBracket => "[",
            Token::RBracket => "]",
            Token::Function => "fn",
            Token::Let => "let",
            Token::True => "true",
            Token::False => "false",
            Token::If => "if",
            Token::Else => "else",
            _ => "return",
        }
    }

    /// The name of a variant without a text of its own.
    fn fixed_name(&self) -> (s: &'static str)
        requires
            !(self is Ident || self is Int || self is String),
        ensures
            s@ == self@.describe(),
    {
        match self {
            Token::Illegal => "Illegal",
            Token::Eof => "Eof",
            Token::Assign => "Assign",
            Token::Plus => "Plus",
            Token::Minus => "Minus",
            Token::Bang => "Bang",
            Token::Asterisk => "Asterisk",
            Token::Slash => "Slash",
            Token::Eq => "Eq",
            Token::NotEq => "NotEq",
            Token::Lt => "Lt",
            Token::Gt => "Gt",
            Token::Comma => "Comma",
            Token::Semicolon => "Semicolon",
            Token::Colon => "Colon",
            Token::LParen => "LParen",
            Token::RParen => "RParen",
            Token::LBrace => "LBrace",
            Token::RBrace => "RBrace",
            Token::LBracket => "LBracket",
            Token::RBracket => "RBracket",
            Token::Function => "Function",
            Token::Let => "Let",
            Token::True => "True",
            Token::False => "False",
            Token::If => "If",
            Token::Else => "Else",
            _ => "Return",
        }
    }

    /// Appends the token's source text to `out`.
    pub fn write(&self, out: &mut String)
        ensures
            final(out)@ == old(out)@ + self@.display(),
    {
        match self {
            Token::Ident(value) => push_str(out, value.as_str()),
            Token::Int(value) => push_str(out, value.as_str()),
            Token::String(value) => push_str(out, value.as_str()),
            _ => push_str(out, self.fixed_text()),
        }
    }

    /// The token as source text would write it.
    pub fn to_string(&self) -> (s: String)
        ensures
            s@ == self@.display(),
    {
        let mut out = String::new();
        self.write(&mut out);
        assert(out@ =~= self@.display());
        out
    }

    /// Appends the token's diagnostic name to `out`.
    pub fn write_description(&self, out: &mut String)
        ensures
            final(out)@ == old(out)@ + self@.describe(),
    {
        match self {
            Token::Ident(value) => {
                push_str(out, "Ident(\"");
                push_str(out, value.as_str());
                push_str(out, "\")");
                assert(out@ =~= old(out)@ + self@.describe());
            },
            Token::Int(value) => {
                push_str(out, "Int(\"");
                push_str(out, value.as_str());
                push_str(out, "\")");
                assert(out@ =~= old(out)@ + self@.describe());
            },
            Token::String(value) => {
                push_str(out, "String(\"");
                push_str(out, value.as_str());
                push_str(out, "\")");
                assert(out@ =~= old(out)@ + self@.describe());
            },
            _ => push_str(out, self.fixed_name()),
        }
    }

    /// Whether two tokens are the same variant with the same text.
    pub fn same(&self, other: &Token) -> (b: bool)
        ensures
            b == (self@ == other@),
    {
        match self {
            Token::Ident(a) => match other {
                Token::Ident(b) => *a == *b,
                _ => false,
            },
            Token::Int(a) => match other {
                Token::Int(b) => *a == *b,
                _ => false,
            },
            Token::String(a) => match other {
                Token::String(b) => *a == *b,
                _ => false,
            },
            _ => match other {
                Token::Ident(_) | Token::Int(_) | Token::String(_) => false,
                _ => self.fixed_index() == other.fixed_index(),
            },
        }
    }

    /// A number that tells the variants without a text apart.
    fn fixed_index(&self) -> (n: u8)
        requires
            !(self is Ident || self is Int || self is String),
        ensures
            n == self@.ordinal(),
    {
        match self {
            Token::Illegal => 0,
            Token::Eof => 1,
            Token::Assign => 5,
            Token::Plus => 6,
            Token::Minus => 7,
            Token::Bang => 8,
            Token::Asterisk => 9,
            Token::Slash => 10,
            Token::Eq => 11,
            Token::NotEq => 12,
            Token::Lt => 13,
            Token::Gt => 14,
            Token::Comma => 15,
            Token::Semicolon => 16,
            Token::Colon => 17,
            Token::LParen => 18,
            Token::RParen => 19,
            Token::LBrace => 20,
            Token::RBrace => 21,
            Token::LBracket => 22,
            Token::RBracket => 23,
            Token::Function => 24,
            Token::Let => 25,
            Token::True => 26,
            Token::False => 27,
            Token::If => 28,
            Token::Else => 29,
            _ => 30,
        }
    }
}

/// The token for a word: one of the seven keywords, or an identifier that
/// carries the word.
pub open spec fn lookup_ident_spec(ident: Seq<char>) -> TokenView {
    if ident == "fn"@ {
        TokenView::Function
    } else if ident == "let"@ {
        TokenView::Let
    } else if ident == "true"@ {
        TokenView::True
    } else if ident == "false"@ {
        TokenView::False
    } else if ident == "if"@ {
        TokenView::If
    } else if ident == "else"@ {
        TokenView::Else
    } else if ident == "return"@ {
        TokenView::Return
    } else {
        TokenView::Ident(ident)
    }
}

/// Looks a word up among the keywords.
pub fn lookup_ident(ident: &str) -> (token: Token)
    ensures
        token@ == lookup_ident_spec(ident@),
{
    if text_eq(ident, "fn") {
        Token::Function
    } else if text_eq(ident, "let") {
        Token::Let
    } else if text_eq(ident, "true") {
        Token::True
    } else if text_eq(ident, "false") {
        Token::False
    } else if text_eq(ident, "if") {
        Token::If
    } else if text_eq(ident, "else") {
        Token::Else
    } else if text_eq(ident, "return") {
        Token::Return
    } else {
        Token::Ident(String::from_str(ident))
    }
}

} // verus!
