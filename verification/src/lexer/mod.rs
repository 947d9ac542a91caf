//! The lexer: source text to tokens, one token for each call.

pub mod token;

use crate::lexer::token::{lookup_ident, lookup_ident_spec, Token, TokenView};
use crate::text::{chars_of, string_of};
use vstd::prelude::*;

verus! {

pub struct Lexer {
    input: Vec<char>,
    position: usize,
}

/// A lexer as a mathematical value: the characters of the source and the
/// index of the next one to read.
pub struct LexerView {
    pub input: Seq<char>,
    pub position: int,
}

/// A token and the index at which reading goes on after it.
pub struct Lexed {
    pub token: TokenView,
    pub next: int,
}

/// The character at an index; behind the end of the input stands the
/// character with code zero.
pub open spec fn char_at(input: Seq<char>, i: int) -> char {
    if 0 <= i < input.len() {
        input[i]
    } else {
        '\0'
    }
}

/// Letters are the ASCII letters and the underscore.
pub open spec fn is_letter_spec(c: char) -> bool {
    ('a' <= c && c <= 'z') || ('A' <= c && c <= 'Z') || c == '_'
}

/// Digits are the ASCII digits.
pub open spec fn is_digit_spec(c: char) -> bool {
    '0' <= c && c <= '9'
}

/// Space, tab, line feed, form feed and carriage return separate tokens.
pub open spec fn is_whitespace_spec(c: char) -> bool {
    c == ' ' || c == '\t' || c == '\n' || c == '\x0C' || c == '\r'
}

/// The index of the first character from `i` on that is no whitespace.
pub open spec fn skip_whitespace_spec(input: Seq<char>, i: int) -> int
    decreases input.len() - i,
{
    if 0 <= i < input.len() && is_whitespace_spec(input[i]) {
        skip_whitespace_spec(input, i + 1)
    } else {
        i
    }
}

/// The index of the first character from `i` on that is no letter.
pub open spec fn letters_end(input: Seq<char>, i: int) -> int
    decreases input.len() - i,
{
    if 0 <= i < input.len() && is_letter_spec(input[i]) {
        letters_end(input, i + 1)
    } else {
        i
    }
}

/// The index of the first character from `i` on that is no digit.
pub open spec fn digits_end(input: Seq<char>, i: int) -> int
    decreases input.len() - i,
{
    if 0 <= i < input.len() && is_digit_spec(input[i]) {
        digits_end(input, i + 1)
    } else {
        i
    }
}

/// What an escape sequence adds to a string: `\"` a quote, `\\` a
/// backslash, `\n` a line feed, `\t` a tab; every other character stays
/// behind its backslash.
pub open spec fn unescape(c: char) -> Seq<char> {
    if c == '"' {
        seq!['"']
    } else if c == '\\' {
        seq!['\\']
    } else if c == 'n' {
        seq!['\n']
    } else if c == 't' {
        seq!['\t']
    } else {
        seq!['\\', c]
    }
}

/// The string literal whose text starts at index `i`, after the opening
/// quote, with `text` read so far. A literal that the input ends in is
/// illegal.
pub open spec fn read_string_spec(input: Seq<char>, i: int, text: Seq<char>) -> Lexed
    decreases input.len() - i,
{
    if i < 0 || i >= input.len() {
        Lexed { token: TokenView::Illegal, next: input.len() as int }
    } else if input[i] == '"' {
        Lexed { token: TokenView::Str(text), next: i + 1 }
    } else if input[i] == '\\' {
        if i + 1 >= input.len() {
            Lexed { token: TokenView::Illegal, next: input.len() as int }
        } else {
            read_string_spec(input, i + 2, text + unescape(input[i + 1]))
        }
    } else {
        read_string_spec(input, i + 1, text.push(input[i]))
    }
}

/// The token of one character that is neither `=` nor `!`.
pub open spec fn single_token(c: char) -> TokenView {
    if c == '+' {
        TokenView::Plus
    } else if c == ',' {
        TokenView::Comma
    } else if c == ';' {
        TokenView::Semicolon
    } else if c == ':' {
        TokenView::Colon
    } else if c == '-' {
        TokenView::Minus
    } else if c == '*' {
        TokenView::Asterisk
    } else if c == '/' {
        TokenView::Slash
    } else if c == '<' {
        TokenView::Lt
    } else if c == '>' {
        TokenView::Gt
    } else if c == '(' {
        TokenView::LParen
    } else if c == ')' {
        TokenView::RParen
    } else if c == '{' {
        TokenView::LBrace
    } else if c == '}' {
        TokenView::RBrace
    } else if c == '[' {
        TokenView::LBracket
    } else if c == ']' {
        TokenView::RBracket
    } else if c == '\0' {
        TokenView::Eof
    } else {
        TokenView::Illegal
    }
}

/// The token that starts at index `i`, where no whitespace stands.
pub open spec fn token_at(input: Seq<char>, i: int) -> Lexed {
    let c = char_at(input, i);
    let after = if i < input.len() {
        i + 1
    } else {
        i
    };
    if c == '=' {
        if char_at(input, i + 1) == '=' {
            Lexed { token: TokenView::Eq, next: i + 2 }
        } else {
            Lexed { token: TokenView::Assign, next: after }
        }
    } else if c == '!' {
        if char_at(input, i + 1) == '=' {
            Lexed { token: TokenView::NotEq, next: i + 2 }
        } else {
            Lexed { token: TokenView::Bang, next: after }
        }
    } else if c == '"' {
        read_string_spec(input, i + 1, Seq::empty())
    } else if is_letter_spec(c) {
        Lexed {
            token: lookup_ident_spec(input.subrange(i, letters_end(input, i))),
            next: letters_end(input, i),
        }
    } else if is_digit_spec(c) {
        Lexed {
            token: TokenView::Int(input.subrange(i, digits_end(input, i))),
            next: digits_end(input, i),
        }
    } else {
        Lexed { token: single_token(c), next: after }
    }
}

/// The next token from index `i` on: whitespace is skipped, then the
/// token is read. At the end of the input the token is `Eof`.
pub open spec fn lex(input: Seq<char>, i: int) -> Lexed {
    token_at(input, skip_whitespace_spec(input, i))
}

/// The tokens from index `i` on, up to and with the first `Eof`.
pub open spec fn lex_all(input: Seq<char>, i: int) -> Seq<TokenView>
    decreases input.len() - i,
{
    let lexed = lex(input, i);
    if lexed.token is Eof || lexed.next <= i || i < 0 || lexed.next > input.len() {
        seq![lexed.token]
    } else {
        seq![lexed.token] + lex_all(input, lexed.next)
    }
}

/// The runs that the lexer skips end within the input.
pub proof fn lemma_ends(input: Seq<char>, i: int)
    requires
        0 <= i <= input.len(),
    ensures
        i <= skip_whitespace_spec(input, i) <= input.len(),
        i <= letters_end(input, i) <= input.len(),
        i <= digits_end(input, i) <= input.len(),
        is_letter_spec(char_at(input, i)) ==> i < letters_end(input, i),
        is_digit_spec(char_at(input, i)) ==> i < digits_end(input, i),
    decreases input.len() - i,
{
    if i < input.len() {
        lemma_ends(input, i + 1);
    }
}

/// A string literal ends within the input and behind its start.
pub proof fn lemma_read_string(input: Seq<char>, i: int, text: Seq<char>)
    requires
        0 <= i <= input.len(),
    ensures
        i <= read_string_spec(input, i, text).next <= input.len(),
        !(read_string_spec(input, i, text).token is Eof),
    decreases input.len() - i,
{
    if i < input.len() && input[i] != '"' {
        if input[i] == '\\' {
            if i + 1 < input.len() {
                lemma_read_string(input, i + 2, text + unescape(input[i + 1]));
            }
        } else {
            lemma_read_string(input, i + 1, text.push(input[i]));
        }
    }
}

/// Every token but `Eof` takes at least one character, and no token
/// reaches beyond the input.
pub proof fn lemma_lex_advances(input: Seq<char>, i: int)
    requires
        0 <= i <= input.len(),
    ensures
        i <= lex(input, i).next <= input.len(),
        !(lex(input, i).token is Eof) ==> i < lex(input, i).next,
{
    lemma_ends(input, i);
    let p = skip_whitespace_spec(input, i);
    lemma_ends(input, p);
    if p < input.len() {
        lemma_read_string(input, p + 1, Seq::empty());
    }
}

fn is_letter(ch: char) -> (b: bool)
    ensures
        b == is_letter_spec(ch),
{
    ('a' <= ch && ch <= 'z') || ('A' <= ch && ch <= 'Z') || ch == '_'
}

fn is_digit(ch: char) -> (b: bool)
    ensures
        b == is_digit_spec(ch),
{
    '0' <= ch && ch <= '9'
}

fn is_whitespace(ch: char) -> (b: bool)
    ensures
        b == is_whitespace_spec(ch),
{
    ch == ' ' || ch == '\t' || ch == '\n' || ch == '\x0C' || ch == '\r'
}

impl View for Lexer {
    type V = LexerView;

    closed spec fn view(&self) -> LexerView {
        LexerView { input: self.input@, position: self.position as int }
    }
}

impl Lexer {
    /// The position lies within the input or at its end.
    pub closed spec fn wf(&self) -> bool {
        self.position <= self.input.len()
    }

    /// A lexer at the start of `input`.
    pub fn new(input: String) -> (lexer: Lexer)
        ensures
            lexer.wf(),
            lexer@ == (LexerView { input: input@, position: 0 }),
    {
        Lexer { input: chars_of(input.as_str()), position: 0 }
    }

    /// The character at index `i`, or the character with code zero behind
    /// the end.
    fn char_at(&self, i: usize) -> (c: char)
        ensures
            c == char_at(self.input@, i as int),
    {
        if i < self.input.len() {
            self.input[i]
        } else {
            '\0'
        }
    }

    /// The character to read next.
    fn read_char(&self) -> (c: char)
        ensures
            c == char_at(self.input@, self.position as int),
    {
        self.char_at(self.position)
    }

    /// The character behind the next.
    fn peek_char(&self) -> (c: char)
        requires
            self.wf(),
        ensures
            c == char_at(self.input@, self.position + 1),
    {
        if self.position < self.input.len() {
            self.char_at(self.position + 1)
        } else {
            '\0'
        }
    }

    /// Moves past whitespace.
    fn skip_whitespace(&mut self)
        requires
            old(self).wf(),
        ensures
            final(self).wf(),
            final(self).input == old(self).input,
            final(self).position == skip_whitespace_spec(old(self).input@, old(self).position as int),
    {
        while self.position < self.input.len() && is_whitespace(self.input[self.position])
            invariant
                self.wf(),
                self.input == old(self).input,
                skip_whitespace_spec(old(self).input@, old(self).position as int)
                    == skip_whitespace_spec(self.input@, self.position as int),
            decreases self.input.len() - self.position,
        {
            self.position += 1;
        }
    }

    /// Reads the word that starts at the position.
    fn read_identifier(&mut self) -> (token: Token)
        requires
            old(self).wf(),
        ensures
            final(self).wf(),
            final(self).input == old(self).input,
            final(self).position == letters_end(old(self).input@, old(self).position as int),
            token@ == lookup_ident_spec(
                old(self).input@.subrange(
                    old(self).position as int,
                    letters_end(old(self).input@, old(self).position as int),
                ),
            ),
    {
        let start = self.position;
        while self.position < self.input.len() && is_letter(self.input[self.position])
            invariant
                self.wf(),
                start <= self.position,
                self.input == old(self).input,
                letters_end(old(self).input@, old(self).position as int) == letters_end(
                    self.input@,
                    self.position as int,
                ),
            decreases self.input.len() - self.position,
        {
            self.position += 1;
        }
        let literal = string_of(&self.input, start, self.position);
        lookup_ident(literal.as_str())
    }

    /// Reads the number that starts at the position.
    fn read_number(&mut self) -> (token: Token)
        requires
            old(self).wf(),
        ensures
            final(self).wf(),
            final(self).input == old(self).input,
            final(self).position == digits_end(old(self).input@, old(self).position as int),
            token@ == TokenView::Int(
                old(self).input@.subrange(
                    old(self).position as int,
                    digits_end(old(self).input@, old(self).position as int),
                ),
            ),
    {
        let start = self.position;
        while self.position < self.input.len() && is_digit(self.input[self.position])
            invariant
                self.wf(),
                start <= self.position,
                self.input == old(self).input,
                digits_end(old(self).input@, old(self).position as int) == digits_end(
                    self.input@,
                    self.position as int,
                ),
            decreases self.input.len() - self.position,
        {
            self.position += 1;
        }
        Token::Int(string_of(&self.input, start, self.position))
    }

    /// Reads the string literal whose text starts at the position.
    fn read_string(&mut self) -> (token: Token)
        requires
            old(self).wf(),
        ensures
            final(self).wf(),
            final(self).input == old(self).input,
            token@ == read_string_spec(old(self).input@, old(self).position as int, Seq::empty()).token,
            final(self).position == read_string_spec(
                old(self).input@,
                old(self).position as int,
                Seq::empty(),
            ).next,
    {
        let mut text = String::new();
        loop
            invariant
                self.wf(),
                self.input == old(self).input,
                read_string_spec(old(self).input@, old(self).position as int, Seq::empty())
                    == read_string_spec(self.input@, self.position as int, text@),
            decreases self.input.len() - self.position,
        {
            if self.position >= self.input.len() {
                return Token::Illegal;
            }
            let ch = self.input[self.position];
            if ch == '"' {
                self.position += 1;
                return Token::String(text);
            }
            if ch == '\\' {
                if self.position + 1 >= self.input.len() {
                    self.position = self.input.len();
                    return Token::Illegal;
                }
                let escaped = self.input[self.position + 1];
                let ghost before = text@;
                if escaped == '"' {
                    text.push('"');
                } else if escaped == '\\' {
                    text.push('\\');
                } else if escaped == 'n' {
                    text.push('\n');
                } else if escaped == 't' {
                    text.push('\t');
                } else {
                    text.push('\\');
                    text.push(escaped);
                }
                assert(text@ =~= before + unescape(escaped));
                self.position += 2;
            } else {
                text.push(ch);
                self.position += 1;
            }
        }
    }

    /// Reads the next token. At the end of the input every call returns
    /// `Eof`.
    pub fn next_token(&mut self) -> (token: Token)
        requires
            old(self).wf(),
        ensures
            final(self).wf(),
            final(self)@.input == old(self)@.input,
            token@ == lex(old(self)@.input, old(self)@.position).token,
            final(self)@.position == lex(old(self)@.input, old(self)@.position).next,
    {
        self.skip_whitespace();
        let ch = self.read_char();
        proof {
            lemma_ends(self.input@, self.position as int);
        }
        if ch == '=' {
            if self.peek_char() == '=' {
                self.position += 2;
                return Token::Eq;
            }
            self.position += 1;
            return Token::Assign;
        }
        if ch == '!' {
            if self.peek_char() == '=' {
                self.position += 2;
                return Token::NotEq;
            }
            self.position += 1;
            return Token::Bang;
        }
        if ch == '"' {
            self.position += 1;
            return self.read_string();
        }
        if is_letter(ch) {
            return self.read_identifier();
        }
        if is_digit(ch) {
            return self.read_number();
        }
        let token = if ch == '+' {
            Token::Plus
        } else if ch == ',' {
            Token::Comma
        } else if ch == ';' {
            Token::Semicolon
        } else if ch == ':' {
            Token::Colon
        } else if ch == '-' {
            Token::Minus
        } else if ch == '*' {
            Token::Asterisk
        } else if ch == '/' {
            Token::Slash
        } else if ch == '<' {
            Token::Lt
        } else if ch == '>' {
            Token::Gt
        } else if ch == '(' {
            Token::LParen
        } else if ch == ')' {
            Token::RParen
        } else if ch == '{' {
            Token::LBrace
        } else if ch == '}' {
            Token::RBrace
        } else if ch == '[' {
            Token::LBracket
        } else if ch == ']' {
            Token::RBracket
        } else if ch == '\0' {
            Token::Eof
        } else {
            Token::Illegal
        };
        if self.position < self.input.len() {
            self.position += 1;
        }
        token
    }

    /// Reads all tokens up to and with the first `Eof`.
    pub fn tokenize(&mut self) -> (tokens: Vec<Token>)
        requires
            old(self).wf(),
        ensures
            final(self).wf(),
            final(self)@.input == old(self)@.input,
            tokens_view(tokens@) == lex_all(old(self)@.input, old(self)@.position),
    {
        let mut tokens: Vec<Token> = Vec::new();
        let ghost input = self.input@;
        loop
            invariant
                self.wf(),
                input == self.input@,
                input == old(self).input@,
                tokens_view(tokens@) + lex_all(input, self.position as int) == lex_all(
                    input,
                    old(self).position as int,
                ),
            decreases self.input.len() - self.position,
        {
            let ghost at = self.position as int;
            let ghost before = tokens_view(tokens@);
            proof {
                lemma_lex_advances(input, at);
            }
            let token = self.next_token();
            let done = match token {
                Token::Eof => true,
                _ => false,
            };
            tokens.push(token);
            assert(tokens_view(tokens@) =~= before.push(token@));
            if done {
                assert(before + lex_all(input, at) =~= tokens_view(tokens@));
                return tokens;
            }
            assert(before + lex_all(input, at) =~= tokens_view(tokens@) + lex_all(
                input,
                self.position as int,
            ));
        }
    }
}

/// The views of a list of tokens.
pub open spec fn tokens_view(tokens: Seq<Token>) -> Seq<TokenView> {
    Seq::new(tokens.len(), |i: int| tokens[i]@)
}

} // verus!
