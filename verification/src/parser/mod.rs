//! The parser: tokens to a syntax tree, by precedence climbing.
//!
//! What parsing means is laid down in [`model`]; the functions here carry
//! it out on the parser's vectors.

pub mod ast;
pub mod laws;
pub mod model;

use crate::error::ParseError;
use crate::lexer::token::{Token, TokenView};
use crate::lexer::{lex_all, tokens_view, Lexer};
use crate::parser::ast::{
    exprs_view, pairs_view, stmts_view, Expression, ExpressionView, Program, Statement,
    StatementView,
};
use crate::parser::model::{
    all_digits, block_loop, cur, digit_value, digits_value, expected_text, expressions_loop,
    hash_loop, infix_loop, next, no_infix_text, no_prefix_text, parse_block, parse_expression,
    parse_function, parse_if, parse_index, parse_index_slice, parse_infix, parse_integer_spec,
    parse_let, parse_parameters, parse_prefix, parse_statement, peek, program_loop, skip_semicolon,
    token, Cursor, Parsed,
};
use crate::text::{chars_of, push_str, texts};
use vstd::prelude::*;

pub use crate::parser::model::Precedence;

verus! {

pub struct Parser {
    pub tokens: Vec<Token>,
    pub position: usize,
    pub errors: Vec<String>,
    pub end: Token,
}

/// A result as mathematical values.
pub open spec fn expr_outcome(r: Result<Expression, ParseError>) -> Result<
    ExpressionView,
    Seq<char>,
> {
    match r {
        Ok(tree) => Ok(tree@),
        Err(e) => Err(e@),
    }
}

/// A result as mathematical values.
pub open spec fn stmt_outcome(r: Result<Statement, ParseError>) -> Result<StatementView, Seq<char>> {
    match r {
        Ok(tree) => Ok(tree@),
        Err(e) => Err(e@),
    }
}

/// A result as mathematical values.
pub open spec fn exprs_outcome(r: Result<Vec<Expression>, ParseError>) -> Result<
    Seq<ExpressionView>,
    Seq<char>,
> {
    match r {
        Ok(trees) => Ok(exprs_view(trees@)),
        Err(e) => Err(e@),
    }
}

/// A result as mathematical values.
pub open spec fn names_outcome(r: Result<Vec<String>, ParseError>) -> Result<
    Seq<Seq<char>>,
    Seq<char>,
> {
    match r {
        Ok(names) => Ok(texts(names@)),
        Err(e) => Err(e@),
    }
}

/// The diagnostic for a token that is not the one the grammar asks for.
fn expected(what: &str, got: &Token) -> (e: ParseError)
    ensures
        e@ == expected_text(what@, got@),
{
    let mut message = String::new();
    push_str(&mut message, "Expected next token to be ");
    push_str(&mut message, what);
    push_str(&mut message, " got ");
    got.write_description(&mut message);
    push_str(&mut message, " instead");
    assert(message@ =~= expected_text(what@, got@));
    ParseError { message }
}

/// The diagnostic for a token that no expression starts with.
fn no_prefix(got: &Token) -> (e: ParseError)
    ensures
        e@ == no_prefix_text(got@),
{
    let mut message = String::new();
    push_str(&mut message, "No prefix parse function for ");
    got.write(&mut message);
    push_str(&mut message, " found");
    assert(message@ =~= no_prefix_text(got@));
    ParseError { message }
}

/// The diagnostic for a token that no expression goes on with.
fn no_infix(got: &Token) -> (e: ParseError)
    ensures
        e@ == no_infix_text(got@),
{
    let mut message = String::new();
    push_str(&mut message, "No infix parse function for ");
    got.write(&mut message);
    push_str(&mut message, " found");
    assert(message@ =~= no_infix_text(got@));
    ParseError { message }
}

/// The number of a part of a text of digits is not greater than the number
/// of the whole.
proof fn lemma_digits_monotone(digits: Seq<char>, i: int)
    requires
        all_digits(digits),
        0 <= i <= digits.len(),
    ensures
        0 <= digits_value(digits.subrange(0, i)) <= digits_value(digits),
    decreases digits.len() - i,
{
    lemma_digits_nonnegative(digits.subrange(0, i));
    if i < digits.len() {
        let longer = digits.subrange(0, i + 1);
        assert(longer.drop_last() =~= digits.subrange(0, i));
        lemma_digits_monotone(digits, i + 1);
    } else {
        assert(digits.subrange(0, i) =~= digits);
    }
}

/// The number of a text of digits is not negative.
proof fn lemma_digits_nonnegative(digits: Seq<char>)
    requires
        all_digits(digits),
    ensures
        0 <= digits_value(digits),
    decreases digits.len(),
{
    if digits.len() > 0 {
        lemma_digits_nonnegative(digits.drop_last());
    }
}

impl Precedence {
    /// The precedence's place on the ladder.
    pub fn order(self) -> (n: u8)
        ensures
            n == self.rank(),
    {
        match self {
            Precedence::Lowest => 0,
            Precedence::Slice => 1,
            Precedence::Equals => 2,
            Precedence::LessGreater => 3,
            Precedence::Sum => 4,
            Precedence::Product => 5,
            Precedence::Prefix => 6,
            Precedence::Call => 7,
            Precedence::Index => 8,
        }
    }

    /// The precedence with which a token binds as an infix operator.
    pub fn from(token: &Token) -> (p: Precedence)
        ensures
            p == Precedence::of(token@),
    {
        match token {
            Token::LBracket => Precedence::Index,
            Token::Eq | Token::NotEq => Precedence::Equals,
            Token::Lt | Token::Gt => Precedence::LessGreater,
            Token::Plus | Token::Minus => Precedence::Sum,
            Token::Asterisk | Token::Slash => Precedence::Product,
            Token::LParen => Precedence::Call,
            _ => Precedence::Lowest,
        }
    }
}

impl Parser {
    /// The position lies among the tokens or at their end.
    pub open spec fn wf(&self) -> bool {
        self.position <= self.tokens.len() && self.end@ == TokenView::Eof
    }

    /// The tokens that are parsed.
    pub open spec fn toks(&self) -> Seq<TokenView> {
        tokens_view(self.tokens@)
    }

    /// Where the parser stands.
    pub open spec fn cursor(&self) -> Cursor {
        Cursor { position: self.position as int, errors: texts(self.errors@) }
    }

    /// A parser at the first token of what `lexer` has still to read.
    pub fn new(lexer: Lexer) -> (parser: Parser)
        requires
            lexer.wf(),
        ensures
            parser.wf(),
            parser.toks() == lex_all(lexer@.input, lexer@.position),
            parser.cursor() == (Cursor { position: 0, errors: Seq::empty() }),
    {
        let mut lexer = lexer;
        let tokens = lexer.tokenize();
        let parser = Parser { tokens, position: 0, errors: Vec::new(), end: Token::Eof };
        assert(parser.cursor().errors =~= Seq::empty());
        parser
    }

    /// The current token.
    fn cur_token(&self) -> (token: &Token)
        requires
            self.wf(),
        ensures
            token@ == cur(self.toks(), self.cursor()),
    {
        if self.position < self.tokens.len() {
            &self.tokens[self.position]
        } else {
            &self.end
        }
    }

    /// The token behind the current one.
    fn peek_token(&self) -> (token: &Token)
        requires
            self.wf(),
        ensures
            token@ == peek(self.toks(), self.cursor()),
    {
        if self.position < self.tokens.len() && self.position + 1 < self.tokens.len() {
            &self.tokens[self.position + 1]
        } else {
            &self.end
        }
    }

    /// Moves on by one token.
    fn next_token(&mut self)
        requires
            old(self).wf(),
        ensures
            final(self).wf(),
            final(self).tokens == old(self).tokens,
            final(self).cursor() == next(old(self).toks(), old(self).cursor()),
    {
        if self.position < self.tokens.len() {
            self.position += 1;
        }
    }

    /// Moves past a semicolon that follows the current token.
    fn skip_semicolon(&mut self)
        requires
            old(self).wf(),
        ensures
            final(self).wf(),
            final(self).tokens == old(self).tokens,
            final(self).cursor() == skip_semicolon(old(self).toks(), old(self).cursor()),
    {
        if self.peek_token().same(&Token::Semicolon) {
            self.next_token();
        }
    }

    /// Parses all statements up to `Eof`. A statement that fails leaves
    /// its diagnostic in `errors`, and parsing goes on with the next token.
    pub fn parse_program(&mut self) -> (program: Program)
        requires
            old(self).wf(),
        ensures
            final(self).wf(),
            final(self).tokens == old(self).tokens,
            (final(self).cursor(), program@) == program_loop(
                old(self).toks(),
                old(self).cursor(),
                Seq::empty(),
            ),
    {
        let mut statements: Vec<Statement> = Vec::new();
        let ghost t = self.toks();
        assert(stmts_view(statements@) =~= Seq::empty());
        loop
            invariant
                self.wf(),
                self.tokens == old(self).tokens,
                t == self.toks(),
                program_loop(t, old(self).cursor(), Seq::empty()) == program_loop(
                    t,
                    self.cursor(),
                    stmts_view(statements@),
                ),
            decreases self.tokens.len() - self.position,
        {
            if self.cur_token().same(&Token::Eof) {
                return Program { statements };
            }
            let ghost before = self.cursor();
            let ghost collected = stmts_view(statements@);
            match self.parse_statement() {
                Ok(statement) => {
                    statements.push(statement);
                    assert(stmts_view(statements@) =~= collected.push(statement@));
                },
                Err(e) => {
                    let ghost errors = texts(self.errors@);
                    self.errors.push(e.message);
                    assert(texts(self.errors@) =~= errors.push(e@));
                },
            }
            self.next_token();
        }
    }

    /// Parses a statement.
    fn parse_statement(&mut self) -> (r: Result<Statement, ParseError>)
        requires
            old(self).wf(),
        ensures
            final(self).wf(),
            final(self).tokens == old(self).tokens,
            old(self).position <= final(self).position,
            (Parsed { cursor: final(self).cursor(), result: stmt_outcome(r) }) == parse_statement(
                old(self).toks(),
                old(self).cursor(),
            ),
        decreases old(self).tokens.len() - old(self).position, 10nat,
    {
        let is_let = self.cur_token().same(&Token::Let);
        let is_return = self.cur_token().same(&Token::Return);
        let ghost t = self.toks();
        let ghost c = self.cursor();
        if is_let {
            assert(cur(t, c) is Let);
            assert(parse_statement(t, c) == parse_let(t, c));
            self.parse_let_statement()
        } else if is_return {
            assert(cur(t, c) is Return);
            self.parse_return_statement()
        } else {
            assert(!(cur(t, c) is Let) && !(cur(t, c) is Return));
            self.parse_expression_statement()
        }
    }

    /// Parses `let name = value;`.
    fn parse_let_statement(&mut self) -> (r: Result<Statement, ParseError>)
        requires
            old(self).wf(),
        ensures
            final(self).wf(),
            final(self).tokens == old(self).tokens,
            old(self).position <= final(self).position,
            (Parsed { cursor: final(self).cursor(), result: stmt_outcome(r) }) == parse_let(
                old(self).toks(),
                old(self).cursor(),
            ),
        decreases old(self).tokens.len() - old(self).position, 9nat,
    {
        let name = match self.peek_token() {
            Token::Ident(name) => name.clone(),
            other => {
                return Err(expected("IDENT,", other));
            },
        };
        self.next_token();
        if !self.peek_token().same(&Token::Assign) {
            return Err(expected("=,", self.peek_token()));
        }
        self.next_token();
        self.next_token();
        let value = match self.parse_expression(Precedence::Lowest) {
            Ok(value) => value,
            Err(e) => {
                return Err(e);
            },
        };
        let value = match value {
            Expression::Function(parameters, body, _) => Expression::Function(
                parameters,
                body,
                Some(name.clone()),
            ),
            other => other,
        };
        self.skip_semicolon();
        Ok(Statement::Let(name, value))
    }

    /// Parses `return value;`.
    fn parse_return_statement(&mut self) -> (r: Result<Statement, ParseError>)
        requires
            old(self).wf(),
            cur(old(self).toks(), old(self).cursor()) is Return,
        ensures
            final(self).wf(),
            final(self).tokens == old(self).tokens,
            old(self).position <= final(self).position,
            (Parsed { cursor: final(self).cursor(), result: stmt_outcome(r) }) == parse_statement(
                old(self).toks(),
                old(self).cursor(),
            ),
        decreases old(self).tokens.len() - old(self).position, 9nat,
    {
        self.next_token();
        let value = match self.parse_expression(Precedence::Lowest) {
            Ok(value) => value,
            Err(e) => {
                return Err(e);
            },
        };
        self.skip_semicolon();
        Ok(Statement::Return(value))
    }

    /// Parses an expression that stands as a statement.
    fn parse_expression_statement(&mut self) -> (r: Result<Statement, ParseError>)
        requires
            old(self).wf(),
            !(cur(old(self).toks(), old(self).cursor()) is Return),
            !(cur(old(self).toks(), old(self).cursor()) is Let),
        ensures
            final(self).wf(),
            final(self).tokens == old(self).tokens,
            old(self).position <= final(self).position,
            (Parsed { cursor: final(self).cursor(), result: stmt_outcome(r) }) == parse_statement(
                old(self).toks(),
                old(self).cursor(),
            ),
        decreases old(self).tokens.len() - old(self).position, 9nat,
    {
        let expression = match self.parse_expression(Precedence::Lowest) {
            Ok(value) => value,
            Err(e) => {
                return Err(e);
            },
        };
        self.skip_semicolon();
        Ok(Statement::Expression(expression))
    }

    /// Parses a block, with the parser on its opening brace.
    fn parse_block_statement(&mut self) -> (r: Result<Statement, ParseError>)
        requires
            old(self).wf(),
        ensures
            final(self).wf(),
            final(self).tokens == old(self).tokens,
            old(self).position <= final(self).position,
            (Parsed { cursor: final(self).cursor(), result: stmt_outcome(r) }) == parse_block(
                old(self).toks(),
                old(self).cursor(),
            ),
        decreases old(self).tokens.len() - old(self).position, 12nat,
    {
        let mut statements: Vec<Statement> = Vec::new();
        let ghost t = self.toks();
        let ghost start = self.cursor();
        if self.position >= self.tokens.len() {
            return Err(expected("},", self.cur_token()));
        }
        self.next_token();
        assert(stmts_view(statements@) =~= Seq::empty());
        loop
            invariant
                self.wf(),
                self.tokens == old(self).tokens,
                t == self.toks(),
                start == old(self).cursor(),
                start.position < self.position,
                parse_block(t, start) == block_loop(t, self.cursor(), stmts_view(statements@)),
            decreases self.tokens.len() - self.position,
        {
            if self.cur_token().same(&Token::RBrace) {
                return Ok(Statement::Block(statements));
            }
            if self.cur_token().same(&Token::Eof) {
                return Err(expected("},", self.cur_token()));
            }
            let ghost collected = stmts_view(statements@);
            match self.parse_statement() {
                Ok(statement) => {
                    statements.push(statement);
                    assert(stmts_view(statements@) =~= collected.push(statement@));
                },
                Err(e) => {
                    let ghost errors = texts(self.errors@);
                    self.errors.push(e.message);
                    assert(texts(self.errors@) =~= errors.push(e@));
                },
            }
            self.next_token();
        }
    }

    /// Parses an expression whose operators bind tighter than
    /// `precedence`.
    fn parse_expression(&mut self, precedence: Precedence) -> (r: Result<Expression, ParseError>)
        requires
            old(self).wf(),
        ensures
            final(self).wf(),
            final(self).tokens == old(self).tokens,
            old(self).position <= final(self).position,
            (Parsed { cursor: final(self).cursor(), result: expr_outcome(r) }) == parse_expression(
                old(self).toks(),
                old(self).cursor(),
                precedence,
            ),
        decreases old(self).tokens.len() - old(self).position, 8nat,
    {
        let ghost t = self.toks();
        let mut left = match self.parse_prefix() {
            Ok(prefix) => prefix,
            Err(e) => {
                return Err(e);
            },
        };
        loop
            invariant
                self.wf(),
                self.tokens == old(self).tokens,
                t == self.toks(),
                old(self).position <= self.position,
                parse_expression(t, old(self).cursor(), precedence) == infix_loop(
                    t,
                    self.cursor(),
                    left@,
                    precedence,
                ),
            decreases self.tokens.len() - self.position,
        {
            if self.peek_token().same(&Token::Semicolon) {
                return Ok(left);
            }
            if precedence.order() >= Precedence::from(self.peek_token()).order() {
                return Ok(left);
            }
            left = match self.parse_infix(left) {
                Ok(infix) => infix,
                Err(e) => {
                    return Err(e);
                },
            };
        }
    }

    /// Parses what an expression starts with.
    fn parse_prefix(&mut self) -> (r: Result<Expression, ParseError>)
        requires
            old(self).wf(),
        ensures
            final(self).wf(),
            final(self).tokens == old(self).tokens,
            old(self).position <= final(self).position,
            (Parsed { cursor: final(self).cursor(), result: expr_outcome(r) }) == parse_prefix(
                old(self).toks(),
                old(self).cursor(),
            ),
        decreases old(self).tokens.len() - old(self).position, 7nat,
    {
        match self.cur_token() {
            Token::Ident(value) => {
                let value = value.clone();
                self.parse_identifier(value)
            },
            Token::Int(value) => {
                let value = value.clone();
                self.parse_integer(value)
            },
            Token::String(value) => {
                let value = value.clone();
                self.parse_string(value)
            },
            Token::True => self.parse_boolean(true),
            Token::False => self.parse_boolean(false),
            Token::LBracket => self.parse_array(),
            Token::LBrace => self.parse_hash(),
            Token::Bang | Token::Minus => self.parse_prefix_expression(),
            Token::LParen => self.parse_group(),
            Token::If => self.parse_if(),
            Token::Function => self.parse_function(),
            other => Err(no_prefix(other)),
        }
    }

    /// A name.
    fn parse_identifier(&mut self, value: String) -> (r: Result<Expression, ParseError>)
        ensures
            *final(self) == *old(self),
            expr_outcome(r) == Ok::<ExpressionView, Seq<char>>(ExpressionView::Identifier(value@)),
    {
        Ok(Expression::Identifier(value))
    }

    /// An integer literal. A number that does not fit into 64 bits with a
    /// sign is an error.
    fn parse_integer(&mut self, value: String) -> (r: Result<Expression, ParseError>)
        ensures
            *final(self) == *old(self),
            expr_outcome(r) == match parse_integer_spec(value@) {
                Ok(number) => Ok::<ExpressionView, Seq<char>>(ExpressionView::Integer(number)),
                Err(message) => Err(message),
            },
    {
        let digits = chars_of(value.as_str());
        if digits.len() == 0 {
            return Err(ParseError::new("cannot parse integer from empty string"));
        }
        let mut i: usize = 0;
        while i < digits.len()
            invariant
                i <= digits.len(),
                digits@ == value@,
                forall|j: int| 0 <= j < i ==> '0' <= #[trigger] digits[j] && digits[j] <= '9',
            decreases digits.len() - i,
        {
            if !('0' <= digits[i] && digits[i] <= '9') {
                assert(!('0' <= digits@[i as int] && digits@[i as int] <= '9'));
                assert(!all_digits(value@));
                return Err(ParseError::new("invalid digit found in string"));
            }
            i += 1;
        }
        assert(all_digits(digits@));
        let mut number: i64 = 0;
        let mut i: usize = 0;
        assert(digits@.subrange(0, 0) =~= Seq::empty());
        while i < digits.len()
            invariant
                i <= digits.len(),
                all_digits(digits@),
                digits@ == value@,
                0 <= number,
                number == digits_value(digits@.subrange(0, i as int)),
            decreases digits.len() - i,
        {
            let digit: i64 = (digits[i] as u32 - '0' as u32) as i64;
            proof {
                lemma_digits_monotone(digits@, i + 1);
                assert(digits@.subrange(0, i + 1).drop_last() =~= digits@.subrange(0, i as int));
                assert(digit == digit_value(digits@[i as int]));
            }
            if number > (i64::MAX - digit) / 10 {
                return Err(ParseError::new("number too large to fit in target type"));
            }
            number = number * 10 + digit;
            i += 1;
        }
        assert(digits@.subrange(0, i as int) =~= digits@);
        Ok(Expression::Integer(number))
    }

    /// A string literal.
    fn parse_string(&mut self, value: String) -> (r: Result<Expression, ParseError>)
        ensures
            *final(self) == *old(self),
            expr_outcome(r) == Ok::<ExpressionView, Seq<char>>(ExpressionView::Str(value@)),
    {
        Ok(Expression::String(value))
    }

    /// `true` or `false`.
    fn parse_boolean(&mut self, value: bool) -> (r: Result<Expression, ParseError>)
        ensures
            *final(self) == *old(self),
            expr_outcome(r) == Ok::<ExpressionView, Seq<char>>(ExpressionView::Boolean(value)),
    {
        Ok(Expression::Boolean(value))
    }

    /// Parses an array literal, with the parser on its opening bracket.
    fn parse_array(&mut self) -> (r: Result<Expression, ParseError>)
        requires
            old(self).wf(),
            cur(old(self).toks(), old(self).cursor()) is LBracket,
        ensures
            final(self).wf(),
            final(self).tokens == old(self).tokens,
            old(self).position <= final(self).position,
            (Parsed { cursor: final(self).cursor(), result: expr_outcome(r) }) == parse_prefix(
                old(self).toks(),
                old(self).cursor(),
            ),
        decreases old(self).tokens.len() - old(self).position, 6nat,
    {
        match self.parse_expressions(Token::RBracket) {
            Ok(elements) => Ok(Expression::Array(elements)),
            Err(e) => Err(e),
        }
    }

    /// Parses a hash literal, with the parser on its opening brace.
    fn parse_hash(&mut self) -> (r: Result<Expression, ParseError>)
        requires
            old(self).wf(),
            cur(old(self).toks(), old(self).cursor()) is LBrace,
        ensures
            final(self).wf(),
            final(self).tokens == old(self).tokens,
            old(self).position <= final(self).position,
            (Parsed { cursor: final(self).cursor(), result: expr_outcome(r) }) == parse_prefix(
                old(self).toks(),
                old(self).cursor(),
            ),
        decreases old(self).tokens.len() - old(self).position, 6nat,
    {
        let mut pairs: Vec<(Expression, Expression)> = Vec::new();
        let ghost t = self.toks();
        let ghost start = self.cursor();
        assert(pairs_view(pairs@) =~= Seq::empty());
        loop
            invariant
                self.wf(),
                self.tokens == old(self).tokens,
                t == self.toks(),
                start == old(self).cursor(),
                start.position <= self.position,
                parse_prefix(t, start) == hash_loop(t, self.cursor(), pairs_view(pairs@)),
            decreases self.tokens.len() - self.position,
        {
            if self.peek_token().same(&Token::RBrace) {
                self.next_token();
                return Ok(Expression::Hash(pairs));
            }
            if self.position >= self.tokens.len() {
                return Err(no_prefix(self.cur_token()));
            }
            self.next_token();
            let key = match self.parse_expression(Precedence::Lowest) {
                Ok(key) => key,
                Err(e) => {
                    return Err(e);
                },
            };
            if !self.peek_token().same(&Token::Colon) {
                return Err(expected(":,", self.peek_token()));
            }
            self.next_token();
            self.next_token();
            let value = match self.parse_expression(Precedence::Lowest) {
                Ok(value) => value,
                Err(e) => {
                    return Err(e);
                },
            };
            let ghost collected = pairs_view(pairs@);
            pairs.push((key, value));
            assert(pairs_view(pairs@) =~= collected.push((key@, value@)));
            if !self.peek_token().same(&Token::Comma) && !self.peek_token().same(&Token::RBrace) {
                return Err(expected(", or }", self.peek_token()));
            }
            if self.peek_token().same(&Token::Comma) {
                self.next_token();
            }
        }
    }

    /// Parses a prefix operator and its operand.
    fn parse_prefix_expression(&mut self) -> (r: Result<Expression, ParseError>)
        requires
            old(self).wf(),
            cur(old(self).toks(), old(self).cursor()) is Bang || cur(
                old(self).toks(),
                old(self).cursor(),
            ) is Minus,
        ensures
            final(self).wf(),
            final(self).tokens == old(self).tokens,
            old(self).position <= final(self).position,
            (Parsed { cursor: final(self).cursor(), result: expr_outcome(r) }) == parse_prefix(
                old(self).toks(),
                old(self).cursor(),
            ),
        decreases old(self).tokens.len() - old(self).position, 6nat,
    {
        let op = self.cur_token().clone();
        self.next_token();
        let right = match self.parse_expression(Precedence::Prefix) {
            Ok(right) => right,
            Err(e) => {
                return Err(e);
            },
        };
        Ok(Expression::Prefix(op, Box::new(right)))
    }

    /// Parses an expression in parentheses.
    fn parse_group(&mut self) -> (r: Result<Expression, ParseError>)
        requires
            old(self).wf(),
            cur(old(self).toks(), old(self).cursor()) is LParen,
        ensures
            final(self).wf(),
            final(self).tokens == old(self).tokens,
            old(self).position <= final(self).position,
            (Parsed { cursor: final(self).cursor(), result: expr_outcome(r) }) == parse_prefix(
                old(self).toks(),
                old(self).cursor(),
            ),
        decreases old(self).tokens.len() - old(self).position, 6nat,
    {
        self.next_token();
        let expression = match self.parse_expression(Precedence::Lowest) {
            Ok(expression) => expression,
            Err(e) => {
                return Err(e);
            },
        };
        if !self.peek_token().same(&Token::RParen) {
            return Err(expected("),", self.peek_token()));
        }
        self.next_token();
        Ok(expression)
    }

    /// Parses a conditional, with the parser on `if`.
    fn parse_if(&mut self) -> (r: Result<Expression, ParseError>)
        requires
            old(self).wf(),
        ensures
            final(self).wf(),
            final(self).tokens == old(self).tokens,
            old(self).position <= final(self).position,
            (Parsed { cursor: final(self).cursor(), result: expr_outcome(r) }) == parse_if(
                old(self).toks(),
                old(self).cursor(),
            ),
        decreases old(self).tokens.len() - old(self).position, 6nat,
    {
        if !self.peek_token().same(&Token::LParen) {
            return Err(expected("(,", self.peek_token()));
        }
        self.next_token();
        self.next_token();
        let condition = match self.parse_expression(Precedence::Lowest) {
            Ok(condition) => condition,
            Err(e) => {
                return Err(e);
            },
        };
        if !self.peek_token().same(&Token::RParen) {
            return Err(expected("),", self.peek_token()));
        }
        self.next_token();
        if !self.peek_token().same(&Token::LBrace) {
            return Err(expected("{,", self.peek_token()));
        }
        self.next_token();
        let consequence = match self.parse_block_statement() {
            Ok(consequence) => consequence,
            Err(e) => {
                return Err(e);
            },
        };
        let alternative = if self.peek_token().same(&Token::Else) {
            self.next_token();
            if !self.peek_token().same(&Token::LBrace) {
                return Err(expected("{,", self.peek_token()));
            }
            self.next_token();
            match self.parse_block_statement() {
                Ok(alternative) => Some(Box::new(alternative)),
                Err(e) => {
                    return Err(e);
                },
            }
        } else {
            None
        };
        Ok(Expression::If(Box::new(condition), Box::new(consequence), alternative))
    }

    /// Parses a function literal, with the parser on `fn`.
    fn parse_function(&mut self) -> (r: Result<Expression, ParseError>)
        requires
            old(self).wf(),
        ensures
            final(self).wf(),
            final(self).tokens == old(self).tokens,
            old(self).position <= final(self).position,
            (Parsed { cursor: final(self).cursor(), result: expr_outcome(r) }) == parse_function(
                old(self).toks(),
                old(self).cursor(),
            ),
        decreases old(self).tokens.len() - old(self).position, 6nat,
    {
        if !self.peek_token().same(&Token::LParen) {
            return Err(expected("(,", self.peek_token()));
        }
        self.next_token();
        let parameters = match self.parse_function_parameters() {
            Ok(parameters) => parameters,
            Err(e) => {
                return Err(e);
            },
        };
        if !self.peek_token().same(&Token::LBrace) {
            return Err(expected("{,", self.peek_token()));
        }
        self.next_token();
        let body = match self.parse_block_statement() {
            Ok(body) => body,
            Err(e) => {
                return Err(e);
            },
        };
        Ok(Expression::Function(parameters, Box::new(body), None))
    }

    /// Parses the parameters of a function literal, with the parser on the
    /// opening parenthesis. A comma before the closing parenthesis is an
    /// error.
    fn parse_function_parameters(&mut self) -> (r: Result<Vec<String>, ParseError>)
        requires
            old(self).wf(),
        ensures
            final(self).wf(),
            final(self).tokens == old(self).tokens,
            old(self).position <= final(self).position,
            (Parsed { cursor: final(self).cursor(), result: names_outcome(r) }) == parse_parameters(
                old(self).toks(),
                old(self).cursor(),
                Seq::empty(),
            ),
    {
        let mut parameters: Vec<String> = Vec::new();
        let ghost t = self.toks();
        assert(texts(parameters@) =~= Seq::empty());
        loop
            invariant
                self.wf(),
                self.tokens == old(self).tokens,
                t == self.toks(),
                old(self).position <= self.position,
                parse_parameters(t, old(self).cursor(), Seq::empty()) == parse_parameters(
                    t,
                    self.cursor(),
                    texts(parameters@),
                ),
            decreases self.tokens.len() - self.position,
        {
            if self.peek_token().same(&Token::RParen) {
                if parameters.len() > 0 && self.cur_token().same(&Token::Comma) {
                    return Err(expected("IDENT,", self.peek_token()));
                }
                self.next_token();
                return Ok(parameters);
            }
            self.next_token();
            match self.cur_token() {
                Token::Ident(value) => {
                    let ghost collected = texts(parameters@);
                    let name = value.clone();
                    parameters.push(name);
                    assert(texts(parameters@) =~= collected.push(name@));
                },
                other => {
                    return Err(expected("IDENT,", other));
                },
            }
            if !self.peek_token().same(&Token::Comma) && !self.peek_token().same(&Token::RParen) {
                return Err(expected(", or )", self.peek_token()));
            }
            if self.peek_token().same(&Token::Comma) {
                self.next_token();
            }
        }
    }

    /// Parses a list of expressions up to the token `end`, with the parser
    /// on the token that opens the list.
    fn parse_expressions(&mut self, end: Token) -> (r: Result<Vec<Expression>, ParseError>)
        requires
            old(self).wf(),
        ensures
            final(self).wf(),
            final(self).tokens == old(self).tokens,
            old(self).position <= final(self).position,
            (Parsed { cursor: final(self).cursor(), result: exprs_outcome(r) }) == expressions_loop(
                old(self).toks(),
                old(self).cursor(),
                end@,
                Seq::empty(),
            ),
        decreases old(self).tokens.len() - old(self).position, 4nat,
    {
        let mut expressions: Vec<Expression> = Vec::new();
        let ghost t = self.toks();
        assert(exprs_view(expressions@) =~= Seq::empty());
        loop
            invariant
                self.wf(),
                self.tokens == old(self).tokens,
                t == self.toks(),
                old(self).position <= self.position,
                expressions_loop(t, old(self).cursor(), end@, Seq::empty()) == expressions_loop(
                    t,
                    self.cursor(),
                    end@,
                    exprs_view(expressions@),
                ),
            decreases self.tokens.len() - self.position,
        {
            if self.peek_token().same(&end) {
                self.next_token();
                return Ok(expressions);
            }
            if self.position >= self.tokens.len() {
                return Err(no_prefix(self.cur_token()));
            }
            self.next_token();
            let argument = match self.parse_expression(Precedence::Lowest) {
                Ok(argument) => argument,
                Err(e) => {
                    return Err(e);
                },
            };
            let ghost collected = exprs_view(expressions@);
            expressions.push(argument);
            assert(exprs_view(expressions@) =~= collected.push(argument@));
            if !self.peek_token().same(&Token::Comma) && !self.peek_token().same(&end) {
                let mut what = String::new();
                push_str(&mut what, ", or ");
                end.write(&mut what);
                assert(what@ =~= ", or "@ + end@.display());
                return Err(expected(what.as_str(), self.peek_token()));
            }
            if self.peek_token().same(&Token::Comma) {
                self.next_token();
            }
        }
    }

    /// Parses how an expression goes on behind `left`.
    fn parse_infix(&mut self, left: Expression) -> (r: Result<Expression, ParseError>)
        requires
            old(self).wf(),
        ensures
            final(self).wf(),
            final(self).tokens == old(self).tokens,
            old(self).position <= final(self).position,
            r is Ok ==> old(self).position < final(self).position,
            (Parsed { cursor: final(self).cursor(), result: expr_outcome(r) }) == parse_infix(
                old(self).toks(),
                old(self).cursor(),
                left@,
            ),
        decreases old(self).tokens.len() - old(self).position, 6nat,
    {
        match self.peek_token() {
            Token::Plus
            | Token::Minus
            | Token::Slash
            | Token::Asterisk
            | Token::Eq
            | Token::NotEq
            | Token::Lt
            | Token::Gt => self.parse_infix_expression(left),
            Token::LParen => self.parse_call(left),
            Token::LBracket => self.parse_index(left),
            other => Err(no_infix(other)),
        }
    }

    /// Parses a binary operator and its right operand.
    fn parse_infix_expression(&mut self, left: Expression) -> (r: Result<Expression, ParseError>)
        requires
            old(self).wf(),
            infix_operator(peek(old(self).toks(), old(self).cursor())),
        ensures
            final(self).wf(),
            final(self).tokens == old(self).tokens,
            old(self).position <= final(self).position,
            r is Ok ==> old(self).position < final(self).position,
            (Parsed { cursor: final(self).cursor(), result: expr_outcome(r) }) == parse_infix(
                old(self).toks(),
                old(self).cursor(),
                left@,
            ),
        decreases old(self).tokens.len() - old(self).position, 5nat,
    {
        self.next_token();
        let op = self.cur_token().clone();
        let precedence = Precedence::from(&op);
        self.next_token();
        let right = match self.parse_expression(precedence) {
            Ok(right) => right,
            Err(e) => {
                return Err(e);
            },
        };
        Ok(Expression::Infix(op, Box::new(left), Box::new(right)))
    }

    /// Parses the arguments of a call.
    fn parse_call(&mut self, function: Expression) -> (r: Result<Expression, ParseError>)
        requires
            old(self).wf(),
            peek(old(self).toks(), old(self).cursor()) is LParen,
        ensures
            final(self).wf(),
            final(self).tokens == old(self).tokens,
            old(self).position <= final(self).position,
            r is Ok ==> old(self).position < final(self).position,
            (Parsed { cursor: final(self).cursor(), result: expr_outcome(r) }) == parse_infix(
                old(self).toks(),
                old(self).cursor(),
                function@,
            ),
        decreases old(self).tokens.len() - old(self).position, 5nat,
    {
        self.next_token();
        let arguments = match self.parse_expressions(Token::RParen) {
            Ok(arguments) => arguments,
            Err(e) => {
                return Err(e);
            },
        };
        Ok(Expression::Call(Box::new(function), arguments))
    }

    /// Parses an index or a slice.
    fn parse_index(&mut self, left: Expression) -> (r: Result<Expression, ParseError>)
        requires
            old(self).wf(),
            peek(old(self).toks(), old(self).cursor()) is LBracket,
        ensures
            final(self).wf(),
            final(self).tokens == old(self).tokens,
            old(self).position <= final(self).position,
            r is Ok ==> old(self).position < final(self).position,
            (Parsed { cursor: final(self).cursor(), result: expr_outcome(r) }) == parse_index(
                old(self).toks(),
                old(self).cursor(),
                left@,
            ),
        decreases old(self).tokens.len() - old(self).position, 5nat,
    {
        self.next_token();
        if self.peek_token().same(&Token::Colon) {
            return self.parse_index_slice(left, None);
        }
        self.next_token();
        let index = match self.parse_expression(Precedence::Lowest) {
            Ok(index) => index,
            Err(e) => {
                return Err(e);
            },
        };
        if self.peek_token().same(&Token::Colon) {
            return self.parse_index_slice(left, Some(Box::new(index)));
        }
        if !self.peek_token().same(&Token::RBracket) {
            return Err(expected("],", self.peek_token()));
        }
        self.next_token();
        Ok(Expression::Index(Box::new(left), Box::new(index)))
    }

    /// Parses the rest of a slice, with the parser before its colon.
    fn parse_index_slice(&mut self, left: Expression, start: Option<Box<Expression>>) -> (r: Result<
        Expression,
        ParseError,
    >)
        requires
            old(self).wf(),
            peek(old(self).toks(), old(self).cursor()) is Colon,
        ensures
            final(self).wf(),
            final(self).tokens == old(self).tokens,
            old(self).position < final(self).position,
            (Parsed { cursor: final(self).cursor(), result: expr_outcome(r) }) == parse_index_slice(
                old(self).toks(),
                old(self).cursor(),
                left@,
                match start {
                    Some(tree) => Some(tree@),
                    None => None,
                },
            ),
        decreases old(self).tokens.len() - old(self).position, 4nat,
    {
        self.next_token();
        if self.peek_token().same(&Token::RBracket) {
            self.next_token();
            return Ok(Expression::SliceIndex(Box::new(left), start, None));
        }
        self.next_token();
        let end = match self.parse_expression(Precedence::Lowest) {
            Ok(end) => end,
            Err(e) => {
                return Err(e);
            },
        };
        if !self.peek_token().same(&Token::RBracket) {
            return Err(expected("],", self.peek_token()));
        }
        self.next_token();
        Ok(Expression::SliceIndex(Box::new(left), start, Some(Box::new(end))))
    }
}

/// The tokens that are binary operators.
pub open spec fn infix_operator(token: TokenView) -> bool {
    token is Plus || token is Minus || token is Slash || token is Asterisk || token is Eq
        || token is NotEq || token is Lt || token is Gt
}

} // verus!
