//! What the parser does, stated over mathematical values: a function from
//! the tokens and a position among them to the syntax tree, the position
//! afterwards and the diagnostics.

use crate::lexer::token::TokenView;
use crate::parser::ast::{ExpressionView, StatementView};
use vstd::prelude::*;

verus! {

#[derive(Debug, PartialEq, PartialOrd, Clone, Copy)]
pub enum Precedence {
    Lowest,
    Slice,
    Equals,  // ==
    LessGreater,  // > or <
    Sum,  // +
    Product,  // *
    Prefix,  // -X or !X
    Call,  // myFunction(X)
    Index,  // array[index]
}

/// Where the parser stands: the index of the current token, and the
/// diagnostics given so far.
#[verifier::ext_equal]
pub struct Cursor {
    pub position: int,
    pub errors: Seq<Seq<char>>,
}

/// What a parse function leaves: where the parser stands afterwards, and
/// the tree or the diagnostic.
#[verifier::ext_equal]
pub struct Parsed<T> {
    pub cursor: Cursor,
    pub result: Result<T, Seq<char>>,
}

impl Precedence {
    /// The precedence's place on the ladder, the lowest first.
    pub open spec fn rank(self) -> nat {
        match self {
            Precedence::Lowest => 0,
            Precedence::Slice => 1,
            Precedence::Equals => 2,
            Precedence::LessGreater => 3,
            Precedence::Sum => 4,
            Precedence::Product => 5,
            Precedence::Prefix => 6,
            Precedence::Call => 7,
            Precedence::Index => 8,
        }
    }

    /// The precedence with which a token binds as an infix operator. The
    /// colon binds least, so that an expression ends at a slice's colon.
    pub open spec fn of(token: TokenView) -> Precedence {
        match token {
            TokenView::LBracket => Precedence::Index,
            TokenView::Eq | TokenView::NotEq => Precedence::Equals,
            TokenView::Lt | TokenView::Gt => Precedence::LessGreater,
            TokenView::Plus | TokenView::Minus => Precedence::Sum,
            TokenView::Asterisk | TokenView::Slash => Precedence::Product,
            TokenView::LParen => Precedence::Call,
            _ => Precedence::Lowest,
        }
    }
}

/// The token at an index; behind the last token stands `Eof`.
pub open spec fn token(t: Seq<TokenView>, i: int) -> TokenView {
    if 0 <= i < t.len() {
        t[i]
    } else {
        TokenView::Eof
    }
}

/// The current token.
pub open spec fn cur(t: Seq<TokenView>, c: Cursor) -> TokenView {
    token(t, c.position)
}

/// The token behind the current one.
pub open spec fn peek(t: Seq<TokenView>, c: Cursor) -> TokenView {
    token(t, c.position + 1)
}

/// The cursor one token on; it stays where no token is left.
pub open spec fn next(t: Seq<TokenView>, c: Cursor) -> Cursor {
    Cursor {
        position: if 0 <= c.position < t.len() {
            c.position + 1
        } else {
            c.position
        },
        ..c
    }
}

/// The cursor past a semicolon that follows the current token.
pub open spec fn skip_semicolon(t: Seq<TokenView>, c: Cursor) -> Cursor {
    if peek(t, c) is Semicolon {
        next(t, c)
    } else {
        c
    }
}

/// Whether the parser has moved on from `from` to `to`, within the
/// tokens.
pub open spec fn advanced(t: Seq<TokenView>, from: Cursor, to: Cursor) -> bool {
    0 <= from.position < to.position <= t.len()
}

/// The diagnostic for a token that is not the one the grammar asks for.
pub open spec fn expected_text(what: Seq<char>, got: TokenView) -> Seq<char> {
    "Expected next token to be "@ + what + " got "@ + got.describe() + " instead"@
}

/// The diagnostic for a token that no expression starts with.
pub open spec fn no_prefix_text(got: TokenView) -> Seq<char> {
    "No prefix parse function for "@ + got.display() + " found"@
}

/// The diagnostic for a token that no expression goes on with.
pub open spec fn no_infix_text(got: TokenView) -> Seq<char> {
    "No infix parse function for "@ + got.display() + " found"@
}

/// A result that is a diagnostic.
pub open spec fn failed<T>(c: Cursor, message: Seq<char>) -> Parsed<T> {
    Parsed { cursor: c, result: Err(message) }
}

/// A result that is a tree.
pub open spec fn done<T>(c: Cursor, value: T) -> Parsed<T> {
    Parsed { cursor: c, result: Ok(value) }
}

/// The value of a decimal digit.
pub open spec fn digit_value(c: char) -> int {
    c as int - '0' as int
}

/// The number that a text of digits writes.
pub open spec fn digits_value(digits: Seq<char>) -> int
    decreases digits.len(),
{
    if digits.len() == 0 {
        0
    } else {
        digits_value(digits.drop_last()) * 10 + digit_value(digits.last())
    }
}

/// Whether a text holds digits only.
pub open spec fn all_digits(digits: Seq<char>) -> bool {
    forall|i: int| 0 <= i < digits.len() ==> '0' <= #[trigger] digits[i] && digits[i] <= '9'
}

/// The integer that a literal's text writes. A number that does not fit
/// into 64 bits with a sign is an error.
pub open spec fn parse_integer_spec(digits: Seq<char>) -> Result<i64, Seq<char>> {
    if digits.len() == 0 {
        Err("cannot parse integer from empty string"@)
    } else if !all_digits(digits) {
        Err("invalid digit found in string"@)
    } else if digits_value(digits) > i64::MAX {
        Err("number too large to fit in target type"@)
    } else {
        Ok(digits_value(digits) as i64)
    }
}

/// The parameters of a function literal from the cursor on, which stands
/// on the opening parenthesis or on a comma: names separated by commas,
/// up to the closing parenthesis, on which the cursor stands afterwards.
pub open spec fn parse_parameters(t: Seq<TokenView>, c: Cursor, names: Seq<Seq<char>>) -> Parsed<
    Seq<Seq<char>>,
>
    decreases t.len() - c.position,
{
    if peek(t, c) is RParen {
        if names.len() > 0 && cur(t, c) is Comma {
            failed(c, expected_text("IDENT,"@, peek(t, c)))
        } else {
            done(next(t, c), names)
        }
    } else {
        let c1 = next(t, c);
        match cur(t, c1) {
            TokenView::Ident(name) => {
                if !(peek(t, c1) is Comma) && !(peek(t, c1) is RParen) {
                    failed(c1, expected_text(", or )"@, peek(t, c1)))
                } else {
                    let c2 = if peek(t, c1) is Comma {
                        next(t, c1)
                    } else {
                        c1
                    };
                    if advanced(t, c, c2) {
                        parse_parameters(t, c2, names.push(name))
                    } else {
                        failed(c2, "the parser did not advance"@)
                    }
                }
            },
            other => failed(c1, expected_text("IDENT,"@, other)),
        }
    }
}

/// The statements of a block from the cursor on, added to `statements`,
/// up to the closing brace, on which the cursor stands afterwards. A
/// statement that fails leaves its diagnostic and parsing goes on with the
/// next token. A block that the tokens end in is an error.
pub open spec fn block_loop(t: Seq<TokenView>, c: Cursor, statements: Seq<StatementView>)
    -> Parsed<StatementView>
    decreases t.len() - c.position, 11nat,
{
    if cur(t, c) is RBrace {
        done(c, StatementView::Block(statements))
    } else if cur(t, c) is Eof {
        failed(c, expected_text("},"@, cur(t, c)))
    } else {
        let parsed = parse_statement(t, c);
        let (c1, collected) = match parsed.result {
            Ok(statement) => (parsed.cursor, statements.push(statement)),
            Err(message) => (
                Cursor { errors: parsed.cursor.errors.push(message), ..parsed.cursor },
                statements,
            ),
        };
        let c2 = next(t, c1);
        if advanced(t, c, c2) {
            block_loop(t, c2, collected)
        } else {
            failed(c2, "the parser did not advance"@)
        }
    }
}

/// A block, with the cursor on its opening brace.
pub open spec fn parse_block(t: Seq<TokenView>, c: Cursor) -> Parsed<StatementView>
    decreases t.len() - c.position, 12nat,
{
    let c1 = next(t, c);
    if advanced(t, c, c1) {
        block_loop(t, c1, Seq::empty())
    } else {
        failed(c1, expected_text("},"@, cur(t, c1)))
    }
}

/// The expressions of a list from the cursor on, added to `items`:
/// expressions separated by commas, up to the token `end`, on which the
/// cursor stands afterwards.
pub open spec fn expressions_loop(
    t: Seq<TokenView>,
    c: Cursor,
    end: TokenView,
    items: Seq<ExpressionView>,
) -> Parsed<Seq<ExpressionView>>
    decreases t.len() - c.position, 3nat,
{
    if peek(t, c) == end {
        done(next(t, c), items)
    } else {
        let c1 = next(t, c);
        if !advanced(t, c, c1) {
            failed(c1, no_prefix_text(cur(t, c1)))
        } else {
            let parsed = parse_expression(t, c1, Precedence::Lowest);
            match parsed.result {
                Err(message) => failed(parsed.cursor, message),
                Ok(item) => {
                    let c2 = parsed.cursor;
                    if peek(t, c2) != TokenView::Comma && peek(t, c2) != end {
                        failed(c2, expected_text(", or "@ + end.display(), peek(t, c2)))
                    } else {
                        let c3 = if peek(t, c2) is Comma {
                            next(t, c2)
                        } else {
                            c2
                        };
                        if advanced(t, c, c3) {
                            expressions_loop(t, c3, end, items.push(item))
                        } else {
                            failed(c3, "the parser did not advance"@)
                        }
                    }
                },
            }
        }
    }
}

/// The pairs of a hash literal from the cursor on, added to `pairs`:
/// `key: value` separated by commas, up to the closing brace, on which the
/// cursor stands afterwards.
pub open spec fn hash_loop(
    t: Seq<TokenView>,
    c: Cursor,
    pairs: Seq<(ExpressionView, ExpressionView)>,
) -> Parsed<ExpressionView>
    decreases t.len() - c.position, 3nat,
{
    if peek(t, c) is RBrace {
        done(next(t, c), ExpressionView::Hash(pairs))
    } else {
        let c1 = next(t, c);
        if !advanced(t, c, c1) {
            failed(c1, no_prefix_text(cur(t, c1)))
        } else {
            let key = parse_expression(t, c1, Precedence::Lowest);
            match key.result {
                Err(message) => failed(key.cursor, message),
                Ok(key_tree) => {
                    let c2 = key.cursor;
                    if !(peek(t, c2) is Colon) {
                        failed(c2, expected_text(":,"@, peek(t, c2)))
                    } else {
                        let c3 = next(t, next(t, c2));
                        if !advanced(t, c, c3) {
                            failed(c3, "the parser did not advance"@)
                        } else {
                            let value = parse_expression(t, c3, Precedence::Lowest);
                            match value.result {
                                Err(message) => failed(value.cursor, message),
                                Ok(value_tree) => {
                                    let c4 = value.cursor;
                                    if !(peek(t, c4) is Comma) && !(peek(t, c4) is RBrace) {
                                        failed(c4, expected_text(", or }"@, peek(t, c4)))
                                    } else {
                                        let c5 = if peek(t, c4) is Comma {
                                            next(t, c4)
                                        } else {
                                            c4
                                        };
                                        if advanced(t, c, c5) {
                                            hash_loop(t, c5, pairs.push((key_tree, value_tree)))
                                        } else {
                                            failed(c5, "the parser did not advance"@)
                                        }
                                    }
                                },
                            }
                        }
                    }
                },
            }
        }
    }
}

/// A conditional, with the cursor on `if`: the condition in parentheses,
/// the consequence in braces, and after `else` the alternative in braces.
pub open spec fn parse_if(t: Seq<TokenView>, c: Cursor) -> Parsed<ExpressionView>
    decreases t.len() - c.position, 6nat,
{
    if !(peek(t, c) is LParen) {
        failed(c, expected_text("(,"@, peek(t, c)))
    } else {
        let c1 = next(t, next(t, c));
        if !advanced(t, c, c1) {
            failed(c1, "the parser did not advance"@)
        } else {
            let condition = parse_expression(t, c1, Precedence::Lowest);
            match condition.result {
                Err(message) => failed(condition.cursor, message),
                Ok(condition_tree) => {
                    let c2 = condition.cursor;
                    if !(peek(t, c2) is RParen) {
                        failed(c2, expected_text("),"@, peek(t, c2)))
                    } else {
                        let c3 = next(t, c2);
                        if !(peek(t, c3) is LBrace) {
                            failed(c3, expected_text("{,"@, peek(t, c3)))
                        } else {
                            let c4 = next(t, c3);
                            if !advanced(t, c, c4) {
                                failed(c4, "the parser did not advance"@)
                            } else {
                                let consequence = parse_block(t, c4);
                                match consequence.result {
                                    Err(message) => failed(consequence.cursor, message),
                                    Ok(consequence_tree) => if c.position
                                        <= consequence.cursor.position <= t.len() {
                                        parse_else(
                                            t,
                                            consequence.cursor,
                                            condition_tree,
                                            consequence_tree,
                                        )
                                    } else {
                                        failed(consequence.cursor, "the parser did not advance"@)
                                    },
                                }
                            }
                        }
                    }
                },
            }
        }
    }
}

/// The rest of a conditional behind its consequence.
pub open spec fn parse_else(
    t: Seq<TokenView>,
    c: Cursor,
    condition: ExpressionView,
    consequence: StatementView,
) -> Parsed<ExpressionView>
    decreases t.len() - c.position, 5nat,
{
    if !(peek(t, c) is Else) {
        done(c, ExpressionView::If(Box::new(condition), Box::new(consequence), None))
    } else {
        let c1 = next(t, c);
        if !(peek(t, c1) is LBrace) {
            failed(c1, expected_text("{,"@, peek(t, c1)))
        } else {
            let c2 = next(t, c1);
            if !advanced(t, c, c2) {
                failed(c2, "the parser did not advance"@)
            } else {
                let alternative = parse_block(t, c2);
                match alternative.result {
                    Err(message) => failed(alternative.cursor, message),
                    Ok(alternative_tree) => done(
                        alternative.cursor,
                        ExpressionView::If(
                            Box::new(condition),
                            Box::new(consequence),
                            Some(Box::new(alternative_tree)),
                        ),
                    ),
                }
            }
        }
    }
}

/// A function literal, with the cursor on `fn`: the parameters in
/// parentheses and the body in braces.
pub open spec fn parse_function(t: Seq<TokenView>, c: Cursor) -> Parsed<ExpressionView>
    decreases t.len() - c.position, 6nat,
{
    if !(peek(t, c) is LParen) {
        failed(c, expected_text("(,"@, peek(t, c)))
    } else {
        let parameters = parse_parameters(t, next(t, c), Seq::empty());
        match parameters.result {
            Err(message) => failed(parameters.cursor, message),
            Ok(names) => {
                let c1 = parameters.cursor;
                if !(peek(t, c1) is LBrace) {
                    failed(c1, expected_text("{,"@, peek(t, c1)))
                } else {
                    let c2 = next(t, c1);
                    if !advanced(t, c, c2) {
                        failed(c2, "the parser did not advance"@)
                    } else {
                        let body = parse_block(t, c2);
                        match body.result {
                            Err(message) => failed(body.cursor, message),
                            Ok(body_tree) => done(
                                body.cursor,
                                ExpressionView::Function(names, Box::new(body_tree), None),
                            ),
                        }
                    }
                }
            },
        }
    }
}

/// What an expression starts with, at the current token: a name, a
/// literal, a list in brackets, a hash in braces, a prefix operator and
/// its operand, an expression in parentheses, a conditional or a function
/// literal.
pub open spec fn parse_prefix(t: Seq<TokenView>, c: Cursor) -> Parsed<ExpressionView>
    decreases t.len() - c.position, 7nat,
{
    match cur(t, c) {
        TokenView::Ident(name) => done(c, ExpressionView::Identifier(name)),
        TokenView::Int(digits) => match parse_integer_spec(digits) {
            Ok(value) => done(c, ExpressionView::Integer(value)),
            Err(message) => failed(c, message),
        },
        TokenView::Str(text) => done(c, ExpressionView::Str(text)),
        TokenView::True => done(c, ExpressionView::Boolean(true)),
        TokenView::False => done(c, ExpressionView::Boolean(false)),
        TokenView::LBracket => {
            let elements = expressions_loop(t, c, TokenView::RBracket, Seq::empty());
            match elements.result {
                Ok(items) => done(elements.cursor, ExpressionView::Array(items)),
                Err(message) => failed(elements.cursor, message),
            }
        },
        TokenView::LBrace => hash_loop(t, c, Seq::empty()),
        TokenView::Bang | TokenView::Minus => {
            let operand = parse_expression(t, next(t, c), Precedence::Prefix);
            match operand.result {
                Ok(right) => done(
                    operand.cursor,
                    ExpressionView::Prefix(cur(t, c), Box::new(right)),
                ),
                Err(message) => failed(operand.cursor, message),
            }
        },
        TokenView::LParen => {
            let inner = parse_expression(t, next(t, c), Precedence::Lowest);
            match inner.result {
                Err(message) => failed(inner.cursor, message),
                Ok(tree) => if !(peek(t, inner.cursor) is RParen) {
                    failed(inner.cursor, expected_text("),"@, peek(t, inner.cursor)))
                } else {
                    done(next(t, inner.cursor), tree)
                },
            }
        },
        TokenView::If => parse_if(t, c),
        TokenView::Function => parse_function(t, c),
        other => failed(c, no_prefix_text(other)),
    }
}

/// The rest of a slice, with the cursor before its colon: an optional end
/// and the closing bracket.
pub open spec fn parse_index_slice(
    t: Seq<TokenView>,
    c: Cursor,
    left: ExpressionView,
    from: Option<ExpressionView>,
) -> Parsed<ExpressionView>
    decreases t.len() - c.position, 4nat,
{
    let from_box = match from {
        Some(tree) => Some(Box::new(tree)),
        None => None,
    };
    let c1 = next(t, c);
    if peek(t, c1) is RBracket {
        done(next(t, c1), ExpressionView::SliceIndex(Box::new(left), from_box, None))
    } else {
        let c2 = next(t, c1);
        if !advanced(t, c, c2) {
            failed(c2, "the parser did not advance"@)
        } else {
            let stop = parse_expression(t, c2, Precedence::Lowest);
            match stop.result {
                Err(message) => failed(stop.cursor, message),
                Ok(stop_tree) => if !(peek(t, stop.cursor) is RBracket) {
                    failed(stop.cursor, expected_text("],"@, peek(t, stop.cursor)))
                } else {
                    done(
                        next(t, stop.cursor),
                        ExpressionView::SliceIndex(
                            Box::new(left),
                            from_box,
                            Some(Box::new(stop_tree)),
                        ),
                    )
                },
            }
        }
    }
}

/// An index or a slice, with the cursor before the opening bracket.
pub open spec fn parse_index(t: Seq<TokenView>, c: Cursor, left: ExpressionView) -> Parsed<
    ExpressionView,
>
    decreases t.len() - c.position, 5nat,
{
    let c1 = next(t, c);
    if peek(t, c1) is Colon {
        parse_index_slice(t, c1, left, None)
    } else {
        let c2 = next(t, c1);
        if !advanced(t, c, c2) {
            failed(c2, "the parser did not advance"@)
        } else {
            let index = parse_expression(t, c2, Precedence::Lowest);
            match index.result {
                Err(message) => failed(index.cursor, message),
                Ok(index_tree) => if peek(t, index.cursor) is Colon {
                    if advanced(t, c, index.cursor) {
                        parse_index_slice(t, index.cursor, left, Some(index_tree))
                    } else {
                        failed(index.cursor, "the parser did not advance"@)
                    }
                } else if !(peek(t, index.cursor) is RBracket) {
                    failed(index.cursor, expected_text("],"@, peek(t, index.cursor)))
                } else {
                    done(
                        next(t, index.cursor),
                        ExpressionView::Index(Box::new(left), Box::new(index_tree)),
                    )
                },
            }
        }
    }
}

/// How an expression goes on behind `left`, by the token behind the
/// current one: a binary operator and its right operand, a call's
/// arguments, or an index.
pub open spec fn parse_infix(t: Seq<TokenView>, c: Cursor, left: ExpressionView) -> Parsed<
    ExpressionView,
>
    decreases t.len() - c.position, 6nat,
{
    match peek(t, c) {
        TokenView::Plus
        | TokenView::Minus
        | TokenView::Slash
        | TokenView::Asterisk
        | TokenView::Eq
        | TokenView::NotEq
        | TokenView::Lt
        | TokenView::Gt => {
            let c1 = next(t, next(t, c));
            if !advanced(t, c, c1) {
                failed(c1, "the parser did not advance"@)
            } else {
                let right = parse_expression(t, c1, Precedence::of(peek(t, c)));
                match right.result {
                    Err(message) => failed(right.cursor, message),
                    Ok(right_tree) => done(
                        right.cursor,
                        ExpressionView::Infix(peek(t, c), Box::new(left), Box::new(right_tree)),
                    ),
                }
            }
        },
        TokenView::LParen => {
            let c1 = next(t, c);
            if !advanced(t, c, c1) {
                failed(c1, "the parser did not advance"@)
            } else {
                let args = expressions_loop(t, c1, TokenView::RParen, Seq::empty());
                match args.result {
                    Err(message) => failed(args.cursor, message),
                    Ok(items) => done(args.cursor, ExpressionView::Call(Box::new(left), items)),
                }
            }
        },
        TokenView::LBracket => parse_index(t, c, left),
        other => failed(c, no_infix_text(other)),
    }
}

/// An expression that has `left` so far goes on for as long as the token
/// behind the current one binds tighter than `precedence`; a semicolon
/// ends it.
pub open spec fn infix_loop(
    t: Seq<TokenView>,
    c: Cursor,
    left: ExpressionView,
    precedence: Precedence,
) -> Parsed<ExpressionView>
    decreases t.len() - c.position, 7nat,
{
    if peek(t, c) is Semicolon || precedence.rank() >= Precedence::of(peek(t, c)).rank() {
        done(c, left)
    } else {
        let longer = parse_infix(t, c, left);
        match longer.result {
            Err(message) => failed(longer.cursor, message),
            Ok(tree) => if advanced(t, c, longer.cursor) {
                infix_loop(t, longer.cursor, tree, precedence)
            } else {
                failed(longer.cursor, "the parser did not advance"@)
            },
        }
    }
}

/// An expression from the current token on, as far as its operators bind
/// tighter than `precedence`. The cursor stands on the expression's last
/// token afterwards.
pub open spec fn parse_expression(t: Seq<TokenView>, c: Cursor, precedence: Precedence) -> Parsed<
    ExpressionView,
>
    decreases t.len() - c.position, 8nat,
{
    if c.position < 0 || c.position > t.len() {
        failed(c, no_prefix_text(cur(t, c)))
    } else {
        let prefix = parse_prefix(t, c);
        match prefix.result {
            Err(message) => failed(prefix.cursor, message),
            Ok(left) => if c.position <= prefix.cursor.position <= t.len() {
                infix_loop(t, prefix.cursor, left, precedence)
            } else {
                failed(prefix.cursor, "the parser did not advance"@)
            },
        }
    }
}

/// The value of a `let` with the name it is bound to: a function literal
/// carries the name.
pub open spec fn named_value(name: Seq<char>, value: ExpressionView) -> ExpressionView {
    match value {
        ExpressionView::Function(parameters, body, _) => ExpressionView::Function(
            parameters,
            body,
            Some(name),
        ),
        _ => value,
    }
}

/// `let name = value;` with the cursor on `let`. The semicolon may be
/// missing.
pub open spec fn parse_let(t: Seq<TokenView>, c: Cursor) -> Parsed<StatementView>
    decreases t.len() - c.position, 9nat,
{
    match peek(t, c) {
        TokenView::Ident(name) => {
            let c1 = next(t, c);
            if !(peek(t, c1) is Assign) {
                failed(c1, expected_text("=,"@, peek(t, c1)))
            } else {
                let c2 = next(t, next(t, c1));
                if !advanced(t, c, c2) {
                    failed(c2, "the parser did not advance"@)
                } else {
                    let value = parse_expression(t, c2, Precedence::Lowest);
                    match value.result {
                        Err(message) => failed(value.cursor, message),
                        Ok(tree) => done(
                            skip_semicolon(t, value.cursor),
                            StatementView::Let(name, named_value(name, tree)),
                        ),
                    }
                }
            }
        },
        other => failed(c, expected_text("IDENT,"@, other)),
    }
}

/// A statement from the current token on: a `let`, a `return`, or an
/// expression. The semicolon at its end may be missing.
pub open spec fn parse_statement(t: Seq<TokenView>, c: Cursor) -> Parsed<StatementView>
    decreases t.len() - c.position, 10nat,
{
    match cur(t, c) {
        TokenView::Let => parse_let(t, c),
        TokenView::Return => {
            let value = parse_expression(t, next(t, c), Precedence::Lowest);
            match value.result {
                Err(message) => failed(value.cursor, message),
                Ok(tree) => done(skip_semicolon(t, value.cursor), StatementView::Return(tree)),
            }
        },
        _ => {
            let value = parse_expression(t, c, Precedence::Lowest);
            match value.result {
                Err(message) => failed(value.cursor, message),
                Ok(tree) => done(
                    skip_semicolon(t, value.cursor),
                    StatementView::Expression(tree),
                ),
            }
        },
    }
}

/// The statements of a program from the cursor on, added to
/// `statements`, up to `Eof`. A statement that fails leaves its diagnostic
/// and parsing goes on with the next token.
pub open spec fn program_loop(t: Seq<TokenView>, c: Cursor, statements: Seq<StatementView>) -> (
    Cursor,
    Seq<StatementView>,
)
    decreases t.len() - c.position,
{
    if cur(t, c) is Eof {
        (c, statements)
    } else {
        let parsed = parse_statement(t, c);
        let (c1, collected) = match parsed.result {
            Ok(statement) => (parsed.cursor, statements.push(statement)),
            Err(message) => (
                Cursor { errors: parsed.cursor.errors.push(message), ..parsed.cursor },
                statements,
            ),
        };
        let c2 = next(t, c1);
        if advanced(t, c, c2) {
            program_loop(t, c2, collected)
        } else {
            (c2, collected)
        }
    }
}

} // verus!
