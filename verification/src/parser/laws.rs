//! A law of printing and parsing: a program of `let`, `return` and
//! expression statements over names, integers, booleans, operators, array
//! literals, calls, indices, slices, conditionals and function literals is
//! parsed back from its printed form.

use crate::lexer::token::{lookup_ident_spec, TokenView};
use crate::lexer::{
    char_at, digits_end, is_digit_spec, is_letter_spec, is_whitespace_spec, lemma_ends,
    lemma_lex_advances, letters_end, lex, lex_all, single_token, skip_whitespace_spec, token_at,
    Lexed,
};
use crate::parser::ast::{
    print_expr, print_exprs, print_names, print_stmt, print_stmts, ExpressionView, StatementView,
};
use crate::parser::model::{
    all_digits, block_loop, cur, digit_value, digits_value, expressions_loop, infix_loop,
    named_value, next, parse_block, parse_else, parse_expression, parse_index, parse_index_slice,
    parse_infix, parse_integer_spec, parse_let, parse_parameters, parse_prefix, parse_statement,
    peek, program_loop, skip_semicolon, token, Cursor, Parsed, Precedence,
};
use crate::parser::infix_operator;
use crate::text::{decimal, digit_char, signed_decimal};
use vstd::prelude::*;

verus! {

/// Whether a text stands in `s` from index `i` on.
pub open spec fn stands(s: Seq<char>, i: int, text: Seq<char>) -> bool {
    &&& 0 <= i
    &&& i + text.len() <= s.len()
    &&& forall|k: int| 0 <= k < text.len() ==> s[i + k] == #[trigger] text[k]
}

/// A text of two parts stands where its parts stand one behind the other.
pub proof fn lemma_stands_parts(s: Seq<char>, i: int, first: Seq<char>, second: Seq<char>)
    requires
        stands(s, i, first + second),
    ensures
        stands(s, i, first),
        stands(s, i + first.len(), second),
{
    assert forall|k: int| 0 <= k < first.len() implies s[i + k] == #[trigger] first[k] by {
        assert((first + second)[k] == first[k]);
    }
    assert forall|k: int| 0 <= k < second.len() implies s[i + first.len() + k]
        == #[trigger] second[k] by {
        assert((first + second)[first.len() + k] == second[k]);
    }
}

/// The decimal notation of a number is made of digits and writes the
/// number.
pub proof fn lemma_decimal(n: nat)
    ensures
        decimal(n).len() >= 1,
        all_digits(decimal(n)),
        digits_value(decimal(n)) == n,
    decreases n,
{
    if n < 10 {
        assert(decimal(n) =~= seq![digit_char(n)]);
        assert(decimal(n).drop_last() =~= Seq::<char>::empty());
        assert(digits_value(Seq::<char>::empty()) == 0);
        assert(digit_value(digit_char(n)) == n);
    } else {
        lemma_decimal(n / 10);
        let shorter = decimal(n / 10);
        let last = digit_char(n % 10);
        assert(decimal(n) == shorter.push(last));
        assert(decimal(n).drop_last() =~= shorter);
        assert(decimal(n).last() == last);
        assert(digit_value(last) == n % 10);
        assert forall|i: int| 0 <= i < decimal(n).len() implies '0' <= #[trigger] decimal(n)[i]
            && decimal(n)[i] <= '9' by {
            if i < shorter.len() {
                assert(decimal(n)[i] == shorter[i]);
            }
        }
    }
}

/// Letters that stand in `s` up to a character that is none are one word.
pub proof fn lemma_word(s: Seq<char>, i: int, word: Seq<char>, k: int)
    requires
        stands(s, i, word),
        0 <= k <= word.len(),
        forall|j: int| 0 <= j < word.len() ==> is_letter_spec(#[trigger] word[j]),
        !is_letter_spec(char_at(s, i + word.len())),
    ensures
        letters_end(s, i + k) == i + word.len(),
    decreases word.len() - k,
{
    if k < word.len() {
        assert(s[i + k] == word[k]);
        lemma_word(s, i, word, k + 1);
    }
}

/// Digits that stand in `s` up to a character that is none are one number.
pub proof fn lemma_number(s: Seq<char>, i: int, digits: Seq<char>, k: int)
    requires
        stands(s, i, digits),
        0 <= k <= digits.len(),
        all_digits(digits),
        !is_digit_spec(char_at(s, i + digits.len())),
    ensures
        digits_end(s, i + k) == i + digits.len(),
    decreases digits.len() - k,
{
    if k < digits.len() {
        assert(s[i + k] == digits[k]);
        lemma_number(s, i, digits, k + 1);
    }
}

/// The tokens from an index on are the next token and the tokens behind
/// it.
pub proof fn lemma_lex_all_step(s: Seq<char>, i: int)
    requires
        0 <= i <= s.len(),
        !(lex(s, i).token is Eof),
    ensures
        lex_all(s, i) == seq![lex(s, i).token] + lex_all(s, lex(s, i).next),
{
    lemma_lex_advances(s, i);
}

/// At the end of the text the tokens are `Eof` alone.
pub proof fn lemma_lex_all_end(s: Seq<char>)
    ensures
        lex_all(s, s.len() as int) == seq![TokenView::Eof],
{
    lemma_ends(s, s.len() as int);
}

/// A space is skipped.
pub proof fn lemma_lex_space(s: Seq<char>, i: int)
    requires
        0 <= i < s.len(),
        s[i] == ' ',
    ensures
        lex(s, i) == lex(s, i + 1),
        lex_all(s, i) == lex_all(s, i + 1),
{
    assert(skip_whitespace_spec(s, i) == skip_whitespace_spec(s, i + 1));
    lemma_lex_advances(s, i);
    lemma_lex_advances(s, i + 1);
    if lex(s, i).token is Eof {
    } else {
        lemma_lex_all_step(s, i);
        lemma_lex_all_step(s, i + 1);
    }
}

/// Whether a character is one of those that stand alone as a token here.
pub open spec fn is_single(c: char) -> bool {
    c == '(' || c == ')' || c == '+' || c == '-' || c == '*' || c == '/' || c == '<' || c == '>'
        || c == '[' || c == ']' || c == ',' || c == ':' || c == ';' || c == '{' || c == '}'
}

/// A character that stands alone is a token of its own.
pub proof fn lemma_lex_single(s: Seq<char>, i: int)
    requires
        0 <= i < s.len(),
        is_single(s[i]),
    ensures
        lex(s, i) == (Lexed { token: single_token(s[i]), next: i + 1 }),
        !(single_token(s[i]) is Eof),
{
    assert(skip_whitespace_spec(s, i) == i);
}

/// `!` before a character other than `=` is a token of its own.
pub proof fn lemma_lex_bang(s: Seq<char>, i: int)
    requires
        0 <= i < s.len(),
        s[i] == '!',
        char_at(s, i + 1) != '=',
    ensures
        lex(s, i) == (Lexed { token: TokenView::Bang, next: i + 1 }),
{
    assert(skip_whitespace_spec(s, i) == i);
}

/// `==` and `!=` are tokens of two characters.
pub proof fn lemma_lex_double(s: Seq<char>, i: int)
    requires
        0 <= i,
        i + 1 < s.len(),
        s[i] == '=' || s[i] == '!',
        s[i + 1] == '=',
    ensures
        lex(s, i) == (Lexed {
            token: if s[i] == '=' {
                TokenView::Eq
            } else {
                TokenView::NotEq
            },
            next: i + 2,
        }),
{
    assert(skip_whitespace_spec(s, i) == i);
}

/// Whether a text is a name: letters that are no keyword.
pub open spec fn is_name(name: Seq<char>) -> bool {
    &&& name.len() > 0
    &&& forall|j: int| 0 <= j < name.len() ==> is_letter_spec(#[trigger] name[j])
    &&& lookup_ident_spec(name) == TokenView::Ident(name)
}

/// Whether the expressions from index `i` on are plain.
pub open spec fn plain_list(exprs: Seq<ExpressionView>, i: int) -> bool
    decreases exprs, (exprs.len() - i) as nat,
{
    if 0 <= i < exprs.len() {
        plain(exprs[i]) && plain_list(exprs, i + 1)
    } else {
        true
    }
}

/// Whether the names are names.
pub open spec fn names_ok(names: Seq<Seq<char>>) -> bool {
    forall|j: int| 0 <= j < names.len() ==> is_name(#[trigger] names[j])
}

/// Whether a statement is a block of plain statements.
pub open spec fn plain_block(s: StatementView) -> bool
    decreases s, 0nat,
{
    match s {
        StatementView::Block(stmts) => plain_stmts(stmts, 0),
        _ => false,
    }
}

/// Whether an expression is made of names, integers that are not
/// negative, booleans, the two prefix operators, the eight binary
/// operators, array literals, calls, indices, slices, conditionals and
/// function literals without a name, over blocks of plain statements.
pub open spec fn plain(e: ExpressionView) -> bool
    decreases e, 0nat,
{
    match e {
        ExpressionView::Identifier(name) => is_name(name),
        ExpressionView::Integer(value) => value >= 0,
        ExpressionView::Boolean(_) => true,
        ExpressionView::Prefix(op, right) => (op is Bang || op is Minus) && plain(*right),
        ExpressionView::Infix(op, left, right) => infix_operator(op) && plain(*left) && plain(
            *right,
        ),
        ExpressionView::Array(elements) => plain_list(elements, 0),
        ExpressionView::Call(function, args) => plain(*function) && plain_list(args, 0),
        ExpressionView::Index(left, index) => plain(*left) && plain(*index),
        ExpressionView::SliceIndex(left, start, stop) => plain(*left) && (match start {
            Some(start) => plain(*start),
            None => true,
        }) && (match stop {
            Some(stop) => plain(*stop),
            None => true,
        }),
        ExpressionView::If(condition, consequence, alternative) => plain(*condition)
            && plain_block(*consequence) && (match alternative {
            Some(block) => plain_block(*block),
            None => true,
        }),
        ExpressionView::Function(params, body, name) => name is None && names_ok(params)
            && plain_block(*body),
        _ => false,
    }
}

/// The tokens of the printed forms of the expressions from index `i` on,
/// with the commas between them.
pub open spec fn tokens_list(exprs: Seq<ExpressionView>, i: int) -> Seq<TokenView>
    decreases exprs, (exprs.len() - i) as nat,
{
    if 0 <= i < exprs.len() {
        (if i > 0 {
            seq![TokenView::Comma]
        } else {
            Seq::empty()
        }) + tokens_of(exprs[i]) + tokens_list(exprs, i + 1)
    } else {
        Seq::empty()
    }
}

/// The tokens of the names from index `i` on, with the commas between
/// them.
pub open spec fn tokens_names(names: Seq<Seq<char>>, i: int) -> Seq<TokenView>
    decreases names.len() - i,
{
    if 0 <= i < names.len() {
        (if i > 0 {
            seq![TokenView::Comma]
        } else {
            Seq::empty()
        }) + seq![TokenView::Ident(names[i])] + tokens_names(names, i + 1)
    } else {
        Seq::empty()
    }
}

/// The tokens of a block in its braces.
pub open spec fn tokens_braced(s: StatementView) -> Seq<TokenView>
    decreases s, 0nat,
{
    match s {
        StatementView::Block(stmts) => seq![TokenView::LBrace] + tokens_stmts(stmts, 0)
            + seq![TokenView::RBrace],
        _ => Seq::empty(),
    }
}

/// The tokens of `else` and its block, where there is one.
pub open spec fn tokens_else(alternative: Option<Box<StatementView>>) -> Seq<TokenView>
    decreases alternative, 1nat,
{
    match alternative {
        Some(block) => seq![TokenView::Else] + tokens_braced(*block),
        None => Seq::empty(),
    }
}

/// The printed form of `else` and its block, where there is one.
pub open spec fn print_else(alternative: Option<Box<StatementView>>) -> Seq<char> {
    match alternative {
        Some(block) => " else {"@ + print_stmt(*block) + "}"@,
        None => Seq::empty(),
    }
}

/// The tokens of an expression that may be missing.
pub open spec fn tokens_of_bound(bound: Option<Box<ExpressionView>>) -> Seq<TokenView>
    decreases bound, 1nat,
{
    match bound {
        Some(tree) => tokens_of(*tree),
        None => Seq::empty(),
    }
}

/// The tokens of the printed form of a plain expression.
pub open spec fn tokens_of(e: ExpressionView) -> Seq<TokenView>
    decreases e, 0nat,
{
    match e {
        ExpressionView::Identifier(name) => seq![TokenView::Ident(name)],
        ExpressionView::Integer(value) => seq![TokenView::Int(decimal(value as nat))],
        ExpressionView::Boolean(value) => seq![
            if value {
                TokenView::True
            } else {
                TokenView::False
            },
        ],
        ExpressionView::Prefix(op, right) => seq![TokenView::LParen, op] + tokens_of(*right)
            + seq![TokenView::RParen],
        ExpressionView::Infix(op, left, right) => seq![TokenView::LParen] + tokens_of(*left)
            + seq![op] + tokens_of(*right) + seq![TokenView::RParen],
        ExpressionView::Array(elements) => seq![TokenView::LBracket] + tokens_list(elements, 0)
            + seq![TokenView::RBracket],
        ExpressionView::Call(function, args) => tokens_of(*function) + seq![TokenView::LParen]
            + tokens_list(args, 0) + seq![TokenView::RParen],
        ExpressionView::Index(left, index) => seq![TokenView::LParen] + tokens_of(*left)
            + seq![TokenView::LBracket] + tokens_of(*index) + seq![
            TokenView::RBracket,
            TokenView::RParen,
        ],
        ExpressionView::SliceIndex(left, start, stop) => seq![TokenView::LParen] + tokens_of(
            *left,
        ) + seq![TokenView::LBracket] + tokens_of_bound(start) + seq![TokenView::Colon]
            + tokens_of_bound(stop) + seq![TokenView::RBracket, TokenView::RParen],
        ExpressionView::If(condition, consequence, alternative) => seq![
            TokenView::If,
            TokenView::LParen,
        ] + tokens_of(*condition) + seq![TokenView::RParen] + tokens_braced(*consequence)
            + tokens_else(alternative),
        ExpressionView::Function(params, body, _) => seq![
            TokenView::Function,
            TokenView::LParen,
        ] + tokens_names(params, 0) + seq![TokenView::RParen] + tokens_braced(*body),
        _ => Seq::empty(),
    }
}

/// The printed form of an expression that may be missing.
pub open spec fn print_bound(bound: Option<Box<ExpressionView>>) -> Seq<char> {
    match bound {
        Some(tree) => print_expr(*tree),
        None => Seq::empty(),
    }
}

/// The characters that may stand behind a printed expression.
pub open spec fn is_follow(c: char) -> bool {
    c == ' ' || c == ')' || c == '\0' || c == '(' || c == '[' || c == ']' || c == ',' || c == ':'
        || c == ';' || c == '}'
}

/// The characters that a printed plain expression may start with.
pub open spec fn starts_plain(c: char) -> bool {
    is_letter_spec(c) || is_digit_spec(c) || c == '(' || c == '['
}

/// The printed form of a plain expression starts with a letter, a digit,
/// an opening parenthesis or an opening bracket.
pub proof fn lemma_first_char(e: ExpressionView)
    requires
        plain(e),
    ensures
        print_expr(e).len() >= 1,
        starts_plain(print_expr(e)[0]),
    decreases e,
{
    reveal_strlit("true");
    reveal_strlit("false");
    reveal_strlit("(");
    reveal_strlit("[");
    reveal_strlit("if (");
    reveal_strlit("fn");
    match e {
        ExpressionView::Integer(value) => {
            lemma_decimal(value as nat);
        },
        ExpressionView::If(condition, consequence, alternative) => {
            assert(print_expr(e)[0] == "if ("@[0]);
        },
        ExpressionView::Function(params, body, name) => {
            assert(print_expr(e)[0] == "fn"@[0]);
        },
        ExpressionView::Prefix(op, right) => {
            assert(print_expr(e)[0] == "("@[0]);
        },
        ExpressionView::Infix(op, left, right) => {
            assert(print_expr(e)[0] == "("@[0]);
        },
        ExpressionView::Array(elements) => {
            assert(print_expr(e)[0] == "["@[0]);
        },
        ExpressionView::Call(function, args) => {
            lemma_first_char(*function);
            assert(print_expr(e)[0] == print_expr(*function)[0]);
        },
        ExpressionView::Index(left, index) => {
            assert(print_expr(e)[0] == "("@[0]);
        },
        ExpressionView::SliceIndex(left, start, stop) => {
            assert(print_expr(e)[0] == "("@[0]);
        },
        _ => {},
    }
}

/// The tokens of text in which a name stands.
pub proof fn lemma_lex_name(s: Seq<char>, i: int, name: Seq<char>)
    requires
        is_name(name),
        stands(s, i, name),
        is_follow(char_at(s, i + name.len())),
    ensures
        lex_all(s, i) == seq![TokenView::Ident(name)] + lex_all(s, i + name.len()),
{
    assert(s[i] == name[0]);
    lemma_word(s, i, name, 0);
    assert(skip_whitespace_spec(s, i) == i);
    assert(s.subrange(i, i + name.len()) =~= name);
    assert(lex(s, i) == (Lexed { token: TokenView::Ident(name), next: i + name.len() }));
    lemma_lex_all_step(s, i);
}

/// The tokens of text in which a number stands.
pub proof fn lemma_lex_integer(s: Seq<char>, i: int, n: nat)
    requires
        stands(s, i, decimal(n)),
        is_follow(char_at(s, i + decimal(n).len())),
    ensures
        lex_all(s, i) == seq![TokenView::Int(decimal(n))] + lex_all(s, i + decimal(n).len()),
{
    let digits = decimal(n);
    lemma_decimal(n);
    assert(s[i] == digits[0]);
    lemma_number(s, i, digits, 0);
    assert(skip_whitespace_spec(s, i) == i);
    assert(s.subrange(i, i + digits.len()) =~= digits);
    assert(lex(s, i) == (Lexed { token: TokenView::Int(digits), next: i + digits.len() }));
    lemma_lex_all_step(s, i);
}

/// The tokens of text in which `true` or `false` stands.
pub proof fn lemma_lex_boolean(s: Seq<char>, i: int, value: bool)
    requires
        stands(
            s,
            i,
            if value {
                "true"@
            } else {
                "false"@
            },
        ),
        is_follow(
            char_at(
                s,
                i + (if value {
                    "true"@
                } else {
                    "false"@
                }).len(),
            ),
        ),
    ensures
        lex_all(s, i) == seq![
            if value {
                TokenView::True
            } else {
                TokenView::False
            },
        ] + lex_all(
            s,
            i + (if value {
                "true"@
            } else {
                "false"@
            }).len(),
        ),
{
    reveal_strlit("true");
    reveal_strlit("false");
    reveal_strlit("fn");
    reveal_strlit("let");
    let word = if value {
        "true"@
    } else {
        "false"@
    };
    let found = if value {
        TokenView::True
    } else {
        TokenView::False
    };
    assert(s[i] == word[0]);
    lemma_word(s, i, word, 0);
    assert(skip_whitespace_spec(s, i) == i);
    assert(s.subrange(i, i + word.len()) =~= word);
    assert(word != "fn"@) by {
        assert(word.len() != "fn"@.len());
    }
    assert(word != "let"@) by {
        assert(word.len() != "let"@.len());
    }
    if !value {
        assert(word != "true"@) by {
            assert(word.len() != "true"@.len());
        }
    }
    assert(lookup_ident_spec(word) == found);
    assert(lex(s, i) == (Lexed { token: found, next: i + word.len() }));
    lemma_lex_all_step(s, i);
}

/// The token of text in which an operator stands before a character other
/// than `=`.
pub proof fn lemma_lex_operator(s: Seq<char>, i: int, op: TokenView)
    requires
        infix_operator(op) || op is Bang,
        stands(s, i, op.display()),
        char_at(s, i + op.display().len()) != '=',
    ensures
        op.display().len() >= 1,
        lex_all(s, i) == seq![op] + lex_all(s, i + op.display().len()),
{
    reveal_strlit("+");
    reveal_strlit("-");
    reveal_strlit("*");
    reveal_strlit("/");
    reveal_strlit("<");
    reveal_strlit(">");
    reveal_strlit("==");
    reveal_strlit("!=");
    reveal_strlit("!");
    let text = op.display();
    assert(s[i] == text[0]);
    if op is Eq || op is NotEq {
        assert(s[i + 1] == text[1]);
        lemma_lex_double(s, i);
    } else if op is Bang {
        lemma_lex_bang(s, i);
    } else {
        lemma_lex_single(s, i);
    }
    lemma_lex_all_step(s, i);
}

/// The tokens of text in which a character stands that is a token of its
/// own.
pub proof fn lemma_lex_char(s: Seq<char>, i: int, c: char)
    requires
        0 <= i < s.len(),
        s[i] == c,
        is_single(c),
    ensures
        lex_all(s, i) == seq![single_token(c)] + lex_all(s, i + 1),
{
    lemma_lex_single(s, i);
    lemma_lex_all_step(s, i);
}

/// The tokens of text in which expressions stand with a comma and a space
/// between them, before a closing parenthesis or bracket.
pub proof fn lemma_lex_list(s: Seq<char>, at: int, exprs: Seq<ExpressionView>, i: int)
    requires
        plain_list(exprs, i),
        0 <= i <= exprs.len(),
        stands(s, at, print_exprs(exprs, i)),
        char_at(s, at + print_exprs(exprs, i).len()) == ')' || char_at(
            s,
            at + print_exprs(exprs, i).len(),
        ) == ']',
    ensures
        lex_all(s, at) == tokens_list(exprs, i) + lex_all(s, at + print_exprs(exprs, i).len()),
    decreases exprs, (exprs.len() - i) as nat,
{
    reveal_strlit(", ");
    if i < exprs.len() {
        let separator = if i > 0 {
            ", "@
        } else {
            Seq::<char>::empty()
        };
        let own = print_expr(exprs[i]);
        let rest = print_exprs(exprs, i + 1);
        assert(print_exprs(exprs, i) == separator + own + rest);
        lemma_stands_parts(s, at, separator + own, rest);
        lemma_stands_parts(s, at, separator, own);
        lemma_first_char(exprs[i]);
        let a1 = at + separator.len();
        let a2 = a1 + own.len();
        if i + 1 < exprs.len() {
            assert(print_exprs(exprs, i + 1) == ", "@ + print_expr(exprs[i + 1]) + print_exprs(
                exprs,
                i + 2,
            ));
            assert(rest[0] == ", "@[0]);
            assert(s[a2] == rest[0]);
        } else {
            assert(rest =~= Seq::<char>::empty());
        }
        lemma_lex_plain(s, a1, exprs[i]);
        lemma_lex_list(s, a2, exprs, i + 1);
        if i > 0 {
            assert(s[at] == separator[0]);
            assert(s[at + 1] == separator[1]);
            lemma_lex_char(s, at, ',');
            lemma_lex_space(s, at + 1);
        }
        assert(lex_all(s, at) =~= tokens_list(exprs, i) + lex_all(s, a2 + rest.len()));
    } else {
        assert(print_exprs(exprs, i) =~= Seq::<char>::empty());
        assert(tokens_list(exprs, i) + lex_all(s, at) =~= lex_all(s, at));
    }
}

/// The tokens of text in which a prefix operator and its operand stand in
/// parentheses.
pub proof fn lemma_lex_prefix(s: Seq<char>, i: int, e: ExpressionView)
    requires
        plain(e),
        e is Prefix,
        stands(s, i, print_expr(e)),
    ensures
        lex_all(s, i) == tokens_of(e) + lex_all(s, i + print_expr(e).len()),
    decreases e, 0nat,
{
    reveal_strlit("(");
    reveal_strlit(")");
    reveal_strlit("!");
    reveal_strlit("-");
    match e {
        ExpressionView::Prefix(op, right) => {
            let inner = print_expr(*right);
            let text = op.display();
            let whole = print_expr(e);
            assert(whole == "("@ + text + inner + ")"@);
            lemma_stands_parts(s, i, "("@ + text + inner, ")"@);
            lemma_stands_parts(s, i, "("@ + text, inner);
            lemma_stands_parts(s, i, "("@, text);
            lemma_first_char(*right);
            let a1 = i + 1;
            let a2 = a1 + 1;
            let a3 = a2 + inner.len();
            assert(s[i] == "("@[0]);
            assert(s[a2] == inner[0]);
            assert(s[a3] == ")"@[0]);
            lemma_lex_char(s, i, '(');
            if op is Bang {
                lemma_lex_operator(s, a1, op);
            } else {
                assert(s[a1] == text[0]);
                lemma_lex_char(s, a1, '-');
            }
            lemma_lex_plain(s, a2, *right);
            lemma_lex_char(s, a3, ')');
            assert(lex_all(s, i) =~= tokens_of(e) + lex_all(s, a3 + 1));
        },
        _ => {},
    }
}

/// The tokens of text in which a binary operator and its operands stand
/// in parentheses.
pub proof fn lemma_lex_infix(s: Seq<char>, i: int, e: ExpressionView)
    requires
        plain(e),
        e is Infix,
        stands(s, i, print_expr(e)),
    ensures
        lex_all(s, i) == tokens_of(e) + lex_all(s, i + print_expr(e).len()),
    decreases e, 0nat,
{
    reveal_strlit("(");
    reveal_strlit(")");
    reveal_strlit(" ");
    match e {
        ExpressionView::Infix(op, left, right) => {
            let first = print_expr(*left);
            let second = print_expr(*right);
            let text = op.display();
            let whole = print_expr(e);
            assert(whole == "("@ + first + " "@ + text + " "@ + second + ")"@);
            lemma_stands_parts(s, i, "("@ + first + " "@ + text + " "@ + second, ")"@);
            lemma_stands_parts(s, i, "("@ + first + " "@ + text + " "@, second);
            lemma_stands_parts(s, i, "("@ + first + " "@ + text, " "@);
            lemma_stands_parts(s, i, "("@ + first + " "@, text);
            lemma_stands_parts(s, i, "("@ + first, " "@);
            lemma_stands_parts(s, i, "("@, first);
            lemma_first_char(*left);
            lemma_first_char(*right);
            let a1 = i + 1;
            let a2 = a1 + first.len();
            let a3 = a2 + 1;
            let a4 = a3 + text.len();
            let a5 = a4 + 1;
            let a6 = a5 + second.len();
            assert(s[i] == "("@[0]);
            assert(s[a2] == " "@[0]);
            assert(s[a4] == " "@[0]);
            assert(s[a6] == ")"@[0]);
            lemma_lex_char(s, i, '(');
            lemma_lex_plain(s, a1, *left);
            lemma_lex_space(s, a2);
            lemma_lex_operator(s, a3, op);
            lemma_lex_space(s, a4);
            lemma_lex_plain(s, a5, *right);
            lemma_lex_char(s, a6, ')');
            assert(lex_all(s, i) =~= tokens_of(e) + lex_all(s, a6 + 1));
        },
        _ => {},
    }
}

/// The tokens of text in which an array literal stands.
pub proof fn lemma_lex_array(s: Seq<char>, i: int, e: ExpressionView)
    requires
        plain(e),
        e is Array,
        stands(s, i, print_expr(e)),
    ensures
        lex_all(s, i) == tokens_of(e) + lex_all(s, i + print_expr(e).len()),
    decreases e, 0nat,
{
    reveal_strlit("[");
    reveal_strlit("]");
    match e {
        ExpressionView::Array(elements) => {
            let inner = print_exprs(elements, 0);
            assert(print_expr(e) == "["@ + inner + "]"@);
            lemma_stands_parts(s, i, "["@ + inner, "]"@);
            lemma_stands_parts(s, i, "["@, inner);
            let a1 = i + 1;
            let a2 = a1 + inner.len();
            assert(s[i] == "["@[0]);
            assert(s[a2] == "]"@[0]);
            lemma_lex_char(s, i, '[');
            lemma_lex_list(s, a1, elements, 0);
            lemma_lex_char(s, a2, ']');
            assert(lex_all(s, i) =~= tokens_of(e) + lex_all(s, a2 + 1));
        },
        _ => {},
    }
}

/// The tokens of text in which a call stands.
pub proof fn lemma_lex_call(s: Seq<char>, i: int, e: ExpressionView)
    requires
        plain(e),
        e is Call,
        stands(s, i, print_expr(e)),
    ensures
        lex_all(s, i) == tokens_of(e) + lex_all(s, i + print_expr(e).len()),
    decreases e, 0nat,
{
    reveal_strlit("(");
    reveal_strlit(")");
    match e {
        ExpressionView::Call(function, args) => {
            let callee = print_expr(*function);
            let inner = print_exprs(args, 0);
            assert(print_expr(e) == callee + "("@ + inner + ")"@);
            lemma_stands_parts(s, i, callee + "("@ + inner, ")"@);
            lemma_stands_parts(s, i, callee + "("@, inner);
            lemma_stands_parts(s, i, callee, "("@);
            let a1 = i + callee.len();
            let a2 = a1 + 1;
            let a3 = a2 + inner.len();
            assert(s[a1] == "("@[0]);
            assert(s[a3] == ")"@[0]);
            lemma_lex_plain(s, i, *function);
            lemma_lex_char(s, a1, '(');
            lemma_lex_list(s, a2, args, 0);
            lemma_lex_char(s, a3, ')');
            assert(lex_all(s, i) =~= tokens_of(e) + lex_all(s, a3 + 1));
        },
        _ => {},
    }
}

/// The tokens of text in which an expression that may be missing stands.
pub proof fn lemma_lex_bound(s: Seq<char>, i: int, bound: Option<Box<ExpressionView>>)
    requires
        match bound {
            Some(tree) => plain(*tree),
            None => true,
        },
        stands(s, i, print_bound(bound)),
        is_follow(char_at(s, i + print_bound(bound).len())),
    ensures
        lex_all(s, i) == tokens_of_bound(bound) + lex_all(s, i + print_bound(bound).len()),
    decreases bound, 2nat,
{
    match bound {
        Some(tree) => {
            lemma_lex_plain(s, i, *tree);
        },
        None => {
            assert(tokens_of_bound(bound) + lex_all(s, i) =~= lex_all(s, i));
        },
    }
}

/// The tokens of text in which an index stands.
pub proof fn lemma_lex_index(s: Seq<char>, i: int, e: ExpressionView)
    requires
        plain(e),
        e is Index,
        stands(s, i, print_expr(e)),
    ensures
        lex_all(s, i) == tokens_of(e) + lex_all(s, i + print_expr(e).len()),
    decreases e, 0nat,
{
    reveal_strlit("(");
    reveal_strlit("[");
    reveal_strlit("])");
    match e {
        ExpressionView::Index(left, index) => {
            let first = print_expr(*left);
            let second = print_expr(*index);
            assert(print_expr(e) == "("@ + first + "["@ + second + "])"@);
            lemma_stands_parts(s, i, "("@ + first + "["@ + second, "])"@);
            lemma_stands_parts(s, i, "("@ + first + "["@, second);
            lemma_stands_parts(s, i, "("@ + first, "["@);
            lemma_stands_parts(s, i, "("@, first);
            let a1 = i + 1;
            let a2 = a1 + first.len();
            let a3 = a2 + 1;
            let a4 = a3 + second.len();
            assert(s[i] == "("@[0]);
            assert(s[a2] == "["@[0]);
            assert(s[a4] == "])"@[0]);
            assert(s[a4 + 1] == "])"@[1]);
            lemma_lex_char(s, i, '(');
            lemma_lex_plain(s, a1, *left);
            lemma_lex_char(s, a2, '[');
            lemma_lex_plain(s, a3, *index);
            lemma_lex_char(s, a4, ']');
            lemma_lex_char(s, a4 + 1, ')');
            assert(lex_all(s, i) =~= tokens_of(e) + lex_all(s, a4 + 2));
        },
        _ => {},
    }
}

/// The tokens of text in which a slice stands.
pub proof fn lemma_lex_slice(s: Seq<char>, i: int, e: ExpressionView)
    requires
        plain(e),
        e is SliceIndex,
        stands(s, i, print_expr(e)),
    ensures
        lex_all(s, i) == tokens_of(e) + lex_all(s, i + print_expr(e).len()),
    decreases e, 0nat,
{
    reveal_strlit("(");
    reveal_strlit("[");
    reveal_strlit(":");
    reveal_strlit("])");
    match e {
        ExpressionView::SliceIndex(left, start, stop) => {
            let first = print_expr(*left);
            let from = print_bound(start);
            let to = print_bound(stop);
            assert(print_expr(e) == "("@ + first + "["@ + from + ":"@ + to + "])"@);
            lemma_stands_parts(s, i, "("@ + first + "["@ + from + ":"@ + to, "])"@);
            lemma_stands_parts(s, i, "("@ + first + "["@ + from + ":"@, to);
            lemma_stands_parts(s, i, "("@ + first + "["@ + from, ":"@);
            lemma_stands_parts(s, i, "("@ + first + "["@, from);
            lemma_stands_parts(s, i, "("@ + first, "["@);
            lemma_stands_parts(s, i, "("@, first);
            let a1 = i + 1;
            let a2 = a1 + first.len();
            let a3 = a2 + 1;
            let a4 = a3 + from.len();
            let a5 = a4 + 1;
            let a6 = a5 + to.len();
            assert(s[i] == "("@[0]);
            assert(s[a2] == "["@[0]);
            assert(s[a4] == ":"@[0]);
            assert(s[a6] == "])"@[0]);
            assert(s[a6 + 1] == "])"@[1]);
            lemma_lex_char(s, i, '(');
            lemma_lex_plain(s, a1, *left);
            lemma_lex_char(s, a2, '[');
            lemma_lex_bound(s, a3, start);
            lemma_lex_char(s, a4, ':');
            lemma_lex_bound(s, a5, stop);
            lemma_lex_char(s, a6, ']');
            lemma_lex_char(s, a6 + 1, ')');
            assert(lex_all(s, i) =~= tokens_of(e) + lex_all(s, a6 + 2));
        },
        _ => {},
    }
}

/// The tokens of text in which names stand with a comma and a space
/// between them, before a closing parenthesis.
pub proof fn lemma_lex_names(s: Seq<char>, at: int, names: Seq<Seq<char>>, i: int)
    requires
        names_ok(names),
        0 <= i <= names.len(),
        stands(s, at, print_names(names, i)),
        char_at(s, at + print_names(names, i).len()) == ')',
    ensures
        lex_all(s, at) == tokens_names(names, i) + lex_all(s, at + print_names(names, i).len()),
    decreases names.len() - i,
{
    reveal_strlit(", ");
    if i < names.len() {
        let separator = if i > 0 {
            ", "@
        } else {
            Seq::<char>::empty()
        };
        let own = names[i];
        let rest = print_names(names, i + 1);
        assert(print_names(names, i) == separator + own + rest);
        lemma_stands_parts(s, at, separator + own, rest);
        lemma_stands_parts(s, at, separator, own);
        let a1 = at + separator.len();
        let a2 = a1 + own.len();
        if i + 1 < names.len() {
            assert(print_names(names, i + 1) == ", "@ + names[i + 1] + print_names(names, i + 2));
            assert(rest[0] == ", "@[0]);
            assert(s[a2] == rest[0]);
        } else {
            assert(rest =~= Seq::<char>::empty());
        }
        lemma_lex_name(s, a1, own);
        lemma_lex_names(s, a2, names, i + 1);
        if i > 0 {
            assert(s[at] == separator[0]);
            assert(s[at + 1] == separator[1]);
            lemma_lex_char(s, at, ',');
            lemma_lex_space(s, at + 1);
        }
        assert(lex_all(s, at) =~= tokens_names(names, i) + lex_all(s, a2 + rest.len()));
    } else {
        assert(print_names(names, i) =~= Seq::<char>::empty());
        assert(tokens_names(names, i) + lex_all(s, at) =~= lex_all(s, at));
    }
}

/// The tokens of text in which a block stands in its braces.
pub proof fn lemma_lex_braced(s: Seq<char>, at: int, block: StatementView)
    requires
        plain_block(block),
        0 <= at < s.len(),
        s[at] == '{',
        stands(s, at + 1, print_stmt(block)),
        char_at(s, at + 1 + print_stmt(block).len()) == '}',
    ensures
        lex_all(s, at) == tokens_braced(block) + lex_all(s, at + 2 + print_stmt(block).len()),
    decreases block, 0nat,
{
    match block {
        StatementView::Block(stmts) => {
            let inner = print_stmts(stmts, 0);
            let close = at + 1 + inner.len();
            lemma_lex_char(s, at, '{');
            lemma_lex_stmts(s, at + 1, stmts, 0);
            lemma_lex_char(s, close, '}');
            assert(lex_all(s, at) =~= tokens_braced(block) + lex_all(s, close + 1));
        },
        _ => {},
    }
}

/// The tokens of text in which `else` and its block stand, where there
/// is one.
pub proof fn lemma_lex_else(s: Seq<char>, at: int, alternative: Option<Box<StatementView>>)
    requires
        match alternative {
            Some(block) => plain_block(*block),
            None => true,
        },
        stands(s, at, print_else(alternative)),
    ensures
        lex_all(s, at) == tokens_else(alternative) + lex_all(
            s,
            at + print_else(alternative).len(),
        ),
    decreases alternative, 1nat,
{
    reveal_strlit(" else {");
    reveal_strlit("else");
    reveal_strlit(" ");
    reveal_strlit(" {");
    reveal_strlit("}");
    match alternative {
        Some(block) => {
            let inner = print_stmt(*block);
            assert(print_else(alternative) == " else {"@ + inner + "}"@);
            lemma_stands_parts(s, at, " else {"@ + inner, "}"@);
            lemma_stands_parts(s, at, " else {"@, inner);
            assert(" else {"@ =~= " "@ + "else"@ + " {"@);
            lemma_stands_parts(s, at, " "@ + "else"@, " {"@);
            lemma_stands_parts(s, at, " "@, "else"@);
            let a1 = at + 7;
            let a2 = a1 + inner.len();
            assert(s[at] == " else {"@[0]);
            assert(s[at + 5] == " else {"@[5]);
            assert(s[at + 6] == " else {"@[6]);
            assert(s[a2] == "}"@[0]);
            lemma_lex_space(s, at);
            lemma_lex_keyword(s, at + 1, "else"@);
            lemma_lex_space(s, at + 5);
            lemma_lex_braced(s, at + 6, *block);
            assert(lex_all(s, at) =~= tokens_else(alternative) + lex_all(s, a2 + 1));
        },
        None => {
            assert(tokens_else(alternative) + lex_all(s, at) =~= lex_all(s, at));
        },
    }
}

/// The tokens of text in which a conditional stands.
pub proof fn lemma_lex_if(s: Seq<char>, i: int, e: ExpressionView)
    requires
        plain(e),
        e is If,
        stands(s, i, print_expr(e)),
    ensures
        lex_all(s, i) == tokens_of(e) + lex_all(s, i + print_expr(e).len()),
    decreases e, 0nat,
{
    reveal_strlit("if (");
    reveal_strlit("if");
    reveal_strlit(" (");
    reveal_strlit(") {");
    reveal_strlit("}");
    match e {
        ExpressionView::If(condition, consequence, alternative) => {
            let first = print_expr(*condition);
            let inner = print_stmt(*consequence);
            let last = print_else(alternative);
            assert(print_expr(e) == "if ("@ + first + ") {"@ + inner + "}"@ + last);
            lemma_stands_parts(s, i, "if ("@ + first + ") {"@ + inner + "}"@, last);
            lemma_stands_parts(s, i, "if ("@ + first + ") {"@ + inner, "}"@);
            lemma_stands_parts(s, i, "if ("@ + first + ") {"@, inner);
            lemma_stands_parts(s, i, "if ("@ + first, ") {"@);
            lemma_stands_parts(s, i, "if ("@, first);
            assert("if ("@ =~= "if"@ + " ("@);
            lemma_stands_parts(s, i, "if"@, " ("@);
            lemma_first_char(*condition);
            let a1 = i + 4;
            let a2 = a1 + first.len();
            let a3 = a2 + 3;
            let a4 = a3 + inner.len();
            assert(s[i + 2] == "if ("@[2]);
            assert(s[i + 3] == "if ("@[3]);
            assert(s[a2] == ") {"@[0]);
            assert(s[a2 + 1] == ") {"@[1]);
            assert(s[a2 + 2] == ") {"@[2]);
            assert(s[a4] == "}"@[0]);
            lemma_lex_keyword(s, i, "if"@);
            lemma_lex_space(s, i + 2);
            lemma_lex_char(s, i + 3, '(');
            lemma_lex_plain(s, a1, *condition);
            lemma_lex_char(s, a2, ')');
            lemma_lex_space(s, a2 + 1);
            lemma_lex_braced(s, a2 + 2, *consequence);
            lemma_lex_else(s, a4 + 1, alternative);
            assert(lex_all(s, i) =~= tokens_of(e) + lex_all(s, a4 + 1 + last.len()));
        },
        _ => {},
    }
}

/// The tokens of text in which a function literal stands.
pub proof fn lemma_lex_function(s: Seq<char>, i: int, e: ExpressionView)
    requires
        plain(e),
        e is Function,
        stands(s, i, print_expr(e)),
    ensures
        lex_all(s, i) == tokens_of(e) + lex_all(s, i + print_expr(e).len()),
    decreases e, 0nat,
{
    reveal_strlit("fn");
    reveal_strlit("(");
    reveal_strlit(") {");
    reveal_strlit("}");
    match e {
        ExpressionView::Function(params, body, name) => {
            let first = print_names(params, 0);
            let inner = print_stmt(*body);
            assert(print_expr(e) == "fn"@ + "("@ + first + ") {"@ + inner + "}"@);
            lemma_stands_parts(s, i, "fn"@ + "("@ + first + ") {"@ + inner, "}"@);
            lemma_stands_parts(s, i, "fn"@ + "("@ + first + ") {"@, inner);
            lemma_stands_parts(s, i, "fn"@ + "("@ + first, ") {"@);
            lemma_stands_parts(s, i, "fn"@ + "("@, first);
            lemma_stands_parts(s, i, "fn"@, "("@);
            let a1 = i + 3;
            let a2 = a1 + first.len();
            let a3 = a2 + 3;
            let a4 = a3 + inner.len();
            assert(s[i + 2] == "("@[0]);
            assert(s[a2] == ") {"@[0]);
            assert(s[a2 + 1] == ") {"@[1]);
            assert(s[a2 + 2] == ") {"@[2]);
            assert(s[a4] == "}"@[0]);
            lemma_lex_keyword(s, i, "fn"@);
            lemma_lex_char(s, i + 2, '(');
            lemma_lex_names(s, a1, params, 0);
            lemma_lex_char(s, a2, ')');
            lemma_lex_space(s, a2 + 1);
            lemma_lex_braced(s, a2 + 2, *body);
            assert(lex_all(s, i) =~= tokens_of(e) + lex_all(s, a4 + 1));
        },
        _ => {},
    }
}

/// The tokens of text in which the printed form of a plain expression
/// stands are the tokens of the expression.
pub proof fn lemma_lex_plain(s: Seq<char>, i: int, e: ExpressionView)
    requires
        plain(e),
        stands(s, i, print_expr(e)),
        is_follow(char_at(s, i + print_expr(e).len())),
    ensures
        lex_all(s, i) == tokens_of(e) + lex_all(s, i + print_expr(e).len()),
    decreases e, 1nat,
{
    match e {
        ExpressionView::Identifier(name) => {
            lemma_lex_name(s, i, name);
        },
        ExpressionView::Integer(value) => {
            lemma_lex_integer(s, i, value as nat);
        },
        ExpressionView::Boolean(value) => {
            lemma_lex_boolean(s, i, value);
        },
        ExpressionView::Prefix(_, _) => {
            lemma_lex_prefix(s, i, e);
        },
        ExpressionView::Infix(_, _, _) => {
            lemma_lex_infix(s, i, e);
        },
        ExpressionView::Array(_) => {
            lemma_lex_array(s, i, e);
        },
        ExpressionView::Call(_, _) => {
            lemma_lex_call(s, i, e);
        },
        ExpressionView::Index(_, _) => {
            lemma_lex_index(s, i, e);
        },
        ExpressionView::SliceIndex(_, _, _) => {
            lemma_lex_slice(s, i, e);
        },
        ExpressionView::If(_, _, _) => {
            lemma_lex_if(s, i, e);
        },
        ExpressionView::Function(_, _, _) => {
            lemma_lex_function(s, i, e);
        },
        _ => {},
    }
}

/// Whether a statement is a `let` of a name, a `return` or an expression
/// statement, over a plain expression; a `let` binds no function literal,
/// which would take its name.
pub open spec fn plain_stmt(s: StatementView) -> bool
    decreases s, 0nat,
{
    match s {
        StatementView::Let(name, value) => is_name(name) && plain(value) && !(value is Function),
        StatementView::Return(value) => plain(value),
        StatementView::Expression(value) => plain(value),
        StatementView::Block(_) => false,
    }
}

/// Whether the statements from index `i` on are plain, with an expression
/// statement as the last of them at most.
pub open spec fn plain_stmts(stmts: Seq<StatementView>, i: int) -> bool
    decreases stmts, (stmts.len() - i) as nat,
{
    if 0 <= i < stmts.len() {
        plain_stmt(stmts[i]) && (stmts[i] is Expression ==> i + 1 == stmts.len()) && plain_stmts(
            stmts,
            i + 1,
        )
    } else {
        true
    }
}

/// The tokens of the printed form of a plain statement.
pub open spec fn tokens_stmt(s: StatementView) -> Seq<TokenView>
    decreases s, 0nat,
{
    match s {
        StatementView::Let(name, value) => seq![
            TokenView::Let,
            TokenView::Ident(name),
            TokenView::Assign,
        ] + tokens_of(value) + seq![TokenView::Semicolon],
        StatementView::Return(value) => seq![TokenView::Return] + tokens_of(value)
            + seq![TokenView::Semicolon],
        StatementView::Expression(value) => tokens_of(value),
        StatementView::Block(_) => Seq::empty(),
    }
}

/// The tokens of the printed forms of the statements from index `i` on.
pub open spec fn tokens_stmts(stmts: Seq<StatementView>, i: int) -> Seq<TokenView>
    decreases stmts, (stmts.len() - i) as nat,
{
    if 0 <= i < stmts.len() {
        tokens_stmt(stmts[i]) + tokens_stmts(stmts, i + 1)
    } else {
        Seq::empty()
    }
}

/// The tokens of text in which a keyword stands before a character that
/// is no letter.
pub proof fn lemma_lex_keyword(s: Seq<char>, i: int, word: Seq<char>)
    requires
        word == "let"@ || word == "return"@ || word == "if"@ || word == "else"@ || word == "fn"@,
        stands(s, i, word),
        !is_letter_spec(char_at(s, i + word.len())),
    ensures
        lex_all(s, i) == seq![lookup_ident_spec(word)] + lex_all(s, i + word.len()),
        word == "let"@ ==> lookup_ident_spec(word) == TokenView::Let,
        word == "return"@ ==> lookup_ident_spec(word) == TokenView::Return,
        word == "if"@ ==> lookup_ident_spec(word) == TokenView::If,
        word == "else"@ ==> lookup_ident_spec(word) == TokenView::Else,
        word == "fn"@ ==> lookup_ident_spec(word) == TokenView::Function,
{
    reveal_strlit("true");
    reveal_strlit("false");
    reveal_strlit("fn");
    reveal_strlit("let");
    reveal_strlit("if");
    reveal_strlit("else");
    reveal_strlit("return");
    assert("if"@[0] != "fn"@[0]);
    assert("else"@[0] != "true"@[0]);
    assert(s[i] == word[0]);
    lemma_word(s, i, word, 0);
    assert(skip_whitespace_spec(s, i) == i);
    assert(s.subrange(i, i + word.len()) =~= word);
    assert(lex(s, i) == (Lexed { token: lookup_ident_spec(word), next: i + word.len() }));
    lemma_lex_all_step(s, i);
}

/// `=` before a character other than `=` is a token of its own.
pub proof fn lemma_lex_assign(s: Seq<char>, i: int)
    requires
        0 <= i < s.len(),
        s[i] == '=',
        char_at(s, i + 1) != '=',
    ensures
        lex_all(s, i) == seq![TokenView::Assign] + lex_all(s, i + 1),
{
    assert(skip_whitespace_spec(s, i) == i);
    lemma_lex_all_step(s, i);
}

/// The tokens of text in which a `let` statement stands.
pub proof fn lemma_lex_let(s: Seq<char>, i: int, stmt: StatementView)
    requires
        plain_stmt(stmt),
        stmt is Let,
        stands(s, i, print_stmt(stmt)),
    ensures
        lex_all(s, i) == tokens_stmt(stmt) + lex_all(s, i + print_stmt(stmt).len()),
    decreases stmt, 0nat,
{
    reveal_strlit("let ");
    reveal_strlit("let");
    reveal_strlit(" ");
    reveal_strlit(" = ");
    reveal_strlit(";");
    match stmt {
        StatementView::Let(name, value) => {
            let printed = print_expr(value);
            assert(print_stmt(stmt) == "let "@ + name + " = "@ + printed + ";"@);
            lemma_stands_parts(s, i, "let "@ + name + " = "@ + printed, ";"@);
            lemma_stands_parts(s, i, "let "@ + name + " = "@, printed);
            lemma_stands_parts(s, i, "let "@ + name, " = "@);
            lemma_stands_parts(s, i, "let "@, name);
            assert("let "@ =~= "let"@ + " "@);
            lemma_stands_parts(s, i, "let"@, " "@);
            lemma_first_char(value);
            let a1 = i + 4;
            let a2 = a1 + name.len();
            let a3 = a2 + 3;
            let a4 = a3 + printed.len();
            assert(s[i + 3] == " "@[0]);
            assert(s[a2] == " = "@[0]);
            assert(s[a2 + 1] == " = "@[1]);
            assert(s[a2 + 2] == " = "@[2]);
            assert(s[a4] == ";"@[0]);
            lemma_lex_keyword(s, i, "let"@);
            lemma_lex_space(s, i + 3);
            lemma_lex_name(s, a1, name);
            lemma_lex_space(s, a2);
            lemma_lex_assign(s, a2 + 1);
            lemma_lex_space(s, a2 + 2);
            lemma_lex_plain(s, a3, value);
            lemma_lex_char(s, a4, ';');
            assert(lex_all(s, i) =~= tokens_stmt(stmt) + lex_all(s, a4 + 1));
        },
        _ => {},
    }
}

/// The tokens of text in which a `return` statement stands.
pub proof fn lemma_lex_return(s: Seq<char>, i: int, stmt: StatementView)
    requires
        plain_stmt(stmt),
        stmt is Return,
        stands(s, i, print_stmt(stmt)),
    ensures
        lex_all(s, i) == tokens_stmt(stmt) + lex_all(s, i + print_stmt(stmt).len()),
    decreases stmt, 0nat,
{
    reveal_strlit("return ");
    reveal_strlit("return");
    reveal_strlit(" ");
    reveal_strlit(";");
    match stmt {
        StatementView::Return(value) => {
            let printed = print_expr(value);
            assert(print_stmt(stmt) == "return "@ + printed + ";"@);
            lemma_stands_parts(s, i, "return "@ + printed, ";"@);
            lemma_stands_parts(s, i, "return "@, printed);
            assert("return "@ =~= "return"@ + " "@);
            lemma_stands_parts(s, i, "return"@, " "@);
            let a1 = i + 7;
            let a2 = a1 + printed.len();
            assert(s[i + 6] == " "@[0]);
            assert(s[a2] == ";"@[0]);
            lemma_lex_keyword(s, i, "return"@);
            lemma_lex_space(s, i + 6);
            lemma_lex_plain(s, a1, value);
            lemma_lex_char(s, a2, ';');
            assert(lex_all(s, i) =~= tokens_stmt(stmt) + lex_all(s, a2 + 1));
        },
        _ => {},
    }
}

/// The tokens of text in which plain statements stand one behind the
/// other.
pub proof fn lemma_lex_stmts(s: Seq<char>, at: int, stmts: Seq<StatementView>, i: int)
    requires
        plain_stmts(stmts, i),
        0 <= i <= stmts.len(),
        stands(s, at, print_stmts(stmts, i)),
        is_follow(char_at(s, at + print_stmts(stmts, i).len())),
    ensures
        lex_all(s, at) == tokens_stmts(stmts, i) + lex_all(s, at + print_stmts(stmts, i).len()),
    decreases stmts, (stmts.len() - i) as nat,
{
    if i < stmts.len() {
        let own = print_stmt(stmts[i]);
        let rest = print_stmts(stmts, i + 1);
        assert(print_stmts(stmts, i) == own + rest);
        assert(plain_stmt(stmts[i]));
        assert(tokens_stmts(stmts, i) == tokens_stmt(stmts[i]) + tokens_stmts(stmts, i + 1));
        lemma_stands_parts(s, at, own, rest);
        match stmts[i] {
            StatementView::Let(_, _) => {
                lemma_lex_let(s, at, stmts[i]);
            },
            StatementView::Return(_) => {
                lemma_lex_return(s, at, stmts[i]);
            },
            StatementView::Expression(value) => {
                assert(rest =~= Seq::<char>::empty());
                assert(tokens_stmt(stmts[i]) == tokens_of(value));
                lemma_lex_plain(s, at, value);
            },
            StatementView::Block(_) => {},
        }
        lemma_lex_stmts(s, at + own.len(), stmts, i + 1);
        assert(lex_all(s, at) =~= tokens_stmts(stmts, i) + lex_all(
            s,
            at + own.len() + rest.len(),
        ));
    } else {
        assert(print_stmts(stmts, i) =~= Seq::<char>::empty());
        assert(tokens_stmts(stmts, i) + lex_all(s, at) =~= lex_all(s, at));
    }
}

/// Whether tokens stand in `t` from index `at` on.
pub open spec fn tokens_stand(t: Seq<TokenView>, at: int, tokens: Seq<TokenView>) -> bool {
    &&& 0 <= at
    &&& at + tokens.len() <= t.len()
    &&& forall|k: int| 0 <= k < tokens.len() ==> t[at + k] == #[trigger] tokens[k]
}

/// Tokens of two parts stand where their parts stand one behind the
/// other.
pub proof fn lemma_tokens_parts(
    t: Seq<TokenView>,
    at: int,
    first: Seq<TokenView>,
    second: Seq<TokenView>,
)
    requires
        tokens_stand(t, at, first + second),
    ensures
        tokens_stand(t, at, first),
        tokens_stand(t, at + first.len(), second),
{
    assert forall|k: int| 0 <= k < first.len() implies t[at + k] == #[trigger] first[k] by {
        assert((first + second)[k] == first[k]);
    }
    assert forall|k: int| 0 <= k < second.len() implies t[at + first.len() + k]
        == #[trigger] second[k] by {
        assert((first + second)[first.len() + k] == second[k]);
    }
}

/// A cursor at a position.
pub open spec fn at(position: int, errors: Seq<Seq<char>>) -> Cursor {
    Cursor { position, errors }
}

/// A plain expression has tokens, and the first is none that ends a
/// statement, a list, an index or a group.
pub proof fn lemma_first_token(e: ExpressionView)
    requires
        plain(e),
    ensures
        tokens_of(e).len() >= 1,
        !(tokens_of(e)[0] is Let),
        !(tokens_of(e)[0] is Return),
        !(tokens_of(e)[0] is Eof),
        !(tokens_of(e)[0] is RParen),
        !(tokens_of(e)[0] is RBracket),
        !(tokens_of(e)[0] is Colon),
        !(tokens_of(e)[0] is Comma),
        !(tokens_of(e)[0] is Semicolon),
        !(tokens_of(e)[0] is RBrace),
        !(tokens_of(e)[0] is Else),
    decreases e,
{
    match e {
        ExpressionView::Prefix(op, right) => {
            assert(tokens_of(e)[0] == seq![TokenView::LParen, op][0]);
        },
        ExpressionView::Infix(op, left, right) => {
            assert(tokens_of(e)[0] == seq![TokenView::LParen][0]);
        },
        ExpressionView::Array(elements) => {
            assert(tokens_of(e)[0] == seq![TokenView::LBracket][0]);
        },
        ExpressionView::Call(function, args) => {
            lemma_first_token(*function);
            assert(tokens_of(e)[0] == tokens_of(*function)[0]);
        },
        ExpressionView::Index(left, index) => {
            assert(tokens_of(e)[0] == seq![TokenView::LParen][0]);
        },
        ExpressionView::SliceIndex(left, start, stop) => {
            assert(tokens_of(e)[0] == seq![TokenView::LParen][0]);
        },
        ExpressionView::If(condition, consequence, alternative) => {
            assert(tokens_of(e)[0] == seq![TokenView::If, TokenView::LParen][0]);
        },
        ExpressionView::Function(params, body, name) => {
            assert(tokens_of(e)[0] == seq![TokenView::Function, TokenView::LParen][0]);
        },
        _ => {},
    }
}

/// An expression ends before a token that does not bind tighter than the
/// precedence it is parsed with.
pub proof fn lemma_loop_stops(
    t: Seq<TokenView>,
    c: Cursor,
    left: ExpressionView,
    precedence: Precedence,
)
    requires
        peek(t, c) is Semicolon || precedence.rank() >= Precedence::of(peek(t, c)).rank(),
    ensures
        infix_loop(t, c, left, precedence) == (Parsed { cursor: c, result: Ok(left) }),
{
}

/// An expression goes on with an operator that binds tighter.
pub proof fn lemma_loop_once(
    t: Seq<TokenView>,
    c: Cursor,
    left: ExpressionView,
    precedence: Precedence,
    end: Cursor,
    tree: ExpressionView,
)
    requires
        !(peek(t, c) is Semicolon),
        precedence.rank() < Precedence::of(peek(t, c)).rank(),
        parse_infix(t, c, left) == (Parsed { cursor: end, result: Ok(tree) }),
        0 <= c.position < end.position <= t.len(),
    ensures
        infix_loop(t, c, left, precedence) == infix_loop(t, end, tree, precedence),
{
}

/// An expression is what it starts with and what goes on behind that.
pub proof fn lemma_expression(
    t: Seq<TokenView>,
    c: Cursor,
    precedence: Precedence,
    mid: Cursor,
    left: ExpressionView,
)
    requires
        0 <= c.position <= mid.position <= t.len(),
        parse_prefix(t, c) == (Parsed { cursor: mid, result: Ok(left) }),
    ensures
        parse_expression(t, c, precedence) == infix_loop(t, mid, left, precedence),
{
}

/// A binary operator and its right operand behind a left operand.
pub proof fn lemma_infix_operator(
    t: Seq<TokenView>,
    c: Cursor,
    left: ExpressionView,
    end: Cursor,
    right: ExpressionView,
)
    requires
        infix_operator(peek(t, c)),
        0 <= c.position,
        c.position + 2 <= t.len(),
        parse_expression(t, next(t, next(t, c)), Precedence::of(peek(t, c))) == (Parsed {
            cursor: end,
            result: Ok(right),
        }),
    ensures
        parse_infix(t, c, left) == (Parsed {
            cursor: end,
            result: Ok(ExpressionView::Infix(peek(t, c), Box::new(left), Box::new(right))),
        }),
{
}

/// A prefix operator and its operand.
pub proof fn lemma_prefix_operator(
    t: Seq<TokenView>,
    c: Cursor,
    end: Cursor,
    right: ExpressionView,
)
    requires
        cur(t, c) is Bang || cur(t, c) is Minus,
        parse_expression(t, next(t, c), Precedence::Prefix) == (Parsed {
            cursor: end,
            result: Ok(right),
        }),
    ensures
        parse_prefix(t, c) == (Parsed {
            cursor: end,
            result: Ok(ExpressionView::Prefix(cur(t, c), Box::new(right))),
        }),
{
}

/// An expression in parentheses.
pub proof fn lemma_group(t: Seq<TokenView>, c: Cursor, end: Cursor, tree: ExpressionView)
    requires
        cur(t, c) is LParen,
        parse_expression(t, next(t, c), Precedence::Lowest) == (Parsed {
            cursor: end,
            result: Ok(tree),
        }),
        peek(t, end) is RParen,
    ensures
        parse_prefix(t, c) == (Parsed { cursor: next(t, end), result: Ok(tree) }),
{
}

/// A literal's digits are parsed back to the number they write.
pub proof fn lemma_parse_decimal(n: nat)
    requires
        n <= i64::MAX,
    ensures
        parse_integer_spec(decimal(n)) == Ok::<i64, Seq<char>>(n as i64),
{
    lemma_decimal(n);
}

/// The arguments of a call behind the called expression.
pub proof fn lemma_call_arm(
    t: Seq<TokenView>,
    c: Cursor,
    left: ExpressionView,
    end: Cursor,
    args: Seq<ExpressionView>,
)
    requires
        peek(t, c) is LParen,
        0 <= c.position,
        c.position + 1 < t.len(),
        expressions_loop(t, next(t, c), TokenView::RParen, Seq::empty()) == (Parsed {
            cursor: end,
            result: Ok(args),
        }),
    ensures
        parse_infix(t, c, left) == (Parsed {
            cursor: end,
            result: Ok(ExpressionView::Call(Box::new(left), args)),
        }),
{
}

/// The tokens of the expressions from index `i` on, without a comma
/// before the first of them.
pub open spec fn remaining(exprs: Seq<ExpressionView>, i: int) -> Seq<TokenView> {
    if 0 <= i < exprs.len() {
        tokens_of(exprs[i]) + tokens_list(exprs, i + 1)
    } else {
        Seq::empty()
    }
}

/// The tokens of a list of plain expressions are parsed back to the
/// expressions: with the parser on the token before the expression `i`,
/// which opens the list or is a comma, it goes on to the token that
/// closes the list.
pub proof fn lemma_parse_list(
    t: Seq<TokenView>,
    position: int,
    errors: Seq<Seq<char>>,
    exprs: Seq<ExpressionView>,
    i: int,
    end: TokenView,
    items: Seq<ExpressionView>,
)
    requires
        plain_list(exprs, i),
        0 <= i <= exprs.len(),
        end is RParen || end is RBracket,
        0 <= position,
        tokens_stand(t, position + 1, remaining(exprs, i) + seq![end]),
    ensures
        expressions_loop(t, at(position, errors), end, items) == (Parsed {
            cursor: at(position + 1 + remaining(exprs, i).len(), errors),
            result: Ok(items + exprs.subrange(i, exprs.len() as int)),
        }),
    decreases exprs, (exprs.len() - i) as nat,
{
    let c = at(position, errors);
    lemma_tokens_parts(t, position + 1, remaining(exprs, i), seq![end]);
    if i < exprs.len() {
        let own = tokens_of(exprs[i]);
        let rest = tokens_list(exprs, i + 1);
        lemma_tokens_parts(t, position + 1, own, rest);
        lemma_first_token(exprs[i]);
        let p_in = position + 1;
        let e_end = p_in + own.len() - 1;
        let c1 = at(p_in, errors);
        let c2 = at(e_end, errors);
        assert(t[p_in] == own[0]);
        assert(peek(t, c) == own[0]);
        assert(next(t, c) == c1);
        let more = items.push(exprs[i]);
        assert(more + exprs.subrange(i + 1, exprs.len() as int) =~= items + exprs.subrange(
            i,
            exprs.len() as int,
        ));
        if i + 1 < exprs.len() {
            assert(rest == seq![TokenView::Comma] + remaining(exprs, i + 1));
            lemma_tokens_parts(t, e_end + 1, seq![TokenView::Comma], remaining(exprs, i + 1));
            assert(t[e_end + 1] == seq![TokenView::Comma][0]);
            assert(peek(t, c2) is Comma);
            lemma_parse_plain(t, p_in, errors, exprs[i], Precedence::Lowest);
            lemma_loop_stops(t, c2, exprs[i], Precedence::Lowest);
            let c3 = at(e_end + 1, errors);
            assert(next(t, c2) == c3);
            assert(tokens_stand(t, e_end + 2, remaining(exprs, i + 1) + seq![end])) by {
                let tail = remaining(exprs, i + 1) + seq![end];
                assert forall|k: int| 0 <= k < tail.len() implies t[e_end + 2 + k]
                    == #[trigger] tail[k] by {
                    assert((remaining(exprs, i) + seq![end])[own.len() + 1 + k] == tail[k]);
                    assert(t[position + 1 + (own.len() + 1 + k)] == (remaining(exprs, i)
                        + seq![end])[own.len() + 1 + k]);
                }
            }
            lemma_parse_list(t, e_end + 1, errors, exprs, i + 1, end, more);
            assert(remaining(exprs, i).len() == own.len() + 1 + remaining(exprs, i + 1).len());
        } else {
            assert(rest =~= Seq::<TokenView>::empty());
            assert(t[e_end + 1] == seq![end][0]);
            assert(peek(t, c2) == end);
            lemma_parse_plain(t, p_in, errors, exprs[i], Precedence::Lowest);
            lemma_loop_stops(t, c2, exprs[i], Precedence::Lowest);
            assert(expressions_loop(t, c2, end, more) == (Parsed {
                cursor: next(t, c2),
                result: Ok(more),
            }));
            assert(exprs.subrange(i + 1, exprs.len() as int) =~= Seq::<ExpressionView>::empty());
            assert(more + Seq::<ExpressionView>::empty() =~= more);
            assert(remaining(exprs, i).len() == own.len());
        }
    } else {
        assert(t[position + 1] == seq![end][0]);
        assert(peek(t, c) == end);
        assert(items + exprs.subrange(i, exprs.len() as int) =~= items);
    }
}

/// A prefix operator and its operand in parentheses are parsed back.
pub proof fn lemma_parse_prefix_form(
    t: Seq<TokenView>,
    position: int,
    errors: Seq<Seq<char>>,
    e: ExpressionView,
)
    requires
        plain(e),
        e is Prefix,
        tokens_stand(t, position, tokens_of(e)),
    ensures
        parse_prefix(t, at(position, errors)) == (Parsed {
            cursor: at(position + tokens_of(e).len() - 1, errors),
            result: Ok(e),
        }),
    decreases e, 0nat,
{
    match e {
        ExpressionView::Prefix(op, right) => {
            let inner = tokens_of(*right);
            lemma_tokens_parts(
                t,
                position,
                seq![TokenView::LParen, op] + inner,
                seq![TokenView::RParen],
            );
            lemma_tokens_parts(t, position, seq![TokenView::LParen, op], inner);
            lemma_first_token(*right);
            let p_in = position + 1;
            let p_operand = position + 2;
            let r_end = p_operand + inner.len() - 1;
            assert(t[position] == seq![TokenView::LParen, op][0]);
            assert(t[p_in] == seq![TokenView::LParen, op][1]);
            assert(t[r_end + 1] == seq![TokenView::RParen][0]);
            let c0 = at(position, errors);
            let c1 = at(p_in, errors);
            let c2 = at(p_operand, errors);
            let c_end = at(r_end, errors);
            assert(next(t, c0) == c1);
            assert(next(t, c1) == c2);
            lemma_parse_plain(t, p_operand, errors, *right, Precedence::Prefix);
            lemma_loop_stops(t, c_end, *right, Precedence::Prefix);
            lemma_prefix_operator(t, c1, c_end, *right);
            lemma_expression(t, c1, Precedence::Lowest, c_end, e);
            lemma_loop_stops(t, c_end, e, Precedence::Lowest);
            lemma_group(t, c0, c_end, e);
            assert(next(t, c_end) == at(r_end + 1, errors));
            assert(tokens_of(e).len() == inner.len() + 3);
        },
        _ => {},
    }
}

/// A binary operator and its operands in parentheses are parsed back.
pub proof fn lemma_parse_infix_form(
    t: Seq<TokenView>,
    position: int,
    errors: Seq<Seq<char>>,
    e: ExpressionView,
)
    requires
        plain(e),
        e is Infix,
        tokens_stand(t, position, tokens_of(e)),
    ensures
        parse_prefix(t, at(position, errors)) == (Parsed {
            cursor: at(position + tokens_of(e).len() - 1, errors),
            result: Ok(e),
        }),
    decreases e, 0nat,
{
    match e {
        ExpressionView::Infix(op, left, right) => {
            let first = tokens_of(*left);
            let second = tokens_of(*right);
            lemma_tokens_parts(
                t,
                position,
                seq![TokenView::LParen] + first + seq![op] + second,
                seq![TokenView::RParen],
            );
            lemma_tokens_parts(t, position, seq![TokenView::LParen] + first + seq![op], second);
            lemma_tokens_parts(t, position, seq![TokenView::LParen] + first, seq![op]);
            lemma_tokens_parts(t, position, seq![TokenView::LParen], first);
            lemma_first_token(*left);
            lemma_first_token(*right);
            let p_in = position + 1;
            let l_end = p_in + first.len() - 1;
            let p_op = l_end + 1;
            let p_r = p_op + 1;
            let r_end = p_r + second.len() - 1;
            assert(t[position] == seq![TokenView::LParen][0]);
            assert(t[p_op] == seq![op][0]);
            assert(t[r_end + 1] == seq![TokenView::RParen][0]);
            let c0 = at(position, errors);
            let c1 = at(p_in, errors);
            let c_lend = at(l_end, errors);
            let c_r = at(p_r, errors);
            let c_end = at(r_end, errors);
            assert(next(t, c0) == c1);
            assert(next(t, next(t, c_lend)) == c_r);
            assert(peek(t, c_lend) == op);
            lemma_parse_plain(t, p_in, errors, *left, Precedence::Lowest);
            lemma_parse_plain(t, p_r, errors, *right, Precedence::of(op));
            lemma_loop_stops(t, c_end, *right, Precedence::of(op));
            lemma_infix_operator(t, c_lend, *left, c_end, *right);
            lemma_loop_once(t, c_lend, *left, Precedence::Lowest, c_end, e);
            lemma_loop_stops(t, c_end, e, Precedence::Lowest);
            lemma_group(t, c0, c_end, e);
            assert(next(t, c_end) == at(r_end + 1, errors));
            assert(tokens_of(e).len() == first.len() + second.len() + 3);
        },
        _ => {},
    }
}

/// An array literal is parsed back.
pub proof fn lemma_parse_array_form(
    t: Seq<TokenView>,
    position: int,
    errors: Seq<Seq<char>>,
    e: ExpressionView,
)
    requires
        plain(e),
        e is Array,
        tokens_stand(t, position, tokens_of(e)),
    ensures
        parse_prefix(t, at(position, errors)) == (Parsed {
            cursor: at(position + tokens_of(e).len() - 1, errors),
            result: Ok(e),
        }),
    decreases e, 0nat,
{
    match e {
        ExpressionView::Array(elements) => {
            let inner = tokens_list(elements, 0);
            assert(inner =~= remaining(elements, 0));
            let close = seq![TokenView::RBracket];
            assert(tokens_of(e) =~= seq![TokenView::LBracket] + (inner + close));
            lemma_tokens_parts(t, position, seq![TokenView::LBracket], inner + close);
            assert(t[position] == seq![TokenView::LBracket][0]);
            lemma_parse_list(
                t,
                position,
                errors,
                elements,
                0,
                TokenView::RBracket,
                Seq::empty(),
            );
            assert(Seq::<ExpressionView>::empty() + elements.subrange(0, elements.len() as int)
                =~= elements);
            assert(tokens_of(e).len() == inner.len() + 2);
        },
        _ => {},
    }
}

/// An index in parentheses is parsed back.
pub proof fn lemma_parse_index_form(
    t: Seq<TokenView>,
    position: int,
    errors: Seq<Seq<char>>,
    e: ExpressionView,
)
    requires
        plain(e),
        e is Index,
        tokens_stand(t, position, tokens_of(e)),
    ensures
        parse_prefix(t, at(position, errors)) == (Parsed {
            cursor: at(position + tokens_of(e).len() - 1, errors),
            result: Ok(e),
        }),
    decreases e, 0nat,
{
    match e {
        ExpressionView::Index(left, index) => {
            let first = tokens_of(*left);
            let second = tokens_of(*index);
            let close = seq![TokenView::RBracket, TokenView::RParen];
            lemma_tokens_parts(
                t,
                position,
                seq![TokenView::LParen] + first + seq![TokenView::LBracket] + second,
                close,
            );
            lemma_tokens_parts(
                t,
                position,
                seq![TokenView::LParen] + first + seq![TokenView::LBracket],
                second,
            );
            lemma_tokens_parts(
                t,
                position,
                seq![TokenView::LParen] + first,
                seq![TokenView::LBracket],
            );
            lemma_tokens_parts(t, position, seq![TokenView::LParen], first);
            lemma_first_token(*left);
            lemma_first_token(*index);
            let p_in = position + 1;
            let l_end = p_in + first.len() - 1;
            let p_open = l_end + 1;
            let p_i = p_open + 1;
            let i_end = p_i + second.len() - 1;
            let p_close = i_end + 1;
            assert(t[position] == seq![TokenView::LParen][0]);
            assert(t[p_open] == seq![TokenView::LBracket][0]);
            assert(t[p_i] == second[0]);
            assert(t[p_close] == close[0]);
            assert(t[p_close + 1] == close[1]);
            let c0 = at(position, errors);
            let c1 = at(p_in, errors);
            let c_lend = at(l_end, errors);
            let c_open = at(p_open, errors);
            let c_i = at(p_i, errors);
            let c_iend = at(i_end, errors);
            let c_close = at(p_close, errors);
            assert(next(t, c0) == c1);
            assert(next(t, c_lend) == c_open);
            assert(next(t, c_open) == c_i);
            assert(next(t, c_iend) == c_close);
            lemma_parse_plain(t, p_in, errors, *left, Precedence::Lowest);
            lemma_parse_plain(t, p_i, errors, *index, Precedence::Lowest);
            lemma_loop_stops(t, c_iend, *index, Precedence::Lowest);
            assert(parse_index(t, c_lend, *left) == (Parsed { cursor: c_close, result: Ok(e) }));
            assert(parse_infix(t, c_lend, *left) == parse_index(t, c_lend, *left));
            lemma_loop_once(t, c_lend, *left, Precedence::Lowest, c_close, e);
            lemma_loop_stops(t, c_close, e, Precedence::Lowest);
            lemma_group(t, c0, c_close, e);
            assert(next(t, c_close) == at(p_close + 1, errors));
            assert(tokens_of(e).len() == first.len() + second.len() + 4);
        },
        _ => {},
    }
}

/// The rest of a slice is parsed back from its colon on.
pub proof fn lemma_parse_slice_rest(
    t: Seq<TokenView>,
    position: int,
    errors: Seq<Seq<char>>,
    left: ExpressionView,
    start: Option<Box<ExpressionView>>,
    stop: Option<Box<ExpressionView>>,
)
    requires
        0 <= position,
        match stop {
            Some(tree) => plain(*tree),
            None => true,
        },
        tokens_stand(
            t,
            position + 1,
            seq![TokenView::Colon] + tokens_of_bound(stop) + seq![TokenView::RBracket],
        ),
    ensures
        parse_index_slice(
            t,
            at(position, errors),
            left,
            match start {
                Some(tree) => Some(*tree),
                None => None,
            },
        ) == (Parsed {
            cursor: at(position + 2 + tokens_of_bound(stop).len(), errors),
            result: Ok(ExpressionView::SliceIndex(Box::new(left), start, stop)),
        }),
    decreases stop, 3nat,
{
    let second = tokens_of_bound(stop);
    let close = seq![TokenView::RBracket];
    lemma_tokens_parts(t, position + 1, seq![TokenView::Colon] + second, close);
    lemma_tokens_parts(t, position + 1, seq![TokenView::Colon], second);
    let p_colon = position + 1;
    let p_s = p_colon + 1;
    let c = at(position, errors);
    let c1 = at(p_colon, errors);
    assert(next(t, c) == c1);
    let from = match start {
        Some(tree) => Some(*tree),
        None => None,
    };
    let from_box = match from {
        Some(tree) => Some(Box::new(tree)),
        None => None,
    };
    assert(from_box == start);
    match stop {
        Some(tree) => {
            lemma_first_token(*tree);
            let s_end = p_s + second.len() - 1;
            let c2 = at(p_s, errors);
            let c_send = at(s_end, errors);
            assert(t[p_s] == second[0]);
            assert(t[s_end + 1] == close[0]);
            assert(next(t, c1) == c2);
            assert(peek(t, c1) == second[0]);
            lemma_parse_plain(t, p_s, errors, *tree, Precedence::Lowest);
            lemma_loop_stops(t, c_send, *tree, Precedence::Lowest);
            assert(next(t, c_send) == at(s_end + 1, errors));
        },
        None => {
            assert(second =~= Seq::<TokenView>::empty());
            assert(t[p_s] == close[0]);
            assert(peek(t, c1) is RBracket);
            assert(next(t, c1) == at(p_s, errors));
        },
    }
}

/// A slice is parsed back from its opening bracket on.
pub proof fn lemma_parse_slice_brackets(
    t: Seq<TokenView>,
    position: int,
    errors: Seq<Seq<char>>,
    e: ExpressionView,
)
    requires
        plain(e),
        e is SliceIndex,
        0 <= position,
        tokens_stand(
            t,
            position + 1,
            seq![TokenView::LBracket] + tokens_of_bound(e->SliceIndex_1) + (seq![
                TokenView::Colon,
            ] + tokens_of_bound(e->SliceIndex_2) + seq![TokenView::RBracket]),
        ),
    ensures
        parse_index(t, at(position, errors), *e->SliceIndex_0) == (Parsed {
            cursor: at(
                position + 3 + tokens_of_bound(e->SliceIndex_1).len() + tokens_of_bound(
                    e->SliceIndex_2,
                ).len(),
                errors,
            ),
            result: Ok(e),
        }),
    decreases e, 0nat,
{
    match e {
        ExpressionView::SliceIndex(left, start, stop) => {
            let from = tokens_of_bound(start);
            let to = tokens_of_bound(stop);
            let tail = seq![TokenView::Colon] + to + seq![TokenView::RBracket];
            lemma_tokens_parts(t, position + 1, seq![TokenView::LBracket] + from, tail);
            lemma_tokens_parts(t, position + 1, seq![TokenView::LBracket], from);
            let p_open = position + 1;
            let p_f = p_open + 1;
            let f_end = p_f + from.len() - 1;
            assert(t[p_open] == seq![TokenView::LBracket][0]);
            assert(t[f_end + 1] == tail[0]);
            let c = at(position, errors);
            let c_open = at(p_open, errors);
            let c_fend = at(f_end, errors);
            assert(next(t, c) == c_open);
            lemma_parse_slice_rest(t, f_end, errors, *left, start, stop);
            match start {
                Some(tree) => {
                    lemma_first_token(*tree);
                    let c_f = at(p_f, errors);
                    assert(t[p_f] == from[0]);
                    assert(next(t, c_open) == c_f);
                    lemma_parse_plain(t, p_f, errors, *tree, Precedence::Lowest);
                    lemma_loop_stops(t, c_fend, *tree, Precedence::Lowest);
                },
                None => {
                    assert(from =~= Seq::<TokenView>::empty());
                    assert(c_fend == c_open);
                },
            }
        },
        _ => {},
    }
}

/// A slice in parentheses is parsed back.
pub proof fn lemma_parse_slice_form(
    t: Seq<TokenView>,
    position: int,
    errors: Seq<Seq<char>>,
    e: ExpressionView,
)
    requires
        plain(e),
        e is SliceIndex,
        tokens_stand(t, position, tokens_of(e)),
    ensures
        parse_prefix(t, at(position, errors)) == (Parsed {
            cursor: at(position + tokens_of(e).len() - 1, errors),
            result: Ok(e),
        }),
    decreases e, 1nat,
{
    match e {
        ExpressionView::SliceIndex(left, start, stop) => {
            let first = tokens_of(*left);
            let from = tokens_of_bound(start);
            let to = tokens_of_bound(stop);
            let paren = seq![TokenView::RParen];
            let brackets = seq![TokenView::LBracket] + from + (seq![TokenView::Colon] + to
                + seq![TokenView::RBracket]);
            let head = seq![TokenView::LParen] + first;
            assert(tokens_of(e) =~= head + brackets + paren);
            lemma_tokens_parts(t, position, head + brackets, paren);
            lemma_tokens_parts(t, position, head, brackets);
            lemma_tokens_parts(t, position, seq![TokenView::LParen], first);
            lemma_first_token(*left);
            let p_in = position + 1;
            let l_end = p_in + first.len() - 1;
            let p_close = l_end + 3 + from.len() + to.len();
            assert(brackets.len() == from.len() + to.len() + 3);
            assert(t[position] == seq![TokenView::LParen][0]);
            assert(t[l_end + 1] == brackets[0]);
            assert(t[p_close + 1] == paren[0]);
            let c0 = at(position, errors);
            let c1 = at(p_in, errors);
            let c_lend = at(l_end, errors);
            let c_close = at(p_close, errors);
            assert(next(t, c0) == c1);
            lemma_parse_plain(t, p_in, errors, *left, Precedence::Lowest);
            lemma_parse_slice_brackets(t, l_end, errors, e);
            assert(parse_infix(t, c_lend, *left) == parse_index(t, c_lend, *left));
            lemma_loop_once(t, c_lend, *left, Precedence::Lowest, c_close, e);
            lemma_loop_stops(t, c_close, e, Precedence::Lowest);
            lemma_group(t, c0, c_close, e);
            assert(next(t, c_close) == at(p_close + 1, errors));
            assert(tokens_of(e).len() == first.len() + from.len() + to.len() + 5);
        },
        _ => {},
    }
}

/// The tokens of a plain expression that is no call are parsed back to
/// the expression as the start of an expression, and the parser stands on
/// the last of them afterwards.
pub proof fn lemma_parse_start(
    t: Seq<TokenView>,
    position: int,
    errors: Seq<Seq<char>>,
    e: ExpressionView,
)
    requires
        plain(e),
        !(e is Call),
        tokens_stand(t, position, tokens_of(e)),
        !(token(t, position + tokens_of(e).len()) is Else),
    ensures
        parse_prefix(t, at(position, errors)) == (Parsed {
            cursor: at(position + tokens_of(e).len() - 1, errors),
            result: Ok(e),
        }),
    decreases e, 2nat,
{
    match e {
        ExpressionView::Identifier(name) => {
            assert(t[position] == tokens_of(e)[0]);
        },
        ExpressionView::Integer(value) => {
            assert(t[position] == tokens_of(e)[0]);
            lemma_parse_decimal(value as nat);
        },
        ExpressionView::Boolean(value) => {
            assert(t[position] == tokens_of(e)[0]);
        },
        ExpressionView::Prefix(_, _) => {
            lemma_parse_prefix_form(t, position, errors, e);
        },
        ExpressionView::Infix(_, _, _) => {
            lemma_parse_infix_form(t, position, errors, e);
        },
        ExpressionView::Array(_) => {
            lemma_parse_array_form(t, position, errors, e);
        },
        ExpressionView::Index(_, _) => {
            lemma_parse_index_form(t, position, errors, e);
        },
        ExpressionView::SliceIndex(_, _, _) => {
            lemma_parse_slice_form(t, position, errors, e);
        },
        ExpressionView::If(_, _, _) => {
            lemma_parse_if_form(t, position, errors, e);
        },
        ExpressionView::Function(_, _, _) => {
            lemma_parse_function_form(t, position, errors, e);
        },
        _ => {},
    }
}

/// A call is parsed back: the called expression, then the arguments as
/// what goes on behind it.
pub proof fn lemma_parse_call(
    t: Seq<TokenView>,
    position: int,
    errors: Seq<Seq<char>>,
    e: ExpressionView,
    precedence: Precedence,
)
    requires
        plain(e),
        e is Call,
        tokens_stand(t, position, tokens_of(e)),
        precedence.rank() < Precedence::Call.rank(),
    ensures
        parse_expression(t, at(position, errors), precedence) == infix_loop(
            t,
            at(position + tokens_of(e).len() - 1, errors),
            e,
            precedence,
        ),
    decreases e, 2nat,
{
    match e {
        ExpressionView::Call(function, args) => {
            let first = tokens_of(*function);
            let inner = tokens_list(args, 0);
            assert(inner =~= remaining(args, 0));
            let close = seq![TokenView::RParen];
            assert(tokens_of(e) =~= first + seq![TokenView::LParen] + (inner + close));
            lemma_tokens_parts(t, position, first + seq![TokenView::LParen], inner + close);
            lemma_tokens_parts(t, position, first, seq![TokenView::LParen]);
            lemma_first_token(*function);
            let f_end = position + first.len() - 1;
            let p_open = f_end + 1;
            let p_close = p_open + 1 + inner.len();
            assert(t[p_open] == seq![TokenView::LParen][0]);
            lemma_tokens_parts(t, p_open + 1, inner, close);
            assert(t[p_close] == close[0]);
            let c_fend = at(f_end, errors);
            let c_open = at(p_open, errors);
            let c_close = at(p_close, errors);
            assert(next(t, c_fend) == c_open);
            lemma_parse_plain(t, position, errors, *function, precedence);
            lemma_parse_list(t, p_open, errors, args, 0, TokenView::RParen, Seq::empty());
            assert(Seq::<ExpressionView>::empty() + args.subrange(0, args.len() as int)
                =~= args);
            lemma_call_arm(t, c_fend, *function, c_close, args);
            lemma_loop_once(t, c_fend, *function, precedence, c_close, e);
            assert(tokens_of(e).len() == first.len() + inner.len() + 2);
        },
        _ => {},
    }
}

/// The tokens of a plain expression are parsed back to the expression,
/// and the parser stands on the last of them and looks at what goes on
/// behind it.
pub proof fn lemma_parse_plain(
    t: Seq<TokenView>,
    position: int,
    errors: Seq<Seq<char>>,
    e: ExpressionView,
    precedence: Precedence,
)
    requires
        plain(e),
        tokens_stand(t, position, tokens_of(e)),
        precedence.rank() < Precedence::Call.rank(),
        !(token(t, position + tokens_of(e).len()) is Else),
    ensures
        parse_expression(t, at(position, errors), precedence) == infix_loop(
            t,
            at(position + tokens_of(e).len() - 1, errors),
            e,
            precedence,
        ),
    decreases e, 3nat,
{
    if e is Call {
        lemma_parse_call(t, position, errors, e, precedence);
    } else {
        lemma_first_token(e);
        lemma_parse_start(t, position, errors, e);
        lemma_expression(
            t,
            at(position, errors),
            precedence,
            at(position + tokens_of(e).len() - 1, errors),
            e,
        );
    }
}

/// A `let` statement: the name, `=` and the value.
pub proof fn lemma_let_arm(
    t: Seq<TokenView>,
    c: Cursor,
    name: Seq<char>,
    end: Cursor,
    value: ExpressionView,
)
    requires
        cur(t, c) is Let,
        peek(t, c) == TokenView::Ident(name),
        peek(t, next(t, c)) is Assign,
        0 <= c.position,
        c.position + 3 <= t.len(),
        parse_expression(t, next(t, next(t, next(t, c))), Precedence::Lowest) == (Parsed {
            cursor: end,
            result: Ok(value),
        }),
    ensures
        parse_statement(t, c) == (Parsed {
            cursor: skip_semicolon(t, end),
            result: Ok(StatementView::Let(name, named_value(name, value))),
        }),
{
    assert(parse_statement(t, c) == parse_let(t, c));
}

/// A `return` statement: the value behind the keyword.
pub proof fn lemma_return_arm(t: Seq<TokenView>, c: Cursor, end: Cursor, value: ExpressionView)
    requires
        cur(t, c) is Return,
        parse_expression(t, next(t, c), Precedence::Lowest) == (Parsed {
            cursor: end,
            result: Ok(value),
        }),
    ensures
        parse_statement(t, c) == (Parsed {
            cursor: skip_semicolon(t, end),
            result: Ok(StatementView::Return(value)),
        }),
{
}

/// An expression statement: what starts with neither `let` nor `return`.
pub proof fn lemma_expression_arm(
    t: Seq<TokenView>,
    c: Cursor,
    end: Cursor,
    value: ExpressionView,
)
    requires
        !(cur(t, c) is Let),
        !(cur(t, c) is Return),
        parse_expression(t, c, Precedence::Lowest) == (Parsed { cursor: end, result: Ok(value) }),
    ensures
        parse_statement(t, c) == (Parsed {
            cursor: skip_semicolon(t, end),
            result: Ok(StatementView::Expression(value)),
        }),
{
}

/// A program goes on behind a statement that was parsed.
pub proof fn lemma_program_step(
    t: Seq<TokenView>,
    c: Cursor,
    collected: Seq<StatementView>,
    end: Cursor,
    stmt: StatementView,
)
    requires
        !(cur(t, c) is Eof),
        parse_statement(t, c) == (Parsed { cursor: end, result: Ok(stmt) }),
        0 <= c.position <= end.position < t.len(),
    ensures
        program_loop(t, c, collected) == program_loop(t, next(t, end), collected.push(stmt)),
{
}

/// A program ends at `Eof`.
pub proof fn lemma_program_end(t: Seq<TokenView>, c: Cursor, collected: Seq<StatementView>)
    requires
        cur(t, c) is Eof,
    ensures
        program_loop(t, c, collected) == (c, collected),
{
}

/// A plain `let` statement is parsed back from its tokens.
pub proof fn lemma_parse_let_stmt(
    t: Seq<TokenView>,
    position: int,
    errors: Seq<Seq<char>>,
    stmt: StatementView,
)
    requires
        plain_stmt(stmt),
        stmt is Let,
        tokens_stand(t, position, tokens_stmt(stmt)),
    ensures
        parse_statement(t, at(position, errors)) == (Parsed {
            cursor: at(position + tokens_stmt(stmt).len() - 1, errors),
            result: Ok(stmt),
        }),
    decreases stmt, 0nat,
{
    let c = at(position, errors);
    match stmt {
        StatementView::Let(name, value) => {
            let head = seq![TokenView::Let, TokenView::Ident(name), TokenView::Assign];
            let inner = tokens_of(value);
            let close = seq![TokenView::Semicolon];
            lemma_tokens_parts(t, position, head + inner, close);
            lemma_tokens_parts(t, position, head, inner);
            lemma_first_token(value);
            let p_value = position + 3;
            let v_end = p_value + inner.len() - 1;
            assert(t[position] == head[0]);
            assert(t[position + 1] == head[1]);
            assert(t[position + 2] == head[2]);
            assert(t[v_end + 1] == close[0]);
            let c1 = at(position + 1, errors);
            let c2 = at(p_value, errors);
            let c_end = at(v_end, errors);
            assert(next(t, c) == c1);
            assert(next(t, next(t, c1)) == c2);
            lemma_parse_plain(t, p_value, errors, value, Precedence::Lowest);
            lemma_loop_stops(t, c_end, value, Precedence::Lowest);
            assert(skip_semicolon(t, c_end) == at(v_end + 1, errors));
            assert(named_value(name, value) == value);
            lemma_let_arm(t, c, name, c_end, value);
            assert(tokens_stmt(stmt).len() == inner.len() + 4);
        },
        _ => {},
    }
}

/// A plain `return` statement is parsed back from its tokens.
pub proof fn lemma_parse_return_stmt(
    t: Seq<TokenView>,
    position: int,
    errors: Seq<Seq<char>>,
    stmt: StatementView,
)
    requires
        plain_stmt(stmt),
        stmt is Return,
        tokens_stand(t, position, tokens_stmt(stmt)),
    ensures
        parse_statement(t, at(position, errors)) == (Parsed {
            cursor: at(position + tokens_stmt(stmt).len() - 1, errors),
            result: Ok(stmt),
        }),
    decreases stmt, 0nat,
{
    let c = at(position, errors);
    match stmt {
        StatementView::Return(value) => {
            let head = seq![TokenView::Return];
            let inner = tokens_of(value);
            let close = seq![TokenView::Semicolon];
            lemma_tokens_parts(t, position, head + inner, close);
            lemma_tokens_parts(t, position, head, inner);
            lemma_first_token(value);
            let p_value = position + 1;
            let v_end = p_value + inner.len() - 1;
            assert(t[position] == head[0]);
            assert(t[v_end + 1] == close[0]);
            let c1 = at(p_value, errors);
            let c_end = at(v_end, errors);
            assert(next(t, c) == c1);
            lemma_parse_plain(t, p_value, errors, value, Precedence::Lowest);
            lemma_loop_stops(t, c_end, value, Precedence::Lowest);
            assert(skip_semicolon(t, c_end) == at(v_end + 1, errors));
            lemma_return_arm(t, c, c_end, value);
            assert(tokens_stmt(stmt).len() == inner.len() + 2);
        },
        _ => {},
    }
}

/// A plain expression statement is parsed back from its tokens, where no
/// statement follows it.
pub proof fn lemma_parse_expression_stmt(
    t: Seq<TokenView>,
    position: int,
    errors: Seq<Seq<char>>,
    stmt: StatementView,
)
    requires
        plain_stmt(stmt),
        stmt is Expression,
        tokens_stand(t, position, tokens_stmt(stmt)),
        token(t, position + tokens_stmt(stmt).len()) is Eof || token(
            t,
            position + tokens_stmt(stmt).len(),
        ) is RBrace,
    ensures
        parse_statement(t, at(position, errors)) == (Parsed {
            cursor: at(position + tokens_stmt(stmt).len() - 1, errors),
            result: Ok(stmt),
        }),
    decreases stmt, 0nat,
{
    let c = at(position, errors);
    match stmt {
        StatementView::Expression(value) => {
            let inner = tokens_of(value);
            lemma_first_token(value);
            let v_end = position + inner.len() - 1;
            assert(t[position] == inner[0]);
            let c_end = at(v_end, errors);
            lemma_parse_plain(t, position, errors, value, Precedence::Lowest);
            lemma_loop_stops(t, c_end, value, Precedence::Lowest);
            assert(skip_semicolon(t, c_end) == c_end);
            lemma_expression_arm(t, c, c_end, value);
        },
        _ => {},
    }
}

/// A plain statement has tokens, and the first is none that ends a
/// program or a block.
pub proof fn lemma_first_of_stmt(stmt: StatementView)
    requires
        plain_stmt(stmt),
    ensures
        tokens_stmt(stmt).len() >= 1,
        !(tokens_stmt(stmt)[0] is Eof),
        !(tokens_stmt(stmt)[0] is RBrace),
{
    match stmt {
        StatementView::Let(name, value) => {
            assert(tokens_stmt(stmt)[0] == seq![
                TokenView::Let,
                TokenView::Ident(name),
                TokenView::Assign,
            ][0]);
        },
        StatementView::Return(value) => {
            assert(tokens_stmt(stmt)[0] == seq![TokenView::Return][0]);
        },
        StatementView::Expression(value) => {
            lemma_first_token(value);
        },
        StatementView::Block(_) => {},
    }
}

/// A plain statement is parsed back from its tokens, and the parser
/// stands on the last of them afterwards.
pub proof fn lemma_parse_stmt(
    t: Seq<TokenView>,
    position: int,
    errors: Seq<Seq<char>>,
    stmt: StatementView,
)
    requires
        plain_stmt(stmt),
        tokens_stand(t, position, tokens_stmt(stmt)),
        stmt is Expression ==> token(t, position + tokens_stmt(stmt).len()) is Eof || token(
            t,
            position + tokens_stmt(stmt).len(),
        ) is RBrace,
    ensures
        parse_statement(t, at(position, errors)) == (Parsed {
            cursor: at(position + tokens_stmt(stmt).len() - 1, errors),
            result: Ok(stmt),
        }),
    decreases stmt, 1nat,
{
    match stmt {
        StatementView::Let(_, _) => {
            lemma_parse_let_stmt(t, position, errors, stmt);
        },
        StatementView::Return(_) => {
            lemma_parse_return_stmt(t, position, errors, stmt);
        },
        StatementView::Expression(_) => {
            lemma_parse_expression_stmt(t, position, errors, stmt);
        },
        StatementView::Block(_) => {},
    }
}

/// Where the tokens of statements stand before a token that ends them,
/// the tokens of the first stand, and behind them those of the others
/// before that token.
pub proof fn lemma_stmts_tokens(
    t: Seq<TokenView>,
    position: int,
    stmts: Seq<StatementView>,
    i: int,
    end: TokenView,
)
    requires
        plain_stmts(stmts, i),
        0 <= i < stmts.len(),
        end is Eof || end is RBrace,
        tokens_stand(t, position, tokens_stmts(stmts, i) + seq![end]),
    ensures
        plain_stmt(stmts[i]),
        tokens_stand(t, position, tokens_stmt(stmts[i])),
        tokens_stand(
            t,
            position + tokens_stmt(stmts[i]).len(),
            tokens_stmts(stmts, i + 1) + seq![end],
        ),
        tokens_stmts(stmts, i).len() == tokens_stmt(stmts[i]).len() + tokens_stmts(
            stmts,
            i + 1,
        ).len(),
        stmts[i] is Expression ==> token(t, position + tokens_stmt(stmts[i]).len()) == end,
        plain_stmts(stmts, i + 1),
{
    let tail = seq![end];
    let own = tokens_stmt(stmts[i]);
    let rest = tokens_stmts(stmts, i + 1);
    assert(tokens_stmts(stmts, i) == own + rest);
    assert(tokens_stmts(stmts, i) + tail =~= own + (rest + tail));
    lemma_tokens_parts(t, position, own, rest + tail);
    if stmts[i] is Expression {
        assert(rest =~= Seq::<TokenView>::empty());
        assert(t[position + own.len() + 0] == (rest + tail)[0]);
    }
}

/// A block goes on behind a statement that was parsed.
pub proof fn lemma_block_step(
    t: Seq<TokenView>,
    c: Cursor,
    collected: Seq<StatementView>,
    end: Cursor,
    stmt: StatementView,
)
    requires
        !(cur(t, c) is Eof),
        !(cur(t, c) is RBrace),
        parse_statement(t, c) == (Parsed { cursor: end, result: Ok(stmt) }),
        0 <= c.position <= end.position < t.len(),
    ensures
        block_loop(t, c, collected) == block_loop(t, next(t, end), collected.push(stmt)),
{
}

/// A block ends at its closing brace.
pub proof fn lemma_block_end(t: Seq<TokenView>, c: Cursor, collected: Seq<StatementView>)
    requires
        cur(t, c) is RBrace,
    ensures
        block_loop(t, c, collected) == (Parsed {
            cursor: c,
            result: Ok(StatementView::Block(collected)),
        }),
{
}

/// A block starts behind its opening brace.
pub proof fn lemma_block_open(t: Seq<TokenView>, c: Cursor)
    requires
        0 <= c.position < t.len(),
    ensures
        parse_block(t, c) == block_loop(t, next(t, c), Seq::empty()),
{
}

/// Plain statements are parsed back from their tokens up to the closing
/// brace of their block.
#[verifier::rlimit(80)]
pub proof fn lemma_parse_block_loop(
    t: Seq<TokenView>,
    position: int,
    errors: Seq<Seq<char>>,
    stmts: Seq<StatementView>,
    i: int,
    collected: Seq<StatementView>,
)
    requires
        plain_stmts(stmts, i),
        0 <= i <= stmts.len(),
        0 <= position,
        tokens_stand(t, position, tokens_stmts(stmts, i) + seq![TokenView::RBrace]),
    ensures
        block_loop(t, at(position, errors), collected) == (Parsed {
            cursor: at(position + tokens_stmts(stmts, i).len(), errors),
            result: Ok(
                StatementView::Block(collected + stmts.subrange(i, stmts.len() as int)),
            ),
        }),
    decreases stmts, (stmts.len() - i) as nat,
{
    let c = at(position, errors);
    if i < stmts.len() {
        let own = tokens_stmt(stmts[i]);
        lemma_stmts_tokens(t, position, stmts, i, TokenView::RBrace);
        lemma_first_of_stmt(stmts[i]);
        let s_end = position + own.len() - 1;
        lemma_parse_stmt(t, position, errors, stmts[i]);
        assert(t[position] == own[0]);
        let more = collected.push(stmts[i]);
        assert(more + stmts.subrange(i + 1, stmts.len() as int) =~= collected + stmts.subrange(
            i,
            stmts.len() as int,
        ));
        assert(next(t, at(s_end, errors)) == at(s_end + 1, errors));
        lemma_block_step(t, c, collected, at(s_end, errors), stmts[i]);
        lemma_parse_block_loop(t, s_end + 1, errors, stmts, i + 1, more);
    } else {
        let end = seq![TokenView::RBrace];
        assert(tokens_stmts(stmts, i) + end =~= end);
        assert(t[position] == end[0]);
        lemma_block_end(t, c, collected);
        assert(collected + stmts.subrange(i, stmts.len() as int) =~= collected);
    }
}

/// A block of plain statements is parsed back from its tokens, braces
/// included, and the parser stands on the closing brace afterwards.
pub proof fn lemma_parse_braced(
    t: Seq<TokenView>,
    position: int,
    errors: Seq<Seq<char>>,
    block: StatementView,
)
    requires
        plain_block(block),
        0 <= position,
        tokens_stand(t, position, tokens_braced(block)),
    ensures
        tokens_braced(block).len() >= 2,
        tokens_braced(block)[0] is LBrace,
        parse_block(t, at(position, errors)) == (Parsed {
            cursor: at(position + tokens_braced(block).len() - 1, errors),
            result: Ok(block),
        }),
    decreases block, 0nat,
{
    match block {
        StatementView::Block(stmts) => {
            let inner = tokens_stmts(stmts, 0);
            let open = seq![TokenView::LBrace];
            let close = seq![TokenView::RBrace];
            assert(tokens_braced(block) =~= open + (inner + close));
            lemma_tokens_parts(t, position, open, inner + close);
            assert(t[position] == open[0]);
            assert(next(t, at(position, errors)) == at(position + 1, errors));
            lemma_block_open(t, at(position, errors));
            lemma_parse_block_loop(t, position + 1, errors, stmts, 0, Seq::empty());
            assert(Seq::<StatementView>::empty() + stmts.subrange(0, stmts.len() as int)
                =~= stmts);
        },
        _ => {},
    }
}

/// The parameters end at the closing parenthesis.
pub proof fn lemma_names_end(t: Seq<TokenView>, c: Cursor, names: Seq<Seq<char>>)
    requires
        peek(t, c) is RParen,
        !(cur(t, c) is Comma),
    ensures
        parse_parameters(t, c, names) == (Parsed { cursor: next(t, c), result: Ok(names) }),
{
}

/// The parameters go on behind a name.
pub proof fn lemma_names_step(t: Seq<TokenView>, c: Cursor, name: Seq<char>, names: Seq<Seq<char>>)
    requires
        peek(t, c) == TokenView::Ident(name),
        0 <= c.position,
        c.position + 2 < t.len(),
        peek(t, next(t, c)) is Comma || peek(t, next(t, c)) is RParen,
    ensures
        parse_parameters(t, c, names) == parse_parameters(
            t,
            if peek(t, next(t, c)) is Comma {
                next(t, next(t, c))
            } else {
                next(t, c)
            },
            names.push(name),
        ),
{
}

/// The tokens of the names from index `i` on, without a comma before the
/// first of them.
pub open spec fn remaining_names(names: Seq<Seq<char>>, i: int) -> Seq<TokenView> {
    if 0 <= i < names.len() {
        seq![TokenView::Ident(names[i])] + tokens_names(names, i + 1)
    } else {
        Seq::empty()
    }
}

/// The tokens of a list of parameters are parsed back to the names: with
/// the parser on the token before the name `i`, which is the opening
/// parenthesis or a comma, it goes on to the closing parenthesis.
pub proof fn lemma_parse_names(
    t: Seq<TokenView>,
    position: int,
    errors: Seq<Seq<char>>,
    names: Seq<Seq<char>>,
    i: int,
    collected: Seq<Seq<char>>,
)
    requires
        0 <= i <= names.len(),
        i < names.len() || names.len() == 0,
        0 <= position < t.len(),
        !(t[position] is Comma) || i > 0,
        tokens_stand(t, position + 1, remaining_names(names, i) + seq![TokenView::RParen]),
    ensures
        parse_parameters(t, at(position, errors), collected) == (Parsed {
            cursor: at(position + 1 + remaining_names(names, i).len(), errors),
            result: Ok(collected + names.subrange(i, names.len() as int)),
        }),
    decreases names.len() - i,
{
    let c = at(position, errors);
    let close = seq![TokenView::RParen];
    lemma_tokens_parts(t, position + 1, remaining_names(names, i), close);
    if i < names.len() {
        let own = seq![TokenView::Ident(names[i])];
        let rest = tokens_names(names, i + 1);
        lemma_tokens_parts(t, position + 1, own, rest);
        let p_name = position + 1;
        let c1 = at(p_name, errors);
        assert(t[p_name] == own[0]);
        assert(next(t, c) == c1);
        let more = collected.push(names[i]);
        assert(more + names.subrange(i + 1, names.len() as int) =~= collected + names.subrange(
            i,
            names.len() as int,
        ));
        if i + 1 < names.len() {
            assert(rest == seq![TokenView::Comma] + remaining_names(names, i + 1));
            lemma_tokens_parts(t, p_name + 1, seq![TokenView::Comma], remaining_names(
                names,
                i + 1,
            ));
            assert(t[p_name + 1] == seq![TokenView::Comma][0]);
            assert(remaining_names(names, i + 1).len() >= 1);
            assert(next(t, c1) == at(p_name + 1, errors));
            assert(tokens_stand(t, p_name + 2, remaining_names(names, i + 1) + close)) by {
                let tail = remaining_names(names, i + 1) + close;
                let whole = remaining_names(names, i) + close;
                assert forall|k: int| 0 <= k < tail.len() implies t[p_name + 2 + k]
                    == #[trigger] tail[k] by {
                    assert(whole[2 + k] == tail[k]);
                    assert(t[position + 1 + (2 + k)] == whole[2 + k]);
                }
            }
            lemma_names_step(t, c, names[i], collected);
            lemma_parse_names(t, p_name + 1, errors, names, i + 1, more);
            assert(remaining_names(names, i).len() == 2 + remaining_names(names, i + 1).len());
        } else {
            assert(rest =~= Seq::<TokenView>::empty());
            assert(t[p_name + 1] == close[0]);
            assert(peek(t, c1) is RParen);
            lemma_names_step(t, c, names[i], collected);
            lemma_names_end(t, c1, more);
            assert(names.subrange(i + 1, names.len() as int) =~= Seq::<Seq<char>>::empty());
            assert(more + Seq::<Seq<char>>::empty() =~= more);
            assert(next(t, c1) == at(p_name + 1, errors));
            assert(remaining_names(names, i).len() == 1);
        }
    } else {
        assert(t[position + 1] == close[0]);
        lemma_names_end(t, c, collected);
        assert(collected + names.subrange(i, names.len() as int) =~= collected);
    }
}

/// A conditional up to the end of its consequence.
pub proof fn lemma_if_arm(
    t: Seq<TokenView>,
    c: Cursor,
    mid: Cursor,
    condition: ExpressionView,
    end: Cursor,
    consequence: StatementView,
)
    requires
        cur(t, c) is If,
        peek(t, c) is LParen,
        0 <= c.position,
        c.position + 2 <= mid.position,
        mid.position + 2 < t.len(),
        parse_expression(t, next(t, next(t, c)), Precedence::Lowest) == (Parsed {
            cursor: mid,
            result: Ok(condition),
        }),
        peek(t, mid) is RParen,
        peek(t, next(t, mid)) is LBrace,
        parse_block(t, next(t, next(t, mid))) == (Parsed { cursor: end, result: Ok(consequence) }),
        c.position <= end.position <= t.len(),
    ensures
        parse_prefix(t, c) == parse_else(t, end, condition, consequence),
{
    assert(parse_prefix(t, c) == crate::parser::model::parse_if(t, c));
}

/// A conditional without `else`.
pub proof fn lemma_else_none(
    t: Seq<TokenView>,
    c: Cursor,
    condition: ExpressionView,
    consequence: StatementView,
)
    requires
        !(peek(t, c) is Else),
    ensures
        parse_else(t, c, condition, consequence) == (Parsed {
            cursor: c,
            result: Ok(ExpressionView::If(Box::new(condition), Box::new(consequence), None)),
        }),
{
}

/// A conditional with `else` and its block.
pub proof fn lemma_else_some(
    t: Seq<TokenView>,
    c: Cursor,
    condition: ExpressionView,
    consequence: StatementView,
    end: Cursor,
    alternative: StatementView,
)
    requires
        peek(t, c) is Else,
        peek(t, next(t, c)) is LBrace,
        0 <= c.position,
        c.position + 2 < t.len(),
        parse_block(t, next(t, next(t, c))) == (Parsed { cursor: end, result: Ok(alternative) }),
    ensures
        parse_else(t, c, condition, consequence) == (Parsed {
            cursor: end,
            result: Ok(
                ExpressionView::If(
                    Box::new(condition),
                    Box::new(consequence),
                    Some(Box::new(alternative)),
                ),
            ),
        }),
{
}

/// A function literal: the parameters and the body.
pub proof fn lemma_function_arm(
    t: Seq<TokenView>,
    c: Cursor,
    mid: Cursor,
    names: Seq<Seq<char>>,
    end: Cursor,
    body: StatementView,
)
    requires
        cur(t, c) is Function,
        peek(t, c) is LParen,
        0 <= c.position < mid.position,
        mid.position + 1 < t.len(),
        parse_parameters(t, next(t, c), Seq::empty()) == (Parsed {
            cursor: mid,
            result: Ok(names),
        }),
        peek(t, mid) is LBrace,
        parse_block(t, next(t, mid)) == (Parsed { cursor: end, result: Ok(body) }),
    ensures
        parse_prefix(t, c) == (Parsed {
            cursor: end,
            result: Ok(ExpressionView::Function(names, Box::new(body), None)),
        }),
{
    assert(parse_prefix(t, c) == crate::parser::model::parse_function(t, c));
}

/// What stands behind the consequence of a conditional is parsed back.
pub proof fn lemma_parse_else_part(
    t: Seq<TokenView>,
    position: int,
    errors: Seq<Seq<char>>,
    condition: ExpressionView,
    consequence: StatementView,
    alternative: Option<Box<StatementView>>,
)
    requires
        0 <= position,
        match alternative {
            Some(block) => plain_block(*block),
            None => !(token(t, position + 1) is Else),
        },
        tokens_stand(t, position + 1, tokens_else(alternative)),
    ensures
        parse_else(t, at(position, errors), condition, consequence) == (Parsed {
            cursor: at(position + tokens_else(alternative).len(), errors),
            result: Ok(
                ExpressionView::If(Box::new(condition), Box::new(consequence), alternative),
            ),
        }),
    decreases alternative, 2nat,
{
    let c = at(position, errors);
    match alternative {
        Some(block) => {
            let inner = tokens_braced(*block);
            lemma_tokens_parts(t, position + 1, seq![TokenView::Else], inner);
            assert(t[position + 1] == seq![TokenView::Else][0]);
            lemma_parse_braced(t, position + 2, errors, *block);
            assert(t[position + 2] == inner[0]);
            assert(next(t, c) == at(position + 1, errors));
            assert(next(t, next(t, c)) == at(position + 2, errors));
            lemma_else_some(
                t,
                c,
                condition,
                consequence,
                at(position + 2 + inner.len() - 1, errors),
                *block,
            );
            assert(tokens_else(alternative).len() == inner.len() + 1);
        },
        None => {
            lemma_else_none(t, c, condition, consequence);
        },
    }
}

/// A conditional is parsed back.
pub proof fn lemma_parse_if_form(
    t: Seq<TokenView>,
    position: int,
    errors: Seq<Seq<char>>,
    e: ExpressionView,
)
    requires
        plain(e),
        e is If,
        tokens_stand(t, position, tokens_of(e)),
        !(token(t, position + tokens_of(e).len()) is Else),
    ensures
        parse_prefix(t, at(position, errors)) == (Parsed {
            cursor: at(position + tokens_of(e).len() - 1, errors),
            result: Ok(e),
        }),
    decreases e, 1nat,
{
    match e {
        ExpressionView::If(condition, consequence, alternative) => {
            let head = seq![TokenView::If, TokenView::LParen];
            let first = tokens_of(*condition);
            let close = seq![TokenView::RParen];
            let inner = tokens_braced(*consequence);
            let last = tokens_else(alternative);
            lemma_tokens_parts(t, position, head + first + close + inner, last);
            lemma_tokens_parts(t, position, head + first + close, inner);
            lemma_tokens_parts(t, position, head + first, close);
            lemma_tokens_parts(t, position, head, first);
            lemma_first_token(*condition);
            let p_first = position + 2;
            let f_end = p_first + first.len() - 1;
            let p_open = f_end + 2;
            assert(t[position] == head[0]);
            assert(t[position + 1] == head[1]);
            assert(t[f_end + 1] == close[0]);
            let c0 = at(position, errors);
            let c_first = at(p_first, errors);
            let c_fend = at(f_end, errors);
            assert(next(t, next(t, c0)) == c_first);
            lemma_parse_plain(t, p_first, errors, *condition, Precedence::Lowest);
            lemma_loop_stops(t, c_fend, *condition, Precedence::Lowest);
            lemma_parse_braced(t, p_open, errors, *consequence);
            assert(t[p_open] == inner[0]);
            let p_close = p_open + inner.len() - 1;
            let c_close = at(p_close, errors);
            assert(next(t, next(t, c_fend)) == at(p_open, errors));
            lemma_if_arm(t, c0, c_fend, *condition, c_close, *consequence);
            if alternative is None {
                assert(last =~= Seq::<TokenView>::empty());
            }
            lemma_parse_else_part(t, p_close, errors, *condition, *consequence, alternative);
            assert(tokens_of(e).len() == first.len() + inner.len() + last.len() + 3);
        },
        _ => {},
    }
}

/// A function literal is parsed back.
pub proof fn lemma_parse_function_form(
    t: Seq<TokenView>,
    position: int,
    errors: Seq<Seq<char>>,
    e: ExpressionView,
)
    requires
        plain(e),
        e is Function,
        tokens_stand(t, position, tokens_of(e)),
    ensures
        parse_prefix(t, at(position, errors)) == (Parsed {
            cursor: at(position + tokens_of(e).len() - 1, errors),
            result: Ok(e),
        }),
    decreases e, 1nat,
{
    match e {
        ExpressionView::Function(params, body, name) => {
            let head = seq![TokenView::Function, TokenView::LParen];
            let first = tokens_names(params, 0);
            let close = seq![TokenView::RParen];
            let inner = tokens_braced(*body);
            assert(first =~= remaining_names(params, 0));
            assert(tokens_of(e) =~= head + (first + close) + inner);
            lemma_tokens_parts(t, position, head + (first + close), inner);
            lemma_tokens_parts(t, position, head, first + close);
            let p_open = position + 1;
            let p_close = p_open + 1 + first.len();
            let p_brace = p_close + 1;
            assert(t[position] == head[0]);
            assert(t[p_open] == head[1]);
            let c0 = at(position, errors);
            let c_open = at(p_open, errors);
            let c_close = at(p_close, errors);
            assert(next(t, c0) == c_open);
            lemma_parse_names(t, p_open, errors, params, 0, Seq::empty());
            assert(Seq::<Seq<char>>::empty() + params.subrange(0, params.len() as int)
                =~= params);
            lemma_parse_braced(t, p_brace, errors, *body);
            assert(t[p_brace] == inner[0]);
            assert(next(t, c_close) == at(p_brace, errors));
            lemma_function_arm(
                t,
                c0,
                c_close,
                params,
                at(p_brace + inner.len() - 1, errors),
                *body,
            );
            assert(tokens_of(e).len() == first.len() + inner.len() + 3);
        },
        _ => {},
    }
}

/// Plain statements are parsed back from their tokens up to `Eof`.
#[verifier::rlimit(80)]
pub proof fn lemma_parse_program(
    t: Seq<TokenView>,
    position: int,
    errors: Seq<Seq<char>>,
    stmts: Seq<StatementView>,
    i: int,
    collected: Seq<StatementView>,
)
    requires
        plain_stmts(stmts, i),
        0 <= i <= stmts.len(),
        0 <= position,
        tokens_stand(t, position, tokens_stmts(stmts, i) + seq![TokenView::Eof]),
    ensures
        program_loop(t, at(position, errors), collected) == (
            at(position + tokens_stmts(stmts, i).len(), errors),
            collected + stmts.subrange(i, stmts.len() as int),
        ),
    decreases stmts, (stmts.len() - i) as nat,
{
    let c = at(position, errors);
    if i < stmts.len() {
        let own = tokens_stmt(stmts[i]);
        lemma_stmts_tokens(t, position, stmts, i, TokenView::Eof);
        lemma_first_of_stmt(stmts[i]);
        let s_end = position + own.len() - 1;
        lemma_parse_stmt(t, position, errors, stmts[i]);
        assert(t[position] == own[0]);
        let more = collected.push(stmts[i]);
        assert(more + stmts.subrange(i + 1, stmts.len() as int) =~= collected + stmts.subrange(
            i,
            stmts.len() as int,
        ));
        assert(next(t, at(s_end, errors)) == at(s_end + 1, errors));
        lemma_program_step(t, c, collected, at(s_end, errors), stmts[i]);
        lemma_parse_program(t, s_end + 1, errors, stmts, i + 1, more);
    } else {
        let end = seq![TokenView::Eof];
        assert(tokens_stmts(stmts, i) + end =~= end);
        assert(t[position] == end[0]);
        lemma_program_end(t, c, collected);
        assert(collected + stmts.subrange(i, stmts.len() as int) =~= collected);
    }
}

/// A plain program that is printed and parsed is the program again: the
/// printed form is parsed without diagnostics to the statements that were
/// printed, so that it is printed as it was.
pub proof fn lemma_print_then_parse(statements: Seq<StatementView>)
    requires
        plain_stmts(statements, 0),
    ensures
        ({
            let text = print_stmts(statements, 0);
            let tokens = lex_all(text, 0);
            let parsed = program_loop(tokens, at(0, Seq::empty()), Seq::empty());
            &&& parsed.0.errors == Seq::<Seq<char>>::empty()
            &&& parsed.1 == statements
            &&& print_stmts(parsed.1, 0) == text
        }),
{
    let text = print_stmts(statements, 0);
    let tokens = lex_all(text, 0);
    let own = tokens_stmts(statements, 0);
    let none = Seq::<Seq<char>>::empty();
    lemma_lex_stmts(text, 0, statements, 0);
    lemma_lex_all_end(text);
    assert(tokens == own + seq![TokenView::Eof]);
    assert(tokens_stand(tokens, 0, own + seq![TokenView::Eof]));
    lemma_parse_program(tokens, 0, none, statements, 0, Seq::empty());
    assert(Seq::<StatementView>::empty() + statements.subrange(0, statements.len() as int)
        =~= statements);
}

} // verus!
