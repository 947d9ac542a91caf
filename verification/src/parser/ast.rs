//! The syntax tree and its printed form.

use crate::lexer::token::{Token, TokenView};
use crate::text::{push_signed_decimal, push_str, signed_decimal, texts};
use vstd::prelude::*;

verus! {

pub enum Node<'a> {
    Program(&'a Program),
    Statement(&'a Statement),
    Expression(&'a Expression),
}

#[derive(Debug, PartialEq)]
pub enum Statement {
    Let(String, Expression),
    Return(Expression),
    Expression(Expression),
    Block(Vec<Statement>),
}

#[derive(Debug, PartialEq)]
pub enum Expression {
    Identifier(String),
    Integer(i64),
    Boolean(bool),
    String(String),
    Array(Vec<Expression>),
    Hash(Vec<(Expression, Expression)>),
    Prefix(Token, Box<Expression>),
    Infix(Token, Box<Expression>, Box<Expression>),
    If(Box<Expression>, Box<Statement>, Option<Box<Statement>>),
    Function(Vec<String>, Box<Statement>, Option<String>),
    Call(Box<Expression>, Vec<Expression>),
    Index(Box<Expression>, Box<Expression>),
    SliceIndex(Box<Expression>, Option<Box<Expression>>, Option<Box<Expression>>),
}

#[derive(Debug, PartialEq)]
pub struct Program {
    pub statements: Vec<Statement>,
}

/// A statement as a mathematical value.
pub enum StatementView {
    Let(Seq<char>, ExpressionView),
    Return(ExpressionView),
    Expression(ExpressionView),
    Block(Seq<StatementView>),
}

/// An expression as a mathematical value.
pub enum ExpressionView {
    Identifier(Seq<char>),
    Integer(i64),
    Boolean(bool),
    Str(Seq<char>),
    Array(Seq<ExpressionView>),
    Hash(Seq<(ExpressionView, ExpressionView)>),
    Prefix(TokenView, Box<ExpressionView>),
    Infix(TokenView, Box<ExpressionView>, Box<ExpressionView>),
    If(Box<ExpressionView>, Box<StatementView>, Option<Box<StatementView>>),
    Function(Seq<Seq<char>>, Box<StatementView>, Option<Seq<char>>),
    Call(Box<ExpressionView>, Seq<ExpressionView>),
    Index(Box<ExpressionView>, Box<ExpressionView>),
    SliceIndex(Box<ExpressionView>, Option<Box<ExpressionView>>, Option<Box<ExpressionView>>),
}

/// The views of a list of expressions.
pub open spec fn exprs_view(exprs: Seq<Expression>) -> Seq<ExpressionView>
    decreases exprs,
{
    Seq::new(
        exprs.len(),
        |i: int|
            if 0 <= i < exprs.len() {
                expr_view(exprs[i])
            } else {
                ExpressionView::Boolean(false)
            },
    )
}

/// The views of a list of key and value expressions.
pub open spec fn pairs_view(pairs: Seq<(Expression, Expression)>) -> Seq<
    (ExpressionView, ExpressionView),
>
    decreases pairs,
{
    Seq::new(
        pairs.len(),
        |i: int|
            if 0 <= i < pairs.len() {
                (expr_view(pairs[i].0), expr_view(pairs[i].1))
            } else {
                (ExpressionView::Boolean(false), ExpressionView::Boolean(false))
            },
    )
}

/// The views of a list of statements.
pub open spec fn stmts_view(stmts: Seq<Statement>) -> Seq<StatementView>
    decreases stmts,
{
    Seq::new(
        stmts.len(),
        |i: int|
            if 0 <= i < stmts.len() {
                stmt_view(stmts[i])
            } else {
                StatementView::Block(Seq::empty())
            },
    )
}

/// The view of an expression.
pub open spec fn expr_view(e: Expression) -> ExpressionView
    decreases e,
{
    match e {
        Expression::Identifier(name) => ExpressionView::Identifier(name@),
        Expression::Integer(value) => ExpressionView::Integer(value),
        Expression::Boolean(value) => ExpressionView::Boolean(value),
        Expression::String(value) => ExpressionView::Str(value@),
        Expression::Array(elements) => ExpressionView::Array(exprs_view(elements@)),
        Expression::Hash(pairs) => ExpressionView::Hash(pairs_view(pairs@)),
        Expression::Prefix(op, right) => ExpressionView::Prefix(op@, Box::new(expr_view(*right))),
        Expression::Infix(op, left, right) => ExpressionView::Infix(
            op@,
            Box::new(expr_view(*left)),
            Box::new(expr_view(*right)),
        ),
        Expression::If(condition, consequence, alternative) => ExpressionView::If(
            Box::new(expr_view(*condition)),
            Box::new(stmt_view(*consequence)),
            match alternative {
                Some(block) => Some(Box::new(stmt_view(*block))),
                None => None,
            },
        ),
        Expression::Function(params, body, name) => ExpressionView::Function(
            texts(params@),
            Box::new(stmt_view(*body)),
            match name {
                Some(name) => Some(name@),
                None => None,
            },
        ),
        Expression::Call(function, args) => ExpressionView::Call(
            Box::new(expr_view(*function)),
            exprs_view(args@),
        ),
        Expression::Index(left, index) => ExpressionView::Index(
            Box::new(expr_view(*left)),
            Box::new(expr_view(*index)),
        ),
        Expression::SliceIndex(left, start, stop) => ExpressionView::SliceIndex(
            Box::new(expr_view(*left)),
            match start {
                Some(start) => Some(Box::new(expr_view(*start))),
                None => None,
            },
            match stop {
                Some(stop) => Some(Box::new(expr_view(*stop))),
                None => None,
            },
        ),
    }
}

/// The view of a statement.
pub open spec fn stmt_view(s: Statement) -> StatementView
    decreases s,
{
    match s {
        Statement::Let(name, value) => StatementView::Let(name@, expr_view(value)),
        Statement::Return(value) => StatementView::Return(expr_view(value)),
        Statement::Expression(value) => StatementView::Expression(expr_view(value)),
        Statement::Block(statements) => StatementView::Block(stmts_view(statements@)),
    }
}

impl View for Expression {
    type V = ExpressionView;

    open spec fn view(&self) -> ExpressionView {
        expr_view(*self)
    }
}

impl View for Statement {
    type V = StatementView;

    open spec fn view(&self) -> StatementView {
        stmt_view(*self)
    }
}

impl View for Program {
    type V = Seq<StatementView>;

    open spec fn view(&self) -> Seq<StatementView> {
        stmts_view(self.statements@)
    }
}

/// The names from index `i` on, separated by a comma and a space.
pub open spec fn print_names(names: Seq<Seq<char>>, i: int) -> Seq<char>
    decreases names.len() - i,
{
    if 0 <= i < names.len() {
        (if i > 0 {
            ", "@
        } else {
            Seq::empty()
        }) + names[i] + print_names(names, i + 1)
    } else {
        Seq::empty()
    }
}

/// The expressions from index `i` on, printed and separated by a comma and
/// a space.
pub open spec fn print_exprs(exprs: Seq<ExpressionView>, i: int) -> Seq<char>
    decreases exprs, (exprs.len() - i) as nat,
{
    if 0 <= i < exprs.len() {
        (if i > 0 {
            ", "@
        } else {
            Seq::empty()
        }) + print_expr(exprs[i]) + print_exprs(exprs, i + 1)
    } else {
        Seq::empty()
    }
}

/// The pairs from index `i` on, each printed as `key: value`, separated by
/// a comma and a space.
pub open spec fn print_pairs(pairs: Seq<(ExpressionView, ExpressionView)>, i: int) -> Seq<char>
    decreases pairs, (pairs.len() - i) as nat,
{
    if 0 <= i < pairs.len() {
        (if i > 0 {
            ", "@
        } else {
            Seq::empty()
        }) + print_expr(pairs[i].0) + ": "@ + print_expr(pairs[i].1) + print_pairs(pairs, i + 1)
    } else {
        Seq::empty()
    }
}

/// The statements from index `i` on, printed one after the other.
pub open spec fn print_stmts(stmts: Seq<StatementView>, i: int) -> Seq<char>
    decreases stmts, (stmts.len() - i) as nat,
{
    if 0 <= i < stmts.len() {
        print_stmt(stmts[i]) + print_stmts(stmts, i + 1)
    } else {
        Seq::empty()
    }
}

/// The printed form of an expression. Operators are fully parenthesised;
/// a string prints its text bare, a hash its pairs without braces.
pub open spec fn print_expr(e: ExpressionView) -> Seq<char>
    decreases e, 0nat,
{
    match e {
        ExpressionView::Identifier(name) => name,
        ExpressionView::Integer(value) => signed_decimal(value as int),
        ExpressionView::Boolean(value) => if value {
            "true"@
        } else {
            "false"@
        },
        ExpressionView::Str(value) => value,
        ExpressionView::Array(elements) => "["@ + print_exprs(elements, 0) + "]"@,
        ExpressionView::Hash(pairs) => print_pairs(pairs, 0),
        ExpressionView::Prefix(op, right) => "("@ + op.display() + print_expr(*right) + ")"@,
        ExpressionView::Infix(op, left, right) => "("@ + print_expr(*left) + " "@ + op.display()
            + " "@ + print_expr(*right) + ")"@,
        ExpressionView::If(condition, consequence, alternative) => "if ("@ + print_expr(
            *condition,
        ) + ") {"@ + print_stmt(*consequence) + "}"@ + (match alternative {
            Some(block) => " else {"@ + print_stmt(*block) + "}"@,
            None => Seq::empty(),
        }),
        ExpressionView::Function(params, body, name) => (match name {
            Some(name) => "fn "@ + name,
            None => "fn"@,
        }) + "("@ + print_names(params, 0) + ") {"@ + print_stmt(*body) + "}"@,
        ExpressionView::Call(function, args) => print_expr(*function) + "("@ + print_exprs(
            args,
            0,
        ) + ")"@,
        ExpressionView::Index(left, index) => "("@ + print_expr(*left) + "["@ + print_expr(
            *index,
        ) + "])"@,
        ExpressionView::SliceIndex(left, start, stop) => "("@ + print_expr(*left) + "["@
            + (match start {
            Some(start) => print_expr(*start),
            None => Seq::empty(),
        }) + ":"@ + (match stop {
            Some(stop) => print_expr(*stop),
            None => Seq::empty(),
        }) + "])"@,
    }
}

/// The printed form of a statement.
pub open spec fn print_stmt(s: StatementView) -> Seq<char>
    decreases s, 0nat,
{
    match s {
        StatementView::Let(name, value) => "let "@ + name + " = "@ + print_expr(value) + ";"@,
        StatementView::Return(value) => "return "@ + print_expr(value) + ";"@,
        StatementView::Expression(value) => print_expr(value),
        StatementView::Block(statements) => print_stmts(statements, 0),
    }
}

/// Appends the names, separated by a comma and a space.
pub fn write_names(names: &Vec<String>, out: &mut String)
    ensures
        final(out)@ == old(out)@ + print_names(texts(names@), 0),
{
    let ghost start = out@;
    let ghost views = texts(names@);
    let mut i: usize = 0;
    while i < names.len()
        invariant
            i <= names.len(),
            views == texts(names@),
            out@ + print_names(views, i as int) == start + print_names(views, 0),
        decreases names.len() - i,
    {
        let ghost before = out@;
        if i > 0 {
            push_str(out, ", ");
        }
        push_str(out, names[i].as_str());
        assert(before + print_names(views, i as int) =~= out@ + print_names(views, i + 1));
        i += 1;
    }
    assert(out@ + print_names(views, i as int) =~= out@);
}

/// Appends the expressions, separated by a comma and a space.
fn write_exprs(exprs: &Vec<Expression>, out: &mut String)
    ensures
        final(out)@ == old(out)@ + print_exprs(exprs_view(exprs@), 0),
    decreases exprs, 0nat,
{
    let ghost start = out@;
    let ghost views = exprs_view(exprs@);
    let mut i: usize = 0;
    while i < exprs.len()
        invariant
            i <= exprs.len(),
            views == exprs_view(exprs@),
            out@ + print_exprs(views, i as int) == start + print_exprs(views, 0),
        decreases exprs.len() - i,
    {
        let ghost before = out@;
        if i > 0 {
            push_str(out, ", ");
        }
        exprs[i].write(out);
        assert(before + print_exprs(views, i as int) =~= out@ + print_exprs(views, i + 1));
        i += 1;
    }
    assert(out@ + print_exprs(views, i as int) =~= out@);
}

/// Appends the pairs as `key: value`, separated by a comma and a space.
fn write_pairs(pairs: &Vec<(Expression, Expression)>, out: &mut String)
    ensures
        final(out)@ == old(out)@ + print_pairs(pairs_view(pairs@), 0),
    decreases pairs, 0nat,
{
    let ghost start = out@;
    let ghost views = pairs_view(pairs@);
    let mut i: usize = 0;
    while i < pairs.len()
        invariant
            i <= pairs.len(),
            views == pairs_view(pairs@),
            out@ + print_pairs(views, i as int) == start + print_pairs(views, 0),
        decreases pairs.len() - i,
    {
        let ghost before = out@;
        if i > 0 {
            push_str(out, ", ");
        }
        pairs[i].0.write(out);
        push_str(out, ": ");
        pairs[i].1.write(out);
        assert(before + print_pairs(views, i as int) =~= out@ + print_pairs(views, i + 1));
        i += 1;
    }
    assert(out@ + print_pairs(views, i as int) =~= out@);
}

/// Appends the statements one after the other.
fn write_stmts(stmts: &Vec<Statement>, out: &mut String)
    ensures
        final(out)@ == old(out)@ + print_stmts(stmts_view(stmts@), 0),
    decreases stmts, 0nat,
{
    let ghost start = out@;
    let ghost views = stmts_view(stmts@);
    let mut i: usize = 0;
    while i < stmts.len()
        invariant
            i <= stmts.len(),
            views == stmts_view(stmts@),
            out@ + print_stmts(views, i as int) == start + print_stmts(views, 0),
        decreases stmts.len() - i,
    {
        let ghost before = out@;
        stmts[i].write(out);
        assert(before + print_stmts(views, i as int) =~= out@ + print_stmts(views, i + 1));
        i += 1;
    }
    assert(out@ + print_stmts(views, i as int) =~= out@);
}

impl Expression {
    /// Appends the expression's printed form to `out`.
    pub fn write(&self, out: &mut String)
        ensures
            final(out)@ == old(out)@ + print_expr(self@),
        decreases self, 1nat,
    {
        match self {
            Expression::Identifier(name) => {
                push_str(out, name.as_str());
            },
            Expression::Integer(value) => {
                push_signed_decimal(out, *value);
            },
            Expression::Boolean(value) => {
                if *value {
                    push_str(out, "true");
                } else {
                    push_str(out, "false");
                }
            },
            Expression::String(value) => {
                push_str(out, value.as_str());
            },
            Expression::Array(_) => self.write_array(out),
            Expression::Hash(pairs) => {
                write_pairs(pairs, out);
            },
            Expression::Prefix(_, _) => self.write_prefix(out),
            Expression::Infix(_, _, _) => self.write_infix(out),
            Expression::If(_, _, _) => self.write_if(out),
            Expression::Function(_, _, _) => self.write_function(out),
            Expression::Call(_, _) => self.write_call(out),
            Expression::Index(_, _) => self.write_index(out),
            Expression::SliceIndex(_, _, _) => self.write_slice(out),
        }
    }

    fn write_array(&self, out: &mut String)
        requires
            self is Array,
        ensures
            final(out)@ == old(out)@ + print_expr(self@),
        decreases self, 0nat,
    {
        if let Expression::Array(elements) = self {
            push_str(out, "[");
            write_exprs(elements, out);
            push_str(out, "]");
            assert(out@ =~= old(out)@ + print_expr(self@));
        }
    }

    fn write_prefix(&self, out: &mut String)
        requires
            self is Prefix,
        ensures
            final(out)@ == old(out)@ + print_expr(self@),
        decreases self, 0nat,
    {
        if let Expression::Prefix(op, right) = self {
            push_str(out, "(");
            op.write(out);
            right.write(out);
            push_str(out, ")");
            assert(out@ =~= old(out)@ + print_expr(self@));
        }
    }

    fn write_infix(&self, out: &mut String)
        requires
            self is Infix,
        ensures
            final(out)@ == old(out)@ + print_expr(self@),
        decreases self, 0nat,
    {
        if let Expression::Infix(op, left, right) = self {
            push_str(out, "(");
            left.write(out);
            push_str(out, " ");
            op.write(out);
            push_str(out, " ");
            right.write(out);
            push_str(out, ")");
            assert(out@ =~= old(out)@ + print_expr(self@));
        }
    }

    fn write_if(&self, out: &mut String)
        requires
            self is If,
        ensures
            final(out)@ == old(out)@ + print_expr(self@),
        decreases self, 0nat,
    {
        if let Expression::If(condition, consequence, alternative) = self {
            push_str(out, "if (");
            condition.write(out);
            push_str(out, ") {");
            consequence.write(out);
            push_str(out, "}");
            match alternative {
                Some(block) => {
                    push_str(out, " else {");
                    block.write(out);
                    push_str(out, "}");
                    assert(out@ =~= old(out)@ + print_expr(self@));
                },
                None => {
                    assert(out@ =~= old(out)@ + print_expr(self@));
                },
            }
        }
    }

    fn write_function(&self, out: &mut String)
        requires
            self is Function,
        ensures
            final(out)@ == old(out)@ + print_expr(self@),
        decreases self, 0nat,
    {
        if let Expression::Function(params, body, name) = self {
            match name {
                Some(name) => {
                    push_str(out, "fn ");
                    push_str(out, name.as_str());
                },
                None => {
                    push_str(out, "fn");
                },
            }
            push_str(out, "(");
            write_names(params, out);
            push_str(out, ") {");
            body.write(out);
            push_str(out, "}");
            assert(out@ =~= old(out)@ + print_expr(self@));
        }
    }

    fn write_call(&self, out: &mut String)
        requires
            self is Call,
        ensures
            final(out)@ == old(out)@ + print_expr(self@),
        decreases self, 0nat,
    {
        if let Expression::Call(function, args) = self {
            function.write(out);
            push_str(out, "(");
            write_exprs(args, out);
            push_str(out, ")");
            assert(out@ =~= old(out)@ + print_expr(self@));
        }
    }

    fn write_index(&self, out: &mut String)
        requires
            self is Index,
        ensures
            final(out)@ == old(out)@ + print_expr(self@),
        decreases self, 0nat,
    {
        if let Expression::Index(left, index) = self {
            push_str(out, "(");
            left.write(out);
            push_str(out, "[");
            index.write(out);
            push_str(out, "])");
            assert(out@ =~= old(out)@ + print_expr(self@));
        }
    }

    fn write_slice(&self, out: &mut String)
        requires
            self is SliceIndex,
        ensures
            final(out)@ == old(out)@ + print_expr(self@),
        decreases self, 0nat,
    {
        if let Expression::SliceIndex(left, start, stop) = self {
            push_str(out, "(");
            left.write(out);
            push_str(out, "[");
            match start {
                Some(start) => {
                    start.write(out);
                },
                None => {},
            }
            push_str(out, ":");
            match stop {
                Some(stop) => {
                    stop.write(out);
                },
                None => {},
            }
            push_str(out, "])");
            assert(out@ =~= old(out)@ + print_expr(self@));
        }
    }

    /// The expression's printed form.
    pub fn to_string(&self) -> (s: String)
        ensures
            s@ == print_expr(self@),
    {
        let mut out = String::new();
        self.write(&mut out);
        assert(out@ =~= print_expr(self@));
        out
    }
}

impl Statement {
    /// Appends the statement's printed form to `out`.
    pub fn write(&self, out: &mut String)
        ensures
            final(out)@ == old(out)@ + print_stmt(self@),
        decreases self, 1nat,
    {
        match self {
            Statement::Let(name, value) => {
                push_str(out, "let ");
                push_str(out, name.as_str());
                push_str(out, " = ");
                value.write(out);
                push_str(out, ";");
                assert(out@ =~= old(out)@ + print_stmt(self@));
            },
            Statement::Return(value) => {
                push_str(out, "return ");
                value.write(out);
                push_str(out, ";");
                assert(out@ =~= old(out)@ + print_stmt(self@));
            },
            Statement::Expression(value) => {
                value.write(out);
            },
            Statement::Block(statements) => {
                write_stmts(statements, out);
            },
        }
    }

    /// The statement's printed form.
    pub fn to_string(&self) -> (s: String)
        ensures
            s@ == print_stmt(self@),
    {
        let mut out = String::new();
        self.write(&mut out);
        assert(out@ =~= print_stmt(self@));
        out
    }
}

impl Program {
    /// The program's printed form: its statements one after the other.
    pub fn to_string(&self) -> (s: String)
        ensures
            s@ == print_stmts(self@, 0),
    {
        let mut out = String::new();
        write_stmts(&self.statements, &mut out);
        assert(out@ =~= print_stmts(self@, 0));
        out
    }
}

/// A copy of a list of names.
pub fn copy_names(names: &Vec<String>) -> (r: Vec<String>)
    ensures
        texts(r@) == texts(names@),
{
    let mut out: Vec<String> = Vec::new();
    let mut i: usize = 0;
    while i < names.len()
        invariant
            i <= names.len(),
            out.len() == i,
            forall|j: int| 0 <= j < i ==> out[j]@ == names[j]@,
        decreases names.len() - i,
    {
        out.push(names[i].clone());
        i += 1;
    }
    assert(texts(out@) =~= texts(names@));
    out
}

fn copy_exprs(exprs: &Vec<Expression>) -> (r: Vec<Expression>)
    ensures
        exprs_view(r@) == exprs_view(exprs@),
    decreases exprs, 0nat,
{
    let mut out: Vec<Expression> = Vec::new();
    let mut i: usize = 0;
    while i < exprs.len()
        invariant
            i <= exprs.len(),
            out.len() == i,
            forall|j: int| 0 <= j < i ==> expr_view(out[j]) == expr_view(exprs[j]),
        decreases exprs.len() - i,
    {
        out.push(copy_expr(&exprs[i]));
        i += 1;
    }
    assert(exprs_view(out@) =~= exprs_view(exprs@));
    out
}

fn copy_pairs(pairs: &Vec<(Expression, Expression)>) -> (r: Vec<(Expression, Expression)>)
    ensures
        pairs_view(r@) == pairs_view(pairs@),
    decreases pairs, 0nat,
{
    let mut out: Vec<(Expression, Expression)> = Vec::new();
    let mut i: usize = 0;
    while i < pairs.len()
        invariant
            i <= pairs.len(),
            out.len() == i,
            forall|j: int|
                0 <= j < i ==> expr_view(out[j].0) == expr_view(pairs[j].0) && expr_view(out[j].1)
                    == expr_view(pairs[j].1),
        decreases pairs.len() - i,
    {
        let key = copy_expr(&pairs[i].0);
        let value = copy_expr(&pairs[i].1);
        out.push((key, value));
        i += 1;
    }
    assert(pairs_view(out@) =~= pairs_view(pairs@));
    out
}

fn copy_stmts(stmts: &Vec<Statement>) -> (r: Vec<Statement>)
    ensures
        stmts_view(r@) == stmts_view(stmts@),
    decreases stmts, 0nat,
{
    let mut out: Vec<Statement> = Vec::new();
    let mut i: usize = 0;
    while i < stmts.len()
        invariant
            i <= stmts.len(),
            out.len() == i,
            forall|j: int| 0 <= j < i ==> stmt_view(out[j]) == stmt_view(stmts[j]),
        decreases stmts.len() - i,
    {
        out.push(copy_stmt(&stmts[i]));
        i += 1;
    }
    assert(stmts_view(out@) =~= stmts_view(stmts@));
    out
}

fn copy_expr(e: &Expression) -> (r: Expression)
    ensures
        r@ == e@,
    decreases e, 1nat,
{
    match e {
        Expression::Identifier(name) => Expression::Identifier(name.clone()),
        Expression::Integer(value) => Expression::Integer(*value),
        Expression::Boolean(value) => Expression::Boolean(*value),
        Expression::String(value) => Expression::String(value.clone()),
        Expression::Array(elements) => Expression::Array(copy_exprs(elements)),
        Expression::Hash(pairs) => Expression::Hash(copy_pairs(pairs)),
        Expression::Prefix(op, right) => Expression::Prefix(op.clone(), Box::new(copy_expr(right))),
        Expression::Infix(op, left, right) => Expression::Infix(
            op.clone(),
            Box::new(copy_expr(left)),
            Box::new(copy_expr(right)),
        ),
        Expression::If(condition, consequence, alternative) => {
            let alternative = match alternative {
                Some(block) => Some(Box::new(copy_stmt(block))),
                None => None,
            };
            Expression::If(
                Box::new(copy_expr(condition)),
                Box::new(copy_stmt(consequence)),
                alternative,
            )
        },
        Expression::Function(params, body, name) => {
            let name = match name {
                Some(name) => Some(name.clone()),
                None => None,
            };
            Expression::Function(copy_names(params), Box::new(copy_stmt(body)), name)
        },
        Expression::Call(function, args) => Expression::Call(
            Box::new(copy_expr(function)),
            copy_exprs(args),
        ),
        Expression::Index(left, index) => Expression::Index(
            Box::new(copy_expr(left)),
            Box::new(copy_expr(index)),
        ),
        Expression::SliceIndex(left, start, stop) => {
            let start = match start {
                Some(start) => Some(Box::new(copy_expr(start))),
                None => None,
            };
            let stop = match stop {
                Some(stop) => Some(Box::new(copy_expr(stop))),
                None => None,
            };
            Expression::SliceIndex(Box::new(copy_expr(left)), start, stop)
        },
    }
}

fn copy_stmt(s: &Statement) -> (r: Statement)
    ensures
        r@ == s@,
    decreases s, 1nat,
{
    match s {
        Statement::Let(name, value) => Statement::Let(name.clone(), copy_expr(value)),
        Statement::Return(value) => Statement::Return(copy_expr(value)),
        Statement::Expression(value) => Statement::Expression(copy_expr(value)),
        Statement::Block(statements) => Statement::Block(copy_stmts(statements)),
    }
}

impl Clone for Expression {
    fn clone(&self) -> (r: Expression)
        ensures
            r@ == self@,
    {
        copy_expr(self)
    }
}

impl Clone for Statement {
    fn clone(&self) -> (r: Statement)
        ensures
            r@ == self@,
    {
        copy_stmt(self)
    }
}

impl Clone for Program {
    fn clone(&self) -> (r: Program)
        ensures
            r@ == self@,
    {
        Program { statements: copy_stmts(&self.statements) }
    }
}

} // verus!
