//! The evaluator: a direct interpreter of the syntax tree, kept as a
//! reference for what programs mean.
//!
//! What evaluating means is laid down in [`model`]; the functions here
//! carry it out on the evaluator's vectors.

pub mod environment;
pub mod model;

use crate::error::RuntimeError;
use crate::eval::environment::{EnvView, Environment};
use crate::eval::model::{
    bind, eval_block, eval_call, eval_expr, eval_exprs, eval_infix, eval_pairs, eval_program,
    eval_slice, eval_stmt, find, identifier, index, infix, integer_infix, mismatch_text, prefix,
    slice, string_infix, unknown_infix_text, unknown_prefix_text, EvalState, Evaluated,
};
use crate::lexer::token::Token;
use crate::object::builtins::{get_builtin, outcome};
use crate::object::{
    copy_objects, entries_view, hash_get, hash_insert, lemma_objects_view, objects_view, HashKey,
    Object, Value,
};
use crate::parser::ast::{
    copy_names, exprs_view, pairs_view, stmts_view, Expression, ExpressionView, Node, Program,
    Statement, StatementView,
};
use crate::text::{byte_len, byte_slice, divide, push_str, text_eq, texts};
use crate::vm::machine::unsupported_index_text;
use crate::vm::{resolve_bounds, resolve_index};
use vstd::prelude::*;

verus! {

pub struct Evaluator {
    /// All environments made so far; each is named by its index.
    pub environments: Vec<Environment>,
    /// The index of the environment that evaluation runs in.
    pub current: usize,
    /// The lines that `puts` has printed and nobody has taken yet.
    pub output: Vec<String>,
}

/// The views of a list of environments.
pub open spec fn envs_view(envs: Seq<Environment>) -> Seq<EnvView> {
    Seq::new(envs.len(), |i: int| envs[i]@)
}

impl View for Evaluator {
    type V = EvalState;

    open spec fn view(&self) -> EvalState {
        EvalState {
            envs: envs_view(self.environments@),
            current: self.current,
            output: texts(self.output@),
        }
    }
}

/// Whether a call ended as the model says: with its value or error, in
/// its state.
pub open spec fn evaluated(
    r: Result<Object, RuntimeError>,
    after: EvalState,
    expected: Evaluated,
) -> bool {
    after == expected.state && outcome(r) == expected.result
}

/// What evaluating a node means: a program, a statement or an expression.
pub open spec fn eval_node_spec(s: EvalState, node: Node, fuel: nat) -> Evaluated {
    match node {
        Node::Program(program) => eval_program(s, program@, fuel),
        Node::Statement(statement) => eval_stmt(s, statement@, fuel),
        Node::Expression(expression) => eval_expr(s, expression@, fuel),
    }
}

/// An error whose message is a fixed text followed by a name.
fn named_error(text: &str, name: &str) -> (e: RuntimeError)
    ensures
        e@ == text@ + name@,
{
    let mut message = String::new();
    push_str(&mut message, text);
    push_str(&mut message, name);
    assert(message@ =~= text@ + name@);
    RuntimeError { message }
}

/// An error whose message names an operator between the types of its
/// operands.
fn operands_error(text: &str, left: &str, op: &Token, right: &str) -> (e: RuntimeError)
    ensures
        e@ == text@ + left@ + " "@ + op@.display() + " "@ + right@,
{
    let mut message = String::new();
    push_str(&mut message, text);
    push_str(&mut message, left);
    push_str(&mut message, " ");
    op.write(&mut message);
    push_str(&mut message, " ");
    push_str(&mut message, right);
    assert(message@ =~= text@ + left@ + " "@ + op@.display() + " "@ + right@);
    RuntimeError { message }
}

impl Default for Evaluator {
    /// An evaluator with one environment, which holds nothing.
    fn default() -> (evaluator: Evaluator)
        ensures
            evaluator.wf(),
            evaluator@ == (EvalState {
                envs: seq![EnvView { values: Seq::empty(), outer: None }],
                current: 0,
                output: Seq::empty(),
            }),
    {
        Evaluator::new(Environment::default())
    }
}

impl Evaluator {
    /// There is an environment that evaluation runs in.
    pub open spec fn wf(&self) -> bool {
        self.current < self.environments.len()
    }

    /// An evaluator that starts in `env`.
    pub fn new(env: Environment) -> (evaluator: Evaluator)
        ensures
            evaluator.wf(),
            evaluator@ == (EvalState { envs: seq![env@], current: 0, output: Seq::empty() }),
    {
        let mut environments: Vec<Environment> = Vec::new();
        environments.push(env);
        let evaluator = Evaluator { environments, current: 0, output: Vec::new() };
        assert(evaluator@.envs =~= seq![env@]);
        assert(evaluator@.output =~= Seq::empty());
        evaluator
    }

    /// Hands over the lines printed since they were last taken.
    pub fn take_output(&mut self) -> (lines: Vec<String>)
        ensures
            texts(lines@) == old(self)@.output,
            final(self)@ == (EvalState { output: Seq::empty(), ..old(self)@ }),
    {
        let mut lines: Vec<String> = Vec::new();
        std::mem::swap(&mut lines, &mut self.output);
        assert(self@.output =~= Seq::empty());
        lines
    }

    /// Evaluates a program in the current environment. The first error
    /// ends the evaluation. More than 2^64 - 1 calls inside one another are
    /// given up.
    pub fn eval(&mut self, program: &Program) -> (r: Result<Object, RuntimeError>)
        requires
            old(self).wf(),
        ensures
            final(self).wf(),
            evaluated(r, final(self)@, eval_program(old(self)@, program@, u64::MAX as nat)),
    {
        self.eval_node(Node::Program(program), u64::MAX)
    }

    /// Evaluates a node with room on the call stack for what it holds.
    pub fn eval_node(&mut self, node: Node, fuel: u64) -> (r: Result<Object, RuntimeError>)
        requires
            old(self).wf(),
        ensures
            final(self).wf(),
            old(self).environments.len() <= final(self).environments.len(),
            evaluated(r, final(self)@, eval_node_spec(old(self)@, node, fuel as nat)),
    {
        self.on_grown_stack(32 * 1024, 1024 * 1024, node, fuel)
    }

    /// `stacker::maybe_grow`: runs the evaluation of `node` on a call stack
    /// with at least `red_zone` bytes left, on a new stack of `stack_size`
    /// bytes if need be, and returns what the evaluation returns. Taken on
    /// trust: that the result and the state are those of `eval_dispatch`
    /// called with the same arguments.
    #[verifier::external_body]
    fn on_grown_stack(&mut self, red_zone: usize, stack_size: usize, node: Node, fuel: u64) -> (r:
        Result<Object, RuntimeError>)
        requires
            old(self).wf(),
        ensures
            final(self).wf(),
            old(self).environments.len() <= final(self).environments.len(),
            evaluated(r, final(self)@, eval_node_spec(old(self)@, node, fuel as nat)),
    {
        stacker::maybe_grow(red_zone, stack_size, || self.eval_dispatch(node, fuel))
    }

    /// Evaluates a program, a statement or an expression.
    fn eval_dispatch(&mut self, node: Node, fuel: u64) -> (r: Result<Object, RuntimeError>)
        requires
            old(self).wf(),
        ensures
            final(self).wf(),
            old(self).environments.len() <= final(self).environments.len(),
            evaluated(r, final(self)@, eval_node_spec(old(self)@, node, fuel as nat)),
    {
        match node {
            Node::Program(program) => self.eval_program(program, fuel),
            Node::Statement(statement) => self.eval_statement(statement, fuel),
            Node::Expression(expression) => self.eval_expression(expression, fuel),
        }
    }

    /// Evaluates the statements of a program.
    fn eval_program(&mut self, program: &Program, fuel: u64) -> (r: Result<Object, RuntimeError>)
        requires
            old(self).wf(),
        ensures
            final(self).wf(),
            old(self).environments.len() <= final(self).environments.len(),
            evaluated(r, final(self)@, eval_program(old(self)@, program@, fuel as nat)),
    {
        match self.eval_block_statement(&program.statements, fuel) {
            Ok(Object::ReturnValue(value)) => Ok(*value),
            other => other,
        }
    }

    /// Evaluates the statements of a block up to the first `return` or
    /// error.
    fn eval_block_statement(&mut self, statements: &Vec<Statement>, fuel: u64) -> (r: Result<
        Object,
        RuntimeError,
    >)
        requires
            old(self).wf(),
        ensures
            final(self).wf(),
            old(self).environments.len() <= final(self).environments.len(),
            evaluated(
                r,
                final(self)@,
                eval_block(old(self)@, stmts_view(statements@), 0, Value::Null, fuel as nat),
            ),
    {
        let ghost views = stmts_view(statements@);
        let mut result = Object::Null;
        let mut i: usize = 0;
        while i < statements.len()
            invariant
                i <= statements.len(),
                self.wf(),
                old(self).environments.len() <= self.environments.len(),
                views == stmts_view(statements@),
                eval_block(old(self)@, views, 0, Value::Null, fuel as nat) == eval_block(
                    self@,
                    views,
                    i as int,
                    result@,
                    fuel as nat,
                ),
            decreases statements.len() - i,
        {
            match self.eval_node(Node::Statement(&statements[i]), fuel) {
                Ok(Object::ReturnValue(value)) => {
                    return Ok(Object::ReturnValue(value));
                },
                Ok(value) => {
                    result = value;
                },
                Err(e) => {
                    return Err(e);
                },
            }
            i += 1;
        }
        Ok(result)
    }

    /// Evaluates a statement.
    fn eval_statement(&mut self, statement: &Statement, fuel: u64) -> (r: Result<
        Object,
        RuntimeError,
    >)
        requires
            old(self).wf(),
        ensures
            final(self).wf(),
            old(self).environments.len() <= final(self).environments.len(),
            evaluated(r, final(self)@, eval_stmt(old(self)@, statement@, fuel as nat)),
    {
        match statement {
            Statement::Expression(expression) => self.eval_node(Node::Expression(expression), fuel),
            Statement::Block(block) => self.eval_block_statement(block, fuel),
            Statement::Return(expression) => {
                match self.eval_node(Node::Expression(expression), fuel) {
                    Ok(value) => Ok(Object::ReturnValue(Box::new(value))),
                    Err(e) => Err(e),
                }
            },
            Statement::Let(name, expression) => self.eval_let_statement(name, expression, fuel),
        }
    }

    /// Evaluates the value of a `let` and stores it under the name.
    fn eval_let_statement(&mut self, name: &String, expression: &Expression, fuel: u64) -> (r:
        Result<Object, RuntimeError>)
        requires
            old(self).wf(),
        ensures
            final(self).wf(),
            old(self).environments.len() <= final(self).environments.len(),
            evaluated(
                r,
                final(self)@,
                eval_stmt(old(self)@, StatementView::Let(name@, expression@), fuel as nat),
            ),
    {
        let value = match self.eval_node(Node::Expression(expression), fuel) {
            Ok(value) => value,
            Err(e) => {
                return Err(e);
            },
        };
        let ghost before = self@;
        let current = self.current;
        self.environments[current].set(name, value);
        assert(self@.envs =~= before.set(name@, value@).envs);
        Ok(Object::Null)
    }

    /// Evaluates expressions in order.
    fn eval_expressions(&mut self, expressions: &Vec<Expression>, fuel: u64) -> (r: Result<
        Vec<Object>,
        RuntimeError,
    >)
        requires
            old(self).wf(),
        ensures
            final(self).wf(),
            old(self).environments.len() <= final(self).environments.len(),
            final(self)@ == eval_exprs(
                old(self)@,
                exprs_view(expressions@),
                0,
                Seq::empty(),
                fuel as nat,
            ).state,
            match eval_exprs(old(self)@, exprs_view(expressions@), 0, Seq::empty(), fuel as nat).result {
                Ok(values) => r is Ok && objects_view(r->Ok_0@) == values,
                Err(e) => r is Err && r->Err_0@ == e,
            },
    {
        let ghost views = exprs_view(expressions@);
        let mut values: Vec<Object> = Vec::new();
        let mut i: usize = 0;
        assert(objects_view(values@) =~= Seq::empty());
        while i < expressions.len()
            invariant
                i <= expressions.len(),
                self.wf(),
                old(self).environments.len() <= self.environments.len(),
                views == exprs_view(expressions@),
                eval_exprs(old(self)@, views, 0, Seq::empty(), fuel as nat) == eval_exprs(
                    self@,
                    views,
                    i as int,
                    objects_view(values@),
                    fuel as nat,
                ),
            decreases expressions.len() - i,
        {
            let value = match self.eval_node(Node::Expression(&expressions[i]), fuel) {
                Ok(value) => value,
                Err(e) => {
                    return Err(e);
                },
            };
            let ghost collected = objects_view(values@);
            values.push(value);
            assert(objects_view(values@) =~= collected.push(value@));
            i += 1;
        }
        Ok(values)
    }

    /// Evaluates an expression.
    fn eval_expression(&mut self, expression: &Expression, fuel: u64) -> (r: Result<
        Object,
        RuntimeError,
    >)
        requires
            old(self).wf(),
        ensures
            final(self).wf(),
            old(self).environments.len() <= final(self).environments.len(),
            evaluated(r, final(self)@, eval_expr(old(self)@, expression@, fuel as nat)),
    {
        match expression {
            Expression::Integer(value) => Ok(Object::Integer(*value)),
            Expression::Boolean(value) => Ok(Object::Boolean(*value)),
            Expression::String(value) => Ok(Object::String(value.clone())),
            Expression::Array(value) => self.eval_array_literal_expression(value, fuel),
            Expression::Hash(value) => self.eval_hash_literal_expression(value, fuel),
            Expression::Prefix(op, right) => self.eval_prefix_expression(op, right, fuel),
            Expression::Infix(op, left, right) => self.eval_infix_expression(op, left, right, fuel),
            Expression::If(condition, consequence, alternative) => self.eval_if_expression(
                condition,
                consequence,
                alternative,
                fuel,
            ),
            Expression::Identifier(name) => self.eval_identifier_expression(name),
            Expression::Function(params, body, _) => Ok(
                Object::Function(copy_names(params), Box::new((**body).clone()), self.current),
            ),
            Expression::Call(function, args) => self.eval_function_call_expression(
                function,
                args,
                fuel,
            ),
            Expression::Index(left, index) => self.eval_index_expression(left, index, fuel),
            Expression::SliceIndex(left, start, stop) => self.eval_slice_index_expression(
                left,
                start,
                stop,
                fuel,
            ),
        }
    }

    /// Evaluates an array literal.
    fn eval_array_literal_expression(&mut self, elements: &Vec<Expression>, fuel: u64) -> (r:
        Result<Object, RuntimeError>)
        requires
            old(self).wf(),
        ensures
            final(self).wf(),
            old(self).environments.len() <= final(self).environments.len(),
            evaluated(
                r,
                final(self)@,
                eval_expr(old(self)@, ExpressionView::Array(exprs_view(elements@)), fuel as nat),
            ),
    {
        match self.eval_expressions(elements, fuel) {
            Ok(values) => Ok(Object::Array(values)),
            Err(e) => Err(e),
        }
    }

    /// Evaluates a hash literal.
    fn eval_hash_literal_expression(&mut self, elements: &Vec<(Expression, Expression)>, fuel: u64)
        -> (r: Result<Object, RuntimeError>)
        requires
            old(self).wf(),
        ensures
            final(self).wf(),
            old(self).environments.len() <= final(self).environments.len(),
            evaluated(
                r,
                final(self)@,
                eval_expr(old(self)@, ExpressionView::Hash(pairs_view(elements@)), fuel as nat),
            ),
    {
        let ghost views = pairs_view(elements@);
        let mut pairs: Vec<(HashKey, Object)> = Vec::new();
        let mut i: usize = 0;
        assert(entries_view(pairs@) =~= Seq::empty());
        while i < elements.len()
            invariant
                i <= elements.len(),
                self.wf(),
                old(self).environments.len() <= self.environments.len(),
                views == pairs_view(elements@),
                eval_pairs(old(self)@, views, 0, Seq::empty(), fuel as nat) == eval_pairs(
                    self@,
                    views,
                    i as int,
                    entries_view(pairs@),
                    fuel as nat,
                ),
            decreases elements.len() - i,
        {
            let key = match self.eval_node(Node::Expression(&elements[i].0), fuel) {
                Ok(key) => key,
                Err(e) => {
                    return Err(e);
                },
            };
            let value = match self.eval_node(Node::Expression(&elements[i].1), fuel) {
                Ok(value) => value,
                Err(e) => {
                    return Err(e);
                },
            };
            let key = match HashKey::from_object(&key) {
                Some(key) => key,
                None => {
                    return Err(named_error("unusable as hash key: ", key.kind_str()));
                },
            };
            hash_insert(&mut pairs, key, value);
            i += 1;
        }
        Ok(Object::Hash(pairs))
    }

    /// Evaluates a prefix operator and its operand.
    fn eval_prefix_expression(&mut self, op: &Token, right: &Expression, fuel: u64) -> (r: Result<
        Object,
        RuntimeError,
    >)
        requires
            old(self).wf(),
        ensures
            final(self).wf(),
            old(self).environments.len() <= final(self).environments.len(),
            evaluated(
                r,
                final(self)@,
                eval_expr(old(self)@, ExpressionView::Prefix(op@, Box::new(right@)), fuel as nat),
            ),
    {
        let right = match self.eval_node(Node::Expression(right), fuel) {
            Ok(value) => value,
            Err(e) => {
                return Err(e);
            },
        };
        match op {
            Token::Bang => Ok(Object::Boolean(!right.is_truthy())),
            Token::Minus => match right {
                Object::Integer(value) => Ok(Object::Integer(0i64.wrapping_sub(value))),
                _ => Err(unknown_prefix(op, &right)),
            },
            _ => Err(unknown_prefix(op, &right)),
        }
    }

    /// Evaluates a binary operator and its operands.
    fn eval_infix_expression(&mut self, op: &Token, left: &Expression, right: &Expression, fuel: u64)
        -> (r: Result<Object, RuntimeError>)
        requires
            old(self).wf(),
        ensures
            final(self).wf(),
            old(self).environments.len() <= final(self).environments.len(),
            evaluated(
                r,
                final(self)@,
                eval_infix(
                    old(self)@,
                    ExpressionView::Infix(op@, Box::new(left@), Box::new(right@)),
                    fuel as nat,
                ),
            ),
    {
        let left = match self.eval_node(Node::Expression(left), fuel) {
            Ok(value) => value,
            Err(e) => {
                return Err(e);
            },
        };
        let right = match self.eval_node(Node::Expression(right), fuel) {
            Ok(value) => value,
            Err(e) => {
                return Err(e);
            },
        };
        match (&left, &right) {
            (Object::Integer(l), Object::Integer(r)) => self.eval_integer_infix_expression(
                op,
                *l,
                *r,
            ),
            (Object::String(l), Object::String(r)) => self.eval_string_infix_expression(op, l, r),
            _ => infix_other(op, &left, &right),
        }
    }

    /// Computes a binary operator on two integers.
    fn eval_integer_infix_expression(&mut self, op: &Token, left: i64, right: i64) -> (r: Result<
        Object,
        RuntimeError,
    >)
        ensures
            *final(self) == *old(self),
            outcome(r) == integer_infix(op@, left, right),
    {
        match op {
            Token::Plus => Ok(Object::Integer(left.wrapping_add(right))),
            Token::Minus => Ok(Object::Integer(left.wrapping_sub(right))),
            Token::Slash => {
                if right == 0 {
                    Err(RuntimeError::new("division by zero"))
                } else {
                    Ok(Object::Integer(divide(left, right)))
                }
            },
            Token::Asterisk => Ok(Object::Integer(left.wrapping_mul(right))),
            Token::Lt => Ok(Object::Boolean(left < right)),
            Token::Gt => Ok(Object::Boolean(left > right)),
            Token::Eq => Ok(Object::Boolean(left == right)),
            Token::NotEq => Ok(Object::Boolean(left != right)),
            _ => {
                let mut message = String::new();
                push_str(&mut message, "unknown operator: INTEGER ");
                op.write(&mut message);
                push_str(&mut message, " INTEGER");
                assert(message@ =~= "unknown operator: INTEGER "@ + op@.display() + " INTEGER"@);
                Err(RuntimeError { message })
            },
        }
    }

    /// Computes a binary operator on two strings.
    fn eval_string_infix_expression(&mut self, op: &Token, left: &String, right: &String) -> (r:
        Result<Object, RuntimeError>)
        ensures
            *final(self) == *old(self),
            outcome(r) == string_infix(op@, left@, right@),
    {
        match op {
            Token::Plus => {
                let mut joined = left.clone();
                joined.append(right.as_str());
                Ok(Object::String(joined))
            },
            Token::Eq => Ok(Object::Boolean(*left == *right)),
            Token::NotEq => Ok(Object::Boolean(!(*left == *right))),
            _ => {
                let mut message = String::new();
                push_str(&mut message, "unknown operator: STRING ");
                op.write(&mut message);
                push_str(&mut message, " STRING");
                assert(message@ =~= "unknown operator: STRING "@ + op@.display() + " STRING"@);
                Err(RuntimeError { message })
            },
        }
    }

    /// Evaluates a conditional.
    fn eval_if_expression(
        &mut self,
        condition: &Expression,
        consequence: &Statement,
        alternative: &Option<Box<Statement>>,
        fuel: u64,
    ) -> (r: Result<Object, RuntimeError>)
        requires
            old(self).wf(),
        ensures
            final(self).wf(),
            old(self).environments.len() <= final(self).environments.len(),
            evaluated(
                r,
                final(self)@,
                eval_expr(
                    old(self)@,
                    ExpressionView::If(
                        Box::new(condition@),
                        Box::new(consequence@),
                        match alternative {
                            Some(block) => Some(Box::new(block@)),
                            None => None,
                        },
                    ),
                    fuel as nat,
                ),
            ),
    {
        let condition = match self.eval_node(Node::Expression(condition), fuel) {
            Ok(value) => value,
            Err(e) => {
                return Err(e);
            },
        };
        if condition.is_truthy() {
            self.eval_node(Node::Statement(consequence), fuel)
        } else {
            match alternative {
                Some(alternative) => self.eval_node(Node::Statement(alternative), fuel),
                None => Ok(Object::Null),
            }
        }
    }

    /// What `name` means in the current environment or in those around
    /// it.
    pub fn lookup(&self, name: &String) -> (r: Option<Object>)
        ensures
            match r {
                Some(value) => find(self@.envs, self.current as int, name@) == Some(value@),
                None => find(self@.envs, self.current as int, name@) is None,
            },
    {
        let mut id = self.current;
        loop
            invariant
                find(self@.envs, self.current as int, name@) == find(self@.envs, id as int, name@),
            decreases id,
        {
            if id >= self.environments.len() {
                return None;
            }
            match self.environments[id].get(name) {
                Some(value) => {
                    return Some(value);
                },
                None => {},
            }
            match self.environments[id].outer {
                Some(outer) => {
                    if outer < id {
                        id = outer;
                    } else {
                        return None;
                    }
                },
                None => {
                    return None;
                },
            }
        }
    }

    /// Evaluates a name.
    fn eval_identifier_expression(&mut self, name: &String) -> (r: Result<Object, RuntimeError>)
        ensures
            *final(self) == *old(self),
            outcome(r) == identifier(old(self)@, name@),
    {
        match self.lookup(name) {
            Some(value) => Ok(value),
            None => match get_builtin(name) {
                Some(builtin) => Ok(Object::BuiltInFunction(builtin)),
                None => Err(named_error("identifier not found: ", name.as_str())),
            },
        }
    }

    /// Evaluates a call.
    fn eval_function_call_expression(&mut self, function: &Expression, args: &Vec<Expression>, fuel: u64)
        -> (r: Result<Object, RuntimeError>)
        requires
            old(self).wf(),
        ensures
            final(self).wf(),
            old(self).environments.len() <= final(self).environments.len(),
            evaluated(
                r,
                final(self)@,
                eval_call(
                    old(self)@,
                    ExpressionView::Call(Box::new(function@), exprs_view(args@)),
                    fuel as nat,
                ),
            ),
    {
        let function = match self.eval_node(Node::Expression(function), fuel) {
            Ok(value) => value,
            Err(e) => {
                return Err(e);
            },
        };
        let args = match self.eval_expressions(args, fuel) {
            Ok(values) => values,
            Err(e) => {
                return Err(e);
            },
        };
        match function {
            Object::Function(params, body, made_in) => {
                if fuel == 0 {
                    return Err(RuntimeError::new("call depth exceeded"));
                }
                let env = bind_arguments(&params, &args, made_in);
                let saved = self.current;
                let ghost before = self@;
                self.environments.push(env);
                self.current = self.environments.len() - 1;
                assert(self@.envs =~= before.enter(texts(params@), objects_view(args@), made_in).envs);
                let evaluated = self.eval_node(Node::Statement(&body), fuel - 1);
                self.current = saved;
                match evaluated {
                    Ok(Object::ReturnValue(value)) => Ok(*value),
                    other => other,
                }
            },
            Object::BuiltInFunction(builtin) => builtin.call(args, &mut self.output),
            other => Err(named_error("not a function: ", other.kind_str())),
        }
    }

    /// Evaluates an index expression.
    fn eval_index_expression(&mut self, left: &Expression, index: &Expression, fuel: u64) -> (r:
        Result<Object, RuntimeError>)
        requires
            old(self).wf(),
        ensures
            final(self).wf(),
            old(self).environments.len() <= final(self).environments.len(),
            evaluated(
                r,
                final(self)@,
                eval_expr(
                    old(self)@,
                    ExpressionView::Index(Box::new(left@), Box::new(index@)),
                    fuel as nat,
                ),
            ),
    {
        let left = match self.eval_node(Node::Expression(left), fuel) {
            Ok(value) => value,
            Err(e) => {
                return Err(e);
            },
        };
        let index = match self.eval_node(Node::Expression(index), fuel) {
            Ok(value) => value,
            Err(e) => {
                return Err(e);
            },
        };
        match (&left, &index) {
            (Object::Array(elements), Object::Integer(index)) => {
                proof {
                    lemma_objects_view(elements@);
                }
                match resolve_index(*index, elements.len()) {
                    Some(i) => Ok(elements[i].clone()),
                    None => Ok(Object::Null),
                }
            },
            (Object::String(string), Object::Integer(index)) => {
                let len = byte_len(string.as_str());
                match resolve_index(*index, len) {
                    Some(i) => match byte_slice(string.as_str(), i, i + 1) {
                        Some(part) => Ok(Object::String(part)),
                        None => Ok(Object::Null),
                    },
                    None => Ok(Object::Null),
                }
            },
            (Object::Hash(values), _) => {
                let key = match HashKey::from_object(&index) {
                    Some(key) => key,
                    None => {
                        return Err(named_error("unusable as hash key: ", index.kind_str()));
                    },
                };
                match hash_get(values, &key) {
                    Some(value) => Ok(value),
                    None => Ok(Object::Null),
                }
            },
            _ => {
                let mut message = String::new();
                push_str(&mut message, "index operator not supported: ");
                push_str(&mut message, left.kind_str());
                push_str(&mut message, "[");
                push_str(&mut message, index.kind_str());
                push_str(&mut message, "]");
                assert(message@ =~= unsupported_index_text(left@, index@));
                Err(RuntimeError { message })
            },
        }
    }

    /// Evaluates a slice expression.
    fn eval_slice_index_expression(
        &mut self,
        left: &Expression,
        start: &Option<Box<Expression>>,
        stop: &Option<Box<Expression>>,
        fuel: u64,
    ) -> (r: Result<Object, RuntimeError>)
        requires
            old(self).wf(),
        ensures
            final(self).wf(),
            old(self).environments.len() <= final(self).environments.len(),
            evaluated(
                r,
                final(self)@,
                eval_slice(
                    old(self)@,
                    ExpressionView::SliceIndex(
                        Box::new(left@),
                        match start {
                            Some(tree) => Some(Box::new(tree@)),
                            None => None,
                        },
                        match stop {
                            Some(tree) => Some(Box::new(tree@)),
                            None => None,
                        },
                    ),
                    fuel as nat,
                ),
            ),
    {
        let left = match self.eval_node(Node::Expression(left), fuel) {
            Ok(value) => value,
            Err(e) => {
                return Err(e);
            },
        };
        let start = match start {
            Some(start) => match self.eval_node(Node::Expression(start), fuel) {
                Ok(value) => value,
                Err(e) => {
                    return Err(e);
                },
            },
            None => Object::Null,
        };
        let stop = match stop {
            Some(stop) => match self.eval_node(Node::Expression(stop), fuel) {
                Ok(value) => value,
                Err(e) => {
                    return Err(e);
                },
            },
            None => Object::Null,
        };
        match left {
            Object::Array(elements) => {
                proof {
                    lemma_objects_view(elements@);
                }
                let (from, to) = match resolve_bounds(&start, &stop, elements.len()) {
                    Ok(bounds) => bounds,
                    Err(e) => {
                        return Err(e);
                    },
                };
                if from <= to {
                    Ok(Object::Array(copy_objects(&elements, from, to)))
                } else {
                    let empty: Vec<Object> = Vec::new();
                    assert(objects_view(empty@) =~= Seq::empty());
                    Ok(Object::Array(empty))
                }
            },
            Object::String(string) => {
                let len = byte_len(string.as_str());
                let (from, to) = match resolve_bounds(&start, &stop, len) {
                    Ok(bounds) => bounds,
                    Err(e) => {
                        return Err(e);
                    },
                };
                match byte_slice(string.as_str(), from, to) {
                    Some(part) => Ok(Object::String(part)),
                    None => Ok(Object::String(String::new())),
                }
            },
            other => Err(named_error("slice operator not supported: ", other.kind_str())),
        }
    }
}

/// The error for a prefix operator that does not fit its operand.
fn unknown_prefix(op: &Token, operand: &Object) -> (e: RuntimeError)
    ensures
        e@ == unknown_prefix_text(op@, operand@),
{
    let mut message = String::new();
    push_str(&mut message, "unknown operator: ");
    op.write(&mut message);
    push_str(&mut message, operand.kind_str());
    assert(message@ =~= unknown_prefix_text(op@, operand@));
    RuntimeError { message }
}

/// A binary operator on operands that are not two integers or two
/// strings.
fn infix_other(op: &Token, left: &Object, right: &Object) -> (r: Result<Object, RuntimeError>)
    requires
        !(left is Integer && right is Integer),
        !(left is String && right is String),
    ensures
        outcome(r) == infix(op@, left@, right@),
{
    match (op, left, right) {
        (Token::Eq, Object::Boolean(l), Object::Boolean(r)) => Ok(Object::Boolean(*l == *r)),
        (Token::NotEq, Object::Boolean(l), Object::Boolean(r)) => Ok(Object::Boolean(*l != *r)),
        _ => {
            if !text_eq(left.kind_str(), right.kind_str()) {
                let e = operands_error("type mismatch: ", left.kind_str(), op, right.kind_str());
                assert(e@ =~= mismatch_text(op@, left@, right@));
                Err(e)
            } else {
                let e = operands_error("unknown operator: ", left.kind_str(), op, right.kind_str());
                assert(e@ =~= unknown_infix_text(op@, left@, right@));
                Err(e)
            }
        },
    }
}

/// The environment of a call: inside the one that the function was made
/// in, with each parameter bound to its argument as far as both go.
fn bind_arguments(params: &Vec<String>, args: &Vec<Object>, made_in: usize) -> (env: Environment)
    ensures
        env@ == (EnvView {
            values: bind(Seq::empty(), texts(params@), objects_view(args@), 0),
            outer: Some(made_in),
        }),
{
    let mut env = Environment::new(Some(made_in));
    let mut i: usize = 0;
    proof {
        lemma_objects_view(args@);
    }
    while i < params.len() && i < args.len()
        invariant
            env@.outer == Some(made_in),
            forall|j: int|
                0 <= j < args.len() ==> #[trigger] objects_view(args@)[j] == crate::object::object_view(
                    args[j],
                ),
            bind(Seq::empty(), texts(params@), objects_view(args@), 0) == bind(
                env@.values,
                texts(params@),
                objects_view(args@),
                i as int,
            ),
        decreases params.len() - i,
    {
        env.set(&params[i], args[i].clone());
        i += 1;
    }
    env
}

} // verus!
