//! What the evaluator does, stated over mathematical values: a function
//! from the environments and a syntax tree to the value and the
//! environments afterwards.

use crate::eval::environment::EnvView;
use crate::lexer::token::TokenView;
use crate::object::{insert, Builtin, KeyView, Value};
use crate::parser::ast::{ExpressionView, StatementView};
use crate::text::wrapping_quotient;
use crate::vm::machine::{
    array_index, array_slice, hash_index, slice_bounds, string_index, string_slice,
    unsupported_index_text, unusable_key_text,
};
use vstd::prelude::*;
use vstd::utf8::encode_utf8;

verus! {

/// The evaluator's state: all environments, the index of the one that
/// evaluation runs in, and the lines printed so far.
#[verifier::ext_equal]
pub struct EvalState {
    pub envs: Seq<EnvView>,
    pub current: usize,
    pub output: Seq<Seq<char>>,
}

/// A value or an error, and the state afterwards.
#[verifier::ext_equal]
pub struct Evaluated {
    pub state: EvalState,
    pub result: Result<Value, Seq<char>>,
}

/// Values or an error, and the state afterwards.
#[verifier::ext_equal]
pub struct EvaluatedList {
    pub state: EvalState,
    pub result: Result<Seq<Value>, Seq<char>>,
}

/// Pairs of a hash or an error, and the state afterwards.
#[verifier::ext_equal]
pub struct EvaluatedPairs {
    pub state: EvalState,
    pub result: Result<Seq<(KeyView, Value)>, Seq<char>>,
}

/// What `name` means in the environment with index `id`: what that
/// environment holds, or else what the environments around it hold.
pub open spec fn find(envs: Seq<EnvView>, id: int, name: Seq<char>) -> Option<Value>
    decreases id,
{
    if 0 <= id < envs.len() {
        match envs[id].get(name) {
            Some(value) => Some(value),
            None => match envs[id].outer {
                Some(outer) => if outer < id {
                    find(envs, outer as int, name)
                } else {
                    None
                },
                None => None,
            },
        }
    } else {
        None
    }
}

/// The message for a name that nothing defines.
pub open spec fn not_found_text(name: Seq<char>) -> Seq<char> {
    "identifier not found: "@ + name
}

/// The message for a prefix operator that does not fit its operand.
pub open spec fn unknown_prefix_text(op: TokenView, operand: Value) -> Seq<char> {
    "unknown operator: "@ + op.display() + operand.kind_name()
}

/// The message for operands of different types.
pub open spec fn mismatch_text(op: TokenView, left: Value, right: Value) -> Seq<char> {
    "type mismatch: "@ + left.kind_name() + " "@ + op.display() + " "@ + right.kind_name()
}

/// The message for an operator that does not fit its operands.
pub open spec fn unknown_infix_text(op: TokenView, left: Value, right: Value) -> Seq<char> {
    "unknown operator: "@ + left.kind_name() + " "@ + op.display() + " "@ + right.kind_name()
}

/// What a name stands for: a variable, or else a built-in function.
pub open spec fn identifier(s: EvalState, name: Seq<char>) -> Result<Value, Seq<char>> {
    match find(s.envs, s.current as int, name) {
        Some(value) => Ok(value),
        None => match Builtin::named(name) {
            Some(builtin) => Ok(Value::BuiltInFunction(builtin)),
            None => Err(not_found_text(name)),
        },
    }
}

/// `op operand`.
pub open spec fn prefix(op: TokenView, operand: Value) -> Result<Value, Seq<char>> {
    match op {
        TokenView::Bang => Ok(Value::Boolean(!operand.is_truthy())),
        TokenView::Minus => match operand {
            Value::Integer(value) => Ok(Value::Integer(0i64.wrapping_sub(value))),
            _ => Err(unknown_prefix_text(op, operand)),
        },
        _ => Err(unknown_prefix_text(op, operand)),
    }
}

/// `left op right` on integers.
pub open spec fn integer_infix(op: TokenView, left: i64, right: i64) -> Result<Value, Seq<char>> {
    match op {
        TokenView::Plus => Ok(Value::Integer(left.wrapping_add(right))),
        TokenView::Minus => Ok(Value::Integer(left.wrapping_sub(right))),
        TokenView::Slash => if right == 0 {
            Err("division by zero"@)
        } else {
            Ok(Value::Integer(wrapping_quotient(left, right)))
        },
        TokenView::Asterisk => Ok(Value::Integer(left.wrapping_mul(right))),
        TokenView::Lt => Ok(Value::Boolean(left < right)),
        TokenView::Gt => Ok(Value::Boolean(left > right)),
        TokenView::Eq => Ok(Value::Boolean(left == right)),
        TokenView::NotEq => Ok(Value::Boolean(left != right)),
        _ => Err("unknown operator: INTEGER "@ + op.display() + " INTEGER"@),
    }
}

/// `left op right` on strings.
pub open spec fn string_infix(op: TokenView, left: Seq<char>, right: Seq<char>) -> Result<
    Value,
    Seq<char>,
> {
    match op {
        TokenView::Plus => Ok(Value::Str(left + right)),
        TokenView::Eq => Ok(Value::Boolean(left == right)),
        TokenView::NotEq => Ok(Value::Boolean(left != right)),
        _ => Err("unknown operator: STRING "@ + op.display() + " STRING"@),
    }
}

/// `left op right`: integers and strings have their operators, booleans
/// compare for equality; operands of different types do not go together.
pub open spec fn infix(op: TokenView, left: Value, right: Value) -> Result<Value, Seq<char>> {
    match (left, right) {
        (Value::Integer(l), Value::Integer(r)) => integer_infix(op, l, r),
        (Value::Str(l), Value::Str(r)) => string_infix(op, l, r),
        _ => if op is Eq && left is Boolean && right is Boolean {
            Ok(Value::Boolean(left->Boolean_0 == right->Boolean_0))
        } else if op is NotEq && left is Boolean && right is Boolean {
            Ok(Value::Boolean(left->Boolean_0 != right->Boolean_0))
        } else if left.kind_name() != right.kind_name() {
            Err(mismatch_text(op, left, right))
        } else {
            Err(unknown_infix_text(op, left, right))
        },
    }
}

/// `left[index]`.
pub open spec fn index(left: Value, index: Value) -> Result<Value, Seq<char>> {
    match (left, index) {
        (Value::Array(elements), Value::Integer(i)) => Ok(array_index(elements, i)),
        (Value::Str(text), Value::Integer(i)) => Ok(string_index(text, i)),
        (Value::Hash(entries), _) => hash_index(entries, index),
        _ => Err(unsupported_index_text(left, index)),
    }
}

/// `left[start:stop]`, where a bound that is missing is null.
pub open spec fn slice(left: Value, start: Value, stop: Value) -> Result<Value, Seq<char>> {
    match left {
        Value::Array(elements) => match slice_bounds(start, stop, elements.len()) {
            Ok((from, to)) => Ok(Value::Array(array_slice(elements, from, to))),
            Err(e) => Err(e),
        },
        Value::Str(text) => match slice_bounds(start, stop, encode_utf8(text).len()) {
            Ok((from, to)) => Ok(Value::Str(string_slice(text, from, to))),
            Err(e) => Err(e),
        },
        _ => Err("slice operator not supported: "@ + left.kind_name()),
    }
}

/// The variables of a call: each parameter bound to its argument, as far
/// as both go, from index `i` on.
pub open spec fn bind(
    values: Seq<(KeyView, Value)>,
    params: Seq<Seq<char>>,
    args: Seq<Value>,
    i: int,
) -> Seq<(KeyView, Value)>
    decreases params.len() - i,
{
    if 0 <= i < params.len() && i < args.len() {
        bind(insert(values, KeyView::Str(params[i]), args[i]), params, args, i + 1)
    } else {
        values
    }
}

/// A value without the mark of a `return`.
pub open spec fn unwrap_return(value: Value) -> Value {
    match value {
        Value::ReturnValue(inner) => *inner,
        _ => value,
    }
}

impl EvalState {
    /// There is an environment that evaluation runs in.
    pub open spec fn wf(self) -> bool {
        self.current < self.envs.len()
    }

    /// The state with `value` under `name` in the current environment.
    pub open spec fn set(self, name: Seq<char>, value: Value) -> EvalState {
        if self.current < self.envs.len() {
            EvalState {
                envs: self.envs.update(
                    self.current as int,
                    self.envs[self.current as int].set(name, value),
                ),
                ..self
            }
        } else {
            self
        }
    }

    /// The state inside a call: a new environment within the one that the
    /// function was made in, with the parameters bound to the arguments.
    pub open spec fn enter(self, params: Seq<Seq<char>>, args: Seq<Value>, made_in: usize)
        -> EvalState {
        EvalState {
            envs: self.envs.push(
                EnvView { values: bind(Seq::empty(), params, args, 0), outer: Some(made_in) },
            ),
            current: self.envs.len() as usize,
            ..self
        }
    }

    /// The state back in the environment with index `current`.
    pub open spec fn back_in(self, current: usize) -> EvalState {
        EvalState { current, ..self }
    }
}

/// A call of something that is no function of the program: a built-in
/// function runs, anything else is an error.
pub open spec fn call_other(s: EvalState, function: Value, args: Seq<Value>) -> Evaluated {
    match function {
        Value::BuiltInFunction(builtin) => Evaluated {
            state: EvalState { output: s.output + builtin.prints(args), ..s },
            result: builtin.apply(args),
        },
        _ => Evaluated { state: s, result: Err("not a function: "@ + function.kind_name()) },
    }
}

/// The values of the expressions from index `i` on, added to `values`.
pub open spec fn eval_exprs(
    s: EvalState,
    exprs: Seq<ExpressionView>,
    i: int,
    values: Seq<Value>,
    fuel: nat,
) -> EvaluatedList
    decreases fuel, exprs, (exprs.len() - i) as nat,
{
    if 0 <= i < exprs.len() {
        let one = eval_expr(s, exprs[i], fuel);
        match one.result {
            Ok(value) => eval_exprs(one.state, exprs, i + 1, values.push(value), fuel),
            Err(e) => EvaluatedList { state: one.state, result: Err(e) },
        }
    } else {
        EvaluatedList { state: s, result: Ok(values) }
    }
}

/// The pairs of a hash literal from index `i` on, evaluated key then
/// value and stored in `entries`.
pub open spec fn eval_pairs(
    s: EvalState,
    pairs: Seq<(ExpressionView, ExpressionView)>,
    i: int,
    entries: Seq<(KeyView, Value)>,
    fuel: nat,
) -> EvaluatedPairs
    decreases fuel, pairs, (pairs.len() - i) as nat,
{
    if 0 <= i < pairs.len() {
        let key = eval_expr(s, pairs[i].0, fuel);
        match key.result {
            Err(e) => EvaluatedPairs { state: key.state, result: Err(e) },
            Ok(key_value) => {
                let value = eval_expr(key.state, pairs[i].1, fuel);
                match value.result {
                    Err(e) => EvaluatedPairs { state: value.state, result: Err(e) },
                    Ok(stored) => match key_value.key() {
                        None => EvaluatedPairs {
                            state: value.state,
                            result: Err(unusable_key_text(key_value)),
                        },
                        Some(k) => eval_pairs(
                            value.state,
                            pairs,
                            i + 1,
                            insert(entries, k, stored),
                            fuel,
                        ),
                    },
                }
            },
        }
    } else {
        EvaluatedPairs { state: s, result: Ok(entries) }
    }
}

/// The statements of a block from index `i` on; `last` is the value of
/// the statement before. A `return` and an error end the block.
pub open spec fn eval_block(
    s: EvalState,
    stmts: Seq<StatementView>,
    i: int,
    last: Value,
    fuel: nat,
) -> Evaluated
    decreases fuel, stmts, (stmts.len() - i) as nat,
{
    if 0 <= i < stmts.len() {
        let one = eval_stmt(s, stmts[i], fuel);
        match one.result {
            Ok(Value::ReturnValue(_)) => one,
            Ok(value) => eval_block(one.state, stmts, i + 1, value, fuel),
            Err(_) => one,
        }
    } else {
        Evaluated { state: s, result: Ok(last) }
    }
}

/// A call: the callee, then the arguments in order, then the body of the
/// function in an environment of its own, or the built-in function. A call
/// inside `fuel` calls that have not returned is the last that is made.
pub open spec fn eval_call(s: EvalState, e: ExpressionView, fuel: nat) -> Evaluated
    decreases fuel, e, 0nat,
{
    match e {
        ExpressionView::Call(function, args) => {
            let callee = eval_expr(s, *function, fuel);
            match callee.result {
                Err(_) => callee,
                Ok(callee_value) => {
                    let evaluated = eval_exprs(callee.state, args, 0, Seq::empty(), fuel);
                    match evaluated.result {
                        Err(e) => Evaluated { state: evaluated.state, result: Err(e) },
                        Ok(values) => match callee_value {
                            Value::Function(params, body, made_in) => if fuel == 0 {
                                Evaluated {
                                    state: evaluated.state,
                                    result: Err("call depth exceeded"@),
                                }
                            } else {
                                let inside = eval_stmt(
                                    evaluated.state.enter(params, values, made_in),
                                    body,
                                    (fuel - 1) as nat,
                                );
                                Evaluated {
                                    state: inside.state.back_in(evaluated.state.current),
                                    result: match inside.result {
                                        Ok(value) => Ok(unwrap_return(value)),
                                        Err(e) => Err(e),
                                    },
                                }
                            },
                            _ => call_other(evaluated.state, callee_value, values),
                        },
                    }
                },
            }
        },
        _ => Evaluated { state: s, result: Ok(Value::Null) },
    }
}

/// A slice expression: the collection and the bounds, then the slice.
pub open spec fn eval_slice(s: EvalState, e: ExpressionView, fuel: nat) -> Evaluated
    decreases fuel, e, 0nat,
{
    match e {
        ExpressionView::SliceIndex(left, start, stop) => {
            let collection = eval_expr(s, *left, fuel);
            match collection.result {
                Err(_) => collection,
                Ok(left_value) => {
                    let from = match start {
                        Some(start) => eval_expr(collection.state, *start, fuel),
                        None => Evaluated { state: collection.state, result: Ok(Value::Null) },
                    };
                    match from.result {
                        Err(_) => from,
                        Ok(start_value) => {
                            let to = match stop {
                                Some(stop) => eval_expr(from.state, *stop, fuel),
                                None => Evaluated { state: from.state, result: Ok(Value::Null) },
                            };
                            match to.result {
                                Err(_) => to,
                                Ok(stop_value) => Evaluated {
                                    state: to.state,
                                    result: slice(left_value, start_value, stop_value),
                                },
                            }
                        },
                    }
                },
            }
        },
        _ => Evaluated { state: s, result: Ok(Value::Null) },
    }
}

/// A binary expression: the left operand, the right operand, then the
/// operator.
pub open spec fn eval_infix(s: EvalState, e: ExpressionView, fuel: nat) -> Evaluated
    decreases fuel, e, 0nat,
{
    match e {
        ExpressionView::Infix(op, left, right) => {
            let l = eval_expr(s, *left, fuel);
            match l.result {
                Err(_) => l,
                Ok(left_value) => {
                    let r = eval_expr(l.state, *right, fuel);
                    match r.result {
                        Err(_) => r,
                        Ok(right_value) => Evaluated {
                            state: r.state,
                            result: infix(op, left_value, right_value),
                        },
                    }
                },
            }
        },
        _ => Evaluated { state: s, result: Ok(Value::Null) },
    }
}

/// The value of an expression and the state afterwards.
pub open spec fn eval_expr(s: EvalState, e: ExpressionView, fuel: nat) -> Evaluated
    decreases fuel, e, 1nat,
{
    match e {
        ExpressionView::Integer(value) => Evaluated { state: s, result: Ok(Value::Integer(value)) },
        ExpressionView::Boolean(value) => Evaluated { state: s, result: Ok(Value::Boolean(value)) },
        ExpressionView::Str(value) => Evaluated { state: s, result: Ok(Value::Str(value)) },
        ExpressionView::Array(elements) => {
            let evaluated = eval_exprs(s, elements, 0, Seq::empty(), fuel);
            Evaluated {
                state: evaluated.state,
                result: match evaluated.result {
                    Ok(values) => Ok(Value::Array(values)),
                    Err(e) => Err(e),
                },
            }
        },
        ExpressionView::Hash(pairs) => {
            let evaluated = eval_pairs(s, pairs, 0, Seq::empty(), fuel);
            Evaluated {
                state: evaluated.state,
                result: match evaluated.result {
                    Ok(entries) => Ok(Value::Hash(entries)),
                    Err(e) => Err(e),
                },
            }
        },
        ExpressionView::Prefix(op, right) => {
            let operand = eval_expr(s, *right, fuel);
            match operand.result {
                Err(_) => operand,
                Ok(value) => Evaluated { state: operand.state, result: prefix(op, value) },
            }
        },
        ExpressionView::Infix(_, _, _) => eval_infix(s, e, fuel),
        ExpressionView::If(condition, consequence, alternative) => {
            let tested = eval_expr(s, *condition, fuel);
            match tested.result {
                Err(_) => tested,
                Ok(value) => if value.is_truthy() {
                    eval_stmt(tested.state, *consequence, fuel)
                } else {
                    match alternative {
                        Some(block) => eval_stmt(tested.state, *block, fuel),
                        None => Evaluated { state: tested.state, result: Ok(Value::Null) },
                    }
                },
            }
        },
        ExpressionView::Identifier(name) => Evaluated { state: s, result: identifier(s, name) },
        ExpressionView::Function(params, body, _) => Evaluated {
            state: s,
            result: Ok(Value::Function(params, *body, s.current)),
        },
        ExpressionView::Call(_, _) => eval_call(s, e, fuel),
        ExpressionView::Index(left, at) => {
            let collection = eval_expr(s, *left, fuel);
            match collection.result {
                Err(_) => collection,
                Ok(left_value) => {
                    let position = eval_expr(collection.state, *at, fuel);
                    match position.result {
                        Err(_) => position,
                        Ok(index_value) => Evaluated {
                            state: position.state,
                            result: index(left_value, index_value),
                        },
                    }
                },
            }
        },
        ExpressionView::SliceIndex(_, _, _) => eval_slice(s, e, fuel),
    }
}

/// The value of a statement and the state afterwards. The value of a
/// `return` carries the mark of a `return`; a `let` has the value null.
pub open spec fn eval_stmt(s: EvalState, st: StatementView, fuel: nat) -> Evaluated
    decreases fuel, st, 1nat,
{
    match st {
        StatementView::Expression(value) => eval_expr(s, value, fuel),
        StatementView::Block(statements) => eval_block(s, statements, 0, Value::Null, fuel),
        StatementView::Return(value) => {
            let returned = eval_expr(s, value, fuel);
            match returned.result {
                Err(_) => returned,
                Ok(v) => Evaluated {
                    state: returned.state,
                    result: Ok(Value::ReturnValue(Box::new(v))),
                },
            }
        },
        StatementView::Let(name, value) => {
            let bound = eval_expr(s, value, fuel);
            match bound.result {
                Err(_) => bound,
                Ok(v) => Evaluated { state: bound.state.set(name, v), result: Ok(Value::Null) },
            }
        },
    }
}

/// The value of a program: that of its last statement, or what its first
/// `return` returns.
pub open spec fn eval_program(s: EvalState, stmts: Seq<StatementView>, fuel: nat) -> Evaluated {
    let evaluated = eval_block(s, stmts, 0, Value::Null, fuel);
    Evaluated {
        state: evaluated.state,
        result: match evaluated.result {
            Ok(value) => Ok(unwrap_return(value)),
            Err(e) => Err(e),
        },
    }
}

} // verus!
