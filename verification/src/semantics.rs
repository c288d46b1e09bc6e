//! The meaning of evaluation, as mathematical functions on models.
//!
//! Every function here takes the frames of an environment and returns what evaluation
//! yields together with the frames it leaves behind. Evaluation of a program need not
//! end, so every function takes a `depth`: the number of nested evaluations it may still
//! enter. An evaluation that would need more fails with `Failure::DepthExceeded`.
//!
//! The executable evaluator in `eval` is proved to compute exactly these functions.

use crate::menv::{child_scope, define, lookup, vars_of, Scope};
use crate::types::{NativeFn, Value};
use vstd::prelude::*;

verus! {

/// Model of an evaluation error.
pub enum Failure {
    /// A symbol that no frame on the parent chain binds.
    UndefinedSymbol(Seq<char>),
    /// A value of the wrong kind: the kind that was expected, and the value found.
    InvalidType(Seq<char>, Value),
    /// A special form with the wrong number of elements, or arguments that do not match
    /// the parameters.
    LengthMismatch,
    /// A string raised by `throw`.
    Throw(Seq<char>),
    /// Evaluation nested deeper than the given depth.
    DepthExceeded,
}

/// What an evaluation yields: a value or a failure, and the frames afterwards.
pub struct Outcome {
    pub result: Result<Value, Failure>,
    pub frames: Seq<Scope>,
}

/// What the evaluation of several expressions yields: their values in order, or the
/// first failure, and the frames afterwards.
pub struct Evaluated {
    pub result: Result<Seq<Value>, Failure>,
    pub frames: Seq<Scope>,
}

/// The outcome of an evaluation that yields `value` and leaves `frames`.
pub open spec fn done(value: Value, frames: Seq<Scope>) -> Outcome {
    Outcome { result: Ok(value), frames }
}

/// The outcome of an evaluation that fails with `failure` and leaves `frames`.
pub open spec fn failed(failure: Failure, frames: Seq<Scope>) -> Outcome {
    Outcome { result: Err(failure), frames }
}

/// Whether `items` is a non-empty list whose first element is the symbol `word`.
pub open spec fn headed_by(items: Seq<Value>, word: Seq<char>) -> bool {
    items.len() > 0 && items[0] == Value::Symbol(word)
}

// ---------------------------------------------------------------------------------------
// Binding parameters to arguments
// ---------------------------------------------------------------------------------------

/// A rest parameter is one whose name ends in three dots.
pub open spec fn is_rest(name: Seq<char>) -> bool {
    name.len() >= 3 && name.subrange(name.len() - 3, name.len() as int) == "..."@
}

/// The name under which a rest parameter is bound: its name without the three dots.
pub open spec fn rest_stem(name: Seq<char>) -> Seq<char> {
    name.subrange(0, name.len() - 3)
}

/// Binds the parameters from position `i` on, when the parameters before `i` were plain
/// and have taken the arguments before `i`; `bound` holds their bindings.
pub open spec fn bind_from(
    params: Seq<Value>,
    args: Seq<Value>,
    i: nat,
    bound: Seq<(Seq<char>, Value)>,
) -> Result<Seq<(Seq<char>, Value)>, Failure>
    decreases params.len() - i,
{
    if i >= params.len() {
        if args.len() > i {
            Err(Failure::LengthMismatch)
        } else {
            Ok(bound)
        }
    } else {
        match params[i as int] {
            Value::Symbol(name) => if is_rest(name) {
                if i + 1 < params.len() {
                    Err(Failure::LengthMismatch)
                } else {
                    Ok(bound.push((rest_stem(name), Value::List(args.skip(i as int)))))
                }
            } else if i < args.len() {
                bind_from(params, args, i + 1, bound.push((name, args[i as int])))
            } else {
                Err(Failure::LengthMismatch)
            },
            other => Err(Failure::InvalidType("Symbol"@, other)),
        }
    }
}

/// The bindings, in order, that applying a function with parameters `params` to `args`
/// makes. A plain parameter takes one argument. A rest parameter must come last and
/// takes all arguments that are left, as a list. Every argument must be taken.
pub open spec fn bind(params: Seq<Value>, args: Seq<Value>) -> Result<
    Seq<(Seq<char>, Value)>,
    Failure,
> {
    bind_from(params, args, 0, Seq::empty())
}

/// The frames after adding a child of `parent` that holds `pairs`.
pub open spec fn call_frames(
    frames: Seq<Scope>,
    parent: nat,
    pairs: Seq<(Seq<char>, Value)>,
) -> Seq<Scope> {
    frames.push(child_scope(frames, parent, vars_of(pairs)))
}

// ---------------------------------------------------------------------------------------
// Native functions
// ---------------------------------------------------------------------------------------

/// The 64-bit two's complement integer that is congruent to `x`.
pub open spec fn wrap64(x: int) -> int {
    (x + 0x8000_0000_0000_0000) % 0x1_0000_0000_0000_0000 - 0x8000_0000_0000_0000
}

/// The first element of `items`, from position `i` on, that is no integer.
pub open spec fn first_non_integer(items: Seq<Value>, i: nat) -> Option<Value>
    decreases items.len() - i,
{
    if i >= items.len() {
        None
    } else {
        match items[i as int] {
            Value::Integer(_) => first_non_integer(items, i + 1),
            other => Some(other),
        }
    }
}

/// The sum of the integers among `items`.
pub open spec fn total(items: Seq<Value>) -> int
    decreases items.len(),
{
    if items.len() == 0 {
        0
    } else {
        total(items.drop_last()) + match items.last() {
            Value::Integer(n) => n,
            _ => 0,
        }
    }
}

/// What an operation on two integers returns: `combine` of the two, or a failure that
/// names the operand that is no integer, the first if neither is.
pub open spec fn integer_pair(
    first: Value,
    second: Value,
    combine: spec_fn(int, int) -> Value,
) -> Result<Value, Failure> {
    match (first, second) {
        (Value::Integer(a), Value::Integer(b)) => Ok(combine(a, b)),
        (Value::Integer(_), _) => Err(Failure::InvalidType("Integer"@, second)),
        _ => Err(Failure::InvalidType("Integer"@, first)),
    }
}

/// What a native operation returns when it runs in frame `at`, in which its arguments
/// have been bound to its parameters. It reads them back by name.
///
/// * `Add` reads the list `args`: the sum of its integers, wrapped to 64 bits.
/// * `Sub` reads `arg1` and `arg2`: their difference, wrapped to 64 bits.
/// * `Lte` reads `arg1` and `arg2`: whether the first is at most the second.
/// * `List` reads `args` and returns it.
/// * `Throw` reads the string `err` and fails with it.
pub open spec fn native_spec(op: NativeFn, frames: Seq<Scope>, at: nat) -> Result<Value, Failure> {
    match op {
        NativeFn::Add => match lookup(frames, at, "args"@) {
            None => Err(Failure::UndefinedSymbol("args"@)),
            Some(Value::List(items)) => match first_non_integer(items, 0) {
                Some(other) => Err(Failure::InvalidType("Integer"@, other)),
                None => Ok(Value::Integer(wrap64(total(items)))),
            },
            Some(other) => Err(Failure::InvalidType("List"@, other)),
        },
        NativeFn::Sub => match lookup(frames, at, "arg1"@) {
            None => Err(Failure::UndefinedSymbol("arg1"@)),
            Some(first) => match lookup(frames, at, "arg2"@) {
                None => Err(Failure::UndefinedSymbol("arg2"@)),
                Some(second) => integer_pair(
                    first,
                    second,
                    |a: int, b: int| Value::Integer(wrap64(a - b)),
                ),
            },
        },
        NativeFn::Lte => match lookup(frames, at, "arg1"@) {
            None => Err(Failure::UndefinedSymbol("arg1"@)),
            Some(first) => match lookup(frames, at, "arg2"@) {
                None => Err(Failure::UndefinedSymbol("arg2"@)),
                Some(second) => integer_pair(first, second, |a: int, b: int| Value::Bool(a <= b)),
            },
        },
        NativeFn::List => match lookup(frames, at, "args"@) {
            None => Err(Failure::UndefinedSymbol("args"@)),
            Some(args) => Ok(args),
        },
        NativeFn::Throw => match lookup(frames, at, "err"@) {
            None => Err(Failure::UndefinedSymbol("err"@)),
            Some(Value::Str(message)) => Err(Failure::Throw(message)),
            Some(other) => Err(Failure::InvalidType("String"@, other)),
        },
    }
}

// ---------------------------------------------------------------------------------------
// Evaluation
// ---------------------------------------------------------------------------------------

/// The value of `expr` in frame `at`.
///
/// First the macros at the head of `expr` are expanded. Then: the empty list is itself;
/// a list headed by the name of a special form is handled by that form; any other list
/// is an application; a symbol is looked up; every other value is itself.
///
/// An evaluation takes one unit of depth, and leaves the rest to the evaluations nested
/// in it; with no depth left it fails with `DepthExceeded`.
pub open spec fn eval_spec(depth: nat, frames: Seq<Scope>, at: nat, expr: Value) -> Outcome
    decreases depth, 0nat, 0nat,
{
    if depth == 0 {
        failed(Failure::DepthExceeded, frames)
    } else {
        let inner = (depth - 1) as nat;
        let expanded = macroexpand_spec(inner, frames, at, expr);
        match expanded.result {
            Err(_) => expanded,
            Ok(Value::List(items)) => if items.len() == 0 {
                expanded
            } else {
                match items[0] {
                    Value::Symbol(word) => if word == "define"@ {
                        eval_define_spec(inner, expanded.frames, at, items)
                    } else if word == "let*"@ {
                        eval_letstar_spec(inner, expanded.frames, at, items)
                    } else if word == "do"@ {
                        eval_do_spec(inner, expanded.frames, at, items, 1, Value::Nil)
                    } else if word == "if"@ {
                        eval_if_spec(inner, expanded.frames, at, items)
                    } else if word == "fn*"@ {
                        Outcome { result: eval_fnstar_spec(at, items), frames: expanded.frames }
                    } else if word == "macro*"@ {
                        Outcome { result: eval_macrostar_spec(at, items), frames: expanded.frames }
                    } else if word == "quote"@ {
                        Outcome { result: eval_quote_spec(items), frames: expanded.frames }
                    } else if word == "quasiquote"@ {
                        eval_quasiquote_spec(inner, expanded.frames, at, items)
                    } else {
                        eval_apply_spec(inner, expanded.frames, at, items)
                    },
                    _ => eval_apply_spec(inner, expanded.frames, at, items),
                }
            },
            Ok(form) => eval_ast_spec(inner, expanded.frames, at, form),
        }
    }
}

/// Macro expansion. If `expr` is a non-empty list whose head is a symbol bound to a
/// macro, the macro's parameters are bound to the remaining elements as they stand,
/// unevaluated, in a new child of the macro's frame; the macro's body is evaluated
/// there; and what it yields is expanded again, in that same frame. Any other `expr`
/// is its own expansion.
///
/// Expanding again takes one unit of depth, so that a macro that expands into itself
/// without end fails with `DepthExceeded`.
pub open spec fn macroexpand_spec(depth: nat, frames: Seq<Scope>, at: nat, expr: Value) -> Outcome
    decreases depth, 1nat, 0nat,
{
    match expr {
        Value::List(items) => if items.len() == 0 {
            done(expr, frames)
        } else {
            match items[0] {
                Value::Symbol(name) => match lookup(frames, at, name) {
                    Some(Value::Macro { params, body, env }) => match bind(params, items.skip(1)) {
                        Err(e) => failed(e, frames),
                        Ok(pairs) => {
                            let child = frames.len();
                            let produced = eval_spec(
                                depth,
                                call_frames(frames, env, pairs),
                                child,
                                *body,
                            );
                            match produced.result {
                                Err(_) => produced,
                                Ok(form) => if depth == 0 {
                                    failed(Failure::DepthExceeded, produced.frames)
                                } else {
                                    macroexpand_spec(
                                        (depth - 1) as nat,
                                        produced.frames,
                                        child,
                                        form,
                                    )
                                },
                            }
                        },
                    },
                    _ => done(expr, frames),
                },
                _ => done(expr, frames),
            }
        },
        _ => done(expr, frames),
    }
}

/// Evaluates the elements of `items` from position `i` on, left to right, each in the
/// frames that the one before left; `values` holds the values of those before `i`. The
/// first failure ends it.
pub open spec fn eval_items_spec(
    depth: nat,
    frames: Seq<Scope>,
    at: nat,
    items: Seq<Value>,
    i: nat,
    values: Seq<Value>,
) -> Evaluated
    decreases depth, 1nat, items.len() - i,
{
    if i >= items.len() {
        Evaluated { result: Ok(values), frames }
    } else {
        let one = eval_spec(depth, frames, at, items[i as int]);
        match one.result {
            Err(e) => Evaluated { result: Err(e), frames: one.frames },
            Ok(v) => eval_items_spec(depth, one.frames, at, items, i + 1, values.push(v)),
        }
    }
}

/// A symbol is looked up; the elements of a list are evaluated one by one; every other
/// value is itself.
pub open spec fn eval_ast_spec(depth: nat, frames: Seq<Scope>, at: nat, form: Value) -> Outcome
    decreases depth, 2nat, 0nat,
{
    match form {
        Value::Symbol(name) => match lookup(frames, at, name) {
            Some(v) => done(v, frames),
            None => failed(Failure::UndefinedSymbol(name), frames),
        },
        Value::List(items) => {
            let evaluated = eval_items_spec(depth, frames, at, items, 0, Seq::empty());
            match evaluated.result {
                Err(e) => failed(e, evaluated.frames),
                Ok(values) => done(Value::List(values), evaluated.frames),
            }
        },
        other => done(other, frames),
    }
}

/// Application of a non-empty list. All elements are evaluated; the first must yield a
/// closure or a native function. Its parameters are bound to the other values in a new frame: a child of the
/// frame in which the closure was made, or of the root for a native function. A
/// closure's body is evaluated there; a native operation runs there.
pub open spec fn eval_apply_spec(depth: nat, frames: Seq<Scope>, at: nat, items: Seq<Value>) -> Outcome
    decreases depth, 3nat, 0nat,
{
    let evaluated = eval_items_spec(depth, frames, at, items, 0, Seq::empty());
    match evaluated.result {
        Err(e) => failed(e, evaluated.frames),
        Ok(values) => match values[0] {
            Value::Closure { params, body, env } => match bind(params, values.skip(1)) {
                Err(e) => failed(e, evaluated.frames),
                Ok(pairs) => eval_spec(
                    depth,
                    call_frames(evaluated.frames, env, pairs),
                    evaluated.frames.len(),
                    *body,
                ),
            },
            Value::Native { params, op } => match bind(params, values.skip(1)) {
                Err(e) => failed(e, evaluated.frames),
                Ok(pairs) => {
                    let called = call_frames(evaluated.frames, 0, pairs);
                    Outcome {
                        result: native_spec(op, called, evaluated.frames.len()),
                        frames: called,
                    }
                },
            },
            other => failed(Failure::InvalidType("Function"@, other), evaluated.frames),
        },
    }
}

/// `(define name expr)`: the value of `expr`, which is also bound to `name` in frame
/// `at`.
pub open spec fn eval_define_spec(depth: nat, frames: Seq<Scope>, at: nat, items: Seq<Value>) -> Outcome
    decreases depth, 1nat, 0nat,
{
    if items.len() != 3 {
        failed(Failure::LengthMismatch, frames)
    } else {
        match items[1] {
            Value::Symbol(name) => {
                let value = eval_spec(depth, frames, at, items[2]);
                match value.result {
                    Err(_) => value,
                    Ok(v) => done(v, define(value.frames, at, name, v)),
                }
            },
            other => failed(Failure::InvalidType("Symbol"@, other), frames),
        }
    }
}

/// `(let* (name expr ...) body)`: the value of `body` in a new child of frame `at` in
/// which each `name` is bound to the value of its `expr`, evaluated in that child after
/// the bindings before it were made.
pub open spec fn eval_letstar_spec(depth: nat, frames: Seq<Scope>, at: nat, items: Seq<Value>) -> Outcome
    decreases depth, 2nat, 0nat,
{
    if items.len() != 3 {
        failed(Failure::LengthMismatch, frames)
    } else {
        match items[1] {
            Value::List(bindings) => if bindings.len() % 2 != 0 {
                failed(Failure::InvalidType("Associative array"@, items[1]), frames)
            } else {
                let_body_spec(
                    depth,
                    call_frames(frames, at, Seq::empty()),
                    frames.len(),
                    bindings,
                    0,
                    items[2],
                )
            },
            other => failed(Failure::InvalidType("List"@, other), frames),
        }
    }
}

/// The value of `body` in frame `child` after the bindings from position `i` on were
/// made there, in order.
pub open spec fn let_body_spec(
    depth: nat,
    frames: Seq<Scope>,
    child: nat,
    bindings: Seq<Value>,
    i: nat,
    body: Value,
) -> Outcome
    decreases depth, 1nat, bindings.len() - i,
{
    if i + 1 >= bindings.len() {
        eval_spec(depth, frames, child, body)
    } else {
        match bindings[i as int] {
            Value::Symbol(name) => {
                let value = eval_spec(depth, frames, child, bindings[i as int + 1]);
                match value.result {
                    Err(_) => value,
                    Ok(v) => let_body_spec(
                        depth,
                        define(value.frames, child, name, v),
                        child,
                        bindings,
                        i + 2,
                        body,
                    ),
                }
            },
            other => failed(Failure::InvalidType("Symbol"@, other), frames),
        }
    }
}

/// `(do expr ...)` from position `i` on: the value of the last expression, or `last` if
/// none is left.
pub open spec fn eval_do_spec(
    depth: nat,
    frames: Seq<Scope>,
    at: nat,
    items: Seq<Value>,
    i: nat,
    last: Value,
) -> Outcome
    decreases depth, 1nat, items.len() - i,
{
    if i >= items.len() {
        done(last, frames)
    } else {
        let one = eval_spec(depth, frames, at, items[i as int]);
        match one.result {
            Err(_) => one,
            Ok(v) => eval_do_spec(depth, one.frames, at, items, i + 1, v),
        }
    }
}

/// `(if cond then)` or `(if cond then else)`: `cond` must yield a boolean.
pub open spec fn eval_if_spec(depth: nat, frames: Seq<Scope>, at: nat, items: Seq<Value>) -> Outcome
    decreases depth, 1nat, 0nat,
{
    if items.len() < 3 || items.len() > 4 {
        failed(Failure::LengthMismatch, frames)
    } else {
        let cond = eval_spec(depth, frames, at, items[1]);
        match cond.result {
            Err(_) => cond,
            Ok(Value::Bool(true)) => eval_spec(depth, cond.frames, at, items[2]),
            Ok(Value::Bool(false)) => if items.len() == 4 {
                eval_spec(depth, cond.frames, at, items[3])
            } else {
                done(Value::Nil, cond.frames)
            },
            Ok(other) => failed(Failure::InvalidType("Bool"@, other), cond.frames),
        }
    }
}

/// The first element of `items`, from position `i` on, that is no symbol.
pub open spec fn first_non_symbol(items: Seq<Value>, i: nat) -> Option<Value>
    decreases items.len() - i,
{
    if i >= items.len() {
        None
    } else {
        match items[i as int] {
            Value::Symbol(_) => first_non_symbol(items, i + 1),
            other => Some(other),
        }
    }
}

/// The parameter list and the body of `(fn* (param ...) body)` or
/// `(macro* (param ...) body)`: the form has three elements, and the second is a list
/// of symbols.
pub open spec fn function_parts(items: Seq<Value>) -> Result<(Seq<Value>, Value), Failure> {
    if items.len() != 3 {
        Err(Failure::LengthMismatch)
    } else {
        match items[1] {
            Value::List(params) => match first_non_symbol(params, 0) {
                Some(other) => Err(Failure::InvalidType("Symbol"@, other)),
                None => Ok((params, items[2])),
            },
            other => Err(Failure::InvalidType("List"@, other)),
        }
    }
}

/// `(fn* (param ...) body)`: a closure over frame `at`, with the body as it stands.
pub open spec fn eval_fnstar_spec(at: nat, items: Seq<Value>) -> Result<Value, Failure> {
    match function_parts(items) {
        Ok((params, body)) => Ok(Value::Closure { params, body: Box::new(body), env: at }),
        Err(e) => Err(e),
    }
}

/// `(macro* (param ...) body)`: a macro over frame `at`, with the body as it stands.
pub open spec fn eval_macrostar_spec(at: nat, items: Seq<Value>) -> Result<Value, Failure> {
    match function_parts(items) {
        Ok((params, body)) => Ok(Value::Macro { params, body: Box::new(body), env: at }),
        Err(e) => Err(e),
    }
}

/// `(quote form)`: the form, as it stands.
pub open spec fn eval_quote_spec(items: Seq<Value>) -> Result<Value, Failure> {
    if items.len() != 2 {
        Err(Failure::LengthMismatch)
    } else {
        Ok(items[1])
    }
}

/// `(unquote expr)` or `(splice-unquote expr)` inside a template: the value of `expr`.
pub open spec fn eval_unquote_spec(depth: nat, frames: Seq<Scope>, at: nat, items: Seq<Value>) -> Outcome
    decreases depth, 1nat, 0nat,
{
    if items.len() != 2 {
        failed(Failure::LengthMismatch, frames)
    } else {
        eval_spec(depth, frames, at, items[1])
    }
}

/// `(quasiquote template)`. A template that is no list is itself. A list headed by
/// `unquote` is the value of what it unquotes. Any other list is rebuilt element by
/// element, see `quasi_items_spec`.
pub open spec fn eval_quasiquote_spec(
    depth: nat,
    frames: Seq<Scope>,
    at: nat,
    items: Seq<Value>,
) -> Outcome
    decreases depth, 3nat, 0nat,
{
    if items.len() != 2 {
        failed(Failure::LengthMismatch, frames)
    } else {
        match items[1] {
            Value::List(template) => if headed_by(template, "unquote"@) {
                eval_unquote_spec(depth, frames, at, template)
            } else {
                quasi_items_spec(depth, frames, at, template, 0, Seq::empty())
            },
            other => done(other, frames),
        }
    }
}

/// Rebuilds the template from position `i` on; `built` holds what the elements before
/// `i` gave. An element that is a list headed by `unquote` gives the value of what it
/// unquotes. One headed by `splice-unquote` gives the elements of that value, which must
/// be a list. Every other element gives itself, as it stands.
pub open spec fn quasi_items_spec(
    depth: nat,
    frames: Seq<Scope>,
    at: nat,
    template: Seq<Value>,
    i: nat,
    built: Seq<Value>,
) -> Outcome
    decreases depth, 2nat, template.len() - i,
{
    if i >= template.len() {
        done(Value::List(built), frames)
    } else {
        match template[i as int] {
            Value::List(inner) => if headed_by(inner, "unquote"@) {
                let one = eval_unquote_spec(depth, frames, at, inner);
                match one.result {
                    Err(_) => one,
                    Ok(v) => quasi_items_spec(depth, one.frames, at, template, i + 1, built.push(v)),
                }
            } else if headed_by(inner, "splice-unquote"@) {
                let one = eval_unquote_spec(depth, frames, at, inner);
                match one.result {
                    Err(_) => one,
                    Ok(Value::List(spliced)) => quasi_items_spec(
                        depth,
                        one.frames,
                        at,
                        template,
                        i + 1,
                        built + spliced,
                    ),
                    Ok(other) => failed(Failure::InvalidType("List"@, other), one.frames),
                }
            } else {
                quasi_items_spec(depth, frames, at, template, i + 1, built.push(template[i as int]))
            },
            other => quasi_items_spec(depth, frames, at, template, i + 1, built.push(other)),
        }
    }
}

} // verus!
