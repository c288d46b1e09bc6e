//! The evaluator: macro expansion, special forms and application.
//!
//! Each function computes the function of the same name in `semantics`, on the frames of
//! the environment it is given, and leaves the frames that the model says.

use crate::builtins::call_native;
use crate::menv::{pairs_of, MalEnv};
use crate::semantics::{
    bind, bind_from, call_frames, eval_apply_spec, eval_ast_spec, eval_define_spec, eval_do_spec,
    eval_fnstar_spec, eval_if_spec, eval_items_spec, eval_letstar_spec, eval_macrostar_spec,
    eval_quasiquote_spec, eval_quote_spec, eval_spec, eval_unquote_spec, first_non_symbol,
    function_parts, headed_by, is_rest, let_body_spec, macroexpand_spec, quasi_items_spec,
    rest_stem, Evaluated, Failure, Outcome,
};
use crate::text::str_eq;
use crate::theory::{continues, eval_continues};
use crate::types::{clone_items, values_of, Function, MalType, Value};
use vstd::prelude::*;
use vstd::string::StrSliceExecFns;

verus! {

/// Why an evaluation failed.
#[derive(Debug, PartialEq)]
pub enum EvalError {
    /// A symbol that no frame on the parent chain binds.
    UndefinedSymbol(String),
    /// A value of the wrong kind: the kind that was expected, and the value found.
    InvalidType(&'static str, MalType),
    /// A special form with the wrong number of elements, or arguments that do not match
    /// the parameters.
    LengthMismatch,
    /// A string raised by `throw`.
    Throw(String),
    /// Evaluation nested deeper than the depth it was given.
    DepthExceeded,
}

impl View for EvalError {
    type V = Failure;

    open spec fn view(&self) -> Failure {
        match self {
            EvalError::UndefinedSymbol(name) => Failure::UndefinedSymbol(name@),
            EvalError::InvalidType(kind, found) => Failure::InvalidType(kind@, found@),
            EvalError::LengthMismatch => Failure::LengthMismatch,
            EvalError::Throw(message) => Failure::Throw(message@),
            EvalError::DepthExceeded => Failure::DepthExceeded,
        }
    }
}

/// The model of what an evaluation returned.
pub open spec fn result_of(result: Result<MalType, EvalError>) -> Result<Value, Failure> {
    match result {
        Ok(v) => Ok(v@),
        Err(e) => Err(e@),
    }
}

/// The model of what an evaluation returned and of the environment it left.
pub open spec fn outcome_of(result: Result<MalType, EvalError>, env: MalEnv) -> Outcome {
    Outcome { result: result_of(result), frames: env@.frames }
}

/// What every step of evaluation keeps: the environment stays usable, keeps its focus and
/// loses no frame.
pub open spec fn grows(before: MalEnv, after: MalEnv) -> bool {
    &&& after.wf()
    &&& after@.current == before@.current
    &&& after@.frames.len() >= before@.frames.len()
}

/// The name under which a rest parameter is bound, if `name` is a rest parameter.
fn rest_name(name: &str) -> (stem: Option<String>)
    ensures
        match stem {
            Some(s) => is_rest(name@) && s@ == rest_stem(name@),
            None => !is_rest(name@),
        },
{
    let n = name.unicode_len();
    if n >= 3 {
        let tail = name.substring_char(n - 3, n);
        if str_eq(tail, "...") {
            return Some(name.substring_char(0, n - 3).to_owned());
        }
    }
    None
}

/// Copies of the elements of `items` from position `start` on.
fn tail_from(items: &Vec<MalType>, start: usize) -> (tail: Vec<MalType>)
    requires
        start <= items.len(),
    ensures
        values_of(tail) == values_of(*items).skip(start as int),
{
    let mut tail: Vec<MalType> = Vec::new();
    let mut i: usize = start;
    while i < items.len()
        invariant
            start <= i <= items.len(),
            tail.len() == i - start,
            forall|j: int| 0 <= j < tail.len() ==> tail[j]@ == items[start + j]@,
        decreases items.len() - i,
    {
        tail.push(items[i].clone());
        i += 1;
    }
    assert(values_of(tail) =~= values_of(*items).skip(start as int));
    tail
}

/// The bindings that a function with parameters `params` makes when it is applied to
/// the arguments `args`, in the order in which they are made.
pub fn bind_params(params: &Vec<MalType>, args: Vec<MalType>) -> (result: Result<
    Vec<(String, MalType)>,
    EvalError,
>)
    ensures
        match result {
            Ok(bindings) => bind(values_of(*params), values_of(args)) == Ok::<
                Seq<(Seq<char>, Value)>,
                Failure,
            >(pairs_of(bindings@)),
            Err(e) => bind(values_of(*params), values_of(args)) == Err::<
                Seq<(Seq<char>, Value)>,
                Failure,
            >(e@),
        },
{
    let ghost ps = values_of(*params);
    let ghost given = values_of(args);
    let mut left = args;
    let mut bindings: Vec<(String, MalType)> = Vec::new();
    let mut i: usize = 0;
    assert(pairs_of(bindings@) =~= Seq::empty());
    while i < params.len()
        invariant
            ps == values_of(*params),
            i <= params.len(),
            given == values_of(args),
            i <= left.len(),
            left.len() == given.len(),
            forall|j: int| i <= j < left.len() ==> left[j]@ == given[j],
            bind_from(ps, given, i as nat, pairs_of(bindings@)) == bind(ps, given),
        decreases params.len() - i,
    {
        match &params[i] {
            MalType::Symbol(name) => {
                match rest_name(name.as_str()) {
                    Some(stem) => {
                        if i + 1 < params.len() {
                            return Err(EvalError::LengthMismatch);
                        }
                        let rest = left.split_off(i);
                        assert(values_of(rest) =~= given.skip(i as int));
                        let ghost before = bindings@;
                        bindings.push((stem, MalType::List(rest)));
                        assert(pairs_of(bindings@) =~= pairs_of(before).push(
                            (rest_stem(name@), Value::List(given.skip(i as int))),
                        ));
                        return Ok(bindings);
                    },
                    None => {
                        if i < left.len() {
                            let ghost before = bindings@;
                            let mut value = MalType::Nil;
                            core::mem::swap(&mut value, &mut left[i]);
                            bindings.push((name.clone(), value));
                            assert(pairs_of(bindings@) =~= pairs_of(before).push(
                                (name@, given[i as int]),
                            ));
                            i += 1;
                        } else {
                            return Err(EvalError::LengthMismatch);
                        }
                    },
                }
            },
            other => {
                return Err(EvalError::InvalidType("Symbol", other.clone()));
            },
        }
    }
    if left.len() > i {
        Err(EvalError::LengthMismatch)
    } else {
        Ok(bindings)
    }
}

/// Makes the frame in which a function runs: a new child of frame `parent` in which the
/// parameters `params` are bound to the arguments `args`. Returns the index of the new
/// frame. On failure no frame is made.
pub fn init_function_menv(
    params: &Vec<MalType>,
    args: Vec<MalType>,
    menv: &mut MalEnv,
    parent: usize,
) -> (result: Result<usize, EvalError>)
    requires
        old(menv).wf(),
    ensures
        grows(*old(menv), *final(menv)),
        match bind(values_of(*params), values_of(args)) {
            Ok(pairs) => {
                &&& result == Ok::<usize, EvalError>(old(menv)@.frames.len() as usize)
                &&& final(menv)@.frames == call_frames(old(menv)@.frames, parent as nat, pairs)
            },
            Err(failure) => {
                &&& result matches Err(e)
                &&& e@ == failure
                &&& final(menv)@ == old(menv)@
            },
        },
{
    match bind_params(params, args) {
        Ok(bindings) => Ok(menv.child_with(parent, bindings)),
        Err(e) => Err(e),
    }
}

/// The greatest depth to which `eval` lets evaluations nest.
pub const MAX_DEPTH: usize = 512;

/// Evaluates `input` in the frame in focus of `menv`, to the depth `MAX_DEPTH`.
///
/// The result and the frames of `menv` afterwards are those of `eval_spec`. The focus
/// stays where it was and no frame is lost. Of the frames that were there before, only
/// the one in focus can have changed: it has the parent it had, and it binds every name
/// that it bound.
pub fn eval(input: MalType, menv: &mut MalEnv) -> (result: Result<MalType, EvalError>)
    requires
        old(menv).wf(),
    ensures
        grows(*old(menv), *final(menv)),
        outcome_of(result, *final(menv)) == eval_spec(
            MAX_DEPTH as nat,
            old(menv)@.frames,
            old(menv)@.current,
            input@,
        ),
        continues(old(menv)@.frames, final(menv)@.frames, old(menv)@.current),
{
    eval_with_depth(input, menv, MAX_DEPTH)
}

/// Evaluates `input` in the frame in focus of `menv`, letting evaluations nest to the
/// depth `depth` and no deeper.
pub fn eval_with_depth(input: MalType, menv: &mut MalEnv, depth: usize) -> (result: Result<
    MalType,
    EvalError,
>)
    requires
        old(menv).wf(),
    ensures
        grows(*old(menv), *final(menv)),
        outcome_of(result, *final(menv)) == eval_spec(
            depth as nat,
            old(menv)@.frames,
            old(menv)@.current,
            input@,
        ),
        continues(old(menv)@.frames, final(menv)@.frames, old(menv)@.current),
{
    let at = menv.current();
    proof {
        eval_continues(depth as nat, menv@.frames, at as nat, input@);
    }
    eval_in(input, menv, at, depth)
}

/// Evaluates `input` in frame `at` of `menv`, letting evaluations nest to the depth
/// `depth` and no deeper.
///
/// If `at` is not the index of a frame, no name resolves and `define` binds nothing.
pub fn eval_in(input: MalType, menv: &mut MalEnv, at: usize, depth: usize) -> (result: Result<
    MalType,
    EvalError,
>)
    requires
        old(menv).wf(),
    ensures
        grows(*old(menv), *final(menv)),
        outcome_of(result, *final(menv)) == eval_spec(
            depth as nat,
            old(menv)@.frames,
            at as nat,
            input@,
        ),
    decreases depth, 0nat, 0nat,
{
    if depth == 0 {
        return Err(EvalError::DepthExceeded);
    }
    let inner = depth - 1;
    let form = match eval_macroexpand(input, menv, at, inner) {
        Ok(form) => form,
        Err(e) => {
            return Err(e);
        },
    };
    match &form {
        MalType::List(items) => {
            if items.len() == 0 {
                assert(form@ == Value::List(values_of(*items)));
                assert(values_of(*items).len() == 0);
                return Ok(form);
            }
            match &items[0] {
                MalType::Symbol(word) => {
                    if str_eq(word.as_str(), "define") {
                        eval_define(items, menv, at, inner)
                    } else if str_eq(word.as_str(), "let*") {
                        eval_letstar(items, menv, at, inner)
                    } else if str_eq(word.as_str(), "do") {
                        eval_do(items, menv, at, inner)
                    } else if str_eq(word.as_str(), "if") {
                        eval_if(items, menv, at, inner)
                    } else if str_eq(word.as_str(), "fn*") {
                        eval_fnstar(items, at)
                    } else if str_eq(word.as_str(), "macro*") {
                        eval_macrostar(items, at)
                    } else if str_eq(word.as_str(), "quote") {
                        eval_quote(items)
                    } else if str_eq(word.as_str(), "quasiquote") {
                        eval_quasiquote(items, menv, at, inner)
                    } else {
                        eval_apply(items, menv, at, inner)
                    }
                },
                _ => eval_apply(items, menv, at, inner),
            }
        },
        _ => eval_ast(form, menv, at, inner),
    }
}

/// Expands the macros at the head of `input`.
fn eval_macroexpand(input: MalType, menv: &mut MalEnv, at: usize, depth: usize) -> (result: Result<
    MalType,
    EvalError,
>)
    requires
        old(menv).wf(),
    ensures
        grows(*old(menv), *final(menv)),
        outcome_of(result, *final(menv)) == macroexpand_spec(
            depth as nat,
            old(menv)@.frames,
            at as nat,
            input@,
        ),
    decreases depth, 1nat, 0nat,
{
    match &input {
        MalType::List(items) => {
            if items.len() > 0 {
                match &items[0] {
                    MalType::Symbol(name) => {
                        let found = match menv.peek(at, name.as_str()) {
                            Some(MalType::Function(Function::Macro { params, body, env })) => Some(
                                (clone_items(params), (**body).clone(), *env),
                            ),
                            _ => None,
                        };
                        match found {
                            Some((params, body, home)) => {
                                let forms = tail_from(items, 1);
                                let child = match init_function_menv(&params, forms, menv, home) {
                                    Ok(child) => child,
                                    Err(e) => {
                                        return Err(e);
                                    },
                                };
                                let produced = match eval_in(body, menv, child, depth) {
                                    Ok(produced) => produced,
                                    Err(e) => {
                                        return Err(e);
                                    },
                                };
                                if depth == 0 {
                                    return Err(EvalError::DepthExceeded);
                                }
                                return eval_macroexpand(produced, menv, child, depth - 1);
                            },
                            None => {},
                        }
                    },
                    _ => {},
                }
            }
        },
        _ => {},
    }
    Ok(input)
}

/// The model of what the evaluation of several expressions returned and of the
/// environment it left.
pub open spec fn evaluated_of(result: Result<Vec<MalType>, EvalError>, env: MalEnv) -> Evaluated {
    Evaluated {
        result: match result {
            Ok(values) => Ok(values_of(values)),
            Err(e) => Err(e@),
        },
        frames: env@.frames,
    }
}

/// Evaluates the elements of `items` in frame `at`, left to right.
fn eval_items(items: &Vec<MalType>, menv: &mut MalEnv, at: usize, depth: usize) -> (result: Result<
    Vec<MalType>,
    EvalError,
>)
    requires
        old(menv).wf(),
    ensures
        grows(*old(menv), *final(menv)),
        evaluated_of(result, *final(menv)) == eval_items_spec(
            depth as nat,
            old(menv)@.frames,
            at as nat,
            values_of(*items),
            0,
            Seq::empty(),
        ),
        match result {
            Ok(values) => values.len() == items.len(),
            Err(_) => true,
        },
    decreases depth, 1nat, 0nat,
{
    let mut values: Vec<MalType> = Vec::new();
    let mut i: usize = 0;
    assert(values_of(values) =~= Seq::empty());
    while i < items.len()
        invariant
            grows(*old(menv), *menv),
            i <= items.len(),
            values.len() == i,
            eval_items_spec(
                depth as nat,
                menv@.frames,
                at as nat,
                values_of(*items),
                i as nat,
                values_of(values),
            ) == eval_items_spec(
                depth as nat,
                old(menv)@.frames,
                at as nat,
                values_of(*items),
                0,
                Seq::empty(),
            ),
        decreases items.len() - i,
    {
        let ghost before = values_of(values);
        match eval_in(items[i].clone(), menv, at, depth) {
            Ok(v) => {
                values.push(v);
                assert(values_of(values) =~= before.push(v@));
            },
            Err(e) => {
                return Err(e);
            },
        }
        i += 1;
    }
    Ok(values)
}

/// Looks a symbol up, evaluates the elements of a list, and returns any other value as
/// it is.
fn eval_ast(form: MalType, menv: &mut MalEnv, at: usize, depth: usize) -> (result: Result<
    MalType,
    EvalError,
>)
    requires
        old(menv).wf(),
    ensures
        grows(*old(menv), *final(menv)),
        outcome_of(result, *final(menv)) == eval_ast_spec(
            depth as nat,
            old(menv)@.frames,
            at as nat,
            form@,
        ),
    decreases depth, 2nat, 0nat,
{
    match form {
        MalType::Symbol(name) => match menv.get_from(at, name.as_str()) {
            Some(v) => Ok(v),
            None => Err(EvalError::UndefinedSymbol(name)),
        },
        MalType::List(items) => match eval_items(&items, menv, at, depth) {
            Ok(values) => Ok(MalType::List(values)),
            Err(e) => Err(e),
        },
        other => Ok(other),
    }
}

/// Applies the value of the first element of `items` to the values of the others.
fn eval_apply(items: &Vec<MalType>, menv: &mut MalEnv, at: usize, depth: usize) -> (result: Result<
    MalType,
    EvalError,
>)
    requires
        old(menv).wf(),
        items.len() > 0,
    ensures
        grows(*old(menv), *final(menv)),
        outcome_of(result, *final(menv)) == eval_apply_spec(
            depth as nat,
            old(menv)@.frames,
            at as nat,
            values_of(*items),
        ),
    decreases depth, 3nat, 0nat,
{
    let mut values = match eval_items(items, menv, at, depth) {
        Ok(values) => values,
        Err(e) => {
            return Err(e);
        },
    };
    let ghost evaluated = values_of(values);
    let head = values.remove(0);
    assert(values_of(values) =~= evaluated.skip(1));
    assert(head@ == evaluated[0]);
    match head {
        MalType::Function(Function::Closure { params, body, env }) => {
            let child = match init_function_menv(&params, values, menv, env) {
                Ok(child) => child,
                Err(e) => {
                    return Err(e);
                },
            };
            eval_in(*body, menv, child, depth)
        },
        MalType::Function(Function::Native { params, body }) => {
            let child = match init_function_menv(&params, values, menv, 0) {
                Ok(child) => child,
                Err(e) => {
                    return Err(e);
                },
            };
            call_native(body, menv, child)
        },
        other => Err(EvalError::InvalidType("Function", other)),
    }
}

/// `(define name expr)`.
fn eval_define(items: &Vec<MalType>, menv: &mut MalEnv, at: usize, depth: usize) -> (result: Result<
    MalType,
    EvalError,
>)
    requires
        old(menv).wf(),
    ensures
        grows(*old(menv), *final(menv)),
        outcome_of(result, *final(menv)) == eval_define_spec(
            depth as nat,
            old(menv)@.frames,
            at as nat,
            values_of(*items),
        ),
    decreases depth, 1nat, 0nat,
{
    if items.len() != 3 {
        return Err(EvalError::LengthMismatch);
    }
    match &items[1] {
        MalType::Symbol(name) => {
            let value = match eval_in(items[2].clone(), menv, at, depth) {
                Ok(value) => value,
                Err(e) => {
                    return Err(e);
                },
            };
            menv.set_in(at, name.as_str(), value.clone());
            Ok(value)
        },
        other => Err(EvalError::InvalidType("Symbol", other.clone())),
    }
}

/// `(let* (name expr ...) body)`.
fn eval_letstar(items: &Vec<MalType>, menv: &mut MalEnv, at: usize, depth: usize) -> (result: Result<
    MalType,
    EvalError,
>)
    requires
        old(menv).wf(),
    ensures
        grows(*old(menv), *final(menv)),
        outcome_of(result, *final(menv)) == eval_letstar_spec(
            depth as nat,
            old(menv)@.frames,
            at as nat,
            values_of(*items),
        ),
    decreases depth, 2nat, 0nat,
{
    if items.len() != 3 {
        return Err(EvalError::LengthMismatch);
    }
    match &items[1] {
        MalType::List(bindings) => {
            if bindings.len() % 2 != 0 {
                return Err(EvalError::InvalidType("Associative array", items[1].clone()));
            }
            let child = menv.child_of(at);
            let mut i: usize = 0;
            while i < bindings.len()
                invariant
                    grows(*old(menv), *menv),
                    items.len() == 3,
                    bindings.len() % 2 == 0,
                    i % 2 == 0,
                    i <= bindings.len(),
                    let_body_spec(
                        depth as nat,
                        menv@.frames,
                        child as nat,
                        values_of(*bindings),
                        i as nat,
                        items[2]@,
                    ) == eval_letstar_spec(
                        depth as nat,
                        old(menv)@.frames,
                        at as nat,
                        values_of(*items),
                    ),
                decreases bindings.len() - i,
            {
                match &bindings[i] {
                    MalType::Symbol(name) => {
                        let value = match eval_in(bindings[i + 1].clone(), menv, child, depth) {
                            Ok(value) => value,
                            Err(e) => {
                                return Err(e);
                            },
                        };
                        menv.set_in(child, name.as_str(), value);
                    },
                    other => {
                        return Err(EvalError::InvalidType("Symbol", other.clone()));
                    },
                }
                i += 2;
            }
            eval_in(items[2].clone(), menv, child, depth)
        },
        other => Err(EvalError::InvalidType("List", other.clone())),
    }
}

/// `(do expr ...)`.
fn eval_do(items: &Vec<MalType>, menv: &mut MalEnv, at: usize, depth: usize) -> (result: Result<
    MalType,
    EvalError,
>)
    requires
        old(menv).wf(),
        items.len() > 0,
    ensures
        grows(*old(menv), *final(menv)),
        outcome_of(result, *final(menv)) == eval_do_spec(
            depth as nat,
            old(menv)@.frames,
            at as nat,
            values_of(*items),
            1,
            Value::Nil,
        ),
    decreases depth, 1nat, 0nat,
{
    let mut last = MalType::Nil;
    let mut i: usize = 1;
    while i < items.len()
        invariant
            grows(*old(menv), *menv),
            1 <= i <= items.len(),
            eval_do_spec(
                depth as nat,
                menv@.frames,
                at as nat,
                values_of(*items),
                i as nat,
                last@,
            ) == eval_do_spec(
                depth as nat,
                old(menv)@.frames,
                at as nat,
                values_of(*items),
                1,
                Value::Nil,
            ),
        decreases items.len() - i,
    {
        last = match eval_in(items[i].clone(), menv, at, depth) {
            Ok(value) => value,
            Err(e) => {
                return Err(e);
            },
        };
        i += 1;
    }
    Ok(last)
}

/// `(if cond then)` or `(if cond then else)`.
fn eval_if(items: &Vec<MalType>, menv: &mut MalEnv, at: usize, depth: usize) -> (result: Result<
    MalType,
    EvalError,
>)
    requires
        old(menv).wf(),
    ensures
        grows(*old(menv), *final(menv)),
        outcome_of(result, *final(menv)) == eval_if_spec(
            depth as nat,
            old(menv)@.frames,
            at as nat,
            values_of(*items),
        ),
    decreases depth, 1nat, 0nat,
{
    if items.len() < 3 || items.len() > 4 {
        return Err(EvalError::LengthMismatch);
    }
    let cond = match eval_in(items[1].clone(), menv, at, depth) {
        Ok(cond) => cond,
        Err(e) => {
            return Err(e);
        },
    };
    match cond {
        MalType::Bool(true) => eval_in(items[2].clone(), menv, at, depth),
        MalType::Bool(false) => {
            if items.len() == 4 {
                eval_in(items[3].clone(), menv, at, depth)
            } else {
                Ok(MalType::Nil)
            }
        },
        other => Err(EvalError::InvalidType("Bool", other)),
    }
}

/// The position of the first element of `items` that is no symbol.
fn non_symbol(items: &Vec<MalType>) -> (found: Option<usize>)
    ensures
        match found {
            Some(i) => i < items.len() && first_non_symbol(values_of(*items), 0) == Some(
                items[i as int]@,
            ),
            None => first_non_symbol(values_of(*items), 0) is None,
        },
{
    let mut i: usize = 0;
    while i < items.len()
        invariant
            i <= items.len(),
            first_non_symbol(values_of(*items), i as nat) == first_non_symbol(
                values_of(*items),
                0,
            ),
        decreases items.len() - i,
    {
        match &items[i] {
            MalType::Symbol(_) => {},
            _ => {
                return Some(i);
            },
        }
        i += 1;
    }
    None
}

/// Copies of the parameter list and of the body of a `fn*` or `macro*` form.
fn function_of(items: &Vec<MalType>) -> (result: Result<(Vec<MalType>, MalType), EvalError>)
    ensures
        match result {
            Ok((params, body)) => function_parts(values_of(*items)) == Ok::<
                (Seq<Value>, Value),
                Failure,
            >((values_of(params), body@)),
            Err(e) => function_parts(values_of(*items)) == Err::<(Seq<Value>, Value), Failure>(e@),
        },
{
    if items.len() != 3 {
        return Err(EvalError::LengthMismatch);
    }
    match &items[1] {
        MalType::List(params) => match non_symbol(params) {
            Some(i) => Err(EvalError::InvalidType("Symbol", params[i].clone())),
            None => Ok((clone_items(params), items[2].clone())),
        },
        other => Err(EvalError::InvalidType("List", other.clone())),
    }
}

/// `(fn* (param ...) body)`.
fn eval_fnstar(items: &Vec<MalType>, at: usize) -> (result: Result<MalType, EvalError>)
    ensures
        result_of(result) == eval_fnstar_spec(at as nat, values_of(*items)),
{
    match function_of(items) {
        Ok((params, body)) => Ok(
            MalType::Function(Function::Closure { params, body: Box::new(body), env: at }),
        ),
        Err(e) => Err(e),
    }
}

/// `(macro* (param ...) body)`.
fn eval_macrostar(items: &Vec<MalType>, at: usize) -> (result: Result<MalType, EvalError>)
    ensures
        result_of(result) == eval_macrostar_spec(at as nat, values_of(*items)),
{
    match function_of(items) {
        Ok((params, body)) => Ok(
            MalType::Function(Function::Macro { params, body: Box::new(body), env: at }),
        ),
        Err(e) => Err(e),
    }
}

/// `(quote form)`.
fn eval_quote(items: &Vec<MalType>) -> (result: Result<MalType, EvalError>)
    ensures
        result_of(result) == eval_quote_spec(values_of(*items)),
{
    if items.len() != 2 {
        return Err(EvalError::LengthMismatch);
    }
    Ok(items[1].clone())
}

/// `(unquote expr)` or `(splice-unquote expr)` inside a template.
fn eval_unquote(items: &Vec<MalType>, menv: &mut MalEnv, at: usize, depth: usize) -> (result: Result<
    MalType,
    EvalError,
>)
    requires
        old(menv).wf(),
    ensures
        grows(*old(menv), *final(menv)),
        outcome_of(result, *final(menv)) == eval_unquote_spec(
            depth as nat,
            old(menv)@.frames,
            at as nat,
            values_of(*items),
        ),
    decreases depth, 1nat, 0nat,
{
    if items.len() != 2 {
        return Err(EvalError::LengthMismatch);
    }
    eval_in(items[1].clone(), menv, at, depth)
}

/// Whether `items` is a non-empty list whose first element is the symbol `word`.
fn headed(items: &Vec<MalType>, word: &str) -> (yes: bool)
    ensures
        yes == headed_by(values_of(*items), word@),
{
    if items.len() == 0 {
        return false;
    }
    match &items[0] {
        MalType::Symbol(name) => str_eq(name.as_str(), word),
        _ => false,
    }
}

/// `(quasiquote template)`.
fn eval_quasiquote(items: &Vec<MalType>, menv: &mut MalEnv, at: usize, depth: usize) -> (result:
    Result<MalType, EvalError>)
    requires
        old(menv).wf(),
    ensures
        grows(*old(menv), *final(menv)),
        outcome_of(result, *final(menv)) == eval_quasiquote_spec(
            depth as nat,
            old(menv)@.frames,
            at as nat,
            values_of(*items),
        ),
    decreases depth, 3nat, 0nat,
{
    if items.len() != 2 {
        return Err(EvalError::LengthMismatch);
    }
    match &items[1] {
        MalType::List(template) => {
            if headed(template, "unquote") {
                return eval_unquote(template, menv, at, depth);
            }
            let mut built: Vec<MalType> = Vec::new();
            let mut i: usize = 0;
            assert(values_of(built) =~= Seq::empty());
            while i < template.len()
                invariant
                    grows(*old(menv), *menv),
                            i <= template.len(),
                    quasi_items_spec(
                        depth as nat,
                        menv@.frames,
                        at as nat,
                        values_of(*template),
                        i as nat,
                        values_of(built),
                    ) == eval_quasiquote_spec(
                        depth as nat,
                        old(menv)@.frames,
                        at as nat,
                        values_of(*items),
                    ),
                decreases template.len() - i,
            {
                let ghost before = values_of(built);
                match &template[i] {
                    MalType::List(inner) => {
                        if headed(inner, "unquote") {
                            let value = match eval_unquote(inner, menv, at, depth) {
                                Ok(value) => value,
                                Err(e) => {
                                    return Err(e);
                                },
                            };
                            built.push(value);
                            assert(values_of(built) =~= before.push(value@));
                        } else if headed(inner, "splice-unquote") {
                            let value = match eval_unquote(inner, menv, at, depth) {
                                Ok(value) => value,
                                Err(e) => {
                                    return Err(e);
                                },
                            };
                            match value {
                                MalType::List(spliced) => {
                                    let ghost added = values_of(spliced);
                                    let mut spliced = spliced;
                                    built.append(&mut spliced);
                                    assert(values_of(built) =~= before + added);
                                },
                                other => {
                                    return Err(EvalError::InvalidType("List", other));
                                },
                            }
                        } else {
                            built.push(template[i].clone());
                            assert(values_of(built) =~= before.push(template[i as int]@));
                        }
                    },
                    other => {
                        built.push(other.clone());
                        assert(values_of(built) =~= before.push(template[i as int]@));
                    },
                }
                i += 1;
            }
            Ok(MalType::List(built))
        },
        other => Ok(other.clone()),
    }
}

} // verus!
