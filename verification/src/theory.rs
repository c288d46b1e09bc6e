//! What holds of evaluation, proved of the model in `semantics`.
//!
//! * How parameters take arguments: a fixed number for plain parameters, and all that is
//!   left for a rest parameter.
//! * Evaluation in a frame changes no other frame that was there before, keeps the
//!   frame's parent, and removes no binding.
//! * A binding made by `define` is found by the next lookup.
//! * A closure runs under the frame it was made in; a macro takes its argument forms as
//!   they stand; applying what is no function fails.
//! * A binding of `let*` is seen by the bindings after it; a template of `quasiquote`
//!   is rebuilt element by element.
//! * The depth given to an evaluation only decides whether it is cut short: if it is not,
//!   a greater depth gives the same result and the same frames.

use crate::menv::{define, lookup, lookup_reads_earlier_frames, vars_of, Scope};
use crate::semantics::{
    bind, bind_from, call_frames, done, eval_apply_spec, eval_ast_spec, eval_define_spec,
    eval_do_spec, eval_if_spec, eval_items_spec, eval_letstar_spec, eval_quasiquote_spec,
    eval_spec, eval_unquote_spec, failed, headed_by, is_rest, let_body_spec, macroexpand_spec,
    quasi_items_spec, rest_stem, Failure,
};
use crate::types::Value;
use vstd::prelude::*;

verus! {

// ---------------------------------------------------------------------------------------
// Parameters and arguments
// ---------------------------------------------------------------------------------------

/// The name of a parameter.
pub open spec fn name_of(param: Value) -> Seq<char> {
    match param {
        Value::Symbol(name) => name,
        _ => Seq::empty(),
    }
}

/// Whether every parameter is a symbol that is no rest parameter.
pub open spec fn all_plain(params: Seq<Value>) -> bool {
    forall|i: int|
        0 <= i < params.len() ==> (#[trigger] params[i]) is Symbol && !is_rest(name_of(params[i]))
}

/// Each of the first `n` parameters paired with the argument at its position.
pub open spec fn paired(params: Seq<Value>, args: Seq<Value>, n: nat) -> Seq<(Seq<char>, Value)> {
    Seq::new(n, |i: int| (name_of(params[i]), args[i]))
}

proof fn lemma_bind_plain(params: Seq<Value>, args: Seq<Value>, i: nat)
    requires
        all_plain(params),
        i <= params.len(),
        i <= args.len(),
    ensures
        bind_from(params, args, i, paired(params, args, i)) == if args.len() == params.len() {
            Ok::<Seq<(Seq<char>, Value)>, Failure>(paired(params, args, params.len()))
        } else {
            Err(Failure::LengthMismatch)
        },
    decreases params.len() - i,
{
    if i < params.len() {
        assert(params[i as int] is Symbol && !is_rest(name_of(params[i as int])));
        if i < args.len() {
            assert(paired(params, args, i).push((name_of(params[i as int]), args[i as int]))
                =~= paired(params, args, i + 1));
            lemma_bind_plain(params, args, i + 1);
        }
    }
}

/// Plain parameters take exactly as many arguments as they are, each the argument at its
/// position. With fewer or more arguments, binding fails with a length mismatch.
pub proof fn plain_parameters_take_one_argument_each(params: Seq<Value>, args: Seq<Value>)
    requires
        all_plain(params),
    ensures
        args.len() == params.len() ==> bind(params, args) == Ok::<
            Seq<(Seq<char>, Value)>,
            Failure,
        >(paired(params, args, params.len())),
        args.len() != params.len() ==> bind(params, args) == Err::<
            Seq<(Seq<char>, Value)>,
            Failure,
        >(Failure::LengthMismatch),
{
    assert(paired(params, args, 0) =~= Seq::empty());
    lemma_bind_plain(params, args, 0);
}

proof fn lemma_bind_rest(params: Seq<Value>, args: Seq<Value>, i: nat)
    requires
        params.len() > 0,
        all_plain(params.drop_last()),
        params.last() is Symbol,
        is_rest(name_of(params.last())),
        i < params.len(),
        i <= args.len(),
    ensures
        bind_from(params, args, i, paired(params, args, i)) == if args.len() >= params.len() - 1 {
            Ok::<Seq<(Seq<char>, Value)>, Failure>(
                paired(params, args, (params.len() - 1) as nat).push(
                    (
                        rest_stem(name_of(params.last())),
                        Value::List(args.skip(params.len() - 1)),
                    ),
                ),
            )
        } else {
            Err(Failure::LengthMismatch)
        },
    decreases params.len() - i,
{
    if i + 1 < params.len() {
        assert(params[i as int] == params.drop_last()[i as int]);
        assert(params[i as int] is Symbol && !is_rest(name_of(params[i as int])));
        if i < args.len() {
            assert(paired(params, args, i).push((name_of(params[i as int]), args[i as int]))
                =~= paired(params, args, i + 1));
            lemma_bind_rest(params, args, i + 1);
        }
    }
}

/// When the last parameter is a rest parameter and those before it are plain, each plain
/// parameter takes the argument at its position and the rest parameter is bound, under
/// its name without the dots, to the list of all arguments that are left. With fewer
/// arguments than plain parameters, binding fails with a length mismatch.
pub proof fn rest_parameter_takes_what_is_left(params: Seq<Value>, args: Seq<Value>)
    requires
        params.len() > 0,
        all_plain(params.drop_last()),
        params.last() is Symbol,
        is_rest(name_of(params.last())),
    ensures
        args.len() >= params.len() - 1 ==> bind(params, args) == Ok::<
            Seq<(Seq<char>, Value)>,
            Failure,
        >(
            paired(params, args, (params.len() - 1) as nat).push(
                (rest_stem(name_of(params.last())), Value::List(args.skip(params.len() - 1))),
            ),
        ),
        args.len() < params.len() - 1 ==> bind(params, args) == Err::<
            Seq<(Seq<char>, Value)>,
            Failure,
        >(Failure::LengthMismatch),
{
    assert(paired(params, args, 0) =~= Seq::empty());
    lemma_bind_rest(params, args, 0);
}

// ---------------------------------------------------------------------------------------
// What evaluation leaves alone
// ---------------------------------------------------------------------------------------

/// `after` continues `before` as seen from frame `at`: no frame is lost; every other
/// frame that was there is as it was; and frame `at` has the parent it had and binds
/// every name it bound.
pub open spec fn continues(before: Seq<Scope>, after: Seq<Scope>, at: nat) -> bool {
    &&& before.len() <= after.len()
    &&& forall|i: int| 0 <= i < before.len() && i != at ==> #[trigger] after[i] == before[i]
    &&& at < before.len() ==> {
        &&& after[at as int].parent == before[at as int].parent
        &&& forall|name: Seq<char>|
            before[at as int].vars.contains_key(name) ==> #[trigger] after[at as int].vars.contains_key(
                name,
            )
    }
}

proof fn lemma_continues_chain(first: Seq<Scope>, second: Seq<Scope>, third: Seq<Scope>, at: nat)
    requires
        continues(first, second, at),
        continues(second, third, at),
    ensures
        continues(first, third, at),
{
    assert forall|i: int| 0 <= i < first.len() && i != at implies #[trigger] third[i]
        == first[i] by {
        assert(third[i] == second[i]);
        assert(second[i] == first[i]);
    }
    if at < first.len() {
        assert forall|name: Seq<char>|
            first[at as int].vars.contains_key(name) implies #[trigger] third[at as int].vars.contains_key(
            name,
        ) by {
            assert(second[at as int].vars.contains_key(name));
        }
    }
}

/// What happens in a frame that was added later changes no frame that was there before.
proof fn lemma_continues_from_child(
    before: Seq<Scope>,
    parent: nat,
    pairs: Seq<(Seq<char>, Value)>,
    after: Seq<Scope>,
    at: nat,
)
    requires
        continues(call_frames(before, parent, pairs), after, before.len()),
    ensures
        continues(before, after, at),
{
    let called = call_frames(before, parent, pairs);
    assert forall|i: int| 0 <= i < before.len() implies #[trigger] after[i] == before[i] by {
        assert(after[i] == called[i]);
    }
}

/// Evaluation in frame `at` loses no frame, changes no other frame that was there
/// before, keeps the parent of frame `at` and removes no binding from it.
pub proof fn eval_continues(depth: nat, frames: Seq<Scope>, at: nat, expr: Value)
    requires
        at < frames.len(),
    ensures
        continues(frames, eval_spec(depth, frames, at, expr).frames, at),
    decreases depth, 0nat, 0nat,
{
    if depth > 0 {
        let inner = (depth - 1) as nat;
        lemma_macroexpand_continues(inner, frames, at, expr);
        let expanded = macroexpand_spec(inner, frames, at, expr);
        let out = eval_spec(depth, frames, at, expr);
        match expanded.result {
            Err(_) => {},
            Ok(Value::List(items)) => {
                if items.len() > 0 {
                    lemma_define_continues(inner, expanded.frames, at, items);
                    lemma_letstar_continues(inner, expanded.frames, at, items);
                    lemma_do_continues(inner, expanded.frames, at, items, 1, Value::Nil);
                    lemma_if_continues(inner, expanded.frames, at, items);
                    lemma_quasiquote_continues(inner, expanded.frames, at, items);
                    lemma_apply_continues(inner, expanded.frames, at, items);
                    assert(continues(expanded.frames, out.frames, at));
                    lemma_continues_chain(frames, expanded.frames, out.frames, at);
                }
            },
            Ok(form) => {
                lemma_ast_continues(inner, expanded.frames, at, form);
                lemma_continues_chain(frames, expanded.frames, out.frames, at);
            },
        }
    }
}

proof fn lemma_macroexpand_continues(depth: nat, frames: Seq<Scope>, at: nat, expr: Value)
    requires
        at < frames.len(),
    ensures
        continues(frames, macroexpand_spec(depth, frames, at, expr).frames, at),
    decreases depth, 1nat, 0nat,
{
    let out = macroexpand_spec(depth, frames, at, expr);
    match expr {
        Value::List(items) => {
            if items.len() > 0 {
                match items[0] {
                    Value::Symbol(name) => match lookup(frames, at, name) {
                        Some(Value::Macro { params, body, env }) => match bind(
                            params,
                            items.skip(1),
                        ) {
                            Err(_) => {},
                            Ok(pairs) => {
                                let child = frames.len();
                                let called = call_frames(frames, env, pairs);
                                eval_continues(depth, called, child, *body);
                                let produced = eval_spec(depth, called, child, *body);
                                match produced.result {
                                    Err(_) => {},
                                    Ok(form) => {
                                        if depth > 0 {
                                            lemma_macroexpand_continues(
                                                (depth - 1) as nat,
                                                produced.frames,
                                                child,
                                                form,
                                            );
                                            lemma_continues_chain(
                                                called,
                                                produced.frames,
                                                out.frames,
                                                child,
                                            );
                                        }
                                    },
                                }
                                lemma_continues_from_child(frames, env, pairs, out.frames, at);
                            },
                        },
                        _ => {},
                    },
                    _ => {},
                }
            }
        },
        _ => {},
    }
}

proof fn lemma_items_continues(
    depth: nat,
    frames: Seq<Scope>,
    at: nat,
    items: Seq<Value>,
    i: nat,
    values: Seq<Value>,
)
    requires
        at < frames.len(),
    ensures
        continues(frames, eval_items_spec(depth, frames, at, items, i, values).frames, at),
    decreases depth, 1nat, items.len() - i,
{
    if i < items.len() {
        eval_continues(depth, frames, at, items[i as int]);
        let one = eval_spec(depth, frames, at, items[i as int]);
        match one.result {
            Err(_) => {},
            Ok(v) => {
                lemma_items_continues(depth, one.frames, at, items, i + 1, values.push(v));
                lemma_continues_chain(
                    frames,
                    one.frames,
                    eval_items_spec(depth, frames, at, items, i, values).frames,
                    at,
                );
            },
        }
    }
}

proof fn lemma_ast_continues(depth: nat, frames: Seq<Scope>, at: nat, form: Value)
    requires
        at < frames.len(),
    ensures
        continues(frames, eval_ast_spec(depth, frames, at, form).frames, at),
    decreases depth, 2nat, 0nat,
{
    match form {
        Value::List(items) => {
            lemma_items_continues(depth, frames, at, items, 0, Seq::empty());
        },
        _ => {},
    }
}

proof fn lemma_apply_continues(depth: nat, frames: Seq<Scope>, at: nat, items: Seq<Value>)
    requires
        at < frames.len(),
    ensures
        continues(frames, eval_apply_spec(depth, frames, at, items).frames, at),
    decreases depth, 3nat, 0nat,
{
    let out = eval_apply_spec(depth, frames, at, items);
    lemma_items_continues(depth, frames, at, items, 0, Seq::empty());
    let evaluated = eval_items_spec(depth, frames, at, items, 0, Seq::empty());
    match evaluated.result {
        Err(_) => {},
        Ok(values) => match values[0] {
            Value::Closure { params, body, env } => match bind(params, values.skip(1)) {
                Err(_) => {},
                Ok(pairs) => {
                    eval_continues(
                        depth,
                        call_frames(evaluated.frames, env, pairs),
                        evaluated.frames.len(),
                        *body,
                    );
                    lemma_continues_from_child(evaluated.frames, env, pairs, out.frames, at);
                    lemma_continues_chain(frames, evaluated.frames, out.frames, at);
                },
            },
            Value::Native { params, op } => match bind(params, values.skip(1)) {
                Err(_) => {},
                Ok(pairs) => {
                    lemma_continues_from_child(evaluated.frames, 0, pairs, out.frames, at);
                    lemma_continues_chain(frames, evaluated.frames, out.frames, at);
                },
            },
            _ => {},
        },
    }
}

proof fn lemma_define_continues(depth: nat, frames: Seq<Scope>, at: nat, items: Seq<Value>)
    requires
        at < frames.len(),
    ensures
        continues(frames, eval_define_spec(depth, frames, at, items).frames, at),
    decreases depth, 1nat, 0nat,
{
    if items.len() == 3 {
        match items[1] {
            Value::Symbol(name) => {
                eval_continues(depth, frames, at, items[2]);
                let value = eval_spec(depth, frames, at, items[2]);
                match value.result {
                    Err(_) => {},
                    Ok(v) => {
                        assert(continues(value.frames, define(value.frames, at, name, v), at));
                        lemma_continues_chain(
                            frames,
                            value.frames,
                            define(value.frames, at, name, v),
                            at,
                        );
                    },
                }
            },
            _ => {},
        }
    }
}

proof fn lemma_letstar_continues(depth: nat, frames: Seq<Scope>, at: nat, items: Seq<Value>)
    requires
        at < frames.len(),
    ensures
        continues(frames, eval_letstar_spec(depth, frames, at, items).frames, at),
    decreases depth, 2nat, 0nat,
{
    if items.len() == 3 {
        match items[1] {
            Value::List(bindings) => {
                if bindings.len() % 2 == 0 {
                    let called = call_frames(frames, at, Seq::empty());
                    lemma_let_body_continues(depth, called, frames.len(), bindings, 0, items[2]);
                    lemma_continues_from_child(
                        frames,
                        at,
                        Seq::empty(),
                        eval_letstar_spec(depth, frames, at, items).frames,
                        at,
                    );
                }
            },
            _ => {},
        }
    }
}

proof fn lemma_let_body_continues(
    depth: nat,
    frames: Seq<Scope>,
    child: nat,
    bindings: Seq<Value>,
    i: nat,
    body: Value,
)
    requires
        child < frames.len(),
    ensures
        continues(frames, let_body_spec(depth, frames, child, bindings, i, body).frames, child),
    decreases depth, 1nat, bindings.len() - i,
{
    let out = let_body_spec(depth, frames, child, bindings, i, body);
    if i + 1 >= bindings.len() {
        eval_continues(depth, frames, child, body);
    } else {
        match bindings[i as int] {
            Value::Symbol(name) => {
                eval_continues(depth, frames, child, bindings[i as int + 1]);
                let value = eval_spec(depth, frames, child, bindings[i as int + 1]);
                match value.result {
                    Err(_) => {},
                    Ok(v) => {
                        let bound = define(value.frames, child, name, v);
                        assert(continues(value.frames, bound, child));
                        lemma_continues_chain(frames, value.frames, bound, child);
                        lemma_let_body_continues(depth, bound, child, bindings, i + 2, body);
                        lemma_continues_chain(frames, bound, out.frames, child);
                    },
                }
            },
            _ => {},
        }
    }
}

proof fn lemma_do_continues(
    depth: nat,
    frames: Seq<Scope>,
    at: nat,
    items: Seq<Value>,
    i: nat,
    last: Value,
)
    requires
        at < frames.len(),
    ensures
        continues(frames, eval_do_spec(depth, frames, at, items, i, last).frames, at),
    decreases depth, 1nat, items.len() - i,
{
    if i < items.len() {
        eval_continues(depth, frames, at, items[i as int]);
        let one = eval_spec(depth, frames, at, items[i as int]);
        match one.result {
            Err(_) => {},
            Ok(v) => {
                lemma_do_continues(depth, one.frames, at, items, i + 1, v);
                lemma_continues_chain(
                    frames,
                    one.frames,
                    eval_do_spec(depth, frames, at, items, i, last).frames,
                    at,
                );
            },
        }
    }
}

proof fn lemma_if_continues(depth: nat, frames: Seq<Scope>, at: nat, items: Seq<Value>)
    requires
        at < frames.len(),
    ensures
        continues(frames, eval_if_spec(depth, frames, at, items).frames, at),
    decreases depth, 1nat, 0nat,
{
    if 3 <= items.len() <= 4 {
        eval_continues(depth, frames, at, items[1]);
        let cond = eval_spec(depth, frames, at, items[1]);
        let out = eval_if_spec(depth, frames, at, items);
        match cond.result {
            Ok(Value::Bool(true)) => {
                eval_continues(depth, cond.frames, at, items[2]);
                lemma_continues_chain(frames, cond.frames, out.frames, at);
            },
            Ok(Value::Bool(false)) => {
                if items.len() == 4 {
                    eval_continues(depth, cond.frames, at, items[3]);
                    lemma_continues_chain(frames, cond.frames, out.frames, at);
                }
            },
            _ => {},
        }
    }
}

proof fn lemma_unquote_continues(depth: nat, frames: Seq<Scope>, at: nat, items: Seq<Value>)
    requires
        at < frames.len(),
    ensures
        continues(frames, eval_unquote_spec(depth, frames, at, items).frames, at),
    decreases depth, 1nat, 0nat,
{
    if items.len() == 2 {
        eval_continues(depth, frames, at, items[1]);
    }
}

proof fn lemma_quasiquote_continues(depth: nat, frames: Seq<Scope>, at: nat, items: Seq<Value>)
    requires
        at < frames.len(),
    ensures
        continues(frames, eval_quasiquote_spec(depth, frames, at, items).frames, at),
    decreases depth, 3nat, 0nat,
{
    if items.len() == 2 {
        match items[1] {
            Value::List(template) => {
                lemma_unquote_continues(depth, frames, at, template);
                lemma_quasi_items_continues(depth, frames, at, template, 0, Seq::empty());
            },
            _ => {},
        }
    }
}

proof fn lemma_quasi_items_continues(
    depth: nat,
    frames: Seq<Scope>,
    at: nat,
    template: Seq<Value>,
    i: nat,
    built: Seq<Value>,
)
    requires
        at < frames.len(),
    ensures
        continues(frames, quasi_items_spec(depth, frames, at, template, i, built).frames, at),
    decreases depth, 2nat, template.len() - i,
{
    let out = quasi_items_spec(depth, frames, at, template, i, built);
    if i < template.len() {
        match template[i as int] {
            Value::List(inner) => {
                if headed_by(inner, "unquote"@) {
                    lemma_unquote_continues(depth, frames, at, inner);
                    let one = eval_unquote_spec(depth, frames, at, inner);
                    match one.result {
                        Err(_) => {},
                        Ok(v) => {
                            lemma_quasi_items_continues(
                                depth,
                                one.frames,
                                at,
                                template,
                                i + 1,
                                built.push(v),
                            );
                            lemma_continues_chain(frames, one.frames, out.frames, at);
                        },
                    }
                } else if headed_by(inner, "splice-unquote"@) {
                    lemma_unquote_continues(depth, frames, at, inner);
                    let one = eval_unquote_spec(depth, frames, at, inner);
                    match one.result {
                        Ok(Value::List(spliced)) => {
                            lemma_quasi_items_continues(
                                depth,
                                one.frames,
                                at,
                                template,
                                i + 1,
                                built + spliced,
                            );
                            lemma_continues_chain(frames, one.frames, out.frames, at);
                        },
                        _ => {},
                    }
                } else {
                    lemma_quasi_items_continues(
                        depth,
                        frames,
                        at,
                        template,
                        i + 1,
                        built.push(template[i as int]),
                    );
                }
            },
            other => {
                lemma_quasi_items_continues(depth, frames, at, template, i + 1, built.push(other));
            },
        }
    }
}

// ---------------------------------------------------------------------------------------
// Definitions
// ---------------------------------------------------------------------------------------

/// When `(define name expr)` yields a value, looking `name` up from the same frame
/// afterwards yields that value. This holds where `define` is not the name of a macro.
pub proof fn define_then_lookup(
    depth: nat,
    frames: Seq<Scope>,
    at: nat,
    name: Seq<char>,
    expr: Value,
)
    requires
        at < frames.len(),
        !(lookup(frames, at, "define"@) is Some && lookup(frames, at, "define"@)->0 is Macro),
    ensures
        ({
            let form = Value::List(seq![Value::Symbol("define"@), Value::Symbol(name), expr]);
            let out = eval_spec(depth, frames, at, form);
            match out.result {
                Ok(v) => lookup(out.frames, at, name) == Some(v),
                Err(_) => true,
            }
        }),
{
    if depth > 0 {
        let inner = (depth - 1) as nat;
        let items = seq![Value::Symbol("define"@), Value::Symbol(name), expr];
        let form = Value::List(items);
        assert(macroexpand_spec(inner, frames, at, form).result == Ok::<Value, Failure>(form));
        assert(macroexpand_spec(inner, frames, at, form).frames == frames);
        assert(eval_spec(depth, frames, at, form) == eval_define_spec(inner, frames, at, items));
        eval_continues(inner, frames, at, expr);
    }
}

// ---------------------------------------------------------------------------------------
// Application and expansion
// ---------------------------------------------------------------------------------------

/// A closure runs under the frame it was made in, whatever frame applies it: its body
/// is evaluated in a new frame in which a name bound to a parameter resolves to the
/// argument, and every other name resolves as it does from the closure's own frame.
pub proof fn closure_runs_under_its_own_frame(
    depth: nat,
    frames: Seq<Scope>,
    at: nat,
    items: Seq<Value>,
    name: Seq<char>,
)
    requires
        eval_items_spec(depth, frames, at, items, 0, Seq::empty()).result is Ok,
        eval_items_spec(depth, frames, at, items, 0, Seq::empty()).result->Ok_0[0] is Closure,
        ({
            let evaluated = eval_items_spec(depth, frames, at, items, 0, Seq::empty());
            let values = evaluated.result->Ok_0;
            &&& bind(values[0]->Closure_params, values.skip(1)) is Ok
            &&& values[0]->Closure_env < evaluated.frames.len()
        }),
    ensures
        ({
            let evaluated = eval_items_spec(depth, frames, at, items, 0, Seq::empty());
            let values = evaluated.result->Ok_0;
            let home = values[0]->Closure_env;
            let pairs = bind(values[0]->Closure_params, values.skip(1))->Ok_0;
            let called = call_frames(evaluated.frames, home, pairs);
            let child = evaluated.frames.len();
            &&& eval_apply_spec(depth, frames, at, items) == eval_spec(
                depth,
                called,
                child,
                *values[0]->Closure_body,
            )
            &&& called[child as int].parent == Some(home)
            &&& lookup(called, child, name) == if vars_of(pairs).contains_key(name) {
                Some(vars_of(pairs)[name])
            } else {
                lookup(evaluated.frames, home, name)
            }
        }),
{
    let evaluated = eval_items_spec(depth, frames, at, items, 0, Seq::empty());
    let values = evaluated.result->Ok_0;
    let home = values[0]->Closure_env;
    let pairs = bind(values[0]->Closure_params, values.skip(1))->Ok_0;
    let called = call_frames(evaluated.frames, home, pairs);
    lookup_reads_earlier_frames(evaluated.frames, called, home, name);
}

/// Applying a value that is neither a closure nor a native function fails, and the
/// failure names that value.
pub proof fn applying_no_function_fails(depth: nat, frames: Seq<Scope>, at: nat, items: Seq<Value>)
    requires
        eval_items_spec(depth, frames, at, items, 0, Seq::empty()).result is Ok,
        !(eval_items_spec(depth, frames, at, items, 0, Seq::empty()).result->Ok_0[0] is Closure),
        !(eval_items_spec(depth, frames, at, items, 0, Seq::empty()).result->Ok_0[0] is Native),
    ensures
        eval_apply_spec(depth, frames, at, items).result == Err::<Value, Failure>(
            Failure::InvalidType(
                "Function"@,
                eval_items_spec(depth, frames, at, items, 0, Seq::empty()).result->Ok_0[0],
            ),
        ),
{
}

/// A macro takes its argument forms as they stand: when a list is headed by the name of
/// a macro with plain parameters and holds as many further elements, the macro's body
/// is evaluated in a new child of the macro's frame that binds each parameter to the
/// element at its position, unevaluated; no element is evaluated before that.
pub proof fn macro_takes_forms_as_they_stand(depth: nat, frames: Seq<Scope>, at: nat, items: Seq<Value>)
    requires
        items.len() > 0,
        items[0] is Symbol,
        lookup(frames, at, items[0]->Symbol_0) is Some,
        lookup(frames, at, items[0]->Symbol_0)->0 is Macro,
        all_plain(lookup(frames, at, items[0]->Symbol_0)->0->Macro_params),
        lookup(frames, at, items[0]->Symbol_0)->0->Macro_params.len() == items.len() - 1,
    ensures
        ({
            let found = lookup(frames, at, items[0]->Symbol_0)->0;
            let params = found->Macro_params;
            let pairs = paired(params, items.skip(1), params.len());
            let called = call_frames(frames, found->Macro_env, pairs);
            let produced = eval_spec(depth, called, frames.len(), *found->Macro_body);
            let out = macroexpand_spec(depth, frames, at, Value::List(items));
            &&& forall|i: int| 0 <= i < params.len() ==> (#[trigger] pairs[i]).1 == items[i + 1]
            &&& match produced.result {
                Err(_) => out == produced,
                Ok(form) => depth > 0 && out == macroexpand_spec(
                    (depth - 1) as nat,
                    produced.frames,
                    frames.len(),
                    form,
                ),
            }
        }),
{
    let found = lookup(frames, at, items[0]->Symbol_0)->0;
    let params = found->Macro_params;
    plain_parameters_take_one_argument_each(params, items.skip(1));
    let pairs = paired(params, items.skip(1), params.len());
    let called = call_frames(frames, found->Macro_env, pairs);
    let produced = eval_spec(depth, called, frames.len(), *found->Macro_body);
    if depth == 0 {
        assert(produced.result is Err);
    }
}

// ---------------------------------------------------------------------------------------
// Bindings of let* and templates of quasiquote
// ---------------------------------------------------------------------------------------

/// A binding of `let*` is seen by what follows it: once the expression of a binding has
/// yielded a value, the bindings after it and the body are evaluated in frames in which
/// the name resolves to that value.
pub proof fn let_binding_is_seen_by_the_next(
    depth: nat,
    frames: Seq<Scope>,
    child: nat,
    bindings: Seq<Value>,
    i: nat,
    body: Value,
)
    requires
        child < frames.len(),
        i + 1 < bindings.len(),
        bindings[i as int] is Symbol,
        eval_spec(depth, frames, child, bindings[i as int + 1]).result is Ok,
    ensures
        ({
            let name = bindings[i as int]->Symbol_0;
            let value = eval_spec(depth, frames, child, bindings[i as int + 1]);
            let bound = define(value.frames, child, name, value.result->Ok_0);
            &&& lookup(bound, child, name) == Some(value.result->Ok_0)
            &&& let_body_spec(depth, frames, child, bindings, i, body) == let_body_spec(
                depth,
                bound,
                child,
                bindings,
                i + 2,
                body,
            )
        }),
{
    eval_continues(depth, frames, child, bindings[i as int + 1]);
}

/// Whether an element of a template is taken as it stands: it is no list headed by
/// `unquote` or by `splice-unquote`.
pub open spec fn stands(element: Value) -> bool {
    match element {
        Value::List(inner) => !headed_by(inner, "unquote"@) && !headed_by(inner, "splice-unquote"@),
        _ => true,
    }
}

/// A template in which nothing is unquoted is rebuilt as it is, and nothing is
/// evaluated: the frames stay as they are.
pub proof fn template_without_unquote_is_itself(
    depth: nat,
    frames: Seq<Scope>,
    at: nat,
    template: Seq<Value>,
    i: nat,
    built: Seq<Value>,
)
    requires
        i <= template.len(),
        forall|j: int| i <= j < template.len() ==> stands(#[trigger] template[j]),
    ensures
        quasi_items_spec(depth, frames, at, template, i, built) == done(
            Value::List(built + template.skip(i as int)),
            frames,
        ),
    decreases template.len() - i,
{
    if i < template.len() {
        assert(stands(template[i as int]));
        template_without_unquote_is_itself(
            depth,
            frames,
            at,
            template,
            i + 1,
            built.push(template[i as int]),
        );
        assert(built.push(template[i as int]) + template.skip(i as int + 1) =~= built
            + template.skip(i as int));
    } else {
        assert(built + template.skip(i as int) =~= built);
    }
}

/// In a template, `(unquote expr)` gives one element, the value of `expr`, whatever
/// that value is; `(splice-unquote expr)` gives the elements of the value of `expr`,
/// each as an element of its own.
pub proof fn unquote_gives_one_element_and_splice_gives_each(
    depth: nat,
    frames: Seq<Scope>,
    at: nat,
    template: Seq<Value>,
    i: nat,
    built: Seq<Value>,
)
    requires
        i < template.len(),
        template[i as int] is List,
        eval_unquote_spec(depth, frames, at, template[i as int]->List_0).result is Ok,
    ensures
        ({
            let inner = template[i as int]->List_0;
            let one = eval_unquote_spec(depth, frames, at, inner);
            let v = one.result->Ok_0;
            let out = quasi_items_spec(depth, frames, at, template, i, built);
            &&& headed_by(inner, "unquote"@) ==> out == quasi_items_spec(
                depth,
                one.frames,
                at,
                template,
                i + 1,
                built.push(v),
            )
            &&& headed_by(inner, "splice-unquote"@) && v is List ==> out == quasi_items_spec(
                depth,
                one.frames,
                at,
                template,
                i + 1,
                built + v->List_0,
            )
            &&& headed_by(inner, "splice-unquote"@) && !(v is List) ==> out == failed(
                Failure::InvalidType("List"@, v),
                one.frames,
            )
        }),
{
    reveal_strlit("unquote");
    reveal_strlit("splice-unquote");
    let inner = template[i as int]->List_0;
    if headed_by(inner, "splice-unquote"@) {
        assert("unquote"@.len() != "splice-unquote"@.len());
        assert(!headed_by(inner, "unquote"@));
    }
}

// ---------------------------------------------------------------------------------------
// Depth
// ---------------------------------------------------------------------------------------

/// Whether an evaluation was cut short for want of depth.
pub open spec fn cut_short(result: Result<Value, Failure>) -> bool {
    result == Err::<Value, Failure>(Failure::DepthExceeded)
}

/// The depth given to an evaluation only decides whether it is cut short. An evaluation
/// that is not cut short at one depth yields the same value or failure, and leaves the
/// same frames, at every greater depth.
pub proof fn depth_only_cuts_short(
    shallow: nat,
    deep: nat,
    frames: Seq<Scope>,
    at: nat,
    expr: Value,
)
    requires
        shallow <= deep,
        !cut_short(eval_spec(shallow, frames, at, expr).result),
    ensures
        eval_spec(deep, frames, at, expr) == eval_spec(shallow, frames, at, expr),
    decreases deep - shallow,
{
    if shallow < deep {
        depth_only_cuts_short(shallow, (deep - 1) as nat, frames, at, expr);
        lemma_eval_deeper((deep - 1) as nat, frames, at, expr);
    }
}

proof fn lemma_eval_deeper(depth: nat, frames: Seq<Scope>, at: nat, expr: Value)
    ensures
        !cut_short(eval_spec(depth, frames, at, expr).result) ==> eval_spec(
            depth + 1,
            frames,
            at,
            expr,
        ) == eval_spec(depth, frames, at, expr),
    decreases depth, 0nat, 0nat,
{
    if depth > 0 {
        let inner = (depth - 1) as nat;
        lemma_macroexpand_deeper(inner, frames, at, expr);
        let expanded = macroexpand_spec(inner, frames, at, expr);
        if !cut_short(expanded.result) {
            assert(macroexpand_spec(depth, frames, at, expr) == expanded);
            match expanded.result {
                Err(_) => {},
                Ok(Value::List(items)) => {
                    if items.len() > 0 {
                        lemma_define_deeper(inner, expanded.frames, at, items);
                        lemma_letstar_deeper(inner, expanded.frames, at, items);
                        lemma_do_deeper(inner, expanded.frames, at, items, 1, Value::Nil);
                        lemma_if_deeper(inner, expanded.frames, at, items);
                        lemma_quasiquote_deeper(inner, expanded.frames, at, items);
                        lemma_apply_deeper(inner, expanded.frames, at, items);
                    }
                },
                Ok(form) => {
                    lemma_ast_deeper(inner, expanded.frames, at, form);
                },
            }
        }
    }
}

proof fn lemma_macroexpand_deeper(depth: nat, frames: Seq<Scope>, at: nat, expr: Value)
    ensures
        !cut_short(macroexpand_spec(depth, frames, at, expr).result) ==> macroexpand_spec(
            depth + 1,
            frames,
            at,
            expr,
        ) == macroexpand_spec(depth, frames, at, expr),
    decreases depth, 1nat, 0nat,
{
    match expr {
        Value::List(items) => {
            if items.len() > 0 {
                match items[0] {
                    Value::Symbol(name) => match lookup(frames, at, name) {
                        Some(Value::Macro { params, body, env }) => match bind(
                            params,
                            items.skip(1),
                        ) {
                            Err(_) => {},
                            Ok(pairs) => {
                                let child = frames.len();
                                let called = call_frames(frames, env, pairs);
                                lemma_eval_deeper(depth, called, child, *body);
                                let produced = eval_spec(depth, called, child, *body);
                                match produced.result {
                                    Err(_) => {},
                                    Ok(form) => {
                                        if depth > 0 {
                                            lemma_macroexpand_deeper(
                                                (depth - 1) as nat,
                                                produced.frames,
                                                child,
                                                form,
                                            );
                                        }
                                    },
                                }
                            },
                        },
                        _ => {},
                    },
                    _ => {},
                }
            }
        },
        _ => {},
    }
}

proof fn lemma_items_deeper(
    depth: nat,
    frames: Seq<Scope>,
    at: nat,
    items: Seq<Value>,
    i: nat,
    values: Seq<Value>,
)
    ensures
        eval_items_spec(depth, frames, at, items, i, values).result != Err::<Seq<Value>, Failure>(
            Failure::DepthExceeded,
        ) ==> eval_items_spec(depth + 1, frames, at, items, i, values) == eval_items_spec(
            depth,
            frames,
            at,
            items,
            i,
            values,
        ),
    decreases depth, 1nat, items.len() - i,
{
    if i < items.len() {
        lemma_eval_deeper(depth, frames, at, items[i as int]);
        let one = eval_spec(depth, frames, at, items[i as int]);
        match one.result {
            Err(_) => {},
            Ok(v) => {
                lemma_items_deeper(depth, one.frames, at, items, i + 1, values.push(v));
            },
        }
    }
}

proof fn lemma_ast_deeper(depth: nat, frames: Seq<Scope>, at: nat, form: Value)
    ensures
        !cut_short(eval_ast_spec(depth, frames, at, form).result) ==> eval_ast_spec(
            depth + 1,
            frames,
            at,
            form,
        ) == eval_ast_spec(depth, frames, at, form),
    decreases depth, 2nat, 0nat,
{
    match form {
        Value::List(items) => {
            lemma_items_deeper(depth, frames, at, items, 0, Seq::empty());
        },
        _ => {},
    }
}

proof fn lemma_apply_deeper(depth: nat, frames: Seq<Scope>, at: nat, items: Seq<Value>)
    ensures
        !cut_short(eval_apply_spec(depth, frames, at, items).result) ==> eval_apply_spec(
            depth + 1,
            frames,
            at,
            items,
        ) == eval_apply_spec(depth, frames, at, items),
    decreases depth, 3nat, 0nat,
{
    lemma_items_deeper(depth, frames, at, items, 0, Seq::empty());
    let evaluated = eval_items_spec(depth, frames, at, items, 0, Seq::empty());
    match evaluated.result {
        Err(_) => {},
        Ok(values) => match values[0] {
            Value::Closure { params, body, env } => match bind(params, values.skip(1)) {
                Err(_) => {},
                Ok(pairs) => {
                    lemma_eval_deeper(
                        depth,
                        call_frames(evaluated.frames, env, pairs),
                        evaluated.frames.len(),
                        *body,
                    );
                },
            },
            _ => {},
        },
    }
}

proof fn lemma_define_deeper(depth: nat, frames: Seq<Scope>, at: nat, items: Seq<Value>)
    ensures
        !cut_short(eval_define_spec(depth, frames, at, items).result) ==> eval_define_spec(
            depth + 1,
            frames,
            at,
            items,
        ) == eval_define_spec(depth, frames, at, items),
    decreases depth, 1nat, 0nat,
{
    if items.len() == 3 {
        lemma_eval_deeper(depth, frames, at, items[2]);
    }
}

proof fn lemma_letstar_deeper(depth: nat, frames: Seq<Scope>, at: nat, items: Seq<Value>)
    ensures
        !cut_short(eval_letstar_spec(depth, frames, at, items).result) ==> eval_letstar_spec(
            depth + 1,
            frames,
            at,
            items,
        ) == eval_letstar_spec(depth, frames, at, items),
    decreases depth, 2nat, 0nat,
{
    if items.len() == 3 {
        match items[1] {
            Value::List(bindings) => {
                lemma_let_body_deeper(
                    depth,
                    call_frames(frames, at, Seq::empty()),
                    frames.len(),
                    bindings,
                    0,
                    items[2],
                );
            },
            _ => {},
        }
    }
}

proof fn lemma_let_body_deeper(
    depth: nat,
    frames: Seq<Scope>,
    child: nat,
    bindings: Seq<Value>,
    i: nat,
    body: Value,
)
    ensures
        !cut_short(let_body_spec(depth, frames, child, bindings, i, body).result)
            ==> let_body_spec(depth + 1, frames, child, bindings, i, body) == let_body_spec(
            depth,
            frames,
            child,
            bindings,
            i,
            body,
        ),
    decreases depth, 1nat, bindings.len() - i,
{
    if i + 1 >= bindings.len() {
        lemma_eval_deeper(depth, frames, child, body);
    } else {
        match bindings[i as int] {
            Value::Symbol(name) => {
                lemma_eval_deeper(depth, frames, child, bindings[i as int + 1]);
                let value = eval_spec(depth, frames, child, bindings[i as int + 1]);
                match value.result {
                    Err(_) => {},
                    Ok(v) => {
                        lemma_let_body_deeper(
                            depth,
                            define(value.frames, child, name, v),
                            child,
                            bindings,
                            i + 2,
                            body,
                        );
                    },
                }
            },
            _ => {},
        }
    }
}

proof fn lemma_do_deeper(
    depth: nat,
    frames: Seq<Scope>,
    at: nat,
    items: Seq<Value>,
    i: nat,
    last: Value,
)
    ensures
        !cut_short(eval_do_spec(depth, frames, at, items, i, last).result) ==> eval_do_spec(
            depth + 1,
            frames,
            at,
            items,
            i,
            last,
        ) == eval_do_spec(depth, frames, at, items, i, last),
    decreases depth, 1nat, items.len() - i,
{
    if i < items.len() {
        lemma_eval_deeper(depth, frames, at, items[i as int]);
        let one = eval_spec(depth, frames, at, items[i as int]);
        match one.result {
            Err(_) => {},
            Ok(v) => {
                lemma_do_deeper(depth, one.frames, at, items, i + 1, v);
            },
        }
    }
}

proof fn lemma_if_deeper(depth: nat, frames: Seq<Scope>, at: nat, items: Seq<Value>)
    ensures
        !cut_short(eval_if_spec(depth, frames, at, items).result) ==> eval_if_spec(
            depth + 1,
            frames,
            at,
            items,
        ) == eval_if_spec(depth, frames, at, items),
    decreases depth, 1nat, 0nat,
{
    if 3 <= items.len() <= 4 {
        lemma_eval_deeper(depth, frames, at, items[1]);
        let cond = eval_spec(depth, frames, at, items[1]);
        lemma_eval_deeper(depth, cond.frames, at, items[2]);
        if items.len() == 4 {
            lemma_eval_deeper(depth, cond.frames, at, items[3]);
        }
    }
}

proof fn lemma_unquote_deeper(depth: nat, frames: Seq<Scope>, at: nat, items: Seq<Value>)
    ensures
        !cut_short(eval_unquote_spec(depth, frames, at, items).result) ==> eval_unquote_spec(
            depth + 1,
            frames,
            at,
            items,
        ) == eval_unquote_spec(depth, frames, at, items),
    decreases depth, 1nat, 0nat,
{
    if items.len() == 2 {
        lemma_eval_deeper(depth, frames, at, items[1]);
    }
}

proof fn lemma_quasiquote_deeper(depth: nat, frames: Seq<Scope>, at: nat, items: Seq<Value>)
    ensures
        !cut_short(eval_quasiquote_spec(depth, frames, at, items).result)
            ==> eval_quasiquote_spec(depth + 1, frames, at, items) == eval_quasiquote_spec(
            depth,
            frames,
            at,
            items,
        ),
    decreases depth, 3nat, 0nat,
{
    if items.len() == 2 {
        match items[1] {
            Value::List(template) => {
                lemma_unquote_deeper(depth, frames, at, template);
                lemma_quasi_items_deeper(depth, frames, at, template, 0, Seq::empty());
            },
            _ => {},
        }
    }
}

proof fn lemma_quasi_items_deeper(
    depth: nat,
    frames: Seq<Scope>,
    at: nat,
    template: Seq<Value>,
    i: nat,
    built: Seq<Value>,
)
    ensures
        !cut_short(quasi_items_spec(depth, frames, at, template, i, built).result)
            ==> quasi_items_spec(depth + 1, frames, at, template, i, built) == quasi_items_spec(
            depth,
            frames,
            at,
            template,
            i,
            built,
        ),
    decreases depth, 2nat, template.len() - i,
{
    if i < template.len() {
        match template[i as int] {
            Value::List(inner) => {
                if headed_by(inner, "unquote"@) {
                    lemma_unquote_deeper(depth, frames, at, inner);
                    let one = eval_unquote_spec(depth, frames, at, inner);
                    match one.result {
                        Err(_) => {},
                        Ok(v) => {
                            lemma_quasi_items_deeper(
                                depth,
                                one.frames,
                                at,
                                template,
                                i + 1,
                                built.push(v),
                            );
                        },
                    }
                } else if headed_by(inner, "splice-unquote"@) {
                    lemma_unquote_deeper(depth, frames, at, inner);
                    let one = eval_unquote_spec(depth, frames, at, inner);
                    match one.result {
                        Ok(Value::List(spliced)) => {
                            lemma_quasi_items_deeper(
                                depth,
                                one.frames,
                                at,
                                template,
                                i + 1,
                                built + spliced,
                            );
                        },
                        _ => {},
                    }
                } else {
                    lemma_quasi_items_deeper(
                        depth,
                        frames,
                        at,
                        template,
                        i + 1,
                        built.push(template[i as int]),
                    );
                }
            },
            other => {
                lemma_quasi_items_deeper(depth, frames, at, template, i + 1, built.push(other));
            },
        }
    }
}

} // verus!
