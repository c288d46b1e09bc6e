//! The native functions and the environment that holds them.

use crate::eval::{result_of, EvalError};
use crate::menv::{define, MalEnv, Scope, Scopes};
use crate::semantics::{first_non_integer, native_spec, total, wrap64, Failure};
use crate::types::{values_of, Function, MalType, NativeFn, Value};
use vstd::prelude::*;

verus! {

/// Runs a native operation in frame `at` of `menv`, in which its arguments have been
/// bound to its parameters.
pub fn call_native(op: NativeFn, menv: &MalEnv, at: usize) -> (result: Result<MalType, EvalError>)
    requires
        menv.wf(),
    ensures
        result_of(result) == native_spec(op, menv@.frames, at as nat),
{
    match op {
        NativeFn::Add => match menv.peek(at, "args") {
            None => Err(EvalError::UndefinedSymbol("args".to_owned())),
            Some(MalType::List(items)) => sum(items),
            Some(other) => Err(EvalError::InvalidType("List", other.clone())),
        },
        NativeFn::Sub => match menv.peek(at, "arg1") {
            None => Err(EvalError::UndefinedSymbol("arg1".to_owned())),
            Some(first) => match menv.peek(at, "arg2") {
                None => Err(EvalError::UndefinedSymbol("arg2".to_owned())),
                Some(second) => match (first, second) {
                    (MalType::Integer(a), MalType::Integer(b)) => {
                        proof {
                            lemma_wrapping(*a as int, -(*b as int));
                        }
                        Ok(MalType::Integer(a.wrapping_sub(*b)))
                    },
                    (MalType::Integer(_), _) => Err(EvalError::InvalidType("Integer", second.clone())),
                    _ => Err(EvalError::InvalidType("Integer", first.clone())),
                },
            },
        },
        NativeFn::Lte => match menv.peek(at, "arg1") {
            None => Err(EvalError::UndefinedSymbol("arg1".to_owned())),
            Some(first) => match menv.peek(at, "arg2") {
                None => Err(EvalError::UndefinedSymbol("arg2".to_owned())),
                Some(second) => match (first, second) {
                    (MalType::Integer(a), MalType::Integer(b)) => Ok(MalType::Bool(*a <= *b)),
                    (MalType::Integer(_), _) => Err(EvalError::InvalidType("Integer", second.clone())),
                    _ => Err(EvalError::InvalidType("Integer", first.clone())),
                },
            },
        },
        NativeFn::List => match menv.peek(at, "args") {
            None => Err(EvalError::UndefinedSymbol("args".to_owned())),
            Some(args) => Ok(args.clone()),
        },
        NativeFn::Throw => match menv.peek(at, "err") {
            None => Err(EvalError::UndefinedSymbol("err".to_owned())),
            Some(MalType::String(message)) => Err(EvalError::Throw(message.clone())),
            Some(other) => Err(EvalError::InvalidType("String", other.clone())),
        },
    }
}

/// Adding within 64 bits and wrapping is wrapping the sum.
proof fn lemma_wrapping(a: int, b: int)
    requires
        i64::MIN <= a <= i64::MAX,
        -i64::MAX - 1 <= b <= i64::MAX + 1,
    ensures
        i64::MIN <= wrap64(a + b) <= i64::MAX,
        a + b > i64::MAX ==> wrap64(a + b) == a + b - 0x1_0000_0000_0000_0000,
        a + b < i64::MIN ==> wrap64(a + b) == a + b + 0x1_0000_0000_0000_0000,
        i64::MIN <= a + b <= i64::MAX ==> wrap64(a + b) == a + b,
{
}

/// Wrapping is not changed by wrapping a summand first.
proof fn lemma_wrap_sum(a: int, b: int)
    ensures
        wrap64(wrap64(a) + b) == wrap64(a + b),
{
}

/// The sum of a list of integers, wrapped to 64 bits; the first element that is no
/// integer is an error.
fn sum(items: &Vec<MalType>) -> (result: Result<MalType, EvalError>)
    ensures
        result_of(result) == match first_non_integer(values_of(*items), 0) {
            Some(other) => Err::<Value, Failure>(Failure::InvalidType("Integer"@, other)),
            None => Ok(Value::Integer(wrap64(total(values_of(*items))))),
        },
{
    let ghost vs = values_of(*items);
    let mut acc: i64 = 0;
    let mut i: usize = 0;
    assert(vs.take(0) =~= Seq::empty());
    while i < items.len()
        invariant
            vs == values_of(*items),
            i <= items.len(),
            first_non_integer(vs, i as nat) == first_non_integer(vs, 0),
            acc == wrap64(total(vs.take(i as int))),
        decreases items.len() - i,
    {
        match &items[i] {
            MalType::Integer(x) => {
                proof {
                    assert(vs.take(i + 1).drop_last() =~= vs.take(i as int));
                    lemma_wrapping(acc as int, *x as int);
                    lemma_wrap_sum(total(vs.take(i as int)), *x as int);
                }
                acc = acc.wrapping_add(*x);
            },
            other => {
                return Err(EvalError::InvalidType("Integer", other.clone()));
            },
        }
        i += 1;
    }
    assert(vs.take(i as int) =~= vs);
    Ok(MalType::Integer(acc))
}

/// The parameter list of a native function: one symbol for each name.
fn symbols(names: Vec<&str>) -> (params: Vec<MalType>)
    ensures
        values_of(params) == Seq::new(names@.len(), |i: int| Value::Symbol(names@[i]@)),
{
    let mut params: Vec<MalType> = Vec::new();
    let mut i: usize = 0;
    while i < names.len()
        invariant
            i <= names.len(),
            params.len() == i,
            forall|j: int| 0 <= j < i ==> params[j]@ == Value::Symbol(names@[j]@),
        decreases names.len() - i,
    {
        params.push(MalType::Symbol(names[i].to_owned()));
        i += 1;
    }
    assert(values_of(params) =~= Seq::new(names@.len(), |i: int| Value::Symbol(names@[i]@)));
    params
}

/// The model of a native function with the given parameter names.
pub open spec fn native(names: Seq<Seq<char>>, op: NativeFn) -> Value {
    Value::Native { params: Seq::new(names.len(), |i: int| Value::Symbol(names[i])), op }
}

/// The frames of the standard environment: a single root frame that binds the native
/// functions `add`, `sub`, `lte`, `list` and `throw`.
pub open spec fn standard_frames() -> Seq<Scope> {
    seq![
        Scope {
            parent: None,
            vars: Map::empty().insert("add"@, native(seq!["args..."@], NativeFn::Add)).insert(
                "sub"@,
                native(seq!["arg1"@, "arg2"@], NativeFn::Sub),
            ).insert("lte"@, native(seq!["arg1"@, "arg2"@], NativeFn::Lte)).insert(
                "list"@,
                native(seq!["args..."@], NativeFn::List),
            ).insert("throw"@, native(seq!["err"@], NativeFn::Throw)),
        },
    ]
}

/// Binds `name` in the frame in focus to the native function with parameters `names`
/// and operation `op`.
fn builtin(menv: &mut MalEnv, name: &str, names: Vec<&str>, op: NativeFn)
    requires
        old(menv).wf(),
    ensures
        final(menv).wf(),
        final(menv)@ == (Scopes {
            frames: define(
                old(menv)@.frames,
                old(menv)@.current,
                name@,
                native(Seq::new(names@.len(), |i: int| names@[i]@), op),
            ),
            current: old(menv)@.current,
        }),
{
    let params = symbols(names);
    assert(values_of(params) =~= Seq::new(
        names@.len(),
        |i: int| Value::Symbol(Seq::new(names@.len(), |i: int| names@[i]@)[i]),
    ));
    menv.set(name, MalType::Function(Function::Native { params, body: op }));
}

/// A new environment with the native functions in its root frame.
pub fn stdenv() -> (menv: MalEnv)
    ensures
        menv.wf(),
        menv@ == (Scopes { frames: standard_frames(), current: 0 }),
{
    let mut menv = MalEnv::init(None);
    builtin(&mut menv, "add", vec!["args..."], NativeFn::Add);
    builtin(&mut menv, "sub", vec!["arg1", "arg2"], NativeFn::Sub);
    builtin(&mut menv, "lte", vec!["arg1", "arg2"], NativeFn::Lte);
    builtin(&mut menv, "list", vec!["args..."], NativeFn::List);
    builtin(&mut menv, "throw", vec!["err"], NativeFn::Throw);
    proof {
        assert(Seq::new(1, |i: int| ["args..."][i]@) =~= seq!["args..."@]);
        assert(Seq::new(2, |i: int| ["arg1", "arg2"][i]@) =~= seq!["arg1"@, "arg2"@]);
        assert(Seq::new(1, |i: int| ["err"][i]@) =~= seq!["err"@]);
        assert(menv@.frames =~= standard_frames());
    }
    menv
}

} // verus!
