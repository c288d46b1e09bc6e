//! The values of the language and their mathematical model.
//!
//! Executable values ([`MalType`]) own strings and vectors; contracts speak of their
//! model ([`Value`]), which holds sequences and unbounded integers. The view `v@` of a
//! `MalType` is its `Value`.

use vstd::prelude::*;

verus! {

/// The primitive operations that a native function can stand for.
///
/// A native function is a parameter list together with one of these tags. When it is
/// applied, its arguments are first bound to its parameters in a fresh frame; the
/// operation then reads them back from that frame by name.
#[derive(Clone, Copy, Debug, PartialEq, Eq)]
pub enum NativeFn {
    /// Sum of the integers in the list bound to `args`.
    Add,
    /// Difference of the integers bound to `arg1` and `arg2`.
    Sub,
    /// Whether the integer bound to `arg1` is at most the one bound to `arg2`.
    Lte,
    /// The list bound to `args`, as it is.
    List,
    /// Raises the string bound to `err`.
    Throw,
}

/// The three shapes of function values.
#[derive(Debug, PartialEq)]
#[allow(inconsistent_fields)]
pub enum Function {
    /// A primitive of the host.
    Native { params: Vec<MalType>, body: NativeFn },
    /// A closure: parameters, an unevaluated body, and the index of the frame in which
    /// it was created.
    Closure { params: Vec<MalType>, body: Box<MalType>, env: usize },
    /// Like a closure, but applied to unevaluated argument forms during expansion.
    Macro { params: Vec<MalType>, body: Box<MalType>, env: usize },
}

/// A runtime value.
#[derive(Debug, PartialEq)]
pub enum MalType {
    Nil,
    Bool(bool),
    Symbol(String),
    String(String),
    /// A literal tag, written with a leading colon; the text is kept with its colon.
    Keyword(String),
    Integer(i64),
    List(Vec<MalType>),
    Function(Function),
}

/// Mathematical model of a runtime value.
pub enum Value {
    Nil,
    Bool(bool),
    Symbol(Seq<char>),
    Str(Seq<char>),
    Keyword(Seq<char>),
    Integer(int),
    List(Seq<Value>),
    Native { params: Seq<Value>, op: NativeFn },
    Closure { params: Seq<Value>, body: Box<Value>, env: nat },
    Macro { params: Seq<Value>, body: Box<Value>, env: nat },
}

/// The model of one value.
pub open spec fn value_of(v: MalType) -> Value
    decreases v,
{
    match v {
        MalType::Nil => Value::Nil,
        MalType::Bool(b) => Value::Bool(b),
        MalType::Symbol(s) => Value::Symbol(s@),
        MalType::String(s) => Value::Str(s@),
        MalType::Keyword(s) => Value::Keyword(s@),
        MalType::Integer(i) => Value::Integer(i as int),
        MalType::List(items) => Value::List(values_of(items)),
        MalType::Function(Function::Native { params, body }) => Value::Native {
            params: values_of(params),
            op: body,
        },
        MalType::Function(Function::Closure { params, body, env }) => Value::Closure {
            params: values_of(params),
            body: Box::new(value_of(*body)),
            env: env as nat,
        },
        MalType::Function(Function::Macro { params, body, env }) => Value::Macro {
            params: values_of(params),
            body: Box::new(value_of(*body)),
            env: env as nat,
        },
    }
}

/// The models of the values of a vector, in order.
pub open spec fn values_of(items: Vec<MalType>) -> Seq<Value>
    decreases items,
{
    Seq::new(
        items.len() as nat,
        |i: int|
            if 0 <= i < items.len() {
                value_of(items[i])
            } else {
                Value::Nil
            },
    )
}

impl View for MalType {
    type V = Value;

    open spec fn view(&self) -> Value {
        value_of(*self)
    }
}

/// A deep copy of a vector of values.
pub fn clone_items(items: &Vec<MalType>) -> (copy: Vec<MalType>)
    ensures
        values_of(copy) == values_of(*items),
    decreases *items, 1int,
{
    let mut copy: Vec<MalType> = Vec::new();
    let mut i: usize = 0;
    while i < items.len()
        invariant
            i <= items.len(),
            copy.len() == i,
            forall|j: int| 0 <= j < i ==> copy[j]@ == items[j]@,
        decreases items.len() - i,
    {
        copy.push(items[i].clone());
        i += 1;
    }
    assert(values_of(copy) =~= values_of(*items));
    copy
}

impl Clone for MalType {
    /// A deep copy: the copy has the same model as the value and shares nothing with it.
    fn clone(&self) -> (copy: Self)
        ensures
            copy@ == self@,
        decreases *self, 0int,
    {
        match self {
            MalType::Nil => MalType::Nil,
            MalType::Bool(b) => MalType::Bool(*b),
            MalType::Symbol(s) => MalType::Symbol(s.clone()),
            MalType::String(s) => MalType::String(s.clone()),
            MalType::Keyword(s) => MalType::Keyword(s.clone()),
            MalType::Integer(i) => MalType::Integer(*i),
            MalType::List(items) => MalType::List(clone_items(items)),
            MalType::Function(Function::Native { params, body }) => MalType::Function(
                Function::Native { params: clone_items(params), body: *body },
            ),
            MalType::Function(Function::Closure { params, body, env }) => MalType::Function(
                Function::Closure {
                    params: clone_items(params),
                    body: Box::new((**body).clone()),
                    env: *env,
                },
            ),
            MalType::Function(Function::Macro { params, body, env }) => MalType::Function(
                Function::Macro {
                    params: clone_items(params),
                    body: Box::new((**body).clone()),
                    env: *env,
                },
            ),
        }
    }
}

} // verus!
