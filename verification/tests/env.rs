use mal::builtins::stdenv;
use mal::eval::{bind_params, init_function_menv, EvalError};
use mal::menv::MalEnv;
use mal::types::{clone_items, Function, MalType, NativeFn};

fn num(n: i64) -> MalType {
    MalType::Integer(n)
}

fn sym(name: &str) -> MalType {
    MalType::Symbol(name.to_string())
}

#[test]
fn new_environment_binds_nothing() {
    let env = MalEnv::init(None);
    assert_eq!(env.get("x"), None);
    assert_eq!(env.size(), 1);
    assert_eq!(env.current(), 0);
}

#[test]
fn set_then_get_gives_the_value_back() {
    let mut env = MalEnv::init(None);
    env.set("x", num(1));
    assert_eq!(env.get("x"), Some(num(1)));
    assert_eq!(env.get("y"), None);
    env.set("y", num(2));
    assert_eq!(env.get("x"), Some(num(1)));
    assert_eq!(env.get("y"), Some(num(2)));
}

#[test]
fn set_again_replaces() {
    let mut env = MalEnv::init(None);
    env.set("x", num(1));
    env.set("x", num(2));
    assert_eq!(env.get("x"), Some(num(2)));
}

#[test]
fn child_reads_through_to_its_parent() {
    let mut root = MalEnv::init(None);
    root.set("x", num(1));
    let mut child = MalEnv::init(Some(root));
    assert_eq!(child.size(), 2);
    assert_eq!(child.current(), 1);
    assert_eq!(child.get("x"), Some(num(1)));
    child.set("y", num(2));
    assert_eq!(child.get("y"), Some(num(2)));
    assert_eq!(child.get_from(0, "y"), None);
}

#[test]
fn child_shadows_and_never_changes_its_parent() {
    let mut root = MalEnv::init(None);
    root.set("x", num(1));
    let mut child = MalEnv::init(Some(root));
    child.set("x", num(2));
    assert_eq!(child.get("x"), Some(num(2)));
    assert_eq!(child.get_from(0, "x"), Some(num(1)));
}

#[test]
fn parent_changes_show_in_the_child() {
    let mut env = MalEnv::init(None);
    let child = env.child_of(0);
    assert_eq!(child, 1);
    env.set("late", num(3));
    assert_eq!(env.get_from(child, "late"), Some(num(3)));
}

#[test]
fn siblings_do_not_see_each_other() {
    let mut env = MalEnv::init(None);
    let a = env.child_of(0);
    let b = env.child_of(0);
    env.set_in(a, "x", num(1));
    assert_eq!(env.get_from(a, "x"), Some(num(1)));
    assert_eq!(env.get_from(b, "x"), None);
    assert_eq!(env.get("x"), None);
}

#[test]
fn grandchild_reads_through_the_chain() {
    let mut env = MalEnv::init(None);
    env.set("x", num(1));
    let a = env.child_of(0);
    env.set_in(a, "y", num(2));
    let b = env.child_of(a);
    assert_eq!(env.get_from(b, "x"), Some(num(1)));
    assert_eq!(env.get_from(b, "y"), Some(num(2)));
    assert_eq!(env.peek(b, "y"), Some(&num(2)));
    assert_eq!(env.peek(b, "z"), None);
}

#[test]
fn frame_that_does_not_exist_binds_nothing() {
    let mut env = MalEnv::init(None);
    env.set("x", num(1));
    assert_eq!(env.get_from(7, "x"), None);
    let orphan = env.child_of(7);
    assert_eq!(env.get_from(orphan, "x"), None);
}

#[test]
fn child_with_binds_in_order() {
    let mut env = MalEnv::init(None);
    env.set("x", num(0));
    let child = env.child_with(
        0,
        vec![("a".to_string(), num(1)), ("b".to_string(), num(2)), ("a".to_string(), num(3))],
    );
    assert_eq!(env.get_from(child, "a"), Some(num(3)));
    assert_eq!(env.get_from(child, "b"), Some(num(2)));
    assert_eq!(env.get_from(child, "x"), Some(num(0)));
    assert_eq!(env.get("a"), None);
}

#[test]
fn standard_environment_holds_the_native_functions() {
    let env = stdenv();
    assert_eq!(env.size(), 1);
    assert_eq!(
        env.get("add"),
        Some(MalType::Function(Function::Native {
            params: vec![sym("args...")],
            body: NativeFn::Add,
        }))
    );
    assert_eq!(
        env.get("sub"),
        Some(MalType::Function(Function::Native {
            params: vec![sym("arg1"), sym("arg2")],
            body: NativeFn::Sub,
        }))
    );
    assert_eq!(
        env.get("lte"),
        Some(MalType::Function(Function::Native {
            params: vec![sym("arg1"), sym("arg2")],
            body: NativeFn::Lte,
        }))
    );
    assert_eq!(
        env.get("list"),
        Some(MalType::Function(Function::Native {
            params: vec![sym("args...")],
            body: NativeFn::List,
        }))
    );
    assert_eq!(
        env.get("throw"),
        Some(MalType::Function(Function::Native { params: vec![sym("err")], body: NativeFn::Throw }))
    );
    assert_eq!(env.get("mul"), None);
}

#[test]
fn binding_pairs_parameters_with_arguments() {
    let params = vec![sym("a"), sym("b")];
    assert_eq!(
        bind_params(&params, vec![num(1), num(2)]),
        Ok(vec![("a".to_string(), num(1)), ("b".to_string(), num(2))])
    );
    assert_eq!(bind_params(&params, vec![num(1)]), Err(EvalError::LengthMismatch));
    assert_eq!(bind_params(&params, vec![num(1), num(2), num(3)]), Err(EvalError::LengthMismatch));
    assert_eq!(bind_params(&vec![], vec![]), Ok(vec![]));
    assert_eq!(bind_params(&vec![], vec![num(1)]), Err(EvalError::LengthMismatch));
}

#[test]
fn binding_gives_the_rest_as_a_list() {
    let params = vec![sym("a"), sym("more...")];
    assert_eq!(
        bind_params(&params, vec![num(1), num(2), num(3)]),
        Ok(vec![
            ("a".to_string(), num(1)),
            ("more".to_string(), MalType::List(vec![num(2), num(3)])),
        ])
    );
    assert_eq!(
        bind_params(&params, vec![num(1)]),
        Ok(vec![("a".to_string(), num(1)), ("more".to_string(), MalType::List(vec![]))])
    );
    assert_eq!(bind_params(&params, vec![]), Err(EvalError::LengthMismatch));
}

#[test]
fn binding_a_parameter_of_three_dots_binds_the_empty_name() {
    assert_eq!(
        bind_params(&vec![sym("...")], vec![num(1)]),
        Ok(vec![("".to_string(), MalType::List(vec![num(1)]))])
    );
    assert_eq!(bind_params(&vec![sym("..")], vec![num(1)]), Ok(vec![("..".to_string(), num(1))]));
}

#[test]
fn binding_rejects_a_parameter_that_is_no_symbol() {
    assert_eq!(
        bind_params(&vec![sym("a"), num(5)], vec![num(1), num(2)]),
        Err(EvalError::InvalidType("Symbol", num(5)))
    );
    assert_eq!(
        bind_params(&vec![sym("a..."), sym("b")], vec![num(1), num(2)]),
        Err(EvalError::LengthMismatch)
    );
}

#[test]
fn binding_stops_at_the_first_fault() {
    assert_eq!(
        bind_params(&vec![sym("a"), sym("b"), num(5)], vec![num(1)]),
        Err(EvalError::LengthMismatch)
    );
    assert_eq!(
        bind_params(&vec![num(5), sym("b")], vec![]),
        Err(EvalError::InvalidType("Symbol", num(5)))
    );
}

#[test]
fn function_frame_is_a_child_of_the_given_frame() {
    let mut env = MalEnv::init(None);
    env.set("outer", num(9));
    let home = env.child_of(0);
    env.set_in(home, "captured", num(8));
    let params = vec![sym("a")];
    let frame = init_function_menv(&params, vec![num(1)], &mut env, home);
    assert_eq!(frame, Ok(2));
    assert_eq!(env.get_from(2, "a"), Some(num(1)));
    assert_eq!(env.get_from(2, "captured"), Some(num(8)));
    assert_eq!(env.get_from(2, "outer"), Some(num(9)));
    assert_eq!(env.current(), 0);
}

#[test]
fn function_frame_is_not_made_when_binding_fails() {
    let mut env = MalEnv::init(None);
    let params = vec![sym("a")];
    let frame = init_function_menv(&params, vec![], &mut env, 0);
    assert_eq!(frame, Err(EvalError::LengthMismatch));
    assert_eq!(env.size(), 1);
}

#[test]
fn clone_is_a_deep_copy() {
    let value = MalType::List(vec![
        num(1),
        MalType::String("s".to_string()),
        MalType::Function(Function::Closure {
            params: vec![sym("a")],
            body: Box::new(MalType::List(vec![sym("a")])),
            env: 3,
        }),
    ]);
    let copy = value.clone();
    assert_eq!(copy, value);
    let items = vec![num(1), MalType::Nil, MalType::Keyword(":k".to_string())];
    assert_eq!(clone_items(&items), items);
}

#[test]
fn binding_in_a_frame_that_does_not_exist_changes_nothing() {
    let mut env = MalEnv::init(None);
    env.set("x", num(1));
    env.set_in(5, "y", num(2));
    assert_eq!(env.size(), 1);
    assert_eq!(env.get("y"), None);
    assert_eq!(env.get_from(5, "y"), None);
    assert_eq!(env.get("x"), Some(num(1)));
}
