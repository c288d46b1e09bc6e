use mal::builtins::stdenv;
use mal::eval::{eval, eval_with_depth, EvalError, MAX_DEPTH};
use mal::menv::MalEnv;
use mal::reader::read_str;
use mal::types::{Function, MalType, NativeFn};

fn run(env: &mut MalEnv, text: &str) -> Result<MalType, EvalError> {
    let form = read_str(text).expect("the text is a form");
    eval(form, env)
}

fn value(text: &str) -> Result<MalType, EvalError> {
    let mut env = stdenv();
    run(&mut env, text)
}

fn num(n: i64) -> MalType {
    MalType::Integer(n)
}

fn sym(name: &str) -> MalType {
    MalType::Symbol(name.to_string())
}

fn ints(ns: &[i64]) -> MalType {
    MalType::List(ns.iter().map(|n| MalType::Integer(*n)).collect())
}

#[test]
fn closure_of_two_parameters_takes_exactly_two_arguments() {
    assert_eq!(value("((fn* (a b) a) 1)"), Err(EvalError::LengthMismatch));
    assert_eq!(value("((fn* (a b) a) 1 2 3)"), Err(EvalError::LengthMismatch));
    assert_eq!(value("((fn* (a b) a) 1 2)"), Ok(num(1)));
}

#[test]
fn closure_without_parameters_takes_no_argument() {
    assert_eq!(value("((fn* () 7))"), Ok(num(7)));
    assert_eq!(value("((fn* () 7) 1)"), Err(EvalError::LengthMismatch));
}

#[test]
fn rest_parameter_takes_the_remaining_arguments_as_a_list() {
    assert_eq!(value("((fn* (a b...) b) 1 2 3 4)"), Ok(ints(&[2, 3, 4])));
    assert_eq!(value("((fn* (a b...) a) 1 2 3 4)"), Ok(num(1)));
}

#[test]
fn rest_parameter_may_take_nothing() {
    assert_eq!(value("((fn* (a b...) b) 1)"), Ok(ints(&[])));
    assert_eq!(value("((fn* (all...) all))"), Ok(ints(&[])));
}

#[test]
fn plain_parameter_before_a_rest_parameter_needs_its_argument() {
    assert_eq!(value("((fn* (a b...) b))"), Err(EvalError::LengthMismatch));
}

#[test]
fn rest_parameter_must_come_last() {
    assert_eq!(value("((fn* (a... b) b) 1 2)"), Err(EvalError::LengthMismatch));
}

#[test]
fn later_parameter_of_the_same_name_wins() {
    assert_eq!(value("((fn* (a a) a) 1 2)"), Ok(num(2)));
}

#[test]
fn closure_sees_the_frame_it_was_made_in() {
    let mut env = stdenv();
    assert!(run(&mut env, "(define f (let* (x 1) (define f (fn* () x))))").is_ok());
    assert_eq!(run(&mut env, "(let* (x 2) (f))"), Ok(num(1)));
    assert_eq!(run(&mut env, "(define x 3)"), Ok(num(3)));
    assert_eq!(run(&mut env, "(f)"), Ok(num(1)));
}

#[test]
fn closure_does_not_see_the_frame_of_its_caller() {
    let mut env = stdenv();
    assert!(run(&mut env, "(define g (fn* () y))").is_ok());
    assert_eq!(
        run(&mut env, "(let* (y 5) (g))"),
        Err(EvalError::UndefinedSymbol("y".to_string()))
    );
}

#[test]
fn closure_sees_later_definitions_in_its_frame() {
    let mut env = stdenv();
    assert!(run(&mut env, "(define h (fn* () z))").is_ok());
    assert_eq!(run(&mut env, "(define z 9)"), Ok(num(9)));
    assert_eq!(run(&mut env, "(h)"), Ok(num(9)));
}

#[test]
fn closure_records_the_frame_it_was_made_in() {
    let mut env = stdenv();
    let made = run(&mut env, "(fn* (a) a)");
    assert_eq!(
        made,
        Ok(MalType::Function(Function::Closure {
            params: vec![sym("a")],
            body: Box::new(sym("a")),
            env: 0,
        }))
    );
    let inner = run(&mut env, "(let* (x 1) (fn* () x))");
    match inner {
        Ok(MalType::Function(Function::Closure { env: home, .. })) => assert!(home > 0),
        other => panic!("not a closure: {:?}", other),
    }
}

#[test]
fn let_bindings_see_the_ones_before() {
    assert_eq!(value("(let* (x 1 y (add x 1)) y)"), Ok(num(2)));
}

#[test]
fn let_does_not_bind_outside() {
    let mut env = stdenv();
    assert_eq!(run(&mut env, "(let* (x 1) x)"), Ok(num(1)));
    assert_eq!(run(&mut env, "x"), Err(EvalError::UndefinedSymbol("x".to_string())));
}

#[test]
fn let_shadows_and_leaves_the_outer_binding() {
    let mut env = stdenv();
    assert_eq!(run(&mut env, "(define x 1)"), Ok(num(1)));
    assert_eq!(run(&mut env, "(let* (x 2) x)"), Ok(num(2)));
    assert_eq!(run(&mut env, "x"), Ok(num(1)));
}

#[test]
fn define_inside_let_stays_inside() {
    let mut env = stdenv();
    assert_eq!(run(&mut env, "(let* (x 1) (define y 2))"), Ok(num(2)));
    assert_eq!(run(&mut env, "y"), Err(EvalError::UndefinedSymbol("y".to_string())));
}

#[test]
fn let_rejects_what_is_no_binding_list() {
    assert_eq!(value("(let* 1 2)"), Err(EvalError::InvalidType("List", num(1))));
    assert_eq!(
        value("(let* (x) x)"),
        Err(EvalError::InvalidType("Associative array", MalType::List(vec![sym("x")])))
    );
    assert_eq!(value("(let* (1 2) 3)"), Err(EvalError::InvalidType("Symbol", num(1))));
    assert_eq!(value("(let* (x 1))"), Err(EvalError::LengthMismatch));
    assert_eq!(value("(let* (x 1) x x)"), Err(EvalError::LengthMismatch));
}

#[test]
fn let_with_no_bindings_evaluates_its_body() {
    assert_eq!(value("(let* () 4)"), Ok(num(4)));
}

#[test]
fn quasiquote_evaluates_what_is_unquoted() {
    assert_eq!(value("(quasiquote (1 (unquote (add 1 1)) 3))"), Ok(ints(&[1, 2, 3])));
}

#[test]
fn quasiquote_splices_a_list_in() {
    assert_eq!(
        value("(quasiquote (1 (splice-unquote (list 2 3)) 4))"),
        Ok(ints(&[1, 2, 3, 4]))
    );
    assert_eq!(value("(quasiquote ((splice-unquote (list))))"), Ok(ints(&[])));
}

#[test]
fn quasiquote_unquote_keeps_a_list_nested() {
    assert_eq!(
        value("(quasiquote (1 (unquote (list 2 3))))"),
        Ok(MalType::List(vec![num(1), ints(&[2, 3])]))
    );
}

#[test]
fn quasiquote_splice_needs_a_list() {
    assert_eq!(
        value("(quasiquote (1 (splice-unquote 2)))"),
        Err(EvalError::InvalidType("List", num(2)))
    );
}

#[test]
fn quasiquote_of_an_unquote_is_its_value() {
    assert_eq!(value("(quasiquote (unquote (add 1 2)))"), Ok(num(3)));
}

#[test]
fn quasiquote_leaves_other_values_as_they_are() {
    assert_eq!(value("(quasiquote a)"), Ok(sym("a")));
    assert_eq!(value("(quasiquote 5)"), Ok(num(5)));
    assert_eq!(
        value("(quasiquote (a (b c) 1))"),
        Ok(MalType::List(vec![sym("a"), MalType::List(vec![sym("b"), sym("c")]), num(1)]))
    );
}

#[test]
fn quasiquote_does_not_descend_into_nested_lists() {
    assert_eq!(
        value("(quasiquote (1 (2 (unquote (add 1 2)))))"),
        Ok(MalType::List(vec![
            num(1),
            MalType::List(vec![
                num(2),
                MalType::List(vec![
                    sym("unquote"),
                    MalType::List(vec![sym("add"), num(1), num(2)]),
                ]),
            ]),
        ]))
    );
}

#[test]
fn quasiquote_checks_the_number_of_elements() {
    assert_eq!(value("(quasiquote)"), Err(EvalError::LengthMismatch));
    assert_eq!(value("(quasiquote 1 2)"), Err(EvalError::LengthMismatch));
    assert_eq!(value("(quasiquote (unquote))"), Err(EvalError::LengthMismatch));
    assert_eq!(value("(quasiquote (1 (unquote 1 2)))"), Err(EvalError::LengthMismatch));
    assert_eq!(value("(quasiquote (1 (splice-unquote)))"), Err(EvalError::LengthMismatch));
}

#[test]
fn macro_takes_its_argument_forms_unevaluated() {
    let mut env = stdenv();
    assert!(run(&mut env, "(define same (macro* (x) x))").is_ok());
    assert_eq!(run(&mut env, "(same (add 1 2))"), Ok(num(3)));
    assert!(run(&mut env, "(define quoted (macro* (x) (list (quote quote) x)))").is_ok());
    assert_eq!(
        run(&mut env, "(quoted (nothing 1 2))"),
        Ok(MalType::List(vec![sym("nothing"), num(1), num(2)]))
    );
}

#[test]
fn macro_result_is_expanded_again() {
    let mut env = stdenv();
    assert!(run(&mut env, "(define quoted (macro* (x) (list (quote quote) x)))").is_ok());
    assert!(run(&mut env, "(define twice (macro* (x) (list (quote quoted) x)))").is_ok());
    assert_eq!(run(&mut env, "(twice (a b))"), Ok(MalType::List(vec![sym("a"), sym("b")])));
}

#[test]
fn macro_checks_its_arguments_against_its_parameters() {
    let mut env = stdenv();
    assert!(run(&mut env, "(define same (macro* (x) x))").is_ok());
    assert_eq!(run(&mut env, "(same)"), Err(EvalError::LengthMismatch));
    assert_eq!(run(&mut env, "(same 1 2)"), Err(EvalError::LengthMismatch));
}

#[test]
fn macro_value_in_head_position_is_no_function() {
    let result = value("((macro* (x) x) 1)");
    match result {
        Err(EvalError::InvalidType("Function", MalType::Function(Function::Macro { .. }))) => {}
        other => panic!("unexpected: {:?}", other),
    }
}

#[test]
fn define_binds_and_returns_the_value() {
    let mut env = stdenv();
    assert_eq!(run(&mut env, "(define x (add 1 2))"), Ok(num(3)));
    assert_eq!(env.get("x"), Some(num(3)));
    assert_eq!(run(&mut env, "x"), Ok(num(3)));
}

#[test]
fn define_again_replaces_the_binding() {
    let mut env = stdenv();
    assert_eq!(run(&mut env, "(define x 1)"), Ok(num(1)));
    assert_eq!(run(&mut env, "(define x 2)"), Ok(num(2)));
    assert_eq!(env.get("x"), Some(num(2)));
}

#[test]
fn define_rejects_what_is_no_symbol() {
    assert_eq!(value("(define 1 2)"), Err(EvalError::InvalidType("Symbol", num(1))));
    assert_eq!(value("(define x)"), Err(EvalError::LengthMismatch));
    assert_eq!(value("(define x 1 2)"), Err(EvalError::LengthMismatch));
}

#[test]
fn define_binds_nothing_when_its_expression_fails() {
    let mut env = stdenv();
    assert_eq!(
        run(&mut env, "(define x nothing)"),
        Err(EvalError::UndefinedSymbol("nothing".to_string()))
    );
    assert_eq!(env.get("x"), None);
}

#[test]
fn applying_what_is_no_function_fails() {
    assert_eq!(value("(1 2 3)"), Err(EvalError::InvalidType("Function", num(1))));
    assert_eq!(
        value("(\"f\" 1)"),
        Err(EvalError::InvalidType("Function", MalType::String("f".to_string())))
    );
}

#[test]
fn application_evaluates_its_elements_left_to_right() {
    assert_eq!(
        value("(add first second)"),
        Err(EvalError::UndefinedSymbol("first".to_string()))
    );
    assert_eq!(value("(nothing 1)"), Err(EvalError::UndefinedSymbol("nothing".to_string())));
}

#[test]
fn literals_evaluate_to_themselves() {
    assert_eq!(value("12"), Ok(num(12)));
    assert_eq!(value("true"), Ok(MalType::Bool(true)));
    assert_eq!(value("nil"), Ok(MalType::Nil));
    assert_eq!(value("\"text\""), Ok(MalType::String("text".to_string())));
    assert_eq!(value(":tag"), Ok(MalType::Keyword(":tag".to_string())));
    assert_eq!(value("()"), Ok(ints(&[])));
}

#[test]
fn unbound_symbol_is_an_error() {
    assert_eq!(value("nothing"), Err(EvalError::UndefinedSymbol("nothing".to_string())));
}

#[test]
fn do_returns_its_last_value() {
    let mut env = stdenv();
    assert_eq!(run(&mut env, "(do (define a 1) (define b 2) (add a b))"), Ok(num(3)));
    assert_eq!(run(&mut env, "(do)"), Ok(MalType::Nil));
    assert_eq!(run(&mut env, "(do (add 1 2))"), Ok(num(3)));
}

#[test]
fn do_stops_at_the_first_failure() {
    let mut env = stdenv();
    assert_eq!(
        run(&mut env, "(do (define a 1) nothing (define b 2))"),
        Err(EvalError::UndefinedSymbol("nothing".to_string()))
    );
    assert_eq!(env.get("a"), Some(num(1)));
    assert_eq!(env.get("b"), None);
}

#[test]
fn if_chooses_a_branch() {
    assert_eq!(value("(if true 1 2)"), Ok(num(1)));
    assert_eq!(value("(if false 1 2)"), Ok(num(2)));
    assert_eq!(value("(if true 1)"), Ok(num(1)));
    assert_eq!(value("(if false 1)"), Ok(MalType::Nil));
    assert_eq!(value("(if (lte 1 2) (add 1 1) nothing)"), Ok(num(2)));
}

#[test]
fn if_needs_a_boolean_and_two_or_three_operands() {
    assert_eq!(value("(if 1 2 3)"), Err(EvalError::InvalidType("Bool", num(1))));
    assert_eq!(value("(if nil 2 3)"), Err(EvalError::InvalidType("Bool", MalType::Nil)));
    assert_eq!(value("(if true)"), Err(EvalError::LengthMismatch));
    assert_eq!(value("(if true 1 2 3)"), Err(EvalError::LengthMismatch));
}

#[test]
fn quote_returns_the_form() {
    assert_eq!(
        value("(quote (add 1 2))"),
        Ok(MalType::List(vec![sym("add"), num(1), num(2)]))
    );
    assert_eq!(value("(quote a)"), Ok(sym("a")));
    assert_eq!(value("(quote)"), Err(EvalError::LengthMismatch));
    assert_eq!(value("(quote a b)"), Err(EvalError::LengthMismatch));
}

#[test]
fn fn_needs_a_list_of_symbols() {
    assert_eq!(value("(fn* 1 2)"), Err(EvalError::InvalidType("List", num(1))));
    assert_eq!(value("(fn* (a 1) a)"), Err(EvalError::InvalidType("Symbol", num(1))));
    assert_eq!(value("(fn* (a))"), Err(EvalError::LengthMismatch));
    assert_eq!(value("(macro* 1 2)"), Err(EvalError::InvalidType("List", num(1))));
    assert_eq!(
        value("(macro* (a (b)) a)"),
        Err(EvalError::InvalidType("Symbol", MalType::List(vec![sym("b")])))
    );
    assert_eq!(value("(macro* (a) a b)"), Err(EvalError::LengthMismatch));
}

#[test]
fn add_sums_its_arguments() {
    assert_eq!(value("(add)"), Ok(num(0)));
    assert_eq!(value("(add 5)"), Ok(num(5)));
    assert_eq!(value("(add 1 2 3 4)"), Ok(num(10)));
    assert_eq!(value("(add 1 true 3)"), Err(EvalError::InvalidType("Integer", MalType::Bool(true))));
}

#[test]
fn add_wraps_around() {
    assert_eq!(value("(add 9223372036854775807 1)"), Ok(num(i64::MIN)));
    assert_eq!(
        value("(add 9223372036854775807 9223372036854775807 2)"),
        Ok(num(0))
    );
}

#[test]
fn sub_subtracts() {
    assert_eq!(value("(sub 5 3)"), Ok(num(2)));
    assert_eq!(value("(sub 3 5)"), Ok(num(-2)));
    assert_eq!(value("(sub (sub 0 9223372036854775807) 2)"), Ok(num(i64::MAX)));
    assert_eq!(value("(sub 1)"), Err(EvalError::LengthMismatch));
    assert_eq!(value("(sub 1 2 3)"), Err(EvalError::LengthMismatch));
}

#[test]
fn sub_names_the_operand_that_is_no_integer() {
    assert_eq!(value("(sub nil 3)"), Err(EvalError::InvalidType("Integer", MalType::Nil)));
    assert_eq!(value("(sub 3 true)"), Err(EvalError::InvalidType("Integer", MalType::Bool(true))));
    assert_eq!(value("(sub nil true)"), Err(EvalError::InvalidType("Integer", MalType::Nil)));
}

#[test]
fn lte_compares() {
    assert_eq!(value("(lte 1 2)"), Ok(MalType::Bool(true)));
    assert_eq!(value("(lte 2 2)"), Ok(MalType::Bool(true)));
    assert_eq!(value("(lte 3 2)"), Ok(MalType::Bool(false)));
    assert_eq!(value("(lte (sub 0 1) 0)"), Ok(MalType::Bool(true)));
    assert_eq!(value("(lte 1 nil)"), Err(EvalError::InvalidType("Integer", MalType::Nil)));
}

#[test]
fn list_returns_its_arguments() {
    assert_eq!(value("(list)"), Ok(ints(&[])));
    assert_eq!(value("(list 1 (add 1 1) 3)"), Ok(ints(&[1, 2, 3])));
}

#[test]
fn throw_raises_its_string() {
    assert_eq!(value("(throw \"bad\")"), Err(EvalError::Throw("bad".to_string())));
    assert_eq!(value("(throw 1)"), Err(EvalError::InvalidType("String", num(1))));
    assert_eq!(
        value("(do (throw \"first\") (throw \"second\"))"),
        Err(EvalError::Throw("first".to_string()))
    );
}

#[test]
fn native_function_reads_its_arguments_from_its_frame() {
    let mut env = MalEnv::init(None);
    env.set(
        "plus",
        MalType::Function(Function::Native { params: vec![sym("args...")], body: NativeFn::Add }),
    );
    env.set(
        "broken",
        MalType::Function(Function::Native { params: vec![sym("numbers...")], body: NativeFn::Add }),
    );
    assert_eq!(run(&mut env, "(plus 1 2)"), Ok(num(3)));
    assert_eq!(
        run(&mut env, "(broken 1 2)"),
        Err(EvalError::UndefinedSymbol("args".to_string()))
    );
}

#[test]
fn recursion_works() {
    let mut env = stdenv();
    let text = "(define sum-to (fn* (n) (if (lte n 0) 0 (add n (sum-to (sub n 1))))))";
    assert!(run(&mut env, text).is_ok());
    assert_eq!(run(&mut env, "(sum-to 10)"), Ok(num(55)));
    assert_eq!(run(&mut env, "(sum-to 50)"), Ok(num(1275)));
}

#[test]
fn endless_recursion_ends_with_an_error() {
    let mut env = stdenv();
    assert!(run(&mut env, "(define f (fn* () (f)))").is_ok());
    assert_eq!(run(&mut env, "(f)"), Err(EvalError::DepthExceeded));
    assert_eq!(run(&mut env, "(add 1 2)"), Ok(num(3)));
}

#[test]
fn endless_expansion_ends_with_an_error() {
    let mut env = stdenv();
    assert!(run(&mut env, "(define m (macro* () (quote (m))))").is_ok());
    assert_eq!(run(&mut env, "(m)"), Err(EvalError::DepthExceeded));
}

#[test]
fn depth_counts_nested_evaluations() {
    let mut env = stdenv();
    let one = read_str("1").unwrap();
    assert_eq!(eval_with_depth(one.clone(), &mut env, 0), Err(EvalError::DepthExceeded));
    assert_eq!(eval_with_depth(one, &mut env, 1), Ok(num(1)));
    let sum = read_str("(add 1 2)").unwrap();
    assert_eq!(eval_with_depth(sum.clone(), &mut env, 1), Err(EvalError::DepthExceeded));
    assert_eq!(eval_with_depth(sum, &mut env, 2), Ok(num(3)));
    let nested = read_str("(add 1 (add 2 3))").unwrap();
    assert_eq!(eval_with_depth(nested.clone(), &mut env, 2), Err(EvalError::DepthExceeded));
    assert_eq!(eval_with_depth(nested, &mut env, 3), Ok(num(6)));
    assert!(MAX_DEPTH >= 3);
}

#[test]
fn failure_keeps_the_environment() {
    let mut env = stdenv();
    assert_eq!(run(&mut env, "(define x 1)"), Ok(num(1)));
    assert_eq!(run(&mut env, "(1 2)"), Err(EvalError::InvalidType("Function", num(1))));
    assert_eq!(run(&mut env, "(throw \"stop\")"), Err(EvalError::Throw("stop".to_string())));
    assert_eq!(run(&mut env, "x"), Ok(num(1)));
}

#[test]
fn special_form_names_can_be_redefined_only_as_macros() {
    let mut env = stdenv();
    assert_eq!(run(&mut env, "(define if 1)"), Ok(num(1)));
    assert_eq!(run(&mut env, "(if true 2 3)"), Ok(num(2)));
}

#[test]
fn evaluation_in_a_frame_that_does_not_exist_resolves_nothing() {
    let mut env = stdenv();
    let form = read_str("(add 1 2)").unwrap();
    assert_eq!(
        mal::eval::eval_in(form, &mut env, 9, 8),
        Err(EvalError::UndefinedSymbol("add".to_string()))
    );
    assert_eq!(mal::eval::eval_in(num(4), &mut env, 9, 8), Ok(num(4)));
}

#[test]
fn evaluation_in_a_given_frame_binds_there() {
    let mut env = stdenv();
    let child = env.child_of(0);
    let form = read_str("(define x (add 1 2))").unwrap();
    assert_eq!(mal::eval::eval_in(form, &mut env, child, 8), Ok(num(3)));
    assert_eq!(env.get_from(child, "x"), Some(num(3)));
    assert_eq!(env.get("x"), None);
}
