use risp::environment::Environment;
use risp::eval::{
    eval, eval_in, eval_str, eval_test, is_variadic_marker, put_args_into_env, CALL_DEPTH,
};
use risp::primitives::create_core_environment;
use risp::types::RispType::{Bool, Int, List, Mapping, Nil, RispFunction, Symbol, Vector};
use risp::types::{error_result, keyword, string, symbol, RispError, RispFunc};
use std::rc::Rc;

#[test]
fn test_eval_number() {
    assert_eq!(eval_test(Int(23)), Ok(Int(23)));
}

#[test]
fn test_eval_math() {
    assert_eq!(eval_test(List(vec![Symbol("+".to_string()), Int(1), Int(2)])), Ok(Int(3)));
}

#[test]
fn test_nested_math() {
    assert_eq!(eval_test(List(vec![
        Symbol("+".to_string()), Int(1),
        List(vec![Symbol("+".to_string()), Int(10), Int(100)])
    ])), Ok(Int(111)));
}

#[test]
fn test_mul() {
    assert_eq!(eval_test(List(vec![
        Symbol("+".to_string()), Int(1),
        List(vec![Symbol("*".to_string()), Int(10), Int(23)])
    ])), Ok(Int(231)));
}

#[test]
fn eval_test_def() {
    let variable = "variable";
    let variable_value = Int(23);
    let mut env = create_core_environment();

    assert_eq!(eval(List(vec![
        symbol("def"),
        symbol(variable),
        variable_value.clone()
    ]), &mut env), Ok(variable_value.clone()));

    assert_eq!(env.get(variable), Some(variable_value));
}

#[test]
fn test_def_evaluated() {
    let variable = "variable";
    let mut env = create_core_environment();

    assert_eq!(eval(List(vec![
        symbol("def"),
        symbol(variable),
        List(vec![symbol("+"), Int(1), Int(2)])
    ]), &mut env), Ok(Int(3)));

    assert_eq!(env.get(variable), Some(Int(3)));
}

#[test]
fn test_eval_simple_vector() {
    let simple_vector = Vector(vec![Int(1), Int(2)]);
    assert_eq!(eval_test(simple_vector.clone()), Ok(simple_vector));
}

#[test]
fn test_eval_nested_vector() {
    let simple_vector = Vector(vec![Int(1), List(vec![symbol("+"), Int(1), Int(2)])]);
    assert_eq!(eval_test(simple_vector.clone()), Ok(Vector(vec![Int(1), Int(3)])));
}

#[test]
fn test_eval_simple_map() {
    let simple_map = risp::types::map(vec![
        ("key1", Int(1)),
        ("key2", Int(2))
    ]);
    assert_eq!(eval_test(simple_map.clone()), Ok(simple_map));
}

#[test]
fn test_eval_nested_map() {
    let input_map = risp::types::map(vec![
        ("key", List(vec![symbol("+"), Int(1), Int(2)]))
    ]);
    let expected_output_map = risp::types::map(vec![
        ("key", Int(3))
    ]);
    assert_eq!(eval_test(input_map.clone()), Ok(expected_output_map));
}

#[test]
fn test_ignore_comments() {
    assert_eq!(eval_str("(comment)"), Ok(Nil));
    assert_eq!(eval_str("(comment bla)"), Ok(Nil));
    assert_eq!(eval_str("(comment (bla 1 2))"), Ok(Nil));
}

#[test]
fn test_risp_function_no_args() {
    assert_eq!(eval_str("(fn [] 23)"), Ok(RispFunction(RispFunc {
        args: vec![],
        variadic_arg: None,
        body: Rc::new(Int(23))
    })));

    assert_eq!(eval_str("(fn [] (+ 40 2))"), Ok(RispFunction(RispFunc {
        args: vec![],
        variadic_arg: None,
        body: Rc::new(List(vec![symbol("+"), Int(40), Int(2)]))
    })));
}

#[test]
fn test_risp_function_error() {
    assert_eq!(eval_str("(fn)"), error_result("Missing args in fn"));
    assert_eq!(eval_str("(fn 23)"), error_result("Expected args vector in fn but got Int(23)"));
    assert_eq!(eval_str("(fn [])"), error_result("Missing body in fn"));
}

#[test]
fn test_eval_risp_function_no_args() {
    assert_eq!(eval_str(r"
    (do
        (def f23 (fn [] 23))
        (f23)
    )
    "), Ok(Int(23)));

    assert_eq!(eval_str(r"
    (do
        (def f23 (fn [] (+ 20 3)))
        (f23)
    )
    "), Ok(Int(23)));
}

#[test]
fn test_eval_risp_function_with_args() {
    assert_eq!(eval_str(r"
    (do
        (def plus20 (fn [x y] (+ x y 20)))
        (plus20 1 2)
    )
    "), Ok(Int(23)));
}

#[test]
fn test_eval_risp_function_with_args_error() {
    assert_eq!(eval_str(r#"
    (do
        (def plus20 (fn ["12" y] (+ x y 20)))
        (plus20 1 2)
    )
    "#), error_result("Expected symbol in args list got Str(\"12\")"));
}

#[test]
fn test_eval_risp_function_does_not_change_surrounding_env() {
    assert_eq!(eval_str(r"
    (do
        (def x 1234)
        (def plus20 (fn [x y] (+ x y 20)))
        (plus20 1 2)
        x
    )
    "), Ok(Int(1234)));
}

#[test]
fn test_eval_defn() {
    assert_eq!(eval_str(r"
    (do
        (defn plus20 [x y] (+ x y 20))
        (plus20 1 2)
    )
    "), Ok(Int(23)));
}

#[test]
fn test_eval_defn_errors() {
    assert_eq!(eval_str("(defn)"), error_result("Missing function name in defn"));
    assert_eq!(eval_str("(defn name)"), error_result("Missing args in defn"));
    assert_eq!(eval_str("(defn name [])"), error_result("Missing body in defn"));
}

#[test]
fn test_eval_extra_variadic_args() {
    assert_eq!(eval_str(r"
    (do
        (defn plus [x & more] (+ x more))
        (plus 10 1 2)
    )
    "), Ok(Vector(vec![Int(11), Int(12)])));
}

#[test]
fn test_eval_only_variadic_args() {
    assert_eq!(eval_str(r"
    (do
        (defn plus64 [& more] (+ 64 more))
        (plus64 -1 0 1)
    )
    "), Ok(Vector(vec![Int(63), Int(64), Int(65)])));
}

#[test]
fn test_eval_variadic_error() {
    assert_eq!(eval_str("(fn [&] 23)"), error_result("Missing variadic arg after & in [Symbol(\"&\")]"));
}

#[test]
fn closure_parameter_does_not_reach_the_caller() {
    assert_eq!(eval_str("(do (def x 1234) (def f (fn [x] x)) (f 1) x)"), Ok(Int(1234)));
}

#[test]
fn definition_in_a_body_does_not_reach_the_caller() {
    let mut env = create_core_environment();
    assert_eq!(
        risp::eval_risp_script("(defn f [a] (do (def inner a) inner)) (f 5)", &mut env),
        Ok(Int(5))
    );
    assert_eq!(env.get("inner"), None);
    assert_eq!(env.get("a"), None);
    assert!(env.get("f").is_some());
}

#[test]
fn free_variable_is_read_at_call_time() {
    assert_eq!(eval_str("(do (defn f [] y) (def y 7) (f))"), Ok(Int(7)));
    assert_eq!(eval_str("(do (def y 1) (defn f [] y) (def y 2) (f))"), Ok(Int(2)));
}

#[test]
fn forward_reference_is_undefined() {
    assert_eq!(eval_str("(do y (def y 1))"), error_result("symbol '\"y\"' is undefined"));
}

#[test]
fn comment_content_is_not_evaluated() {
    assert_eq!(eval_str("(comment (undefined 1 2) () (1 2) (def))"), Ok(Nil));
    let mut env = create_core_environment();
    assert_eq!(eval(List(vec![symbol("comment"), List(vec![symbol("def"), symbol("x"), Int(1)])]), &mut env), Ok(Nil));
    assert_eq!(env.get("x"), None);
}

#[test]
fn eval_list_errors_exact() {
    assert_eq!(eval_str("()"), error_result("Empty List"));
    assert_eq!(eval_str("(1 2)"), error_result("Expected symbol but got Int(1)"));
    assert_eq!(eval_str("(a 2)"), error_result("Undefined symbol\"a\""));
    assert_eq!(eval_str("a"), error_result("symbol '\"a\"' is undefined"));
    assert_eq!(eval_str("(def)"), error_result("Missing variable in def"));
    assert_eq!(eval_str("(def a)"), error_result("Missing value in def"));
    assert_eq!(eval_str("(def 1 2)"), error_result("Expected symbol in def but got Int(1)"));
    assert_eq!(eval_str("(def 1)"), error_result("Expected symbol in def but got Int(1)"));
    assert_eq!(eval_str("(do)"), error_result("Empty do block"));
    assert_eq!(eval_str("(defn 1 [] 2)"), error_result("Expected symbol in def but got Int(1)"));
    assert_eq!(eval_str("(defn f 1 2)"), error_result("Expected args vector in fn but got Int(1)"));
    assert_eq!(eval_str("(fn [a & 1] 2)"), error_result(
        "Missing variadic arg after & in [Symbol(\"a\"), Symbol(\"&\"), Int(1)]"
    ));
}

#[test]
fn eval_primitive_errors() {
    assert_eq!(
        eval_str("(+ nil nil)"),
        error_result("symbol '\"nil\"' is undefined")
    );
    assert_eq!(
        eval_test(List(vec![symbol("+"), Nil, Nil])),
        error_result("Operation wants an Int or a Vector as first argument but got Nil")
    );
    assert_eq!(eval_str("(rep)"), error_result("rep needs 2 arguments but got 0"));
    assert_eq!(eval_str("(+)"), error_result("Missing first argument"));
}

#[test]
fn eval_is_fail_fast_and_keeps_earlier_bindings() {
    let mut env = create_core_environment();
    assert_eq!(
        risp::eval_risp_for_env("[(def a 1) missing (def b 2)]", &mut env),
        error_result("symbol '\"missing\"' is undefined")
    );
    assert_eq!(env.get("a"), Some(Int(1)));
    assert_eq!(env.get("b"), None);
}

#[test]
fn eval_map_evaluates_values_in_order() {
    let mut env = create_core_environment();
    assert_eq!(
        risp::eval_risp_for_env("{:a (def n 1) :b (+ n 1)}", &mut env),
        Ok(Mapping(vec![("a".to_string(), Int(1)), ("b".to_string(), Int(2))]))
    );
}

#[test]
fn eval_self_evaluating_values() {
    assert_eq!(eval_test(Nil), Ok(Nil));
    assert_eq!(eval_test(Bool(true)), Ok(Bool(true)));
    assert_eq!(eval_test(string("s")), Ok(string("s")));
    assert_eq!(eval_test(keyword("k")), Ok(keyword("k")));
    let f = RispFunction(RispFunc { args: vec![symbol("x")], variadic_arg: None, body: Rc::new(symbol("x")) });
    assert_eq!(eval_test(f.clone()), Ok(f));
    assert_eq!(eval_str("+"), Ok(risp::types::RispType::Function(risp::types::Builtin::Sum)));
}

#[test]
fn call_with_fewer_or_more_arguments() {
    assert_eq!(eval_str("(do (defn f [a b] a) (f 1 2 3))"), Ok(Int(1)));
    assert_eq!(eval_str("(do (defn f [a b] a) (f 1))"), Ok(Int(1)));
    assert_eq!(eval_str("(do (defn f [a b] b) (f 1))"), error_result("symbol '\"b\"' is undefined"));
    assert_eq!(eval_str("(do (defn f [a b & more] more) (f 1))"), Ok(Vector(vec![])));
    assert_eq!(eval_str("(do (defn f [a & more] more) (f 1))"), Ok(Vector(vec![])));
}

#[test]
fn call_depth_is_bounded() {
    assert_eq!(eval_str("(do (defn f [] (f)) (f))"), error_result("Call depth limit reached"));
    let mut env = create_core_environment();
    let program = risp::parse::parse("(do (defn g [] 1) (defn f [] (g)) (f))").unwrap();
    assert_eq!(eval_in(&program, &mut env, 2), Ok(Int(1)));
    assert_eq!(eval_in(&program, &mut env, 1), error_result("Call depth limit reached"));
    assert_eq!(eval_in(&program, &mut env, 0), error_result("Call depth limit reached"));
    assert_eq!(CALL_DEPTH, 64);
}

#[test]
fn variadic_marker() {
    assert!(is_variadic_marker(&symbol("&")));
    assert!(!is_variadic_marker(&symbol("&&")));
    assert!(!is_variadic_marker(&string("&")));
    assert!(!is_variadic_marker(&keyword("&")));
}

#[test]
fn arguments_into_environment() {
    let f = RispFunc {
        args: vec![symbol("a"), symbol("b")],
        variadic_arg: Some("rest".to_string()),
        body: Rc::new(Nil),
    };
    let mut env = Environment::new();
    assert_eq!(put_args_into_env(&f, &vec![Int(1), Int(2), Int(3), Int(4)], &mut env), Ok(()));
    assert_eq!(env.get("a"), Some(Int(1)));
    assert_eq!(env.get("b"), Some(Int(2)));
    assert_eq!(env.get("rest"), Some(Vector(vec![Int(3), Int(4)])));

    let g = RispFunc { args: vec![symbol("a"), Int(5)], variadic_arg: None, body: Rc::new(Nil) };
    let mut env = Environment::new();
    assert_eq!(
        put_args_into_env(&g, &vec![Int(1), Int(2)], &mut env),
        Err(RispError("Expected symbol in args list got Int(5)".to_string()))
    );
    assert_eq!(env.get("a"), Some(Int(1)));
}

#[test]
fn expected_function() {
    assert_eq!(eval_str("(do (def v [1]) (v 0))"), error_result("Expected function but got Vector([Int(1)])"));
}

#[test]
fn data_evaluates_to_itself() {
    let data = Vector(vec![
        Int(1),
        string("two"),
        Bool(false),
        keyword("k"),
        Vector(vec![]),
        Mapping(vec![("a".to_string(), Vector(vec![Int(3)])), ("b".to_string(), Nil)]),
    ]);
    let mut env = Environment::new();
    assert_eq!(eval(data.clone(), &mut env), Ok(data.clone()));
    assert_eq!(eval_test(data.clone()), Ok(data));
}
