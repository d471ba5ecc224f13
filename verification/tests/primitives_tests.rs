use risp::primitives::{
    apply_to, apply_to_number_and_vector, apply_to_vector, apply_to_vector_and_number,
    apply_to_vector_and_vector, call_builtin, create_core_environment, div,
    int_operation, rep, repeated, sum, sum2, IntOperation,
};
use risp::types::RispType::{Function, Int, List, Nil, Vector};
use risp::types::{error_result, string, Builtin};

#[test]
fn core_test_sum() {
    assert_eq!(sum(vec![Int(1), Int(2)]), Ok(Int(3)));
}

#[test]
fn test_sum_number_vector() {
    assert_eq!(sum(vec![Int(20), Vector(vec![Int(1), Int(2)])]), Ok(Vector(vec![Int(21), Int(22)])));
}

#[test]
fn test_sum_number_vector_vector() {
    assert_eq!(sum(vec![Int(20), Vector(vec![Int(1), Int(2)]), Vector(vec![Int(100), Int(200)])]), Ok(Vector(vec![Int(121), Int(222)])));
}

#[test]
fn test_sum_number_nested_vector() {
    assert_eq!(sum(vec![
        Int(20),
        Vector(vec![Int(1), Int(2), Vector(vec![Int(100), Int(200)])]),
    ])
    , Ok(Vector(vec![Int(21), Int(22), Vector(vec![Int(120), Int(220)])])));
}

#[test]
fn test_sum2_number_vector() {
    assert_eq!(sum2(&Int(20), &Vector(vec![Int(1), Int(2)])), Ok(Vector(vec![Int(21), Int(22)])));
}

#[test]
fn test_sum2_vector_number() {
    assert_eq!(sum2(&Vector(vec![Int(1), Int(2)]), &Int(20)), Ok(Vector(vec![Int(21), Int(22)])));
}

#[test]
fn test_sum2_vector_vector() {
    assert_eq!(sum2(
        &Vector(vec![Int(1), Int(2)]),
        &Vector(vec![Int(10), Int(20)])
    ), Ok(Vector(vec![Int(11), Int(22)])));
}

#[test]
fn test_sum2_vector_longer_vector() {
    assert_eq!(sum2(
        &Vector(vec![Int(1), Int(2)]),
        &Vector(vec![Int(10), Int(20), Int(30)])
    ), Ok(Vector(vec![Int(11), Int(22), Int(31)])));
}

#[test]
fn test_sum2_errors() {
    assert_eq!(sum2(&string("string"), &Int(1)), error_result("Operation wants an Int or a Vector as first argument but got Str(\"string\")"));
    assert_eq!(sum2(&Int(1), &string("string")), error_result("Operation wants an Int or a Vector as second argument but got Str(\"string\")"));
    assert_eq!(sum2(&Vector(vec![Int(1)]), &string("string")), error_result("Operation wants an Int or a Vector as second argument but got Str(\"string\")"));
}

#[test]
fn test_add_number_to_vector() {
    assert_eq!(apply_to_number_and_vector(IntOperation::Add, 20, &vec![Int(1), Int(2)]), Ok(Vector(vec![Int(21), Int(22)])));
}

#[test]
fn test_sum_errors() {
    assert_eq!(sum(vec![Nil, Nil]), error_result("Operation wants an Int or a Vector as first argument but got Nil"));
}

#[test]
fn test_mul_errors() {
    assert!(risp::primitives::mul(vec![List(vec![]), Int(1)]).is_err());
}

#[test]
fn test_div() {
    assert_eq!(div(vec![Int(10), Int(2)]), Ok(Int(5)));
}

#[test]
fn test_sub() {
    assert_eq!(risp::primitives::sub(vec![Int(10), Int(2), Int(1)]), Ok(Int(7)));
}

#[test]
fn test_rep() {
    assert_eq!(
    rep(vec![Int(2), Int(3), Int(4)]),
    Ok(Vector(vec![Int(3), Int(4), Int(3), Int(4)]))
    );
}

#[test]
fn test_rep_nested() {
    assert_eq!(
    rep(vec![Int(2), Vector(vec![Int(3), Int(4)])]),
    Ok(Vector(vec![Vector(vec![Int(3), Int(4)]), Vector(vec![Int(3), Int(4)])]))
    );
}

#[test]
fn test_rep_missing_arguments() {
    assert_eq!(rep(vec![]), error_result("rep needs 2 arguments but got 0"));
}

#[test]
fn test_rep_needs_int_as_first_argument() {
    assert_eq!(rep(vec![string("23")]), error_result("rep needs an int as first argument"));
}

#[test]
fn rep_zero_times_is_empty() {
    assert_eq!(rep(vec![Int(0), Int(3), Int(4)]), Ok(Vector(vec![])));
    assert_eq!(rep(vec![Int(0)]), Ok(Vector(vec![])));
    assert_eq!(rep(vec![Int(0), string("x"), Nil]), Ok(Vector(vec![])));
    assert_eq!(rep(vec![Int(5)]), Ok(Vector(vec![])));
}

#[test]
fn rep_negative_count_is_refused() {
    assert_eq!(rep(vec![Int(-1), Int(3)]), error_result("rep needs a count that is not negative"));
}

#[test]
fn repeated_and_concat() {
    assert_eq!(repeated(&vec![Int(1), Nil], 3), vec![Int(1), Nil, Int(1), Nil, Int(1), Nil]);
    assert_eq!(repeated(&vec![Int(1)], 0), vec![]);
    assert_eq!(
        risp::primitives::concat(vec![vec![Int(1)], vec![], vec![Int(2), Int(3)]]),
        vec![Int(1), Int(2), Int(3)]
    );
    assert_eq!(risp::primitives::concat(vec![]), vec![]);
}

#[test]
fn missing_first_argument() {
    assert_eq!(sum(vec![]), error_result("Missing first argument"));
    assert_eq!(div(vec![]), error_result("Missing first argument"));
    assert_eq!(apply_to_vector(IntOperation::Mul, &vec![]), error_result("Missing first argument"));
}

#[test]
fn one_argument_is_returned() {
    assert_eq!(sum(vec![Int(5)]), Ok(Int(5)));
    assert_eq!(sum(vec![string("s")]), Ok(string("s")));
}

#[test]
fn integer_operations_exact() {
    assert_eq!(int_operation(IntOperation::Add, 2, 3), Some(5));
    assert_eq!(int_operation(IntOperation::Sub, 2, 3), Some(-1));
    assert_eq!(int_operation(IntOperation::Mul, -4, 3), Some(-12));
    assert_eq!(int_operation(IntOperation::Div, 7, 2), Some(3));
    assert_eq!(int_operation(IntOperation::Div, -7, 2), Some(-3));
    assert_eq!(int_operation(IntOperation::Div, 7, -2), Some(-3));
    assert_eq!(int_operation(IntOperation::Div, 1, 0), None);
    assert_eq!(int_operation(IntOperation::Div, i64::MIN, -1), None);
    assert_eq!(int_operation(IntOperation::Add, i64::MAX, 1), None);
    assert_eq!(int_operation(IntOperation::Sub, i64::MIN, 1), None);
    assert_eq!(int_operation(IntOperation::Mul, i64::MAX, 2), None);
}

#[test]
fn arithmetic_failures_are_errors() {
    assert_eq!(div(vec![Int(1), Int(0)]), error_result("Division by zero"));
    assert_eq!(sum(vec![Int(i64::MAX), Int(1)]), error_result("Integer overflow"));
    assert_eq!(div(vec![Int(i64::MIN), Int(-1)]), error_result("Integer overflow"));
    assert_eq!(
        div(vec![Vector(vec![Int(4), Int(2)]), Vector(vec![Int(2), Int(0)])]),
        error_result("Division by zero")
    );
}

#[test]
fn first_failing_item_decides() {
    assert_eq!(
        sum2(&Int(1), &Vector(vec![Int(1), string("a"), string("b")])),
        error_result("Operation wants an Int or a Vector as second argument but got Str(\"a\")")
    );
    assert_eq!(
        sum2(&Vector(vec![Nil, string("b")]), &Int(1)),
        error_result("Operation wants an Int or a Vector as first argument but got Nil")
    );
}

#[test]
fn broadcast_keeps_operand_order() {
    assert_eq!(
        apply_to(IntOperation::Sub, &Int(10), &Vector(vec![Int(1), Int(2)])),
        Ok(Vector(vec![Int(9), Int(8)]))
    );
    assert_eq!(
        apply_to_vector_and_number(IntOperation::Sub, &vec![Int(1), Int(2)], 10),
        Ok(Vector(vec![Int(-9), Int(-8)]))
    );
    assert_eq!(
        apply_to_vector_and_vector(
            IntOperation::Sub,
            &vec![Int(10), Int(20), Int(30)],
            &vec![Int(1), Int(2)]
        ),
        Ok(Vector(vec![Int(9), Int(18), Int(29)]))
    );
}

#[test]
fn broadcast_result_lengths() {
    let xs = vec![Int(1), Int(2), Int(3), Int(4), Int(5)];
    let ys = vec![Int(1), Int(2)];
    for op in [IntOperation::Add, IntOperation::Sub, IntOperation::Mul, IntOperation::Div] {
        match apply_to(op, &Int(7), &Vector(xs.clone())) {
            Ok(Vector(out)) => assert_eq!(out.len(), 5),
            other => panic!("{:?}", other),
        }
        match apply_to(op, &Vector(xs.clone()), &Vector(ys.clone())) {
            Ok(Vector(out)) => assert_eq!(out.len(), 5),
            other => panic!("{:?}", other),
        }
        match apply_to(op, &Vector(ys.clone()), &Vector(xs.clone())) {
            Ok(Vector(out)) => assert_eq!(out.len(), 5),
            other => panic!("{:?}", other),
        }
    }
}

#[test]
fn broadcast_empty_vectors() {
    assert_eq!(sum2(&Vector(vec![]), &Vector(vec![])), Ok(Vector(vec![])));
    assert_eq!(sum2(&Int(1), &Vector(vec![])), Ok(Vector(vec![])));
    assert_eq!(sum2(&Vector(vec![]), &Int(1)), Ok(Vector(vec![])));
    assert_eq!(
        sum2(&Vector(vec![]), &Vector(vec![Int(1)])),
        error_result("Operation cannot combine an empty Vector with a non-empty one")
    );
    assert_eq!(
        sum2(&Vector(vec![Int(1)]), &Vector(vec![])),
        error_result("Operation cannot combine an empty Vector with a non-empty one")
    );
}

#[test]
fn builtins_by_name() {
    assert_eq!(call_builtin(Builtin::Sum, vec![Int(6), Int(3)]), Ok(Int(9)));
    assert_eq!(call_builtin(Builtin::Sub, vec![Int(6), Int(3)]), Ok(Int(3)));
    assert_eq!(call_builtin(Builtin::Mul, vec![Int(6), Int(3)]), Ok(Int(18)));
    assert_eq!(call_builtin(Builtin::Div, vec![Int(6), Int(3)]), Ok(Int(2)));
    assert_eq!(call_builtin(Builtin::Rep, vec![Int(2), Int(3)]), Ok(Vector(vec![Int(3), Int(3)])));
}

#[test]
fn core_environment_holds_the_primitives() {
    let env = create_core_environment();
    assert_eq!(env.get("+"), Some(Function(Builtin::Sum)));
    assert_eq!(env.get("-"), Some(Function(Builtin::Sub)));
    assert_eq!(env.get("*"), Some(Function(Builtin::Mul)));
    assert_eq!(env.get("/"), Some(Function(Builtin::Div)));
    assert_eq!(env.get("rep"), Some(Function(Builtin::Rep)));
    assert_eq!(env.get("def"), None);
}
