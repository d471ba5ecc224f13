use risp::convert::{flatten_into, flatten_vec, FromRisp};
use risp::types::RispType::{Bool, Int, List, Mapping, Vector};
use risp::types::{error, string, RispError, RispType};

#[test]
fn test_convert_int() {
    let result: Result<i64, _> = FromRisp::from_risp(Int(3));
    assert_eq!(result, Ok(3));
}

#[test]
fn test_convert_int_error() {
    let result: Result<i64, RispError> = FromRisp::from_risp(List(vec![]));
    assert!(result.is_err());
}

#[test]
fn test_convert_string() {
    let result: Result<String, _> = FromRisp::from_risp(string("string"));
    assert_eq!(result, Ok("string".to_string()));
}

#[test]
fn test_convert_string_error() {
    let result: Result<String, RispError> = FromRisp::from_risp(List(vec![]));
    assert!(result.is_err());
}

#[test]
fn test_convert_vector() {
    let result: Result<Vec<RispType>, RispError> = FromRisp::from_risp(Vector(vec![Int(23)]));
    assert_eq!(result, Ok(vec![Int(23)]));
}

#[test]
fn test_convert_vector_error() {
    let result: Result<Vec<RispType>, RispError> = FromRisp::from_risp(Int(1));
    assert!(result.is_err());
}

#[test]
fn test_convert_vector_int() {
    let result: Result<Vec<i64>, RispError> = FromRisp::from_risp(Vector(vec![Int(23)]));
    assert_eq!(result, Ok(vec![23]));
}

#[test]
fn test_convert_map() {
    let input_map = risp::types::map(vec![
        ("key", Int(23))
    ]);
    let result: Result<Vec<(String, RispType)>, RispError> = FromRisp::from_risp(input_map);
    let entries = result.unwrap();
    let found = entries.iter().find(|entry| entry.0 == "key").unwrap();
    assert_eq!(found.1.clone(), Int(23));
}

#[test]
fn test_convert_map_error() {
    let result: Result<Vec<(String, RispType)>, RispError> = FromRisp::from_risp(List(vec![]));
    assert_eq!(result, Err(error(&format!("Expected Map but got List([])"))));
}

#[test]
fn test_get() {
    let input_map = risp::types::map(vec![
        ("key", Int(23))
    ]);
    let int_option = input_map.get("key").unwrap();
    assert_eq!(int_option, Some(23));
}

#[test]
fn test_get_risptype() {
    let input_map = risp::types::map(vec![
        ("key", Int(23))
    ]);
    let int_option: Option<RispType> = input_map.get("key").unwrap();
    assert_eq!(int_option, Some(Int(23)));
}

#[test]
fn test_get_none() {
    let input_map = risp::types::map(vec![
        ("key", Int(23))
    ]);
    let int_option: Option<i64> = input_map.get("unknown_key").unwrap();
    assert_eq!(int_option, None);
}

#[test]
fn test_get_error_expected_int() {
    let input_map = risp::types::map(vec![
        ("key", string("string"))
    ]);
    let int_result: Result<Option<i64>, _> = input_map.get("key");
    assert_eq!(int_result, Err(error(&format!("Expected Int but got {:?}", string("string")))));
}

#[test]
fn test_get_error_expected_map() {
    let input = Int(123);
    let int_result: Result<Option<i64>, _> = input.get("key");
    assert_eq!(int_result, Err(error(&format!("Expected Map but got Int(123)"))));
}

#[test]
fn test_flatten_vec() {
    let input = vec![
        Int(1),
        Vector(vec![Int(2), Int(3)])
    ];
    let flat_result = flatten_vec(input);
    assert_eq!(flat_result, vec![Int(1), Int(2), Int(3)] );
}

#[test]
fn test_flatten_into() {
    let input = Vector(vec![
        Int(1),
        Vector(vec![Int(2), Int(3)])
    ]);
    let flat_result = flatten_into(input);
    assert_eq!(flat_result, Ok(vec![1, 2, 3]));
}

#[test]
fn test_flatten_error_outer() {
    let flat_result: Result<Vec<i64>, _> = flatten_into(Int(1));
    assert_eq!(flat_result, Err(error("Expected Vector but got Int(1)")));
}

#[test]
fn test_flatten_error_inner() {
    let input = Vector(vec![
        Int(1),
        Vector(vec![string("string"), Int(3)])
    ]);
    let flat_result: Result<Vec<i64>, _> = flatten_into(input);
    assert_eq!(flat_result, Err(error("Expected Int but got Str(\"string\")")));
}

#[test]
fn convert_error_messages() {
    let int: Result<i64, RispError> = FromRisp::from_risp(string("s"));
    assert_eq!(int, Err(error("Expected Int but got Str(\"s\")")));
    let text: Result<String, RispError> = FromRisp::from_risp(Int(1));
    assert_eq!(text, Err(error("Expected String but got Int(1)")));
    let items: Result<Vec<RispType>, RispError> = FromRisp::from_risp(Int(1));
    assert_eq!(items, Err(error("Expected Vector but got Int(1)")));
    let truth: Result<bool, RispError> = FromRisp::from_risp(Int(1));
    assert_eq!(truth, Err(error("Expected Bool but got Int(1)")));
    let numbers: Result<Vec<i64>, RispError> = FromRisp::from_risp(Int(1));
    assert_eq!(numbers, Err(error("Expected Vector but got Int(1)")));
    let numbers: Result<Vec<i64>, RispError> =
        FromRisp::from_risp(Vector(vec![Int(1), Bool(true), string("s")]));
    assert_eq!(numbers, Err(error("Expected Int but got Bool(true)")));
}

#[test]
fn convert_bool_and_value() {
    let truth: Result<bool, RispError> = FromRisp::from_risp(Bool(true));
    assert_eq!(truth, Ok(true));
    let value: Result<RispType, RispError> = FromRisp::from_risp(List(vec![]));
    assert_eq!(value, Ok(List(vec![])));
}

#[test]
fn get_of_each_type() {
    let record = Mapping(vec![
        ("n".to_string(), Int(1)),
        ("s".to_string(), string("text")),
        ("b".to_string(), Bool(false)),
        ("v".to_string(), Vector(vec![Int(1), Int(2)])),
        ("m".to_string(), Mapping(vec![("inner".to_string(), Int(9))])),
    ]);
    assert_eq!(record.get::<i64>("n"), Ok(Some(1)));
    assert_eq!(record.get::<String>("s"), Ok(Some("text".to_string())));
    assert_eq!(record.get::<bool>("b"), Ok(Some(false)));
    assert_eq!(record.get::<Vec<i64>>("v"), Ok(Some(vec![1, 2])));
    assert_eq!(record.get::<Vec<RispType>>("v"), Ok(Some(vec![Int(1), Int(2)])));
    assert_eq!(
        record.get::<Vec<(String, RispType)>>("m"),
        Ok(Some(vec![("inner".to_string(), Int(9))]))
    );
    let inner: RispType = record.get("m").unwrap().unwrap();
    assert_eq!(inner.get::<i64>("inner"), Ok(Some(9)));
    assert_eq!(record.get::<String>("n"), Err(error("Expected String but got Int(1)")));
    assert_eq!(record.get::<i64>("absent"), Ok(None));
}

#[test]
fn flatten_deeply_nested() {
    let input = vec![
        Vector(vec![Vector(vec![Int(1)]), Vector(vec![])]),
        Int(2),
        Vector(vec![Vector(vec![Vector(vec![Int(3), string("s")])])]),
        List(vec![Vector(vec![Int(4)])]),
    ];
    assert_eq!(
        flatten_vec(input),
        vec![Int(1), Int(2), Int(3), string("s"), List(vec![Vector(vec![Int(4)])])]
    );
    assert_eq!(flatten_vec(vec![]), vec![]);
    let values: Result<Vec<RispType>, RispError> = flatten_into(Vector(vec![Vector(vec![Int(1)])]));
    assert_eq!(values, Ok(vec![Int(1)]));
}
