use risp::parse::{parse, parse_internal, parse_tokens};
use risp::tokenize::{token, TokenType};
use risp::types::RispType::{Bool, Int, List, Mapping, Str, Symbol, Vector};
use risp::types::{error_result, keyword, string, symbol, RispError};

#[test]
fn test_parse_number() {
    assert_eq!(parse("0"), Ok(Int(0)));
    assert_eq!(parse("1"), Ok(Int(1)));
    assert_eq!(parse("42"), Ok(Int(42)));
    assert_eq!(parse("-42"), Ok(Int(-42)));
}

#[test]
fn test_list() {
    assert_eq!(parse("()"), Ok(List(vec![])));
    assert_eq!(parse("(42)"), Ok(List(vec![Int(42)])));
    assert_eq!(parse("(42 23)"), Ok(List(vec![Int(42), Int(23)])));
    assert_eq!(parse("(42 (23))"), Ok(List(vec![Int(42), List(vec![Int(23)])])));
}

#[test]
fn test_parse_symbols() {
    assert_eq!(parse("symbol"), Ok(Symbol("symbol".to_string())));
    assert_eq!(parse("(+ 1 2)"), Ok(List(vec![Symbol("+".to_string()), Int(1), Int(2)])));
}

#[test]
fn test_parse_vector() {
    assert_eq!(parse("[]"), Ok(Vector(vec![])));
    assert_eq!(parse("[42]"), Ok(Vector(vec![Int(42)])));
    assert_eq!(parse("[42 23]"), Ok(Vector(vec![Int(42), Int(23)])));
    assert_eq!(parse("[42 [23]]"), Ok(Vector(vec![Int(42), Vector(vec![Int(23)])])));
}

#[test]
fn test_parse_vector_errors() {
    assert_eq!(parse("["), error_result("Vector should end with ] but just ends"));
    assert_eq!(parse("]"), error_result("Unexpected ]"));
    assert_eq!(parse("(]"), error_result("Unexpected ]"));
}

#[test]
fn test_keyword() {
    assert_eq!(parse(":key"), Ok(keyword("key")));
}

#[test]
fn test_hash_map_empty() {
    assert_eq!(parse("{}"), Ok(Mapping(vec![])));
}

#[test]
fn test_hash_map_with_1_key() {
    assert_eq!(parse("{:key 123}"), Ok(risp::types::map(vec![("key", Int(123))])));
}

#[test]
fn test_hash_map_with_2_keys() {
    let expected_map = risp::types::map(vec![
        ("key1", Int(1)),
        ("key2", Int(2))
    ]);
    assert_eq!(parse("{:key1 1 :key2 2}"), Ok(expected_map));
}

#[test]
fn test_map_with_var() {
    assert_eq!(parse("{:key1 var}"), Ok(risp::types::map(vec![
        ("key1", symbol("var"))
    ])));
}

#[test]
fn test_hash_map_errors() {
    assert_eq!(parse("{"), error_result("HashMap should end with } but just ends"));
    assert_eq!(parse("}"), error_result("Unexpected }"));
    assert_eq!(parse("{123}"), error_result("Expected keyword but got \"123\""));
}

#[test]
fn test_str() {
    assert_eq!(parse("\"string\""), Ok(string("string")));
}

#[test]
fn test_bool() {
    assert_eq!(parse("true"), Ok(Bool(true)));
    assert_eq!(parse("false"), Ok(Bool(false)));
}

#[test]
fn parse_list_errors() {
    assert_eq!(parse("("), error_result("List should end with ) but just ends"));
    assert_eq!(parse(")"), error_result("Unexpected )"));
    assert_eq!(parse("[)"), error_result("Unexpected )"));
    assert_eq!(parse("(1 (2)"), error_result("List should end with ) but just ends"));
}

#[test]
fn parse_no_input() {
    assert_eq!(parse(""), error_result("no input"));
    assert_eq!(parse("  ; only a comment"), error_result("no input"));
    assert_eq!(parse_tokens(&vec![]), error_result("no input"));
}

#[test]
fn parse_map_value_missing() {
    assert_eq!(parse("{:key"), error_result("no input"));
    assert_eq!(parse("{:key }"), error_result("Unexpected }"));
    assert_eq!(parse("{:a 1 b 2}"), error_result("Expected keyword but got \"b\""));
}

#[test]
fn parse_map_later_key_decides() {
    assert_eq!(parse("{:a 1 :b 2 :a 3}"), Ok(Mapping(vec![
        ("a".to_string(), Int(3)),
        ("b".to_string(), Int(2)),
    ])));
}

#[test]
fn parse_reads_first_value_only() {
    assert_eq!(parse("1 2 3"), Ok(Int(1)));
    assert_eq!(parse("[1] ]"), Ok(Vector(vec![Int(1)])));
}

#[test]
fn parse_number_limits() {
    assert_eq!(parse("9223372036854775807"), Ok(Int(i64::MAX)));
    assert_eq!(parse("-9223372036854775808"), Ok(Int(i64::MIN)));
    assert_eq!(parse("9223372036854775808"), error_result("Invalid number"));
    assert_eq!(parse("[1 99999999999999999999]"), error_result("Invalid number"));
}

#[test]
fn parse_string_keeps_text_as_written() {
    assert_eq!(parse("\"\""), Ok(Str("".to_string())));
    assert_eq!(parse("\"a\\nb\""), Ok(Str("a\\nb".to_string())));
    assert_eq!(parse("\"(x) ; y\""), Ok(Str("(x) ; y".to_string())));
}

#[test]
fn parse_tokens_given_by_hand() {
    let tokens = vec![
        token(TokenType::VectorStart, "["),
        token(TokenType::Number, "7"),
        token(TokenType::Keyword, ":k"),
        token(TokenType::VectorEnd, "]"),
        token(TokenType::Number, "8"),
    ];
    assert_eq!(parse_tokens(&tokens), Ok(Vector(vec![Int(7), keyword("k")])));
    assert_eq!(parse_internal(&tokens, 1), Ok((Int(7), 2)));
    assert_eq!(parse_internal(&tokens, 0), Ok((Vector(vec![Int(7), keyword("k")]), 4)));
    assert_eq!(parse_internal(&tokens, 4), Ok((Int(8), 5)));
    assert_eq!(parse_internal(&tokens, 5), Err(RispError("no input".to_string())));
    assert_eq!(parse_internal(&tokens, 9), Err(RispError("no input".to_string())));
}

#[test]
fn parse_malformed_tokens_given_by_hand() {
    assert_eq!(
        parse_tokens(&vec![token(TokenType::Str, "\"")]),
        error_result("String without quotes")
    );
    assert_eq!(parse_tokens(&vec![token(TokenType::Keyword, "")]), Ok(keyword("")));
    assert_eq!(
        parse_tokens(&vec![token(TokenType::Number, "12a")]),
        error_result("Invalid number")
    );
}

#[test]
fn parse_nested_collections() {
    assert_eq!(
        parse("(f [1 {:a (g 2)}] \"s\")"),
        Ok(List(vec![
            symbol("f"),
            Vector(vec![
                Int(1),
                Mapping(vec![("a".to_string(), List(vec![symbol("g"), Int(2)]))]),
            ]),
            string("s"),
        ]))
    );
}
