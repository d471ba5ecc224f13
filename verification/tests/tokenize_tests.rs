use risp::tokenize::{anchored_match, bracket, token, tokenize, word, TokenType, Tokenizer};

#[test]
fn test_tokenizer() {
    assert_eq!(tokenize("42"), vec![(TokenType::Number, "42".to_string())]);
    assert_eq!(tokenize("("), vec![(TokenType::ListStart, "(".to_string())]);
    assert_eq!(tokenize(")"), vec![(TokenType::ListEnd, ")".to_string())]);
    assert_eq!(tokenize("( )"), vec![
        (TokenType::ListStart, "(".to_string()),
        (TokenType::ListEnd, ")".to_string())
    ]);
    assert_eq!(tokenize("(\n)"), vec![
        (TokenType::ListStart, "(".to_string()),
        (TokenType::ListEnd, ")".to_string())
    ]);
    assert_eq!(tokenize("(42)"), vec![
        (TokenType::ListStart, "(".to_string()),
        (TokenType::Number, "42".to_string()),
        (TokenType::ListEnd, ")".to_string())
    ]);
}

#[test]
fn test_tokenizer_symbol() {
    assert_eq!(tokenize("symbol"), vec![(TokenType::Symbol, "symbol".to_string())]);
    assert_eq!(tokenize("(+ 42)"), vec![
        (TokenType::ListStart, "(".to_string()),
        (TokenType::Symbol, "+".to_string()),
        (TokenType::Number, "42".to_string()),
        (TokenType::ListEnd, ")".to_string())
    ]);
}

#[test]
fn test_tokenizer_vector() {
    assert_eq!(tokenize("[]"), vec![
        token(TokenType::VectorStart, "["),
        token(TokenType::VectorEnd, "]")
    ]);
    assert_eq!(tokenize("[23 42]"), vec![
        token(TokenType::VectorStart, "["),
        token(TokenType::Number, "23"),
        token(TokenType::Number, "42"),
        token(TokenType::VectorEnd, "]")
    ]);
}

#[test]
fn test_empty_map() {
    assert_eq!(tokenize("{}"), vec![
        token(TokenType::HashMapStart, "{"),
        token(TokenType::HashMapEnd, "}")
    ]);
}

#[test]
fn test_map() {
    assert_eq!(tokenize("{:keyword 123}"), vec![
        token(TokenType::HashMapStart, "{"),
        token(TokenType::Keyword, ":keyword"),
        token(TokenType::Number, "123"),
        token(TokenType::HashMapEnd, "}")
    ]);
}

#[test]
fn test_map_ending_with_symbol_as_value() {
    assert_eq!(tokenize("{:keyword var}"), vec![
        token(TokenType::HashMapStart, "{"),
        token(TokenType::Keyword, ":keyword"),
        token(TokenType::Symbol, "var"),
        token(TokenType::HashMapEnd, "}")
    ]);
}

#[test]
fn test_list_ending_with_symbol() {
    assert_eq!(tokenize("(symbol)"), vec![
        token(TokenType::ListStart, "("),
        token(TokenType::Symbol, "symbol"),
        token(TokenType::ListEnd, ")")
    ]);
}

#[test]
fn test_vector_ending_with_symbol() {
    assert_eq!(tokenize("[symbol]"), vec![
        token(TokenType::VectorStart, "["),
        token(TokenType::Symbol, "symbol"),
        token(TokenType::VectorEnd, "]")
    ]);
}

#[test]
fn test_string() {
    assert_eq!(tokenize("\"string\" \"\""), vec![
        token(TokenType::Str, "\"string\""),
        token(TokenType::Str, "\"\""),
    ]);
}

#[test]
fn test_ignore_single_line_comment() {
    assert_eq!(tokenize("; comment"), vec![]);
    assert_eq!(tokenize("; comment\n"), vec![]);
    assert_eq!(tokenize("; comment\n 23"), vec![token(TokenType::Number, "23")]);
}

#[test]
fn test_negative_int() {
    assert_eq!(tokenize("-23"), vec![token(TokenType::Number, "-23")]);
}

#[test]
fn tokenizer_gives_tokens_one_by_one() {
    let mut tokenizer = Tokenizer::new("  (a :b) ; rest");
    assert_eq!(tokenizer.next(), Some(token(TokenType::ListStart, "(")));
    assert_eq!(tokenizer.next(), Some(token(TokenType::Symbol, "a")));
    assert_eq!(tokenizer.next(), Some(token(TokenType::Keyword, ":b")));
    assert_eq!(tokenizer.next(), Some(token(TokenType::ListEnd, ")")));
    assert_eq!(tokenizer.next(), None);
    assert_eq!(tokenizer.next(), None);
}

#[test]
fn tokenize_empty_text() {
    assert_eq!(tokenize(""), vec![]);
    assert_eq!(tokenize("   \n\t "), vec![]);
}

#[test]
fn tokenize_minus_alone_is_a_symbol() {
    assert_eq!(tokenize("- -1 a-1"), vec![
        token(TokenType::Symbol, "-"),
        token(TokenType::Number, "-1"),
        token(TokenType::Symbol, "a-1"),
    ]);
}

#[test]
fn tokenize_number_ends_where_digits_end() {
    assert_eq!(tokenize("12ab"), vec![
        token(TokenType::Number, "12"),
        token(TokenType::Symbol, "ab"),
    ]);
}

#[test]
fn tokenize_string_does_not_span_lines() {
    assert_eq!(tokenize("\"ab\ncd\""), vec![
        token(TokenType::Symbol, "\"ab"),
        token(TokenType::Symbol, "cd\""),
    ]);
}

#[test]
fn tokenize_string_ends_at_next_quote() {
    assert_eq!(tokenize("\"a b\"\"c\""), vec![
        token(TokenType::Str, "\"a b\""),
        token(TokenType::Str, "\"c\""),
    ]);
}

#[test]
fn tokenize_text_beyond_ascii() {
    assert_eq!(tokenize("(\"é\" λ)"), vec![
        token(TokenType::ListStart, "("),
        token(TokenType::Str, "\"é\""),
        token(TokenType::Symbol, "λ"),
        token(TokenType::ListEnd, ")"),
    ]);
}

#[test]
fn tokenize_comment_between_tokens() {
    assert_eq!(tokenize("1 ; one\n; two\n2"), vec![
        token(TokenType::Number, "1"),
        token(TokenType::Number, "2"),
    ]);
}

#[test]
fn match_counts_only_at_the_start() {
    let part = |s: &str| s.to_string();
    assert_eq!(
        anchored_match(Some((part(""), part("ab"), part("cd")))),
        Some((part("ab"), part("cd")))
    );
    assert_eq!(anchored_match(Some((part("x"), part("ab"), part("cd")))), None);
    assert_eq!(anchored_match(Some((part(""), part(""), part("cd")))), None);
    assert_eq!(anchored_match(Some((part(""), part("ab"), part("")))), Some((part("ab"), part(""))));
    assert_eq!(anchored_match(None), None);
}

#[test]
fn words_and_brackets() {
    assert_eq!(word(":key".to_string()), token(TokenType::Keyword, ":key"));
    assert_eq!(word(":".to_string()), token(TokenType::Keyword, ":"));
    assert_eq!(word("key:".to_string()), token(TokenType::Symbol, "key:"));
    assert_eq!(word("".to_string()), token(TokenType::Symbol, ""));
    assert_eq!(bracket('('), Some(token(TokenType::ListStart, "(")));
    assert_eq!(bracket(')'), Some(token(TokenType::ListEnd, ")")));
    assert_eq!(bracket('['), Some(token(TokenType::VectorStart, "[")));
    assert_eq!(bracket(']'), Some(token(TokenType::VectorEnd, "]")));
    assert_eq!(bracket('{'), Some(token(TokenType::HashMapStart, "{")));
    assert_eq!(bracket('}'), Some(token(TokenType::HashMapEnd, "}")));
    assert_eq!(bracket('<'), None);
}
