//! The parser: a run of tokens to the value that it writes down.
use crate::tokenize::{tokenize, tokens_of, tokens_view, Token, TokenType};
use crate::types::{
    debug_quote, debug_quoted, distinct_keys, entries_view, error, error_with, first_index,
    has_key, is_first_at, lemma_store_keeps_distinct, lemma_values_view_push, result_view, store,
    store_entry, values_view, RispError, RispResult, RispType, Value,
};
use vstd::prelude::*;
use vstd::string::{StrSliceExecFns, StringExecFns};

verus! {

/// What `str::parse::<i64>` returns for `text`: the number that the text
/// writes in decimal, none where it writes none that an `i64` holds.
pub uninterp spec fn int_of_text(text: Seq<char>) -> Option<i64>;

/// Reads a decimal integer with `str::parse::<i64>`. The contract only
/// names the outcome.
#[verifier::external_body]
fn parse_integer(text: &str) -> (r: Option<i64>)
    ensures
        r == int_of_text(text@),
{
    text.parse::<i64>().ok()
}

/// The value of a symbol token: a truth value for `true` and `false`, the
/// symbol itself otherwise.
pub open spec fn symbol_value(text: Seq<char>) -> Value {
    if text == "true"@ {
        Value::Bool(true)
    } else if text == "false"@ {
        Value::Bool(false)
    } else {
        Value::Symbol(text)
    }
}

/// The text without its first character.
pub open spec fn without_first(text: Seq<char>) -> Seq<char> {
    if text.len() >= 1 {
        text.skip(1)
    } else {
        text
    }
}

/// The message for a collection that the input ends in.
pub open spec fn unterminated_message(closer: TokenType) -> Seq<char> {
    match closer {
        TokenType::ListEnd => "List should end with ) but just ends"@,
        TokenType::VectorEnd => "Vector should end with ] but just ends"@,
        _ => "HashMap should end with } but just ends"@,
    }
}

/// The value that starts at token `pos`, and the position after it.
///
/// A number, symbol, keyword or string token is one value. An opening
/// bracket starts a collection that runs to its closing bracket. A closing
/// bracket where a value should start is an error, and so is the end of the
/// tokens.
pub open spec fn parse_value(tokens: Seq<(TokenType, Seq<char>)>, pos: int) -> Result<
    (Value, int),
    Seq<char>,
>
    decreases tokens.len() - pos, 0nat,
{
    if pos < 0 || pos >= tokens.len() {
        Err("no input"@)
    } else {
        let text = tokens[pos].1;
        match tokens[pos].0 {
            TokenType::Number => match int_of_text(text) {
                Some(n) => Ok((Value::Int(n), pos + 1)),
                None => Err("Invalid number"@),
            },
            TokenType::Symbol => Ok((symbol_value(text), pos + 1)),
            TokenType::Keyword => Ok((Value::Keyword(without_first(text)), pos + 1)),
            TokenType::Str => if text.len() >= 2 {
                Ok((Value::Str(text.subrange(1, text.len() - 1)), pos + 1))
            } else {
                Err("String without quotes"@)
            },
            TokenType::ListStart => match parse_items(
                tokens,
                pos + 1,
                TokenType::ListEnd,
                Seq::empty(),
            ) {
                Ok((items, next)) => Ok((Value::List(items), next)),
                Err(e) => Err(e),
            },
            TokenType::VectorStart => match parse_items(
                tokens,
                pos + 1,
                TokenType::VectorEnd,
                Seq::empty(),
            ) {
                Ok((items, next)) => Ok((Value::Vector(items), next)),
                Err(e) => Err(e),
            },
            TokenType::HashMapStart => match parse_pairs(tokens, pos + 1, Seq::empty()) {
                Ok((entries, next)) => Ok((Value::Mapping(entries), next)),
                Err(e) => Err(e),
            },
            TokenType::ListEnd => Err("Unexpected )"@),
            TokenType::VectorEnd => Err("Unexpected ]"@),
            TokenType::HashMapEnd => Err("Unexpected }"@),
        }
    }
}

/// The values from token `pos` up to the token of kind `closer`, after the
/// values of `acc`, and the position after the closer. A value takes at
/// least one token, so the branch that asks for it is always the one taken.
pub open spec fn parse_items(
    tokens: Seq<(TokenType, Seq<char>)>,
    pos: int,
    closer: TokenType,
    acc: Seq<Value>,
) -> Result<(Seq<Value>, int), Seq<char>>
    decreases tokens.len() - pos, 1nat,
{
    if pos < 0 || pos >= tokens.len() {
        Err(unterminated_message(closer))
    } else if tokens[pos].0 == closer {
        Ok((acc, pos + 1))
    } else {
        match parse_value(tokens, pos) {
            Ok((v, next)) => if pos < next <= tokens.len() {
                parse_items(tokens, next, closer, acc.push(v))
            } else {
                Err(unterminated_message(closer))
            },
            Err(e) => Err(e),
        }
    }
}

/// The keyed values from token `pos` up to the closing brace, bound one
/// after the other on top of `acc`, and the position after the brace.
pub open spec fn parse_pairs(
    tokens: Seq<(TokenType, Seq<char>)>,
    pos: int,
    acc: Seq<(Seq<char>, Value)>,
) -> Result<(Seq<(Seq<char>, Value)>, int), Seq<char>>
    decreases tokens.len() - pos, 1nat,
{
    if pos < 0 || pos >= tokens.len() {
        Err(unterminated_message(TokenType::HashMapEnd))
    } else if tokens[pos].0 == TokenType::HashMapEnd {
        Ok((acc, pos + 1))
    } else if tokens[pos].0 == TokenType::Keyword {
        match parse_value(tokens, pos + 1) {
            Ok((v, next)) => if pos < next <= tokens.len() {
                parse_pairs(tokens, next, store(acc, without_first(tokens[pos].1), v))
            } else {
                Err(unterminated_message(TokenType::HashMapEnd))
            },
            Err(e) => Err(e),
        }
    } else {
        Err("Expected keyword but got "@ + debug_quoted(tokens[pos].1))
    }
}

/// The value that the tokens start with. Tokens after it are not read.
pub open spec fn parsed(tokens: Seq<(TokenType, Seq<char>)>) -> Result<Value, Seq<char>> {
    match parse_value(tokens, 0) {
        Ok((v, _)) => Ok(v),
        Err(e) => Err(e),
    }
}

/// The text of a token without its first character.
fn drop_first(text: &String) -> (r: String)
    ensures
        r@ == without_first(text@),
{
    let n: usize = text.as_str().unicode_len();
    if n >= 1 {
        String::from_str(text.as_str().substring_char(1, n))
    } else {
        text.clone()
    }
}

/// The value of a symbol token.
fn symbol_of(text: &String) -> (r: RispType)
    ensures
        r@ == symbol_value(text@),
{
    if *text == String::from_str("true") {
        RispType::Bool(true)
    } else if *text == String::from_str("false") {
        RispType::Bool(false)
    } else {
        RispType::Symbol(text.clone())
    }
}

/// The message for a collection that the input ends in.
fn unterminated(closer: TokenType) -> (r: RispError)
    ensures
        r@ == unterminated_message(closer),
{
    match closer {
        TokenType::ListEnd => error("List should end with ) but just ends"),
        TokenType::VectorEnd => error("Vector should end with ] but just ends"),
        _ => error("HashMap should end with } but just ends"),
    }
}

/// Parses the value that starts at token `pos`; gives it with the position
/// after it, which lies further on.
pub fn parse_internal(tokens: &Vec<Token>, pos: usize) -> (r: Result<(RispType, usize), RispError>)
    ensures
        match r {
            Ok((v, next)) => parse_value(tokens_view(tokens@), pos as int) == Ok::<
                (Value, int),
                Seq<char>,
            >((v@, next as int)) && pos < next <= tokens.len(),
            Err(e) => parse_value(tokens_view(tokens@), pos as int) == Err::<
                (Value, int),
                Seq<char>,
            >(e@),
        },
    decreases tokens.len() - pos, 0nat,
{
    if pos >= tokens.len() {
        return Err(error("no input"));
    }
    let text = &tokens[pos].1;
    match tokens[pos].0 {
        TokenType::Number => match parse_integer(text.as_str()) {
            Some(n) => Ok((RispType::Int(n), pos + 1)),
            None => Err(error("Invalid number")),
        },
        TokenType::Symbol => Ok((symbol_of(text), pos + 1)),
        TokenType::Keyword => Ok((RispType::Keyword(drop_first(text)), pos + 1)),
        TokenType::Str => {
            let n: usize = text.as_str().unicode_len();
            if n >= 2 {
                let inner = String::from_str(text.as_str().substring_char(1, n - 1));
                Ok((RispType::Str(inner), pos + 1))
            } else {
                Err(error("String without quotes"))
            }
        },
        TokenType::ListStart => match parse_sequence(tokens, pos + 1, TokenType::ListEnd) {
            Ok((items, next)) => Ok((RispType::List(items), next)),
            Err(e) => Err(e),
        },
        TokenType::VectorStart => match parse_sequence(tokens, pos + 1, TokenType::VectorEnd) {
            Ok((items, next)) => Ok((RispType::Vector(items), next)),
            Err(e) => Err(e),
        },
        TokenType::HashMapStart => match parse_entries(tokens, pos + 1) {
            Ok((entries, next)) => Ok((RispType::Mapping(entries), next)),
            Err(e) => Err(e),
        },
        TokenType::ListEnd => Err(error("Unexpected )")),
        TokenType::VectorEnd => Err(error("Unexpected ]")),
        TokenType::HashMapEnd => Err(error("Unexpected }")),
    }
}

/// Parses values from token `pos` up to the token of kind `closer`.
fn parse_sequence(tokens: &Vec<Token>, pos: usize, closer: TokenType) -> (r: Result<
    (Vec<RispType>, usize),
    RispError,
>)
    requires
        pos <= tokens.len(),
    ensures
        match r {
            Ok((items, next)) => parse_items(
                tokens_view(tokens@),
                pos as int,
                closer,
                Seq::empty(),
            ) == Ok::<(Seq<Value>, int), Seq<char>>((values_view(items@), next as int)) && pos
                < next <= tokens.len(),
            Err(e) => parse_items(tokens_view(tokens@), pos as int, closer, Seq::empty()) == Err::<
                (Seq<Value>, int),
                Seq<char>,
            >(e@),
        },
    decreases tokens.len() - pos, 1nat,
{
    let ghost tv = tokens_view(tokens@);
    let mut out: Vec<RispType> = Vec::new();
    let mut p: usize = pos;
    proof {
        assert(values_view(out@) =~= Seq::<Value>::empty());
    }
    loop
        invariant
            pos <= p <= tokens.len(),
            tv == tokens_view(tokens@),
            parse_items(tv, pos as int, closer, Seq::empty()) == parse_items(
                tv,
                p as int,
                closer,
                values_view(out@),
            ),
        decreases tokens.len() - p,
    {
        if p >= tokens.len() {
            return Err(unterminated(closer));
        }
        if tokens[p].0 == closer {
            return Ok((out, p + 1));
        }
        match parse_internal(tokens, p) {
            Ok((v, next)) => {
                proof {
                    lemma_values_view_push(out@, v);
                }
                out.push(v);
                p = next;
            },
            Err(e) => {
                return Err(e);
            },
        }
    }
}

/// Parses keyed values from token `pos` up to the closing brace.
fn parse_entries(tokens: &Vec<Token>, pos: usize) -> (r: Result<
    (Vec<(String, RispType)>, usize),
    RispError,
>)
    requires
        pos <= tokens.len(),
    ensures
        match r {
            Ok((entries, next)) => parse_pairs(tokens_view(tokens@), pos as int, Seq::empty())
                == Ok::<(Seq<(Seq<char>, Value)>, int), Seq<char>>(
                (entries_view(entries@), next as int),
            ) && pos < next <= tokens.len(),
            Err(e) => parse_pairs(tokens_view(tokens@), pos as int, Seq::empty()) == Err::<
                (Seq<(Seq<char>, Value)>, int),
                Seq<char>,
            >(e@),
        },
    decreases tokens.len() - pos, 1nat,
{
    let ghost tv = tokens_view(tokens@);
    let mut out: Vec<(String, RispType)> = Vec::new();
    let mut p: usize = pos;
    proof {
        assert(entries_view(out@) =~= Seq::<(Seq<char>, Value)>::empty());
    }
    loop
        invariant
            pos <= p <= tokens.len(),
            tv == tokens_view(tokens@),
            parse_pairs(tv, pos as int, Seq::empty()) == parse_pairs(
                tv,
                p as int,
                entries_view(out@),
            ),
        decreases tokens.len() - p,
    {
        if p >= tokens.len() {
            return Err(unterminated(TokenType::HashMapEnd));
        }
        if tokens[p].0 == TokenType::HashMapEnd {
            return Ok((out, p + 1));
        }
        if tokens[p].0 == TokenType::Keyword {
            let key = drop_first(&tokens[p].1);
            match parse_internal(tokens, p + 1) {
                Ok((v, next)) => {
                    store_entry(&mut out, key, v);
                    p = next;
                },
                Err(e) => {
                    return Err(e);
                },
            }
        } else {
            return Err(
                error_with("Expected keyword but got ", &debug_quote(tokens[p].1.as_str())),
            );
        }
    }
}

/// Parses the value that the tokens start with.
pub fn parse_tokens(tokens: &Vec<Token>) -> (r: RispResult)
    ensures
        result_view(r) == parsed(tokens_view(tokens@)),
{
    match parse_internal(tokens, 0) {
        Ok((v, _)) => Ok(v),
        Err(e) => Err(e),
    }
}

/// Parses the first value that `input` writes down.
pub fn parse(input: &str) -> (r: RispResult)
    ensures
        result_view(r) == parsed(tokens_of(input@)),
{
    let tokens = tokenize(input);
    parse_tokens(&tokens)
}

/// A value takes at least one token, and none beyond the last.
pub proof fn lemma_parse_advances(tokens: Seq<(TokenType, Seq<char>)>, pos: int)
    requires
        0 <= pos,
    ensures
        match parse_value(tokens, pos) {
            Ok((_, next)) => pos < next <= tokens.len(),
            Err(_) => true,
        },
    decreases tokens.len() - pos, 0nat,
{
    if pos < tokens.len() {
        match tokens[pos].0 {
            TokenType::ListStart => lemma_items_advance(
                tokens,
                pos + 1,
                TokenType::ListEnd,
                Seq::empty(),
            ),
            TokenType::VectorStart => lemma_items_advance(
                tokens,
                pos + 1,
                TokenType::VectorEnd,
                Seq::empty(),
            ),
            TokenType::HashMapStart => lemma_pairs_advance(tokens, pos + 1, Seq::empty()),
            _ => {},
        }
    }
}

/// A run of values up to its closer ends after at least one token.
pub proof fn lemma_items_advance(
    tokens: Seq<(TokenType, Seq<char>)>,
    pos: int,
    closer: TokenType,
    acc: Seq<Value>,
)
    requires
        0 <= pos,
    ensures
        match parse_items(tokens, pos, closer, acc) {
            Ok((_, next)) => pos < next <= tokens.len(),
            Err(_) => true,
        },
    decreases tokens.len() - pos, 1nat,
{
    if pos < tokens.len() && tokens[pos].0 != closer {
        lemma_parse_advances(tokens, pos);
        match parse_value(tokens, pos) {
            Ok((v, next)) => lemma_items_advance(tokens, next, closer, acc.push(v)),
            Err(_) => {},
        }
    }
}

/// A run of keyed values up to the brace ends after at least one token.
pub proof fn lemma_pairs_advance(
    tokens: Seq<(TokenType, Seq<char>)>,
    pos: int,
    acc: Seq<(Seq<char>, Value)>,
)
    requires
        0 <= pos,
    ensures
        match parse_pairs(tokens, pos, acc) {
            Ok((_, next)) => pos < next <= tokens.len(),
            Err(_) => true,
        },
    decreases tokens.len() - pos, 1nat,
{
    if pos < tokens.len() && tokens[pos].0 == TokenType::Keyword {
        lemma_parse_advances(tokens, pos + 1);
        match parse_value(tokens, pos + 1) {
            Ok((v, next)) => lemma_pairs_advance(
                tokens,
                next,
                store(acc, without_first(tokens[pos].1), v),
            ),
            Err(_) => {},
        }
    }
}

/// Whether no map in the value holds a key twice.
pub open spec fn well_keyed(v: Value) -> bool
    decreases v,
{
    match v {
        Value::List(items) => forall|i: int|
            0 <= i < items.len() ==> well_keyed(#[trigger] items[i]),
        Value::Vector(items) => forall|i: int|
            0 <= i < items.len() ==> well_keyed(#[trigger] items[i]),
        Value::Mapping(entries) => distinct_keys(entries) && forall|i: int|
            0 <= i < entries.len() ==> well_keyed((#[trigger] entries[i]).1),
        Value::Closure { params, variadic, body } => well_keyed(*body) && forall|i: int|
            0 <= i < params.len() ==> well_keyed(#[trigger] params[i]),
        _ => true,
    }
}

/// Whether no key occurs twice in the entries, nor in a map inside one of
/// their values.
pub open spec fn well_keyed_entries(entries: Seq<(Seq<char>, Value)>) -> bool {
    &&& distinct_keys(entries)
    &&& forall|i: int| 0 <= i < entries.len() ==> well_keyed((#[trigger] entries[i]).1)
}

/// Binding a well-keyed value in well-keyed entries leaves them well-keyed.
pub proof fn lemma_store_well_keyed(entries: Seq<(Seq<char>, Value)>, key: Seq<char>, v: Value)
    requires
        well_keyed_entries(entries),
        well_keyed(v),
    ensures
        well_keyed_entries(store(entries, key, v)),
{
    let after = store(entries, key, v);
    lemma_store_keeps_distinct(entries, key, v);
    assert forall|i: int| 0 <= i < after.len() implies well_keyed((#[trigger] after[i]).1) by {
        if has_key(entries, key) {
            let k = first_index(entries, key);
            assert(is_first_at(entries, key, k));
            if i != k {
                assert(after[i] == entries[i]);
            }
        } else {
            if i < entries.len() {
                assert(after[i] == entries[i]);
            }
        }
    }
}

/// No map in a parsed value holds a key twice.
pub proof fn lemma_parsed_well_keyed(tokens: Seq<(TokenType, Seq<char>)>, pos: int)
    ensures
        match parse_value(tokens, pos) {
            Ok((v, _)) => well_keyed(v),
            Err(_) => true,
        },
    decreases tokens.len() - pos, 0nat,
{
    if 0 <= pos < tokens.len() {
        match tokens[pos].0 {
            TokenType::ListStart => lemma_items_well_keyed(
                tokens,
                pos + 1,
                TokenType::ListEnd,
                Seq::empty(),
            ),
            TokenType::VectorStart => lemma_items_well_keyed(
                tokens,
                pos + 1,
                TokenType::VectorEnd,
                Seq::empty(),
            ),
            TokenType::HashMapStart => lemma_pairs_well_keyed(tokens, pos + 1, Seq::empty()),
            _ => {},
        }
    }
}

/// No map in parsed items holds a key twice.
pub proof fn lemma_items_well_keyed(
    tokens: Seq<(TokenType, Seq<char>)>,
    pos: int,
    closer: TokenType,
    acc: Seq<Value>,
)
    requires
        forall|i: int| 0 <= i < acc.len() ==> well_keyed(#[trigger] acc[i]),
    ensures
        match parse_items(tokens, pos, closer, acc) {
            Ok((items, _)) => forall|i: int|
                0 <= i < items.len() ==> well_keyed(#[trigger] items[i]),
            Err(_) => true,
        },
    decreases tokens.len() - pos, 1nat,
{
    if 0 <= pos < tokens.len() && tokens[pos].0 != closer {
        lemma_parsed_well_keyed(tokens, pos);
        match parse_value(tokens, pos) {
            Ok((v, next)) => {
                if pos < next <= tokens.len() {
                    assert forall|i: int| 0 <= i < acc.push(v).len() implies well_keyed(
                        #[trigger] acc.push(v)[i],
                    ) by {
                        if i < acc.len() {
                            assert(acc.push(v)[i] == acc[i]);
                        }
                    }
                    lemma_items_well_keyed(tokens, next, closer, acc.push(v));
                }
            },
            Err(_) => {},
        }
    }
}

/// No key occurs twice in parsed entries, nor in a map inside them.
pub proof fn lemma_pairs_well_keyed(
    tokens: Seq<(TokenType, Seq<char>)>,
    pos: int,
    acc: Seq<(Seq<char>, Value)>,
)
    requires
        well_keyed_entries(acc),
    ensures
        match parse_pairs(tokens, pos, acc) {
            Ok((entries, _)) => well_keyed_entries(entries),
            Err(_) => true,
        },
    decreases tokens.len() - pos, 1nat,
{
    if 0 <= pos < tokens.len() && tokens[pos].0 != TokenType::HashMapEnd && tokens[pos].0
        == TokenType::Keyword {
        lemma_parsed_well_keyed(tokens, pos + 1);
        match parse_value(tokens, pos + 1) {
            Ok((v, next)) => {
                if pos < next <= tokens.len() {
                    lemma_store_well_keyed(acc, without_first(tokens[pos].1), v);
                    lemma_pairs_well_keyed(
                        tokens,
                        next,
                        store(acc, without_first(tokens[pos].1), v),
                    );
                }
            },
            Err(_) => {},
        }
    }
}

} // verus!
