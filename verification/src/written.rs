//! The written form of a value, as a run of tokens, and the law that reading
//! it gives the value back.
use crate::eval::{eval_spec, is_data, lemma_data_evaluates_to_itself, CALL_DEPTH};
use crate::parse::{int_of_text, parse_items, parse_pairs, parse_value, parsed, without_first};
use crate::run;
use crate::tokenize::{tokens_of, TokenType};
use crate::types::{distinct_keys, lemma_no_key, store, Value};
use vstd::prelude::*;

verus! {

/// A text that is read as the number `n`.
pub open spec fn numeral(n: i64) -> Seq<char> {
    choose|t: Seq<char>| int_of_text(t) == Some(n)
}

/// The tokens that write a value down. A value that cannot be written (see
/// `writable`) has none.
pub open spec fn token_run(v: Value) -> Seq<(TokenType, Seq<char>)>
    decreases v, 0nat,
{
    match v {
        Value::Int(n) => seq![(TokenType::Number, numeral(n))],
        Value::Bool(b) => seq![
            (
                TokenType::Symbol,
                if b {
                    "true"@
                } else {
                    "false"@
                },
            ),
        ],
        Value::Symbol(name) => seq![(TokenType::Symbol, name)],
        Value::Keyword(name) => seq![(TokenType::Keyword, ":"@ + name)],
        Value::Str(s) => seq![(TokenType::Str, "\""@ + s + "\""@)],
        Value::List(items) => seq![(TokenType::ListStart, "("@)] + items_run(items, 0)
            + seq![(TokenType::ListEnd, ")"@)],
        Value::Vector(items) => seq![(TokenType::VectorStart, "["@)] + items_run(items, 0)
            + seq![(TokenType::VectorEnd, "]"@)],
        Value::Mapping(entries) => seq![(TokenType::HashMapStart, "{"@)] + entries_run(entries, 0)
            + seq![(TokenType::HashMapEnd, "}"@)],
        _ => Seq::empty(),
    }
}

/// The tokens of the items from position `i` on, one value after the other.
pub open spec fn items_run(items: Seq<Value>, i: int) -> Seq<(TokenType, Seq<char>)>
    decreases items, items.len() - i,
{
    if i < 0 || i >= items.len() {
        Seq::empty()
    } else {
        token_run(items[i]) + items_run(items, i + 1)
    }
}

/// The tokens of the entries from position `i` on: each key as a keyword,
/// then its value.
pub open spec fn entries_run(entries: Seq<(Seq<char>, Value)>, i: int) -> Seq<
    (TokenType, Seq<char>),
>
    decreases entries, entries.len() - i,
{
    if i < 0 || i >= entries.len() {
        Seq::empty()
    } else {
        seq![(TokenType::Keyword, ":"@ + entries[i].0)] + token_run(entries[i].1) + entries_run(
            entries,
            i + 1,
        )
    }
}

/// Whether a value can be written down and read back: it holds no `Nil` and
/// no function, its symbols are not `true` or `false`, its numbers have a
/// numeral, and no map in it holds a key twice.
pub open spec fn writable(v: Value) -> bool
    decreases v,
{
    match v {
        Value::Int(n) => int_of_text(numeral(n)) == Some(n),
        Value::Bool(_) => true,
        Value::Symbol(name) => name != "true"@ && name != "false"@,
        Value::Keyword(_) => true,
        Value::Str(_) => true,
        Value::List(items) => forall|i: int|
            0 <= i < items.len() ==> writable(#[trigger] items[i]),
        Value::Vector(items) => forall|i: int|
            0 <= i < items.len() ==> writable(#[trigger] items[i]),
        Value::Mapping(entries) => distinct_keys(entries) && forall|i: int|
            0 <= i < entries.len() ==> writable((#[trigger] entries[i]).1),
        _ => false,
    }
}

/// Whether `part` stands in `tokens` from position `pos` on.
pub open spec fn stands_at(
    tokens: Seq<(TokenType, Seq<char>)>,
    pos: int,
    part: Seq<(TokenType, Seq<char>)>,
) -> bool {
    &&& 0 <= pos
    &&& pos + part.len() <= tokens.len()
    &&& forall|k: int| 0 <= k < part.len() ==> tokens[pos + k] == #[trigger] part[k]
}

/// Whether a kind of token closes a collection.
pub open spec fn is_closer(kind: TokenType) -> bool {
    kind == TokenType::ListEnd || kind == TokenType::VectorEnd || kind == TokenType::HashMapEnd
}

/// Where two runs, one after the other, stand at a position, the first
/// stands there and the second right after it.
pub proof fn lemma_stands_split(
    tokens: Seq<(TokenType, Seq<char>)>,
    pos: int,
    a: Seq<(TokenType, Seq<char>)>,
    b: Seq<(TokenType, Seq<char>)>,
)
    requires
        stands_at(tokens, pos, a + b),
    ensures
        stands_at(tokens, pos, a),
        stands_at(tokens, pos + a.len(), b),
{
    assert forall|k: int| 0 <= k < a.len() implies tokens[pos + k] == #[trigger] a[k] by {
        assert((a + b)[k] == a[k]);
    }
    assert forall|k: int| 0 <= k < b.len() implies tokens[pos + a.len() + k] == #[trigger] b[k] by {
        assert((a + b)[a.len() + k] == b[k]);
    }
}

/// The tokens of a writable value, read from where they stand, give the
/// value back and end right after them. They are at least one, and the
/// first closes no collection.
pub proof fn lemma_reads_back(tokens: Seq<(TokenType, Seq<char>)>, pos: int, v: Value)
    requires
        writable(v),
        stands_at(tokens, pos, token_run(v)),
    ensures
        parse_value(tokens, pos) == Ok::<(Value, int), Seq<char>>((v, pos + token_run(v).len())),
        token_run(v).len() >= 1,
        !is_closer(token_run(v)[0].0),
    decreases v, 0nat,
{
    let run = token_run(v);
    match v {
        Value::Int(n) => {
            assert(tokens[pos + 0] == run[0]);
        },
        Value::Bool(b) => {
            reveal_strlit("true");
            reveal_strlit("false");
            assert("true"@.len() == 4 && "false"@.len() == 5);
            assert(tokens[pos + 0] == run[0]);
        },
        Value::Symbol(name) => {
            assert(tokens[pos + 0] == run[0]);
        },
        Value::Keyword(name) => {
            reveal_strlit(":");
            assert(tokens[pos + 0] == run[0]);
            assert(without_first(":"@ + name) =~= name);
        },
        Value::Str(s) => {
            reveal_strlit("\"");
            assert(tokens[pos + 0] == run[0]);
            let text = "\""@ + s + "\""@;
            assert(text.subrange(1, text.len() - 1) =~= s);
        },
        Value::List(items) => {
            let open = seq![(TokenType::ListStart, "("@)];
            let close = seq![(TokenType::ListEnd, ")"@)];
            assert(run == open + items_run(items, 0) + close);
            assert(run =~= open + (items_run(items, 0) + close));
            lemma_stands_split(tokens, pos, open, items_run(items, 0) + close);
            assert(tokens[pos + 0] == open[0]);
            lemma_stands_split(tokens, pos + 1, items_run(items, 0), close);
            assert(tokens[pos + 1 + items_run(items, 0).len() + 0] == close[0]);
            lemma_reads_items_back(tokens, pos + 1, items, 0, TokenType::ListEnd, Seq::empty());
            assert(Seq::<Value>::empty() + items.skip(0) =~= items);
        },
        Value::Vector(items) => {
            let open = seq![(TokenType::VectorStart, "["@)];
            let close = seq![(TokenType::VectorEnd, "]"@)];
            assert(run == open + items_run(items, 0) + close);
            assert(run =~= open + (items_run(items, 0) + close));
            lemma_stands_split(tokens, pos, open, items_run(items, 0) + close);
            assert(tokens[pos + 0] == open[0]);
            lemma_stands_split(tokens, pos + 1, items_run(items, 0), close);
            assert(tokens[pos + 1 + items_run(items, 0).len() + 0] == close[0]);
            lemma_reads_items_back(tokens, pos + 1, items, 0, TokenType::VectorEnd, Seq::empty());
            assert(Seq::<Value>::empty() + items.skip(0) =~= items);
        },
        Value::Mapping(entries) => {
            let open = seq![(TokenType::HashMapStart, "{"@)];
            let close = seq![(TokenType::HashMapEnd, "}"@)];
            assert(run == open + entries_run(entries, 0) + close);
            assert(run =~= open + (entries_run(entries, 0) + close));
            lemma_stands_split(tokens, pos, open, entries_run(entries, 0) + close);
            assert(tokens[pos + 0] == open[0]);
            lemma_stands_split(tokens, pos + 1, entries_run(entries, 0), close);
            assert(tokens[pos + 1 + entries_run(entries, 0).len() + 0] == close[0]);
            assert(entries.take(0) =~= Seq::<(Seq<char>, Value)>::empty());
            lemma_reads_entries_back(tokens, pos + 1, entries, 0);
        },
        _ => {},
    }
}

/// The tokens of writable items, followed by the closer, are read as the
/// items.
pub proof fn lemma_reads_items_back(
    tokens: Seq<(TokenType, Seq<char>)>,
    pos: int,
    items: Seq<Value>,
    i: int,
    closer: TokenType,
    acc: Seq<Value>,
)
    requires
        is_closer(closer),
        0 <= i <= items.len(),
        forall|j: int| 0 <= j < items.len() ==> writable(#[trigger] items[j]),
        stands_at(tokens, pos, items_run(items, i)),
        pos + items_run(items, i).len() < tokens.len(),
        tokens[pos + items_run(items, i).len()].0 == closer,
    ensures
        parse_items(tokens, pos, closer, acc) == Ok::<(Seq<Value>, int), Seq<char>>(
            (acc + items.skip(i), pos + items_run(items, i).len() + 1),
        ),
    decreases items, items.len() - i,
{
    if i < items.len() {
        let first = token_run(items[i]);
        let others = items_run(items, i + 1);
        lemma_stands_split(tokens, pos, first, others);
        lemma_reads_back(tokens, pos, items[i]);
        assert(tokens[pos + 0] == first[0]);
        lemma_reads_items_back(tokens, pos + first.len(), items, i + 1, closer, acc.push(items[i]));
        assert(acc.push(items[i]) + items.skip(i + 1) =~= acc + items.skip(i));
    } else {
        assert(acc + items.skip(i) =~= acc);
    }
}

/// The tokens of writable entries with distinct keys, followed by the
/// closing brace, are read as the entries.
pub proof fn lemma_reads_entries_back(
    tokens: Seq<(TokenType, Seq<char>)>,
    pos: int,
    entries: Seq<(Seq<char>, Value)>,
    i: int,
)
    requires
        0 <= i <= entries.len(),
        distinct_keys(entries),
        forall|j: int| 0 <= j < entries.len() ==> writable((#[trigger] entries[j]).1),
        stands_at(tokens, pos, entries_run(entries, i)),
        pos + entries_run(entries, i).len() < tokens.len(),
        tokens[pos + entries_run(entries, i).len()].0 == TokenType::HashMapEnd,
    ensures
        parse_pairs(tokens, pos, entries.take(i)) == Ok::<
            (Seq<(Seq<char>, Value)>, int),
            Seq<char>,
        >((entries, pos + entries_run(entries, i).len() + 1)),
    decreases entries, entries.len() - i,
{
    let acc = entries.take(i);
    if i < entries.len() {
        reveal_strlit(":");
        let key = seq![(TokenType::Keyword, ":"@ + entries[i].0)];
        let value = token_run(entries[i].1);
        let others = entries_run(entries, i + 1);
        assert(entries_run(entries, i) =~= key + (value + others));
        lemma_stands_split(tokens, pos, key, value + others);
        assert(tokens[pos + 0] == key[0]);
        lemma_stands_split(tokens, pos + 1, value, others);
        lemma_reads_back(tokens, pos + 1, entries[i].1);
        assert(without_first(":"@ + entries[i].0) =~= entries[i].0);
        assert forall|j: int| 0 <= j < acc.len() implies (#[trigger] acc[j]).0 != entries[i].0 by {
            assert(acc[j] == entries[j]);
        }
        lemma_no_key(acc, entries[i].0);
        assert(store(acc, entries[i].0, entries[i].1) =~= entries.take(i + 1));
        lemma_reads_entries_back(tokens, pos + 1 + value.len(), entries, i + 1);
    } else {
        assert(acc =~= entries);
    }
}

/// Reading the tokens of a writable value gives the value back, whatever
/// tokens follow them.
pub proof fn lemma_written_value_parses(v: Value, rest: Seq<(TokenType, Seq<char>)>)
    requires
        writable(v),
    ensures
        parsed(token_run(v) + rest) == Ok::<Value, Seq<char>>(v),
{
    let tokens = token_run(v) + rest;
    assert forall|k: int| 0 <= k < token_run(v).len() implies tokens[0 + k] == #[trigger] token_run(
        v,
    )[k] by {}
    lemma_reads_back(tokens, 0, v);
}

/// Plain data that is written down, read and evaluated is the data again,
/// and the environment is as before, whatever it holds.
pub proof fn lemma_round_trip(v: Value, env: Seq<(Seq<char>, Value)>, depth: nat)
    requires
        writable(v),
        is_data(v),
    ensures
        parsed(token_run(v)) == Ok::<Value, Seq<char>>(v),
        eval_spec(parsed(token_run(v))->Ok_0, env, depth) == (Ok::<Value, Seq<char>>(v), env),
{
    lemma_written_value_parses(v, Seq::empty());
    assert(token_run(v) + Seq::<(TokenType, Seq<char>)>::empty() =~= token_run(v));
    lemma_data_evaluates_to_itself(v, env, depth);
}

/// A text whose tokens write plain data down evaluates to that data, in
/// any environment, and leaves the environment as it is.
pub proof fn lemma_text_round_trip(text: Seq<char>, v: Value, env: Seq<(Seq<char>, Value)>)
    requires
        writable(v),
        is_data(v),
        tokens_of(text) == token_run(v),
    ensures
        run(text, env) == (Ok::<Value, Seq<char>>(v), env),
{
    lemma_round_trip(v, env, CALL_DEPTH as nat);
}

} // verus!
