//! The value model: every runtime value, its mathematical view, and the
//! error type shared by the parser and the evaluator.
use std::rc::Rc;
use vstd::prelude::*;
use vstd::string::StringExecFns;

verus! {

/// The native procedures of the language, told apart by the name they are
/// registered under.
#[derive(Debug, Clone, Copy, PartialEq, Eq, Structural)]
pub enum Builtin {
    Sum,
    Sub,
    Mul,
    Div,
    Rep,
}

/// A user-defined function: parameter symbols, an optional parameter that
/// captures the trailing arguments, and the unevaluated body.
#[derive(Debug)]
pub struct RispFunc {
    pub args: Vec<RispType>,
    pub variadic_arg: Option<String>,
    pub body: Rc<RispType>,
}

/// A runtime value. A `Mapping` holds its entries in insertion order; the
/// order plays no part in `==`.
#[derive(Debug)]
pub enum RispType {
    Nil,
    Bool(bool),
    Int(i64),
    Str(String),
    List(Vec<RispType>),
    Vector(Vec<RispType>),
    Mapping(Vec<(String, RispType)>),
    Keyword(String),
    Symbol(String),
    Function(Builtin),
    RispFunction(RispFunc),
}

/// The mathematical model of a `RispType`.
pub enum Value {
    Nil,
    Bool(bool),
    Int(i64),
    Str(Seq<char>),
    List(Seq<Value>),
    Vector(Seq<Value>),
    Mapping(Seq<(Seq<char>, Value)>),
    Keyword(Seq<char>),
    Symbol(Seq<char>),
    Function(Builtin),
    Closure { params: Seq<Value>, variadic: Option<Seq<char>>, body: Box<Value> },
}

/// The models of a run of values, in order.
pub open spec fn values_view(items: Seq<RispType>) -> Seq<Value>
    decreases items,
{
    Seq::new(
        items.len(),
        |i: int|
            if 0 <= i < items.len() {
                value_of(items[i])
            } else {
                Value::Nil
            },
    )
}

/// The models of a run of keyed values, in order.
pub open spec fn entries_view(entries: Seq<(String, RispType)>) -> Seq<(Seq<char>, Value)>
    decreases entries,
{
    Seq::new(
        entries.len(),
        |i: int|
            if 0 <= i < entries.len() {
                (entries[i].0@, value_of(entries[i].1))
            } else {
                (Seq::empty(), Value::Nil)
            },
    )
}

impl View for RispType {
    type V = Value;

    open spec fn view(&self) -> Value {
        value_of(*self)
    }
}

/// The model of a value.
pub open spec fn value_of(v: RispType) -> Value
    decreases v,
{
    match v {
        RispType::Nil => Value::Nil,
        RispType::Bool(b) => Value::Bool(b),
        RispType::Int(n) => Value::Int(n),
        RispType::Str(s) => Value::Str(s@),
        RispType::List(items) => Value::List(values_view(items@)),
        RispType::Vector(items) => Value::Vector(values_view(items@)),
        RispType::Mapping(entries) => Value::Mapping(entries_view(entries@)),
        RispType::Keyword(s) => Value::Keyword(s@),
        RispType::Symbol(s) => Value::Symbol(s@),
        RispType::Function(f) => Value::Function(f),
        RispType::RispFunction(f) => Value::Closure {
            params: values_view(f.args@),
            variadic: match f.variadic_arg {
                Some(s) => Some(s@),
                None => None,
            },
            body: Box::new(value_of(*f.body)),
        },
    }
}

/// An error of the parser or the evaluator: a message for a human reader.
#[derive(Debug, PartialEq)]
pub struct RispError(pub String);

impl View for RispError {
    type V = Seq<char>;

    open spec fn view(&self) -> Seq<char> {
        self.0@
    }
}

/// What the parser and the evaluator return.
pub type RispResult = Result<RispType, RispError>;

/// The model of a result: the value's model, or the error's message.
pub open spec fn result_view(r: RispResult) -> Result<Value, Seq<char>> {
    match r {
        Ok(v) => Ok(v@),
        Err(e) => Err(e@),
    }
}

/// Whether `i` is the first position of `entries` that holds `key`.
pub open spec fn is_first_at(entries: Seq<(Seq<char>, Value)>, key: Seq<char>, i: int) -> bool {
    &&& 0 <= i < entries.len()
    &&& entries[i].0 == key
    &&& forall|j: int| 0 <= j < i ==> (#[trigger] entries[j]).0 != key
}

/// Whether some entry holds `key`.
pub open spec fn has_key(entries: Seq<(Seq<char>, Value)>, key: Seq<char>) -> bool {
    exists|i: int| is_first_at(entries, key, i)
}

/// The first position of `entries` that holds `key`.
pub open spec fn first_index(entries: Seq<(Seq<char>, Value)>, key: Seq<char>) -> int {
    choose|i: int| is_first_at(entries, key, i)
}

/// The value that `entries` binds to `key`, if any.
pub open spec fn lookup(entries: Seq<(Seq<char>, Value)>, key: Seq<char>) -> Option<Value> {
    if has_key(entries, key) {
        Some(entries[first_index(entries, key)].1)
    } else {
        None
    }
}

/// `entries` with `key` bound to `value`: an entry that holds the key keeps
/// its place and takes the new value, a new key goes to the end.
pub open spec fn store(entries: Seq<(Seq<char>, Value)>, key: Seq<char>, value: Value) -> Seq<
    (Seq<char>, Value),
> {
    if has_key(entries, key) {
        entries.update(first_index(entries, key), (key, value))
    } else {
        entries.push((key, value))
    }
}

/// Whether no key occurs twice in `entries`.
pub open spec fn distinct_keys(entries: Seq<(Seq<char>, Value)>) -> bool {
    forall|i: int, j: int|
        0 <= i < j < entries.len() ==> (#[trigger] entries[i]).0 != (#[trigger] entries[j]).0
}

/// A position that holds the key is the first one when found by a scan that
/// saw no earlier one.
pub proof fn lemma_first_index(entries: Seq<(Seq<char>, Value)>, key: Seq<char>, i: int)
    requires
        is_first_at(entries, key, i),
    ensures
        has_key(entries, key),
        first_index(entries, key) == i,
{
    let k = first_index(entries, key);
    assert(is_first_at(entries, key, k));
    if k < i {
        assert(entries[k].0 != key);
    }
    if i < k {
        assert(entries[i].0 != key);
    }
}

/// A scan that found the key nowhere shows that it is not bound.
pub proof fn lemma_no_key(entries: Seq<(Seq<char>, Value)>, key: Seq<char>)
    requires
        forall|j: int| 0 <= j < entries.len() ==> (#[trigger] entries[j]).0 != key,
    ensures
        !has_key(entries, key),
{
    if has_key(entries, key) {
        let k = first_index(entries, key);
        assert(is_first_at(entries, key, k));
        assert(entries[k].0 != key);
    }
}

/// What the model of a run of keyed values holds at each position.
pub proof fn lemma_entries_view(entries: Seq<(String, RispType)>)
    ensures
        entries_view(entries).len() == entries.len(),
        forall|i: int|
            0 <= i < entries.len() ==> #[trigger] entries_view(entries)[i] == (
                entries[i].0@,
                entries[i].1@,
            ),
{
}

/// What the model of a run of values holds at each position.
pub proof fn lemma_values_view(items: Seq<RispType>)
    ensures
        values_view(items).len() == items.len(),
        forall|i: int| 0 <= i < items.len() ==> #[trigger] values_view(items)[i] == items[i]@,
{
}

/// The model of a run with one more value at its end.
pub proof fn lemma_values_view_push(items: Seq<RispType>, x: RispType)
    ensures
        values_view(items.push(x)) == values_view(items).push(x@),
{
    assert(values_view(items.push(x)) =~= values_view(items).push(x@));
}

/// The model of two runs joined is the models joined.
pub proof fn lemma_values_view_concat(a: Seq<RispType>, b: Seq<RispType>)
    ensures
        values_view(a + b) == values_view(a) + values_view(b),
{
    assert(values_view(a + b) =~= values_view(a) + values_view(b));
}

/// The model of a run of keyed values with one more at its end.
pub proof fn lemma_entries_view_push(entries: Seq<(String, RispType)>, key: String, x: RispType)
    ensures
        entries_view(entries.push((key, x))) == entries_view(entries).push((key@, x@)),
{
    assert(entries_view(entries.push((key, x))) =~= entries_view(entries).push((key@, x@)));
}

/// The position of the first entry that holds `key`.
pub fn find_key(entries: &Vec<(String, RispType)>, key: &String) -> (r: Option<usize>)
    ensures
        match r {
            Some(i) => is_first_at(entries_view(entries@), key@, i as int),
            None => !has_key(entries_view(entries@), key@),
        },
{
    let mut i: usize = 0;
    proof {
        lemma_entries_view(entries@);
    }
    while i < entries.len()
        invariant
            i <= entries.len(),
            entries_view(entries@).len() == entries.len(),
            forall|j: int|
                0 <= j < entries.len() ==> #[trigger] entries_view(entries@)[j] == (
                    entries[j].0@,
                    entries[j].1@,
                ),
            forall|j: int| 0 <= j < i ==> (#[trigger] entries_view(entries@)[j]).0 != key@,
        decreases entries.len() - i,
    {
        if entries[i].0 == *key {
            return Some(i);
        }
        i += 1;
    }
    proof {
        lemma_no_key(entries_view(entries@), key@);
    }
    None
}

/// Binds `key` to `value` in `entries`.
pub fn store_entry(entries: &mut Vec<(String, RispType)>, key: String, value: RispType)
    ensures
        entries_view(final(entries)@) == store(entries_view(old(entries)@), key@, value@),
{
    proof {
        lemma_entries_view(entries@);
    }
    match find_key(entries, &key) {
        Some(i) => {
            proof {
                lemma_first_index(entries_view(entries@), key@, i as int);
            }
            entries.set(i, (key, value));
            assert(entries_view(entries@) =~= store(entries_view(old(entries)@), key@, value@));
        },
        None => {
            entries.push((key, value));
            assert(entries_view(entries@) =~= store(entries_view(old(entries)@), key@, value@));
        },
    }
}

/// A deep copy of a run of values.
pub fn copy_values(items: &Vec<RispType>) -> (r: Vec<RispType>)
    ensures
        values_view(r@) == values_view(items@),
    decreases items,
{
    broadcast use vstd::std_specs::vec::axiom_vec_index_decreases;
    let mut out: Vec<RispType> = Vec::new();
    let mut i: usize = 0;
    while i < items.len()
        invariant
            i <= items.len(),
            out.len() == i,
            forall|j: int| 0 <= j < i ==> out[j]@ == items[j]@,
        decreases items.len() - i,
    {
        out.push(copy_value(&items[i]));
        i += 1;
    }
    assert(values_view(out@) =~= values_view(items@));
    out
}

/// A deep copy of the items of a run from position `from` up to `to`.
pub fn copy_range(items: &Vec<RispType>, from: usize, to: usize) -> (r: Vec<RispType>)
    requires
        from <= to <= items.len(),
    ensures
        values_view(r@) == values_view(items@).subrange(from as int, to as int),
{
    let mut out: Vec<RispType> = Vec::new();
    let mut i: usize = from;
    while i < to
        invariant
            from <= i <= to <= items.len(),
            out.len() == i - from,
            forall|j: int| 0 <= j < i - from ==> out[j]@ == items[j + from]@,
        decreases to - i,
    {
        out.push(copy_value(&items[i]));
        i += 1;
    }
    assert(values_view(out@) =~= values_view(items@).subrange(from as int, to as int));
    out
}

/// A deep copy of a run of keyed values.
pub fn copy_entries(entries: &Vec<(String, RispType)>) -> (r: Vec<(String, RispType)>)
    ensures
        entries_view(r@) == entries_view(entries@),
    decreases entries,
{
    broadcast use vstd::std_specs::vec::axiom_vec_index_decreases;
    let mut out: Vec<(String, RispType)> = Vec::new();
    let mut i: usize = 0;
    while i < entries.len()
        invariant
            i <= entries.len(),
            out.len() == i,
            forall|j: int| 0 <= j < i ==> out[j].0@ == entries[j].0@ && out[j].1@ == entries[j].1@,
        decreases entries.len() - i,
    {
        out.push((entries[i].0.clone(), copy_value(&entries[i].1)));
        i += 1;
    }
    assert(entries_view(out@) =~= entries_view(entries@));
    out
}

/// A deep copy of a value.
pub fn copy_value(v: &RispType) -> (r: RispType)
    ensures
        r@ == v@,
    decreases v,
{
    match v {
        RispType::Nil => RispType::Nil,
        RispType::Bool(b) => RispType::Bool(*b),
        RispType::Int(n) => RispType::Int(*n),
        RispType::Str(s) => RispType::Str(s.clone()),
        RispType::List(items) => RispType::List(copy_values(items)),
        RispType::Vector(items) => RispType::Vector(copy_values(items)),
        RispType::Mapping(entries) => RispType::Mapping(copy_entries(entries)),
        RispType::Keyword(s) => RispType::Keyword(s.clone()),
        RispType::Symbol(s) => RispType::Symbol(s.clone()),
        RispType::Function(f) => RispType::Function(*f),
        RispType::RispFunction(f) => {
            let variadic_arg = match &f.variadic_arg {
                Some(s) => Some(s.clone()),
                None => None,
            };
            RispType::RispFunction(
                RispFunc {
                    args: copy_values(&f.args),
                    variadic_arg,
                    body: Rc::new(copy_value(&*f.body)),
                },
            )
        },
    }
}

impl Clone for RispFunc {
    fn clone(&self) -> (r: Self)
        ensures
            RispType::RispFunction(r)@ == RispType::RispFunction(*self)@,
    {
        let variadic_arg = match &self.variadic_arg {
            Some(s) => Some(s.clone()),
            None => None,
        };
        RispFunc {
            args: copy_values(&self.args),
            variadic_arg,
            body: Rc::new(copy_value(&*self.body)),
        }
    }
}

impl Clone for RispType {
    fn clone(&self) -> (r: Self)
        ensures
            r@ == self@,
    {
        copy_value(self)
    }
}

impl Clone for RispError {
    fn clone(&self) -> (r: Self)
        ensures
            r@ == self@,
    {
        RispError(self.0.clone())
    }
}

/// The text that `std::fmt::Debug` gives for a value, as the derived
/// implementation writes it.
pub uninterp spec fn debug_text(v: Value) -> Seq<char>;

/// The text that `std::fmt::Debug` gives for a run of values.
pub uninterp spec fn debug_text_all(items: Seq<Value>) -> Seq<char>;

/// The text that `std::fmt::Debug` gives for a string: quoted and escaped.
pub uninterp spec fn debug_quoted(s: Seq<char>) -> Seq<char>;

/// Formats a value with `{:?}` (`std::fmt::Debug`, derived for `RispType`).
/// The contract only names the text: nothing is claimed of its shape.
#[verifier::external_body]
pub(crate) fn debug_string(v: &RispType) -> (s: String)
    ensures
        s@ == debug_text(v@),
{
    format!("{:?}", v)
}

/// Formats a run of values with `{:?}` (`std::fmt::Debug` for `Vec`).
/// The contract only names the text.
#[verifier::external_body]
pub(crate) fn debug_string_all(items: &Vec<RispType>) -> (s: String)
    ensures
        s@ == debug_text_all(values_view(items@)),
{
    format!("{:?}", items)
}

/// Formats a string with `{:?}` (`std::fmt::Debug` for `str`).
/// The contract only names the text.
#[verifier::external_body]
pub(crate) fn debug_quote(text: &str) -> (s: String)
    ensures
        s@ == debug_quoted(text@),
{
    format!("{:?}", text)
}

/// An error whose message is `prefix` followed by `detail`.
pub fn error_with(prefix: &str, detail: &String) -> (r: RispError)
    ensures
        r@ == prefix@ + detail@,
{
    RispError(String::from_str(prefix).concat(detail.as_str()))
}

/// An error with the given message.
pub fn error(message: &str) -> (r: RispError)
    ensures
        r@ == message@,
{
    RispError(String::from_str(message))
}

/// A failed result with the given message.
pub fn error_result(message: &str) -> (r: RispResult)
    ensures
        result_view(r) == Err::<Value, Seq<char>>(message@),
{
    Err(error(message))
}

/// The symbol of the given name.
pub fn symbol(s: &str) -> (r: RispType)
    ensures
        r@ == Value::Symbol(s@),
{
    RispType::Symbol(String::from_str(s))
}

/// The keyword of the given name.
pub fn keyword(s: &str) -> (r: RispType)
    ensures
        r@ == Value::Keyword(s@),
{
    RispType::Keyword(String::from_str(s))
}

/// The string value of the given text.
pub fn string(s: &str) -> (r: RispType)
    ensures
        r@ == Value::Str(s@),
{
    RispType::Str(String::from_str(s))
}

/// The models of a run of named values.
pub open spec fn pairs_view(pairs: Seq<(&str, RispType)>) -> Seq<(Seq<char>, Value)> {
    Seq::new(pairs.len(), |i: int| (pairs[i].0@, pairs[i].1@))
}

/// The pairs from position `i` on, bound one after the other on top of
/// `acc`: of two pairs with one key the later one decides the value.
pub open spec fn bind_all(
    pairs: Seq<(Seq<char>, Value)>,
    i: int,
    acc: Seq<(Seq<char>, Value)>,
) -> Seq<(Seq<char>, Value)>
    decreases pairs.len() - i,
{
    if i < 0 || i >= pairs.len() {
        acc
    } else {
        bind_all(pairs, i + 1, store(acc, pairs[i].0, pairs[i].1))
    }
}

/// The map that binds each name to its value.
pub fn map(pairs: Vec<(&str, RispType)>) -> (r: RispType)
    ensures
        r@ == Value::Mapping(bind_all(pairs_view(pairs@), 0, Seq::empty())),
{
    let mut entries: Vec<(String, RispType)> = Vec::new();
    let mut i: usize = 0;
    proof {
        assert(entries_view(entries@) =~= Seq::<(Seq<char>, Value)>::empty());
    }
    while i < pairs.len()
        invariant
            i <= pairs.len(),
            bind_all(pairs_view(pairs@), 0, Seq::empty()) == bind_all(
                pairs_view(pairs@),
                i as int,
                entries_view(entries@),
            ),
        decreases pairs.len() - i,
    {
        store_entry(&mut entries, String::from_str(pairs[i].0), copy_value(&pairs[i].1));
        i += 1;
    }
    RispType::Mapping(entries)
}

/// Binding a key makes it the key's value.
pub proof fn lemma_store_then_lookup(entries: Seq<(Seq<char>, Value)>, key: Seq<char>, value: Value)
    ensures
        lookup(store(entries, key, value), key) == Some(value),
{
    let after = store(entries, key, value);
    if has_key(entries, key) {
        let i = first_index(entries, key);
        assert(is_first_at(entries, key, i));
        assert forall|j: int| 0 <= j < i implies (#[trigger] after[j]).0 != key by {
            assert(after[j] == entries[j]);
        }
        assert(is_first_at(after, key, i));
        lemma_first_index(after, key, i);
    } else {
        let i = entries.len() as int;
        assert forall|j: int| 0 <= j < i implies (#[trigger] after[j]).0 != key by {
            assert(after[j] == entries[j]);
            if entries[j].0 == key {
                lemma_has_key(entries, key, j);
            }
        }
        assert(is_first_at(after, key, i));
        lemma_first_index(after, key, i);
    }
}

/// A position that holds the key shows that the key is bound.
pub proof fn lemma_has_key(entries: Seq<(Seq<char>, Value)>, key: Seq<char>, j: int)
    requires
        0 <= j < entries.len(),
        entries[j].0 == key,
    ensures
        has_key(entries, key),
    decreases j,
{
    if exists|k: int| 0 <= k < j && (#[trigger] entries[k]).0 == key {
        let k = choose|k: int| 0 <= k < j && (#[trigger] entries[k]).0 == key;
        lemma_has_key(entries, key, k);
    } else {
        assert(is_first_at(entries, key, j));
    }
}

/// Binding a key leaves what every other key is bound to.
pub proof fn lemma_store_keeps_others(
    entries: Seq<(Seq<char>, Value)>,
    key: Seq<char>,
    value: Value,
    other: Seq<char>,
)
    requires
        other != key,
    ensures
        lookup(store(entries, key, value), other) == lookup(entries, other),
{
    let after = store(entries, key, value);
    assert(forall|j: int|
        0 <= j < entries.len() ==> ((#[trigger] after[j]).0 == other <==> entries[j].0 == other));
    if has_key(entries, other) {
        let i = first_index(entries, other);
        assert(is_first_at(entries, other, i));
        assert(is_first_at(after, other, i));
        lemma_first_index(after, other, i);
    } else {
        if has_key(after, other) {
            let i = first_index(after, other);
            assert(is_first_at(after, other, i));
            assert(i < entries.len());
            lemma_has_key(entries, other, i);
        }
    }
}

/// Binding a key keeps the keys distinct.
pub proof fn lemma_store_keeps_distinct(
    entries: Seq<(Seq<char>, Value)>,
    key: Seq<char>,
    value: Value,
)
    requires
        distinct_keys(entries),
    ensures
        distinct_keys(store(entries, key, value)),
{
    let after = store(entries, key, value);
    if has_key(entries, key) {
        let k = first_index(entries, key);
        assert(is_first_at(entries, key, k));
        assert forall|i: int, j: int| 0 <= i < j < after.len() implies (#[trigger] after[i]).0
            != (#[trigger] after[j]).0 by {
            assert(after[i].0 == entries[i].0);
            assert(after[j].0 == entries[j].0);
        }
    } else {
        assert forall|i: int, j: int| 0 <= i < j < after.len() implies (#[trigger] after[i]).0
            != (#[trigger] after[j]).0 by {
            if j < entries.len() {
                assert(after[i].0 == entries[i].0);
                assert(after[j].0 == entries[j].0);
            } else {
                assert(after[i] == entries[i]);
                if entries[i].0 == key {
                    lemma_has_key(entries, key, i);
                }
            }
        }
    }
}

} // verus!
