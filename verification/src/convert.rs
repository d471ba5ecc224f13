//! Typed projections of values: native integers, strings and sequences out
//! of the values that an evaluation returns.
use crate::types::{
    copy_value, debug_string, debug_text, entries_view, error_with, find_key,
    lemma_entries_view, lemma_first_index, lemma_values_view, lemma_values_view_concat,
    lemma_values_view_push, lookup, values_view, RispError, RispType, Value,
};
use vstd::prelude::*;
use vstd::string::StringExecFns;

verus! {

/// A native type that a value can be projected into.
pub trait FromRisp: Sized {
    /// The message with which the projection of `v` fails; none where it
    /// succeeds.
    spec fn refusal(v: Value) -> Option<Seq<char>>;

    /// Whether `out` is what `v` projects to.
    spec fn projects(v: Value, out: Self) -> bool;

    /// Projects the value, or says what was expected instead.
    fn from_risp(v: RispType) -> (r: Result<Self, RispError>)
        ensures
            match r {
                Ok(out) => Self::refusal(v@) is None && Self::projects(v@, out),
                Err(e) => Self::refusal(v@) == Some(e@),
            },
    ;
}

impl FromRisp for RispType {
    open spec fn refusal(v: Value) -> Option<Seq<char>> {
        None
    }

    open spec fn projects(v: Value, out: Self) -> bool {
        out@ == v
    }

    fn from_risp(v: RispType) -> (r: Result<Self, RispError>) {
        Ok(v)
    }
}

impl FromRisp for i64 {
    open spec fn refusal(v: Value) -> Option<Seq<char>> {
        match v {
            Value::Int(_) => None,
            _ => Some("Expected Int but got "@ + debug_text(v)),
        }
    }

    open spec fn projects(v: Value, out: Self) -> bool {
        v == Value::Int(out)
    }

    fn from_risp(v: RispType) -> (r: Result<Self, RispError>) {
        match v {
            RispType::Int(n) => Ok(n),
            _ => Err(error_with("Expected Int but got ", &debug_string(&v))),
        }
    }
}

impl FromRisp for bool {
    open spec fn refusal(v: Value) -> Option<Seq<char>> {
        match v {
            Value::Bool(_) => None,
            _ => Some("Expected Bool but got "@ + debug_text(v)),
        }
    }

    open spec fn projects(v: Value, out: Self) -> bool {
        v == Value::Bool(out)
    }

    fn from_risp(v: RispType) -> (r: Result<Self, RispError>) {
        match v {
            RispType::Bool(b) => Ok(b),
            _ => Err(error_with("Expected Bool but got ", &debug_string(&v))),
        }
    }
}

impl FromRisp for String {
    open spec fn refusal(v: Value) -> Option<Seq<char>> {
        match v {
            Value::Str(_) => None,
            _ => Some("Expected String but got "@ + debug_text(v)),
        }
    }

    open spec fn projects(v: Value, out: Self) -> bool {
        v == Value::Str(out@)
    }

    fn from_risp(v: RispType) -> (r: Result<Self, RispError>) {
        match v {
            RispType::Str(s) => Ok(s),
            _ => Err(error_with("Expected String but got ", &debug_string(&v))),
        }
    }
}

impl FromRisp for Vec<RispType> {
    open spec fn refusal(v: Value) -> Option<Seq<char>> {
        match v {
            Value::Vector(_) => None,
            _ => Some("Expected Vector but got "@ + debug_text(v)),
        }
    }

    open spec fn projects(v: Value, out: Self) -> bool {
        v == Value::Vector(values_view(out@))
    }

    fn from_risp(v: RispType) -> (r: Result<Self, RispError>) {
        match v {
            RispType::Vector(vector) => Ok(vector),
            _ => Err(error_with("Expected Vector but got ", &debug_string(&v))),
        }
    }
}

impl FromRisp for Vec<(String, RispType)> {
    open spec fn refusal(v: Value) -> Option<Seq<char>> {
        match v {
            Value::Mapping(_) => None,
            _ => Some("Expected Map but got "@ + debug_text(v)),
        }
    }

    open spec fn projects(v: Value, out: Self) -> bool {
        v == Value::Mapping(entries_view(out@))
    }

    fn from_risp(v: RispType) -> (r: Result<Self, RispError>) {
        match v {
            RispType::Mapping(map) => Ok(map),
            _ => Err(error_with("Expected Map but got ", &debug_string(&v))),
        }
    }
}

/// Whether `i` is the first position of `items` that holds no integer.
pub open spec fn first_non_int_at(items: Seq<Value>, i: int) -> bool {
    &&& 0 <= i < items.len()
    &&& !(items[i] is Int)
    &&& forall|j: int| 0 <= j < i ==> (#[trigger] items[j]) is Int
}

impl FromRisp for Vec<i64> {
    open spec fn refusal(v: Value) -> Option<Seq<char>> {
        match v {
            Value::Vector(items) => if exists|i: int| first_non_int_at(items, i) {
                Some(
                    "Expected Int but got "@ + debug_text(
                        items[choose|i: int| first_non_int_at(items, i)],
                    ),
                )
            } else {
                None
            },
            _ => Some("Expected Vector but got "@ + debug_text(v)),
        }
    }

    open spec fn projects(v: Value, out: Self) -> bool {
        &&& v is Vector
        &&& v->Vector_0.len() == out@.len()
        &&& forall|i: int| 0 <= i < out@.len() ==> v->Vector_0[i] == Value::Int(#[trigger] out@[i])
    }

    fn from_risp(v: RispType) -> (r: Result<Self, RispError>) {
        match v {
            RispType::Vector(vector) => {
                let ghost items = values_view(vector@);
                proof {
                    lemma_values_view(vector@);
                }
                let mut out: Vec<i64> = Vec::new();
                let mut i: usize = 0;
                while i < vector.len()
                    invariant
                        i <= vector.len(),
                        out.len() == i,
                        v@ == Value::Vector(items),
                        items == values_view(vector@),
                        items.len() == vector.len(),
                        forall|j: int| 0 <= j < vector.len() ==> #[trigger] items[j] == vector[j]@,
                        forall|j: int| 0 <= j < i ==> (#[trigger] items[j]) == Value::Int(out@[j]),
                    decreases vector.len() - i,
                {
                    match &vector[i] {
                        RispType::Int(n) => {
                            out.push(*n);
                        },
                        _ => {
                            proof {
                                assert(items[i as int] == vector[i as int]@);
                                assert(!(items[i as int] is Int));
                                assert forall|j: int| 0 <= j < i implies (#[trigger] items[j])
                                    is Int by {
                                    assert(items[j] == Value::Int(out@[j]));
                                }
                                assert(first_non_int_at(items, i as int));
                                let k = choose|k: int| first_non_int_at(items, k);
                                assert(first_non_int_at(items, k));
                                if k < i {
                                    assert(items[k] is Int);
                                }
                                if i < k {
                                    assert(items[i as int] is Int);
                                }
                            }
                            return Err(
                                error_with("Expected Int but got ", &debug_string(&vector[i])),
                            );
                        },
                    }
                    i += 1;
                }
                proof {
                    if exists|k: int| first_non_int_at(items, k) {
                        let k = choose|k: int| first_non_int_at(items, k);
                        assert(items[k] is Int);
                    }
                }
                Ok(out)
            },
            _ => Err(error_with("Expected Vector but got ", &debug_string(&v))),
        }
    }
}

impl RispType {
    /// The value under `key` of a map, projected into `T`; none where the
    /// map does not hold the key. Fails where the projection fails, and on a
    /// value that is no map.
    pub fn get<T: FromRisp>(&self, key: &str) -> (r: Result<Option<T>, RispError>)
        ensures
            match self@ {
                Value::Mapping(entries) => match lookup(entries, key@) {
                    Some(v) => match r {
                        Ok(Some(out)) => T::refusal(v) is None && T::projects(v, out),
                        Ok(None) => false,
                        Err(e) => T::refusal(v) == Some(e@),
                    },
                    None => r matches Ok(None),
                },
                _ => r matches Err(e) && e@ == "Expected Map but got "@ + debug_text(self@),
            },
    {
        match self {
            RispType::Mapping(map) => {
                let name = String::from_str(key);
                match find_key(map, &name) {
                    Some(i) => {
                        proof {
                            lemma_entries_view(map@);
                            lemma_first_index(entries_view(map@), key@, i as int);
                        }
                        match T::from_risp(copy_value(&map[i].1)) {
                            Ok(out) => Ok(Some(out)),
                            Err(e) => Err(e),
                        }
                    },
                    None => Ok(None),
                }
            },
            _ => Err(error_with("Expected Map but got ", &debug_string(self))),
        }
    }
}

/// The items from position `i` on in one flat run: a vector among them
/// gives its own items, flattened the same way, in its place.
pub open spec fn flatten_from(items: Seq<Value>, i: int) -> Seq<Value>
    decreases items, items.len() - i,
{
    if i < 0 || i >= items.len() {
        Seq::empty()
    } else {
        (match items[i] {
            Value::Vector(inner) => flatten_from(inner, 0),
            other => seq![other],
        }) + flatten_from(items, i + 1)
    }
}

/// The items in one flat run, vectors among them taken apart.
pub open spec fn flattened(items: Seq<Value>) -> Seq<Value> {
    flatten_from(items, 0)
}

/// Flattens the items of a run.
fn flatten_items(items: &Vec<RispType>) -> (r: Vec<RispType>)
    ensures
        values_view(r@) == flattened(values_view(items@)),
    decreases items,
{
    broadcast use vstd::std_specs::vec::axiom_vec_index_decreases;

    let ghost iv = values_view(items@);
    proof {
        lemma_values_view(items@);
    }
    let mut result: Vec<RispType> = Vec::new();
    let mut i: usize = 0;
    proof {
        assert(values_view(result@) =~= Seq::<Value>::empty());
        assert(Seq::<Value>::empty() + flatten_from(iv, 0) =~= flatten_from(iv, 0));
    }
    while i < items.len()
        invariant
            i <= items.len(),
            iv == values_view(items@),
            iv.len() == items.len(),
            forall|j: int| 0 <= j < items.len() ==> #[trigger] iv[j] == items[j]@,
            flatten_from(iv, 0) == values_view(result@) + flatten_from(iv, i as int),
        decreases items.len() - i,
    {
        let ghost prior = result@;
        match &items[i] {
            RispType::Vector(vector) => {
                let mut children = flatten_items(vector);
                proof {
                    lemma_values_view_concat(prior, children@);
                }
                result.append(&mut children);
                assert(values_view(prior) + (flattened(values_view(vector@)) + flatten_from(
                    iv,
                    i + 1,
                )) =~= values_view(result@) + flatten_from(iv, i + 1));
            },
            el => {
                let copy = copy_value(el);
                proof {
                    lemma_values_view_push(prior, copy);
                }
                result.push(copy);
                assert(values_view(prior) + (seq![iv[i as int]] + flatten_from(iv, i + 1))
                    =~= values_view(result@) + flatten_from(iv, i + 1));
            },
        }
        i += 1;
    }
    proof {
        assert(values_view(result@) + Seq::<Value>::empty() =~= values_view(result@));
    }
    result
}

/// The items in one flat run, vectors among them taken apart.
pub fn flatten_vec(risp_vec: Vec<RispType>) -> (r: Vec<RispType>)
    ensures
        values_view(r@) == flattened(values_view(risp_vec@)),
{
    flatten_items(&risp_vec)
}

/// Whether `i` is the first position of `items` whose projection fails.
pub open spec fn first_refusal_at<T: FromRisp>(items: Seq<Value>, i: int) -> bool {
    &&& 0 <= i < items.len()
    &&& T::refusal(items[i]) is Some
    &&& forall|j: int| 0 <= j < i ==> T::refusal(#[trigger] items[j]) is None
}

/// The items of a vector, flattened, each projected into `T`. Fails with
/// the message of the first item whose projection fails, and on a value
/// that is no vector.
pub fn flatten_into<T: FromRisp>(risp_vec_input: RispType) -> (r: Result<Vec<T>, RispError>)
    ensures
        match risp_vec_input@ {
            Value::Vector(items) => match r {
                Ok(out) => {
                    &&& out@.len() == flattened(items).len()
                    &&& forall|i: int|
                        0 <= i < out@.len() ==> T::refusal(flattened(items)[i]) is None
                            && T::projects(flattened(items)[i], #[trigger] out@[i])
                },
                Err(e) => exists|i: int|
                    first_refusal_at::<T>(flattened(items), i) && T::refusal(flattened(items)[i])
                        == Some(e@),
            },
            _ => r matches Err(e) && e@ == "Expected Vector but got "@ + debug_text(
                risp_vec_input@,
            ),
        },
{
    match risp_vec_input {
        RispType::Vector(vector) => {
            let ghost items = values_view(vector@);
            let flat = flatten_vec(vector);
            let ghost fv = values_view(flat@);
            proof {
                lemma_values_view(flat@);
            }
            let mut out: Vec<T> = Vec::new();
            let mut i: usize = 0;
            while i < flat.len()
                invariant
                    i <= flat.len(),
                    out.len() == i,
                    fv == values_view(flat@),
                    fv.len() == flat.len(),
                    forall|j: int| 0 <= j < flat.len() ==> #[trigger] fv[j] == flat[j]@,
                    risp_vec_input@ == Value::Vector(items),
                    fv == flattened(items),
                    forall|j: int| 0 <= j < i ==> T::refusal(#[trigger] fv[j]) is None,
                    forall|j: int| 0 <= j < i ==> T::projects(fv[j], #[trigger] out@[j]),
                decreases flat.len() - i,
            {
                match T::from_risp(copy_value(&flat[i])) {
                    Ok(t) => {
                        out.push(t);
                    },
                    Err(e) => {
                        assert(first_refusal_at::<T>(fv, i as int));
                        assert(T::refusal(fv[i as int]) == Some(e@));
                        return Err(e);
                    },
                }
                i += 1;
            }
            Ok(out)
        },
        _ => Err(error_with("Expected Vector but got ", &debug_string(&risp_vec_input))),
    }
}

} // verus!
