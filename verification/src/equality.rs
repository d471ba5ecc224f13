//! Equality of values. Two maps are equal when they bind the same keys to
//! equal values, in whatever order their entries stand.
use crate::types::{
    entries_view, find_key, first_index, has_key, is_first_at, lemma_entries_view,
    lemma_first_index, lemma_has_key, lemma_values_view, values_view, RispFunc, RispType, Value,
};
use vstd::prelude::*;
use vstd::std_specs::cmp::PartialEqSpecImpl;

verus! {

/// Whether two values are equal.
pub open spec fn same(a: Value, b: Value) -> bool
    decreases a,
{
    match (a, b) {
        (Value::Nil, Value::Nil) => true,
        (Value::Bool(x), Value::Bool(y)) => x == y,
        (Value::Int(x), Value::Int(y)) => x == y,
        (Value::Str(x), Value::Str(y)) => x == y,
        (Value::Keyword(x), Value::Keyword(y)) => x == y,
        (Value::Symbol(x), Value::Symbol(y)) => x == y,
        (Value::Function(f), Value::Function(g)) => f == g,
        (Value::List(xs), Value::List(ys)) => same_all(xs, ys),
        (Value::Vector(xs), Value::Vector(ys)) => same_all(xs, ys),
        (Value::Mapping(es), Value::Mapping(fs)) => same_bindings(es, fs),
        (
            Value::Closure { params: p, variadic: v, body: c },
            Value::Closure { params: q, variadic: w, body: d },
        ) => same_all(p, q) && v == w && same(*c, *d),
        _ => false,
    }
}

/// Whether two runs are equally long and equal item by item.
pub open spec fn same_all(xs: Seq<Value>, ys: Seq<Value>) -> bool
    decreases xs,
{
    &&& xs.len() == ys.len()
    &&& forall|i: int| 0 <= i < xs.len() ==> same(#[trigger] xs[i], ys[i])
}

/// Whether the entry at `i` of `es` has its like in `fs`: the key is bound
/// there, to an equal value.
pub open spec fn bound_alike(
    es: Seq<(Seq<char>, Value)>,
    fs: Seq<(Seq<char>, Value)>,
    i: int,
) -> bool
    decreases es, 0nat,
{
    exists|j: int|
        is_first_at(fs, es[i].0, j) && 0 <= i < es.len() && same(es[i].1, (#[trigger] fs[j]).1)
}

/// Whether two runs of entries bind the same keys to equal values. Of two
/// entries with one key only the first counts.
pub open spec fn same_bindings(es: Seq<(Seq<char>, Value)>, fs: Seq<(Seq<char>, Value)>) -> bool
    decreases es, 1nat,
{
    &&& forall|i: int|
        0 <= i < es.len() && is_first_at(es, (#[trigger] es[i]).0, i) ==> bound_alike(es, fs, i)
    &&& forall|j: int| 0 <= j < fs.len() ==> has_key(es, (#[trigger] fs[j]).0)
}

/// Compares two runs of values item by item.
fn same_values(xs: &Vec<RispType>, ys: &Vec<RispType>) -> (r: bool)
    ensures
        r == same_all(values_view(xs@), values_view(ys@)),
    decreases xs,
{
    broadcast use vstd::std_specs::vec::axiom_vec_index_decreases;

    let ghost xv = values_view(xs@);
    let ghost yv = values_view(ys@);
    proof {
        lemma_values_view(xs@);
        lemma_values_view(ys@);
    }
    if xs.len() != ys.len() {
        return false;
    }
    let mut i: usize = 0;
    while i < xs.len()
        invariant
            i <= xs.len(),
            xs.len() == ys.len(),
            xv == values_view(xs@),
            yv == values_view(ys@),
            xv.len() == xs.len(),
            yv.len() == ys.len(),
            forall|j: int| 0 <= j < xs.len() ==> #[trigger] xv[j] == xs[j]@,
            forall|j: int| 0 <= j < ys.len() ==> #[trigger] yv[j] == ys[j]@,
            forall|j: int| 0 <= j < i ==> same(#[trigger] xv[j], yv[j]),
        decreases xs.len() - i,
    {
        if !same_value(&xs[i], &ys[i]) {
            assert(!same(xv[i as int], yv[i as int]));
            return false;
        }
        i += 1;
    }
    true
}

/// Compares two runs of entries as bindings.
fn same_entries(es: &Vec<(String, RispType)>, fs: &Vec<(String, RispType)>) -> (r: bool)
    ensures
        r == same_bindings(entries_view(es@), entries_view(fs@)),
    decreases es,
{
    broadcast use vstd::std_specs::vec::axiom_vec_index_decreases;

    let ghost ev = entries_view(es@);
    let ghost fv = entries_view(fs@);
    proof {
        lemma_entries_view(es@);
        lemma_entries_view(fs@);
    }
    let mut i: usize = 0;
    while i < es.len()
        invariant
            i <= es.len(),
            ev == entries_view(es@),
            fv == entries_view(fs@),
            ev.len() == es.len(),
            fv.len() == fs.len(),
            forall|j: int| 0 <= j < es.len() ==> #[trigger] ev[j] == (es[j].0@, es[j].1@),
            forall|j: int| 0 <= j < fs.len() ==> #[trigger] fv[j] == (fs[j].0@, fs[j].1@),
            forall|k: int|
                0 <= k < i && is_first_at(ev, (#[trigger] ev[k]).0, k) ==> bound_alike(ev, fv, k),
        decreases es.len() - i,
    {
        let first = find_key(es, &es[i].0);
        proof {
            lemma_has_key(ev, ev[i as int].0, i as int);
        }
        match first {
            Some(at) => {
                proof {
                    lemma_first_index(ev, ev[i as int].0, at as int);
                    if is_first_at(ev, ev[i as int].0, i as int) {
                        lemma_first_index(ev, ev[i as int].0, i as int);
                    }
                }
                if at == i {
                    match find_key(fs, &es[i].0) {
                        Some(j) => {
                            if !same_value(&es[i].1, &fs[j].1) {
                                proof {
                                    if bound_alike(ev, fv, i as int) {
                                        let w = choose|w: int|
                                            is_first_at(fv, ev[i as int].0, w) && 0 <= i < ev.len()
                                                && same(ev[i as int].1, (#[trigger] fv[w]).1);
                                        lemma_first_index(fv, ev[i as int].0, w);
                                        lemma_first_index(fv, ev[i as int].0, j as int);
                                    }
                                }
                                return false;
                            }
                            assert(is_first_at(fv, ev[i as int].0, j as int) && same(
                                ev[i as int].1,
                                fv[j as int].1,
                            ));
                        },
                        None => {
                            proof {
                                if bound_alike(ev, fv, i as int) {
                                    let w = choose|w: int|
                                        is_first_at(fv, ev[i as int].0, w) && 0 <= i < ev.len()
                                            && same(ev[i as int].1, (#[trigger] fv[w]).1);
                                    lemma_first_index(fv, ev[i as int].0, w);
                                }
                            }
                            return false;
                        },
                    }
                }
            },
            None => {},
        }
        i += 1;
    }
    let mut j: usize = 0;
    while j < fs.len()
        invariant
            j <= fs.len(),
            ev == entries_view(es@),
            fv == entries_view(fs@),
            fv.len() == fs.len(),
            forall|k: int| 0 <= k < fs.len() ==> #[trigger] fv[k] == (fs[k].0@, fs[k].1@),
            forall|k: int|
                0 <= k < ev.len() && is_first_at(ev, (#[trigger] ev[k]).0, k) ==> bound_alike(
                    ev,
                    fv,
                    k,
                ),
            forall|k: int| 0 <= k < j ==> has_key(ev, (#[trigger] fv[k]).0),
        decreases fs.len() - j,
    {
        match find_key(es, &fs[j].0) {
            Some(at) => {
                proof {
                    lemma_first_index(ev, fv[j as int].0, at as int);
                }
            },
            None => {
                assert(!has_key(ev, fv[j as int].0));
                return false;
            },
        }
        j += 1;
    }
    true
}

/// Compares two user-defined functions: parameters, capturing parameter
/// and body.
fn same_func(a: &RispFunc, b: &RispFunc) -> (r: bool)
    ensures
        r == same(RispType::RispFunction(*a)@, RispType::RispFunction(*b)@),
    decreases a,
{
    let variadic = match (&a.variadic_arg, &b.variadic_arg) {
        (Some(x), Some(y)) => *x == *y,
        (None, None) => true,
        _ => false,
    };
    same_values(&a.args, &b.args) && variadic && same_value(&*a.body, &*b.body)
}

/// Whether two values are equal.
pub fn same_value(a: &RispType, b: &RispType) -> (r: bool)
    ensures
        r == same(a@, b@),
    decreases a,
{
    match (a, b) {
        (RispType::Nil, RispType::Nil) => true,
        (RispType::Bool(x), RispType::Bool(y)) => *x == *y,
        (RispType::Int(x), RispType::Int(y)) => *x == *y,
        (RispType::Str(x), RispType::Str(y)) => *x == *y,
        (RispType::Keyword(x), RispType::Keyword(y)) => *x == *y,
        (RispType::Symbol(x), RispType::Symbol(y)) => *x == *y,
        (RispType::Function(f), RispType::Function(g)) => *f == *g,
        (RispType::List(xs), RispType::List(ys)) => same_values(xs, ys),
        (RispType::Vector(xs), RispType::Vector(ys)) => same_values(xs, ys),
        (RispType::Mapping(es), RispType::Mapping(fs)) => same_entries(es, fs),
        (RispType::RispFunction(f), RispType::RispFunction(g)) => same_func(f, g),
        _ => false,
    }
}

impl PartialEq for RispType {
    fn eq(&self, other: &Self) -> (r: bool) {
        same_value(self, other)
    }
}

impl PartialEqSpecImpl for RispType {
    open spec fn obeys_eq_spec() -> bool {
        true
    }

    open spec fn eq_spec(&self, other: &Self) -> bool {
        same(self@, other@)
    }
}

impl PartialEq for RispFunc {
    fn eq(&self, other: &Self) -> (r: bool) {
        same_func(self, other)
    }
}

impl PartialEqSpecImpl for RispFunc {
    open spec fn obeys_eq_spec() -> bool {
        true
    }

    open spec fn eq_spec(&self, other: &Self) -> bool {
        same(RispType::RispFunction(*self)@, RispType::RispFunction(*other)@)
    }
}

/// Every value is equal to itself.
pub proof fn lemma_same_reflexive(v: Value)
    ensures
        same(v, v),
    decreases v, 0nat,
{
    match v {
        Value::List(xs) => lemma_same_all_reflexive(xs),
        Value::Vector(xs) => lemma_same_all_reflexive(xs),
        Value::Mapping(es) => lemma_same_bindings_reflexive(es),
        Value::Closure { params, variadic, body } => {
            lemma_same_all_reflexive(params);
            lemma_same_reflexive(*body);
        },
        _ => {},
    }
}

/// Every run of values is equal to itself.
pub proof fn lemma_same_all_reflexive(xs: Seq<Value>)
    ensures
        same_all(xs, xs),
    decreases xs, 1nat,
{
    assert forall|i: int| 0 <= i < xs.len() implies same(#[trigger] xs[i], xs[i]) by {
        lemma_same_reflexive(xs[i]);
    }
}

/// Every run of entries binds what it binds.
pub proof fn lemma_same_bindings_reflexive(es: Seq<(Seq<char>, Value)>)
    ensures
        same_bindings(es, es),
    decreases es, 1nat,
{
    assert forall|i: int|
        0 <= i < es.len() && is_first_at(es, (#[trigger] es[i]).0, i) implies bound_alike(
        es,
        es,
        i,
    ) by {
        lemma_same_reflexive(es[i].1);
        assert(is_first_at(es, es[i].0, i) && same(es[i].1, es[i].1));
    }
    assert forall|j: int| 0 <= j < es.len() implies has_key(es, (#[trigger] es[j]).0) by {
        lemma_has_key(es, es[j].0, j);
    }
}

/// Two maps of two entries each, with the same two bindings in the other
/// order, are equal.
pub proof fn lemma_same_in_either_order(a: Seq<char>, x: Value, b: Seq<char>, y: Value)
    requires
        a != b,
    ensures
        same(Value::Mapping(seq![(a, x), (b, y)]), Value::Mapping(seq![(b, y), (a, x)])),
{
    let es = seq![(a, x), (b, y)];
    let fs = seq![(b, y), (a, x)];
    lemma_same_reflexive(x);
    lemma_same_reflexive(y);
    assert(is_first_at(fs, a, 1) && same(es[0].1, fs[1].1));
    assert(is_first_at(fs, b, 0) && same(es[1].1, fs[0].1));
    assert(bound_alike(es, fs, 0));
    assert(bound_alike(es, fs, 1));
    lemma_has_key(es, fs[0].0, 1);
    lemma_has_key(es, fs[1].0, 0);
    assert forall|i: int|
        0 <= i < es.len() && is_first_at(es, (#[trigger] es[i]).0, i) implies bound_alike(
        es,
        fs,
        i,
    ) by {
        assert(i == 0 || i == 1);
    }
    assert forall|j: int| 0 <= j < fs.len() implies has_key(es, (#[trigger] fs[j]).0) by {
        assert(j == 0 || j == 1);
    }
    assert(same_bindings(es, fs));
}

/// Equality does not depend on the side a value stands on.
pub proof fn lemma_same_symmetric(a: Value, b: Value)
    requires
        same(a, b),
    ensures
        same(b, a),
    decreases a, 0nat,
{
    match (a, b) {
        (Value::List(xs), Value::List(ys)) => lemma_same_all_symmetric(xs, ys),
        (Value::Vector(xs), Value::Vector(ys)) => lemma_same_all_symmetric(xs, ys),
        (Value::Mapping(es), Value::Mapping(fs)) => lemma_same_bindings_symmetric(es, fs),
        (
            Value::Closure { params: p, variadic: v, body: c },
            Value::Closure { params: q, variadic: w, body: d },
        ) => {
            lemma_same_all_symmetric(p, q);
            lemma_same_symmetric(*c, *d);
        },
        _ => {},
    }
}

/// Equality of runs does not depend on the side.
pub proof fn lemma_same_all_symmetric(xs: Seq<Value>, ys: Seq<Value>)
    requires
        same_all(xs, ys),
    ensures
        same_all(ys, xs),
    decreases xs, 1nat,
{
    assert forall|i: int| 0 <= i < ys.len() implies same(#[trigger] ys[i], xs[i]) by {
        assert(same(xs[i], ys[i]));
        lemma_same_symmetric(xs[i], ys[i]);
    }
}

/// Equality of bindings does not depend on the side.
pub proof fn lemma_same_bindings_symmetric(
    es: Seq<(Seq<char>, Value)>,
    fs: Seq<(Seq<char>, Value)>,
)
    requires
        same_bindings(es, fs),
    ensures
        same_bindings(fs, es),
    decreases es, 1nat,
{
    assert forall|j: int|
        0 <= j < fs.len() && is_first_at(fs, (#[trigger] fs[j]).0, j) implies bound_alike(
        fs,
        es,
        j,
    ) by {
        let key = fs[j].0;
        assert(has_key(es, key));
        let i = first_index(es, key);
        assert(is_first_at(es, key, i));
        assert(is_first_at(es, es[i].0, i));
        assert(bound_alike(es, fs, i));
        let w = choose|w: int|
            is_first_at(fs, es[i].0, w) && 0 <= i < es.len() && same(es[i].1, (#[trigger] fs[w]).1);
        lemma_first_index(fs, key, w);
        lemma_first_index(fs, key, j);
        lemma_same_symmetric(es[i].1, fs[j].1);
        assert(is_first_at(es, fs[j].0, i) && same(fs[j].1, es[i].1));
    }
    assert forall|i: int| 0 <= i < es.len() implies has_key(fs, (#[trigger] es[i]).0) by {
        let key = es[i].0;
        lemma_has_key(es, key, i);
        let first = first_index(es, key);
        assert(is_first_at(es, key, first));
        assert(is_first_at(es, es[first].0, first));
        assert(bound_alike(es, fs, first));
        let w = choose|w: int|
            is_first_at(fs, es[first].0, w) && 0 <= first < es.len() && same(
                es[first].1,
                (#[trigger] fs[w]).1,
            );
        lemma_first_index(fs, key, w);
    }
}

/// Values equal to one value are equal to each other.
pub proof fn lemma_same_transitive(a: Value, b: Value, c: Value)
    requires
        same(a, b),
        same(b, c),
    ensures
        same(a, c),
    decreases a, 0nat,
{
    match (a, b, c) {
        (Value::List(xs), Value::List(ys), Value::List(zs)) => lemma_same_all_transitive(
            xs,
            ys,
            zs,
        ),
        (Value::Vector(xs), Value::Vector(ys), Value::Vector(zs)) => lemma_same_all_transitive(
            xs,
            ys,
            zs,
        ),
        (
            Value::Mapping(es),
            Value::Mapping(fs),
            Value::Mapping(gs),
        ) => lemma_same_bindings_transitive(es, fs, gs),
        (
            Value::Closure { params: p, variadic: v, body: x },
            Value::Closure { params: q, variadic: w, body: y },
            Value::Closure { params: r, variadic: u, body: z },
        ) => {
            lemma_same_all_transitive(p, q, r);
            lemma_same_transitive(*x, *y, *z);
        },
        _ => {},
    }
}

/// Runs equal to one run are equal to each other.
pub proof fn lemma_same_all_transitive(xs: Seq<Value>, ys: Seq<Value>, zs: Seq<Value>)
    requires
        same_all(xs, ys),
        same_all(ys, zs),
    ensures
        same_all(xs, zs),
    decreases xs, 1nat,
{
    assert forall|i: int| 0 <= i < xs.len() implies same(#[trigger] xs[i], zs[i]) by {
        assert(same(xs[i], ys[i]));
        assert(same(ys[i], zs[i]));
        lemma_same_transitive(xs[i], ys[i], zs[i]);
    }
}

/// Bindings equal to the same bindings are equal to each other.
pub proof fn lemma_same_bindings_transitive(
    es: Seq<(Seq<char>, Value)>,
    fs: Seq<(Seq<char>, Value)>,
    gs: Seq<(Seq<char>, Value)>,
)
    requires
        same_bindings(es, fs),
        same_bindings(fs, gs),
    ensures
        same_bindings(es, gs),
    decreases es, 1nat,
{
    assert forall|i: int|
        0 <= i < es.len() && is_first_at(es, (#[trigger] es[i]).0, i) implies bound_alike(
        es,
        gs,
        i,
    ) by {
        let key = es[i].0;
        assert(bound_alike(es, fs, i));
        let j = choose|j: int|
            is_first_at(fs, es[i].0, j) && 0 <= i < es.len() && same(es[i].1, (#[trigger] fs[j]).1);
        assert(is_first_at(fs, fs[j].0, j));
        assert(bound_alike(fs, gs, j));
        let k = choose|k: int|
            is_first_at(gs, fs[j].0, k) && 0 <= j < fs.len() && same(fs[j].1, (#[trigger] gs[k]).1);
        lemma_same_transitive(es[i].1, fs[j].1, gs[k].1);
        assert(is_first_at(gs, es[i].0, k) && same(es[i].1, gs[k].1));
    }
    assert forall|k: int| 0 <= k < gs.len() implies has_key(es, (#[trigger] gs[k]).0) by {
        let key = gs[k].0;
        assert(has_key(fs, key));
        let j = first_index(fs, key);
        assert(is_first_at(fs, key, j));
        assert(has_key(es, fs[j].0));
    }
}

} // verus!
