//! The evaluator: walks a value as an expression, with an environment of
//! bindings that `def` extends.
use crate::environment::Environment;
use crate::parse::{parse, parsed};
use crate::primitives::{builtin_spec, call_builtin, core_bindings, create_core_environment};
use crate::tokenize::tokens_of;
use crate::types::{
    copy_range, copy_value, debug_quote, debug_quoted, debug_string, debug_string_all,
    debug_text, debug_text_all, entries_view, error, error_with, lemma_entries_view,
    lemma_entries_view_push, lemma_store_then_lookup, lemma_values_view, lemma_values_view_push,
    lookup, result_view,
    store, values_view, RispError, RispFunc, RispResult, RispType, Value,
};
use std::rc::Rc;
use vstd::prelude::*;
use vstd::string::StringExecFns;

verus! {

/// How deep calls of user-defined functions may nest in `eval`.
pub const CALL_DEPTH: usize = 64;

/// Whether `i` is the first position of `params` that holds the marker `&`.
pub open spec fn is_marker_at(params: Seq<Value>, i: int) -> bool {
    &&& 0 <= i < params.len()
    &&& params[i] == Value::Symbol("&"@)
    &&& forall|j: int| 0 <= j < i ==> (#[trigger] params[j]) != Value::Symbol("&"@)
}

/// The function value for the written parameters and the body. The symbol
/// after the first `&` captures the trailing arguments; the parameters are
/// those before the `&`.
pub open spec fn closure_of(params: Seq<Value>, body: Value) -> Result<Value, Seq<char>> {
    if exists|i: int| is_marker_at(params, i) {
        let p = choose|i: int| is_marker_at(params, i);
        if p + 1 < params.len() && params[p + 1] is Symbol {
            Ok(
                Value::Closure {
                    params: params.take(p),
                    variadic: Some(params[p + 1]->Symbol_0),
                    body: Box::new(body),
                },
            )
        } else {
            Err("Missing variadic arg after & in "@ + debug_text_all(params))
        }
    } else {
        Ok(Value::Closure { params, variadic: None, body: Box::new(body) })
    }
}

/// What the form `(fn params body)` evaluates to; `items` is the whole
/// form.
pub open spec fn fn_form(items: Seq<Value>) -> Result<Value, Seq<char>> {
    if items.len() < 2 {
        Err("Missing args in fn"@)
    } else {
        match items[1] {
            Value::Vector(params) => if items.len() < 3 {
                Err("Missing body in fn"@)
            } else {
                closure_of(params, items[2])
            },
            _ => Err("Expected args vector in fn but got "@ + debug_text(items[1])),
        }
    }
}

/// What the form `(defn name params body)` evaluates to, and the
/// environment after it: those of `(def name (fn params body))`.
pub open spec fn defn_form(items: Seq<Value>, env: Seq<(Seq<char>, Value)>) -> (
    Result<Value, Seq<char>>,
    Seq<(Seq<char>, Value)>,
) {
    if items.len() < 2 {
        (Err("Missing function name in defn"@), env)
    } else if items.len() < 3 {
        (Err("Missing args in defn"@), env)
    } else if items.len() < 4 {
        (Err("Missing body in defn"@), env)
    } else {
        match items[1] {
            Value::Symbol(name) => match fn_form(seq![Value::Symbol("fn"@), items[2], items[3]]) {
                Ok(f) => (Ok(f), store(env, name, f)),
                Err(e) => (Err(e), env),
            },
            _ => (Err("Expected symbol in def but got "@ + debug_text(items[1])), env),
        }
    }
}

/// The environment after the parameters from position `i` on are bound to
/// the arguments at the same positions, as far as both reach; with the
/// message, where a parameter is no symbol.
pub open spec fn bind_params(
    params: Seq<Value>,
    args: Seq<Value>,
    i: int,
    env: Seq<(Seq<char>, Value)>,
) -> (Option<Seq<char>>, Seq<(Seq<char>, Value)>)
    decreases params.len() - i,
{
    if i < 0 || i >= params.len() || i >= args.len() {
        (None, env)
    } else {
        match params[i] {
            Value::Symbol(name) => bind_params(params, args, i + 1, store(env, name, args[i])),
            _ => (Some("Expected symbol in args list got "@ + debug_text(params[i])), env),
        }
    }
}

/// The arguments beyond the declared parameters.
pub open spec fn trailing(count: nat, args: Seq<Value>) -> Seq<Value> {
    if args.len() >= count {
        args.skip(count as int)
    } else {
        Seq::empty()
    }
}

/// The environment of a call: the parameters bound to the arguments, then
/// the capturing parameter, where there is one, to the vector of the
/// arguments beyond the declared ones.
pub open spec fn bind_call(
    params: Seq<Value>,
    variadic: Option<Seq<char>>,
    args: Seq<Value>,
    env: Seq<(Seq<char>, Value)>,
) -> (Option<Seq<char>>, Seq<(Seq<char>, Value)>) {
    let (failure, bound) = bind_params(params, args, 0, env);
    match failure {
        Some(e) => (Some(e), bound),
        None => match variadic {
            Some(name) => (None, store(bound, name, Value::Vector(trailing(params.len(), args)))),
            None => (None, bound),
        },
    }
}

/// The message for a symbol without a binding.
pub open spec fn undefined_message(name: Seq<char>) -> Seq<char> {
    "symbol '"@ + debug_quoted(name) + "' is undefined"@
}

/// What an expression evaluates to, and the environment after it.
///
/// Symbols are looked up. Vectors and maps evaluate their contents from
/// left to right. Lists are forms, see `eval_list`. Everything else is its
/// own value. `depth` bounds how deep calls of user-defined functions nest.
pub open spec fn eval_spec(ast: Value, env: Seq<(Seq<char>, Value)>, depth: nat) -> (
    Result<Value, Seq<char>>,
    Seq<(Seq<char>, Value)>,
)
    decreases depth, ast, 0nat,
{
    match ast {
        Value::Symbol(name) => match lookup(env, name) {
            Some(v) => (Ok(v), env),
            None => (Err(undefined_message(name)), env),
        },
        Value::Vector(items) => {
            let (r, after) = eval_items(items, 0, env, depth, Seq::empty());
            match r {
                Ok(values) => (Ok(Value::Vector(values)), after),
                Err(e) => (Err(e), after),
            }
        },
        Value::Mapping(entries) => {
            let (r, after) = eval_entries(entries, 0, env, depth, Seq::empty());
            match r {
                Ok(values) => (Ok(Value::Mapping(values)), after),
                Err(e) => (Err(e), after),
            }
        },
        Value::List(items) => eval_list(items, env, depth),
        _ => (Ok(ast), env),
    }
}

/// The values of the items from position `i` on, after those of `acc`; each
/// item is evaluated in the environment that the one before it left. The
/// first failure ends the run.
pub open spec fn eval_items(
    items: Seq<Value>,
    i: int,
    env: Seq<(Seq<char>, Value)>,
    depth: nat,
    acc: Seq<Value>,
) -> (Result<Seq<Value>, Seq<char>>, Seq<(Seq<char>, Value)>)
    decreases depth, items, items.len() - i,
{
    if i < 0 || i >= items.len() {
        (Ok(acc), env)
    } else {
        let (r, after) = eval_spec(items[i], env, depth);
        match r {
            Ok(v) => eval_items(items, i + 1, after, depth, acc.push(v)),
            Err(e) => (Err(e), after),
        }
    }
}

/// The entries from position `i` on with their values evaluated, after
/// those of `acc`. The keys stay as they are.
pub open spec fn eval_entries(
    entries: Seq<(Seq<char>, Value)>,
    i: int,
    env: Seq<(Seq<char>, Value)>,
    depth: nat,
    acc: Seq<(Seq<char>, Value)>,
) -> (Result<Seq<(Seq<char>, Value)>, Seq<char>>, Seq<(Seq<char>, Value)>)
    decreases depth, entries, entries.len() - i,
{
    if i < 0 || i >= entries.len() {
        (Ok(acc), env)
    } else {
        let (r, after) = eval_spec(entries[i].1, env, depth);
        match r {
            Ok(v) => eval_entries(entries, i + 1, after, depth, acc.push((entries[i].0, v))),
            Err(e) => (Err(e), after),
        }
    }
}

/// What a list evaluates to: a special form where its head is `def`,
/// `defn`, `do`, `comment` or `fn`, a call otherwise.
pub open spec fn eval_list(items: Seq<Value>, env: Seq<(Seq<char>, Value)>, depth: nat) -> (
    Result<Value, Seq<char>>,
    Seq<(Seq<char>, Value)>,
)
    decreases depth, items, items.len() + 2,
{
    if items.len() == 0 {
        (Err("Empty List"@), env)
    } else {
        match items[0] {
            Value::Symbol(head) => if head == "def"@ {
                def_form(items, env, depth)
            } else if head == "defn"@ {
                defn_form(items, env)
            } else if head == "do"@ {
                do_form(items, env, depth)
            } else if head == "comment"@ {
                (Ok(Value::Nil), env)
            } else if head == "fn"@ {
                (fn_form(items), env)
            } else {
                call_form(head, items, env, depth)
            },
            _ => (Err("Expected symbol but got "@ + debug_text(items[0])), env),
        }
    }
}

/// `(def name value)`: the value of the expression, bound to the name in
/// the environment that evaluating it left.
pub open spec fn def_form(items: Seq<Value>, env: Seq<(Seq<char>, Value)>, depth: nat) -> (
    Result<Value, Seq<char>>,
    Seq<(Seq<char>, Value)>,
)
    decreases depth, items, items.len() + 1,
{
    if items.len() < 2 {
        (Err("Missing variable in def"@), env)
    } else {
        match items[1] {
            Value::Symbol(name) => if items.len() < 3 {
                (Err("Missing value in def"@), env)
            } else {
                let (r, after) = eval_spec(items[2], env, depth);
                match r {
                    Ok(v) => (Ok(v), store(after, name, v)),
                    Err(e) => (Err(e), after),
                }
            },
            _ => (Err("Expected symbol in def but got "@ + debug_text(items[1])), env),
        }
    }
}

/// `(do e1 .. en)`: the expressions evaluated in turn, the value of the
/// last one.
pub open spec fn do_form(items: Seq<Value>, env: Seq<(Seq<char>, Value)>, depth: nat) -> (
    Result<Value, Seq<char>>,
    Seq<(Seq<char>, Value)>,
)
    decreases depth, items, items.len() + 1,
{
    if items.len() < 2 {
        (Err("Empty do block"@), env)
    } else {
        let (r, after) = eval_items(items, 1, env, depth, Seq::empty());
        match r {
            Ok(values) => (Ok(values.last()), after),
            Err(e) => (Err(e), after),
        }
    }
}

/// A call of the function bound to `head`: the arguments are evaluated from
/// left to right, then the function is looked up. A native procedure takes
/// the arguments. A user-defined function has its body evaluated in a copy
/// of the environment with the parameters bound, so the caller's
/// environment is the one that the arguments left.
pub open spec fn call_form(
    head: Seq<char>,
    items: Seq<Value>,
    env: Seq<(Seq<char>, Value)>,
    depth: nat,
) -> (Result<Value, Seq<char>>, Seq<(Seq<char>, Value)>)
    decreases depth, items, items.len() + 1,
    when items.len() >= 1
{
    let (r, after) = eval_items(items, 1, env, depth, Seq::empty());
    match r {
        Err(e) => (Err(e), after),
        Ok(args) => match lookup(after, head) {
            None => (Err("Undefined symbol"@ + debug_quoted(head)), after),
            Some(Value::Function(f)) => (builtin_spec(f, args), after),
            Some(Value::Closure { params, variadic, body }) => {
                let (failure, inner) = bind_call(params, variadic, args, after);
                match failure {
                    Some(e) => (Err(e), after),
                    None => if depth == 0 {
                        (Err("Call depth limit reached"@), after)
                    } else {
                        (eval_spec(*body, inner, (depth - 1) as nat).0, after)
                    },
                }
            },
            Some(v) => (Err("Expected function but got "@ + debug_text(v)), after),
        },
    }
}

/// Whether the value is the marker `&`.
pub fn is_variadic_marker(risp: &RispType) -> (r: bool)
    ensures
        r == (risp@ == Value::Symbol("&"@)),
{
    match risp {
        RispType::Symbol(s) => *s == String::from_str("&"),
        _ => false,
    }
}

/// The function value for the written parameters and the body.
fn make_closure(args_vec: &Vec<RispType>, body: &RispType) -> (r: RispResult)
    ensures
        result_view(r) == closure_of(values_view(args_vec@), body@),
{
    let ghost params = values_view(args_vec@);
    proof {
        lemma_values_view(args_vec@);
    }
    let mut p: usize = 0;
    while p < args_vec.len()
        invariant
            p <= args_vec.len(),
            params == values_view(args_vec@),
            params.len() == args_vec.len(),
            forall|j: int| 0 <= j < args_vec.len() ==> #[trigger] params[j] == args_vec[j]@,
            forall|j: int| 0 <= j < p ==> (#[trigger] params[j]) != Value::Symbol("&"@),
        decreases args_vec.len() - p,
    {
        if is_variadic_marker(&args_vec[p]) {
            proof {
                assert(is_marker_at(params, p as int));
                let k = choose|i: int| is_marker_at(params, i);
                if k < p {
                    assert(params[k] != Value::Symbol("&"@));
                }
                if p < k {
                    assert(params[p as int] != Value::Symbol("&"@));
                }
            }
            if p + 1 < args_vec.len() {
                match &args_vec[p + 1] {
                    RispType::Symbol(name) => {
                        let f = RispFunc {
                            args: copy_range(args_vec, 0, p),
                            variadic_arg: Some(name.clone()),
                            body: Rc::new(copy_value(body)),
                        };
                        return Ok(RispType::RispFunction(f));
                    },
                    _ => {},
                }
            }
            return Err(
                error_with("Missing variadic arg after & in ", &debug_string_all(args_vec)),
            );
        }
        p += 1;
    }
    proof {
        if exists|i: int| is_marker_at(params, i) {
            let k = choose|i: int| is_marker_at(params, i);
            assert(params[k] != Value::Symbol("&"@));
        }
        assert(values_view(args_vec@).subrange(0, args_vec.len() as int) =~= values_view(
            args_vec@,
        ));
    }
    let f = RispFunc {
        args: copy_range(args_vec, 0, args_vec.len()),
        variadic_arg: None,
        body: Rc::new(copy_value(body)),
    };
    Ok(RispType::RispFunction(f))
}

/// Evaluates the form `(fn params body)`.
fn eval_fn(list: &Vec<RispType>) -> (r: RispResult)
    ensures
        result_view(r) == fn_form(values_view(list@)),
{
    proof {
        lemma_values_view(list@);
    }
    if list.len() < 2 {
        return Err(error("Missing args in fn"));
    }
    match &list[1] {
        RispType::Vector(args_vec) => {
            if list.len() < 3 {
                return Err(error("Missing body in fn"));
            }
            make_closure(args_vec, &list[2])
        },
        _ => Err(error_with("Expected args vector in fn but got ", &debug_string(&list[1]))),
    }
}

/// Evaluates the form `(defn name params body)`.
fn eval_defn(list: &Vec<RispType>, env: &mut Environment) -> (r: RispResult)
    ensures
        (result_view(r), final(env)@) == defn_form(values_view(list@), old(env)@),
{
    proof {
        lemma_values_view(list@);
    }
    if list.len() < 2 {
        return Err(error("Missing function name in defn"));
    }
    if list.len() < 3 {
        return Err(error("Missing args in defn"));
    }
    if list.len() < 4 {
        return Err(error("Missing body in defn"));
    }
    match &list[1] {
        RispType::Symbol(name) => {
            let made = match &list[2] {
                RispType::Vector(args_vec) => make_closure(args_vec, &list[3]),
                _ => Err(
                    error_with("Expected args vector in fn but got ", &debug_string(&list[2])),
                ),
            };
            match made {
                Ok(f) => {
                    env.set(name.as_str(), copy_value(&f));
                    Ok(f)
                },
                Err(e) => Err(e),
            }
        },
        _ => Err(error_with("Expected symbol in def but got ", &debug_string(&list[1]))),
    }
}

/// Binds the parameters of a function to the arguments of a call, and its
/// capturing parameter to the arguments beyond them.
pub fn put_args_into_env(risp_func: &RispFunc, values: &Vec<RispType>, env: &mut Environment) -> (r:
    Result<(), RispError>)
    ensures
        (
            match r {
                Ok(_) => None::<Seq<char>>,
                Err(e) => Some(e@),
            },
            final(env)@,
        ) == bind_call(
            values_view(risp_func.args@),
            match risp_func.variadic_arg {
                Some(name) => Some(name@),
                None => None,
            },
            values_view(values@),
            old(env)@,
        ),
{
    let ghost params = values_view(risp_func.args@);
    let ghost args = values_view(values@);
    proof {
        lemma_values_view(risp_func.args@);
        lemma_values_view(values@);
    }
    let mut i: usize = 0;
    while i < risp_func.args.len() && i < values.len()
        invariant
            i <= risp_func.args.len(),
            i <= values.len(),
            params == values_view(risp_func.args@),
            args == values_view(values@),
            params.len() == risp_func.args.len(),
            args.len() == values.len(),
            forall|j: int| 0 <= j < params.len() ==> #[trigger] params[j] == risp_func.args[j]@,
            forall|j: int| 0 <= j < args.len() ==> #[trigger] args[j] == values[j]@,
            bind_params(params, args, 0, old(env)@) == bind_params(params, args, i as int, env@),
        decreases risp_func.args.len() - i,
    {
        match &risp_func.args[i] {
            RispType::Symbol(arg_string) => {
                env.set(arg_string.as_str(), copy_value(&values[i]));
            },
            _ => {
                return Err(
                    error_with(
                        "Expected symbol in args list got ",
                        &debug_string(&risp_func.args[i]),
                    ),
                );
            },
        }
        i += 1;
    }
    match &risp_func.variadic_arg {
        Some(variadic_arg) => {
            let rest = if values.len() >= risp_func.args.len() {
                copy_range(values, risp_func.args.len(), values.len())
            } else {
                Vec::new()
            };
            proof {
                lemma_values_view(rest@);
                assert(values_view(rest@) =~= trailing(params.len(), args));
            }
            env.set(variadic_arg.as_str(), RispType::Vector(rest));
        },
        None => {},
    }
    Ok(())
}

/// Evaluates the items from position `from` on, one after the other.
fn eval_sequence(items: &Vec<RispType>, from: usize, env: &mut Environment, depth: usize) -> (r:
    Result<Vec<RispType>, RispError>)
    requires
        from <= items.len(),
    ensures
        (
            match r {
                Ok(values) => Ok::<Seq<Value>, Seq<char>>(values_view(values@)),
                Err(e) => Err(e@),
            },
            final(env)@,
        ) == eval_items(values_view(items@), from as int, old(env)@, depth as nat, Seq::empty()),
        r is Ok ==> r->Ok_0.len() == items.len() - from,
    decreases depth, items, items.len() - from,
{
    broadcast use vstd::std_specs::vec::axiom_vec_index_decreases;

    let ghost iv = values_view(items@);
    proof {
        lemma_values_view(items@);
    }
    let mut out: Vec<RispType> = Vec::new();
    let mut i: usize = from;
    proof {
        assert(values_view(out@) =~= Seq::<Value>::empty());
    }
    while i < items.len()
        invariant
            from <= i <= items.len(),
            out.len() == i - from,
            iv == values_view(items@),
            iv.len() == items.len(),
            forall|j: int| 0 <= j < items.len() ==> #[trigger] iv[j] == items[j]@,
            eval_items(iv, from as int, old(env)@, depth as nat, Seq::empty()) == eval_items(
                iv,
                i as int,
                env@,
                depth as nat,
                values_view(out@),
            ),
        decreases items.len() - i,
    {
        match eval_in(&items[i], env, depth) {
            Ok(v) => {
                proof {
                    lemma_values_view_push(out@, v);
                }
                out.push(v);
            },
            Err(e) => {
                return Err(e);
            },
        }
        i += 1;
    }
    Ok(out)
}

/// Evaluates the values of the entries, one after the other.
fn eval_pairs(entries: &Vec<(String, RispType)>, env: &mut Environment, depth: usize) -> (r: Result<
    Vec<(String, RispType)>,
    RispError,
>)
    ensures
        (
            match r {
                Ok(values) => Ok::<Seq<(Seq<char>, Value)>, Seq<char>>(entries_view(values@)),
                Err(e) => Err(e@),
            },
            final(env)@,
        ) == eval_entries(entries_view(entries@), 0, old(env)@, depth as nat, Seq::empty()),
    decreases depth, entries, entries.len(),
{
    broadcast use vstd::std_specs::vec::axiom_vec_index_decreases;

    let ghost ev = entries_view(entries@);
    proof {
        lemma_entries_view(entries@);
    }
    let mut out: Vec<(String, RispType)> = Vec::new();
    let mut i: usize = 0;
    proof {
        assert(entries_view(out@) =~= Seq::<(Seq<char>, Value)>::empty());
    }
    while i < entries.len()
        invariant
            i <= entries.len(),
            ev == entries_view(entries@),
            ev.len() == entries.len(),
            forall|j: int|
                0 <= j < entries.len() ==> #[trigger] ev[j] == (entries[j].0@, entries[j].1@),
            eval_entries(ev, 0, old(env)@, depth as nat, Seq::empty()) == eval_entries(
                ev,
                i as int,
                env@,
                depth as nat,
                entries_view(out@),
            ),
        decreases entries.len() - i,
    {
        match eval_in(&entries[i].1, env, depth) {
            Ok(v) => {
                let key = entries[i].0.clone();
                proof {
                    lemma_entries_view_push(out@, key, v);
                }
                out.push((key, v));
            },
            Err(e) => {
                return Err(e);
            },
        }
        i += 1;
    }
    Ok(out)
}

/// Evaluates the form `(def name value)`.
fn eval_def(list: &Vec<RispType>, env: &mut Environment, depth: usize) -> (r: RispResult)
    ensures
        (result_view(r), final(env)@) == def_form(values_view(list@), old(env)@, depth as nat),
    decreases depth, list, list.len() + 1,
{
    broadcast use vstd::std_specs::vec::axiom_vec_index_decreases;

    proof {
        lemma_values_view(list@);
    }
    if list.len() < 2 {
        return Err(error("Missing variable in def"));
    }
    match &list[1] {
        RispType::Symbol(sym_var) => {
            if list.len() < 3 {
                return Err(error("Missing value in def"));
            }
            match eval_in(&list[2], env, depth) {
                Ok(value) => {
                    env.set(sym_var.as_str(), copy_value(&value));
                    Ok(value)
                },
                Err(e) => Err(e),
            }
        },
        _ => Err(error_with("Expected symbol in def but got ", &debug_string(&list[1]))),
    }
}

/// Evaluates the form `(do e1 .. en)`.
fn eval_do_block(list: &Vec<RispType>, env: &mut Environment, depth: usize) -> (r: RispResult)
    ensures
        (result_view(r), final(env)@) == do_form(values_view(list@), old(env)@, depth as nat),
    decreases depth, list, list.len() + 1,
{
    proof {
        lemma_values_view(list@);
    }
    if list.len() < 2 {
        return Err(error("Empty do block"));
    }
    match eval_sequence(list, 1, env, depth) {
        Ok(mut values) => {
            proof {
                lemma_values_view(values@);
            }
            match values.pop() {
                Some(last) => Ok(last),
                None => Err(error("Empty do block")),
            }
        },
        Err(e) => Err(e),
    }
}

/// Evaluates a call of the function bound to `name`.
fn eval_call_of(name: &String, list: &Vec<RispType>, env: &mut Environment, depth: usize) -> (r:
    RispResult)
    requires
        list.len() >= 1,
    ensures
        (result_view(r), final(env)@) == call_form(
            name@,
            values_view(list@),
            old(env)@,
            depth as nat,
        ),
    decreases depth, list, list.len() + 1,
{
    proof {
        lemma_values_view(list@);
    }
    let evaluated_tail = match eval_sequence(list, 1, env, depth) {
        Ok(values) => values,
        Err(e) => {
            return Err(e);
        },
    };
    match env.get(name.as_str()) {
        None => Err(error_with("Undefined symbol", &debug_quote(name.as_str()))),
        Some(RispType::Function(function)) => call_builtin(function, evaluated_tail),
        Some(RispType::RispFunction(risp_function)) => {
            let mut inner_env = env.duplicate();
            match put_args_into_env(&risp_function, &evaluated_tail, &mut inner_env) {
                Err(e) => Err(e),
                Ok(_) => {
                    if depth == 0 {
                        Err(error("Call depth limit reached"))
                    } else {
                        eval_in(&*risp_function.body, &mut inner_env, depth - 1)
                    }
                },
            }
        },
        Some(other) => Err(error_with("Expected function but got ", &debug_string(&other))),
    }
}

/// Evaluates a list: a special form or a call.
fn eval_form(list: &Vec<RispType>, env: &mut Environment, depth: usize) -> (r: RispResult)
    ensures
        (result_view(r), final(env)@) == eval_list(values_view(list@), old(env)@, depth as nat),
    decreases depth, list, list.len() + 2,
{
    proof {
        lemma_values_view(list@);
    }
    if list.len() == 0 {
        return Err(error("Empty List"));
    }
    match &list[0] {
        RispType::Symbol(symbol_ref) => {
            if *symbol_ref == String::from_str("def") {
                eval_def(list, env, depth)
            } else if *symbol_ref == String::from_str("defn") {
                eval_defn(list, env)
            } else if *symbol_ref == String::from_str("do") {
                eval_do_block(list, env, depth)
            } else if *symbol_ref == String::from_str("comment") {
                Ok(RispType::Nil)
            } else if *symbol_ref == String::from_str("fn") {
                eval_fn(list)
            } else {
                eval_call_of(symbol_ref, list, env, depth)
            }
        },
        _ => Err(error_with("Expected symbol but got ", &debug_string(&list[0]))),
    }
}

/// Evaluates an expression with calls of user-defined functions nested at
/// most `depth` deep.
pub fn eval_in(ast: &RispType, env: &mut Environment, depth: usize) -> (r: RispResult)
    ensures
        (result_view(r), final(env)@) == eval_spec(ast@, old(env)@, depth as nat),
    decreases depth, ast, 0nat,
{
    match ast {
        RispType::List(list) => eval_form(list, env, depth),
        RispType::Vector(vector) => match eval_sequence(vector, 0, env, depth) {
            Ok(values) => Ok(RispType::Vector(values)),
            Err(e) => Err(e),
        },
        RispType::Mapping(map_value) => match eval_pairs(map_value, env, depth) {
            Ok(values) => Ok(RispType::Mapping(values)),
            Err(e) => Err(e),
        },
        RispType::Symbol(symbol) => match env.get(symbol.as_str()) {
            Some(v) => Ok(v),
            None => {
                let quoted = debug_quote(symbol.as_str());
                let start = String::from_str("symbol '").concat(quoted.as_str());
                Err(RispError(start.concat("' is undefined")))
            },
        },
        other => Ok(copy_value(other)),
    }
}

/// Evaluates an expression in the environment. A `def` at the top level
/// binds in `env`; a call of a user-defined function leaves `env` as its
/// arguments left it.
pub fn eval(ast: RispType, env: &mut Environment) -> (r: RispResult)
    ensures
        (result_view(r), final(env)@) == eval_spec(ast@, old(env)@, CALL_DEPTH as nat),
{
    eval_in(&ast, env, CALL_DEPTH)
}

/// Evaluates an expression in a fresh starter environment.
pub fn eval_test(ast: RispType) -> (r: RispResult)
    ensures
        result_view(r) == eval_spec(ast@, core_bindings(), CALL_DEPTH as nat).0,
{
    let mut env = create_core_environment();
    eval(ast, &mut env)
}

/// Parses and evaluates the first expression of `risp` in a fresh starter
/// environment.
pub fn eval_str(risp: &str) -> (r: RispResult)
    ensures
        result_view(r) == match parsed(tokens_of(risp@)) {
            Ok(ast) => eval_spec(ast, core_bindings(), CALL_DEPTH as nat).0,
            Err(e) => Err(e),
        },
{
    match parse(risp) {
        Ok(ast) => eval_test(ast),
        Err(e) => Err(e),
    }
}

/// Whether a value is plain data: no symbol and no list in it.
pub open spec fn is_data(v: Value) -> bool
    decreases v,
{
    match v {
        Value::Symbol(_) => false,
        Value::List(_) => false,
        Value::Vector(items) => forall|i: int|
            0 <= i < items.len() ==> is_data(#[trigger] items[i]),
        Value::Mapping(entries) => forall|i: int|
            0 <= i < entries.len() ==> is_data((#[trigger] entries[i]).1),
        _ => true,
    }
}

/// Plain data evaluates to itself and leaves the environment as it is,
/// whatever the environment holds.
pub proof fn lemma_data_evaluates_to_itself(v: Value, env: Seq<(Seq<char>, Value)>, depth: nat)
    requires
        is_data(v),
    ensures
        eval_spec(v, env, depth) == (Ok::<Value, Seq<char>>(v), env),
    decreases v, 0nat,
{
    match v {
        Value::Vector(items) => {
            lemma_data_items(items, 0, env, depth, Seq::empty());
            assert(Seq::<Value>::empty() + items.skip(0) =~= items);
        },
        Value::Mapping(entries) => {
            lemma_data_entries(entries, 0, env, depth, Seq::empty());
            assert(Seq::<(Seq<char>, Value)>::empty() + entries.skip(0) =~= entries);
        },
        _ => {},
    }
}

/// A run of plain data evaluates to itself.
pub proof fn lemma_data_items(
    items: Seq<Value>,
    i: int,
    env: Seq<(Seq<char>, Value)>,
    depth: nat,
    acc: Seq<Value>,
)
    requires
        0 <= i <= items.len(),
        forall|j: int| 0 <= j < items.len() ==> is_data(#[trigger] items[j]),
    ensures
        eval_items(items, i, env, depth, acc) == (
            Ok::<Seq<Value>, Seq<char>>(acc + items.skip(i)),
            env,
        ),
    decreases items, items.len() - i,
{
    if i < items.len() {
        lemma_data_evaluates_to_itself(items[i], env, depth);
        lemma_data_items(items, i + 1, env, depth, acc.push(items[i]));
        assert(acc.push(items[i]) + items.skip(i + 1) =~= acc + items.skip(i));
    } else {
        assert(acc + items.skip(i) =~= acc);
    }
}

/// The entries of a map of plain data evaluate to themselves.
pub proof fn lemma_data_entries(
    entries: Seq<(Seq<char>, Value)>,
    i: int,
    env: Seq<(Seq<char>, Value)>,
    depth: nat,
    acc: Seq<(Seq<char>, Value)>,
)
    requires
        0 <= i <= entries.len(),
        forall|j: int| 0 <= j < entries.len() ==> is_data((#[trigger] entries[j]).1),
    ensures
        eval_entries(entries, i, env, depth, acc) == (
            Ok::<Seq<(Seq<char>, Value)>, Seq<char>>(acc + entries.skip(i)),
            env,
        ),
    decreases entries, entries.len() - i,
{
    if i < entries.len() {
        lemma_data_evaluates_to_itself(entries[i].1, env, depth);
        lemma_data_entries(entries, i + 1, env, depth, acc.push((entries[i].0, entries[i].1)));
        assert(acc.push((entries[i].0, entries[i].1)) + entries.skip(i + 1) =~= acc + entries.skip(
            i,
        ));
    } else {
        assert(acc + entries.skip(i) =~= acc);
    }
}

/// A `comment` form evaluates to `Nil` and leaves the environment as it
/// is, whatever stands in it.
pub proof fn lemma_comment_is_nil(rest: Seq<Value>, env: Seq<(Seq<char>, Value)>, depth: nat)
    ensures
        eval_spec(Value::List(seq![Value::Symbol("comment"@)] + rest), env, depth) == (
            Ok::<Value, Seq<char>>(Value::Nil),
            env,
        ),
{
    reveal_strlit("comment");
    reveal_strlit("def");
    reveal_strlit("defn");
    reveal_strlit("do");
    let items = seq![Value::Symbol("comment"@)] + rest;
    assert(items[0] == Value::Symbol("comment"@));
    assert("comment"@.len() == 7 && "def"@.len() == 3 && "defn"@.len() == 4 && "do"@.len() == 2);
}

/// A call leaves the caller's environment as the evaluation of its
/// arguments left it: nothing that the called function binds reaches the
/// caller.
pub proof fn lemma_call_keeps_environment(
    head: Seq<char>,
    items: Seq<Value>,
    env: Seq<(Seq<char>, Value)>,
    depth: nat,
)
    requires
        items.len() >= 1,
    ensures
        call_form(head, items, env, depth).1 == eval_items(items, 1, env, depth, Seq::empty()).1,
{
}

/// `(defn name params body)` is `(def name (fn params body))`.
pub proof fn lemma_defn_is_def_of_fn(
    name: Value,
    params: Value,
    body: Value,
    env: Seq<(Seq<char>, Value)>,
    depth: nat,
)
    ensures
        eval_spec(Value::List(seq![Value::Symbol("defn"@), name, params, body]), env, depth)
            == eval_spec(
            Value::List(
                seq![
                    Value::Symbol("def"@),
                    name,
                    Value::List(seq![Value::Symbol("fn"@), params, body]),
                ],
            ),
            env,
            depth,
        ),
{
    reveal_strlit("comment");
    reveal_strlit("def");
    reveal_strlit("defn");
    reveal_strlit("do");
    reveal_strlit("fn");
    assert("comment"@.len() == 7 && "def"@.len() == 3 && "defn"@.len() == 4);
    assert("do"@.len() == 2 && "fn"@.len() == 2 && "fn"@[0] == 'f' && "do"@[0] == 'd');
    let inner = seq![Value::Symbol("fn"@), params, body];
    let outer = seq![Value::Symbol("def"@), name, Value::List(inner)];
    let sugar = seq![Value::Symbol("defn"@), name, params, body];
    assert(eval_spec(Value::List(inner), env, depth) == (fn_form(inner), env));
    assert(eval_spec(Value::List(sugar), env, depth) == defn_form(sugar, env));
    assert(eval_spec(Value::List(outer), env, depth) == def_form(outer, env, depth));
}

/// The parameters of a function made by `fn` are the written ones up to
/// the first `&`, and hold no `&`.
pub proof fn lemma_closure_parameters(params: Seq<Value>, body: Value)
    ensures
        match closure_of(params, body) {
            Ok(f) => {
                &&& f is Closure
                &&& f->params.len() <= params.len()
                &&& f->params == params.take(f->params.len() as int)
                &&& forall|i: int|
                    0 <= i < f->params.len() ==> (#[trigger] f->params[i]) != Value::Symbol("&"@)
                &&& *f->body == body
            },
            Err(_) => true,
        },
{
    if exists|i: int| is_marker_at(params, i) {
        let p = choose|i: int| is_marker_at(params, i);
        assert(is_marker_at(params, p));
        assert(params.take(p).len() == p);
        assert forall|i: int| 0 <= i < p implies (#[trigger] params.take(p)[i]) != Value::Symbol(
            "&"@,
        ) by {
            assert(params.take(p)[i] == params[i]);
        }
    } else {
        assert(params.take(params.len() as int) =~= params);
        assert forall|i: int| 0 <= i < params.len() implies (#[trigger] params[i])
            != Value::Symbol("&"@) by {
            if params[i] == Value::Symbol("&"@) {
                lemma_marker_exists(params, i);
            }
        }
    }
}

/// Where some parameter is the marker `&`, there is a first one.
pub proof fn lemma_marker_exists(params: Seq<Value>, i: int)
    requires
        0 <= i < params.len(),
        params[i] == Value::Symbol("&"@),
    ensures
        exists|k: int| is_marker_at(params, k),
    decreases i,
{
    if exists|k: int| 0 <= k < i && (#[trigger] params[k]) == Value::Symbol("&"@) {
        let k = choose|k: int| 0 <= k < i && (#[trigger] params[k]) == Value::Symbol("&"@);
        lemma_marker_exists(params, k);
    } else {
        assert(is_marker_at(params, i));
    }
}

/// In the environment of a call, the capturing parameter is bound to the
/// vector of the arguments beyond the declared parameters.
pub proof fn lemma_variadic_capture(
    params: Seq<Value>,
    name: Seq<char>,
    args: Seq<Value>,
    env: Seq<(Seq<char>, Value)>,
)
    requires
        bind_call(params, Some(name), args, env).0 is None,
    ensures
        lookup(bind_call(params, Some(name), args, env).1, name) == Some(
            Value::Vector(trailing(params.len(), args)),
        ),
{
    let bound = bind_params(params, args, 0, env).1;
    lemma_store_then_lookup(bound, name, Value::Vector(trailing(params.len(), args)));
}

/// Where `(def name e)` gives a value, that is the value of `e`, and the
/// name is bound to it afterwards.
pub proof fn lemma_def_binds(name: Seq<char>, e: Value, env: Seq<(Seq<char>, Value)>, depth: nat)
    ensures
        match eval_spec(
            Value::List(seq![Value::Symbol("def"@), Value::Symbol(name), e]),
            env,
            depth,
        ) {
            (Ok(v), after) => eval_spec(e, env, depth).0 == Ok::<Value, Seq<char>>(v) && lookup(
                after,
                name,
            ) == Some(v),
            (Err(_), _) => true,
        },
{
    let items = seq![Value::Symbol("def"@), Value::Symbol(name), e];
    assert(eval_spec(Value::List(items), env, depth) == def_form(items, env, depth));
    let (r, after) = eval_spec(items[2], env, depth);
    match r {
        Ok(v) => lemma_store_then_lookup(after, name, v),
        Err(_) => {},
    }
}

} // verus!
