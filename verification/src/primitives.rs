//! The arithmetic and collection primitives, and the starter environment
//! that holds them.
use crate::environment::Environment;
use crate::types::{
    copy_value, debug_string, debug_text, error, error_with, lemma_values_view,
    lemma_store_keeps_distinct, lemma_store_keeps_others, lemma_store_then_lookup,
    lemma_values_view_push, lookup, distinct_keys, result_view, store,
    values_view, Builtin, RispResult, RispType, Value,
};
use vstd::prelude::*;

verus! {

/// A binary operation on integers.
#[derive(Debug, Clone, Copy, PartialEq, Eq, Structural)]
pub enum IntOperation {
    Add,
    Sub,
    Mul,
    Div,
}

/// The result of the operation on two integers; none where it would leave
/// the range of `i64` or divide by zero.
pub open spec fn int_op(op: IntOperation, a: i64, b: i64) -> Option<i64> {
    match op {
        IntOperation::Add => a.checked_add(b),
        IntOperation::Sub => a.checked_sub(b),
        IntOperation::Mul => a.checked_mul(b),
        IntOperation::Div => a.checked_div(b),
    }
}

/// The message for an operation whose result is no `i64`.
pub open spec fn arithmetic_message(op: IntOperation, b: i64) -> Seq<char> {
    if op == IntOperation::Div && b == 0 {
        "Division by zero"@
    } else {
        "Integer overflow"@
    }
}

/// The message for a first operand that is neither an integer nor a vector.
pub open spec fn first_operand_message(x: Value) -> Seq<char> {
    "Operation wants an Int or a Vector as first argument but got "@ + debug_text(x)
}

/// The message for a second operand that is neither an integer nor a vector.
pub open spec fn second_operand_message(x: Value) -> Seq<char> {
    "Operation wants an Int or a Vector as second argument but got "@ + debug_text(x)
}

/// The message for two vectors of which exactly one is empty.
pub open spec fn empty_operand_message() -> Seq<char> {
    "Operation cannot combine an empty Vector with a non-empty one"@
}

/// Whether `i` is the first position of `results` that holds an error.
pub open spec fn first_error_at(results: Seq<Result<Value, Seq<char>>>, i: int) -> bool {
    &&& 0 <= i < results.len()
    &&& results[i] is Err
    &&& forall|j: int| 0 <= j < i ==> (#[trigger] results[j]) is Ok
}

/// All the values of `results` in order, or its first error.
pub open spec fn gather(results: Seq<Result<Value, Seq<char>>>) -> Result<Seq<Value>, Seq<char>> {
    if exists|i: int| first_error_at(results, i) {
        Err(results[choose|i: int| first_error_at(results, i)]->Err_0)
    } else {
        Ok(Seq::new(results.len(), |i: int| results[i]->Ok_0))
    }
}

/// The vector of the gathered values, or the error.
pub open spec fn as_vector(r: Result<Seq<Value>, Seq<char>>) -> Result<Value, Seq<char>> {
    match r {
        Ok(items) => Ok(Value::Vector(items)),
        Err(e) => Err(e),
    }
}

/// The larger of two lengths.
pub open spec fn longer(a: nat, b: nat) -> nat {
    if a >= b {
        a
    } else {
        b
    }
}

/// The results, position by position, of combining a number with each item.
pub open spec fn number_with_each(op: IntOperation, a: i64, ys: Seq<Value>) -> Seq<
    Result<Value, Seq<char>>,
>
    decreases Value::Int(a), ys,
{
    Seq::new(
        ys.len(),
        |i: int|
            if 0 <= i < ys.len() {
                combine(op, Value::Int(a), ys[i])
            } else {
                Ok(Value::Nil)
            },
    )
}

/// The results, position by position, of combining each item with a number.
pub open spec fn each_with_number(op: IntOperation, xs: Seq<Value>, b: i64) -> Seq<
    Result<Value, Seq<char>>,
>
    decreases xs, Value::Int(b),
{
    Seq::new(
        xs.len(),
        |i: int|
            if 0 <= i < xs.len() {
                combine(op, xs[i], Value::Int(b))
            } else {
                Ok(Value::Nil)
            },
    )
}

/// The results, position by position, of combining two non-empty runs; the
/// shorter one is read cyclically.
pub open spec fn each_with_each(op: IntOperation, xs: Seq<Value>, ys: Seq<Value>) -> Seq<
    Result<Value, Seq<char>>,
>
    decreases xs, ys,
{
    Seq::new(
        longer(xs.len(), ys.len()),
        |i: int|
            if 0 <= i && xs.len() > 0 && ys.len() > 0 {
                combine(op, xs[i % (xs.len() as int)], ys[i % (ys.len() as int)])
            } else {
                Ok(Value::Nil)
            },
    )
}

/// The broadcasting combination of two operands.
///
/// Two integers give the integer result. A number and a vector give the
/// vector of the number combined with each item, and the other way round.
/// Two vectors give a vector as long as the longer one, whose item `i`
/// combines item `i mod len` of each. Items are combined by the same rule,
/// so vectors may nest. The first item that fails decides the error.
pub open spec fn combine(op: IntOperation, x1: Value, x2: Value) -> Result<Value, Seq<char>>
    decreases x1, x2,
{
    match x1 {
        Value::Int(a) => match x2 {
            Value::Int(b) => match int_op(op, a, b) {
                Some(n) => Ok(Value::Int(n)),
                None => Err(arithmetic_message(op, b)),
            },
            Value::Vector(ys) => as_vector(gather(number_with_each(op, a, ys))),
            _ => Err(second_operand_message(x2)),
        },
        Value::Vector(xs) => match x2 {
            Value::Int(b) => as_vector(gather(each_with_number(op, xs, b))),
            Value::Vector(ys) => if xs.len() == 0 && ys.len() == 0 {
                Ok(Value::Vector(Seq::empty()))
            } else if xs.len() == 0 || ys.len() == 0 {
                Err(empty_operand_message())
            } else {
                as_vector(gather(each_with_each(op, xs, ys)))
            },
            _ => Err(second_operand_message(x2)),
        },
        _ => Err(first_operand_message(x1)),
    }
}

/// The first error of a run of results decides what is gathered.
pub proof fn lemma_gather_error(results: Seq<Result<Value, Seq<char>>>, i: int)
    requires
        first_error_at(results, i),
    ensures
        gather(results) == Err::<Seq<Value>, Seq<char>>(results[i]->Err_0),
{
    let k = choose|k: int| first_error_at(results, k);
    assert(first_error_at(results, k));
    if k < i {
        assert(results[k] is Ok);
    }
    if i < k {
        assert(results[i] is Ok);
    }
}

/// A run without an error is gathered whole.
pub proof fn lemma_gather_values(results: Seq<Result<Value, Seq<char>>>, values: Seq<Value>)
    requires
        values.len() == results.len(),
        forall|j: int|
            0 <= j < results.len() ==> (#[trigger] results[j]) == Ok::<Value, Seq<char>>(
                values[j],
            ),
    ensures
        gather(results) == Ok::<Seq<Value>, Seq<char>>(values),
{
    if exists|i: int| first_error_at(results, i) {
        let k = choose|k: int| first_error_at(results, k);
        assert(results[k] is Ok);
    }
    assert(values =~= Seq::new(results.len(), |i: int| results[i]->Ok_0));
}

/// The operation on two integers.
pub fn int_operation(op: IntOperation, a: i64, b: i64) -> (r: Option<i64>)
    ensures
        r == int_op(op, a, b),
{
    match op {
        IntOperation::Add => a.checked_add(b),
        IntOperation::Sub => a.checked_sub(b),
        IntOperation::Mul => a.checked_mul(b),
        IntOperation::Div => a.checked_div(b),
    }
}

/// Combines two operands by the broadcasting rule.
pub fn apply_to(op: IntOperation, x1: &RispType, x2: &RispType) -> (r: RispResult)
    ensures
        result_view(r) == combine(op, x1@, x2@),
    decreases x1, x2,
{
    match x1 {
        RispType::Int(a) => match x2 {
            RispType::Int(b) => match int_operation(op, *a, *b) {
                Some(n) => Ok(RispType::Int(n)),
                None => if op == IntOperation::Div && *b == 0 {
                    Err(error("Division by zero"))
                } else {
                    Err(error("Integer overflow"))
                },
            },
            RispType::Vector(ys) => apply_to_number_and_vector(op, *a, ys),
            _ => Err(
                error_with(
                    "Operation wants an Int or a Vector as second argument but got ",
                    &debug_string(x2),
                ),
            ),
        },
        RispType::Vector(xs) => match x2 {
            RispType::Int(b) => apply_to_vector_and_number(op, xs, *b),
            RispType::Vector(ys) => apply_to_vector_and_vector(op, xs, ys),
            _ => Err(
                error_with(
                    "Operation wants an Int or a Vector as second argument but got ",
                    &debug_string(x2),
                ),
            ),
        },
        _ => Err(
            error_with(
                "Operation wants an Int or a Vector as first argument but got ",
                &debug_string(x1),
            ),
        ),
    }
}

/// Combines a number with each item of a vector.
pub fn apply_to_number_and_vector(op: IntOperation, x_int: i64, xs: &Vec<RispType>) -> (r:
    RispResult)
    ensures
        result_view(r) == combine(op, Value::Int(x_int), Value::Vector(values_view(xs@))),
    decreases RispType::Int(x_int), xs,
{
    broadcast use vstd::std_specs::vec::axiom_vec_index_decreases;

    let x = RispType::Int(x_int);
    let ghost results = number_with_each(op, x_int, values_view(xs@));
    proof {
        lemma_values_view(xs@);
    }
    let mut out: Vec<RispType> = Vec::new();
    let mut i: usize = 0;
    while i < xs.len()
        invariant
            i <= xs.len(),
            out.len() == i,
            x == RispType::Int(x_int),
            results == number_with_each(op, x_int, values_view(xs@)),
            results.len() == xs.len(),
            values_view(xs@).len() == xs.len(),
            forall|j: int| 0 <= j < xs.len() ==> #[trigger] values_view(xs@)[j] == xs[j]@,
            forall|j: int|
                0 <= j < i ==> (#[trigger] results[j]) == Ok::<Value, Seq<char>>(out[j]@),
        decreases xs.len() - i,
    {
        match apply_to(op, &x, &xs[i]) {
            Ok(v) => {
                out.push(v);
            },
            Err(e) => {
                proof {
                    assert(results[i as int] == Err::<Value, Seq<char>>(e@));
                    lemma_gather_error(results, i as int);
                }
                return Err(e);
            },
        }
        i += 1;
    }
    proof {
        lemma_values_view(out@);
        lemma_gather_values(results, values_view(out@));
    }
    Ok(RispType::Vector(out))
}

/// Combines each item of a vector with a number.
pub fn apply_to_vector_and_number(op: IntOperation, xs: &Vec<RispType>, x_int: i64) -> (r:
    RispResult)
    ensures
        result_view(r) == combine(op, Value::Vector(values_view(xs@)), Value::Int(x_int)),
    decreases xs, RispType::Int(x_int),
{
    broadcast use vstd::std_specs::vec::axiom_vec_index_decreases;

    let x = RispType::Int(x_int);
    let ghost results = each_with_number(op, values_view(xs@), x_int);
    proof {
        lemma_values_view(xs@);
    }
    let mut out: Vec<RispType> = Vec::new();
    let mut i: usize = 0;
    while i < xs.len()
        invariant
            i <= xs.len(),
            out.len() == i,
            x == RispType::Int(x_int),
            results == each_with_number(op, values_view(xs@), x_int),
            results.len() == xs.len(),
            values_view(xs@).len() == xs.len(),
            forall|j: int| 0 <= j < xs.len() ==> #[trigger] values_view(xs@)[j] == xs[j]@,
            forall|j: int|
                0 <= j < i ==> (#[trigger] results[j]) == Ok::<Value, Seq<char>>(out[j]@),
        decreases xs.len() - i,
    {
        match apply_to(op, &xs[i], &x) {
            Ok(v) => {
                out.push(v);
            },
            Err(e) => {
                proof {
                    assert(results[i as int] == Err::<Value, Seq<char>>(e@));
                    lemma_gather_error(results, i as int);
                }
                return Err(e);
            },
        }
        i += 1;
    }
    proof {
        lemma_values_view(out@);
        lemma_gather_values(results, values_view(out@));
    }
    Ok(RispType::Vector(out))
}

/// Combines two vectors item by item, reading the shorter one cyclically.
pub fn apply_to_vector_and_vector(op: IntOperation, xs1: &Vec<RispType>, xs2: &Vec<RispType>) -> (r:
    RispResult)
    ensures
        result_view(r) == combine(
            op,
            Value::Vector(values_view(xs1@)),
            Value::Vector(values_view(xs2@)),
        ),
    decreases xs1, xs2,
{
    broadcast use vstd::std_specs::vec::axiom_vec_index_decreases;

    proof {
        lemma_values_view(xs1@);
        lemma_values_view(xs2@);
    }
    if xs1.len() == 0 && xs2.len() == 0 {
        let out: Vec<RispType> = Vec::new();
        proof {
            lemma_values_view(out@);
            assert(values_view(out@) =~= Seq::<Value>::empty());
        }
        return Ok(RispType::Vector(out));
    }
    if xs1.len() == 0 || xs2.len() == 0 {
        return Err(error("Operation cannot combine an empty Vector with a non-empty one"));
    }
    let result_len: usize = if xs1.len() >= xs2.len() {
        xs1.len()
    } else {
        xs2.len()
    };
    let ghost results = each_with_each(op, values_view(xs1@), values_view(xs2@));
    let mut out: Vec<RispType> = Vec::new();
    let mut i: usize = 0;
    while i < result_len
        invariant
            i <= result_len,
            out.len() == i,
            xs1.len() > 0,
            xs2.len() > 0,
            result_len == longer(xs1.len() as nat, xs2.len() as nat),
            results == each_with_each(op, values_view(xs1@), values_view(xs2@)),
            results.len() == result_len,
            values_view(xs1@).len() == xs1.len(),
            values_view(xs2@).len() == xs2.len(),
            forall|j: int| 0 <= j < xs1.len() ==> #[trigger] values_view(xs1@)[j] == xs1[j]@,
            forall|j: int| 0 <= j < xs2.len() ==> #[trigger] values_view(xs2@)[j] == xs2[j]@,
            forall|j: int|
                0 <= j < i ==> (#[trigger] results[j]) == Ok::<Value, Seq<char>>(out[j]@),
        decreases result_len - i,
    {
        match apply_to(op, &xs1[i % xs1.len()], &xs2[i % xs2.len()]) {
            Ok(v) => {
                out.push(v);
            },
            Err(e) => {
                proof {
                    assert(results[i as int] == Err::<Value, Seq<char>>(e@));
                    lemma_gather_error(results, i as int);
                }
                return Err(e);
            },
        }
        i += 1;
    }
    proof {
        lemma_values_view(out@);
        lemma_gather_values(results, values_view(out@));
    }
    Ok(RispType::Vector(out))
}

/// The left fold of the combination over `rest`, starting from `acc`; the
/// first failure ends it.
pub open spec fn fold_from(op: IntOperation, acc: Value, rest: Seq<Value>) -> Result<
    Value,
    Seq<char>,
>
    decreases rest.len(),
{
    if rest.len() == 0 {
        Ok(acc)
    } else {
        match combine(op, acc, rest[0]) {
            Ok(v) => fold_from(op, v, rest.skip(1)),
            Err(e) => Err(e),
        }
    }
}

/// The reduction of the arguments of `+`, `-`, `*` and `/`: the first
/// argument combined with each of the others in turn.
pub open spec fn reduce(op: IntOperation, args: Seq<Value>) -> Result<Value, Seq<char>> {
    if args.len() == 0 {
        Err("Missing first argument"@)
    } else {
        fold_from(op, args[0], args.skip(1))
    }
}

/// Reduces the arguments with the operation, from the left.
pub fn apply_to_vector(op: IntOperation, vec: &Vec<RispType>) -> (r: RispResult)
    ensures
        result_view(r) == reduce(op, values_view(vec@)),
{
    proof {
        lemma_values_view(vec@);
    }
    if vec.len() == 0 {
        return Err(error("Missing first argument"));
    }
    let ghost args = values_view(vec@);
    let mut acc = copy_value(&vec[0]);
    let mut i: usize = 1;
    while i < vec.len()
        invariant
            1 <= i <= vec.len(),
            args == values_view(vec@),
            args.len() == vec.len(),
            forall|j: int| 0 <= j < vec.len() ==> #[trigger] args[j] == vec[j]@,
            reduce(op, args) == fold_from(op, acc@, args.skip(i as int)),
        decreases vec.len() - i,
    {
        proof {
            assert(args.skip(i as int)[0] == args[i as int]);
            assert(args.skip(i as int).skip(1) =~= args.skip(i + 1));
        }
        match apply_to(op, &acc, &vec[i]) {
            Ok(v) => {
                acc = v;
            },
            Err(e) => {
                return Err(e);
            },
        }
        i += 1;
    }
    Ok(acc)
}

/// The sum of the arguments.
pub fn sum(args: Vec<RispType>) -> (r: RispResult)
    ensures
        result_view(r) == reduce(IntOperation::Add, values_view(args@)),
{
    apply_to_vector(IntOperation::Add, &args)
}

/// The product of the arguments.
pub fn mul(vec: Vec<RispType>) -> (r: RispResult)
    ensures
        result_view(r) == reduce(IntOperation::Mul, values_view(vec@)),
{
    apply_to_vector(IntOperation::Mul, &vec)
}

/// The first argument divided by each of the others in turn.
pub fn div(vec: Vec<RispType>) -> (r: RispResult)
    ensures
        result_view(r) == reduce(IntOperation::Div, values_view(vec@)),
{
    apply_to_vector(IntOperation::Div, &vec)
}

/// The first argument less each of the others in turn.
pub fn sub(vec: Vec<RispType>) -> (r: RispResult)
    ensures
        result_view(r) == reduce(IntOperation::Sub, values_view(vec@)),
{
    apply_to_vector(IntOperation::Sub, &vec)
}

/// The sum of two operands.
pub fn sum2(x1: &RispType, x2: &RispType) -> (r: RispResult)
    ensures
        result_view(r) == combine(IntOperation::Add, x1@, x2@),
{
    apply_to(IntOperation::Add, x1, x2)
}

/// `pattern` written `times` times, end to end.
pub open spec fn repeat_seq(pattern: Seq<Value>, times: nat) -> Seq<Value>
    decreases times,
{
    if times == 0 {
        Seq::empty()
    } else {
        repeat_seq(pattern, (times - 1) as nat) + pattern
    }
}

/// What `rep` returns: the arguments after the count, repeated count times.
pub open spec fn rep_spec(args: Seq<Value>) -> Result<Value, Seq<char>> {
    if args.len() == 0 {
        Err("rep needs 2 arguments but got 0"@)
    } else {
        match args[0] {
            Value::Int(n) => if n < 0 {
                Err("rep needs a count that is not negative"@)
            } else {
                Ok(Value::Vector(repeat_seq(args.skip(1), n as nat)))
            },
            _ => Err("rep needs an int as first argument"@),
        }
    }
}

/// Copies of the items of `pattern`, `times` times over, in one flat run.
pub fn repeated(pattern: &Vec<RispType>, times: u64) -> (r: Vec<RispType>)
    ensures
        values_view(r@) == repeat_seq(values_view(pattern@), times as nat),
{
    let mut out: Vec<RispType> = Vec::new();
    let mut k: u64 = 0;
    proof {
        lemma_values_view(pattern@);
        lemma_values_view(out@);
        assert(values_view(out@) =~= repeat_seq(values_view(pattern@), 0));
    }
    while k < times
        invariant
            k <= times,
            values_view(pattern@).len() == pattern.len(),
            forall|j: int|
                0 <= j < pattern.len() ==> #[trigger] values_view(pattern@)[j] == pattern[j]@,
            values_view(out@) == repeat_seq(values_view(pattern@), k as nat),
        decreases times - k,
    {
        let ghost before = values_view(out@);
        let mut j: usize = 0;
        while j < pattern.len()
            invariant
                j <= pattern.len(),
                values_view(pattern@).len() == pattern.len(),
                forall|j: int|
                    0 <= j < pattern.len() ==> #[trigger] values_view(pattern@)[j] == pattern[j]@,
                values_view(out@) == before + values_view(pattern@).take(j as int),
            decreases pattern.len() - j,
        {
            let ghost prior = out@;
            out.push(copy_value(&pattern[j]));
            proof {
                lemma_values_view_push(prior, out@[prior.len() as int]);
                assert(out@ =~= prior.push(out@[prior.len() as int]));
                assert(values_view(out@) =~= before + values_view(pattern@).take(j + 1));
            }
            j += 1;
        }
        proof {
            assert(values_view(pattern@).take(pattern.len() as int) =~= values_view(pattern@));
        }
        k += 1;
    }
    out
}

/// The items of the runs of `input`, in order, in one flat run.
pub open spec fn concat_spec(input: Seq<Vec<RispType>>) -> Seq<Value>
    decreases input.len(),
{
    if input.len() == 0 {
        Seq::empty()
    } else {
        concat_spec(input.drop_last()) + values_view(input.last()@)
    }
}

/// Joins the runs of `input` into one flat run.
pub fn concat(input: Vec<Vec<RispType>>) -> (r: Vec<RispType>)
    ensures
        values_view(r@) == concat_spec(input@),
{
    let mut out: Vec<RispType> = Vec::new();
    let mut k: usize = 0;
    proof {
        lemma_values_view(out@);
        assert(input@.take(0) =~= Seq::<Vec<RispType>>::empty());
        assert(values_view(out@) =~= concat_spec(input@.take(0)));
    }
    while k < input.len()
        invariant
            k <= input.len(),
            values_view(out@) == concat_spec(input@.take(k as int)),
        decreases input.len() - k,
    {
        let ghost before = values_view(out@);
        let run = &input[k];
        proof {
            lemma_values_view(run@);
        }
        let mut j: usize = 0;
        while j < run.len()
            invariant
                j <= run.len(),
                values_view(run@).len() == run.len(),
                forall|j: int| 0 <= j < run.len() ==> #[trigger] values_view(run@)[j] == run[j]@,
                values_view(out@) == before + values_view(run@).take(j as int),
            decreases run.len() - j,
        {
            let ghost prior = out@;
            out.push(copy_value(&run[j]));
            proof {
                lemma_values_view_push(prior, out@[prior.len() as int]);
                assert(out@ =~= prior.push(out@[prior.len() as int]));
                assert(values_view(out@) =~= before + values_view(run@).take(j + 1));
            }
            j += 1;
        }
        proof {
            assert(values_view(run@).take(run.len() as int) =~= values_view(run@));
            assert(input@.take(k + 1).drop_last() =~= input@.take(k as int));
            assert(input@.take(k + 1).last() == input@[k as int]);
        }
        k += 1;
    }
    proof {
        assert(input@.take(input.len() as int) =~= input@);
    }
    out
}

/// The arguments after the count, repeated count times, in one vector.
pub fn rep(args: Vec<RispType>) -> (r: RispResult)
    ensures
        result_view(r) == rep_spec(values_view(args@)),
{
    proof {
        lemma_values_view(args@);
    }
    if args.len() == 0 {
        return Err(error("rep needs 2 arguments but got 0"));
    }
    match &args[0] {
        RispType::Int(n) => {
            if *n < 0 {
                return Err(error("rep needs a count that is not negative"));
            }
            let mut elements: Vec<RispType> = Vec::new();
            let mut i: usize = 1;
            while i < args.len()
                invariant
                    1 <= i <= args.len(),
                    elements.len() == i - 1,
                    forall|j: int| 0 <= j < i - 1 ==> elements[j]@ == args[j + 1]@,
                decreases args.len() - i,
            {
                elements.push(copy_value(&args[i]));
                i += 1;
            }
            proof {
                lemma_values_view(elements@);
                assert(values_view(elements@) =~= values_view(args@).skip(1));
            }
            Ok(RispType::Vector(repeated(&elements, *n as u64)))
        },
        _ => Err(error("rep needs an int as first argument")),
    }
}

/// What a native procedure returns on the given arguments.
pub open spec fn builtin_spec(f: Builtin, args: Seq<Value>) -> Result<Value, Seq<char>> {
    match f {
        Builtin::Sum => reduce(IntOperation::Add, args),
        Builtin::Sub => reduce(IntOperation::Sub, args),
        Builtin::Mul => reduce(IntOperation::Mul, args),
        Builtin::Div => reduce(IntOperation::Div, args),
        Builtin::Rep => rep_spec(args),
    }
}

/// Calls a native procedure.
pub fn call_builtin(f: Builtin, args: Vec<RispType>) -> (r: RispResult)
    ensures
        result_view(r) == builtin_spec(f, values_view(args@)),
{
    match f {
        Builtin::Sum => sum(args),
        Builtin::Sub => self::sub(args),
        Builtin::Mul => self::mul(args),
        Builtin::Div => div(args),
        Builtin::Rep => rep(args),
    }
}

/// The bindings of the starter environment.
pub open spec fn core_bindings() -> Seq<(Seq<char>, Value)> {
    store(
        store(
            store(
                store(
                    store(Seq::empty(), "+"@, Value::Function(Builtin::Sum)),
                    "*"@,
                    Value::Function(Builtin::Mul),
                ),
                "/"@,
                Value::Function(Builtin::Div),
            ),
            "-"@,
            Value::Function(Builtin::Sub),
        ),
        "rep"@,
        Value::Function(Builtin::Rep),
    )
}

/// The environment that a session starts from: the five native procedures
/// under their names.
pub fn create_core_environment() -> (r: Environment)
    ensures
        r@ == core_bindings(),
{
    let mut env = Environment::new();
    env.set("+", RispType::Function(Builtin::Sum));
    env.set("*", RispType::Function(Builtin::Mul));
    env.set("/", RispType::Function(Builtin::Div));
    env.set("-", RispType::Function(Builtin::Sub));
    env.set("rep", RispType::Function(Builtin::Rep));
    env
}

/// A number and a vector combine, where they do, to a vector as long as the
/// given one.
pub proof fn lemma_broadcast_number_length(op: IntOperation, k: i64, xs: Seq<Value>)
    ensures
        match combine(op, Value::Int(k), Value::Vector(xs)) {
            Ok(v) => v is Vector && v->Vector_0.len() == xs.len(),
            Err(_) => true,
        },
        match combine(op, Value::Vector(xs), Value::Int(k)) {
            Ok(v) => v is Vector && v->Vector_0.len() == xs.len(),
            Err(_) => true,
        },
{
}

/// Two vectors combine, where they do, to a vector as long as the longer
/// of the two.
pub proof fn lemma_broadcast_vector_length(op: IntOperation, xs: Seq<Value>, ys: Seq<Value>)
    ensures
        match combine(op, Value::Vector(xs), Value::Vector(ys)) {
            Ok(v) => v is Vector && v->Vector_0.len() == longer(xs.len(), ys.len()),
            Err(_) => true,
        },
{
}

/// Repeating a pattern no times gives the empty run, whatever the pattern.
pub proof fn lemma_rep_zero(pattern: Seq<Value>)
    ensures
        rep_spec(seq![Value::Int(0)] + pattern) == Ok::<Value, Seq<char>>(
            Value::Vector(Seq::empty()),
        ),
{
    let args = seq![Value::Int(0)] + pattern;
    assert(args[0] == Value::Int(0));
    assert(repeat_seq(args.skip(1), 0) =~= Seq::<Value>::empty());
}

/// A pattern repeated `times` times is `times` times as long.
pub proof fn lemma_repeat_length(pattern: Seq<Value>, times: nat)
    ensures
        repeat_seq(pattern, times).len() == times * pattern.len(),
    decreases times,
{
    let n: int = times as int;
    let m: int = pattern.len() as int;
    if times > 0 {
        lemma_repeat_length(pattern, (times - 1) as nat);
        assert((n - 1) * m + m == n * m) by (nonlinear_arith);
    } else {
        assert(n * m == 0) by (nonlinear_arith)
            requires
                n == 0,
        ;
    }
}

/// The starter environment binds each of the five names to its native
/// procedure, and no name twice.
pub proof fn lemma_core_bindings()
    ensures
        lookup(core_bindings(), "+"@) == Some(Value::Function(Builtin::Sum)),
        lookup(core_bindings(), "*"@) == Some(Value::Function(Builtin::Mul)),
        lookup(core_bindings(), "/"@) == Some(Value::Function(Builtin::Div)),
        lookup(core_bindings(), "-"@) == Some(Value::Function(Builtin::Sub)),
        lookup(core_bindings(), "rep"@) == Some(Value::Function(Builtin::Rep)),
        distinct_keys(core_bindings()),
{
    reveal_strlit("+");
    reveal_strlit("*");
    reveal_strlit("/");
    reveal_strlit("-");
    reveal_strlit("rep");
    assert("+"@[0] == '+' && "*"@[0] == '*' && "/"@[0] == '/' && "-"@[0] == '-');
    assert("rep"@.len() == 3 && "+"@.len() == 1 && "*"@.len() == 1 && "/"@.len() == 1 && "-"@.len()
        == 1);
    let e0 = Seq::<(Seq<char>, Value)>::empty();
    let e1 = store(e0, "+"@, Value::Function(Builtin::Sum));
    let e2 = store(e1, "*"@, Value::Function(Builtin::Mul));
    let e3 = store(e2, "/"@, Value::Function(Builtin::Div));
    let e4 = store(e3, "-"@, Value::Function(Builtin::Sub));
    let e5 = store(e4, "rep"@, Value::Function(Builtin::Rep));
    lemma_store_then_lookup(e0, "+"@, Value::Function(Builtin::Sum));
    lemma_store_then_lookup(e1, "*"@, Value::Function(Builtin::Mul));
    lemma_store_then_lookup(e2, "/"@, Value::Function(Builtin::Div));
    lemma_store_then_lookup(e3, "-"@, Value::Function(Builtin::Sub));
    lemma_store_then_lookup(e4, "rep"@, Value::Function(Builtin::Rep));
    lemma_store_keeps_others(e1, "*"@, Value::Function(Builtin::Mul), "+"@);
    lemma_store_keeps_others(e2, "/"@, Value::Function(Builtin::Div), "+"@);
    lemma_store_keeps_others(e3, "-"@, Value::Function(Builtin::Sub), "+"@);
    lemma_store_keeps_others(e4, "rep"@, Value::Function(Builtin::Rep), "+"@);
    lemma_store_keeps_others(e2, "/"@, Value::Function(Builtin::Div), "*"@);
    lemma_store_keeps_others(e3, "-"@, Value::Function(Builtin::Sub), "*"@);
    lemma_store_keeps_others(e4, "rep"@, Value::Function(Builtin::Rep), "*"@);
    lemma_store_keeps_others(e3, "-"@, Value::Function(Builtin::Sub), "/"@);
    lemma_store_keeps_others(e4, "rep"@, Value::Function(Builtin::Rep), "/"@);
    lemma_store_keeps_others(e4, "rep"@, Value::Function(Builtin::Rep), "-"@);
    lemma_store_keeps_distinct(e0, "+"@, Value::Function(Builtin::Sum));
    lemma_store_keeps_distinct(e1, "*"@, Value::Function(Builtin::Mul));
    lemma_store_keeps_distinct(e2, "/"@, Value::Function(Builtin::Div));
    lemma_store_keeps_distinct(e3, "-"@, Value::Function(Builtin::Sub));
    lemma_store_keeps_distinct(e4, "rep"@, Value::Function(Builtin::Rep));
}

/// Where some result is an error, there is a first one.
pub proof fn lemma_first_error_exists(results: Seq<Result<Value, Seq<char>>>, i: int)
    requires
        0 <= i < results.len(),
        results[i] is Err,
    ensures
        exists|k: int| first_error_at(results, k),
    decreases i,
{
    if exists|k: int| 0 <= k < i && (#[trigger] results[k]) is Err {
        let k = choose|k: int| 0 <= k < i && (#[trigger] results[k]) is Err;
        lemma_first_error_exists(results, k);
    } else {
        assert(first_error_at(results, i));
    }
}

/// What is gathered without an error holds the value of every result, in
/// its place.
pub proof fn lemma_gathered_items(results: Seq<Result<Value, Seq<char>>>)
    requires
        gather(results) is Ok,
    ensures
        gather(results)->Ok_0.len() == results.len(),
        forall|i: int|
            0 <= i < results.len() ==> (#[trigger] results[i]) == Ok::<Value, Seq<char>>(
                gather(results)->Ok_0[i],
            ),
{
    assert forall|i: int| 0 <= i < results.len() implies (#[trigger] results[i]) == Ok::<
        Value,
        Seq<char>,
    >(gather(results)->Ok_0[i]) by {
        if results[i] is Err {
            lemma_first_error_exists(results, i);
        }
    }
}

/// Item `i` of what two vectors combine to is item `i mod len` of the one
/// combined with item `i mod len` of the other: the shorter vector is read
/// again from its start.
pub proof fn lemma_broadcast_vector_items(op: IntOperation, xs: Seq<Value>, ys: Seq<Value>, i: int)
    requires
        combine(op, Value::Vector(xs), Value::Vector(ys)) is Ok,
        0 <= i < longer(xs.len(), ys.len()),
    ensures
        xs.len() > 0,
        ys.len() > 0,
        combine(op, xs[i % (xs.len() as int)], ys[i % (ys.len() as int)]) == Ok::<Value, Seq<char>>(
            combine(op, Value::Vector(xs), Value::Vector(ys))->Ok_0->Vector_0[i],
        ),
{
    let results = each_with_each(op, xs, ys);
    lemma_gathered_items(results);
    assert(results[i] == combine(op, xs[i % (xs.len() as int)], ys[i % (ys.len() as int)]));
}

/// Item `i` of what a number and a vector combine to is the number combined
/// with item `i` of the vector, the operands in the order given.
pub proof fn lemma_broadcast_number_items(op: IntOperation, k: i64, xs: Seq<Value>, i: int)
    requires
        0 <= i < xs.len(),
    ensures
        combine(op, Value::Int(k), Value::Vector(xs)) is Ok ==> combine(
            op,
            Value::Int(k),
            xs[i],
        ) == Ok::<Value, Seq<char>>(
            combine(op, Value::Int(k), Value::Vector(xs))->Ok_0->Vector_0[i],
        ),
        combine(op, Value::Vector(xs), Value::Int(k)) is Ok ==> combine(
            op,
            xs[i],
            Value::Int(k),
        ) == Ok::<Value, Seq<char>>(
            combine(op, Value::Vector(xs), Value::Int(k))->Ok_0->Vector_0[i],
        ),
{
    if combine(op, Value::Int(k), Value::Vector(xs)) is Ok {
        let results = number_with_each(op, k, xs);
        lemma_gathered_items(results);
        assert(results[i] == combine(op, Value::Int(k), xs[i]));
    }
    if combine(op, Value::Vector(xs), Value::Int(k)) is Ok {
        let results = each_with_number(op, xs, k);
        lemma_gathered_items(results);
        assert(results[i] == combine(op, xs[i], Value::Int(k)));
    }
}

} // verus!
