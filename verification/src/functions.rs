use vstd::prelude::*;

use crate::reader::read_str_spec;
use crate::types::{
    lemma_view_seq, kind_name, val_equiv, view_seq, view_val, EvalError, EvalResult,
    MalType, Val,
};

verus! {

/// The modulus of 64-bit wrapping arithmetic.
pub open spec fn two_to_64() -> int {
    0x1_0000_0000_0000_0000
}

/// 64-bit wrapping addition.
pub open spec fn wrap_add(x: int, y: int) -> int {
    if x + y > i64::MAX {
        x + y - two_to_64()
    } else if x + y < i64::MIN {
        x + y + two_to_64()
    } else {
        x + y
    }
}

/// 64-bit wrapping subtraction.
pub open spec fn wrap_sub(x: int, y: int) -> int {
    if x - y > i64::MAX {
        x - y - two_to_64()
    } else if x - y < i64::MIN {
        x - y + two_to_64()
    } else {
        x - y
    }
}

/// 64-bit wrapping multiplication.
pub open spec fn wrap_mul(x: int, y: int) -> int {
    let m = (x * y) % two_to_64();
    if m > i64::MAX {
        m - two_to_64()
    } else {
        m
    }
}

/// 64-bit division, truncating toward zero.
pub open spec fn trunc_div(x: int, d: int) -> int {
    if x == 0 {
        0
    } else if x > 0 && d > 0 {
        x / d
    } else if x < 0 && d < 0 {
        (x * -1) / (d * -1)
    } else if x < 0 {
        ((x * -1) / d) * -1
    } else {
        (x / (d * -1)) * -1
    }
}

/// 64-bit division, truncating toward zero, wrapping on the one
/// overflowing case.
pub open spec fn wrap_div(x: int, d: int) -> int {
    let o = trunc_div(x, d);
    if o < i64::MIN || o > i64::MAX {
        i64::MIN as int
    } else {
        o
    }
}

/// One arithmetic step on two integers.
pub open spec fn num_step(op: crate::types::Functions, a: int, b: int) -> Result<int, ErrVal> {
    match op {
        crate::types::Functions::Add => Ok(wrap_add(a, b)),
        crate::types::Functions::Subtract => Ok(wrap_sub(a, b)),
        crate::types::Functions::Times => Ok(wrap_mul(a, b)),
        crate::types::Functions::IntDivide => if b == 0 {
            Err(ErrVal::InvalidType("non-zero number"@, "int"@))
        } else {
            Ok(wrap_div(a, b))
        },
        _ => Err(ErrVal::WrongArgAmount),
    }
}

use crate::types::ErrVal;

/// Folds an arithmetic operation over the arguments.  A non-integer
/// operand fails with the numeric coercion's own message.
pub open spec fn spec_fold_num(op: crate::types::Functions, acc: Val, args: Seq<Val>) -> Result<
    Val,
    ErrVal,
>
    decreases args.len(),
{
    if args.len() == 0 {
        Ok(acc)
    } else if !(acc is Int) {
        Err(ErrVal::InvalidType("float"@, kind_name(acc)))
    } else if !(args[0] is Int) {
        Err(ErrVal::InvalidType("float"@, kind_name(args[0])))
    } else {
        match num_step(op, acc->Int_0, args[0]->Int_0) {
            Ok(v) => spec_fold_num(op, Val::Int(v), args.subrange(1, args.len() as int)),
            Err(e) => Err(e),
        }
    }
}

/// What `+` returns: the wrapping sum of the integer arguments, starting
/// from zero.
pub open spec fn spec_add(args: Seq<Val>) -> Result<Val, ErrVal> {
    spec_fold_num(crate::types::Functions::Add, Val::Int(0), args)
}

/// What `-` returns: the first argument, minus the remaining ones in turn.
pub open spec fn spec_subtract(args: Seq<Val>) -> Result<Val, ErrVal> {
    if args.len() == 0 {
        Err(ErrVal::WrongArgAmount)
    } else {
        spec_fold_num(
            crate::types::Functions::Subtract,
            args[0],
            args.subrange(1, args.len() as int),
        )
    }
}

/// What `*` returns.
pub open spec fn spec_times(args: Seq<Val>) -> Result<Val, ErrVal> {
    if args.len() == 0 {
        Err(ErrVal::WrongArgAmount)
    } else {
        spec_fold_num(crate::types::Functions::Times, args[0], args.subrange(1, args.len() as int))
    }
}

/// What `/` returns; dividing by zero is refused.
pub open spec fn spec_int_divide(args: Seq<Val>) -> Result<Val, ErrVal> {
    if args.len() == 0 {
        Err(ErrVal::WrongArgAmount)
    } else {
        spec_fold_num(
            crate::types::Functions::IntDivide,
            args[0],
            args.subrange(1, args.len() as int),
        )
    }
}

/// The two leading integers of an argument list, for a comparison.
pub open spec fn spec_two_ints(args: Seq<Val>) -> Result<(int, int), ErrVal> {
    if args.len() < 2 {
        Err(ErrVal::WrongArgAmount)
    } else if !(args[0] is Int) {
        Err(ErrVal::InvalidType("integer"@, kind_name(args[0])))
    } else if !(args[1] is Int) {
        Err(ErrVal::InvalidType("integer"@, kind_name(args[1])))
    } else {
        Ok((args[0]->Int_0, args[1]->Int_0))
    }
}

/// The result of one native comparison or pure list operation, given its
/// arguments.  This is the contract of every native that neither touches
/// the interpreter state nor calls back into evaluation.
pub open spec fn spec_equal(args: Seq<Val>) -> Result<Val, ErrVal> {
    if args.len() < 2 {
        Err(ErrVal::WrongArgAmount)
    } else {
        Ok(Val::Bool(val_equiv(args[0], args[1])))
    }
}

pub open spec fn spec_less_than(args: Seq<Val>) -> Result<Val, ErrVal> {
    match spec_two_ints(args) {
        Ok((a, b)) => Ok(Val::Bool(a < b)),
        Err(e) => Err(e),
    }
}

pub open spec fn spec_less_than_or_equal(args: Seq<Val>) -> Result<Val, ErrVal> {
    match spec_two_ints(args) {
        Ok((a, b)) => Ok(Val::Bool(a <= b)),
        Err(e) => Err(e),
    }
}

pub open spec fn spec_greater_than(args: Seq<Val>) -> Result<Val, ErrVal> {
    match spec_two_ints(args) {
        Ok((a, b)) => Ok(Val::Bool(a > b)),
        Err(e) => Err(e),
    }
}

pub open spec fn spec_greater_than_or_equal(args: Seq<Val>) -> Result<Val, ErrVal> {
    match spec_two_ints(args) {
        Ok((a, b)) => Ok(Val::Bool(a >= b)),
        Err(e) => Err(e),
    }
}

pub open spec fn spec_list(args: Seq<Val>) -> Result<Val, ErrVal> {
    Ok(Val::List(args))
}

pub open spec fn spec_is_list(args: Seq<Val>) -> Result<Val, ErrVal> {
    if args.len() < 1 {
        Err(ErrVal::WrongArgAmount)
    } else {
        Ok(Val::Bool(args[0] is List))
    }
}

pub open spec fn spec_is_empty(args: Seq<Val>) -> Result<Val, ErrVal> {
    if args.len() < 1 {
        Err(ErrVal::WrongArgAmount)
    } else {
        match MalType::seq_of(args[0]) {
            Some(es) => Ok(Val::Bool(es.len() == 0)),
            None => Err(ErrVal::InvalidType("list"@, kind_name(args[0]))),
        }
    }
}

pub open spec fn spec_count(args: Seq<Val>) -> Result<Val, ErrVal> {
    if args.len() < 1 {
        Err(ErrVal::WrongArgAmount)
    } else {
        match MalType::seq_of(args[0]) {
            Some(es) => Ok(
                Val::Int(
                    if es.len() > i64::MAX {
                        i64::MAX as int
                    } else {
                        es.len() as int
                    },
                ),
            ),
            None => Err(ErrVal::InvalidType("list"@, kind_name(args[0]))),
        }
    }
}

pub open spec fn spec_is_atom(args: Seq<Val>) -> Result<Val, ErrVal> {
    if args.len() < 1 {
        Err(ErrVal::WrongArgAmount)
    } else {
        Ok(Val::Bool(args[0] is Atom))
    }
}

pub open spec fn spec_is_symbol(args: Seq<Val>) -> Result<Val, ErrVal> {
    if args.len() < 1 {
        Err(ErrVal::WrongArgAmount)
    } else {
        Ok(Val::Bool(args[0] is Sym))
    }
}

pub open spec fn spec_cons(args: Seq<Val>) -> Result<Val, ErrVal> {
    if args.len() < 2 {
        Err(ErrVal::WrongArgAmount)
    } else {
        match MalType::seq_of(args[1]) {
            Some(es) => Ok(Val::List(seq![args[0]] + es)),
            None => Err(ErrVal::InvalidType("list"@, kind_name(args[1]))),
        }
    }
}

/// Concatenates list or vector arguments into one list.
pub open spec fn spec_concat_fold(acc: Seq<Val>, args: Seq<Val>) -> Result<Seq<Val>, ErrVal>
    decreases args.len(),
{
    if args.len() == 0 {
        Ok(acc)
    } else {
        match MalType::seq_of(args[0]) {
            Some(es) => spec_concat_fold(acc + es, args.subrange(1, args.len() as int)),
            None => Err(ErrVal::InvalidType("list"@, kind_name(args[0]))),
        }
    }
}

pub open spec fn spec_concat(args: Seq<Val>) -> Result<Val, ErrVal> {
    match spec_concat_fold(Seq::empty(), args) {
        Ok(es) => Ok(Val::List(es)),
        Err(e) => Err(e),
    }
}

pub open spec fn spec_first(args: Seq<Val>) -> Result<Val, ErrVal> {
    if args.len() < 1 {
        Err(ErrVal::WrongArgAmount)
    } else {
        match MalType::seq_of(args[0]) {
            Some(es) => Ok(
                if es.len() == 0 {
                    Val::Nil
                } else {
                    es[0]
                },
            ),
            None => Err(ErrVal::InvalidType("list"@, kind_name(args[0]))),
        }
    }
}

pub open spec fn spec_rest(args: Seq<Val>) -> Result<Val, ErrVal> {
    if args.len() < 1 {
        Err(ErrVal::WrongArgAmount)
    } else {
        match MalType::seq_of(args[0]) {
            Some(es) => Ok(
                Val::List(
                    if es.len() == 0 {
                        es
                    } else {
                        es.subrange(1, es.len() as int)
                    },
                ),
            ),
            None => Err(ErrVal::InvalidType("list"@, kind_name(args[0]))),
        }
    }
}

pub open spec fn spec_nth(args: Seq<Val>) -> Result<Val, ErrVal> {
    if args.len() < 2 {
        Err(ErrVal::WrongArgAmount)
    } else {
        match MalType::seq_of(args[0]) {
            Some(es) => if !(args[1] is Int) {
                Err(ErrVal::InvalidType("integer"@, kind_name(args[1])))
            } else {
                let i = args[1]->Int_0;
                if 0 <= i < es.len() {
                    Ok(es[i])
                } else {
                    Err(ErrVal::Thrown(Val::Str("nth: index out of range"@)))
                }
            },
            None => Err(ErrVal::InvalidType("list"@, kind_name(args[0]))),
        }
    }
}

pub open spec fn spec_throw(args: Seq<Val>) -> Result<Val, ErrVal> {
    if args.len() < 1 {
        Err(ErrVal::WrongArgAmount)
    } else {
        Err(ErrVal::Thrown(args[0]))
    }
}

pub open spec fn spec_read_string(args: Seq<Val>) -> Result<Val, ErrVal> {
    if args.len() < 1 {
        Err(ErrVal::WrongArgAmount)
    } else {
        match args[0] {
            Val::Str(s) => match read_str_spec(s) {
                Ok(v) => Ok(v),
                Err(p) => Err(ErrVal::ParseFailed(p)),
            },
            other => Err(ErrVal::InvalidType("string"@, kind_name(other))),
        }
    }
}

/// Relates an executable native result to its contract.
pub open spec fn native_matches(r: EvalResult, res: Result<Val, ErrVal>) -> bool {
    match (r, res) {
        (Ok(m), Ok(v)) => m@ == v,
        (Err(e), Err(ev)) => e@ == ev,
        _ => false,
    }
}

/// Folds one arithmetic operation over the arguments; see `spec_fold_num`.
fn fold_num(op: crate::types::Functions, init: MalType, args: &Vec<MalType>, from: usize) -> (r:
    EvalResult)
    requires
        from <= args@.len(),
        op is Add || op is Subtract || op is Times || op is IntDivide,
    ensures
        native_matches(r, spec_fold_num(op, init@, view_seq(args@).skip(from as int))),
{
    proof {
        lemma_view_seq(args@);
    }
    let ghost av = view_seq(args@);
    let mut acc = init;
    let mut i: usize = from;
    while i < args.len()
        invariant
            from <= i <= args@.len(),
            av == view_seq(args@),
            av.len() == args@.len(),
            forall|j: int| 0 <= j < args@.len() ==> av[j] == view_val(args@[j]),
            op is Add || op is Subtract || op is Times || op is IntDivide,
            spec_fold_num(op, init@, av.skip(from as int)) == spec_fold_num(
                op,
                acc@,
                av.skip(i as int),
            ),
        decreases args@.len() - i,
    {
        proof {
            assert(av.skip(i as int)[0] == av[i as int]);
            assert(av.skip(i as int).subrange(1, av.skip(i as int).len() as int) =~= av.skip(
                i as int + 1,
            ));
        }
        let a: i64 = match &acc {
            MalType::Integer(a) => *a,
            other => {
                return Err(other.type_error("float"));
            },
        };
        let b: i64 = match &args[i] {
            MalType::Integer(b) => *b,
            other => {
                return Err(other.type_error("float"));
            },
        };
        let stepped: i64 = match op {
            crate::types::Functions::Add => a.wrapping_add(b),
            crate::types::Functions::Subtract => a.wrapping_sub(b),
            crate::types::Functions::Times => a.wrapping_mul(b),
            _ => {
                // division
                if b == 0 {
                    return Err(EvalError::InvalidType(
                        crate::text::chars_of("non-zero number"),
                        crate::text::chars_of("int"),
                    ));
                }
                match a.checked_div(b) {
                    Some(q) => q,
                    None => i64::MIN,
                }
            },
        };
        proof {
            if op is Add {
                assert(stepped as int == wrap_add(a as int, b as int));
            } else if op is Subtract {
                assert(stepped as int == wrap_sub(a as int, b as int));
            } else if op is Times {
                assert(stepped as int == wrap_mul(a as int, b as int));
            } else {
                assert(stepped as int == wrap_div(a as int, b as int));
            }
            assert(num_step(op, a as int, b as int) == Ok::<int, ErrVal>(stepped as int));
        }
        acc = MalType::Integer(stepped);
        i = i + 1;
    }
    proof {
        assert(av.skip(i as int) =~= Seq::<Val>::empty());
    }
    Ok(acc)
}

/// The wrapping sum of the integer arguments, from zero.
pub fn add(args: Vec<MalType>) -> (r: EvalResult)
    ensures
        native_matches(r, spec_add(view_seq(args@))),
{
    proof {
        lemma_view_seq(args@);
        assert(view_seq(args@).skip(0) =~= view_seq(args@));
    }
    fold_num(crate::types::Functions::Add, MalType::Integer(0), &args, 0)
}

/// The first argument minus the remaining ones in turn.
pub fn subtract(args: Vec<MalType>) -> (r: EvalResult)
    ensures
        native_matches(r, spec_subtract(view_seq(args@))),
{
    proof {
        lemma_view_seq(args@);
        assert(view_seq(args@).skip(1) =~= view_seq(args@).subrange(
            1,
            view_seq(args@).len() as int,
        ));
    }
    if args.len() == 0 {
        return Err(EvalError::WrongArgAmount);
    }
    let first = args[0].duplicate();
    fold_num(crate::types::Functions::Subtract, first, &args, 1)
}

/// The product fold.
pub fn times(args: Vec<MalType>) -> (r: EvalResult)
    ensures
        native_matches(r, spec_times(view_seq(args@))),
{
    proof {
        lemma_view_seq(args@);
        assert(view_seq(args@).skip(1) =~= view_seq(args@).subrange(
            1,
            view_seq(args@).len() as int,
        ));
    }
    if args.len() == 0 {
        return Err(EvalError::WrongArgAmount);
    }
    let first = args[0].duplicate();
    fold_num(crate::types::Functions::Times, first, &args, 1)
}

/// The quotient fold, truncating toward zero.
pub fn int_divide(args: Vec<MalType>) -> (r: EvalResult)
    ensures
        native_matches(r, spec_int_divide(view_seq(args@))),
{
    proof {
        lemma_view_seq(args@);
        assert(view_seq(args@).skip(1) =~= view_seq(args@).subrange(
            1,
            view_seq(args@).len() as int,
        ));
    }
    if args.len() == 0 {
        return Err(EvalError::WrongArgAmount);
    }
    let first = args[0].duplicate();
    fold_num(crate::types::Functions::IntDivide, first, &args, 1)
}

/// The two leading integers, for a comparison.
fn two_ints(args: &Vec<MalType>) -> (r: Result<(i64, i64), EvalError>)
    ensures
        match spec_two_ints(view_seq(args@)) {
            Ok((a, b)) => r matches Ok(p) && p.0 as int == a && p.1 as int == b,
            Err(e) => r matches Err(er) && er@ == e,
        },
{
    proof {
        lemma_view_seq(args@);
    }
    if args.len() < 2 {
        return Err(EvalError::WrongArgAmount);
    }
    let a = match &args[0] {
        MalType::Integer(a) => *a,
        other => {
            return Err(other.type_error("integer"));
        },
    };
    let b = match &args[1] {
        MalType::Integer(b) => *b,
        other => {
            return Err(other.type_error("integer"));
        },
    };
    Ok((a, b))
}

/// Whether the two leading arguments are equal as the language sees it.
pub fn equal(args: Vec<MalType>) -> (r: EvalResult)
    ensures
        native_matches(r, spec_equal(view_seq(args@))),
{
    proof {
        lemma_view_seq(args@);
    }
    if args.len() < 2 {
        return Err(EvalError::WrongArgAmount);
    }
    Ok(MalType::Bool(args[0].mal_eq(&args[1])))
}

pub fn less_than(args: Vec<MalType>) -> (r: EvalResult)
    ensures
        native_matches(r, spec_less_than(view_seq(args@))),
{
    match two_ints(&args) {
        Ok((a, b)) => Ok(MalType::Bool(a < b)),
        Err(e) => Err(e),
    }
}

pub fn less_than_or_equal(args: Vec<MalType>) -> (r: EvalResult)
    ensures
        native_matches(r, spec_less_than_or_equal(view_seq(args@))),
{
    match two_ints(&args) {
        Ok((a, b)) => Ok(MalType::Bool(a <= b)),
        Err(e) => Err(e),
    }
}

pub fn greater_than(args: Vec<MalType>) -> (r: EvalResult)
    ensures
        native_matches(r, spec_greater_than(view_seq(args@))),
{
    match two_ints(&args) {
        Ok((a, b)) => Ok(MalType::Bool(a > b)),
        Err(e) => Err(e),
    }
}

pub fn greater_than_or_equal(args: Vec<MalType>) -> (r: EvalResult)
    ensures
        native_matches(r, spec_greater_than_or_equal(view_seq(args@))),
{
    match two_ints(&args) {
        Ok((a, b)) => Ok(MalType::Bool(a >= b)),
        Err(e) => Err(e),
    }
}

/// The arguments, as a list.
pub fn list(args: Vec<MalType>) -> (r: EvalResult)
    ensures
        native_matches(r, spec_list(view_seq(args@))),
{
    Ok(MalType::list_of(args))
}

pub fn is_list(args: Vec<MalType>) -> (r: EvalResult)
    ensures
        native_matches(r, spec_is_list(view_seq(args@))),
{
    proof {
        lemma_view_seq(args@);
    }
    if args.len() < 1 {
        return Err(EvalError::WrongArgAmount);
    }
    match &args[0] {
        MalType::List(_) => Ok(MalType::Bool(true)),
        _ => Ok(MalType::Bool(false)),
    }
}

pub fn is_empty(args: Vec<MalType>) -> (r: EvalResult)
    ensures
        native_matches(r, spec_is_empty(view_seq(args@))),
{
    proof {
        lemma_view_seq(args@);
    }
    if args.len() < 1 {
        return Err(EvalError::WrongArgAmount);
    }
    match &args[0] {
        MalType::List(es) => {
            proof {
                assert(args@[0] == MalType::List(*es));
                assert(view_seq(args@)[0] == Val::List(crate::types::view_vec(*es)));
                lemma_view_seq(es@);
            }
            Ok(MalType::Bool(es.len() == 0))
        },
        MalType::Vector(es) => {
            proof {
                assert(args@[0] == MalType::Vector(*es));
                assert(view_seq(args@)[0] == Val::Vector(crate::types::view_vec(*es)));
                lemma_view_seq(es@);
            }
            Ok(MalType::Bool(es.len() == 0))
        },
        other => Err(other.type_error("list")),
    }
}

pub fn count(args: Vec<MalType>) -> (r: EvalResult)
    ensures
        native_matches(r, spec_count(view_seq(args@))),
{
    proof {
        lemma_view_seq(args@);
    }
    if args.len() < 1 {
        return Err(EvalError::WrongArgAmount);
    }
    let n: usize = match &args[0] {
        MalType::List(es) => {
            proof {
                assert(args@[0] == MalType::List(*es));
                assert(view_seq(args@)[0] == Val::List(crate::types::view_vec(*es)));
                lemma_view_seq(es@);
            }
            es.len()
        },
        MalType::Vector(es) => {
            proof {
                assert(args@[0] == MalType::Vector(*es));
                assert(view_seq(args@)[0] == Val::Vector(crate::types::view_vec(*es)));
                lemma_view_seq(es@);
            }
            es.len()
        },
        other => {
            return Err(other.type_error("list"));
        },
    };
    if (n as u64) > 0x7fff_ffff_ffff_ffffu64 {
        Ok(MalType::Integer(i64::MAX))
    } else {
        Ok(MalType::Integer(n as i64))
    }
}

pub fn is_atom(args: Vec<MalType>) -> (r: EvalResult)
    ensures
        native_matches(r, spec_is_atom(view_seq(args@))),
{
    proof {
        lemma_view_seq(args@);
    }
    if args.len() < 1 {
        return Err(EvalError::WrongArgAmount);
    }
    match &args[0] {
        MalType::Atom(_) => Ok(MalType::Bool(true)),
        _ => Ok(MalType::Bool(false)),
    }
}

pub fn is_symbol(args: Vec<MalType>) -> (r: EvalResult)
    ensures
        native_matches(r, spec_is_symbol(view_seq(args@))),
{
    proof {
        lemma_view_seq(args@);
    }
    if args.len() < 1 {
        return Err(EvalError::WrongArgAmount);
    }
    match &args[0] {
        MalType::Symbol(_) => Ok(MalType::Bool(true)),
        _ => Ok(MalType::Bool(false)),
    }
}

pub fn cons(args: Vec<MalType>) -> (r: EvalResult)
    ensures
        native_matches(r, spec_cons(view_seq(args@))),
{
    proof {
        lemma_view_seq(args@);
    }
    if args.len() < 2 {
        return Err(EvalError::WrongArgAmount);
    }
    let head = args[0].duplicate();
    let tail = match &args[1] {
        MalType::List(es) => {
            proof {
                assert(args@[1] == MalType::List(*es));
                assert(view_seq(args@)[1] == Val::List(crate::types::view_vec(*es)));
            }
            MalType::dup_vec(es)
        },
        MalType::Vector(es) => {
            proof {
                assert(args@[1] == MalType::Vector(*es));
                assert(view_seq(args@)[1] == Val::Vector(crate::types::view_vec(*es)));
            }
            MalType::dup_vec(es)
        },
        other => {
            return Err(other.type_error("list"));
        },
    };
    let mut out = tail;
    let ghost old_out = out@;
    out.insert(0, head);
    proof {
        lemma_view_seq(old_out);
        lemma_view_seq(out@);
        assert forall|q: int| 0 <= q < out@.len() implies view_seq(out@)[q] == (seq![
            view_seq(args@)[0],
        ] + view_seq(old_out))[q] by {
            if q > 0 {
                assert(out@[q] == old_out[q - 1]);
            }
        }
        assert(view_seq(out@) =~= seq![view_seq(args@)[0]] + view_seq(old_out));
    }
    Ok(MalType::list_of(out))
}

pub fn concat(args: Vec<MalType>) -> (r: EvalResult)
    ensures
        native_matches(r, spec_concat(view_seq(args@))),
{
    proof {
        lemma_view_seq(args@);
        assert(view_seq(args@).skip(0) =~= view_seq(args@));
    }
    let ghost av = view_seq(args@);
    let mut out: Vec<MalType> = Vec::new();
    proof {
        assert(view_seq(out@) =~= Seq::<Val>::empty());
    }
    let mut i: usize = 0;
    while i < args.len()
        invariant
            i <= args@.len(),
            av == view_seq(args@),
            av.len() == args@.len(),
            forall|j: int| 0 <= j < args@.len() ==> av[j] == view_val(args@[j]),
            spec_concat_fold(Seq::empty(), av) == spec_concat_fold(
                view_seq(out@),
                av.skip(i as int),
            ),
        decreases args@.len() - i,
    {
        proof {
            assert(av.skip(i as int)[0] == av[i as int]);
            assert(av.skip(i as int).subrange(1, av.skip(i as int).len() as int) =~= av.skip(
                i as int + 1,
            ));
        }
        let piece = match &args[i] {
            MalType::List(es) => {
                proof {
                    assert(args@[i as int] == MalType::List(*es));
                    assert(view_seq(args@)[i as int] == Val::List(crate::types::view_vec(*es)));
                }
                MalType::dup_vec(es)
            },
            MalType::Vector(es) => {
                proof {
                    assert(args@[i as int] == MalType::Vector(*es));
                    assert(view_seq(args@)[i as int] == Val::Vector(crate::types::view_vec(*es)));
                }
                MalType::dup_vec(es)
            },
            other => {
                return Err(other.type_error("list"));
            },
        };
        let ghost out_before = out@;
        let piece = piece;
        let ghost pv2 = piece@;
        proof {
            lemma_view_seq(pv2);
        }
        // append the elements of `piece` to `out`
        let mut k: usize = 0;
        while k < piece.len()
            invariant
                k <= piece@.len(),
                piece@ == pv2,
                out@.len() == out_before.len() + k,
                out@.subrange(0, out_before.len() as int) == out_before,
                forall|j: int|
                    0 <= j < k ==> view_val(out@[out_before.len() + j]) == view_val(pv2[j]),
            decreases piece@.len() - k,
        {
            out.push(piece[k].duplicate());
            proof {
                assert(out@.subrange(0, out_before.len() as int) =~= out_before);
            }
            k = k + 1;
        }
        proof {
            lemma_view_seq(out@);
            lemma_view_seq(out_before);
            assert forall|j: int|
                0 <= j < out@.len() implies view_seq(out@)[j] == (view_seq(out_before) + view_seq(
                pv2,
            ))[j] by {
                if j < out_before.len() {
                    assert(out@[j] == out@.subrange(0, out_before.len() as int)[j]);
                    assert(out@[j] == out_before[j]);
                } else {
                    assert(view_val(out@[j]) == view_val(pv2[j - out_before.len()]));
                }
            }
            assert(view_seq(out@) =~= view_seq(out_before) + view_seq(pv2));
        }
        i = i + 1;
    }
    proof {
        assert(av.skip(i as int) =~= Seq::<Val>::empty());
    }
    Ok(MalType::list_of(out))
}

pub fn first(args: Vec<MalType>) -> (r: EvalResult)
    ensures
        native_matches(r, spec_first(view_seq(args@))),
{
    proof {
        lemma_view_seq(args@);
    }
    if args.len() < 1 {
        return Err(EvalError::WrongArgAmount);
    }
    match &args[0] {
        MalType::List(es) => {
            proof {
                assert(args@[0] == MalType::List(*es));
                assert(view_seq(args@)[0] == Val::List(crate::types::view_vec(*es)));
                lemma_view_seq(es@);
            }
            if es.len() == 0 {
                Ok(MalType::Nil)
            } else {
                Ok(es[0].duplicate())
            }
        },
        MalType::Vector(es) => {
            proof {
                assert(args@[0] == MalType::Vector(*es));
                assert(view_seq(args@)[0] == Val::Vector(crate::types::view_vec(*es)));
                lemma_view_seq(es@);
            }
            if es.len() == 0 {
                Ok(MalType::Nil)
            } else {
                Ok(es[0].duplicate())
            }
        },
        other => Err(other.type_error("list")),
    }
}

pub fn rest(args: Vec<MalType>) -> (r: EvalResult)
    ensures
        native_matches(r, spec_rest(view_seq(args@))),
{
    proof {
        lemma_view_seq(args@);
    }
    if args.len() < 1 {
        return Err(EvalError::WrongArgAmount);
    }
    let tail = match &args[0] {
        MalType::List(es) => {
            proof {
                assert(args@[0] == MalType::List(*es));
                assert(view_seq(args@)[0] == Val::List(crate::types::view_vec(*es)));
            }
            rest_of(es)
        },
        MalType::Vector(es) => {
            proof {
                assert(args@[0] == MalType::Vector(*es));
                assert(view_seq(args@)[0] == Val::Vector(crate::types::view_vec(*es)));
            }
            rest_of(es)
        },
        other => {
            return Err(other.type_error("list"));
        },
    };
    Ok(MalType::list_of(tail))
}

/// All but the first element, copied out.
fn rest_of(es: &Vec<MalType>) -> (r: Vec<MalType>)
    ensures
        view_seq(r@) == (if es@.len() == 0 {
            view_seq(es@)
        } else {
            view_seq(es@).subrange(1, view_seq(es@).len() as int)
        }),
{
    proof {
        lemma_view_seq(es@);
    }
    let mut out: Vec<MalType> = Vec::new();
    let mut k: usize = 1;
    if es.len() == 0 {
        proof {
            assert(view_seq(out@) =~= Seq::<Val>::empty());
            assert(view_seq(es@) =~= Seq::<Val>::empty());
        }
        return out;
    }
    while k < es.len()
        invariant
            1 <= k <= es@.len(),
            out@.len() == k - 1,
            forall|j: int| 0 <= j < k - 1 ==> view_val(out@[j]) == view_val(es@[j + 1]),
        decreases es@.len() - k,
    {
        out.push(es[k].duplicate());
        k = k + 1;
    }
    proof {
        lemma_view_seq(out@);
        lemma_view_seq(es@);
        assert(view_seq(out@) =~= view_seq(es@).subrange(1, view_seq(es@).len() as int));
    }
    out
}

pub fn nth(args: Vec<MalType>) -> (r: EvalResult)
    ensures
        native_matches(r, spec_nth(view_seq(args@))),
{
    proof {
        lemma_view_seq(args@);
    }
    if args.len() < 2 {
        return Err(EvalError::WrongArgAmount);
    }
    match &args[0] {
        MalType::List(es) => {
            proof {
                assert(args@[0] == MalType::List(*es));
                assert(view_seq(args@)[0] == Val::List(crate::types::view_vec(*es)));
                assert(crate::types::view_vec(*es) == view_seq(es@));
            }
            let r = nth_of(es, &args, 1);
            proof {
                lemma_view_seq(es@);
            }
            r
        },
        MalType::Vector(es) => {
            proof {
                assert(args@[0] == MalType::Vector(*es));
                assert(view_seq(args@)[0] == Val::Vector(crate::types::view_vec(*es)));
                assert(crate::types::view_vec(*es) == view_seq(es@));
            }
            let r = nth_of(es, &args, 1);
            proof {
                lemma_view_seq(es@);
            }
            r
        },
        other => Err(other.type_error("list")),
    }
}

/// The element at the index given by `args[at]`.
fn nth_of(es: &Vec<MalType>, args: &Vec<MalType>, at: usize) -> (r: EvalResult)
    requires
        at < args@.len(),
    ensures
        ({
            let idx = view_seq(args@)[at as int];
            match r {
                Ok(m) => idx matches Val::Int(i) && 0 <= i < es@.len() && m@ == view_seq(es@)[i],
                Err(e) => (match idx {
                    Val::Int(i) => !(0 <= i < es@.len()) && e@ == ErrVal::Thrown(
                        Val::Str("nth: index out of range"@),
                    ),
                    other => e@ == ErrVal::InvalidType("integer"@, kind_name(other)),
                }),
            }
        }),
{
    proof {
        lemma_view_seq(es@);
        lemma_view_seq(args@);
    }
    let i: i64 = match &args[at] {
        MalType::Integer(i) => {
            proof {
                assert(args@[at as int] == MalType::Integer(*i));
                assert(view_seq(args@)[at as int] == Val::Int(*i as int));
            }
            *i
        },
        other => {
            proof {
                assert(args@[at as int] == *other);
            }
            return Err(other.type_error("integer"));
        },
    };
    if 0 <= i && (i as u64) < (es.len() as u64) {
        Ok(es[i as usize].duplicate())
    } else {
        Err(EvalError::Thrown(MalType::str_of(crate::text::chars_of("nth: index out of range"))))
    }
}

pub fn throw(args: Vec<MalType>) -> (r: EvalResult)
    ensures
        native_matches(r, spec_throw(view_seq(args@))),
{
    proof {
        lemma_view_seq(args@);
    }
    if args.len() < 1 {
        return Err(EvalError::WrongArgAmount);
    }
    Err(EvalError::Thrown(args[0].duplicate()))
}

pub fn read_string(args: Vec<MalType>) -> (r: EvalResult)
    ensures
        native_matches(r, spec_read_string(view_seq(args@))),
{
    proof {
        lemma_view_seq(args@);
    }
    if args.len() < 1 {
        return Err(EvalError::WrongArgAmount);
    }
    match &args[0] {
        MalType::Str(s) => {
            let text = crate::text::chars_to_string(&crate::text::dup_chars(s));
            match crate::reader::read_str(text) {
                Ok(m) => Ok(m),
                Err(p) => Err(EvalError::ParseFailed(p)),
            }
        },
        other => Err(other.type_error("string")),
    }
}

/// The root environment: a fresh frame with every native operation bound
/// under its surface name.
pub open spec fn default_env_spec(st: crate::env::StateV) -> crate::env::StateV {
    let e = st.frames.len() as int;
    let s0 = crate::env::push_frame(st, None);
    let s1 = crate::env::env_set(s0, e, "+"@, Val::Native(crate::types::Functions::Add));
    let s2 = crate::env::env_set(s1, e, "-"@, Val::Native(crate::types::Functions::Subtract));
    let s3 = crate::env::env_set(s2, e, "*"@, Val::Native(crate::types::Functions::Times));
    let s4 = crate::env::env_set(s3, e, "/"@, Val::Native(crate::types::Functions::IntDivide));
    let s5 = crate::env::env_set(s4, e, "="@, Val::Native(crate::types::Functions::Equal));
    let s6 = crate::env::env_set(s5, e, "<"@, Val::Native(crate::types::Functions::LessThan));
    let s7 = crate::env::env_set(
        s6,
        e,
        "<="@,
        Val::Native(crate::types::Functions::LessThanOrEqual),
    );
    let s8 = crate::env::env_set(s7, e, ">"@, Val::Native(crate::types::Functions::GreaterThan));
    let s9 = crate::env::env_set(
        s8,
        e,
        ">="@,
        Val::Native(crate::types::Functions::GreaterThanOrEqual),
    );
    let s10 = crate::env::env_set(s9, e, "prn"@, Val::Native(crate::types::Functions::Prn));
    let s11 = crate::env::env_set(s10, e, "println"@, Val::Native(crate::types::Functions::Println));
    let s12 = crate::env::env_set(s11, e, "pr-str"@, Val::Native(crate::types::Functions::PrStr));
    let s13 = crate::env::env_set(s12, e, "str"@, Val::Native(crate::types::Functions::Str));
    let s14 = crate::env::env_set(s13, e, "list"@, Val::Native(crate::types::Functions::List));
    let s15 = crate::env::env_set(s14, e, "list?"@, Val::Native(crate::types::Functions::IsList));
    let s16 = crate::env::env_set(s15, e, "empty?"@, Val::Native(crate::types::Functions::IsEmpty));
    let s17 = crate::env::env_set(s16, e, "count"@, Val::Native(crate::types::Functions::Count));
    let s18 = crate::env::env_set(
        s17,
        e,
        "read-string"@,
        Val::Native(crate::types::Functions::ReadString),
    );
    let s19 = crate::env::env_set(s18, e, "atom"@, Val::Native(crate::types::Functions::AtomNew));
    let s20 = crate::env::env_set(s19, e, "atom?"@, Val::Native(crate::types::Functions::IsAtom));
    let s21 = crate::env::env_set(s20, e, "deref"@, Val::Native(crate::types::Functions::Deref));
    let s22 = crate::env::env_set(s21, e, "reset!"@, Val::Native(crate::types::Functions::Reset));
    let s23 = crate::env::env_set(s22, e, "swap!"@, Val::Native(crate::types::Functions::Swap));
    let s24 = crate::env::env_set(s23, e, "throw"@, Val::Native(crate::types::Functions::Throw));
    let s25 = crate::env::env_set(s24, e, "apply"@, Val::Native(crate::types::Functions::Apply));
    let s26 = crate::env::env_set(
        s25,
        e,
        "symbol?"@,
        Val::Native(crate::types::Functions::IsSymbol),
    );
    let s27 = crate::env::env_set(s26, e, "cons"@, Val::Native(crate::types::Functions::Cons));
    let s28 = crate::env::env_set(s27, e, "concat"@, Val::Native(crate::types::Functions::Concat));
    let s29 = crate::env::env_set(s28, e, "first"@, Val::Native(crate::types::Functions::First));
    let s30 = crate::env::env_set(s29, e, "rest"@, Val::Native(crate::types::Functions::Rest));
    let s31 = crate::env::env_set(s30, e, "nth"@, Val::Native(crate::types::Functions::Nth));
    crate::env::env_set(s31, e, "eval"@, Val::Native(crate::types::Functions::Eval))
}

/// Builds the root environment, binding every native operation.
#[verifier::rlimit(50)]
pub fn default_env(interp: &mut crate::env::Interp) -> (e: crate::env::Env)
    ensures
        final(interp)@ == default_env_spec(old(interp)@),
        e.0 == old(interp)@.frames.len(),
{
    let env = crate::env::Env::new(interp);
    env.set(interp, crate::text::chars_of("+"), MalType::Function(crate::types::Functions::Add));
    env.set(
        interp,
        crate::text::chars_of("-"),
        MalType::Function(crate::types::Functions::Subtract),
    );
    env.set(interp, crate::text::chars_of("*"), MalType::Function(crate::types::Functions::Times));
    env.set(
        interp,
        crate::text::chars_of("/"),
        MalType::Function(crate::types::Functions::IntDivide),
    );
    env.set(interp, crate::text::chars_of("="), MalType::Function(crate::types::Functions::Equal));
    env.set(
        interp,
        crate::text::chars_of("<"),
        MalType::Function(crate::types::Functions::LessThan),
    );
    env.set(
        interp,
        crate::text::chars_of("<="),
        MalType::Function(crate::types::Functions::LessThanOrEqual),
    );
    env.set(
        interp,
        crate::text::chars_of(">"),
        MalType::Function(crate::types::Functions::GreaterThan),
    );
    env.set(
        interp,
        crate::text::chars_of(">="),
        MalType::Function(crate::types::Functions::GreaterThanOrEqual),
    );
    env.set(interp, crate::text::chars_of("prn"), MalType::Function(crate::types::Functions::Prn));
    env.set(
        interp,
        crate::text::chars_of("println"),
        MalType::Function(crate::types::Functions::Println),
    );
    env.set(
        interp,
        crate::text::chars_of("pr-str"),
        MalType::Function(crate::types::Functions::PrStr),
    );
    env.set(interp, crate::text::chars_of("str"), MalType::Function(crate::types::Functions::Str));
    env.set(
        interp,
        crate::text::chars_of("list"),
        MalType::Function(crate::types::Functions::List),
    );
    env.set(
        interp,
        crate::text::chars_of("list?"),
        MalType::Function(crate::types::Functions::IsList),
    );
    env.set(
        interp,
        crate::text::chars_of("empty?"),
        MalType::Function(crate::types::Functions::IsEmpty),
    );
    env.set(
        interp,
        crate::text::chars_of("count"),
        MalType::Function(crate::types::Functions::Count),
    );
    env.set(
        interp,
        crate::text::chars_of("read-string"),
        MalType::Function(crate::types::Functions::ReadString),
    );
    env.set(
        interp,
        crate::text::chars_of("atom"),
        MalType::Function(crate::types::Functions::AtomNew),
    );
    env.set(
        interp,
        crate::text::chars_of("atom?"),
        MalType::Function(crate::types::Functions::IsAtom),
    );
    env.set(
        interp,
        crate::text::chars_of("deref"),
        MalType::Function(crate::types::Functions::Deref),
    );
    env.set(
        interp,
        crate::text::chars_of("reset!"),
        MalType::Function(crate::types::Functions::Reset),
    );
    env.set(
        interp,
        crate::text::chars_of("swap!"),
        MalType::Function(crate::types::Functions::Swap),
    );
    env.set(
        interp,
        crate::text::chars_of("throw"),
        MalType::Function(crate::types::Functions::Throw),
    );
    env.set(
        interp,
        crate::text::chars_of("apply"),
        MalType::Function(crate::types::Functions::Apply),
    );
    env.set(
        interp,
        crate::text::chars_of("symbol?"),
        MalType::Function(crate::types::Functions::IsSymbol),
    );
    env.set(
        interp,
        crate::text::chars_of("cons"),
        MalType::Function(crate::types::Functions::Cons),
    );
    env.set(
        interp,
        crate::text::chars_of("concat"),
        MalType::Function(crate::types::Functions::Concat),
    );
    env.set(
        interp,
        crate::text::chars_of("first"),
        MalType::Function(crate::types::Functions::First),
    );
    env.set(
        interp,
        crate::text::chars_of("rest"),
        MalType::Function(crate::types::Functions::Rest),
    );
    env.set(interp, crate::text::chars_of("nth"), MalType::Function(crate::types::Functions::Nth));
    env.set(
        interp,
        crate::text::chars_of("eval"),
        MalType::Function(crate::types::Functions::Eval),
    );
    env
}

/// The definitions that are written in the language itself and evaluated
/// before any user code.
pub fn default_env_non_native() -> (r: Vec<String>)
    ensures
        r@.len() == 2,
        r@[0]@ == "(def! not (fn* (a) (if a false true)))"@,
        r@[1]@
            == "(def! load-file (fn* (f) (eval (read-string (str \"(do \" (slurp f) \"\\nnil)\")))))"@,
{
    let mut v: Vec<String> = Vec::new();
    v.push(String::from_str("(def! not (fn* (a) (if a false true)))"));
    v.push(
        String::from_str(
            "(def! load-file (fn* (f) (eval (read-string (str \"(do \" (slurp f) \"\\nnil)\")))))",
        ),
    );
    v
}

} // verus!
