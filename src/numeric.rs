use vstd::prelude::*;
use crate::value::{Number, DynamicValue, Val, vals_of, lemma_vals_of};
use crate::error::FnError;

verus! {

/// Whether an integer has a signed 64-bit representation.
pub open spec fn fits_signed(v: int) -> bool {
    i64::MIN <= v <= i64::MAX
}

/// Whether an integer has an unsigned 64-bit representation.
pub open spec fn fits_unsigned(v: int) -> bool {
    0 <= v <= u64::MAX
}

/// The exact result of an operation on `a` and `b`, where both and the
/// result `r` share the signed representation, or else the unsigned one.
pub open spec fn combined(a: int, b: int, r: int) -> Option<int> {
    if fits_signed(a) && fits_signed(b) && fits_signed(r) {
        Some(r)
    } else if fits_unsigned(a) && fits_unsigned(b) && fits_unsigned(r) {
        Some(r)
    } else {
        None
    }
}

/// Folds the arguments left to right from the identity (0 for a sum, 1 for a
/// product). The error is `Some(v)` for the first argument `v` that is not a
/// number, and `None` where two numbers cannot be combined.
pub open spec fn reduce(args: Seq<Val>, product: bool) -> Result<int, Option<Val>>
    decreases args.len(),
{
    if args.len() == 0 {
        Ok(if product { 1int } else { 0int })
    } else {
        match reduce(args.drop_last(), product) {
            Err(e) => Err(e),
            Ok(acc) => match args.last() {
                Val::Number(n) => {
                    let r = if product { acc * n.value() } else { acc + n.value() };
                    match combined(acc, n.value(), r) {
                        Some(x) => Ok(x),
                        None => Err(None),
                    }
                },
                v => Err(Some(v)),
            },
        }
    }
}

/// Whether a function's result matches the model of a reduction.
pub open spec fn reduces_to(r: Result<DynamicValue, FnError>, m: Result<int, Option<Val>>) -> bool {
    match (r, m) {
        (Ok(v), Ok(x)) => v@ == Val::Number(crate::value::number_of(x)),
        (Err(FnError::IncompatibleNumeric), Err(None)) => true,
        (Err(FnError::NotANumber(v)), Err(Some(x))) => v@ == x,
        _ => false,
    }
}

/// The signed representation of a number, if it has one.
fn as_signed(n: Number) -> (r: Option<i64>)
    ensures
        r is Some <==> fits_signed(n.value()),
        r matches Some(x) ==> x as int == n.value(),
{
    match n {
        Number::Signed(i) => Some(i),
        Number::Unsigned(u) => if u <= i64::MAX as u64 {
            Some(u as i64)
        } else {
            None
        },
    }
}

/// The unsigned representation of a number, if it has one.
fn as_unsigned(n: Number) -> (r: Option<u64>)
    ensures
        r is Some <==> fits_unsigned(n.value()),
        r matches Some(x) ==> x as int == n.value(),
{
    match n {
        Number::Unsigned(u) => Some(u),
        Number::Signed(i) => if i >= 0 {
            Some(i as u64)
        } else {
            None
        },
    }
}

/// Adds or multiplies two numbers, as a signed result where both operands
/// and the result fit one, else as an unsigned result likewise.
pub fn combine(a: Number, b: Number, product: bool) -> (r: Option<Number>)
    ensures
        ({
            let x = if product { a.value() * b.value() } else { a.value() + b.value() };
            match combined(a.value(), b.value(), x) {
                Some(v) => r == Some(crate::value::number_of(v)),
                None => r is None,
            }
        }),
{
    if let (Some(i), Some(j)) = (as_signed(a), as_signed(b)) {
        let s = if product { i.checked_mul(j) } else { i.checked_add(j) };
        if let Some(v) = s {
            return Some(Number::from_i64(v));
        }
    }
    if let (Some(i), Some(j)) = (as_unsigned(a), as_unsigned(b)) {
        let s = if product { i.checked_mul(j) } else { i.checked_add(j) };
        if let Some(v) = s {
            return Some(Number::Unsigned(v));
        }
    }
    None
}

fn reduce_args(args: &[DynamicValue], product: bool) -> (r: Result<DynamicValue, FnError>)
    ensures
        reduces_to(r, reduce(vals_of(args@), product)),
{
    let mut acc = if product { Number::Unsigned(1) } else { Number::Unsigned(0) };
    let mut i: usize = 0;
    proof {
        lemma_vals_of(args@);
    }
    while i < args.len()
        invariant
            i <= args@.len(),
            vals_of(args@).len() == args@.len(),
            forall|j: int| 0 <= j < args@.len() ==> #[trigger] vals_of(args@)[j] == args@[j]@,
            reduce(vals_of(args@).subrange(0, i as int), product) == Ok::<int, Option<Val>>(
                acc.value(),
            ),
            acc == crate::value::number_of(acc.value()),
        decreases args@.len() - i,
    {
        let ghost prefix = vals_of(args@).subrange(0, i as int + 1);
        assert(prefix.drop_last() =~= vals_of(args@).subrange(0, i as int));
        match &args[i] {
            DynamicValue::Number(n) => {
                match combine(acc, *n, product) {
                    Some(c) => {
                        acc = c;
                    },
                    None => {
                        proof {
                            lemma_reduce_stays_err(vals_of(args@), i as int + 1, product);
                        }
                        return Err(FnError::IncompatibleNumeric);
                    },
                }
            },
            other => {
                proof {
                    lemma_reduce_stays_err(vals_of(args@), i as int + 1, product);
                }
                return Err(FnError::NotANumber(other.clone()));
            },
        }
        i += 1;
    }
    proof {
        assert(vals_of(args@).subrange(0, i as int) =~= vals_of(args@));
    }
    Ok(DynamicValue::Number(acc))
}

/// Once a prefix of the arguments fails, the whole fold fails the same way.
proof fn lemma_reduce_stays_err(args: Seq<Val>, k: int, product: bool)
    requires
        0 <= k <= args.len(),
        reduce(args.subrange(0, k), product) is Err,
    ensures
        reduce(args, product) == reduce(args.subrange(0, k), product),
    decreases args.len() - k,
{
    if k < args.len() {
        let p = args.subrange(0, k + 1);
        assert(p.drop_last() =~= args.subrange(0, k));
        lemma_reduce_stays_err(args, k + 1, product);
    } else {
        assert(args.subrange(0, k) =~= args);
    }
}

/// The sum of all arguments, 0 for none.
pub fn add(args: &[DynamicValue]) -> (r: Result<DynamicValue, FnError>)
    ensures
        reduces_to(r, reduce(vals_of(args@), false)),
{
    reduce_args(args, false)
}

/// The product of all arguments, 1 for none.
pub fn multiply(args: &[DynamicValue]) -> (r: Result<DynamicValue, FnError>)
    ensures
        reduces_to(r, reduce(vals_of(args@), true)),
{
    reduce_args(args, true)
}

} // verus!
