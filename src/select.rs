use vstd::prelude::*;
use crate::value::{DynamicValue, Val};
use crate::error::{FnError, gives};

verus! {

/// Whether a value counts as true in a condition: a true boolean, a
/// non-negative number, a non-empty text, sequence or mapping.
pub open spec fn truthy(v: Val) -> bool {
    match v {
        Val::Boolean(b) => b,
        Val::Number(n) => n.value() >= 0,
        Val::Text(s) => s.len() > 0,
        Val::Sequence(items) => items.len() > 0,
        Val::Mapping(entries) => entries.len() > 0,
        Val::Null => false,
        Val::Missing => false,
    }
}

/// Decides whether a value counts as true in a condition.
pub fn is_truthy(v: &DynamicValue) -> (r: bool)
    ensures
        r == truthy(v@),
{
    proof {
        crate::value::lemma_vals_of_len(*v);
    }
    match v {
        DynamicValue::Boolean(b) => *b,
        DynamicValue::Number(n) => match n {
            crate::value::Number::Unsigned(_) => true,
            crate::value::Number::Signed(i) => *i >= 0,
        },
        DynamicValue::Text(s) => !s.as_str().is_empty(),
        DynamicValue::Sequence(items) => items.len() > 0,
        DynamicValue::Mapping(entries) => entries.len() > 0,
        DynamicValue::Null => false,
        DynamicValue::Missing => false,
    }
}

/// Selects between two values on a condition: `[condition, then, else]`.
/// The then-value is returned where the condition is truthy, and it must be
/// supplied there; the else-value is returned otherwise, an empty text where
/// it is not supplied.
pub fn select(args: &[DynamicValue]) -> (r: Result<DynamicValue, FnError>)
    ensures
        args@.len() == 0 ==> r matches Err(FnError::NotBooleanable),
        args@.len() > 0 && truthy(args@[0]@) && args@.len() < 2 ==> r matches Err(
            FnError::ThenMissing,
        ),
        args@.len() >= 2 && truthy(args@[0]@) ==> gives(r, args@[1]@),
        args@.len() > 0 && !truthy(args@[0]@) && args@.len() >= 3 ==> gives(r, args@[2]@),
        args@.len() > 0 && !truthy(args@[0]@) && args@.len() < 3 ==> gives(
            r,
            Val::Text(Seq::empty()),
        ),
{
    if args.len() == 0 {
        return Err(FnError::NotBooleanable);
    }
    if is_truthy(&args[0]) {
        if args.len() < 2 {
            Err(FnError::ThenMissing)
        } else {
            Ok(args[1].clone())
        }
    } else if args.len() < 3 {
        Ok(DynamicValue::Text(String::new()))
    } else {
        Ok(args[2].clone())
    }
}

} // verus!
