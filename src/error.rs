use vstd::prelude::*;
use crate::value::{DynamicValue, Val};

verus! {

/// Why a template function refused its arguments.
#[derive(Debug, PartialEq)]
pub enum FnError {
    /// An arithmetic argument that is not a number.
    NotANumber(DynamicValue),
    /// Two numbers with no common integer representation for the result.
    IncompatibleNumeric,
    /// An argument of the wrong kind or out of range.
    InvalidArgument,
    XMissing,
    YMissing,
    WMissing,
    HMissing,
    FillMissing,
    StrokeMissing,
    StrokeWidthMissing,
    SizeMissing,
    /// The value to select when the condition holds was not supplied.
    ThenMissing,
    /// A fixed-arity function was given another number of arguments.
    ArityError,
    /// A variadic function was given no argument.
    EmptyInput,
    /// Join was given no separator or nothing to join.
    NothingToJoin,
    /// No condition was supplied to select on.
    NotBooleanable,
}

/// Whether a function's result is a value with the model `m`.
pub open spec fn gives(r: Result<DynamicValue, FnError>, m: Val) -> bool {
    r matches Ok(v) && v@ == m
}

/// A failure reported by the template engine, as its message.
pub struct StrErr(pub String);

impl StrErr {
    /// Wraps a message.
    pub fn from_message(s: String) -> (r: StrErr)
        ensures
            r.0 == s,
    {
        StrErr(s)
    }

    /// Extends the message with more text.
    pub fn ext(self, s: &str) -> (r: StrErr)
        ensures
            r.0@ == self.0@ + s@,
    {
        let mut m = self.0;
        m.append(s);
        StrErr(m)
    }

    /// The message as shown to the user: `Template Error: ` and the text.
    pub fn to_message(&self) -> (r: String)
        ensures
            r@ == "Template Error: "@ + self.0@,
    {
        proof {
            reveal_strlit("Template Error: ");
        }
        let mut m = String::from_str("Template Error: ");
        m.append(self.0.as_str());
        m
    }
}

} // verus!
