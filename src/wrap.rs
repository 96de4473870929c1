use vstd::prelude::*;
use vstd::utf8::is_ascii_chars;
use crate::value::{Number, DynamicValue, Val, vals_of, lemma_vals_of};
use crate::error::{FnError, gives};

verus! {

/// The lines that greedy word wrapping makes of a text at a maximum width.
pub uninterp spec fn wrapped_lines(s: Seq<char>, width: nat) -> Seq<Seq<char>>;

/// Relies on `mksvg::text::wrap`: it packs the words of an ASCII text into
/// lines of at most `width` characters (a word longer than that is cut with
/// a hyphen); the lines depend on the text and the width alone. It slices
/// the text by bytes, which are characters only in ASCII text.
#[verifier::external_body]
fn wrap_text(s: &str, width: usize) -> (r: Vec<String>)
    requires
        is_ascii_chars(s@),
    ensures
        r@.map_values(|l: String| l@) == wrapped_lines(s@, width as nat),
{
    mksvg::text::wrap(s, width)
}

/// The text and width that a call of `wrap` asks for: an ASCII text and a
/// non-negative number within `usize`.
pub open spec fn wrap_request(args: Seq<Val>) -> Option<(Seq<char>, nat)> {
    if args.len() >= 2 && args[0] is Text && args[1] is Number && is_ascii_chars(args[0]->Text_0)
        && 0 <= args[1]->Number_0.value() <= usize::MAX {
        Some((args[0]->Text_0, args[1]->Number_0.value() as nat))
    } else {
        None
    }
}

/// The model of a sequence of text lines.
pub open spec fn lines_val(lines: Seq<Seq<char>>) -> Val {
    Val::Sequence(lines.map_values(|l: Seq<char>| Val::Text(l)))
}

/// Turns lines of text into a sequence of text values, in order.
pub fn lines_to_value(lines: Vec<String>) -> (r: DynamicValue)
    ensures
        r@ == lines_val(lines@.map_values(|l: String| l@)),
{
    let mut out: Vec<DynamicValue> = Vec::new();
    let mut i: usize = 0;
    while i < lines.len()
        invariant
            i <= lines@.len(),
            out@.len() == i,
            forall|j: int| 0 <= j < i ==> (#[trigger] out@[j])@ == Val::Text(lines@[j]@),
        decreases lines@.len() - i,
    {
        out.push(DynamicValue::Text(lines[i].clone()));
        i += 1;
    }
    proof {
        lemma_vals_of(out@);
        assert(vals_of(out@) =~= lines@.map_values(|l: String| l@).map_values(
            |l: Seq<char>| Val::Text(l),
        ));
    }
    DynamicValue::Sequence(out)
}

/// Wraps a text into lines of at most a given width: `[text, width]`. The
/// text must be ASCII and the width a non-negative number that fits a
/// `usize`; otherwise the argument is invalid.
pub fn wrap(args: &[DynamicValue]) -> (r: Result<DynamicValue, FnError>)
    ensures
        match wrap_request(vals_of(args@)) {
            Some((s, w)) => gives(r, lines_val(wrapped_lines(s, w))),
            None => r matches Err(FnError::InvalidArgument),
        },
{
    proof {
        lemma_vals_of(args@);
    }
    if args.len() < 2 {
        return Err(FnError::InvalidArgument);
    }
    let s = match &args[0] {
        DynamicValue::Text(s) => s,
        _ => return Err(FnError::InvalidArgument),
    };
    let w: u64 = match &args[1] {
        DynamicValue::Number(Number::Unsigned(u)) => *u,
        DynamicValue::Number(Number::Signed(i)) => if *i >= 0 {
            *i as u64
        } else {
            return Err(FnError::InvalidArgument);
        },
        _ => return Err(FnError::InvalidArgument),
    };
    if w > usize::MAX as u64 || !s.as_str().is_ascii() {
        return Err(FnError::InvalidArgument);
    }
    let lines = wrap_text(s.as_str(), w as usize);
    Ok(lines_to_value(lines))
}

} // verus!
