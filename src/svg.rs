use vstd::prelude::*;
use crate::value::{DynamicValue, Val};
use crate::error::{FnError, gives};
use crate::text::{display, write_display};

verus! {

/// The position and size attributes of a rectangle, in pixels.
pub open spec fn rect_attrs(x: Val, y: Val, w: Val, h: Val) -> Seq<char> {
    "x=\""@ + display(x) + "px\" y=\""@ + display(y) + "px\" width=\""@ + display(w)
        + "px\" height=\""@ + display(h) + "px\" "@
}

/// Builds `x="{x}px" y="{y}px" width="{w}px" height="{h}px" ` from
/// `[x, y, w, h]`. With fewer arguments the error names the first one
/// missing.
pub fn rect_geometry(args: &[DynamicValue]) -> (r: Result<DynamicValue, FnError>)
    ensures
        args@.len() == 0 ==> r matches Err(FnError::XMissing),
        args@.len() == 1 ==> r matches Err(FnError::YMissing),
        args@.len() == 2 ==> r matches Err(FnError::WMissing),
        args@.len() == 3 ==> r matches Err(FnError::HMissing),
        args@.len() >= 4 ==> gives(r, Val::Text(rect_attrs(args@[0]@, args@[1]@, args@[2]@, args@[3]@))),
{
    if args.len() == 0 {
        return Err(FnError::XMissing);
    }
    if args.len() == 1 {
        return Err(FnError::YMissing);
    }
    if args.len() == 2 {
        return Err(FnError::WMissing);
    }
    if args.len() == 3 {
        return Err(FnError::HMissing);
    }
    proof {
        reveal_strlit("x=\"");
        reveal_strlit("px\" y=\"");
        reveal_strlit("px\" width=\"");
        reveal_strlit("px\" height=\"");
        reveal_strlit("px\" ");
    }
    let mut out = String::new();
    out.append("x=\"");
    write_display(&args[0], &mut out);
    out.append("px\" y=\"");
    write_display(&args[1], &mut out);
    out.append("px\" width=\"");
    write_display(&args[2], &mut out);
    out.append("px\" height=\"");
    write_display(&args[3], &mut out);
    out.append("px\" ");
    assert(out@ =~= rect_attrs(args@[0]@, args@[1]@, args@[2]@, args@[3]@));
    Ok(DynamicValue::Text(out))
}

/// The fill and stroke attributes, the stroke width in pixels.
pub open spec fn fill_stroke_attrs(fill: Val, stroke: Val, width: Val) -> Seq<char> {
    "fill=\""@ + display(fill) + "\" stroke=\""@ + display(stroke) + "\" stroke-width=\""@
        + display(width) + "px\" "@
}

/// Builds `fill="{fill}" stroke="{stroke}" stroke-width="{width}px" ` from
/// `[fill, stroke, width]`. With fewer arguments the error names the first
/// one missing.
pub fn fill_stroke(args: &[DynamicValue]) -> (r: Result<DynamicValue, FnError>)
    ensures
        args@.len() == 0 ==> r matches Err(FnError::FillMissing),
        args@.len() == 1 ==> r matches Err(FnError::StrokeMissing),
        args@.len() == 2 ==> r matches Err(FnError::StrokeWidthMissing),
        args@.len() >= 3 ==> gives(r, Val::Text(fill_stroke_attrs(args@[0]@, args@[1]@, args@[2]@))),
{
    if args.len() == 0 {
        return Err(FnError::FillMissing);
    }
    if args.len() == 1 {
        return Err(FnError::StrokeMissing);
    }
    if args.len() == 2 {
        return Err(FnError::StrokeWidthMissing);
    }
    proof {
        reveal_strlit("fill=\"");
        reveal_strlit("\" stroke=\"");
        reveal_strlit("\" stroke-width=\"");
        reveal_strlit("px\" ");
    }
    let mut out = String::new();
    out.append("fill=\"");
    write_display(&args[0], &mut out);
    out.append("\" stroke=\"");
    write_display(&args[1], &mut out);
    out.append("\" stroke-width=\"");
    write_display(&args[2], &mut out);
    out.append("px\" ");
    assert(out@ =~= fill_stroke_attrs(args@[0]@, args@[1]@, args@[2]@));
    Ok(DynamicValue::Text(out))
}

/// The font attributes: the size in pixels, then the family where one is
/// given.
pub open spec fn font_attrs(size: Val, family: Option<Val>) -> Seq<char> {
    "font-size=\""@ + display(size) + "px\" "@ + match family {
        Some(f) => "font-family=\""@ + display(f) + "\" "@,
        None => Seq::empty(),
    }
}

/// Builds `font-size="{size}px" ` from `[size]`, followed by
/// `font-family="{family}" ` from `[size, family]`.
pub fn font(args: &[DynamicValue]) -> (r: Result<DynamicValue, FnError>)
    ensures
        args@.len() == 0 ==> r matches Err(FnError::SizeMissing),
        args@.len() == 1 ==> gives(r, Val::Text(font_attrs(args@[0]@, None))),
        args@.len() >= 2 ==> gives(r, Val::Text(font_attrs(args@[0]@, Some(args@[1]@)))),
{
    if args.len() == 0 {
        return Err(FnError::SizeMissing);
    }
    proof {
        reveal_strlit("font-size=\"");
        reveal_strlit("px\" ");
        reveal_strlit("font-family=\"");
        reveal_strlit("\" ");
    }
    let mut out = String::new();
    out.append("font-size=\"");
    write_display(&args[0], &mut out);
    out.append("px\" ");
    if args.len() >= 2 {
        out.append("font-family=\"");
        write_display(&args[1], &mut out);
        out.append("\" ");
        assert(out@ =~= font_attrs(args@[0]@, Some(args@[1]@)));
    } else {
        assert(out@ =~= font_attrs(args@[0]@, None));
    }
    Ok(DynamicValue::Text(out))
}

} // verus!
