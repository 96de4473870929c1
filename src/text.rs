use vstd::prelude::*;
use crate::value::{Number, DynamicValue, Val, vals_of, lemma_vals_of, lemma_vals_of_len, entries_of, lemma_entries_of};
use crate::error::{FnError, gives};

verus! {

/// The character of a decimal digit.
pub open spec fn digit_char(d: int) -> char {
    if d == 0 { '0' }
    else if d == 1 { '1' }
    else if d == 2 { '2' }
    else if d == 3 { '3' }
    else if d == 4 { '4' }
    else if d == 5 { '5' }
    else if d == 6 { '6' }
    else if d == 7 { '7' }
    else if d == 8 { '8' }
    else { '9' }
}

/// The decimal digits of a natural number, most significant first.
pub open spec fn digits(n: nat) -> Seq<char>
    decreases n,
{
    if n < 10 {
        seq![digit_char(n as int)]
    } else {
        digits(n / 10) + seq![digit_char((n % 10) as int)]
    }
}

/// The decimal form of an integer, with a leading `-` when negative.
pub open spec fn decimal(v: int) -> Seq<char> {
    if v < 0 {
        seq!['-'] + digits((-v) as nat)
    } else {
        digits(v as nat)
    }
}

/// The display form of a value: `nil`, `<no value>`, `true` or `false`, a
/// number in decimal, a text as it is, a sequence as `[a, b]` and a mapping
/// as `{k: v, l: w}`.
pub open spec fn display(v: Val) -> Seq<char>
    decreases v,
{
    match v {
        Val::Null => "nil"@,
        Val::Missing => "<no value>"@,
        Val::Boolean(b) => if b { "true"@ } else { "false"@ },
        Val::Number(n) => decimal(n.value()),
        Val::Text(s) => s,
        Val::Sequence(items) => "["@ + display_items(items) + "]"@,
        Val::Mapping(entries) => "{"@ + display_entries(entries) + "}"@,
    }
}

/// The display forms of values, separated by `, `.
pub open spec fn display_items(s: Seq<Val>) -> Seq<char>
    decreases s,
{
    if s.len() == 0 {
        Seq::empty()
    } else if s.len() == 1 {
        display(s[0])
    } else {
        display_items(s.drop_last()) + ", "@ + display(s.last())
    }
}

/// The display forms of entries as `key: value`, separated by `, `.
pub open spec fn display_entries(s: Seq<(Seq<char>, Val)>) -> Seq<char>
    decreases s,
{
    if s.len() == 0 {
        Seq::empty()
    } else if s.len() == 1 {
        s[0].0 + ": "@ + display(s[0].1)
    } else {
        display_entries(s.drop_last()) + ", "@ + s.last().0 + ": "@ + display(s.last().1)
    }
}

/// The text of one decimal digit.
fn digit_str(d: u64) -> (r: &'static str)
    requires
        d < 10,
    ensures
        r@ == seq![digit_char(d as int)],
{
    proof {
        reveal_strlit("0");
        reveal_strlit("1");
        reveal_strlit("2");
        reveal_strlit("3");
        reveal_strlit("4");
        reveal_strlit("5");
        reveal_strlit("6");
        reveal_strlit("7");
        reveal_strlit("8");
        reveal_strlit("9");
    }
    if d == 0 { "0" }
    else if d == 1 { "1" }
    else if d == 2 { "2" }
    else if d == 3 { "3" }
    else if d == 4 { "4" }
    else if d == 5 { "5" }
    else if d == 6 { "6" }
    else if d == 7 { "7" }
    else if d == 8 { "8" }
    else { "9" }
}

/// Appends the decimal digits of `n`.
fn write_digits(n: u64, out: &mut String)
    ensures
        final(out)@ == old(out)@ + digits(n as nat),
    decreases n,
{
    if n < 10 {
        out.append(digit_str(n));
    } else {
        write_digits(n / 10, out);
        out.append(digit_str(n % 10));
        assert(final(out)@ =~= old(out)@ + digits(n as nat));
    }
}

/// Appends the decimal form of a number.
fn write_number(n: Number, out: &mut String)
    ensures
        final(out)@ == old(out)@ + decimal(n.value()),
{
    proof {
        reveal_strlit("-");
    }
    match n {
        Number::Unsigned(u) => write_digits(u, out),
        Number::Signed(i) => {
            if i < 0 {
                let m: u64 = ((-(i + 1)) as u64) + 1;
                out.append("-");
                write_digits(m, out);
                assert(final(out)@ =~= old(out)@ + decimal(n.value()));
            } else {
                write_digits(i as u64, out);
            }
        },
    }
}

/// Appends the display form of a value.
pub fn write_display(v: &DynamicValue, out: &mut String)
    ensures
        final(out)@ == old(out)@ + display(v@),
    decreases v,
{
    proof {
        lemma_vals_of_len(*v);
        reveal_strlit("nil");
        reveal_strlit("<no value>");
        reveal_strlit("true");
        reveal_strlit("false");
        reveal_strlit("[");
        reveal_strlit("]");
        reveal_strlit("{");
        reveal_strlit("}");
        reveal_strlit(", ");
        reveal_strlit(": ");
    }
    match v {
        DynamicValue::Null => out.append("nil"),
        DynamicValue::Missing => out.append("<no value>"),
        DynamicValue::Boolean(b) => if *b {
            out.append("true")
        } else {
            out.append("false")
        },
        DynamicValue::Number(n) => write_number(*n, out),
        DynamicValue::Text(s) => out.append(s.as_str()),
        DynamicValue::Sequence(items) => {
            let ghost start = out@;
            out.append("[");
            proof {
                lemma_vals_of(items@);
            }
            let mut i: usize = 0;
            while i < items.len()
                invariant
                    *v == DynamicValue::Sequence(*items),
                    i <= items@.len(),
                    vals_of(items@).len() == items@.len(),
                    forall|j: int| 0 <= j < items@.len() ==> #[trigger] vals_of(items@)[j] == items@[j]@,
                    out@ == start + "["@ + display_items(vals_of(items@).subrange(0, i as int)),
                decreases items@.len() - i,
            {
                let ghost prefix = vals_of(items@).subrange(0, i as int + 1);
                assert(prefix.drop_last() =~= vals_of(items@).subrange(0, i as int));
                if i > 0 {
                    out.append(", ");
                }
                proof {
                    let w = *items;
                    assert(decreases_to!(*v => (*v)->Sequence_0));
                    assert(decreases_to!(w => w@));
                    assert(decreases_to!(w@ => w@[i as int]));
                }
                write_display(&items[i], out);
                i += 1;
                assert(out@ =~= start + "["@ + display_items(vals_of(items@).subrange(0, i as int)));
            }
            out.append("]");
            proof {
                assert(vals_of(items@).subrange(0, i as int) =~= vals_of(items@));
                assert(out@ =~= start + display(v@));
            }
        },
        DynamicValue::Mapping(entries) => {
            let ghost start = out@;
            out.append("{");
            proof {
                lemma_entries_of(entries@);
            }
            let mut i: usize = 0;
            while i < entries.len()
                invariant
                    *v == DynamicValue::Mapping(*entries),
                    i <= entries@.len(),
                    entries_of(entries@).len() == entries@.len(),
                    forall|j: int|
                        0 <= j < entries@.len() ==> #[trigger] entries_of(entries@)[j] == (
                            entries@[j].0@,
                            entries@[j].1@,
                        ),
                    out@ == start + "{"@ + display_entries(
                        entries_of(entries@).subrange(0, i as int),
                    ),
                decreases entries@.len() - i,
            {
                let ghost prefix = entries_of(entries@).subrange(0, i as int + 1);
                assert(prefix.drop_last() =~= entries_of(entries@).subrange(0, i as int));
                if i > 0 {
                    out.append(", ");
                }
                out.append(entries[i].0.as_str());
                out.append(": ");
                proof {
                    let w = *entries;
                    let e = w@[i as int];
                    assert(decreases_to!(*v => (*v)->Mapping_0));
                    assert(decreases_to!(w => w@));
                    assert(decreases_to!(w@ => e));
                    assert(decreases_to!(e => e.1));
                }
                write_display(&entries[i].1, out);
                i += 1;
                assert(out@ =~= start + "{"@ + display_entries(
                    entries_of(entries@).subrange(0, i as int),
                ));
            }
            out.append("}");
            proof {
                assert(entries_of(entries@).subrange(0, i as int) =~= entries_of(entries@));
                assert(out@ =~= start + display(v@));
            }
        },
    }
}

/// The display form of a value, as a new string.
pub fn display_string(v: &DynamicValue) -> (r: String)
    ensures
        r@ == display(v@),
{
    let mut out = String::new();
    write_display(v, &mut out);
    out
}

/// The display forms of all values, one after the other.
pub open spec fn displays(args: Seq<Val>) -> Seq<char>
    decreases args.len(),
{
    if args.len() == 0 {
        Seq::empty()
    } else {
        displays(args.drop_last()) + display(args.last())
    }
}

/// Concatenates the display forms of all arguments, as they are.
pub fn concat(args: &[DynamicValue]) -> (r: Result<DynamicValue, FnError>)
    ensures
        gives(r, Val::Text(displays(vals_of(args@)))),
{
    let mut out = String::new();
    let mut i: usize = 0;
    proof {
        lemma_vals_of(args@);
    }
    while i < args.len()
        invariant
            i <= args@.len(),
            vals_of(args@).len() == args@.len(),
            forall|j: int| 0 <= j < args@.len() ==> #[trigger] vals_of(args@)[j] == args@[j]@,
            out@ == displays(vals_of(args@).subrange(0, i as int)),
        decreases args@.len() - i,
    {
        let ghost prefix = vals_of(args@).subrange(0, i as int + 1);
        assert(prefix.drop_last() =~= vals_of(args@).subrange(0, i as int));
        write_display(&args[i], &mut out);
        i += 1;
    }
    proof {
        assert(vals_of(args@).subrange(0, i as int) =~= vals_of(args@));
    }
    Ok(DynamicValue::Text(out))
}

/// The XML escape of one character.
pub open spec fn escape_char(c: char) -> Seq<char> {
    if c == '&' {
        "&amp;"@
    } else if c == '>' {
        "&gt;"@
    } else if c == '<' {
        "&lt;"@
    } else if c == '"' {
        "&quot;"@
    } else if c == '\'' {
        "&apos;"@
    } else {
        seq![c]
    }
}

/// The XML escape of a text, character by character.
pub open spec fn escaped(s: Seq<char>) -> Seq<char>
    decreases s.len(),
{
    if s.len() == 0 {
        Seq::empty()
    } else {
        escaped(s.drop_last()) + escape_char(s.last())
    }
}

/// Appends the XML escape of a text.
pub fn write_escaped(s: &str, out: &mut String)
    ensures
        final(out)@ == old(out)@ + escaped(s@),
{
    proof {
        reveal_strlit("&amp;");
        reveal_strlit("&gt;");
        reveal_strlit("&lt;");
        reveal_strlit("&quot;");
        reveal_strlit("&apos;");
    }
    let n = s.unicode_len();
    let mut i: usize = 0;
    while i < n
        invariant
            n == s@.len(),
            i <= n,
            out@ == old(out)@ + escaped(s@.subrange(0, i as int)),
        decreases n - i,
    {
        let ghost prefix = s@.subrange(0, i as int + 1);
        assert(prefix.drop_last() =~= s@.subrange(0, i as int));
        let c = s.get_char(i);
        if c == '&' {
            out.append("&amp;");
        } else if c == '>' {
            out.append("&gt;");
        } else if c == '<' {
            out.append("&lt;");
        } else if c == '"' {
            out.append("&quot;");
        } else if c == '\'' {
            out.append("&apos;");
        } else {
            out.append(s.substring_char(i, i + 1));
        }
        i += 1;
        assert(out@ =~= old(out)@ + escaped(s@.subrange(0, i as int)));
    }
    proof {
        assert(s@.subrange(0, i as int) =~= s@);
    }
}

/// The escaped display forms of all values, one after the other.
pub open spec fn escaped_displays(args: Seq<Val>) -> Seq<char>
    decreases args.len(),
{
    if args.len() == 0 {
        Seq::empty()
    } else {
        escaped_displays(args.drop_last()) + escaped(display(args.last()))
    }
}

/// Concatenates the display forms of all arguments, each XML-escaped.
pub fn escape(args: &[DynamicValue]) -> (r: Result<DynamicValue, FnError>)
    ensures
        gives(r, Val::Text(escaped_displays(vals_of(args@)))),
{
    let mut out = String::new();
    let mut i: usize = 0;
    proof {
        lemma_vals_of(args@);
    }
    while i < args.len()
        invariant
            i <= args@.len(),
            vals_of(args@).len() == args@.len(),
            forall|j: int| 0 <= j < args@.len() ==> #[trigger] vals_of(args@)[j] == args@[j]@,
            out@ == escaped_displays(vals_of(args@).subrange(0, i as int)),
        decreases args@.len() - i,
    {
        let ghost prefix = vals_of(args@).subrange(0, i as int + 1);
        assert(prefix.drop_last() =~= vals_of(args@).subrange(0, i as int));
        let d = display_string(&args[i]);
        write_escaped(d.as_str(), &mut out);
        i += 1;
    }
    proof {
        assert(vals_of(args@).subrange(0, i as int) =~= vals_of(args@));
    }
    Ok(DynamicValue::Text(out))
}

/// One joined part: a sequence has its items joined in turn, any other
/// value gives its display form.
pub open spec fn join_part(sep: Seq<char>, v: Val) -> Seq<char>
    decreases v,
{
    match v {
        Val::Sequence(items) => join_vals(sep, items),
        _ => display(v),
    }
}

/// The parts of all values, separated by `sep`.
pub open spec fn join_vals(sep: Seq<char>, s: Seq<Val>) -> Seq<char>
    decreases s,
{
    if s.len() == 0 {
        Seq::empty()
    } else if s.len() == 1 {
        join_part(sep, s[0])
    } else {
        join_vals(sep, s.drop_last()) + sep + join_part(sep, s.last())
    }
}

/// Appends the joined part of a value.
fn write_part(sep: &str, v: &DynamicValue, out: &mut String)
    ensures
        final(out)@ == old(out)@ + join_part(sep@, v@),
    decreases v,
{
    proof {
        lemma_vals_of_len(*v);
    }
    match v {
        DynamicValue::Sequence(items) => {
            let ghost start = out@;
            proof {
                lemma_vals_of(items@);
            }
            let mut i: usize = 0;
            while i < items.len()
                invariant
                    *v == DynamicValue::Sequence(*items),
                    i <= items@.len(),
                    vals_of(items@).len() == items@.len(),
                    forall|j: int| 0 <= j < items@.len() ==> #[trigger] vals_of(items@)[j] == items@[j]@,
                    out@ == start + join_vals(sep@, vals_of(items@).subrange(0, i as int)),
                decreases items@.len() - i,
            {
                let ghost prefix = vals_of(items@).subrange(0, i as int + 1);
                assert(prefix.drop_last() =~= vals_of(items@).subrange(0, i as int));
                if i > 0 {
                    out.append(sep);
                }
                proof {
                    let w = *items;
                    assert(decreases_to!(*v => (*v)->Sequence_0));
                    assert(decreases_to!(w => w@));
                    assert(decreases_to!(w@ => w@[i as int]));
                }
                write_part(sep, &items[i], out);
                i += 1;
                assert(out@ =~= start + join_vals(sep@, vals_of(items@).subrange(0, i as int)));
            }
            proof {
                assert(vals_of(items@).subrange(0, i as int) =~= vals_of(items@));
            }
        },
        _ => write_display(v, out),
    }
}

/// Joins values with a separator: `[separator, values...]`. Sequences among
/// the values are descended into, at any depth; mappings are not, and give
/// their display form. Needs a separator and at least one value.
pub fn join(args: &[DynamicValue]) -> (r: Result<DynamicValue, FnError>)
    ensures
        args@.len() < 2 ==> r matches Err(FnError::NothingToJoin),
        args@.len() >= 2 ==> gives(
            r,
            Val::Text(join_vals(display(args@[0]@), vals_of(args@.subrange(1, args@.len() as int)))),
        ),
{
    if args.len() < 2 {
        return Err(FnError::NothingToJoin);
    }
    let sep = display_string(&args[0]);
    let ghost rest = args@.subrange(1, args@.len() as int);
    let mut out = String::new();
    let mut i: usize = 1;
    proof {
        lemma_vals_of(rest);
    }
    while i < args.len()
        invariant
            1 <= i <= args@.len(),
            rest == args@.subrange(1, args@.len() as int),
            vals_of(rest).len() == rest.len(),
            forall|j: int| 0 <= j < rest.len() ==> #[trigger] vals_of(rest)[j] == rest[j]@,
            out@ == join_vals(sep@, vals_of(rest).subrange(0, i - 1)),
        decreases args@.len() - i,
    {
        let ghost prefix = vals_of(rest).subrange(0, i as int);
        assert(prefix.drop_last() =~= vals_of(rest).subrange(0, i - 1));
        if i > 1 {
            out.append(sep.as_str());
        }
        assert(rest[i - 1] == args@[i as int]);
        write_part(sep.as_str(), &args[i], &mut out);
        i += 1;
        assert(out@ =~= join_vals(sep@, vals_of(rest).subrange(0, i - 1)));
    }
    proof {
        assert(vals_of(rest).subrange(0, i - 1) =~= vals_of(rest));
    }
    Ok(DynamicValue::Text(out))
}

} // verus!
