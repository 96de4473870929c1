use vstd::prelude::*;
use crate::value::{Number, DynamicValue, Val, vals_of, lemma_vals_of, lemma_vals_of_len, entries_of, lemma_entries_of};
use crate::error::{FnError, gives};

verus! {

/// Whether a value is a sequence or a mapping.
pub open spec fn container(v: Val) -> bool {
    v is Sequence || v is Mapping
}

/// Tells whether its one argument is a sequence or a mapping.
pub fn is_container(args: &[DynamicValue]) -> (r: Result<DynamicValue, FnError>)
    ensures
        args@.len() != 1 ==> r matches Err(FnError::ArityError),
        args@.len() == 1 ==> gives(r, Val::Boolean(container(args@[0]@))),
{
    if args.len() != 1 {
        return Err(FnError::ArityError);
    }
    let b = match &args[0] {
        DynamicValue::Sequence(_) => true,
        DynamicValue::Mapping(_) => true,
        _ => false,
    };
    Ok(DynamicValue::Boolean(b))
}

/// The number of items of a sequence or entries of a mapping; 0 for any
/// other value.
pub open spec fn size_of(v: Val) -> int {
    match v {
        Val::Sequence(items) => items.len() as int,
        Val::Mapping(entries) => entries.len() as int,
        _ => 0,
    }
}

/// The sum of the sizes of the values.
pub open spec fn total_size(args: Seq<Val>) -> int
    decreases args.len(),
{
    if args.len() == 0 {
        0
    } else {
        total_size(args.drop_last()) + size_of(args.last())
    }
}

/// The total number of items and entries of the sequences and mappings among
/// the arguments, other values counting 0; at most `u64::MAX`.
pub fn container_length(args: &[DynamicValue]) -> (r: DynamicValue)
    ensures
        r@ == Val::Number(
            Number::Unsigned(
                if total_size(vals_of(args@)) > u64::MAX {
                    u64::MAX
                } else {
                    total_size(vals_of(args@)) as u64
                },
            ),
        ),
{
    let mut acc: u64 = 0;
    let ghost mut total: int = 0;
    let mut i: usize = 0;
    proof {
        lemma_vals_of(args@);
    }
    while i < args.len()
        invariant
            i <= args@.len(),
            vals_of(args@).len() == args@.len(),
            forall|j: int| 0 <= j < args@.len() ==> #[trigger] vals_of(args@)[j] == args@[j]@,
            total == total_size(vals_of(args@).subrange(0, i as int)),
            total >= 0,
            acc == if total > u64::MAX { u64::MAX } else { total as u64 },
        decreases args@.len() - i,
    {
        let ghost prefix = vals_of(args@).subrange(0, i as int + 1);
        assert(prefix.drop_last() =~= vals_of(args@).subrange(0, i as int));
        proof {
            lemma_vals_of_len(args@[i as int]);
        }
        let n: usize = match &args[i] {
            DynamicValue::Sequence(items) => items.len(),
            DynamicValue::Mapping(entries) => entries.len(),
            _ => 0,
        };
        acc = acc.saturating_add(n as u64);
        proof {
            total = total + n;
        }
        i += 1;
    }
    proof {
        assert(vals_of(args@).subrange(0, i as int) =~= vals_of(args@));
    }
    DynamicValue::Number(Number::Unsigned(acc))
}

/// What one argument contributes to a flattening: the values of a mapping,
/// the items of a sequence, nothing for null or missing, else the value
/// itself.
pub open spec fn spread(v: Val) -> Seq<Val> {
    match v {
        Val::Mapping(entries) => entries.map_values(|e: (Seq<char>, Val)| e.1),
        Val::Sequence(items) => items,
        Val::Null => Seq::empty(),
        Val::Missing => Seq::empty(),
        _ => seq![v],
    }
}

/// The contributions of all arguments, in order.
pub open spec fn flat(args: Seq<Val>) -> Seq<Val>
    decreases args.len(),
{
    if args.len() == 0 {
        Seq::empty()
    } else {
        flat(args.drop_last()) + spread(args.last())
    }
}

/// Appends copies of the values that one argument contributes.
fn spread_into(v: &DynamicValue, out: &mut Vec<DynamicValue>)
    ensures
        vals_of(final(out)@) == vals_of(old(out)@) + spread(v@),
{
    proof {
        lemma_vals_of_len(*v);
        lemma_vals_of(old(out)@);
    }
    let ghost start = out@;
    match v {
        DynamicValue::Mapping(entries) => {
            proof {
                lemma_entries_of(entries@);
            }
            let mut i: usize = 0;
            while i < entries.len()
                invariant
                    i <= entries@.len(),
                    v@ == Val::Mapping(entries_of(entries@)),
                    entries_of(entries@).len() == entries@.len(),
                    forall|j: int|
                        0 <= j < entries@.len() ==> #[trigger] entries_of(entries@)[j] == (
                            entries@[j].0@,
                            entries@[j].1@,
                        ),
                    out@.len() == start.len() + i,
                    forall|j: int| 0 <= j < start.len() ==> #[trigger] out@[j] == start[j],
                    forall|j: int|
                        0 <= j < i ==> (#[trigger] out@[start.len() + j])@ == entries@[j].1@,
                decreases entries@.len() - i,
            {
                out.push(entries[i].1.clone());
                i += 1;
            }
            proof {
                lemma_vals_of(out@);
                lemma_vals_of(start);
                assert forall|k: int| start.len() <= k < out@.len() implies vals_of(out@)[k]
                    == spread(v@)[k - start.len()] by {
                    assert(out@[start.len() + (k - start.len())] == out@[k]);
                }
                assert(vals_of(out@) =~= vals_of(start) + spread(v@));
            }
        },
        DynamicValue::Sequence(items) => {
            proof {
                lemma_vals_of(items@);
            }
            let mut i: usize = 0;
            while i < items.len()
                invariant
                    i <= items@.len(),
                    v@ == Val::Sequence(vals_of(items@)),
                    vals_of(items@).len() == items@.len(),
                    forall|j: int| 0 <= j < items@.len() ==> #[trigger] vals_of(items@)[j] == items@[j]@,
                    out@.len() == start.len() + i,
                    forall|j: int| 0 <= j < start.len() ==> #[trigger] out@[j] == start[j],
                    forall|j: int| 0 <= j < i ==> (#[trigger] out@[start.len() + j])@ == items@[j]@,
                decreases items@.len() - i,
            {
                out.push(items[i].clone());
                i += 1;
            }
            proof {
                lemma_vals_of(out@);
                lemma_vals_of(start);
                assert forall|k: int| start.len() <= k < out@.len() implies vals_of(out@)[k]
                    == spread(v@)[k - start.len()] by {
                    assert(out@[start.len() + (k - start.len())] == out@[k]);
                }
                assert(vals_of(out@) =~= vals_of(start) + spread(v@));
            }
        },
        DynamicValue::Null => {
            assert(vals_of(out@) =~= vals_of(start) + spread(v@));
        },
        DynamicValue::Missing => {
            assert(vals_of(out@) =~= vals_of(start) + spread(v@));
        },
        _ => {
            out.push(v.clone());
            proof {
                lemma_vals_of(out@);
                assert(vals_of(out@) =~= vals_of(start) + spread(v@));
            }
        },
    }
}

/// Lays out the arguments as one sequence: mappings give their values,
/// sequences their items, null and missing nothing, other values themselves.
/// At least one argument is needed.
pub fn flatten(args: &[DynamicValue]) -> (r: Result<DynamicValue, FnError>)
    ensures
        args@.len() == 0 ==> r matches Err(FnError::EmptyInput),
        args@.len() > 0 ==> gives(r, Val::Sequence(flat(vals_of(args@)))),
{
    if args.len() == 0 {
        return Err(FnError::EmptyInput);
    }
    let mut out: Vec<DynamicValue> = Vec::new();
    let mut i: usize = 0;
    proof {
        lemma_vals_of(args@);
        assert(vals_of(out@) =~= Seq::<Val>::empty());
    }
    while i < args.len()
        invariant
            i <= args@.len(),
            vals_of(args@).len() == args@.len(),
            forall|j: int| 0 <= j < args@.len() ==> #[trigger] vals_of(args@)[j] == args@[j]@,
            vals_of(out@) == flat(vals_of(args@).subrange(0, i as int)),
        decreases args@.len() - i,
    {
        let ghost prefix = vals_of(args@).subrange(0, i as int + 1);
        assert(prefix.drop_last() =~= vals_of(args@).subrange(0, i as int));
        spread_into(&args[i], &mut out);
        i += 1;
    }
    proof {
        assert(vals_of(args@).subrange(0, i as int) =~= vals_of(args@));
    }
    Ok(DynamicValue::Sequence(out))
}

} // verus!
