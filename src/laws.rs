use vstd::prelude::*;
use crate::value::{CardDatum, Val, datum_val, datum_vals, lemma_datum_vals, number_of};
use crate::collection::{flat, spread};
use crate::text::{display, join_vals, join_part};

verus! {

/// Flattening the converted form of a card list gives back the converted
/// items one by one, in their order: each integer as the number it holds,
/// each text or reference as its text, and each nested list as one sequence.
pub proof fn lemma_flatten_converted_list(items: Vec<CardDatum>)
    ensures
        flat(seq![datum_val(CardDatum::List(items))]) == datum_vals(items@),
        flat(seq![datum_val(CardDatum::List(items))]).len() == items@.len(),
        forall|i: int|
            0 <= i < items@.len() ==> match #[trigger] items@[i] {
                CardDatum::Integer(n) => flat(seq![datum_val(CardDatum::List(items))])[i]
                    == Val::Number(number_of(n as int)),
                CardDatum::Text(s) => flat(seq![datum_val(CardDatum::List(items))])[i]
                    == Val::Text(s@),
                CardDatum::Reference(s) => flat(seq![datum_val(CardDatum::List(items))])[i]
                    == Val::Text(s@),
                CardDatum::List(l) => flat(seq![datum_val(CardDatum::List(items))])[i]
                    == Val::Sequence(datum_vals(l@)),
            },
{
    let args = seq![datum_val(CardDatum::List(items))];
    assert(args.drop_last() =~= Seq::<Val>::empty());
    assert(flat(args.drop_last()) =~= Seq::<Val>::empty());
    assert(flat(args) =~= spread(args.last()));
    lemma_datum_vals(items@);
}

/// Flattening a mapping gives its values, while joining it gives its display
/// form unexpanded.
pub proof fn lemma_join_keeps_mappings(sep: Seq<char>, entries: Seq<(Seq<char>, Val)>)
    ensures
        flat(seq![Val::Mapping(entries)]) == entries.map_values(|e: (Seq<char>, Val)| e.1),
        join_vals(sep, seq![Val::Mapping(entries)]) == display(Val::Mapping(entries)),
{
    let args = seq![Val::Mapping(entries)];
    assert(args.drop_last() =~= Seq::<Val>::empty());
    assert(flat(args.drop_last()) =~= Seq::<Val>::empty());
    assert(flat(args) =~= spread(args.last()));
    assert(join_vals(sep, args) == join_part(sep, args[0]));
}

} // verus!
