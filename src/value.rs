use vstd::prelude::*;

verus! {

/// A number as seen by templates: an integer held in a signed or an
/// unsigned representation.
#[derive(Clone, Copy, Debug, PartialEq, Eq, Structural)]
pub enum Number {
    Unsigned(u64),
    Signed(i64),
}

impl Number {
    /// The integer the number stands for.
    pub open spec fn value(self) -> int {
        match self {
            Number::Unsigned(u) => u as int,
            Number::Signed(i) => i as int,
        }
    }

    /// Builds the number for a signed integer: non-negative values are held
    /// unsigned, negative ones signed.
    pub fn from_i64(i: i64) -> (r: Number)
        ensures
            r == number_of(i as int),
    {
        if i < 0 {
            Number::Signed(i)
        } else {
            Number::Unsigned(i as u64)
        }
    }
}

/// The normalised number of an integer within `i64::MIN ..= u64::MAX`.
pub open spec fn number_of(v: int) -> Number {
    if v < 0 {
        Number::Signed(v as i64)
    } else {
        Number::Unsigned(v as u64)
    }
}

/// The mathematical model of a dynamic value.
pub enum Val {
    Null,
    Missing,
    Boolean(bool),
    Number(Number),
    Text(Seq<char>),
    Sequence(Seq<Val>),
    Mapping(Seq<(Seq<char>, Val)>),
}

/// Whether no two entries share a key, as a mapping's entries must not.
pub open spec fn keys_distinct(s: Seq<(Seq<char>, Val)>) -> bool {
    forall|i: int, j: int| 0 <= i < j < s.len() ==> #[trigger] s[i].0 != #[trigger] s[j].0
}

/// The dynamic value handed to templates.
#[derive(Debug, PartialEq)]
pub enum DynamicValue {
    /// No value.
    Null,
    /// The marker of an argument that was not supplied.
    Missing,
    Boolean(bool),
    Number(Number),
    Text(String),
    Sequence(Vec<DynamicValue>),
    /// Entries from key to value.
    Mapping(Vec<(String, DynamicValue)>),
}

/// The models of a sequence of values.
pub open spec fn vals_of(s: Seq<DynamicValue>) -> Seq<Val>
    decreases s,
{
    if s.len() == 0 {
        Seq::empty()
    } else {
        vals_of(s.drop_last()).push(s.last().view())
    }
}

/// The models of a sequence of entries.
pub open spec fn entries_of(s: Seq<(String, DynamicValue)>) -> Seq<(Seq<char>, Val)>
    decreases s,
{
    if s.len() == 0 {
        Seq::empty()
    } else {
        entries_of(s.drop_last()).push((s.last().0@, s.last().1.view()))
    }
}

impl View for DynamicValue {
    type V = Val;

    open spec fn view(&self) -> Val
        decreases *self,
    {
        match *self {
            DynamicValue::Null => Val::Null,
            DynamicValue::Missing => Val::Missing,
            DynamicValue::Boolean(b) => Val::Boolean(b),
            DynamicValue::Number(n) => Val::Number(n),
            DynamicValue::Text(s) => Val::Text(s@),
            DynamicValue::Sequence(items) => Val::Sequence(vals_of(items@)),
            DynamicValue::Mapping(entries) => Val::Mapping(entries_of(entries@)),
        }
    }
}

/// The model of each value of a sequence is the model of the value at the
/// same place.
pub broadcast proof fn lemma_vals_of(s: Seq<DynamicValue>)
    ensures
        #[trigger] vals_of(s).len() == s.len(),
        forall|i: int| 0 <= i < s.len() ==> #[trigger] vals_of(s)[i] == s[i]@,
    decreases s.len(),
{
    if s.len() > 0 {
        lemma_vals_of(s.drop_last());
        assert(vals_of(s) == vals_of(s.drop_last()).push(s.last()@));
    }
}

/// The model of each entry of a sequence is the model of the entry at the
/// same place.
pub broadcast proof fn lemma_entries_of(s: Seq<(String, DynamicValue)>)
    ensures
        #[trigger] entries_of(s).len() == s.len(),
        forall|i: int|
            0 <= i < s.len() ==> #[trigger] entries_of(s)[i] == (s[i].0@, s[i].1@),
    decreases s.len(),
{
    if s.len() > 0 {
        lemma_entries_of(s.drop_last());
        assert(entries_of(s) == entries_of(s.drop_last()).push((s.last().0@, s.last().1@)));
    }
}

/// Two sequences of values with the same models, place by place, have the
/// same model.
pub proof fn lemma_vals_of_ext(a: Seq<DynamicValue>, b: Seq<DynamicValue>)
    requires
        a.len() == b.len(),
        forall|i: int| 0 <= i < a.len() ==> #[trigger] a[i]@ == b[i]@,
    ensures
        vals_of(a) == vals_of(b),
{
    lemma_vals_of(a);
    lemma_vals_of(b);
    assert(vals_of(a) =~= vals_of(b));
}

/// Two sequences of entries with the same models, place by place, have the
/// same model.
pub proof fn lemma_entries_of_ext(a: Seq<(String, DynamicValue)>, b: Seq<(String, DynamicValue)>)
    requires
        a.len() == b.len(),
        forall|i: int| 0 <= i < a.len() ==> (#[trigger] a[i]).0@ == b[i].0@ && a[i].1@ == b[i].1@,
    ensures
        entries_of(a) == entries_of(b),
{
    lemma_entries_of(a);
    lemma_entries_of(b);
    assert(entries_of(a) =~= entries_of(b));
}

impl Clone for DynamicValue {
    fn clone(&self) -> (r: Self)
        ensures
            r@ == self@,
        decreases self,
    {
        match self {
            DynamicValue::Null => DynamicValue::Null,
            DynamicValue::Missing => DynamicValue::Missing,
            DynamicValue::Boolean(b) => DynamicValue::Boolean(*b),
            DynamicValue::Number(n) => DynamicValue::Number(*n),
            DynamicValue::Text(s) => DynamicValue::Text(s.clone()),
            DynamicValue::Sequence(items) => {
                let mut out: Vec<DynamicValue> = Vec::new();
                let mut i: usize = 0;
                while i < items.len()
                    invariant
                        *self == DynamicValue::Sequence(*items),
                        i <= items@.len(),
                        out@.len() == i,
                        forall|j: int| 0 <= j < i ==> #[trigger] out@[j]@ == items@[j]@,
                    decreases items@.len() - i,
                {
                    proof {
                        let v = *items;
                        assert(decreases_to!(*self => (*self)->Sequence_0));
                        assert(decreases_to!(v => v@));
                        assert(decreases_to!(v@ => v@[i as int]));
                        assert(decreases_to!(*self => items@[i as int]));
                    }
                    let c = items[i].clone();
                    out.push(c);
                    i += 1;
                }
                proof {
                    lemma_vals_of_ext(out@, items@);
                }
                DynamicValue::Sequence(out)
            },
            DynamicValue::Mapping(entries) => {
                let mut out: Vec<(String, DynamicValue)> = Vec::new();
                let mut i: usize = 0;
                while i < entries.len()
                    invariant
                        *self == DynamicValue::Mapping(*entries),
                        i <= entries@.len(),
                        out@.len() == i,
                        forall|j: int|
                            0 <= j < i ==> (#[trigger] out@[j]).0@ == entries@[j].0@
                                && out@[j].1@ == entries@[j].1@,
                    decreases entries@.len() - i,
                {
                    proof {
                        let v = *entries;
                        let e = v@[i as int];
                        assert(decreases_to!(*self => (*self)->Mapping_0));
                        assert(decreases_to!(v => v@));
                        assert(decreases_to!(v@ => e));
                        assert(decreases_to!(e => e.1));
                        assert(decreases_to!(*self => entries@[i as int].1));
                    }
                    let k = entries[i].0.clone();
                    let v = entries[i].1.clone();
                    out.push((k, v));
                    i += 1;
                }
                proof {
                    lemma_entries_of_ext(out@, entries@);
                }
                DynamicValue::Mapping(out)
            },
        }
    }
}

/// The model of a sequence or a mapping has as many items as the value has.
pub proof fn lemma_vals_of_len(v: DynamicValue)
    ensures
        v matches DynamicValue::Sequence(items) ==> v@ == Val::Sequence(vals_of(items@))
            && vals_of(items@).len() == items@.len(),
        v matches DynamicValue::Mapping(entries) ==> v@ == Val::Mapping(entries_of(entries@))
            && entries_of(entries@).len() == entries@.len(),
{
    match v {
        DynamicValue::Sequence(items) => lemma_vals_of(items@),
        DynamicValue::Mapping(entries) => lemma_entries_of(entries@),
        _ => {},
    }
}

/// A node of card data, as read from a card description.
#[derive(Debug, PartialEq)]
pub enum CardDatum {
    Text(String),
    /// An alias, already resolved to its text.
    Reference(String),
    Integer(i64),
    List(Vec<CardDatum>),
}

/// The model of the dynamic value that a card datum converts to.
pub open spec fn datum_val(d: CardDatum) -> Val
    decreases d,
{
    match d {
        CardDatum::Text(s) => Val::Text(s@),
        CardDatum::Reference(s) => Val::Text(s@),
        CardDatum::Integer(i) => Val::Number(number_of(i as int)),
        CardDatum::List(items) => Val::Sequence(datum_vals(items@)),
    }
}

/// The models of the values that a sequence of card data converts to.
pub open spec fn datum_vals(s: Seq<CardDatum>) -> Seq<Val>
    decreases s,
{
    if s.len() == 0 {
        Seq::empty()
    } else {
        datum_vals(s.drop_last()).push(datum_val(s.last()))
    }
}

/// The converted model of each datum of a sequence is the converted model of
/// the datum at the same place.
pub broadcast proof fn lemma_datum_vals(s: Seq<CardDatum>)
    ensures
        #[trigger] datum_vals(s).len() == s.len(),
        forall|i: int| 0 <= i < s.len() ==> #[trigger] datum_vals(s)[i] == datum_val(s[i]),
    decreases s.len(),
{
    if s.len() > 0 {
        lemma_datum_vals(s.drop_last());
        assert(datum_vals(s) == datum_vals(s.drop_last()).push(datum_val(s.last())));
    }
}

/// Converts card data into the dynamic value that templates read: texts and
/// references become text, integers become numbers, lists become sequences
/// of converted items.
pub fn as_go_v(dt: &CardDatum) -> (r: DynamicValue)
    ensures
        r@ == datum_val(*dt),
    decreases dt,
{
    match dt {
        CardDatum::Text(s) => DynamicValue::Text(s.clone()),
        CardDatum::Reference(s) => DynamicValue::Text(s.clone()),
        CardDatum::Integer(i) => DynamicValue::Number(Number::from_i64(*i)),
        CardDatum::List(items) => {
            let mut out: Vec<DynamicValue> = Vec::new();
            let mut i: usize = 0;
            while i < items.len()
                invariant
                    *dt == CardDatum::List(*items),
                    i <= items@.len(),
                    out@.len() == i,
                    forall|j: int| 0 <= j < i ==> (#[trigger] out@[j])@ == datum_val(items@[j]),
                decreases items@.len() - i,
            {
                proof {
                    let v = *items;
                    assert(decreases_to!(*dt => (*dt)->List_0));
                    assert(decreases_to!(v => v@));
                    assert(decreases_to!(v@ => v@[i as int]));
                }
                let c = as_go_v(&items[i]);
                out.push(c);
                i += 1;
            }
            proof {
                lemma_vals_of(out@);
                lemma_datum_vals(items@);
                assert(vals_of(out@) =~= datum_vals(items@));
            }
            DynamicValue::Sequence(out)
        },
    }
}

/// Converts each field of card data, keeping the keys and their order.
pub fn convert_fields(data: &Vec<(String, CardDatum)>) -> (r: Vec<(String, DynamicValue)>)
    ensures
        entries_of(r@) == fields_val(data@),
{
    let mut out: Vec<(String, DynamicValue)> = Vec::new();
    let mut i: usize = 0;
    while i < data.len()
        invariant
            i <= data@.len(),
            out@.len() == i,
            forall|j: int|
                0 <= j < i ==> (#[trigger] out@[j]).0@ == data@[j].0@ && out@[j].1@ == datum_val(
                    data@[j].1,
                ),
        decreases data@.len() - i,
    {
        let k = data[i].0.clone();
        let v = as_go_v(&data[i].1);
        out.push((k, v));
        i += 1;
    }
    proof {
        lemma_entries_of(out@);
        lemma_fields_val(data@);
        assert(entries_of(out@) =~= fields_val(data@));
    }
    out
}

/// The model of converted card fields: each key with the model of its
/// converted datum.
pub open spec fn fields_val(s: Seq<(String, CardDatum)>) -> Seq<(Seq<char>, Val)> {
    Seq::new(s.len(), |i: int| (s[i].0@, datum_val(s[i].1)))
}

proof fn lemma_fields_val(s: Seq<(String, CardDatum)>)
    ensures
        fields_val(s).len() == s.len(),
        forall|i: int|
            0 <= i < s.len() ==> #[trigger] fields_val(s)[i] == (s[i].0@, datum_val(s[i].1)),
{
}

} // verus!
