use vstd::prelude::*;
use crate::value::{
    Number, DynamicValue, Val, CardDatum, keys_distinct, convert_fields, fields_val, entries_of, lemma_entries_of,
};

verus! {

/// What one placement of a card hands to the template: its name, its size,
/// optionally which occurrence of the card and of its type this is, and its
/// data fields (keys distinct).
pub struct CWH {
    pub name: String,
    pub w: Number,
    pub h: Number,
    pub n: Option<usize>,
    pub n_of_type: Option<usize>,
    pub data: Vec<(String, CardDatum)>,
}

/// The model of an optional occurrence counter entry.
pub open spec fn counter_entries(key: Seq<char>, c: Option<usize>) -> Seq<(Seq<char>, Val)> {
    match c {
        Some(n) => seq![(key, Val::Number(Number::Unsigned(n as u64)))],
        None => Seq::empty(),
    }
}

impl CWH {
    /// Well-formed: no two data fields share a key.
    pub open spec fn wf(&self) -> bool {
        forall|i: int, j: int|
            0 <= i < j < self.data@.len() ==> #[trigger] self.data@[i].0@ != #[trigger] self.data@[j].0@
    }

    /// Builds the context of a placement, with its occurrence counters.
    pub fn new(
        name: String,
        w: Number,
        h: Number,
        n: usize,
        n_of_type: usize,
        data: Vec<(String, CardDatum)>,
    ) -> (r: CWH)
        ensures
            r.name == name,
            r.w == w,
            r.h == h,
            r.n == Some(n),
            r.n_of_type == Some(n_of_type),
            r.data == data,
    {
        CWH { name, w, h, n: Some(n), n_of_type: Some(n_of_type), data }
    }

    /// Builds the context of a placement without occurrence counters.
    pub fn without_counters(name: String, w: Number, h: Number, data: Vec<(String, CardDatum)>) -> (r: CWH)
        ensures
            r.name == name,
            r.w == w,
            r.h == h,
            r.n is None,
            r.n_of_type is None,
            r.data == data,
    {
        CWH { name, w, h, n: None, n_of_type: None, data }
    }

    /// The model of the mapping that the context becomes.
    pub open spec fn context_val(&self) -> Val {
        Val::Mapping(
            seq![
                ("name"@, Val::Text(self.name@)),
                ("w"@, Val::Number(self.w)),
                ("h"@, Val::Number(self.h)),
            ] + counter_entries("n"@, self.n) + counter_entries("n_of_type"@, self.n_of_type)
                + seq![("data"@, Val::Mapping(fields_val(self.data@)))],
        )
    }

    /// The mapping handed to the template: `name`, `w`, `h`, then `n` and
    /// `n_of_type` where present, then `data` with every field converted.
    pub fn to_value(&self) -> (r: DynamicValue)
        ensures
            r@ == self.context_val(),
            keys_distinct(self.context_val()->Mapping_0),
            self.wf() ==> keys_distinct(fields_val(self.data@)),
    {
        proof {
            reveal_strlit("name");
            reveal_strlit("w");
            reveal_strlit("h");
            reveal_strlit("n");
            reveal_strlit("n_of_type");
            reveal_strlit("data");
            let m = self.context_val()->Mapping_0;
            assert(keys_distinct(m)) by {
                assert forall|i: int, j: int| 0 <= i < j < m.len() implies m[i].0 != m[j].0 by {
                    if m[i].0 == m[j].0 {
                        assert(m[i].0.len() == m[j].0.len());
                        assert(m[i].0[0] == m[j].0[0]);
                    }
                }
            }
        }
        let mut entries: Vec<(String, DynamicValue)> = Vec::new();
        entries.push((String::from_str("name"), DynamicValue::Text(self.name.clone())));
        entries.push((String::from_str("w"), DynamicValue::Number(self.w)));
        entries.push((String::from_str("h"), DynamicValue::Number(self.h)));
        if let Some(n) = self.n {
            entries.push((String::from_str("n"), DynamicValue::Number(Number::Unsigned(n as u64))));
        }
        if let Some(n) = self.n_of_type {
            entries.push(
                (String::from_str("n_of_type"), DynamicValue::Number(Number::Unsigned(n as u64))),
            );
        }
        let data = convert_fields(&self.data);
        entries.push((String::from_str("data"), DynamicValue::Mapping(data)));
        proof {
            lemma_entries_of(entries@);
            assert(entries_of(entries@) =~= self.context_val()->Mapping_0);
        }
        DynamicValue::Mapping(entries)
    }
}

} // verus!
