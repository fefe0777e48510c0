//! Per-span field storage: a concurrent map from field name to the JSON
//! value last recorded for it. A span's store is created when the span is
//! opened, filled with the initial attributes, and updated by later record
//! calls; repeated writes to one name overwrite (last write wins).

use vstd::prelude::*;
use crate::json::Jv;
use crate::fields::{FieldValue, fv, coerce_spec, coerce};
use crate::ext::{span_map_new, span_map_insert, span_map_entries};

verus! {

/// A batch of recorded fields as (name, coerced value) pairs, in record order.
pub open spec fn batch_view(fields: Seq<(String, FieldValue)>) -> Seq<(Seq<char>, Jv)> {
    Seq::new(fields.len(), |i: int| (fields[i].0@, coerce_spec(fv(fields[i].1))))
}

/// Apply a batch of writes to a field map, in order: later pairs overwrite
/// earlier ones and anything already present under the same name.
pub open spec fn apply_batch(m: Map<Seq<char>, Jv>, batch: Seq<(Seq<char>, Jv)>) -> Map<Seq<char>, Jv>
    decreases batch.len(),
{
    if batch.len() == 0 {
        m
    } else {
        apply_batch(m, batch.drop_last()).insert(batch.last().0, batch.last().1)
    }
}

/// Position of the last pair carrying name `k`, or -1 when none does.
pub open spec fn last_index_of(batch: Seq<(Seq<char>, Jv)>, k: Seq<char>) -> int
    decreases batch.len(),
{
    if batch.len() == 0 {
        -1
    } else if batch.last().0 == k {
        batch.len() - 1
    } else {
        last_index_of(batch.drop_last(), k)
    }
}

/// Last write wins: after a batch is applied, a name written by the batch
/// holds the value of its last write, and any other name is untouched.
pub proof fn lemma_apply_batch_last_write(m: Map<Seq<char>, Jv>, batch: Seq<(Seq<char>, Jv)>, k: Seq<char>)
    ensures
        last_index_of(batch, k) >= 0 ==> {
            &&& 0 <= last_index_of(batch, k) < batch.len()
            &&& batch[last_index_of(batch, k)].0 == k
            &&& apply_batch(m, batch).dom().contains(k)
            &&& apply_batch(m, batch)[k] == batch[last_index_of(batch, k)].1
        },
        last_index_of(batch, k) < 0 ==> {
            &&& forall|i: int| 0 <= i < batch.len() ==> (#[trigger] batch[i].0) != k
            &&& apply_batch(m, batch).dom().contains(k) == m.dom().contains(k)
            &&& (m.dom().contains(k) ==> apply_batch(m, batch)[k] == m[k])
        },
    decreases batch.len(),
{
    if batch.len() == 0 {
    } else {
        lemma_apply_batch_last_write(m, batch.drop_last(), k);
        if batch.last().0 == k {
        } else {
            assert forall|i: int| 0 <= i < batch.len() && last_index_of(batch, k) < 0 implies (#[trigger] batch[i].0) != k by {
                if i < batch.len() - 1 {
                    assert(batch.drop_last()[i] == batch[i]);
                }
            }
            if last_index_of(batch.drop_last(), k) >= 0 {
                assert(batch.drop_last()[last_index_of(batch.drop_last(), k)] == batch[last_index_of(batch, k)]);
            }
        }
    }
}

/// The fields recorded during one span's lifetime.
pub struct SpanFields {
    pub fields: papaya::HashMap<String, crate::json::JsonValue>,
}

impl SpanFields {
    /// The mathematical contents: field name to last recorded value.
    pub open spec fn view_map(self) -> Map<Seq<char>, Jv> {
        crate::ext::span_map_view(self.fields)
    }

    pub fn new() -> (r: SpanFields)
        ensures
            r.view_map() =~= Map::empty(),
    {
        SpanFields { fields: span_map_new() }
    }

    /// Record a batch of typed field values, coercing each to its JSON form.
    /// Within the batch and against earlier batches, the last write wins.
    pub fn record_fields(&mut self, fields: &Vec<(String, FieldValue)>)
        ensures
            final(self).view_map() == apply_batch(old(self).view_map(), batch_view(fields@)),
    {
        let ghost base: Map<Seq<char>, Jv> = self.view_map();
        let ghost batch: Seq<(Seq<char>, Jv)> = batch_view(fields@);
        let n: usize = fields.len();
        let mut i: usize = 0;
        proof {
            assert(apply_batch(base, batch.take(0)) == base);
        }
        while i < n
            invariant
                i <= n,
                n == fields@.len(),
                batch == batch_view(fields@),
                self.view_map() == apply_batch(base, batch.take(i as int)),
            decreases n - i,
        {
            let name: String = fields[i].0.clone();
            let value = coerce(&fields[i].1);
            span_map_insert(&mut self.fields, name, value);
            proof {
                assert(batch.take(i + 1).drop_last() =~= batch.take(i as int));
                assert(batch.take(i + 1).last() == batch[i as int]);
            }
            i = i + 1;
        }
        proof {
            assert(batch.take(n as int) =~= batch);
        }
    }

    /// The recorded fields as (name, value) pairs: every binding exactly
    /// once, in no particular order.
    pub fn entries(&self) -> (r: Vec<(String, crate::json::JsonValue)>)
        ensures
            forall|i: int| 0 <= i < r@.len() ==> self.view_map().dom().contains(#[trigger] r@[i].0@)
                && self.view_map()[r@[i].0@] == crate::json::sv(r@[i].1),
            forall|i: int, j: int| 0 <= i < j < r@.len() ==> r@[i].0@ != r@[j].0@,
            forall|k: Seq<char>| self.view_map().dom().contains(k)
                ==> exists|i: int| #![trigger r@[i]] 0 <= i < r@.len() && r@[i].0@ == k,
    {
        span_map_entries(&self.fields)
    }
}

} // verus!
