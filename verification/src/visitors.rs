//! The visitor cascade over one event's fields: pick the message value,
//! decide whether a `fields` object is due at all, and collect the other
//! fields into it. All three share one filter: a field is skipped when the
//! call site's mask marks its index, when its name is `message`, or when its
//! name carries the `log.` bookkeeping prefix.

use vstd::prelude::*;
use vstd::string::StrSliceExecFns;
use crate::json::{JsonValue, Jv, sv, obj_view};
use crate::fields::{FieldValue, fv, coerce_spec, coerce};
use crate::callsite::{field_skipped, has_bit, mask_ok, shadowed};
use crate::ext::str_eq;

verus! {

/// One visited event field: its declared index, its name, and its value.
pub struct EventField {
    pub index: usize,
    pub name: String,
    pub value: FieldValue,
}

/// The name of the field that carries an event's message.
pub open spec fn is_message_name(name: Seq<char>) -> bool {
    name == seq!['m', 'e', 's', 's', 'a', 'g', 'e']
}

/// Whether a name carries the `log.` prefix of legacy-adapter bookkeeping
/// fields, which duplicate top-level members and are never emitted.
pub open spec fn has_log_prefix(name: Seq<char>) -> bool {
    name.len() >= 4 && name[0] == 'l' && name[1] == 'o' && name[2] == 'g' && name[3] == '.'
}

/// The shared filter: a field belongs in the `fields` object.
pub open spec fn accepted_field(f: EventField, mask: u64) -> bool {
    &&& !is_message_name(f.name@)
    &&& !has_log_prefix(f.name@)
    &&& !field_skipped(mask, f.index as int)
}

/// Whether a field may serve as the message: named `message` and not masked.
pub open spec fn message_candidate(f: EventField, mask: u64) -> bool {
    is_message_name(f.name@) && !field_skipped(mask, f.index as int)
}

/// Position of the first message candidate, or -1 when none exists. The
/// first unmasked `message` is taken; the mask marks all but the last
/// occurrence, so with a proper mask this is the last `message` declared.
pub open spec fn message_index(fields: Seq<EventField>, mask: u64) -> int
    decreases fields.len(),
{
    if fields.len() == 0 {
        -1
    } else {
        let p = message_index(fields.drop_last(), mask);
        if p >= 0 {
            p
        } else if message_candidate(fields.last(), mask) {
            fields.len() - 1
        } else {
            -1
        }
    }
}

pub proof fn lemma_message_index(fields: Seq<EventField>, mask: u64)
    ensures
        message_index(fields, mask) >= 0 ==> {
            &&& 0 <= message_index(fields, mask) < fields.len()
            &&& message_candidate(fields[message_index(fields, mask)], mask)
            &&& forall|i: int| 0 <= i < message_index(fields, mask) ==> !message_candidate(#[trigger] fields[i], mask)
        },
        message_index(fields, mask) < 0 ==> forall|i: int| 0 <= i < fields.len() ==> !message_candidate(#[trigger] fields[i], mask),
    decreases fields.len(),
{
    if fields.len() == 0 {
    } else {
        lemma_message_index(fields.drop_last(), mask);
        let p = message_index(fields.drop_last(), mask);
        if p >= 0 {
            assert(fields[p] == fields.drop_last()[p]);
            assert forall|i: int| 0 <= i < p implies !message_candidate(#[trigger] fields[i], mask) by {
                assert(!message_candidate(fields.drop_last()[i], mask));
                assert(fields.drop_last()[i] == fields[i]);
            }
        } else if message_candidate(fields.last(), mask) {
            assert forall|i: int| 0 <= i < fields.len() - 1 implies !message_candidate(#[trigger] fields[i], mask) by {
                assert(!message_candidate(fields.drop_last()[i], mask));
                assert(fields.drop_last()[i] == fields[i]);
            }
        } else {
            assert forall|i: int| 0 <= i < fields.len() implies !message_candidate(#[trigger] fields[i], mask) by {
                if i < fields.len() - 1 {
                    assert(!message_candidate(fields.drop_last()[i], mask));
                    assert(fields.drop_last()[i] == fields[i]);
                }
            }
        }
    }
}

/// The entries of the `fields` object among the first `n` visited fields:
/// the accepted ones, coerced, in visit order.
pub open spec fn event_entries(fields: Seq<EventField>, mask: u64, n: int) -> Seq<(Seq<char>, Jv)>
    decreases n,
{
    if n <= 0 {
        Seq::<(Seq<char>, Jv)>::empty()
    } else {
        event_entries(fields, mask, n - 1) + (if accepted_field(fields[n - 1], mask) {
            seq![(fields[n - 1].name@, coerce_spec(fv(fields[n - 1].value)))]
        } else {
            Seq::<(Seq<char>, Jv)>::empty()
        })
    }
}

/// Whether a name equals `message`.
pub fn name_is_message(name: &str) -> (r: bool)
    ensures
        r == is_message_name(name@),
{
    let r = str_eq(name, "message");
    proof {
        reveal_strlit("message");
        assert("message"@ =~= seq!['m', 'e', 's', 's', 'a', 'g', 'e']);
    }
    r
}

/// Whether a name starts with `log.`.
pub fn name_has_log_prefix(name: &str) -> (r: bool)
    ensures
        r == has_log_prefix(name@),
{
    let n: usize = name.unicode_len();
    if n < 4 {
        return false;
    }
    name.get_char(0) == 'l' && name.get_char(1) == 'o' && name.get_char(2) == 'g' && name.get_char(3) == '.'
}

/// Whether a field index is masked.
fn index_masked(mask: u64, index: usize) -> (r: bool)
    ensures
        r == field_skipped(mask, index as int),
{
    index < 64 && (mask >> (index as u64)) & 1 == 1
}

/// Whether a field belongs in the `fields` object.
pub fn field_accepted(f: &EventField, mask: u64) -> (r: bool)
    ensures
        r == accepted_field(*f, mask),
{
    !name_is_message(f.name.as_str()) && !name_has_log_prefix(f.name.as_str()) && !index_masked(mask, f.index)
}

/// Extract the message value: the first unmasked field named `message`,
/// coerced; nothing when no such field was visited.
pub fn extract_message(fields: &Vec<EventField>, mask: u64) -> (r: Option<JsonValue>)
    ensures
        (r is Some) <==> message_index(fields@, mask) >= 0,
        r matches Option::Some(v) ==> sv(v) == coerce_spec(fv(fields@[message_index(fields@, mask)].value)),
{
    let n: usize = fields.len();
    let mut i: usize = 0;
    while i < n
        invariant
            i <= n,
            n == fields@.len(),
            message_index(fields@.take(i as int), mask) < 0,
        decreases n - i,
    {
        let f = &fields[i];
        let is_msg = name_is_message(f.name.as_str());
        let masked = index_masked(mask, f.index);
        proof {
            assert(fields@.take(i + 1).drop_last() =~= fields@.take(i as int));
            assert(fields@.take(i + 1).last() == fields@[i as int]);
        }
        if is_msg && !masked {
            proof {
                lemma_take_message_index(fields@, mask, i + 1);
            }
            return Option::Some(coerce(&f.value));
        }
        i = i + 1;
    }
    proof {
        assert(fields@.take(n as int) =~= fields@);
    }
    Option::None
}

/// When a prefix of the fields already contains a message candidate at its
/// last position and none earlier, the whole list's message index is there.
proof fn lemma_take_message_index(fields: Seq<EventField>, mask: u64, n: int)
    requires
        0 < n <= fields.len(),
        message_index(fields.take(n - 1), mask) < 0,
        message_candidate(fields[n - 1], mask),
    ensures
        message_index(fields, mask) == n - 1,
    decreases fields.len(),
{
    if fields.len() == n {
        assert(fields.take(n - 1) =~= fields.drop_last());
        assert(fields.last() == fields[n - 1]);
    } else {
        assert(fields.drop_last().take(n - 1) =~= fields.take(n - 1));
        assert(fields.drop_last()[n - 1] == fields[n - 1]);
        lemma_take_message_index(fields.drop_last(), mask, n);
        lemma_message_index(fields.drop_last(), mask);
    }
}

/// The presence probe: whether any field qualifies for the `fields` object.
pub fn fields_present(fields: &Vec<EventField>, mask: u64) -> (r: bool)
    ensures
        r <==> exists|i: int| 0 <= i < fields@.len() && accepted_field(#[trigger] fields@[i], mask),
{
    let n: usize = fields.len();
    let mut i: usize = 0;
    while i < n
        invariant
            i <= n,
            n == fields@.len(),
            forall|k: int| 0 <= k < i ==> !accepted_field(#[trigger] fields@[k], mask),
        decreases n - i,
    {
        if field_accepted(&fields[i], mask) {
            return true;
        }
        i = i + 1;
    }
    false
}

/// Collect the accepted fields, coerced, in visit order.
pub fn collect_event_fields(fields: &Vec<EventField>, mask: u64) -> (r: Vec<(String, JsonValue)>)
    ensures
        obj_view(r@) == event_entries(fields@, mask, fields@.len() as int),
{
    let n: usize = fields.len();
    let mut out: Vec<(String, JsonValue)> = Vec::new();
    let mut i: usize = 0;
    proof {
        assert(obj_view(out@) =~= event_entries(fields@, mask, 0));
    }
    while i < n
        invariant
            i <= n,
            n == fields@.len(),
            obj_view(out@) == event_entries(fields@, mask, i as int),
        decreases n - i,
    {
        if field_accepted(&fields[i], mask) {
            let name: String = fields[i].name.clone();
            let value = coerce(&fields[i].value);
            out.push((name, value));
        }
        proof {
            assert(obj_view(out@) =~= event_entries(fields@, mask, i + 1));
        }
        i = i + 1;
    }
    out
}

// ---------- call-site deduplication, composed with the mask ----------

/// The usual shape of a visited event: field `i` is the call site's `i`-th
/// declared field.
pub open spec fn fields_match_declaration(fields: Seq<EventField>, names: Seq<Seq<char>>) -> bool {
    &&& fields.len() == names.len()
    &&& forall|i: int| 0 <= i < fields.len() ==> (#[trigger] fields[i]).index == i && fields[i].name@ == names[i]
}

/// Call-site dedup, message side: with the mask computed from the declared
/// names, the message taken is the last field named `message`, and one is
/// taken whenever one exists.
pub proof fn lemma_message_last_occurrence(fields: Seq<EventField>, mask: u64, names: Seq<Seq<char>>)
    requires
        fields_match_declaration(fields, names),
        mask_ok(mask, names),
        names.len() <= 64,
    ensures
        (message_index(fields, mask) >= 0) <==> (exists|i: int| 0 <= i < fields.len() && is_message_name((#[trigger] fields[i]).name@)),
        message_index(fields, mask) >= 0 ==> {
            &&& is_message_name(fields[message_index(fields, mask)].name@)
            &&& forall|j: int| message_index(fields, mask) < j < fields.len() ==> !is_message_name((#[trigger] fields[j]).name@)
        },
{
    lemma_message_index(fields, mask);
    let mi = message_index(fields, mask);
    if exists|i: int| 0 <= i < fields.len() && is_message_name((#[trigger] fields[i]).name@) {
        // The last message-named field is an unmasked candidate.
        let li = last_message_pos(fields, fields.len() as int);
        lemma_last_message_pos(fields, fields.len() as int);
        assert(!shadowed(names, li)) by {
            if shadowed(names, li) {
                let j = choose|j: int| li < j < names.len() && names[j] == names[li];
                assert(fields[j].name@ == names[j]);
                assert(is_message_name(fields[j].name@));
            }
        }
        assert(!has_bit(mask, li as u64));
        assert(message_candidate(fields[li], mask));
        assert(mi >= 0);
        // Everything after the message index is masked or not a message, and
        // masked message fields are shadowed by a later message field; so no
        // message-named field follows the chosen one.
        assert forall|j: int| mi < j < fields.len() implies !is_message_name((#[trigger] fields[j]).name@) by {
            lemma_no_message_after(fields, names, mask, j);
        }
    }
    if mi >= 0 {
        assert(is_message_name(fields[mi].name@));
    }
}

/// Position of the last message-named field among the first `n`, or -1.
spec fn last_message_pos(fields: Seq<EventField>, n: int) -> int
    decreases n,
{
    if n <= 0 {
        -1
    } else if is_message_name(fields[n - 1].name@) {
        n - 1
    } else {
        last_message_pos(fields, n - 1)
    }
}

proof fn lemma_last_message_pos(fields: Seq<EventField>, n: int)
    requires
        n <= fields.len(),
    ensures
        last_message_pos(fields, n) >= 0 ==> {
            &&& 0 <= last_message_pos(fields, n) < n
            &&& is_message_name(fields[last_message_pos(fields, n)].name@)
            &&& forall|j: int| last_message_pos(fields, n) < j < n ==> !is_message_name((#[trigger] fields[j]).name@)
        },
        last_message_pos(fields, n) < 0 ==> forall|j: int| 0 <= j < n ==> !is_message_name((#[trigger] fields[j]).name@),
    decreases n,
{
    if n > 0 {
        lemma_last_message_pos(fields, n - 1);
    }
}

/// A field after the chosen message index is never message-named: the
/// chosen field is unmasked, hence not shadowed, so no later field shares
/// its name, and two message names are the same name.
proof fn lemma_no_message_after(fields: Seq<EventField>, names: Seq<Seq<char>>, mask: u64, j: int)
    requires
        fields_match_declaration(fields, names),
        mask_ok(mask, names),
        names.len() <= 64,
        message_index(fields, mask) >= 0,
        message_index(fields, mask) < j < fields.len(),
    ensures
        !is_message_name(fields[j].name@),
{
    lemma_message_index(fields, mask);
    let mi = message_index(fields, mask);
    assert(message_candidate(fields[mi], mask));
    assert(!has_bit(mask, mi as u64));
    assert(!shadowed(names, mi));
    if is_message_name(fields[j].name@) {
        assert(names[j] == fields[j].name@);
        assert(names[mi] == fields[mi].name@);
        assert(is_message_name(names[mi]) && is_message_name(names[j]));
        assert(names[j] == names[mi]);
        assert(shadowed(names, mi));
    }
}

/// Call-site dedup, fields side: with a proper mask, no two accepted fields
/// share a name, and an accepted field is the last of its name.
pub proof fn lemma_accepted_fields_distinct(fields: Seq<EventField>, mask: u64, names: Seq<Seq<char>>)
    requires
        fields_match_declaration(fields, names),
        mask_ok(mask, names),
        names.len() <= 64,
    ensures
        forall|p: int, q: int|
            0 <= p < q < fields.len()
                && accepted_field(#[trigger] fields[p], mask) && accepted_field(#[trigger] fields[q], mask)
                ==> fields[p].name@ != fields[q].name@,
{
    assert forall|p: int, q: int|
        0 <= p < q < fields.len()
            && accepted_field(#[trigger] fields[p], mask) && accepted_field(#[trigger] fields[q], mask)
            implies fields[p].name@ != fields[q].name@ by {
        if fields[p].name@ == fields[q].name@ {
            assert(names[q] == names[p]);
            assert(shadowed(names, p));
            assert(has_bit(mask, p as u64));
            assert(field_skipped(mask, p));
        }
    }
}

/// Every key of the `fields` object names an accepted field.
pub proof fn lemma_event_entries_from_fields(fields: Seq<EventField>, mask: u64, n: int)
    requires
        n <= fields.len(),
    ensures
        forall|e: int| 0 <= e < event_entries(fields, mask, n).len()
            ==> exists|p: int|
                #![trigger fields[p]]
                0 <= p < n && accepted_field(fields[p], mask)
                    && (#[trigger] event_entries(fields, mask, n)[e]).0 == fields[p].name@
                    && event_entries(fields, mask, n)[e].1 == coerce_spec(fv(fields[p].value)),
    decreases n,
{
    if n > 0 {
        lemma_event_entries_from_fields(fields, mask, n - 1);
        let prev = event_entries(fields, mask, n - 1);
        let cur = event_entries(fields, mask, n);
        assert forall|e: int| #![trigger cur[e]] 0 <= e < cur.len() implies
            exists|p: int|
                #![trigger fields[p]]
                0 <= p < n && accepted_field(fields[p], mask)
                    && cur[e].0 == fields[p].name@
                    && cur[e].1 == coerce_spec(fv(fields[p].value)) by {
            if e < prev.len() {
                assert(cur[e] == prev[e]);
                let p = choose|p: int|
                    #![trigger fields[p]]
                    0 <= p < n - 1 && accepted_field(fields[p], mask)
                        && prev[e].0 == fields[p].name@
                        && prev[e].1 == coerce_spec(fv(fields[p].value));
                assert(0 <= p < n && accepted_field(fields[p], mask)
                    && cur[e].0 == fields[p].name@
                    && cur[e].1 == coerce_spec(fv(fields[p].value)));
            } else {
                assert(accepted_field(fields[n - 1], mask));
                assert(cur[e].0 == fields[n - 1].name@ && cur[e].1 == coerce_spec(fv(fields[n - 1].value)));
            }
        }
    }
}

/// Call-site dedup, object shape: with a proper mask the keys of the
/// `fields` object are pairwise distinct.
pub proof fn lemma_event_entries_keys_distinct(fields: Seq<EventField>, mask: u64, names: Seq<Seq<char>>)
    requires
        fields_match_declaration(fields, names),
        mask_ok(mask, names),
        names.len() <= 64,
    ensures
        forall|e1: int, e2: int|
            0 <= e1 < e2 < event_entries(fields, mask, fields.len() as int).len()
                ==> (#[trigger] event_entries(fields, mask, fields.len() as int)[e1]).0
                    != (#[trigger] event_entries(fields, mask, fields.len() as int)[e2]).0,
{
    let n = fields.len() as int;
    lemma_accepted_fields_distinct(fields, mask, names);
    lemma_entries_distinct_step(fields, mask, n);
}

/// Distinct accepted names give distinct entry keys, prefix by prefix.
proof fn lemma_entries_distinct_step(fields: Seq<EventField>, mask: u64, n: int)
    requires
        n <= fields.len(),
        forall|p: int, q: int|
            0 <= p < q < fields.len()
                && accepted_field(#[trigger] fields[p], mask) && accepted_field(#[trigger] fields[q], mask)
                ==> fields[p].name@ != fields[q].name@,
    ensures
        forall|e1: int, e2: int|
            0 <= e1 < e2 < event_entries(fields, mask, n).len()
                ==> (#[trigger] event_entries(fields, mask, n)[e1]).0 != (#[trigger] event_entries(fields, mask, n)[e2]).0,
        forall|e: int, p: int|
            0 <= e < event_entries(fields, mask, n).len() && n <= p < fields.len()
                && accepted_field(#[trigger] fields[p], mask)
                ==> (#[trigger] event_entries(fields, mask, n)[e]).0 != fields[p].name@,
    decreases n,
{
    if n > 0 {
        lemma_entries_distinct_step(fields, mask, n - 1);
        lemma_event_entries_from_fields(fields, mask, n - 1);
        let prev = event_entries(fields, mask, n - 1);
        let cur = event_entries(fields, mask, n);
        assert forall|e: int, p: int|
            0 <= e < cur.len() && n <= p < fields.len() && accepted_field(#[trigger] fields[p], mask)
                implies (#[trigger] cur[e]).0 != fields[p].name@ by {
            if e < prev.len() {
                assert(cur[e] == prev[e]);
            } else {
                assert(accepted_field(fields[n - 1], mask));
                assert(cur[e].0 == fields[n - 1].name@);
            }
        }
        assert forall|e1: int, e2: int| 0 <= e1 < e2 < cur.len() implies
            (#[trigger] cur[e1]).0 != (#[trigger] cur[e2]).0 by {
            if e2 < prev.len() {
                assert(cur[e1] == prev[e1] && cur[e2] == prev[e2]);
            } else {
                assert(cur[e1] == prev[e1]);
                assert(accepted_field(fields[n - 1], mask));
                assert(cur[e2].0 == fields[n - 1].name@);
            }
        }
    }
}

} // verus!
