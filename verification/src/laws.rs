//! The library's laws, each stated over the spec-level renderings that the
//! executable functions are proved to produce: the single trailing newline,
//! top-level key order, span-key uniqueness, and the suppression rules for
//! `process_id` and `module`.

use vstd::prelude::*;
use crate::json::{
    Jv, TopV, jv_wf, num_token_char, digit_char, dec_u, dec_int, esc_char, escape_seq,
    render_string, render_scalar, render_member, render_members, render_obj,
    render_spans_members, render_top, render_top_members,
    present_members, render_line, obj_wf,
};
use crate::timefmt::Timestamp;
use crate::format::{
    EventInfo, SpanInput, ProcessInfo, line_slots, line_chars, span_members, span_key, id_of,
    event_fields_wf, span_inputs_wf,
};
use crate::visitors::EventField;

verus! {

/// No newline anywhere in a character sequence.
pub open spec fn no_nl(s: Seq<char>) -> bool {
    forall|i: int| 0 <= i < s.len() ==> s[i] != '\n'
}

/// Every character is a decimal digit.
pub open spec fn all_digits(s: Seq<char>) -> bool {
    forall|i: int| 0 <= i < s.len() ==> 48 <= (#[trigger] s[i]) as u32 <= 57
}

pub proof fn lemma_digit_char_range(d: int)
    requires
        0 <= d <= 9,
    ensures
        48 <= digit_char(d) as u32 <= 57,
{
}

/// Decimal renderings consist of digits alone.
pub proof fn lemma_dec_u_digits(n: nat)
    ensures
        all_digits(dec_u(n)),
        dec_u(n).len() >= 1,
    decreases n,
{
    if n < 10 {
        lemma_digit_char_range(n as int);
    } else {
        lemma_dec_u_digits(n / 10);
        lemma_digit_char_range((n % 10) as int);
        assert forall|i: int| 0 <= i < dec_u(n).len() implies 48 <= (#[trigger] dec_u(n)[i]) as u32 <= 57 by {
            if i < dec_u(n).len() - 1 {
                assert(dec_u(n)[i] == dec_u(n / 10)[i]);
            }
        }
    }
}

pub proof fn lemma_dec_int_no_nl(n: int)
    ensures
        no_nl(dec_int(n)),
{
    if n < 0 {
        lemma_dec_u_digits((-n) as nat);
    } else {
        lemma_dec_u_digits(n as nat);
    }
}

/// An escape sequence never contains a newline: the newline character
/// itself becomes `\n`, other control characters become their own escapes,
/// and everything kept verbatim is no control character.
pub proof fn lemma_esc_char_no_nl(c: char)
    ensures
        no_nl(esc_char(c)),
{
    if !(c == '"') && !(c == '\\') && c as u32 >= 0x20 {
        assert(esc_char(c) == seq![c]);
        assert(c != '\n');
    }
}

pub proof fn lemma_escape_seq_no_nl(s: Seq<char>)
    ensures
        no_nl(escape_seq(s)),
    decreases s.len(),
{
    if s.len() > 0 {
        lemma_escape_seq_no_nl(s.drop_last());
        lemma_esc_char_no_nl(s.last());
    }
}

pub proof fn lemma_render_string_no_nl(s: Seq<char>)
    ensures
        no_nl(render_string(s)),
{
    lemma_escape_seq_no_nl(s);
}

pub proof fn lemma_render_scalar_no_nl(v: Jv)
    requires
        jv_wf(v),
    ensures
        no_nl(render_scalar(v)),
{
    match v {
        Jv::Null => {},
        Jv::Bool(b) => {},
        Jv::Int(n) => {
            lemma_dec_int_no_nl(n);
        },
        Jv::Str(s) => {
            lemma_render_string_no_nl(s);
        },
        Jv::Num(t) => {
            assert forall|i: int| 0 <= i < t.len() implies t[i] != '\n' by {
                assert(num_token_char(t[i]));
            }
        },
    }
}

pub proof fn lemma_render_member_no_nl(k: Seq<char>, v: Jv)
    requires
        jv_wf(v),
    ensures
        no_nl(render_member(k, v)),
{
    lemma_render_string_no_nl(k);
    lemma_render_scalar_no_nl(v);
}

pub proof fn lemma_render_members_no_nl(entries: Seq<(Seq<char>, Jv)>)
    requires
        obj_wf(entries),
    ensures
        no_nl(render_members(entries)),
    decreases entries.len(),
{
    if entries.len() == 0 {
    } else if entries.len() == 1 {
        lemma_render_member_no_nl(entries[0].0, entries[0].1);
    } else {
        assert(obj_wf(entries.drop_last())) by {
            assert(forall|i: int| 0 <= i < entries.len() - 1 ==> entries.drop_last()[i] == #[trigger] entries[i]);
        }
        lemma_render_members_no_nl(entries.drop_last());
        lemma_render_member_no_nl(entries.last().0, entries.last().1);
    }
}

pub proof fn lemma_render_obj_no_nl(entries: Seq<(Seq<char>, Jv)>)
    requires
        obj_wf(entries),
    ensures
        no_nl(render_obj(entries)),
{
    lemma_render_members_no_nl(entries);
}

/// Well-formedness of a spans object: each span's members are well formed.
pub open spec fn spans_obj_wf(entries: Seq<(Seq<char>, Seq<(Seq<char>, Jv)>)>) -> bool {
    forall|i: int| 0 <= i < entries.len() ==> obj_wf((#[trigger] entries[i]).1)
}

pub proof fn lemma_render_spans_members_no_nl(entries: Seq<(Seq<char>, Seq<(Seq<char>, Jv)>)>)
    requires
        spans_obj_wf(entries),
    ensures
        no_nl(render_spans_members(entries)),
    decreases entries.len(),
{
    if entries.len() == 0 {
    } else if entries.len() == 1 {
        lemma_render_string_no_nl(entries[0].0);
        lemma_render_obj_no_nl(entries[0].1);
    } else {
        assert(spans_obj_wf(entries.drop_last())) by {
            assert(forall|i: int| 0 <= i < entries.len() - 1 ==> entries.drop_last()[i] == #[trigger] entries[i]);
        }
        lemma_render_spans_members_no_nl(entries.drop_last());
        lemma_render_string_no_nl(entries.last().0);
        lemma_render_obj_no_nl(entries.last().1);
    }
}

/// Well-formedness of one top-level value.
pub open spec fn top_wf(v: TopV) -> bool {
    match v {
        TopV::S(j) => jv_wf(j),
        TopV::O(e) => obj_wf(e),
        TopV::Spans(s) => spans_obj_wf(s),
    }
}

pub proof fn lemma_render_top_no_nl(v: TopV)
    requires
        top_wf(v),
    ensures
        no_nl(render_top(v)),
{
    match v {
        TopV::S(j) => {
            lemma_render_scalar_no_nl(j);
        },
        TopV::O(e) => {
            lemma_render_obj_no_nl(e);
        },
        TopV::Spans(s) => {
            lemma_render_spans_members_no_nl(s);
        },
    }
}

pub open spec fn members_wf(ms: Seq<(Seq<char>, TopV)>) -> bool {
    forall|i: int| 0 <= i < ms.len() ==> top_wf((#[trigger] ms[i]).1)
}

pub proof fn lemma_render_top_members_no_nl(ms: Seq<(Seq<char>, TopV)>)
    requires
        members_wf(ms),
    ensures
        no_nl(render_top_members(ms)),
    decreases ms.len(),
{
    if ms.len() == 0 {
    } else if ms.len() == 1 {
        lemma_render_string_no_nl(ms[0].0);
        lemma_render_top_no_nl(ms[0].1);
    } else {
        assert(members_wf(ms.drop_last())) by {
            assert(forall|i: int| 0 <= i < ms.len() - 1 ==> ms.drop_last()[i] == #[trigger] ms[i]);
        }
        lemma_render_top_members_no_nl(ms.drop_last());
        lemma_render_string_no_nl(ms.last().0);
        lemma_render_top_no_nl(ms.last().1);
    }
}

/// Well-formedness of a slot list: every filled slot holds a well-formed
/// value.
pub open spec fn slots_wf(slots: Seq<(Seq<char>, Option<TopV>)>) -> bool {
    forall|i: int| 0 <= i < slots.len() ==> match (#[trigger] slots[i]).1 {
        Option::Some(v) => top_wf(v),
        Option::None => true,
    }
}

pub proof fn lemma_present_members_wf(slots: Seq<(Seq<char>, Option<TopV>)>)
    requires
        slots_wf(slots),
    ensures
        members_wf(present_members(slots)),
    decreases slots.len(),
{
    if slots.len() > 0 {
        assert(slots_wf(slots.drop_last())) by {
            assert(forall|i: int| 0 <= i < slots.len() - 1 ==> slots.drop_last()[i] == #[trigger] slots[i]);
        }
        lemma_present_members_wf(slots.drop_last());
    }
}

/// One line: a rendered line contains exactly one newline, and it is the
/// last character.
pub proof fn lemma_line_single_newline(slots: Seq<(Seq<char>, Option<TopV>)>)
    requires
        slots_wf(slots),
    ensures
        render_line(slots).len() > 0,
        render_line(slots).last() == '\n',
        forall|i: int| 0 <= i < render_line(slots).len() - 1 ==> render_line(slots)[i] != '\n',
{
    lemma_present_members_wf(slots);
    lemma_render_top_members_no_nl(present_members(slots));
}

// ---------- span-key uniqueness ----------

pub proof fn lemma_dec_u_injective(a: nat, b: nat)
    ensures
        dec_u(a) == dec_u(b) ==> a == b,
    decreases a,
{
    if dec_u(a) == dec_u(b) {
        lemma_dec_u_digits(a);
        lemma_dec_u_digits(b);
        if a < 10 && b < 10 {
            assert(dec_u(a)[0] == digit_char(a as int));
            assert(dec_u(b)[0] == digit_char(b as int));
        } else if a < 10 {
            assert(dec_u(b).len() == dec_u(b / 10).len() + 1);
        } else if b < 10 {
            assert(dec_u(a).len() == dec_u(a / 10).len() + 1);
        } else {
            assert(dec_u(a).last() == digit_char((a % 10) as int));
            assert(dec_u(b).last() == digit_char((b % 10) as int));
            assert(a % 10 == b % 10);
            assert(dec_u(a).drop_last() =~= dec_u(a / 10));
            assert(dec_u(b).drop_last() =~= dec_u(b / 10));
            lemma_dec_u_injective(a / 10, b / 10);
        }
    }
}

/// Two span keys with different call-site ids differ: the digits after the
/// last `#` are the id's decimal rendering, digits contain no `#`, and the
/// rendering is injective.
pub proof fn lemma_span_key_injective(n1: Seq<char>, id1: u32, n2: Seq<char>, id2: u32)
    requires
        id1 != id2,
    ensures
        span_key(n1, id1) != span_key(n2, id2),
{
    let d1 = dec_u(id1 as nat);
    let d2 = dec_u(id2 as nat);
    lemma_dec_u_digits(id1 as nat);
    lemma_dec_u_digits(id2 as nat);
    let s1 = span_key(n1, id1);
    let s2 = span_key(n2, id2);
    if s1 == s2 {
        assert(s1.len() == n1.len() + 1 + d1.len());
        assert(s2.len() == n2.len() + 1 + d2.len());
        if d1.len() == d2.len() {
            assert(n1.len() == n2.len());
            assert(d1 =~= d2) by {
                assert forall|i: int| 0 <= i < d1.len() implies d1[i] == d2[i] by {
                    assert(s1[n1.len() + 1 + i] == d1[i]);
                    assert(s2[n2.len() + 1 + i] == d2[i]);
                }
            }
            lemma_dec_u_injective(id1 as nat, id2 as nat);
        } else if d1.len() < d2.len() {
            let p = n1.len() as int;
            assert(s1[p] == '#');
            let q = p - (n2.len() as int) - 1;
            assert(0 <= q < d2.len());
            assert(s2[p] == d2[q]);
            assert(48 <= d2[q] as u32 <= 57);
            assert('#' as u32 == 35);
        } else {
            let p = n2.len() as int;
            assert(s2[p] == '#');
            let q = p - (n1.len() as int) - 1;
            assert(0 <= q < d1.len());
            assert(s1[p] == d1[q]);
            assert(48 <= d1[q] as u32 <= 57);
            assert('#' as u32 == 35);
        }
    }
}

/// Span key uniqueness: when the spans of the scope come from pairwise
/// distinct call sites with distinct ids, no two keys of the `spans` object
/// are equal, even when the span names are. (A scope that enters one call
/// site twice — a recursive span — falls outside this law.)
pub proof fn lemma_span_keys_distinct(spans: Seq<SpanInput>, ids: Map<u64, u32>)
    requires
        forall|i: int, j: int| 0 <= i < j < spans.len()
            ==> id_of(ids, (#[trigger] spans[i]).callsite) != id_of(ids, (#[trigger] spans[j]).callsite),
    ensures
        forall|i: int, j: int| 0 <= i < j < spans.len()
            ==> (#[trigger] span_members(spans, ids)[i]).0 != (#[trigger] span_members(spans, ids)[j]).0,
{
    assert forall|i: int, j: int| 0 <= i < j < spans.len() implies
        (#[trigger] span_members(spans, ids)[i]).0 != (#[trigger] span_members(spans, ids)[j]).0 by {
        lemma_span_key_injective(
            spans[i].name@, id_of(ids, spans[i].callsite),
            spans[j].name@, id_of(ids, spans[j].callsite),
        );
    }
}

// ---------- top-level key order ----------

/// The canonical position of each top-level key.
pub open spec fn key_rank(k: Seq<char>) -> int {
    if k == "timestamp"@ { 0 }
    else if k == "level"@ { 1 }
    else if k == "message"@ { 2 }
    else if k == "fields"@ { 3 }
    else if k == "spans"@ { 4 }
    else if k == "process_id"@ { 5 }
    else if k == "thread_id"@ { 6 }
    else if k == "thread_name"@ { 7 }
    else if k == "task_id"@ { 8 }
    else if k == "target"@ { 9 }
    else if k == "module"@ { 10 }
    else if k == "src"@ { 11 }
    else if k == "trace_id"@ { 12 }
    else if k == "extract"@ { 13 }
    else { 14 }
}

/// Every member of the filtered list is the member of some filled slot.
proof fn lemma_present_members_from_slots(slots: Seq<(Seq<char>, Option<TopV>)>)
    ensures
        forall|e: int| 0 <= e < present_members(slots).len()
            ==> exists|i: int|
                #![trigger slots[i]]
                0 <= i < slots.len() && (#[trigger] present_members(slots)[e]).0 == slots[i].0,
    decreases slots.len(),
{
    if slots.len() > 0 {
        lemma_present_members_from_slots(slots.drop_last());
        let prev = present_members(slots.drop_last());
        let cur = present_members(slots);
        assert forall|e: int| #![trigger cur[e]] 0 <= e < cur.len() implies
            exists|i: int| #![trigger slots[i]] 0 <= i < slots.len() && cur[e].0 == slots[i].0 by {
            if e < prev.len() {
                assert(cur[e] == prev[e]);
                let i = choose|i: int| #![trigger slots.drop_last()[i]]
                    0 <= i < slots.drop_last().len() && prev[e].0 == slots.drop_last()[i].0;
                assert(slots.drop_last()[i] == slots[i]);
                assert(0 <= i < slots.len() && cur[e].0 == slots[i].0);
            } else {
                assert(cur[e].0 == slots[slots.len() - 1].0);
            }
        }
    }
}

/// Filtering out the empty slots keeps the keys in strictly increasing rank.
proof fn lemma_present_members_ranked(slots: Seq<(Seq<char>, Option<TopV>)>)
    requires
        forall|i: int, j: int| 0 <= i < j < slots.len()
            ==> key_rank((#[trigger] slots[i]).0) < key_rank((#[trigger] slots[j]).0),
    ensures
        forall|e1: int, e2: int| 0 <= e1 < e2 < present_members(slots).len()
            ==> key_rank((#[trigger] present_members(slots)[e1]).0)
                < key_rank((#[trigger] present_members(slots)[e2]).0),
    decreases slots.len(),
{
    if slots.len() > 0 {
        assert(forall|i: int| 0 <= i < slots.len() - 1 ==> slots.drop_last()[i] == #[trigger] slots[i]);
        lemma_present_members_ranked(slots.drop_last());
        lemma_present_members_from_slots(slots.drop_last());
        let prev = present_members(slots.drop_last());
        let cur = present_members(slots);
        assert forall|e1: int, e2: int| 0 <= e1 < e2 < cur.len() implies
            key_rank((#[trigger] cur[e1]).0) < key_rank((#[trigger] cur[e2]).0) by {
            if e2 < prev.len() {
                assert(cur[e1] == prev[e1] && cur[e2] == prev[e2]);
            } else {
                assert(cur[e1] == prev[e1]);
                assert(cur[e2].0 == slots[slots.len() - 1].0);
                let i = choose|i: int| #![trigger slots.drop_last()[i]]
                    0 <= i < slots.drop_last().len() && prev[e1].0 == slots.drop_last()[i].0;
                assert(slots.drop_last()[i] == slots[i]);
                assert(key_rank(slots[i].0) < key_rank(slots[slots.len() - 1].0));
            }
        }
    }
}

/// Key order: in any emitted line the present top-level keys appear in the
/// canonical order.
pub proof fn lemma_line_key_order(
    ts: Timestamp,
    event: EventInfo,
    spans: Seq<SpanInput>,
    pinfo: ProcessInfo,
    masks: Map<u64, u64>,
    ids: Map<u64, u32>,
    extract_names: Seq<Seq<char>>,
)
    ensures
        forall|e1: int, e2: int|
            0 <= e1 < e2 < present_members(line_slots(ts, event, spans, pinfo, masks, ids, extract_names)).len()
                ==> key_rank((#[trigger] present_members(line_slots(ts, event, spans, pinfo, masks, ids, extract_names))[e1]).0)
                    < key_rank((#[trigger] present_members(line_slots(ts, event, spans, pinfo, masks, ids, extract_names))[e2]).0),
{
    let slots = line_slots(ts, event, spans, pinfo, masks, ids, extract_names);
    reveal_strlit("timestamp");
    reveal_strlit("level");
    reveal_strlit("message");
    reveal_strlit("fields");
    reveal_strlit("spans");
    reveal_strlit("process_id");
    reveal_strlit("thread_id");
    reveal_strlit("thread_name");
    reveal_strlit("task_id");
    reveal_strlit("target");
    reveal_strlit("module");
    reveal_strlit("src");
    reveal_strlit("trace_id");
    reveal_strlit("extract");
    assert("timestamp"@.len() == 9);
    assert("timestamp"@[0] == 't');
    assert("timestamp"@[1] == 'i');
    assert("level"@.len() == 5);
    assert("level"@[0] == 'l');
    assert("level"@[1] == 'e');
    assert("message"@.len() == 7);
    assert("message"@[0] == 'm');
    assert("message"@[1] == 'e');
    assert("fields"@.len() == 6);
    assert("fields"@[0] == 'f');
    assert("fields"@[1] == 'i');
    assert("spans"@.len() == 5);
    assert("spans"@[0] == 's');
    assert("spans"@[1] == 'p');
    assert("process_id"@.len() == 10);
    assert("process_id"@[0] == 'p');
    assert("process_id"@[1] == 'r');
    assert("thread_id"@.len() == 9);
    assert("thread_id"@[0] == 't');
    assert("thread_id"@[1] == 'h');
    assert("thread_name"@.len() == 11);
    assert("thread_name"@[0] == 't');
    assert("thread_name"@[1] == 'h');
    assert("task_id"@.len() == 7);
    assert("task_id"@[0] == 't');
    assert("task_id"@[1] == 'a');
    assert("target"@.len() == 6);
    assert("target"@[0] == 't');
    assert("target"@[1] == 'a');
    assert("module"@.len() == 6);
    assert("module"@[0] == 'm');
    assert("module"@[1] == 'o');
    assert("src"@.len() == 3);
    assert("src"@[0] == 's');
    assert("src"@[1] == 'r');
    assert("trace_id"@.len() == 8);
    assert("trace_id"@[0] == 't');
    assert("trace_id"@[1] == 'r');
    assert("extract"@.len() == 7);
    assert("extract"@[0] == 'e');
    assert("extract"@[1] == 'x');
    assert(key_rank(slots[0].0) == 0);
    assert(key_rank(slots[1].0) == 1);
    assert(key_rank(slots[2].0) == 2);
    assert(key_rank(slots[3].0) == 3);
    assert(key_rank(slots[4].0) == 4);
    assert(key_rank(slots[5].0) == 5);
    assert(key_rank(slots[6].0) == 6);
    assert(key_rank(slots[7].0) == 7);
    assert(key_rank(slots[8].0) == 8);
    assert(key_rank(slots[9].0) == 9);
    assert(key_rank(slots[10].0) == 10);
    assert(key_rank(slots[11].0) == 11);
    assert(key_rank(slots[12].0) == 12);
    assert(key_rank(slots[13].0) == 13);
    lemma_present_members_ranked(slots);
}

/// No two top-level keys of a line are equal: each of the fourteen keys has
/// its own rank, and ranks increase strictly along the present members.
pub proof fn lemma_line_keys_distinct(
    ts: Timestamp,
    event: EventInfo,
    spans: Seq<SpanInput>,
    pinfo: ProcessInfo,
    masks: Map<u64, u64>,
    ids: Map<u64, u32>,
    extract_names: Seq<Seq<char>>,
)
    ensures
        forall|e1: int, e2: int|
            0 <= e1 < e2 < present_members(line_slots(ts, event, spans, pinfo, masks, ids, extract_names)).len()
                ==> (#[trigger] present_members(line_slots(ts, event, spans, pinfo, masks, ids, extract_names))[e1]).0
                    != (#[trigger] present_members(line_slots(ts, event, spans, pinfo, masks, ids, extract_names))[e2]).0,
{
    lemma_line_key_order(ts, event, spans, pinfo, masks, ids, extract_names);
}

// ---------- suppression rules ----------

/// Process-id suppression: the `process_id` member is absent exactly when
/// the process id is 1.
pub proof fn lemma_process_id_suppressed(
    ts: Timestamp,
    event: EventInfo,
    spans: Seq<SpanInput>,
    pinfo: ProcessInfo,
    masks: Map<u64, u64>,
    ids: Map<u64, u32>,
    extract_names: Seq<Seq<char>>,
)
    ensures
        (line_slots(ts, event, spans, pinfo, masks, ids, extract_names)[5].1 is None) <==> pinfo.pid == 1,
{
}

/// Module suppression: the `module` member is present exactly when a module
/// is known and differs from the target.
pub proof fn lemma_module_suppressed(
    ts: Timestamp,
    event: EventInfo,
    spans: Seq<SpanInput>,
    pinfo: ProcessInfo,
    masks: Map<u64, u64>,
    ids: Map<u64, u32>,
    extract_names: Seq<Seq<char>>,
)
    ensures
        (line_slots(ts, event, spans, pinfo, masks, ids, extract_names)[10].1 is Some)
            <==> (event.module matches Option::Some(m) && m@ != event.target@),
{
}

// ---------- call-site dedup: the accepted occurrence is the last ----------

/// Call-site dedup, last-occurrence side: with the mask computed from the
/// declared names, a field that reaches the `fields` object is the last of
/// its name — every later field bears a different one.
pub proof fn lemma_accepted_is_last(fields: Seq<EventField>, mask: u64, names: Seq<Seq<char>>)
    requires
        crate::visitors::fields_match_declaration(fields, names),
        crate::callsite::mask_ok(mask, names),
        names.len() <= 64,
    ensures
        forall|p: int, q: int|
            0 <= p < q < fields.len() && crate::visitors::accepted_field(#[trigger] fields[p], mask)
                ==> (#[trigger] fields[q]).name@ != fields[p].name@,
{
    assert forall|p: int, q: int|
        0 <= p < q < fields.len() && crate::visitors::accepted_field(#[trigger] fields[p], mask)
            implies (#[trigger] fields[q]).name@ != fields[p].name@ by {
        assert(!crate::callsite::has_bit(mask, p as u64));
        assert(!crate::callsite::shadowed(names, p));
        if fields[q].name@ == fields[p].name@ {
            assert(names[q] == names[p]);
            assert(crate::callsite::shadowed(names, p));
        }
    }
}

// ---------- extract projection ----------

/// All span fields of the scope, root first, each span's fields in store
/// order.
pub open spec fn scope_pairs(spans: Seq<SpanInput>, n: int) -> Seq<(Seq<char>, Jv)>
    decreases n,
{
    if n <= 0 {
        Seq::<(Seq<char>, Jv)>::empty()
    } else {
        scope_pairs(spans, n - 1) + crate::json::obj_view(spans[n - 1].fields@)
    }
}

proof fn lemma_last_index_concat(a: Seq<(Seq<char>, Jv)>, b: Seq<(Seq<char>, Jv)>, k: Seq<char>)
    ensures
        crate::spanfields::last_index_of(a + b, k) == (if crate::spanfields::last_index_of(b, k) >= 0 {
            a.len() + crate::spanfields::last_index_of(b, k)
        } else {
            crate::spanfields::last_index_of(a, k)
        }),
    decreases b.len(),
{
    if b.len() == 0 {
        assert(a + b =~= a);
    } else {
        assert((a + b).drop_last() =~= a + b.drop_last());
        assert((a + b).last() == b.last());
        lemma_last_index_concat(a, b.drop_last(), k);
    }
}

/// What one span's fields do to one extract slot: the last pair bearing the
/// slot's name wins; a slot whose name no pair bears is untouched.
proof fn lemma_apply_pairs_value(names: Seq<Seq<char>>, slots: Seq<Option<Jv>>, pairs: Seq<(Seq<char>, Jv)>, j: int)
    requires
        crate::extract::distinct_names(names),
        slots.len() == names.len(),
        0 <= j < names.len(),
    ensures
        crate::format::apply_extract_pairs(names, slots, pairs).len() == names.len(),
        crate::spanfields::last_index_of(pairs, names[j]) >= 0 ==> {
            &&& 0 <= crate::spanfields::last_index_of(pairs, names[j]) < pairs.len()
            &&& crate::format::apply_extract_pairs(names, slots, pairs)[j]
                == Option::Some(pairs[crate::spanfields::last_index_of(pairs, names[j])].1)
        },
        crate::spanfields::last_index_of(pairs, names[j]) < 0
            ==> crate::format::apply_extract_pairs(names, slots, pairs)[j] == slots[j],
    decreases pairs.len(),
{
    if pairs.len() > 0 {
        lemma_apply_pairs_value(names, slots, pairs.drop_last(), j);
        crate::extract::lemma_find_name(names, pairs.last().0);
        let f = crate::extract::find_name(names, pairs.last().0);
        if pairs.last().0 == names[j] {
            assert(f == j);
        } else {
            assert(f != j);
        }
    }
}

proof fn lemma_extract_slots_len(names: Seq<Seq<char>>, spans: Seq<SpanInput>, n: int)
    requires
        crate::extract::distinct_names(names),
    ensures
        crate::format::extract_slots_after(names, spans, n).len() == names.len(),
    decreases n,
{
    if n > 0 {
        lemma_extract_slots_len(names, spans, n - 1);
        if names.len() > 0 {
            lemma_apply_pairs_value(names, crate::format::extract_slots_after(names, spans, n - 1),
                crate::json::obj_view(spans[n - 1].fields@), 0);
        } else {
            assert(crate::format::extract_slots_after(names, spans, n).len() == 0) by {
                lemma_apply_pairs_len_zero(names, crate::format::extract_slots_after(names, spans, n - 1),
                    crate::json::obj_view(spans[n - 1].fields@));
            }
        }
    }
}

proof fn lemma_apply_pairs_len_zero(names: Seq<Seq<char>>, slots: Seq<Option<Jv>>, pairs: Seq<(Seq<char>, Jv)>)
    requires
        names.len() == 0,
        slots.len() == 0,
    ensures
        crate::format::apply_extract_pairs(names, slots, pairs).len() == 0,
    decreases pairs.len(),
{
    if pairs.len() > 0 {
        lemma_apply_pairs_len_zero(names, slots, pairs.drop_last());
        crate::extract::lemma_find_name(names, pairs.last().0);
    }
}

/// Extract projection, value side: after the whole scope is walked, the
/// slot of a configured name holds the value of the last write of that name
/// along the scope, root to leaf — with unique names per span store, the
/// innermost span's value — and stays empty when no span wrote it.
pub proof fn lemma_extract_value_innermost(names: Seq<Seq<char>>, spans: Seq<SpanInput>, n: int, j: int)
    requires
        crate::extract::distinct_names(names),
        0 <= j < names.len(),
        n >= 0,
    ensures
        crate::format::extract_slots_after(names, spans, n).len() == names.len(),
        crate::spanfields::last_index_of(scope_pairs(spans, n), names[j]) >= 0 ==> {
            &&& 0 <= crate::spanfields::last_index_of(scope_pairs(spans, n), names[j]) < scope_pairs(spans, n).len()
            &&& crate::format::extract_slots_after(names, spans, n)[j]
                == Option::Some(scope_pairs(spans, n)[crate::spanfields::last_index_of(scope_pairs(spans, n), names[j])].1)
        },
        crate::spanfields::last_index_of(scope_pairs(spans, n), names[j]) < 0
            ==> crate::format::extract_slots_after(names, spans, n)[j] is None,
    decreases n,
{
    if n <= 0 {
    } else {
        lemma_extract_value_innermost(names, spans, n - 1, j);
        let prev = crate::format::extract_slots_after(names, spans, n - 1);
        let obj = crate::json::obj_view(spans[n - 1].fields@);
        lemma_apply_pairs_value(names, prev, obj, j);
        lemma_last_index_concat(scope_pairs(spans, n - 1), obj, names[j]);
    }
}

/// Extract projection, key side: every key of the `extract` object is one
/// of the configured names.
pub proof fn lemma_extract_keys_configured(names: Seq<Seq<char>>, slots: Seq<Option<Jv>>, n: int)
    requires
        n <= names.len(),
        n <= slots.len(),
    ensures
        forall|e: int| 0 <= e < crate::extract::extract_entries(names, slots, n).len()
            ==> exists|j: int|
                #![trigger names[j]]
                0 <= j < n && (#[trigger] crate::extract::extract_entries(names, slots, n)[e]).0 == names[j],
    decreases n,
{
    if n > 0 {
        lemma_extract_keys_configured(names, slots, n - 1);
        let prev = crate::extract::extract_entries(names, slots, n - 1);
        let cur = crate::extract::extract_entries(names, slots, n);
        assert forall|e: int| #![trigger cur[e]] 0 <= e < cur.len() implies
            exists|j: int| #![trigger names[j]] 0 <= j < n && cur[e].0 == names[j] by {
            if e < prev.len() {
                assert(cur[e] == prev[e]);
                let j = choose|j: int| #![trigger names[j]] 0 <= j < n - 1 && prev[e].0 == names[j];
                assert(0 <= j < n && cur[e].0 == names[j]);
            } else {
                assert(cur[e].0 == names[n - 1]);
            }
        }
    }
}

// ---------- the one-line law over whole formatted lines ----------

proof fn lemma_coerce_wf(v: crate::fields::Fv)
    requires
        crate::fields::fv_wf(v),
    ensures
        jv_wf(crate::fields::coerce_spec(v)),
{
}

proof fn lemma_event_entries_wf(fields: Seq<EventField>, mask: u64, n: int)
    requires
        event_fields_wf(fields),
        n <= fields.len(),
    ensures
        obj_wf(crate::visitors::event_entries(fields, mask, n)),
    decreases n,
{
    if n > 0 {
        lemma_event_entries_wf(fields, mask, n - 1);
        lemma_coerce_wf(crate::fields::fv(fields[n - 1].value));
        let prev = crate::visitors::event_entries(fields, mask, n - 1);
        let cur = crate::visitors::event_entries(fields, mask, n);
        assert forall|e: int| 0 <= e < cur.len() implies jv_wf((#[trigger] cur[e]).1) by {
            if e < prev.len() {
                assert(cur[e] == prev[e]);
            }
        }
    }
}

/// Every filled slot's value is well formed.
pub open spec fn slot_values_wf(slots: Seq<Option<Jv>>) -> bool {
    forall|i: int| 0 <= i < slots.len() ==> match (#[trigger] slots[i]) {
        Option::Some(v) => jv_wf(v),
        Option::None => true,
    }
}

proof fn lemma_apply_pairs_slots_wf(names: Seq<Seq<char>>, slots: Seq<Option<Jv>>, pairs: Seq<(Seq<char>, Jv)>)
    requires
        slot_values_wf(slots),
        obj_wf(pairs),
        slots.len() == names.len(),
    ensures
        slot_values_wf(crate::format::apply_extract_pairs(names, slots, pairs)),
        crate::format::apply_extract_pairs(names, slots, pairs).len() == names.len(),
    decreases pairs.len(),
{
    if pairs.len() > 0 {
        assert(obj_wf(pairs.drop_last())) by {
            assert(forall|i: int| 0 <= i < pairs.len() - 1 ==> pairs.drop_last()[i] == #[trigger] pairs[i]);
        }
        lemma_apply_pairs_slots_wf(names, slots, pairs.drop_last());
        assert(jv_wf(pairs.last().1));
        let s = crate::format::apply_extract_pairs(names, slots, pairs.drop_last());
        let f = crate::extract::find_name(names, pairs.last().0);
        crate::extract::lemma_find_name(names, pairs.last().0);
        let r = crate::format::apply_extract_pairs(names, slots, pairs);
        assert forall|i: int| 0 <= i < r.len() implies match (#[trigger] r[i]) {
            Option::Some(v) => jv_wf(v),
            Option::None => true,
        } by {
            if f >= 0 && i == f {
            } else {
                assert(r[i] == s[i]);
            }
        }
    }
}

proof fn lemma_extract_slots_wf(names: Seq<Seq<char>>, spans: Seq<SpanInput>, n: int)
    requires
        span_inputs_wf(spans),
        n <= spans.len(),
    ensures
        slot_values_wf(crate::format::extract_slots_after(names, spans, n)),
        crate::format::extract_slots_after(names, spans, n).len() == names.len(),
    decreases n,
{
    if n > 0 {
        lemma_extract_slots_wf(names, spans, n - 1);
        lemma_apply_pairs_slots_wf(names, crate::format::extract_slots_after(names, spans, n - 1),
            crate::json::obj_view(spans[n - 1].fields@));
    }
}

proof fn lemma_extract_entries_wf(names: Seq<Seq<char>>, slots: Seq<Option<Jv>>, n: int)
    requires
        slot_values_wf(slots),
        n <= names.len(),
        n <= slots.len(),
    ensures
        obj_wf(crate::extract::extract_entries(names, slots, n)),
    decreases n,
{
    if n > 0 {
        lemma_extract_entries_wf(names, slots, n - 1);
        let prev = crate::extract::extract_entries(names, slots, n - 1);
        let cur = crate::extract::extract_entries(names, slots, n);
        assert forall|e: int| 0 <= e < cur.len() implies jv_wf((#[trigger] cur[e]).1) by {
            if e < prev.len() {
                assert(cur[e] == prev[e]);
            }
        }
    }
}

/// The member slots of a line built from well-formed inputs are well formed.
pub proof fn lemma_line_slots_wf(
    ts: Timestamp,
    event: EventInfo,
    spans: Seq<SpanInput>,
    pinfo: ProcessInfo,
    masks: Map<u64, u64>,
    ids: Map<u64, u32>,
    extract_names: Seq<Seq<char>>,
)
    requires
        event_fields_wf(event.fields@),
        span_inputs_wf(spans),
        crate::extract::distinct_names(extract_names),
    ensures
        slots_wf(line_slots(ts, event, spans, pinfo, masks, ids, extract_names)),
{
    let mask = crate::format::mask_of(masks, event.callsite);
    let slots = line_slots(ts, event, spans, pinfo, masks, ids, extract_names);
    crate::visitors::lemma_message_index(event.fields@, mask);
    if crate::visitors::message_index(event.fields@, mask) >= 0 {
        lemma_coerce_wf(crate::fields::fv(event.fields@[crate::visitors::message_index(event.fields@, mask)].value));
    }
    lemma_event_entries_wf(event.fields@, mask, event.fields@.len() as int);
    lemma_extract_slots_len(extract_names, spans, spans.len() as int);
    lemma_extract_slots_wf(extract_names, spans, spans.len() as int);
    lemma_extract_entries_wf(extract_names,
        crate::format::extract_slots_after(extract_names, spans, spans.len() as int),
        extract_names.len() as int);
    assert forall|i: int| 0 <= i < slots.len() implies match (#[trigger] slots[i]).1 {
        Option::Some(v) => top_wf(v),
        Option::None => true,
    } by {
        assert(slots.len() == 14);
    }
}

/// One line: a whole formatted line holds exactly one newline, its last
/// character, for any well-formed inputs.
pub proof fn lemma_line_chars_one_newline(
    ts: Timestamp,
    event: EventInfo,
    spans: Seq<SpanInput>,
    pinfo: ProcessInfo,
    masks: Map<u64, u64>,
    ids: Map<u64, u32>,
    extract_names: Seq<Seq<char>>,
)
    requires
        event_fields_wf(event.fields@),
        span_inputs_wf(spans),
        crate::extract::distinct_names(extract_names),
    ensures
        line_chars(ts, event, spans, pinfo, masks, ids, extract_names).len() > 0,
        line_chars(ts, event, spans, pinfo, masks, ids, extract_names).last() == '\n',
        forall|i: int| 0 <= i < line_chars(ts, event, spans, pinfo, masks, ids, extract_names).len() - 1
            ==> line_chars(ts, event, spans, pinfo, masks, ids, extract_names)[i] != '\n',
{
    lemma_line_slots_wf(ts, event, spans, pinfo, masks, ids, extract_names);
    lemma_line_single_newline(line_slots(ts, event, spans, pinfo, masks, ids, extract_names));
}

} // verus!
