//! The event formatter and the logging layer core. One call assembles one
//! JSON line: timestamp, level, message, the event's own fields, the span
//! stack with its accumulated fields, process and thread identifiers, source
//! location, trace id, and the extract projection — in that fixed order,
//! ending in one newline. The contract pins the whole line, character by
//! character, to a spec-level rendering of the inputs.

use vstd::prelude::*;
use vstd::string::StringExecFns;
use crate::json::{
    JsonValue, Jv, sv, TopValue, TopV, tv, dec_u, obj_view, spans_view, top_slots_view, render_line,
    write_line_slots, write_u64, jclone,
};
use crate::fields::{FieldValue, Level, level_chars, fv, coerce_spec, u64_to_string};
use crate::timefmt::{Timestamp, Clock, rfc3339_chars, rfc3339_string};
use crate::callsite::CallsiteRegistry;
use crate::visitors::{EventField, message_index, event_entries, accepted_field, extract_message, fields_present, collect_event_fields};
use crate::extract::{ExtractedSpanFields, extract_entries, find_name, distinct_names};
use crate::spanfields::{SpanFields, batch_view, apply_batch};
use crate::ext::{push_char, str_eq, string_clear, index_set_elems, index_set_from_vec};

verus! {

/// One event as the tracing adapter hands it in.
pub struct EventInfo {
    pub callsite: u64,
    pub level: Level,
    pub target: String,
    pub module: Option<String>,
    pub file: Option<String>,
    pub line: Option<u32>,
    pub fields: Vec<EventField>,
}

/// One span of the current scope, root first: its name, its call-site key,
/// and its accumulated fields (from its store, in that store's order).
pub struct SpanInput {
    pub name: String,
    pub callsite: u64,
    pub fields: Vec<(String, JsonValue)>,
}

/// Per-process and per-thread identifiers, gathered by the caller.
pub struct ProcessInfo {
    pub pid: u32,
    pub thread_id: u64,
    pub thread_name: Option<String>,
    pub task_id: Option<u64>,
    pub trace_id: Option<String>,
}

/// The key of one span in the `spans` object: the span name, `#`, and the
/// numeric call-site id, which keeps keys of same-named spans distinct.
pub open spec fn span_key(name: Seq<char>, id: u32) -> Seq<char> {
    name + seq!['#'] + dec_u(id as nat)
}

pub open spec fn id_of(ids: Map<u64, u32>, cs: u64) -> u32 {
    if ids.dom().contains(cs) { ids[cs] } else { 0 }
}

pub open spec fn mask_of(masks: Map<u64, u64>, cs: u64) -> u64 {
    if masks.dom().contains(cs) { masks[cs] } else { 0 }
}

/// The entries of the `spans` object, root first.
pub open spec fn span_members(spans: Seq<SpanInput>, ids: Map<u64, u32>) -> Seq<(Seq<char>, Seq<(Seq<char>, Jv)>)> {
    Seq::new(spans.len(), |i: int| (span_key(spans[i].name@, id_of(ids, spans[i].callsite)), obj_view(spans[i].fields@)))
}

/// Apply one span's field pairs to the extract slots, in pair order.
pub open spec fn apply_extract_pairs(names: Seq<Seq<char>>, slots: Seq<Option<Jv>>, pairs: Seq<(Seq<char>, Jv)>) -> Seq<Option<Jv>>
    decreases pairs.len(),
{
    if pairs.len() == 0 {
        slots
    } else {
        let s = apply_extract_pairs(names, slots, pairs.drop_last());
        let j = find_name(names, pairs.last().0);
        if j >= 0 { s.update(j, Option::Some(pairs.last().1)) } else { s }
    }
}

/// The extract slots after the first `n` spans have been walked.
pub open spec fn extract_slots_after(names: Seq<Seq<char>>, spans: Seq<SpanInput>, n: int) -> Seq<Option<Jv>>
    decreases n,
{
    if n <= 0 {
        Seq::new(names.len(), |i: int| Option::<Jv>::None)
    } else {
        apply_extract_pairs(names, extract_slots_after(names, spans, n - 1), obj_view(spans[n - 1].fields@))
    }
}

/// Whether any extract slot was written.
pub open spec fn extract_touched(slots: Seq<Option<Jv>>) -> bool {
    exists|j: int| 0 <= j < slots.len() && (#[trigger] slots[j]) is Some
}

/// The message member's value: the first unmasked field named `message`,
/// coerced; the empty string when the event has none.
pub open spec fn message_value(fields: Seq<EventField>, mask: u64) -> Jv {
    if message_index(fields, mask) >= 0 {
        coerce_spec(fv(fields[message_index(fields, mask)].value))
    } else {
        Jv::Str(Seq::<char>::empty())
    }
}

/// The `src` member: `file:line`, or the file alone when no line is known.
pub open spec fn src_chars(file: Seq<char>, line: Option<u32>) -> Seq<char> {
    match line {
        Option::Some(l) => file + seq![':'] + dec_u(l as nat),
        Option::None => file,
    }
}

/// Every field value of an event is well formed: a float arrives as a
/// plausible number token.
pub open spec fn event_fields_wf(fields: Seq<EventField>) -> bool {
    forall|i: int| 0 <= i < fields.len() ==> crate::fields::fv_wf(fv((#[trigger] fields[i]).value))
}

/// Every stored span value is well formed.
pub open spec fn span_inputs_wf(spans: Seq<SpanInput>) -> bool {
    forall|i: int| 0 <= i < spans.len() ==> crate::json::obj_wf(obj_view((#[trigger] spans[i]).fields@))
}

/// Whether a thread name is emitted: non-empty and not the async worker
/// pool's placeholder name.
pub open spec fn thread_name_shown(name: Seq<char>) -> bool {
    name.len() > 0 && name != "tokio-runtime-worker"@
}

/// The fourteen top-level member slots of one line, in output order. A slot
/// holds nothing when its member is suppressed.
pub open spec fn line_slots(
    ts: Timestamp,
    event: EventInfo,
    spans: Seq<SpanInput>,
    pinfo: ProcessInfo,
    masks: Map<u64, u64>,
    ids: Map<u64, u32>,
    extract_names: Seq<Seq<char>>,
) -> Seq<(Seq<char>, Option<TopV>)> {
    let mask = mask_of(masks, event.callsite);
    let eslots = extract_slots_after(extract_names, spans, spans.len() as int);
    seq![
        ("timestamp"@, Option::Some(TopV::S(Jv::Str(rfc3339_chars(ts.secs as nat, ts.micros as nat))))),
        ("level"@, Option::Some(TopV::S(Jv::Str(level_chars(event.level))))),
        ("message"@, Option::Some(TopV::S(message_value(event.fields@, mask)))),
        ("fields"@, if exists|i: int| 0 <= i < event.fields@.len() && accepted_field(#[trigger] event.fields@[i], mask) {
            Option::Some(TopV::O(event_entries(event.fields@, mask, event.fields@.len() as int)))
        } else {
            Option::None
        }),
        ("spans"@, Option::Some(TopV::Spans(span_members(spans, ids)))),
        ("process_id"@, if pinfo.pid != 1 { Option::Some(TopV::S(Jv::Int(pinfo.pid as int))) } else { Option::None }),
        ("thread_id"@, Option::Some(TopV::S(Jv::Int(pinfo.thread_id as int)))),
        ("thread_name"@, match pinfo.thread_name {
            Option::Some(tn) => if thread_name_shown(tn@) { Option::Some(TopV::S(Jv::Str(tn@))) } else { Option::None },
            Option::None => Option::None,
        }),
        ("task_id"@, match pinfo.task_id {
            Option::Some(t) => Option::Some(TopV::S(Jv::Str(dec_u(t as nat)))),
            Option::None => Option::None,
        }),
        ("target"@, Option::Some(TopV::S(Jv::Str(event.target@)))),
        ("module"@, match event.module {
            Option::Some(m) => if m@ != event.target@ { Option::Some(TopV::S(Jv::Str(m@))) } else { Option::None },
            Option::None => Option::None,
        }),
        ("src"@, match event.file {
            Option::Some(f) => Option::Some(TopV::S(Jv::Str(src_chars(f@, event.line)))),
            Option::None => Option::None,
        }),
        ("trace_id"@, match pinfo.trace_id {
            Option::Some(t) => Option::Some(TopV::S(Jv::Str(t@))),
            Option::None => Option::None,
        }),
        ("extract"@, if extract_touched(eslots) {
            Option::Some(TopV::O(extract_entries(extract_names, eslots, extract_names.len() as int)))
        } else {
            Option::None
        }),
    ]
}

/// The whole line a format call appends for these inputs.
pub open spec fn line_chars(
    ts: Timestamp,
    event: EventInfo,
    spans: Seq<SpanInput>,
    pinfo: ProcessInfo,
    masks: Map<u64, u64>,
    ids: Map<u64, u32>,
    extract_names: Seq<Seq<char>>,
) -> Seq<char> {
    render_line(line_slots(ts, event, spans, pinfo, masks, ids, extract_names))
}

/// The span key as a string: name, `#`, decimal id.
pub fn make_span_key(name: &str, id: u32) -> (r: String)
    ensures
        r@ == span_key(name@, id),
{
    let mut k: String = name.to_owned();
    push_char(&mut k, '#');
    write_u64(&mut k, id as u64);
    proof {
        assert(k@ =~= span_key(name@, id));
    }
    k
}

/// Copy a list of object entries, value by value.
fn clone_entries(entries: &Vec<(String, JsonValue)>) -> (r: Vec<(String, JsonValue)>)
    ensures
        obj_view(r@) == obj_view(entries@),
{
    let n: usize = entries.len();
    let mut out: Vec<(String, JsonValue)> = Vec::new();
    let mut i: usize = 0;
    while i < n
        invariant
            i <= n,
            n == entries@.len(),
            out@.len() == i,
            forall|k: int| 0 <= k < i ==> (#[trigger] out@[k]).0@ == entries@[k].0@ && sv(out@[k].1) == sv(entries@[k].1),
        decreases n - i,
    {
        out.push((entries[i].0.clone(), jclone(&entries[i].1)));
        i = i + 1;
    }
    proof {
        assert(obj_view(out@) =~= obj_view(entries@));
    }
    out
}

/// Formats one event into its JSON line, appended to an internal reusable
/// buffer, including the trailing newline.
pub struct EventFormatter {
    pub logline_buffer: String,
}

impl EventFormatter {
    pub fn new() -> (r: EventFormatter)
        ensures
            r.logline_buffer@ =~= Seq::<char>::empty(),
    {
        EventFormatter { logline_buffer: String::new() }
    }

    /// The formatted bytes gathered so far.
    pub fn buffer(&self) -> (r: &str)
        ensures
            r@ == self.logline_buffer@,
    {
        self.logline_buffer.as_str()
    }

    /// Clear the buffer for the next event, keeping its allocation.
    pub fn reset(&mut self)
        ensures
            final(self).logline_buffer@ =~= Seq::<char>::empty(),
    {
        string_clear(&mut self.logline_buffer);
    }

    /// Assemble one line. Appends exactly the rendering that `line_chars`
    /// gives for these inputs, with the registry's current masks and ids.
    #[verifier::rlimit(100)]
    pub fn format(
        &mut self,
        now: &Timestamp,
        event: &EventInfo,
        spans: &Vec<SpanInput>,
        pinfo: &ProcessInfo,
        registry: &CallsiteRegistry,
        extract_names: &indexmap::IndexSet<String>,
    )
        requires
            now.wf(),
            distinct_names(index_set_elems(*extract_names)),
            event_fields_wf(event.fields@),
            span_inputs_wf(spans@),
        ensures
            final(self).logline_buffer@ == old(self).logline_buffer@ + line_chars(
                *now, *event, spans@, *pinfo,
                registry.masks_view(), registry.ids_view(), index_set_elems(*extract_names),
            ),
    {
        let ghost names: Seq<Seq<char>> = index_set_elems(*extract_names);
        let mask: u64 = registry.skip_mask(event.callsite);

        // Message first: the streaming writer cannot revisit prior keys.
        let msg: JsonValue = match extract_message(&event.fields, mask) {
            Option::Some(v) => v,
            Option::None => JsonValue::Str(String::new()),
        };

        let has_fields: bool = fields_present(&event.fields, mask);
        let field_entries: Vec<(String, JsonValue)> = collect_event_fields(&event.fields, mask);

        // The spans object, root first, and the extract projection gathered
        // along the same walk.
        let mut span_entries: Vec<(String, Vec<(String, JsonValue)>)> = Vec::new();
        let mut ex: ExtractedSpanFields = ExtractedSpanFields::new(extract_names);
        let nspans: usize = spans.len();
        let mut i: usize = 0;
        proof {
            assert(spans_view(span_entries@) =~= span_members(spans@, registry.ids_view()).take(0));
            assert(ex.slots_view() =~= extract_slots_after(names, spans@, 0));
            assert(!extract_touched(ex.slots_view()));
        }
        while i < nspans
            invariant
                i <= nspans,
                nspans == spans@.len(),
                names == index_set_elems(*extract_names),
                ex.wf(),
                ex.names_view() == names,
                spans_view(span_entries@) == span_members(spans@, registry.ids_view()).take(i as int),
                ex.slots_view() == extract_slots_after(names, spans@, i as int),
                ex.touched == extract_touched(ex.slots_view()),
            decreases nspans - i,
        {
            let s = &spans[i];
            let id: u32 = registry.span_id(s.callsite);
            let key: String = make_span_key(s.name.as_str(), id);
            let cloned: Vec<(String, JsonValue)> = clone_entries(&s.fields);
            span_entries.push((key, cloned));
            proof {
                let full = span_members(spans@, registry.ids_view());
                assert(full.take(i + 1).drop_last() =~= full.take(i as int));
                assert(full.take(i + 1).last() == full[i as int]);
                assert(spans_view(span_entries@) =~= full.take(i + 1));
            }

            // Project this span's fields into the extract buffer.
            let ghost pairs: Seq<(Seq<char>, Jv)> = obj_view(spans@[i as int].fields@);
            let nf: usize = s.fields.len();
            let mut j: usize = 0;
            proof {
                assert(apply_extract_pairs(names, ex.slots_view(), pairs.take(0)) =~= ex.slots_view());
            }
            let ghost slots_before: Seq<Option<Jv>> = ex.slots_view();
            while j < nf
                invariant
                    j <= nf,
                    nf == spans@[i as int].fields@.len(),
                    i < nspans == spans@.len(),
                    pairs == obj_view(spans@[i as int].fields@),
                    names == index_set_elems(*extract_names),
                    ex.wf(),
                    ex.names_view() == names,
                    ex.slots_view() == apply_extract_pairs(names, slots_before, pairs.take(j as int)),
                    ex.touched == extract_touched(ex.slots_view()),
                decreases nf - j,
            {
                let pair = &spans[i].fields[j];
                let ghost slots_pre: Seq<Option<Jv>> = ex.slots_view();
                let ghost touched_pre: bool = ex.touched;
                ex.set(pair.0.as_str(), jclone(&pair.1));
                proof {
                    assert(pairs.take(j + 1).drop_last() =~= pairs.take(j as int));
                    assert(pairs.take(j + 1).last() == pairs[j as int]);
                    let k = pairs[j as int].0;
                    let jj = crate::extract::find_name(names, k);
                    crate::extract::lemma_find_name(names, k);
                    if jj >= 0 {
                        assert(ex.slots_view() == slots_pre.update(jj, Option::Some(pairs[j as int].1)));
                        assert(ex.slots_view()[jj] is Some);
                        assert(extract_touched(ex.slots_view()));
                    } else {
                        assert(ex.slots_view() == slots_pre);
                    }
                }
                j = j + 1;
            }
            proof {
                assert(pairs.take(nf as int) =~= pairs);
            }
            i = i + 1;
        }
        proof {
            assert(span_members(spans@, registry.ids_view()).take(nspans as int) =~= span_members(spans@, registry.ids_view()));
        }

        // Assemble the fourteen member slots in output order.
        let mut slots: Vec<(String, Option<TopValue>)> = Vec::new();
        slots.push(("timestamp".to_owned(), Option::Some(TopValue::S(JsonValue::Str(rfc3339_string(now))))));
        slots.push(("level".to_owned(), Option::Some(TopValue::S(JsonValue::Str(event.level.as_str().to_owned())))));
        slots.push(("message".to_owned(), Option::Some(TopValue::S(msg))));
        slots.push(("fields".to_owned(), if has_fields {
            Option::Some(TopValue::O(field_entries))
        } else {
            Option::None
        }));
        slots.push(("spans".to_owned(), Option::Some(TopValue::Spans(span_entries))));
        slots.push(("process_id".to_owned(), if pinfo.pid != 1 {
            Option::Some(TopValue::S(JsonValue::U64(pinfo.pid as u64)))
        } else {
            Option::None
        }));
        slots.push(("thread_id".to_owned(), Option::Some(TopValue::S(JsonValue::U64(pinfo.thread_id)))));
        slots.push(("thread_name".to_owned(), match &pinfo.thread_name {
            Option::Some(tn) => {
                if tn.as_str().unicode_len() > 0 && !str_eq(tn.as_str(), "tokio-runtime-worker") {
                    Option::Some(TopValue::S(JsonValue::Str(tn.clone())))
                } else {
                    Option::None
                }
            },
            Option::None => Option::None,
        }));
        slots.push(("task_id".to_owned(), match &pinfo.task_id {
            Option::Some(t) => Option::Some(TopValue::S(JsonValue::Str(u64_to_string(*t)))),
            Option::None => Option::None,
        }));
        slots.push(("target".to_owned(), Option::Some(TopValue::S(JsonValue::Str(event.target.clone())))));
        slots.push(("module".to_owned(), match &event.module {
            Option::Some(m) => {
                if !str_eq(m.as_str(), event.target.as_str()) {
                    Option::Some(TopValue::S(JsonValue::Str(m.clone())))
                } else {
                    Option::None
                }
            },
            Option::None => Option::None,
        }));
        slots.push(("src".to_owned(), match &event.file {
            Option::Some(f) => {
                let mut src: String = f.clone();
                match &event.line {
                    Option::Some(l) => {
                        push_char(&mut src, ':');
                        write_u64(&mut src, *l as u64);
                        proof {
                            assert(src@ =~= src_chars(f@, event.line));
                        }
                    },
                    Option::None => {},
                }
                Option::Some(TopValue::S(JsonValue::Str(src)))
            },
            Option::None => Option::None,
        }));
        slots.push(("trace_id".to_owned(), match &pinfo.trace_id {
            Option::Some(t) => Option::Some(TopValue::S(JsonValue::Str(t.clone()))),
            Option::None => Option::None,
        }));
        slots.push(("extract".to_owned(), if ex.has_values() {
            Option::Some(TopValue::O(ex.entries()))
        } else {
            Option::None
        }));

        proof {
            let target = line_slots(
                *now, *event, spans@, *pinfo,
                registry.masks_view(), registry.ids_view(), names,
            );
            let actual = top_slots_view(slots@);
            assert(actual.len() == 14 && target.len() == 14);
            assert(actual[0] == target[0]);
            assert(actual[1] == target[1]);
            assert(actual[2] == target[2]);
            assert(actual[3] == target[3]);
            assert(actual[4] == target[4]);
            assert(actual[5] == target[5]);
            assert(actual[6] == target[6]);
            assert(actual[7] == target[7]);
            assert(actual[8] == target[8]);
            assert(actual[9] == target[9]);
            assert(actual[10] == target[10]);
            assert(actual[11] == target[11]);
            assert(actual[12] == target[12]);
            assert(actual[13] == target[13]);
            assert(actual =~= target);
        }
        write_line_slots(&mut self.logline_buffer, &slots);
    }
}

/// The four-member line produced when assembling the real one failed: the
/// timestamp, the `ERROR` level, a message naming the failure, and a debug
/// rendering of the event under `fields.event`.
pub open spec fn fallback_slots(ts: Timestamp, error: Seq<char>, event_debug: Seq<char>) -> Seq<(Seq<char>, Option<TopV>)> {
    seq![
        ("timestamp"@, Option::Some(TopV::S(Jv::Str(rfc3339_chars(ts.secs as nat, ts.micros as nat))))),
        ("level"@, Option::Some(TopV::S(Jv::Str(level_chars(Level::Error))))),
        ("message"@, Option::Some(TopV::S(Jv::Str("cannot log event: "@ + error)))),
        ("fields"@, Option::Some(TopV::O(seq![("event"@, Jv::Str(event_debug))]))),
    ]
}

/// Build the minimal, statically shaped line for an event whose formatting
/// failed. It does not touch any reusable buffer.
pub fn format_fallback(now: &Timestamp, error: &str, event_debug: &str) -> (r: String)
    requires
        now.wf(),
    ensures
        r@ == render_line(fallback_slots(*now, error@, event_debug@)),
{
    let mut msg: String = "cannot log event: ".to_owned();
    msg.append(error);
    let mut inner: Vec<(String, JsonValue)> = Vec::new();
    inner.push(("event".to_owned(), JsonValue::Str(event_debug.to_owned())));
    proof {
        assert(obj_view(inner@) =~= seq![("event"@, Jv::Str(event_debug@))]);
    }
    let ghost inner_view: Seq<(Seq<char>, Jv)> = obj_view(inner@);
    let mut slots: Vec<(String, Option<TopValue>)> = Vec::new();
    slots.push(("timestamp".to_owned(), Option::Some(TopValue::S(JsonValue::Str(rfc3339_string(now))))));
    slots.push(("level".to_owned(), Option::Some(TopValue::S(JsonValue::Str(Level::Error.as_str().to_owned())))));
    slots.push(("message".to_owned(), Option::Some(TopValue::S(JsonValue::Str(msg)))));
    slots.push(("fields".to_owned(), Option::Some(TopValue::O(inner))));
    proof {
        let target = fallback_slots(*now, error@, event_debug@);
        let actual = top_slots_view(slots@);
        assert(inner_view == seq![("event"@, Jv::Str(event_debug@))]);
        assert(actual.len() == 4 && target.len() == 4);
        assert(actual[0] == target[0]);
        assert(actual[1] == target[1]);
        assert(actual[2] == target[2]);
        assert(actual[3] == target[3]);
        assert(actual =~= target);
    }
    let mut out = String::new();
    write_line_slots(&mut out, &slots);
    out
}

/// The writer capability: takes one finished line. Write failures stay with
/// the implementation; logging is best effort and never raises.
pub trait MakeWriter {
    fn write_line(&self, line: &str);
}

/// The logging layer core: the call-site registry, the clock and writer
/// capabilities, and the configured extract keys. The tracing adapter feeds
/// its hooks with plain values and owns the thread-local formatter and the
/// re-entrancy guard.
pub struct JsonLoggingLayer<C: Clock, W: MakeWriter> {
    pub clock: C,
    pub writer: W,
    pub registry: CallsiteRegistry,
    pub extract_fields: indexmap::IndexSet<String>,
}

impl<C: Clock, W: MakeWriter> JsonLoggingLayer<C, W> {
    pub open spec fn wf(self) -> bool {
        self.registry.wf() && distinct_names(index_set_elems(self.extract_fields))
    }

    pub fn new(clock: C, writer: W, extract_fields: Vec<String>) -> (r: JsonLoggingLayer<C, W>)
        ensures
            r.wf(),
            index_set_elems(r.extract_fields) == crate::extract::dedup_first(crate::callsite::name_views(extract_fields@)),
            r.registry.masks_view() =~= Map::empty(),
            r.registry.ids_view() =~= Map::empty(),
    {
        proof {
            crate::extract::lemma_dedup_first_distinct(crate::callsite::name_views(extract_fields@));
        }
        JsonLoggingLayer {
            clock,
            writer,
            registry: CallsiteRegistry::new(),
            extract_fields: index_set_from_vec(extract_fields),
        }
    }

    /// Register one call site on its first observation: span call sites get
    /// an id and are always interesting, event call sites get their skip
    /// mask, and an event call site with more fields than the mask width is
    /// refused, so its events are skipped.
    pub fn register_callsite(&mut self, cs: u64, is_event: bool, field_names: &Vec<String>) -> (interest: bool)
        requires
            old(self).wf(),
        ensures
            final(self).wf(),
            crate::callsite::register_effect(old(self).registry, final(self).registry, cs, is_event, field_names@, interest),
            final(self).extract_fields == old(self).extract_fields,
    {
        self.registry.register_callsite(cs, is_event, field_names)
    }

    /// A fresh field store for a newly opened span, holding its initial
    /// attributes. The adapter installs it in the span's extension bag.
    pub fn on_new_span(&self, attrs: &Vec<(String, FieldValue)>) -> (r: SpanFields)
        ensures
            r.view_map() == apply_batch(Map::empty(), batch_view(attrs@)),
    {
        let mut fields = SpanFields::new();
        fields.record_fields(attrs);
        fields
    }

    /// Apply a later record call to a span's store; last write wins.
    pub fn on_record(&self, store: &mut SpanFields, values: &Vec<(String, FieldValue)>)
        ensures
            final(store).view_map() == apply_batch(old(store).view_map(), batch_view(values@)),
    {
        store.record_fields(values);
    }

    /// Handle one event: read the clock, format the line into the given
    /// formatter's buffer, and hand it to the writer. The adapter chooses
    /// the formatter (the thread-local one, or a fresh one on re-entry).
    /// The finished buffer holds exactly one line: one newline, at the end.
    pub fn on_event(&self, formatter: &mut EventFormatter, event: &EventInfo, spans: &Vec<SpanInput>, pinfo: &ProcessInfo)
        requires
            self.wf(),
            event_fields_wf(event.fields@),
            span_inputs_wf(spans@),
        ensures
            exists|ts: Timestamp|
                #![trigger ts.wf()]
                ts.wf() && final(formatter).logline_buffer@ == line_chars(
                    ts, *event, spans@, *pinfo,
                    self.registry.masks_view(), self.registry.ids_view(), index_set_elems(self.extract_fields),
                ),
            final(formatter).logline_buffer@.len() > 0,
            final(formatter).logline_buffer@.last() == '\n',
            forall|i: int| 0 <= i < final(formatter).logline_buffer@.len() - 1
                ==> final(formatter).logline_buffer@[i] != '\n',
    {
        let now: Timestamp = self.clock.now();
        formatter.reset();
        formatter.format(&now, event, spans, pinfo, &self.registry, &self.extract_fields);
        proof {
            crate::laws::lemma_line_chars_one_newline(
                now, *event, spans@, *pinfo,
                self.registry.masks_view(), self.registry.ids_view(), index_set_elems(self.extract_fields),
            );
        }
        self.writer.write_line(formatter.buffer());
    }
}

} // verus!
