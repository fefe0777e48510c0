//! JSON text rendering: scalar values, string escaping, decimal formatting,
//! and object assembly. Every writer appends to a `String` buffer and is
//! specified against a spec-level rendering function, so the exact bytes of
//! the emitted JSON are pinned by the contracts.

use vstd::prelude::*;
use vstd::string::StrSliceExecFns;
use vstd::string::StringExecFns;
use crate::ext::push_char;

verus! {

/// A JSON scalar produced by field coercion. `Num` carries an already
/// rendered JSON number token (used for floating-point values, which the
/// caller renders); it is emitted verbatim.
#[derive(Clone, Debug, PartialEq)]
pub enum JsonValue {
    Null,
    Bool(bool),
    I64(i64),
    U64(u64),
    Str(String),
    Num(String),
}

/// Spec-level mirror of `JsonValue`: the mathematical value a scalar denotes.
pub enum Jv {
    Null,
    Bool(bool),
    Int(int),
    Str(Seq<char>),
    Num(Seq<char>),
}

/// The spec value denoted by a scalar.
pub open spec fn sv(v: JsonValue) -> Jv {
    match v {
        JsonValue::Null => Jv::Null,
        JsonValue::Bool(b) => Jv::Bool(b),
        JsonValue::I64(n) => Jv::Int(n as int),
        JsonValue::U64(n) => Jv::Int(n as int),
        JsonValue::Str(s) => Jv::Str(s@),
        JsonValue::Num(t) => Jv::Num(t@),
    }
}

/// Characters allowed in a pre-rendered number token: enough to keep the
/// emitted line a single one and the token shaped like a JSON number.
pub open spec fn num_token_char(c: char) -> bool {
    (48 <= c as u32 && c as u32 <= 57) || c == '-' || c == '+' || c == '.' || c == 'e' || c == 'E'
}

/// Well-formedness of a number token handed in by the caller.
pub open spec fn num_token_ok(t: Seq<char>) -> bool {
    t.len() > 0 && (forall|i: int| 0 <= i < t.len() ==> num_token_char(#[trigger] t[i]))
}

/// Well-formedness of a scalar: only `Num` carries an obligation.
pub open spec fn jv_wf(v: Jv) -> bool {
    match v {
        Jv::Num(t) => num_token_ok(t),
        _ => true,
    }
}

// ---------- digits ----------

pub open spec fn digit_char(n: int) -> char {
    if n == 0 { '0' }
    else if n == 1 { '1' }
    else if n == 2 { '2' }
    else if n == 3 { '3' }
    else if n == 4 { '4' }
    else if n == 5 { '5' }
    else if n == 6 { '6' }
    else if n == 7 { '7' }
    else if n == 8 { '8' }
    else { '9' }
}

pub open spec fn hex_char(n: int) -> char {
    if n < 10 { digit_char(n) }
    else if n == 10 { 'a' }
    else if n == 11 { 'b' }
    else if n == 12 { 'c' }
    else if n == 13 { 'd' }
    else if n == 14 { 'e' }
    else { 'f' }
}

/// Decimal rendering of a natural number, most significant digit first.
pub open spec fn dec_u(n: nat) -> Seq<char>
    decreases n,
{
    if n < 10 { seq![digit_char(n as int)] } else { dec_u(n / 10).push(digit_char((n % 10) as int)) }
}

/// Decimal rendering of an integer (leading `-` when negative).
pub open spec fn dec_int(n: int) -> Seq<char> {
    if n < 0 { seq!['-'] + dec_u((-n) as nat) } else { dec_u(n as nat) }
}

// ---------- string escaping ----------

/// What serde_json emits for one character inside a JSON string: `"` and `\`
/// get a backslash escape, control characters get their short escape or a
/// `\u00xx` escape, and every other character stands for itself.
pub open spec fn esc_char(c: char) -> Seq<char> {
    if c == '"' { seq!['\\', '"'] }
    else if c == '\\' { seq!['\\', '\\'] }
    else if c as u32 >= 0x20 { seq![c] }
    else if c == '\u{8}' { seq!['\\', 'b'] }
    else if c == '\t' { seq!['\\', 't'] }
    else if c == '\n' { seq!['\\', 'n'] }
    else if c == '\u{c}' { seq!['\\', 'f'] }
    else if c == '\r' { seq!['\\', 'r'] }
    else {
        seq!['\\', 'u', '0', '0', hex_char((c as u32 / 16) as int), hex_char((c as u32 % 16) as int)]
    }
}

pub open spec fn escape_seq(s: Seq<char>) -> Seq<char>
    decreases s.len(),
{
    if s.len() == 0 { Seq::<char>::empty() } else { escape_seq(s.drop_last()) + esc_char(s.last()) }
}

/// A JSON string literal: quotes around the escaped content.
pub open spec fn render_string(s: Seq<char>) -> Seq<char> {
    seq!['"'] + escape_seq(s) + seq!['"']
}

// ---------- rendering scalars and objects ----------

pub open spec fn render_scalar(v: Jv) -> Seq<char> {
    match v {
        Jv::Null => seq!['n', 'u', 'l', 'l'],
        Jv::Bool(b) => if b { seq!['t', 'r', 'u', 'e'] } else { seq!['f', 'a', 'l', 's', 'e'] },
        Jv::Int(n) => dec_int(n),
        Jv::Str(s) => render_string(s),
        Jv::Num(t) => t,
    }
}

pub open spec fn render_member(k: Seq<char>, v: Jv) -> Seq<char> {
    render_string(k) + seq![':'] + render_scalar(v)
}

/// The members of an object, comma separated, in sequence order.
pub open spec fn render_members(entries: Seq<(Seq<char>, Jv)>) -> Seq<char>
    decreases entries.len(),
{
    if entries.len() == 0 {
        Seq::<char>::empty()
    } else if entries.len() == 1 {
        render_member(entries[0].0, entries[0].1)
    } else {
        render_members(entries.drop_last()) + seq![','] + render_member(entries.last().0, entries.last().1)
    }
}

/// A flat JSON object of scalar members.
pub open spec fn render_obj(entries: Seq<(Seq<char>, Jv)>) -> Seq<char> {
    seq!['{'] + render_members(entries) + seq!['}']
}

/// The spec entries denoted by an exec entry list.
pub open spec fn obj_view(entries: Seq<(String, JsonValue)>) -> Seq<(Seq<char>, Jv)> {
    Seq::new(entries.len(), |i: int| (entries[i].0@, sv(entries[i].1)))
}

pub open spec fn obj_wf(entries: Seq<(Seq<char>, Jv)>) -> bool {
    forall|i: int| 0 <= i < entries.len() ==> jv_wf(#[trigger] entries[i].1)
}

// ---------- top-level members ----------

/// A value of a top-level member of the output line: a scalar, a flat
/// object (`fields`, `extract`), or the object of span objects (`spans`).
pub enum TopValue {
    S(JsonValue),
    O(Vec<(String, JsonValue)>),
    Spans(Vec<(String, Vec<(String, JsonValue)>)>),
}

/// Spec-level mirror of `TopValue`.
pub enum TopV {
    S(Jv),
    O(Seq<(Seq<char>, Jv)>),
    Spans(Seq<(Seq<char>, Seq<(Seq<char>, Jv)>)>),
}

/// The spec entries denoted by an exec list of span entries.
pub open spec fn spans_view(s: Seq<(String, Vec<(String, JsonValue)>)>) -> Seq<(Seq<char>, Seq<(Seq<char>, Jv)>)> {
    Seq::new(s.len(), |i: int| (s[i].0@, obj_view(s[i].1@)))
}

/// The spec value denoted by a top-level value.
pub open spec fn tv(v: TopValue) -> TopV {
    match v {
        TopValue::S(x) => TopV::S(sv(x)),
        TopValue::O(e) => TopV::O(obj_view(e@)),
        TopValue::Spans(s) => TopV::Spans(spans_view(s@)),
    }
}

pub open spec fn render_spans_member(k: Seq<char>, obj: Seq<(Seq<char>, Jv)>) -> Seq<char> {
    render_string(k) + seq![':'] + render_obj(obj)
}

pub open spec fn render_spans_members(entries: Seq<(Seq<char>, Seq<(Seq<char>, Jv)>)>) -> Seq<char>
    decreases entries.len(),
{
    if entries.len() == 0 {
        Seq::<char>::empty()
    } else if entries.len() == 1 {
        render_spans_member(entries[0].0, entries[0].1)
    } else {
        render_spans_members(entries.drop_last()) + seq![','] + render_spans_member(entries.last().0, entries.last().1)
    }
}

/// An object whose member values are flat objects.
pub open spec fn render_spans_obj(entries: Seq<(Seq<char>, Seq<(Seq<char>, Jv)>)>) -> Seq<char> {
    seq!['{'] + render_spans_members(entries) + seq!['}']
}

pub open spec fn render_top(v: TopV) -> Seq<char> {
    match v {
        TopV::S(j) => render_scalar(j),
        TopV::O(e) => render_obj(e),
        TopV::Spans(s) => render_spans_obj(s),
    }
}

pub open spec fn render_top_member(k: Seq<char>, v: TopV) -> Seq<char> {
    render_string(k) + seq![':'] + render_top(v)
}

pub open spec fn render_top_members(ms: Seq<(Seq<char>, TopV)>) -> Seq<char>
    decreases ms.len(),
{
    if ms.len() == 0 {
        Seq::<char>::empty()
    } else if ms.len() == 1 {
        render_top_member(ms[0].0, ms[0].1)
    } else {
        render_top_members(ms.drop_last()) + seq![','] + render_top_member(ms.last().0, ms.last().1)
    }
}

/// The members whose slot is filled, in slot order.
pub open spec fn present_members(slots: Seq<(Seq<char>, Option<TopV>)>) -> Seq<(Seq<char>, TopV)>
    decreases slots.len(),
{
    if slots.len() == 0 {
        Seq::<(Seq<char>, TopV)>::empty()
    } else {
        present_members(slots.drop_last()) + (match slots.last().1 {
            Option::Some(v) => seq![(slots.last().0, v)],
            Option::None => Seq::<(Seq<char>, TopV)>::empty(),
        })
    }
}

/// One whole output line: the object of the present members, and the
/// trailing newline.
pub open spec fn render_line(slots: Seq<(Seq<char>, Option<TopV>)>) -> Seq<char> {
    seq!['{'] + render_top_members(present_members(slots)) + seq!['}'] + seq!['\n']
}

/// The spec slots denoted by an exec slot list.
pub open spec fn top_slots_view(s: Seq<(String, Option<TopValue>)>) -> Seq<(Seq<char>, Option<TopV>)> {
    Seq::new(s.len(), |i: int| (s[i].0@, match s[i].1 {
        Option::Some(v) => Option::Some(tv(v)),
        Option::None => Option::None,
    }))
}

// ---------- exec writers ----------

pub fn digit_exec(n: u64) -> (c: char)
    requires
        n < 10,
    ensures
        c == digit_char(n as int),
{
    if n == 0 { '0' }
    else if n == 1 { '1' }
    else if n == 2 { '2' }
    else if n == 3 { '3' }
    else if n == 4 { '4' }
    else if n == 5 { '5' }
    else if n == 6 { '6' }
    else if n == 7 { '7' }
    else if n == 8 { '8' }
    else { '9' }
}

pub fn hex_exec(n: u32) -> (c: char)
    requires
        n < 16,
    ensures
        c == hex_char(n as int),
{
    if n < 10 { digit_exec(n as u64) }
    else if n == 10 { 'a' }
    else if n == 11 { 'b' }
    else if n == 12 { 'c' }
    else if n == 13 { 'd' }
    else if n == 14 { 'e' }
    else { 'f' }
}

/// Append the decimal rendering of `n`.
pub fn write_u64(buf: &mut String, n: u64)
    ensures
        final(buf)@ == old(buf)@ + dec_u(n as nat),
    decreases n,
{
    if n >= 10 {
        write_u64(buf, n / 10);
    }
    push_char(buf, digit_exec(n % 10));
}

/// Append the decimal rendering of `n`.
pub fn write_u128(buf: &mut String, n: u128)
    ensures
        final(buf)@ == old(buf)@ + dec_u(n as nat),
    decreases n,
{
    if n >= 10 {
        write_u128(buf, n / 10);
    }
    push_char(buf, digit_exec((n % 10) as u64));
}

/// Append the decimal rendering of `n`, with a sign when negative.
pub fn write_i64(buf: &mut String, n: i64)
    ensures
        final(buf)@ == old(buf)@ + dec_int(n as int),
{
    if n < 0 {
        push_char(buf, '-');
        let m: u64 = (-(n as i128)) as u64;
        assert(m as nat == (-(n as int)) as nat);
        write_u64(buf, m);
    } else {
        write_u64(buf, n as u64);
    }
}

/// Append the decimal rendering of `n`, with a sign when negative.
pub fn write_i128(buf: &mut String, n: i128)
    ensures
        final(buf)@ == old(buf)@ + dec_int(n as int),
{
    if n < 0 {
        push_char(buf, '-');
        let m: u128 = if n == i128::MIN {
            170141183460469231731687303715884105728u128
        } else {
            (-n) as u128
        };
        assert(m as nat == (-(n as int)) as nat);
        write_u128(buf, m);
    } else {
        write_u128(buf, n as u128);
    }
}

/// Append the escape sequence for one character.
fn write_esc_char(buf: &mut String, c: char)
    ensures
        final(buf)@ == old(buf)@ + esc_char(c),
{
    let code: u32 = c as u32;
    if c == '"' {
        push_char(buf, '\\');
        push_char(buf, '"');
    } else if c == '\\' {
        push_char(buf, '\\');
        push_char(buf, '\\');
    } else if code >= 0x20 {
        push_char(buf, c);
    } else if c == '\u{8}' {
        push_char(buf, '\\');
        push_char(buf, 'b');
    } else if c == '\t' {
        push_char(buf, '\\');
        push_char(buf, 't');
    } else if c == '\n' {
        push_char(buf, '\\');
        push_char(buf, 'n');
    } else if c == '\u{c}' {
        push_char(buf, '\\');
        push_char(buf, 'f');
    } else if c == '\r' {
        push_char(buf, '\\');
        push_char(buf, 'r');
    } else {
        push_char(buf, '\\');
        push_char(buf, 'u');
        push_char(buf, '0');
        push_char(buf, '0');
        push_char(buf, hex_exec(code / 16));
        push_char(buf, hex_exec(code % 16));
    }
    assert(buf@ =~= old(buf)@ + esc_char(c));
}

/// Append the escaped content of `s` (no surrounding quotes).
pub fn write_escaped(buf: &mut String, s: &str)
    ensures
        final(buf)@ == old(buf)@ + escape_seq(s@),
{
    let n: usize = s.unicode_len();
    let mut i: usize = 0;
    proof {
        assert(s@.take(0) =~= Seq::<char>::empty());
    }
    while i < n
        invariant
            i <= n,
            n == s@.len(),
            buf@ == old(buf)@ + escape_seq(s@.take(i as int)),
        decreases n - i,
    {
        let c: char = s.get_char(i);
        write_esc_char(buf, c);
        proof {
            assert(s@.take(i + 1).drop_last() =~= s@.take(i as int));
            assert(s@.take(i + 1).last() == s@[i as int]);
        }
        i = i + 1;
    }
    proof {
        assert(s@.take(n as int) =~= s@);
    }
}

/// Append the JSON string literal for `s`.
pub fn write_json_string(buf: &mut String, s: &str)
    ensures
        final(buf)@ == old(buf)@ + render_string(s@),
{
    push_char(buf, '"');
    write_escaped(buf, s);
    push_char(buf, '"');
    assert(buf@ =~= old(buf)@ + render_string(s@));
}

/// Append the rendering of one scalar.
pub fn write_scalar(buf: &mut String, v: &JsonValue)
    ensures
        final(buf)@ == old(buf)@ + render_scalar(sv(*v)),
{
    match v {
        JsonValue::Null => {
            push_char(buf, 'n');
            push_char(buf, 'u');
            push_char(buf, 'l');
            push_char(buf, 'l');
            assert(buf@ =~= old(buf)@ + render_scalar(sv(*v)));
        },
        JsonValue::Bool(b) => {
            if *b {
                push_char(buf, 't');
                push_char(buf, 'r');
                push_char(buf, 'u');
                push_char(buf, 'e');
            } else {
                push_char(buf, 'f');
                push_char(buf, 'a');
                push_char(buf, 'l');
                push_char(buf, 's');
                push_char(buf, 'e');
            }
            assert(buf@ =~= old(buf)@ + render_scalar(sv(*v)));
        },
        JsonValue::I64(n) => {
            write_i64(buf, *n);
        },
        JsonValue::U64(n) => {
            write_u64(buf, *n);
            assert(dec_int(*n as int) == dec_u(*n as nat));
        },
        JsonValue::Str(s) => {
            write_json_string(buf, s.as_str());
        },
        JsonValue::Num(t) => {
            buf.append(t.as_str());
        },
    }
}

/// A clone that provably denotes the same JSON value.
pub fn jclone(v: &JsonValue) -> (r: JsonValue)
    ensures
        sv(r) == sv(*v),
{
    match v {
        JsonValue::Null => JsonValue::Null,
        JsonValue::Bool(b) => JsonValue::Bool(*b),
        JsonValue::I64(n) => JsonValue::I64(*n),
        JsonValue::U64(n) => JsonValue::U64(*n),
        JsonValue::Str(s) => JsonValue::Str(s.clone()),
        JsonValue::Num(t) => JsonValue::Num(t.clone()),
    }
}

/// Append one `"key":value` member.
pub fn write_member(buf: &mut String, k: &str, v: &JsonValue)
    ensures
        final(buf)@ == old(buf)@ + render_member(k@, sv(*v)),
{
    write_json_string(buf, k);
    push_char(buf, ':');
    write_scalar(buf, v);
    assert(buf@ =~= old(buf)@ + render_member(k@, sv(*v)));
}

/// Append a whole JSON object of scalar members, in entry order.
pub fn write_obj(buf: &mut String, entries: &Vec<(String, JsonValue)>)
    ensures
        final(buf)@ == old(buf)@ + render_obj(obj_view(entries@)),
{
    push_char(buf, '{');
    let ghost base: Seq<char> = buf@;
    let n: usize = entries.len();
    let mut i: usize = 0;
    proof {
        assert(obj_view(entries@).take(0) =~= Seq::<(Seq<char>, Jv)>::empty());
    }
    while i < n
        invariant
            i <= n,
            n == entries@.len(),
            buf@ == base + render_members(obj_view(entries@).take(i as int)),
        decreases n - i,
    {
        if i > 0 {
            push_char(buf, ',');
        }
        write_member(buf, entries[i].0.as_str(), &entries[i].1);
        proof {
            let full = obj_view(entries@);
            assert(full.take(i + 1).drop_last() =~= full.take(i as int));
            assert(full.take(i + 1).last() == full[i as int]);
            assert(full[i as int].0 == entries@[i as int].0@);
            assert(full[i as int].1 == sv(entries@[i as int].1));
        }
        i = i + 1;
    }
    push_char(buf, '}');
    proof {
        assert(obj_view(entries@).take(n as int) =~= obj_view(entries@));
        assert(buf@ =~= old(buf)@ + render_obj(obj_view(entries@)));
    }
}

/// Append a whole object of span objects, in entry order.
pub fn write_spans_obj(buf: &mut String, entries: &Vec<(String, Vec<(String, JsonValue)>)>)
    ensures
        final(buf)@ == old(buf)@ + render_spans_obj(spans_view(entries@)),
{
    push_char(buf, '{');
    let ghost base: Seq<char> = buf@;
    let n: usize = entries.len();
    let mut i: usize = 0;
    proof {
        assert(spans_view(entries@).take(0) =~= Seq::<(Seq<char>, Seq<(Seq<char>, Jv)>)>::empty());
    }
    while i < n
        invariant
            i <= n,
            n == entries@.len(),
            buf@ == base + render_spans_members(spans_view(entries@).take(i as int)),
        decreases n - i,
    {
        if i > 0 {
            push_char(buf, ',');
        }
        write_json_string(buf, entries[i].0.as_str());
        push_char(buf, ':');
        write_obj(buf, &entries[i].1);
        proof {
            let full = spans_view(entries@);
            assert(full.take(i + 1).drop_last() =~= full.take(i as int));
            assert(full.take(i + 1).last() == full[i as int]);
            assert(full[i as int].0 == entries@[i as int].0@);
            assert(full[i as int].1 == obj_view(entries@[i as int].1@));
            assert(buf@ =~= base + render_spans_members(full.take(i + 1)));
        }
        i = i + 1;
    }
    push_char(buf, '}');
    proof {
        assert(spans_view(entries@).take(n as int) =~= spans_view(entries@));
        assert(buf@ =~= old(buf)@ + render_spans_obj(spans_view(entries@)));
    }
}

/// Append the rendering of one top-level value.
pub fn write_top(buf: &mut String, v: &TopValue)
    ensures
        final(buf)@ == old(buf)@ + render_top(tv(*v)),
{
    match v {
        TopValue::S(x) => write_scalar(buf, x),
        TopValue::O(e) => write_obj(buf, e),
        TopValue::Spans(s) => write_spans_obj(buf, s),
    }
}

/// Append one whole output line for the given member slots: the filled
/// slots in order, as a JSON object, then the newline.
pub fn write_line_slots(buf: &mut String, slots: &Vec<(String, Option<TopValue>)>)
    ensures
        final(buf)@ == old(buf)@ + render_line(top_slots_view(slots@)),
{
    push_char(buf, '{');
    let ghost base: Seq<char> = buf@;
    let ghost sv_slots: Seq<(Seq<char>, Option<TopV>)> = top_slots_view(slots@);
    let n: usize = slots.len();
    let mut i: usize = 0;
    let mut first: bool = true;
    proof {
        assert(present_members(sv_slots.take(0)) =~= Seq::<(Seq<char>, TopV)>::empty());
    }
    while i < n
        invariant
            i <= n,
            n == slots@.len(),
            sv_slots == top_slots_view(slots@),
            buf@ == base + render_top_members(present_members(sv_slots.take(i as int))),
            first <==> present_members(sv_slots.take(i as int)).len() == 0,
        decreases n - i,
    {
        let ghost pm: Seq<(Seq<char>, TopV)> = present_members(sv_slots.take(i as int));
        proof {
            assert(sv_slots.take(i + 1).drop_last() =~= sv_slots.take(i as int));
            assert(sv_slots.take(i + 1).last() == sv_slots[i as int]);
        }
        match &slots[i].1 {
            Option::Some(v) => {
                if !first {
                    push_char(buf, ',');
                }
                write_json_string(buf, slots[i].0.as_str());
                push_char(buf, ':');
                write_top(buf, v);
                first = false;
                proof {
                    let m = (sv_slots[i as int].0, tv(*v));
                    assert(present_members(sv_slots.take(i + 1)) =~= pm.push(m));
                    assert(pm.push(m).drop_last() =~= pm);
                    assert(pm.push(m).last() == m);
                    assert(buf@ =~= base + render_top_members(present_members(sv_slots.take(i + 1))));
                }
            },
            Option::None => {
                proof {
                    assert(present_members(sv_slots.take(i + 1)) =~= pm);
                }
            },
        }
        i = i + 1;
    }
    push_char(buf, '}');
    push_char(buf, '\n');
    proof {
        assert(sv_slots.take(n as int) =~= sv_slots);
        assert(buf@ =~= old(buf)@ + render_line(top_slots_view(slots@)));
    }
}

} // verus!
