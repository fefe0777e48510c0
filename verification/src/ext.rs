//! Trusted declarations for the outside crates and for the few std functions
//! that vstd leaves unspecified. Every contract here is believed, not proved:
//! each doc comment names the function relied on.

use vstd::prelude::*;

verus! {

/// Relies on std's String::push: appends one character at the end.
#[verifier::external_body]
pub fn push_char(s: &mut String, c: char)
    ensures
        final(s)@ == old(s)@.push(c),
{
    s.push(c);
}

/// Relies on chrono's Utc::now, DateTime::timestamp and
/// DateTime::timestamp_subsec_micros: the current instant as whole seconds
/// since the Unix epoch and the microsecond part, which chrono documents as
/// at most 1,999,999 (a leap second may exceed 999,999). Utc::now itself
/// panics when the system clock reads before the epoch.
#[verifier::external_body]
pub fn chrono_now_parts() -> (r: (i64, u32))
    ensures
        r.1 < 2_000_000,
{
    let t = chrono::Utc::now();
    (t.timestamp(), t.timestamp_subsec_micros())
}

/// Relies on std's String::clear: empties the string.
#[verifier::external_body]
pub fn string_clear(s: &mut String)
    ensures
        final(s)@ =~= Seq::<char>::empty(),
{
    s.clear();
}

/// Relies on std's PartialEq for str: two string slices are equal exactly
/// when their character sequences are equal.
#[verifier::external_body]
pub fn str_eq(a: &str, b: &str) -> (r: bool)
    ensures
        r == (a@ == b@),
{
    a == b
}

/// What std's Debug formatting of a string slice yields: the quoted,
/// escaped rendering, a function of the characters alone.
pub uninterp spec fn str_debug_of(s: Seq<char>) -> Seq<char>;

/// Relies on std's Debug for str (through the format macro): the quoted,
/// escaped rendering of the slice.
#[verifier::external_body]
pub fn str_debug(s: &str) -> (r: String)
    ensures
        r@ == str_debug_of(s@),
{
    format!("{s:?}")
}

// ---------- papaya (lock-free hash maps) ----------

#[verifier::external_type_specification]
#[verifier::external_body]
#[verifier::reject_recursive_types(K)]
#[verifier::reject_recursive_types(V)]
#[verifier::reject_recursive_types(S)]
pub struct ExPapayaHashMap<K, V, S>(papaya::HashMap<K, V, S>);

/// What a skip-mask map holds: call-site key to mask bits.
pub uninterp spec fn mask_map_view(m: papaya::HashMap<u64, u64>) -> Map<u64, u64>;

/// What a call-site-id map holds: call-site key to assigned id.
pub uninterp spec fn id_map_view(m: papaya::HashMap<u64, u32>) -> Map<u64, u32>;

/// Relies on papaya's HashMap::new: the fresh map is empty.
#[verifier::external_body]
pub fn mask_map_new() -> (r: papaya::HashMap<u64, u64>)
    ensures
        mask_map_view(r) =~= Map::empty(),
{
    papaya::HashMap::new()
}

/// Relies on papaya's HashMap::pin and HashMapRef::get: the value stored
/// under the key, if any.
#[verifier::external_body]
pub fn mask_map_get(m: &papaya::HashMap<u64, u64>, k: u64) -> (r: Option<u64>)
    ensures
        r == (if mask_map_view(*m).dom().contains(k) {
            Option::Some(mask_map_view(*m)[k])
        } else {
            Option::None::<u64>
        }),
{
    m.pin().get(&k).copied()
}

/// Relies on papaya's HashMap::pin and HashMapRef::insert: stores the value
/// under the key, replacing any previous one. Exclusive access (`&mut`)
/// makes the new contents exactly the old contents plus this binding.
#[verifier::external_body]
pub fn mask_map_insert(m: &mut papaya::HashMap<u64, u64>, k: u64, v: u64)
    ensures
        mask_map_view(*final(m)) == mask_map_view(*old(m)).insert(k, v),
{
    m.pin().insert(k, v);
}

/// Relies on papaya's HashMap::new: the fresh map is empty.
#[verifier::external_body]
pub fn id_map_new() -> (r: papaya::HashMap<u64, u32>)
    ensures
        id_map_view(r) =~= Map::empty(),
{
    papaya::HashMap::new()
}

/// Relies on papaya's HashMap::pin and HashMapRef::get: the value stored
/// under the key, if any.
#[verifier::external_body]
pub fn id_map_get(m: &papaya::HashMap<u64, u32>, k: u64) -> (r: Option<u32>)
    ensures
        r == (if id_map_view(*m).dom().contains(k) {
            Option::Some(id_map_view(*m)[k])
        } else {
            Option::None::<u32>
        }),
{
    m.pin().get(&k).copied()
}

/// Relies on papaya's HashMap::pin and HashMapRef::insert: stores the value
/// under the key, replacing any previous one. Exclusive access (`&mut`)
/// makes the new contents exactly the old contents plus this binding.
#[verifier::external_body]
pub fn id_map_insert(m: &mut papaya::HashMap<u64, u32>, k: u64, v: u32)
    ensures
        id_map_view(*final(m)) == id_map_view(*old(m)).insert(k, v),
{
    m.pin().insert(k, v);
}

/// What a span-field map holds: field name to the JSON value last recorded
/// for it.
pub uninterp spec fn span_map_view(m: papaya::HashMap<String, crate::json::JsonValue>) -> Map<Seq<char>, crate::json::Jv>;

/// Relies on papaya's HashMap::new: the fresh map is empty.
#[verifier::external_body]
pub fn span_map_new() -> (r: papaya::HashMap<String, crate::json::JsonValue>)
    ensures
        span_map_view(r) =~= Map::empty(),
{
    papaya::HashMap::new()
}

/// Relies on papaya's HashMap::pin and HashMapRef::insert: stores the value
/// under the key, replacing any previous one. Exclusive access (`&mut`)
/// makes the new contents exactly the old contents plus this binding.
#[verifier::external_body]
pub fn span_map_insert(m: &mut papaya::HashMap<String, crate::json::JsonValue>, k: String, v: crate::json::JsonValue)
    ensures
        span_map_view(*final(m)) == span_map_view(*old(m)).insert(k@, crate::json::sv(v)),
{
    m.pin().insert(k, v);
}

/// Relies on papaya's HashMap::pin and HashMapRef::iter: yields every
/// binding exactly once, in no particular order.
#[verifier::external_body]
pub fn span_map_entries(m: &papaya::HashMap<String, crate::json::JsonValue>) -> (r: Vec<(String, crate::json::JsonValue)>)
    ensures
        forall|i: int| 0 <= i < r@.len() ==> span_map_view(*m).dom().contains(#[trigger] r@[i].0@)
            && span_map_view(*m)[r@[i].0@] == crate::json::sv(r@[i].1),
        forall|i: int, j: int| 0 <= i < j < r@.len() ==> r@[i].0@ != r@[j].0@,
        forall|k: Seq<char>| span_map_view(*m).dom().contains(k)
            ==> exists|i: int| #![trigger r@[i]] 0 <= i < r@.len() && r@[i].0@ == k,
{
    m.pin().iter().map(|(k, v)| (k.clone(), v.clone())).collect()
}

// ---------- indexmap (insertion-ordered set of extract keys) ----------

#[verifier::external_type_specification]
#[verifier::external_body]
#[verifier::reject_recursive_types(T)]
#[verifier::reject_recursive_types(S)]
pub struct ExIndexSet<T, S>(indexmap::IndexSet<T, S>);

/// What an extract-key set holds: the distinct key names in insertion order.
pub uninterp spec fn index_set_elems(s: indexmap::IndexSet<String>) -> Seq<Seq<char>>;

/// Relies on indexmap's IndexSet implementation of FromIterator: elements
/// are kept in insertion order, and a repeated element keeps its first
/// position.
#[verifier::external_body]
pub fn index_set_from_vec(names: Vec<String>) -> (r: indexmap::IndexSet<String>)
    ensures
        index_set_elems(r) == crate::extract::dedup_first(crate::callsite::name_views(names@)),
{
    names.into_iter().collect()
}

/// Relies on indexmap's IndexSet::len: the number of elements.
#[verifier::external_body]
pub fn index_set_len(s: &indexmap::IndexSet<String>) -> (r: usize)
    ensures
        r == index_set_elems(*s).len(),
{
    s.len()
}

/// Relies on indexmap's IndexSet::get_full: the position of an element
/// equal to `name`, or nothing when no element is equal to it.
#[verifier::external_body]
pub fn index_set_lookup(s: &indexmap::IndexSet<String>, name: &str) -> (r: Option<usize>)
    ensures
        r matches Option::Some(i) ==> i < index_set_elems(*s).len() && index_set_elems(*s)[i as int] == name@,
        r is None ==> forall|i: int| 0 <= i < index_set_elems(*s).len() ==> index_set_elems(*s)[i] != name@,
{
    s.get_full(name).map(|(i, _)| i)
}

/// Relies on indexmap's IndexSet::get_index: the element at a position
/// within bounds.
#[verifier::external_body]
pub fn index_set_get(s: &indexmap::IndexSet<String>, i: usize) -> (r: String)
    requires
        i < index_set_elems(*s).len(),
    ensures
        r@ == index_set_elems(*s)[i as int],
{
    s.get_index(i).expect("index within bounds").clone()
}

} // verus!
