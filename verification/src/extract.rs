//! The extract buffer: a fixed, ordered set of configured key names and one
//! optional slot per name. While the span scope is walked root to leaf,
//! every span field whose name is configured overwrites its slot, so each
//! slot ends up holding the innermost value. The populated slots are then
//! emitted as the top-level `extract` object, in configured-name order.
//! The serializer here threads exclusive access through the walk, so the
//! buffer needs no lock and no interior mutability.

use vstd::prelude::*;
use crate::json::{JsonValue, Jv, sv, jclone};
use crate::callsite::name_views;
use crate::ext::{index_set_len, index_set_lookup, index_set_get};

verus! {

/// No element occurs twice.
pub open spec fn distinct_names(s: Seq<Seq<char>>) -> bool {
    forall|i: int, j: int| 0 <= i < j < s.len() ==> s[i] != s[j]
}

/// Keep the first occurrence of each element, in order.
pub open spec fn dedup_first(s: Seq<Seq<char>>) -> Seq<Seq<char>>
    decreases s.len(),
{
    if s.len() == 0 {
        Seq::<Seq<char>>::empty()
    } else {
        let p = dedup_first(s.drop_last());
        if p.contains(s.last()) { p } else { p.push(s.last()) }
    }
}

/// Deduplication yields distinct elements and keeps exactly the elements of
/// the input.
pub proof fn lemma_dedup_first_distinct(s: Seq<Seq<char>>)
    ensures
        distinct_names(dedup_first(s)),
        forall|x: Seq<char>| dedup_first(s).contains(x) <==> s.contains(x),
    decreases s.len(),
{
    if s.len() == 0 {
        assert forall|x: Seq<char>| s.contains(x) implies dedup_first(s).contains(x) by {}
    } else {
        lemma_dedup_first_distinct(s.drop_last());
        let p = dedup_first(s.drop_last());
        assert forall|x: Seq<char>| s.contains(x) implies dedup_first(s).contains(x) by {
            let i = choose|i: int| 0 <= i < s.len() && s[i] == x;
            if i < s.len() - 1 {
                assert(s.drop_last()[i] == x);
                assert(s.drop_last().contains(x));
                if !p.contains(s.last()) {
                    let j = choose|j: int| 0 <= j < p.len() && p[j] == x;
                    assert(p.push(s.last())[j] == x);
                }
            } else {
                if p.contains(s.last()) {
                } else {
                    assert(p.push(s.last()).last() == x);
                }
            }
        }
        assert forall|x: Seq<char>| dedup_first(s).contains(x) implies s.contains(x) by {
            if !p.contains(s.last()) {
                let j = choose|j: int| 0 <= j < dedup_first(s).len() && dedup_first(s)[j] == x;
                if j < p.len() {
                    assert(p.contains(x));
                    assert(s.drop_last().contains(x));
                    let i = choose|i: int| 0 <= i < s.drop_last().len() && s.drop_last()[i] == x;
                    assert(s[i] == x);
                } else {
                    assert(x == s.last());
                    assert(s[s.len() - 1] == x);
                }
            } else {
                assert(p.contains(x));
                assert(s.drop_last().contains(x));
                let i = choose|i: int| 0 <= i < s.drop_last().len() && s.drop_last()[i] == x;
                assert(s[i] == x);
            }
        }
    }
}

/// First position of `k`, or -1 when absent.
pub open spec fn find_name(s: Seq<Seq<char>>, k: Seq<char>) -> int
    decreases s.len(),
{
    if s.len() == 0 {
        -1
    } else {
        let p = find_name(s.drop_last(), k);
        if p >= 0 { p } else if s.last() == k { s.len() - 1 } else { -1 }
    }
}

pub proof fn lemma_find_name(s: Seq<Seq<char>>, k: Seq<char>)
    ensures
        find_name(s, k) >= 0 ==> 0 <= find_name(s, k) < s.len() && s[find_name(s, k)] == k,
        find_name(s, k) < 0 ==> forall|i: int| 0 <= i < s.len() ==> s[i] != k,
        distinct_names(s) ==> forall|i: int| 0 <= i < s.len() && s[i] == k ==> find_name(s, k) == i,
    decreases s.len(),
{
    if s.len() == 0 {
    } else {
        lemma_find_name(s.drop_last(), k);
        let p = find_name(s.drop_last(), k);
        assert(forall|i: int| 0 <= i < s.len() - 1 ==> s[i] == #[trigger] s.drop_last()[i]);
        if p >= 0 {
            assert(s[p] == s.drop_last()[p]);
        }
        if find_name(s, k) < 0 {
            assert forall|i: int| 0 <= i < s.len() implies s[i] != k by {
                if i < s.len() - 1 {
                    assert(s.drop_last()[i] != k);
                    assert(s.drop_last()[i] == s[i]);
                }
            }
        }
        if distinct_names(s) {
            assert(distinct_names(s.drop_last()));
            assert forall|i: int| 0 <= i < s.len() && s[i] == k implies find_name(s, k) == i by {
                if i < s.len() - 1 {
                    assert(s.drop_last()[i] == k);
                }
            }
        }
    }
}

/// The populated slots among the first `n`, as (name, value) pairs in
/// configured order.
pub open spec fn extract_entries(names: Seq<Seq<char>>, slots: Seq<Option<Jv>>, n: int) -> Seq<(Seq<char>, Jv)>
    decreases n,
{
    if n <= 0 {
        Seq::<(Seq<char>, Jv)>::empty()
    } else {
        extract_entries(names, slots, n - 1) + (match slots[n - 1] {
            Option::Some(v) => seq![(names[n - 1], v)],
            Option::None => Seq::<(Seq<char>, Jv)>::empty(),
        })
    }
}

/// Latest values of the configured extract keys, gathered while the span
/// scope is walked. The name set itself lives in the logging layer; one
/// buffer is made per event.
pub struct ExtractedSpanFields<'a> {
    pub names: &'a indexmap::IndexSet<String>,
    pub values: Vec<Option<JsonValue>>,
    pub touched: bool,
}

impl<'a> ExtractedSpanFields<'a> {
    /// The configured key names, in order.
    pub open spec fn names_view(self) -> Seq<Seq<char>> {
        crate::ext::index_set_elems(*self.names)
    }

    /// The slot contents, one per configured name.
    pub open spec fn slots_view(self) -> Seq<Option<Jv>> {
        Seq::new(self.values@.len(), |i: int| match self.values@[i] {
            Option::Some(v) => Option::Some(sv(v)),
            Option::None => Option::None,
        })
    }

    pub open spec fn wf(self) -> bool {
        self.values@.len() == self.names_view().len() && distinct_names(self.names_view())
    }

    /// An empty buffer over the given key names.
    pub fn new(names: &'a indexmap::IndexSet<String>) -> (r: ExtractedSpanFields<'a>)
        requires
            distinct_names(crate::ext::index_set_elems(*names)),
        ensures
            r.wf(),
            r.names_view() == crate::ext::index_set_elems(*names),
            r.slots_view() =~= Seq::new(r.names_view().len(), |i: int| Option::<Jv>::None),
            !r.touched,
    {
        let n: usize = index_set_len(names);
        let mut values: Vec<Option<JsonValue>> = Vec::new();
        while values.len() < n
            invariant
                values@.len() <= n,
                forall|i: int| 0 <= i < values@.len() ==> values@[i] is None,
            decreases n - values@.len(),
        {
            values.push(Option::None);
        }
        ExtractedSpanFields { names, values, touched: false }
    }

    /// Store `value` under `name` when `name` is a configured key; the
    /// buffer is then marked touched. Any earlier value is overwritten.
    pub fn set(&mut self, name: &str, value: JsonValue)
        requires
            old(self).wf(),
        ensures
            final(self).wf(),
            final(self).names_view() == old(self).names_view(),
            ({
                let j = find_name(old(self).names_view(), name@);
                if j >= 0 {
                    final(self).slots_view() == old(self).slots_view().update(j, Option::Some(sv(value)))
                        && final(self).touched
                } else {
                    final(self).slots_view() == old(self).slots_view() && final(self).touched == old(self).touched
                }
            }),
    {
        proof {
            lemma_find_name(self.names_view(), name@);
        }
        match index_set_lookup(&self.names, name) {
            Option::Some(i) => {
                self.values[i] = Option::Some(value);
                self.touched = true;
                proof {
                    assert(final(self).slots_view() =~= old(self).slots_view().update(
                        find_name(old(self).names_view(), name@),
                        Option::Some(sv(value)),
                    ));
                }
            },
            Option::None => {
                proof {
                    assert(final(self).slots_view() =~= old(self).slots_view());
                }
            },
        }
    }

    /// Whether any slot was written.
    pub fn has_values(&self) -> (r: bool)
        ensures
            r == self.touched,
    {
        self.touched
    }

    /// The populated slots as (name, value) pairs, in configured order.
    pub fn entries(&self) -> (r: Vec<(String, JsonValue)>)
        requires
            self.wf(),
        ensures
            crate::json::obj_view(r@) == extract_entries(self.names_view(), self.slots_view(), self.names_view().len() as int),
    {
        let n: usize = index_set_len(&self.names);
        let mut out: Vec<(String, JsonValue)> = Vec::new();
        let mut i: usize = 0;
        proof {
            assert(crate::json::obj_view(out@) =~= extract_entries(self.names_view(), self.slots_view(), 0));
        }
        while i < n
            invariant
                i <= n,
                self.wf(),
                n == self.names_view().len(),
                crate::json::obj_view(out@) == extract_entries(self.names_view(), self.slots_view(), i as int),
            decreases n - i,
        {
            match &self.values[i] {
                Option::Some(v) => {
                    let name: String = index_set_get(&self.names, i);
                    out.push((name, jclone(v)));
                },
                Option::None => {},
            }
            proof {
                assert(crate::json::obj_view(out@) =~= extract_entries(self.names_view(), self.slots_view(), i + 1));
            }
            i = i + 1;
        }
        out
    }
}

} // verus!
