//! Call-site registration: a 64-bit skip mask marking event fields that a
//! later field of the same name shadows (last one wins), and a registry that
//! assigns each call site a small numeric id, used to keep span keys unique
//! in the output. Masks are computed once per call site, not per event.

use vstd::prelude::*;
use crate::ext::{str_eq, mask_map_new, mask_map_get, mask_map_insert, id_map_new, id_map_get, id_map_insert};

verus! {

/// Whether bit `i` of `mask` is set.
pub open spec fn has_bit(mask: u64, i: u64) -> bool {
    (mask >> i) & 1 == 1
}

/// Whether a field index is marked as skipped by a mask. Indices past the
/// mask width are never skipped (a call site with more fields than the mask
/// width is refused at registration and emits no events).
pub open spec fn field_skipped(mask: u64, i: int) -> bool {
    0 <= i < 64 && has_bit(mask, i as u64)
}

/// The character sequences of a list of field names.
pub open spec fn name_views(names: Seq<String>) -> Seq<Seq<char>> {
    Seq::new(names.len(), |i: int| names[i]@)
}

/// Whether field `i` is shadowed by a later field of the same name.
pub open spec fn shadowed(names: Seq<Seq<char>>, i: int) -> bool {
    exists|j: int| i < j < names.len() && names[j] == names[i]
}

/// The defining property of a skip mask: bit `i` is set exactly when field
/// `i` is shadowed; bits past the field count are clear.
pub open spec fn mask_ok(mask: u64, names: Seq<Seq<char>>) -> bool {
    forall|b: u64| b < 64 ==> (#[trigger] has_bit(mask, b) <==> (b < names.len() && shadowed(names, b as int)))
}

/// The set of field indices a call site skips, as a 64-bit bitmap.
#[derive(Clone, Copy, Debug, PartialEq, Eq, Structural)]
pub struct SkippedFieldIndices {
    pub bits: u64,
}

impl SkippedFieldIndices {
    pub fn empty() -> (r: SkippedFieldIndices)
        ensures
            r.bits == 0,
    {
        SkippedFieldIndices { bits: 0 }
    }

    pub fn is_empty(&self) -> (r: bool)
        ensures
            r == (self.bits == 0),
    {
        self.bits == 0
    }

    /// Mark field `index` as skipped.
    pub fn push(&mut self, index: usize)
        requires
            index < 64,
        ensures
            forall|b: u64| b < 64 ==> (#[trigger] has_bit(final(self).bits, b) <==> (b == index as u64 || has_bit(old(self).bits, b))),
    {
        let ghost oldbits: u64 = self.bits;
        self.bits = self.bits | (1u64 << (index as u64));
        proof {
            let iu = index as u64;
            assert forall|b: u64| b < 64 implies
                (#[trigger] has_bit(self.bits, b) <==> (b == iu || has_bit(oldbits, b))) by {
                assert((((oldbits | (1u64 << iu)) >> b) & 1) == (if b == iu { 1u64 } else { (oldbits >> b) & 1 })) by (bit_vector)
                    requires
                        iu < 64,
                        b < 64,
                ;
            }
        }
    }

    /// Whether field `index` is skipped.
    pub fn contains(&self, index: usize) -> (r: bool)
        ensures
            r == field_skipped(self.bits, index as int),
    {
        if index >= 64 {
            false
        } else {
            (self.bits >> (index as u64)) & 1 == 1
        }
    }
}

/// Compute the skip mask for a call site's declared field names: the last
/// occurrence of a repeated name wins, every earlier occurrence is skipped.
/// A call site with more fields than the mask width gets no mask.
pub fn compute_skip_mask(names: &Vec<String>) -> (r: Option<SkippedFieldIndices>)
    ensures
        (r is None) <==> names@.len() > 64,
        r matches Option::Some(s) ==> mask_ok(s.bits, name_views(names@)),
{
    let n: usize = names.len();
    if n > 64 {
        return Option::None;
    }
    let ghost views: Seq<Seq<char>> = name_views(names@);
    let mut mask: u64 = 0;
    let mut i: usize = 0;
    proof {
        assert forall|b: u64| b < 64 implies !has_bit(0u64, b) by {
            assert(((0u64 >> b) & 1) != 1) by (bit_vector);
        }
    }
    while i < n
        invariant
            i <= n <= 64,
            n == names@.len(),
            views == name_views(names@),
            forall|b: u64| b < 64 ==> (#[trigger] has_bit(mask, b) <==> (b < i && shadowed(views, b as int))),
        decreases n - i,
    {
        let mut dup: bool = false;
        let mut j: usize = i + 1;
        while j < n
            invariant
                i < j <= n || (j == i + 1 && j >= n),
                i < n,
                n == names@.len(),
                views == name_views(names@),
                dup <==> (exists|jj: int| i < jj < j && views[jj] == views[i as int]),
            decreases n - j,
        {
            if str_eq(names[i].as_str(), names[j].as_str()) {
                dup = true;
                assert(views[j as int] == views[i as int]);
            }
            j = j + 1;
        }
        assert(dup <==> shadowed(views, i as int));
        let ghost oldmask: u64 = mask;
        if dup {
            mask = mask | (1u64 << (i as u64));
            proof {
                let iu = i as u64;
                assert forall|b: u64| b < 64 implies
                    (has_bit(mask, b) <==> (b == iu || has_bit(oldmask, b))) by {
                    assert((((oldmask | (1u64 << iu)) >> b) & 1) == (if b == iu { 1u64 } else { (oldmask >> b) & 1 })) by (bit_vector)
                        requires
                            iu < 64,
                            b < 64,
                    ;
                }
            }
        }
        i = i + 1;
    }
    Option::Some(SkippedFieldIndices { bits: mask })
}

/// How the id map changes when one call site asks for an id: an existing
/// binding is returned unchanged; a fresh call site gets the next id while
/// ids remain; once the counter is exhausted, the sentinel 0 is returned
/// and nothing is stored.
pub open spec fn id_assign(pre: CallsiteRegistry, post: CallsiteRegistry, cs: u64, id: u32) -> bool {
    if pre.ids_view().dom().contains(cs) {
        id == pre.ids_view()[cs] && post.ids_view() == pre.ids_view() && post.next_id == pre.next_id
    } else if pre.next_id < 0xffff_ffffu32 {
        id == pre.next_id && post.ids_view() == pre.ids_view().insert(cs, id)
            && post.next_id == pre.next_id + 1
    } else {
        id == 0 && post.ids_view() == pre.ids_view() && post.next_id == pre.next_id
    }
}

/// What registering one call site does to the registry: every registered
/// call site is assigned an id; an event call site also stores its skip
/// mask when any field is shadowed; an event call site with more fields
/// than the mask width is refused whole — no mask, no id, not interesting.
pub open spec fn register_effect(pre: CallsiteRegistry, post: CallsiteRegistry, cs: u64, is_event: bool, names: Seq<String>, interest: bool) -> bool {
    &&& (!is_event ==> {
        &&& interest
        &&& post.masks_view() == pre.masks_view()
        &&& exists|id: u32| id_assign(pre, post, cs, id)
    })
    &&& (is_event ==> {
        &&& (interest <==> names.len() <= 64)
        &&& (names.len() > 64 ==> {
            &&& post.masks_view() == pre.masks_view()
            &&& post.ids_view() == pre.ids_view()
            &&& post.next_id == pre.next_id
        })
        &&& (names.len() <= 64 ==> {
            &&& exists|id: u32| id_assign(pre, post, cs, id)
            &&& ({
                ||| exists|m: u64|
                    #![trigger mask_ok(m, name_views(names))]
                    mask_ok(m, name_views(names)) && m != 0
                        && post.masks_view() == pre.masks_view().insert(cs, m)
                ||| mask_ok(0, name_views(names))
                        && post.masks_view() == pre.masks_view()
            })
        })
    })
}

/// Process-wide state per call site: skip masks for event call sites, and
/// numeric ids handed out from a counter that starts at 1 (0 is the
/// sentinel for an unknown call site).
pub struct CallsiteRegistry {
    pub masks: papaya::HashMap<u64, u64>,
    pub ids: papaya::HashMap<u64, u32>,
    pub next_id: u32,
}

impl CallsiteRegistry {
    pub open spec fn masks_view(self) -> Map<u64, u64> {
        crate::ext::mask_map_view(self.masks)
    }

    pub open spec fn ids_view(self) -> Map<u64, u32> {
        crate::ext::id_map_view(self.ids)
    }

    /// Ids are assigned once each, from 1 upward: every stored id is below
    /// the counter and no two call sites share one.
    pub open spec fn wf(self) -> bool {
        &&& 1 <= self.next_id
        &&& forall|k: u64| self.ids_view().dom().contains(k) ==> 1 <= #[trigger] self.ids_view()[k] < self.next_id
        &&& forall|k1: u64, k2: u64|
            self.ids_view().dom().contains(k1) && self.ids_view().dom().contains(k2) && k1 != k2
                ==> self.ids_view()[k1] != self.ids_view()[k2]
    }

    pub fn new() -> (r: CallsiteRegistry)
        ensures
            r.wf(),
            r.masks_view() == Map::<u64, u64>::empty(),
            r.ids_view() == Map::<u64, u32>::empty(),
            r.next_id == 1,
    {
        CallsiteRegistry { masks: mask_map_new(), ids: id_map_new(), next_id: 1 }
    }

    /// The id of a call site, assigning the next one on first use.
    pub fn callsite_id(&mut self, cs: u64) -> (id: u32)
        requires
            old(self).wf(),
        ensures
            final(self).wf(),
            final(self).masks_view() == old(self).masks_view(),
            id_assign(*old(self), *final(self), cs, id),
    {
        match id_map_get(&self.ids, cs) {
            Option::Some(id) => id,
            Option::None => {
                if self.next_id < 0xffff_ffffu32 {
                    let id: u32 = self.next_id;
                    id_map_insert(&mut self.ids, cs, id);
                    self.next_id = self.next_id + 1;
                    proof {
                        let pre = *old(self);
                        assert(self.ids_view() == pre.ids_view().insert(cs, id));
                        assert forall|k: u64| self.ids_view().dom().contains(k) implies
                            1 <= #[trigger] self.ids_view()[k] < self.next_id by {
                            if k != cs {
                                assert(pre.ids_view().dom().contains(k));
                            }
                        }
                        assert forall|k1: u64, k2: u64|
                            self.ids_view().dom().contains(k1) && self.ids_view().dom().contains(k2) && k1 != k2
                                implies self.ids_view()[k1] != self.ids_view()[k2] by {
                            if k1 == cs {
                                assert(pre.ids_view().dom().contains(k2));
                                assert(self.ids_view()[k2] == pre.ids_view()[k2]);
                            } else if k2 == cs {
                                assert(pre.ids_view().dom().contains(k1));
                                assert(self.ids_view()[k1] == pre.ids_view()[k1]);
                            } else {
                                assert(pre.ids_view().dom().contains(k1));
                                assert(pre.ids_view().dom().contains(k2));
                            }
                        }
                    }
                    id
                } else {
                    0
                }
            },
        }
    }

    /// The id already assigned to a call site, or the sentinel 0.
    pub fn span_id(&self, cs: u64) -> (id: u32)
        ensures
            id == (if self.ids_view().dom().contains(cs) { self.ids_view()[cs] } else { 0u32 }),
    {
        match id_map_get(&self.ids, cs) {
            Option::Some(id) => id,
            Option::None => 0,
        }
    }

    /// The skip mask stored for a call site, or 0 when none was stored.
    pub fn skip_mask(&self, cs: u64) -> (mask: u64)
        ensures
            mask == (if self.masks_view().dom().contains(cs) { self.masks_view()[cs] } else { 0u64 }),
    {
        match mask_map_get(&self.masks, cs) {
            Option::Some(m) => m,
            Option::None => 0,
        }
    }

    /// Register one call site. Every call site gets an id; an event call
    /// site also gets a skip mask when it repeats a field name. An event
    /// call site that declares more fields than the mask width is refused
    /// (not interesting), so its events are skipped.
    pub fn register_callsite(&mut self, cs: u64, is_event: bool, field_names: &Vec<String>) -> (interest: bool)
        requires
            old(self).wf(),
        ensures
            final(self).wf(),
            register_effect(*old(self), *final(self), cs, is_event, field_names@, interest),
    {
        if !is_event {
            let id = self.callsite_id(cs);
            return true;
        }
        match compute_skip_mask(field_names) {
            Option::None => {
                proof {
                    assert forall|k: u64| self.ids_view().dom().contains(k) implies
                        1 <= #[trigger] self.ids_view()[k] < self.next_id by {
                        assert(old(self).ids_view().dom().contains(k));
                        assert(1 <= old(self).ids_view()[k] < old(self).next_id);
                    }
                    assert forall|k1: u64, k2: u64|
                        self.ids_view().dom().contains(k1) && self.ids_view().dom().contains(k2) && k1 != k2
                            implies self.ids_view()[k1] != self.ids_view()[k2] by {
                        assert(old(self).ids_view().dom().contains(k1));
                        assert(old(self).ids_view().dom().contains(k2));
                        assert(old(self).ids_view()[k1] != old(self).ids_view()[k2]);
                    }
                }
                false
            },
            Option::Some(indices) => {
                if !indices.is_empty() {
                    mask_map_insert(&mut self.masks, cs, indices.bits);
                }
                proof {
                    // The mask write leaves the id side untouched, so the
                    // registry is still well formed for the id assignment.
                    assert forall|k: u64| self.ids_view().dom().contains(k) implies
                        1 <= #[trigger] self.ids_view()[k] < self.next_id by {
                        assert(old(self).ids_view().dom().contains(k));
                        assert(1 <= old(self).ids_view()[k] < old(self).next_id);
                    }
                    assert forall|k1: u64, k2: u64|
                        self.ids_view().dom().contains(k1) && self.ids_view().dom().contains(k2) && k1 != k2
                            implies self.ids_view()[k1] != self.ids_view()[k2] by {
                        assert(old(self).ids_view().dom().contains(k1));
                        assert(old(self).ids_view().dom().contains(k2));
                        assert(old(self).ids_view()[k1] != old(self).ids_view()[k2]);
                    }
                }
                let ghost mid: CallsiteRegistry = *self;
                let id: u32 = self.callsite_id(cs);
                proof {
                    assert(mid.ids_view() == old(self).ids_view());
                    assert(mid.next_id == old(self).next_id);
                    assert(id_assign(*old(self), *self, cs, id));
                }
                true
            },
        }
    }
}

} // verus!
