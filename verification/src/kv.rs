//! A model of the compare-and-swap key-value store the allocator runs
//! against.
//!
//! The store is the only state shared between concurrent plugin
//! invocations; every cross-process guarantee the allocator gives rests
//! on the two conditional operations modelled here: create-if-absent
//! (`cas=0`) and delete-at-index (`delete-cas`). The store serializes
//! concurrent operations, so any race is some interleaving of these
//! steps.

use vstd::prelude::*;

verus! {

/// One stored entry: its value and the index it was last modified at.
pub ghost struct KvEntry {
    pub value: Seq<char>,
    pub modify_index: nat,
}

/// The store: a finite map from keys to entries.
pub ghost struct KvState {
    pub entries: Map<Seq<char>, KvEntry>,
}

impl KvState {
    /// The store's entries form a finite map.
    pub open spec fn wf(self) -> bool {
        self.entries.dom().finite()
    }

    /// A conditional create: succeeds exactly when the key is absent.
    pub open spec fn put_cas0(self, key: Seq<char>, value: Seq<char>, index: nat) -> (KvState, bool) {
        if self.entries.contains_key(key) {
            (self, false)
        } else {
            (
                KvState {
                    entries: self.entries.insert(key, KvEntry { value, modify_index: index }),
                },
                true,
            )
        }
    }

    /// A conditional delete: succeeds exactly when the key is present at
    /// the given index.
    pub open spec fn delete_cas(self, key: Seq<char>, index: nat) -> (KvState, bool) {
        if self.entries.contains_key(key) && self.entries[key].modify_index == index {
            (KvState { entries: self.entries.remove(key) }, true)
        } else {
            (self, false)
        }
    }
}

/// Two creates racing for the same key: whatever the interleaving, at
/// most one succeeds, and the number of stored keys grows by exactly the
/// number of successes. Creates for distinct keys never disturb one
/// another.
pub proof fn lemma_cas_race(
    s0: KvState,
    k1: Seq<char>,
    v1: Seq<char>,
    i1: nat,
    k2: Seq<char>,
    v2: Seq<char>,
    i2: nat,
)
    requires
        s0.wf(),
    ensures
        ({
            let (s1, ok1) = s0.put_cas0(k1, v1, i1);
            let (s2, ok2) = s1.put_cas0(k2, v2, i2);
            &&& (k1 == k2 ==> !(ok1 && ok2))
            &&& (k1 == k2 && !s0.entries.contains_key(k1) ==> ok1 && !ok2)
            &&& s2.entries.dom().len() == s0.entries.dom().len() + (if ok1 {
                1int
            } else {
                0int
            }) + (if ok2 {
                1int
            } else {
                0int
            })
            &&& (k1 != k2 && !s0.entries.contains_key(k2) ==> ok2)
            &&& s2.wf()
        }),
{
    let (s1, ok1) = s0.put_cas0(k1, v1, i1);
    let (s2, ok2) = s1.put_cas0(k2, v2, i2);
    if ok1 {
        vstd::set::axiom_set_insert_len(s0.entries.dom(), k1);
        assert(s1.entries.dom() =~= s0.entries.dom().insert(k1));
    }
    if ok2 {
        vstd::set::axiom_set_insert_len(s1.entries.dom(), k2);
        assert(s2.entries.dom() =~= s1.entries.dom().insert(k2));
    }
}

/// A batch of conditional deletes, applied in order.
pub open spec fn apply_deletes(s: KvState, plan: Seq<(Seq<char>, nat)>) -> KvState
    decreases plan.len(),
{
    if plan.len() == 0 {
        s
    } else {
        apply_deletes(s.delete_cas(plan[0].0, plan[0].1).0, plan.drop_first())
    }
}

/// Deletes never add entries: what survives a batch was already stored,
/// unchanged.
pub proof fn lemma_deletes_shrink(s: KvState, plan: Seq<(Seq<char>, nat)>)
    ensures
        forall|k: Seq<char>| #[trigger] apply_deletes(s, plan).entries.contains_key(k)
            ==> s.entries.contains_key(k) && apply_deletes(s, plan).entries[k] == s.entries[k],
    decreases plan.len(),
{
    if plan.len() > 0 {
        let s1 = s.delete_cas(plan[0].0, plan[0].1).0;
        lemma_deletes_shrink(s1, plan.drop_first());
        assert(apply_deletes(s, plan) == apply_deletes(s1, plan.drop_first()));
        assert forall|k: Seq<char>| #[trigger] apply_deletes(s, plan).entries.contains_key(k)
            implies s.entries.contains_key(k) && apply_deletes(s, plan).entries[k]
            == s.entries[k] by {
            assert(apply_deletes(s1, plan.drop_first()).entries.contains_key(k));
            assert(s1.entries.contains_key(k));
        }
    }
}

/// A release is complete: if the batch holds a delete for every key the
/// predicate selects, at the index that key is stored at, then no
/// selected key survives the batch. Deletes of other keys, or at stale
/// indexes, fall away harmlessly.
pub proof fn lemma_deletes_release(
    s: KvState,
    plan: Seq<(Seq<char>, nat)>,
    sel: Set<Seq<char>>,
)
    requires
        forall|k: Seq<char>| sel.contains(k) && #[trigger] s.entries.contains_key(k)
            ==> plan.contains((k, s.entries[k].modify_index)),
    ensures
        forall|k: Seq<char>| sel.contains(k) ==> !(#[trigger] apply_deletes(
            s,
            plan,
        ).entries.contains_key(k)),
    decreases plan.len(),
{
    lemma_deletes_shrink(s, plan);
    if plan.len() == 0 {
        assert forall|k: Seq<char>| sel.contains(k) implies !(#[trigger] apply_deletes(
            s,
            plan,
        ).entries.contains_key(k)) by {
            if s.entries.contains_key(k) {
                assert(plan.contains((k, s.entries[k].modify_index)));
            }
        }
    } else {
        let first = plan[0];
        let s1 = s.delete_cas(first.0, first.1).0;
        assert forall|k: Seq<char>| sel.contains(k) && #[trigger] s1.entries.contains_key(k)
            implies plan.drop_first().contains((k, s1.entries[k].modify_index)) by {
            assert(s.entries.contains_key(k));
            assert(s1.entries[k] == s.entries[k]);
            assert(plan.contains((k, s.entries[k].modify_index)));
            let i = choose|i: int| 0 <= i < plan.len() && plan[i] == (
                k,
                s.entries[k].modify_index,
            );
            if i == 0 {
                assert(first.0 == k && first.1 == s.entries[k].modify_index);
                assert(!s1.entries.contains_key(k));
            } else {
                assert(plan.drop_first()[i - 1] == plan[i]);
            }
        }
        lemma_deletes_release(s1, plan.drop_first(), sel);
        assert(apply_deletes(s, plan) == apply_deletes(s1, plan.drop_first()));
        assert forall|k: Seq<char>| sel.contains(k) implies !(#[trigger] apply_deletes(
            s,
            plan,
        ).entries.contains_key(k)) by {
            assert(!apply_deletes(s1, plan.drop_first()).entries.contains_key(k));
        }
    }
}

} // verus!
