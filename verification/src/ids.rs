//! Identifier allocation: the smallest number that is not taken.

use std::collections::HashSet;
use vstd::prelude::*;
use vstd::seq_lib::seq_to_set_is_finite;
use vstd::set_lib::{lemma_int_range, lemma_len_subset, lemma_map_size_bound, set_int_range};

verus! {

broadcast use vstd::std_specs::hash::group_hash_axioms;

/// Whether `id` is free in `used` while every smaller number is taken.
pub open spec fn is_smallest_unused(used: Set<u32>, id: u32) -> bool {
    &&& !used.contains(id)
    &&& forall|smaller: u32| smaller < id ==> used.contains(smaller)
}

/// Whether `used` leaves no number free.
pub open spec fn exhausted(used: Set<u32>) -> bool {
    forall|id: u32| used.contains(id)
}

/// At most one number is the smallest unused one.
pub proof fn lemma_smallest_unused_unique(used: Set<u32>, a: u32, b: u32)
    requires
        is_smallest_unused(used, a),
        is_smallest_unused(used, b),
    ensures
        a == b,
{
    if a < b {
        assert(used.contains(a));
    } else if b < a {
        assert(used.contains(b));
    }
}

/// Fewer identifiers than `u32` has values leave one free.
pub proof fn lemma_room_left(taken: Seq<u32>)
    requires
        taken.len() <= u32::MAX,
    ensures
        !exhausted(taken.to_set()),
{
    if exhausted(taken.to_set()) {
        let used = taken.to_set();
        let value = |id: u32| id as int;
        let values = used.map(value);
        let all = set_int_range(0, 0x1_0000_0000);
        seq_to_set_is_finite(taken);
        taken.lemma_cardinality_of_set();
        lemma_map_size_bound(used, values, value);
        lemma_int_range(0, 0x1_0000_0000);
        assert forall|i: int| all.contains(i) implies values.contains(i) by {
            assert(used.contains(i as u32));
            assert(value(i as u32) == i);
        }
        lemma_len_subset(all, values);
    }
}

/// The smallest identifier that `taken` does not hold; `None` only when it
/// holds every one, which takes more identifiers than `u32::MAX`.
pub fn smallest_unused(taken: &Vec<u32>) -> (r: Option<u32>)
    ensures
        r matches Some(id) ==> is_smallest_unused(taken@.to_set(), id),
        r is None <==> exhausted(taken@.to_set()),
        taken@.len() <= u32::MAX ==> r is Some,
{
    proof {
        if taken@.len() <= u32::MAX {
            lemma_room_left(taken@);
        }
    }
    let mut seen: HashSet<u32> = HashSet::new();
    let mut k: usize = 0;
    while k < taken.len()
        invariant
            k <= taken.len(),
            seen@ =~= taken@.take(k as int).to_set(),
        decreases taken.len() - k,
    {
        seen.insert(taken[k]);
        assert(taken@.take(k + 1) =~= taken@.take(k as int).push(taken@[k as int]));
        assert(taken@.take(k + 1).to_set() =~= taken@.take(k as int).to_set().insert(
            taken@[k as int],
        )) by {
            let shorter = taken@.take(k as int);
            let longer = shorter.push(taken@[k as int]);
            assert forall|v: u32| longer.to_set().contains(v) <==> shorter.to_set().insert(
                taken@[k as int],
            ).contains(v) by {
                if longer.contains(v) {
                    let j = choose|j: int| 0 <= j < longer.len() && longer[j] == v;
                    if j < shorter.len() {
                        assert(shorter[j] == v);
                    }
                }
                if shorter.contains(v) {
                    let j = choose|j: int| 0 <= j < shorter.len() && shorter[j] == v;
                    assert(longer[j] == v);
                }
                if v == taken@[k as int] {
                    assert(longer[shorter.len() as int] == v);
                }
            }
        }
        k = k + 1;
    }
    assert(taken@.take(k as int) =~= taken@);
    let mut id: u32 = 0;
    while seen.contains(&id)
        invariant
            seen@ == taken@.to_set(),
            taken@.len() <= u32::MAX ==> !exhausted(taken@.to_set()),
            forall|smaller: u32| smaller < id ==> seen@.contains(smaller),
        decreases u32::MAX - id,
    {
        if id == u32::MAX {
            return None;
        }
        id = id + 1;
    }
    Some(id)
}

} // verus!
