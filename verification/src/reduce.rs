//! Reduction of a list of placements to one representative for each key,
//! the first in the list.

use crate::placements::BlPlacement;
use vstd::prelude::*;

verus! {

/// Whether some element of `s` has the key `k`.
pub open spec fn has_key<A, K>(s: Seq<A>, key: spec_fn(A) -> K, k: K) -> bool {
    exists|j: int| 0 <= j < s.len() && #[trigger] key(s[j]) == k
}

/// Whether no two elements of `s` have the same key.
pub open spec fn distinct_keys<A, K>(s: Seq<A>, key: spec_fn(A) -> K) -> bool {
    forall|i: int, j: int| 0 <= i < j < s.len() ==> #[trigger] key(s[i]) != #[trigger] key(s[j])
}

/// The elements of `s` whose key no earlier element has, in the order of
/// `s`.
pub open spec fn first_by_key<A, K>(s: Seq<A>, key: spec_fn(A) -> K) -> Seq<A>
    decreases s.len(),
{
    if s.len() == 0 {
        Seq::empty()
    } else {
        let r = first_by_key(s.drop_last(), key);
        if has_key(r, key, key(s.last())) {
            r
        } else {
            r.push(s.last())
        }
    }
}

/// The key that tells placements apart by piece and position.
pub open spec fn placement_key() -> spec_fn(BlPlacement) -> BlPlacement {
    |p: BlPlacement| p
}

/// The key that tells placements apart by the cells they cover.
pub open spec fn footprint_key() -> spec_fn(BlPlacement) -> Set<(int, int)> {
    |p: BlPlacement| p.footprint()
}

/// The reduction keeps elements of the list, one for each key that occurs
/// in it, and is no longer than the list.
pub proof fn lemma_first_by_key<A, K>(s: Seq<A>, key: spec_fn(A) -> K)
    ensures
        first_by_key(s, key).len() <= s.len(),
        distinct_keys(first_by_key(s, key), key),
        forall|j: int|
            0 <= j < first_by_key(s, key).len() ==> s.contains(#[trigger] first_by_key(s, key)[j]),
        forall|i: int| 0 <= i < s.len() ==> has_key(first_by_key(s, key), key, #[trigger] key(s[i])),
    decreases s.len(),
{
    if s.len() > 0 {
        let t = s.drop_last();
        let r = first_by_key(t, key);
        let out = first_by_key(s, key);
        lemma_first_by_key(t, key);
        assert forall|j: int| 0 <= j < out.len() implies s.contains(#[trigger] out[j]) by {
            if j < r.len() {
                assert(t.contains(r[j]));
                let i = choose|i: int| 0 <= i < t.len() && t[i] == r[j];
                assert(s[i] == out[j]);
            } else {
                assert(s[s.len() - 1] == out[j]);
            }
        }
        assert forall|i: int| 0 <= i < s.len() implies has_key(out, key, #[trigger] key(s[i])) by {
            if i < t.len() {
                assert(has_key(r, key, key(t[i])));
                let j = choose|j: int| 0 <= j < r.len() && #[trigger] key(r[j]) == key(t[i]);
                assert(key(out[j]) == key(s[i]));
            } else if has_key(r, key, key(s.last())) {
                let j = choose|j: int| 0 <= j < r.len() && #[trigger] key(r[j]) == key(s.last());
                assert(key(out[j]) == key(s[i]));
            } else {
                assert(key(out[r.len() as int]) == key(s[i]));
            }
        }
        assert forall|i: int, j: int| 0 <= i < j < out.len() implies #[trigger] key(out[i])
            != #[trigger] key(out[j]) by {
            if j < r.len() {
                assert(key(r[i]) != key(r[j]));
            } else {
                assert(key(r[i]) != key(s.last()));
            }
        }
    }
}

/// Each element the reduction keeps is the first of the list with its key.
pub proof fn lemma_first_by_key_is_first<A, K>(s: Seq<A>, key: spec_fn(A) -> K, j: int)
    requires
        0 <= j < first_by_key(s, key).len(),
    ensures
        exists|i: int|
            0 <= i < s.len() && #[trigger] s[i] == first_by_key(s, key)[j] && forall|h: int|
                0 <= h < i ==> #[trigger] key(s[h]) != key(s[i]),
    decreases s.len(),
{
    let t = s.drop_last();
    let r = first_by_key(t, key);
    let out = first_by_key(s, key);
    if j < r.len() {
        lemma_first_by_key_is_first(t, key, j);
        let i = choose|i: int|
            0 <= i < t.len() && #[trigger] t[i] == r[j] && forall|h: int|
                0 <= h < i ==> #[trigger] key(t[h]) != key(t[i]);
        assert(s[i] == out[j]);
        assert forall|h: int| 0 <= h < i implies #[trigger] key(s[h]) != key(s[i]) by {
            assert(key(t[h]) != key(t[i]));
        }
    } else {
        let i = s.len() - 1;
        lemma_first_by_key(t, key);
        assert(s[i] == out[j]);
        assert forall|h: int| 0 <= h < i implies #[trigger] key(s[h]) != key(s[i]) by {
            assert(has_key(r, key, key(t[h])));
        }
    }
}

/// A list in which no two elements have the same key is its own reduction.
pub proof fn lemma_first_by_key_fixed<A, K>(s: Seq<A>, key: spec_fn(A) -> K)
    requires
        distinct_keys(s, key),
    ensures
        first_by_key(s, key) == s,
    decreases s.len(),
{
    if s.len() > 0 {
        let t = s.drop_last();
        assert forall|i: int, j: int| 0 <= i < j < t.len() implies #[trigger] key(t[i])
            != #[trigger] key(t[j]) by {
            assert(key(s[i]) != key(s[j]));
        }
        lemma_first_by_key_fixed(t, key);
        if has_key(t, key, key(s.last())) {
            let j = choose|j: int| 0 <= j < t.len() && #[trigger] key(t[j]) == key(s.last());
            assert(key(s[j]) != key(s[s.len() - 1]));
        }
        assert(t.push(s.last()) =~= s);
    } else {
        assert(first_by_key(s, key) =~= s);
    }
}

/// Reducing a reduced list changes nothing.
pub proof fn lemma_first_by_key_idempotent<A, K>(s: Seq<A>, key: spec_fn(A) -> K)
    ensures
        first_by_key(first_by_key(s, key), key) == first_by_key(s, key),
{
    lemma_first_by_key(s, key);
    lemma_first_by_key_fixed(first_by_key(s, key), key);
}

/// The reduction is as long as the list exactly when no two elements of the
/// list have the same key.
pub proof fn lemma_first_by_key_len<A, K>(s: Seq<A>, key: spec_fn(A) -> K)
    ensures
        first_by_key(s, key).len() == s.len() <==> distinct_keys(s, key),
    decreases s.len(),
{
    if distinct_keys(s, key) {
        lemma_first_by_key_fixed(s, key);
    }
    if s.len() > 0 && first_by_key(s, key).len() == s.len() {
        let t = s.drop_last();
        let r = first_by_key(t, key);
        lemma_first_by_key(t, key);
        lemma_first_by_key_len(t, key);
        lemma_first_by_key_fixed(t, key);
        assert forall|i: int, j: int| 0 <= i < j < s.len() implies #[trigger] key(s[i])
            != #[trigger] key(s[j]) by {
            if j < t.len() {
                assert(key(t[i]) != key(t[j]));
            } else {
                assert(key(t[i]) == key(s[i]));
            }
        }
    }
}

fn holds_placement(kept: &Vec<BlPlacement>, p: BlPlacement) -> (r: bool)
    ensures
        r == has_key(kept@, placement_key(), p),
{
    let mut j: usize = 0;
    while j < kept.len()
        invariant
            j <= kept@.len(),
            forall|h: int| 0 <= h < j ==> #[trigger] placement_key()(kept@[h]) != p,
        decreases kept@.len() - j,
    {
        if kept[j] == p {
            assert(placement_key()(kept@[j as int]) == p);
            return true;
        }
        j = j + 1;
    }
    false
}

fn holds_footprint(kept: &Vec<BlPlacement>, p: BlPlacement) -> (r: bool)
    ensures
        r == has_key(kept@, footprint_key(), p.footprint()),
{
    let mut j: usize = 0;
    while j < kept.len()
        invariant
            j <= kept@.len(),
            forall|h: int| 0 <= h < j ==> #[trigger] footprint_key()(kept@[h]) != p.footprint(),
        decreases kept@.len() - j,
    {
        if kept[j].same_footprint(&p) {
            assert(footprint_key()(kept@[j as int]) == p.footprint());
            return true;
        }
        j = j + 1;
    }
    false
}

/// The placements of `list` without repetitions: of equal placements the
/// first stays.
pub fn distinct_placements(list: &Vec<BlPlacement>) -> (kept: Vec<BlPlacement>)
    ensures
        kept@ == first_by_key(list@, placement_key()),
{
    let mut kept: Vec<BlPlacement> = Vec::new();
    let mut i: usize = 0;
    while i < list.len()
        invariant
            i <= list@.len(),
            kept@ == first_by_key(list@.take(i as int), placement_key()),
        decreases list@.len() - i,
    {
        let p: BlPlacement = list[i];
        proof {
            assert(list@.take(i + 1).drop_last() =~= list@.take(i as int));
            assert(list@.take(i + 1).last() == p);
            assert(placement_key()(p) == p);
        }
        if !holds_placement(&kept, p) {
            kept.push(p);
        }
        i = i + 1;
    }
    assert(list@.take(i as int) =~= list@);
    kept
}

/// One placement of `list` for each footprint that occurs in it: of
/// placements that cover the same cells the first stays.
pub fn one_per_footprint(list: &Vec<BlPlacement>) -> (kept: Vec<BlPlacement>)
    ensures
        kept@ == first_by_key(list@, footprint_key()),
{
    let mut kept: Vec<BlPlacement> = Vec::new();
    let mut i: usize = 0;
    while i < list.len()
        invariant
            i <= list@.len(),
            kept@ == first_by_key(list@.take(i as int), footprint_key()),
        decreases list@.len() - i,
    {
        let p: BlPlacement = list[i];
        proof {
            assert(list@.take(i + 1).drop_last() =~= list@.take(i as int));
            assert(list@.take(i + 1).last() == p);
            assert(footprint_key()(p) == p.footprint());
        }
        if !holds_footprint(&kept, p) {
            kept.push(p);
        }
        i = i + 1;
    }
    assert(list@.take(i as int) =~= list@);
    kept
}

} // verus!
