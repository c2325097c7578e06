//! The orders in which keyed collections are walked, stated over the integer
//! keys that stand for their entries.

use vstd::laws_cmp::obeys_cmp;
use vstd::prelude::*;
use vstd::std_specs::btree::{axiom_increasing_seq_meaning, increasing_seq};
use vstd::std_specs::cmp::OrdSpec;

verus! {

/// Whether one pair comes strictly before another: by first component, then
/// by second.
pub open spec fn pair_before(a: (u8, i64), b: (u8, i64)) -> bool {
    a.0 < b.0 || (a.0 == b.0 && a.1 < b.1)
}

/// Whether one triple comes strictly before another: by first component,
/// then by second, then by third.
pub open spec fn triple_before(a: (i64, i64, i64), b: (i64, i64, i64)) -> bool {
    a.0 < b.0 || (a.0 == b.0 && (a.1 < b.1 || (a.1 == b.1 && a.2 < b.2)))
}

/// The keys of a map of numbers are walked in increasing order.
pub proof fn lemma_numbers_increase(keys: Seq<&i64>)
    requires
        increasing_seq(keys),
    ensures
        forall|i: int, j: int| 0 <= i < j < keys.len() ==> *(#[trigger] keys[i]) < *(#[trigger] keys[j]),
{
    broadcast use vstd::laws_cmp::group_laws_cmp;

    assert(obeys_cmp::<&i64>());
    axiom_increasing_seq_meaning(keys);
    assert forall|i: int, j: int| 0 <= i < j < keys.len() implies *(#[trigger] keys[i]) < *(
    #[trigger] keys[j]) by {
        assert(OrdSpec::cmp_spec(&keys[i], &keys[j]) is Less);
    }
}

/// The keys of a map of pairs are walked in increasing order.
pub proof fn lemma_pairs_increase(keys: Seq<&(u8, i64)>)
    requires
        increasing_seq(keys),
    ensures
        forall|i: int, j: int|
            0 <= i < j < keys.len() ==> pair_before(*(#[trigger] keys[i]), *(#[trigger] keys[j])),
{
    broadcast use vstd::laws_cmp::group_laws_cmp;

    assert(obeys_cmp::<&(u8, i64)>());
    axiom_increasing_seq_meaning(keys);
    assert forall|i: int, j: int| 0 <= i < j < keys.len() implies pair_before(
        *(#[trigger] keys[i]),
        *(#[trigger] keys[j]),
    ) by {
        assert(OrdSpec::cmp_spec(&keys[i], &keys[j]) is Less);
    }
}

/// The keys of a map of triples are walked in increasing order.
pub proof fn lemma_triples_increase(keys: Seq<&(i64, i64, i64)>)
    requires
        increasing_seq(keys),
    ensures
        forall|i: int, j: int|
            0 <= i < j < keys.len() ==> triple_before(*(#[trigger] keys[i]), *(#[trigger] keys[j])),
{
    broadcast use vstd::laws_cmp::group_laws_cmp;

    assert(obeys_cmp::<&(i64, i64, i64)>());
    axiom_increasing_seq_meaning(keys);
    assert forall|i: int, j: int| 0 <= i < j < keys.len() implies triple_before(
        *(#[trigger] keys[i]),
        *(#[trigger] keys[j]),
    ) by {
        assert(OrdSpec::cmp_spec(&keys[i], &keys[j]) is Less);
    }
}

} // verus!
