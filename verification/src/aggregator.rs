//! The signature aggregator.
//!
//! Each participant independently signs its own copy of the round's
//! draft; this module combines the signed copies into one merged
//! transaction. Merging takes, for each input, the populated signature
//! slot from whichever contribution supplies it; every non-signature
//! field must be identical across contributions, since all are copies
//! of one distributed draft, and a disagreement there is a
//! `MergeConflict`. The merge is commutative and associative, so the
//! recursive pairwise fold used here yields the same result as any
//! other order of combination — see [`lemma_merge_order_insensitive`]
//! and [`lemma_merge_duplicate_absorbed`].

use vstd::prelude::*;

use crate::bytevec::bytes_eq;
use crate::errors::MergeError;
use crate::transaction::{
    DraftInput, DraftInputV, DraftV, MergedTransaction, SignedContribution,
};

verus! {

/// The draft values carried by a sequence of contributions.
pub open spec fn contribution_views(s: Seq<SignedContribution>) -> Seq<DraftV> {
    s.map_values(|c: SignedContribution| c@)
}

/// Two inputs can be merged: they spend the same coin with the same
/// descriptor, and where both carry a signature it is the same one.
pub open spec fn inputs_compatible(a: DraftInputV, b: DraftInputV) -> bool {
    &&& a.same_base(b)
    &&& (a.signature is Some && b.signature is Some ==> a.signature == b.signature)
}

/// Two contributions can be merged: they agree on every non-signature
/// field, and their signature slots do not contradict each other.
pub open spec fn compatible(a: DraftV, b: DraftV) -> bool {
    &&& a.recipients == b.recipients
    &&& a.fee_rate == b.fee_rate
    &&& a.no_change == b.no_change
    &&& a.inputs.len() == b.inputs.len()
    &&& forall|i: int|
        0 <= i < a.inputs.len() ==> inputs_compatible(
            #[trigger] a.inputs[i],
            #[trigger] b.inputs[i],
        )
}

/// The merge of two compatible inputs: the populated slot wins.
pub open spec fn merged_input(a: DraftInputV, b: DraftInputV) -> DraftInputV {
    if a.signature is Some {
        a
    } else {
        b
    }
}

/// The merge of two compatible contributions, slot by slot.
pub open spec fn merge_pair(a: DraftV, b: DraftV) -> DraftV {
    DraftV {
        inputs: Seq::new(a.inputs.len(), |i: int| merged_input(a.inputs[i], b.inputs[i])),
        ..a
    }
}

/// The recursive pairwise fold over a non-empty sequence of
/// contribution values: combine the last two, put the combination back,
/// repeat. `None` marks a merge conflict.
pub open spec fn merge_seq(s: Seq<DraftV>) -> Option<DraftV>
    recommends
        s.len() >= 1,
    decreases s.len(),
{
    if s.len() <= 1 {
        Some(s[0])
    } else {
        let a = s[s.len() - 1];
        let b = s[s.len() - 2];
        if compatible(a, b) {
            merge_seq(s.take(s.len() - 2).push(merge_pair(a, b)))
        } else {
            None
        }
    }
}

/// Every pair of contribution values in the sequence can be merged.
pub open spec fn all_compatible(s: Seq<DraftV>) -> bool {
    forall|i: int, j: int|
        0 <= i < s.len() && 0 <= j < s.len() ==> compatible(#[trigger] s[i], #[trigger] s[j])
}

/// What the merge of `s` looks like, stated without reference to any
/// order of combination: the non-signature fields are those shared by
/// all contributions, and an input's slot is populated exactly when
/// some contribution populates it, with the signature that every
/// populating contribution carries.
pub open spec fn merged_shape(s: Seq<DraftV>, m: DraftV) -> bool {
    &&& m.recipients == s[0].recipients
    &&& m.fee_rate == s[0].fee_rate
    &&& m.no_change == s[0].no_change
    &&& m.inputs.len() == s[0].inputs.len()
    &&& forall|i: int|
        0 <= i < m.inputs.len() ==> (#[trigger] m.inputs[i]).same_base(s[0].inputs[i])
    &&& forall|i: int|
        0 <= i < m.inputs.len() ==> ((#[trigger] m.inputs[i]).signature is Some <==> exists|j: int|
            0 <= j < s.len() && (#[trigger] s[j].inputs[i].signature) is Some)
    &&& forall|i: int, j: int|
        0 <= i < m.inputs.len() && 0 <= j < s.len() && (#[trigger] s[j].inputs[i].signature)
            is Some ==> m.inputs[i].signature == s[j].inputs[i].signature
}

/// Merge two signed copies of one draft.
///
/// Fails with `MergeConflict` exactly when the copies disagree on a
/// non-signature field or carry two different signatures for one
/// input.
pub fn merge_two(a: &SignedContribution, b: &SignedContribution) -> (r: Result<
    SignedContribution,
    MergeError,
>)
    ensures
        compatible(a@, b@) ==> (r matches Ok(c) && c@ == merge_pair(a@, b@)),
        !compatible(a@, b@) ==> r == Err::<SignedContribution, MergeError>(
            MergeError::MergeConflict,
        ),
{
    if !a.tx.base_eq(&b.tx) {
        return Err(MergeError::MergeConflict);
    }
    let n = a.tx.inputs.len();
    let mut inputs: Vec<DraftInput> = Vec::new();
    let mut i: usize = 0;
    while i < n
        invariant
            n == a@.inputs.len(),
            a@.same_base(b@),
            i <= n,
            inputs@.len() == i,
            forall|k: int|
                0 <= k < i ==> (#[trigger] inputs@[k])@ == merged_input(
                    a@.inputs[k],
                    b@.inputs[k],
                ),
            forall|k: int| 0 <= k < i ==> inputs_compatible(a@.inputs[k], #[trigger] b@.inputs[k]),
        decreases n - i,
    {
        let ai = &a.tx.inputs[i];
        let bi = &b.tx.inputs[i];
        let merged: DraftInput = match (&ai.signature, &bi.signature) {
            (Some(x), Some(y)) => {
                if !bytes_eq(x, y) {
                    proof {
                        assert(!inputs_compatible(a@.inputs[i as int], b@.inputs[i as int]));
                        assert(!compatible(a@, b@));
                    }
                    return Err(MergeError::MergeConflict);
                }
                ai.duplicate()
            },
            (Some(_), None) => ai.duplicate(),
            (None, _) => bi.duplicate(),
        };
        proof {
            assert(merged@ == merged_input(a@.inputs[i as int], b@.inputs[i as int]));
        }
        inputs.push(merged);
        i += 1;
    }
    let mut tx = a.tx.duplicate();
    tx.inputs = inputs;
    let c = SignedContribution { tx };
    proof {
        assert(compatible(a@, b@));
        assert(c@.inputs =~= merge_pair(a@, b@).inputs);
        assert(c@ =~= merge_pair(a@, b@));
    }
    Ok(c)
}

/// Merge all signed contributions of a round into one transaction, by
/// the recursive pairwise fold: repeatedly combine the last two
/// remaining copies and put the combination back. A single contribution
/// is returned unchanged.
pub fn merge(contributions: Vec<SignedContribution>) -> (r: Result<
    MergedTransaction,
    MergeError,
>)
    requires
        contributions@.len() >= 1,
    ensures
        merge_seq(contribution_views(contributions@)) matches Some(v) ==> (r matches Ok(m)
            && m@ == v),
        merge_seq(contribution_views(contributions@)) is None ==> r == Err::<
            MergedTransaction,
            MergeError,
        >(MergeError::MergeConflict),
    decreases contributions@.len(),
{
    let ghost s = contribution_views(contributions@);
    let mut contributions = contributions;
    if contributions.len() == 1 {
        let only = match contributions.pop() {
            Some(c) => c,
            None => {
                proof {
                    assert(false);
                }
                return Err(MergeError::MergeConflict);
            },
        };
        return Ok(MergedTransaction { tx: only.tx });
    }
    let last = match contributions.pop() {
        Some(c) => c,
        None => {
            proof {
                assert(false);
            }
            return Err(MergeError::MergeConflict);
        },
    };
    let prev = match contributions.pop() {
        Some(c) => c,
        None => {
            proof {
                assert(false);
            }
            return Err(MergeError::MergeConflict);
        },
    };
    proof {
        assert(last@ == s[s.len() - 1]);
        assert(prev@ == s[s.len() - 2]);
    }
    let combined = match merge_two(&last, &prev) {
        Ok(c) => c,
        Err(e) => {
            proof {
                assert(!compatible(s[s.len() - 1], s[s.len() - 2]));
                assert(merge_seq(s) is None);
            }
            return Err(e);
        },
    };
    contributions.push(combined);
    proof {
        assert(contribution_views(contributions@) =~= s.take(s.len() - 2).push(
            merge_pair(s[s.len() - 1], s[s.len() - 2]),
        ));
    }
    merge(contributions)
}

proof fn lemma_compatible_self(x: DraftV)
    ensures
        compatible(x, x),
{
    assert forall|i: int| 0 <= i < x.inputs.len() implies inputs_compatible(
        #[trigger] x.inputs[i],
        x.inputs[i],
    ) by {}
}

proof fn lemma_compatible_sym(a: DraftV, b: DraftV)
    requires
        compatible(a, b),
    ensures
        compatible(b, a),
{
    assert forall|i: int| 0 <= i < b.inputs.len() implies inputs_compatible(
        #[trigger] b.inputs[i],
        a.inputs[i],
    ) by {
        assert(inputs_compatible(a.inputs[i], b.inputs[i]));
    }
}

proof fn lemma_merge_pair_compat(a: DraftV, b: DraftV, x: DraftV)
    requires
        compatible(a, b),
        compatible(x, a),
        compatible(x, b),
    ensures
        compatible(x, merge_pair(a, b)),
{
    let p = merge_pair(a, b);
    assert forall|i: int| 0 <= i < x.inputs.len() implies inputs_compatible(
        #[trigger] x.inputs[i],
        p.inputs[i],
    ) by {
        assert(p.inputs[i] == merged_input(a.inputs[i], b.inputs[i]));
        assert(inputs_compatible(x.inputs[i], a.inputs[i]));
        assert(inputs_compatible(x.inputs[i], b.inputs[i]));
    }
}

proof fn lemma_unmerge_pair_compat(a: DraftV, b: DraftV, x: DraftV)
    requires
        compatible(a, b),
        compatible(x, merge_pair(a, b)),
    ensures
        compatible(x, a),
        compatible(x, b),
{
    let p = merge_pair(a, b);
    assert forall|i: int| 0 <= i < x.inputs.len() implies inputs_compatible(
        #[trigger] x.inputs[i],
        a.inputs[i],
    ) && inputs_compatible(x.inputs[i], b.inputs[i]) by {
        assert(p.inputs[i] == merged_input(a.inputs[i], b.inputs[i]));
        assert(inputs_compatible(x.inputs[i], p.inputs[i]));
        assert(inputs_compatible(a.inputs[i], b.inputs[i]));
    }
}

/// The full description of the pairwise fold: it succeeds exactly when
/// all contributions are pairwise mergeable, and the result then has
/// the order-free shape stated by [`merged_shape`].
proof fn lemma_merge_characterization(s: Seq<DraftV>)
    requires
        s.len() >= 1,
    ensures
        merge_seq(s) is Some <==> all_compatible(s),
        merge_seq(s) matches Some(m) ==> merged_shape(s, m),
    decreases s.len(),
{
    if s.len() == 1 {
        lemma_compatible_self(s[0]);
        let m = s[0];
        assert(merge_seq(s) == Some(m));
        assert forall|i: int| 0 <= i < m.inputs.len() implies ((#[trigger] m.inputs[i]).signature
            is Some <==> exists|j: int|
            0 <= j < s.len() && (#[trigger] s[j].inputs[i].signature) is Some) by {
            if m.inputs[i].signature is Some {
                assert(s[0].inputs[i].signature is Some);
            }
        }
        assert(merged_shape(s, m));
    } else {
        let a = s[s.len() - 1];
        let b = s[s.len() - 2];
        if !compatible(a, b) {
            assert(!all_compatible(s));
            assert(merge_seq(s) is None);
        } else {
            let p = merge_pair(a, b);
            let s2 = s.take(s.len() - 2).push(p);
            assert(s2.len() == s.len() - 1);
            assert(s2[s2.len() - 1] == p);
            assert(forall|i: int| 0 <= i < s.len() - 2 ==> s2[i] == s[i]);
            lemma_merge_characterization(s2);
            assert(merge_seq(s) == merge_seq(s2));
            if all_compatible(s) {
                assert forall|i: int, j: int|
                    0 <= i < s2.len() && 0 <= j < s2.len() implies compatible(
                    #[trigger] s2[i],
                    #[trigger] s2[j],
                ) by {
                    if i < s.len() - 2 && j < s.len() - 2 {
                        assert(compatible(s[i], s[j]));
                    } else if i < s.len() - 2 {
                        assert(compatible(s[i], a) && compatible(s[i], b));
                        lemma_merge_pair_compat(a, b, s[i]);
                    } else if j < s.len() - 2 {
                        assert(compatible(s[j], a) && compatible(s[j], b));
                        lemma_merge_pair_compat(a, b, s[j]);
                        lemma_compatible_sym(s[j], p);
                    } else {
                        lemma_compatible_self(p);
                    }
                }
                assert(all_compatible(s2));
                assert(merge_seq(s2) is Some);
            }
            if merge_seq(s2) is Some {
                assert(all_compatible(s2));
                assert(compatible(s2[s2.len() - 1], s2[s2.len() - 1]));
                assert forall|i: int, j: int|
                    0 <= i < s.len() && 0 <= j < s.len() implies compatible(
                    #[trigger] s[i],
                    #[trigger] s[j],
                ) by {
                    lemma_compatible_self(a);
                    lemma_compatible_self(b);
                    lemma_compatible_sym(a, b);
                    if i < s.len() - 2 && j < s.len() - 2 {
                        assert(compatible(s2[i], s2[j]));
                    } else if i < s.len() - 2 {
                        assert(compatible(s2[i], p));
                        lemma_unmerge_pair_compat(a, b, s2[i]);
                    } else if j < s.len() - 2 {
                        assert(compatible(s2[j], p));
                        lemma_unmerge_pair_compat(a, b, s2[j]);
                        lemma_compatible_sym(s2[j], s[i]);
                    }
                }
                assert(all_compatible(s));
                let m = merge_seq(s2).unwrap();
                assert(merged_shape(s2, m));
                if s.len() == 2 {
                    assert(s2[0] == p);
                    assert(s[0] == b);
                    assert(p.recipients == a.recipients);
                } else {
                    assert(s2[0] == s[0]);
                }
                assert(m.recipients == s[0].recipients);
                assert(m.inputs.len() == s[0].inputs.len());
                assert forall|i: int| 0 <= i < m.inputs.len() implies (
                #[trigger] m.inputs[i]).same_base(s[0].inputs[i]) by {
                    if s.len() == 2 {
                        assert(m.inputs[i].same_base(p.inputs[i]));
                        assert(p.inputs[i] == merged_input(a.inputs[i], b.inputs[i]));
                        assert(inputs_compatible(a.inputs[i], b.inputs[i]));
                    }
                }
                assert forall|i: int| 0 <= i < m.inputs.len() implies ((
                #[trigger] m.inputs[i]).signature is Some <==> exists|j: int|
                    0 <= j < s.len() && (#[trigger] s[j].inputs[i].signature) is Some) by {
                    assert(p.inputs[i] == merged_input(a.inputs[i], b.inputs[i]));
                    if m.inputs[i].signature is Some {
                        let j2 = choose|j2: int|
                            0 <= j2 < s2.len() && (#[trigger] s2[j2].inputs[i].signature) is Some;
                        if j2 < s.len() - 2 {
                            assert(s[j2].inputs[i].signature is Some);
                        } else {
                            assert(s2[j2] == p);
                            if a.inputs[i].signature is Some {
                                assert(s[s.len() - 1].inputs[i].signature is Some);
                            } else {
                                assert(s[s.len() - 2].inputs[i].signature is Some);
                            }
                        }
                    }
                    if exists|j: int| 0 <= j < s.len() && (#[trigger] s[j].inputs[i].signature)
                        is Some {
                        let j = choose|j: int|
                            0 <= j < s.len() && (#[trigger] s[j].inputs[i].signature) is Some;
                        if j < s.len() - 2 {
                            assert(s2[j].inputs[i].signature is Some);
                        } else {
                            assert(s[j] == a || s[j] == b);
                            assert(p.inputs[i].signature is Some);
                            assert(s2[s2.len() - 1].inputs[i].signature is Some);
                        }
                        assert(m.inputs[i].signature is Some);
                    }
                }
                assert forall|i: int, j: int|
                    0 <= i < m.inputs.len() && 0 <= j < s.len() && (
                #[trigger] s[j].inputs[i].signature) is Some implies m.inputs[i].signature
                    == s[j].inputs[i].signature by {
                    assert(p.inputs[i] == merged_input(a.inputs[i], b.inputs[i]));
                    assert(inputs_compatible(a.inputs[i], b.inputs[i]));
                    if j < s.len() - 2 {
                        assert(s2[j].inputs[i].signature is Some);
                        assert(m.inputs[i].signature == s2[j].inputs[i].signature);
                    } else {
                        assert(s[j] == a || s[j] == b);
                        assert(p.inputs[i].signature == s[j].inputs[i].signature);
                        assert(s2[s2.len() - 1].inputs[i].signature is Some);
                        assert(m.inputs[i].signature == p.inputs[i].signature);
                    }
                }
                assert(merged_shape(s, m));
            }
        }
    }
}

/// [`merged_shape`] pins the merged value down completely.
proof fn lemma_merged_shape_unique(s: Seq<DraftV>, m1: DraftV, m2: DraftV)
    requires
        s.len() >= 1,
        merged_shape(s, m1),
        merged_shape(s, m2),
    ensures
        m1 == m2,
{
    assert forall|i: int| 0 <= i < m1.inputs.len() implies m1.inputs[i] == m2.inputs[i] by {
        assert(m1.inputs[i].same_base(s[0].inputs[i]));
        assert(m2.inputs[i].same_base(s[0].inputs[i]));
        if m1.inputs[i].signature is Some {
            let j = choose|j: int|
                0 <= j < s.len() && (#[trigger] s[j].inputs[i].signature) is Some;
            assert(m1.inputs[i].signature == s[j].inputs[i].signature);
            assert(m2.inputs[i].signature == s[j].inputs[i].signature);
        } else {
            assert(m2.inputs[i].signature is None);
        }
        assert(m1.inputs[i] =~= m2.inputs[i]);
    }
    assert(m1.inputs =~= m2.inputs);
    assert(m1 =~= m2);
}

/// The merge of a round's contributions does not depend on the order
/// in which they arrived: folding any two sequences that hold the same
/// contributions — in any order — gives the same merged transaction,
/// or fails in both orders.
pub proof fn lemma_merge_order_insensitive(s1: Seq<DraftV>, s2: Seq<DraftV>)
    requires
        s1.len() >= 1,
        s1.to_multiset() == s2.to_multiset(),
    ensures
        merge_seq(s1) == merge_seq(s2),
{
    s1.to_multiset_ensures();
    s2.to_multiset_ensures();
    assert(s2.len() == s1.len());
    assert forall|x: DraftV| s1.contains(x) implies s2.contains(x) by {
        assert(s1.to_multiset().count(x) > 0);
    }
    assert forall|x: DraftV| s2.contains(x) implies s1.contains(x) by {
        assert(s2.to_multiset().count(x) > 0);
    }
    lemma_merge_characterization(s1);
    lemma_merge_characterization(s2);
    if all_compatible(s1) {
        assert forall|i: int, j: int| 0 <= i < s2.len() && 0 <= j < s2.len() implies compatible(
            #[trigger] s2[i],
            #[trigger] s2[j],
        ) by {
            assert(s2.contains(s2[i]));
            assert(s2.contains(s2[j]));
            assert(s1.contains(s2[i]));
            assert(s1.contains(s2[j]));
            let ki = choose|k: int| 0 <= k < s1.len() && s1[k] == s2[i];
            let kj = choose|k: int| 0 <= k < s1.len() && s1[k] == s2[j];
            assert(compatible(s1[ki], s1[kj]));
        }
        assert(all_compatible(s2));
        let m1 = merge_seq(s1).unwrap();
        let m2 = merge_seq(s2).unwrap();
        assert(merged_shape(s1, m1));
        assert(merged_shape(s2, m2));
        assert(s2.contains(s2[0]));
        assert(s1.contains(s2[0]));
        let k0 = choose|k: int| 0 <= k < s1.len() && s1[k] == s2[0];
        assert(compatible(s1[0], s1[k0]));
        assert(m2.recipients == s1[0].recipients);
        assert(m2.inputs.len() == s1[0].inputs.len());
        assert forall|i: int| 0 <= i < m2.inputs.len() implies (#[trigger] m2.inputs[i]).same_base(
            s1[0].inputs[i],
        ) by {
            assert(m2.inputs[i].same_base(s2[0].inputs[i]));
            assert(inputs_compatible(s1[0].inputs[i], s1[k0].inputs[i]));
        }
        assert forall|i: int| 0 <= i < m2.inputs.len() implies ((#[trigger] m2.inputs[i]).signature
            is Some <==> exists|j: int|
            0 <= j < s1.len() && (#[trigger] s1[j].inputs[i].signature) is Some) by {
            if m2.inputs[i].signature is Some {
                let j2 = choose|j: int|
                    0 <= j < s2.len() && (#[trigger] s2[j].inputs[i].signature) is Some;
                assert(s1.contains(s2[j2]));
                let k = choose|k: int| 0 <= k < s1.len() && s1[k] == s2[j2];
                assert(s1[k].inputs[i].signature is Some);
            }
            if exists|j: int| 0 <= j < s1.len() && (#[trigger] s1[j].inputs[i].signature) is Some {
                let j1 = choose|j: int|
                    0 <= j < s1.len() && (#[trigger] s1[j].inputs[i].signature) is Some;
                assert(s2.contains(s1[j1]));
                let k = choose|k: int| 0 <= k < s2.len() && s2[k] == s1[j1];
                assert(s2[k].inputs[i].signature is Some);
                assert(m2.inputs[i].signature is Some);
            }
        }
        assert forall|i: int, j: int|
            0 <= i < m2.inputs.len() && 0 <= j < s1.len() && (#[trigger] s1[j].inputs[i].signature)
                is Some implies m2.inputs[i].signature == s1[j].inputs[i].signature by {
            assert(s2.contains(s1[j]));
            let k = choose|k: int| 0 <= k < s2.len() && s2[k] == s1[j];
            assert(s2[k].inputs[i].signature is Some);
            assert(m2.inputs[i].signature == s2[k].inputs[i].signature);
        }
        assert(merged_shape(s1, m2));
        lemma_merged_shape_unique(s1, m1, m2);
        assert(merge_seq(s1) == merge_seq(s2));
    } else {
        let (i, j) = choose|i: int, j: int|
            0 <= i < s1.len() && 0 <= j < s1.len() && !compatible(#[trigger] s1[i], #[trigger] s1[j]);
        assert(s1.contains(s1[i]));
        assert(s1.contains(s1[j]));
        assert(s2.contains(s1[i]));
        assert(s2.contains(s1[j]));
        let ki = choose|k: int| 0 <= k < s2.len() && s2[k] == s1[i];
        let kj = choose|k: int| 0 <= k < s2.len() && s2[k] == s1[j];
        assert(!compatible(s2[ki], s2[kj]));
        assert(!all_compatible(s2));
        assert(merge_seq(s1) is None && merge_seq(s2) is None);
    }
}

/// Merging a contribution that is already part of the round a second
/// time changes nothing: the fold is idempotent per contribution, and
/// so per input-signature slot.
pub proof fn lemma_merge_duplicate_absorbed(s: Seq<DraftV>, x: DraftV)
    requires
        s.len() >= 1,
        s.contains(x),
    ensures
        merge_seq(s.push(x)) == merge_seq(s),
{
    let t = s.push(x);
    lemma_merge_characterization(s);
    lemma_merge_characterization(t);
    let k = choose|k: int| 0 <= k < s.len() && s[k] == x;
    assert(t[s.len() as int] == x);
    assert(forall|i: int| 0 <= i < s.len() ==> t[i] == s[i]);
    if all_compatible(s) {
        assert forall|i: int, j: int| 0 <= i < t.len() && 0 <= j < t.len() implies compatible(
            #[trigger] t[i],
            #[trigger] t[j],
        ) by {
            let i0: int = if i < s.len() { i } else { k };
            let j0: int = if j < s.len() { j } else { k };
            assert(t[i] == s[i0]);
            assert(t[j] == s[j0]);
            assert(compatible(s[i0], s[j0]));
        }
        assert(all_compatible(t));
        let m1 = merge_seq(t).unwrap();
        let m2 = merge_seq(s).unwrap();
        assert(merged_shape(t, m1));
        assert(merged_shape(s, m2));
        assert(t[0] == s[0]);
        assert forall|i: int| 0 <= i < m2.inputs.len() implies ((#[trigger] m2.inputs[i]).signature
            is Some <==> exists|j: int|
            0 <= j < t.len() && (#[trigger] t[j].inputs[i].signature) is Some) by {
            if m2.inputs[i].signature is Some {
                let j = choose|j: int|
                    0 <= j < s.len() && (#[trigger] s[j].inputs[i].signature) is Some;
                assert(t[j].inputs[i].signature is Some);
            }
            if exists|j: int| 0 <= j < t.len() && (#[trigger] t[j].inputs[i].signature) is Some {
                let j = choose|j: int|
                    0 <= j < t.len() && (#[trigger] t[j].inputs[i].signature) is Some;
                let j0: int = if j < s.len() { j } else { k };
                assert(s[j0].inputs[i].signature is Some);
                assert(m2.inputs[i].signature is Some);
            }
        }
        assert forall|i: int, j: int|
            0 <= i < m2.inputs.len() && 0 <= j < t.len() && (#[trigger] t[j].inputs[i].signature)
                is Some implies m2.inputs[i].signature == t[j].inputs[i].signature by {
            let j0: int = if j < s.len() { j } else { k };
            assert(t[j] == s[j0]);
            assert(m2.inputs[i].signature == s[j0].inputs[i].signature);
        }
        assert(merged_shape(t, m2));
        lemma_merged_shape_unique(t, m1, m2);
    } else {
        let (i, j) = choose|i: int, j: int|
            0 <= i < s.len() && 0 <= j < s.len() && !compatible(#[trigger] s[i], #[trigger] s[j]);
        assert(!compatible(t[i], t[j]));
        assert(!all_compatible(t));
        assert(merge_seq(s) is None && merge_seq(t) is None);
    }
}

} // verus!
