//! The finalizer.
//!
//! Finalization is all-or-nothing: a merged transaction yields a
//! broadcastable one exactly when every input's signature slot is
//! populated. A transaction with missing signatures is not
//! broadcastable and is never returned as a partial result.

use vstd::prelude::*;

use crate::bytevec::copy_bytes;
use crate::errors::FinalizeError;
use crate::transaction::{
    DraftInputV, FinalizedInput, FinalizedInputV, FinalizedTransaction, MergedTransaction, Recipient,
};

verus! {

/// The broadcastable value extracted from a fully signed merged
/// transaction: each input paired with its signature, and the
/// recipients exactly as distributed for signing.
pub open spec fn finalized_of(d: crate::transaction::DraftV) -> crate::transaction::FinalizedV {
    crate::transaction::FinalizedV {
        inputs: d.inputs.map_values(
            |i: DraftInputV|
                FinalizedInputV { outpoint: i.outpoint, signature: i.signature.unwrap() },
        ),
        recipients: d.recipients,
    }
}

/// Extract the broadcastable transaction from a merged one.
///
/// Succeeds exactly when every input's signature slot is populated;
/// otherwise it fails with `IncompleteSignatures` and produces no
/// artifact.
pub fn finalize(merged: &MergedTransaction) -> (r: Result<FinalizedTransaction, FinalizeError>)
    ensures
        r is Ok <==> merged@.fully_signed(),
        r matches Ok(f) ==> f@ == finalized_of(merged@),
        r is Err ==> r == Err::<FinalizedTransaction, FinalizeError>(
            FinalizeError::IncompleteSignatures,
        ),
{
    let n = merged.tx.inputs.len();
    let mut inputs: Vec<FinalizedInput> = Vec::new();
    let mut i: usize = 0;
    while i < n
        invariant
            n == merged@.inputs.len(),
            i <= n,
            inputs@.len() == i,
            forall|k: int| 0 <= k < i ==> (#[trigger] merged@.inputs[k]).signature is Some,
            forall|k: int|
                0 <= k < i ==> (#[trigger] inputs@[k])@ == (FinalizedInputV {
                    outpoint: merged@.inputs[k].outpoint,
                    signature: merged@.inputs[k].signature.unwrap(),
                }),
        decreases n - i,
    {
        let input = &merged.tx.inputs[i];
        match &input.signature {
            Some(sig) => {
                inputs.push(
                    FinalizedInput {
                        outpoint: input.outpoint.duplicate(),
                        signature: copy_bytes(sig),
                    },
                );
            },
            None => {
                proof {
                    assert(merged@.inputs[i as int].signature is None);
                    assert(!merged@.fully_signed());
                }
                return Err(FinalizeError::IncompleteSignatures);
            },
        }
        i += 1;
    }
    let mut recipients: Vec<Recipient> = Vec::new();
    let m = merged.tx.recipients.len();
    let mut j: usize = 0;
    while j < m
        invariant
            m == merged@.recipients.len(),
            j <= m,
            recipients@.len() == j,
            forall|k: int| 0 <= k < j ==> (#[trigger] recipients@[k])@ == merged@.recipients[k],
        decreases m - j,
    {
        recipients.push(merged.tx.recipients[j].duplicate());
        j += 1;
    }
    let f = FinalizedTransaction { inputs, recipients };
    proof {
        assert(merged@.fully_signed());
        assert(f@.inputs =~= finalized_of(merged@).inputs);
        assert(f@.recipients =~= finalized_of(merged@).recipients);
        assert(f@ =~= finalized_of(merged@));
    }
    Ok(f)
}

} // verus!
