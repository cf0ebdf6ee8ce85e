//! The joint-transaction builder.
//!
//! From a snapshot of all registrations it constructs one draft: every
//! registered address becomes a recipient at one fixed payout amount
//! (equal-value outputs are the anonymity property of the join — unequal
//! amounts would let an observer re-link inputs to outputs), and every
//! registered coin becomes a foreign input carrying its signable-input
//! descriptor. Change-output creation is disabled and the fee rate is
//! fixed by the caller.
//!
//! The fee is estimated from the counts alone, with one conservative
//! satisfaction-weight constant for every input, since all inputs share
//! one script type.

use vstd::arithmetic::mul::lemma_mul_nonnegative;
use vstd::prelude::*;

use crate::bytevec::copy_bytes;
use crate::errors::BuildError;
use crate::registry::{InputRegistrationV, OutputRegistrationV, Snapshot, SnapshotV};
use crate::transaction::{
    DraftInput, DraftInputV, DraftV, Recipient, RecipientV, TransactionDraft,
};

verus! {

/// Virtual size of the transaction skeleton, in virtual bytes.
pub const TX_BASE_VSIZE: u64 = 11;

/// Virtual size of one input before its witness: previous outpoint,
/// script length and sequence number.
pub const INPUT_BASE_VSIZE: u64 = 41;

/// Conservative fixed satisfaction-weight estimate added for every
/// foreign input. Used only for fee-size estimation, never for
/// signature validity.
pub const SATISFACTION_WEIGHT: u64 = 32;

/// Virtual size of one recipient output.
pub const OUTPUT_VSIZE: u64 = 31;

/// Estimated virtual size of a draft with `n` foreign inputs and `m`
/// recipient outputs.
pub open spec fn estimated_vsize(n: int, m: int) -> int {
    TX_BASE_VSIZE + n * ((INPUT_BASE_VSIZE + SATISFACTION_WEIGHT) as int) + m * (
    OUTPUT_VSIZE as int)
}

/// Estimated fee of such a draft at the given rate, in satoshi.
pub open spec fn estimated_fee(n: int, m: int, fee_rate: int) -> int {
    fee_rate * estimated_vsize(n, m)
}

/// What the coordinating wallet must be able to cover: all payouts plus
/// the estimated fee.
pub open spec fn required_funds(n: int, m: int, payout: int, fee_rate: int) -> int {
    m * payout + estimated_fee(n, m, fee_rate)
}

/// The draft a successful build produces: one recipient per output
/// registration at the fixed payout amount, in registration order, and
/// one unsigned foreign input per input registration, in registration
/// order.
pub open spec fn built_draft(snap: SnapshotV, payout: u64, fee_rate: u64) -> DraftV {
    DraftV {
        recipients: snap.outputs.map_values(
            |o: OutputRegistrationV| RecipientV { address: o.address, amount: payout },
        ),
        inputs: snap.inputs.map_values(
            |r: InputRegistrationV|
                DraftInputV { outpoint: r.outpoint, descriptor: r.descriptor, signature: None },
        ),
        fee_rate: fee_rate,
        no_change: true,
    }
}

/// A draft built from a well-formed snapshot starts with every
/// signature slot empty, and no coin appears in it twice: reusing an
/// outpoint within one joint transaction is invalid, and the registry's
/// duplicate rejection is what rules it out here.
pub proof fn lemma_built_draft_sound(snap: SnapshotV, payout: u64, fee_rate: u64)
    requires
        snap.wf(),
    ensures
        built_draft(snap, payout, fee_rate).unsigned(),
        forall|i: int, j: int|
            0 <= i < j < built_draft(snap, payout, fee_rate).inputs.len() ==> (
            #[trigger] built_draft(snap, payout, fee_rate).inputs[i]).outpoint != (
            #[trigger] built_draft(snap, payout, fee_rate).inputs[j]).outpoint,
{
    let d = built_draft(snap, payout, fee_rate);
    assert forall|i: int, j: int| 0 <= i < j < d.inputs.len() implies (
    #[trigger] d.inputs[i]).outpoint != (#[trigger] d.inputs[j]).outpoint by {
        assert(d.inputs[i].outpoint == snap.inputs[i].outpoint);
        assert(d.inputs[j].outpoint == snap.inputs[j].outpoint);
    }
}

/// Construct the round's joint transaction from a snapshot.
///
/// Fails with `EmptyRegistration` when the snapshot has no inputs or no
/// outputs, with `SizeOrFeeError` when the required total does not fit
/// the 64-bit satoshi range at the target fee rate, and with
/// `InsufficientFunds` when the coordinating wallet's funds do not
/// cover the payouts plus the estimated fee.
pub fn build(
    snapshot: &Snapshot,
    payout_amount: u64,
    fee_rate: u64,
    owned_funds: u64,
) -> (r: Result<TransactionDraft, BuildError>)
    ensures
        r == Err::<TransactionDraft, BuildError>(BuildError::EmptyRegistration) <==> (
        snapshot@.inputs.len() == 0 || snapshot@.outputs.len() == 0),
        r == Err::<TransactionDraft, BuildError>(BuildError::SizeOrFeeError) <==> {
            &&& snapshot@.inputs.len() > 0
            &&& snapshot@.outputs.len() > 0
            &&& required_funds(
                snapshot@.inputs.len() as int,
                snapshot@.outputs.len() as int,
                payout_amount as int,
                fee_rate as int,
            ) > u64::MAX
        },
        r == Err::<TransactionDraft, BuildError>(BuildError::InsufficientFunds) <==> {
            &&& snapshot@.inputs.len() > 0
            &&& snapshot@.outputs.len() > 0
            &&& required_funds(
                snapshot@.inputs.len() as int,
                snapshot@.outputs.len() as int,
                payout_amount as int,
                fee_rate as int,
            ) <= u64::MAX
            &&& owned_funds < required_funds(
                snapshot@.inputs.len() as int,
                snapshot@.outputs.len() as int,
                payout_amount as int,
                fee_rate as int,
            )
        },
        r is Ok <==> {
            &&& snapshot@.inputs.len() > 0
            &&& snapshot@.outputs.len() > 0
            &&& required_funds(
                snapshot@.inputs.len() as int,
                snapshot@.outputs.len() as int,
                payout_amount as int,
                fee_rate as int,
            ) <= u64::MAX
            &&& owned_funds >= required_funds(
                snapshot@.inputs.len() as int,
                snapshot@.outputs.len() as int,
                payout_amount as int,
                fee_rate as int,
            )
        },
        r matches Ok(d) ==> d@ == built_draft(snapshot@, payout_amount, fee_rate),
{
    let n_inputs = snapshot.inputs.len();
    let n_outputs = snapshot.outputs.len();
    if n_inputs == 0 || n_outputs == 0 {
        return Err(BuildError::EmptyRegistration);
    }
    let n = n_inputs as u128;
    let m = n_outputs as u128;
    let ghost ni = n_inputs as int;
    let ghost mi = n_outputs as int;
    let vsize: u128 = 11 + n * 73 + m * 31;
    proof {
        assert(vsize == estimated_vsize(ni, mi));
        lemma_mul_nonnegative(fee_rate as int, estimated_vsize(ni, mi));
        lemma_mul_nonnegative(mi, payout_amount as int);
    }
    let fee = match (fee_rate as u128).checked_mul(vsize) {
        Some(f) => f,
        None => {
            proof {
                let rf = required_funds(ni, mi, payout_amount as int, fee_rate as int);
                assert(rf == mi * (payout_amount as int) + estimated_fee(ni, mi, fee_rate as int));
                assert(rf > u64::MAX);
            }
            return Err(BuildError::SizeOrFeeError);
        },
    };
    let payout_total = match (payout_amount as u128).checked_mul(m) {
        Some(t) => t,
        None => {
            proof {
                let p = payout_amount as int;
                assert(mi * p > u128::MAX) by (nonlinear_arith)
                    requires
                        (payout_amount as u128) * m > u128::MAX,
                        m == mi,
                        (payout_amount as u128) == p,
                ;
                let rf = required_funds(ni, mi, p, fee_rate as int);
                assert(rf == mi * p + estimated_fee(ni, mi, fee_rate as int));
                assert(rf > u64::MAX);
            }
            return Err(BuildError::SizeOrFeeError);
        },
    };
    proof {
        let p = payout_amount as int;
        assert(mi * p == (payout_amount as u128) * m) by (nonlinear_arith)
            requires
                m == mi,
                (payout_amount as u128) == p,
        ;
    }
    let required = match payout_total.checked_add(fee) {
        Some(t) => t,
        None => {
            proof {
                let rf = required_funds(ni, mi, payout_amount as int, fee_rate as int);
                assert(rf == mi * (payout_amount as int) + estimated_fee(
                    ni,
                    mi,
                    fee_rate as int,
                ));
                assert(rf > u64::MAX);
            }
            return Err(BuildError::SizeOrFeeError);
        },
    };
    proof {
        let rf = required_funds(ni, mi, payout_amount as int, fee_rate as int);
        assert(rf == mi * (payout_amount as int) + estimated_fee(ni, mi, fee_rate as int));
        assert(required == rf);
    }
    if required > u64::MAX as u128 {
        return Err(BuildError::SizeOrFeeError);
    }
    if (owned_funds as u128) < required {
        return Err(BuildError::InsufficientFunds);
    }

    let mut recipients: Vec<Recipient> = Vec::new();
    let mut i: usize = 0;
    while i < n_outputs
        invariant
            n_outputs == snapshot.outputs@.len(),
            i <= n_outputs,
            recipients@.len() == i,
            forall|k: int|
                0 <= k < i ==> (#[trigger] recipients@[k])@ == (RecipientV {
                    address: snapshot.outputs@[k]@.address,
                    amount: payout_amount,
                }),
        decreases n_outputs - i,
    {
        recipients.push(
            Recipient { address: copy_bytes(&snapshot.outputs[i].address), amount: payout_amount },
        );
        i += 1;
    }
    let mut inputs: Vec<DraftInput> = Vec::new();
    let mut j: usize = 0;
    while j < n_inputs
        invariant
            n_inputs == snapshot.inputs@.len(),
            j <= n_inputs,
            inputs@.len() == j,
            forall|k: int|
                0 <= k < j ==> (#[trigger] inputs@[k])@ == (DraftInputV {
                    outpoint: snapshot.inputs@[k]@.outpoint,
                    descriptor: snapshot.inputs@[k]@.descriptor,
                    signature: None,
                }),
        decreases n_inputs - j,
    {
        let reg = &snapshot.inputs[j];
        inputs.push(
            DraftInput {
                outpoint: reg.outpoint.duplicate(),
                descriptor: reg.descriptor.duplicate(),
                signature: None,
            },
        );
        j += 1;
    }
    let d = TransactionDraft { recipients, inputs, fee_rate, no_change: true };
    proof {
        assert(d@.recipients =~= built_draft(snapshot@, payout_amount, fee_rate).recipients);
        assert(d@.inputs =~= built_draft(snapshot@, payout_amount, fee_rate).inputs);
        assert(d@ =~= built_draft(snapshot@, payout_amount, fee_rate));
    }
    Ok(d)
}

} // verus!
