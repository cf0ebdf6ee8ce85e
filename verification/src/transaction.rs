//! The transaction-shaped artifacts of a round.
//!
//! A [`TransactionDraft`] is the joint transaction under construction:
//! an ordered sequence of recipients, an ordered sequence of foreign
//! inputs (each with an empty signature slot), the fee-rate target and
//! the change-avoidance flag. A [`SignedContribution`] is one
//! participant's copy of the draft with that participant's signature
//! slots filled. A [`MergedTransaction`] combines all contributions, and
//! a [`FinalizedTransaction`] is the terminal, fully signed artifact.

use vstd::pervasive::VecAdditionalExecFns;
use vstd::prelude::*;

use crate::bytevec::{bytes_eq, copy_bytes};
use crate::outpoint::{Outpoint, OutpointV};

verus! {

/// Opaque proof structure produced by a participant's wallet. It lets
/// the builder include the participant's coin as a transaction input
/// without holding its keys, while the participant can still sign it.
pub struct SignableInputDescriptor {
    pub bytes: Vec<u8>,
}

impl View for SignableInputDescriptor {
    type V = Seq<u8>;

    open spec fn view(&self) -> Seq<u8> {
        self.bytes@
    }
}

impl SignableInputDescriptor {
    /// A fresh descriptor holding the same bytes.
    pub fn duplicate(&self) -> (r: SignableInputDescriptor)
        ensures
            r@ == self@,
    {
        SignableInputDescriptor { bytes: copy_bytes(&self.bytes) }
    }
}

/// One payout of the joint transaction: a destination address (as the
/// bytes of its textual form) and the amount sent to it.
pub struct Recipient {
    pub address: Vec<u8>,
    pub amount: u64,
}

/// Mathematical value of a [`Recipient`].
#[verifier::ext_equal]
pub ghost struct RecipientV {
    pub address: Seq<u8>,
    pub amount: u64,
}

impl View for Recipient {
    type V = RecipientV;

    open spec fn view(&self) -> RecipientV {
        RecipientV { address: self.address@, amount: self.amount }
    }
}

impl Recipient {
    /// Whether two recipients carry the same address and amount.
    pub fn same(&self, other: &Recipient) -> (r: bool)
        ensures
            r == (self@ == other@),
    {
        let r = self.amount == other.amount && bytes_eq(&self.address, &other.address);
        proof {
            if self@.address =~= other@.address && self@.amount == other@.amount {
                assert(self@ =~= other@);
            }
        }
        r
    }

    /// A fresh recipient with the same address and amount.
    pub fn duplicate(&self) -> (r: Recipient)
        ensures
            r@ == self@,
    {
        Recipient { address: copy_bytes(&self.address), amount: self.amount }
    }
}

/// One foreign input of the joint transaction: the coin being spent,
/// its signable-input descriptor, and the signature slot that the
/// owning participant fills during signing.
pub struct DraftInput {
    pub outpoint: Outpoint,
    pub descriptor: SignableInputDescriptor,
    pub signature: Option<Vec<u8>>,
}

/// Mathematical value of a [`DraftInput`].
#[verifier::ext_equal]
pub ghost struct DraftInputV {
    pub outpoint: OutpointV,
    pub descriptor: Seq<u8>,
    pub signature: Option<Seq<u8>>,
}

impl View for DraftInput {
    type V = DraftInputV;

    open spec fn view(&self) -> DraftInputV {
        DraftInputV {
            outpoint: self.outpoint@,
            descriptor: self.descriptor@,
            signature: match self.signature {
                Some(s) => Some(s@),
                None => None,
            },
        }
    }
}

impl DraftInputV {
    /// The non-signature part of an input: which coin it spends and the
    /// proof structure it carries.
    pub open spec fn same_base(self, other: DraftInputV) -> bool {
        self.outpoint == other.outpoint && self.descriptor == other.descriptor
    }
}

impl DraftInput {
    /// Whether two inputs agree on every non-signature field.
    pub fn base_eq(&self, other: &DraftInput) -> (r: bool)
        ensures
            r == self@.same_base(other@),
    {
        self.outpoint.same_coin(&other.outpoint) && bytes_eq(&self.descriptor.bytes, &other.descriptor.bytes)
    }

    /// A fresh input with the same coin, descriptor and signature slot.
    pub fn duplicate(&self) -> (r: DraftInput)
        ensures
            r@ == self@,
    {
        let signature = match &self.signature {
            Some(s) => Some(copy_bytes(s)),
            None => None,
        };
        let r = DraftInput {
            outpoint: self.outpoint.duplicate(),
            descriptor: self.descriptor.duplicate(),
            signature,
        };
        proof {
            assert(r@ =~= self@);
        }
        r
    }
}

/// The joint transaction of one round.
///
/// Ordering of recipients and inputs is fixed at build time and kept
/// for the lifetime of the round: signatures are bound to input
/// positions, so reordering after distribution would invalidate them.
pub struct TransactionDraft {
    pub recipients: Vec<Recipient>,
    pub inputs: Vec<DraftInput>,
    /// Fee-rate target, in satoshi per virtual byte.
    pub fee_rate: u64,
    /// Change-output creation is disabled while this is set; the
    /// builder always sets it, so that no participant is re-identified
    /// by an unexpected change output.
    pub no_change: bool,
}

/// Mathematical value of a [`TransactionDraft`].
#[verifier::ext_equal]
pub ghost struct DraftV {
    pub recipients: Seq<RecipientV>,
    pub inputs: Seq<DraftInputV>,
    pub fee_rate: u64,
    pub no_change: bool,
}

impl View for TransactionDraft {
    type V = DraftV;

    open spec fn view(&self) -> DraftV {
        DraftV {
            recipients: self.recipients@.map_values(|r: Recipient| r@),
            inputs: self.inputs@.map_values(|i: DraftInput| i@),
            fee_rate: self.fee_rate,
            no_change: self.no_change,
        }
    }
}

impl DraftV {
    /// Every signature slot is still empty.
    pub open spec fn unsigned(self) -> bool {
        forall|i: int| 0 <= i < self.inputs.len() ==> self.inputs[i].signature is None
    }

    /// Every signature slot is populated: the transaction is
    /// semantically complete and may be finalized.
    pub open spec fn fully_signed(self) -> bool {
        forall|i: int| 0 <= i < self.inputs.len() ==> self.inputs[i].signature is Some
    }

    /// The draft with the signature slot of input `i` populated.
    pub open spec fn with_signature(self, i: int, sig: Seq<u8>) -> DraftV {
        DraftV {
            inputs: self.inputs.update(
                i,
                DraftInputV { signature: Some(sig), ..self.inputs[i] },
            ),
            ..self
        }
    }

    /// Two drafts agree on everything but their signature slots.
    pub open spec fn same_base(self, other: DraftV) -> bool {
        &&& self.recipients == other.recipients
        &&& self.fee_rate == other.fee_rate
        &&& self.no_change == other.no_change
        &&& self.inputs.len() == other.inputs.len()
        &&& forall|i: int|
            0 <= i < self.inputs.len() ==> self.inputs[i].same_base(#[trigger] other.inputs[i])
    }
}

impl TransactionDraft {
    /// A fresh, structurally identical copy of the draft.
    pub fn duplicate(&self) -> (r: TransactionDraft)
        ensures
            r@ == self@,
    {
        let mut recipients: Vec<Recipient> = Vec::new();
        let mut i: usize = 0;
        let n = self.recipients.len();
        while i < n
            invariant
                n == self.recipients@.len(),
                i <= n,
                recipients@.len() == i,
                forall|k: int| 0 <= k < i ==> (#[trigger] recipients@[k])@ == self.recipients@[k]@,
            decreases n - i,
        {
            recipients.push(self.recipients[i].duplicate());
            i += 1;
        }
        let mut inputs: Vec<DraftInput> = Vec::new();
        let mut j: usize = 0;
        let m = self.inputs.len();
        while j < m
            invariant
                m == self.inputs@.len(),
                j <= m,
                inputs@.len() == j,
                forall|k: int| 0 <= k < j ==> (#[trigger] inputs@[k])@ == self.inputs@[k]@,
            decreases m - j,
        {
            inputs.push(self.inputs[j].duplicate());
            j += 1;
        }
        let r = TransactionDraft { recipients, inputs, fee_rate: self.fee_rate, no_change: self.no_change };
        proof {
            assert(r@.recipients =~= self@.recipients);
            assert(r@.inputs =~= self@.inputs);
            assert(r@ =~= self@);
        }
        r
    }

    /// Whether two drafts agree on every non-signature field.
    pub fn base_eq(&self, other: &TransactionDraft) -> (r: bool)
        ensures
            r == self@.same_base(other@),
    {
        if self.fee_rate != other.fee_rate || self.no_change != other.no_change {
            return false;
        }
        if self.recipients.len() != other.recipients.len() {
            assert(self@.recipients.len() != other@.recipients.len());
            return false;
        }
        if self.inputs.len() != other.inputs.len() {
            assert(self@.inputs.len() != other@.inputs.len());
            return false;
        }
        let n = self.recipients.len();
        let mut i: usize = 0;
        while i < n
            invariant
                n == self.recipients@.len() == other.recipients@.len(),
                i <= n,
                forall|k: int| 0 <= k < i ==> self@.recipients[k] == #[trigger] other@.recipients[k],
            decreases n - i,
        {
            if !self.recipients[i].same(&other.recipients[i]) {
                assert(self@.recipients[i as int] != other@.recipients[i as int]);
                return false;
            }
            i += 1;
        }
        proof {
            assert(self@.recipients =~= other@.recipients);
        }
        let m = self.inputs.len();
        let mut j: usize = 0;
        while j < m
            invariant
                m == self.inputs@.len() == other.inputs@.len(),
                j <= m,
                forall|k: int| 0 <= k < j ==> self@.inputs[k].same_base(#[trigger] other@.inputs[k]),
            decreases m - j,
        {
            if !self.inputs[j].base_eq(&other.inputs[j]) {
                assert(!self@.inputs[j as int].same_base(other@.inputs[j as int]));
                return false;
            }
            j += 1;
        }
        true
    }
}

/// One participant's independently signed copy of the round's draft.
pub struct SignedContribution {
    pub tx: TransactionDraft,
}

impl View for SignedContribution {
    type V = DraftV;

    open spec fn view(&self) -> DraftV {
        self.tx@
    }
}

impl TransactionDraft {
    /// The working copy a participant's wallet signs. Signing never
    /// mutates the shared draft: each participant works on its own
    /// structurally identical copy.
    pub fn to_contribution(&self) -> (c: SignedContribution)
        ensures
            c@ == self@,
    {
        SignedContribution { tx: self.duplicate() }
    }
}

impl SignedContribution {
    /// A fresh, structurally identical copy of the contribution.
    pub fn duplicate(&self) -> (r: SignedContribution)
        ensures
            r@ == self@,
    {
        SignedContribution { tx: self.tx.duplicate() }
    }

    /// Record the signature a wallet produced for the input at `index`.
    /// A participant only fills the slots of inputs it owns; every other
    /// field stays untouched.
    pub fn add_signature(&mut self, index: usize, signature: Vec<u8>)
        requires
            index < old(self)@.inputs.len(),
        ensures
            final(self)@ == old(self)@.with_signature(index as int, signature@),
    {
        let updated = DraftInput {
            outpoint: self.tx.inputs[index].outpoint.duplicate(),
            descriptor: self.tx.inputs[index].descriptor.duplicate(),
            signature: Some(signature),
        };
        self.tx.inputs.set(index, updated);
        proof {
            assert(self@.inputs =~= old(self)@.with_signature(index as int, signature@).inputs);
            assert(self@ =~= old(self)@.with_signature(index as int, signature@));
        }
    }
}

/// The combination of all signed contributions of a round. It is
/// semantically complete exactly when every input's signature slot is
/// populated.
pub struct MergedTransaction {
    pub tx: TransactionDraft,
}

impl View for MergedTransaction {
    type V = DraftV;

    open spec fn view(&self) -> DraftV {
        self.tx@
    }
}

/// One input of the finalized transaction, carrying its signature.
pub struct FinalizedInput {
    pub outpoint: Outpoint,
    pub signature: Vec<u8>,
}

/// Mathematical value of a [`FinalizedInput`].
#[verifier::ext_equal]
pub ghost struct FinalizedInputV {
    pub outpoint: OutpointV,
    pub signature: Seq<u8>,
}

impl View for FinalizedInput {
    type V = FinalizedInputV;

    open spec fn view(&self) -> FinalizedInputV {
        FinalizedInputV { outpoint: self.outpoint@, signature: self.signature@ }
    }
}

/// The terminal artifact of a round: every input carries its signature
/// and the recipient list is exactly the one distributed for signing.
/// Created once, never mutated.
pub struct FinalizedTransaction {
    pub inputs: Vec<FinalizedInput>,
    pub recipients: Vec<Recipient>,
}

/// Mathematical value of a [`FinalizedTransaction`].
#[verifier::ext_equal]
pub ghost struct FinalizedV {
    pub inputs: Seq<FinalizedInputV>,
    pub recipients: Seq<RecipientV>,
}

impl View for FinalizedTransaction {
    type V = FinalizedV;

    open spec fn view(&self) -> FinalizedV {
        FinalizedV {
            inputs: self.inputs@.map_values(|i: FinalizedInput| i@),
            recipients: self.recipients@.map_values(|r: Recipient| r@),
        }
    }
}

} // verus!
