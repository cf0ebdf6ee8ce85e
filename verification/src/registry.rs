//! The contribution registry of a round.
//!
//! It durably records each participant's chosen coin together with its
//! signable-input descriptor, and each participant's nominated payout
//! address. Every record is keyed by a collision-resistant identifier
//! drawn from a monotonic counter, never by participant-chosen values,
//! so concurrent submitters cannot clobber one another. A snapshot is a
//! point-in-time copy: registrations arriving later belong to the next
//! round and never leak into an in-flight build.

use vstd::prelude::*;

use crate::bytevec::copy_bytes;
use crate::errors::RegistrationError;
use crate::outpoint::{Outpoint, OutpointV};
use crate::transaction::SignableInputDescriptor;

verus! {

/// One registered input: a participant's chosen coin and the proof
/// structure that lets the builder spend it as a foreign input.
/// Immutable once created.
pub struct InputRegistration {
    /// Registry-assigned, collision-resistant record identifier.
    pub id: u64,
    pub outpoint: Outpoint,
    pub descriptor: SignableInputDescriptor,
}

/// Mathematical value of an [`InputRegistration`].
#[verifier::ext_equal]
pub ghost struct InputRegistrationV {
    pub id: u64,
    pub outpoint: OutpointV,
    pub descriptor: Seq<u8>,
}

impl View for InputRegistration {
    type V = InputRegistrationV;

    open spec fn view(&self) -> InputRegistrationV {
        InputRegistrationV { id: self.id, outpoint: self.outpoint@, descriptor: self.descriptor@ }
    }
}

impl InputRegistration {
    /// A fresh record with the same identifier, coin and descriptor.
    pub fn duplicate(&self) -> (r: InputRegistration)
        ensures
            r@ == self@,
    {
        let r = InputRegistration {
            id: self.id,
            outpoint: self.outpoint.duplicate(),
            descriptor: self.descriptor.duplicate(),
        };
        proof {
            assert(r@ =~= self@);
        }
        r
    }
}

/// One registered payout address. Immutable once created. Two
/// participants may nominate the same address; duplicates are kept.
pub struct OutputRegistration {
    /// Registry-assigned, collision-resistant record identifier.
    pub id: u64,
    /// Destination address, as the bytes of its textual form.
    pub address: Vec<u8>,
}

/// Mathematical value of an [`OutputRegistration`].
#[verifier::ext_equal]
pub ghost struct OutputRegistrationV {
    pub id: u64,
    pub address: Seq<u8>,
}

impl View for OutputRegistration {
    type V = OutputRegistrationV;

    open spec fn view(&self) -> OutputRegistrationV {
        OutputRegistrationV { id: self.id, address: self.address@ }
    }
}

impl OutputRegistration {
    /// A fresh record with the same identifier and address.
    pub fn duplicate(&self) -> (r: OutputRegistration)
        ensures
            r@ == self@,
    {
        let r = OutputRegistration { id: self.id, address: copy_bytes(&self.address) };
        proof {
            assert(r@ =~= self@);
        }
        r
    }
}

/// A point-in-time copy of all registrations of the round: the material
/// one joint-transaction build consumes.
pub struct Snapshot {
    pub inputs: Vec<InputRegistration>,
    pub outputs: Vec<OutputRegistration>,
}

/// Mathematical value of a [`Snapshot`].
#[verifier::ext_equal]
pub ghost struct SnapshotV {
    pub inputs: Seq<InputRegistrationV>,
    pub outputs: Seq<OutputRegistrationV>,
}

impl View for Snapshot {
    type V = SnapshotV;

    open spec fn view(&self) -> SnapshotV {
        SnapshotV {
            inputs: self.inputs@.map_values(|r: InputRegistration| r@),
            outputs: self.outputs@.map_values(|r: OutputRegistration| r@),
        }
    }
}

impl SnapshotV {
    /// Every registered coin is well formed and no coin appears twice:
    /// reusing an outpoint within one joint transaction is invalid.
    pub open spec fn wf(self) -> bool {
        &&& forall|i: int| 0 <= i < self.inputs.len() ==> (#[trigger] self.inputs[i]).outpoint.wf()
        &&& forall|i: int, j: int|
            0 <= i < j < self.inputs.len() ==> (#[trigger] self.inputs[i]).outpoint != (
            #[trigger] self.inputs[j]).outpoint
    }
}

/// The append-only record store of one round.
pub struct Registry {
    inputs: Vec<InputRegistration>,
    outputs: Vec<OutputRegistration>,
    next_id: u64,
}

/// Mathematical value of a [`Registry`].
#[verifier::ext_equal]
pub ghost struct RegistryV {
    pub inputs: Seq<InputRegistrationV>,
    pub outputs: Seq<OutputRegistrationV>,
    pub next_id: u64,
}

impl View for Registry {
    type V = RegistryV;

    closed spec fn view(&self) -> RegistryV {
        RegistryV {
            inputs: self.inputs@.map_values(|r: InputRegistration| r@),
            outputs: self.outputs@.map_values(|r: OutputRegistration| r@),
            next_id: self.next_id,
        }
    }
}

impl RegistryV {
    /// Registry invariant: coins are well formed and pairwise distinct,
    /// and every record identifier was drawn from the counter exactly
    /// once, so identifiers are unique across all records.
    pub open spec fn wf(self) -> bool {
        &&& forall|i: int| 0 <= i < self.inputs.len() ==> (#[trigger] self.inputs[i]).outpoint.wf()
        &&& forall|i: int, j: int|
            0 <= i < j < self.inputs.len() ==> (#[trigger] self.inputs[i]).outpoint != (
            #[trigger] self.inputs[j]).outpoint
        &&& forall|i: int| 0 <= i < self.inputs.len() ==> (#[trigger] self.inputs[i]).id < self.next_id
        &&& forall|i: int|
            0 <= i < self.outputs.len() ==> (#[trigger] self.outputs[i]).id < self.next_id
        &&& forall|i: int, j: int|
            0 <= i < j < self.inputs.len() ==> (#[trigger] self.inputs[i]).id != (
            #[trigger] self.inputs[j]).id
        &&& forall|i: int, j: int|
            0 <= i < j < self.outputs.len() ==> (#[trigger] self.outputs[i]).id != (
            #[trigger] self.outputs[j]).id
        &&& forall|i: int, j: int|
            0 <= i < self.inputs.len() && 0 <= j < self.outputs.len() ==> (
            #[trigger] self.inputs[i]).id != (#[trigger] self.outputs[j]).id
    }

    /// Whether some registered input already spends the given coin.
    pub open spec fn has_outpoint(self, op: OutpointV) -> bool {
        exists|i: int| 0 <= i < self.inputs.len() && (#[trigger] self.inputs[i]).outpoint == op
    }

    /// The view of the snapshot this registry hands out.
    pub open spec fn as_snapshot(self) -> SnapshotV {
        SnapshotV { inputs: self.inputs, outputs: self.outputs }
    }
}

impl Registry {
    /// An empty registry opening a fresh round.
    pub fn new() -> (r: Registry)
        ensures
            r@.wf(),
            r@.inputs == Seq::<InputRegistrationV>::empty(),
            r@.outputs == Seq::<OutputRegistrationV>::empty(),
            r@.next_id == 0,
    {
        let r = Registry { inputs: Vec::new(), outputs: Vec::new(), next_id: 0 };
        proof {
            assert(r@.inputs =~= Seq::<InputRegistrationV>::empty());
            assert(r@.outputs =~= Seq::<OutputRegistrationV>::empty());
        }
        r
    }

    /// Append an input registration.
    ///
    /// Rejects, with `DuplicateOutpoint` and the registry unchanged, a
    /// coin that is already registered in this round; otherwise appends
    /// the record and returns its identifier.
    pub fn register_input(
        &mut self,
        outpoint: Outpoint,
        descriptor: SignableInputDescriptor,
    ) -> (r: Result<u64, RegistrationError>)
        requires
            old(self)@.wf(),
            outpoint@.wf(),
            old(self)@.next_id < u64::MAX,
        ensures
            final(self)@.wf(),
            old(self)@.has_outpoint(outpoint@) ==> r == Err::<u64, RegistrationError>(
                RegistrationError::DuplicateOutpoint,
            ) && final(self)@ == old(self)@,
            !old(self)@.has_outpoint(outpoint@) ==> {
                &&& r == Ok::<u64, RegistrationError>(old(self)@.next_id)
                &&& final(self)@.inputs == old(self)@.inputs.push(
                    InputRegistrationV {
                        id: old(self)@.next_id,
                        outpoint: outpoint@,
                        descriptor: descriptor@,
                    },
                )
                &&& final(self)@.outputs == old(self)@.outputs
                &&& final(self)@.next_id == old(self)@.next_id + 1
            },
    {
        let n = self.inputs.len();
        let mut i: usize = 0;
        while i < n
            invariant
                self@ == old(self)@,
                self@.wf(),
                n == self.inputs@.len(),
                i <= n,
                forall|k: int| 0 <= k < i ==> (#[trigger] self@.inputs[k]).outpoint != outpoint@,
            decreases n - i,
        {
            if self.inputs[i].outpoint.same_coin(&outpoint) {
                proof {
                    assert(self@.inputs[i as int].outpoint == outpoint@);
                }
                return Err(RegistrationError::DuplicateOutpoint);
            }
            i += 1;
        }
        assert(!self@.has_outpoint(outpoint@));
        let ghost pre = self@;
        let id = self.next_id;
        self.inputs.push(InputRegistration { id, outpoint, descriptor });
        self.next_id = id + 1;
        proof {
            assert(self@.inputs =~= pre.inputs.push(
                InputRegistrationV { id: pre.next_id, outpoint: outpoint@, descriptor: descriptor@ },
            ));
            assert(self@.outputs =~= pre.outputs);
        }
        Ok(id)
    }

    /// Append an output registration and return its identifier.
    /// Addresses are not deduplicated.
    pub fn register_output(&mut self, address: Vec<u8>) -> (r: u64)
        requires
            old(self)@.wf(),
            old(self)@.next_id < u64::MAX,
        ensures
            final(self)@.wf(),
            r == old(self)@.next_id,
            final(self)@.outputs == old(self)@.outputs.push(
                OutputRegistrationV { id: old(self)@.next_id, address: address@ },
            ),
            final(self)@.inputs == old(self)@.inputs,
            final(self)@.next_id == old(self)@.next_id + 1,
    {
        let ghost pre = self@;
        let id = self.next_id;
        self.outputs.push(OutputRegistration { id, address });
        self.next_id = id + 1;
        proof {
            assert(self@.outputs =~= pre.outputs.push(
                OutputRegistrationV { id: pre.next_id, address: address@ },
            ));
            assert(self@.inputs =~= pre.inputs);
        }
        id
    }

    /// Whether a fresh record identifier can still be drawn from the
    /// counter.
    pub fn has_capacity(&self) -> (r: bool)
        ensures
            r == (self@.next_id < u64::MAX),
    {
        self.next_id < u64::MAX
    }

    /// The current ordered registrations, as a fresh copy. Later
    /// registrations extend the registry, never a snapshot already
    /// taken.
    pub fn snapshot(&self) -> (s: Snapshot)
        ensures
            s@ == self@.as_snapshot(),
            self@.wf() ==> s@.wf(),
    {
        let mut inputs: Vec<InputRegistration> = Vec::new();
        let n = self.inputs.len();
        let mut i: usize = 0;
        while i < n
            invariant
                n == self.inputs@.len(),
                i <= n,
                inputs@.len() == i,
                forall|k: int| 0 <= k < i ==> (#[trigger] inputs@[k])@ == self.inputs@[k]@,
            decreases n - i,
        {
            inputs.push(self.inputs[i].duplicate());
            i += 1;
        }
        let mut outputs: Vec<OutputRegistration> = Vec::new();
        let m = self.outputs.len();
        let mut j: usize = 0;
        while j < m
            invariant
                m == self.outputs@.len(),
                j <= m,
                outputs@.len() == j,
                forall|k: int| 0 <= k < j ==> (#[trigger] outputs@[k])@ == self.outputs@[k]@,
            decreases m - j,
        {
            outputs.push(self.outputs[j].duplicate());
            j += 1;
        }
        let s = Snapshot { inputs, outputs };
        proof {
            assert(s@.inputs =~= self@.inputs);
            assert(s@.outputs =~= self@.outputs);
            assert(s@ =~= self@.as_snapshot());
        }
        s
    }
}

} // verus!
