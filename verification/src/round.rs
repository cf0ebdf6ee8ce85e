//! One round of the protocol, as an explicit state machine.
//!
//! `Registering → Snapshotted → Built → Distributed → Merging →
//! Finalized`, with `Failed` terminal and reachable from the
//! round-fatal errors: empty registration, insufficient funds, a fee
//! or size failure, a merge conflict, or incomplete signatures.
//! Registration and signing errors are participant-scoped and leave
//! the round alive. There is no retry across stages: a failed round is
//! abandoned, and a fresh round starts from registration with a fresh
//! registration set, so no outpoint is reused across rounds.

use vstd::prelude::*;

use crate::aggregator::{contribution_views, merge, merge_seq};
use crate::builder::{build, built_draft, required_funds};
use crate::errors::{BuildError, FinalizeError, MergeError, RegistrationError};
use crate::finalizer::{finalize, finalized_of};
use crate::outpoint::Outpoint;
use crate::registry::{Registry, RegistryV, Snapshot, SnapshotV};
use crate::transaction::{
    DraftV, FinalizedTransaction, FinalizedV, MergedTransaction, SignableInputDescriptor,
    SignedContribution, TransactionDraft,
};

verus! {

/// The stage a round is in.
#[derive(Clone, Copy, Debug, PartialEq, Eq, Structural)]
pub enum RoundPhase {
    /// Contributions are being collected.
    Registering,
    /// The registration set is frozen; later submissions belong to the
    /// next round.
    Snapshotted,
    /// The joint draft exists and its ordering is fixed.
    Built,
    /// The draft has been handed to the participants for signing.
    Distributed,
    /// The signed copies have been combined.
    Merging,
    /// The broadcastable transaction exists. Terminal.
    Finalized,
    /// The round was abandoned after a round-fatal error. Terminal.
    Failed,
}

/// One coordination round.
pub struct Round {
    phase: RoundPhase,
    registry: Registry,
    snapshot: Option<Snapshot>,
    draft: Option<TransactionDraft>,
    contributions: Vec<SignedContribution>,
    merged: Option<MergedTransaction>,
    finalized: Option<FinalizedTransaction>,
}

/// Mathematical value of a [`Round`].
#[verifier::ext_equal]
pub ghost struct RoundV {
    pub phase: RoundPhase,
    pub registry: RegistryV,
    pub snapshot: Option<SnapshotV>,
    pub draft: Option<DraftV>,
    pub contributions: Seq<DraftV>,
    pub merged: Option<DraftV>,
    pub finalized: Option<FinalizedV>,
}

impl View for Round {
    type V = RoundV;

    closed spec fn view(&self) -> RoundV {
        RoundV {
            phase: self.phase,
            registry: self.registry@,
            snapshot: match self.snapshot {
                Some(s) => Some(s@),
                None => None,
            },
            draft: match self.draft {
                Some(d) => Some(d@),
                None => None,
            },
            contributions: contribution_views(self.contributions@),
            merged: match self.merged {
                Some(m) => Some(m@),
                None => None,
            },
            finalized: match self.finalized {
                Some(f) => Some(f@),
                None => None,
            },
        }
    }
}

impl RoundV {
    /// What each phase guarantees about the round's artifacts.
    pub open spec fn wf(self) -> bool {
        &&& self.registry.wf()
        &&& (self.phase is Registering ==> self.snapshot is None && self.draft is None)
        &&& (self.phase is Snapshotted ==> self.snapshot is Some && self.draft is None)
        &&& (self.phase is Built || self.phase is Distributed || self.phase is Merging
            || self.phase is Finalized ==> self.snapshot is Some && self.draft is Some)
        &&& (self.phase is Merging || self.phase is Finalized ==> self.merged is Some)
        &&& (self.finalized is Some <==> self.phase is Finalized)
    }
}

impl Round {
    /// Open a fresh round with an empty registration set.
    pub fn new() -> (r: Round)
        ensures
            r@.wf(),
            r@.phase == RoundPhase::Registering,
            r@.registry.inputs.len() == 0,
            r@.registry.outputs.len() == 0,
            r@.contributions.len() == 0,
    {
        let r = Round {
            phase: RoundPhase::Registering,
            registry: Registry::new(),
            snapshot: None,
            draft: None,
            contributions: Vec::new(),
            merged: None,
            finalized: None,
        };
        proof {
            assert(r@.contributions =~= Seq::<DraftV>::empty());
        }
        r
    }

    /// The stage the round is in.
    pub fn phase(&self) -> (r: RoundPhase)
        ensures
            r == self@.phase,
    {
        self.phase
    }

    /// Whether the registry can still hand out a fresh record
    /// identifier.
    pub fn has_capacity(&self) -> (r: bool)
        ensures
            r == (self@.registry.next_id < u64::MAX),
    {
        self.registry.has_capacity()
    }

    /// Register a participant's coin. Participant-scoped errors leave
    /// the round's phase and visible registration set unchanged.
    pub fn register_input(
        &mut self,
        outpoint: Outpoint,
        descriptor: SignableInputDescriptor,
    ) -> (r: Result<u64, RegistrationError>)
        requires
            old(self)@.wf(),
            old(self)@.phase == RoundPhase::Registering,
            outpoint@.wf(),
            old(self)@.registry.next_id < u64::MAX,
        ensures
            final(self)@.wf(),
            final(self)@.phase == RoundPhase::Registering,
            old(self)@.registry.has_outpoint(outpoint@) ==> r == Err::<u64, RegistrationError>(
                RegistrationError::DuplicateOutpoint,
            ) && final(self)@ == old(self)@,
            !old(self)@.registry.has_outpoint(outpoint@) ==> {
                &&& r == Ok::<u64, RegistrationError>(old(self)@.registry.next_id)
                &&& final(self)@.registry.inputs == old(self)@.registry.inputs.push(
                    crate::registry::InputRegistrationV {
                        id: old(self)@.registry.next_id,
                        outpoint: outpoint@,
                        descriptor: descriptor@,
                    },
                )
                &&& final(self)@.registry.outputs == old(self)@.registry.outputs
            },
    {
        let r = self.registry.register_input(outpoint, descriptor);
        proof {
            if r is Err {
                assert(self@ =~= old(self)@);
            }
        }
        r
    }

    /// Register a participant's payout address.
    pub fn register_output(&mut self, address: Vec<u8>) -> (r: u64)
        requires
            old(self)@.wf(),
            old(self)@.phase == RoundPhase::Registering,
            old(self)@.registry.next_id < u64::MAX,
        ensures
            final(self)@.wf(),
            final(self)@.phase == RoundPhase::Registering,
            r == old(self)@.registry.next_id,
            final(self)@.registry.outputs == old(self)@.registry.outputs.push(
                crate::registry::OutputRegistrationV {
                    id: old(self)@.registry.next_id,
                    address: address@,
                },
            ),
            final(self)@.registry.inputs == old(self)@.registry.inputs,
    {
        self.registry.register_output(address)
    }

    /// Close the registration set: draw the round boundary. Later
    /// submissions are for the next round, never silently folded into
    /// this one.
    pub fn close_and_snapshot(&mut self)
        requires
            old(self)@.wf(),
            old(self)@.phase == RoundPhase::Registering,
        ensures
            final(self)@.wf(),
            final(self)@.phase == RoundPhase::Snapshotted,
            final(self)@.snapshot == Some(old(self)@.registry.as_snapshot()),
            final(self)@.registry == old(self)@.registry,
    {
        let s = self.registry.snapshot();
        self.snapshot = Some(s);
        self.phase = RoundPhase::Snapshotted;
    }

    /// Build the joint transaction from the frozen registration set.
    /// A failure is round-fatal: the round moves to `Failed`.
    pub fn build_draft(&mut self, payout_amount: u64, fee_rate: u64, owned_funds: u64) -> (r:
        Result<(), BuildError>)
        requires
            old(self)@.wf(),
            old(self)@.phase == RoundPhase::Snapshotted,
        ensures
            final(self)@.wf(),
            r is Ok ==> final(self)@.phase == RoundPhase::Built && final(self)@.draft == Some(
                built_draft(old(self)@.snapshot.unwrap(), payout_amount, fee_rate),
            ),
            r is Err ==> final(self)@.phase == RoundPhase::Failed,
            final(self)@.snapshot == old(self)@.snapshot,
            final(self)@.registry == old(self)@.registry,
            r is Ok <==> {
                &&& old(self)@.snapshot.unwrap().inputs.len() > 0
                &&& old(self)@.snapshot.unwrap().outputs.len() > 0
                &&& required_funds(
                    old(self)@.snapshot.unwrap().inputs.len() as int,
                    old(self)@.snapshot.unwrap().outputs.len() as int,
                    payout_amount as int,
                    fee_rate as int,
                ) <= u64::MAX
                &&& owned_funds >= required_funds(
                    old(self)@.snapshot.unwrap().inputs.len() as int,
                    old(self)@.snapshot.unwrap().outputs.len() as int,
                    payout_amount as int,
                    fee_rate as int,
                )
            },
    {
        let snapshot = match &self.snapshot {
            Some(s) => s,
            None => {
                proof {
                    assert(false);
                }
                self.phase = RoundPhase::Failed;
                return Err(BuildError::EmptyRegistration);
            },
        };
        match build(snapshot, payout_amount, fee_rate, owned_funds) {
            Ok(d) => {
                self.draft = Some(d);
                self.phase = RoundPhase::Built;
                Ok(())
            },
            Err(e) => {
                self.phase = RoundPhase::Failed;
                Err(e)
            },
        }
    }

    /// The draft to hand out for signing.
    pub fn draft(&self) -> (r: Option<&TransactionDraft>)
        ensures
            r is Some <==> self@.draft is Some,
            r matches Some(d) ==> d@ == self@.draft.unwrap(),
    {
        match &self.draft {
            Some(d) => Some(d),
            None => None,
        }
    }

    /// Mark the draft as handed out to the participants. Signing runs
    /// outside the round, one participant at a time, in any order.
    pub fn start_distribution(&mut self)
        requires
            old(self)@.wf(),
            old(self)@.phase == RoundPhase::Built,
        ensures
            final(self)@.wf(),
            final(self)@.phase == RoundPhase::Distributed,
            final(self)@.draft == old(self)@.draft,
            final(self)@.contributions == old(self)@.contributions,
            final(self)@.registry == old(self)@.registry,
            final(self)@.snapshot == old(self)@.snapshot,
    {
        self.phase = RoundPhase::Distributed;
    }

    /// Collect one participant's signed copy. A participant whose
    /// signing failed simply never submits one; the round goes on with
    /// the contributions that arrived.
    pub fn record_contribution(&mut self, c: SignedContribution)
        requires
            old(self)@.wf(),
            old(self)@.phase == RoundPhase::Distributed,
        ensures
            final(self)@.wf(),
            final(self)@.phase == RoundPhase::Distributed,
            final(self)@.contributions == old(self)@.contributions.push(c@),
            final(self)@.draft == old(self)@.draft,
    {
        self.contributions.push(c);
        proof {
            assert(self@.contributions =~= old(self)@.contributions.push(c@));
        }
    }

    /// Combine the collected signed copies. A conflict is round-fatal.
    pub fn merge_contributions(&mut self) -> (r: Result<(), MergeError>)
        requires
            old(self)@.wf(),
            old(self)@.phase == RoundPhase::Distributed,
            old(self)@.contributions.len() >= 1,
        ensures
            final(self)@.wf(),
            merge_seq(old(self)@.contributions) matches Some(v) ==> r is Ok && final(self)@.phase
                == RoundPhase::Merging && final(self)@.merged == Some(v),
            merge_seq(old(self)@.contributions) is None ==> r == Err::<(), MergeError>(
                MergeError::MergeConflict,
            ) && final(self)@.phase == RoundPhase::Failed,
            final(self)@.contributions == old(self)@.contributions,
            final(self)@.draft == old(self)@.draft,
    {
        let n = self.contributions.len();
        let mut copies: Vec<SignedContribution> = Vec::new();
        let mut i: usize = 0;
        while i < n
            invariant
                n == self.contributions@.len(),
                i <= n,
                copies@.len() == i,
                forall|k: int| 0 <= k < i ==> (#[trigger] copies@[k])@ == self.contributions@[k]@,
            decreases n - i,
        {
            copies.push(self.contributions[i].duplicate());
            i += 1;
        }
        proof {
            assert(contribution_views(copies@) =~= self@.contributions);
        }
        match merge(copies) {
            Ok(m) => {
                self.merged = Some(m);
                self.phase = RoundPhase::Merging;
                Ok(())
            },
            Err(e) => {
                self.phase = RoundPhase::Failed;
                Err(e)
            },
        }
    }

    /// Extract the broadcastable transaction. Finalization is
    /// all-or-nothing: missing signatures are round-fatal and no
    /// partial artifact is produced.
    pub fn finalize_round(&mut self) -> (r: Result<(), FinalizeError>)
        requires
            old(self)@.wf(),
            old(self)@.phase == RoundPhase::Merging,
        ensures
            final(self)@.wf(),
            r is Ok <==> old(self)@.merged.unwrap().fully_signed(),
            r is Ok ==> final(self)@.phase == RoundPhase::Finalized && final(self)@.finalized
                == Some(finalized_of(old(self)@.merged.unwrap())),
            r is Err ==> r == Err::<(), FinalizeError>(FinalizeError::IncompleteSignatures)
                && final(self)@.phase == RoundPhase::Failed && final(self)@.finalized is None,
            final(self)@.merged == old(self)@.merged,
            final(self)@.draft == old(self)@.draft,
    {
        let merged = match &self.merged {
            Some(m) => m,
            None => {
                proof {
                    assert(false);
                }
                self.phase = RoundPhase::Failed;
                return Err(FinalizeError::IncompleteSignatures);
            },
        };
        match finalize(merged) {
            Ok(f) => {
                self.finalized = Some(f);
                self.phase = RoundPhase::Finalized;
                Ok(())
            },
            Err(e) => {
                self.phase = RoundPhase::Failed;
                Err(e)
            },
        }
    }

    /// The terminal artifact, once the round is finalized.
    pub fn finalized(&self) -> (r: Option<&FinalizedTransaction>)
        ensures
            r is Some <==> self@.finalized is Some,
            r matches Some(f) ==> f@ == self@.finalized.unwrap(),
    {
        match &self.finalized {
            Some(f) => Some(f),
            None => None,
        }
    }
}

} // verus!
