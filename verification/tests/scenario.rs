//! End-to-end rounds: three participants join, sign and finalize.

use coinjoin::errors::FinalizeError;
use coinjoin::round::{Round, RoundPhase};
use coinjoin::transaction::{SignableInputDescriptor, SignedContribution};

fn outpoint(tx_digit: char, vout: u32) -> coinjoin::outpoint::Outpoint {
    let txid: String = std::iter::repeat(tx_digit).take(64).collect();
    let s = format!("{}:{}", txid, vout);
    coinjoin::outpoint::Outpoint::parse(&s).expect("outpoint string must parse")
}

fn descriptor(tag: u8) -> SignableInputDescriptor {
    SignableInputDescriptor { bytes: vec![tag, 0x02, 0x03, 0x04] }
}

/// Three participants each register one 0.01-coin input (1_000_000
/// satoshi) and one payout address; payout 0.005 (500_000 satoshi) at
/// 10 sat/vbyte. The finalized transaction carries exactly three
/// signed inputs and three equal outputs, and no change output.
#[test]
fn three_participants_full_round() {
    let mut round = Round::new();
    assert_eq!(round.phase(), RoundPhase::Registering);

    for (i, d) in ['a', 'b', 'c'].iter().enumerate() {
        round
            .register_input(outpoint(*d, 0), descriptor(i as u8 + 1))
            .expect("registration of a fresh outpoint succeeds");
        round.register_output(format!("bcrt1qparticipant{}", i).into_bytes());
    }
    round.close_and_snapshot();
    assert_eq!(round.phase(), RoundPhase::Snapshotted);

    // required funds: 3 * 500_000 + 10 * (11 + 3 * 73 + 3 * 31) = 1_503_230
    round
        .build_draft(500_000, 10, 2_000_000)
        .expect("the coordinator's funds cover payouts and fee");
    assert_eq!(round.phase(), RoundPhase::Built);

    let draft = round.draft().expect("a built round has a draft");
    assert_eq!(draft.recipients.len(), 3);
    assert!(draft.recipients.iter().all(|r| r.amount == 500_000));
    assert_eq!(draft.inputs.len(), 3);
    assert!(draft.inputs.iter().all(|i| i.signature.is_none()));
    assert!(draft.no_change);
    assert_eq!(draft.fee_rate, 10);

    // Each participant signs its own input on its own copy.
    let mut contributions: Vec<SignedContribution> = Vec::new();
    for i in 0..3usize {
        let mut c = draft.to_contribution();
        c.add_signature(i, vec![0xA0 + i as u8; 72]);
        contributions.push(c);
    }

    round.start_distribution();
    for c in contributions {
        round.record_contribution(c);
    }
    round.merge_contributions().expect("copies of one draft merge");
    assert_eq!(round.phase(), RoundPhase::Merging);

    round.finalize_round().expect("every input is signed");
    assert_eq!(round.phase(), RoundPhase::Finalized);

    let tx = round.finalized().expect("a finalized round has its artifact");
    assert_eq!(tx.inputs.len(), 3);
    assert_eq!(tx.recipients.len(), 3);
    for (i, input) in tx.inputs.iter().enumerate() {
        assert_eq!(input.signature, vec![0xA0 + i as u8; 72]);
    }
    for r in &tx.recipients {
        assert_eq!(r.amount, 500_000);
    }
}

/// Same round, but one participant's signing fails: only two
/// contributions arrive, the merge leaves one slot empty, and
/// finalization fails with `IncompleteSignatures` and no artifact.
#[test]
fn missing_signature_fails_finalization() {
    let mut round = Round::new();
    for (i, d) in ['a', 'b', 'c'].iter().enumerate() {
        round
            .register_input(outpoint(*d, 0), descriptor(i as u8 + 1))
            .expect("registration of a fresh outpoint succeeds");
        round.register_output(format!("bcrt1qparticipant{}", i).into_bytes());
    }
    round.close_and_snapshot();
    round
        .build_draft(500_000, 10, 2_000_000)
        .expect("the coordinator's funds cover payouts and fee");

    let draft = round.draft().expect("a built round has a draft");
    let mut signed = Vec::new();
    for i in 0..3usize {
        if i == 1 {
            continue; // this participant's wallet failed to sign
        }
        let mut c = draft.to_contribution();
        c.add_signature(i, vec![0xB0 + i as u8; 72]);
        signed.push(c);
    }

    round.start_distribution();
    for c in signed {
        round.record_contribution(c);
    }
    round.merge_contributions().expect("the two copies merge cleanly");

    let r = round.finalize_round();
    assert_eq!(r, Err(FinalizeError::IncompleteSignatures));
    assert_eq!(round.phase(), RoundPhase::Failed);
    assert!(round.finalized().is_none());
}
