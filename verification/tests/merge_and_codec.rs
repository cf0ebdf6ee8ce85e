//! Signature merge behaviour and the persisted encodings.

use coinjoin::aggregator::{merge, merge_two};
use coinjoin::errors::{FinalizeError, MergeError};
use coinjoin::finalizer::finalize;
use coinjoin::hex::{hex_decode, hex_encode};
use coinjoin::outpoint::Outpoint;
use coinjoin::transaction::{
    DraftInput, FinalizedTransaction, MergedTransaction, Recipient, SignableInputDescriptor,
    SignedContribution, TransactionDraft,
};

fn sample_draft() -> TransactionDraft {
    let inputs = (0u8..3)
        .map(|i| DraftInput {
            outpoint: Outpoint { txid: vec![i + 1; 32], vout: i as u32 },
            descriptor: SignableInputDescriptor { bytes: vec![0x10 + i, 0x20 + i] },
            signature: None,
        })
        .collect();
    let recipients = (0u8..3)
        .map(|i| Recipient { address: format!("bcrt1qaddr{}", i).into_bytes(), amount: 500_000 })
        .collect();
    TransactionDraft { recipients, inputs, fee_rate: 10, no_change: true }
}

fn signed_copies(draft: &TransactionDraft) -> Vec<SignedContribution> {
    (0usize..3)
        .map(|i| {
            let mut c = draft.to_contribution();
            c.add_signature(i, vec![0xC0 + i as u8; 70]);
            c
        })
        .collect()
}

/// Any arrival order of the same contributions merges to the same
/// populated-signature state, byte for byte.
#[test]
fn merge_is_order_insensitive() {
    let draft = sample_draft();
    let [a, b, c] = <[SignedContribution; 3]>::try_from(signed_copies(&draft)).ok().unwrap();
    let orders: Vec<Vec<&SignedContribution>> = vec![
        vec![&a, &b, &c],
        vec![&c, &a, &b],
        vec![&b, &c, &a],
        vec![&c, &b, &a],
    ];
    let mut encodings = Vec::new();
    for order in orders {
        let copies: Vec<SignedContribution> =
            order.iter().map(|x| SignedContribution { tx: x.tx.duplicate() }).collect();
        let merged = merge(copies).expect("copies of one draft merge");
        encodings.push(merged.encode());
    }
    for e in &encodings[1..] {
        assert_eq!(e, &encodings[0]);
    }
}

/// Merging a contribution with itself, or merging one already merged
/// in a second time, changes nothing.
#[test]
fn merge_is_idempotent_per_contribution() {
    let draft = sample_draft();
    let copies = signed_copies(&draft);
    let once = merge(copies.iter().map(|c| c.duplicate()).collect::<Vec<_>>())
        .expect("copies of one draft merge");

    let mut with_duplicate: Vec<SignedContribution> =
        copies.iter().map(|c| c.duplicate()).collect();
    with_duplicate.push(copies[1].duplicate());
    let twice = merge(with_duplicate).expect("a repeated contribution still merges");
    assert_eq!(once.encode(), twice.encode());

    let self_merge = merge_two(&copies[0], &copies[0]).expect("a copy merges with itself");
    assert_eq!(self_merge.tx.encode(), copies[0].tx.encode());
}

/// A single contribution is returned unchanged.
#[test]
fn merge_of_one_contribution_is_identity() {
    let draft = sample_draft();
    let mut c = draft.to_contribution();
    c.add_signature(0, vec![0xEE; 70]);
    let expected = c.tx.encode();
    let merged = merge(vec![c]).expect("one contribution merges trivially");
    assert_eq!(merged.encode(), expected);
}

/// Contributions that do not stem from one distributed draft conflict.
#[test]
fn merge_detects_structural_conflicts() {
    let draft = sample_draft();
    let a = draft.to_contribution();
    let mut other = draft.duplicate();
    other.fee_rate = 11;
    let b = other.to_contribution();
    assert_eq!(merge_two(&a, &b).err(), Some(MergeError::MergeConflict));

    let mut x = draft.to_contribution();
    let mut y = draft.to_contribution();
    x.add_signature(0, vec![0x01; 70]);
    y.add_signature(0, vec![0x02; 70]);
    assert_eq!(
        merge_two(&x, &y).err(),
        Some(MergeError::MergeConflict),
        "two different signatures for one slot do not merge"
    );
}

/// Finalization succeeds exactly when every slot is populated.
#[test]
fn finalize_requires_every_signature() {
    let draft = sample_draft();
    let copies = signed_copies(&draft);
    let merged = merge(copies.iter().map(|c| c.duplicate()).collect::<Vec<_>>()).unwrap();
    let tx = finalize(&merged).expect("all three slots are populated");
    assert_eq!(tx.inputs.len(), 3);
    assert_eq!(tx.inputs[2].signature, vec![0xC2; 70]);

    let partial = merge(vec![copies[0].duplicate(), copies[2].duplicate()]).unwrap();
    assert_eq!(finalize(&partial).err(), Some(FinalizeError::IncompleteSignatures));
}

/// The persisted encoding of a draft round-trips byte-exactly.
#[test]
fn draft_roundtrips_through_bytes_and_hex() {
    let draft = sample_draft();
    let bytes = draft.encode();
    let back = TransactionDraft::decode(&bytes).expect("an encoding decodes");
    assert_eq!(back.encode(), bytes, "re-encoding is byte-exact");
    assert_eq!(back.fee_rate, draft.fee_rate);
    assert_eq!(back.no_change, draft.no_change);
    assert_eq!(back.recipients.len(), draft.recipients.len());
    for (x, y) in back.recipients.iter().zip(draft.recipients.iter()) {
        assert_eq!(x.address, y.address);
        assert_eq!(x.amount, y.amount);
    }
    for (x, y) in back.inputs.iter().zip(draft.inputs.iter()) {
        assert_eq!(x.outpoint.txid, y.outpoint.txid);
        assert_eq!(x.outpoint.vout, y.outpoint.vout);
        assert_eq!(x.descriptor.bytes, y.descriptor.bytes);
        assert_eq!(x.signature, y.signature);
    }

    let text = draft.serialize_hex();
    let from_hex = TransactionDraft::parse_hex(&text).expect("the hex text parses");
    assert_eq!(from_hex.encode(), bytes);
}

/// A merged transaction, signature slots included, round-trips the
/// same way.
#[test]
fn merged_transaction_roundtrips() {
    let draft = sample_draft();
    let merged = merge(signed_copies(&draft)).unwrap();
    let text = merged.serialize_hex();
    let back = MergedTransaction::parse_hex(&text).expect("the hex text parses");
    assert_eq!(back.encode(), merged.encode());
    assert_eq!(back.tx.inputs[1].signature, Some(vec![0xC1; 70]));
}

/// A finalized transaction round-trips through its own layout.
#[test]
fn finalized_transaction_roundtrips() {
    let draft = sample_draft();
    let merged = merge(signed_copies(&draft)).unwrap();
    let tx = finalize(&merged).unwrap();
    let bytes = tx.encode();
    let back = FinalizedTransaction::decode(&bytes).expect("an encoding decodes");
    assert_eq!(back.encode(), bytes);
    let text = tx.serialize_hex();
    let from_hex = FinalizedTransaction::parse_hex(&text).expect("the hex text parses");
    assert_eq!(from_hex.encode(), bytes);
}

/// Corrupted persisted artifacts are rejected rather than misread.
#[test]
fn truncated_or_corrupt_encodings_are_rejected() {
    let draft = sample_draft();
    let mut bytes = draft.encode();
    bytes.pop();
    assert!(TransactionDraft::decode(&bytes).is_none(), "truncation is detected");
    let mut extended = draft.encode();
    extended.push(0);
    assert!(TransactionDraft::decode(&extended).is_none(), "trailing bytes are detected");
    assert!(TransactionDraft::parse_hex(&b"zz".to_vec()).is_none(), "bad hex is detected");
}

/// The hex layer itself: exact text, case-insensitive decoding, and
/// rejection of malformed text.
#[test]
fn hex_encoding_matches_the_usual_text_form() {
    let bytes = vec![0x00, 0x0f, 0xa5, 0xff];
    let text = hex_encode(&bytes);
    assert_eq!(text, b"000fa5ff".to_vec());
    assert_eq!(hex_decode(&text), Some(bytes.clone()));
    assert_eq!(hex_decode(&b"000FA5FF".to_vec()), Some(bytes));
    assert_eq!(hex_decode(&b"abc".to_vec()), None, "odd length");
    assert_eq!(hex_decode(&b"0g".to_vec()), None, "not a hex digit");
    assert_eq!(hex_decode(&Vec::new()), Some(Vec::new()));
}
