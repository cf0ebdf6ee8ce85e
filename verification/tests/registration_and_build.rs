//! The contribution registry, the outpoint parser, the descriptor
//! strings and the joint-transaction builder.

use coinjoin::builder::build;
use coinjoin::errors::{BuildError, RegistrationError};
use coinjoin::outpoint::Outpoint;
use coinjoin::registry::Registry;
use coinjoin::transaction::SignableInputDescriptor;
use coinjoin::wallet::prepare_descriptor;

fn outpoint_str(digit: char, vout: u32) -> String {
    let txid: String = std::iter::repeat(digit).take(64).collect();
    format!("{}:{}", txid, vout)
}

fn desc(tag: u8) -> SignableInputDescriptor {
    SignableInputDescriptor { bytes: vec![tag; 8] }
}

#[test]
fn outpoint_parsing_accepts_valid_and_rejects_invalid() {
    let op = Outpoint::parse(&outpoint_str('f', 7)).expect("valid outpoint");
    assert_eq!(op.txid.len(), 32);
    assert_eq!(op.vout, 7);

    let other = Outpoint::parse(&outpoint_str('0', 7)).expect("valid outpoint");
    assert!(!op.same_coin(&other), "different txids name different coins");
    let again = Outpoint::parse(&outpoint_str('f', 7)).expect("valid outpoint");
    assert!(op.same_coin(&again), "equal strings name the same coin");

    assert!(Outpoint::parse("not an outpoint").is_none());
    assert!(Outpoint::parse("deadbeef:0").is_none(), "txid too short");
    assert!(Outpoint::parse(&outpoint_str('f', 0).replace(":0", "")).is_none(), "missing vout");
    assert!(Outpoint::parse(&format!("{}:01", "a".repeat(64))).is_none(), "vout not canonical");
}

#[test]
fn duplicate_outpoint_is_rejected_and_registry_unchanged() {
    let mut registry = Registry::new();
    let op = Outpoint::parse(&outpoint_str('a', 0)).unwrap();
    let id = registry.register_input(op, desc(1)).expect("first registration succeeds");
    assert_eq!(id, 0);

    let same_coin = Outpoint::parse(&outpoint_str('a', 0)).unwrap();
    let r = registry.register_input(same_coin, desc(2));
    assert_eq!(r, Err(RegistrationError::DuplicateOutpoint));
    assert_eq!(registry.snapshot().inputs.len(), 1, "the rejected call changed nothing");

    let other_vout = Outpoint::parse(&outpoint_str('a', 1)).unwrap();
    registry.register_input(other_vout, desc(3)).expect("another vout is another coin");
    assert_eq!(registry.snapshot().inputs.len(), 2);
}

#[test]
fn registry_assigns_fresh_record_identifiers() {
    let mut registry = Registry::new();
    let a = registry
        .register_input(Outpoint::parse(&outpoint_str('1', 0)).unwrap(), desc(1))
        .unwrap();
    let b = registry.register_output(b"bcrt1qsomewhere".to_vec());
    let c = registry
        .register_input(Outpoint::parse(&outpoint_str('2', 0)).unwrap(), desc(2))
        .unwrap();
    assert_eq!((a, b, c), (0, 1, 2));
    let snapshot = registry.snapshot();
    assert_eq!(snapshot.inputs[0].id, 0);
    assert_eq!(snapshot.outputs[0].id, 1);
    assert_eq!(snapshot.inputs[1].id, 2);
}

#[test]
fn build_produces_one_recipient_per_output_and_one_input_per_coin() {
    let mut registry = Registry::new();
    for d in ['1', '2'] {
        registry
            .register_input(Outpoint::parse(&outpoint_str(d, 0)).unwrap(), desc(d as u8))
            .unwrap();
    }
    for i in 0..3u8 {
        registry.register_output(vec![b'q', i]);
    }
    let snapshot = registry.snapshot();

    // required: 3 * 500_000 + 10 * (11 + 2 * 73 + 3 * 31) = 1_502_500
    let draft = build(&snapshot, 500_000, 10, 1_502_500).expect("funds exactly suffice");
    assert_eq!(draft.recipients.len(), 3);
    for (i, r) in draft.recipients.iter().enumerate() {
        assert_eq!(r.amount, 500_000);
        assert_eq!(r.address, vec![b'q', i as u8]);
    }
    assert_eq!(draft.inputs.len(), 2);
    for (i, input) in draft.inputs.iter().enumerate() {
        assert_eq!(input.outpoint.txid, snapshot.inputs[i].outpoint.txid);
        assert_eq!(input.outpoint.vout, snapshot.inputs[i].outpoint.vout);
        assert_eq!(input.descriptor.bytes, snapshot.inputs[i].descriptor.bytes);
        assert!(input.signature.is_none());
    }

    let short = build(&snapshot, 500_000, 10, 1_502_499);
    assert_eq!(short.err(), Some(BuildError::InsufficientFunds));
}

#[test]
fn build_rejects_empty_registration_sets() {
    let mut registry = Registry::new();
    registry.register_output(b"bcrt1qlonely".to_vec());
    let no_inputs = build(&registry.snapshot(), 1000, 1, u64::MAX);
    assert_eq!(no_inputs.err(), Some(BuildError::EmptyRegistration));

    let mut registry = Registry::new();
    registry
        .register_input(Outpoint::parse(&outpoint_str('3', 0)).unwrap(), desc(9))
        .unwrap();
    let no_outputs = build(&registry.snapshot(), 1000, 1, u64::MAX);
    assert_eq!(no_outputs.err(), Some(BuildError::EmptyRegistration));
}

#[test]
fn build_rejects_totals_beyond_the_satoshi_range() {
    let mut registry = Registry::new();
    registry
        .register_input(Outpoint::parse(&outpoint_str('4', 0)).unwrap(), desc(1))
        .unwrap();
    registry.register_output(b"bcrt1qone".to_vec());
    registry.register_output(b"bcrt1qtwo".to_vec());
    let r = build(&registry.snapshot(), u64::MAX, 1, u64::MAX);
    assert_eq!(r.err(), Some(BuildError::SizeOrFeeError));
}

#[test]
fn duplicate_addresses_are_kept_not_deduplicated() {
    let mut registry = Registry::new();
    registry.register_output(b"bcrt1qshared".to_vec());
    registry.register_output(b"bcrt1qshared".to_vec());
    let snapshot = registry.snapshot();
    assert_eq!(snapshot.outputs.len(), 2);
    assert_eq!(snapshot.outputs[0].address, snapshot.outputs[1].address);
}

#[test]
fn round_fatal_build_failure_abandons_the_round() {
    let mut round = coinjoin::round::Round::new();
    round
        .register_input(
            Outpoint::parse(&outpoint_str('5', 0)).unwrap(),
            desc(5),
        )
        .unwrap();
    round.register_output(b"bcrt1qsomeone".to_vec());
    round.close_and_snapshot();
    let r = round.build_draft(500_000, 10, 0);
    assert_eq!(r, Err(BuildError::InsufficientFunds));
    assert_eq!(round.phase(), coinjoin::round::RoundPhase::Failed);
    assert!(round.draft().is_none());
}

#[test]
fn descriptor_pair_follows_the_wpkh_derivation_scheme() {
    let [external, change] = prepare_descriptor("tprv8ZgxMBicQKsPdexample");
    assert_eq!(external, "wpkh(tprv8ZgxMBicQKsPdexample/84'/1'/0'/0/*)");
    assert_eq!(change, "wpkh(tprv8ZgxMBicQKsPdexample/84'/1'/0'/1/*)");
}
