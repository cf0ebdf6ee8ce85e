//! Byte-exact persisted encoding of the round's artifacts.
//!
//! Every artifact — the distributed draft, the merged transaction and
//! the finalized transaction — round-trips through one standard byte
//! layout, persisted as hex text: little-endian fixed-width integers,
//! length-prefixed byte strings, and count-prefixed records in order.
//! Decoding accepts exactly the encodings this module produces, so a
//! persisted artifact is recovered without loss — see
//! [`lemma_draft_roundtrip`] and [`lemma_finalized_roundtrip`].

use vstd::bytes::{
    lemma_auto_spec_u32_to_from_le_bytes, lemma_auto_spec_u64_to_from_le_bytes,
    spec_u32_from_le_bytes, spec_u32_to_le_bytes, spec_u64_from_le_bytes, spec_u64_to_le_bytes,
    u32_from_le_bytes, u32_to_le_bytes, u64_from_le_bytes, u64_to_le_bytes,
};
use vstd::prelude::*;
use vstd::slice::{slice_subrange, slice_to_vec};

use crate::bytevec::copy_bytes;
use crate::hex::{hex_dec, hex_decode, hex_enc, hex_encode, lemma_hex_roundtrip};
use crate::outpoint::{Outpoint, OutpointV};
use crate::transaction::{
    DraftInput, DraftInputV, DraftV, FinalizedInput, FinalizedInputV, FinalizedTransaction,
    FinalizedV, MergedTransaction, Recipient, RecipientV, SignableInputDescriptor,
    TransactionDraft,
};

verus! {

// ---------------------------------------------------------------- spec: encoding

/// A length-prefixed byte string: its length as eight little-endian
/// bytes, then the bytes themselves.
pub open spec fn enc_lp(b: Seq<u8>) -> Seq<u8> {
    spec_u64_to_le_bytes(b.len() as u64) + b
}

/// One byte for a flag.
pub open spec fn enc_bool(x: bool) -> Seq<u8> {
    if x {
        seq![1u8]
    } else {
        seq![0u8]
    }
}

/// An optional byte string: a presence byte, then the string if present.
pub open spec fn enc_opt(s: Option<Seq<u8>>) -> Seq<u8> {
    match s {
        None => seq![0u8],
        Some(v) => seq![1u8] + enc_lp(v),
    }
}

/// One recipient record: address, then amount.
pub open spec fn enc_recipient(r: RecipientV) -> Seq<u8> {
    enc_lp(r.address) + spec_u64_to_le_bytes(r.amount)
}

/// The recipient records in order.
pub open spec fn enc_recipients(rs: Seq<RecipientV>) -> Seq<u8>
    decreases rs.len(),
{
    if rs.len() == 0 {
        Seq::empty()
    } else {
        enc_recipient(rs.first()) + enc_recipients(rs.drop_first())
    }
}

/// One input record: coin, descriptor, signature slot.
pub open spec fn enc_input(i: DraftInputV) -> Seq<u8> {
    enc_lp(i.outpoint.txid) + spec_u32_to_le_bytes(i.outpoint.vout) + enc_lp(i.descriptor)
        + enc_opt(i.signature)
}

/// The input records in order.
pub open spec fn enc_inputs(is: Seq<DraftInputV>) -> Seq<u8>
    decreases is.len(),
{
    if is.len() == 0 {
        Seq::empty()
    } else {
        enc_input(is.first()) + enc_inputs(is.drop_first())
    }
}

/// The full draft layout: fee rate, change-avoidance flag, recipient
/// count and records, input count and records.
pub open spec fn enc_draft(d: DraftV) -> Seq<u8> {
    spec_u64_to_le_bytes(d.fee_rate) + enc_bool(d.no_change) + spec_u64_to_le_bytes(
        d.recipients.len() as u64,
    ) + enc_recipients(d.recipients) + spec_u64_to_le_bytes(d.inputs.len() as u64) + enc_inputs(
        d.inputs,
    )
}

/// One finalized-input record: coin, then signature.
pub open spec fn enc_fin_input(i: FinalizedInputV) -> Seq<u8> {
    enc_lp(i.outpoint.txid) + spec_u32_to_le_bytes(i.outpoint.vout) + enc_lp(i.signature)
}

/// The finalized-input records in order.
pub open spec fn enc_fin_inputs(is: Seq<FinalizedInputV>) -> Seq<u8>
    decreases is.len(),
{
    if is.len() == 0 {
        Seq::empty()
    } else {
        enc_fin_input(is.first()) + enc_fin_inputs(is.drop_first())
    }
}

/// The finalized-transaction layout: input count and records, then
/// recipient count and records.
pub open spec fn enc_finalized(f: FinalizedV) -> Seq<u8> {
    spec_u64_to_le_bytes(f.inputs.len() as u64) + enc_fin_inputs(f.inputs) + spec_u64_to_le_bytes(
        f.recipients.len() as u64,
    ) + enc_recipients(f.recipients)
}

// ---------------------------------------------------------------- spec: decoding

/// Read eight little-endian bytes at `pos`.
pub open spec fn dec_u64(b: Seq<u8>, pos: int) -> Option<(u64, int)> {
    if 0 <= pos && pos + 8 <= b.len() {
        Some((spec_u64_from_le_bytes(b.subrange(pos, pos + 8)), pos + 8))
    } else {
        None
    }
}

/// Read four little-endian bytes at `pos`.
pub open spec fn dec_u32(b: Seq<u8>, pos: int) -> Option<(u32, int)> {
    if 0 <= pos && pos + 4 <= b.len() {
        Some((spec_u32_from_le_bytes(b.subrange(pos, pos + 4)), pos + 4))
    } else {
        None
    }
}

/// Read one byte at `pos`.
pub open spec fn dec_byte(b: Seq<u8>, pos: int) -> Option<(u8, int)> {
    if 0 <= pos < b.len() {
        Some((b[pos], pos + 1))
    } else {
        None
    }
}

/// Read a length-prefixed byte string at `pos`.
pub open spec fn dec_lp(b: Seq<u8>, pos: int) -> Option<(Seq<u8>, int)> {
    match dec_u64(b, pos) {
        Some((n, p)) => if p + n <= b.len() {
            Some((b.subrange(p, p + n), p + n))
        } else {
            None
        },
        None => None,
    }
}

/// Read a flag byte at `pos`.
pub open spec fn dec_bool(b: Seq<u8>, pos: int) -> Option<(bool, int)> {
    match dec_byte(b, pos) {
        Some((x, p)) => if x == 0 {
            Some((false, p))
        } else if x == 1 {
            Some((true, p))
        } else {
            None
        },
        None => None,
    }
}

/// Read an optional byte string at `pos`.
pub open spec fn dec_opt(b: Seq<u8>, pos: int) -> Option<(Option<Seq<u8>>, int)> {
    match dec_byte(b, pos) {
        Some((x, p)) => if x == 0 {
            Some((None, p))
        } else if x == 1 {
            match dec_lp(b, p) {
                Some((v, p2)) => Some((Some(v), p2)),
                None => None,
            }
        } else {
            None
        },
        None => None,
    }
}

/// Read one recipient record at `pos`.
pub open spec fn dec_recipient(b: Seq<u8>, pos: int) -> Option<(RecipientV, int)> {
    match dec_lp(b, pos) {
        Some((address, p)) => match dec_u64(b, p) {
            Some((amount, p2)) => Some((RecipientV { address, amount }, p2)),
            None => None,
        },
        None => None,
    }
}

/// Read `count` recipient records at `pos`.
pub open spec fn dec_recipients(b: Seq<u8>, pos: int, count: nat) -> Option<(Seq<RecipientV>, int)>
    decreases count,
{
    if count == 0 {
        Some((Seq::empty(), pos))
    } else {
        match dec_recipient(b, pos) {
            Some((r, p)) => match dec_recipients(b, p, (count - 1) as nat) {
                Some((rest, p2)) => Some((seq![r] + rest, p2)),
                None => None,
            },
            None => None,
        }
    }
}

/// Read one input record at `pos`.
pub open spec fn dec_input(b: Seq<u8>, pos: int) -> Option<(DraftInputV, int)> {
    match dec_lp(b, pos) {
        Some((txid, p)) => match dec_u32(b, p) {
            Some((vout, p2)) => match dec_lp(b, p2) {
                Some((descriptor, p3)) => match dec_opt(b, p3) {
                    Some((signature, p4)) => Some(
                        (
                            DraftInputV {
                                outpoint: OutpointV { txid, vout },
                                descriptor,
                                signature,
                            },
                            p4,
                        ),
                    ),
                    None => None,
                },
                None => None,
            },
            None => None,
        },
        None => None,
    }
}

/// Read `count` input records at `pos`.
pub open spec fn dec_inputs(b: Seq<u8>, pos: int, count: nat) -> Option<(Seq<DraftInputV>, int)>
    decreases count,
{
    if count == 0 {
        Some((Seq::empty(), pos))
    } else {
        match dec_input(b, pos) {
            Some((i, p)) => match dec_inputs(b, p, (count - 1) as nat) {
                Some((rest, p2)) => Some((seq![i] + rest, p2)),
                None => None,
            },
            None => None,
        }
    }
}

/// Read one finalized-input record at `pos`.
pub open spec fn dec_fin_input(b: Seq<u8>, pos: int) -> Option<(FinalizedInputV, int)> {
    match dec_lp(b, pos) {
        Some((txid, p)) => match dec_u32(b, p) {
            Some((vout, p2)) => match dec_lp(b, p2) {
                Some((signature, p3)) => Some(
                    (FinalizedInputV { outpoint: OutpointV { txid, vout }, signature }, p3),
                ),
                None => None,
            },
            None => None,
        },
        None => None,
    }
}

/// Read `count` finalized-input records at `pos`.
pub open spec fn dec_fin_inputs(b: Seq<u8>, pos: int, count: nat) -> Option<
    (Seq<FinalizedInputV>, int),
>
    decreases count,
{
    if count == 0 {
        Some((Seq::empty(), pos))
    } else {
        match dec_fin_input(b, pos) {
            Some((i, p)) => match dec_fin_inputs(b, p, (count - 1) as nat) {
                Some((rest, p2)) => Some((seq![i] + rest, p2)),
                None => None,
            },
            None => None,
        }
    }
}

/// The draft a byte string stands for, if it is exactly one draft
/// encoding with nothing following it.
pub open spec fn dec_draft(b: Seq<u8>) -> Option<DraftV> {
    match dec_u64(b, 0) {
        Some((fee_rate, p)) => match dec_bool(b, p) {
            Some((no_change, p2)) => match dec_u64(b, p2) {
                Some((rc, p3)) => match dec_recipients(b, p3, rc as nat) {
                    Some((recipients, p4)) => match dec_u64(b, p4) {
                        Some((ic, p5)) => match dec_inputs(b, p5, ic as nat) {
                            Some((inputs, p6)) => if p6 == b.len() {
                                Some(DraftV { recipients, inputs, fee_rate, no_change })
                            } else {
                                None
                            },
                            None => None,
                        },
                        None => None,
                    },
                    None => None,
                },
                None => None,
            },
            None => None,
        },
        None => None,
    }
}

/// The finalized transaction a byte string stands for, if it is
/// exactly one such encoding.
pub open spec fn dec_finalized(b: Seq<u8>) -> Option<FinalizedV> {
    match dec_u64(b, 0) {
        Some((ic, p)) => match dec_fin_inputs(b, p, ic as nat) {
            Some((inputs, p2)) => match dec_u64(b, p2) {
                Some((rc, p3)) => match dec_recipients(b, p3, rc as nat) {
                    Some((recipients, p4)) => if p4 == b.len() {
                        Some(FinalizedV { inputs, recipients })
                    } else {
                        None
                    },
                    None => None,
                },
                None => None,
            },
            None => None,
        },
        None => None,
    }
}

// ---------------------------------------------------------------- bounds

/// A recipient whose encoding the layout can carry.
pub open spec fn bounded_recipient(r: RecipientV) -> bool {
    r.address.len() <= u64::MAX
}

/// An input whose encoding the layout can carry.
pub open spec fn bounded_input(i: DraftInputV) -> bool {
    &&& i.outpoint.txid.len() <= u64::MAX
    &&& i.descriptor.len() <= u64::MAX
    &&& (i.signature matches Some(s) ==> s.len() <= u64::MAX)
}

/// A draft whose encoding the layout can carry. Every draft held in
/// memory is bounded; the bound only excludes mathematical values too
/// large for any machine.
pub open spec fn bounded_draft(d: DraftV) -> bool {
    &&& d.recipients.len() <= u64::MAX
    &&& d.inputs.len() <= u64::MAX
    &&& forall|k: int| 0 <= k < d.recipients.len() ==> bounded_recipient(#[trigger] d.recipients[k])
    &&& forall|k: int| 0 <= k < d.inputs.len() ==> bounded_input(#[trigger] d.inputs[k])
}

/// A finalized input whose encoding the layout can carry.
pub open spec fn bounded_fin_input(i: FinalizedInputV) -> bool {
    &&& i.outpoint.txid.len() <= u64::MAX
    &&& i.signature.len() <= u64::MAX
}

/// A finalized transaction whose encoding the layout can carry.
pub open spec fn bounded_finalized(f: FinalizedV) -> bool {
    &&& f.inputs.len() <= u64::MAX
    &&& f.recipients.len() <= u64::MAX
    &&& forall|k: int| 0 <= k < f.inputs.len() ==> bounded_fin_input(#[trigger] f.inputs[k])
    &&& forall|k: int| 0 <= k < f.recipients.len() ==> bounded_recipient(#[trigger] f.recipients[k])
}


// ---------------------------------------------------------------- frame lemmas
//
// Each lemma says: where the encoding of a value sits at `pos` in a
// larger byte string, the decoder at `pos` finds exactly that value
// and stops exactly after it.

proof fn lemma_subrange_transfer(b: Seq<u8>, pos: int, e: Seq<u8>, lo: int, hi: int)
    requires
        0 <= pos,
        pos + e.len() <= b.len(),
        b.subrange(pos, pos + e.len() as int) == e,
        0 <= lo <= hi <= e.len(),
    ensures
        b.subrange(pos + lo, pos + hi) == e.subrange(lo, hi),
{
    assert forall|k: int| 0 <= k < hi - lo implies b.subrange(pos + lo, pos + hi)[k] == e.subrange(
        lo,
        hi,
    )[k] by {
        assert(b.subrange(pos, pos + e.len() as int)[lo + k] == e[lo + k]);
    }
    assert(b.subrange(pos + lo, pos + hi) =~= e.subrange(lo, hi));
}

proof fn lemma_dec_u64_frame(b: Seq<u8>, pos: int, x: u64)
    requires
        0 <= pos,
        pos + 8 <= b.len(),
        b.subrange(pos, pos + 8) == spec_u64_to_le_bytes(x),
    ensures
        dec_u64(b, pos) == Some((x, pos + 8)),
{
    lemma_auto_spec_u64_to_from_le_bytes();
}

proof fn lemma_dec_u32_frame(b: Seq<u8>, pos: int, x: u32)
    requires
        0 <= pos,
        pos + 4 <= b.len(),
        b.subrange(pos, pos + 4) == spec_u32_to_le_bytes(x),
    ensures
        dec_u32(b, pos) == Some((x, pos + 4)),
{
    lemma_auto_spec_u32_to_from_le_bytes();
    assert(spec_u32_to_le_bytes(x).len() == 4);
}

proof fn lemma_dec_lp_frame(b: Seq<u8>, pos: int, v: Seq<u8>)
    requires
        0 <= pos,
        v.len() <= u64::MAX,
        pos + enc_lp(v).len() <= b.len(),
        b.subrange(pos, pos + enc_lp(v).len() as int) == enc_lp(v),
    ensures
        enc_lp(v).len() == 8 + v.len(),
        dec_lp(b, pos) == Some((v, pos + enc_lp(v).len())),
{
    lemma_auto_spec_u64_to_from_le_bytes();
    let e = enc_lp(v);
    let le = e.len() as int;
    assert(e.len() == 8 + v.len());
    lemma_subrange_transfer(b, pos, e, 0, 8);
    assert(e.subrange(0, 8) =~= spec_u64_to_le_bytes(v.len() as u64));
    lemma_dec_u64_frame(b, pos, v.len() as u64);
    lemma_subrange_transfer(b, pos, e, 8, le);
    assert(e.subrange(8, le) =~= v);
}

proof fn lemma_dec_bool_frame(b: Seq<u8>, pos: int, x: bool)
    requires
        0 <= pos,
        pos + 1 <= b.len(),
        b.subrange(pos, pos + 1) == enc_bool(x),
    ensures
        dec_bool(b, pos) == Some((x, pos + 1)),
{
    assert(b.subrange(pos, pos + 1)[0] == b[pos]);
    assert(b[pos] == enc_bool(x)[0]);
}

proof fn lemma_dec_opt_frame(b: Seq<u8>, pos: int, s: Option<Seq<u8>>)
    requires
        0 <= pos,
        (s matches Some(v) ==> v.len() <= u64::MAX),
        pos + enc_opt(s).len() <= b.len(),
        b.subrange(pos, pos + enc_opt(s).len() as int) == enc_opt(s),
    ensures
        dec_opt(b, pos) == Some((s, pos + enc_opt(s).len())),
{
    let e = enc_opt(s);
    let le = e.len() as int;
    assert(b.subrange(pos, pos + le)[0] == b[pos]);
    assert(b[pos] == e[0]);
    match s {
        None => {
            assert(e[0] == 0u8);
        },
        Some(v) => {
            assert(e[0] == 1u8);
            let lv = enc_lp(v).len() as int;
            lemma_subrange_transfer(b, pos, e, 1, 1 + lv);
            assert(e.subrange(1, 1 + lv) =~= enc_lp(v));
            lemma_dec_lp_frame(b, pos + 1, v);
        },
    }
}

proof fn lemma_dec_recipient_frame(b: Seq<u8>, pos: int, r: RecipientV)
    requires
        0 <= pos,
        bounded_recipient(r),
        pos + enc_recipient(r).len() <= b.len(),
        b.subrange(pos, pos + enc_recipient(r).len() as int) == enc_recipient(r),
    ensures
        dec_recipient(b, pos) == Some((r, pos + enc_recipient(r).len())),
{
    lemma_auto_spec_u64_to_from_le_bytes();
    let e = enc_recipient(r);
    let la = enc_lp(r.address).len() as int;
    assert(spec_u64_to_le_bytes(r.amount).len() == 8);
    assert(e.len() == la + 8);
    lemma_subrange_transfer(b, pos, e, 0, la);
    assert(e.subrange(0, la) =~= enc_lp(r.address));
    lemma_dec_lp_frame(b, pos, r.address);
    lemma_subrange_transfer(b, pos, e, la, la + 8);
    assert(e.subrange(la, la + 8) =~= spec_u64_to_le_bytes(r.amount));
    lemma_dec_u64_frame(b, pos + la, r.amount);
    assert(dec_recipient(b, pos) == Some(
        (RecipientV { address: r.address, amount: r.amount }, pos + e.len()),
    ));
    assert((RecipientV { address: r.address, amount: r.amount }) =~= r);
}

proof fn lemma_dec_recipients_frame(b: Seq<u8>, pos: int, rs: Seq<RecipientV>)
    requires
        0 <= pos,
        forall|k: int| 0 <= k < rs.len() ==> bounded_recipient(#[trigger] rs[k]),
        pos + enc_recipients(rs).len() <= b.len(),
        b.subrange(pos, pos + enc_recipients(rs).len() as int) == enc_recipients(rs),
    ensures
        dec_recipients(b, pos, rs.len() as nat) == Some((rs, pos + enc_recipients(rs).len())),
    decreases rs.len(),
{
    if rs.len() == 0 {
        assert(rs =~= Seq::<RecipientV>::empty());
    } else {
        let e = enc_recipients(rs);
        let e0 = enc_recipient(rs.first());
        let rest = enc_recipients(rs.drop_first());
        let le0 = e0.len() as int;
        let le = e.len() as int;
        assert(e == e0 + rest);
        lemma_subrange_transfer(b, pos, e, 0, le0);
        assert(e.subrange(0, le0) =~= e0);
        lemma_dec_recipient_frame(b, pos, rs.first());
        lemma_subrange_transfer(b, pos, e, le0, le);
        assert(e.subrange(le0, le) =~= rest);
        lemma_dec_recipients_frame(b, pos + le0, rs.drop_first());
        assert(seq![rs.first()] + rs.drop_first() =~= rs);
    }
}

proof fn lemma_dec_input_frame(b: Seq<u8>, pos: int, i: DraftInputV)
    requires
        0 <= pos,
        bounded_input(i),
        pos + enc_input(i).len() <= b.len(),
        b.subrange(pos, pos + enc_input(i).len() as int) == enc_input(i),
    ensures
        dec_input(b, pos) == Some((i, pos + enc_input(i).len())),
{
    lemma_auto_spec_u64_to_from_le_bytes();
    lemma_auto_spec_u32_to_from_le_bytes();
    let e = enc_input(i);
    let l1 = enc_lp(i.outpoint.txid).len() as int;
    let l3 = enc_lp(i.descriptor).len() as int;
    let l4 = enc_opt(i.signature).len() as int;
    assert(spec_u32_to_le_bytes(i.outpoint.vout).len() == 4);
    assert(e.len() == l1 + 4 + l3 + l4);
    lemma_subrange_transfer(b, pos, e, 0, l1);
    assert(e.subrange(0, l1) =~= enc_lp(i.outpoint.txid));
    lemma_dec_lp_frame(b, pos, i.outpoint.txid);
    let p1 = pos + l1;
    lemma_subrange_transfer(b, pos, e, l1, l1 + 4);
    assert(e.subrange(l1, l1 + 4) =~= spec_u32_to_le_bytes(i.outpoint.vout));
    lemma_dec_u32_frame(b, p1, i.outpoint.vout);
    let p2 = p1 + 4;
    lemma_subrange_transfer(b, pos, e, l1 + 4, l1 + 4 + l3);
    assert(e.subrange(l1 + 4, l1 + 4 + l3) =~= enc_lp(i.descriptor));
    lemma_dec_lp_frame(b, p2, i.descriptor);
    let p3 = p2 + l3;
    lemma_subrange_transfer(b, pos, e, l1 + 4 + l3, l1 + 4 + l3 + l4);
    assert(e.subrange(l1 + 4 + l3, l1 + 4 + l3 + l4) =~= enc_opt(i.signature));
    lemma_dec_opt_frame(b, p3, i.signature);
    assert(dec_input(b, pos) == Some(
        (
            DraftInputV {
                outpoint: OutpointV { txid: i.outpoint.txid, vout: i.outpoint.vout },
                descriptor: i.descriptor,
                signature: i.signature,
            },
            pos + e.len(),
        ),
    ));
    assert((DraftInputV {
        outpoint: OutpointV { txid: i.outpoint.txid, vout: i.outpoint.vout },
        descriptor: i.descriptor,
        signature: i.signature,
    }) =~= i);
}

proof fn lemma_dec_inputs_frame(b: Seq<u8>, pos: int, is: Seq<DraftInputV>)
    requires
        0 <= pos,
        forall|k: int| 0 <= k < is.len() ==> bounded_input(#[trigger] is[k]),
        pos + enc_inputs(is).len() <= b.len(),
        b.subrange(pos, pos + enc_inputs(is).len() as int) == enc_inputs(is),
    ensures
        dec_inputs(b, pos, is.len() as nat) == Some((is, pos + enc_inputs(is).len())),
    decreases is.len(),
{
    if is.len() == 0 {
        assert(is =~= Seq::<DraftInputV>::empty());
    } else {
        let e = enc_inputs(is);
        let e0 = enc_input(is.first());
        let rest = enc_inputs(is.drop_first());
        let le0 = e0.len() as int;
        let le = e.len() as int;
        assert(e == e0 + rest);
        lemma_subrange_transfer(b, pos, e, 0, le0);
        assert(e.subrange(0, le0) =~= e0);
        lemma_dec_input_frame(b, pos, is.first());
        lemma_subrange_transfer(b, pos, e, le0, le);
        assert(e.subrange(le0, le) =~= rest);
        lemma_dec_inputs_frame(b, pos + le0, is.drop_first());
        assert(seq![is.first()] + is.drop_first() =~= is);
    }
}

proof fn lemma_dec_fin_input_frame(b: Seq<u8>, pos: int, i: FinalizedInputV)
    requires
        0 <= pos,
        bounded_fin_input(i),
        pos + enc_fin_input(i).len() <= b.len(),
        b.subrange(pos, pos + enc_fin_input(i).len() as int) == enc_fin_input(i),
    ensures
        dec_fin_input(b, pos) == Some((i, pos + enc_fin_input(i).len())),
{
    lemma_auto_spec_u64_to_from_le_bytes();
    lemma_auto_spec_u32_to_from_le_bytes();
    let e = enc_fin_input(i);
    let l1 = enc_lp(i.outpoint.txid).len() as int;
    let l3 = enc_lp(i.signature).len() as int;
    assert(spec_u32_to_le_bytes(i.outpoint.vout).len() == 4);
    assert(e.len() == l1 + 4 + l3);
    lemma_subrange_transfer(b, pos, e, 0, l1);
    assert(e.subrange(0, l1) =~= enc_lp(i.outpoint.txid));
    lemma_dec_lp_frame(b, pos, i.outpoint.txid);
    let p1 = pos + l1;
    lemma_subrange_transfer(b, pos, e, l1, l1 + 4);
    assert(e.subrange(l1, l1 + 4) =~= spec_u32_to_le_bytes(i.outpoint.vout));
    lemma_dec_u32_frame(b, p1, i.outpoint.vout);
    let p2 = p1 + 4;
    lemma_subrange_transfer(b, pos, e, l1 + 4, l1 + 4 + l3);
    assert(e.subrange(l1 + 4, l1 + 4 + l3) =~= enc_lp(i.signature));
    lemma_dec_lp_frame(b, p2, i.signature);
    assert(dec_fin_input(b, pos) == Some(
        (
            FinalizedInputV {
                outpoint: OutpointV { txid: i.outpoint.txid, vout: i.outpoint.vout },
                signature: i.signature,
            },
            pos + e.len(),
        ),
    ));
    assert((FinalizedInputV {
        outpoint: OutpointV { txid: i.outpoint.txid, vout: i.outpoint.vout },
        signature: i.signature,
    }) =~= i);
}

proof fn lemma_dec_fin_inputs_frame(b: Seq<u8>, pos: int, is: Seq<FinalizedInputV>)
    requires
        0 <= pos,
        forall|k: int| 0 <= k < is.len() ==> bounded_fin_input(#[trigger] is[k]),
        pos + enc_fin_inputs(is).len() <= b.len(),
        b.subrange(pos, pos + enc_fin_inputs(is).len() as int) == enc_fin_inputs(is),
    ensures
        dec_fin_inputs(b, pos, is.len() as nat) == Some((is, pos + enc_fin_inputs(is).len())),
    decreases is.len(),
{
    if is.len() == 0 {
        assert(is =~= Seq::<FinalizedInputV>::empty());
    } else {
        let e = enc_fin_inputs(is);
        let e0 = enc_fin_input(is.first());
        let rest = enc_fin_inputs(is.drop_first());
        let le0 = e0.len() as int;
        let le = e.len() as int;
        assert(e == e0 + rest);
        lemma_subrange_transfer(b, pos, e, 0, le0);
        assert(e.subrange(0, le0) =~= e0);
        lemma_dec_fin_input_frame(b, pos, is.first());
        lemma_subrange_transfer(b, pos, e, le0, le);
        assert(e.subrange(le0, le) =~= rest);
        lemma_dec_fin_inputs_frame(b, pos + le0, is.drop_first());
        assert(seq![is.first()] + is.drop_first() =~= is);
    }
}

/// Byte round trip of a draft (and so of a merged transaction, which
/// shares the layout), together with the hex round trip of its
/// persisted text: parsing the persisted form of any draft yields a
/// structurally identical draft.
pub proof fn lemma_draft_roundtrip(d: DraftV)
    requires
        bounded_draft(d),
    ensures
        dec_draft(enc_draft(d)) == Some(d),
        hex_dec(hex_enc(enc_draft(d))) == Some(enc_draft(d)),
{
    lemma_hex_roundtrip(enc_draft(d));
    lemma_auto_spec_u64_to_from_le_bytes();
    let b = enc_draft(d);
    let lr = enc_recipients(d.recipients).len() as int;
    let li = enc_inputs(d.inputs).len() as int;
    assert(b.len() == 8 + 1 + 8 + lr + 8 + li);
    let lb = b.len() as int;
    assert(b.subrange(0, lb) =~= b);
    lemma_subrange_transfer(b, 0, b, 0, 8);
    assert(b.subrange(0, 8) =~= spec_u64_to_le_bytes(d.fee_rate));
    lemma_dec_u64_frame(b, 0, d.fee_rate);
    assert(b.subrange(8, 9) =~= enc_bool(d.no_change));
    lemma_dec_bool_frame(b, 8, d.no_change);
    assert(b.subrange(9, 17) =~= spec_u64_to_le_bytes(d.recipients.len() as u64));
    lemma_dec_u64_frame(b, 9, d.recipients.len() as u64);
    assert(b.subrange(17, 17 + lr) =~= enc_recipients(d.recipients));
    lemma_dec_recipients_frame(b, 17, d.recipients);
    assert((d.recipients.len() as u64) as nat == d.recipients.len());
    let p4 = 17 + lr;
    assert(b.subrange(p4, p4 + 8) =~= spec_u64_to_le_bytes(d.inputs.len() as u64));
    lemma_dec_u64_frame(b, p4, d.inputs.len() as u64);
    assert(b.subrange(p4 + 8, p4 + 8 + li) =~= enc_inputs(d.inputs));
    lemma_dec_inputs_frame(b, p4 + 8, d.inputs);
    assert((d.inputs.len() as u64) as nat == d.inputs.len());
    assert(dec_draft(b) == Some(
        DraftV {
            recipients: d.recipients,
            inputs: d.inputs,
            fee_rate: d.fee_rate,
            no_change: d.no_change,
        },
    ));
    assert((DraftV {
        recipients: d.recipients,
        inputs: d.inputs,
        fee_rate: d.fee_rate,
        no_change: d.no_change,
    }) =~= d);
}

/// Byte and hex round trip of a finalized transaction: parsing its
/// persisted form yields a structurally identical artifact.
pub proof fn lemma_finalized_roundtrip(f: FinalizedV)
    requires
        bounded_finalized(f),
    ensures
        dec_finalized(enc_finalized(f)) == Some(f),
        hex_dec(hex_enc(enc_finalized(f))) == Some(enc_finalized(f)),
{
    lemma_hex_roundtrip(enc_finalized(f));
    lemma_auto_spec_u64_to_from_le_bytes();
    let b = enc_finalized(f);
    let li = enc_fin_inputs(f.inputs).len() as int;
    let lr = enc_recipients(f.recipients).len() as int;
    assert(b.len() == 8 + li + 8 + lr);
    assert(b.subrange(0, 8) =~= spec_u64_to_le_bytes(f.inputs.len() as u64));
    lemma_dec_u64_frame(b, 0, f.inputs.len() as u64);
    assert(b.subrange(8, 8 + li) =~= enc_fin_inputs(f.inputs));
    lemma_dec_fin_inputs_frame(b, 8, f.inputs);
    assert((f.inputs.len() as u64) as nat == f.inputs.len());
    let p2 = 8 + li;
    assert(b.subrange(p2, p2 + 8) =~= spec_u64_to_le_bytes(f.recipients.len() as u64));
    lemma_dec_u64_frame(b, p2, f.recipients.len() as u64);
    assert(b.subrange(p2 + 8, p2 + 8 + lr) =~= enc_recipients(f.recipients));
    lemma_dec_recipients_frame(b, p2 + 8, f.recipients);
    assert((f.recipients.len() as u64) as nat == f.recipients.len());
    assert(dec_finalized(b) == Some(FinalizedV { inputs: f.inputs, recipients: f.recipients }));
    assert((FinalizedV { inputs: f.inputs, recipients: f.recipients }) =~= f);
}

// ---------------------------------------------------------------- exec: encoding

proof fn lemma_enc_recipients_snoc(rs: Seq<RecipientV>, k: int)
    requires
        0 <= k < rs.len(),
    ensures
        enc_recipients(rs.take(k + 1)) == enc_recipients(rs.take(k)) + enc_recipient(rs[k]),
    decreases k,
{
    if k == 0 {
        assert(rs.take(1).drop_first() =~= Seq::<RecipientV>::empty());
        assert(rs.take(0) =~= Seq::<RecipientV>::empty());
        assert(enc_recipients(rs.take(1)) =~= enc_recipients(rs.take(0)) + enc_recipient(rs[0]));
    } else {
        lemma_enc_recipients_snoc(rs.drop_first(), k - 1);
        assert(rs.take(k + 1).drop_first() =~= rs.drop_first().take(k));
        assert(rs.take(k).drop_first() =~= rs.drop_first().take(k - 1));
        assert(rs.take(k + 1).first() == rs.first());
        assert(rs.take(k).first() == rs.first());
        assert(rs.drop_first()[k - 1] == rs[k]);
        assert(enc_recipients(rs.take(k + 1)) =~= enc_recipients(rs.take(k)) + enc_recipient(
            rs[k],
        ));
    }
}

proof fn lemma_enc_inputs_snoc(is: Seq<DraftInputV>, k: int)
    requires
        0 <= k < is.len(),
    ensures
        enc_inputs(is.take(k + 1)) == enc_inputs(is.take(k)) + enc_input(is[k]),
    decreases k,
{
    if k == 0 {
        assert(is.take(1).drop_first() =~= Seq::<DraftInputV>::empty());
        assert(is.take(0) =~= Seq::<DraftInputV>::empty());
        assert(enc_inputs(is.take(1)) =~= enc_inputs(is.take(0)) + enc_input(is[0]));
    } else {
        lemma_enc_inputs_snoc(is.drop_first(), k - 1);
        assert(is.take(k + 1).drop_first() =~= is.drop_first().take(k));
        assert(is.take(k).drop_first() =~= is.drop_first().take(k - 1));
        assert(is.take(k + 1).first() == is.first());
        assert(is.take(k).first() == is.first());
        assert(is.drop_first()[k - 1] == is[k]);
        assert(enc_inputs(is.take(k + 1)) =~= enc_inputs(is.take(k)) + enc_input(is[k]));
    }
}

proof fn lemma_enc_fin_inputs_snoc(is: Seq<FinalizedInputV>, k: int)
    requires
        0 <= k < is.len(),
    ensures
        enc_fin_inputs(is.take(k + 1)) == enc_fin_inputs(is.take(k)) + enc_fin_input(is[k]),
    decreases k,
{
    if k == 0 {
        assert(is.take(1).drop_first() =~= Seq::<FinalizedInputV>::empty());
        assert(is.take(0) =~= Seq::<FinalizedInputV>::empty());
        assert(enc_fin_inputs(is.take(1)) =~= enc_fin_inputs(is.take(0)) + enc_fin_input(is[0]));
    } else {
        lemma_enc_fin_inputs_snoc(is.drop_first(), k - 1);
        assert(is.take(k + 1).drop_first() =~= is.drop_first().take(k));
        assert(is.take(k).drop_first() =~= is.drop_first().take(k - 1));
        assert(is.take(k + 1).first() == is.first());
        assert(is.take(k).first() == is.first());
        assert(is.drop_first()[k - 1] == is[k]);
        assert(enc_fin_inputs(is.take(k + 1)) =~= enc_fin_inputs(is.take(k)) + enc_fin_input(
            is[k],
        ));
    }
}

fn write_u64(out: &mut Vec<u8>, x: u64)
    ensures
        final(out)@ == old(out)@ + spec_u64_to_le_bytes(x),
{
    let mut b = u64_to_le_bytes(x);
    out.append(&mut b);
}

fn write_u32(out: &mut Vec<u8>, x: u32)
    ensures
        final(out)@ == old(out)@ + spec_u32_to_le_bytes(x),
{
    let mut b = u32_to_le_bytes(x);
    out.append(&mut b);
}

fn write_bool(out: &mut Vec<u8>, x: bool)
    ensures
        final(out)@ == old(out)@ + enc_bool(x),
{
    out.push(if x { 1 } else { 0 });
    proof {
        assert(out@ =~= old(out)@ + enc_bool(x));
    }
}

fn write_lp(out: &mut Vec<u8>, v: &Vec<u8>)
    ensures
        final(out)@ == old(out)@ + enc_lp(v@),
{
    write_u64(out, v.len() as u64);
    let mut c = copy_bytes(v);
    out.append(&mut c);
    proof {
        assert(out@ =~= old(out)@ + enc_lp(v@));
    }
}

fn write_opt(out: &mut Vec<u8>, s: &Option<Vec<u8>>)
    ensures
        final(out)@ == old(out)@ + enc_opt(
            match s {
                Some(v) => Some(v@),
                None => None,
            },
        ),
{
    match s {
        None => {
            out.push(0);
            proof {
                assert(out@ =~= old(out)@ + enc_opt(None));
            }
        },
        Some(v) => {
            out.push(1);
            write_lp(out, v);
            proof {
                assert(out@ =~= old(out)@ + enc_opt(Some(v@)));
            }
        },
    }
}

fn write_recipient(out: &mut Vec<u8>, r: &Recipient)
    ensures
        final(out)@ == old(out)@ + enc_recipient(r@),
{
    write_lp(out, &r.address);
    write_u64(out, r.amount);
    proof {
        assert(out@ =~= old(out)@ + enc_recipient(r@));
    }
}

fn write_input(out: &mut Vec<u8>, i: &DraftInput)
    ensures
        final(out)@ == old(out)@ + enc_input(i@),
{
    write_lp(out, &i.outpoint.txid);
    write_u32(out, i.outpoint.vout);
    write_lp(out, &i.descriptor.bytes);
    write_opt(out, &i.signature);
    proof {
        assert(out@ =~= old(out)@ + enc_input(i@));
    }
}

fn write_fin_input(out: &mut Vec<u8>, i: &FinalizedInput)
    ensures
        final(out)@ == old(out)@ + enc_fin_input(i@),
{
    write_lp(out, &i.outpoint.txid);
    write_u32(out, i.outpoint.vout);
    write_lp(out, &i.signature);
    proof {
        assert(out@ =~= old(out)@ + enc_fin_input(i@));
    }
}

fn write_recipients(out: &mut Vec<u8>, rs: &Vec<Recipient>)
    ensures
        final(out)@ == old(out)@ + enc_recipients(rs@.map_values(|x: Recipient| x@)),
{
    let ghost rsv = rs@.map_values(|x: Recipient| x@);
    let n = rs.len();
    let mut k: usize = 0;
    proof {
        assert(rsv.take(0) =~= Seq::<RecipientV>::empty());
        assert(out@ =~= old(out)@ + enc_recipients(rsv.take(0)));
    }
    while k < n
        invariant
            n == rs@.len(),
            rsv == rs@.map_values(|x: Recipient| x@),
            k <= n,
            out@ == old(out)@ + enc_recipients(rsv.take(k as int)),
        decreases n - k,
    {
        write_recipient(out, &rs[k]);
        proof {
            lemma_enc_recipients_snoc(rsv, k as int);
            assert(out@ =~= old(out)@ + enc_recipients(rsv.take(k as int + 1)));
        }
        k += 1;
    }
    proof {
        assert(rsv.take(n as int) =~= rsv);
    }
}

fn write_inputs(out: &mut Vec<u8>, is: &Vec<DraftInput>)
    ensures
        final(out)@ == old(out)@ + enc_inputs(is@.map_values(|x: DraftInput| x@)),
{
    let ghost isv = is@.map_values(|x: DraftInput| x@);
    let n = is.len();
    let mut k: usize = 0;
    proof {
        assert(isv.take(0) =~= Seq::<DraftInputV>::empty());
        assert(out@ =~= old(out)@ + enc_inputs(isv.take(0)));
    }
    while k < n
        invariant
            n == is@.len(),
            isv == is@.map_values(|x: DraftInput| x@),
            k <= n,
            out@ == old(out)@ + enc_inputs(isv.take(k as int)),
        decreases n - k,
    {
        write_input(out, &is[k]);
        proof {
            lemma_enc_inputs_snoc(isv, k as int);
            assert(out@ =~= old(out)@ + enc_inputs(isv.take(k as int + 1)));
        }
        k += 1;
    }
    proof {
        assert(isv.take(n as int) =~= isv);
    }
}

fn write_fin_inputs(out: &mut Vec<u8>, is: &Vec<FinalizedInput>)
    ensures
        final(out)@ == old(out)@ + enc_fin_inputs(is@.map_values(|x: FinalizedInput| x@)),
{
    let ghost isv = is@.map_values(|x: FinalizedInput| x@);
    let n = is.len();
    let mut k: usize = 0;
    proof {
        assert(isv.take(0) =~= Seq::<FinalizedInputV>::empty());
        assert(out@ =~= old(out)@ + enc_fin_inputs(isv.take(0)));
    }
    while k < n
        invariant
            n == is@.len(),
            isv == is@.map_values(|x: FinalizedInput| x@),
            k <= n,
            out@ == old(out)@ + enc_fin_inputs(isv.take(k as int)),
        decreases n - k,
    {
        write_fin_input(out, &is[k]);
        proof {
            lemma_enc_fin_inputs_snoc(isv, k as int);
            assert(out@ =~= old(out)@ + enc_fin_inputs(isv.take(k as int + 1)));
        }
        k += 1;
    }
    proof {
        assert(isv.take(n as int) =~= isv);
    }
}

// ---------------------------------------------------------------- exec: decoding

fn parse_u64(bytes: &Vec<u8>, pos: usize) -> (r: Option<(u64, usize)>)
    ensures
        r is Some <==> dec_u64(bytes@, pos as int) is Some,
        r matches Some(p) ==> dec_u64(bytes@, pos as int) == Some((p.0, p.1 as int)) && p.1
            <= bytes@.len(),
{
    if pos <= bytes.len() && bytes.len() - pos >= 8 {
        let s = slice_subrange(bytes.as_slice(), pos, pos + 8);
        let x = u64_from_le_bytes(s);
        Some((x, pos + 8))
    } else {
        None
    }
}

fn parse_u32(bytes: &Vec<u8>, pos: usize) -> (r: Option<(u32, usize)>)
    ensures
        r is Some <==> dec_u32(bytes@, pos as int) is Some,
        r matches Some(p) ==> dec_u32(bytes@, pos as int) == Some((p.0, p.1 as int)) && p.1
            <= bytes@.len(),
{
    if pos <= bytes.len() && bytes.len() - pos >= 4 {
        let s = slice_subrange(bytes.as_slice(), pos, pos + 4);
        let x = u32_from_le_bytes(s);
        Some((x, pos + 4))
    } else {
        None
    }
}

fn parse_bool(bytes: &Vec<u8>, pos: usize) -> (r: Option<(bool, usize)>)
    ensures
        r is Some <==> dec_bool(bytes@, pos as int) is Some,
        r matches Some(p) ==> dec_bool(bytes@, pos as int) == Some((p.0, p.1 as int)) && p.1
            <= bytes@.len(),
{
    if pos < bytes.len() {
        let x = bytes[pos];
        if x == 0 {
            Some((false, pos + 1))
        } else if x == 1 {
            Some((true, pos + 1))
        } else {
            None
        }
    } else {
        None
    }
}

fn parse_lp(bytes: &Vec<u8>, pos: usize) -> (r: Option<(Vec<u8>, usize)>)
    ensures
        r is Some <==> dec_lp(bytes@, pos as int) is Some,
        r matches Some(p) ==> dec_lp(bytes@, pos as int) == Some((p.0@, p.1 as int)) && p.1
            <= bytes@.len(),
{
    match parse_u64(bytes, pos) {
        Some((n64, p)) => {
            if n64 <= (bytes.len() - p) as u64 {
                let n = n64 as usize;
                let s = slice_subrange(bytes.as_slice(), p, p + n);
                let v = slice_to_vec(s);
                Some((v, p + n))
            } else {
                None
            }
        },
        None => None,
    }
}

fn parse_opt(bytes: &Vec<u8>, pos: usize) -> (r: Option<(Option<Vec<u8>>, usize)>)
    ensures
        r is Some <==> dec_opt(bytes@, pos as int) is Some,
        r matches Some(p) ==> dec_opt(bytes@, pos as int) == Some(
            (
                match p.0 {
                    Some(v) => Some(v@),
                    None => None,
                },
                p.1 as int,
            ),
        ) && p.1 <= bytes@.len(),
{
    if pos < bytes.len() {
        let x = bytes[pos];
        if x == 0 {
            Some((None, pos + 1))
        } else if x == 1 {
            match parse_lp(bytes, pos + 1) {
                Some((v, p2)) => Some((Some(v), p2)),
                None => None,
            }
        } else {
            None
        }
    } else {
        None
    }
}

fn parse_recipient(bytes: &Vec<u8>, pos: usize) -> (r: Option<(Recipient, usize)>)
    ensures
        r is Some <==> dec_recipient(bytes@, pos as int) is Some,
        r matches Some(p) ==> dec_recipient(bytes@, pos as int) == Some((p.0@, p.1 as int)) && p.1
            <= bytes@.len(),
{
    match parse_lp(bytes, pos) {
        Some((address, p)) => match parse_u64(bytes, p) {
            Some((amount, p2)) => {
                let rec = Recipient { address, amount };
                proof {
                    assert(rec@ =~= dec_recipient(bytes@, pos as int).unwrap().0);
                }
                Some((rec, p2))
            },
            None => None,
        },
        None => None,
    }
}

fn parse_input(bytes: &Vec<u8>, pos: usize) -> (r: Option<(DraftInput, usize)>)
    ensures
        r is Some <==> dec_input(bytes@, pos as int) is Some,
        r matches Some(p) ==> dec_input(bytes@, pos as int) == Some((p.0@, p.1 as int)) && p.1
            <= bytes@.len(),
{
    match parse_lp(bytes, pos) {
        Some((txid, p)) => match parse_u32(bytes, p) {
            Some((vout, p2)) => match parse_lp(bytes, p2) {
                Some((descriptor, p3)) => match parse_opt(bytes, p3) {
                    Some((signature, p4)) => {
                        let input = DraftInput {
                            outpoint: Outpoint { txid, vout },
                            descriptor: SignableInputDescriptor { bytes: descriptor },
                            signature,
                        };
                        proof {
                            assert(input@ =~= dec_input(bytes@, pos as int).unwrap().0);
                        }
                        Some((input, p4))
                    },
                    None => None,
                },
                None => None,
            },
            None => None,
        },
        None => None,
    }
}

fn parse_fin_input(bytes: &Vec<u8>, pos: usize) -> (r: Option<(FinalizedInput, usize)>)
    ensures
        r is Some <==> dec_fin_input(bytes@, pos as int) is Some,
        r matches Some(p) ==> dec_fin_input(bytes@, pos as int) == Some((p.0@, p.1 as int)) && p.1
            <= bytes@.len(),
{
    match parse_lp(bytes, pos) {
        Some((txid, p)) => match parse_u32(bytes, p) {
            Some((vout, p2)) => match parse_lp(bytes, p2) {
                Some((signature, p3)) => {
                    let input = FinalizedInput { outpoint: Outpoint { txid, vout }, signature };
                    proof {
                        assert(input@ =~= dec_fin_input(bytes@, pos as int).unwrap().0);
                    }
                    Some((input, p3))
                },
                None => None,
            },
            None => None,
        },
        None => None,
    }
}

/// Prefix a decoded tail with already-decoded records.
spec fn with_prefix<T>(prefix: Seq<T>, rest: Option<(Seq<T>, int)>) -> Option<(Seq<T>, int)> {
    match rest {
        Some((s, p)) => Some((prefix + s, p)),
        None => None,
    }
}

fn parse_recipients(bytes: &Vec<u8>, pos: usize, count: u64) -> (r: Option<(Vec<Recipient>, usize)>)
    requires
        pos <= bytes@.len(),
    ensures
        r is Some <==> dec_recipients(bytes@, pos as int, count as nat) is Some,
        r matches Some(p) ==> dec_recipients(bytes@, pos as int, count as nat) == Some(
            (p.0@.map_values(|x: Recipient| x@), p.1 as int),
        ) && p.1 <= bytes@.len(),
{
    let ghost whole = dec_recipients(bytes@, pos as int, count as nat);
    let mut acc: Vec<Recipient> = Vec::new();
    let mut cur: usize = pos;
    let mut k: u64 = 0;
    proof {
        let m0 = acc@.map_values(|x: Recipient| x@);
        assert(m0 =~= Seq::<RecipientV>::empty());
        if whole is Some {
            let sp = whole.unwrap();
            assert(m0 + sp.0 =~= sp.0);
        }
        assert(whole == with_prefix(m0, dec_recipients(bytes@, pos as int, count as nat)));
    }
    while k < count
        invariant
            whole == dec_recipients(bytes@, pos as int, count as nat),
            k <= count,
            cur <= bytes@.len(),
            whole == with_prefix(
                acc@.map_values(|x: Recipient| x@),
                dec_recipients(bytes@, cur as int, (count - k) as nat),
            ),
        decreases count - k,
    {
        let ghost pre = acc@.map_values(|x: Recipient| x@);
        let ghost tail = dec_recipients(bytes@, cur as int, (count - k) as nat);
        match parse_recipient(bytes, cur) {
            Some((rec, p2)) => {
                proof {
                    let tail2 = dec_recipients(bytes@, p2 as int, (count - k - 1) as nat);
                    assert(tail == with_prefix(seq![rec@], tail2));
                    if tail2 is Some {
                        let sp = tail2.unwrap();
                        assert(pre + (seq![rec@] + sp.0) =~= pre.push(rec@) + sp.0);
                    }
                }
                acc.push(rec);
                proof {
                    assert(acc@.map_values(|x: Recipient| x@) =~= pre.push(rec@));
                }
                cur = p2;
                k += 1;
            },
            None => {
                proof {
                    assert(tail is None);
                    assert(whole is None);
                }
                return None;
            },
        }
    }
    proof {
        assert(dec_recipients(bytes@, cur as int, 0) == Some(
            (Seq::<RecipientV>::empty(), cur as int),
        ));
        let m = acc@.map_values(|x: Recipient| x@);
        assert(m + Seq::<RecipientV>::empty() =~= m);
        assert(whole == Some((m, cur as int)));
    }
    Some((acc, cur))
}

fn parse_inputs(bytes: &Vec<u8>, pos: usize, count: u64) -> (r: Option<(Vec<DraftInput>, usize)>)
    requires
        pos <= bytes@.len(),
    ensures
        r is Some <==> dec_inputs(bytes@, pos as int, count as nat) is Some,
        r matches Some(p) ==> dec_inputs(bytes@, pos as int, count as nat) == Some(
            (p.0@.map_values(|x: DraftInput| x@), p.1 as int),
        ) && p.1 <= bytes@.len(),
{
    let ghost whole = dec_inputs(bytes@, pos as int, count as nat);
    let mut acc: Vec<DraftInput> = Vec::new();
    let mut cur: usize = pos;
    let mut k: u64 = 0;
    proof {
        let m0 = acc@.map_values(|x: DraftInput| x@);
        assert(m0 =~= Seq::<DraftInputV>::empty());
        if whole is Some {
            let sp = whole.unwrap();
            assert(m0 + sp.0 =~= sp.0);
        }
        assert(whole == with_prefix(m0, dec_inputs(bytes@, pos as int, count as nat)));
    }
    while k < count
        invariant
            whole == dec_inputs(bytes@, pos as int, count as nat),
            k <= count,
            cur <= bytes@.len(),
            whole == with_prefix(
                acc@.map_values(|x: DraftInput| x@),
                dec_inputs(bytes@, cur as int, (count - k) as nat),
            ),
        decreases count - k,
    {
        let ghost pre = acc@.map_values(|x: DraftInput| x@);
        let ghost tail = dec_inputs(bytes@, cur as int, (count - k) as nat);
        match parse_input(bytes, cur) {
            Some((input, p2)) => {
                proof {
                    let tail2 = dec_inputs(bytes@, p2 as int, (count - k - 1) as nat);
                    assert(tail == with_prefix(seq![input@], tail2));
                    if tail2 is Some {
                        let sp = tail2.unwrap();
                        assert(pre + (seq![input@] + sp.0) =~= pre.push(input@) + sp.0);
                    }
                }
                acc.push(input);
                proof {
                    assert(acc@.map_values(|x: DraftInput| x@) =~= pre.push(input@));
                }
                cur = p2;
                k += 1;
            },
            None => {
                proof {
                    assert(tail is None);
                    assert(whole is None);
                }
                return None;
            },
        }
    }
    proof {
        assert(dec_inputs(bytes@, cur as int, 0) == Some(
            (Seq::<DraftInputV>::empty(), cur as int),
        ));
        let m = acc@.map_values(|x: DraftInput| x@);
        assert(m + Seq::<DraftInputV>::empty() =~= m);
        assert(whole == Some((m, cur as int)));
    }
    Some((acc, cur))
}

fn parse_fin_inputs(bytes: &Vec<u8>, pos: usize, count: u64) -> (r: Option<
    (Vec<FinalizedInput>, usize),
>)
    requires
        pos <= bytes@.len(),
    ensures
        r is Some <==> dec_fin_inputs(bytes@, pos as int, count as nat) is Some,
        r matches Some(p) ==> dec_fin_inputs(bytes@, pos as int, count as nat) == Some(
            (p.0@.map_values(|x: FinalizedInput| x@), p.1 as int),
        ) && p.1 <= bytes@.len(),
{
    let ghost whole = dec_fin_inputs(bytes@, pos as int, count as nat);
    let mut acc: Vec<FinalizedInput> = Vec::new();
    let mut cur: usize = pos;
    let mut k: u64 = 0;
    proof {
        let m0 = acc@.map_values(|x: FinalizedInput| x@);
        assert(m0 =~= Seq::<FinalizedInputV>::empty());
        if whole is Some {
            let sp = whole.unwrap();
            assert(m0 + sp.0 =~= sp.0);
        }
        assert(whole == with_prefix(m0, dec_fin_inputs(bytes@, pos as int, count as nat)));
    }
    while k < count
        invariant
            whole == dec_fin_inputs(bytes@, pos as int, count as nat),
            k <= count,
            cur <= bytes@.len(),
            whole == with_prefix(
                acc@.map_values(|x: FinalizedInput| x@),
                dec_fin_inputs(bytes@, cur as int, (count - k) as nat),
            ),
        decreases count - k,
    {
        let ghost pre = acc@.map_values(|x: FinalizedInput| x@);
        let ghost tail = dec_fin_inputs(bytes@, cur as int, (count - k) as nat);
        match parse_fin_input(bytes, cur) {
            Some((input, p2)) => {
                proof {
                    let tail2 = dec_fin_inputs(bytes@, p2 as int, (count - k - 1) as nat);
                    assert(tail == with_prefix(seq![input@], tail2));
                    if tail2 is Some {
                        let sp = tail2.unwrap();
                        assert(pre + (seq![input@] + sp.0) =~= pre.push(input@) + sp.0);
                    }
                }
                acc.push(input);
                proof {
                    assert(acc@.map_values(|x: FinalizedInput| x@) =~= pre.push(input@));
                }
                cur = p2;
                k += 1;
            },
            None => {
                proof {
                    assert(tail is None);
                    assert(whole is None);
                }
                return None;
            },
        }
    }
    proof {
        assert(dec_fin_inputs(bytes@, cur as int, 0) == Some(
            (Seq::<FinalizedInputV>::empty(), cur as int),
        ));
        let m = acc@.map_values(|x: FinalizedInput| x@);
        assert(m + Seq::<FinalizedInputV>::empty() =~= m);
        assert(whole == Some((m, cur as int)));
    }
    Some((acc, cur))
}

impl TransactionDraft {
    /// The byte encoding of this draft.
    pub fn encode(&self) -> (r: Vec<u8>)
        ensures
            r@ == enc_draft(self@),
    {
        let mut out: Vec<u8> = Vec::new();
        write_u64(&mut out, self.fee_rate);
        write_bool(&mut out, self.no_change);
        write_u64(&mut out, self.recipients.len() as u64);
        write_recipients(&mut out, &self.recipients);
        write_u64(&mut out, self.inputs.len() as u64);
        write_inputs(&mut out, &self.inputs);
        proof {
            assert(out@ =~= enc_draft(self@));
        }
        out
    }

    /// Recover a draft from its byte encoding. Succeeds exactly on the
    /// encodings [`TransactionDraft::encode`] produces; a successful
    /// decode is structurally identical to what was encoded.
    pub fn decode(bytes: &Vec<u8>) -> (r: Option<TransactionDraft>)
        ensures
            r is Some <==> dec_draft(bytes@) is Some,
            r matches Some(d) ==> dec_draft(bytes@) == Some(d@),
    {
        let (fee_rate, p) = match parse_u64(bytes, 0) {
            Some(x) => x,
            None => {
                return None;
            },
        };
        let (no_change, p2) = match parse_bool(bytes, p) {
            Some(x) => x,
            None => {
                return None;
            },
        };
        let (rc, p3) = match parse_u64(bytes, p2) {
            Some(x) => x,
            None => {
                return None;
            },
        };
        let (recipients, p4) = match parse_recipients(bytes, p3, rc) {
            Some(x) => x,
            None => {
                return None;
            },
        };
        let (ic, p5) = match parse_u64(bytes, p4) {
            Some(x) => x,
            None => {
                return None;
            },
        };
        let (inputs, p6) = match parse_inputs(bytes, p5, ic) {
            Some(x) => x,
            None => {
                return None;
            },
        };
        if p6 != bytes.len() {
            return None;
        }
        let d = TransactionDraft { recipients, inputs, fee_rate, no_change };
        proof {
            assert(d@ =~= dec_draft(bytes@).unwrap());
        }
        Some(d)
    }

    /// The persisted hex text of this draft.
    pub fn serialize_hex(&self) -> (r: Vec<u8>)
        ensures
            r@ == hex_enc(enc_draft(self@)),
    {
        let bytes = self.encode();
        hex_encode(&bytes)
    }

    /// Recover a draft from its persisted hex text.
    pub fn parse_hex(h: &Vec<u8>) -> (r: Option<TransactionDraft>)
        ensures
            r is Some <==> (hex_dec(h@) matches Some(b) && dec_draft(b) is Some),
            r matches Some(d) ==> dec_draft(hex_dec(h@).unwrap()) == Some(d@),
    {
        match hex_decode(h) {
            Some(b) => TransactionDraft::decode(&b),
            None => None,
        }
    }
}

impl MergedTransaction {
    /// The byte encoding of this merged transaction; it shares the
    /// draft layout, signature slots included.
    pub fn encode(&self) -> (r: Vec<u8>)
        ensures
            r@ == enc_draft(self@),
    {
        self.tx.encode()
    }

    /// Recover a merged transaction from its byte encoding.
    pub fn decode(bytes: &Vec<u8>) -> (r: Option<MergedTransaction>)
        ensures
            r is Some <==> dec_draft(bytes@) is Some,
            r matches Some(m) ==> dec_draft(bytes@) == Some(m@),
    {
        match TransactionDraft::decode(bytes) {
            Some(tx) => Some(MergedTransaction { tx }),
            None => None,
        }
    }

    /// The persisted hex text of this merged transaction.
    pub fn serialize_hex(&self) -> (r: Vec<u8>)
        ensures
            r@ == hex_enc(enc_draft(self@)),
    {
        self.tx.serialize_hex()
    }

    /// Recover a merged transaction from its persisted hex text.
    pub fn parse_hex(h: &Vec<u8>) -> (r: Option<MergedTransaction>)
        ensures
            r is Some <==> (hex_dec(h@) matches Some(b) && dec_draft(b) is Some),
            r matches Some(m) ==> dec_draft(hex_dec(h@).unwrap()) == Some(m@),
    {
        match TransactionDraft::parse_hex(h) {
            Some(tx) => Some(MergedTransaction { tx }),
            None => None,
        }
    }
}

impl FinalizedTransaction {
    /// The byte encoding of this finalized transaction.
    pub fn encode(&self) -> (r: Vec<u8>)
        ensures
            r@ == enc_finalized(self@),
    {
        let mut out: Vec<u8> = Vec::new();
        write_u64(&mut out, self.inputs.len() as u64);
        write_fin_inputs(&mut out, &self.inputs);
        write_u64(&mut out, self.recipients.len() as u64);
        write_recipients(&mut out, &self.recipients);
        proof {
            assert(out@ =~= enc_finalized(self@));
        }
        out
    }

    /// Recover a finalized transaction from its byte encoding.
    pub fn decode(bytes: &Vec<u8>) -> (r: Option<FinalizedTransaction>)
        ensures
            r is Some <==> dec_finalized(bytes@) is Some,
            r matches Some(f) ==> dec_finalized(bytes@) == Some(f@),
    {
        let (ic, p) = match parse_u64(bytes, 0) {
            Some(x) => x,
            None => {
                return None;
            },
        };
        let (inputs, p2) = match parse_fin_inputs(bytes, p, ic) {
            Some(x) => x,
            None => {
                return None;
            },
        };
        let (rc, p3) = match parse_u64(bytes, p2) {
            Some(x) => x,
            None => {
                return None;
            },
        };
        let (recipients, p4) = match parse_recipients(bytes, p3, rc) {
            Some(x) => x,
            None => {
                return None;
            },
        };
        if p4 != bytes.len() {
            return None;
        }
        let f = FinalizedTransaction { inputs, recipients };
        proof {
            assert(f@ =~= dec_finalized(bytes@).unwrap());
        }
        Some(f)
    }

    /// The persisted hex text of this finalized transaction.
    pub fn serialize_hex(&self) -> (r: Vec<u8>)
        ensures
            r@ == hex_enc(enc_finalized(self@)),
    {
        let bytes = self.encode();
        hex_encode(&bytes)
    }

    /// Recover a finalized transaction from its persisted hex text.
    pub fn parse_hex(h: &Vec<u8>) -> (r: Option<FinalizedTransaction>)
        ensures
            r is Some <==> (hex_dec(h@) matches Some(b) && dec_finalized(b) is Some),
            r matches Some(f) ==> dec_finalized(hex_dec(h@).unwrap()) == Some(f@),
    {
        match hex_decode(h) {
            Some(b) => FinalizedTransaction::decode(&b),
            None => None,
        }
    }
}

} // verus!
