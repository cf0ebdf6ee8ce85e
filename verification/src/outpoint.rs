//! Outpoints: immutable identifiers of spendable coins.
//!
//! An outpoint is the pair (transaction id, output index). Participants
//! submit outpoints in the textual `"txid:vout"` form; parsing that form
//! is delegated to the wallet library the coordinator is built on.

use vstd::prelude::*;

use crate::bytevec::bytes_eq;

verus! {

/// Number of bytes in a transaction id.
pub const TXID_LEN: usize = 32;

/// Identifies one spendable coin: the transaction that created it and
/// the index of the output inside that transaction.
pub struct Outpoint {
    /// Transaction id, as its 32 raw bytes.
    pub txid: Vec<u8>,
    /// Index of the output within the transaction.
    pub vout: u32,
}

/// Mathematical value of an [`Outpoint`].
#[verifier::ext_equal]
pub ghost struct OutpointV {
    pub txid: Seq<u8>,
    pub vout: u32,
}

impl View for Outpoint {
    type V = OutpointV;

    open spec fn view(&self) -> OutpointV {
        OutpointV { txid: self.txid@, vout: self.vout }
    }
}

impl OutpointV {
    /// A well-formed outpoint carries a full-length transaction id.
    pub open spec fn wf(self) -> bool {
        self.txid.len() == TXID_LEN
    }
}

/// What the wallet library's outpoint parser returns for a given string:
/// the raw transaction id bytes and the output index, or nothing when
/// the string is not of the `"txid:vout"` form.
pub uninterp spec fn parsed_outpoint(s: Seq<char>) -> Option<(Seq<u8>, u32)>;

/// Relies on `<bdk::bitcoin::OutPoint as core::str::FromStr>::from_str`:
/// the result is a function of the characters alone, and a transaction
/// id is a 32-byte hash.
#[verifier::external_body]
fn outpoint_from_str(s: &str) -> (r: Option<(Vec<u8>, u32)>)
    ensures
        r matches Some(p) ==> p.0@.len() == TXID_LEN && parsed_outpoint(s@) == Some((p.0@, p.1)),
        r is None ==> parsed_outpoint(s@) is None,
{
    match <bdk::bitcoin::OutPoint as core::str::FromStr>::from_str(s) {
        Ok(op) => Some((bdk::bitcoin::hashes::Hash::to_byte_array(op.txid).to_vec(), op.vout)),
        Err(_) => None,
    }
}

impl Outpoint {
    /// Parse the textual `"txid:vout"` form in which participants submit
    /// their coins. Succeeds exactly on the strings the underlying
    /// wallet library accepts.
    pub fn parse(s: &str) -> (r: Option<Outpoint>)
        ensures
            r matches Some(op) ==> op@.wf() && parsed_outpoint(s@) == Some((op@.txid, op@.vout)),
            r is None ==> parsed_outpoint(s@) is None,
    {
        match outpoint_from_str(s) {
            Some(p) => Some(Outpoint { txid: p.0, vout: p.1 }),
            None => None,
        }
    }

    /// Whether two outpoints identify the same coin.
    pub fn same_coin(&self, other: &Outpoint) -> (r: bool)
        ensures
            r == (self@ == other@),
    {
        let r = self.vout == other.vout && bytes_eq(&self.txid, &other.txid);
        proof {
            if self@.txid =~= other@.txid && self@.vout == other@.vout {
                assert(self@ =~= other@);
            }
        }
        r
    }

    /// A fresh outpoint for the same coin.
    pub fn duplicate(&self) -> (r: Outpoint)
        ensures
            r@ == self@,
    {
        Outpoint { txid: crate::bytevec::copy_bytes(&self.txid), vout: self.vout }
    }
}

} // verus!
