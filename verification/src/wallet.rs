//! Descriptor strings handed to the wallet capability provider.
//!
//! A participant wallet is described by two wpkh output descriptors
//! derived from one extended key: one for external addresses and one
//! for change.

use vstd::prelude::*;
use vstd::string::StringExecFns;

verus! {

/// The external and change wpkh descriptor strings for one extended
/// key, in that order.
pub fn prepare_descriptor(base: &str) -> (r: [String; 2])
    ensures
        r@[0]@ == "wpkh("@ + base@ + "/84'/1'/0'/0/*)"@,
        r@[1]@ == "wpkh("@ + base@ + "/84'/1'/0'/1/*)"@,
{
    let mut descriptor = String::from_str("wpkh(");
    descriptor.append(base);
    descriptor.append("/84'/1'/0'/0/*)");
    let mut change_descriptor = String::from_str("wpkh(");
    change_descriptor.append(base);
    change_descriptor.append("/84'/1'/0'/1/*)");
    [descriptor, change_descriptor]
}

} // verus!
