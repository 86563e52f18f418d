//! A mempool transaction as the bulk loader sees it: its id in canonical
//! lowercase-hex text form, its raw bytes, and how many unconfirmed
//! ancestors it has (itself included).

use vstd::prelude::*;

verus! {

pub struct TxDepth {
    /// One plus the number of unconfirmed ancestors; a root transaction has
    /// ancestor_count 1.
    pub ancestor_count: usize,
    pub tx_id: String,
    pub bytes: Vec<u8>,
}

} // verus!
