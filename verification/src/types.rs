//! Byte counts summed over network interfaces.
use vstd::prelude::*;

verus! {

/// Bytes received and sent, as cumulative interface counters report them.
#[derive(Clone, Copy)]
pub struct IfTotals {
    pub received_bytes: u64,
    pub sent_bytes: u64,
}

impl Default for IfTotals {
    fn default() -> (res: Self)
        ensures
            res.received_bytes == 0,
            res.sent_bytes == 0,
    {
        IfTotals { received_bytes: 0, sent_bytes: 0 }
    }
}

} // verus!
