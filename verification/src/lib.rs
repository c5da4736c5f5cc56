pub mod backend;
pub mod bitmap;
pub mod cli;
pub mod client;
pub mod protocol;
pub mod server;
pub mod text;

use vstd::prelude::*;

verus! {

/// Block size used by the daemons and clients when none is configured.
pub const DEFAULT_BLOCK_SIZE: u64 = 4096;

/// The number of bytes in `value` mebibytes.
pub open spec fn spec_mib(value: nat) -> nat {
    value * 1024 * 1024
}

/// Converts a size in mebibytes into bytes.
pub fn mib(value: u64) -> (bytes: u64)
    requires
        spec_mib(value as nat) <= u64::MAX,
    ensures
        bytes == spec_mib(value as nat),
{
    value * 1024 * 1024
}

} // verus!
