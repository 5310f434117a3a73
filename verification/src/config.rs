//! The constants of the network.

use vstd::prelude::*;

verus! {

/// The record of a node to start discovery from.
pub const BOOTNODE: &'static str = "enr:-Ku4QG-2_Md3sZIAUebGYT6g0SMskIml77l6yR-M_JXc-UdNHCmHQeOiMLbylPejyJsdAPsTHJyjJB2sYGDLe0dn8uYBh2F0dG5ldHOIAAAAAAAAAACEZXRoMpC1MD8qAAAAAP__________gmlkgnY0gmlwhBLY-NyJc2VjcDI1NmsxoQORcM6e19T1T9gi7jxEZjk_sjVLGFscUNqAY9obgZaxbIN1ZHCCIyg";

/// The most bytes that a gossip message may hold: ten mebibytes.
pub const GOSSIP_MAX_SIZE_BELLATRIX: usize = 10 * 1_048_576;

/// How many seconds a gossip message is remembered, so that it is not passed on twice.
pub const DUPLICATE_CACHE_TIME: u64 = 33 * 12 + 1;

/// The version of the Bellatrix fork.
pub const BELLATRIX_FORK_VERSION: [u8; 4] = [2, 0, 0, 0];

/// The root of the validators that the main network started with.
pub const GENESIS_VALIDATORS_ROOT: [u8; 32] = [
    75, 54, 61, 185, 78, 40, 97, 32, 215, 110, 185, 5, 52, 15, 221, 78, 84, 191, 233, 240, 107, 243,
    63, 246, 207, 90, 210, 127, 81, 27, 254, 149,
];

} // verus!
