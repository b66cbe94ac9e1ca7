pub mod carrier;
pub mod crypto;
pub mod decoder;
pub mod encoder;
pub mod errors;
pub mod header;
pub mod index;
pub mod planner;

use vstd::prelude::*;

verus! {

/// True exactly for the channel bit depths the codec supports.
pub open spec fn valid_bit_depth(bits_per_channel: u8) -> bool {
    1 <= bits_per_channel <= 3
}

} // verus!
