//! The byte channel of the first bench program, for its users to implement.

use vstd::prelude::*;

verus! {

/// A channel that reads and writes whole buffers.
pub trait Serialio {
    /// Reads `len` bytes.
    fn readdata(&mut self, len: u16) -> Vec<u8>;

    /// Writes `buffer`, of which `len` bytes count.
    fn writedata(&mut self, buffer: Vec<u8>, len: u32);
}

} // verus!
