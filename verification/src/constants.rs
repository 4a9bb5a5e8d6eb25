use vstd::prelude::*;

verus! {

/// The window size for the convolutions (half a second at 44.1 kHz).
pub const WINDOW_SIZE: usize = 44100 / 2;

/// The maximum number of samples held in memory.
pub const MAX_BUFFER_SIZE: usize = WINDOW_SIZE * 8;

} // verus!
