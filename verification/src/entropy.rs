//! Random numbers from the operating system.

use vstd::prelude::*;
use crate::cell::Cell;

verus! {

/// The error of the `getrandom` crate, carried through unopened.
#[verifier::external_type_specification]
#[verifier::external_body]
pub struct ExGetrandomError(getrandom::Error);

/// The system's random source failed to deliver.
#[derive(Clone, Copy, Debug, PartialEq, Eq, Structural)]
pub struct EntropyError;

/// Calls `getrandom::getrandom` on an eight-byte buffer and reads the
/// buffer as one big-endian number.
///
/// Trusted, with nothing claimed: the call either fails or fills the
/// buffer, and nothing is known of the number that it then holds.
#[verifier::external_body]
pub(crate) fn rand_u64() -> (sample: Result<u64, getrandom::Error>) {
    let mut buf = [0u8; 8];
    getrandom::getrandom(&mut buf)?;
    Ok(u64::from_be_bytes(buf))
}

/// What one draw from the system makes of a cell: a sample gives the
/// cell that lies on its side of the threshold, and a failed draw gives
/// no cell but the failure.
pub open spec fn cell_of(draw: Result<u64, getrandom::Error>, threshold: u64) -> Result<
    Cell,
    EntropyError,
> {
    match draw {
        Ok(sample) => Ok(Cell::of_sample(sample, threshold)),
        Err(_) => Err(EntropyError),
    }
}

/// Turns one draw from the system into a cell, or into the failure that
/// the draw reports.
pub fn cell_of_draw(draw: Result<u64, getrandom::Error>, threshold: u64) -> (cell: Result<
    Cell,
    EntropyError,
>)
    ensures
        cell == cell_of(draw, threshold),
{
    match draw {
        Ok(sample) => Ok(Cell::from_sample(sample, threshold)),
        Err(_) => Err(EntropyError),
    }
}

} // verus!
