//! Directory-integrity library: manifests of `(path, size, digest)` records,
//! a block-wise hasher, a four-way differ, and the progress-event protocol
//! that a pipeline run reports through.

use vstd::prelude::*;

pub mod checksums;
pub mod compare;
pub mod hasher;
pub mod message;
pub mod verify;

verus! {

/// The hard errors of the library's own logic. I/O failures stay with the
/// caller that performs the I/O.
#[derive(Debug, Clone, Copy, PartialEq, Eq, Structural)]
pub enum ChecksumError {
    /// The digest algorithm name is not one the hasher implements.
    UnknownAlgorithm,
    /// Two manifests under comparison carry different algorithm tags.
    AlgorithmMismatch,
    /// The entry sizes do not fit the 64-bit running total.
    SizeOverflow,
}

} // verus!
