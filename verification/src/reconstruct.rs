//! What a lookup hands to the code that reconstructs a value from layers.
use crate::key::Lsn;
use vstd::prelude::*;

verus! {

/// The byte buffer of the `bytes` crate, in which page images are handed on.
#[verifier::external_type_specification]
#[verifier::external_body]
pub struct ExBytes(bytes::Bytes);

/// The bytes that a buffer holds.
pub uninterp spec fn bytes_contents(b: bytes::Bytes) -> Seq<u8>;

/// Calls `Bytes::from` on a vector, which takes the vector over without
/// changing its contents. Assumed, and not proved: the buffer holds the
/// bytes of the vector.
#[verifier::external_body]
pub(crate) fn bytes_from_vec(v: Vec<u8>) -> (b: bytes::Bytes)
    ensures
        bytes_contents(b) == v@,
{
    bytes::Bytes::from(v)
}

/// How far a lookup in one layer has brought the reconstruction of a value.
#[derive(Debug, Clone, Copy, PartialEq, Eq, Structural)]
pub enum ValueReconstructResult {
    /// More layers are needed below this one.
    Continue,
    /// The value is at hand: no older layer is needed.
    Complete,
    /// The layer has nothing for the key: it has to be looked for in older
    /// layers or ancestors.
    Missing,
}

/// What has been collected for a value so far.
pub struct ValueReconstructState {
    /// A full image of the value with the LSN at which it was taken.
    pub img: Option<(Lsn, bytes::Bytes)>,
}

impl ValueReconstructState {
    /// The image that has been collected, as plain bytes with its LSN.
    pub open spec fn image(&self) -> Option<(Lsn, Seq<u8>)> {
        match self.img {
            Some((lsn, b)) => Some((lsn, bytes_contents(b))),
            None => None,
        }
    }

    /// A state in which nothing has been collected.
    pub fn new() -> (s: ValueReconstructState)
        ensures
            s.img is None,
    {
        ValueReconstructState { img: None }
    }
}

} // verus!
