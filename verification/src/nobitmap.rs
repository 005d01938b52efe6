//! A default no-op bitmap filter type.

use vstd::prelude::*;

use crate::db::Bloom;
use crate::Error;

verus! {

/// A no-op Bloom filter, useful as a type parameter where no filtering is
/// wanted: it holds nothing and reports everything as possibly present.
#[derive(Clone, Copy, Debug, PartialEq, Eq, Structural)]
pub struct NoBitmap;

impl Default for NoBitmap {
    /// The one value of the type.
    fn default() -> (r: NoBitmap)
        ensures
            r == NoBitmap,
    {
        NoBitmap
    }
}

impl Bloom for NoBitmap {
    type Err = Error;

    fn add_key<Q: ?Sized + core::hash::Hash>(&mut self, _key: &Q) {
    }

    fn add_digest32(&mut self, _digest: u32) {
    }

    fn build(&mut self) -> (r: Result<(), Error>) {
        Ok(())
    }

    fn contains<Q: ?Sized + core::hash::Hash>(&self, _element: &Q) -> (r: bool) {
        true
    }

    fn to_bytes(&self) -> (r: Result<Vec<u8>, Error>) {
        Ok(Vec::new())
    }

    fn from_bytes(_buf: &Vec<u8>) -> (r: Result<(NoBitmap, usize), Error>) {
        Ok((NoBitmap, 0))
    }

    fn or(&self, _other: &NoBitmap) -> (r: Result<NoBitmap, Error>) {
        Ok(NoBitmap)
    }
}

} // verus!
