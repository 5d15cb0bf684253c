//! An owned run of opaque payload bytes.

use vstd::prelude::*;

verus! {

/// Opaque payload bytes carried behind a parsed header; never
/// protocol-interpreted.
#[derive(Clone, Debug)]
pub struct Blob(pub Vec<u8>);

impl Blob {
    pub fn new(slice: &[u8]) -> (b: Blob)
        ensures
            b.0@ == slice@,
    {
        Blob(vstd::slice::slice_to_vec(slice))
    }

    /// Append the bytes unchanged.
    pub fn serialize(&self, out: &mut Vec<u8>)
        ensures
            final(out)@ =~= old(out)@ + self.0@,
    {
        crate::serialize::put_slice(out, self.0.as_slice());
    }
}

} // verus!
