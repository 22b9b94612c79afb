//! A downloaded file.
use vstd::prelude::*;

verus! {

/// A file as a source delivered it: the revision it was taken at and its bytes.
#[derive(Debug)]
pub struct VdmSourceFile {
    pub revision: String,
    pub bytes: Vec<u8>,
}

impl VdmSourceFile {
    /// The content of the file.
    pub fn bytes(&self) -> (r: &[u8])
        ensures
            r@ == self.bytes@,
    {
        self.bytes.as_slice()
    }
}

} // verus!
