use vstd::prelude::*;
use vstd::slice::slice_to_vec;

verus! {

/// Holds the vertex indices of a mesh once they have been set.
pub struct IndexBuffer {
    indices: Option<Vec<u32>>,
}

impl IndexBuffer {
    /// The indices held, if any have been set.
    pub closed spec fn contents(&self) -> Option<Seq<u32>> {
        match self.indices {
            None => None,
            Some(v) => Some(v@),
        }
    }

    /// A buffer with no indices set.
    pub fn new() -> (r: IndexBuffer)
        ensures
            r.contents() is None,
    {
        IndexBuffer { indices: None }
    }

    /// Keeps a copy of `indices`, replacing any set before.
    pub fn set(&mut self, indices: &[u32])
        ensures
            final(self).contents() == Some(indices@),
    {
        self.indices = Some(slice_to_vec(indices));
    }

    /// The indices last set, if any.
    pub fn get(&self) -> (r: Option<&[u32]>)
        ensures
            self.contents() is None ==> r is None,
            self.contents() matches Some(v) ==> (r matches Some(s) && s@ == v),
    {
        match &self.indices {
            None => None,
            Some(v) => Some(v.as_slice()),
        }
    }
}

} // verus!
