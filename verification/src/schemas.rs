//! The data carried through the pipeline: a text payload plus a metadata
//! mapping, the atomic unit handed downstream.

use vstd::prelude::*;

verus! {

/// A unit of text paired with metadata. Immutable once constructed; the
/// pipeline moves it by value, so no two consumers share a live copy.
#[derive(Debug, Clone)]
pub struct Document {
    /// The text payload; may be empty, never absent.
    pub content: String,
    /// String-keyed metadata. Insertion order is irrelevant and keys are
    /// unique; the loading path always leaves it empty.
    pub metadata: Vec<(String, String)>,
}

impl Document {
    /// Keys of the metadata mapping never repeat.
    pub open spec fn metadata_keys_unique(&self) -> bool {
        forall|i: int, j: int|
            0 <= i < j < self.metadata@.len() ==> self.metadata@[i].0@ != self.metadata@[j].0@
    }

    /// Wraps a text payload with empty metadata.
    pub fn new(content: String) -> (r: Document)
        ensures
            r.content == content,
            r.metadata@ == Seq::<(String, String)>::empty(),
            r.metadata_keys_unique(),
    {
        Document { content, metadata: Vec::new() }
    }
}

} // verus!
