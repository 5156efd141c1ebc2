use vstd::prelude::*;

verus! {

/// The body of a request to start a collection.
#[derive(Debug, PartialEq, Eq)]
pub struct InitCollectionInput {
    pub name: String,
    pub from_playlist: Option<String>,
}

/// The body of a request to put one collection under another.
#[derive(Debug, PartialEq, Eq)]
pub struct AddCollectionToParent {
    pub parent_collection_id: String,
    pub child_collection_id: String,
}

/// The body of a request to take one collection out of another.
#[derive(Debug, PartialEq, Eq)]
pub struct RemoveCollectionToParent {
    pub parent_collection_id: String,
    pub child_collection_id: String,
}

} // verus!
