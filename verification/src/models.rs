use vstd::prelude::*;

use crate::text::Text;

verus! {

/// A stored collection: the local identifier that the store gave it, its name,
/// its address, and the reference of its remote playlist.
#[derive(Debug, PartialEq, Eq)]
pub struct Collection {
    pub id: i32,
    pub name: String,
    pub url: String,
    pub deezer_id: String,
}

/// The mathematical value of a stored [`Collection`].
pub struct CollectionRow {
    pub id: i32,
    pub name: Text,
    pub url: Text,
    pub deezer_id: Text,
}

impl View for Collection {
    type V = CollectionRow;

    open spec fn view(&self) -> CollectionRow {
        CollectionRow { id: self.id, name: self.name@, url: self.url@, deezer_id: self.deezer_id@ }
    }
}

impl Clone for Collection {
    fn clone(&self) -> (r: Self)
        ensures
            r@ == self@,
    {
        Collection {
            id: self.id,
            name: self.name.clone(),
            url: self.url.clone(),
            deezer_id: self.deezer_id.clone(),
        }
    }
}

/// A stored dependency: the collection `parent_id` takes in the tracks of the
/// collection `child_id`.
#[derive(Clone, Copy, Debug, PartialEq, Eq, Structural)]
pub struct CollectionDependencies {
    pub parent_id: i32,
    pub child_id: i32,
}

} // verus!
