use vstd::prelude::*;

use crate::domain_models::CollectionView;

verus! {

/// What the store is given to create a collection.
#[derive(Debug, PartialEq, Eq)]
pub struct InitCollectionDatabase {
    pub name: String,
    pub url: String,
    pub deezer_id: String,
}

impl View for InitCollectionDatabase {
    type V = CollectionView;

    open spec fn view(&self) -> CollectionView {
        CollectionView { name: self.name@, deezer_id: self.deezer_id@, url: self.url@ }
    }
}

/// A collection as the store hands it out: without its local identifier.
#[derive(Debug, PartialEq, Eq)]
pub struct CollectionDatabase {
    pub name: String,
    pub deezer_id: String,
    pub url: String,
}

impl View for CollectionDatabase {
    type V = CollectionView;

    open spec fn view(&self) -> CollectionView {
        CollectionView { name: self.name@, deezer_id: self.deezer_id@, url: self.url@ }
    }
}

} // verus!
