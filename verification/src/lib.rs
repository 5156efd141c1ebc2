//! Collections of tracks that mirror playlists of a remote music service, and
//! the dependencies between them: a collection takes in the tracks of the
//! collections under it.
//!
//! The library keeps the store of collections and dependencies
//! ([`database`]), works out what a collection lacks of its children's tracks
//! and which tracks are its own ([`tracks`]), in which order a full sweep
//! refreshes the collections ([`traversal`]), and drives each operation step by
//! step ([`collection_management`], [`collection_dependencies`],
//! [`synchronizer`]): an operation hands out what it asks of the remote
//! service ([`steps`]) and goes on once the caller brings the answer back. The
//! calls themselves are built in [`deezer`]; sending them is the caller's part.

pub mod api_models;
pub mod collection_commons;
pub mod collection_dependencies;
pub mod collection_management;
pub mod controllers;
pub mod converter;
pub mod database;
pub mod database_models;
pub mod deezer;
pub mod deezer_models;
pub mod domain_models;
pub mod errors;
pub mod lists;
pub mod models;
pub mod steps;
pub mod synchronizer;
pub mod text;
pub mod tracks;
pub mod traversal;
