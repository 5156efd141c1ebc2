use vstd::prelude::*;

use crate::text::Text;

verus! {

/// What a caller hands in to start a collection: a name, and optionally the
/// address of an existing remote playlist to take it from.
#[derive(Debug, PartialEq, Eq)]
pub struct InitCollection {
    pub name: String,
    pub from_playlist: Option<String>,
}

/// A collection as listings show it.
#[derive(Debug, PartialEq, Eq)]
pub struct CollectionListElement {
    pub name: String,
    pub deezer_id: String,
    pub url: String,
}

/// The mathematical value of a collection: its name, the reference of its
/// remote playlist, and its address.
pub struct CollectionView {
    pub name: Text,
    pub deezer_id: Text,
    pub url: Text,
}

impl View for CollectionListElement {
    type V = CollectionView;

    open spec fn view(&self) -> CollectionView {
        CollectionView { name: self.name@, deezer_id: self.deezer_id@, url: self.url@ }
    }
}

/// A collection as a single lookup shows it.
#[derive(Debug, PartialEq, Eq)]
pub struct Collection {
    pub name: String,
    pub deezer_id: String,
    pub url: String,
}

impl View for Collection {
    type V = CollectionView;

    open spec fn view(&self) -> CollectionView {
        CollectionView { name: self.name@, deezer_id: self.deezer_id@, url: self.url@ }
    }
}

/// A track of a playlist, with the reference by which tracks are told apart.
#[derive(Debug, PartialEq, Eq)]
pub struct Track {
    pub id: u64,
    pub deezer_id: String,
    pub title: String,
    pub link: String,
    pub artist: String,
}

/// The mathematical value of a [`Track`].
pub struct TrackView {
    pub id: u64,
    pub deezer_id: Text,
    pub title: Text,
    pub link: Text,
    pub artist: Text,
}

impl View for Track {
    type V = TrackView;

    open spec fn view(&self) -> TrackView {
        TrackView {
            id: self.id,
            deezer_id: self.deezer_id@,
            title: self.title@,
            link: self.link@,
            artist: self.artist@,
        }
    }
}

impl Clone for Track {
    fn clone(&self) -> (r: Self)
        ensures
            r@ == self@,
    {
        Track {
            id: self.id,
            deezer_id: self.deezer_id.clone(),
            title: self.title.clone(),
            link: self.link.clone(),
            artist: self.artist.clone(),
        }
    }
}

/// A playlist with its tracks.
#[derive(Debug, PartialEq, Eq)]
pub struct Playlist {
    pub id: u64,
    pub title: String,
    pub public: bool,
    pub nb_tracks: u64,
    pub url: String,
    pub tracks: Vec<Track>,
}

/// The mathematical value of a [`Playlist`].
pub struct PlaylistView {
    pub id: u64,
    pub title: Text,
    pub public: bool,
    pub nb_tracks: u64,
    pub url: Text,
    pub tracks: Seq<TrackView>,
}

/// The values of a list of tracks, in order.
pub open spec fn track_views(tracks: Seq<Track>) -> Seq<TrackView> {
    Seq::new(tracks.len(), |i: int| tracks[i]@)
}

/// The references of a list of tracks, in order.
pub open spec fn track_ids(tracks: Seq<TrackView>) -> Seq<Text> {
    Seq::new(tracks.len(), |i: int| tracks[i].deezer_id)
}

impl View for Playlist {
    type V = PlaylistView;

    open spec fn view(&self) -> PlaylistView {
        PlaylistView {
            id: self.id,
            title: self.title@,
            public: self.public,
            nb_tracks: self.nb_tracks,
            url: self.url@,
            tracks: track_views(self.tracks@),
        }
    }
}

impl Clone for Playlist {
    fn clone(&self) -> (r: Self)
        ensures
            r@ == self@,
    {
        let mut tracks: Vec<Track> = Vec::new();
        let mut i: usize = 0;
        while i < self.tracks.len()
            invariant
                i <= self.tracks.len(),
                tracks.len() == i,
                forall|j: int| 0 <= j < i ==> (#[trigger] tracks[j])@ == self.tracks[j]@,
            decreases self.tracks.len() - i,
        {
            tracks.push(self.tracks[i].clone());
            i += 1;
        }
        assert(track_views(tracks@) =~= track_views(self.tracks@));
        Playlist {
            id: self.id,
            title: self.title.clone(),
            public: self.public,
            nb_tracks: self.nb_tracks,
            url: self.url.clone(),
            tracks,
        }
    }
}

} // verus!
