use vstd::prelude::*;

use crate::text::Text;

verus! {

/// What the remote service answers when a playlist has been created.
#[derive(Debug, PartialEq, Eq)]
pub struct CreatedPlaylist {
    pub id: u64,
}

impl View for CreatedPlaylist {
    type V = u64;

    open spec fn view(&self) -> u64 {
        self.id
    }
}

/// A track as the remote service reports it inside a playlist.
#[derive(Debug, PartialEq, Eq)]
pub struct Track {
    pub id: u64,
    pub title: String,
    pub link: String,
    pub artist: String,
}

/// The mathematical value of a remote [`Track`].
pub struct TrackView {
    pub id: u64,
    pub title: Text,
    pub link: Text,
    pub artist: Text,
}

impl View for Track {
    type V = TrackView;

    open spec fn view(&self) -> TrackView {
        TrackView { id: self.id, title: self.title@, link: self.link@, artist: self.artist@ }
    }
}

impl Clone for Track {
    fn clone(&self) -> (r: Self)
        ensures
            r@ == self@,
    {
        Track {
            id: self.id,
            title: self.title.clone(),
            link: self.link.clone(),
            artist: self.artist.clone(),
        }
    }
}

/// A playlist with its tracks, as the remote service reports it.
#[derive(Debug, PartialEq, Eq)]
pub struct Playlist {
    pub id: u64,
    pub title: String,
    pub public: bool,
    pub nb_tracks: u64,
    pub url: String,
    pub tracks: Vec<Track>,
}

/// The mathematical value of a remote [`Playlist`].
pub struct PlaylistView {
    pub id: u64,
    pub title: Text,
    pub public: bool,
    pub nb_tracks: u64,
    pub url: Text,
    pub tracks: Seq<TrackView>,
}

/// The values of a list of remote tracks, in order.
pub open spec fn track_views(tracks: Seq<Track>) -> Seq<TrackView> {
    Seq::new(tracks.len(), |i: int| tracks[i]@)
}

impl View for Playlist {
    type V = PlaylistView;

    open spec fn view(&self) -> PlaylistView {
        PlaylistView {
            id: self.id,
            title: self.title@,
            public: self.public,
            nb_tracks: self.nb_tracks,
            url: self.url@,
            tracks: track_views(self.tracks@),
        }
    }
}

impl Clone for Playlist {
    fn clone(&self) -> (r: Self)
        ensures
            r@ == self@,
    {
        let mut tracks: Vec<Track> = Vec::new();
        let mut i: usize = 0;
        while i < self.tracks.len()
            invariant
                i <= self.tracks.len(),
                tracks.len() == i,
                forall|j: int| 0 <= j < i ==> (#[trigger] tracks[j])@ == self.tracks[j]@,
            decreases self.tracks.len() - i,
        {
            tracks.push(self.tracks[i].clone());
            i += 1;
        }
        assert(track_views(tracks@) =~= track_views(self.tracks@));
        Playlist {
            id: self.id,
            title: self.title.clone(),
            public: self.public,
            nb_tracks: self.nb_tracks,
            url: self.url.clone(),
            tracks,
        }
    }
}

} // verus!
