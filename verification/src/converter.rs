use vstd::prelude::*;

use crate::collection_commons::get_track_id_from_url;
use crate::deezer_models;
use crate::domain_models::{Playlist, PlaylistView, Track, TrackView};
use crate::text::{decimal, last_segment, parse_u64, write_u64, Text};

verus! {

/// The number that the last segment of `url` writes; 0 where it writes none.
pub open spec fn id_in_address(url: Text) -> u64 {
    match parse_u64(last_segment(url)) {
        Some(id) => id,
        None => 0,
    }
}

/// A track of the remote service as this library sees it: the reference by
/// which it is told apart is the number at the end of its link.
pub open spec fn converted_track(track: deezer_models::TrackView) -> TrackView {
    TrackView {
        id: track.id,
        deezer_id: decimal(id_in_address(track.link) as nat),
        title: track.title,
        link: track.link,
        artist: track.artist,
    }
}

/// The tracks of the remote service as this library sees them, in order.
pub open spec fn converted_tracks(tracks: Seq<deezer_models::TrackView>) -> Seq<TrackView> {
    Seq::new(tracks.len(), |i: int| converted_track(tracks[i]))
}

/// A playlist of the remote service as this library sees it.
pub open spec fn converted_playlist(playlist: deezer_models::PlaylistView) -> PlaylistView {
    PlaylistView {
        id: playlist.id,
        title: playlist.title,
        public: playlist.public,
        nb_tracks: playlist.nb_tracks,
        url: playlist.url,
        tracks: converted_tracks(playlist.tracks),
    }
}

/// Takes a playlist of the remote service over, with its tracks in order.
pub fn convert_playlist(playlist: deezer_models::Playlist) -> (r: Playlist)
    ensures
        r@ == converted_playlist(playlist@),
{
    Playlist {
        id: playlist.id,
        title: playlist.title,
        public: playlist.public,
        nb_tracks: playlist.nb_tracks,
        url: playlist.url,
        tracks: convert_tracks(playlist.tracks),
    }
}

/// Takes the tracks of the remote service over, in order.
pub fn convert_tracks(tracks: Vec<deezer_models::Track>) -> (r: Vec<Track>)
    ensures
        crate::domain_models::track_views(r@) == converted_tracks(
            deezer_models::track_views(tracks@),
        ),
{
    let mut out: Vec<Track> = Vec::new();
    let mut i: usize = 0;
    while i < tracks.len()
        invariant
            i <= tracks.len(),
            out.len() == i,
            forall|j: int| 0 <= j < i ==> (#[trigger] out[j])@ == converted_track(tracks[j]@),
        decreases tracks.len() - i,
    {
        out.push(convert_track(tracks[i].clone()));
        i += 1;
    }
    assert(crate::domain_models::track_views(out@) =~= converted_tracks(
        deezer_models::track_views(tracks@),
    ));
    out
}

/// Takes a track of the remote service over.
pub fn convert_track(track: deezer_models::Track) -> (r: Track)
    ensures
        r@ == converted_track(track@),
{
    let deezer_id = write_u64(get_track_id_from_url(track.link.clone()));
    Track { id: track.id, title: track.title, link: track.link, artist: track.artist, deezer_id }
}

} // verus!
