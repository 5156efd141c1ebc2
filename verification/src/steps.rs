use vstd::prelude::*;

use crate::deezer::{
    add_tracks_to_playlist, create_playlist, get_playlist, ApiCall, DeezerConfig, Method,
};
use crate::deezer_models::Playlist;
use crate::errors::{DeezerModuleError, DomainError};
use crate::text::{texts, Text};

verus! {

/// What an operation asks of the remote service before it can go on.
#[derive(Debug, PartialEq, Eq)]
pub enum DeezerRequest {
    /// Create an empty playlist with this name.
    CreatePlaylist(String),
    /// Report the playlist with this number, with its tracks.
    GetPlaylist(u64),
    /// Append these tracks to the playlist with this reference, in one call.
    AddTracks(String, Vec<String>),
}

/// The mathematical value of a [`DeezerRequest`].
pub enum RequestView {
    CreatePlaylist(Text),
    GetPlaylist(u64),
    AddTracks(Text, Seq<Text>),
}

impl View for DeezerRequest {
    type V = RequestView;

    open spec fn view(&self) -> RequestView {
        match self {
            DeezerRequest::CreatePlaylist(name) => RequestView::CreatePlaylist(name@),
            DeezerRequest::GetPlaylist(id) => RequestView::GetPlaylist(*id),
            DeezerRequest::AddTracks(playlist_id, track_ids) => RequestView::AddTracks(
                playlist_id@,
                texts(track_ids@),
            ),
        }
    }
}

/// What the remote service answered to a [`DeezerRequest`].
#[derive(Debug, PartialEq, Eq)]
pub enum DeezerAnswer {
    /// The number of the created playlist.
    Created(Result<u64, DeezerModuleError>),
    /// The reported playlist.
    Playlist(Result<Playlist, DeezerModuleError>),
    /// Whether the service says that the tracks were appended.
    Added(Result<bool, DeezerModuleError>),
}

/// Where an operation stands: it either asks something of the remote service,
/// handing out what it needs to go on once the answer is there, or it is done.
#[derive(Debug)]
pub enum Step<Task, T> {
    Ask(DeezerRequest, Task),
    Done(Result<T, DomainError>),
}

/// What becomes of a request: a call to send to the remote service, or an
/// answer that is known without any call.
#[derive(Debug, PartialEq, Eq)]
pub enum Dispatch {
    Send(ApiCall),
    Answer(DeezerAnswer),
}

/// The address that carries `request` to the remote service.
pub open spec fn request_address(api_path: Text, user_id: Text, token: Text, request: RequestView) -> Text {
    match request {
        RequestView::CreatePlaylist(name) => crate::deezer::create_playlist_address(
            api_path,
            user_id,
            token,
            name,
        ),
        RequestView::GetPlaylist(id) => crate::deezer::get_playlist_address(api_path, token, id),
        RequestView::AddTracks(playlist_id, track_ids) => crate::deezer::add_tracks_address(
            api_path,
            token,
            playlist_id,
            track_ids,
        ),
    }
}

/// How `request` is carried to the remote service: a playlist is fetched with
/// a `GET`, everything else is done with a `POST`.
pub open spec fn request_method(request: RequestView) -> Method {
    match request {
        RequestView::GetPlaylist(_) => Method::Get(),
        _ => Method::Post(),
    }
}

/// Whether `request` asks to append no track at all.
pub open spec fn appends_nothing(request: RequestView) -> bool {
    request matches RequestView::AddTracks(_, track_ids) && track_ids.len() == 0
}

/// What becomes of `request`: the call that carries it to the remote service.
/// A request to append no track at all is answered at once, without a call:
/// nothing was added.
pub fn request_call(config: &DeezerConfig, request: DeezerRequest) -> (r: Dispatch)
    ensures
        appends_nothing(request@) ==> r == Dispatch::Answer(DeezerAnswer::Added(Ok(false))),
        !appends_nothing(request@) ==> (r matches Dispatch::Send(call) && call.method
            == request_method(request@) && call.url@ == request_address(
            config.api_path(),
            config.user_id(),
            config.token(),
            request@,
        )),
{
    match request {
        DeezerRequest::CreatePlaylist(name) => Dispatch::Send(create_playlist(config, name.as_str())),
        DeezerRequest::GetPlaylist(id) => Dispatch::Send(get_playlist(config, &id)),
        DeezerRequest::AddTracks(playlist_id, track_ids) => {
            match add_tracks_to_playlist(config, playlist_id.as_str(), track_ids) {
                Some(call) => Dispatch::Send(call),
                None => Dispatch::Answer(DeezerAnswer::Added(Ok(false))),
            }
        },
    }
}

} // verus!
