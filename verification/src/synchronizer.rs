use vstd::prelude::*;

use crate::collection_commons::{
    convert_string_to_u64, get_playlist, log_deezer_error, log_parameters_error, number_or_zero,
};
use crate::collection_management::{get_children_ids, refresh_order};
use crate::controllers::{check_id_valid, lemma_messages_are_not_empty};
use crate::converter::converted_tracks;
use crate::database::{collection_ids, Database, DatabaseState};
use crate::database_models::CollectionDatabase;
use crate::deezer_models;
use crate::domain_models::{track_ids, track_views, Track, TrackView};
use crate::errors::DomainError;
use crate::steps::{DeezerAnswer, DeezerRequest, RequestView, Step};
use crate::text::{parse_u64, texts, Text};
use crate::tracks::{
    add_missing_tracks, exclude_tracks, missing_tracks, own_tracks, playlist_track_ids,
};
use crate::traversal::{child_ids, swept_order};

verus! {

/// The references of the tracks that the remote service reports in `playlist`,
/// in order.
pub open spec fn reported_ids(playlist: deezer_models::Playlist) -> Seq<Text> {
    track_ids(converted_tracks(playlist@.tracks))
}

/// The remote references of `collections`, in order.
fn deezer_ids_of(collections: Vec<CollectionDatabase>) -> (ids: Vec<String>)
    ensures
        texts(ids@) == collection_ids(collections@),
{
    let mut ids: Vec<String> = Vec::new();
    let mut i: usize = 0;
    while i < collections.len()
        invariant
            i <= collections.len(),
            ids.len() == i,
            forall|j: int| 0 <= j < i ==> (#[trigger] ids[j])@ == collections[j]@.deezer_id,
        decreases collections.len() - i,
    {
        ids.push(collections[i].deezer_id.clone());
        i += 1;
    }
    assert(texts(ids@) =~= collection_ids(collections@));
    ids
}

/// How far the refresh of a collection has come, as specifications see it.
pub enum RefreshStage {
    /// The collection's own playlist has been asked for.
    Parent,
    /// The playlist of a child has been asked for. `parent` are the tracks of
    /// the collection's own playlist, `children` the remote references of its
    /// children, and `gathered` the tracks of the children that have answered
    /// so far.
    Child { parent: Seq<Text>, children: Seq<Text>, gathered: Seq<Seq<Text>> },
    /// The missing tracks have been sent to be appended.
    Append,
}

/// The mathematical value of a [`RefreshTask`].
pub struct RefreshTaskView {
    /// The remote reference of the collection that is refreshed.
    pub id: Text,
    pub stage: RefreshStage,
}

enum RefreshProgress {
    Parent,
    Child {
        parent: Vec<String>,
        children: Vec<String>,
        fetched: usize,
        tracks_to_add: Vec<String>,
        gathered: Ghost<Seq<Seq<Text>>>,
    },
    Append,
}

/// What is left to do of the refresh of a collection while the remote service
/// is asked.
pub struct RefreshTask {
    id: String,
    progress: RefreshProgress,
}

impl View for RefreshTask {
    type V = RefreshTaskView;

    closed spec fn view(&self) -> RefreshTaskView {
        RefreshTaskView {
            id: self.id@,
            stage: match self.progress {
                RefreshProgress::Parent => RefreshStage::Parent,
                RefreshProgress::Child { parent, children, fetched, tracks_to_add, gathered } => {
                    RefreshStage::Child {
                        parent: texts(parent@),
                        children: texts(children@),
                        gathered: gathered@,
                    }
                },
                RefreshProgress::Append => RefreshStage::Append,
            },
        }
    }
}

/// Where the refresh of a collection stands, as specifications see it.
pub enum RefreshStep {
    /// The playlist with this number must be fetched.
    Fetch { playlist: u64, task: RefreshTaskView },
    /// These tracks must be appended to the playlist with this reference.
    Append { playlist_id: Text, track_ids: Seq<Text>, task: RefreshTaskView },
    /// The refresh has ended.
    Done(Result<bool, DomainError>),
}

/// The step that `step` stands for.
pub open spec fn refresh_step(step: Step<RefreshTask, bool>) -> RefreshStep {
    match step {
        Step::Ask(request, task) => match request@ {
            RequestView::GetPlaylist(playlist) => RefreshStep::Fetch { playlist, task: task@ },
            RequestView::AddTracks(playlist_id, track_ids) => RefreshStep::Append {
                playlist_id,
                track_ids,
                task: task@,
            },
            RequestView::CreatePlaylist(_) => RefreshStep::Done(
                Err(DomainError::DomainMusicServiceError()),
            ),
        },
        Step::Done(result) => RefreshStep::Done(result),
    }
}

/// How a refresh starts: with the request for the collection's own playlist,
/// or at once with a parameter error where the reference writes no number.
pub open spec fn refresh_started(id: Text) -> RefreshStep {
    if parse_u64(id) is None {
        RefreshStep::Done(Err(DomainError::DomainParamError()))
    } else {
        RefreshStep::Fetch {
            playlist: number_or_zero(id),
            task: RefreshTaskView { id, stage: RefreshStage::Parent },
        }
    }
}

/// How a refresh goes on once the playlists in `gathered` are there: the next
/// child is asked for, if one is left. Else the tracks that the parent lacks
/// are sent to be appended; where it lacks none, nothing is sent and the
/// refresh ends.
pub open spec fn after_gathering(
    id: Text,
    parent: Seq<Text>,
    children: Seq<Text>,
    gathered: Seq<Seq<Text>>,
) -> RefreshStep {
    if gathered.len() < children.len() {
        RefreshStep::Fetch {
            playlist: number_or_zero(children[gathered.len() as int]),
            task: RefreshTaskView { id, stage: RefreshStage::Child { parent, children, gathered } },
        }
    } else if missing_tracks(parent, gathered).len() == 0 {
        RefreshStep::Done(Ok(true))
    } else {
        RefreshStep::Append {
            playlist_id: id,
            track_ids: missing_tracks(parent, gathered),
            task: RefreshTaskView { id, stage: RefreshStage::Append },
        }
    }
}

/// How a refresh goes on once the remote service has answered.
///
/// A failed call, or an answer of the wrong kind, ends the refresh with a
/// remote-service error. Behind the collection's own playlist the children are
/// read from the store: where the store cannot be reached or does not hold the
/// collection, the refresh ends with a data error. Behind the append the
/// refresh ends well, whatever the service says of what it added.
pub open spec fn refresh_outcome(
    state: DatabaseState,
    task: RefreshTaskView,
    answer: DeezerAnswer,
) -> RefreshStep {
    match (task.stage, answer) {
        (RefreshStage::Parent, DeezerAnswer::Playlist(Ok(playlist))) => if state.connected
            && state.holds(task.id) {
            after_gathering(
                task.id,
                reported_ids(playlist),
                child_ids(state, task.id),
                Seq::empty(),
            )
        } else {
            RefreshStep::Done(Err(DomainError::DomainDataError()))
        },
        (
            RefreshStage::Child { parent, children, gathered },
            DeezerAnswer::Playlist(Ok(playlist)),
        ) => after_gathering(task.id, parent, children, gathered.push(reported_ids(playlist))),
        (RefreshStage::Append, DeezerAnswer::Added(Ok(_))) => RefreshStep::Done(Ok(true)),
        _ => RefreshStep::Done(Err(DomainError::DomainMusicServiceError())),
    }
}

impl RefreshTask {
    /// The invariant of a task: while children are asked for, one is still
    /// awaited, and the tracks to add are those that the parent lacks of the
    /// children that have answered.
    pub closed spec fn wf(&self) -> bool {
        match self.progress {
            RefreshProgress::Child { parent, children, fetched, tracks_to_add, gathered } => {
                &&& fetched == gathered@.len()
                &&& fetched < children.len()
                &&& texts(tracks_to_add@) == missing_tracks(texts(parent@), gathered@)
            },
            _ => true,
        }
    }

    /// Goes on once the playlists counted by `fetched` are there.
    fn proceed(
        id: String,
        parent: Vec<String>,
        children: Vec<String>,
        fetched: usize,
        tracks_to_add: Vec<String>,
        gathered: Ghost<Seq<Seq<Text>>>,
    ) -> (step: Step<RefreshTask, bool>)
        requires
            fetched == gathered@.len(),
            fetched <= children.len(),
            texts(tracks_to_add@) == missing_tracks(texts(parent@), gathered@),
        ensures
            refresh_step(step) == after_gathering(
                id@,
                texts(parent@),
                texts(children@),
                gathered@,
            ),
            step matches Step::Ask(request, task) ==> task.wf() && !(request@ is CreatePlaylist),
    {
        if fetched < children.len() {
            let playlist = convert_string_to_u64(children[fetched].as_str());
            Step::Ask(
                DeezerRequest::GetPlaylist(playlist),
                RefreshTask {
                    id,
                    progress: RefreshProgress::Child {
                        parent,
                        children,
                        fetched,
                        tracks_to_add,
                        gathered,
                    },
                },
            )
        } else if tracks_to_add.len() == 0 {
            Step::Done(Ok(true))
        } else {
            Step::Ask(
                DeezerRequest::AddTracks(id.clone(), tracks_to_add),
                RefreshTask { id, progress: RefreshProgress::Append },
            )
        }
    }

    /// Goes on with the refresh once the remote service has answered.
    pub fn resume(self, db: &Database, answer: DeezerAnswer) -> (step: Step<RefreshTask, bool>)
        requires
            db.wf(),
            self.wf(),
        ensures
            refresh_step(step) == refresh_outcome(db@, self@, answer),
            step matches Step::Ask(request, task) ==> task.wf() && !(request@ is CreatePlaylist),
    {
        match self.progress {
            RefreshProgress::Parent => {
                let asked = convert_string_to_u64(self.id.as_str());
                let fetched = match answer {
                    DeezerAnswer::Playlist(fetched) => fetched,
                    _ => {
                        return Step::Done(Err(log_deezer_error("Unexpected answer")));
                    },
                };
                let playlist = match get_playlist(&asked, fetched) {
                    Ok(playlist) => playlist,
                    Err(e) => {
                        return Step::Done(Err(e));
                    },
                };
                let parent = playlist_track_ids(&playlist);
                let children = match get_children_ids(db, self.id.as_str()) {
                    Ok(child_collections) => deezer_ids_of(child_collections),
                    Err(e) => {
                        return Step::Done(Err(e));
                    },
                };
                let tracks_to_add: Vec<String> = Vec::new();
                proof {
                    assert(texts(tracks_to_add@) =~= Seq::empty());
                }
                RefreshTask::proceed(
                    self.id,
                    parent,
                    children,
                    0,
                    tracks_to_add,
                    Ghost(Seq::empty()),
                )
            },
            RefreshProgress::Child { parent, children, fetched, tracks_to_add, gathered } => {
                let asked = convert_string_to_u64(children[fetched].as_str());
                let answered = match answer {
                    DeezerAnswer::Playlist(answered) => answered,
                    _ => {
                        return Step::Done(Err(log_deezer_error("Unexpected answer")));
                    },
                };
                let playlist = match get_playlist(&asked, answered) {
                    Ok(playlist) => playlist,
                    Err(e) => {
                        return Step::Done(Err(e));
                    },
                };
                let mut tracks_to_add = tracks_to_add;
                add_missing_tracks(&mut tracks_to_add, &parent, &playlist);
                let ghost grown = gathered@.push(track_ids(playlist@.tracks));
                proof {
                    assert(grown.drop_last() =~= gathered@);
                }
                RefreshTask::proceed(
                    self.id,
                    parent,
                    children,
                    fetched + 1,
                    tracks_to_add,
                    Ghost(grown),
                )
            },
            RefreshProgress::Append => match answer {
                DeezerAnswer::Added(Ok(_)) => Step::Done(Ok(true)),
                _ => Step::Done(Err(log_deezer_error("Error while adding tracks to the playlist"))),
            },
        }
    }
}

/// Starts the refresh of the collection `id`: its remote playlist is brought up
/// to hold every track of its direct children.
///
/// The reference must write a number: else the refresh ends at once with a
/// parameter error. The refresh first asks for the collection's own playlist,
/// then for the playlist of each direct child in the store's order, and at last
/// sends, in one call, the tracks that the own playlist lacks: those of the
/// children that it does not hold, each once, in the order of their first
/// appearance. Where it lacks none, nothing is sent.
pub fn refresh_collection(id: &str) -> (step: Step<RefreshTask, bool>)
    ensures
        refresh_step(step) == refresh_started(id@),
        step matches Step::Ask(request, task) ==> task.wf() && !(request@ is CreatePlaylist),
{
    proof {
        lemma_messages_are_not_empty();
    }
    match log_parameters_error(check_id_valid(id.to_owned())) {
        Err(e) => {
            return Step::Done(Err(e));
        },
        Ok(_) => {},
    }
    Step::Ask(
        DeezerRequest::GetPlaylist(convert_string_to_u64(id)),
        RefreshTask { id: id.to_owned(), progress: RefreshProgress::Parent },
    )
}

/// A refresh whose requests were all answered sends exactly the tracks that
/// the parent lacks, and sends nothing where it lacks none: what is sent holds
/// no track of the parent and no track twice, and holds every track of a child
/// that the parent does not hold.
pub proof fn lemma_refresh_sends_what_is_missing(
    id: Text,
    parent: Seq<Text>,
    children: Seq<Text>,
    gathered: Seq<Seq<Text>>,
)
    requires
        gathered.len() == children.len(),
    ensures
        match after_gathering(id, parent, children, gathered) {
            RefreshStep::Append { playlist_id, track_ids, task } => {
                &&& playlist_id == id
                &&& track_ids.len() > 0
                &&& track_ids.no_duplicates()
                &&& forall|x: Text|
                    #[trigger] track_ids.contains(x) <==> !parent.contains(x) && exists|k: int|
                        0 <= k < gathered.len() && (#[trigger] gathered[k]).contains(x)
            },
            RefreshStep::Done(result) => {
                &&& result == Ok::<bool, DomainError>(true)
                &&& forall|k: int, x: Text|
                    0 <= k < gathered.len() && (#[trigger] gathered[k]).contains(x)
                        ==> #[trigger] parent.contains(x)
            },
            RefreshStep::Fetch { .. } => false,
        },
{
    crate::tracks::lemma_missing_tracks(parent, gathered);
    let missing = missing_tracks(parent, gathered);
    if missing.len() == 0 {
        assert forall|k: int, x: Text|
            0 <= k < gathered.len() && (#[trigger] gathered[k]).contains(
                x,
            ) implies #[trigger] parent.contains(x) by {
            if !parent.contains(x) {
                assert(missing.contains(x));
                let n = choose|n: int| 0 <= n < missing.len() && missing[n] == x;
            }
        }
    }
}

/// How far the reading of a collection's own tracks has come, as
/// specifications see it.
pub enum OwnTracksStage {
    /// The collection's own playlist has been asked for.
    Parent,
    /// The playlist of a child has been asked for. `tracks` are the tracks of
    /// the collection's own playlist, `children` the remote references of its
    /// children, and `gathered` the tracks of the children that have answered
    /// so far.
    Child { tracks: Seq<TrackView>, children: Seq<Text>, gathered: Seq<Seq<Text>> },
}

/// The mathematical value of an [`OwnTracksTask`].
pub struct OwnTracksTaskView {
    /// The remote reference of the collection.
    pub id: Text,
    pub stage: OwnTracksStage,
}

enum OwnTracksProgress {
    Parent,
    Child {
        left: Vec<Track>,
        children: Vec<String>,
        fetched: usize,
        tracks: Ghost<Seq<TrackView>>,
        gathered: Ghost<Seq<Seq<Text>>>,
    },
}

/// What is left to do of the reading of a collection's own tracks while the
/// remote service is asked.
pub struct OwnTracksTask {
    id: String,
    progress: OwnTracksProgress,
}

impl View for OwnTracksTask {
    type V = OwnTracksTaskView;

    closed spec fn view(&self) -> OwnTracksTaskView {
        OwnTracksTaskView {
            id: self.id@,
            stage: match self.progress {
                OwnTracksProgress::Parent => OwnTracksStage::Parent,
                OwnTracksProgress::Child { left, children, fetched, tracks, gathered } => {
                    OwnTracksStage::Child {
                        tracks: tracks@,
                        children: texts(children@),
                        gathered: gathered@,
                    }
                },
            },
        }
    }
}

/// Where the reading of a collection's own tracks stands, as specifications
/// see it.
pub enum OwnTracksStep {
    /// The playlist with this number must be fetched.
    Fetch { playlist: u64, task: OwnTracksTaskView },
    /// The reading has ended.
    Done(Result<Seq<TrackView>, DomainError>),
}

/// The step that `step` stands for.
pub open spec fn own_tracks_step(step: Step<OwnTracksTask, Vec<Track>>) -> OwnTracksStep {
    match step {
        Step::Ask(request, task) => OwnTracksStep::Fetch {
            playlist: request@->GetPlaylist_0,
            task: task@,
        },
        Step::Done(Ok(tracks)) => OwnTracksStep::Done(Ok(track_views(tracks@))),
        Step::Done(Err(e)) => OwnTracksStep::Done(Err(e)),
    }
}

/// How the reading starts: with the request for the collection's own playlist,
/// or at once with a parameter error where the reference writes no number.
pub open spec fn own_tracks_started(id: Text) -> OwnTracksStep {
    if parse_u64(id) is None {
        OwnTracksStep::Done(Err(DomainError::DomainParamError()))
    } else {
        OwnTracksStep::Fetch {
            playlist: number_or_zero(id),
            task: OwnTracksTaskView { id, stage: OwnTracksStage::Parent },
        }
    }
}

/// How the reading goes on once the playlists in `gathered` are there: the next
/// child is asked for, if one is left; else the result is what is left of the
/// collection's tracks after the tracks of each child have been taken out.
pub open spec fn after_exclusion(
    id: Text,
    tracks: Seq<TrackView>,
    children: Seq<Text>,
    gathered: Seq<Seq<Text>>,
) -> OwnTracksStep {
    if gathered.len() < children.len() {
        OwnTracksStep::Fetch {
            playlist: number_or_zero(children[gathered.len() as int]),
            task: OwnTracksTaskView {
                id,
                stage: OwnTracksStage::Child { tracks, children, gathered },
            },
        }
    } else {
        OwnTracksStep::Done(Ok(own_tracks(tracks, gathered)))
    }
}

/// How the reading goes on once the remote service has answered.
///
/// A failed call, or an answer of the wrong kind, ends it with a remote-service
/// error. Behind the collection's own playlist the children are read from the
/// store: where the store cannot be reached or does not hold the collection,
/// the reading ends with a data error.
pub open spec fn own_tracks_outcome(
    state: DatabaseState,
    task: OwnTracksTaskView,
    answer: DeezerAnswer,
) -> OwnTracksStep {
    match (task.stage, answer) {
        (OwnTracksStage::Parent, DeezerAnswer::Playlist(Ok(playlist))) => if state.connected
            && state.holds(task.id) {
            after_exclusion(
                task.id,
                converted_tracks(playlist@.tracks),
                child_ids(state, task.id),
                Seq::empty(),
            )
        } else {
            OwnTracksStep::Done(Err(DomainError::DomainDataError()))
        },
        (
            OwnTracksStage::Child { tracks, children, gathered },
            DeezerAnswer::Playlist(Ok(playlist)),
        ) => after_exclusion(task.id, tracks, children, gathered.push(reported_ids(playlist))),
        _ => OwnTracksStep::Done(Err(DomainError::DomainMusicServiceError())),
    }
}

impl OwnTracksTask {
    /// The invariant of a task: while children are asked for, one is still
    /// awaited, and the tracks at hand are what the children that have
    /// answered leave of the collection's tracks.
    pub closed spec fn wf(&self) -> bool {
        match self.progress {
            OwnTracksProgress::Child { left, children, fetched, tracks, gathered } => {
                &&& fetched == gathered@.len()
                &&& fetched < children.len()
                &&& track_views(left@) == own_tracks(tracks@, gathered@)
            },
            _ => true,
        }
    }

    /// Goes on once the playlists counted by `fetched` are there.
    fn proceed(
        id: String,
        left: Vec<Track>,
        children: Vec<String>,
        fetched: usize,
        tracks: Ghost<Seq<TrackView>>,
        gathered: Ghost<Seq<Seq<Text>>>,
    ) -> (step: Step<OwnTracksTask, Vec<Track>>)
        requires
            fetched == gathered@.len(),
            fetched <= children.len(),
            track_views(left@) == own_tracks(tracks@, gathered@),
        ensures
            own_tracks_step(step) == after_exclusion(id@, tracks@, texts(children@), gathered@),
            step matches Step::Ask(request, task) ==> task.wf() && request@ is GetPlaylist,
    {
        if fetched < children.len() {
            let playlist = convert_string_to_u64(children[fetched].as_str());
            Step::Ask(
                DeezerRequest::GetPlaylist(playlist),
                OwnTracksTask {
                    id,
                    progress: OwnTracksProgress::Child { left, children, fetched, tracks, gathered },
                },
            )
        } else {
            Step::Done(Ok(left))
        }
    }

    /// Goes on with the reading once the remote service has answered.
    pub fn resume(self, db: &Database, answer: DeezerAnswer) -> (step: Step<
        OwnTracksTask,
        Vec<Track>,
    >)
        requires
            db.wf(),
            self.wf(),
        ensures
            own_tracks_step(step) == own_tracks_outcome(db@, self@, answer),
            step matches Step::Ask(request, task) ==> task.wf() && request@ is GetPlaylist,
    {
        let fetched = match answer {
            DeezerAnswer::Playlist(fetched) => fetched,
            _ => {
                return Step::Done(Err(log_deezer_error("Unexpected answer")));
            },
        };
        match self.progress {
            OwnTracksProgress::Parent => {
                let asked = convert_string_to_u64(self.id.as_str());
                let playlist = match get_playlist(&asked, fetched) {
                    Ok(playlist) => playlist,
                    Err(e) => {
                        return Step::Done(Err(e));
                    },
                };
                let children = match get_children_ids(db, self.id.as_str()) {
                    Ok(child_collections) => deezer_ids_of(child_collections),
                    Err(e) => {
                        return Step::Done(Err(e));
                    },
                };
                let ghost tracks = playlist@.tracks;
                OwnTracksTask::proceed(
                    self.id,
                    playlist.tracks,
                    children,
                    0,
                    Ghost(tracks),
                    Ghost(Seq::empty()),
                )
            },
            OwnTracksProgress::Child { left, children, fetched: answered, tracks, gathered } => {
                let asked = convert_string_to_u64(children[answered].as_str());
                let playlist = match get_playlist(&asked, fetched) {
                    Ok(playlist) => playlist,
                    Err(e) => {
                        return Step::Done(Err(e));
                    },
                };
                let mut left = left;
                exclude_tracks(&mut left, &playlist);
                let ghost grown = gathered@.push(track_ids(playlist@.tracks));
                proof {
                    assert(grown.drop_last() =~= gathered@);
                }
                OwnTracksTask::proceed(
                    self.id,
                    left,
                    children,
                    answered + 1,
                    tracks,
                    Ghost(grown),
                )
            },
        }
    }
}

/// Starts the reading of the tracks that are the collection `id`'s own: those
/// of its remote playlist that no direct child accounts for.
///
/// The reference must write a number: else the reading ends at once with a
/// parameter error. The reading first asks for the collection's own playlist,
/// then for the playlist of each direct child in the store's order. For each
/// track of a child it takes the first track with the same reference out of
/// the collection's tracks; what is left, in its first order, is the result.
pub fn get_collection_tracks_excluding_children(id: &str) -> (step: Step<OwnTracksTask, Vec<Track>>)
    ensures
        own_tracks_step(step) == own_tracks_started(id@),
        step matches Step::Ask(request, task) ==> task.wf() && request@ is GetPlaylist,
{
    proof {
        lemma_messages_are_not_empty();
    }
    match log_parameters_error(check_id_valid(id.to_owned())) {
        Err(e) => {
            return Step::Done(Err(e));
        },
        Ok(_) => {},
    }
    Step::Ask(
        DeezerRequest::GetPlaylist(convert_string_to_u64(id)),
        OwnTracksTask { id: id.to_owned(), progress: OwnTracksProgress::Parent },
    )
}

/// The mathematical value of an [`UpdateAllTask`].
pub struct UpdateAllTaskView {
    /// The remote references of the collections to refresh, in order.
    pub order: Seq<Text>,
    /// How many of them have been dealt with.
    pub done: nat,
    /// The refresh that is under way: that of the collection behind those.
    pub current: RefreshTaskView,
}

/// What is left to do of a full sweep while the remote service is asked.
pub struct UpdateAllTask {
    order: Vec<String>,
    done: usize,
    current: RefreshTask,
}

impl View for UpdateAllTask {
    type V = UpdateAllTaskView;

    closed spec fn view(&self) -> UpdateAllTaskView {
        UpdateAllTaskView {
            order: texts(self.order@),
            done: self.done as nat,
            current: self.current@,
        }
    }
}

/// Where a full sweep stands, as specifications see it.
pub enum SweepStep {
    /// The remote service must be asked this.
    Ask { request: RequestView, task: UpdateAllTaskView },
    /// The sweep has ended.
    Done(Result<bool, DomainError>),
}

/// The step that `step` stands for.
pub open spec fn sweep_step(step: Step<UpdateAllTask, bool>) -> SweepStep {
    match step {
        Step::Ask(request, task) => SweepStep::Ask { request: request@, task: task@ },
        Step::Done(result) => SweepStep::Done(result),
    }
}

/// A step of the refresh of one collection, seen as a step of the sweep that
/// it belongs to: whatever way the refresh ends, the sweep goes on with the
/// collection behind it.
pub open spec fn within_sweep(order: Seq<Text>, done: nat, step: RefreshStep) -> SweepStep
    decreases order.len() - done, 0nat,
{
    match step {
        RefreshStep::Fetch { playlist, task } => SweepStep::Ask {
            request: RequestView::GetPlaylist(playlist),
            task: UpdateAllTaskView { order, done, current: task },
        },
        RefreshStep::Append { playlist_id, track_ids, task } => SweepStep::Ask {
            request: RequestView::AddTracks(playlist_id, track_ids),
            task: UpdateAllTaskView { order, done, current: task },
        },
        RefreshStep::Done(_) => if done < order.len() {
            sweep_from(order, done + 1)
        } else {
            SweepStep::Done(Ok(true))
        },
    }
}

/// The sweep from the collection behind the first `done` of `order`: each
/// collection is refreshed in turn, and the sweep ends well behind the last.
pub open spec fn sweep_from(order: Seq<Text>, done: nat) -> SweepStep
    decreases order.len() - done, 1nat,
{
    if done >= order.len() {
        SweepStep::Done(Ok(true))
    } else {
        within_sweep(order, done, refresh_started(order[done as int]))
    }
}

impl UpdateAllTask {
    /// The invariant of a task: the refresh under way is that of a collection
    /// of the order.
    pub closed spec fn wf(&self) -> bool {
        &&& self.done < self.order.len()
        &&& self.current.wf()
    }

    /// Goes on with the sweep from the collection behind the first `done`.
    fn advance(order: Vec<String>, done: usize) -> (step: Step<UpdateAllTask, bool>)
        requires
            done <= order.len(),
        ensures
            sweep_step(step) == sweep_from(texts(order@), done as nat),
            step matches Step::Ask(_, task) ==> task.wf(),
            step matches Step::Done(result) ==> result == Ok::<bool, DomainError>(true),
    {
        let mut next = done;
        while next < order.len()
            invariant
                done <= next <= order.len(),
                sweep_from(texts(order@), next as nat) == sweep_from(texts(order@), done as nat),
            decreases order.len() - next,
        {
            match refresh_collection(order[next].as_str()) {
                Step::Ask(request, current) => {
                    proof {
                        let ids = texts(order@);
                        assert(ids[next as int] == order[next as int]@);
                        assert(refresh_started(ids[next as int]) is Fetch);
                    }
                    return Step::Ask(request, UpdateAllTask { order, done: next, current });
                },
                Step::Done(_) => {
                    proof {
                        let ids = texts(order@);
                        assert(ids[next as int] == order[next as int]@);
                    }
                },
            }
            next += 1;
        }
        Step::Done(Ok(true))
    }

    /// Goes on with the sweep once the remote service has answered: the refresh
    /// under way goes on, and where it ends, well or not, the next collection's
    /// begins.
    pub fn resume(self, db: &Database, answer: DeezerAnswer) -> (step: Step<UpdateAllTask, bool>)
        requires
            db.wf(),
            self.wf(),
        ensures
            sweep_step(step) == within_sweep(
                self@.order,
                self@.done,
                refresh_outcome(db@, self@.current, answer),
            ),
            step matches Step::Ask(_, task) ==> task.wf(),
            step matches Step::Done(result) ==> result == Ok::<bool, DomainError>(true),
    {
        match self.current.resume(db, answer) {
            Step::Ask(request, current) => Step::Ask(
                request,
                UpdateAllTask { order: self.order, done: self.done, current },
            ),
            Step::Done(_) => UpdateAllTask::advance(self.order, self.done + 1),
        }
    }
}

/// Starts a full sweep: every collection of the store is refreshed, those
/// reached at later levels first.
///
/// The order is worked out before anything is refreshed, by
/// [`refresh_order`]: where the store cannot be reached, the sweep ends at once
/// with a data error. The collections are then refreshed one after the other in
/// that order. A refresh that fails does not end the sweep: the sweep goes on
/// with the next collection, and ends well behind the last.
pub fn update_all_collections(db: &Database, max_depth: u64) -> (step: Step<UpdateAllTask, bool>)
    requires
        db.wf(),
    ensures
        db@.connected ==> sweep_step(step) == sweep_from(swept_order(db@, max_depth as nat), 0),
        !db@.connected ==> sweep_step(step) == SweepStep::Done(Err(DomainError::DomainDataError())),
        step matches Step::Ask(_, task) ==> task.wf(),
        step matches Step::Done(result) ==> result == (if db@.connected {
            Ok::<bool, DomainError>(true)
        } else {
            Err(DomainError::DomainDataError())
        }),
{
    match refresh_order(db, max_depth) {
        Ok(order) => UpdateAllTask::advance(order, 0),
        Err(e) => Step::Done(Err(e)),
    }
}

} // verus!
