use vstd::prelude::*;

use crate::collection_commons::{
    convert_string_to_u64, create_collection_from_playlist, get_collection_id_by_deezer_id,
    log_database_error, log_deezer_error, log_parameters_error, number_or_zero,
};
use crate::controllers::{check_id_valid, lemma_messages_are_not_empty};
use crate::database::{
    add_collection_to_parent,
    get_collection_id_by_deezer_id as get_collection_id_by_deezer_id_database,
    remove_collection_to_parent, Database, DatabaseState,
};
use crate::deezer_models;
use crate::errors::{DatabaseError, DeezerModuleError, DomainError};
use crate::steps::{DeezerAnswer, DeezerRequest, Step};
use crate::text::{decimal, parse_u64, Text};

verus! {

/// What is left to do of the addition of a dependency while a collection is
/// being fetched from the remote service.
#[derive(Debug, PartialEq, Eq)]
pub struct DependencyTask {
    parent_id: String,
    child_id: String,
    child_awaited: bool,
}

/// The mathematical value of a [`DependencyTask`].
pub struct DependencyTaskView {
    /// The remote reference of the parent.
    pub parent_id: Text,
    /// The remote reference of the child.
    pub child_id: Text,
    /// Whether the collection that is being fetched is the child; else it is
    /// the parent.
    pub child_awaited: bool,
}

impl View for DependencyTask {
    type V = DependencyTaskView;

    closed spec fn view(&self) -> DependencyTaskView {
        DependencyTaskView {
            parent_id: self.parent_id@,
            child_id: self.child_id@,
            child_awaited: self.child_awaited,
        }
    }
}

/// Where the addition of a dependency stands, as specifications see it.
pub enum DependencyStep {
    /// The playlist with this number must be fetched, for the child or for the
    /// parent.
    Fetch { playlist: u64, task: DependencyTaskView },
    /// The addition has ended.
    Done(Result<bool, DomainError>),
}

/// The step that `step` stands for.
pub open spec fn dependency_step(step: Step<DependencyTask, bool>) -> DependencyStep {
    match step {
        Step::Ask(request, task) => DependencyStep::Fetch {
            playlist: request@->GetPlaylist_0,
            task: task@,
        },
        Step::Done(result) => DependencyStep::Done(result),
    }
}

/// The last part of the addition: both collections must be stored, and the
/// dependency between them is stored unless it is there already.
pub open spec fn linked_outcome(state: DatabaseState, parent_id: Text, child_id: Text) -> (
    DatabaseState,
    Result<bool, DomainError>,
) {
    if state.connected && state.holds(parent_id) && state.holds(child_id) {
        (
            state.with_dependency(state.row_of(parent_id).id, state.row_of(child_id).id),
            Ok(true),
        )
    } else {
        (state, Err(DomainError::DomainDataError()))
    }
}

/// The addition from the point where the parent is known to have been looked
/// after: the child is fetched if the store does not hold it, else the
/// dependency is stored.
pub open spec fn child_outcome(state: DatabaseState, parent_id: Text, child_id: Text) -> (
    DatabaseState,
    DependencyStep,
) {
    if !state.connected {
        (state, DependencyStep::Done(Err(DomainError::DomainDataError())))
    } else if !state.holds(child_id) {
        (
            state,
            DependencyStep::Fetch {
                playlist: number_or_zero(child_id),
                task: DependencyTaskView { parent_id, child_id, child_awaited: true },
            },
        )
    } else {
        (
            linked_outcome(state, parent_id, child_id).0,
            DependencyStep::Done(linked_outcome(state, parent_id, child_id).1),
        )
    }
}

/// The addition from its start, for references that are well written: the
/// parent is fetched if the store does not hold it, else the addition goes on
/// with the child.
pub open spec fn parent_outcome(state: DatabaseState, parent_id: Text, child_id: Text) -> (
    DatabaseState,
    DependencyStep,
) {
    if !state.connected {
        (state, DependencyStep::Done(Err(DomainError::DomainDataError())))
    } else if !state.holds(parent_id) {
        (
            state,
            DependencyStep::Fetch {
                playlist: number_or_zero(parent_id),
                task: DependencyTaskView { parent_id, child_id, child_awaited: false },
            },
        )
    } else {
        child_outcome(state, parent_id, child_id)
    }
}

/// The store after the playlist that `fetched` reports has been taken in as a
/// collection; nothing where the fetch failed or the store did not take it.
pub open spec fn imported(
    state: DatabaseState,
    fetched: Result<deezer_models::Playlist, DeezerModuleError>,
) -> Option<DatabaseState> {
    match fetched {
        Ok(playlist) => if state.connected && (state.holds(decimal(playlist@.id as nat))
            || state.last_id < i32::MAX) {
            Some(
                state.with_collection(
                    playlist@.title,
                    decimal(playlist@.id as nat),
                    playlist@.url,
                ),
            )
        } else {
            None
        },
        Err(_) => None,
    }
}

/// The addition after the answer to a fetch. A failed fetch, or an answer of
/// the wrong kind, ends it with a remote-service error. A fetched playlist that
/// the store does not take, because the store cannot be reached or has no
/// identifier left, ends it with a data error. Else the addition goes on behind
/// the collection that was awaited.
pub open spec fn resumed_outcome(
    state: DatabaseState,
    task: DependencyTaskView,
    answer: DeezerAnswer,
) -> (DatabaseState, DependencyStep) {
    match answer {
        DeezerAnswer::Playlist(fetched) => match imported(state, fetched) {
            Some(grown) => if task.child_awaited {
                (
                    linked_outcome(grown, task.parent_id, task.child_id).0,
                    DependencyStep::Done(linked_outcome(grown, task.parent_id, task.child_id).1),
                )
            } else {
                child_outcome(grown, task.parent_id, task.child_id)
            },
            None => (
                state,
                DependencyStep::Done(
                    Err(
                        if fetched is Ok {
                            DomainError::DomainDataError()
                        } else {
                            DomainError::DomainMusicServiceError()
                        },
                    ),
                ),
            ),
        },
        _ => (state, DependencyStep::Done(Err(DomainError::DomainMusicServiceError()))),
    }
}

/// Stores the dependency between two stored collections, unless it is there
/// already; a data error where one of them is not stored.
pub fn add_collection_dependency_to_database(db: &mut Database, parent_id: &str, child_id: &str) -> (r:
    Result<bool, DomainError>)
    requires
        old(db).wf(),
    ensures
        final(db).wf(),
        (final(db)@, r) == linked_outcome(old(db)@, parent_id@, child_id@),
{
    let database_parent_id = get_collection_id_by_deezer_id(db, parent_id)?;
    let database_child_id = get_collection_id_by_deezer_id(db, child_id)?;
    match add_collection_to_parent(db, database_parent_id, database_child_id) {
        Ok(_) => Ok(true),
        Err(_) => Err(log_database_error("Error while adding collection to collection")),
    }
}

/// Looks after one end of a dependency: tells which playlist must be fetched
/// for it, if the store does not hold it yet.
pub fn add_collection_if_not_in_database(db: &Database, id: &str) -> (r: Result<
    Option<u64>,
    DomainError,
>)
    requires
        db.wf(),
    ensures
        r == (if !db@.connected {
            Err::<Option<u64>, DomainError>(DomainError::DomainDataError())
        } else if db@.holds(id@) {
            Ok(None)
        } else {
            Ok(Some(number_or_zero(id@)))
        }),
{
    match get_collection_id_by_deezer_id_database(db, id.to_owned()) {
        Ok(_) => Ok(None),
        Err(e) => match e {
            DatabaseError::ResultError() => Ok(Some(convert_string_to_u64(id))),
            DatabaseError::ConnectionError() => Err(
                log_database_error(
                    "Connection error while trying to add the collection if not in database",
                ),
            ),
        },
    }
}

impl DependencyTask {
    /// Goes on from the point where the parent has been looked after.
    fn after_parent(self, db: &mut Database) -> (step: Step<DependencyTask, bool>)
        requires
            old(db).wf(),
            !self.child_awaited,
        ensures
            final(db).wf(),
            (final(db)@, dependency_step(step)) == child_outcome(
                old(db)@,
                self@.parent_id,
                self@.child_id,
            ),
            step matches Step::Ask(request, _) ==> request@ is GetPlaylist,
    {
        match add_collection_if_not_in_database(db, self.child_id.as_str()) {
            Err(e) => Step::Done(Err(e)),
            Ok(Some(playlist)) => Step::Ask(
                DeezerRequest::GetPlaylist(playlist),
                DependencyTask {
                    parent_id: self.parent_id,
                    child_id: self.child_id,
                    child_awaited: true,
                },
            ),
            Ok(None) => Step::Done(
                add_collection_dependency_to_database(
                    db,
                    self.parent_id.as_str(),
                    self.child_id.as_str(),
                ),
            ),
        }
    }

    /// Goes on with the addition once the remote service has answered.
    ///
    /// The fetched playlist is stored as a collection. Where the fetch failed,
    /// the addition ends with a remote-service error; where the store does not
    /// take the collection, with a data error. Else the addition goes on: behind
    /// the parent with the child, behind the child with the dependency itself.
    pub fn resume(self, db: &mut Database, answer: DeezerAnswer) -> (step: Step<
        DependencyTask,
        bool,
    >)
        requires
            old(db).wf(),
        ensures
            final(db).wf(),
            (final(db)@, dependency_step(step)) == resumed_outcome(old(db)@, self@, answer),
            step matches Step::Ask(request, _) ==> request@ is GetPlaylist,
    {
        let fetched = match answer {
            DeezerAnswer::Playlist(fetched) => fetched,
            _ => {
                return Step::Done(Err(log_deezer_error("Error creating collection from playlist")));
            },
        };
        let awaited = if self.child_awaited {
            convert_string_to_u64(self.child_id.as_str())
        } else {
            convert_string_to_u64(self.parent_id.as_str())
        };
        match create_collection_from_playlist(db, &awaited, fetched) {
            Ok(_) => {},
            Err(e) => {
                return Step::Done(Err(e));
            },
        }
        if self.child_awaited {
            Step::Done(
                add_collection_dependency_to_database(
                    db,
                    self.parent_id.as_str(),
                    self.child_id.as_str(),
                ),
            )
        } else {
            self.after_parent(db)
        }
    }
}

/// Starts the addition of the dependency that puts the collection `child_id`
/// under the collection `parent_id`.
///
/// Both references must write a number: else the addition ends at once with a
/// parameter error, and nothing is read or written. A collection that the store
/// does not hold yet is fetched from the remote service first, the parent before
/// the child. Once both are stored the dependency is stored, unless it is there
/// already.
pub fn add_collection_dependency(db: &mut Database, parent_id: &str, child_id: &str) -> (step: Step<
    DependencyTask,
    bool,
>)
    requires
        old(db).wf(),
    ensures
        final(db).wf(),
        parse_u64(parent_id@) is None || parse_u64(child_id@) is None ==> final(db)@ == old(db)@
            && dependency_step(step) == DependencyStep::Done(
            Err(DomainError::DomainParamError()),
        ),
        parse_u64(parent_id@) is Some && parse_u64(child_id@) is Some ==> (
            final(db)@,
            dependency_step(step),
        ) == parent_outcome(old(db)@, parent_id@, child_id@),
        step matches Step::Ask(request, _) ==> request@ is GetPlaylist,
{
    proof {
        lemma_messages_are_not_empty();
    }
    match log_parameters_error(check_id_valid(parent_id.to_owned())) {
        Err(e) => {
            return Step::Done(Err(e));
        },
        Ok(_) => {},
    }
    match log_parameters_error(check_id_valid(child_id.to_owned())) {
        Err(e) => {
            return Step::Done(Err(e));
        },
        Ok(_) => {},
    }
    let task = DependencyTask {
        parent_id: parent_id.to_owned(),
        child_id: child_id.to_owned(),
        child_awaited: false,
    };
    match add_collection_if_not_in_database(db, parent_id) {
        Err(e) => Step::Done(Err(e)),
        Ok(Some(playlist)) => Step::Ask(DeezerRequest::GetPlaylist(playlist), task),
        Ok(None) => task.after_parent(db),
    }
}

/// Takes the dependency that puts the collection `child_id` under the
/// collection `parent_id` out of the store; tells whether it was there.
///
/// Both references must write a number: else the result is a parameter error.
/// Both collections must be stored, and the store reachable: else the result
/// is a data error. Nothing is fetched from the remote service.
pub fn remove_collection_dependency(db: &mut Database, parent_id: &str, child_id: &str) -> (r: Result<
    bool,
    DomainError,
>)
    requires
        old(db).wf(),
    ensures
        final(db).wf(),
        parse_u64(parent_id@) is None || parse_u64(child_id@) is None ==> final(db)@ == old(db)@
            && r == Err::<bool, DomainError>(DomainError::DomainParamError()),
        parse_u64(parent_id@) is Some && parse_u64(child_id@) is Some && !(old(db)@.connected
            && old(db)@.holds(parent_id@) && old(db)@.holds(child_id@)) ==> final(db)@ == old(db)@
            && r == Err::<bool, DomainError>(DomainError::DomainDataError()),
        parse_u64(parent_id@) is Some && parse_u64(child_id@) is Some && old(db)@.connected && old(
            db,
        )@.holds(parent_id@) && old(db)@.holds(child_id@) ==> final(db)@
            == old(db)@.without_dependency(
            old(db)@.row_of(parent_id@).id,
            old(db)@.row_of(child_id@).id,
        ) && r == Ok::<bool, DomainError>(
            old(db)@.linked(old(db)@.row_of(parent_id@).id, old(db)@.row_of(child_id@).id),
        ),
{
    proof {
        lemma_messages_are_not_empty();
    }
    log_parameters_error(check_id_valid(parent_id.to_owned()))?;
    log_parameters_error(check_id_valid(child_id.to_owned()))?;
    let database_parent_id = get_collection_id_by_deezer_id(db, parent_id)?;
    let database_child_id = get_collection_id_by_deezer_id(db, child_id)?;
    match remove_collection_to_parent(db, database_parent_id, database_child_id) {
        Ok(value) => Ok(value),
        Err(_) => Err(log_database_error("Error while removing a collection from another")),
    }
}

} // verus!
