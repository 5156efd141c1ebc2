use vstd::prelude::*;

use crate::collection_commons::{
    convert_string_to_u64, create_collection_from_playlist, create_new_playlist,
    get_collection_id_by_deezer_id, get_playlist_id_from_url, log_database_error,
    log_deezer_error, log_parameters_error, number_or_zero, playlist_address,
};
use crate::controllers::{
    check_id_valid, check_init_collections, lemma_messages_are_not_empty,
    playlist_address_prefix,
};
use crate::converter::id_in_address;
use crate::database::{
    collection_ids, collection_views, domain_clear_database, get_child_collections, get_collection_with_tracks,
    public_row, public_rows, remove_collection_in_database,
    Database, DatabaseState,
};
use crate::database_models::CollectionDatabase;
use crate::domain_models::{Collection, CollectionListElement, CollectionView, InitCollection};
use crate::errors::DomainError;
use crate::steps::{DeezerAnswer, DeezerRequest, RequestView, Step};
use crate::text::{decimal, parse_u64, texts, Text};
use crate::traversal::{
    all_held, child_ids, deezer_ids, lemma_children_are_held, lemma_merged, merge, move_to_front,
    swept_order, visited, walked,
};

verus! {

/// The values of the collections in `list`, in order.
pub open spec fn element_views(list: Seq<CollectionListElement>) -> Seq<CollectionView> {
    Seq::new(list.len(), |i: int| list[i]@)
}

/// The values of the collections in `list`, in order.
pub open spec fn domain_collection_views(list: Seq<Collection>) -> Seq<CollectionView> {
    Seq::new(list.len(), |i: int| list[i]@)
}

/// What is left to do of the start of a collection while the remote service
/// is asked.
#[derive(Debug, PartialEq, Eq)]
pub struct InitTask {
    name: String,
    from_playlist: Option<u64>,
}

/// The mathematical value of an [`InitTask`].
pub struct InitTaskView {
    /// The name that was handed in.
    pub name: Text,
    /// The number of the playlist to start from; nothing where a new playlist
    /// is being created.
    pub from_playlist: Option<u64>,
}

impl View for InitTask {
    type V = InitTaskView;

    closed spec fn view(&self) -> InitTaskView {
        InitTaskView { name: self.name@, from_playlist: self.from_playlist }
    }
}

/// The store and the result after the remote service has answered to the start
/// of a collection. An answer of the wrong kind counts as a failure of the
/// remote service.
pub open spec fn init_outcome(state: DatabaseState, task: InitTaskView, answer: DeezerAnswer) -> (
    DatabaseState,
    Result<bool, DomainError>,
) {
    match (task.from_playlist, answer) {
        (Some(_), DeezerAnswer::Playlist(Ok(playlist))) => stored_outcome(
            state,
            playlist@.title,
            decimal(playlist@.id as nat),
            playlist@.url,
        ),
        (None, DeezerAnswer::Created(Ok(id))) => stored_outcome(
            state,
            task.name,
            decimal(id as nat),
            playlist_address(id),
        ),
        _ => (state, Err(DomainError::DomainMusicServiceError())),
    }
}

/// The store and the result after a collection has been offered to the store:
/// a data error where the store cannot be reached or has no identifier left.
pub open spec fn stored_outcome(state: DatabaseState, name: Text, deezer_id: Text, url: Text) -> (
    DatabaseState,
    Result<bool, DomainError>,
) {
    if state.connected && (state.holds(deezer_id) || state.last_id < i32::MAX) {
        (state.with_collection(name, deezer_id, url), Ok(true))
    } else {
        (state, Err(DomainError::DomainDataError()))
    }
}

/// Starts a collection.
///
/// Where `options` names a playlist to start from, its address must begin with
/// the remote service's playlist address: else the start ends at once with a
/// parameter error. The playlist whose number ends the address is then asked
/// for. Where `options` names none, a new playlist with the given name is asked
/// for.
pub fn init_collections(options: InitCollection) -> (step: Step<InitTask, bool>)
    ensures
        match options.from_playlist {
            Some(url) => if playlist_address_prefix().is_prefix_of(url@) {
                step matches Step::Ask(request, task) && request@ == RequestView::GetPlaylist(
                    id_in_address(url@),
                ) && task@ == (InitTaskView {
                    name: options.name@,
                    from_playlist: Some(id_in_address(url@)),
                })
            } else {
                step matches Step::Done(result) && result == Err::<bool, DomainError>(
                    DomainError::DomainParamError(),
                )
            },
            None => step matches Step::Ask(request, task) && request@
                == RequestView::CreatePlaylist(options.name@) && task@ == (InitTaskView {
                name: options.name@,
                from_playlist: None,
            }),
        },
{
    proof {
        lemma_messages_are_not_empty();
    }
    match log_parameters_error(check_init_collections(&options)) {
        Err(e) => {
            return Step::Done(Err(e));
        },
        Ok(_) => {},
    }
    match options.from_playlist {
        Some(url) => {
            let id = get_playlist_id_from_url(url);
            Step::Ask(
                DeezerRequest::GetPlaylist(id),
                InitTask { name: options.name, from_playlist: Some(id) },
            )
        },
        None => Step::Ask(
            DeezerRequest::CreatePlaylist(options.name.clone()),
            InitTask { name: options.name, from_playlist: None },
        ),
    }
}

impl InitTask {
    /// Ends the start of a collection once the remote service has answered:
    /// the reported or created playlist is stored as a collection.
    pub fn resume(self, db: &mut Database, answer: DeezerAnswer) -> (step: Step<InitTask, bool>)
        requires
            old(db).wf(),
        ensures
            final(db).wf(),
            step matches Step::Done(result) && (final(db)@, result) == init_outcome(
                old(db)@,
                self@,
                answer,
            ),
    {
        match (self.from_playlist, answer) {
            (Some(id), DeezerAnswer::Playlist(fetched)) => Step::Done(
                create_collection_from_playlist(db, &id, fetched),
            ),
            (None, DeezerAnswer::Created(created)) => Step::Done(
                create_new_playlist(db, self.name.as_str(), created),
            ),
            _ => Step::Done(Err(log_deezer_error("Unexpected answer"))),
        }
    }
}

/// Every stored collection, oldest first; a data error where the store cannot
/// be reached.
pub fn list_collections(db: &Database) -> (r: Result<Vec<CollectionListElement>, DomainError>)
    ensures
        db@.connected ==> r is Ok && element_views(r->Ok_0@) == public_rows(db@.collections),
        !db@.connected ==> r == Err::<Vec<CollectionListElement>, DomainError>(
            DomainError::DomainDataError(),
        ),
{
    match crate::database::list_collections(db) {
        Ok(collections_database) => {
            let mut out: Vec<CollectionListElement> = Vec::new();
            let mut i: usize = 0;
            while i < collections_database.len()
                invariant
                    i <= collections_database.len(),
                    out.len() == i,
                    forall|j: int| 0 <= j < i ==> (#[trigger] out[j])@ == collections_database[j]@,
                decreases collections_database.len() - i,
            {
                let collection = &collections_database[i];
                out.push(
                    CollectionListElement {
                        name: collection.name.clone(),
                        deezer_id: collection.deezer_id.clone(),
                        url: collection.url.clone(),
                    },
                );
                i += 1;
            }
            assert(element_views(out@) =~= collection_views(collections_database@));
            Ok(out)
        },
        Err(_) => Err(
            log_database_error("Error while fetching the collections from the database"),
        ),
    }
}

/// The direct children of the collection `id`, in the order in which they were
/// put under it.
///
/// The reference must write a number: else the result is a parameter error.
/// The collection must be stored, and the store reachable: else the result is
/// a data error.
pub fn get_direct_children_collections(db: &Database, id: &str) -> (r: Result<
    Vec<Collection>,
    DomainError,
>)
    requires
        db.wf(),
    ensures
        parse_u64(id@) is None ==> r == Err::<Vec<Collection>, DomainError>(
            DomainError::DomainParamError(),
        ),
        parse_u64(id@) is Some && !(db@.connected && db@.holds(id@)) ==> r == Err::<
            Vec<Collection>,
            DomainError,
        >(DomainError::DomainDataError()),
        parse_u64(id@) is Some && db@.connected && db@.holds(id@) ==> r is Ok
            && domain_collection_views(r->Ok_0@) == public_rows(
            db@.children(db@.row_of(id@).id),
        ),
{
    proof {
        lemma_messages_are_not_empty();
    }
    log_parameters_error(check_id_valid(id.to_owned()))?;
    let parent_id = get_collection_id_by_deezer_id(db, id)?;
    match get_child_collections(db, parent_id) {
        Ok(collections) => {
            let mut out: Vec<Collection> = Vec::new();
            let mut i: usize = 0;
            while i < collections.len()
                invariant
                    i <= collections.len(),
                    out.len() == i,
                    forall|j: int| 0 <= j < i ==> (#[trigger] out[j])@ == collections[j]@,
                decreases collections.len() - i,
            {
                let collection = &collections[i];
                out.push(
                    Collection {
                        name: collection.name.clone(),
                        deezer_id: collection.deezer_id.clone(),
                        url: collection.url.clone(),
                    },
                );
                i += 1;
            }
            assert(domain_collection_views(out@) =~= collection_views(collections@));
            Ok(out)
        },
        Err(_) => Err(log_database_error("Error while getting child collections")),
    }
}

/// The collection `id`.
///
/// The reference must write a number: else the result is a parameter error.
/// The collection must be stored, and the store reachable: else the result is
/// a data error.
pub fn get_collection(db: &Database, id: &str) -> (r: Result<Collection, DomainError>)
    requires
        db.wf(),
    ensures
        parse_u64(id@) is None ==> r == Err::<Collection, DomainError>(
            DomainError::DomainParamError(),
        ),
        parse_u64(id@) is Some && !(db@.connected && db@.holds(id@)) ==> r == Err::<
            Collection,
            DomainError,
        >(DomainError::DomainDataError()),
        parse_u64(id@) is Some && db@.connected && db@.holds(id@) ==> r is Ok && r->Ok_0@
            == public_row(db@.row_of(id@)),
{
    proof {
        lemma_messages_are_not_empty();
    }
    log_parameters_error(check_id_valid(id.to_owned()))?;
    match get_collection_with_tracks(db, id.to_owned()) {
        Ok(collection) => Ok(
            Collection {
                name: collection.name,
                deezer_id: collection.deezer_id,
                url: collection.url,
            },
        ),
        Err(_) => Err(log_database_error("Error while getting the collection")),
    }
}

/// How many levels a full sweep goes through at most, as the setting `value`
/// writes it; 0 where it writes no number.
pub fn get_max_depth(value: &str) -> (r: u64)
    ensures
        r == number_or_zero(value@),
{
    convert_string_to_u64(value)
}

/// Takes the collection `id` out of the store, with every dependency that
/// starts or ends at it.
///
/// The reference must write a number: else the result is a parameter error.
/// The collection must be stored, and the store reachable: else the result is
/// a data error.
pub fn remove_collection(db: &mut Database, id: &str) -> (r: Result<bool, DomainError>)
    requires
        old(db).wf(),
    ensures
        final(db).wf(),
        parse_u64(id@) is None ==> final(db)@ == old(db)@ && r == Err::<bool, DomainError>(
            DomainError::DomainParamError(),
        ),
        parse_u64(id@) is Some && !(old(db)@.connected && old(db)@.holds(id@)) ==> final(db)@
            == old(db)@ && r == Err::<bool, DomainError>(DomainError::DomainDataError()),
        parse_u64(id@) is Some && old(db)@.connected && old(db)@.holds(id@) ==> final(db)@ == old(
            db,
        )@.without_collection(old(db)@.row_of(id@).id) && r == Ok::<bool, DomainError>(true),
{
    proof {
        lemma_messages_are_not_empty();
    }
    log_parameters_error(check_id_valid(id.to_owned()))?;
    let collection_id = get_collection_id_by_deezer_id(db, id)?;
    match remove_collection_in_database(db, collection_id) {
        Ok(res) => Ok(res),
        Err(_) => Err(log_database_error("Error while removing collection in database")),
    }
}

/// Takes every collection and every dependency out of the store; a data error
/// where the store cannot be reached.
pub fn clear_data(db: &mut Database) -> (r: Result<bool, DomainError>)
    requires
        old(db).wf(),
    ensures
        final(db).wf(),
        old(db)@.connected ==> final(db)@ == old(db)@.cleared() && r == Ok::<bool, DomainError>(
            true,
        ),
        !old(db)@.connected ==> final(db)@ == old(db)@ && r == Err::<bool, DomainError>(
            DomainError::DomainDataError(),
        ),
{
    match domain_clear_database(db) {
        Ok(_) => Ok(true),
        Err(_) => Err(log_database_error("Error while clearing the database")),
    }
}

/// The remote references of the direct children of the collection with the
/// remote reference `id`; a data error where the store cannot be reached or
/// does not hold the collection.
pub fn get_children_ids(db: &Database, id: &str) -> (r: Result<Vec<CollectionDatabase>, DomainError>)
    requires
        db.wf(),
    ensures
        !(db@.connected && db@.holds(id@)) ==> r == Err::<Vec<CollectionDatabase>, DomainError>(
            DomainError::DomainDataError(),
        ),
        db@.connected && db@.holds(id@) ==> r is Ok && collection_ids(r->Ok_0@) == child_ids(
            db@,
            id@,
        ),
{
    let parent_id = get_collection_id_by_deezer_id(db, id)?;
    match get_child_collections(db, parent_id) {
        Ok(child_collections) => {
            assert(collection_ids(child_collections@) =~= child_ids(db@, id@)) by {
                let rows = db@.children(db@.row_of(id@).id);
                assert(collection_views(child_collections@).len() == rows.len());
                assert forall|i: int| 0 <= i < rows.len() implies child_collections[i]@.deezer_id
                    == rows[i].deezer_id by {
                    assert(collection_views(child_collections@)[i] == public_rows(rows)[i]);
                }
            }
            Ok(child_collections)
        },
        Err(_) => Err(log_database_error("Error getting child collections of collection")),
    }
}

/// The order in which a full sweep refreshes the collections of the store.
///
/// The sweep starts from every stored collection and goes through at most
/// `max_depth` levels. At each level every collection of the frontier is moved
/// to the front of the order, and its direct children, each once, make up the
/// next frontier; the sweep ends early at a level without children. So a
/// collection that is reached again at a later level is refreshed before those
/// that were last reached at earlier ones. The sweep always ends, whatever the
/// dependencies are. The result is a data error where the store cannot be
/// reached.
pub fn refresh_order(db: &Database, max_depth: u64) -> (r: Result<Vec<String>, DomainError>)
    requires
        db.wf(),
    ensures
        db@.connected ==> r is Ok && texts(r->Ok_0@) == swept_order(db@, max_depth as nat),
        !db@.connected ==> r == Err::<Vec<String>, DomainError>(DomainError::DomainDataError()),
{
    let mut playlists_ids_to_update: Vec<String> = Vec::new();
    let mut next_children_ids: Vec<String> = Vec::new();
    let listed = list_collections(db)?;
    let mut k: usize = 0;
    while k < listed.len()
        invariant
            k <= listed.len(),
            next_children_ids.len() == k,
            forall|j: int| 0 <= j < k ==> (#[trigger] next_children_ids[j])@ == listed[j]@.deezer_id,
        decreases listed.len() - k,
    {
        next_children_ids.push(listed[k].deezer_id.clone());
        k += 1;
    }
    proof {
        assert(db@.connected);
        assert(element_views(listed@).len() == public_rows(db@.collections).len());
        assert(listed.len() == db@.collections.len());
        assert(texts(next_children_ids@) =~= deezer_ids(db@.collections)) by {
            assert forall|j: int| 0 <= j < listed.len() implies listed[j]@.deezer_id
                == db@.collections[j].deezer_id by {
                assert(element_views(listed@)[j] == public_rows(db@.collections)[j]);
            }
        }
        assert(texts(playlists_ids_to_update@) =~= Seq::empty());
        assert forall|i: int| 0 <= i < db@.collections.len() implies db@.holds(
            #[trigger] texts(next_children_ids@)[i],
        ) by {
            assert(db@.collections[i].deezer_id == texts(next_children_ids@)[i]);
        }
    }
    let mut depth: u64 = 0;
    while depth < max_depth
        invariant
            db.wf(),
            db@.connected,
            depth <= max_depth,
            all_held(db@, texts(next_children_ids@)),
            swept_order(db@, max_depth as nat) == walked(
                db@,
                texts(playlists_ids_to_update@),
                texts(next_children_ids@),
                (max_depth - depth) as nat,
            ),
        decreases max_depth - depth,
    {
        let mut children_ids: Vec<String> = Vec::new();
        let ghost order = texts(playlists_ids_to_update@);
        let ghost frontier = texts(next_children_ids@);
        let mut i: usize = 0;
        proof {
            assert(frontier.take(0) =~= Seq::empty());
            assert(texts(children_ids@) =~= Seq::empty());
        }
        while i < next_children_ids.len()
            invariant
                db.wf(),
                db@.connected,
                i <= next_children_ids.len(),
                frontier == texts(next_children_ids@),
                all_held(db@, frontier),
                all_held(db@, texts(children_ids@)),
                (texts(playlists_ids_to_update@), texts(children_ids@)) == visited(
                    db@,
                    order,
                    Seq::empty(),
                    frontier.take(i as int),
                ),
            decreases next_children_ids.len() - i,
        {
            let child_id = &next_children_ids[i];
            proof {
                assert(frontier.take(i + 1).drop_last() =~= frontier.take(i as int));
                assert(frontier.take(i + 1).last() == child_id@);
                assert(db@.holds(frontier[i as int]));
                lemma_children_are_held(db@, child_id@);
            }
            move_to_front(&mut playlists_ids_to_update, child_id.clone());
            let child_collections = get_children_ids(db, child_id.as_str())?;
            let ghost gathered = texts(children_ids@);
            merge(&mut children_ids, &child_collections);
            proof {
                lemma_merged(gathered, child_ids(db@, child_id@));
                assert forall|j: int| 0 <= j < texts(children_ids@).len() implies db@.holds(
                    #[trigger] texts(children_ids@)[j],
                ) by {
                    let x = texts(children_ids@)[j];
                    assert(texts(children_ids@).contains(x));
                    if gathered.contains(x) {
                        let n = choose|n: int| 0 <= n < gathered.len() && gathered[n] == x;
                        assert(db@.holds(gathered[n]));
                    } else {
                        let ids = child_ids(db@, child_id@);
                        let n = choose|n: int| 0 <= n < ids.len() && ids[n] == x;
                        assert(db@.holds(ids[n]));
                    }
                }
            }
            i += 1;
        }
        proof {
            assert(frontier.take(next_children_ids.len() as int) =~= frontier);
        }
        if children_ids.len() > 0 {
            next_children_ids = children_ids;
        } else {
            return Ok(playlists_ids_to_update);
        }
        depth += 1;
    }
    Ok(playlists_ids_to_update)
}

} // verus!
