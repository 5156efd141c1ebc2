use backend::collection_dependencies::{
    add_collection_dependency, add_collection_dependency_to_database,
    add_collection_if_not_in_database, remove_collection_dependency,
};
use backend::collection_commons::{
    add_playlist_data_to_database, create_collection_from_playlist, create_new_playlist,
    get_collection_id_by_deezer_id, get_playlist, log_database_error, log_deezer_error,
    log_parameters_error,
};
use backend::collection_management::{
    clear_data, get_collection, get_direct_children_collections, get_max_depth, init_collections,
    list_collections, remove_collection,
};
use backend::database::Database;
use backend::deezer_models::{Playlist, Track};
use backend::domain_models;
use backend::errors::{DeezerModuleError, DomainError};
use backend::steps::{DeezerAnswer, DeezerRequest, Step};
use backend::synchronizer::{
    get_collection_tracks_excluding_children, refresh_collection, update_all_collections,
};

/// A remote service that lives in memory and remembers what it was asked.
struct Remote {
    playlists: Vec<Playlist>,
    next_id: u64,
    asked: Vec<String>,
    appended: Vec<(String, Vec<String>)>,
    refuses_appends: bool,
}

fn remote_track(id: &str) -> Track {
    Track {
        id: 0,
        title: format!("title {}", id),
        link: format!("https://www.deezer.com/track/{}", id),
        artist: "artist".to_string(),
    }
}

impl Remote {
    fn new() -> Remote {
        Remote {
            playlists: Vec::new(),
            next_id: 500,
            asked: Vec::new(),
            appended: Vec::new(),
            refuses_appends: false,
        }
    }

    fn with(mut self, id: u64, tracks: &[&str]) -> Remote {
        self.playlists.push(Playlist {
            id,
            title: format!("playlist {}", id),
            public: true,
            nb_tracks: tracks.len() as u64,
            url: format!("https://www.deezer.com/fr/playlist/{}", id),
            tracks: tracks.iter().map(|t| remote_track(t)).collect(),
        });
        self
    }

    fn tracks_of(&self, id: u64) -> Vec<String> {
        let playlist = self.playlists.iter().find(|p| p.id == id).unwrap();
        playlist.tracks.iter().map(|t| t.link.rsplit('/').next().unwrap().to_string()).collect()
    }

    fn answer(&mut self, request: DeezerRequest) -> DeezerAnswer {
        match request {
            DeezerRequest::CreatePlaylist(name) => {
                self.asked.push(format!("create {}", name));
                let id = self.next_id;
                self.next_id += 1;
                self.playlists.push(Playlist {
                    id,
                    title: name,
                    public: true,
                    nb_tracks: 0,
                    url: format!("https://www.deezer.com/fr/playlist/{}", id),
                    tracks: Vec::new(),
                });
                DeezerAnswer::Created(Ok(id))
            }
            DeezerRequest::GetPlaylist(id) => {
                self.asked.push(format!("get {}", id));
                match self.playlists.iter().find(|p| p.id == id) {
                    Some(playlist) => DeezerAnswer::Playlist(Ok(playlist.clone())),
                    None => DeezerAnswer::Playlist(Err(DeezerModuleError::DeezerError())),
                }
            }
            DeezerRequest::AddTracks(playlist_id, track_ids) => {
                self.asked.push(format!("add {} {}", playlist_id, track_ids.join(",")));
                if self.refuses_appends {
                    return DeezerAnswer::Added(Err(DeezerModuleError::DeezerError()));
                }
                self.appended.push((playlist_id.clone(), track_ids.clone()));
                let id: u64 = playlist_id.parse().unwrap();
                let playlist = self.playlists.iter_mut().find(|p| p.id == id).unwrap();
                for track in track_ids {
                    playlist.tracks.push(remote_track(&track));
                }
                DeezerAnswer::Added(Ok(true))
            }
        }
    }
}

fn init(db: &mut Database, remote: &mut Remote, name: &str, from: Option<&str>) -> Result<bool, DomainError> {
    let options = domain_models::InitCollection {
        name: name.to_string(),
        from_playlist: from.map(|url| url.to_string()),
    };
    let mut step = init_collections(options);
    loop {
        match step {
            Step::Ask(request, task) => step = task.resume(db, remote.answer(request)),
            Step::Done(result) => return result,
        }
    }
}

fn add(db: &mut Database, remote: &mut Remote, parent: &str, child: &str) -> Result<bool, DomainError> {
    let mut step = add_collection_dependency(db, parent, child);
    loop {
        match step {
            Step::Ask(request, task) => step = task.resume(db, remote.answer(request)),
            Step::Done(result) => return result,
        }
    }
}

fn refresh(db: &Database, remote: &mut Remote, id: &str) -> Result<bool, DomainError> {
    let mut step = refresh_collection(id);
    loop {
        match step {
            Step::Ask(request, task) => step = task.resume(db, remote.answer(request)),
            Step::Done(result) => return result,
        }
    }
}

fn own(db: &Database, remote: &mut Remote, id: &str) -> Result<Vec<String>, DomainError> {
    let mut step = get_collection_tracks_excluding_children(id);
    loop {
        match step {
            Step::Ask(request, task) => step = task.resume(db, remote.answer(request)),
            Step::Done(result) => {
                return result.map(|tracks| tracks.into_iter().map(|t| t.deezer_id).collect())
            }
        }
    }
}

fn sweep(db: &Database, remote: &mut Remote, max_depth: u64) -> Result<bool, DomainError> {
    let mut step = update_all_collections(db, max_depth);
    loop {
        match step {
            Step::Ask(request, task) => step = task.resume(db, remote.answer(request)),
            Step::Done(result) => return result,
        }
    }
}

fn listed(db: &Database) -> Vec<String> {
    list_collections(db).unwrap().into_iter().map(|c| c.deezer_id).collect()
}

fn children(db: &Database, id: &str) -> Vec<String> {
    get_direct_children_collections(db, id).unwrap().into_iter().map(|c| c.deezer_id).collect()
}

fn strings(ids: &[&str]) -> Vec<String> {
    ids.iter().map(|id| id.to_string()).collect()
}

const ADDRESS: &str = "https://www.deezer.com/fr/playlist/";

#[test]
fn a_root_takes_in_the_tracks_of_its_child() {
    let mut db = Database::new();
    let mut remote = Remote::new().with(200, &["1", "2"]);
    assert_eq!(init(&mut db, &mut remote, "root", None), Ok(true));
    assert_eq!(init(&mut db, &mut remote, "ignored", Some(&format!("{}200", ADDRESS))), Ok(true));
    assert_eq!(listed(&db), strings(&["500", "200"]));
    assert_eq!(add(&mut db, &mut remote, "500", "200"), Ok(true));
    assert_eq!(children(&db, "500"), strings(&["200"]));
    remote.asked.clear();

    assert_eq!(refresh(&db, &mut remote, "500"), Ok(true));
    assert_eq!(remote.appended, vec![("500".to_string(), strings(&["1", "2"]))]);
    assert_eq!(remote.asked, strings(&["get 500", "get 200", "add 500 1,2"]));
    assert_eq!(remote.tracks_of(500), strings(&["1", "2"]));
    assert_eq!(own(&db, &mut remote, "500"), Ok(Vec::new()));
    assert_eq!(own(&db, &mut remote, "200"), Ok(strings(&["1", "2"])));

    // A second refresh finds nothing missing and sends nothing.
    remote.asked.clear();
    assert_eq!(refresh(&db, &mut remote, "500"), Ok(true));
    assert_eq!(remote.appended.len(), 1);
    assert_eq!(remote.asked, strings(&["get 500", "get 200"]));
}

#[test]
fn a_new_collection_is_stored_under_the_number_of_its_playlist() {
    let mut db = Database::new();
    let mut remote = Remote::new();
    assert_eq!(init(&mut db, &mut remote, "root", None), Ok(true));
    assert_eq!(remote.asked, strings(&["create root"]));
    let root = get_collection(&db, "500").unwrap();
    assert_eq!(
        root,
        domain_models::Collection {
            name: "root".to_string(),
            deezer_id: "500".to_string(),
            url: "https://www.deezer.com/fr/playlist/500".to_string(),
        }
    );
}

#[test]
fn a_collection_taken_from_a_playlist_bears_its_title() {
    let mut db = Database::new();
    let mut remote = Remote::new().with(908622995, &["7"]);
    assert_eq!(init(&mut db, &mut remote, "unused", Some(&format!("{}908622995", ADDRESS))), Ok(true));
    assert_eq!(remote.asked, strings(&["get 908622995"]));
    let taken = get_collection(&db, "908622995").unwrap();
    assert_eq!(taken.name, "playlist 908622995");
    assert_eq!(taken.url, "https://www.deezer.com/fr/playlist/908622995");
    // Taking it again changes nothing.
    assert_eq!(init(&mut db, &mut remote, "unused", Some(&format!("{}908622995", ADDRESS))), Ok(true));
    assert_eq!(listed(&db), strings(&["908622995"]));
}

#[test]
fn a_playlist_address_that_begins_wrongly_is_refused_before_any_call() {
    let mut db = Database::new();
    let mut remote = Remote::new().with(200, &[]);
    assert_eq!(
        init(&mut db, &mut remote, "x", Some("http://www.deezer.com/fr/playlist/200")),
        Err(DomainError::DomainParamError())
    );
    assert!(remote.asked.is_empty());
    assert!(listed(&db).is_empty());
}

#[test]
fn a_start_fails_with_the_remote_service_or_with_the_store() {
    let mut db = Database::new();
    let mut remote = Remote::new();
    assert_eq!(
        init(&mut db, &mut remote, "x", Some(&format!("{}200", ADDRESS))),
        Err(DomainError::DomainMusicServiceError())
    );
    db.set_connected(false);
    assert_eq!(init(&mut db, &mut remote, "x", None), Err(DomainError::DomainDataError()));
    db.set_connected(true);
    assert!(listed(&db).is_empty());
}

#[test]
fn an_answer_of_the_wrong_kind_counts_as_a_remote_failure() {
    let mut db = Database::new();
    let options = domain_models::InitCollection { name: "x".to_string(), from_playlist: None };
    match init_collections(options) {
        Step::Ask(_, task) => match task.resume(&mut db, DeezerAnswer::Added(Ok(true))) {
            Step::Done(result) => assert_eq!(result, Err(DomainError::DomainMusicServiceError())),
            Step::Ask(..) => panic!("nothing is left to ask"),
        },
        Step::Done(_) => panic!("a playlist has to be created"),
    }
    match refresh_collection("5") {
        Step::Ask(request, task) => {
            assert_eq!(request, DeezerRequest::GetPlaylist(5));
            match task.resume(&db, DeezerAnswer::Created(Ok(5))) {
                Step::Done(result) => {
                    assert_eq!(result, Err(DomainError::DomainMusicServiceError()))
                }
                Step::Ask(..) => panic!("the refresh has failed"),
            }
        }
        Step::Done(_) => panic!("the playlist has to be fetched"),
    }
}

#[test]
fn a_dependency_brings_in_the_collections_that_are_not_stored() {
    let mut db = Database::new();
    let mut remote = Remote::new().with(1, &[]).with(2, &[]);
    assert_eq!(add(&mut db, &mut remote, "1", "2"), Ok(true));
    assert_eq!(remote.asked, strings(&["get 1", "get 2"]));
    assert_eq!(listed(&db), strings(&["1", "2"]));
    assert_eq!(children(&db, "1"), strings(&["2"]));
    assert_eq!(children(&db, "2"), Vec::<String>::new());
    // Adding it again asks nothing and stores nothing more.
    remote.asked.clear();
    assert_eq!(add(&mut db, &mut remote, "1", "2"), Ok(true));
    assert!(remote.asked.is_empty());
    assert_eq!(children(&db, "1"), strings(&["2"]));
}

#[test]
fn a_dependency_of_a_collection_on_itself_fetches_it_once() {
    let mut db = Database::new();
    let mut remote = Remote::new().with(1, &[]);
    assert_eq!(add(&mut db, &mut remote, "1", "1"), Ok(true));
    assert_eq!(remote.asked, strings(&["get 1"]));
    assert_eq!(children(&db, "1"), strings(&["1"]));
}

#[test]
fn a_dependency_with_a_malformed_reference_is_refused_before_any_call() {
    let mut db = Database::new();
    let mut remote = Remote::new().with(1, &[]);
    assert_eq!(add(&mut db, &mut remote, "one", "1"), Err(DomainError::DomainParamError()));
    assert_eq!(add(&mut db, &mut remote, "1", ""), Err(DomainError::DomainParamError()));
    assert_eq!(add(&mut db, &mut remote, "1", "-2"), Err(DomainError::DomainParamError()));
    assert!(remote.asked.is_empty());
    assert!(listed(&db).is_empty());
}

#[test]
fn a_dependency_fails_where_a_collection_cannot_be_fetched() {
    let mut db = Database::new();
    let mut remote = Remote::new().with(1, &[]);
    assert_eq!(add(&mut db, &mut remote, "1", "2"), Err(DomainError::DomainMusicServiceError()));
    assert_eq!(remote.asked, strings(&["get 1", "get 2"]));
    // The parent was brought in before the child failed.
    assert_eq!(listed(&db), strings(&["1"]));
    assert_eq!(children(&db, "1"), Vec::<String>::new());
    assert_eq!(add(&mut db, &mut remote, "3", "1"), Err(DomainError::DomainMusicServiceError()));
}

#[test]
fn a_reference_written_otherwise_than_its_number_is_not_found_again() {
    let mut db = Database::new();
    let mut remote = Remote::new().with(7, &[]).with(8, &[]);
    assert_eq!(add(&mut db, &mut remote, "007", "8"), Err(DomainError::DomainDataError()));
    assert_eq!(remote.asked, strings(&["get 7", "get 8"]));
    assert_eq!(listed(&db), strings(&["7", "8"]));
    assert_eq!(children(&db, "7"), Vec::<String>::new());
}

#[test]
fn a_dependency_cannot_be_added_without_the_store() {
    let mut db = Database::new();
    let mut remote = Remote::new().with(1, &[]).with(2, &[]);
    db.set_connected(false);
    assert_eq!(add(&mut db, &mut remote, "1", "2"), Err(DomainError::DomainDataError()));
    assert!(remote.asked.is_empty());
    assert_eq!(add_collection_if_not_in_database(&db, "1"), Err(DomainError::DomainDataError()));
    assert_eq!(
        add_collection_dependency_to_database(&mut db, "1", "2"),
        Err(DomainError::DomainDataError())
    );
}

#[test]
fn the_ends_of_a_dependency_are_looked_after_one_by_one() {
    let mut db = Database::new();
    let mut remote = Remote::new().with(1, &[]);
    assert_eq!(add_collection_if_not_in_database(&db, "1"), Ok(Some(1)));
    init(&mut db, &mut remote, "", Some(&format!("{}1", ADDRESS))).unwrap();
    assert_eq!(add_collection_if_not_in_database(&db, "1"), Ok(None));
    assert_eq!(add_collection_if_not_in_database(&db, "+1"), Ok(Some(1)));
    assert_eq!(add_collection_if_not_in_database(&db, "x"), Ok(Some(0)));
    assert_eq!(add_collection_dependency_to_database(&mut db, "1", "1"), Ok(true));
    assert_eq!(
        add_collection_dependency_to_database(&mut db, "1", "2"),
        Err(DomainError::DomainDataError())
    );
}

#[test]
fn removing_a_dependency_tells_whether_it_was_there() {
    let mut db = Database::new();
    let mut remote = Remote::new().with(1, &[]).with(2, &[]);
    add(&mut db, &mut remote, "1", "2").unwrap();
    remote.asked.clear();
    assert_eq!(remove_collection_dependency(&mut db, "2", "1"), Ok(false));
    assert_eq!(remove_collection_dependency(&mut db, "1", "2"), Ok(true));
    assert_eq!(remove_collection_dependency(&mut db, "1", "2"), Ok(false));
    assert_eq!(children(&db, "1"), Vec::<String>::new());
    assert!(remote.asked.is_empty());
}

#[test]
fn removing_a_dependency_brings_nothing_in() {
    let mut db = Database::new();
    let mut remote = Remote::new().with(1, &[]).with(2, &[]);
    init(&mut db, &mut remote, "", Some(&format!("{}1", ADDRESS))).unwrap();
    assert_eq!(remove_collection_dependency(&mut db, "1", "2"), Err(DomainError::DomainDataError()));
    assert_eq!(remove_collection_dependency(&mut db, "2", "1"), Err(DomainError::DomainDataError()));
    assert_eq!(remove_collection_dependency(&mut db, "1", "x"), Err(DomainError::DomainParamError()));
    assert_eq!(remove_collection_dependency(&mut db, "", "1"), Err(DomainError::DomainParamError()));
    db.set_connected(false);
    assert_eq!(remove_collection_dependency(&mut db, "1", "1"), Err(DomainError::DomainDataError()));
    db.set_connected(true);
    assert_eq!(listed(&db), strings(&["1"]));
}

#[test]
fn two_children_with_a_common_track_send_it_once() {
    let mut db = Database::new();
    let mut remote = Remote::new().with(1, &["10"]).with(2, &["10", "20"]).with(3, &["20", "30"]);
    add(&mut db, &mut remote, "1", "2").unwrap();
    add(&mut db, &mut remote, "1", "3").unwrap();
    assert_eq!(refresh(&db, &mut remote, "1"), Ok(true));
    assert_eq!(remote.appended, vec![("1".to_string(), strings(&["20", "30"]))]);
}

#[test]
fn nothing_is_appended_where_nothing_is_missing() {
    let mut db = Database::new();
    let mut remote = Remote::new().with(1, &["10", "20"]).with(2, &["20"]).with(3, &[]);
    add(&mut db, &mut remote, "1", "2").unwrap();
    add(&mut db, &mut remote, "1", "3").unwrap();
    remote.asked.clear();
    assert_eq!(refresh(&db, &mut remote, "1"), Ok(true));
    assert!(remote.appended.is_empty());
    assert_eq!(remote.asked, strings(&["get 1", "get 2", "get 3"]));
    // A collection without children asks for its own playlist only.
    remote.asked.clear();
    assert_eq!(refresh(&db, &mut remote, "3"), Ok(true));
    assert_eq!(remote.asked, strings(&["get 3"]));
}

#[test]
fn a_refresh_fails_at_the_first_failure() {
    let mut db = Database::new();
    let mut remote = Remote::new().with(1, &[]).with(2, &["5"]).with(3, &["6"]);
    add(&mut db, &mut remote, "1", "2").unwrap();
    add(&mut db, &mut remote, "1", "3").unwrap();
    remote.asked.clear();

    assert_eq!(refresh(&db, &mut remote, "x"), Err(DomainError::DomainParamError()));
    assert!(remote.asked.is_empty());

    // The collection is not stored: its playlist is fetched, then the store
    // fails.
    let mut elsewhere = Remote::new().with(9, &[]);
    assert_eq!(refresh(&db, &mut elsewhere, "9"), Err(DomainError::DomainDataError()));
    assert_eq!(elsewhere.asked, strings(&["get 9"]));

    // The playlist of the second child is gone.
    remote.playlists.retain(|p| p.id != 3);
    assert_eq!(refresh(&db, &mut remote, "1"), Err(DomainError::DomainMusicServiceError()));
    assert_eq!(remote.asked, strings(&["get 1", "get 2", "get 3"]));
    assert!(remote.appended.is_empty());

    // The own playlist is gone: the store is not even read.
    remote.playlists.clear();
    remote.asked.clear();
    db.set_connected(false);
    assert_eq!(refresh(&db, &mut remote, "1"), Err(DomainError::DomainMusicServiceError()));
    assert_eq!(remote.asked, strings(&["get 1"]));
}

#[test]
fn a_refresh_fails_where_the_append_fails() {
    let mut db = Database::new();
    let mut remote = Remote::new().with(1, &[]).with(2, &["5"]);
    add(&mut db, &mut remote, "1", "2").unwrap();
    remote.refuses_appends = true;
    assert_eq!(refresh(&db, &mut remote, "1"), Err(DomainError::DomainMusicServiceError()));
    assert_eq!(remote.tracks_of(1), Vec::<String>::new());
}

#[test]
fn a_refresh_cannot_read_the_children_without_the_store() {
    let mut db = Database::new();
    let mut remote = Remote::new().with(1, &[]).with(2, &["5"]);
    add(&mut db, &mut remote, "1", "2").unwrap();
    db.set_connected(false);
    remote.asked.clear();
    assert_eq!(refresh(&db, &mut remote, "1"), Err(DomainError::DomainDataError()));
    assert_eq!(remote.asked, strings(&["get 1"]));
    assert_eq!(own(&db, &mut remote, "1"), Err(DomainError::DomainDataError()));
}

#[test]
fn own_tracks_are_what_no_child_accounts_for() {
    let mut db = Database::new();
    let mut remote = Remote::new().with(1, &["10", "20", "30"]).with(2, &["20"]);
    add(&mut db, &mut remote, "1", "2").unwrap();
    remote.asked.clear();
    assert_eq!(own(&db, &mut remote, "1"), Ok(strings(&["10", "30"])));
    assert_eq!(remote.asked, strings(&["get 1", "get 2"]));
    assert_eq!(own(&db, &mut remote, "2"), Ok(strings(&["20"])));
    assert_eq!(own(&db, &mut remote, "two"), Err(DomainError::DomainParamError()));
    assert_eq!(own(&db, &mut remote, "3"), Err(DomainError::DomainMusicServiceError()));
    remote.playlists.retain(|p| p.id != 2);
    assert_eq!(own(&db, &mut remote, "1"), Err(DomainError::DomainMusicServiceError()));
}

#[test]
fn a_sweep_goes_on_behind_a_refresh_that_fails() {
    let mut db = Database::new();
    let mut remote = Remote::new().with(1, &[]).with(2, &["5"]).with(3, &[]).with(4, &["6"]);
    add(&mut db, &mut remote, "1", "2").unwrap();
    add(&mut db, &mut remote, "3", "4").unwrap();
    // The playlist of 3 is gone: its refresh fails, the others are done.
    remote.playlists.retain(|p| p.id != 3);
    remote.asked.clear();
    assert_eq!(sweep(&db, &mut remote, 3), Ok(true));
    assert_eq!(remote.appended, vec![("1".to_string(), strings(&["5"]))]);
    assert_eq!(
        remote.asked,
        strings(&["get 4", "get 2", "get 3", "get 1", "get 2", "add 1 5"])
    );
}

#[test]
fn a_sweep_refreshes_the_deepest_collections_first() {
    let mut db = Database::new();
    let mut remote = Remote::new().with(1, &[]).with(2, &[]).with(3, &["9"]);
    add(&mut db, &mut remote, "1", "2").unwrap();
    add(&mut db, &mut remote, "2", "3").unwrap();
    remote.asked.clear();
    assert_eq!(sweep(&db, &mut remote, 3), Ok(true));
    // 3 has no child; 2 takes 9 from 3; 1 then takes 9 from 2.
    assert_eq!(
        remote.appended,
        vec![("2".to_string(), strings(&["9"])), ("1".to_string(), strings(&["9"]))]
    );
    assert_eq!(remote.tracks_of(1), strings(&["9"]));
}

#[test]
fn a_sweep_over_a_cycle_ends_and_refreshes_both() {
    let mut db = Database::new();
    let mut remote = Remote::new().with(1, &["10"]).with(2, &["20"]);
    add(&mut db, &mut remote, "1", "2").unwrap();
    add(&mut db, &mut remote, "2", "1").unwrap();
    remote.asked.clear();
    assert_eq!(sweep(&db, &mut remote, 3), Ok(true));
    assert_eq!(
        remote.appended,
        vec![("2".to_string(), strings(&["10"])), ("1".to_string(), strings(&["20"]))]
    );
}

#[test]
fn a_sweep_skips_a_collection_whose_reference_is_no_number() {
    let mut db = Database::new();
    let mut remote = Remote::new().with(1, &[]);
    create_new_playlist(&mut db, "odd", Ok(1)).unwrap();
    backend::database::init_collection(
        &mut db,
        backend::database_models::InitCollectionDatabase {
            name: "odd".to_string(),
            url: String::new(),
            deezer_id: "not a number".to_string(),
        },
    )
    .unwrap();
    assert_eq!(sweep(&db, &mut remote, 2), Ok(true));
    assert_eq!(remote.asked, strings(&["get 1"]));
}

#[test]
fn a_sweep_does_not_start_without_the_store() {
    let mut db = Database::new();
    let mut remote = Remote::new().with(1, &[]).with(2, &["5"]);
    add(&mut db, &mut remote, "1", "2").unwrap();
    remote.asked.clear();
    db.set_connected(false);
    assert_eq!(sweep(&db, &mut remote, 3), Err(DomainError::DomainDataError()));
    assert!(remote.asked.is_empty());
    db.set_connected(true);
    assert_eq!(sweep(&db, &mut remote, 0), Ok(true));
    assert!(remote.asked.is_empty());
    assert_eq!(sweep(&Database::new(), &mut remote, 3), Ok(true));
}

#[test]
fn a_deleted_collection_is_gone_with_its_dependencies() {
    let mut db = Database::new();
    let mut remote = Remote::new().with(1, &[]).with(2, &[]).with(3, &[]);
    add(&mut db, &mut remote, "1", "2").unwrap();
    add(&mut db, &mut remote, "2", "3").unwrap();
    assert_eq!(remove_collection(&mut db, "2"), Ok(true));
    assert_eq!(listed(&db), strings(&["1", "3"]));
    assert_eq!(children(&db, "1"), Vec::<String>::new());
    assert_eq!(get_collection(&db, "2"), Err(DomainError::DomainDataError()));
    assert_eq!(get_direct_children_collections(&db, "2"), Err(DomainError::DomainDataError()));
    assert_eq!(remove_collection(&mut db, "2"), Err(DomainError::DomainDataError()));
    assert_eq!(remove_collection(&mut db, "two"), Err(DomainError::DomainParamError()));
    // Bringing it back does not bring its dependencies back.
    add(&mut db, &mut remote, "2", "2").unwrap();
    assert_eq!(children(&db, "1"), Vec::<String>::new());
    assert_eq!(children(&db, "2"), strings(&["2"]));
}

#[test]
fn the_data_can_be_cleared() {
    let mut db = Database::new();
    let mut remote = Remote::new().with(1, &[]).with(2, &[]);
    add(&mut db, &mut remote, "1", "2").unwrap();
    assert_eq!(clear_data(&mut db), Ok(true));
    assert!(listed(&db).is_empty());
    db.set_connected(false);
    assert_eq!(clear_data(&mut db), Err(DomainError::DomainDataError()));
    assert_eq!(list_collections(&db), Err(DomainError::DomainDataError()));
    assert_eq!(get_collection(&db, "1"), Err(DomainError::DomainDataError()));
    assert_eq!(get_collection(&db, "x"), Err(DomainError::DomainParamError()));
    assert_eq!(get_direct_children_collections(&db, "x"), Err(DomainError::DomainParamError()));
}

#[test]
fn errors_are_named_after_their_source() {
    assert_eq!(log_database_error("anything"), DomainError::DomainDataError());
    assert_eq!(log_deezer_error("anything"), DomainError::DomainMusicServiceError());
    assert_eq!(log_parameters_error(String::new()), Ok(true));
    assert_eq!(log_parameters_error("- wrong".to_string()), Err(DomainError::DomainParamError()));
}

#[test]
fn a_reported_playlist_is_stored_as_a_collection() {
    let mut db = Database::new();
    let reported = Remote::new().with(77, &["1"]).playlists.remove(0);
    let failed: Result<Playlist, DeezerModuleError> = Err(DeezerModuleError::DeezerError());
    assert_eq!(get_playlist(&77, failed.clone()), Err(DomainError::DomainMusicServiceError()));
    let converted = get_playlist(&77, Ok(reported.clone())).unwrap();
    assert_eq!(converted.tracks[0].deezer_id, "1");
    assert_eq!(
        create_collection_from_playlist(&mut db, &77, failed),
        Err(DomainError::DomainMusicServiceError())
    );
    assert_eq!(create_collection_from_playlist(&mut db, &77, Ok(reported)), Ok(true));
    assert_eq!(add_playlist_data_to_database(&mut db, converted), Ok(true));
    assert_eq!(listed(&db), strings(&["77"]));
    assert_eq!(get_collection_id_by_deezer_id(&db, "77"), Ok(1));
    assert_eq!(get_collection_id_by_deezer_id(&db, "78"), Err(DomainError::DomainDataError()));
    assert_eq!(
        create_new_playlist(&mut db, "x", Err(DeezerModuleError::DeezerError())),
        Err(DomainError::DomainMusicServiceError())
    );
    db.set_connected(false);
    assert_eq!(create_new_playlist(&mut db, "x", Ok(5)), Err(DomainError::DomainDataError()));
}

#[test]
fn the_depth_setting_is_read_leniently() {
    assert_eq!(get_max_depth("3"), 3);
    assert_eq!(get_max_depth(""), 0);
    assert_eq!(get_max_depth("deep"), 0);
}

#[test]
fn a_fetched_collection_that_the_store_does_not_take_is_a_data_error() {
    // The store has given out its last identifier.
    let full = backend::models::Collection {
        id: i32::MAX,
        name: "last".to_string(),
        url: format!("{}1", ADDRESS),
        deezer_id: "1".to_string(),
    };
    let mut db = Database::from_rows(vec![full], Vec::new()).unwrap();
    let mut remote = Remote::new().with(1, &[]).with(2, &[]);
    assert_eq!(add(&mut db, &mut remote, "1", "2"), Err(DomainError::DomainDataError()));
    assert_eq!(remote.asked, strings(&["get 2"]));
    assert_eq!(listed(&db), strings(&["1"]));
    assert_eq!(children(&db, "1"), Vec::<String>::new());
}

#[test]
fn a_store_that_is_lost_during_the_fetch_is_a_data_error() {
    let mut db = Database::new();
    let mut remote = Remote::new().with(1, &[]);
    match add_collection_dependency(&mut db, "1", "1") {
        Step::Ask(request, task) => {
            let answer = remote.answer(request);
            db.set_connected(false);
            match task.resume(&mut db, answer) {
                Step::Done(result) => assert_eq!(result, Err(DomainError::DomainDataError())),
                Step::Ask(..) => panic!("the addition has failed"),
            }
        }
        Step::Done(_) => panic!("the parent has to be fetched"),
    }
    db.set_connected(true);
    assert!(listed(&db).is_empty());
}

#[test]
fn a_failed_fetch_is_a_remote_error_even_without_the_store() {
    let mut db = Database::new();
    match add_collection_dependency(&mut db, "1", "2") {
        Step::Ask(_, task) => {
            db.set_connected(false);
            let failed = DeezerAnswer::Playlist(Err(DeezerModuleError::DeezerError()));
            match task.resume(&mut db, failed) {
                Step::Done(result) => {
                    assert_eq!(result, Err(DomainError::DomainMusicServiceError()))
                }
                Step::Ask(..) => panic!("the addition has failed"),
            }
        }
        Step::Done(_) => panic!("the parent has to be fetched"),
    }
}
