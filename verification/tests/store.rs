use backend::database::{
    add_collection_to_parent, convert_collection_list_model_to_database, domain_clear_database,
    get_child_collections, get_collection_id_by_deezer_id, get_collection_with_tracks,
    get_connection, init_collection, list_collections, load_collections,
    remove_collection_in_database, remove_collection_to_parent, Database,
};
use backend::database_models::{CollectionDatabase, InitCollectionDatabase};
use backend::errors::DatabaseError;
use backend::models::{Collection, CollectionDependencies};

fn offer(db: &mut Database, name: &str, deezer_id: &str) -> Result<usize, DatabaseError> {
    init_collection(
        db,
        InitCollectionDatabase {
            name: name.to_string(),
            url: format!("https://www.deezer.com/fr/playlist/{}", deezer_id),
            deezer_id: deezer_id.to_string(),
        },
    )
}

fn id(db: &Database, deezer_id: &str) -> i32 {
    get_collection_id_by_deezer_id(db, deezer_id.to_string()).unwrap()
}

fn children(db: &Database, parent: i32) -> Vec<String> {
    get_child_collections(db, parent).unwrap().into_iter().map(|c| c.deezer_id).collect()
}

fn listed(db: &Database) -> Vec<String> {
    list_collections(db).unwrap().into_iter().map(|c| c.deezer_id).collect()
}

#[test]
fn a_new_store_is_empty_and_reachable() {
    let db = Database::new();
    assert!(db.is_connected());
    assert_eq!(get_connection(&db), Ok(()));
    assert_eq!(listed(&db), Vec::<String>::new());
    assert!(load_collections(&db).is_empty());
}

#[test]
fn a_collection_is_stored_once() {
    let mut db = Database::new();
    assert_eq!(offer(&mut db, "root", "100"), Ok(1));
    assert_eq!(offer(&mut db, "again", "100"), Ok(0));
    assert_eq!(listed(&db), vec!["100".to_string()]);
    let kept = get_collection_with_tracks(&db, "100".to_string()).unwrap();
    assert_eq!(
        kept,
        CollectionDatabase {
            name: "root".to_string(),
            deezer_id: "100".to_string(),
            url: "https://www.deezer.com/fr/playlist/100".to_string(),
        }
    );
}

#[test]
fn identifiers_are_given_in_order_and_never_again() {
    let mut db = Database::new();
    offer(&mut db, "a", "10").unwrap();
    offer(&mut db, "b", "20").unwrap();
    assert_eq!(id(&db, "10"), 1);
    assert_eq!(id(&db, "20"), 2);
    assert_eq!(remove_collection_in_database(&mut db, 2), Ok(true));
    offer(&mut db, "c", "30").unwrap();
    assert_eq!(id(&db, "30"), 3);
    let rows = load_collections(&db);
    assert_eq!(
        rows,
        vec![
            Collection {
                id: 1,
                name: "a".to_string(),
                url: "https://www.deezer.com/fr/playlist/10".to_string(),
                deezer_id: "10".to_string(),
            },
            Collection {
                id: 3,
                name: "c".to_string(),
                url: "https://www.deezer.com/fr/playlist/30".to_string(),
                deezer_id: "30".to_string(),
            },
        ]
    );
    let public = convert_collection_list_model_to_database(rows);
    assert_eq!(public.len(), 2);
    assert_eq!(public[1].name, "c");
}

#[test]
fn a_reference_that_is_not_stored_is_not_found() {
    let mut db = Database::new();
    offer(&mut db, "a", "7").unwrap();
    assert_eq!(
        get_collection_id_by_deezer_id(&db, "007".to_string()),
        Err(DatabaseError::ResultError())
    );
    assert_eq!(
        get_collection_with_tracks(&db, "8".to_string()),
        Err(DatabaseError::ResultError())
    );
}

#[test]
fn adding_an_edge_twice_stores_it_once() {
    let mut db = Database::new();
    offer(&mut db, "parent", "1").unwrap();
    offer(&mut db, "child", "2").unwrap();
    let (p, c) = (id(&db, "1"), id(&db, "2"));
    assert_eq!(add_collection_to_parent(&mut db, p, c), Ok(true));
    assert_eq!(add_collection_to_parent(&mut db, p, c), Ok(true));
    assert_eq!(children(&db, p), vec!["2".to_string()]);
    assert_eq!(remove_collection_to_parent(&mut db, p, c), Ok(true));
    assert_eq!(remove_collection_to_parent(&mut db, p, c), Ok(false));
    assert_eq!(children(&db, p), Vec::<String>::new());
}

#[test]
fn removing_an_edge_that_is_not_there_changes_nothing() {
    let mut db = Database::new();
    offer(&mut db, "parent", "1").unwrap();
    offer(&mut db, "child", "2").unwrap();
    offer(&mut db, "other", "3").unwrap();
    add_collection_to_parent(&mut db, 1, 2).unwrap();
    assert_eq!(remove_collection_to_parent(&mut db, 1, 3), Ok(false));
    assert_eq!(remove_collection_to_parent(&mut db, 2, 1), Ok(false));
    assert_eq!(remove_collection_to_parent(&mut db, 40, 50), Ok(false));
    assert_eq!(children(&db, 1), vec!["2".to_string()]);
    assert_eq!(listed(&db).len(), 3);
}

#[test]
fn children_come_in_the_order_of_their_edges() {
    let mut db = Database::new();
    for reference in ["1", "2", "3", "4"] {
        offer(&mut db, reference, reference).unwrap();
    }
    add_collection_to_parent(&mut db, 1, 4).unwrap();
    add_collection_to_parent(&mut db, 2, 3).unwrap();
    add_collection_to_parent(&mut db, 1, 2).unwrap();
    add_collection_to_parent(&mut db, 1, 3).unwrap();
    assert_eq!(children(&db, 1), vec!["4".to_string(), "2".to_string(), "3".to_string()]);
    assert_eq!(children(&db, 2), vec!["3".to_string()]);
    assert_eq!(children(&db, 3), Vec::<String>::new());
    assert_eq!(children(&db, 99), Vec::<String>::new());
}

#[test]
fn an_edge_may_join_a_collection_to_itself() {
    let mut db = Database::new();
    offer(&mut db, "loop", "1").unwrap();
    assert_eq!(add_collection_to_parent(&mut db, 1, 1), Ok(true));
    assert_eq!(children(&db, 1), vec!["1".to_string()]);
}

#[test]
fn an_edge_to_a_collection_that_is_not_stored_shows_no_child() {
    let mut db = Database::new();
    offer(&mut db, "parent", "1").unwrap();
    assert_eq!(add_collection_to_parent(&mut db, 1, 5), Ok(true));
    assert_eq!(children(&db, 1), Vec::<String>::new());
}

#[test]
fn deleting_a_collection_takes_its_edges_along() {
    let mut db = Database::new();
    offer(&mut db, "top", "1").unwrap();
    offer(&mut db, "middle", "2").unwrap();
    offer(&mut db, "bottom", "3").unwrap();
    add_collection_to_parent(&mut db, 1, 2).unwrap();
    add_collection_to_parent(&mut db, 2, 3).unwrap();
    add_collection_to_parent(&mut db, 1, 3).unwrap();
    assert_eq!(remove_collection_in_database(&mut db, 2), Ok(true));
    assert_eq!(listed(&db), vec!["1".to_string(), "3".to_string()]);
    assert_eq!(children(&db, 1), vec!["3".to_string()]);
    assert_eq!(children(&db, 2), Vec::<String>::new());
    assert_eq!(remove_collection_to_parent(&mut db, 1, 2), Ok(false));
    assert_eq!(remove_collection_to_parent(&mut db, 2, 3), Ok(false));
    assert_eq!(remove_collection_to_parent(&mut db, 1, 3), Ok(true));
}

#[test]
fn deleting_a_collection_that_is_not_stored_changes_nothing() {
    let mut db = Database::new();
    offer(&mut db, "a", "1").unwrap();
    assert_eq!(remove_collection_in_database(&mut db, 9), Ok(true));
    assert_eq!(listed(&db), vec!["1".to_string()]);
}

#[test]
fn clearing_empties_both_tables() {
    let mut db = Database::new();
    offer(&mut db, "a", "1").unwrap();
    offer(&mut db, "b", "2").unwrap();
    add_collection_to_parent(&mut db, 1, 2).unwrap();
    assert_eq!(domain_clear_database(&mut db), Ok(true));
    assert_eq!(listed(&db), Vec::<String>::new());
    offer(&mut db, "a", "1").unwrap();
    assert_eq!(children(&db, id(&db, "1")), Vec::<String>::new());
}

#[test]
fn an_unreachable_store_fails_every_operation_and_keeps_what_it_holds() {
    let mut db = Database::new();
    offer(&mut db, "a", "1").unwrap();
    offer(&mut db, "b", "2").unwrap();
    add_collection_to_parent(&mut db, 1, 2).unwrap();
    db.set_connected(false);
    let down = DatabaseError::ConnectionError();
    assert!(!db.is_connected());
    assert_eq!(get_connection(&db), Err(down));
    assert_eq!(offer(&mut db, "c", "3"), Err(down));
    assert_eq!(get_collection_id_by_deezer_id(&db, "1".to_string()), Err(down));
    assert_eq!(list_collections(&db), Err(down));
    assert_eq!(get_collection_with_tracks(&db, "1".to_string()), Err(down));
    assert_eq!(add_collection_to_parent(&mut db, 2, 1), Err(down));
    assert_eq!(get_child_collections(&db, 1), Err(down));
    assert_eq!(remove_collection_to_parent(&mut db, 1, 2), Err(down));
    assert_eq!(remove_collection_in_database(&mut db, 1), Err(down));
    assert_eq!(domain_clear_database(&mut db), Err(down));
    db.set_connected(true);
    assert_eq!(listed(&db), vec!["1".to_string(), "2".to_string()]);
    assert_eq!(children(&db, 1), vec!["2".to_string()]);
    assert_eq!(children(&db, 2), Vec::<String>::new());
}

fn row(id: i32, deezer_id: &str) -> Collection {
    Collection {
        id,
        name: format!("collection {}", deezer_id),
        url: format!("https://www.deezer.com/fr/playlist/{}", deezer_id),
        deezer_id: deezer_id.to_string(),
    }
}

fn edge(parent_id: i32, child_id: i32) -> CollectionDependencies {
    CollectionDependencies { parent_id, child_id }
}

#[test]
fn a_store_is_restored_from_its_rows() {
    let rows = vec![row(4, "40"), row(2, "20"), row(9, "90")];
    let edges = vec![edge(4, 2), edge(2, 9), edge(9, 9), edge(4, 77)];
    let mut db = Database::from_rows(rows, edges.clone()).unwrap();
    assert!(db.is_connected());
    assert_eq!(listed(&db), vec!["40".to_string(), "20".to_string(), "90".to_string()]);
    assert_eq!(id(&db, "20"), 2);
    assert_eq!(children(&db, 4), vec!["20".to_string()]);
    assert_eq!(children(&db, 9), vec!["90".to_string()]);
    assert_eq!(db.load_dependencies(), edges);
    // The next identifier lies beyond the largest that was read.
    assert_eq!(offer(&mut db, "new", "100"), Ok(1));
    assert_eq!(id(&db, "100"), 10);
}

#[test]
fn an_empty_store_is_restored_from_no_rows() {
    let mut db = Database::from_rows(Vec::new(), Vec::new()).unwrap();
    assert!(listed(&db).is_empty());
    assert!(db.load_dependencies().is_empty());
    assert_eq!(offer(&mut db, "first", "1"), Ok(1));
    assert_eq!(id(&db, "1"), 1);
}

#[test]
fn rows_that_break_the_rules_of_the_store_are_refused() {
    assert!(Database::from_rows(vec![row(1, "10"), row(2, "10")], Vec::new()).is_none());
    assert!(Database::from_rows(vec![row(1, "10"), row(1, "20")], Vec::new()).is_none());
    assert!(Database::from_rows(vec![row(0, "10")], Vec::new()).is_none());
    assert!(Database::from_rows(vec![row(-3, "10")], Vec::new()).is_none());
    assert!(Database::from_rows(vec![row(1, "10")], vec![edge(1, 1), edge(1, 1)]).is_none());
    assert!(Database::from_rows(vec![row(1, "10")], vec![edge(1, 2), edge(2, 1)]).is_some());
}

#[test]
fn a_store_that_has_given_out_every_identifier_takes_no_more() {
    let mut db = Database::from_rows(vec![row(i32::MAX, "1")], Vec::new()).unwrap();
    assert_eq!(offer(&mut db, "again", "1"), Ok(0));
    assert_eq!(offer(&mut db, "more", "2"), Err(DatabaseError::ResultError()));
    assert_eq!(listed(&db), vec!["1".to_string()]);
}
