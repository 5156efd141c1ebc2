use vstd::prelude::*;

use crate::database_models::{CollectionDatabase, InitCollectionDatabase};
use crate::domain_models::CollectionView;
use crate::errors::DatabaseError;
use crate::lists::{lemma_filter_keeps_distinct, lemma_filter_nothing_refused};
use crate::models::{Collection, CollectionDependencies, CollectionRow};
use crate::text::Text;

verus! {

/// The store of collections and of the dependencies between them: two tables,
/// kept in the order in which their rows were written.
///
/// No two collections share a remote reference or a local identifier, and no
/// dependency is stored twice. A dependency may name a collection on itself, and
/// dependencies may form cycles: the store does not look at that.
pub struct Database {
    connected: bool,
    collections: Vec<Collection>,
    dependencies: Vec<CollectionDependencies>,
    last_id: i32,
}

/// The mathematical value of a [`Database`].
pub struct DatabaseState {
    /// Whether the store can be reached. An unreachable store answers every
    /// question with [`DatabaseError::ConnectionError`] and changes nothing.
    pub connected: bool,
    /// The stored collections, oldest first.
    pub collections: Seq<CollectionRow>,
    /// The stored dependencies, oldest first.
    pub dependencies: Seq<CollectionDependencies>,
    /// The largest local identifier given out so far.
    pub last_id: i32,
}

/// A stored collection without its local identifier.
pub open spec fn public_row(row: CollectionRow) -> CollectionView {
    CollectionView { name: row.name, deezer_id: row.deezer_id, url: row.url }
}

/// Stored collections without their local identifiers, in order.
pub open spec fn public_rows(rows: Seq<CollectionRow>) -> Seq<CollectionView> {
    Seq::new(rows.len(), |i: int| public_row(rows[i]))
}

/// The values of the collections in `list`, in order.
pub open spec fn collection_views(list: Seq<CollectionDatabase>) -> Seq<CollectionView> {
    Seq::new(list.len(), |i: int| list[i]@)
}

/// The remote references of the collections in `list`, in order.
pub open spec fn collection_ids(list: Seq<CollectionDatabase>) -> Seq<Text> {
    Seq::new(list.len(), |i: int| list[i]@.deezer_id)
}

/// The values of the rows in `list`, in order.
pub open spec fn row_views(list: Seq<Collection>) -> Seq<CollectionRow> {
    Seq::new(list.len(), |i: int| list[i]@)
}

/// The test that every dependency but `edge` passes.
pub open spec fn other_than(edge: CollectionDependencies) -> spec_fn(CollectionDependencies) -> bool {
    |other: CollectionDependencies| other != edge
}

/// The test that a dependency passes unless it starts or ends at the
/// collection `id`.
pub open spec fn apart_from(id: i32) -> spec_fn(CollectionDependencies) -> bool {
    |edge: CollectionDependencies| edge.parent_id != id && edge.child_id != id
}

/// The test that every stored collection but the collection `id` passes.
pub open spec fn other_rows(id: i32) -> spec_fn(CollectionRow) -> bool {
    |row: CollectionRow| row.id != id
}

impl DatabaseState {
    /// The invariant of the store.
    pub open spec fn well_formed(self) -> bool {
        &&& forall|i: int, j: int|
            0 <= i < j < self.collections.len() ==> (#[trigger] self.collections[i]).deezer_id != (
            #[trigger] self.collections[j]).deezer_id
        &&& forall|i: int, j: int|
            0 <= i < j < self.collections.len() ==> (#[trigger] self.collections[i]).id != (
            #[trigger] self.collections[j]).id
        &&& forall|i: int|
            0 <= i < self.collections.len() ==> 0 < (#[trigger] self.collections[i]).id
                <= self.last_id
        &&& self.dependencies.no_duplicates()
        &&& 0 <= self.last_id
    }

    /// Whether a collection with the remote reference `deezer_id` is stored.
    pub open spec fn holds(self, deezer_id: Text) -> bool {
        exists|i: int|
            0 <= i < self.collections.len() && (#[trigger] self.collections[i]).deezer_id
                == deezer_id
    }

    /// The stored collection with the remote reference `deezer_id`.
    pub open spec fn row_of(self, deezer_id: Text) -> CollectionRow
        recommends
            self.holds(deezer_id),
    {
        self.collections[choose|i: int|
            0 <= i < self.collections.len() && (#[trigger] self.collections[i]).deezer_id
                == deezer_id]
    }

    /// Whether a collection with the local identifier `id` is stored.
    pub open spec fn holds_id(self, id: i32) -> bool {
        exists|i: int| 0 <= i < self.collections.len() && (#[trigger] self.collections[i]).id == id
    }

    /// The stored collection with the local identifier `id`.
    pub open spec fn row_by_id(self, id: i32) -> CollectionRow
        recommends
            self.holds_id(id),
    {
        self.collections[choose|i: int|
            0 <= i < self.collections.len() && (#[trigger] self.collections[i]).id == id]
    }

    /// The child that the dependency `edge` gives to `parent_id`, if it gives one:
    /// the dependency must start at `parent_id` and end at a stored collection.
    pub open spec fn child_through(self, parent_id: i32, edge: CollectionDependencies) -> Option<
        CollectionRow,
    > {
        if edge.parent_id == parent_id && self.holds_id(edge.child_id) {
            Some(self.row_by_id(edge.child_id))
        } else {
            None
        }
    }

    /// [`Self::child_through`] as a function of the dependency.
    pub open spec fn children_through(self, parent_id: i32) -> spec_fn(CollectionDependencies) -> Option<
        CollectionRow,
    > {
        |edge: CollectionDependencies| self.child_through(parent_id, edge)
    }

    /// The direct children of `parent_id`, in the order of their dependencies.
    pub open spec fn children(self, parent_id: i32) -> Seq<CollectionRow> {
        self.dependencies.filter_map(self.children_through(parent_id))
    }

    /// Whether the dependency from `parent_id` to `child_id` is stored.
    pub open spec fn linked(self, parent_id: i32, child_id: i32) -> bool {
        self.dependencies.contains(CollectionDependencies { parent_id, child_id })
    }

    /// Whether a new collection with the remote reference `deezer_id` would be
    /// written: none with that reference is stored, and an identifier is left.
    pub open spec fn accepts(self, deezer_id: Text) -> bool {
        !self.holds(deezer_id) && self.last_id < i32::MAX
    }

    /// The store after a collection has been offered to it. A collection whose
    /// remote reference is already stored changes nothing.
    pub open spec fn with_collection(self, name: Text, deezer_id: Text, url: Text) -> DatabaseState {
        if self.accepts(deezer_id) {
            DatabaseState {
                collections: self.collections.push(
                    CollectionRow { id: (self.last_id + 1) as i32, name, url, deezer_id },
                ),
                last_id: (self.last_id + 1) as i32,
                ..self
            }
        } else {
            self
        }
    }

    /// The store after the dependency from `parent_id` to `child_id` has been
    /// offered to it. A dependency that is already stored changes nothing.
    pub open spec fn with_dependency(self, parent_id: i32, child_id: i32) -> DatabaseState {
        if self.linked(parent_id, child_id) {
            self
        } else {
            DatabaseState {
                dependencies: self.dependencies.push(CollectionDependencies { parent_id, child_id }),
                ..self
            }
        }
    }

    /// The store without the dependency from `parent_id` to `child_id`.
    pub open spec fn without_dependency(self, parent_id: i32, child_id: i32) -> DatabaseState {
        DatabaseState {
            dependencies: self.dependencies.filter(
                other_than(CollectionDependencies { parent_id, child_id }),
            ),
            ..self
        }
    }

    /// The store without the collection `id` and without every dependency that
    /// starts or ends at it.
    pub open spec fn without_collection(self, id: i32) -> DatabaseState {
        DatabaseState {
            collections: self.collections.filter(other_rows(id)),
            dependencies: self.dependencies.filter(apart_from(id)),
            ..self
        }
    }

    /// The store without any collection or dependency.
    pub open spec fn cleared(self) -> DatabaseState {
        DatabaseState { collections: Seq::empty(), dependencies: Seq::empty(), ..self }
    }
}

impl View for Database {
    type V = DatabaseState;

    closed spec fn view(&self) -> DatabaseState {
        DatabaseState {
            connected: self.connected,
            collections: row_views(self.collections@),
            dependencies: self.dependencies@,
            last_id: self.last_id,
        }
    }
}

impl Database {
    /// Whether the store's invariant holds.
    pub open spec fn wf(&self) -> bool {
        self@.well_formed()
    }

    /// An empty store that can be reached.
    pub fn new() -> (db: Database)
        ensures
            db.wf(),
            db@.connected,
            db@.collections.len() == 0,
            db@.dependencies.len() == 0,
            db@.last_id == 0,
    {
        Database {
            connected: true,
            collections: Vec::new(),
            dependencies: Vec::new(),
            last_id: 0,
        }
    }

    /// Whether the store can be reached.
    pub fn is_connected(&self) -> (r: bool)
        ensures
            r == self@.connected,
    {
        self.connected
    }

    /// Makes the store reachable or unreachable; what it holds stays.
    pub fn set_connected(&mut self, connected: bool)
        ensures
            final(self)@ == (DatabaseState { connected, ..old(self)@ }),
    {
        self.connected = connected;
    }

    /// The position of the collection with the remote reference `deezer_id`.
    fn position_of(&self, deezer_id: &String) -> (r: Option<usize>)
        ensures
            r is Some == self@.holds(deezer_id@),
            r matches Some(i) ==> i < self.collections.len() && self.collections[i as int]@.deezer_id
                == deezer_id@,
    {
        let mut i: usize = 0;
        while i < self.collections.len()
            invariant
                i <= self.collections.len(),
                forall|j: int| 0 <= j < i ==> (#[trigger] self@.collections[j]).deezer_id != deezer_id@,
            decreases self.collections.len() - i,
        {
            if self.collections[i].deezer_id == *deezer_id {
                assert(self@.collections[i as int].deezer_id == deezer_id@);
                return Some(i);
            }
            i += 1;
        }
        None
    }

    /// The position of the collection with the local identifier `id`.
    fn position_of_id(&self, id: i32) -> (r: Option<usize>)
        ensures
            r is Some == self@.holds_id(id),
            r matches Some(i) ==> i < self.collections.len() && self.collections[i as int].id == id,
    {
        let mut i: usize = 0;
        while i < self.collections.len()
            invariant
                i <= self.collections.len(),
                forall|j: int| 0 <= j < i ==> (#[trigger] self@.collections[j]).id != id,
            decreases self.collections.len() - i,
        {
            if self.collections[i].id == id {
                assert(self@.collections[i as int].id == id);
                return Some(i);
            }
            i += 1;
        }
        None
    }
}

/// The largest local identifier among `rows`; 0 where there is none or none is
/// positive.
pub open spec fn largest_id(rows: Seq<CollectionRow>) -> i32
    decreases rows.len(),
{
    if rows.len() == 0 {
        0
    } else if rows.last().id > largest_id(rows.drop_last()) {
        rows.last().id
    } else {
        largest_id(rows.drop_last())
    }
}

/// The reachable store that holds exactly these rows, having given out no
/// identifier beyond theirs.
pub open spec fn restored(rows: Seq<CollectionRow>, dependencies: Seq<CollectionDependencies>) -> DatabaseState {
    DatabaseState { connected: true, collections: rows, dependencies, last_id: largest_id(rows) }
}

/// No row carries an identifier beyond the largest.
pub proof fn lemma_largest_id(rows: Seq<CollectionRow>)
    ensures
        0 <= largest_id(rows),
        forall|i: int| 0 <= i < rows.len() ==> (#[trigger] rows[i]).id <= largest_id(rows),
    decreases rows.len(),
{
    if rows.len() > 0 {
        lemma_largest_id(rows.drop_last());
        assert forall|i: int| 0 <= i < rows.len() implies (#[trigger] rows[i]).id <= largest_id(
            rows,
        ) by {
            if i < rows.len() - 1 {
                assert(rows.drop_last()[i] == rows[i]);
            }
        }
    }
}

impl Database {
    /// The store that holds exactly the given rows, as they were read from
    /// where they are kept; nothing where the rows break the store's invariant:
    /// two collections share a remote reference or a local identifier, an
    /// identifier is not positive, or a dependency stands twice.
    pub fn from_rows(collections: Vec<Collection>, dependencies: Vec<CollectionDependencies>) -> (r:
        Option<Database>)
        ensures
            r is Some <==> restored(row_views(collections@), dependencies@).well_formed(),
            r matches Some(db) ==> db.wf() && db@ == restored(
                row_views(collections@),
                dependencies@,
            ),
    {
        let ghost rows = row_views(collections@);
        let ghost target = restored(rows, dependencies@);
        proof {
            lemma_largest_id(rows);
        }
        let mut last_id: i32 = 0;
        let mut i: usize = 0;
        proof {
            assert(rows.take(0) =~= Seq::empty());
        }
        while i < collections.len()
            invariant
                i <= collections.len(),
                rows == row_views(collections@),
                last_id == largest_id(rows.take(i as int)),
                forall|a: int| 0 <= a < i ==> 0 < (#[trigger] rows[a]).id,
                forall|a: int, b: int|
                    0 <= a < b < i ==> (#[trigger] rows[a]).deezer_id != (#[trigger] rows[b]).deezer_id
                        && rows[a].id != rows[b].id,
                target == restored(rows, dependencies@),
            decreases collections.len() - i,
        {
            proof {
                assert(rows.take(i + 1).drop_last() =~= rows.take(i as int));
                assert(rows.take(i + 1).last() == rows[i as int]);
            }
            if collections[i].id <= 0 {
                proof {
                    assert(!(0 < target.collections[i as int].id));
                    assert(!target.well_formed());
                }
                return None;
            }
            let mut k: usize = 0;
            while k < i
                invariant
                    k <= i < collections.len(),
                    rows == row_views(collections@),
                    target == restored(rows, dependencies@),
                    forall|a: int|
                        0 <= a < k ==> (#[trigger] rows[a]).deezer_id != rows[i as int].deezer_id
                            && rows[a].id != rows[i as int].id,
                decreases i - k,
            {
                if collections[k].deezer_id == collections[i].deezer_id || collections[k].id
                    == collections[i].id {
                    proof {
                        assert(target.collections[k as int].deezer_id
                            == target.collections[i as int].deezer_id
                            || target.collections[k as int].id == target.collections[i as int].id);
                        assert(!target.well_formed());
                    }
                    return None;
                }
                k += 1;
            }
            if collections[i].id > last_id {
                last_id = collections[i].id;
            }
            i += 1;
        }
        proof {
            assert(rows.take(collections.len() as int) =~= rows);
        }
        let mut j: usize = 0;
        while j < dependencies.len()
            invariant
                j <= dependencies.len(),
                target == restored(rows, dependencies@),
                forall|a: int, b: int| 0 <= a < b < j ==> dependencies[a] != dependencies[b],
            decreases dependencies.len() - j,
        {
            let mut k: usize = 0;
            while k < j
                invariant
                    k <= j < dependencies.len(),
                    target == restored(rows, dependencies@),
                    forall|a: int| 0 <= a < k ==> dependencies[a] != dependencies[j as int],
                decreases j - k,
            {
                if dependencies[k].parent_id == dependencies[j].parent_id && dependencies[k].child_id
                    == dependencies[j].child_id {
                    proof {
                        assert(target.dependencies[k as int] == target.dependencies[j as int]);
                        assert(!target.dependencies.no_duplicates());
                    }
                    return None;
                }
                k += 1;
            }
            j += 1;
        }
        let db = Database { connected: true, collections, dependencies, last_id };
        proof {
            assert(db@.collections == rows);
            assert(db@ == restored(rows, db@.dependencies));
            assert(db@.dependencies.no_duplicates());
        }
        Some(db)
    }

    /// Every stored dependency, oldest first.
    pub fn load_dependencies(&self) -> (r: Vec<CollectionDependencies>)
        ensures
            r@ == self@.dependencies,
    {
        let mut out: Vec<CollectionDependencies> = Vec::new();
        let mut i: usize = 0;
        while i < self.dependencies.len()
            invariant
                i <= self.dependencies.len(),
                out@ == self.dependencies@.take(i as int),
            decreases self.dependencies.len() - i,
        {
            out.push(self.dependencies[i]);
            assert(self.dependencies@.take(i + 1) =~= self.dependencies@.take(i as int).push(
                self.dependencies[i as int],
            ));
            i += 1;
        }
        assert(self.dependencies@.take(self.dependencies.len() as int) =~= self.dependencies@);
        out
    }
}

/// In a well-formed store, a remote reference names at most one collection, and
/// so does a local identifier.
pub proof fn lemma_rows_are_unique(state: DatabaseState, i: int)
    requires
        state.well_formed(),
        0 <= i < state.collections.len(),
    ensures
        state.holds(state.collections[i].deezer_id),
        state.row_of(state.collections[i].deezer_id) == state.collections[i],
        state.holds_id(state.collections[i].id),
        state.row_by_id(state.collections[i].id) == state.collections[i],
{
    let row = state.collections[i];
    let a = choose|k: int|
        0 <= k < state.collections.len() && (#[trigger] state.collections[k]).deezer_id
            == row.deezer_id;
    assert(a == i);
    let b = choose|k: int|
        0 <= k < state.collections.len() && (#[trigger] state.collections[k]).id == row.id;
    assert(b == i);
}

/// The store's side of an operation: fails when the store cannot be reached.
pub fn get_connection(db: &Database) -> (r: Result<(), DatabaseError>)
    ensures
        r == (if db@.connected {
            Ok::<(), DatabaseError>(())
        } else {
            Err(DatabaseError::ConnectionError())
        }),
{
    if db.is_connected() {
        Ok(())
    } else {
        Err(log_connection_error())
    }
}

/// The error for a store that cannot be reached.
pub fn log_connection_error() -> (e: DatabaseError)
    ensures
        e == DatabaseError::ConnectionError(),
{
    DatabaseError::ConnectionError()
}

/// The error for a statement that failed or found nothing.
pub fn log_result_error(message: &str) -> (e: DatabaseError)
    ensures
        e == DatabaseError::ResultError(),
{
    DatabaseError::ResultError()
}

/// The local identifier of the collection with the remote reference
/// `deezer_id`.
pub fn get_collection_id_by_deezer_id(db: &Database, deezer_id: String) -> (r: Result<
    i32,
    DatabaseError,
>)
    requires
        db.wf(),
    ensures
        r == (if !db@.connected {
            Err::<i32, DatabaseError>(DatabaseError::ConnectionError())
        } else if db@.holds(deezer_id@) {
            Ok(db@.row_of(deezer_id@).id)
        } else {
            Err(DatabaseError::ResultError())
        }),
{
    get_connection(db)?;
    match db.position_of(&deezer_id) {
        Some(i) => {
            proof {
                lemma_rows_are_unique(db@, i as int);
            }
            Ok(db.collections[i].id)
        },
        None => Err(log_result_error("Error getting the collection by deezer id")),
    }
}

/// A stored collection without its local identifier.
pub fn convert_collection_model_to_database(collection_model: Collection) -> (r: CollectionDatabase)
    ensures
        r@ == public_row(collection_model@),
{
    CollectionDatabase {
        name: collection_model.name,
        deezer_id: collection_model.deezer_id,
        url: collection_model.url,
    }
}

/// Stored collections without their local identifiers, in order.
pub fn convert_collection_list_model_to_database(collection_model_list: Vec<Collection>) -> (r: Vec<
    CollectionDatabase,
>)
    ensures
        collection_views(r@) == public_rows(row_views(collection_model_list@)),
{
    let mut out: Vec<CollectionDatabase> = Vec::new();
    let mut i: usize = 0;
    while i < collection_model_list.len()
        invariant
            i <= collection_model_list.len(),
            out.len() == i,
            forall|j: int| 0 <= j < i ==> (#[trigger] out[j])@ == public_row(collection_model_list[j]@),
        decreases collection_model_list.len() - i,
    {
        out.push(convert_collection_model_to_database(collection_model_list[i].clone()));
        i += 1;
    }
    assert(collection_views(out@) =~= public_rows(row_views(collection_model_list@)));
    out
}

/// Every stored collection, oldest first.
pub fn load_collections(db: &Database) -> (r: Vec<Collection>)
    ensures
        row_views(r@) == db@.collections,
{
    let mut out: Vec<Collection> = Vec::new();
    let mut i: usize = 0;
    while i < db.collections.len()
        invariant
            i <= db.collections.len(),
            out.len() == i,
            forall|j: int| 0 <= j < i ==> (#[trigger] out[j])@ == db.collections[j]@,
        decreases db.collections.len() - i,
    {
        out.push(db.collections[i].clone());
        i += 1;
    }
    assert(row_views(out@) =~= db@.collections);
    out
}

/// Every stored collection, oldest first, without local identifiers.
pub fn list_collections(db: &Database) -> (r: Result<Vec<CollectionDatabase>, DatabaseError>)
    ensures
        db@.connected ==> r is Ok && collection_views(r->Ok_0@) == public_rows(db@.collections),
        !db@.connected ==> r == Err::<Vec<CollectionDatabase>, DatabaseError>(
            DatabaseError::ConnectionError(),
        ),
{
    get_connection(db)?;
    Ok(convert_collection_list_model_to_database(load_collections(db)))
}

/// The collection with the remote reference `deezer_id`.
pub fn get_collection_with_tracks(db: &Database, deezer_id: String) -> (r: Result<
    CollectionDatabase,
    DatabaseError,
>)
    requires
        db.wf(),
    ensures
        !db@.connected ==> r == Err::<CollectionDatabase, DatabaseError>(
            DatabaseError::ConnectionError(),
        ),
        db@.connected && !db@.holds(deezer_id@) ==> r == Err::<CollectionDatabase, DatabaseError>(
            DatabaseError::ResultError(),
        ),
        db@.connected && db@.holds(deezer_id@) ==> r is Ok && r->Ok_0@ == public_row(
            db@.row_of(deezer_id@),
        ),
{
    get_connection(db)?;
    match db.position_of(&deezer_id) {
        Some(i) => {
            proof {
                lemma_rows_are_unique(db@, i as int);
            }
            Ok(convert_collection_model_to_database(db.collections[i].clone()))
        },
        None => Err(log_result_error("Error getting the collection")),
    }
}

/// What a filter keeps of the stored collections is again well-formed, and each
/// kept row was a row before.
proof fn lemma_filter_rows(state: DatabaseState, pred: spec_fn(CollectionRow) -> bool)
    requires
        state.well_formed(),
    ensures
        (DatabaseState { collections: state.collections.filter(pred), ..state }).well_formed(),
        forall|i: int|
            0 <= i < state.collections.filter(pred).len() ==> state.collections.contains(
                #[trigger] state.collections.filter(pred)[i],
            ) && pred(state.collections.filter(pred)[i]),
    decreases state.collections.len(),
{
    reveal(Seq::filter);
    let rows = state.collections;
    if rows.len() > 0 {
        let init = rows.drop_last();
        let last = rows.last();
        let before = DatabaseState { collections: init, ..state };
        assert(before.well_formed()) by {
            assert forall|i: int| 0 <= i < init.len() implies init[i] == rows[i] by {}
        }
        lemma_filter_rows(before, pred);
        let kept = init.filter(pred);
        let after = DatabaseState { collections: rows.filter(pred), ..state };
        assert forall|i: int| 0 <= i < kept.len() implies (#[trigger] kept[i]).deezer_id
            != last.deezer_id && kept[i].id != last.id && rows.contains(kept[i]) by {
            assert(init.contains(kept[i]));
            let j = choose|j: int| 0 <= j < init.len() && init[j] == kept[i];
            assert(rows[j] == kept[i]);
            assert(rows[rows.len() - 1] == last);
        }
        assert(rows.contains(last)) by {
            assert(rows[rows.len() - 1] == last);
        }
        if pred(last) {
            let grown = kept.push(last);
            assert(after.collections == grown);
            assert forall|i: int, j: int| 0 <= i < j < grown.len() implies (#[trigger] grown[i]).deezer_id
                != (#[trigger] grown[j]).deezer_id && grown[i].id != grown[j].id by {
                let narrowed = DatabaseState { collections: kept, ..before };
                assert(narrowed.well_formed());
                if j < kept.len() {
                    assert(grown[i] == narrowed.collections[i] && grown[j]
                        == narrowed.collections[j]);
                } else {
                    assert(grown[i] == kept[i]);
                    assert(grown[j] == last);
                }
            }
            assert forall|i: int| 0 <= i < grown.len() implies 0 < (#[trigger] grown[i]).id
                <= state.last_id by {
                if i < kept.len() {
                    assert(grown[i] == kept[i]);
                }
            }
            assert forall|i: int| 0 <= i < grown.len() implies rows.contains(#[trigger] grown[i])
                && pred(grown[i]) by {
                if i < kept.len() {
                    assert(grown[i] == kept[i]);
                }
            }
        } else {
            assert(after.collections == kept);
        }
        assert(after.well_formed());
    }
}

/// Taking a collection out leaves a well-formed store that holds neither the
/// collection nor any dependency that starts or ends at it.
pub proof fn lemma_without_collection(state: DatabaseState, id: i32)
    requires
        state.well_formed(),
    ensures
        state.without_collection(id).well_formed(),
        !state.without_collection(id).holds_id(id),
        forall|i: int|
            0 <= i < state.without_collection(id).dependencies.len() ==> (
            #[trigger] state.without_collection(id).dependencies[i]).parent_id != id
                && state.without_collection(id).dependencies[i].child_id != id,
        forall|i: int|
            0 <= i < state.without_collection(id).collections.len() ==> state.collections.contains(
                #[trigger] state.without_collection(id).collections[i],
            ),
{
    let others = other_rows(id);
    let apart = apart_from(id);
    let after = state.without_collection(id);
    lemma_filter_rows(state, others);
    lemma_filter_keeps_distinct(state.dependencies, apart);
    assert(after.collections == state.collections.filter(others));
    assert(after.dependencies == state.dependencies.filter(apart));
    let narrowed = DatabaseState { collections: state.collections.filter(others), ..state };
    assert(narrowed.well_formed());
    assert forall|i: int, j: int| 0 <= i < j < after.collections.len() implies (
    #[trigger] after.collections[i]).deezer_id != (#[trigger] after.collections[j]).deezer_id
        && after.collections[i].id != after.collections[j].id by {
        assert(after.collections[i] == narrowed.collections[i]);
        assert(after.collections[j] == narrowed.collections[j]);
    }
    assert forall|i: int| 0 <= i < after.collections.len() implies 0 < (
    #[trigger] after.collections[i]).id <= after.last_id by {
        assert(after.collections[i] == narrowed.collections[i]);
    }
    assert forall|i: int| 0 <= i < after.dependencies.len() implies (
    #[trigger] after.dependencies[i]).parent_id != id && after.dependencies[i].child_id != id by {
        assert(after.dependencies.contains(after.dependencies[i]));
    }
}

/// Taking out a dependency that is not stored changes nothing; taking one out
/// leaves a well-formed store without it, so that taking it out again changes
/// nothing either.
pub proof fn lemma_without_dependency(state: DatabaseState, parent_id: i32, child_id: i32)
    requires
        state.well_formed(),
    ensures
        state.without_dependency(parent_id, child_id).well_formed(),
        !state.without_dependency(parent_id, child_id).linked(parent_id, child_id),
        !state.linked(parent_id, child_id) ==> state.without_dependency(parent_id, child_id)
            == state,
        state.without_dependency(parent_id, child_id).without_dependency(parent_id, child_id)
            == state.without_dependency(parent_id, child_id),
        forall|edge: CollectionDependencies|
            edge != (CollectionDependencies { parent_id, child_id }) ==> (
            #[trigger] state.without_dependency(parent_id, child_id).dependencies.contains(edge)
                <==> state.dependencies.contains(edge)),
{
    let gone = CollectionDependencies { parent_id, child_id };
    let other = other_than(gone);
    let after = state.without_dependency(parent_id, child_id);
    lemma_filter_keeps_distinct(state.dependencies, other);
    assert(after.dependencies == state.dependencies.filter(other));
    assert(after.well_formed());
    if !state.linked(parent_id, child_id) {
        assert forall|i: int| 0 <= i < state.dependencies.len() implies other(
            #[trigger] state.dependencies[i],
        ) by {
            assert(state.dependencies.contains(state.dependencies[i]));
        }
        lemma_filter_nothing_refused(state.dependencies, other);
    }
    assert forall|i: int| 0 <= i < after.dependencies.len() implies other(
        #[trigger] after.dependencies[i],
    ) by {
        assert(after.dependencies.contains(after.dependencies[i]));
    }
    lemma_filter_nothing_refused(after.dependencies, other);
}

/// Offering a dependency leaves a well-formed store that holds it exactly once;
/// offering it again changes nothing.
pub proof fn lemma_with_dependency(state: DatabaseState, parent_id: i32, child_id: i32)
    requires
        state.well_formed(),
    ensures
        state.with_dependency(parent_id, child_id).well_formed(),
        state.with_dependency(parent_id, child_id).linked(parent_id, child_id),
        state.with_dependency(parent_id, child_id).with_dependency(parent_id, child_id)
            == state.with_dependency(parent_id, child_id),
        forall|i: int, j: int|
            #![trigger state.with_dependency(parent_id, child_id).dependencies[i], state.with_dependency(parent_id, child_id).dependencies[j]]
            0 <= i < j < state.with_dependency(parent_id, child_id).dependencies.len() ==> !(
            state.with_dependency(parent_id, child_id).dependencies[i] == (CollectionDependencies {
                parent_id,
                child_id,
            }) && state.with_dependency(parent_id, child_id).dependencies[j]
                == (CollectionDependencies { parent_id, child_id })),
{
    let edge = CollectionDependencies { parent_id, child_id };
    let after = state.with_dependency(parent_id, child_id);
    if !state.linked(parent_id, child_id) {
        let grown = state.dependencies.push(edge);
        assert(grown[state.dependencies.len() as int] == edge);
        assert forall|i: int, j: int|
            0 <= i < grown.len() && 0 <= j < grown.len() && i != j implies grown[i]
            != grown[j] by {
            if i < state.dependencies.len() {
                assert(state.dependencies.contains(state.dependencies[i]));
            }
            if j < state.dependencies.len() {
                assert(state.dependencies.contains(state.dependencies[j]));
            }
        }
    }
}

/// The row that a stored local identifier names carries that identifier.
pub proof fn lemma_row_by_id(state: DatabaseState, id: i32)
    requires
        state.holds_id(id),
    ensures
        state.row_by_id(id).id == id,
        state.collections.contains(state.row_by_id(id)),
{
}

/// A collection's children are stored collections, each reached through a
/// stored dependency, and none is listed twice.
pub proof fn lemma_children(state: DatabaseState, parent_id: i32)
    requires
        state.well_formed(),
    ensures
        forall|n: int|
            0 <= n < state.children(parent_id).len() ==> state.collections.contains(
                #[trigger] state.children(parent_id)[n],
            ) && state.linked(parent_id, state.children(parent_id)[n].id),
        forall|n: int, m: int|
            0 <= n < m < state.children(parent_id).len() ==> (#[trigger] state.children(
                parent_id,
            )[n]).id != (#[trigger] state.children(parent_id)[m]).id,
        forall|child_id: i32|
            state.linked(parent_id, child_id) && state.holds_id(child_id) ==> state.children(
                parent_id,
            ).contains(#[trigger] state.row_by_id(child_id)),
{
    lemma_children_upto(state, parent_id, state.dependencies.len() as int);
    assert(state.dependencies.take(state.dependencies.len() as int) =~= state.dependencies);
    assert forall|child_id: i32|
        state.linked(parent_id, child_id) && state.holds_id(child_id) implies state.children(
        parent_id,
    ).contains(#[trigger] state.row_by_id(child_id)) by {
        let edge = CollectionDependencies { parent_id, child_id };
        let j = choose|j: int| 0 <= j < state.dependencies.len() && state.dependencies[j] == edge;
        assert(state.dependencies[j].child_id == child_id);
    }
}

/// What [`lemma_children`] says, for the children found through the first
/// `upto` dependencies.
proof fn lemma_children_upto(state: DatabaseState, parent_id: i32, upto: int)
    requires
        state.well_formed(),
        0 <= upto <= state.dependencies.len(),
    ensures
        ({
            let through = state.children_through(parent_id);
            let found = state.dependencies.take(upto).filter_map(through);
            &&& forall|n: int|
                0 <= n < found.len() ==> state.collections.contains(#[trigger] found[n])
                    && exists|j: int|
                    0 <= j < upto && #[trigger] state.dependencies[j] == (CollectionDependencies {
                        parent_id,
                        child_id: found[n].id,
                    })
            &&& forall|n: int, m: int|
                0 <= n < m < found.len() ==> (#[trigger] found[n]).id != (#[trigger] found[m]).id
            &&& forall|j: int|
                0 <= j < upto && state.dependencies[j].parent_id == parent_id && state.holds_id(
                    state.dependencies[j].child_id,
                ) ==> found.contains(state.row_by_id((#[trigger] state.dependencies[j]).child_id))
        }),
    decreases upto,
{
    let through = state.children_through(parent_id);
    let found = state.dependencies.take(upto).filter_map(through);
    if upto == 0 {
        assert(state.dependencies.take(0) =~= Seq::empty());
    } else {
        lemma_children_upto(state, parent_id, upto - 1);
        let before = state.dependencies.take(upto - 1).filter_map(through);
        let edge = state.dependencies[upto - 1];
        state.dependencies.lemma_filter_map_take_succ(through, upto - 1);
        match through(edge) {
            Some(row) => {
                lemma_row_by_id(state, edge.child_id);
                assert(found =~= before.push(row));
                assert(state.dependencies[upto - 1] == (CollectionDependencies {
                    parent_id,
                    child_id: row.id,
                }));
                assert forall|n: int| 0 <= n < found.len() implies state.collections.contains(
                    #[trigger] found[n],
                ) && exists|j: int|
                    0 <= j < upto && #[trigger] state.dependencies[j] == (CollectionDependencies {
                        parent_id,
                        child_id: found[n].id,
                    }) by {
                    if n < before.len() {
                        assert(found[n] == before[n]);
                        let j = choose|j: int|
                            0 <= j < upto - 1 && #[trigger] state.dependencies[j]
                                == (CollectionDependencies { parent_id, child_id: before[n].id });
                        assert(0 <= j < upto);
                    }
                }
                assert forall|n: int, m: int| 0 <= n < m < found.len() implies (
                #[trigger] found[n]).id != (#[trigger] found[m]).id by {
                    assert(found[n] == before[n]);
                    if m < before.len() {
                        assert(found[m] == before[m]);
                    } else {
                        let j = choose|j: int|
                            0 <= j < upto - 1 && #[trigger] state.dependencies[j]
                                == (CollectionDependencies { parent_id, child_id: before[n].id });
                        assert(state.dependencies[j] != state.dependencies[upto - 1]);
                    }
                }
                assert forall|j: int|
                    0 <= j < upto && state.dependencies[j].parent_id == parent_id
                        && state.holds_id(state.dependencies[j].child_id) implies found.contains(
                    state.row_by_id((#[trigger] state.dependencies[j]).child_id),
                ) by {
                    if j < upto - 1 {
                        let r = state.row_by_id(state.dependencies[j].child_id);
                        assert(before.contains(r));
                        let n = choose|n: int| 0 <= n < before.len() && before[n] == r;
                        assert(found[n] == r);
                    } else {
                        assert(found[before.len() as int] == row);
                    }
                }
            },
            None => {
                assert(found =~= before);
                assert forall|n: int| 0 <= n < found.len() implies state.collections.contains(
                    #[trigger] found[n],
                ) && exists|j: int|
                    0 <= j < upto && #[trigger] state.dependencies[j] == (CollectionDependencies {
                        parent_id,
                        child_id: found[n].id,
                    }) by {
                    let j = choose|j: int|
                        0 <= j < upto - 1 && #[trigger] state.dependencies[j]
                            == (CollectionDependencies { parent_id, child_id: before[n].id });
                    assert(0 <= j < upto);
                }
            },
        }
    }
}

/// Writes a collection unless one with the same remote reference is stored;
/// gives the number of rows written.
fn create_collection(db: &mut Database, name: &str, deezer_id: &str, url: &str) -> (r: Result<
    usize,
    DatabaseError,
>)
    requires
        old(db).wf(),
    ensures
        final(db).wf(),
        final(db)@ == old(db)@.with_collection(name@, deezer_id@, url@),
        r == (if old(db)@.holds(deezer_id@) {
            Ok::<usize, DatabaseError>(0)
        } else if old(db)@.last_id == i32::MAX {
            Err(DatabaseError::ResultError())
        } else {
            Ok(1)
        }),
{
    let deezer_id = deezer_id.to_owned();
    if db.position_of(&deezer_id).is_some() {
        return Ok(0);
    }
    if db.last_id == i32::MAX {
        return Err(DatabaseError::ResultError());
    }
    let id: i32 = db.last_id + 1;
    let row = Collection { id, name: name.to_owned(), url: url.to_owned(), deezer_id };
    db.collections.push(row);
    db.last_id = id;
    proof {
        let before = old(db)@;
        let after = db@;
        assert(after.collections =~= before.collections.push(
            CollectionRow { id, name: name@, url: url@, deezer_id: deezer_id@ },
        ));
        assert(after == before.with_collection(name@, deezer_id@, url@));
        assert forall|i: int| 0 <= i < before.collections.len() implies after.collections[i]
            == before.collections[i] by {}
    }
    Ok(1)
}

/// Stores the collection described by `options`, unless one with the same
/// remote reference is stored already; gives the number of rows written.
pub fn init_collection(db: &mut Database, options: InitCollectionDatabase) -> (r: Result<
    usize,
    DatabaseError,
>)
    requires
        old(db).wf(),
    ensures
        final(db).wf(),
        !old(db)@.connected ==> final(db)@ == old(db)@ && r == Err::<usize, DatabaseError>(
            DatabaseError::ConnectionError(),
        ),
        old(db)@.connected ==> final(db)@ == old(db)@.with_collection(
            options.name@,
            options.deezer_id@,
            options.url@,
        ) && r == (if old(db)@.holds(options.deezer_id@) {
            Ok::<usize, DatabaseError>(0)
        } else if old(db)@.last_id == i32::MAX {
            Err(DatabaseError::ResultError())
        } else {
            Ok(1)
        }),
{
    get_connection(db)?;
    create_collection(db, options.name.as_str(), options.deezer_id.as_str(), options.url.as_str())
}

/// Stores the dependency from `parent_id` to `child_id`, unless it is stored
/// already.
#[verifier::loop_isolation(false)]
pub fn add_collection_to_parent(db: &mut Database, parent_id: i32, child_id: i32) -> (r: Result<
    bool,
    DatabaseError,
>)
    requires
        old(db).wf(),
    ensures
        final(db).wf(),
        !old(db)@.connected ==> final(db)@ == old(db)@ && r == Err::<bool, DatabaseError>(
            DatabaseError::ConnectionError(),
        ),
        old(db)@.connected ==> final(db)@ == old(db)@.with_dependency(parent_id, child_id) && r
            == Ok::<bool, DatabaseError>(true),
{
    get_connection(db)?;
    let edge = CollectionDependencies { parent_id, child_id };
    let mut i: usize = 0;
    while i < db.dependencies.len()
        invariant
            i <= db.dependencies.len(),
            forall|j: int| 0 <= j < i ==> db.dependencies[j] != edge,
        decreases db.dependencies.len() - i,
    {
        if db.dependencies[i].parent_id == parent_id && db.dependencies[i].child_id == child_id {
            assert(db.dependencies[i as int] == edge);
            return Ok(true);
        }
        i += 1;
    }
    db.dependencies.push(edge);
    proof {
        let before = old(db)@;
        assert(!before.linked(parent_id, child_id));
        assert(db@.dependencies =~= before.dependencies.push(edge));
        assert(db@.collections == before.collections);
        assert(db@.last_id == before.last_id);
        assert(db@.dependencies.no_duplicates());
    }
    Ok(true)
}

/// The direct children of the collection `parent_id`, in the order in which
/// their dependencies were stored.
#[verifier::loop_isolation(false)]
pub fn get_child_collections(db: &Database, parent_id: i32) -> (r: Result<
    Vec<CollectionDatabase>,
    DatabaseError,
>)
    requires
        db.wf(),
    ensures
        !db@.connected ==> r == Err::<Vec<CollectionDatabase>, DatabaseError>(
            DatabaseError::ConnectionError(),
        ),
        db@.connected ==> r is Ok && collection_views(r->Ok_0@) == public_rows(
            db@.children(parent_id),
        ),
{
    get_connection(db)?;
    let mut out: Vec<CollectionDatabase> = Vec::new();
    let ghost through = db@.children_through(parent_id);
    let mut i: usize = 0;
    proof {
        assert(db@.dependencies.take(0) =~= Seq::empty());
    }
    while i < db.dependencies.len()
        invariant
            db.wf(),
            i <= db.dependencies.len(),
            through == db@.children_through(parent_id),
            collection_views(out@) == public_rows(db@.dependencies.take(i as int).filter_map(through)),
        decreases db.dependencies.len() - i,
    {
        let edge = db.dependencies[i];
        let ghost before = db@.dependencies.take(i as int).filter_map(through);
        proof {
            db@.dependencies.lemma_filter_map_take_succ(through, i as int);
        }
        if edge.parent_id == parent_id {
            match db.position_of_id(edge.child_id) {
                Some(k) => {
                    proof {
                        lemma_rows_are_unique(db@, k as int);
                    }
                    let ghost listed = collection_views(out@);
                    out.push(convert_collection_model_to_database(db.collections[k].clone()));
                    proof {
                        let row = db@.row_by_id(edge.child_id);
                        assert(row == db@.collections[k as int]);
                        assert(db@.collections[k as int] == db.collections[k as int]@);
                        assert(through(edge) == Some(row));
                        assert(collection_views(out@) =~= listed.push(public_row(row)));
                        assert(public_rows(before.push(row)) =~= public_rows(before).push(
                            public_row(row),
                        ));
                        assert(collection_views(out@) =~= public_rows(before.push(row)));
                        assert(before + seq![row] =~= before.push(row));
                    }
                },
                None => {
                    assert(through(edge) is None);
                    assert(before + Seq::<CollectionRow>::empty() =~= before);
                },
            }
        } else {
            assert(through(edge) is None);
            assert(before + Seq::<CollectionRow>::empty() =~= before);
        }
        i += 1;
    }
    proof {
        assert(db@.dependencies.take(db@.dependencies.len() as int) =~= db@.dependencies);
    }
    Ok(out)
}

/// Takes the dependency from `parent_id` to `child_id` out of the store; tells
/// whether it was there.
#[verifier::loop_isolation(false)]
pub fn remove_collection_to_parent(db: &mut Database, parent_id: i32, child_id: i32) -> (r: Result<
    bool,
    DatabaseError,
>)
    requires
        old(db).wf(),
    ensures
        final(db).wf(),
        !old(db)@.connected ==> final(db)@ == old(db)@ && r == Err::<bool, DatabaseError>(
            DatabaseError::ConnectionError(),
        ),
        old(db)@.connected ==> final(db)@ == old(db)@.without_dependency(parent_id, child_id) && r
            == Ok::<bool, DatabaseError>(old(db)@.linked(parent_id, child_id)),
{
    get_connection(db)?;
    let edge = CollectionDependencies { parent_id, child_id };
    let ghost other = other_than(edge);
    let mut kept: Vec<CollectionDependencies> = Vec::new();
    let mut found = false;
    let mut i: usize = 0;
    proof {
        assert(db.dependencies@.take(0) =~= Seq::empty());
        reveal(Seq::filter);
    }
    while i < db.dependencies.len()
        invariant
            i <= db.dependencies.len(),
            other == other_than(edge),
            kept@ == db.dependencies@.take(i as int).filter(other),
            found == db.dependencies@.take(i as int).contains(edge),
        decreases db.dependencies.len() - i,
    {
        let e = db.dependencies[i];
        proof {
            let so_far = db.dependencies@.take(i as int);
            assert(db.dependencies@.take(i + 1) =~= so_far.push(e));
            so_far.lemma_filter_push(e, other);
            assert(so_far.push(e).contains(edge) == (so_far.contains(edge) || e == edge)) by {
                if so_far.contains(edge) {
                    let j = choose|j: int| 0 <= j < so_far.len() && so_far[j] == edge;
                    assert(so_far.push(e)[j] == edge);
                }
                if e == edge {
                    assert(so_far.push(e)[so_far.len() as int] == edge);
                }
            }
        }
        if e.parent_id == parent_id && e.child_id == child_id {
            found = true;
        } else {
            kept.push(e);
        }
        i += 1;
    }
    proof {
        assert(db.dependencies@.take(db.dependencies.len() as int) =~= db.dependencies@);
        lemma_filter_keeps_distinct(db.dependencies@, other);
    }
    db.dependencies = kept;
    proof {
        assert(db@.collections == old(db)@.collections);
        assert(db@.dependencies == old(db)@.dependencies.filter(other));
    }
    Ok(found)
}

/// Takes the collection `collection_id` out of the store, with every dependency
/// that starts or ends at it.
#[verifier::loop_isolation(false)]
pub fn remove_collection_in_database(db: &mut Database, collection_id: i32) -> (r: Result<
    bool,
    DatabaseError,
>)
    requires
        old(db).wf(),
    ensures
        final(db).wf(),
        !old(db)@.connected ==> final(db)@ == old(db)@ && r == Err::<bool, DatabaseError>(
            DatabaseError::ConnectionError(),
        ),
        old(db)@.connected ==> final(db)@ == old(db)@.without_collection(collection_id) && r
            == Ok::<bool, DatabaseError>(true),
{
    get_connection(db)?;
    let ghost apart = apart_from(collection_id);
    let ghost others = other_rows(collection_id);
    let mut kept_edges: Vec<CollectionDependencies> = Vec::new();
    let mut i: usize = 0;
    proof {
        assert(db.dependencies@.take(0) =~= Seq::empty());
        assert(db@.collections.take(0) =~= Seq::empty());
        reveal(Seq::filter);
    }
    while i < db.dependencies.len()
        invariant
            i <= db.dependencies.len(),
            apart == apart_from(collection_id),
            kept_edges@ == db.dependencies@.take(i as int).filter(apart),
        decreases db.dependencies.len() - i,
    {
        let e = db.dependencies[i];
        proof {
            let so_far = db.dependencies@.take(i as int);
            assert(db.dependencies@.take(i + 1) =~= so_far.push(e));
            so_far.lemma_filter_push(e, apart);
        }
        if e.parent_id != collection_id && e.child_id != collection_id {
            kept_edges.push(e);
        }
        i += 1;
    }
    let mut kept_rows: Vec<Collection> = Vec::new();
    let mut k: usize = 0;
    while k < db.collections.len()
        invariant
            k <= db.collections.len(),
            others == other_rows(collection_id),
            row_views(kept_rows@) == db@.collections.take(k as int).filter(others),
        decreases db.collections.len() - k,
    {
        proof {
            let so_far = db@.collections.take(k as int);
            let row = db@.collections[k as int];
            assert(db@.collections.take(k + 1) =~= so_far.push(row));
            so_far.lemma_filter_push(row, others);
        }
        if db.collections[k].id != collection_id {
            let ghost before = row_views(kept_rows@);
            kept_rows.push(db.collections[k].clone());
            assert(row_views(kept_rows@) =~= before.push(db@.collections[k as int]));
        }
        k += 1;
    }
    proof {
        assert(db.dependencies@.take(db.dependencies.len() as int) =~= db.dependencies@);
        assert(db@.collections.take(db.collections.len() as int) =~= db@.collections);
        lemma_without_collection(db@, collection_id);
    }
    db.dependencies = kept_edges;
    db.collections = kept_rows;
    proof {
        assert(db@.collections == old(db)@.collections.filter(others));
        assert(db@.dependencies == old(db)@.dependencies.filter(apart));
        assert(db@ == old(db)@.without_collection(collection_id));
    }
    Ok(true)
}

/// Takes every collection and every dependency out of the store.
pub fn domain_clear_database(db: &mut Database) -> (r: Result<bool, DatabaseError>)
    requires
        old(db).wf(),
    ensures
        final(db).wf(),
        !old(db)@.connected ==> final(db)@ == old(db)@ && r == Err::<bool, DatabaseError>(
            DatabaseError::ConnectionError(),
        ),
        old(db)@.connected ==> final(db)@ == old(db)@.cleared() && r == Ok::<bool, DatabaseError>(
            true,
        ),
{
    get_connection(db)?;
    db.collections = Vec::new();
    db.dependencies = Vec::new();
    proof {
        assert(db@.collections =~= Seq::empty());
        assert(db@.dependencies =~= Seq::empty());
    }
    Ok(true)
}

} // verus!
