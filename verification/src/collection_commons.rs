use vstd::prelude::*;
use vstd::string::StringExecFns;

use crate::converter::{convert_playlist, converted_playlist, id_in_address};
use crate::database::{
    get_collection_id_by_deezer_id as get_collection_id_by_deezer_id_database, init_collection,
    Database,
};
use crate::database_models::InitCollectionDatabase;
use crate::deezer_models;
use crate::domain_models::Playlist;
use crate::errors::{DeezerModuleError, DomainError};
use crate::text::{decimal, parse_u64, read_last_segment, read_u64, write_u64, Text};

verus! {

/// The address of the remote playlist `id`.
pub open spec fn playlist_address(id: u64) -> Text {
    crate::controllers::playlist_address_prefix() + decimal(id as nat)
}

/// The number that `s` writes; 0 where it writes none.
pub open spec fn number_or_zero(s: Text) -> u64 {
    match parse_u64(s) {
        Some(id) => id,
        None => 0,
    }
}

/// The reference of the playlist at the address `url`: the number that follows
/// the last `/`, or 0 where no number stands there.
pub fn get_playlist_id_from_url(url: String) -> (id: u64)
    ensures
        id == id_in_address(url@),
{
    match read_last_segment(url.as_str()) {
        Some(id) => id,
        None => 0,
    }
}

/// The number that `id` writes, or 0 where it writes none.
pub fn convert_string_to_u64(id: &str) -> (r: u64)
    ensures
        r == number_or_zero(id@),
{
    match read_u64(id) {
        Some(id) => id,
        None => 0,
    }
}

/// The reference of the track at the address `url`: the number that follows
/// the last `/`, or 0 where no number stands there.
pub fn get_track_id_from_url(url: String) -> (id: u64)
    ensures
        id == id_in_address(url@),
{
    match read_last_segment(url.as_str()) {
        Some(id) => id,
        None => 0,
    }
}

/// The local identifier of the collection with the remote reference
/// `deezer_id`; a data error where the store cannot be reached or holds no such
/// collection.
pub fn get_collection_id_by_deezer_id(db: &Database, deezer_id: &str) -> (r: Result<
    i32,
    DomainError,
>)
    requires
        db.wf(),
    ensures
        r == (if db@.connected && db@.holds(deezer_id@) {
            Ok::<i32, DomainError>(db@.row_of(deezer_id@).id)
        } else {
            Err(DomainError::DomainDataError())
        }),
{
    match get_collection_id_by_deezer_id_database(db, deezer_id.to_owned()) {
        Ok(id) => Ok(id),
        Err(_) => Err(log_database_error("Error while getting collection id")),
    }
}

/// Turns the findings of a check into a result: a parameter error where there
/// are any.
pub fn log_parameters_error(failures: String) -> (r: Result<bool, DomainError>)
    ensures
        r == (if failures@.len() == 0 {
            Ok::<bool, DomainError>(true)
        } else {
            Err(DomainError::DomainParamError())
        }),
{
    if !failures.as_str().is_empty() {
        return Err(DomainError::DomainParamError());
    }
    Ok(true)
}

/// The error that stands for a failure of the store.
pub fn log_database_error(message: &str) -> (e: DomainError)
    ensures
        e == DomainError::DomainDataError(),
{
    DomainError::DomainDataError()
}

/// The error that stands for a failure of the remote service.
pub fn log_deezer_error(message: &str) -> (e: DomainError)
    ensures
        e == DomainError::DomainMusicServiceError(),
{
    DomainError::DomainMusicServiceError()
}

/// What the remote service answered to the request for the playlist
/// `playlist_id`, taken over; a remote-service error where the request failed.
pub fn get_playlist(playlist_id: &u64, fetched: Result<deezer_models::Playlist, DeezerModuleError>) -> (r:
    Result<Playlist, DomainError>)
    ensures
        fetched is Err ==> r == Err::<Playlist, DomainError>(
            DomainError::DomainMusicServiceError(),
        ),
        fetched matches Ok(playlist) ==> r is Ok && r->Ok_0@ == converted_playlist(playlist@),
{
    match fetched {
        Ok(playlist) => Ok(convert_playlist(playlist)),
        Err(_) => Err(log_deezer_error("Error getting playlist")),
    }
}

/// Stores a collection for `playlist`: its title as name, its address, and its
/// number as remote reference. A collection with that reference that is stored
/// already stays as it is.
pub fn add_playlist_data_to_database(db: &mut Database, playlist: Playlist) -> (r: Result<
    bool,
    DomainError,
>)
    requires
        old(db).wf(),
    ensures
        final(db).wf(),
        final(db)@ == (if old(db)@.connected {
            old(db)@.with_collection(playlist@.title, decimal(playlist@.id as nat), playlist@.url)
        } else {
            old(db)@
        }),
        r == (if old(db)@.connected && (old(db)@.holds(decimal(playlist@.id as nat))
            || old(db)@.last_id < i32::MAX) {
            Ok::<bool, DomainError>(true)
        } else {
            Err(DomainError::DomainDataError())
        }),
{
    let database_collection = InitCollectionDatabase {
        name: playlist.title,
        url: playlist.url,
        deezer_id: write_u64(playlist.id),
    };
    match init_collection(db, database_collection) {
        Ok(_) => Ok(true),
        Err(_) => Err(
            log_database_error("Error while initializing the collection in the database"),
        ),
    }
}

/// Stores a collection for the playlist that the remote service has just
/// created under the number `created`, with `name` as its name; a
/// remote-service error where the creation failed.
pub fn create_new_playlist(db: &mut Database, name: &str, created: Result<u64, DeezerModuleError>) -> (r:
    Result<bool, DomainError>)
    requires
        old(db).wf(),
    ensures
        final(db).wf(),
        final(db)@ == (match created {
            Ok(id) if old(db)@.connected => old(db)@.with_collection(
                name@,
                decimal(id as nat),
                playlist_address(id),
            ),
            _ => old(db)@,
        }),
        r == (match created {
            Ok(id) => if old(db)@.connected && (old(db)@.holds(decimal(id as nat))
                || old(db)@.last_id < i32::MAX) {
                Ok::<bool, DomainError>(true)
            } else {
                Err(DomainError::DomainDataError())
            },
            Err(_) => Err(DomainError::DomainMusicServiceError()),
        }),
{
    match created {
        Ok(id) => {
            let number = write_u64(id);
            let mut url = String::from_str("https://www.deezer.com/fr/playlist/");
            url.append(number.as_str());
            let database_collection = InitCollectionDatabase {
                name: name.to_owned(),
                url,
                deezer_id: number,
            };
            match init_collection(db, database_collection) {
                Ok(_) => Ok(true),
                Err(_) => Err(
                    log_database_error("Error while initializing a collection in the database"),
                ),
            }
        },
        Err(_) => Err(log_deezer_error("Error creating playlist")),
    }
}

/// Stores a collection for the playlist that the remote service has just
/// reported; a remote-service error where the request failed.
pub fn create_collection_from_playlist(
    db: &mut Database,
    playlist_id: &u64,
    fetched: Result<deezer_models::Playlist, DeezerModuleError>,
) -> (r: Result<bool, DomainError>)
    requires
        old(db).wf(),
    ensures
        final(db).wf(),
        final(db)@ == (match fetched {
            Ok(playlist) if old(db)@.connected => old(db)@.with_collection(
                playlist@.title,
                decimal(playlist@.id as nat),
                playlist@.url,
            ),
            _ => old(db)@,
        }),
        r == (match fetched {
            Ok(playlist) => if old(db)@.connected && (old(db)@.holds(
                decimal(playlist@.id as nat),
            ) || old(db)@.last_id < i32::MAX) {
                Ok::<bool, DomainError>(true)
            } else {
                Err(DomainError::DomainDataError())
            },
            Err(_) => Err(DomainError::DomainMusicServiceError()),
        }),
{
    match get_playlist(playlist_id, fetched) {
        Ok(playlist) => add_playlist_data_to_database(db, playlist),
        Err(e) => Err(e),
    }
}

} // verus!
