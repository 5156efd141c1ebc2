use backend::converter::{convert_playlist, convert_track, convert_tracks};
use backend::deezer_models;
use backend::domain_models::{Playlist, Track};
use backend::tracks::{
    add_missing_tracks, exclude_tracks, playlist_track_ids, remove_first,
    tracks_excluding_children, tracks_to_add,
};

fn track(id: &str) -> Track {
    Track {
        id: 0,
        deezer_id: id.to_string(),
        title: format!("title {}", id),
        link: format!("https://www.deezer.com/track/{}", id),
        artist: "artist".to_string(),
    }
}

fn marked(id: &str, mark: u64) -> Track {
    Track { id: mark, ..track(id) }
}

fn playlist(ids: &[&str]) -> Playlist {
    Playlist {
        id: 1,
        title: "playlist".to_string(),
        public: true,
        nb_tracks: ids.len() as u64,
        url: "https://www.deezer.com/fr/playlist/1".to_string(),
        tracks: ids.iter().map(|id| track(id)).collect(),
    }
}

fn strings(ids: &[&str]) -> Vec<String> {
    ids.iter().map(|id| id.to_string()).collect()
}

fn ids(tracks: &[Track]) -> Vec<String> {
    tracks.iter().map(|t| t.deezer_id.clone()).collect()
}

#[test]
fn tracks_of_two_children_are_sent_once_each() {
    let parent = playlist(&["a"]);
    let children = vec![playlist(&["a", "b"]), playlist(&["b", "c"])];
    assert_eq!(tracks_to_add(&parent, &children), strings(&["b", "c"]));
}

#[test]
fn the_order_of_the_children_decides_the_order_only() {
    let parent = playlist(&["a"]);
    let children = vec![playlist(&["b", "c"]), playlist(&["a", "b"])];
    assert_eq!(tracks_to_add(&parent, &children), strings(&["b", "c"]));
    let children = vec![playlist(&["c", "b"]), playlist(&["a", "b"])];
    assert_eq!(tracks_to_add(&parent, &children), strings(&["c", "b"]));
}

#[test]
fn nothing_is_missing_where_the_parent_holds_everything() {
    let parent = playlist(&["a", "b", "c"]);
    let children = vec![playlist(&["b"]), playlist(&["c", "a"])];
    assert_eq!(tracks_to_add(&parent, &children), Vec::<String>::new());
    assert_eq!(tracks_to_add(&parent, &Vec::new()), Vec::<String>::new());
    assert_eq!(tracks_to_add(&parent, &vec![playlist(&[])]), Vec::<String>::new());
}

#[test]
fn a_track_that_a_child_holds_twice_is_sent_once() {
    let parent = playlist(&[]);
    let children = vec![playlist(&["x", "y", "x"]), playlist(&["y", "z"])];
    assert_eq!(tracks_to_add(&parent, &children), strings(&["x", "y", "z"]));
}

#[test]
fn missing_tracks_are_gathered_child_by_child() {
    let parent = strings(&["a"]);
    let mut gathered = Vec::new();
    add_missing_tracks(&mut gathered, &parent, &playlist(&["a", "b"]));
    assert_eq!(gathered, strings(&["b"]));
    add_missing_tracks(&mut gathered, &parent, &playlist(&["c", "b", "a", "d"]));
    assert_eq!(gathered, strings(&["b", "c", "d"]));
}

#[test]
fn the_references_of_a_playlist_are_listed_in_order() {
    assert_eq!(playlist_track_ids(&playlist(&["3", "1", "3", "2"])), strings(&["3", "1", "3", "2"]));
    assert_eq!(playlist_track_ids(&playlist(&[])), Vec::<String>::new());
}

#[test]
fn own_tracks_leave_out_what_a_child_holds() {
    let own = tracks_excluding_children(playlist(&["a", "b", "c"]), &vec![playlist(&["b"])]);
    assert_eq!(own, vec![track("a"), track("c")]);
}

#[test]
fn own_tracks_of_a_collection_without_children_are_all_its_tracks() {
    let own = tracks_excluding_children(playlist(&["a", "b"]), &Vec::new());
    assert_eq!(own, vec![track("a"), track("b")]);
}

#[test]
fn own_tracks_leave_out_the_tracks_of_every_child() {
    let children = vec![playlist(&["d", "a"]), playlist(&["x"]), playlist(&["c"])];
    let own = tracks_excluding_children(playlist(&["a", "b", "c", "d", "e"]), &children);
    assert_eq!(ids(&own), strings(&["b", "e"]));
}

#[test]
fn only_the_first_of_two_equal_tracks_is_taken_out() {
    let mut tracks = vec![marked("a", 1), marked("b", 2), marked("a", 3)];
    remove_first(&mut tracks, &"a".to_string());
    assert_eq!(tracks, vec![marked("b", 2), marked("a", 3)]);
    remove_first(&mut tracks, &"a".to_string());
    assert_eq!(tracks, vec![marked("b", 2)]);
    remove_first(&mut tracks, &"a".to_string());
    assert_eq!(tracks, vec![marked("b", 2)]);
}

#[test]
fn a_child_that_holds_a_track_twice_takes_two_out() {
    let mut tracks = vec![marked("a", 1), marked("a", 2), marked("a", 3), marked("b", 4)];
    exclude_tracks(&mut tracks, &playlist(&["a", "z", "a"]));
    assert_eq!(tracks, vec![marked("a", 3), marked("b", 4)]);
}

#[test]
fn two_children_with_the_same_track_take_out_two_copies() {
    let parent = Playlist { tracks: vec![marked("a", 1), marked("a", 2)], ..playlist(&[]) };
    let own = tracks_excluding_children(parent, &vec![playlist(&["a"]), playlist(&["a"])]);
    assert_eq!(own, Vec::<Track>::new());
}

fn remote_track(id: u64, link: &str) -> deezer_models::Track {
    deezer_models::Track {
        id,
        title: format!("song {}", id),
        link: link.to_string(),
        artist: "band".to_string(),
    }
}

#[test]
fn a_remote_track_is_taken_over_with_the_number_of_its_link() {
    let converted = convert_track(remote_track(9, "https://www.deezer.com/track/3135556"));
    assert_eq!(
        converted,
        Track {
            id: 9,
            deezer_id: "3135556".to_string(),
            title: "song 9".to_string(),
            link: "https://www.deezer.com/track/3135556".to_string(),
            artist: "band".to_string(),
        }
    );
}

#[test]
fn a_link_without_a_number_gives_the_reference_zero() {
    assert_eq!(convert_track(remote_track(9, "https://www.deezer.com/track/")).deezer_id, "0");
    assert_eq!(convert_track(remote_track(9, "")).deezer_id, "0");
    assert_eq!(convert_track(remote_track(9, "https://x/007")).deezer_id, "7");
}

#[test]
fn a_remote_playlist_is_taken_over_with_its_tracks_in_order() {
    let remote = deezer_models::Playlist {
        id: 908622995,
        title: "mix".to_string(),
        public: false,
        nb_tracks: 2,
        url: "https://www.deezer.com/fr/playlist/908622995".to_string(),
        tracks: vec![remote_track(1, "https://x/track/20"), remote_track(2, "https://x/track/10")],
    };
    let converted = convert_playlist(remote.clone());
    assert_eq!(converted.id, 908622995);
    assert_eq!(converted.title, "mix");
    assert!(!converted.public);
    assert_eq!(converted.nb_tracks, 2);
    assert_eq!(converted.url, "https://www.deezer.com/fr/playlist/908622995");
    assert_eq!(ids(&converted.tracks), strings(&["20", "10"]));
    assert_eq!(converted.tracks, convert_tracks(remote.tracks));
    assert_eq!(converted.clone(), converted);
}
