use backend::deezer::{
    add_tracks_to_playlist, create_playlist, get_playlist, join_track_ids, string_to_u64, wait_for,
    ApiCall, DeezerConfig, Method, RateLimit,
};
use backend::steps::{request_call, DeezerAnswer, DeezerRequest, Dispatch};

fn config(token: &str) -> DeezerConfig {
    DeezerConfig::new("https://api.deezer.com".to_string(), "42".to_string(), token.to_string())
}

fn strings(ids: &[&str]) -> Vec<String> {
    ids.iter().map(|id| id.to_string()).collect()
}

#[test]
fn the_settings_are_handed_back() {
    let config = config("secret");
    assert_eq!(config.get_deezer_api_path(), "https://api.deezer.com");
    assert_eq!(config.get_user_id(), "42");
    assert_eq!(config.get_token(), "secret");
}

#[test]
fn a_playlist_is_created_with_a_post() {
    assert_eq!(
        create_playlist(&config("secret"), "my mix"),
        ApiCall {
            method: Method::Post(),
            url: "https://api.deezer.com/user/42/playlists?title=my mix&access_token=secret"
                .to_string(),
        }
    );
    assert_eq!(
        create_playlist(&config(""), "mix").url,
        "https://api.deezer.com/user/42/playlists?title=mix"
    );
}

#[test]
fn a_playlist_is_fetched_with_a_get() {
    assert_eq!(
        get_playlist(&config("secret"), &908622995),
        ApiCall {
            method: Method::Get(),
            url: "https://api.deezer.com/playlist/908622995?access_token=secret".to_string(),
        }
    );
    assert_eq!(get_playlist(&config(""), &0).url, "https://api.deezer.com/playlist/0");
}

#[test]
fn tracks_are_appended_in_one_call() {
    assert_eq!(
        add_tracks_to_playlist(&config("secret"), "100", strings(&["1", "2", "3"])),
        Some(ApiCall {
            method: Method::Post(),
            url: "https://api.deezer.com/playlist/100/tracks?songs=1,2,3&access_token=secret"
                .to_string(),
        })
    );
    assert_eq!(
        add_tracks_to_playlist(&config(""), "100", strings(&["7"])).unwrap().url,
        "https://api.deezer.com/playlist/100/tracks?songs=7"
    );
}

#[test]
fn no_call_is_made_to_append_nothing() {
    assert_eq!(add_tracks_to_playlist(&config("secret"), "100", Vec::new()), None);
}

#[test]
fn references_are_joined_with_commas() {
    assert_eq!(join_track_ids(&Vec::new()), "");
    assert_eq!(join_track_ids(&strings(&["5"])), "5");
    assert_eq!(join_track_ids(&strings(&["5", "6"])), "5,6");
    assert_eq!(join_track_ids(&strings(&["5", "", "6"])), "5,,6");
}

#[test]
fn each_request_has_its_call() {
    let config = config("t");
    assert_eq!(
        request_call(&config, DeezerRequest::CreatePlaylist("a".to_string())),
        Dispatch::Send(create_playlist(&config, "a"))
    );
    assert_eq!(
        request_call(&config, DeezerRequest::GetPlaylist(5)),
        Dispatch::Send(get_playlist(&config, &5))
    );
    assert_eq!(
        request_call(&config, DeezerRequest::AddTracks("9".to_string(), strings(&["1"]))),
        Dispatch::Send(add_tracks_to_playlist(&config, "9", strings(&["1"])).unwrap())
    );
}

#[test]
fn a_request_to_append_nothing_is_answered_without_a_call() {
    assert_eq!(
        request_call(&config("t"), DeezerRequest::AddTracks("9".to_string(), Vec::new())),
        Dispatch::Answer(DeezerAnswer::Added(Ok(false)))
    );
}

#[test]
fn settings_that_make_no_token_bucket_are_refused() {
    assert!(RateLimit::new(5, 0).is_none());
    assert!(RateLimit::new(5, 1 << 32).is_none());
    assert!(RateLimit::new(1 << 32, 5).is_none());
    assert!(RateLimit::new(u64::MAX, u64::MAX).is_none());
    assert!(RateLimit::new(0, 1).is_some());
    assert!(RateLimit::new(u32::MAX as u64, u32::MAX as u64).is_some());
}

#[test]
fn the_first_call_never_waits() {
    let mut limit = RateLimit::new(1, 3600).unwrap();
    assert_eq!(limit.limit_rate_if_needed(), None);
}

#[test]
fn a_call_waits_while_the_bucket_is_empty() {
    // The bucket starts empty and is first filled after one window.
    let mut limit = RateLimit::new(2, 3600).unwrap();
    assert_eq!(limit.limit_rate_if_needed(), None);
    let wait = limit.limit_rate_if_needed().unwrap();
    assert!(wait <= std::time::Duration::from_secs(3600));
    assert!(wait > std::time::Duration::from_secs(3500));
}

#[test]
fn a_bucket_made_at_once_is_empty_too() {
    let mut limit = RateLimit::new(2, 3600).unwrap();
    limit.init_rate_limiter();
    assert!(limit.limit_rate_if_needed().is_some());
}

#[test]
fn a_refill_brings_as_many_tokens_as_the_setting_says() {
    let mut limit = RateLimit::new(3, 1).unwrap();
    assert_eq!(limit.limit_rate_if_needed(), None);
    // Let one window go by.
    let start = std::time::Instant::now();
    while start.elapsed() < std::time::Duration::from_millis(1100) {
        std::hint::spin_loop();
    }
    assert_eq!(limit.limit_rate_if_needed(), None);
    assert_eq!(limit.limit_rate_if_needed(), None);
    assert_eq!(limit.limit_rate_if_needed(), None);
    let wait = limit.limit_rate_if_needed().unwrap();
    assert!(wait <= std::time::Duration::from_secs(1));
}

#[test]
fn a_call_waits_as_long_as_the_bucket_says() {
    let second = std::time::Duration::from_secs(1);
    assert_eq!(wait_for(Err(second)), Some(second));
    assert_eq!(wait_for(Ok(())), None);
}

#[test]
fn a_setting_is_read_as_a_number() {
    assert_eq!(string_to_u64("50"), 50);
    assert_eq!(string_to_u64("5"), 5);
}
