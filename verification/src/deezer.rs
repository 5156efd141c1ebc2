use vstd::prelude::*;
use vstd::string::StringExecFns;

use crate::text::{decimal, parse_u64, read_u64, texts, write_u64, Text};

verus! {

/// How a call to the remote service is made.
#[derive(Clone, Copy, Debug, PartialEq, Eq, Structural)]
pub enum Method {
    Get(),
    Post(),
}

/// One call to the remote service, ready to be sent.
#[derive(Debug, PartialEq, Eq)]
pub struct ApiCall {
    pub method: Method,
    pub url: String,
}

/// Where the remote service is, and in whose name it is called.
#[derive(Debug, PartialEq, Eq)]
pub struct DeezerConfig {
    api_path: String,
    user_id: String,
    token: String,
}

/// The part of an address that hands over the access token: nothing where
/// there is no token, else the token behind `lead` and its key.
pub open spec fn token_part(lead: Text, token: Text) -> Text {
    if token.len() == 0 {
        Seq::empty()
    } else {
        lead + "access_token="@ + token
    }
}

/// The address that creates a playlist named `name` for the user `user_id`.
pub open spec fn create_playlist_address(api_path: Text, user_id: Text, token: Text, name: Text) -> Text {
    api_path + "/user/"@ + user_id + "/playlists?title="@ + name + token_part("&"@, token)
}

/// The address that reports the playlist `id` with its tracks.
pub open spec fn get_playlist_address(api_path: Text, token: Text, id: u64) -> Text {
    api_path + "/playlist/"@ + decimal(id as nat) + token_part("?"@, token)
}

/// `ids` with a comma between each two of them.
pub open spec fn joined(ids: Seq<Text>) -> Text
    decreases ids.len(),
{
    if ids.len() == 0 {
        Seq::empty()
    } else if ids.len() == 1 {
        ids[0]
    } else {
        joined(ids.drop_last()) + ","@ + ids.last()
    }
}

/// The address that appends the tracks `track_ids` to the playlist
/// `playlist_id`, all in one call.
pub open spec fn add_tracks_address(
    api_path: Text,
    token: Text,
    playlist_id: Text,
    track_ids: Seq<Text>,
) -> Text {
    api_path + "/playlist/"@ + playlist_id + "/tracks?songs="@ + joined(track_ids) + token_part(
        "&"@,
        token,
    )
}

impl DeezerConfig {
    /// A configuration from its three settings. An empty `token` means that
    /// calls carry no access token.
    pub fn new(api_path: String, user_id: String, token: String) -> (config: DeezerConfig)
        ensures
            config.api_path() == api_path@,
            config.user_id() == user_id@,
            config.token() == token@,
    {
        DeezerConfig { api_path, user_id, token }
    }

    /// The address under which the remote service is reached.
    pub closed spec fn api_path(&self) -> Text {
        self.api_path@
    }

    /// The user in whose name playlists are created.
    pub closed spec fn user_id(&self) -> Text {
        self.user_id@
    }

    /// The access token; empty where calls carry none.
    pub closed spec fn token(&self) -> Text {
        self.token@
    }

    /// The address under which the remote service is reached.
    pub fn get_deezer_api_path(&self) -> (r: String)
        ensures
            r@ == self.api_path(),
    {
        self.api_path.clone()
    }

    /// The user in whose name playlists are created.
    pub fn get_user_id(&self) -> (r: String)
        ensures
            r@ == self.user_id(),
    {
        self.user_id.clone()
    }

    /// The access token; empty where calls carry none.
    pub fn get_token(&self) -> (r: String)
        ensures
            r@ == self.token(),
    {
        self.token.clone()
    }

    /// Puts the access token, where there is one, at the end of `url`, behind
    /// `lead`.
    fn append_token(&self, url: &mut String, lead: &str)
        ensures
            final(url)@ == old(url)@ + token_part(lead@, self.token()),
    {
        let token = self.get_token();
        if !token.as_str().is_empty() {
            url.append(lead);
            url.append("access_token=");
            url.append(token.as_str());
            assert(url@ =~= old(url)@ + (lead@ + "access_token="@ + token@));
        } else {
            assert(url@ =~= old(url)@ + Seq::<char>::empty());
        }
    }
}

/// `track_ids` with a comma between each two of them.
pub fn join_track_ids(track_ids: &Vec<String>) -> (r: String)
    ensures
        r@ == joined(texts(track_ids@)),
{
    let mut out = String::new();
    let ghost ids = texts(track_ids@);
    let mut i: usize = 0;
    proof {
        assert(ids.take(0) =~= Seq::empty());
    }
    while i < track_ids.len()
        invariant
            i <= track_ids.len(),
            ids == texts(track_ids@),
            out@ == joined(ids.take(i as int)),
        decreases track_ids.len() - i,
    {
        proof {
            assert(ids.take(i + 1).drop_last() =~= ids.take(i as int));
            assert(ids.take(i + 1).last() == track_ids[i as int]@);
            assert(ids.take(i + 1)[0] == ids[0]);
        }
        if i > 0 {
            out.append(",");
        }
        out.append(track_ids[i].as_str());
        proof {
            if i == 0 {
                assert(out@ =~= track_ids[0]@);
            } else {
                assert(out@ =~= joined(ids.take(i as int)) + ","@ + track_ids[i as int]@);
            }
        }
        i += 1;
    }
    proof {
        assert(ids.take(track_ids.len() as int) =~= ids);
    }
    out
}

/// The call that creates a playlist named `name`.
pub fn create_playlist(config: &DeezerConfig, name: &str) -> (call: ApiCall)
    ensures
        call.method == Method::Post(),
        call.url@ == create_playlist_address(
            config.api_path(),
            config.user_id(),
            config.token(),
            name@,
        ),
{
    let mut url = config.get_deezer_api_path();
    url.append("/user/");
    url.append(config.get_user_id().as_str());
    url.append("/playlists?title=");
    url.append(name);
    config.append_token(&mut url, "&");
    assert(url@ =~= create_playlist_address(
        config.api_path(),
        config.user_id(),
        config.token(),
        name@,
    ));
    ApiCall { method: Method::Post(), url }
}

/// The call that reports the playlist `deezer_playlist_id` with its tracks.
pub fn get_playlist(config: &DeezerConfig, deezer_playlist_id: &u64) -> (call: ApiCall)
    ensures
        call.method == Method::Get(),
        call.url@ == get_playlist_address(config.api_path(), config.token(), *deezer_playlist_id),
{
    let mut url = config.get_deezer_api_path();
    url.append("/playlist/");
    url.append(write_u64(*deezer_playlist_id).as_str());
    config.append_token(&mut url, "?");
    assert(url@ =~= get_playlist_address(config.api_path(), config.token(), *deezer_playlist_id));
    ApiCall { method: Method::Get(), url }
}

/// The one call that appends the tracks `track_ids` to the playlist
/// `playlist_id`. Where there is no track to append there is no call: nothing
/// is sent, and the answer is that nothing was added.
pub fn add_tracks_to_playlist(config: &DeezerConfig, playlist_id: &str, track_ids: Vec<String>) -> (call:
    Option<ApiCall>)
    ensures
        call is None <==> track_ids.len() == 0,
        call matches Some(c) ==> c.method == Method::Post() && c.url@ == add_tracks_address(
            config.api_path(),
            config.token(),
            playlist_id@,
            texts(track_ids@),
        ),
{
    if track_ids.len() > 0 {
        let mut url = config.get_deezer_api_path();
        url.append("/playlist/");
        url.append(playlist_id);
        url.append("/tracks?songs=");
        url.append(join_track_ids(&track_ids).as_str());
        config.append_token(&mut url, "&");
        assert(url@ =~= add_tracks_address(
            config.api_path(),
            config.token(),
            playlist_id@,
            texts(track_ids@),
        ));
        return Some(ApiCall { method: Method::Post(), url });
    }
    None
}

/// The token bucket of the `ratelimit` crate. How many tokens it holds changes
/// with time and with every call, so nothing is said of that here.
#[verifier::external_type_specification]
#[verifier::external_body]
pub struct ExRatelimiter(ratelimit::Ratelimiter);

/// How many tokens come into the bucket with every refill; the bucket was made
/// to hold as many at most. The crate copies the number in when the bucket is
/// built and changes it only through its setters, none of which is called here.
pub uninterp spec fn bucket_amount(limiter: ratelimit::Ratelimiter) -> u64;

/// How many seconds lie between two refills of the bucket. The crate copies
/// the window in when the bucket is built and changes it only through its
/// setters, none of which is called here.
pub uninterp spec fn bucket_window(limiter: ratelimit::Ratelimiter) -> u64;

/// Whether a token bucket can be made of these settings: the window lasts at
/// least a second, and neither setting is beyond 32 bits.
pub open spec fn usable_rate(rate_limit_amount: u64, rate_limit_timeout: u64) -> bool {
    1 <= rate_limit_timeout <= u32::MAX && rate_limit_amount <= u32::MAX
}

/// Makes a token bucket with `Ratelimiter::builder(amount, interval)`,
/// `Builder::max_tokens(amount)` and `Builder::build()` of the `ratelimit` crate:
/// `amount` tokens come in every `timeout_secs` seconds, and the bucket holds at
/// most `amount`.
///
/// `build` refuses a bucket whose capacity is under what comes in at once, or
/// whose window is longer than 64 bits of nanoseconds can say; neither is the
/// case here, so a bucket is promised, and it is the bucket of these settings.
/// The bounds keep the crate's own arithmetic in range: it divides by the
/// window, adds the window to the clock's reading, and multiplies the tokens by
/// the number of windows gone by.
#[verifier::external_body]
fn build_limiter(amount: u64, timeout_secs: u64) -> (r: Option<ratelimit::Ratelimiter>)
    requires
        usable_rate(amount, timeout_secs),
    ensures
        r is Some,
        r matches Some(limiter) ==> bucket_amount(limiter) == amount && bucket_window(limiter)
            == timeout_secs,
{
    ratelimit::Ratelimiter::builder(amount, core::time::Duration::from_secs(timeout_secs))
        .max_tokens(amount)
        .build()
        .ok()
}

/// Asks the bucket for one token with `Ratelimiter::try_wait()` of the
/// `ratelimit` crate: either a token was taken, or the result says how long to
/// wait for the next refill. Which of the two comes back depends on the clock
/// and on the calls made before, so nothing is promised of it. The crate
/// divides by the window, so the window must not be empty.
#[verifier::external_body]
fn try_wait(limiter: &ratelimit::Ratelimiter) -> (r: Result<(), core::time::Duration>)
    requires
        bucket_window(*limiter) >= 1,
{
    limiter.try_wait()
}

/// How long a call has to wait, given what the bucket answered when it was
/// asked for a token: not at all where a token was taken, else as long as the
/// bucket says.
pub fn wait_for(asked: Result<(), core::time::Duration>) -> (wait: Option<core::time::Duration>)
    ensures
        wait == (match asked {
            Ok(_) => None,
            Err(sleep) => Some(sleep),
        }),
{
    match asked {
        Err(sleep) => Some(sleep),
        Ok(_) => None,
    }
}

/// What slows the calls to the remote service down: a token bucket that is
/// made on first use.
pub struct RateLimit {
    rate_limit: u64,
    rate_limit_timeout: u64,
    limiter: Option<ratelimit::Ratelimiter>,
}

impl RateLimit {
    /// How many calls one window allows.
    pub closed spec fn rate_limit(&self) -> u64 {
        self.rate_limit
    }

    /// How many seconds a window lasts.
    pub closed spec fn rate_limit_timeout(&self) -> u64 {
        self.rate_limit_timeout
    }

    /// The token bucket, once it has been made.
    pub closed spec fn bucket(&self) -> Option<ratelimit::Ratelimiter> {
        self.limiter
    }

    /// Whether the token bucket has been made.
    pub open spec fn is_initialized(&self) -> bool {
        self.bucket() is Some
    }

    /// The invariant: a token bucket can be made of the settings, and the
    /// bucket, once made, is the bucket of these settings.
    pub open spec fn wf(&self) -> bool {
        &&& usable_rate(self.rate_limit(), self.rate_limit_timeout())
        &&& self.bucket() matches Some(limiter) ==> bucket_amount(limiter) == self.rate_limit()
            && bucket_window(limiter) == self.rate_limit_timeout()
    }

    /// A limit of `rate_limit_amount` calls in every window of
    /// `rate_limit_timeout` seconds; nothing where no token bucket can be made
    /// of these settings. The bucket itself is not made yet.
    pub fn new(rate_limit_amount: u64, rate_limit_timeout: u64) -> (limit: Option<RateLimit>)
        ensures
            limit is Some <==> usable_rate(rate_limit_amount, rate_limit_timeout),
            limit matches Some(g) ==> g.wf() && !g.is_initialized() && g.rate_limit()
                == rate_limit_amount && g.rate_limit_timeout() == rate_limit_timeout,
    {
        if rate_limit_timeout < 1 || rate_limit_timeout > 0xFFFF_FFFF || rate_limit_amount
            > 0xFFFF_FFFF {
            return None;
        }
        Some(RateLimit { rate_limit: rate_limit_amount, rate_limit_timeout, limiter: None })
    }

    /// Makes the token bucket of the settings: `rate_limit` tokens come in
    /// every `rate_limit_timeout` seconds, and it holds `rate_limit` at most. It
    /// starts empty.
    pub fn init_rate_limiter(&mut self)
        requires
            old(self).wf(),
        ensures
            final(self).wf(),
            final(self).is_initialized(),
            final(self).rate_limit() == old(self).rate_limit(),
            final(self).rate_limit_timeout() == old(self).rate_limit_timeout(),
    {
        self.limiter = build_limiter(self.rate_limit, self.rate_limit_timeout);
    }

    /// Announces a call to the remote service. The result says how long the
    /// caller has to wait before it makes the call: nothing where it may go on
    /// at once.
    ///
    /// The first announcement makes the token bucket and takes no token: it
    /// never waits. Every later one asks the bucket for a token, and waits for
    /// the next refill where none is left. The bucket is the one that was made
    /// first: it is never made anew.
    pub fn limit_rate_if_needed(&mut self) -> (wait: Option<core::time::Duration>)
        requires
            old(self).wf(),
        ensures
            final(self).wf(),
            final(self).is_initialized(),
            final(self).rate_limit() == old(self).rate_limit(),
            final(self).rate_limit_timeout() == old(self).rate_limit_timeout(),
            old(self).is_initialized() ==> final(self).bucket() == old(self).bucket(),
            !old(self).is_initialized() ==> wait is None,
    {
        match &self.limiter {
            Some(ratelimit) => wait_for(try_wait(ratelimit)),
            None => {
                self.init_rate_limiter();
                None
            },
        }
    }
}

/// The number that the setting `to_convert` writes.
pub fn string_to_u64(to_convert: &str) -> (r: u64)
    requires
        parse_u64(to_convert@) is Some,
    ensures
        Some(r) == parse_u64(to_convert@),
{
    match read_u64(to_convert) {
        Some(number) => number,
        None => 0,
    }
}

} // verus!
