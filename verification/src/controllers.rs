use vstd::prelude::*;
use vstd::string::StrSliceExecFns;
use vstd::string::StringExecFns;

use crate::domain_models::InitCollection;
use crate::text::{parse_u64, read_u64, Text};

verus! {

/// How the address of a remote playlist must begin.
pub open spec fn playlist_address_prefix() -> Text {
    "https://www.deezer.com/fr/playlist/"@
}

/// What is held against an address that does not begin as it must.
pub open spec fn bad_address_message() -> Text {
    "- from_playlist does not start with https://www.deezer.com/fr/playlist/\n"@
}

/// What is held against a reference that is not a number.
pub open spec fn bad_id_message() -> Text {
    "- id not valid (should be a 64 bits unsigned integer)"@
}

/// Whether `s` begins with `prefix`.
pub fn starts_with(s: &str, prefix: &str) -> (r: bool)
    ensures
        r == prefix@.is_prefix_of(s@),
{
    let wanted = prefix.unicode_len();
    if s.unicode_len() < wanted {
        return false;
    }
    let mut i: usize = 0;
    while i < wanted
        invariant
            i <= wanted,
            wanted == prefix@.len(),
            wanted <= s@.len(),
            forall|j: int| 0 <= j < i ==> s@[j] == prefix@[j],
        decreases wanted - i,
    {
        if s.get_char(i) != prefix.get_char(i) {
            return false;
        }
        i += 1;
    }
    assert(s@.subrange(0, prefix@.len() as int) =~= prefix@);
    true
}

/// Checks what a caller hands in to start a collection. The result lists what
/// is wrong: it is empty when nothing is. The address of the playlist to start
/// from, where one is given, must begin with the remote service's playlist
/// address.
pub fn check_init_collections(params: &InitCollection) -> (res: String)
    ensures
        res@ == (match params.from_playlist {
            Some(url) if !playlist_address_prefix().is_prefix_of(url@) => bad_address_message(),
            _ => Seq::<char>::empty(),
        }),
{
    proof {
        reveal_strlit("");
    }
    let mut res: String = String::from_str("");
    match &params.from_playlist {
        Some(playlist_url) => {
            if !starts_with(playlist_url.as_str(), "https://www.deezer.com/fr/playlist/") {
                res.append(
                    "- from_playlist does not start with https://www.deezer.com/fr/playlist/\n",
                );
                assert(res@ =~= bad_address_message());
            }
        },
        None => {},
    }
    res
}

/// Checks a remote reference: it must write a 64-bit unsigned number in
/// decimal. The result says what is wrong: it is empty when nothing is.
pub fn check_id_valid(id: String) -> (res: String)
    ensures
        res@ == (if parse_u64(id@) is Some {
            Seq::<char>::empty()
        } else {
            bad_id_message()
        }),
{
    proof {
        reveal_strlit("");
    }
    match read_u64(id.as_str()) {
        Some(_) => String::from_str(""),
        None => String::from_str("- id not valid (should be a 64 bits unsigned integer)"),
    }
}

/// Neither message is empty, so an empty result means that nothing is wrong.
pub proof fn lemma_messages_are_not_empty()
    ensures
        bad_address_message().len() > 0,
        bad_id_message().len() > 0,
{
    reveal_strlit("- from_playlist does not start with https://www.deezer.com/fr/playlist/\n");
    reveal_strlit("- id not valid (should be a 64 bits unsigned integer)");
}

} // verus!
