use vstd::prelude::*;

use crate::domain_models::{track_ids, track_views, Playlist, Track, TrackView};
use crate::text::{contains_text, texts, Text};

verus! {

/// `added` followed by those of `incoming` that are neither in `parent` nor
/// added before, each once, in the order of their first appearance.
pub open spec fn candidates(parent: Seq<Text>, added: Seq<Text>, incoming: Seq<Text>) -> Seq<Text>
    decreases incoming.len(),
{
    if incoming.len() == 0 {
        added
    } else {
        let rest = candidates(parent, added, incoming.drop_last());
        if rest.contains(incoming.last()) || parent.contains(incoming.last()) {
            rest
        } else {
            rest.push(incoming.last())
        }
    }
}

/// The tracks that a parent lacks: those of its children, child after child,
/// that the parent does not hold, each once.
pub open spec fn missing_tracks(parent: Seq<Text>, children: Seq<Seq<Text>>) -> Seq<Text>
    decreases children.len(),
{
    if children.len() == 0 {
        Seq::empty()
    } else {
        candidates(parent, missing_tracks(parent, children.drop_last()), children.last())
    }
}

/// The references of the tracks of each playlist of `playlists`, in order.
pub open spec fn playlists_track_ids(playlists: Seq<Playlist>) -> Seq<Seq<Text>> {
    Seq::new(playlists.len(), |i: int| track_ids(playlists[i]@.tracks))
}

/// Whether `position` is where the first track with the reference `id` stands
/// in `tracks`.
pub open spec fn is_first_match(tracks: Seq<TrackView>, id: Text, position: int) -> bool {
    &&& 0 <= position < tracks.len()
    &&& tracks[position].deezer_id == id
    &&& forall|j: int| 0 <= j < position ==> (#[trigger] tracks[j]).deezer_id != id
}

/// `tracks` without the first track that has the reference `id`; `tracks`
/// itself where there is none.
pub open spec fn without_first(tracks: Seq<TrackView>, id: Text) -> Seq<TrackView> {
    if exists|position: int| is_first_match(tracks, id, position) {
        tracks.remove(choose|position: int| is_first_match(tracks, id, position))
    } else {
        tracks
    }
}

/// `tracks` after, for each reference of `ids` in turn, the first track with
/// that reference has been taken out.
pub open spec fn excluded(tracks: Seq<TrackView>, ids: Seq<Text>) -> Seq<TrackView>
    decreases ids.len(),
{
    if ids.len() == 0 {
        tracks
    } else {
        without_first(excluded(tracks, ids.drop_last()), ids.last())
    }
}

/// The tracks that are a collection's own: its tracks after the tracks of each
/// child, child after child, have been taken out of them.
pub open spec fn own_tracks(tracks: Seq<TrackView>, children: Seq<Seq<Text>>) -> Seq<TrackView>
    decreases children.len(),
{
    if children.len() == 0 {
        tracks
    } else {
        excluded(own_tracks(tracks, children.drop_last()), children.last())
    }
}

/// What the candidates are: what was added before, and every incoming track
/// that the parent does not hold; nothing is listed twice.
pub proof fn lemma_candidates(parent: Seq<Text>, added: Seq<Text>, incoming: Seq<Text>)
    ensures
        forall|x: Text|
            #[trigger] candidates(parent, added, incoming).contains(x) <==> added.contains(x) || (
            incoming.contains(x) && !parent.contains(x)),
        added.no_duplicates() ==> candidates(parent, added, incoming).no_duplicates(),
        added.len() <= candidates(parent, added, incoming).len(),
    decreases incoming.len(),
{
    if incoming.len() > 0 {
        let init = incoming.drop_last();
        let last = incoming.last();
        lemma_candidates(parent, added, init);
        let rest = candidates(parent, added, init);
        let all = candidates(parent, added, incoming);
        assert forall|x: Text| #[trigger] all.contains(x) <==> added.contains(x) || (
        incoming.contains(x) && !parent.contains(x)) by {
            if incoming.contains(x) {
                let j = choose|j: int| 0 <= j < incoming.len() && incoming[j] == x;
                if j < init.len() {
                    assert(init[j] == x);
                }
            }
            if init.contains(x) {
                let j = choose|j: int| 0 <= j < init.len() && init[j] == x;
                assert(incoming[j] == x);
            }
            assert(incoming[incoming.len() - 1] == last);
            if !(rest.contains(last) || parent.contains(last)) {
                assert(rest.push(last)[rest.len() as int] == last);
                if rest.contains(x) {
                    let j = choose|j: int| 0 <= j < rest.len() && rest[j] == x;
                    assert(rest.push(last)[j] == x);
                }
                if all.contains(x) {
                    let j = choose|j: int| 0 <= j < all.len() && all[j] == x;
                    if j < rest.len() {
                        assert(rest[j] == x);
                    }
                }
            }
        }
        if added.no_duplicates() && !(rest.contains(last) || parent.contains(last)) {
            assert forall|i: int, j: int|
                0 <= i < all.len() && 0 <= j < all.len() && i != j implies all[i] != all[j] by {
                if i < rest.len() && j < rest.len() {
                    assert(all[i] == rest[i] && all[j] == rest[j]);
                } else if i < rest.len() {
                    assert(rest.contains(rest[i]));
                } else {
                    assert(rest.contains(rest[j]));
                }
            }
        }
    }
}

/// What a parent lacks: exactly the tracks that some child holds and the parent
/// does not, each listed once. So the order in which the children are asked
/// decides the order of the list and nothing else.
pub proof fn lemma_missing_tracks(parent: Seq<Text>, children: Seq<Seq<Text>>)
    ensures
        missing_tracks(parent, children).no_duplicates(),
        forall|x: Text|
            #[trigger] missing_tracks(parent, children).contains(x) <==> !parent.contains(x)
                && exists|k: int| 0 <= k < children.len() && (#[trigger] children[k]).contains(x),
    decreases children.len(),
{
    if children.len() > 0 {
        let init = children.drop_last();
        let last = children.last();
        lemma_missing_tracks(parent, init);
        lemma_candidates(parent, missing_tracks(parent, init), last);
        let all = missing_tracks(parent, children);
        assert forall|x: Text| #[trigger] all.contains(x) <==> !parent.contains(x) && exists|k: int|
            0 <= k < children.len() && (#[trigger] children[k]).contains(x) by {
            if missing_tracks(parent, init).contains(x) {
                let k = choose|k: int| 0 <= k < init.len() && (#[trigger] init[k]).contains(x);
                assert(children[k] == init[k]);
            }
            if last.contains(x) {
                assert(children[children.len() - 1].contains(x));
            }
            if !parent.contains(x) && exists|k: int|
                0 <= k < children.len() && (#[trigger] children[k]).contains(x) {
                let k = choose|k: int| 0 <= k < children.len() && (#[trigger] children[k]).contains(x);
                if k < init.len() {
                    assert(init[k] == children[k]);
                }
            }
        }
    }
}

/// Whether no two tracks of `tracks` share a reference.
pub open spec fn distinct_references(tracks: Seq<TrackView>) -> bool {
    forall|i: int, j: int|
        0 <= i < j < tracks.len() ==> (#[trigger] tracks[i]).deezer_id != (
        #[trigger] tracks[j]).deezer_id
}

/// The test that a track passes unless its reference is `id`.
pub open spec fn other_reference(id: Text) -> spec_fn(TrackView) -> bool {
    |track: TrackView| track.deezer_id != id
}

/// The test that a track passes unless its reference is among `ids`.
pub open spec fn none_of(ids: Seq<Text>) -> spec_fn(TrackView) -> bool {
    |track: TrackView| !ids.contains(track.deezer_id)
}

/// The test that a track passes unless a child holds its reference.
pub open spec fn in_no_child(children: Seq<Seq<Text>>) -> spec_fn(TrackView) -> bool {
    |track: TrackView|
        forall|k: int| 0 <= k < children.len() ==> !(#[trigger] children[k]).contains(track.deezer_id)
}

/// There is one first match at most.
proof fn lemma_first_match_is_unique(tracks: Seq<TrackView>, id: Text, a: int, b: int)
    requires
        is_first_match(tracks, id, a),
        is_first_match(tracks, id, b),
    ensures
        a == b,
{
    if a < b {
        assert(tracks[a].deezer_id != id);
    }
    if b < a {
        assert(tracks[b].deezer_id != id);
    }
}

/// A filter keeps the references of the tracks apart.
proof fn lemma_filter_keeps_references_apart(tracks: Seq<TrackView>, kept: spec_fn(TrackView) -> bool)
    requires
        distinct_references(tracks),
    ensures
        distinct_references(tracks.filter(kept)),
        forall|i: int|
            0 <= i < tracks.filter(kept).len() ==> tracks.contains(#[trigger] tracks.filter(kept)[i]),
    decreases tracks.len(),
{
    reveal(Seq::filter);
    if tracks.len() > 0 {
        let init = tracks.drop_last();
        let last = tracks.last();
        assert(distinct_references(init)) by {
            assert forall|i: int, j: int| 0 <= i < j < init.len() implies (#[trigger] init[i]).deezer_id
                != (#[trigger] init[j]).deezer_id by {
                assert(init[i] == tracks[i] && init[j] == tracks[j]);
            }
        }
        lemma_filter_keeps_references_apart(init, kept);
        let before = init.filter(kept);
        let after = tracks.filter(kept);
        assert forall|i: int| 0 <= i < before.len() implies tracks.contains(#[trigger] before[i])
            && before[i].deezer_id != last.deezer_id by {
            assert(init.contains(before[i]));
            let j = choose|j: int| 0 <= j < init.len() && init[j] == before[i];
            assert(tracks[j] == before[i]);
            assert(tracks[tracks.len() - 1] == last);
        }
        assert(tracks.contains(last)) by {
            assert(tracks[tracks.len() - 1] == last);
        }
        if kept(last) {
            assert(after == before.push(last));
            assert forall|i: int, j: int| 0 <= i < j < after.len() implies (
            #[trigger] after[i]).deezer_id != (#[trigger] after[j]).deezer_id by {
                assert(after[i] == before[i]);
                if j < before.len() {
                    assert(after[j] == before[j]);
                }
            }
            assert forall|i: int| 0 <= i < after.len() implies tracks.contains(#[trigger] after[i]) by {
                if i < before.len() {
                    assert(after[i] == before[i]);
                }
            }
        } else {
            assert(after == before);
        }
    }
}

/// Filtering twice is filtering once with both tests.
proof fn lemma_filter_twice(
    tracks: Seq<TrackView>,
    first: spec_fn(TrackView) -> bool,
    second: spec_fn(TrackView) -> bool,
    both: spec_fn(TrackView) -> bool,
)
    requires
        forall|track: TrackView| #[trigger] both(track) == (first(track) && second(track)),
    ensures
        tracks.filter(first).filter(second) == tracks.filter(both),
    decreases tracks.len(),
{
    reveal(Seq::filter);
    if tracks.len() > 0 {
        let init = tracks.drop_last();
        let last = tracks.last();
        lemma_filter_twice(init, first, second, both);
        assert(both(last) == (first(last) && second(last)));
        if first(last) {
            init.filter(first).lemma_filter_push(last, second);
        }
    }
}

/// Taking the first match out of tracks whose last track is no match takes it
/// out of the tracks before the last.
proof fn lemma_without_first_before_last(init: Seq<TrackView>, last: TrackView, id: Text)
    requires
        last.deezer_id != id,
    ensures
        without_first(init.push(last), id) == without_first(init, id).push(last),
{
    let tracks = init.push(last);
    if exists|position: int| is_first_match(init, id, position) {
        let found = choose|position: int| is_first_match(init, id, position);
        assert(is_first_match(tracks, id, found)) by {
            assert(tracks[found] == init[found]);
            assert forall|j: int| 0 <= j < found implies (#[trigger] tracks[j]).deezer_id != id by {
                assert(tracks[j] == init[j]);
            }
        }
        let chosen = choose|position: int| is_first_match(tracks, id, position);
        lemma_first_match_is_unique(tracks, id, chosen, found);
        assert(tracks.remove(found) =~= init.remove(found).push(last));
    } else {
        assert forall|position: int| !is_first_match(tracks, id, position) by {
            if is_first_match(tracks, id, position) {
                assert(tracks[init.len() as int] == last);
                assert(position < init.len());
                assert(init[position] == tracks[position]);
                assert forall|j: int| 0 <= j < position implies (#[trigger] init[j]).deezer_id
                    != id by {
                    assert(init[j] == tracks[j]);
                }
                assert(is_first_match(init, id, position));
            }
        }
    }
}

/// Taking the first match out of tracks whose last track is the only match
/// takes the last track out.
proof fn lemma_without_first_at_last(init: Seq<TrackView>, last: TrackView, id: Text)
    requires
        last.deezer_id == id,
        forall|j: int| 0 <= j < init.len() ==> (#[trigger] init[j]).deezer_id != id,
    ensures
        without_first(init.push(last), id) == init,
{
    let tracks = init.push(last);
    let end = init.len() as int;
    assert(tracks[end] == last);
    assert forall|j: int| 0 <= j < end implies (#[trigger] tracks[j]).deezer_id != id by {
        assert(tracks[j] == init[j]);
    }
    assert(is_first_match(tracks, id, end));
    let chosen = choose|position: int| is_first_match(tracks, id, position);
    lemma_first_match_is_unique(tracks, id, chosen, end);
    assert(tracks.remove(end) =~= init);
}

/// Among tracks with references that are all apart, taking the first track
/// with a reference out leaves exactly the tracks with other references.
proof fn lemma_without_first_is_a_filter(tracks: Seq<TrackView>, id: Text)
    requires
        distinct_references(tracks),
    ensures
        without_first(tracks, id) == tracks.filter(other_reference(id)),
    decreases tracks.len(),
{
    let others = other_reference(id);
    if tracks.len() == 0 {
        assert(!exists|position: int| is_first_match(tracks, id, position));
        crate::lists::lemma_filter_nothing_refused(tracks, others);
    } else {
        let init = tracks.drop_last();
        let last = tracks.last();
        assert(tracks == init.push(last)) by {
            assert(tracks =~= init.push(last));
        }
        assert(distinct_references(init)) by {
            assert forall|i: int, j: int| 0 <= i < j < init.len() implies (#[trigger] init[i]).deezer_id
                != (#[trigger] init[j]).deezer_id by {
                assert(init[i] == tracks[i] && init[j] == tracks[j]);
            }
        }
        lemma_without_first_is_a_filter(init, id);
        init.lemma_filter_push(last, others);
        if last.deezer_id == id {
            assert forall|j: int| 0 <= j < init.len() implies (#[trigger] init[j]).deezer_id
                != id by {
                assert(init[j] == tracks[j]);
                assert(tracks[tracks.len() - 1].deezer_id == id);
            }
            lemma_without_first_at_last(init, last, id);
            assert forall|j: int| 0 <= j < init.len() implies others(#[trigger] init[j]) by {}
            crate::lists::lemma_filter_nothing_refused(init, others);
        } else {
            lemma_without_first_before_last(init, last, id);
        }
    }
}

/// Among tracks with references that are all apart, taking out the tracks
/// with the references `ids` leaves exactly the tracks with other references,
/// in their order.
pub proof fn lemma_excluded_is_a_filter(tracks: Seq<TrackView>, ids: Seq<Text>)
    requires
        distinct_references(tracks),
    ensures
        excluded(tracks, ids) == tracks.filter(none_of(ids)),
    decreases ids.len(),
{
    if ids.len() == 0 {
        assert forall|i: int| 0 <= i < tracks.len() implies none_of(ids)(#[trigger] tracks[i]) by {}
        crate::lists::lemma_filter_nothing_refused(tracks, none_of(ids));
    } else {
        let init = ids.drop_last();
        let last = ids.last();
        lemma_excluded_is_a_filter(tracks, init);
        let before = tracks.filter(none_of(init));
        lemma_filter_keeps_references_apart(tracks, none_of(init));
        lemma_without_first_is_a_filter(before, last);
        assert forall|track: TrackView| #[trigger] none_of(ids)(track) == (none_of(init)(track)
            && other_reference(last)(track)) by {
            let x = track.deezer_id;
            if ids.contains(x) {
                let j = choose|j: int| 0 <= j < ids.len() && ids[j] == x;
                if j < init.len() {
                    assert(init[j] == x);
                }
            }
            if init.contains(x) {
                let j = choose|j: int| 0 <= j < init.len() && init[j] == x;
                assert(ids[j] == x);
            }
            assert(ids[ids.len() - 1] == last);
        }
        lemma_filter_twice(tracks, none_of(init), other_reference(last), none_of(ids));
    }
}

/// Whether `places` says where each track of `part` stands in `whole`, with
/// later tracks at later places.
pub open spec fn places_in(places: Seq<int>, part: Seq<TrackView>, whole: Seq<TrackView>) -> bool {
    &&& places.len() == part.len()
    &&& forall|i: int|
        0 <= i < part.len() ==> 0 <= #[trigger] places[i] < whole.len() && whole[places[i]]
            == part[i]
    &&& forall|i: int, j: int|
        0 <= i < j < part.len() ==> #[trigger] places[i] < #[trigger] places[j]
}

/// Whether `part` is what is left of `whole` when some of its tracks are taken
/// out: the tracks of `part` stand in `whole`, in the same order.
pub open spec fn is_left_of(part: Seq<TrackView>, whole: Seq<TrackView>) -> bool {
    exists|places: Seq<int>| places_in(places, part, whole)
}

/// What is left of what is left is left.
proof fn lemma_left_of_left(part: Seq<TrackView>, middle: Seq<TrackView>, whole: Seq<TrackView>)
    requires
        is_left_of(part, middle),
        is_left_of(middle, whole),
    ensures
        is_left_of(part, whole),
{
    let inner = choose|places: Seq<int>| places_in(places, part, middle);
    let outer = choose|places: Seq<int>| places_in(places, middle, whole);
    let places = Seq::new(part.len(), |i: int| outer[inner[i]]);
    assert forall|i: int| 0 <= i < part.len() implies 0 <= #[trigger] places[i] < whole.len()
        && whole[places[i]] == part[i] by {
        assert(0 <= inner[i] < middle.len());
        assert(0 <= outer[inner[i]] < whole.len());
    }
    assert forall|i: int, j: int| 0 <= i < j < part.len() implies #[trigger] places[i]
        < #[trigger] places[j] by {
        assert(0 <= inner[i] < middle.len() && 0 <= inner[j] < middle.len());
        assert(inner[i] < inner[j]);
        assert(outer[inner[i]] < outer[inner[j]]);
    }
    assert(places_in(places, part, whole));
}

/// Taking the first track with a reference out leaves the others in order.
proof fn lemma_without_first_is_left(tracks: Seq<TrackView>, id: Text)
    ensures
        is_left_of(without_first(tracks, id), tracks),
{
    let left = without_first(tracks, id);
    if exists|position: int| is_first_match(tracks, id, position) {
        let gone = choose|position: int| is_first_match(tracks, id, position);
        let places = Seq::new(left.len(), |i: int| if i < gone { i } else { i + 1 });
        assert(left == tracks.remove(gone));
        assert(places_in(places, left, tracks));
    } else {
        let places = Seq::new(left.len(), |i: int| i);
        assert(places_in(places, left, tracks));
    }
}

/// Taking tracks out leaves the others in order.
proof fn lemma_excluded_is_left(tracks: Seq<TrackView>, ids: Seq<Text>)
    ensures
        is_left_of(excluded(tracks, ids), tracks),
    decreases ids.len(),
{
    if ids.len() == 0 {
        let places = Seq::new(tracks.len(), |i: int| i);
        assert(places_in(places, tracks, tracks));
    } else {
        lemma_excluded_is_left(tracks, ids.drop_last());
        lemma_without_first_is_left(excluded(tracks, ids.drop_last()), ids.last());
        lemma_left_of_left(excluded(tracks, ids), excluded(tracks, ids.drop_last()), tracks);
    }
}

/// A collection's own tracks are what is left of its tracks when some are taken
/// out: they are tracks of the collection, in the order in which the
/// collection holds them.
pub proof fn lemma_own_tracks_keep_their_order(tracks: Seq<TrackView>, children: Seq<Seq<Text>>)
    ensures
        is_left_of(own_tracks(tracks, children), tracks),
    decreases children.len(),
{
    if children.len() == 0 {
        let places = Seq::new(tracks.len(), |i: int| i);
        assert(places_in(places, tracks, tracks));
    } else {
        lemma_own_tracks_keep_their_order(tracks, children.drop_last());
        let before = own_tracks(tracks, children.drop_last());
        lemma_excluded_is_left(before, children.last());
        lemma_left_of_left(own_tracks(tracks, children), before, tracks);
    }
}

/// A collection's own tracks are tracks of the collection.
pub proof fn lemma_own_tracks_are_tracks(tracks: Seq<TrackView>, children: Seq<Seq<Text>>)
    ensures
        own_tracks(tracks, children).len() <= tracks.len(),
        forall|i: int|
            0 <= i < own_tracks(tracks, children).len() ==> tracks.contains(
                #[trigger] own_tracks(tracks, children)[i],
            ),
    decreases children.len(),
{
    if children.len() == 0 {
        assert forall|i: int| 0 <= i < tracks.len() implies tracks.contains(#[trigger] tracks[i]) by {}
    } else {
        lemma_own_tracks_are_tracks(tracks, children.drop_last());
        let before = own_tracks(tracks, children.drop_last());
        lemma_excluded_are_tracks(before, children.last());
        let after = own_tracks(tracks, children);
        assert forall|i: int| 0 <= i < after.len() implies tracks.contains(#[trigger] after[i]) by {
            assert(before.contains(after[i]));
            let j = choose|j: int| 0 <= j < before.len() && before[j] == after[i];
            assert(tracks.contains(before[j]));
        }
    }
}

/// What is left of tracks after some were taken out are tracks of before.
proof fn lemma_excluded_are_tracks(tracks: Seq<TrackView>, ids: Seq<Text>)
    ensures
        excluded(tracks, ids).len() <= tracks.len(),
        forall|i: int|
            0 <= i < excluded(tracks, ids).len() ==> tracks.contains(
                #[trigger] excluded(tracks, ids)[i],
            ),
    decreases ids.len(),
{
    if ids.len() == 0 {
        assert forall|i: int| 0 <= i < tracks.len() implies tracks.contains(#[trigger] tracks[i]) by {}
    } else {
        lemma_excluded_are_tracks(tracks, ids.drop_last());
        let before = excluded(tracks, ids.drop_last());
        let after = excluded(tracks, ids);
        assert forall|i: int| 0 <= i < after.len() implies tracks.contains(#[trigger] after[i]) by {
            if exists|position: int| is_first_match(before, ids.last(), position) {
                let position = choose|position: int| is_first_match(before, ids.last(), position);
                if i < position {
                    assert(after[i] == before[i]);
                } else {
                    assert(after[i] == before[i + 1]);
                }
            }
        }
    }
}

/// Where a collection holds no reference twice, its own tracks are exactly its
/// tracks whose reference no child holds, in their order.
pub proof fn lemma_own_tracks_are_a_filter(tracks: Seq<TrackView>, children: Seq<Seq<Text>>)
    requires
        distinct_references(tracks),
    ensures
        own_tracks(tracks, children) == tracks.filter(in_no_child(children)),
    decreases children.len(),
{
    if children.len() == 0 {
        assert forall|i: int| 0 <= i < tracks.len() implies in_no_child(children)(
            #[trigger] tracks[i],
        ) by {}
        crate::lists::lemma_filter_nothing_refused(tracks, in_no_child(children));
    } else {
        let init = children.drop_last();
        let last = children.last();
        lemma_own_tracks_are_a_filter(tracks, init);
        let before = tracks.filter(in_no_child(init));
        lemma_filter_keeps_references_apart(tracks, in_no_child(init));
        lemma_excluded_is_a_filter(before, last);
        assert forall|track: TrackView| #[trigger] in_no_child(children)(track) == (in_no_child(
            init,
        )(track) && none_of(last)(track)) by {
            let x = track.deezer_id;
            assert(children[children.len() - 1] == last);
            if in_no_child(children)(track) {
                assert forall|k: int| 0 <= k < init.len() implies !(#[trigger] init[k]).contains(
                    x,
                ) by {
                    assert(init[k] == children[k]);
                }
            }
            if in_no_child(init)(track) && none_of(last)(track) {
                assert forall|k: int| 0 <= k < children.len() implies !(
                #[trigger] children[k]).contains(x) by {
                    if k < init.len() {
                        assert(children[k] == init[k]);
                    }
                }
            }
        }
        lemma_filter_twice(tracks, in_no_child(init), none_of(last), in_no_child(children));
    }
}

/// Puts behind `tracks_to_add` the tracks of `child` that are neither among
/// `parent_ids` nor there yet, each once.
pub fn add_missing_tracks(tracks_to_add: &mut Vec<String>, parent_ids: &Vec<String>, child: &Playlist)
    ensures
        texts(final(tracks_to_add)@) == candidates(
            texts(parent_ids@),
            texts(old(tracks_to_add)@),
            track_ids(child@.tracks),
        ),
{
    let ghost start = texts(tracks_to_add@);
    let ghost incoming = track_ids(child@.tracks);
    let mut i: usize = 0;
    proof {
        assert(incoming.take(0) =~= Seq::empty());
    }
    while i < child.tracks.len()
        invariant
            i <= child.tracks.len(),
            incoming == track_ids(child@.tracks),
            incoming.len() == child.tracks.len(),
            texts(tracks_to_add@) == candidates(texts(parent_ids@), start, incoming.take(i as int)),
        decreases child.tracks.len() - i,
    {
        proof {
            assert(incoming.take(i + 1).drop_last() =~= incoming.take(i as int));
            assert(incoming.take(i + 1).last() == child.tracks[i as int]@.deezer_id);
        }
        let id = &child.tracks[i].deezer_id;
        if !contains_text(tracks_to_add, id) && !contains_text(parent_ids, id) {
            let ghost listed = texts(tracks_to_add@);
            tracks_to_add.push(id.clone());
            assert(texts(tracks_to_add@) =~= listed.push(id@));
        }
        i += 1;
    }
    proof {
        assert(incoming.take(child.tracks.len() as int) =~= incoming);
    }
}

/// The references of the tracks of `playlist`, in order.
pub fn playlist_track_ids(playlist: &Playlist) -> (ids: Vec<String>)
    ensures
        texts(ids@) == track_ids(playlist@.tracks),
{
    let mut ids: Vec<String> = Vec::new();
    let mut i: usize = 0;
    while i < playlist.tracks.len()
        invariant
            i <= playlist.tracks.len(),
            ids.len() == i,
            forall|j: int| 0 <= j < i ==> (#[trigger] ids[j])@ == playlist.tracks[j]@.deezer_id,
        decreases playlist.tracks.len() - i,
    {
        ids.push(playlist.tracks[i].deezer_id.clone());
        i += 1;
    }
    assert(texts(ids@) =~= track_ids(playlist@.tracks));
    ids
}

/// The tracks that `parent` lacks: those of `children`, child after child, that
/// `parent` does not hold, each once.
pub fn tracks_to_add(parent: &Playlist, children: &Vec<Playlist>) -> (r: Vec<String>)
    ensures
        texts(r@) == missing_tracks(track_ids(parent@.tracks), playlists_track_ids(children@)),
{
    let parent_ids = playlist_track_ids(parent);
    let mut tracks_to_add: Vec<String> = Vec::new();
    let ghost all = playlists_track_ids(children@);
    let mut i: usize = 0;
    proof {
        assert(all.take(0) =~= Seq::empty());
        assert(texts(tracks_to_add@) =~= Seq::empty());
    }
    while i < children.len()
        invariant
            i <= children.len(),
            all == playlists_track_ids(children@),
            texts(parent_ids@) == track_ids(parent@.tracks),
            texts(tracks_to_add@) == missing_tracks(track_ids(parent@.tracks), all.take(i as int)),
        decreases children.len() - i,
    {
        proof {
            assert(all.take(i + 1).drop_last() =~= all.take(i as int));
            assert(all.take(i + 1).last() == track_ids(children[i as int]@.tracks));
        }
        add_missing_tracks(&mut tracks_to_add, &parent_ids, &children[i]);
        i += 1;
    }
    proof {
        assert(all.take(children.len() as int) =~= all);
    }
    tracks_to_add
}

/// Takes the first track with the reference `id` out of `tracks`, if there is
/// one.
pub fn remove_first(tracks: &mut Vec<Track>, id: &String)
    ensures
        track_views(final(tracks)@) == without_first(track_views(old(tracks)@), id@),
{
    let ghost before = track_views(tracks@);
    let mut i: usize = 0;
    while i < tracks.len()
        invariant
            i <= tracks.len(),
            tracks@ == old(tracks)@,
            before == track_views(tracks@),
            forall|j: int| 0 <= j < i ==> (#[trigger] before[j]).deezer_id != id@,
        decreases tracks.len() - i,
    {
        if tracks[i].deezer_id == *id {
            proof {
                assert(before[i as int].deezer_id == id@);
                assert(is_first_match(before, id@, i as int));
                let chosen = choose|position: int| is_first_match(before, id@, position);
                assert(chosen == i) by {
                    if chosen < i {
                        assert(before[chosen].deezer_id != id@);
                    }
                    if i < chosen {
                        assert(before[i as int].deezer_id != id@);
                    }
                }
            }
            tracks.remove(i);
            assert(track_views(tracks@) =~= before.remove(i as int));
            return ;
        }
        i += 1;
    }
    proof {
        assert forall|position: int| !is_first_match(before, id@, position) by {
            if is_first_match(before, id@, position) {
                assert(before[position].deezer_id != id@);
            }
        }
    }
}

/// Takes out of `tracks`, for each track of `child` in turn, the first track
/// with the same reference.
pub fn exclude_tracks(tracks: &mut Vec<Track>, child: &Playlist)
    ensures
        track_views(final(tracks)@) == excluded(
            track_views(old(tracks)@),
            track_ids(child@.tracks),
        ),
{
    let ghost start = track_views(tracks@);
    let ghost ids = track_ids(child@.tracks);
    let mut i: usize = 0;
    proof {
        assert(ids.take(0) =~= Seq::empty());
    }
    while i < child.tracks.len()
        invariant
            i <= child.tracks.len(),
            ids == track_ids(child@.tracks),
            ids.len() == child.tracks.len(),
            track_views(tracks@) == excluded(start, ids.take(i as int)),
        decreases child.tracks.len() - i,
    {
        proof {
            assert(ids.take(i + 1).drop_last() =~= ids.take(i as int));
            assert(ids.take(i + 1).last() == child.tracks[i as int]@.deezer_id);
        }
        remove_first(tracks, &child.tracks[i].deezer_id);
        i += 1;
    }
    proof {
        assert(ids.take(child.tracks.len() as int) =~= ids);
    }
}

/// The tracks of `playlist` that are its own: what is left after the tracks of
/// each of `children`, child after child, have been taken out.
pub fn tracks_excluding_children(playlist: Playlist, children: &Vec<Playlist>) -> (r: Vec<Track>)
    ensures
        track_views(r@) == own_tracks(playlist@.tracks, playlists_track_ids(children@)),
{
    let mut tracks = playlist.tracks;
    let ghost all = playlists_track_ids(children@);
    let mut i: usize = 0;
    proof {
        assert(all.take(0) =~= Seq::empty());
    }
    while i < children.len()
        invariant
            i <= children.len(),
            all == playlists_track_ids(children@),
            track_views(tracks@) == own_tracks(playlist@.tracks, all.take(i as int)),
        decreases children.len() - i,
    {
        proof {
            assert(all.take(i + 1).drop_last() =~= all.take(i as int));
            assert(all.take(i + 1).last() == track_ids(children[i as int]@.tracks));
        }
        exclude_tracks(&mut tracks, &children[i]);
        i += 1;
    }
    proof {
        assert(all.take(children.len() as int) =~= all);
    }
    tracks
}

} // verus!
