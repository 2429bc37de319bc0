use crate::command::CommandView;
use crate::engine::{
    all_clips_dropped, child_dropped, child_pushed, clip_reshaped, clip_taken, clips_appended,
    holds_clip, pairs_added, removed, spec_track_disabled, stored, track_added, track_ids,
    track_index, track_removed, updated, audio_track_view, BackendView, KindView,
};
use crate::player::{stepped, ManagerView};
use crate::service::{lemma_first_index, master_id, seq_without, solo_state};
use crate::track::{clip_ids, clips_without, spec_disabled, ClipView};
use crate::laws::lemma_seq_without_absent;
use vstd::prelude::*;

verus! {

/// No two engine tracks share an id.
pub open spec fn unique_track_ids(s: Seq<BackendView>) -> bool {
    forall|i: int, j: int| 0 <= i < s.len() && 0 <= j < s.len() && i != j ==> s[i].id != s[j].id
}

pub proof fn lemma_track_index(s: Seq<BackendView>, id: Seq<char>)
    ensures
        0 <= track_index(s, id) <= s.len(),
        track_index(s, id) < s.len() ==> s[track_index(s, id)].id == id,
        track_index(s, id) == s.len() <==> !track_ids(s).contains(id),
        forall|j: int| 0 <= j < track_index(s, id) ==> s[j].id != id,
{
    lemma_first_index(track_ids(s), id);
    assert forall|j: int| 0 <= j < track_index(s, id) implies s[j].id != id by {
        assert(track_ids(s)[j] == s[j].id);
    }
    if track_index(s, id) < s.len() {
        assert(track_ids(s)[track_index(s, id)] == s[track_index(s, id)].id);
    }
}

pub proof fn lemma_update_keeps_unique(s: Seq<BackendView>, i: int, t: BackendView)
    requires
        unique_track_ids(s),
        0 <= i < s.len(),
        t.id == s[i].id,
    ensures
        unique_track_ids(s.update(i, t)),
        track_ids(s.update(i, t)) == track_ids(s),
{
    assert(track_ids(s.update(i, t)) =~= track_ids(s));
}

/// Replacing a track by `f` of it keeps ids unique when `f` keeps the id.
pub proof fn lemma_updated_keeps_unique(
    s: Seq<BackendView>,
    id: Seq<char>,
    f: spec_fn(BackendView) -> BackendView,
)
    requires
        unique_track_ids(s),
        forall|t: BackendView| #[trigger] f(t).id == t.id,
    ensures
        unique_track_ids(updated(s, id, f)),
        track_ids(updated(s, id, f)) == track_ids(s),
{
    lemma_track_index(s, id);
    let i = track_index(s, id);
    if i < s.len() {
        assert(f(s[i]).id == s[i].id);
        lemma_update_keeps_unique(s, i, f(s[i]));
    }
}

pub proof fn lemma_stored_keeps_unique(s: Seq<BackendView>, t: BackendView)
    requires
        unique_track_ids(s),
    ensures
        unique_track_ids(stored(s, t)),
{
    lemma_track_index(s, t.id);
    let i = track_index(s, t.id);
    if i < s.len() {
        lemma_update_keeps_unique(s, i, t);
    } else {
        let u = s.push(t);
        assert forall|a: int, b: int|
            0 <= a < u.len() && 0 <= b < u.len() && a != b implies u[a].id != u[b].id by {
            if a == s.len() as int {
                assert(track_ids(s)[b] == s[b].id);
            } else if b == s.len() as int {
                assert(track_ids(s)[a] == s[a].id);
            }
        }
    }
}

pub proof fn lemma_removed_keeps_unique(s: Seq<BackendView>, id: Seq<char>)
    requires
        unique_track_ids(s),
    ensures
        unique_track_ids(removed(s, id)),
{
    lemma_track_index(s, id);
    let i = track_index(s, id);
    if i < s.len() {
        let u = s.remove(i);
        assert forall|a: int, b: int|
            0 <= a < u.len() && 0 <= b < u.len() && a != b implies u[a].id != u[b].id by {
            let a2 = if a < i { a } else { a + 1 };
            let b2 = if b < i { b } else { b + 1 };
            assert(u[a] == s[a2]);
            assert(u[b] == s[b2]);
        }
    }
}

pub proof fn lemma_pairs_added_keeps_unique(s: Seq<BackendView>, p: Seq<(Seq<char>, Seq<ClipView>)>)
    requires
        unique_track_ids(s),
    ensures
        unique_track_ids(pairs_added(s, p)),
    decreases p.len(),
{
    if p.len() > 0 {
        lemma_pairs_added_keeps_unique(s, p.drop_last());
        let f = |t: BackendView| clips_appended(t, p.last().1);
        lemma_updated_keeps_unique(pairs_added(s, p.drop_last()), p.last().0, f);
    }
}

pub proof fn lemma_dropped_keeps_unique(s: Seq<BackendView>, ids: Seq<Seq<char>>)
    requires
        unique_track_ids(s),
    ensures
        unique_track_ids(all_clips_dropped(s, ids)),
{
    let u = all_clips_dropped(s, ids);
    assert forall|a: int, b: int|
        0 <= a < u.len() && 0 <= b < u.len() && a != b implies u[a].id != u[b].id by {
        assert(u[a].id == s[a].id);
        assert(u[b].id == s[b].id);
    }
}

/// Every message keeps the engine's track ids unique: an id never names two
/// tracks.
pub proof fn law_step_keeps_ids_unique(v: ManagerView, m: CommandView)
    requires
        unique_track_ids(v.engine.tracks),
    ensures
        unique_track_ids(stepped(v, m).0.engine.tracks),
{
    let s = v.engine.tracks;
    match m {
        CommandView::AddTrack(id) => {
            lemma_updated_keeps_unique(s, master_id(), |t: BackendView| child_pushed(t, id));
            lemma_stored_keeps_unique(
                updated(s, master_id(), |t: BackendView| child_pushed(t, id)),
                audio_track_view(id),
            );
        },
        CommandView::RemoveTrack(id) => {
            lemma_removed_keeps_unique(s, id);
            lemma_updated_keeps_unique(removed(s, id), master_id(), |t: BackendView| child_dropped(t, id));
        },
        CommandView::MuteTrack(id, muted) => {
            lemma_updated_keeps_unique(s, id, |t: BackendView| BackendView { muted, ..t });
        },
        CommandView::ChangeTrackVolume(id, volume_bits) => {
            lemma_updated_keeps_unique(s, id, |t: BackendView| BackendView { volume_bits, ..t });
        },
        CommandView::AddNode(t, i, e) => {
            lemma_updated_keeps_unique(
                s,
                t,
                |x: BackendView| BackendView { nodes: crate::engine::node_added(x.nodes, i as int, e), ..x },
            );
        },
        CommandView::RemoveNode(t, e) => {
            lemma_updated_keeps_unique(
                s,
                t,
                |x: BackendView| BackendView { nodes: crate::engine::node_removed(x.nodes, e), ..x },
            );
        },
        CommandView::SetNodeEnabled(t, e, en) => {
            lemma_updated_keeps_unique(
                s,
                t,
                |x: BackendView| BackendView { nodes: crate::engine::node_switched(x.nodes, e, en), ..x },
            );
        },
        CommandView::AddClip(t, c) => {
            lemma_updated_keeps_unique(s, t, |x: BackendView| clips_appended(x, seq![c]));
        },
        CommandView::AddClips(p) => {
            lemma_pairs_added_keeps_unique(s, p);
        },
        CommandView::RemoveClip(ids) => {
            lemma_dropped_keeps_unique(s, ids);
        },
        CommandView::MoveClip(c, t, pos) => {
            let k = crate::engine::clip_owner(s, c);
            crate::engine::lemma_clip_owner(s, c);
            if k < s.len() {
                let moved = ClipView { position_bits: pos, ..crate::engine::clip_of(s[k], c) };
                lemma_update_keeps_unique(s, k, clip_taken(s[k], c));
                lemma_updated_keeps_unique(
                    s.update(k, clip_taken(s[k], c)),
                    t,
                    |x: BackendView| clips_appended(x, seq![moved]),
                );
            }
        },
        CommandView::ResizeClip(c, ts, te, pos) => {
            let k = crate::engine::clip_owner(s, c);
            crate::engine::lemma_clip_owner(s, c);
            if k < s.len() {
                lemma_update_keeps_unique(s, k, clip_reshaped(s[k], c, ts, te, pos));
            }
        },
        CommandView::ResizeClips(t, p) => {
            lemma_updated_keeps_unique(s, t, |x: BackendView| crate::engine::trims_set(x, p));
        },
        CommandView::DuplicateTrack(id, new_id, map) => {
            if track_index(s, id) < s.len() {
                lemma_updated_keeps_unique(s, master_id(), |t: BackendView| child_pushed(t, new_id));
                lemma_stored_keeps_unique(
                    updated(s, master_id(), |t: BackendView| child_pushed(t, new_id)),
                    crate::engine::track_copy(s[track_index(s, id)], new_id, map),
                );
            }
        },
        _ => {},
    }
}

/// The engine silences a track exactly when the track list shows it disabled:
/// both read the same mute flag and soloed tracks.
pub proof fn law_disabled_agrees(muted: bool, id: Seq<char>, solo: Seq<Seq<char>>)
    ensures
        spec_track_disabled(muted, id, solo) == spec_disabled(muted, solo_state(solo, id)),
{
}

/// Once clips are removed by id, no audio track holds any of them.
pub proof fn law_removed_clips_gone(s: Seq<BackendView>, ids: Seq<Seq<char>>, c: Seq<char>)
    requires
        ids.contains(c),
    ensures
        forall|i: int| 0 <= i < s.len() ==> !holds_clip(#[trigger] all_clips_dropped(s, ids)[i], c),
{
    assert forall|i: int| 0 <= i < s.len() implies !holds_clip(#[trigger] all_clips_dropped(s, ids)[i], c) by {
        match s[i].kind {
            KindView::Audio(x) => {
                lemma_clips_without_excludes(x, ids, c);
            },
            _ => {},
        }
    }
}

pub proof fn lemma_clips_without_excludes(x: Seq<ClipView>, ids: Seq<Seq<char>>, c: Seq<char>)
    requires
        ids.contains(c),
    ensures
        !clip_ids(clips_without(x, ids)).contains(c),
    decreases x.len(),
{
    if x.len() > 0 {
        lemma_clips_without_excludes(x.drop_last(), ids, c);
        let r = clips_without(x.drop_last(), ids);
        if !ids.contains(x.last().id) {
            assert(clip_ids(r.push(x.last())) =~= clip_ids(r).push(x.last().id));
        }
    } else {
        assert(clip_ids(clips_without(x, ids)).len() == 0);
    }
}

/// Adding an audio track under a new id and removing it again gives back
/// the tracks as they were, when the master bus did not list that id.
pub proof fn law_add_then_remove_track(s: Seq<BackendView>, id: Seq<char>)
    requires
        unique_track_ids(s),
        !track_ids(s).contains(id),
        track_index(s, master_id()) < s.len() ==> match s[track_index(s, master_id())].kind {
            KindView::Bus(c) => !c.contains(id),
            _ => true,
        },
    ensures
        track_removed(track_added(s, id), id) == s,
{
    lemma_track_index(s, id);
    lemma_track_index(s, master_id());
    let f = |t: BackendView| child_pushed(t, id);
    let s1 = updated(s, master_id(), f);
    lemma_updated_keeps_unique(s, master_id(), f);
    lemma_track_index(s1, id);
    let s2 = s1.push(audio_track_view(id));
    assert(track_added(s, id) == s2);
    lemma_track_index(s2, id);
    assert(track_ids(s2) =~= track_ids(s1).push(id));
    lemma_first_index(track_ids(s2), id);
    assert(track_index(s2, id) == s1.len()) by {
        assert(track_ids(s2)[s1.len() as int] == id);
        assert forall|j: int| 0 <= j < s1.len() implies track_ids(s2)[j] != id by {
            assert(track_ids(s2)[j] == track_ids(s1)[j]);
            assert(track_ids(s1)[j] == track_ids(s)[j]);
        }
    }
    assert(removed(s2, id) =~= s1);
    let g = |t: BackendView| child_dropped(t, id);
    lemma_track_index(s1, master_id());
    let m = track_index(s, master_id());
    assert(track_index(s1, master_id()) == m);
    if m < s.len() {
        match s[m].kind {
            KindView::Bus(c) => {
                lemma_push_without(c, id);
                assert(g(f(s[m])) == s[m]);
                assert(updated(s1, master_id(), g) =~= s);
            },
            _ => {
                assert(updated(s1, master_id(), g) =~= s);
            },
        }
    } else {
        assert(updated(s1, master_id(), g) =~= s);
    }
}

/// Pushing `x` and then removing it gives back a sequence that did not hold it.
pub proof fn lemma_push_without(c: Seq<Seq<char>>, x: Seq<char>)
    requires
        !c.contains(x),
    ensures
        seq_without(c.push(x), x) == c,
{
    assert(c.push(x).drop_last() =~= c);
    lemma_seq_without_absent(c, x);
}


/// The state after the messages `cmds`, handled in order.
pub open spec fn replayed(v: ManagerView, cmds: Seq<CommandView>) -> ManagerView
    decreases cmds.len(),
{
    if cmds.len() == 0 {
        v
    } else {
        stepped(replayed(v, cmds.drop_last()), cmds.last()).0
    }
}

/// Storing a track leaves it where its id is found.
pub proof fn lemma_stored_found(s: Seq<BackendView>, t: BackendView)
    ensures
        track_index(stored(s, t), t.id) < stored(s, t).len(),
        stored(s, t)[track_index(stored(s, t), t.id)] == t,
        forall|j: int| 0 <= j < stored(s, t).len() && j != track_index(stored(s, t), t.id)
            ==> #[trigger] stored(s, t)[j] == (if j < s.len() { s[j] } else { t }),
        stored(s, t).len() >= s.len(),
        track_index(stored(s, t), t.id) == (if track_index(s, t.id) < s.len() {
            track_index(s, t.id)
        } else {
            s.len() as int
        }),
{
    lemma_track_index(s, t.id);
    let i = track_index(s, t.id);
    let u = stored(s, t);
    lemma_track_index(u, t.id);
    if i < s.len() {
        assert(u[i].id == t.id);
        assert forall|j: int| 0 <= j < i implies u[j].id != t.id by {
            assert(u[j] == s[j]);
        }
        assert(track_ids(u)[i] == t.id);
        lemma_first_index(track_ids(u), t.id);
        assert(track_index(u, t.id) == i);
    } else {
        assert(u[s.len() as int].id == t.id);
        assert(track_ids(u)[s.len() as int] == t.id);
        assert forall|j: int| 0 <= j < s.len() implies u[j].id != t.id by {
            assert(track_ids(s)[j] == s[j].id);
            assert(!track_ids(s).contains(t.id));
        }
        lemma_first_index(track_ids(u), t.id);
        assert(track_index(u, t.id) == s.len());
    }
}

/// Replaying on the audio engine the messages that inserting a track in the
/// project emits gives the engine an audio track under that id holding
/// exactly the track's clips, listed last under the master bus.
pub proof fn law_inserted_track_mirrored(v: ManagerView, t: crate::track::TrackView)
    requires
        t.id != master_id(),
        track_index(v.engine.tracks, master_id()) < v.engine.tracks.len(),
        v.engine.tracks[track_index(v.engine.tracks, master_id())].kind is Bus,
    ensures
        ({
            let s = replayed(v, crate::service::insert_commands(t)).engine.tracks;
            let i = track_index(s, t.id);
            let m = track_index(s, master_id());
            &&& i < s.len()
            &&& s[i].kind == KindView::Audio(t.clips)
            &&& m < s.len()
            &&& s[m].kind == KindView::Bus(
                v.engine.tracks[track_index(v.engine.tracks, master_id())].kind->Bus_0.push(t.id),
            )
        }),
{
    let cmds = crate::service::insert_commands(t);
    let s = v.engine.tracks;
    let f = |x: BackendView| child_pushed(x, t.id);
    let s1 = updated(s, master_id(), f);
    lemma_track_index(s, master_id());
    let m0 = track_index(s, master_id());
    assert(s1 == s.update(m0, child_pushed(s[m0], t.id)));
    assert(track_ids(s1) =~= track_ids(s));
    let s2 = stored(s1, audio_track_view(t.id));
    lemma_stored_found(s1, audio_track_view(t.id));
    let i = track_index(s2, t.id);
    // The master bus keeps its place, just before or after the new track.
    lemma_track_index(s1, master_id());
    assert(track_index(s1, master_id()) == m0);
    lemma_track_index(s1, t.id);
    assert(m0 != i) by {
        if track_index(s1, t.id) < s1.len() {
            assert(s1[track_index(s1, t.id)].id == t.id);
        }
    }
    assert(s2[m0] == s1[m0]);
    lemma_track_index(s2, master_id());
    assert(track_ids(s2)[m0] == master_id());
    lemma_first_index(track_ids(s2), master_id());
    assert forall|j: int| 0 <= j < m0 implies track_ids(s2)[j] != master_id() by {
        if j != i {
            assert(s2[j] == s1[j]);
            assert(track_ids(s1)[j] == s1[j].id);
        }
    }
    assert(track_index(s2, master_id()) == m0);
    let v1 = stepped(v, CommandView::AddTrack(t.id)).0;
    assert(cmds[0] == CommandView::AddTrack(t.id));
    let c1 = cmds.take(1);
    assert(c1.drop_last() =~= Seq::<CommandView>::empty());
    assert(replayed(v, c1.drop_last()) == v);
    assert(c1.last() == CommandView::AddTrack(t.id));
    assert(replayed(v, c1) == v1);
    assert(v1.engine.tracks == s2);
    if t.clips.len() > 0 {
        assert(cmds.len() == 2);
        assert(cmds.drop_last() =~= cmds.take(1));
        let p = seq![(t.id, t.clips)];
        assert(p.drop_last() =~= Seq::<(Seq<char>, Seq<ClipView>)>::empty());
        let s3 = pairs_added(s2, p);
        assert(pairs_added(s2, p.drop_last()) == s2);
        assert(p.last() == (t.id, t.clips));
        assert(s3 == s2.update(i, clips_appended(s2[i], t.clips)));
        assert(Seq::<ClipView>::empty() + t.clips =~= t.clips);
        assert(track_ids(s3) =~= track_ids(s2));
        assert(s3[m0] == s2[m0]);
    } else {
        assert(cmds =~= cmds.take(1));
        assert(t.clips =~= Seq::<ClipView>::empty());
    }
}

/// Once a track is removed, no track of the engine has its id, when ids were unique.
pub proof fn law_removed_track_gone(s: Seq<BackendView>, id: Seq<char>)
    requires
        unique_track_ids(s),
    ensures
        !track_ids(track_removed(s, id)).contains(id),
        track_removed(s, id).len() == (if track_ids(s).contains(id) { s.len() - 1 } else { s.len() as int }),
{
    lemma_track_index(s, id);
    let i = track_index(s, id);
    let r = removed(s, id);
    lemma_removed_keeps_unique(s, id);
    assert(!track_ids(r).contains(id)) by {
        if track_ids(r).contains(id) {
            let j = choose|j: int| 0 <= j < track_ids(r).len() && track_ids(r)[j] == id;
            assert(r[j].id == id);
            if i < s.len() {
                let j2 = if j < i { j } else { j + 1 };
                assert(r[j] == s[j2]);
                assert(s[i].id == id);
            } else {
                assert(r[j] == s[j]);
                assert(track_ids(s)[j] == id);
            }
        }
    }
    lemma_updated_keeps_unique(r, master_id(), |t: BackendView| child_dropped(t, id));
}
} // verus!
