use crate::action::{
    action_applied, action_undone, batch_applied, batch_undone, min_int,
    delete_clips_applied, delete_clips_undone, pair_ids, swapped_clips, ActionView, AddTrackView,
    DeleteClipsView, DeleteTrackView, DuplicateTrackView, EntryView, SetMutableTrackView,
    SetVolumeView,
};
use crate::command::CommandView;
use crate::service::{
    add_pairs, deleted, deleted_pairs, first_index, has_id, inserted, lemma_add_pairs_dom,
    lemma_first_index, lemma_map_of_index, seq_without, store_without_clips, toggled_solo,
    unique_ids, ServiceView,
};
use crate::state::{
    action_taken, pending_delete, recorded, pending_handled, pending_steps, redone, undone, StateView,
};
use crate::track::{clip_ids, clips_within, clips_without, ClipView, TrackView};
use vstd::prelude::*;

verus! {

/// Removing an element that a sequence does not hold leaves it unchanged.
pub proof fn lemma_seq_without_absent(s: Seq<Seq<char>>, x: Seq<char>)
    requires
        !s.contains(x),
    ensures
        seq_without(s, x) == s,
    decreases s.len(),
{
    if s.len() > 0 {
        assert(!s.drop_last().contains(x)) by {
            if s.drop_last().contains(x) {
                let k = choose|k: int| 0 <= k < s.drop_last().len() && s.drop_last()[k] == x;
                assert(s[k] == x);
            }
        }
        lemma_seq_without_absent(s.drop_last(), x);
        assert(s.last() != x) by {
            assert(s[s.len() - 1] == s.last());
        }
        assert(s.drop_last().push(s.last()) == s);
    }
}

/// What a pushed sequence holds.
pub proof fn lemma_push_contains(s: Seq<Seq<char>>, e: Seq<char>, y: Seq<char>)
    ensures
        s.push(e).contains(y) <==> s.contains(y) || e == y,
{
    if s.push(e).contains(y) {
        let k = choose|k: int| 0 <= k < s.push(e).len() && s.push(e)[k] == y;
        if k < s.len() {
            assert(s[k] == y);
        }
    }
    if s.contains(y) {
        let k = choose|k: int| 0 <= k < s.len() && s[k] == y;
        assert(s.push(e)[k] == y);
    }
    if e == y {
        assert(s.push(e)[s.len() as int] == y);
    }
}

/// The elements left by `seq_without` are those of the sequence other than `x`.
pub proof fn lemma_seq_without_contains(s: Seq<Seq<char>>, x: Seq<char>, y: Seq<char>)
    ensures
        seq_without(s, x).contains(y) <==> s.contains(y) && y != x,
    decreases s.len(),
{
    if s.len() > 0 {
        lemma_seq_without_contains(s.drop_last(), x, y);
        let rest = seq_without(s.drop_last(), x);
        assert(s.drop_last().push(s.last()) == s);
        lemma_push_contains(s.drop_last(), s.last(), y);
        lemma_push_contains(rest, s.last(), y);
    }
}

/// The first index of an element inserted at `i` into a sequence that did not hold it is `i`.
pub proof fn lemma_first_index_inserted(s: Seq<Seq<char>>, i: int, x: Seq<char>)
    requires
        0 <= i <= s.len(),
        !s.contains(x),
    ensures
        first_index(s.insert(i, x), x) == i,
{
    let n = s.insert(i, x);
    lemma_first_index(n, x);
    let f = first_index(n, x);
    assert(n[i] == x);
    if f < i {
        assert(n[f] == s[f]);
    }
}

/// Inserting a track whose id is new and then deleting it gives back the
/// tracks and the display order, and the selection and the solo list when
/// they did not name that id.
pub proof fn lemma_insert_then_delete(
    s0: ServiceView,
    t: TrackView,
    i: int,
    s1: ServiceView,
    s2: ServiceView,
    c0: Seq<CommandView>,
    c1: Seq<CommandView>,
    c2: Seq<CommandView>,
)
    requires
        0 <= i <= s0.order.len(),
        !s0.tracks().contains_key(t.id),
        !s0.order.contains(t.id),
        inserted(s0, t, i, s1, c0, c1),
        deleted(s1, t.id, s2, c1, c2),
    ensures
        s2.tracks() == s0.tracks(),
        s2.order == s0.order,
        !s0.selected.contains(t.id) ==> s2.selected == s0.selected,
        !s0.solo.contains(t.id) ==> s2.solo == s0.solo,
{
    lemma_first_index_inserted(s0.order, i, t.id);
    assert(s1.tracks().contains_key(t.id));
    assert(s2.tracks() =~= s0.tracks());
    assert(s0.order.insert(i, t.id).remove(i) =~= s0.order);
    if !s0.selected.contains(t.id) {
        lemma_seq_without_absent(s0.selected, t.id);
    }
    if !s0.solo.contains(t.id) {
        lemma_seq_without_absent(s0.solo, t.id);
    }
}

/// Adding a track with a new id (at any valid index) and undoing it gives
/// back the tracks, the display order and the undo stack, and the selection
/// and the solo list when they did not name that id; the addition waits on
/// the redo stack.
pub proof fn law_undo_add_track(v0: StateView, t: TrackView, index: usize, v1: StateView, v2: StateView)
    requires
        !v0.batching,
        index <= v0.service.order.len(),
        !v0.service.tracks().contains_key(t.id),
        !v0.service.order.contains(t.id),
        action_taken(v0, ActionView::AddTrack(AddTrackView { track: t, index }), v1),
        undone(v1, v2),
    ensures
        v2.service.tracks() == v0.service.tracks(),
        v2.service.order == v0.service.order,
        !v0.service.selected.contains(t.id) ==> v2.service.selected == v0.service.selected,
        !v0.service.solo.contains(t.id) ==> v2.service.solo == v0.service.solo,
        v2.undo == v0.undo,
        v2.redo == seq![EntryView::Single(ActionView::AddTrack(AddTrackView { track: t, index }))],
{
    let a = ActionView::AddTrack(AddTrackView { track: t, index });
    assert(v1.undo.last() == EntryView::Single(a));
    lemma_insert_then_delete(v0.service, t, index as int, v1.service, v2.service, v0.tx, v1.tx, v2.tx);
    assert(v2.redo =~= seq![EntryView::Single(a)]);
}

/// Adding a track with a new id, undoing it and redoing it gives back the
/// tracks and the display order right after the addition.
pub proof fn law_redo_add_track(
    v0: StateView,
    t: TrackView,
    index: usize,
    v1: StateView,
    v2: StateView,
    v3: StateView,
)
    requires
        !v0.batching,
        index <= v0.service.order.len(),
        !v0.service.tracks().contains_key(t.id),
        !v0.service.order.contains(t.id),
        action_taken(v0, ActionView::AddTrack(AddTrackView { track: t, index }), v1),
        undone(v1, v2),
        redone(v2, v3),
    ensures
        v3.service.tracks() == v1.service.tracks(),
        v3.service.order == v1.service.order,
        v3.undo == v1.undo,
        v3.redo.len() == 0,
{
    law_undo_add_track(v0, t, index, v1, v2);
    let a = ActionView::AddTrack(AddTrackView { track: t, index });
    assert(v1.undo.last() == EntryView::Single(a));
    assert(v2.redo.last() == EntryView::Single(a));
    assert(v3.undo.last() == EntryView::Single(a));
    assert(v3.undo == v3.undo.drop_last().push(v3.undo.last()));
    assert(v1.undo == v1.undo.drop_last().push(v1.undo.last()));
}

/// Deleting a track (at the update after the request) and undoing it gives
/// back the tracks and the display order.
pub proof fn law_undo_delete_track(id: Seq<char>, v0: StateView, v1: StateView, v2: StateView)
    requires
        !v0.batching,
        v0.service.order.len() <= usize::MAX,
        v0.pending == seq![id],
        pending_handled(v0.pending, v0.with_no_pending(), v1),
        undone(v1, v2),
    ensures
        v2.service.tracks() == v0.service.tracks(),
        v2.service.order == v0.service.order,
        v2.redo.len() > 0,
{
    let vs = choose|vs: Seq<StateView>|
        #[trigger] pending_steps(v0.pending, vs) && vs[0] == v0.with_no_pending() && vs.last()
            == v1;
    assert(v0.pending[0] == id);
    assert(action_taken(vs[0], pending_delete(id), vs[1]));
    assert(vs[1] == v1);
    let s0 = v0.service;
    let s1 = v1.service;
    let s2 = v2.service;
    let x = DeleteTrackView { id, deleted_track: None };
    assert(v1.undo.last() matches EntryView::Single(ActionView::DeleteTrack(_)));
    let y = v1.undo.last()->Single_0->DeleteTrack_0;
    assert(crate::action::delete_track_applied(x, y, s0, s1, vs[0].tx, v1.tx));
    assert(crate::action::delete_track_undone(y, s1, s2, v1.tx, v2.tx));
    let k = first_index(s0.order, id);
    if k < s0.order.len() && s0.tracks().contains_key(id) {
        lemma_first_index(s0.order, id);
        assert(y.deleted_track == Some((s0.tracks()[id], k as usize)));
        assert(s1.order.len() == s0.order.len() - 1);
        assert(crate::action::min_int(k, s1.order.len() as int) == k);
        assert(s2.tracks() =~= s0.tracks());
        assert(s0.order.remove(k).insert(k, id) =~= s0.order);
    }
}

/// Copying a track and undoing it gives back the tracks and the display
/// order, and the selection and the solo list when they did not name the
/// copy's id, provided the copy got an id that was new; the copy waits on
/// the redo stack.
pub proof fn law_undo_duplicate_track(
    id: Seq<char>,
    n: Seq<char>,
    v0: StateView,
    v1: StateView,
    v2: StateView,
)
    requires
        !v0.batching,
        action_taken(
            v0,
            ActionView::DuplicateTrack(DuplicateTrackView { id, duplicated_track: None }),
            v1,
        ),
        v1.undo.last() == EntryView::Single(
            ActionView::DuplicateTrack(DuplicateTrackView { id, duplicated_track: Some(n) }),
        ),
        !v0.service.tracks().contains_key(n),
        !v0.service.order.contains(n),
        undone(v1, v2),
    ensures
        v2.service.tracks() == v0.service.tracks(),
        v2.service.order == v0.service.order,
        !v0.service.selected.contains(n) ==> v2.service.selected == v0.service.selected,
        !v0.service.solo.contains(n) ==> v2.service.solo == v0.service.solo,
        v2.redo.len() > 0,
{
    let s0 = v0.service;
    let s1 = v1.service;
    let s2 = v2.service;
    let k = first_index(s0.order, id);
    lemma_first_index(s0.order, id);
    lemma_first_index_inserted(s0.order, k + 1, n);
    assert(s1.tracks().contains_key(n));
    assert(s2.tracks() =~= s0.tracks());
    assert(s0.order.insert(k + 1, n).remove(k + 1) =~= s0.order);
    if !s0.selected.contains(n) {
        lemma_seq_without_absent(s0.selected, n);
    }
    if !s0.solo.contains(n) {
        lemma_seq_without_absent(s0.solo, n);
    }
}

/// Committing a gain change from the current gain and undoing it gives back
/// the tracks.
pub proof fn law_undo_commit_volume(
    id: Seq<char>,
    old_volume_bits: u32,
    new_volume_bits: u32,
    v0: StateView,
    v1: StateView,
    v2: StateView,
)
    requires
        !v0.batching,
        v0.service.tracks().contains_key(id) ==> v0.service.tracks()[id].volume_bits
            == old_volume_bits,
        action_taken(
            v0,
            ActionView::SetVolume(SetVolumeView { track: id, old_volume_bits, new_volume_bits }),
            v1,
        ),
        undone(v1, v2),
    ensures
        v2.service.tracks() == v0.service.tracks(),
        v2.service.order == v0.service.order,
        v2.service.selected == v0.service.selected,
        v2.service.solo == v0.service.solo,
{
    let s0 = v0.service;
    if s0.tracks().contains_key(id) {
        assert(v2.service.tracks() =~= s0.tracks());
    }
}

/// Committing the edited fields of a track and undoing it leaves the track
/// with its previously committed fields, as editable and as committed ones.
pub proof fn law_undo_commit_track_mut(id: Seq<char>, v0: StateView, v1: StateView, v2: StateView)
    requires
        !v0.batching,
        v0.service.tracks().contains_key(id),
        action_taken(
            v0,
            ActionView::SetMutableTrack(
                SetMutableTrackView {
                    track: id,
                    old: v0.service.tracks()[id].old_mutable,
                    new: v0.service.tracks()[id].mutable,
                },
            ),
            v1,
        ),
        undone(v1, v2),
    ensures
        v2.service.tracks() == v0.service.tracks().insert(
            id,
            TrackView {
                mutable: v0.service.tracks()[id].old_mutable,
                ..v0.service.tracks()[id]
            },
        ),
        v2.service.order == v0.service.order,
{
    let t = v0.service.tracks()[id];
    assert(v2.service.tracks() =~= v0.service.tracks().insert(
        id,
        TrackView { mutable: t.old_mutable, ..t },
    ));
}

/// An undo followed by a redo leaves the two stacks as they were.
pub proof fn law_undo_then_redo_stacks(v0: StateView, v1: StateView, v2: StateView)
    requires
        v0.undo.len() > 0,
        undone(v0, v1),
        redone(v1, v2),
    ensures
        v2.undo.len() == v0.undo.len(),
        v2.undo.drop_last() == v0.undo.drop_last(),
        v2.redo == v0.redo,
{
    assert(v1.redo.last() == v0.undo.last());
    assert(v2.redo =~= v0.redo);
}

/// An action taken outside a batch lands on the undo stack and empties the redo stack.
pub proof fn law_action_clears_redo(v0: StateView, a: ActionView, v1: StateView)
    requires
        !v0.batching,
        action_taken(v0, a, v1),
    ensures
        v1.redo.len() == 0,
        v1.undo.len() == v0.undo.len() + 1,
        v1.undo.drop_last() == v0.undo,
{
}

/// Toggling the solo of a track twice with the modifier gives back the set of
/// soloed tracks.
pub proof fn law_solo_toggle_twice(solo: Seq<Seq<char>>, id: Seq<char>)
    requires
        solo.no_duplicates(),
    ensures
        toggled_solo(toggled_solo(solo, id, true), id, true).to_set() == solo.to_set(),
{
    if solo.contains(id) {
        let once = seq_without(solo, id);
        assert forall|y: Seq<char>| once.contains(y) <==> solo.contains(y) && y != id by {
            lemma_seq_without_contains(solo, id, y);
        }
        assert(!once.contains(id));
        assert(toggled_solo(once, id, true) == once.push(id));
        assert forall|y: Seq<char>| once.push(id).contains(y) <==> solo.contains(y) by {
            if once.push(id).contains(y) && y != id {
                let k = choose|k: int| 0 <= k < once.push(id).len() && once.push(id)[k] == y;
                assert(k < once.len());
                assert(once[k] == y);
            }
            if solo.contains(y) && y != id {
                let k = choose|k: int| 0 <= k < once.len() && once[k] == y;
                assert(once.push(id)[k] == y);
            }
            if y == id {
                assert(once.push(id)[once.len() as int] == id);
            }
        }
        assert(toggled_solo(toggled_solo(solo, id, true), id, true).to_set() =~= solo.to_set());
    } else {
        let once = solo.push(id);
        assert(once.contains(id)) by {
            assert(once[solo.len() as int] == id);
        }
        assert forall|y: Seq<char>| seq_without(once, id).contains(y) <==> solo.contains(y) by {
            lemma_seq_without_contains(once, id, y);
            if solo.contains(y) {
                let k = choose|k: int| 0 <= k < solo.len() && solo[k] == y;
                assert(once[k] == y);
            }
            if once.contains(y) && y != id {
                let k = choose|k: int| 0 <= k < once.len() && once[k] == y;
                assert(k < solo.len());
                assert(solo[k] == y);
            }
        }
        assert(toggled_solo(toggled_solo(solo, id, true), id, true).to_set() =~= solo.to_set());
    }
}

/// Toggling the solo of a track without the modifier leaves either no
/// soloed track or that track alone.
pub proof fn law_exclusive_solo(solo: Seq<Seq<char>>, id: Seq<char>)
    ensures
        toggled_solo(solo, id, false) == seq![id] || toggled_solo(solo, id, false).len() == 0,
        toggled_solo(solo, id, false) == seq![id] <==> !solo.contains(id),
{
    if !solo.contains(id) {
    } else {
        assert(toggled_solo(solo, id, false).len() == 0);
        assert(seq![id].len() == 1);
    }
}


/// The clips that the pairs of `p` naming the track `k` hold, in order.
pub open spec fn pairs_for(p: Seq<(Seq<char>, Seq<ClipView>)>, k: Seq<char>) -> Seq<ClipView>
    decreases p.len(),
{
    if p.len() == 0 {
        Seq::empty()
    } else if p.last().0 == k {
        pairs_for(p.drop_last(), k) + p.last().1
    } else {
        pairs_for(p.drop_last(), k)
    }
}

/// Adding the pairs `p` appends to the track `k` the clips of the pairs naming it.
pub proof fn lemma_add_pairs_at(m: Map<Seq<char>, TrackView>, p: Seq<(Seq<char>, Seq<ClipView>)>, k: Seq<char>)
    requires
        m.contains_key(k),
    ensures
        add_pairs(m, p).contains_key(k),
        add_pairs(m, p)[k] == (TrackView { clips: m[k].clips + pairs_for(p, k), ..m[k] }),
    decreases p.len(),
{
    if p.len() == 0 {
        assert(m[k].clips + Seq::<ClipView>::empty() =~= m[k].clips);
    } else {
        lemma_add_pairs_at(m, p.drop_last(), k);
        lemma_add_pairs_dom(m, p.drop_last());
        let m1 = add_pairs(m, p.drop_last());
        if p.last().0 == k {
            assert(m[k].clips + pairs_for(p.drop_last(), k) + p.last().1 =~= m[k].clips + (pairs_for(
                p.drop_last(),
                k,
            ) + p.last().1));
        }
    }
}

/// When no track of `s` has the id `k`, no deleted pair names it.
pub proof fn lemma_deleted_pairs_absent(s: Seq<TrackView>, ids: Seq<Seq<char>>, k: Seq<char>)
    requires
        forall|j: int| 0 <= j < s.len() ==> s[j].id != k,
    ensures
        pairs_for(deleted_pairs(s, ids), k) == Seq::<ClipView>::empty(),
    decreases s.len(),
{
    if s.len() > 0 {
        lemma_deleted_pairs_absent(s.drop_last(), ids, k);
        let rest = deleted_pairs(s.drop_last(), ids);
        let w = clips_within(s.last().clips, ids);
        if w.len() > 0 {
            assert(rest.push((s.last().id, w)).drop_last() == rest);
        }
    }
}

/// The deleted pairs naming a stored track hold exactly the clips it lost.
pub proof fn lemma_deleted_pairs_for(s: Seq<TrackView>, ids: Seq<Seq<char>>, i: int)
    requires
        unique_ids(s),
        0 <= i < s.len(),
    ensures
        pairs_for(deleted_pairs(s, ids), s[i].id) == clips_within(s[i].clips, ids),
    decreases s.len(),
{
    let rest = deleted_pairs(s.drop_last(), ids);
    let w = clips_within(s.last().clips, ids);
    let k = s[i].id;
    if i == s.len() - 1 {
        lemma_deleted_pairs_absent(s.drop_last(), ids, k);
        if w.len() > 0 {
            assert(rest.push((s.last().id, w)).drop_last() == rest);
            assert(Seq::<ClipView>::empty() + w =~= w);
        } else {
            assert(w =~= Seq::<ClipView>::empty());
        }
    } else {
        assert(s.drop_last()[i] == s[i]);
        lemma_deleted_pairs_for(s.drop_last(), ids, i);
        if w.len() > 0 {
            assert(rest.push((s.last().id, w)).drop_last() == rest);
            assert(s.last().id != k);
        }
    }
}

/// Splitting clips by id and putting the two parts end to end keeps every clip.
pub proof fn lemma_split_clips_multiset(c: Seq<ClipView>, ids: Seq<Seq<char>>)
    ensures
        (clips_without(c, ids) + clips_within(c, ids)).to_multiset() == c.to_multiset(),
    decreases c.len(),
{
    broadcast use vstd::seq_lib::lemma_multiset_commutative, vstd::seq_lib::group_to_multiset_ensures;

    if c.len() == 0 {
        assert(clips_without(c, ids) + clips_within(c, ids) =~= Seq::<ClipView>::empty());
        assert(c =~= Seq::<ClipView>::empty());
    } else {
        lemma_split_clips_multiset(c.drop_last(), ids);
        let a = clips_without(c.drop_last(), ids);
        let b = clips_within(c.drop_last(), ids);
        assert(c.drop_last().push(c.last()) == c);
        vstd::seq_lib::lemma_multiset_commutative(a, b);
        if ids.contains(c.last().id) {
            vstd::seq_lib::lemma_multiset_commutative(a, b.push(c.last()));
            assert((a + b.push(c.last())).to_multiset() =~= (a + b).to_multiset().insert(c.last()));
        } else {
            vstd::seq_lib::lemma_multiset_commutative(a.push(c.last()), b);
            assert((a.push(c.last()) + b).to_multiset() =~= (a + b).to_multiset().insert(c.last()));
        }
    }
}

/// Deleting clips by id and undoing the deletion gives every track back all
/// its clips: those kept, then those deleted, each part in its old order; the
/// track list and every other field are as before.
pub proof fn law_undo_delete_clips(
    a0: DeleteClipsView,
    a1: DeleteClipsView,
    s0: ServiceView,
    s1: ServiceView,
    s2: ServiceView,
    c0: Seq<CommandView>,
    c1: Seq<CommandView>,
    c2: Seq<CommandView>,
)
    requires
        unique_ids(s0.store),
        delete_clips_applied(a0, a1, s0, s1, c0, c1),
        delete_clips_undone(a1, s1, s2, c1, c2),
    ensures
        s2.tracks().dom() == s0.tracks().dom(),
        forall|k: Seq<char>| #[trigger] s2.tracks().contains_key(k) ==> s2.tracks()[k] == (TrackView {
            clips: clips_without(s0.tracks()[k].clips, a0.ids) + clips_within(s0.tracks()[k].clips, a0.ids),
            ..s0.tracks()[k]
        }),
        forall|k: Seq<char>| #[trigger] s2.tracks().contains_key(k) ==> s2.tracks()[k].clips.to_multiset()
            == s0.tracks()[k].clips.to_multiset(),
        s2.order == s0.order,
        s2.solo == s0.solo,
        s2.selected == s0.selected,
{
    let ids = a0.ids;
    let st0 = s0.store;
    let st1 = s1.store;
    let p = a1.deleted_clips;
    assert(st1 == store_without_clips(st0, ids));
    crate::service::lemma_same_ids_unique(st0, st1);
    assert forall|k: Seq<char>| has_id(st1, k) <==> has_id(st0, k) by {
        if has_id(st0, k) {
            let j = choose|j: int| 0 <= j < st0.len() && st0[j].id == k;
            assert(st1[j].id == k);
        }
        if has_id(st1, k) {
            let j = choose|j: int| 0 <= j < st1.len() && st1[j].id == k;
            assert(st0[j].id == k);
        }
    }
    assert(s1.tracks().dom() =~= s0.tracks().dom());
    if p.len() > 0 {
        lemma_add_pairs_dom(s1.tracks(), p);
    }
    assert(s2.tracks().dom() =~= s0.tracks().dom());
    assert forall|k: Seq<char>| #[trigger] s2.tracks().contains_key(k) implies s2.tracks()[k] == (TrackView {
        clips: clips_without(s0.tracks()[k].clips, ids) + clips_within(s0.tracks()[k].clips, ids),
        ..s0.tracks()[k]
    }) && s2.tracks()[k].clips.to_multiset() == s0.tracks()[k].clips.to_multiset() by {
        assert(has_id(st0, k));
        let i = choose|i: int| 0 <= i < st0.len() && st0[i].id == k;
        lemma_map_of_index(st0, i);
        lemma_map_of_index(st1, i);
        lemma_deleted_pairs_for(st0, ids, i);
        let c = st0[i].clips;
        if p.len() > 0 {
            lemma_add_pairs_at(s1.tracks(), p, k);
        } else {
            assert(clips_within(c, ids) =~= Seq::<ClipView>::empty());
            assert(clips_without(c, ids) + clips_within(c, ids) =~= clips_without(c, ids));
        }
        lemma_split_clips_multiset(c, ids);
    }
}

/// Taking out clips by id works part by part on two lists put end to end.
pub proof fn lemma_without_concat(x: Seq<ClipView>, y: Seq<ClipView>, ids: Seq<Seq<char>>)
    ensures
        clips_without(x + y, ids) == clips_without(x, ids) + clips_without(y, ids),
    decreases y.len(),
{
    if y.len() == 0 {
        assert(x + y =~= x);
        assert(clips_without(x, ids) + clips_without(y, ids) =~= clips_without(x, ids));
    } else {
        lemma_without_concat(x, y.drop_last(), ids);
        assert((x + y).drop_last() =~= x + y.drop_last());
        assert((x + y).last() == y.last());
        if !ids.contains(y.last().id) {
            assert(clips_without(x, ids) + clips_without(y.drop_last(), ids).push(y.last()) =~= (
            clips_without(x, ids) + clips_without(y.drop_last(), ids)).push(y.last()));
        }
    }
}

/// Taking out clips by ids that none of them has changes nothing.
pub proof fn lemma_without_none(x: Seq<ClipView>, ids: Seq<Seq<char>>)
    requires
        forall|j: int| 0 <= j < x.len() ==> !ids.contains(#[trigger] x[j].id),
    ensures
        clips_without(x, ids) == x,
    decreases x.len(),
{
    if x.len() > 0 {
        lemma_without_none(x.drop_last(), ids);
        assert(x.drop_last().push(x.last()) =~= x);
    }
}

/// Taking out clips by ids that all of them have leaves nothing.
pub proof fn lemma_without_all(x: Seq<ClipView>, ids: Seq<Seq<char>>)
    requires
        forall|j: int| 0 <= j < x.len() ==> ids.contains(#[trigger] x[j].id),
    ensures
        clips_without(x, ids) == Seq::<ClipView>::empty(),
    decreases x.len(),
{
    if x.len() > 0 {
        lemma_without_all(x.drop_last(), ids);
        assert(ids.contains(x[x.len() - 1].id));
    }
}

/// Every clip of the pairs of `p` naming `k` has its id among those of `p`.
pub proof fn lemma_pairs_for_ids(p: Seq<(Seq<char>, Seq<ClipView>)>, k: Seq<char>)
    ensures
        forall|j: int| 0 <= j < pairs_for(p, k).len() ==> pair_ids(p).contains(#[trigger] pairs_for(p, k)[j].id),
    decreases p.len(),
{
    if p.len() > 0 {
        lemma_pairs_for_ids(p.drop_last(), k);
        let a = pair_ids(p.drop_last());
        let b = clip_ids(p.last().1);
        assert(pair_ids(p) == a + b);
        assert forall|j: int| 0 <= j < pairs_for(p, k).len() implies pair_ids(p).contains(
            #[trigger] pairs_for(p, k)[j].id,
        ) by {
            let r = pairs_for(p.drop_last(), k);
            if p.last().0 == k && j >= r.len() {
                let q = j - r.len();
                assert(pairs_for(p, k)[j] == p.last().1[q]);
                assert(b[q] == p.last().1[q].id);
                assert((a + b)[a.len() + q] == b[q]);
            } else {
                assert(pairs_for(p, k)[j] == r[j]);
                let w = choose|w: int| 0 <= w < a.len() && a[w] == r[j].id;
                assert((a + b)[w] == a[w]);
            }
        }
    }
}

/// Clips taken out by no id at all: nothing changes.
pub proof fn lemma_without_empty_ids(x: Seq<ClipView>)
    ensures
        clips_without(x, Seq::<Seq<char>>::empty()) == x,
{
    lemma_without_none(x, Seq::<Seq<char>>::empty());
}

/// What a clip swap does to one track: the clips whose id is among those of
/// `out` leave, and the clips of the pairs of `inn` naming the track come last.
pub proof fn lemma_swapped_at(
    out: Seq<(Seq<char>, Seq<ClipView>)>,
    inn: Seq<(Seq<char>, Seq<ClipView>)>,
    s0: ServiceView,
    s1: ServiceView,
    c0: Seq<CommandView>,
    c1: Seq<CommandView>,
)
    requires
        unique_ids(s0.store),
        swapped_clips(out, inn, s0, s1, c0, c1),
    ensures
        s1.tracks().dom() == s0.tracks().dom(),
        forall|k: Seq<char>| #[trigger] s1.tracks().contains_key(k) ==> s1.tracks()[k] == (TrackView {
            clips: clips_without(s0.tracks()[k].clips, pair_ids(out)) + pairs_for(inn, k),
            ..s0.tracks()[k]
        }),
        s1.order == s0.order,
        s1.solo == s0.solo,
        s1.selected == s0.selected,
{
    let st0 = s0.store;
    let mid = if out.len() > 0 {
        ServiceView { store: store_without_clips(st0, pair_ids(out)), ..s0 }
    } else {
        s0
    };
    if out.len() == 0 {
        assert(pair_ids(out) =~= Seq::<Seq<char>>::empty());
    }
    crate::service::lemma_same_ids_unique(st0, store_without_clips(st0, pair_ids(out)));
    assert forall|k: Seq<char>| has_id(mid.store, k) <==> has_id(st0, k) by {
        if out.len() > 0 {
            if has_id(st0, k) {
                let j = choose|j: int| 0 <= j < st0.len() && st0[j].id == k;
                assert(mid.store[j].id == k);
            }
            if has_id(mid.store, k) {
                let j = choose|j: int| 0 <= j < mid.store.len() && mid.store[j].id == k;
                assert(st0[j].id == k);
            }
        }
    }
    assert(mid.tracks().dom() =~= s0.tracks().dom());
    if inn.len() > 0 {
        lemma_add_pairs_dom(mid.tracks(), inn);
    }
    assert(s1.tracks().dom() =~= s0.tracks().dom());
    assert forall|k: Seq<char>| #[trigger] s1.tracks().contains_key(k) implies s1.tracks()[k] == (TrackView {
        clips: clips_without(s0.tracks()[k].clips, pair_ids(out)) + pairs_for(inn, k),
        ..s0.tracks()[k]
    }) by {
        assert(has_id(st0, k));
        let i = choose|i: int| 0 <= i < st0.len() && st0[i].id == k;
        lemma_map_of_index(st0, i);
        lemma_map_of_index(mid.store, i);
        let c = st0[i].clips;
        if out.len() == 0 {
            lemma_without_empty_ids(c);
        }
        assert(mid.tracks()[k] == (TrackView { clips: clips_without(c, pair_ids(out)), ..st0[i] }));
        if inn.len() > 0 {
            lemma_add_pairs_at(mid.tracks(), inn, k);
        } else {
            assert(pairs_for(inn, k) =~= Seq::<ClipView>::empty());
            assert(clips_without(c, pair_ids(out)) + pairs_for(inn, k) =~= clips_without(c, pair_ids(out)));
        }
    }
}

/// A timeline edit of clips, applied and then undone, gives every track back
/// all its clips (those kept, then those the edit took out), when the edit
/// recorded the clips it takes out with their tracks and its new clips do
/// not share an id with a clip that stays.
pub proof fn law_undo_clip_edit(
    e: crate::action::ClipEditView,
    s0: ServiceView,
    s1: ServiceView,
    s2: ServiceView,
    c0: Seq<CommandView>,
    c1: Seq<CommandView>,
    c2: Seq<CommandView>,
)
    requires
        unique_ids(s0.store),
        unique_ids(s1.store),
        forall|k: Seq<char>| #[trigger] s0.tracks().contains_key(k) ==> pairs_for(e.deleted, k)
            == clips_within(s0.tracks()[k].clips, pair_ids(e.deleted)),
        forall|k: Seq<char>, j: int| #[trigger] s0.tracks().contains_key(k) && 0 <= j < clips_without(
            s0.tracks()[k].clips,
            pair_ids(e.deleted),
        ).len() ==> !pair_ids(e.added).contains(
            #[trigger] clips_without(s0.tracks()[k].clips, pair_ids(e.deleted))[j].id,
        ),
        swapped_clips(e.deleted, e.added, s0, s1, c0, c1),
        swapped_clips(e.added, e.deleted, s1, s2, c1, c2),
    ensures
        s2.tracks().dom() == s0.tracks().dom(),
        forall|k: Seq<char>| #[trigger] s2.tracks().contains_key(k) ==> s2.tracks()[k] == (TrackView {
            clips: clips_without(s0.tracks()[k].clips, pair_ids(e.deleted)) + clips_within(
                s0.tracks()[k].clips,
                pair_ids(e.deleted),
            ),
            ..s0.tracks()[k]
        }),
        forall|k: Seq<char>| #[trigger] s2.tracks().contains_key(k) ==> s2.tracks()[k].clips.to_multiset()
            == s0.tracks()[k].clips.to_multiset(),
        s2.order == s0.order,
        s2.solo == s0.solo,
        s2.selected == s0.selected,
{
    let d = pair_ids(e.deleted);
    let a = pair_ids(e.added);
    lemma_swapped_at(e.deleted, e.added, s0, s1, c0, c1);
    lemma_swapped_at(e.added, e.deleted, s1, s2, c1, c2);
    assert forall|k: Seq<char>| #[trigger] s2.tracks().contains_key(k) implies s2.tracks()[k] == (TrackView {
        clips: clips_without(s0.tracks()[k].clips, d) + clips_within(s0.tracks()[k].clips, d),
        ..s0.tracks()[k]
    }) && s2.tracks()[k].clips.to_multiset() == s0.tracks()[k].clips.to_multiset() by {
        let c = s0.tracks()[k].clips;
        let kept = clips_without(c, d);
        let added = pairs_for(e.added, k);
        assert(s1.tracks()[k].clips == kept + added);
        lemma_without_concat(kept, added, a);
        assert forall|j: int| 0 <= j < kept.len() implies !a.contains(#[trigger] kept[j].id) by {}
        lemma_without_none(kept, a);
        lemma_pairs_for_ids(e.added, k);
        lemma_without_all(added, a);
        assert(clips_without(kept + added, a) =~= kept);
        lemma_split_clips_multiset(c, d);
    }
}

/// The master track is stored and, as it should be, kept out of the track list.
pub open spec fn master_ok(s: ServiceView) -> bool {
    &&& s.tracks().contains_key(crate::service::master_id())
    &&& !s.order.contains(crate::service::master_id())
}

/// Whether the action brings no track named like the master into the track
/// list, either when applied or when undone.
pub open spec fn spares_master(a: ActionView) -> bool {
    match a {
        ActionView::AddTrack(x) => x.track.id != crate::service::master_id(),
        ActionView::DeleteTrack(x) => x.deleted_track matches Some(d) ==> d.0.id
            != crate::service::master_id(),
        _ => true,
    }
}

pub proof fn lemma_insert_contains(s: Seq<Seq<char>>, i: int, x: Seq<char>, y: Seq<char>)
    requires
        0 <= i <= s.len(),
    ensures
        s.insert(i, x).contains(y) <==> (s.contains(y) || y == x),
{
    let u = s.insert(i, x);
    if u.contains(y) {
        let j = choose|j: int| 0 <= j < u.len() && u[j] == y;
        if j < i {
            assert(s[j] == y);
        } else if j > i {
            assert(s[j - 1] == y);
        }
    }
    if s.contains(y) {
        let j = choose|j: int| 0 <= j < s.len() && s[j] == y;
        if j < i {
            assert(u[j] == y);
        } else {
            assert(u[j + 1] == y);
        }
    }
    if y == x {
        assert(u[i] == y);
    }
}

pub proof fn lemma_remove_contains(s: Seq<Seq<char>>, i: int, y: Seq<char>)
    requires
        0 <= i < s.len(),
        !s.contains(y),
    ensures
        !s.remove(i).contains(y),
{
    let u = s.remove(i);
    if u.contains(y) {
        let j = choose|j: int| 0 <= j < u.len() && u[j] == y;
        if j < i {
            assert(s[j] == y);
        } else {
            assert(s[j + 1] == y);
        }
    }
}

/// Inserting a track other than the master keeps the master where it should be.
pub proof fn lemma_inserted_master(
    s0: ServiceView,
    t: TrackView,
    index: int,
    s1: ServiceView,
    c0: Seq<CommandView>,
    c1: Seq<CommandView>,
)
    requires
        master_ok(s0),
        0 <= index <= s0.order.len(),
        t.id != crate::service::master_id(),
        inserted(s0, t, index, s1, c0, c1),
    ensures
        master_ok(s1),
{
    lemma_insert_contains(s0.order, index, t.id, crate::service::master_id());
}

/// Deleting a track keeps the master where it should be.
pub proof fn lemma_deleted_master(
    s0: ServiceView,
    id: Seq<char>,
    s1: ServiceView,
    c0: Seq<CommandView>,
    c1: Seq<CommandView>,
)
    requires
        master_ok(s0),
        deleted(s0, id, s1, c0, c1),
    ensures
        master_ok(s1),
{
    let k = first_index(s0.order, id);
    lemma_first_index(s0.order, id);
    if k < s0.order.len() && s0.tracks().contains_key(id) {
        assert(s0.order[k] == id);
        assert(id != crate::service::master_id());
        lemma_remove_contains(s0.order, k, crate::service::master_id());
    }
}

/// A swap of clips keeps the stored tracks and the track list.
pub proof fn lemma_swapped_dom(
    out: Seq<(Seq<char>, Seq<ClipView>)>,
    inn: Seq<(Seq<char>, Seq<ClipView>)>,
    s0: ServiceView,
    s1: ServiceView,
    c0: Seq<CommandView>,
    c1: Seq<CommandView>,
)
    requires
        swapped_clips(out, inn, s0, s1, c0, c1),
    ensures
        s1.tracks().dom() == s0.tracks().dom(),
        s1.order == s0.order,
{
    let st0 = s0.store;
    let mid = if out.len() > 0 {
        ServiceView { store: store_without_clips(st0, pair_ids(out)), ..s0 }
    } else {
        s0
    };
    assert forall|k: Seq<char>| has_id(mid.store, k) <==> has_id(st0, k) by {
        if out.len() > 0 {
            if has_id(st0, k) {
                let j = choose|j: int| 0 <= j < st0.len() && st0[j].id == k;
                assert(mid.store[j].id == k);
            }
            if has_id(mid.store, k) {
                let j = choose|j: int| 0 <= j < mid.store.len() && mid.store[j].id == k;
                assert(st0[j].id == k);
            }
        }
    }
    assert(mid.tracks().dom() =~= s0.tracks().dom());
    if inn.len() > 0 {
        lemma_add_pairs_dom(mid.tracks(), inn);
    }
}

/// Applying or undoing one action keeps the master track stored and out of
/// the track list, unless the action brings a track named like it.
pub proof fn law_action_keeps_master(
    a0: ActionView,
    a1: ActionView,
    s0: ServiceView,
    s1: ServiceView,
    s2: ServiceView,
    c0: Seq<CommandView>,
    c1: Seq<CommandView>,
    c2: Seq<CommandView>,
)
    requires
        master_ok(s0),
        spares_master(a0),
    ensures
        action_applied(a0, a1, s0, s1, c0, c1) ==> master_ok(s1) && spares_master(a1),
        spares_master(a0) && action_undone(a0, s0, s2, c0, c2) ==> master_ok(s2),
{
    let m = crate::service::master_id();
    if action_applied(a0, a1, s0, s1, c0, c1) {
        match a0 {
            ActionView::AddTrack(x) => {
                lemma_inserted_master(s0, x.track, min_int(x.index as int, s0.order.len() as int), s1, c0, c1);
            },
            ActionView::DeleteTrack(x) => {
                lemma_deleted_master(s0, x.id, s1, c0, c1);
                let y = a1->DeleteTrack_0;
                let k = first_index(s0.order, x.id);
                lemma_first_index(s0.order, x.id);
                if k < s0.order.len() && s0.tracks().contains_key(x.id) {
                    assert(s0.order[k] == x.id);
                    let i = choose|i: int| 0 <= i < s0.store.len() && s0.store[i].id == x.id;
                    assert(s0.tracks()[x.id].id == x.id);
                }
            },
            ActionView::DuplicateTrack(x) => {
                let y = a1->DuplicateTrack_0;
                let k = first_index(s0.order, x.id);
                lemma_first_index(s0.order, x.id);
                if k < s0.order.len() && s0.tracks().contains_key(x.id) {
                    let n = y.duplicated_track->0;
                    assert(n != m) by {
                        assert(m.len() == 6);
                    }
                    lemma_insert_contains(s0.order, k + 1, n, m);
                }
            },
            ActionView::SetVolume(x) => {
            },
            ActionView::SetMutableTrack(x) => {
            },
            ActionView::DeleteClips(x) => {
                let st1 = s1.store;
                assert forall|k: Seq<char>| has_id(st1, k) <==> has_id(s0.store, k) by {
                    if has_id(s0.store, k) {
                        let j = choose|j: int| 0 <= j < s0.store.len() && s0.store[j].id == k;
                        assert(st1[j].id == k);
                    }
                    if has_id(st1, k) {
                        let j = choose|j: int| 0 <= j < st1.len() && st1[j].id == k;
                        assert(s0.store[j].id == k);
                    }
                }
                assert(has_id(s0.store, m));
            },
            ActionView::ClipEdit(x) => {
                lemma_swapped_dom(x.deleted, x.added, s0, s1, c0, c1);
            },
        }
    }
    if action_undone(a0, s0, s2, c0, c2) {
        match a0 {
            ActionView::AddTrack(x) => {
                lemma_deleted_master(s0, x.track.id, s2, c0, c2);
            },
            ActionView::DeleteTrack(x) => {
                match x.deleted_track {
                    Some(d) => {
                        lemma_inserted_master(s0, d.0, min_int(d.1 as int, s0.order.len() as int), s2, c0, c2);
                    },
                    None => {},
                }
            },
            ActionView::DuplicateTrack(x) => {
                match x.duplicated_track {
                    Some(n) => {
                        lemma_deleted_master(s0, n, s2, c0, c2);
                    },
                    None => {},
                }
            },
            ActionView::SetVolume(x) => {},
            ActionView::SetMutableTrack(x) => {},
            ActionView::DeleteClips(x) => {
                if x.deleted_clips.len() > 0 {
                    lemma_add_pairs_dom(s0.tracks(), x.deleted_clips);
                }
            },
            ActionView::ClipEdit(x) => {
                lemma_swapped_dom(x.added, x.deleted, s0, s2, c0, c2);
            },
        }
    }
}

/// A batch applied keeps the master track stored and out of the track list,
/// unless one of its actions brings a track named like it.
pub proof fn law_batch_applied_keeps_master(
    a0: Seq<ActionView>,
    a1: Seq<ActionView>,
    s0: ServiceView,
    s1: ServiceView,
    c0: Seq<CommandView>,
    c1: Seq<CommandView>,
)
    requires
        master_ok(s0),
        forall|i: int| 0 <= i < a0.len() ==> spares_master(#[trigger] a0[i]),
        batch_applied(a0, a1, s0, s1, c0, c1),
    ensures
        master_ok(s1),
        forall|i: int| 0 <= i < a1.len() ==> spares_master(#[trigger] a1[i]),
    decreases a0.len(),
{
    if a0.len() > 0 {
        let (sm, cm) = choose|sm: ServiceView, cm: Seq<CommandView>|
            batch_applied(a0.drop_last(), a1.drop_last(), s0, sm, c0, cm) && action_applied(
                a0.last(),
                a1.last(),
                sm,
                s1,
                cm,
                c1,
            );
        assert forall|i: int| 0 <= i < a0.drop_last().len() implies spares_master(
            #[trigger] a0.drop_last()[i],
        ) by {
            assert(a0.drop_last()[i] == a0[i]);
        }
        law_batch_applied_keeps_master(a0.drop_last(), a1.drop_last(), s0, sm, c0, cm);
        assert(spares_master(a0[a0.len() - 1]));
        law_action_keeps_master(a0.last(), a1.last(), sm, s1, sm, cm, c1, cm);
        assert forall|i: int| 0 <= i < a1.len() implies spares_master(#[trigger] a1[i]) by {
            if i < a1.len() - 1 {
                assert(a1[i] == a1.drop_last()[i]);
            }
        }
    } else {
        assert(a1.len() == 0);
    }
}

/// A batch undone keeps the master track stored and out of the track list,
/// unless one of its actions brings a track named like it.
pub proof fn law_batch_undone_keeps_master(
    a: Seq<ActionView>,
    s0: ServiceView,
    s1: ServiceView,
    c0: Seq<CommandView>,
    c1: Seq<CommandView>,
)
    requires
        master_ok(s0),
        forall|i: int| 0 <= i < a.len() ==> spares_master(#[trigger] a[i]),
        batch_undone(a, s0, s1, c0, c1),
    ensures
        master_ok(s1),
    decreases a.len(),
{
    if a.len() > 0 {
        let (sm, cm) = choose|sm: ServiceView, cm: Seq<CommandView>|
            action_undone(a.last(), s0, sm, c0, cm) && batch_undone(a.drop_last(), sm, s1, cm, c1);
        assert(spares_master(a[a.len() - 1]));
        law_action_keeps_master(a.last(), a.last(), s0, s0, sm, c0, c0, cm);
        assert forall|i: int| 0 <= i < a.drop_last().len() implies spares_master(
            #[trigger] a.drop_last()[i],
        ) by {
            assert(a.drop_last()[i] == a[i]);
        }
        law_batch_undone_keeps_master(a.drop_last(), sm, s1, cm, c1);
    }
}

/// Deleting clips by id from the service (`TrackService::delete_clips`) and
/// adding back the pairs it returned (`TrackService::add_clips_skip_overlap_check`)
/// gives every track back all its clips (those kept, then those
/// deleted, each part in its old order); the track list, the selection and
/// the solo list are as before.
pub proof fn law_readd_deleted_clips(
    s0: ServiceView,
    ids: Seq<Seq<char>>,
    r: Seq<(Seq<char>, Seq<ClipView>)>,
    s1: ServiceView,
    s2: ServiceView,
    c0: Seq<CommandView>,
    c1: Seq<CommandView>,
    c2: Seq<CommandView>,
)
    requires
        unique_ids(s0.store),
        crate::service::clips_deleted(s0, ids, r, s1, c0, c1),
        crate::service::clips_added(s1, r, s2, c1, c2),
    ensures
        s2.tracks().dom() == s0.tracks().dom(),
        forall|k: Seq<char>| #[trigger] s2.tracks().contains_key(k) ==> s2.tracks()[k] == (TrackView {
            clips: clips_without(s0.tracks()[k].clips, ids) + clips_within(s0.tracks()[k].clips, ids),
            ..s0.tracks()[k]
        }),
        forall|k: Seq<char>| #[trigger] s2.tracks().contains_key(k) ==> s2.tracks()[k].clips.to_multiset()
            == s0.tracks()[k].clips.to_multiset(),
        s2.order == s0.order,
        s2.solo == s0.solo,
        s2.selected == s0.selected,
{
    let st0 = s0.store;
    let st1 = s1.store;
    crate::service::lemma_same_ids_unique(st0, st1);
    assert forall|k: Seq<char>| has_id(st1, k) <==> has_id(st0, k) by {
        if has_id(st0, k) {
            let j = choose|j: int| 0 <= j < st0.len() && st0[j].id == k;
            assert(st1[j].id == k);
        }
        if has_id(st1, k) {
            let j = choose|j: int| 0 <= j < st1.len() && st1[j].id == k;
            assert(st0[j].id == k);
        }
    }
    assert(s1.tracks().dom() =~= s0.tracks().dom());
    lemma_add_pairs_dom(s1.tracks(), r);
    assert(s2.tracks().dom() =~= s0.tracks().dom());
    assert forall|k: Seq<char>| #[trigger] s2.tracks().contains_key(k) implies s2.tracks()[k] == (TrackView {
        clips: clips_without(s0.tracks()[k].clips, ids) + clips_within(s0.tracks()[k].clips, ids),
        ..s0.tracks()[k]
    }) && s2.tracks()[k].clips.to_multiset() == s0.tracks()[k].clips.to_multiset() by {
        assert(has_id(st0, k));
        let i = choose|i: int| 0 <= i < st0.len() && st0[i].id == k;
        lemma_map_of_index(st0, i);
        lemma_map_of_index(st1, i);
        lemma_deleted_pairs_for(st0, ids, i);
        lemma_add_pairs_at(s1.tracks(), r, k);
        lemma_split_clips_multiset(st0[i].clips, ids);
    }
}

/// An undo moves one entry from the undo stack to the redo stack, and a redo
/// moves one back, when there is one: the two stacks together keep their size.
pub proof fn law_history_counts(v0: StateView, v1: StateView, v2: StateView)
    requires
        undone(v0, v1),
        redone(v0, v2),
    ensures
        v1.undo.len() == if v0.undo.len() > 0 { v0.undo.len() - 1 } else { 0 },
        v1.redo.len() == if v0.undo.len() > 0 { v0.redo.len() + 1 } else { v0.redo.len() },
        v2.redo.len() == if v0.redo.len() > 0 { v0.redo.len() - 1 } else { 0 },
        v2.undo.len() == if v0.redo.len() > 0 { v0.undo.len() + 1 } else { v0.undo.len() },
{
}

/// Two services that agree on the stored tracks, the track list, the
/// selection and the solo list.
pub open spec fn same_tracks(x: ServiceView, y: ServiceView) -> bool {
    &&& x.tracks() == y.tracks()
    &&& x.order == y.order
    &&& x.selected == y.selected
    &&& x.solo == y.solo
}

/// Whether every action of `a` adds a track at the last position.
pub open spec fn all_appends(a: Seq<ActionView>) -> bool {
    forall|i: int| 0 <= i < a.len() ==> (#[trigger] a[i] matches ActionView::AddTrack(x) && x.index
        == usize::MAX)
}

/// The ids of the tracks that the additions of `a` add, in order.
pub open spec fn appended_ids(a: Seq<ActionView>) -> Seq<Seq<char>> {
    Seq::new(a.len(), |i: int| a[i]->AddTrack_0.track.id)
}

/// The tracks `m` after the additions of `a`, in order.
pub open spec fn tracks_after_appends(m: Map<Seq<char>, TrackView>, a: Seq<ActionView>) -> Map<
    Seq<char>,
    TrackView,
>
    decreases a.len(),
{
    if a.len() == 0 {
        m
    } else {
        let t = a.last()->AddTrack_0.track;
        tracks_after_appends(m, a.drop_last()).insert(t.id, t)
    }
}

/// A batch of additions at the last position, once applied, lists the new
/// tracks last, in the order of the calls.
pub proof fn law_batch_appends(
    a0: Seq<ActionView>,
    a1: Seq<ActionView>,
    s0: ServiceView,
    s1: ServiceView,
    c0: Seq<CommandView>,
    c1: Seq<CommandView>,
)
    requires
        all_appends(a0),
        s0.order.len() + a0.len() <= usize::MAX,
        batch_applied(a0, a1, s0, s1, c0, c1),
    ensures
        s1.order == s0.order + appended_ids(a0),
        s1.tracks() == tracks_after_appends(s0.tracks(), a0),
        s1.selected == s0.selected,
        s1.solo == s0.solo,
        a1 == a0,
    decreases a0.len(),
{
    if a0.len() == 0 {
        assert(s0.order + appended_ids(a0) =~= s0.order);
        assert(a1 =~= a0);
    } else {
        let (sm, cm) = choose|sm: ServiceView, cm: Seq<CommandView>|
            batch_applied(a0.drop_last(), a1.drop_last(), s0, sm, c0, cm) && action_applied(
                a0.last(),
                a1.last(),
                sm,
                s1,
                cm,
                c1,
            );
        assert(all_appends(a0.drop_last())) by {
            assert forall|i: int| 0 <= i < a0.drop_last().len() implies (#[trigger] a0.drop_last()[i] matches ActionView::AddTrack(x)
                && x.index == usize::MAX) by {
                assert(a0.drop_last()[i] == a0[i]);
            }
        }
        law_batch_appends(a0.drop_last(), a1.drop_last(), s0, sm, c0, cm);
        assert(a0[a0.len() - 1] matches ActionView::AddTrack(x) && x.index == usize::MAX);
        let t = a0.last()->AddTrack_0.track;
        assert(sm.order.len() == s0.order.len() + a0.len() - 1);
        assert(min_int(usize::MAX as int, sm.order.len() as int) == sm.order.len());
        assert(sm.order.insert(sm.order.len() as int, t.id) =~= sm.order.push(t.id));
        assert(appended_ids(a0) =~= appended_ids(a0.drop_last()).push(t.id));
        assert(s1.order =~= s0.order + appended_ids(a0));
        assert(a1 =~= a0) by {
            assert(a1.drop_last().push(a1.last()) =~= a1);
            assert(a0.drop_last().push(a0.last()) =~= a0);
        }
    }
}

/// Inserting a track whose id is new and deleting it from a service that
/// agrees with the result gives back the first service's tracks, list,
/// selection and solo list.
pub proof fn lemma_insert_then_delete_same(
    s0: ServiceView,
    t: TrackView,
    i: int,
    s1: ServiceView,
    x: ServiceView,
    s2: ServiceView,
    c0: Seq<CommandView>,
    c1: Seq<CommandView>,
    cx: Seq<CommandView>,
    c2: Seq<CommandView>,
)
    requires
        0 <= i <= s0.order.len(),
        !s0.tracks().contains_key(t.id),
        !s0.order.contains(t.id),
        !s0.selected.contains(t.id),
        !s0.solo.contains(t.id),
        inserted(s0, t, i, s1, c0, c1),
        same_tracks(x, s1),
        deleted(x, t.id, s2, cx, c2),
    ensures
        same_tracks(s2, s0),
{
    lemma_first_index_inserted(s0.order, i, t.id);
    assert(x.tracks().contains_key(t.id));
    assert(s2.tracks() =~= s0.tracks());
    assert(s0.order.insert(i, t.id).remove(i) =~= s0.order);
    lemma_seq_without_absent(s0.selected, t.id);
    lemma_seq_without_absent(s0.solo, t.id);
}

/// Whether every action of `a` adds a track (at any index).
pub open spec fn all_adds(a: Seq<ActionView>) -> bool {
    forall|i: int| 0 <= i < a.len() ==> (#[trigger] a[i] is AddTrack)
}

/// A batch of track additions, once applied, holds the tracks it added and
/// those before, and lists exactly the ids listed before and those added.
pub proof fn law_batch_adds(
    a0: Seq<ActionView>,
    a1: Seq<ActionView>,
    s0: ServiceView,
    s1: ServiceView,
    c0: Seq<CommandView>,
    c1: Seq<CommandView>,
)
    requires
        all_adds(a0),
        batch_applied(a0, a1, s0, s1, c0, c1),
    ensures
        forall|k: Seq<char>| #[trigger] s1.order.contains(k) <==> (s0.order.contains(k)
            || appended_ids(a0).contains(k)),
        s1.order.len() == s0.order.len() + a0.len(),
        s1.tracks() == tracks_after_appends(s0.tracks(), a0),
        s1.selected == s0.selected,
        s1.solo == s0.solo,
        a1 == a0,
    decreases a0.len(),
{
    if a0.len() == 0 {
        assert(a1 =~= a0);
    } else {
        let (sm, cm) = choose|sm: ServiceView, cm: Seq<CommandView>|
            batch_applied(a0.drop_last(), a1.drop_last(), s0, sm, c0, cm) && action_applied(
                a0.last(),
                a1.last(),
                sm,
                s1,
                cm,
                c1,
            );
        let d = a0.drop_last();
        assert(all_adds(d)) by {
            assert forall|i: int| 0 <= i < d.len() implies (#[trigger] d[i] is AddTrack) by {
                assert(d[i] == a0[i]);
            }
        }
        law_batch_adds(d, a1.drop_last(), s0, sm, c0, cm);
        assert(a0[a0.len() - 1] is AddTrack);
        let x = a0.last()->AddTrack_0;
        let t = x.track;
        let idx = min_int(x.index as int, sm.order.len() as int);
        assert(appended_ids(a0) =~= appended_ids(d).push(t.id));
        assert forall|k: Seq<char>| #[trigger] s1.order.contains(k) <==> (s0.order.contains(k)
            || appended_ids(a0).contains(k)) by {
            lemma_insert_contains(sm.order, idx, t.id, k);
            assert(sm.order.contains(k) <==> (s0.order.contains(k) || appended_ids(d).contains(k)));
            if appended_ids(a0).contains(k) && k != t.id {
                let j = choose|j: int| 0 <= j < appended_ids(a0).len() && appended_ids(a0)[j] == k;
                assert(appended_ids(d)[j] == k);
            }
            if appended_ids(d).contains(k) {
                let j = choose|j: int| 0 <= j < appended_ids(d).len() && appended_ids(d)[j] == k;
                assert(appended_ids(a0)[j] == k);
            }
            if k == t.id {
                assert(appended_ids(a0)[a0.len() - 1] == k);
            }
        }
        assert(a1 =~= a0) by {
            assert(a1.drop_last().push(a1.last()) =~= a1);
            assert(a0.drop_last().push(a0.last()) =~= a0);
        }
    }
}

/// A batch of track additions (each at any index), applied and then undone
/// in one step, gives back the tracks, the list, the selection and the solo
/// list, when the tracks added have new ids, all different.
pub proof fn law_batch_adds_undone(
    a0: Seq<ActionView>,
    a1: Seq<ActionView>,
    s0: ServiceView,
    s1: ServiceView,
    x: ServiceView,
    s2: ServiceView,
    c0: Seq<CommandView>,
    c1: Seq<CommandView>,
    cx: Seq<CommandView>,
    c2: Seq<CommandView>,
)
    requires
        all_adds(a0),
        forall|i: int, j: int| 0 <= i < j < a0.len() ==> appended_ids(a0)[i] != appended_ids(a0)[j],
        forall|i: int| 0 <= i < a0.len() ==> {
            let k = #[trigger] appended_ids(a0)[i];
            &&& !s0.tracks().contains_key(k)
            &&& !s0.order.contains(k)
            &&& !s0.selected.contains(k)
            &&& !s0.solo.contains(k)
        },
        batch_applied(a0, a1, s0, s1, c0, c1),
        same_tracks(x, s1),
        batch_undone(a1, x, s2, cx, c2),
    ensures
        same_tracks(s2, s0),
    decreases a0.len(),
{
    law_batch_adds(a0, a1, s0, s1, c0, c1);
    if a0.len() > 0 {
        let (sm, cm) = choose|sm: ServiceView, cm: Seq<CommandView>|
            batch_applied(a0.drop_last(), a1.drop_last(), s0, sm, c0, cm) && action_applied(
                a0.last(),
                a1.last(),
                sm,
                s1,
                cm,
                c1,
            );
        let (xm, cxm) = choose|xm: ServiceView, cxm: Seq<CommandView>|
            action_undone(a1.last(), x, xm, cx, cxm) && batch_undone(a1.drop_last(), xm, s2, cxm, c2);
        let d = a0.drop_last();
        assert(all_adds(d)) by {
            assert forall|i: int| 0 <= i < d.len() implies (#[trigger] d[i] is AddTrack) by {
                assert(d[i] == a0[i]);
            }
        }
        assert forall|i: int| 0 <= i < d.len() implies appended_ids(d)[i] == appended_ids(a0)[i] by {}
        law_batch_adds(d, a1.drop_last(), s0, sm, c0, cm);
        assert(a0[a0.len() - 1] is AddTrack);
        let y = a0.last()->AddTrack_0;
        let t = y.track;
        let n = a0.len() - 1;
        assert(appended_ids(a0)[n] == t.id);
        assert(!appended_ids(d).contains(t.id)) by {
            if appended_ids(d).contains(t.id) {
                let j = choose|j: int| 0 <= j < d.len() && appended_ids(d)[j] == t.id;
                assert(appended_ids(a0)[j] != appended_ids(a0)[n]);
            }
        }
        assert(!sm.order.contains(t.id));
        assert(!sm.tracks().contains_key(t.id)) by {
            lemma_appends_dom(s0.tracks(), d, t.id);
            if sm.tracks().contains_key(t.id) {
                let j = choose|j: int| 0 <= j < d.len() && appended_ids(d)[j] == t.id;
                assert(appended_ids(d).contains(t.id));
            }
        }
        assert(a1.last() == a0.last());
        lemma_insert_then_delete_same(
            sm,
            t,
            min_int(y.index as int, sm.order.len() as int),
            s1,
            x,
            xm,
            cm,
            c1,
            cx,
            cxm,
        );
        assert forall|i: int, j: int| 0 <= i < j < d.len() implies appended_ids(d)[i] != appended_ids(d)[j] by {
            assert(appended_ids(d)[i] == appended_ids(a0)[i]);
            assert(appended_ids(d)[j] == appended_ids(a0)[j]);
        }
        assert forall|i: int| 0 <= i < d.len() implies {
            let k = #[trigger] appended_ids(d)[i];
            &&& !s0.tracks().contains_key(k)
            &&& !s0.order.contains(k)
            &&& !s0.selected.contains(k)
            &&& !s0.solo.contains(k)
        } by {
            assert(appended_ids(d)[i] == appended_ids(a0)[i]);
        }
        law_batch_adds_undone(d, a1.drop_last(), s0, sm, xm, s2, c0, cm, cxm, c2);
    }
}

/// The tracks after the additions of `a` are those of `m` and those added.
pub proof fn lemma_appends_dom(m: Map<Seq<char>, TrackView>, a: Seq<ActionView>, k: Seq<char>)
    ensures
        tracks_after_appends(m, a).contains_key(k) <==> (m.contains_key(k) || exists|j: int|
            0 <= j < a.len() && appended_ids(a)[j] == k),
    decreases a.len(),
{
    if a.len() > 0 {
        lemma_appends_dom(m, a.drop_last(), k);
        let n = a.len() - 1;
        assert(appended_ids(a)[n] == a.last()->AddTrack_0.track.id);
        if exists|j: int| 0 <= j < a.drop_last().len() && appended_ids(a.drop_last())[j] == k {
            let j = choose|j: int| 0 <= j < a.drop_last().len() && appended_ids(a.drop_last())[j] == k;
            assert(a.drop_last()[j] == a[j]);
            assert(appended_ids(a)[j] == k);
        }
        if exists|j: int| 0 <= j < a.len() && appended_ids(a)[j] == k {
            let j = choose|j: int| 0 <= j < a.len() && appended_ids(a)[j] == k;
            if j < n {
                assert(a.drop_last()[j] == a[j]);
                assert(appended_ids(a.drop_last())[j] == k);
            }
        }
    }
}

/// Committing a batch of track additions at the last position lists the new
/// tracks last, in the order of the calls; undoing the batch in one step then
/// gives back the tracks, the list, the selection and the solo list, when
/// the tracks added have new ids, all different.
pub proof fn law_commit_batch_of_adds(vb: StateView, v2: StateView, v3: StateView)
    requires
        all_appends(vb.batch),
        vb.service.order.len() + vb.batch.len() <= usize::MAX,
        recorded(
            StateView { batching: false, batch: Seq::empty(), ..vb },
            EntryView::Batch(vb.batch),
            v2,
        ),
    ensures
        v2.service.order == vb.service.order + appended_ids(vb.batch),
        v2.service.selected == vb.service.selected,
        v2.service.solo == vb.service.solo,
        v2.redo.len() == 0,
        !v2.batching,
        (forall|i: int, j: int|
            0 <= i < j < vb.batch.len() ==> appended_ids(vb.batch)[i] != appended_ids(vb.batch)[j])
            && (forall|i: int| 0 <= i < vb.batch.len() ==> {
            let k = #[trigger] appended_ids(vb.batch)[i];
            &&& !vb.service.tracks().contains_key(k)
            &&& !vb.service.order.contains(k)
            &&& !vb.service.selected.contains(k)
            &&& !vb.service.solo.contains(k)
        }) && undone(v2, v3) ==> same_tracks(v3.service, vb.service) && v3.undo == vb.undo,
{
    let b0 = vb.batch;
    let b1 = v2.undo.last()->Batch_0;
    law_batch_appends(b0, b1, vb.service, v2.service, vb.tx, v2.tx);
    if (forall|i: int, j: int|
        0 <= i < j < b0.len() ==> appended_ids(b0)[i] != appended_ids(b0)[j]) && (forall|i: int|
        0 <= i < b0.len() ==> {
            let k = #[trigger] appended_ids(b0)[i];
            &&& !vb.service.tracks().contains_key(k)
            &&& !vb.service.order.contains(k)
            &&& !vb.service.selected.contains(k)
            &&& !vb.service.solo.contains(k)
        }) && undone(v2, v3) {
        assert(all_adds(b0)) by {
            assert forall|i: int| 0 <= i < b0.len() implies (#[trigger] b0[i] is AddTrack) by {
                assert(b0[i] matches ActionView::AddTrack(y) && y.index == usize::MAX);
            }
        }
        law_batch_adds_undone(b0, b1, vb.service, v2.service, v2.service, v3.service, vb.tx, v2.tx, v2.tx, v3.tx);
    }
}

/// Deleting a track (at the update after the request), undoing it and
/// redoing it gives back the tracks and the display order right after the
/// deletion.
pub proof fn law_redo_delete_track(id: Seq<char>, v0: StateView, v1: StateView, v2: StateView, v3: StateView)
    requires
        !v0.batching,
        v0.service.order.len() <= usize::MAX,
        v0.pending == seq![id],
        pending_handled(v0.pending, v0.with_no_pending(), v1),
        undone(v1, v2),
        redone(v2, v3),
    ensures
        v3.service.tracks() == v1.service.tracks(),
        v3.service.order == v1.service.order,
        v3.redo == v1.redo,
{
    law_undo_delete_track(id, v0, v1, v2);
    let vs = choose|vs: Seq<StateView>|
        #[trigger] pending_steps(v0.pending, vs) && vs[0] == v0.with_no_pending() && vs.last()
            == v1;
    assert(v0.pending[0] == id);
    assert(action_taken(vs[0], pending_delete(id), vs[1]));
    assert(vs[1] == v1);
    let s0 = v0.service;
    let s1 = v1.service;
    let s2 = v2.service;
    let s3 = v3.service;
    let e = v1.undo.last();
    assert(e matches EntryView::Single(ActionView::DeleteTrack(_)));
    let y = e->Single_0->DeleteTrack_0;
    assert(y.id == id);
    assert(v2.redo.last() == e);
    assert(v3.undo.last() matches EntryView::Single(ActionView::DeleteTrack(_)));
    let z = v3.undo.last()->Single_0->DeleteTrack_0;
    assert(crate::action::delete_track_applied(y, z, s2, s3, v2.tx, v3.tx));
    assert(deleted(s2, id, s3, v2.tx, v3.tx));
    assert(deleted(s0, id, s1, vs[0].tx, v1.tx));
    assert(s3.tracks() =~= s1.tracks());
    assert(s3.order =~= s1.order);
    assert(v3.redo =~= v1.redo);
}

/// One call on the history: an action taken outside a batch, an undo or a redo.
pub enum HistoryStep {
    Act(ActionView),
    Undo,
    Redo,
}

/// `v1` is `v0` after the call `s`.
pub open spec fn history_step(v0: StateView, s: HistoryStep, v1: StateView) -> bool {
    match s {
        HistoryStep::Act(a) => !v0.batching && action_taken(v0, a, v1),
        HistoryStep::Undo => undone(v0, v1),
        HistoryStep::Redo => redone(v0, v1),
    }
}

/// How many entries can be undone and redone after the calls `steps`, from
/// `u` and `r`: an action adds one to undo and clears redo; an undo or a
/// redo with something to take moves one entry across.
pub open spec fn stack_counts(u: nat, r: nat, steps: Seq<HistoryStep>) -> (nat, nat)
    decreases steps.len(),
{
    if steps.len() == 0 {
        (u, r)
    } else {
        let (a, b) = stack_counts(u, r, steps.drop_last());
        match steps.last() {
            HistoryStep::Act(_) => (a + 1, 0),
            HistoryStep::Undo => if a > 0 {
                ((a - 1) as nat, b + 1)
            } else {
                (a, b)
            },
            HistoryStep::Redo => if b > 0 {
                (a + 1, (b - 1) as nat)
            } else {
                (a, b)
            },
        }
    }
}

/// Along any sequence of actions, undos and redos, the entries that can be
/// undone and redone are counted by `stack_counts`: `can_undo` and
/// `can_redo` tell whether those counts are above zero.
pub proof fn law_history_sequence(steps: Seq<HistoryStep>, vs: Seq<StateView>)
    requires
        vs.len() == steps.len() + 1,
        forall|i: int| 0 <= i < steps.len() ==> history_step(#[trigger] vs[i], steps[i], vs[i + 1]),
    ensures
        (vs.last().undo.len(), vs.last().redo.len()) == stack_counts(
            vs[0].undo.len(),
            vs[0].redo.len(),
            steps,
        ),
    decreases steps.len(),
{
    if steps.len() > 0 {
        let n = steps.len() - 1;
        let ws = vs.drop_last();
        assert forall|i: int| 0 <= i < steps.drop_last().len() implies history_step(
            #[trigger] ws[i],
            steps.drop_last()[i],
            ws[i + 1],
        ) by {
            assert(ws[i] == vs[i] && ws[i + 1] == vs[i + 1] && steps.drop_last()[i] == steps[i]);
        }
        law_history_sequence(steps.drop_last(), ws);
        assert(history_step(vs[n], steps[n], vs[n + 1]));
        assert(ws.last() == vs[n]);
        assert(vs.last() == vs[n + 1]);
    }
}

/// Committing a batch of track additions (`add_track` or `add_track_at`, at
/// any index) and undoing once gives back the tracks, the list, the
/// selection, the solo list and the undo stack, when the tracks added have
/// new ids, all different; the batch then waits on the redo stack.
pub proof fn law_commit_batch_undone(vb: StateView, v2: StateView, v3: StateView)
    requires
        all_adds(vb.batch),
        forall|i: int, j: int|
            0 <= i < j < vb.batch.len() ==> appended_ids(vb.batch)[i] != appended_ids(vb.batch)[j],
        forall|i: int| 0 <= i < vb.batch.len() ==> {
            let k = #[trigger] appended_ids(vb.batch)[i];
            &&& !vb.service.tracks().contains_key(k)
            &&& !vb.service.order.contains(k)
            &&& !vb.service.selected.contains(k)
            &&& !vb.service.solo.contains(k)
        },
        recorded(
            StateView { batching: false, batch: Seq::empty(), ..vb },
            EntryView::Batch(vb.batch),
            v2,
        ),
        undone(v2, v3),
    ensures
        same_tracks(v3.service, vb.service),
        v3.undo == vb.undo,
        v3.redo.len() > 0,
{
    let b0 = vb.batch;
    let b1 = v2.undo.last()->Batch_0;
    law_batch_adds_undone(b0, b1, vb.service, v2.service, v2.service, v3.service, vb.tx, v2.tx, v2.tx, v3.tx);
}

/// Deleting a track from the service and inserting the track it returned at
/// the position it returned gives back the tracks and the display order.
pub proof fn law_delete_then_insert(
    s0: ServiceView,
    id: Seq<char>,
    t: TrackView,
    pos: int,
    s1: ServiceView,
    s2: ServiceView,
    c0: Seq<CommandView>,
    c1: Seq<CommandView>,
    c2: Seq<CommandView>,
)
    requires
        deleted(s0, id, s1, c0, c1),
        first_index(s0.order, id) < s0.order.len(),
        s0.tracks().contains_key(id),
        t == s0.tracks()[id],
        pos == first_index(s0.order, id),
        inserted(s1, t, pos, s2, c1, c2),
    ensures
        s2.tracks() == s0.tracks(),
        s2.order == s0.order,
        s2.order.len() == s0.order.len(),
{
    lemma_first_index(s0.order, id);
    let k = pos;
    assert(s0.order[k] == id);
    assert(t.id == id);
    assert(s2.tracks() =~= s0.tracks());
    assert(s0.order.remove(k).insert(k, id) =~= s0.order);
}
} // verus!
