use crate::command::{clip_map_views, commands_view, CommandView, PlayerCommand};
use crate::service::{
    clips_added, clips_deleted, deleted, duplicated, first_index, inserted, mutable_committed,
    volume_set, ServiceView, TrackService,
};
use crate::track::{
    clip_ids, clip_views, clone_clips, str_views, ClipCore, ClipView, MutableTrackCore,
    MutableTrackView, TrackCore, TrackView,
};
use vstd::prelude::*;

verus! {

/// `min(a, b)` over integers.
pub open spec fn min_int(a: int, b: int) -> int {
    if a < b {
        a
    } else {
        b
    }
}

/// Copies a list of (track id, clips) pairs.
pub fn clone_pairs(p: &Vec<(String, Vec<ClipCore>)>) -> (r: Vec<(String, Vec<ClipCore>)>)
    ensures
        clip_map_views(r@) == clip_map_views(p@),
{
    let mut r: Vec<(String, Vec<ClipCore>)> = Vec::new();
    let mut i: usize = 0;
    while i < p.len()
        invariant
            i <= p.len(),
            clip_map_views(r@) == clip_map_views(p@).take(i as int),
        decreases p.len() - i,
    {
        r.push((p[i].0.clone(), clone_clips(&p[i].1)));
        assert(clip_map_views(p@).take(i + 1) == clip_map_views(p@).take(i as int).push(
            clip_map_views(p@)[i as int],
        ));
        i = i + 1;
    }
    assert(clip_map_views(p@).take(i as int) == clip_map_views(p@));
    r
}

/// The ids of all the clips of the pairs `p`, pair after pair.
pub open spec fn pair_ids(p: Seq<(Seq<char>, Seq<ClipView>)>) -> Seq<Seq<char>>
    decreases p.len(),
{
    if p.len() == 0 {
        Seq::empty()
    } else {
        pair_ids(p.drop_last()) + clip_ids(p.last().1)
    }
}

/// The ids of all the clips of the pairs `p`.
pub fn collect_ids(p: &Vec<(String, Vec<ClipCore>)>) -> (r: Vec<String>)
    ensures
        str_views(r@) == pair_ids(clip_map_views(p@)),
{
    let ghost pv = clip_map_views(p@);
    let mut r: Vec<String> = Vec::new();
    let mut i: usize = 0;
    while i < p.len()
        invariant
            i <= p.len(),
            pv == clip_map_views(p@),
            str_views(r@) == pair_ids(pv.take(i as int)),
        decreases p.len() - i,
    {
        assert(pv.take(i + 1).drop_last() == pv.take(i as int));
        assert(pv.take(i + 1).last() == pv[i as int]);
        let ghost r0 = str_views(r@);
        let clips = &p[i].1;
        let mut j: usize = 0;
        while j < clips.len()
            invariant
                j <= clips.len(),
                i < p.len(),
                clips == &p@[i as int].1,
                str_views(r@) == r0 + clip_ids(clip_views(clips@)).take(j as int),
            decreases clips.len() - j,
        {
            let ghost rb = str_views(r@);
            r.push(clips[j].id.clone());
            assert(str_views(r@) == rb.push(clips@[j as int].id@));
            assert(clip_ids(clip_views(clips@)).take(j + 1) == clip_ids(clip_views(clips@)).take(
                j as int,
            ).push(clips@[j as int].id@));
            assert(str_views(r@) =~= r0 + clip_ids(clip_views(clips@)).take(j + 1));
            j = j + 1;
        }
        assert(clip_ids(clip_views(clips@)).take(j as int) == clip_ids(clip_views(clips@)));
        assert(pv[i as int].1 == clip_views(clips@));
        i = i + 1;
    }
    assert(pv.take(i as int) == pv);
    r
}

// ----------------------------------------------------------------------------
// Adding a track
/// Adds a track at a place of the display order.
pub struct AddTrackAction {
    track: TrackCore,
    index: usize,
}

pub struct AddTrackView {
    pub track: TrackView,
    pub index: usize,
}

impl View for AddTrackAction {
    type V = AddTrackView;

    closed spec fn view(&self) -> AddTrackView {
        AddTrackView { track: self.track@, index: self.index }
    }
}

/// Applying the addition: the track is inserted at its index, or last if the
/// display order has become shorter than that index.
pub open spec fn add_track_applied(
    a: AddTrackView,
    s0: ServiceView,
    s1: ServiceView,
    c0: Seq<CommandView>,
    c1: Seq<CommandView>,
) -> bool {
    inserted(s0, a.track, min_int(a.index as int, s0.order.len() as int), s1, c0, c1)
}

/// Undoing the addition deletes the track by its id.
pub open spec fn add_track_undone(
    a: AddTrackView,
    s0: ServiceView,
    s1: ServiceView,
    c0: Seq<CommandView>,
    c1: Seq<CommandView>,
) -> bool {
    deleted(s0, a.track.id, s1, c0, c1)
}

impl AddTrackAction {
    pub fn new(track: TrackCore, index: usize) -> (a: Self)
        ensures
            a@ == (AddTrackView { track: track@, index }),
    {
        AddTrackAction { track, index }
    }

    pub fn apply(&mut self, service: &mut TrackService, tx: &mut Vec<PlayerCommand>)
        requires
            old(service).wf(),
        ensures
            final(service).wf(),
            final(self)@ == old(self)@,
            add_track_applied(
                old(self)@,
                old(service)@,
                final(service)@,
                commands_view(old(tx)@),
                commands_view(final(tx)@),
            ),
    {
        let n = service.length();
        let index = if self.index < n {
            self.index
        } else {
            n
        };
        service.insert(self.track.clone(), index, tx);
    }

    pub fn undo(&mut self, service: &mut TrackService, tx: &mut Vec<PlayerCommand>)
        requires
            old(service).wf(),
        ensures
            final(service).wf(),
            final(self)@ == old(self)@,
            add_track_undone(
                old(self)@,
                old(service)@,
                final(service)@,
                commands_view(old(tx)@),
                commands_view(final(tx)@),
            ),
    {
        let _ = service.delete(&self.track.id, tx);
    }
}

// ----------------------------------------------------------------------------
// Deleting a track
/// Deletes a track, remembering it and its place for the undo.
pub struct DeleteTrackAction {
    id: String,
    deleted_track: Option<(TrackCore, usize)>,
}

pub struct DeleteTrackView {
    pub id: Seq<char>,
    pub deleted_track: Option<(TrackView, usize)>,
}

impl View for DeleteTrackAction {
    type V = DeleteTrackView;

    closed spec fn view(&self) -> DeleteTrackView {
        DeleteTrackView {
            id: self.id@,
            deleted_track: match self.deleted_track {
                Some((t, i)) => Some((t@, i)),
                None => None,
            },
        }
    }
}

/// Applying the deletion; the action then remembers the track and its place,
/// or nothing if the track was not deleted.
pub open spec fn delete_track_applied(
    a0: DeleteTrackView,
    a1: DeleteTrackView,
    s0: ServiceView,
    s1: ServiceView,
    c0: Seq<CommandView>,
    c1: Seq<CommandView>,
) -> bool {
    let k = first_index(s0.order, a0.id);
    &&& deleted(s0, a0.id, s1, c0, c1)
    &&& a1.id == a0.id
    &&& a1.deleted_track == if k < s0.order.len() && s0.tracks().contains_key(a0.id) {
        Some((s0.tracks()[a0.id], k as usize))
    } else {
        None
    }
}

/// Undoing the deletion puts the remembered track back at its place (or last
/// if the display order has become shorter).
pub open spec fn delete_track_undone(
    a: DeleteTrackView,
    s0: ServiceView,
    s1: ServiceView,
    c0: Seq<CommandView>,
    c1: Seq<CommandView>,
) -> bool {
    match a.deleted_track {
        Some((t, i)) => inserted(s0, t, min_int(i as int, s0.order.len() as int), s1, c0, c1),
        None => s1 == s0 && c1 == c0,
    }
}

impl DeleteTrackAction {
    pub fn new(id: &String) -> (a: Self)
        ensures
            a@ == (DeleteTrackView { id: id@, deleted_track: None }),
    {
        DeleteTrackAction { id: id.clone(), deleted_track: None }
    }

    pub fn apply(&mut self, service: &mut TrackService, tx: &mut Vec<PlayerCommand>)
        requires
            old(service).wf(),
        ensures
            final(service).wf(),
            delete_track_applied(
                old(self)@,
                final(self)@,
                old(service)@,
                final(service)@,
                commands_view(old(tx)@),
                commands_view(final(tx)@),
            ),
    {
        self.deleted_track = service.delete(&self.id, tx);
    }

    pub fn undo(&mut self, service: &mut TrackService, tx: &mut Vec<PlayerCommand>)
        requires
            old(service).wf(),
        ensures
            final(service).wf(),
            final(self)@ == old(self)@,
            delete_track_undone(
                old(self)@,
                old(service)@,
                final(service)@,
                commands_view(old(tx)@),
                commands_view(final(tx)@),
            ),
    {
        match &self.deleted_track {
            Some((track, index)) => {
                let n = service.length();
                let at = if *index < n {
                    *index
                } else {
                    n
                };
                service.insert(track.clone(), at, tx);
            },
            None => {},
        }
    }
}

// ----------------------------------------------------------------------------
// Duplicating a track
/// Copies a track, remembering the id of the copy for the undo.
pub struct DuplicateTrackAction {
    id: String,
    duplicated_track: Option<String>,
}

pub struct DuplicateTrackView {
    pub id: Seq<char>,
    pub duplicated_track: Option<Seq<char>>,
}

impl View for DuplicateTrackAction {
    type V = DuplicateTrackView;

    closed spec fn view(&self) -> DuplicateTrackView {
        DuplicateTrackView {
            id: self.id@,
            duplicated_track: match self.duplicated_track {
                Some(n) => Some(n@),
                None => None,
            },
        }
    }
}

/// Applying the copy; the action then remembers the id of the copy.
pub open spec fn duplicate_track_applied(
    a0: DuplicateTrackView,
    a1: DuplicateTrackView,
    s0: ServiceView,
    s1: ServiceView,
    c0: Seq<CommandView>,
    c1: Seq<CommandView>,
) -> bool {
    &&& a1.id == a0.id
    &&& duplicated(s0, a0.id, a1.duplicated_track, s1, c0, c1)
}

/// Undoing the copy deletes it.
pub open spec fn duplicate_track_undone(
    a: DuplicateTrackView,
    s0: ServiceView,
    s1: ServiceView,
    c0: Seq<CommandView>,
    c1: Seq<CommandView>,
) -> bool {
    match a.duplicated_track {
        Some(n) => deleted(s0, n, s1, c0, c1),
        None => s1 == s0 && c1 == c0,
    }
}

impl DuplicateTrackAction {
    pub fn new(id: &String) -> (a: Self)
        ensures
            a@ == (DuplicateTrackView { id: id@, duplicated_track: None }),
    {
        DuplicateTrackAction { id: id.clone(), duplicated_track: None }
    }

    pub fn apply(&mut self, service: &mut TrackService, tx: &mut Vec<PlayerCommand>)
        requires
            old(service).wf(),
        ensures
            final(service).wf(),
            duplicate_track_applied(
                old(self)@,
                final(self)@,
                old(service)@,
                final(service)@,
                commands_view(old(tx)@),
                commands_view(final(tx)@),
            ),
    {
        self.duplicated_track = service.duplicate(&self.id, tx);
    }

    pub fn undo(&mut self, service: &mut TrackService, tx: &mut Vec<PlayerCommand>)
        requires
            old(service).wf(),
        ensures
            final(service).wf(),
            final(self)@ == old(self)@,
            duplicate_track_undone(
                old(self)@,
                old(service)@,
                final(service)@,
                commands_view(old(tx)@),
                commands_view(final(tx)@),
            ),
    {
        match &self.duplicated_track {
            Some(n) => {
                let _ = service.delete(n, tx);
            },
            None => {},
        }
    }
}

// ----------------------------------------------------------------------------
// Track gain
/// Changes the gain of a track from `old_volume_bits` to `new_volume_bits`.
pub struct SetVolumeAction {
    track: String,
    old_volume_bits: u32,
    new_volume_bits: u32,
}

pub struct SetVolumeView {
    pub track: Seq<char>,
    pub old_volume_bits: u32,
    pub new_volume_bits: u32,
}

impl View for SetVolumeAction {
    type V = SetVolumeView;

    closed spec fn view(&self) -> SetVolumeView {
        SetVolumeView {
            track: self.track@,
            old_volume_bits: self.old_volume_bits,
            new_volume_bits: self.new_volume_bits,
        }
    }
}

impl SetVolumeAction {
    pub fn new(track: String, old_volume_bits: u32, new_volume_bits: u32) -> (a: Self)
        ensures
            a@ == (SetVolumeView { track: track@, old_volume_bits, new_volume_bits }),
    {
        SetVolumeAction { track, old_volume_bits, new_volume_bits }
    }

    pub fn apply(&mut self, service: &mut TrackService, tx: &mut Vec<PlayerCommand>)
        requires
            old(service).wf(),
        ensures
            final(service).wf(),
            final(self)@ == old(self)@,
            volume_set(
                old(service)@,
                old(self)@.track,
                old(self)@.new_volume_bits,
                final(service)@,
                commands_view(old(tx)@),
                commands_view(final(tx)@),
            ),
    {
        service.set_volume(&self.track, self.new_volume_bits, tx);
    }

    pub fn undo(&mut self, service: &mut TrackService, tx: &mut Vec<PlayerCommand>)
        requires
            old(service).wf(),
        ensures
            final(service).wf(),
            final(self)@ == old(self)@,
            volume_set(
                old(service)@,
                old(self)@.track,
                old(self)@.old_volume_bits,
                final(service)@,
                commands_view(old(tx)@),
                commands_view(final(tx)@),
            ),
    {
        service.set_volume(&self.track, self.old_volume_bits, tx);
    }
}

// ----------------------------------------------------------------------------
// Editable track fields
/// Commits new editable fields of a track, remembering the former ones.
pub struct SetMutableTrackAction {
    track: String,
    old: MutableTrackCore,
    new: MutableTrackCore,
}

pub struct SetMutableTrackView {
    pub track: Seq<char>,
    pub old: MutableTrackView,
    pub new: MutableTrackView,
}

impl View for SetMutableTrackAction {
    type V = SetMutableTrackView;

    closed spec fn view(&self) -> SetMutableTrackView {
        SetMutableTrackView { track: self.track@, old: self.old@, new: self.new@ }
    }
}

impl SetMutableTrackAction {
    pub fn new(track: &String, old: MutableTrackCore, new: MutableTrackCore) -> (a: Self)
        ensures
            a@ == (SetMutableTrackView { track: track@, old: old@, new: new@ }),
    {
        SetMutableTrackAction { track: track.clone(), old, new }
    }

    pub fn apply(&mut self, service: &mut TrackService, tx: &mut Vec<PlayerCommand>)
        requires
            old(service).wf(),
        ensures
            final(service).wf(),
            final(self)@ == old(self)@,
            mutable_committed(old(service)@, old(self)@.track, old(self)@.new, final(service)@),
            final(tx)@ == old(tx)@,
    {
        service.commit_mutable_fields(&self.track, &self.new);
    }

    pub fn undo(&mut self, service: &mut TrackService, tx: &mut Vec<PlayerCommand>)
        requires
            old(service).wf(),
        ensures
            final(service).wf(),
            final(self)@ == old(self)@,
            mutable_committed(old(service)@, old(self)@.track, old(self)@.old, final(service)@),
            final(tx)@ == old(tx)@,
    {
        service.commit_mutable_fields(&self.track, &self.old);
    }
}

// ----------------------------------------------------------------------------
// Deleting clips
/// Deletes clips by id, remembering them per track for the undo.
pub struct DeleteClipsAction {
    ids: Vec<String>,
    deleted_clips: Vec<(String, Vec<ClipCore>)>,
}

pub struct DeleteClipsView {
    pub ids: Seq<Seq<char>>,
    pub deleted_clips: Seq<(Seq<char>, Seq<ClipView>)>,
}

impl View for DeleteClipsAction {
    type V = DeleteClipsView;

    closed spec fn view(&self) -> DeleteClipsView {
        DeleteClipsView { ids: str_views(self.ids@), deleted_clips: clip_map_views(self.deleted_clips@) }
    }
}

/// Applying the deletion; the action then remembers the deleted clips per track.
pub open spec fn delete_clips_applied(
    a0: DeleteClipsView,
    a1: DeleteClipsView,
    s0: ServiceView,
    s1: ServiceView,
    c0: Seq<CommandView>,
    c1: Seq<CommandView>,
) -> bool {
    &&& a1.ids == a0.ids
    &&& clips_deleted(s0, a0.ids, a1.deleted_clips, s1, c0, c1)
}

/// Undoing the deletion appends the remembered clips back to their tracks.
pub open spec fn delete_clips_undone(
    a: DeleteClipsView,
    s0: ServiceView,
    s1: ServiceView,
    c0: Seq<CommandView>,
    c1: Seq<CommandView>,
) -> bool {
    if a.deleted_clips.len() > 0 {
        clips_added(s0, a.deleted_clips, s1, c0, c1)
    } else {
        s1 == s0 && c1 == c0
    }
}

impl DeleteClipsAction {
    pub fn new(ids: &Vec<String>) -> (a: Self)
        ensures
            a@ == (DeleteClipsView { ids: str_views(ids@), deleted_clips: Seq::empty() }),
    {
        let a = DeleteClipsAction { ids: crate::track::clone_strings(ids), deleted_clips: Vec::new() };
        assert(clip_map_views(a.deleted_clips@) =~= Seq::empty());
        a
    }

    pub fn apply(&mut self, service: &mut TrackService, tx: &mut Vec<PlayerCommand>)
        requires
            old(service).wf(),
        ensures
            final(service).wf(),
            delete_clips_applied(
                old(self)@,
                final(self)@,
                old(service)@,
                final(service)@,
                commands_view(old(tx)@),
                commands_view(final(tx)@),
            ),
    {
        self.deleted_clips = service.delete_clips(&self.ids, tx);
    }

    pub fn undo(&mut self, service: &mut TrackService, tx: &mut Vec<PlayerCommand>)
        requires
            old(service).wf(),
        ensures
            final(service).wf(),
            final(self)@ == old(self)@,
            delete_clips_undone(
                old(self)@,
                old(service)@,
                final(service)@,
                commands_view(old(tx)@),
                commands_view(final(tx)@),
            ),
    {
        if self.deleted_clips.len() > 0 {
            service.add_clips_skip_overlap_check(clone_pairs(&self.deleted_clips), tx);
        }
    }
}

// ----------------------------------------------------------------------------
// Clip edits computed on the timeline
/// What a timeline edit of clips was made for.
#[derive(Debug, Clone, Copy, PartialEq, Eq, Structural)]
pub enum ClipEditKind {
    AddClips,
    MoveClip,
    CutClip,
    DuplicateClips,
    ResizeClip,
}

/// An edit of clips whose geometry was worked out on the timeline: the clips
/// it takes out (`deleted`) and the clips it puts in (`added`), per track.
/// Applying it deletes the former by id and then appends the latter; undoing
/// it deletes the latter by id and then appends the former.
pub struct ClipEditAction {
    kind: ClipEditKind,
    added: Vec<(String, Vec<ClipCore>)>,
    deleted: Vec<(String, Vec<ClipCore>)>,
}

pub struct ClipEditView {
    pub kind: ClipEditKind,
    pub added: Seq<(Seq<char>, Seq<ClipView>)>,
    pub deleted: Seq<(Seq<char>, Seq<ClipView>)>,
}

impl View for ClipEditAction {
    type V = ClipEditView;

    closed spec fn view(&self) -> ClipEditView {
        ClipEditView {
            kind: self.kind,
            added: clip_map_views(self.added@),
            deleted: clip_map_views(self.deleted@),
        }
    }
}

/// The service and commands after taking out the clips of `out` and then
/// putting in the clips of `inn`.
pub open spec fn swapped_clips(
    out: Seq<(Seq<char>, Seq<ClipView>)>,
    inn: Seq<(Seq<char>, Seq<ClipView>)>,
    s0: ServiceView,
    s1: ServiceView,
    c0: Seq<CommandView>,
    c1: Seq<CommandView>,
) -> bool {
    let mid = if out.len() > 0 {
        ServiceView { store: crate::service::store_without_clips(s0.store, pair_ids(out)), ..s0 }
    } else {
        s0
    };
    let cmid = if out.len() > 0 {
        c0.push(CommandView::RemoveClip(pair_ids(out)))
    } else {
        c0
    };
    if inn.len() > 0 {
        clips_added(mid, inn, s1, cmid, c1)
    } else {
        s1 == mid && c1 == cmid
    }
}

impl ClipEditAction {
    pub fn new(
        kind: ClipEditKind,
        added: Vec<(String, Vec<ClipCore>)>,
        deleted: Vec<(String, Vec<ClipCore>)>,
    ) -> (a: Self)
        ensures
            a@ == (ClipEditView {
                kind,
                added: clip_map_views(added@),
                deleted: clip_map_views(deleted@),
            }),
    {
        ClipEditAction { kind, added, deleted }
    }

    /// Deletes the clips of `out` by id, then appends the clips of `inn`.
    fn swap(
        out: &Vec<(String, Vec<ClipCore>)>,
        inn: &Vec<(String, Vec<ClipCore>)>,
        service: &mut TrackService,
        tx: &mut Vec<PlayerCommand>,
    )
        requires
            old(service).wf(),
        ensures
            final(service).wf(),
            swapped_clips(
                clip_map_views(out@),
                clip_map_views(inn@),
                old(service)@,
                final(service)@,
                commands_view(old(tx)@),
                commands_view(final(tx)@),
            ),
    {
        if out.len() > 0 {
            let ids = collect_ids(out);
            let _ = service.delete_clips(&ids, tx);
        }
        if inn.len() > 0 {
            service.add_clips_skip_overlap_check(clone_pairs(inn), tx);
        }
    }

    pub fn apply(&mut self, service: &mut TrackService, tx: &mut Vec<PlayerCommand>)
        requires
            old(service).wf(),
        ensures
            final(service).wf(),
            final(self)@ == old(self)@,
            swapped_clips(
                old(self)@.deleted,
                old(self)@.added,
                old(service)@,
                final(service)@,
                commands_view(old(tx)@),
                commands_view(final(tx)@),
            ),
    {
        Self::swap(&self.deleted, &self.added, service, tx);
    }

    pub fn undo(&mut self, service: &mut TrackService, tx: &mut Vec<PlayerCommand>)
        requires
            old(service).wf(),
        ensures
            final(service).wf(),
            final(self)@ == old(self)@,
            swapped_clips(
                old(self)@.added,
                old(self)@.deleted,
                old(service)@,
                final(service)@,
                commands_view(old(tx)@),
                commands_view(final(tx)@),
            ),
    {
        Self::swap(&self.added, &self.deleted, service, tx);
    }
}

// ----------------------------------------------------------------------------
// Dispatch
/// An action of the project history.
pub enum ProjectAction {
    AddTrack(AddTrackAction),
    DeleteTrack(DeleteTrackAction),
    DuplicateTrack(DuplicateTrackAction),
    SetVolume(SetVolumeAction),
    SetMutableTrack(SetMutableTrackAction),
    DeleteClips(DeleteClipsAction),
    ClipEdit(ClipEditAction),
}

pub enum ActionView {
    AddTrack(AddTrackView),
    DeleteTrack(DeleteTrackView),
    DuplicateTrack(DuplicateTrackView),
    SetVolume(SetVolumeView),
    SetMutableTrack(SetMutableTrackView),
    DeleteClips(DeleteClipsView),
    ClipEdit(ClipEditView),
}

impl View for ProjectAction {
    type V = ActionView;

    open spec fn view(&self) -> ActionView {
        match self {
            ProjectAction::AddTrack(a) => ActionView::AddTrack(a@),
            ProjectAction::DeleteTrack(a) => ActionView::DeleteTrack(a@),
            ProjectAction::DuplicateTrack(a) => ActionView::DuplicateTrack(a@),
            ProjectAction::SetVolume(a) => ActionView::SetVolume(a@),
            ProjectAction::SetMutableTrack(a) => ActionView::SetMutableTrack(a@),
            ProjectAction::DeleteClips(a) => ActionView::DeleteClips(a@),
            ProjectAction::ClipEdit(a) => ActionView::ClipEdit(a@),
        }
    }
}

/// Applying `a0` turned the service `s0` into `s1`, the commands `c0` into
/// `c1`, and the action into `a1` (which records what undoing needs).
pub open spec fn action_applied(
    a0: ActionView,
    a1: ActionView,
    s0: ServiceView,
    s1: ServiceView,
    c0: Seq<CommandView>,
    c1: Seq<CommandView>,
) -> bool {
    match a0 {
        ActionView::AddTrack(x) => a1 == a0 && add_track_applied(x, s0, s1, c0, c1),
        ActionView::DeleteTrack(x) => a1 matches ActionView::DeleteTrack(y)
            && delete_track_applied(x, y, s0, s1, c0, c1),
        ActionView::DuplicateTrack(x) => a1 matches ActionView::DuplicateTrack(y)
            && duplicate_track_applied(x, y, s0, s1, c0, c1),
        ActionView::SetVolume(x) => a1 == a0 && volume_set(
            s0,
            x.track,
            x.new_volume_bits,
            s1,
            c0,
            c1,
        ),
        ActionView::SetMutableTrack(x) => a1 == a0 && mutable_committed(s0, x.track, x.new, s1)
            && c1 == c0,
        ActionView::DeleteClips(x) => a1 matches ActionView::DeleteClips(y)
            && delete_clips_applied(x, y, s0, s1, c0, c1),
        ActionView::ClipEdit(x) => a1 == a0 && swapped_clips(x.deleted, x.added, s0, s1, c0, c1),
    }
}

/// Undoing `a` turned the service `s0` into `s1` and the commands `c0` into `c1`.
pub open spec fn action_undone(
    a: ActionView,
    s0: ServiceView,
    s1: ServiceView,
    c0: Seq<CommandView>,
    c1: Seq<CommandView>,
) -> bool {
    match a {
        ActionView::AddTrack(x) => add_track_undone(x, s0, s1, c0, c1),
        ActionView::DeleteTrack(x) => delete_track_undone(x, s0, s1, c0, c1),
        ActionView::DuplicateTrack(x) => duplicate_track_undone(x, s0, s1, c0, c1),
        ActionView::SetVolume(x) => volume_set(s0, x.track, x.old_volume_bits, s1, c0, c1),
        ActionView::SetMutableTrack(x) => mutable_committed(s0, x.track, x.old, s1) && c1 == c0,
        ActionView::DeleteClips(x) => delete_clips_undone(x, s0, s1, c0, c1),
        ActionView::ClipEdit(x) => swapped_clips(x.added, x.deleted, s0, s1, c0, c1),
    }
}

impl ProjectAction {
    pub fn apply(&mut self, service: &mut TrackService, tx: &mut Vec<PlayerCommand>)
        requires
            old(service).wf(),
        ensures
            final(service).wf(),
            action_applied(
                old(self)@,
                final(self)@,
                old(service)@,
                final(service)@,
                commands_view(old(tx)@),
                commands_view(final(tx)@),
            ),
    {
        match self {
            ProjectAction::AddTrack(a) => a.apply(service, tx),
            ProjectAction::DeleteTrack(a) => a.apply(service, tx),
            ProjectAction::DuplicateTrack(a) => a.apply(service, tx),
            ProjectAction::SetVolume(a) => a.apply(service, tx),
            ProjectAction::SetMutableTrack(a) => a.apply(service, tx),
            ProjectAction::DeleteClips(a) => a.apply(service, tx),
            ProjectAction::ClipEdit(a) => a.apply(service, tx),
        }
    }

    pub fn undo(&mut self, service: &mut TrackService, tx: &mut Vec<PlayerCommand>)
        requires
            old(service).wf(),
        ensures
            final(service).wf(),
            final(self)@ == old(self)@,
            action_undone(
                old(self)@,
                old(service)@,
                final(service)@,
                commands_view(old(tx)@),
                commands_view(final(tx)@),
            ),
    {
        match self {
            ProjectAction::AddTrack(a) => a.undo(service, tx),
            ProjectAction::DeleteTrack(a) => a.undo(service, tx),
            ProjectAction::DuplicateTrack(a) => a.undo(service, tx),
            ProjectAction::SetVolume(a) => a.undo(service, tx),
            ProjectAction::SetMutableTrack(a) => a.undo(service, tx),
            ProjectAction::DeleteClips(a) => a.undo(service, tx),
            ProjectAction::ClipEdit(a) => a.undo(service, tx),
        }
    }

    /// A short name of the action.
    pub fn name(&self) -> (r: &'static str)
        ensures
            r@ == action_name(self@),
    {
        match self {
            ProjectAction::AddTrack(_) => "Add Track",
            ProjectAction::DeleteTrack(_) => "Delete Track",
            ProjectAction::DuplicateTrack(_) => "Duplicate Track",
            ProjectAction::SetVolume(_) => "Set Track volume",
            ProjectAction::SetMutableTrack(_) => "Change track",
            ProjectAction::DeleteClips(_) => "Delete clips",
            ProjectAction::ClipEdit(a) => match a.kind {
                ClipEditKind::AddClips => "Add clips",
                ClipEditKind::MoveClip => "Move clips",
                ClipEditKind::CutClip => "Cut clip",
                ClipEditKind::DuplicateClips => "Duplicate clips",
                ClipEditKind::ResizeClip => "Resize clip",
            },
        }
    }
}

/// The short name of an action, as the history shows it.
pub open spec fn action_name(a: ActionView) -> Seq<char> {
    match a {
        ActionView::AddTrack(_) => "Add Track"@,
        ActionView::DeleteTrack(_) => "Delete Track"@,
        ActionView::DuplicateTrack(_) => "Duplicate Track"@,
        ActionView::SetVolume(_) => "Set Track volume"@,
        ActionView::SetMutableTrack(_) => "Change track"@,
        ActionView::DeleteClips(_) => "Delete clips"@,
        ActionView::ClipEdit(e) => match e.kind {
            ClipEditKind::AddClips => "Add clips"@,
            ClipEditKind::MoveClip => "Move clips"@,
            ClipEditKind::CutClip => "Cut clip"@,
            ClipEditKind::DuplicateClips => "Duplicate clips"@,
            ClipEditKind::ResizeClip => "Resize clip"@,
        },
    }
}

/// The models of a sequence of actions.
pub open spec fn action_views(s: Seq<ProjectAction>) -> Seq<ActionView> {
    s.map_values(|a: ProjectAction| a@)
}

/// Applying the actions `a0` one after the other, from the first.
pub open spec fn batch_applied(
    a0: Seq<ActionView>,
    a1: Seq<ActionView>,
    s0: ServiceView,
    s1: ServiceView,
    c0: Seq<CommandView>,
    c1: Seq<CommandView>,
) -> bool
    decreases a0.len(),
{
    if a0.len() == 0 {
        &&& a1.len() == 0
        &&& s1 == s0
        &&& c1 == c0
    } else {
        &&& a1.len() == a0.len()
        &&& exists|sm: ServiceView, cm: Seq<CommandView>|
            batch_applied(a0.drop_last(), a1.drop_last(), s0, sm, c0, cm) && action_applied(
                a0.last(),
                a1.last(),
                sm,
                s1,
                cm,
                c1,
            )
    }
}

/// Undoing the actions `a` one after the other, from the last.
pub open spec fn batch_undone(
    a: Seq<ActionView>,
    s0: ServiceView,
    s1: ServiceView,
    c0: Seq<CommandView>,
    c1: Seq<CommandView>,
) -> bool
    decreases a.len(),
{
    if a.len() == 0 {
        &&& s1 == s0
        &&& c1 == c0
    } else {
        exists|sm: ServiceView, cm: Seq<CommandView>|
            action_undone(a.last(), s0, sm, c0, cm) && batch_undone(a.drop_last(), sm, s1, cm, c1)
    }
}

/// Actions grouped so that they are undone and redone together.
pub struct BatchAction {
    actions: Vec<ProjectAction>,
}

impl View for BatchAction {
    type V = Seq<ActionView>;

    closed spec fn view(&self) -> Seq<ActionView> {
        action_views(self.actions@)
    }
}

impl BatchAction {
    pub fn new(actions: Vec<ProjectAction>) -> (b: Self)
        ensures
            b@ == action_views(actions@),
    {
        BatchAction { actions }
    }

    /// Applies the actions in their order.
    pub fn apply(&mut self, service: &mut TrackService, tx: &mut Vec<PlayerCommand>)
        requires
            old(service).wf(),
        ensures
            final(service).wf(),
            batch_applied(
                old(self)@,
                final(self)@,
                old(service)@,
                final(service)@,
                commands_view(old(tx)@),
                commands_view(final(tx)@),
            ),
    {
        let ghost a0 = self@;
        let ghost s0 = service@;
        let ghost c0 = commands_view(tx@);
        let mut done: Vec<ProjectAction> = Vec::new();
        while self.actions.len() > 0
            invariant
                service.wf(),
                done@.len() <= a0.len(),
                a0.skip(done@.len() as int) == action_views(self.actions@),
                batch_applied(
                    a0.take(done@.len() as int),
                    action_views(done@),
                    s0,
                    service@,
                    c0,
                    commands_view(tx@),
                ),
            decreases self.actions.len(),
        {
            let ghost d0 = action_views(done@);
            let ghost sm = service@;
            let ghost cm = commands_view(tx@);
            let ghost rest = action_views(self.actions@);
            let mut a = self.actions.remove(0);
            assert(rest == seq![a@] + action_views(self.actions@));
            let ghost before = a@;
            assert(d0.len() == done@.len());
            assert(rest.len() > 0);
            assert(a0.skip(d0.len() as int).len() == a0.len() - d0.len());
            assert(d0.len() < a0.len());
            assert(rest[0] == before);
            assert(a0.skip(d0.len() as int)[0] == a0[d0.len() as int]);
            assert(before == a0[d0.len() as int]);
            a.apply(service, tx);
            done.push(a);
            assert(action_views(done@) == d0.push(action_views(done@).last()));
            assert(a0.take(done@.len() as int).drop_last() == a0.take(d0.len() as int));
            assert(a0.take(done@.len() as int).last() == before);
            assert(action_views(done@).drop_last() == d0);
            assert(batch_applied(
                a0.take(done@.len() as int).drop_last(),
                action_views(done@).drop_last(),
                s0,
                sm,
                c0,
                cm,
            ));
            assert(rest.drop_first() == action_views(self.actions@));
            assert(a0.skip(done@.len() as int) =~= rest.drop_first());
        }
        assert(a0.take(done@.len() as int) == a0);
        self.actions = done;
    }

    /// Undoes the actions, the last one first.
    pub fn undo(&mut self, service: &mut TrackService, tx: &mut Vec<PlayerCommand>)
        requires
            old(service).wf(),
        ensures
            final(service).wf(),
            final(self)@ == old(self)@,
            batch_undone(
                old(self)@,
                old(service)@,
                final(service)@,
                commands_view(old(tx)@),
                commands_view(final(tx)@),
            ),
    {
        let ghost a0 = self@;
        let ghost s0 = service@;
        let ghost c0 = commands_view(tx@);
        let mut undone: Vec<ProjectAction> = Vec::new();
        while self.actions.len() > 0
            invariant
                service.wf(),
                a0 == action_views(self.actions@) + action_views(undone@).reverse(),
                forall|sf: ServiceView, cf: Seq<CommandView>|
                    batch_undone(action_views(self.actions@), service@, sf, commands_view(tx@), cf)
                        ==> #[trigger] batch_undone(a0, s0, sf, c0, cf),
            decreases self.actions.len(),
        {
            let ghost rest = action_views(self.actions@);
            let ghost u0 = action_views(undone@);
            let ghost sm = service@;
            let ghost cm = commands_view(tx@);
            let mut a = self.actions.pop().unwrap();
            assert(rest == action_views(self.actions@).push(a@));
            a.undo(service, tx);
            undone.push(a);
            assert(action_views(undone@) == u0.push(a@));
            assert(action_views(undone@).reverse() =~= seq![a@] + u0.reverse());
            assert(a0 =~= action_views(self.actions@) + action_views(undone@).reverse());
            assert forall|sf: ServiceView, cf: Seq<CommandView>|
                batch_undone(action_views(self.actions@), service@, sf, commands_view(tx@), cf)
                    implies #[trigger] batch_undone(a0, s0, sf, c0, cf) by {
                assert(rest.last() == a@);
                assert(rest.drop_last() == action_views(self.actions@));
                assert(batch_undone(rest, sm, sf, cm, cf));
            }
        }
        assert(batch_undone(action_views(self.actions@), service@, service@, commands_view(tx@), commands_view(tx@)));
        let mut restored: Vec<ProjectAction> = Vec::new();
        while undone.len() > 0
            invariant
                a0 == action_views(restored@) + action_views(undone@).reverse(),
            decreases undone.len(),
        {
            let ghost u0 = action_views(undone@);
            let ghost r0 = action_views(restored@);
            let a = undone.pop().unwrap();
            assert(u0 == action_views(undone@).push(a@));
            assert(u0.reverse() =~= seq![a@] + action_views(undone@).reverse());
            restored.push(a);
            assert(action_views(restored@) == r0.push(a@));
            assert(a0 =~= action_views(restored@) + action_views(undone@).reverse());
        }
        assert(a0 =~= action_views(restored@));
        self.actions = restored;
    }
}

/// An entry of the undo or redo stack.
pub enum HistoryEntry {
    Single(ProjectAction),
    Batch(BatchAction),
}

pub enum EntryView {
    Single(ActionView),
    Batch(Seq<ActionView>),
}

impl View for HistoryEntry {
    type V = EntryView;

    open spec fn view(&self) -> EntryView {
        match self {
            HistoryEntry::Single(a) => EntryView::Single(a@),
            HistoryEntry::Batch(b) => EntryView::Batch(b@),
        }
    }
}

/// Applying the entry `e0` turned `s0` into `s1`, `c0` into `c1`, and the entry into `e1`.
pub open spec fn entry_applied(
    e0: EntryView,
    e1: EntryView,
    s0: ServiceView,
    s1: ServiceView,
    c0: Seq<CommandView>,
    c1: Seq<CommandView>,
) -> bool {
    match e0 {
        EntryView::Single(a0) => e1 matches EntryView::Single(a1) && action_applied(
            a0,
            a1,
            s0,
            s1,
            c0,
            c1,
        ),
        EntryView::Batch(b0) => e1 matches EntryView::Batch(b1) && batch_applied(
            b0,
            b1,
            s0,
            s1,
            c0,
            c1,
        ),
    }
}

/// Undoing the entry `e` turned `s0` into `s1` and `c0` into `c1`.
pub open spec fn entry_undone(
    e: EntryView,
    s0: ServiceView,
    s1: ServiceView,
    c0: Seq<CommandView>,
    c1: Seq<CommandView>,
) -> bool {
    match e {
        EntryView::Single(a) => action_undone(a, s0, s1, c0, c1),
        EntryView::Batch(b) => batch_undone(b, s0, s1, c0, c1),
    }
}

impl HistoryEntry {
    pub fn apply(&mut self, service: &mut TrackService, tx: &mut Vec<PlayerCommand>)
        requires
            old(service).wf(),
        ensures
            final(service).wf(),
            entry_applied(
                old(self)@,
                final(self)@,
                old(service)@,
                final(service)@,
                commands_view(old(tx)@),
                commands_view(final(tx)@),
            ),
    {
        match self {
            HistoryEntry::Single(a) => a.apply(service, tx),
            HistoryEntry::Batch(b) => b.apply(service, tx),
        }
    }

    pub fn undo(&mut self, service: &mut TrackService, tx: &mut Vec<PlayerCommand>)
        requires
            old(service).wf(),
        ensures
            final(service).wf(),
            final(self)@ == old(self)@,
            entry_undone(
                old(self)@,
                old(service)@,
                final(service)@,
                commands_view(old(tx)@),
                commands_view(final(tx)@),
            ),
    {
        match self {
            HistoryEntry::Single(a) => a.undo(service, tx),
            HistoryEntry::Batch(b) => b.undo(service, tx),
        }
    }
}

} // verus!
