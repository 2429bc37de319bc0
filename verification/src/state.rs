use crate::action::{
    action_views, entry_applied, entry_undone, ActionView, AddTrackAction, BatchAction,
    ClipEditAction, DeleteClipsAction, DeleteTrackAction, DuplicateTrackAction, EntryView,
    HistoryEntry, ProjectAction, SetMutableTrackAction, SetVolumeAction,
};
use crate::command::{commands_view, CommandView, PlayerCommand};
use crate::service::{ServiceView, TrackService};
use crate::track::{str_views, MutableTrackCore, TrackCore, TrackReferenceCore, TrackView};
use vstd::prelude::*;

verus! {

/// Whether the playback (or the preview) runs.
#[derive(Debug, Clone, Copy, PartialEq, Eq, Structural)]
pub enum PlaybackState {
    Paused,
    Playing,
}

/// The loop of the playback: whether it is on, and its bounds in beats
/// (`f32` values kept as bit patterns).
#[derive(Debug, Clone, Copy, PartialEq, Eq, Structural)]
pub struct LoopState {
    pub enabled: bool,
    pub start_bits: u32,
    pub end_bits: u32,
}

/// Bit pattern of the `f32` value `120.0`: the tempo of a new project.
pub const DEFAULT_PROJECT_BPM_BITS: u32 = 0x42F0_0000;

/// Bit pattern of the `f32` value `16.0`: where the loop of a new project ends.
pub const DEFAULT_LOOP_END_BITS: u32 = 0x4180_0000;

/// A message from the audio engine to the project state.
pub enum ProcessEvent {
    /// The engine reports the playback position, in beats (bits of an
    /// `f32`): the playback runs.
    PlaybackPos(u32),
    /// The engine reports the preview position, in samples.
    PreviewPos(usize),
}

/// Mathematical model of the project state.
pub struct StateView {
    pub service: ServiceView,
    pub undo: Seq<EntryView>,
    pub redo: Seq<EntryView>,
    pub batching: bool,
    pub batch: Seq<ActionView>,
    /// Ids of the tracks whose deletion waits for the next update.
    pub pending: Seq<Seq<char>>,
    pub playback: PlaybackState,
    pub preview_playback: PlaybackState,
    pub preview_position: usize,
    pub metronome: bool,
    pub bpm_bits: u32,
    pub playback_position_bits: u32,
    pub loop_state: LoopState,
    /// Commands for the audio engine not yet taken.
    pub tx: Seq<CommandView>,
}

/// The state of a project: tracks, transport, and the undo/redo history.
pub struct ToniqueProjectState {
    playback_state: PlaybackState,
    preview_playback_state: PlaybackState,
    preview_position: usize,
    metronome: bool,
    bpm_bits: u32,
    playback_position_bits: u32,
    loop_state: LoopState,
    track_service: TrackService,
    pending_actions: Vec<String>,
    tx: Vec<PlayerCommand>,
    undo_stack: Vec<HistoryEntry>,
    redo_stack: Vec<HistoryEntry>,
    batching: bool,
    batch_buffer: Vec<ProjectAction>,
}

/// The models of a sequence of history entries.
pub open spec fn entry_views(s: Seq<HistoryEntry>) -> Seq<EntryView> {
    s.map_values(|e: HistoryEntry| e@)
}

impl View for ToniqueProjectState {
    type V = StateView;

    closed spec fn view(&self) -> StateView {
        StateView {
            service: self.track_service@,
            undo: entry_views(self.undo_stack@),
            redo: entry_views(self.redo_stack@),
            batching: self.batching,
            batch: action_views(self.batch_buffer@),
            pending: str_views(self.pending_actions@),
            playback: self.playback_state,
            preview_playback: self.preview_playback_state,
            preview_position: self.preview_position,
            metronome: self.metronome,
            bpm_bits: self.bpm_bits,
            playback_position_bits: self.playback_position_bits,
            loop_state: self.loop_state,
            tx: commands_view(self.tx@),
        }
    }
}

/// `v1` is `v0` after the entry `e` was applied and pushed on the undo stack,
/// which clears the redo stack.
pub open spec fn recorded(v0: StateView, e: EntryView, v1: StateView) -> bool {
    &&& v1.undo.len() == v0.undo.len() + 1
    &&& v1.undo.drop_last() == v0.undo
    &&& entry_applied(e, v1.undo.last(), v0.service, v1.service, v0.tx, v1.tx)
    &&& v1 == (StateView { service: v1.service, undo: v1.undo, redo: Seq::empty(), tx: v1.tx, ..v0 })
}

/// `v1` is `v0` after the action `a` went through the history: buffered while
/// a batch is open, applied and recorded otherwise.
pub open spec fn action_taken(v0: StateView, a: ActionView, v1: StateView) -> bool {
    if v0.batching {
        v1 == (StateView { batch: v0.batch.push(a), ..v0 })
    } else {
        recorded(v0, EntryView::Single(a), v1)
    }
}

/// `v1` is `v0` after an undo: the last entry was undone and moved to the redo stack.
pub open spec fn undone(v0: StateView, v1: StateView) -> bool {
    if v0.undo.len() > 0 {
        &&& v1.undo == v0.undo.drop_last()
        &&& v1.redo == v0.redo.push(v0.undo.last())
        &&& entry_undone(v0.undo.last(), v0.service, v1.service, v0.tx, v1.tx)
        &&& v1 == (StateView { service: v1.service, undo: v1.undo, redo: v1.redo, tx: v1.tx, ..v0 })
    } else {
        v1 == v0
    }
}

/// `v1` is `v0` after a redo: the last undone entry was applied again and moved to the undo stack.
pub open spec fn redone(v0: StateView, v1: StateView) -> bool {
    if v0.redo.len() > 0 {
        &&& v1.redo == v0.redo.drop_last()
        &&& v1.undo.len() == v0.undo.len() + 1
        &&& v1.undo.drop_last() == v0.undo
        &&& entry_applied(v0.redo.last(), v1.undo.last(), v0.service, v1.service, v0.tx, v1.tx)
        &&& v1 == (StateView { service: v1.service, undo: v1.undo, redo: v1.redo, tx: v1.tx, ..v0 })
    } else {
        v1 == v0
    }
}

/// The action that deletes the track `id` once the pending deletions are handled.
pub open spec fn pending_delete(id: Seq<char>) -> ActionView {
    ActionView::DeleteTrack(crate::action::DeleteTrackView { id, deleted_track: None })
}

/// `vs` are the successive states while the pending track deletions `ids`
/// go through the history in order.
pub open spec fn pending_steps(ids: Seq<Seq<char>>, vs: Seq<StateView>) -> bool {
    &&& vs.len() == ids.len() + 1
    &&& forall|i: int| 0 <= i < ids.len() ==> action_taken(#[trigger] vs[i], pending_delete(ids[i]), vs[i + 1])
}

/// `v1` is `v0` after the pending track deletions `ids` went through the history in order.
pub open spec fn pending_handled(ids: Seq<Seq<char>>, v0: StateView, v1: StateView) -> bool {
    exists|vs: Seq<StateView>| #[trigger] pending_steps(ids, vs) && vs[0] == v0 && vs.last() == v1
}

impl StateView {
    /// This state with no pending track deletion.
    pub open spec fn with_no_pending(self) -> StateView {
        StateView { pending: Seq::empty(), ..self }
    }
}

/// `v1` is `v0` with only the service and the commands changed.
pub open spec fn service_changed(v0: StateView, v1: StateView) -> bool {
    v1 == (StateView { service: v1.service, tx: v1.tx, ..v0 })
}

impl ToniqueProjectState {
    /// The state invariant.
    pub closed spec fn inv(&self) -> bool {
        self.track_service.wf()
    }

    /// A new project: only the master track, paused, empty history.
    pub fn new() -> (s: Self)
        ensures
            s.inv(),
            s@.service.tracks().dom() == set![crate::service::master_id()],
            s@.service.order.len() == 0,
            s@.service.solo.len() == 0,
            s@.service.selected.len() == 0,
            s@.undo.len() == 0,
            s@.redo.len() == 0,
            !s@.batching,
            s@.batch.len() == 0,
            s@.pending.len() == 0,
            s@.playback == PlaybackState::Paused,
            s@.preview_playback == PlaybackState::Paused,
            s@.preview_position == 0,
            !s@.metronome,
            s@.bpm_bits == DEFAULT_PROJECT_BPM_BITS,
            s@.playback_position_bits == 0,
            s@.loop_state == (LoopState { enabled: false, start_bits: 0, end_bits: DEFAULT_LOOP_END_BITS }),
            s@.tx.len() == 0,
    {
        let s = ToniqueProjectState {
            playback_state: PlaybackState::Paused,
            preview_playback_state: PlaybackState::Paused,
            preview_position: 0,
            metronome: false,
            bpm_bits: DEFAULT_PROJECT_BPM_BITS,
            playback_position_bits: 0,
            loop_state: LoopState { enabled: false, start_bits: 0, end_bits: DEFAULT_LOOP_END_BITS },
            track_service: TrackService::new(),
            pending_actions: Vec::new(),
            tx: Vec::new(),
            undo_stack: Vec::new(),
            redo_stack: Vec::new(),
            batching: false,
            batch_buffer: Vec::new(),
        };
        assert(s@.undo =~= Seq::<EntryView>::empty());
        assert(s@.redo =~= Seq::<EntryView>::empty());
        assert(s@.batch =~= Seq::<ActionView>::empty());
        assert(s@.pending =~= Seq::<Seq<char>>::empty());
        assert(s@.tx =~= Seq::<CommandView>::empty());
        s
    }

    /// Takes the commands for the audio engine emitted so far.
    pub fn take_commands(&mut self) -> (r: Vec<PlayerCommand>)
        requires
            old(self).inv(),
        ensures
            final(self).inv(),
            commands_view(r@) == old(self)@.tx,
            final(self)@ == (StateView { tx: Seq::empty(), ..old(self)@ }),
    {
        let mut out: Vec<PlayerCommand> = Vec::new();
        std::mem::swap(&mut out, &mut self.tx);
        assert(commands_view(self.tx@) =~= Seq::<CommandView>::empty());
        out
    }

    // ------------------------------------------------------------------
    // History
    /// Applies an entry and pushes it on the undo stack, clearing the redo stack.
    fn record(&mut self, mut entry: HistoryEntry)
        requires
            old(self).inv(),
        ensures
            final(self).inv(),
            recorded(old(self)@, entry@, final(self)@),
    {
        entry.apply(&mut self.track_service, &mut self.tx);
        self.undo_stack.push(entry);
        self.redo_stack = Vec::new();
        assert(entry_views(self.undo_stack@).drop_last() =~= old(self)@.undo);
        assert(entry_views(self.redo_stack@) =~= Seq::<EntryView>::empty());
    }

    /// Buffers the action while a batch is open; otherwise applies it and
    /// records it on the undo stack.
    fn apply_action(&mut self, action: ProjectAction)
        requires
            old(self).inv(),
        ensures
            final(self).inv(),
            action_taken(old(self)@, action@, final(self)@),
    {
        if self.batching {
            self.batch_buffer.push(action);
            assert(action_views(self.batch_buffer@) =~= old(self)@.batch.push(action@));
            return;
        }
        self.record(HistoryEntry::Single(action));
    }

    /// Opens a batch: the actions taken from now on are buffered until `commmit_batch`.
    pub fn begin_batch(&mut self)
        requires
            old(self).inv(),
        ensures
            final(self).inv(),
            final(self)@ == (StateView { batching: true, ..old(self)@ }),
    {
        self.batching = true;
    }

    /// Closes the batch and applies the buffered actions as one history entry.
    pub fn commmit_batch(&mut self)
        requires
            old(self).inv(),
        ensures
            final(self).inv(),
            recorded(
                StateView { batching: false, batch: Seq::empty(), ..old(self)@ },
                EntryView::Batch(old(self)@.batch),
                final(self)@,
            ),
    {
        self.batching = false;
        let mut batch: Vec<ProjectAction> = Vec::new();
        std::mem::swap(&mut batch, &mut self.batch_buffer);
        assert(action_views(self.batch_buffer@) =~= Seq::<ActionView>::empty());
        self.record(HistoryEntry::Batch(BatchAction::new(batch)));
    }

    /// Undoes the last entry of the undo stack and moves it to the redo stack;
    /// does nothing if there is none.
    pub fn undo(&mut self)
        requires
            old(self).inv(),
        ensures
            final(self).inv(),
            undone(old(self)@, final(self)@),
    {
        if let Some(mut entry) = self.undo_stack.pop() {
            entry.undo(&mut self.track_service, &mut self.tx);
            self.redo_stack.push(entry);
            assert(entry_views(self.redo_stack@) =~= old(self)@.redo.push(old(self)@.undo.last()));
            assert(entry_views(self.undo_stack@) =~= old(self)@.undo.drop_last());
        }
    }

    /// Applies again the last undone entry and moves it to the undo stack;
    /// does nothing if there is none.
    pub fn redo(&mut self)
        requires
            old(self).inv(),
        ensures
            final(self).inv(),
            redone(old(self)@, final(self)@),
    {
        if let Some(mut entry) = self.redo_stack.pop() {
            entry.apply(&mut self.track_service, &mut self.tx);
            self.undo_stack.push(entry);
            assert(entry_views(self.redo_stack@) =~= old(self)@.redo.drop_last());
            assert(entry_views(self.undo_stack@).drop_last() =~= old(self)@.undo);
        }
    }

    /// Whether there is an entry to undo.
    pub fn can_undo(&self) -> (r: bool)
        ensures
            r == (self@.undo.len() > 0),
    {
        self.undo_stack.len() > 0
    }

    /// Whether there is an entry to redo.
    pub fn can_redo(&self) -> (r: bool)
        ensures
            r == (self@.redo.len() > 0),
    {
        self.redo_stack.len() > 0
    }

    // ------------------------------------------------------------------
    // Updates
    /// Handles the pending track deletions, in the order they were asked for.
    pub fn update(&mut self)
        requires
            old(self).inv(),
        ensures
            final(self).inv(),
            pending_handled(old(self)@.pending, old(self)@.with_no_pending(), final(self)@),
    {
        let mut pendings: Vec<String> = Vec::new();
        std::mem::swap(&mut pendings, &mut self.pending_actions);
        assert(str_views(self.pending_actions@) =~= Seq::<Seq<char>>::empty());
        let ghost p = str_views(pendings@);
        let ghost mut vs: Seq<StateView> = seq![self@];
        let mut i: usize = 0;
        while i < pendings.len()
            invariant
                i <= pendings.len(),
                self.inv(),
                p == str_views(pendings@),
                pending_steps(p.take(i as int), vs),
                vs.last() == self@,
                vs[0] == old(self)@.with_no_pending(),
            decreases pendings.len() - i,
        {
            let ghost vm = self@;
            let action = DeleteTrackAction::new(&pendings[i]);
            self.apply_action(ProjectAction::DeleteTrack(action));
            assert(pendings@[i as int]@ == p[i as int]);
            let ghost vs0 = vs;
            proof {
                vs = vs.push(self@);
            }
            assert forall|j: int| 0 <= j < p.take(i + 1).len() implies action_taken(
                #[trigger] vs[j],
                pending_delete(p.take(i + 1)[j]),
                vs[j + 1],
            ) by {
                if j < i {
                    assert(vs[j] == vs0[j] && vs[j + 1] == vs0[j + 1]);
                    assert(p.take(i as int)[j] == p.take(i + 1)[j]);
                }
            }
            i = i + 1;
        }
        assert(p.take(i as int) == p);
        assert(pending_steps(p, vs));

    }

    /// Handles a message of the audio engine.
    pub fn handle_message(&mut self, msg: ProcessEvent)
        requires
            old(self).inv(),
        ensures
            final(self).inv(),
            final(self)@ == match msg {
                ProcessEvent::PlaybackPos(p) => StateView {
                    playback: PlaybackState::Playing,
                    playback_position_bits: p,
                    ..old(self)@
                },
                ProcessEvent::PreviewPos(p) => StateView { preview_position: p, ..old(self)@ },
            },
    {
        match msg {
            ProcessEvent::PlaybackPos(p) => {
                self.playback_position_bits = p;
                self.playback_state = PlaybackState::Playing;
            },
            ProcessEvent::PreviewPos(p) => self.preview_position = p,
        }
    }

    // ------------------------------------------------------------------
    // Transport
    /// Pauses the playback.
    pub fn pause(&mut self)
        requires
            old(self).inv(),
        ensures
            final(self).inv(),
            final(self)@ == (StateView {
                playback: PlaybackState::Paused,
                tx: old(self)@.tx.push(CommandView::Pause),
                ..old(self)@
            }),
    {
        self.playback_state = PlaybackState::Paused;
        self.push_command(PlayerCommand::Pause);
    }

    /// Starts the playback, which pauses the preview.
    pub fn play(&mut self)
        requires
            old(self).inv(),
        ensures
            final(self).inv(),
            final(self)@ == (StateView {
                playback: PlaybackState::Playing,
                preview_playback: PlaybackState::Paused,
                tx: old(self)@.tx.push(CommandView::Play),
                ..old(self)@
            }),
    {
        self.playback_state = PlaybackState::Playing;
        self.preview_playback_state = PlaybackState::Paused;
        self.push_command(PlayerCommand::Play);
    }

    /// Pauses the preview.
    pub fn pause_preview(&mut self)
        requires
            old(self).inv(),
        ensures
            final(self).inv(),
            final(self)@ == (StateView {
                preview_playback: PlaybackState::Paused,
                tx: old(self)@.tx.push(CommandView::PausePreview),
                ..old(self)@
            }),
    {
        self.preview_playback_state = PlaybackState::Paused;
        self.push_command(PlayerCommand::PausePreview);
    }

    /// Starts the preview of the audio file at `path`.
    pub fn play_preview(&mut self, path: String)
        requires
            old(self).inv(),
        ensures
            final(self).inv(),
            final(self)@ == (StateView {
                preview_playback: PlaybackState::Playing,
                tx: old(self)@.tx.push(CommandView::PlayPreview(path@)),
                ..old(self)@
            }),
    {
        self.preview_playback_state = PlaybackState::Playing;
        self.push_command(PlayerCommand::PlayPreview(path));
    }

    /// Moves the preview to `pos` (in samples) and starts it.
    pub fn seek_preview(&mut self, pos: usize)
        requires
            old(self).inv(),
        ensures
            final(self).inv(),
            final(self)@ == (StateView {
                preview_position: pos,
                preview_playback: PlaybackState::Playing,
                tx: old(self)@.tx.push(CommandView::SeekPreview(pos)),
                ..old(self)@
            }),
    {
        self.preview_position = pos;
        self.preview_playback_state = PlaybackState::Playing;
        self.push_command(PlayerCommand::SeekPreview(pos));
    }

    /// Switches the metronome on or off.
    pub fn toggle_metronome(&mut self)
        requires
            old(self).inv(),
        ensures
            final(self).inv(),
            final(self)@ == (StateView {
                metronome: !old(self)@.metronome,
                tx: old(self)@.tx.push(CommandView::ToggleMetronome(!old(self)@.metronome)),
                ..old(self)@
            }),
    {
        self.metronome = !self.metronome;
        let m = self.metronome;
        self.push_command(PlayerCommand::ToggleMetronome(m));
    }

    /// Whether the metronome is on.
    pub fn metronome(&self) -> (r: bool)
        ensures
            r == self@.metronome,
    {
        self.metronome
    }

    /// The playback state.
    pub fn playback_state(&self) -> (r: PlaybackState)
        ensures
            r == self@.playback,
    {
        self.playback_state
    }

    /// The preview playback state.
    pub fn preview_playback_state(&self) -> (r: PlaybackState)
        ensures
            r == self@.preview_playback,
    {
        self.preview_playback_state
    }

    /// The preview position, in samples.
    pub fn preview_position(&self) -> (r: usize)
        ensures
            r == self@.preview_position,
    {
        self.preview_position
    }

    /// Pauses the playback if it runs, starts it otherwise (the space bar).
    pub fn toggle_playback(&mut self)
        requires
            old(self).inv(),
        ensures
            final(self).inv(),
            old(self)@.playback == PlaybackState::Playing ==> final(self)@ == (StateView {
                playback: PlaybackState::Paused,
                tx: old(self)@.tx.push(CommandView::Pause),
                ..old(self)@
            }),
            old(self)@.playback == PlaybackState::Paused ==> final(self)@ == (StateView {
                playback: PlaybackState::Playing,
                preview_playback: PlaybackState::Paused,
                tx: old(self)@.tx.push(CommandView::Play),
                ..old(self)@
            }),
    {
        if self.playback_state == PlaybackState::Playing {
            self.pause();
        } else {
            self.play();
        }
    }

    /// Sets the tempo, in beats per minute, and tells the engine.
    pub fn set_bpm(&mut self, value_bits: u32)
        requires
            old(self).inv(),
        ensures
            final(self).inv(),
            final(self)@ == (StateView {
                bpm_bits: value_bits,
                tx: old(self)@.tx.push(CommandView::UpdateBpm(value_bits)),
                ..old(self)@
            }),
    {
        self.bpm_bits = value_bits;
        self.push_command(PlayerCommand::UpdateBpm(value_bits));
    }

    /// The tempo, in beats per minute.
    pub fn bpm(&self) -> (r: u32)
        ensures
            r == self@.bpm_bits,
    {
        self.bpm_bits
    }

    /// Moves the playback to a position in beats, and tells the engine.
    pub fn set_playback_position(&mut self, value_bits: u32)
        requires
            old(self).inv(),
        ensures
            final(self).inv(),
            final(self)@ == (StateView {
                playback_position_bits: value_bits,
                tx: old(self)@.tx.push(CommandView::SeekTo(value_bits)),
                ..old(self)@
            }),
    {
        self.playback_position_bits = value_bits;
        self.push_command(PlayerCommand::SeekTo(value_bits));
    }

    /// The playback position, in beats.
    pub fn playback_position(&self) -> (r: u32)
        ensures
            r == self@.playback_position_bits,
    {
        self.playback_position_bits
    }

    /// The loop of the playback.
    pub fn loop_state(&self) -> (r: LoopState)
        ensures
            r == self@.loop_state,
    {
        self.loop_state
    }

    /// Records a new loop once the caller has tried to push the message
    /// `UpdateLoop` of `new_state` to the audio thread's queue: `sent` tells
    /// whether the queue took it. The loop changes only then; a full queue
    /// leaves it as it was.
    pub fn update_loop(&mut self, new_state: LoopState, sent: bool)
        requires
            old(self).inv(),
        ensures
            final(self).inv(),
            final(self)@ == (StateView {
                loop_state: if sent { new_state } else { old(self)@.loop_state },
                ..old(self)@
            }),
    {
        if sent {
            self.loop_state = new_state;
        }
    }

    /// The loop switched on or off, its bounds unchanged: what `toggle_loop`
    /// records once its message is sent.
    pub fn toggled_loop(&self) -> (r: LoopState)
        ensures
            r == (LoopState { enabled: !self@.loop_state.enabled, ..self@.loop_state }),
    {
        LoopState { enabled: !self.loop_state.enabled, ..self.loop_state }
    }

    /// Switches the loop on or off, its bounds unchanged, once the caller has
    /// tried to push the message `UpdateLoop` of `toggled_loop()` to the audio
    /// thread's queue: the loop changes only if `sent`.
    pub fn toggle_loop(&mut self, sent: bool)
        requires
            old(self).inv(),
        ensures
            final(self).inv(),
            final(self)@ == (StateView {
                loop_state: if sent {
                    LoopState { enabled: !old(self)@.loop_state.enabled, ..old(self)@.loop_state }
                } else {
                    old(self)@.loop_state
                },
                ..old(self)@
            }),
    {
        let new_state = self.toggled_loop();
        self.update_loop(new_state, sent);
    }

    fn push_command(&mut self, c: PlayerCommand)
        requires
            old(self).inv(),
        ensures
            final(self).inv(),
            final(self)@ == (StateView { tx: old(self)@.tx.push(c@), ..old(self)@ }),
    {
        self.tx.push(c);
        assert(commands_view(self.tx@) =~= old(self)@.tx.push(c@));
    }
}

impl ToniqueProjectState {
    // ------------------------------------------------------------------
    // Tracks
    /// Adds a track at the last position of the display order. The position
    /// is taken when the addition is applied: inside a batch, the tracks added
    /// come last in the order of the calls.
    pub fn add_track(&mut self, track: TrackCore)
        requires
            old(self).inv(),
        ensures
            final(self).inv(),
            action_taken(
                old(self)@,
                ActionView::AddTrack(crate::action::AddTrackView { track: track@, index: usize::MAX }),
                final(self)@,
            ),
    {
        let action = AddTrackAction::new(track, usize::MAX);
        self.apply_action(ProjectAction::AddTrack(action));
    }

    /// Adds a track at `index` of the display order.
    pub fn add_track_at(&mut self, track: TrackCore, index: usize)
        requires
            old(self).inv(),
            !old(self)@.batching ==> index <= old(self)@.service.order.len(),
        ensures
            final(self).inv(),
            action_taken(
                old(self)@,
                ActionView::AddTrack(crate::action::AddTrackView { track: track@, index }),
                final(self)@,
            ),
    {
        let action = AddTrackAction::new(track, index);
        self.apply_action(ProjectAction::AddTrack(action));
    }

    /// Copies the track `id`; the copy comes right after it.
    pub fn duplicate_track(&mut self, id: &String)
        requires
            old(self).inv(),
        ensures
            final(self).inv(),
            action_taken(
                old(self)@,
                ActionView::DuplicateTrack(
                    crate::action::DuplicateTrackView { id: id@, duplicated_track: None },
                ),
                final(self)@,
            ),
    {
        let action = DuplicateTrackAction::new(id);
        self.apply_action(ProjectAction::DuplicateTrack(action));
    }

    /// Asks for the deletion of the track `id`, carried out at the next `update`.
    pub fn delete_track(&mut self, id: &String)
        requires
            old(self).inv(),
        ensures
            final(self).inv(),
            final(self)@ == (StateView { pending: old(self)@.pending.push(id@), ..old(self)@ }),
    {
        self.pending_actions.push(id.clone());
        assert(str_views(self.pending_actions@) =~= old(self)@.pending.push(id@));
    }

    /// Deletes the clips whose id is in `ids`.
    pub fn delete_clips(&mut self, ids: &Vec<String>)
        requires
            old(self).inv(),
        ensures
            final(self).inv(),
            action_taken(
                old(self)@,
                ActionView::DeleteClips(
                    crate::action::DeleteClipsView { ids: str_views(ids@), deleted_clips: Seq::empty() },
                ),
                final(self)@,
            ),
    {
        let action = DeleteClipsAction::new(ids);
        self.apply_action(ProjectAction::DeleteClips(action));
    }

    /// Applies an edit of clips worked out on the timeline and records it.
    pub fn apply_clip_edit(&mut self, edit: ClipEditAction)
        requires
            old(self).inv(),
        ensures
            final(self).inv(),
            action_taken(old(self)@, ActionView::ClipEdit(edit@), final(self)@),
    {
        self.apply_action(ProjectAction::ClipEdit(edit));
    }

    /// Sets the gain of the track `id`, without recording it in the history.
    pub fn set_volume(&mut self, id: String, volume_bits: u32)
        requires
            old(self).inv(),
        ensures
            final(self).inv(),
            service_changed(old(self)@, final(self)@),
            crate::service::volume_set(
                old(self)@.service,
                id@,
                volume_bits,
                final(self)@.service,
                old(self)@.tx,
                final(self)@.tx,
            ),
    {
        self.track_service.set_volume(&id, volume_bits, &mut self.tx);
    }

    /// Sets the gain of the track `id` and records the change from `old_volume_bits`.
    pub fn commit_volume(&mut self, id: String, old_volume_bits: u32, new_volume_bits: u32)
        requires
            old(self).inv(),
        ensures
            final(self).inv(),
            action_taken(
                old(self)@,
                ActionView::SetVolume(
                    crate::action::SetVolumeView { track: id@, old_volume_bits, new_volume_bits },
                ),
                final(self)@,
            ),
    {
        let action = SetVolumeAction::new(id, old_volume_bits, new_volume_bits);
        self.apply_action(ProjectAction::SetVolume(action));
    }

    /// Mutes or unmutes the track `id`.
    pub fn set_mute(&mut self, id: String, mute: bool)
        requires
            old(self).inv(),
        ensures
            final(self).inv(),
            service_changed(old(self)@, final(self)@),
            if old(self)@.service.tracks().contains_key(id@) {
                &&& final(self)@.service == (ServiceView {
                    store: final(self)@.service.store,
                    ..old(self)@.service
                })
                &&& final(self)@.service.tracks() == old(self)@.service.tracks().insert(
                    id@,
                    TrackView { muted: mute, ..old(self)@.service.tracks()[id@] },
                )
                &&& final(self)@.tx == old(self)@.tx.push(CommandView::MuteTrack(id@, mute))
            } else {
                final(self)@ == old(self)@
            },
    {
        self.track_service.set_mute(id, mute, &mut self.tx);
    }

    /// Toggles the solo of the track `id` (see `TrackService::toggle_solo`).
    pub fn toggle_solo(&mut self, id: String, modifier_pressed: bool)
        requires
            old(self).inv(),
        ensures
            final(self).inv(),
            service_changed(old(self)@, final(self)@),
            if old(self)@.service.tracks().contains_key(id@) {
                let solo = crate::service::toggled_solo(
                    old(self)@.service.solo,
                    id@,
                    modifier_pressed,
                );
                &&& final(self)@.service == (ServiceView { solo, ..old(self)@.service })
                &&& final(self)@.tx == old(self)@.tx.push(CommandView::SoloTracks(solo))
            } else {
                final(self)@ == old(self)@
            },
    {
        self.track_service.toggle_solo(id, modifier_pressed, &mut self.tx);
    }

    /// Makes `id` the only selected track.
    pub fn select_track(&mut self, id: &String)
        requires
            old(self).inv(),
        ensures
            final(self).inv(),
            final(self)@ == (StateView {
                service: ServiceView { selected: seq![id@], ..old(self)@.service },
                ..old(self)@
            }),
    {
        self.track_service.select(id);
    }

    /// Clears the track selection.
    pub fn deselect(&mut self)
        requires
            old(self).inv(),
        ensures
            final(self).inv(),
            final(self)@ == (StateView {
                service: ServiceView { selected: Seq::empty(), ..old(self)@.service },
                ..old(self)@
            }),
    {
        self.track_service.deselect();
    }

    /// The reference of the first selected track, if it is stored.
    pub fn selected_track(&self) -> (r: Option<TrackReferenceCore>)
        requires
            self.inv(),
        ensures
            self@.service.selected.len() == 0 ==> r is None,
            self@.service.selected.len() > 0 ==> (r is Some <==> self@.service.tracks().contains_key(
                self@.service.selected[0],
            )),
            r matches Some(t) ==> t@ == self@.service.reference(self@.service.selected[0]),
    {
        self.track_service.selected_track()
    }

    /// References of the tracks in display order, the master left out.
    pub fn tracks(&self) -> (r: Vec<TrackReferenceCore>)
        requires
            self.inv(),
        ensures
            r@.map_values(|t: TrackReferenceCore| t@) == self@.service.references(),
    {
        self.track_service.tracks()
    }

    /// Whether the track `id` is stored.
    pub fn has_track(&self, id: &String) -> (r: bool)
        requires
            self.inv(),
        ensures
            r == self@.service.tracks().contains_key(id@),
    {
        self.track_service.has_track(id)
    }

    /// The reference of the master track.
    pub fn master_track(&self) -> (r: TrackReferenceCore)
        requires
            self.inv(),
            self@.service.tracks().contains_key(crate::service::master_id()),
        ensures
            r@ == crate::track::reference_of(
                self@.service.tracks()[crate::service::master_id()],
                0,
                self@.service.selected.contains(crate::service::master_id()),
                crate::track::TrackSoloState::NotSoloing,
            ),
    {
        self.track_service.master_track()
    }

    /// The ids of the selected tracks.
    pub fn selected_tracks(&self) -> (r: Vec<String>)
        ensures
            str_views(r@) == self@.service.selected,
    {
        self.track_service.selected_tracks()
    }

    /// Number of tracks in the display order.
    pub fn track_len(&self) -> (n: usize)
        ensures
            n == self@.service.order.len(),
    {
        self.track_service.length()
    }

    /// A copy of the track `id`, if it is stored.
    pub fn track(&self, id: &String) -> (r: Option<TrackCore>)
        requires
            self.inv(),
        ensures
            r is Some <==> self@.service.tracks().contains_key(id@),
            r matches Some(t) ==> t@ == self@.service.tracks()[id@],
    {
        self.track_service.get(id)
    }

    /// A copy of the first track holding the clip `id`, if any does.
    pub fn track_from_clip_id(&self, id: &String) -> (r: Option<TrackCore>)
        requires
            self.inv(),
        ensures
            ({
                let k = crate::service::owner_index(self@.service.store, id@);
                if k < self@.service.store.len() {
                    r matches Some(t) && t@ == self@.service.store[k]
                } else {
                    r is None
                }
            }),
    {
        self.track_service.track_from_clip_id(id)
    }

    /// The editable fields of the track `id`, to be changed with `set_track_mut`.
    pub fn track_mut(&self, id: &String) -> (r: Option<MutableTrackCore>)
        requires
            self.inv(),
        ensures
            r is Some <==> self@.service.tracks().contains_key(id@),
            r matches Some(m) ==> m@ == self@.service.tracks()[id@].mutable,
    {
        self.track_service.mutable_fields(id)
    }

    /// Sets the editable fields of the track `id` in place, without recording
    /// them; `commit_track_mut` records them.
    pub fn set_track_mut(&mut self, id: &String, fields: MutableTrackCore)
        requires
            old(self).inv(),
        ensures
            final(self).inv(),
            final(self)@.tx == old(self)@.tx,
            service_changed(old(self)@, final(self)@),
            if old(self)@.service.tracks().contains_key(id@) {
                &&& final(self)@.service == (ServiceView {
                    store: final(self)@.service.store,
                    ..old(self)@.service
                })
                &&& final(self)@.service.tracks() == old(self)@.service.tracks().insert(
                    id@,
                    TrackView { mutable: fields@, ..old(self)@.service.tracks()[id@] },
                )
            } else {
                final(self)@ == old(self)@
            },
    {
        self.track_service.set_mutable_fields(id, fields);
    }

    /// Records the changes made to the editable fields of the track `id` since
    /// they were last committed; does nothing if the track is not stored.
    pub fn commit_track_mut(&mut self, id: &String)
        requires
            old(self).inv(),
        ensures
            final(self).inv(),
            if old(self)@.service.tracks().contains_key(id@) {
                let t = old(self)@.service.tracks()[id@];
                action_taken(
                    old(self)@,
                    ActionView::SetMutableTrack(
                        crate::action::SetMutableTrackView {
                            track: id@,
                            old: t.old_mutable,
                            new: t.mutable,
                        },
                    ),
                    final(self)@,
                )
            } else {
                final(self)@ == old(self)@
            },
    {
        if let Some(track) = self.track_service.get(id) {
            let action = SetMutableTrackAction::new(id, track.old_mutable, track.mutable);
            self.apply_action(ProjectAction::SetMutableTrack(action));
        }
    }

    /// The reference of the track at `index` of the display order.
    pub fn track_from_index(&self, index: usize) -> (r: Option<TrackReferenceCore>)
        requires
            self.inv(),
        ensures
            index >= self@.service.order.len() ==> r is None,
            index < self@.service.order.len() ==> (r is Some <==> self@.service.tracks().contains_key(
                self@.service.order[index as int],
            )),
            r matches Some(t) ==> t@ == self@.service.reference(self@.service.order[index as int]),
    {
        self.track_service.from_index(index)
    }

    /// Inserts the effect `effect_id` at `index` in the chain of the track `id`.
    pub fn add_effect(&mut self, id: &String, effect_id: String, index: usize)
        requires
            old(self).inv(),
            old(self)@.service.tracks().contains_key(id@) ==> index <= old(
                self,
            )@.service.tracks()[id@].effects.len(),
        ensures
            final(self).inv(),
            service_changed(old(self)@, final(self)@),
            if old(self)@.service.tracks().contains_key(id@) {
                &&& final(self)@.service == (ServiceView {
                    store: final(self)@.service.store,
                    ..old(self)@.service
                })
                &&& final(self)@.service.tracks() == old(self)@.service.tracks().insert(
                    id@,
                    TrackView {
                        effects: old(self)@.service.tracks()[id@].effects.insert(
                            index as int,
                            effect_id@,
                        ),
                        ..old(self)@.service.tracks()[id@]
                    },
                )
                &&& final(self)@.tx == old(self)@.tx.push(CommandView::AddNode(id@, index, effect_id@))
            } else {
                final(self)@ == old(self)@
            },
    {
        self.track_service.add_effect(id, effect_id, index, &mut self.tx);
    }

    /// Removes the effects at the positions `indexes` of the chain of the track `id`.
    pub fn remove_effects(&mut self, id: &String, indexes: &Vec<usize>)
        requires
            old(self).inv(),
        ensures
            final(self).inv(),
            service_changed(old(self)@, final(self)@),
            if old(self)@.service.tracks().contains_key(id@) {
                &&& final(self)@.service == (ServiceView {
                    store: final(self)@.service.store,
                    ..old(self)@.service
                })
                &&& final(self)@.service.tracks() == old(self)@.service.tracks().insert(
                    id@,
                    TrackView {
                        effects: crate::track::effects_kept(
                            old(self)@.service.tracks()[id@].effects,
                            indexes@,
                            0,
                        ),
                        ..old(self)@.service.tracks()[id@]
                    },
                )
                &&& final(self)@.tx == old(self)@.tx + crate::track::effects_removed(
                    id@,
                    old(self)@.service.tracks()[id@].effects,
                    indexes@,
                    0,
                )
            } else {
                final(self)@ == old(self)@
            },
    {
        self.track_service.remove_effects(id, indexes, &mut self.tx);
    }

    /// The effect ids of the track `id`, if it is stored.
    pub fn effects(&self, id: &String) -> (r: Option<Vec<String>>)
        requires
            self.inv(),
        ensures
            r is Some <==> self@.service.tracks().contains_key(id@),
            r matches Some(e) ==> str_views(e@) == self@.service.tracks()[id@].effects,
    {
        self.track_service.effects(id)
    }

    /// Sets the trims and position of the clip `id` without overlap check and
    /// without recording it; the timeline records the final edit.
    pub fn resize_clip(&mut self, id: &String, start_bits: u32, end_bits: u32, pos_bits: u32)
        requires
            old(self).inv(),
        ensures
            final(self).inv(),
            service_changed(old(self)@, final(self)@),
            final(self)@.service.order == old(self)@.service.order,
            final(self)@.service.solo == old(self)@.service.solo,
            final(self)@.service.selected == old(self)@.service.selected,
            ({
                let o = crate::service::owner_index(old(self)@.service.store, id@);
                if o < old(self)@.service.store.len() {
                    let owner = old(self)@.service.store[o];
                    let k = crate::track::first_clip_index(owner.clips, id@);
                    let resized = crate::track::ClipView {
                        trim_start_bits: start_bits,
                        trim_end_bits: end_bits,
                        position_bits: pos_bits,
                        ..owner.clips[k]
                    };
                    &&& final(self)@.service.tracks() == old(self)@.service.tracks().insert(
                        owner.id,
                        TrackView { clips: owner.clips.update(k, resized), ..owner },
                    )
                    &&& final(self)@.tx == old(self)@.tx.push(
                        CommandView::ResizeClip(id@, start_bits, end_bits, pos_bits),
                    )
                } else {
                    final(self)@ == old(self)@
                }
            }),
    {
        let _ = self.track_service.resize_clip_skip_overlap_check(
            id,
            start_bits,
            end_bits,
            pos_bits,
            &mut self.tx,
        );
    }
}

} // verus!
