use crate::command::{CommandView, PlayerCommand};
use crate::engine::{
    all_clips_dropped, bound_index, clip_moved, clip_resized, clips_appended, node_added,
    node_removed, node_switched, pairs_added, track_added, track_duplicated, track_index,
    track_removed, trims_set, updated, BackendView, Engine, EngineView,
};
use crate::service::seq_without;
use crate::state::PlaybackState;

use vstd::prelude::*;

verus! {

/// Number of frames the engine renders at a time.
pub const CHUNK_SIZE: usize = 1024;

/// Bit pattern of the `f32` value `120.0`: the tempo of a new engine.
pub const DEFAULT_BPM_BITS: u32 = 0x42F0_0000;

/// Bit pattern of the `f32` value `16.0`: where the loop of the player ends at first.
pub const PLAYER_LOOP_END_BITS: u32 = 0x4180_0000;

/// Sample rate of an engine before an output device is opened.
pub const DEFAULT_SAMPLE_RATE: usize = 44100;

/// What the audio thread has to do after a message: the work that the
/// library leaves to the code around it (decoding, floating point, threads).
pub enum PlayerAction {
    Nothing,
    /// Drop the samples rendered ahead: the playhead moved.
    ClearBuffer,
    /// Compute the frame of this position in beats (bits of an `f32`) and hand it to `seek_frames`.
    Seek(u32),
    /// Rescale the playhead to this tempo (bits of an `f32`) and hand the result to `set_tempo`.
    Retempo(u32),
    /// Start the preview of this audio file.
    StartPreview(String),
    /// Move the preview to this frame and drop the samples rendered ahead.
    SeekPreview(usize),
    /// Render the project to this file, on a thread of its own.
    Export(String),
    /// Wire a new effect node into the chain of this track at this index.
    InsertNode(String, usize),
    /// Unwire the effect node at this index of the chain of this track.
    RemoveNode(String, usize),
    /// Fade in (`true`) or bypass (`false`) the effect node at this index of this track.
    FadeNode(String, usize, bool),
    /// Stop reading messages until the next round.
    Stop,
}

/// Mathematical model of an action.
pub enum PlayerActionView {
    Nothing,
    ClearBuffer,
    Seek(u32),
    Retempo(u32),
    StartPreview(Seq<char>),
    SeekPreview(usize),
    Export(Seq<char>),
    InsertNode(Seq<char>, usize),
    RemoveNode(Seq<char>, usize),
    FadeNode(Seq<char>, usize, bool),
    Stop,
}

impl View for PlayerAction {
    type V = PlayerActionView;

    open spec fn view(&self) -> PlayerActionView {
        match self {
            PlayerAction::Nothing => PlayerActionView::Nothing,
            PlayerAction::ClearBuffer => PlayerActionView::ClearBuffer,
            PlayerAction::Seek(b) => PlayerActionView::Seek(*b),
            PlayerAction::Retempo(b) => PlayerActionView::Retempo(*b),
            PlayerAction::StartPreview(p) => PlayerActionView::StartPreview(p@),
            PlayerAction::SeekPreview(p) => PlayerActionView::SeekPreview(*p),
            PlayerAction::Export(p) => PlayerActionView::Export(p@),
            PlayerAction::InsertNode(t, i) => PlayerActionView::InsertNode(t@, *i),
            PlayerAction::RemoveNode(t, i) => PlayerActionView::RemoveNode(t@, *i),
            PlayerAction::FadeNode(t, i, b) => PlayerActionView::FadeNode(t@, *i, *b),
            PlayerAction::Stop => PlayerActionView::Stop,
        }
    }
}

/// Mathematical model of the audio thread's state.
pub struct ManagerView {
    pub engine: EngineView,
    pub playhead: usize,
    pub output_playhead: Option<usize>,
    pub playback: PlaybackState,
    pub preview: PlaybackState,
    pub metronome: bool,
    pub loop_enabled: bool,
    pub loop_start_bits: u32,
    pub loop_end_bits: u32,
}

/// The state of the audio thread: the engine, the playhead (in frames) of the
/// rendering and of the output stream if one is open, the transport, the
/// metronome and the loop. Loop bounds are `f32` beats kept as bit patterns.
pub struct AudioManager {
    pub engine: Engine,
    pub playhead: usize,
    pub output_playhead: Option<usize>,
    pub playback_state: PlaybackState,
    pub preview_state: PlaybackState,
    pub metronome: bool,
    pub loop_enabled: bool,
    pub loop_start_bits: u32,
    pub loop_end_bits: u32,
}

impl View for AudioManager {
    type V = ManagerView;

    open spec fn view(&self) -> ManagerView {
        ManagerView {
            engine: self.engine@,
            playhead: self.playhead,
            output_playhead: self.output_playhead,
            playback: self.playback_state,
            preview: self.preview_state,
            metronome: self.metronome,
            loop_enabled: self.loop_enabled,
            loop_start_bits: self.loop_start_bits,
            loop_end_bits: self.loop_end_bits,
        }
    }
}

/// `v` with the engine tracks `t`.
pub open spec fn with_tracks(v: ManagerView, t: Seq<BackendView>) -> ManagerView {
    ManagerView { engine: EngineView { tracks: t, ..v.engine }, ..v }
}

/// The index that the effect id `e` reaches in the chain of the track `t` of
/// `s`, if there is such a track and such a node.
pub open spec fn reached_node(s: Seq<BackendView>, t: Seq<char>, e: Seq<char>) -> Option<usize> {
    let i = track_index(s, t);
    if i < s.len() && bound_index(s[i].nodes, e) < s[i].nodes.len() {
        Some(bound_index(s[i].nodes, e) as usize)
    } else {
        None
    }
}

/// The state after the message `m`, and the action it calls for.
pub open spec fn stepped(v: ManagerView, m: CommandView) -> (ManagerView, PlayerActionView) {
    let s = v.engine.tracks;
    match m {
        CommandView::Play => (
            ManagerView { playback: PlaybackState::Playing, preview: PlaybackState::Paused, ..v },
            PlayerActionView::Nothing,
        ),
        CommandView::Pause => (
            ManagerView {
                playback: PlaybackState::Paused,
                playhead: match v.output_playhead {
                    Some(p) => p,
                    None => v.playhead,
                },
                ..v
            },
            PlayerActionView::Nothing,
        ),
        CommandView::SeekTo(b) => (v, PlayerActionView::Seek(b)),
        CommandView::UpdateBpm(b) => (v, PlayerActionView::Retempo(b)),
        CommandView::PlayPreview(f) => if v.playback == PlaybackState::Paused {
            (ManagerView { preview: PlaybackState::Playing, ..v }, PlayerActionView::StartPreview(f))
        } else {
            (v, PlayerActionView::Nothing)
        },
        CommandView::PausePreview => (
            ManagerView { preview: PlaybackState::Paused, ..v },
            PlayerActionView::Nothing,
        ),
        CommandView::SeekPreview(p) => (
            ManagerView { preview: PlaybackState::Playing, ..v },
            PlayerActionView::SeekPreview(p),
        ),
        CommandView::ToggleMetronome(b) => (ManagerView { metronome: b, ..v }, PlayerActionView::Nothing),
        CommandView::AddTrack(id) => (with_tracks(v, track_added(s, id)), PlayerActionView::Nothing),
        CommandView::RemoveTrack(id) => (
            ManagerView {
                engine: EngineView {
                    tracks: track_removed(s, id),
                    solo: seq_without(v.engine.solo, id),
                    ..v.engine
                },
                ..v
            },
            PlayerActionView::Nothing,
        ),
        CommandView::MuteTrack(id, muted) => (
            with_tracks(v, updated(s, id, |t: BackendView| BackendView { muted, ..t })),
            PlayerActionView::Nothing,
        ),
        CommandView::SoloTracks(ids) => (
            ManagerView { engine: EngineView { solo: ids, ..v.engine }, ..v },
            PlayerActionView::Nothing,
        ),
        CommandView::ChangeTrackVolume(id, volume_bits) => (
            with_tracks(v, updated(s, id, |t: BackendView| BackendView { volume_bits, ..t })),
            PlayerActionView::Nothing,
        ),
        CommandView::AddNode(t, i, e) => (
            with_tracks(
                v,
                updated(s, t, |x: BackendView| BackendView { nodes: node_added(x.nodes, i as int, e), ..x }),
            ),
            if track_index(s, t) < s.len() {
                PlayerActionView::InsertNode(t, i)
            } else {
                PlayerActionView::Nothing
            },
        ),
        CommandView::RemoveNode(t, e) => (
            with_tracks(
                v,
                updated(s, t, |x: BackendView| BackendView { nodes: node_removed(x.nodes, e), ..x }),
            ),
            match reached_node(s, t, e) {
                Some(k) => PlayerActionView::RemoveNode(t, k),
                None => PlayerActionView::Nothing,
            },
        ),
        CommandView::SetNodeEnabled(t, e, en) => (
            with_tracks(
                v,
                updated(s, t, |x: BackendView| BackendView { nodes: node_switched(x.nodes, e, en), ..x }),
            ),
            match reached_node(s, t, e) {
                Some(k) => PlayerActionView::FadeNode(t, k, en),
                None => PlayerActionView::Nothing,
            },
        ),
        CommandView::AddClip(t, c) => (
            with_tracks(v, updated(s, t, |x: BackendView| clips_appended(x, seq![c]))),
            PlayerActionView::Nothing,
        ),
        CommandView::AddClips(p) => (with_tracks(v, pairs_added(s, p)), PlayerActionView::Nothing),
        CommandView::RemoveClip(ids) => (
            with_tracks(v, all_clips_dropped(s, ids)),
            PlayerActionView::Nothing,
        ),
        CommandView::MoveClip(c, t, pos) => (
            with_tracks(v, clip_moved(s, c, t, pos)),
            PlayerActionView::Nothing,
        ),
        CommandView::ResizeClip(c, ts, te, pos) => (
            with_tracks(v, clip_resized(s, c, ts, te, pos)),
            PlayerActionView::Nothing,
        ),
        CommandView::ResizeClips(t, p) => (
            with_tracks(v, updated(s, t, |x: BackendView| trims_set(x, p))),
            PlayerActionView::Nothing,
        ),
        CommandView::DuplicateTrack(id, new_id, map) => if track_index(s, id) < s.len() {
            (with_tracks(v, track_duplicated(s, id, new_id, map)), PlayerActionView::Nothing)
        } else {
            (v, PlayerActionView::Stop)
        },
        CommandView::Export(p) => (v, PlayerActionView::Export(p)),
        CommandView::UpdateLoop(en, st, e) => (
            ManagerView { loop_enabled: en, loop_start_bits: st, loop_end_bits: e, ..v },
            PlayerActionView::Nothing,
        ),
    }
}

/// Model of the master bus of a new engine.
pub open spec fn master_bus_view() -> BackendView {
    BackendView {
        id: crate::service::master_id(),
        volume_bits: crate::track::DEFAULT_VOLUME_BITS,
        kind: crate::engine::KindView::Bus(Seq::empty()),
        muted: false,
        nodes: Seq::empty(),
    }
}

/// Whether the message `m` can be handled in the state `v`: an effect node
/// goes at most one place past the end of the chain it joins.
pub open spec fn accepts(v: ManagerView, m: CommandView) -> bool {
    match m {
        CommandView::AddNode(t, i, e) => {
            let s = v.engine.tracks;
            track_index(s, t) < s.len() ==> i <= s[track_index(s, t)].nodes.len()
        },
        _ => true,
    }
}

impl AudioManager {
    fn with_engine(engine: Engine, loop_end_bits: u32) -> (m: Self)
        ensures
            m@ == (ManagerView {
                engine: engine@,
                playhead: 0,
                output_playhead: None,
                playback: PlaybackState::Paused,
                preview: PlaybackState::Paused,
                metronome: false,
                loop_enabled: false,
                loop_start_bits: 0,
                loop_end_bits,
            }),
    {
        AudioManager {
            engine,
            playhead: 0,
            output_playhead: None,
            playback_state: PlaybackState::Paused,
            preview_state: PlaybackState::Paused,
            metronome: false,
            loop_enabled: false,
            loop_start_bits: 0,
            loop_end_bits,
        }
    }

    /// The audio thread's state before any output stream is opened: a fresh
    /// engine at 44100 Hz and 120 beats per minute, everything paused, the
    /// loop off and empty.
    pub fn new() -> (m: Self)
        ensures
            m@.engine.sample_rate == DEFAULT_SAMPLE_RATE,
            m@.engine.bpm_bits == DEFAULT_BPM_BITS,
            m@.engine.tracks == seq![master_bus_view()],
            m@.engine.solo.len() == 0,
            m@.engine.layers == seq![seq![crate::service::master_id()]],
            m@.playhead == 0,
            m@.output_playhead is None,
            m@.playback == PlaybackState::Paused,
            m@.preview == PlaybackState::Paused,
            !m@.metronome,
            !m@.loop_enabled,
            m@.loop_start_bits == 0,
            m@.loop_end_bits == 0,
    {
        AudioManager::with_engine(Engine::new(DEFAULT_SAMPLE_RATE, DEFAULT_BPM_BITS), 0)
    }

    /// The state of an audio callback rendering at `sample_rate`: as `new`,
    /// but with the loop ending at beat 16.
    pub fn for_player(sample_rate: usize) -> (m: Self)
        ensures
            m@.engine.sample_rate == sample_rate,
            m@.engine.bpm_bits == DEFAULT_BPM_BITS,
            m@.engine.tracks == seq![master_bus_view()],
            m@.engine.solo.len() == 0,
            m@.engine.layers == seq![seq![crate::service::master_id()]],
            m@.playhead == 0,
            m@.output_playhead is None,
            m@.playback == PlaybackState::Paused,
            m@.preview == PlaybackState::Paused,
            !m@.metronome,
            !m@.loop_enabled,
            m@.loop_start_bits == 0,
            m@.loop_end_bits == PLAYER_LOOP_END_BITS,
    {
        AudioManager::with_engine(Engine::new(sample_rate, DEFAULT_BPM_BITS), PLAYER_LOOP_END_BITS)
    }

    /// Handles one message of the project state and tells what is left to do.
    pub fn handle_message(&mut self, msg: PlayerCommand) -> (a: PlayerAction)
        requires
            accepts(old(self)@, msg@),
        ensures
            (final(self)@, a@) == stepped(old(self)@, msg@),
    {
        match msg {
            PlayerCommand::Play => {
                self.playback_state = PlaybackState::Playing;
                self.preview_state = PlaybackState::Paused;
                PlayerAction::Nothing
            },
            PlayerCommand::Pause => {
                self.playback_state = PlaybackState::Paused;
                match self.output_playhead {
                    Some(p) => {
                        self.playhead = p;
                    },
                    None => {},
                }
                PlayerAction::Nothing
            },
            PlayerCommand::SeekTo(b) => PlayerAction::Seek(b),
            PlayerCommand::UpdateBpm(b) => PlayerAction::Retempo(b),
            PlayerCommand::PlayPreview(f) => {
                if self.playback_state == PlaybackState::Paused {
                    self.preview_state = PlaybackState::Playing;
                    PlayerAction::StartPreview(f)
                } else {
                    PlayerAction::Nothing
                }
            },
            PlayerCommand::PausePreview => {
                self.preview_state = PlaybackState::Paused;
                PlayerAction::Nothing
            },
            PlayerCommand::SeekPreview(p) => {
                self.preview_state = PlaybackState::Playing;
                PlayerAction::SeekPreview(p)
            },
            PlayerCommand::ToggleMetronome(b) => {
                self.metronome = b;
                PlayerAction::Nothing
            },
            PlayerCommand::AddTrack(id) => {
                self.engine.add_audio_track(id);
                PlayerAction::Nothing
            },
            PlayerCommand::RemoveTrack(id) => {
                self.engine.remove_track_entry(&id);
                PlayerAction::Nothing
            },
            PlayerCommand::MuteTrack(id, muted) => {
                self.engine.set_muted(&id, muted);
                PlayerAction::Nothing
            },
            PlayerCommand::SoloTracks(ids) => {
                self.engine.set_solo(ids);
                PlayerAction::Nothing
            },
            PlayerCommand::ChangeTrackVolume(id, bits) => {
                self.engine.set_volume(&id, bits);
                PlayerAction::Nothing
            },
            PlayerCommand::AddNode(t, i, e) => {
                if self.engine.add_node(&t, i, e) {
                    PlayerAction::InsertNode(t, i)
                } else {
                    PlayerAction::Nothing
                }
            },
            PlayerCommand::RemoveNode(t, e) => {
                match self.engine.remove_node(&t, &e) {
                    Some(k) => PlayerAction::RemoveNode(t, k),
                    None => PlayerAction::Nothing,
                }
            },
            PlayerCommand::SetNodeEnabled(t, e, en) => {
                match self.engine.set_node_enabled(&t, &e, en) {
                    Some(k) => PlayerAction::FadeNode(t, k, en),
                    None => PlayerAction::Nothing,
                }
            },
            PlayerCommand::AddClip(t, c) => {
                self.engine.add_clip(&t, c);
                PlayerAction::Nothing
            },
            PlayerCommand::AddClips(p) => {
                self.engine.add_clips(p);
                PlayerAction::Nothing
            },
            PlayerCommand::RemoveClip(ids) => {
                self.engine.remove_clips(&ids);
                PlayerAction::Nothing
            },
            PlayerCommand::MoveClip(c, t, pos) => {
                self.engine.move_clip(&c, &t, pos);
                PlayerAction::Nothing
            },
            PlayerCommand::ResizeClip(c, ts, te, pos) => {
                self.engine.resize_clip(&c, ts, te, pos);
                PlayerAction::Nothing
            },
            PlayerCommand::ResizeClips(t, p) => {
                self.engine.resize_clips(&t, &p);
                PlayerAction::Nothing
            },
            PlayerCommand::DuplicateTrack { id, new_id, clip_map } => {
                if self.engine.duplicate_track(&id, new_id, &clip_map) {
                    PlayerAction::Nothing
                } else {
                    PlayerAction::Stop
                }
            },
            PlayerCommand::Export(p) => PlayerAction::Export(p),
            PlayerCommand::UpdateLoop(en, st, e) => {
                self.loop_enabled = en;
                self.loop_start_bits = st;
                self.loop_end_bits = e;
                PlayerAction::Nothing
            },
        }
    }
}


impl AudioManager {
    /// Moves the playhead, and that of the output stream if one is open, to
    /// `frame`; the samples rendered ahead are to be dropped.
    pub fn seek_frames(&mut self, frame: usize) -> (a: PlayerAction)
        ensures
            final(self)@ == (ManagerView {
                playhead: frame,
                output_playhead: match old(self)@.output_playhead {
                    Some(_) => Some(frame),
                    None => None,
                },
                ..old(self)@
            }),
            a@ == PlayerActionView::ClearBuffer,
    {
        self.playhead = frame;
        if self.output_playhead.is_some() {
            self.output_playhead = Some(frame);
        }
        PlayerAction::ClearBuffer
    }

    /// Sets the tempo and the playhead rescaled to it.
    pub fn set_tempo(&mut self, playhead: usize, bpm_bits: u32)
        ensures
            final(self)@ == (ManagerView {
                playhead,
                engine: EngineView { bpm_bits, ..old(self)@.engine },
                ..old(self)@
            }),
    {
        self.playhead = playhead;
        self.engine.bpm_bits = bpm_bits;
    }

    /// Opens the output stream of a device rendering at `sample_rate`, its
    /// playhead at 0; nothing changes if that device's stream is the one open.
    pub fn start_output(&mut self, same_device: bool, sample_rate: usize)
        ensures
            same_device ==> final(self)@ == old(self)@,
            !same_device ==> final(self)@ == (ManagerView {
                output_playhead: Some(0),
                engine: EngineView { sample_rate, ..old(self)@.engine },
                ..old(self)@
            }),
    {
        if !same_device {
            self.engine.sample_rate = sample_rate;
            self.output_playhead = Some(0);
        }
    }

    /// Whether anything is to be rendered: the playback or the preview runs.
    pub fn needs_processing(&self) -> (r: bool)
        ensures
            r == (self@.playback == PlaybackState::Playing || self@.preview == PlaybackState::Playing),
    {
        self.playback_state == PlaybackState::Playing || self.preview_state == PlaybackState::Playing
    }

    /// Whether a chunk can be rendered ahead: an output stream is open and
    /// fewer than seven chunks of samples wait for it.
    pub fn can_process(&self, buffered: usize) -> (r: bool)
        ensures
            r == (self@.output_playhead is Some && buffered < 7 * CHUNK_SIZE),
    {
        self.output_playhead.is_some() && buffered < 7 * CHUNK_SIZE
    }

    /// Moves the playhead past `frames` rendered frames.
    pub fn advance(&mut self, frames: usize)
        requires
            old(self)@.playhead + frames <= usize::MAX,
        ensures
            final(self)@ == (ManagerView { playhead: (old(self)@.playhead + frames) as usize, ..old(self)@ }),
    {
        self.playhead = self.playhead + frames;
    }

    /// Records that `samples` interleaved stereo samples went to the output
    /// stream: while the playback runs, its playhead moves past
    /// `samples / 2` frames. Tells whether the playback runs.
    pub fn on_chunk_sent(&mut self, samples: usize) -> (playing: bool)
        requires
            old(self)@.output_playhead matches Some(p) ==> p + samples / 2 <= usize::MAX,
        ensures
            playing == (old(self)@.playback == PlaybackState::Playing),
            final(self)@ == (ManagerView {
                output_playhead: match old(self)@.output_playhead {
                    Some(p) => if playing {
                        Some((p + samples / 2) as usize)
                    } else {
                        Some(p)
                    },
                    None => None,
                },
                ..old(self)@
            }),
    {
        let playing = self.playback_state == PlaybackState::Playing;
        if playing {
            match self.output_playhead {
                Some(p) => {
                    self.output_playhead = Some(p + samples / 2);
                },
                None => {},
            }
        }
        playing
    }
}

/// The metronome clicks due among the `num_frames` frames that start at
/// `playhead`: each frame that begins a beat, as (offset from `playhead`,
/// whether the beat begins a bar of four).
pub open spec fn clicks(playhead: int, num_frames: nat, samples_per_beat: int) -> Seq<(usize, bool)>
    decreases num_frames,
{
    if num_frames == 0 {
        Seq::empty()
    } else {
        let i = num_frames - 1;
        let rest = clicks(playhead, (num_frames - 1) as nat, samples_per_beat);
        if (playhead + i) % samples_per_beat == 0 {
            rest.push((i as usize, ((playhead + i) / samples_per_beat) % 4 == 0))
        } else {
            rest
        }
    }
}

/// The metronome clicks due in a block of `num_frames` frames starting at
/// `playhead`, with `samples_per_beat` frames per beat and four beats per bar.
pub fn metronome_clicks(playhead: usize, num_frames: usize, samples_per_beat: usize) -> (r: Vec<(usize, bool)>)
    requires
        samples_per_beat > 0,
        playhead + num_frames <= usize::MAX,
    ensures
        r@ == clicks(playhead as int, num_frames as nat, samples_per_beat as int),
{
    let mut r: Vec<(usize, bool)> = Vec::new();
    let mut i: usize = 0;
    while i < num_frames
        invariant
            i <= num_frames,
            samples_per_beat > 0,
            playhead + num_frames <= usize::MAX,
            r@ == clicks(playhead as int, i as nat, samples_per_beat as int),
        decreases num_frames - i,
    {
        let absolute = playhead + i;
        let beat = absolute / samples_per_beat;
        if absolute % samples_per_beat == 0 {
            r.push((i, beat % 4 == 0));
        }
        i = i + 1;
    }
    r
}

/// The metronome clicks on exactly the frames of the block that begin a beat,
/// the first frame of the block included, in frame order; a click is accented
/// exactly when its beat begins a bar of four.
pub proof fn law_clicks(playhead: int, num_frames: nat, samples_per_beat: int)
    requires
        samples_per_beat > 0,
        num_frames <= usize::MAX,
    ensures
        forall|i: int|
            #![trigger (playhead + i) % samples_per_beat]
            0 <= i < num_frames ==> ((playhead + i) % samples_per_beat == 0 <==> clicks(
                playhead,
                num_frames,
                samples_per_beat,
            ).contains((i as usize, ((playhead + i) / samples_per_beat) % 4 == 0))),
        forall|j: int|
            0 <= j < clicks(playhead, num_frames, samples_per_beat).len() ==> {
                let (o, accent) = #[trigger] clicks(playhead, num_frames, samples_per_beat)[j];
                &&& o < num_frames
                &&& (playhead + o) % samples_per_beat == 0
                &&& accent == (((playhead + o) / samples_per_beat) % 4 == 0)
            },
        forall|j: int, k: int|
            0 <= j < k < clicks(playhead, num_frames, samples_per_beat).len() ==> (#[trigger] clicks(
                playhead,
                num_frames,
                samples_per_beat,
            )[j]).0 < (#[trigger] clicks(playhead, num_frames, samples_per_beat)[k]).0,
    decreases num_frames,
{
    broadcast use vstd::seq_lib::lemma_seq_contains_after_push;

    if num_frames > 0 {
        let m = (num_frames - 1) as nat;
        law_clicks(playhead, m, samples_per_beat);
        let rest = clicks(playhead, m, samples_per_beat);
        let all = clicks(playhead, num_frames, samples_per_beat);
        assert forall|i: int|
            #![trigger (playhead + i) % samples_per_beat]
            0 <= i < num_frames implies ((playhead + i) % samples_per_beat == 0 <==> all.contains(
                (i as usize, ((playhead + i) / samples_per_beat) % 4 == 0),
            )) by {
            let click = (i as usize, ((playhead + i) / samples_per_beat) % 4 == 0);
            if i == m && rest.contains(click) {
                // every earlier click is at an offset below `m`
                let q = choose|q: int| 0 <= q < rest.len() && rest[q] == click;
                assert(rest[q].0 < m);
            }
        }
    }
}
} // verus!
