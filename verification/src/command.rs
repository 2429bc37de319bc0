use crate::track::{clip_views, pair_views, str_views, ClipCore, ClipView};
use vstd::prelude::*;

verus! {

/// A message for the audio engine, emitted by the project state whenever a
/// change has to be mirrored on the audio side. Values that the engine reads
/// as `f32` travel as their bit patterns.
pub enum PlayerCommand {
    Play,
    Pause,
    PlayPreview(String),
    PausePreview,
    SeekPreview(usize),
    ToggleMetronome(bool),
    /// New audio track with this id.
    AddTrack(String),
    /// Remove the track with this id.
    RemoveTrack(String),
    /// (track id, muted)
    MuteTrack(String, bool),
    /// The ids of the tracks that are soloed.
    SoloTracks(Vec<String>),
    /// (track id, volume bits)
    ChangeTrackVolume(String, u32),
    /// (track id, index in the effect chain, effect id)
    AddNode(String, usize, String),
    /// (track id, effect id)
    RemoveNode(String, String),
    /// Clips to add, per track id.
    AddClips(Vec<(String, Vec<ClipCore>)>),
    /// Ids of the clips to remove, wherever they are.
    RemoveClip(Vec<String>),
    /// (clip id, destination track id, position bits)
    MoveClip(String, String, u32),
    /// (clip id, trim start bits, trim end bits, position bits)
    ResizeClip(String, u32, u32, u32),
    /// Copy track `id` as `new_id`; `clip_map` pairs each clip id with the id of its copy.
    DuplicateTrack { id: String, new_id: String, clip_map: Vec<(String, String)> },
    /// Move the playhead to a position, in beats (bits of an `f32`).
    SeekTo(u32),
    /// New tempo, in beats per minute (bits of an `f32`).
    UpdateBpm(u32),
    /// (track id, clip) for a single new clip.
    AddClip(String, ClipCore),
    /// (track id, effect id, enabled)
    SetNodeEnabled(String, String, bool),
    /// (track id, (clip id, trim start bits, trim end bits) triples)
    ResizeClips(String, Vec<(String, u32, u32)>),
    /// Render the project to the audio file at this path.
    Export(String),
    /// (loop enabled, loop start bits, loop end bits)
    UpdateLoop(bool, u32, u32),
}

/// Mathematical model of a command for the audio engine.
pub enum CommandView {
    Play,
    Pause,
    PlayPreview(Seq<char>),
    PausePreview,
    SeekPreview(usize),
    ToggleMetronome(bool),
    AddTrack(Seq<char>),
    RemoveTrack(Seq<char>),
    MuteTrack(Seq<char>, bool),
    SoloTracks(Seq<Seq<char>>),
    ChangeTrackVolume(Seq<char>, u32),
    AddNode(Seq<char>, usize, Seq<char>),
    RemoveNode(Seq<char>, Seq<char>),
    AddClips(Seq<(Seq<char>, Seq<ClipView>)>),
    RemoveClip(Seq<Seq<char>>),
    MoveClip(Seq<char>, Seq<char>, u32),
    ResizeClip(Seq<char>, u32, u32, u32),
    DuplicateTrack(Seq<char>, Seq<char>, Seq<(Seq<char>, Seq<char>)>),
    SeekTo(u32),
    UpdateBpm(u32),
    AddClip(Seq<char>, ClipView),
    SetNodeEnabled(Seq<char>, Seq<char>, bool),
    ResizeClips(Seq<char>, Seq<(Seq<char>, u32, u32)>),
    Export(Seq<char>),
    UpdateLoop(bool, u32, u32),
}

/// The models of (clip id, trim start, trim end) triples.
pub open spec fn trim_views(p: Seq<(String, u32, u32)>) -> Seq<(Seq<char>, u32, u32)> {
    p.map_values(|x: (String, u32, u32)| (x.0@, x.1, x.2))
}

/// The per-track clip lists of an `AddClips` command.
pub open spec fn clip_map_views(m: Seq<(String, Vec<ClipCore>)>) -> Seq<(Seq<char>, Seq<ClipView>)> {
    m.map_values(|p: (String, Vec<ClipCore>)| (p.0@, clip_views(p.1@)))
}

impl View for PlayerCommand {
    type V = CommandView;

    open spec fn view(&self) -> CommandView {
        match self {
            PlayerCommand::Play => CommandView::Play,
            PlayerCommand::Pause => CommandView::Pause,
            PlayerCommand::PlayPreview(p) => CommandView::PlayPreview(p@),
            PlayerCommand::PausePreview => CommandView::PausePreview,
            PlayerCommand::SeekPreview(p) => CommandView::SeekPreview(*p),
            PlayerCommand::ToggleMetronome(b) => CommandView::ToggleMetronome(*b),
            PlayerCommand::AddTrack(id) => CommandView::AddTrack(id@),
            PlayerCommand::RemoveTrack(id) => CommandView::RemoveTrack(id@),
            PlayerCommand::MuteTrack(id, m) => CommandView::MuteTrack(id@, *m),
            PlayerCommand::SoloTracks(ids) => CommandView::SoloTracks(str_views(ids@)),
            PlayerCommand::ChangeTrackVolume(id, v) => CommandView::ChangeTrackVolume(id@, *v),
            PlayerCommand::AddNode(t, i, e) => CommandView::AddNode(t@, *i, e@),
            PlayerCommand::RemoveNode(t, e) => CommandView::RemoveNode(t@, e@),
            PlayerCommand::AddClips(m) => CommandView::AddClips(clip_map_views(m@)),
            PlayerCommand::RemoveClip(ids) => CommandView::RemoveClip(str_views(ids@)),
            PlayerCommand::MoveClip(c, t, p) => CommandView::MoveClip(c@, t@, *p),
            PlayerCommand::ResizeClip(c, s, e, p) => CommandView::ResizeClip(c@, *s, *e, *p),
            PlayerCommand::DuplicateTrack { id, new_id, clip_map } => CommandView::DuplicateTrack(
                id@,
                new_id@,
                pair_views(clip_map@),
            ),
            PlayerCommand::SeekTo(b) => CommandView::SeekTo(*b),
            PlayerCommand::UpdateBpm(b) => CommandView::UpdateBpm(*b),
            PlayerCommand::AddClip(t, c) => CommandView::AddClip(t@, c@),
            PlayerCommand::SetNodeEnabled(t, e, b) => CommandView::SetNodeEnabled(t@, e@, *b),
            PlayerCommand::ResizeClips(t, p) => CommandView::ResizeClips(t@, trim_views(p@)),
            PlayerCommand::Export(p) => CommandView::Export(p@),
            PlayerCommand::UpdateLoop(e, s, t) => CommandView::UpdateLoop(*e, *s, *t),
        }
    }
}

/// The models of a sequence of commands.
pub open spec fn commands_view(s: Seq<PlayerCommand>) -> Seq<CommandView> {
    s.map_values(|c: PlayerCommand| c@)
}

} // verus!
