use crate::command::{commands_view, CommandView, PlayerCommand};
use crate::ids::{new_id, random_channel, UUID_TEXT_LEN};
use vstd::prelude::*;

verus! {

/// Bit pattern of the `f32` value `1.0`: the volume of a new track.
pub const DEFAULT_VOLUME_BITS: u32 = 0x3F80_0000;

/// Bit pattern of the `f32` value `60.0`: the height of a new track, in points.
pub const DEFAULT_TRACK_HEIGHT_BITS: u32 = 0x4270_0000;

/// The text views of a sequence of strings.
pub open spec fn str_views(s: Seq<String>) -> Seq<Seq<char>> {
    s.map_values(|x: String| x@)
}

/// Whether `s` holds a string whose text is `x`.
pub fn contains_str(s: &Vec<String>, x: &String) -> (r: bool)
    ensures
        r == str_views(s@).contains(x@),
{
    let mut i: usize = 0;
    while i < s.len()
        invariant
            i <= s.len(),
            forall|j: int| 0 <= j < i ==> s@[j]@ != x@,
        decreases s.len() - i,
    {
        if s[i] == *x {
            assert(str_views(s@)[i as int] == x@);
            return true;
        }
        i = i + 1;
    }
    assert forall|j: int| 0 <= j < str_views(s@).len() implies str_views(s@)[j] != x@ by {}
    false
}

/// Copies a vector of strings.
pub fn clone_strings(s: &Vec<String>) -> (r: Vec<String>)
    ensures
        str_views(r@) == str_views(s@),
{
    let mut r: Vec<String> = Vec::new();
    let mut i: usize = 0;
    while i < s.len()
        invariant
            i <= s.len(),
            str_views(r@) == str_views(s@).take(i as int),
        decreases s.len() - i,
    {
        r.push(s[i].clone());
        assert(str_views(s@).take(i + 1) == str_views(s@).take(i as int).push(s@[i as int]@));
        i = i + 1;
    }
    assert(str_views(s@).take(i as int) == str_views(s@));
    r
}

/// Solo state of a track, seen from the whole project.
#[derive(Debug, Clone, Copy, PartialEq, Eq, Structural)]
pub enum TrackSoloState {
    /// Some other track is soloed: this one is silenced.
    Soloing,
    /// No track is soloed.
    NotSoloing,
    /// This track is soloed.
    Solo,
}

/// An RGB colour.
#[derive(Debug, Clone, Copy, PartialEq, Eq, Structural)]
pub struct Rgb {
    pub r: u8,
    pub g: u8,
    pub b: u8,
}

/// A clip: an audio file placed on a track. The position (in beats) and the
/// trims (ratios of the file's length, between 0 and 1) are `f32` values that
/// the library stores as their bit patterns and never computes with.
pub struct ClipCore {
    pub id: String,
    /// Path of the audio file.
    pub audio_path: String,
    pub position_bits: u32,
    pub trim_start_bits: u32,
    pub trim_end_bits: u32,
}

/// Mathematical model of a clip.
pub struct ClipView {
    pub id: Seq<char>,
    pub audio_path: Seq<char>,
    pub position_bits: u32,
    pub trim_start_bits: u32,
    pub trim_end_bits: u32,
}

impl View for ClipCore {
    type V = ClipView;

    open spec fn view(&self) -> ClipView {
        ClipView {
            id: self.id@,
            audio_path: self.audio_path@,
            position_bits: self.position_bits,
            trim_start_bits: self.trim_start_bits,
            trim_end_bits: self.trim_end_bits,
        }
    }
}

/// The models of a sequence of clips.
pub open spec fn clip_views(s: Seq<ClipCore>) -> Seq<ClipView> {
    s.map_values(|c: ClipCore| c@)
}

/// The ids of a sequence of clip models.
pub open spec fn clip_ids(s: Seq<ClipView>) -> Seq<Seq<char>> {
    s.map_values(|c: ClipView| c.id)
}

/// The clips of `s` whose id is not in `ids`, in their order.
pub open spec fn clips_without(s: Seq<ClipView>, ids: Seq<Seq<char>>) -> Seq<ClipView>
    decreases s.len(),
{
    if s.len() == 0 {
        Seq::empty()
    } else {
        let rest = clips_without(s.drop_last(), ids);
        if ids.contains(s.last().id) {
            rest
        } else {
            rest.push(s.last())
        }
    }
}

/// The clips of `s` whose id is in `ids`, in their order.
pub open spec fn clips_within(s: Seq<ClipView>, ids: Seq<Seq<char>>) -> Seq<ClipView>
    decreases s.len(),
{
    if s.len() == 0 {
        Seq::empty()
    } else {
        let rest = clips_within(s.drop_last(), ids);
        if ids.contains(s.last().id) {
            rest.push(s.last())
        } else {
            rest
        }
    }
}

/// Index of the first clip of `s` whose id is `id`, or `s.len()` if there is none.
pub open spec fn first_clip_index(s: Seq<ClipView>, id: Seq<char>) -> int
    decreases s.len(),
{
    if s.len() == 0 {
        0
    } else if s[0].id == id {
        0
    } else {
        1 + first_clip_index(s.drop_first(), id)
    }
}

pub proof fn lemma_first_clip_index(s: Seq<ClipView>, id: Seq<char>)
    ensures
        0 <= first_clip_index(s, id) <= s.len(),
        first_clip_index(s, id) < s.len() ==> s[first_clip_index(s, id)].id == id,
        forall|j: int| 0 <= j < first_clip_index(s, id) ==> s[j].id != id,
        first_clip_index(s, id) == s.len() <==> !clip_ids(s).contains(id),
    decreases s.len(),
{
    if s.len() > 0 && s[0].id != id {
        lemma_first_clip_index(s.drop_first(), id);
        assert forall|j: int| 0 <= j < first_clip_index(s, id) implies s[j].id != id by {
            if j > 0 {
                assert(s[j] == s.drop_first()[j - 1]);
            }
        }
        if clip_ids(s).contains(id) {
            let k = choose|k: int| 0 <= k < clip_ids(s).len() && clip_ids(s)[k] == id;
            assert(k > 0);
            assert(clip_ids(s.drop_first())[k - 1] == id);
        }
        if clip_ids(s.drop_first()).contains(id) {
            let k = choose|k: int|
                0 <= k < clip_ids(s.drop_first()).len() && clip_ids(s.drop_first())[k] == id;
            assert(clip_ids(s)[k + 1] == id);
        }
    }
    if s.len() > 0 && s[0].id == id {
        assert(clip_ids(s)[0] == id);
    }
}

/// Bit pattern of the `f32` value `1.0`: the end trim of an untrimmed clip.
pub const FULL_TRIM_END_BITS: u32 = 0x3F80_0000;

impl ClipCore {
    /// An untrimmed clip of the audio file `audio_path` at a position in
    /// beats, under a fresh id.
    pub fn new(audio_path: String, position_bits: u32) -> (c: Self)
        ensures
            c@.id.len() == UUID_TEXT_LEN,
            c@.audio_path == audio_path@,
            c@.position_bits == position_bits,
            c@.trim_start_bits == 0,
            c@.trim_end_bits == FULL_TRIM_END_BITS,
    {
        ClipCore {
            id: new_id(),
            audio_path,
            position_bits,
            trim_start_bits: 0,
            trim_end_bits: FULL_TRIM_END_BITS,
        }
    }

    /// A copy of this clip under a fresh id.
    pub fn clone_with_new_id(&self) -> (c: Self)
        ensures
            c@ == (ClipView { id: c@.id, ..self@ }),
            c@.id.len() == UUID_TEXT_LEN,
    {
        let mut c = self.clone();
        c.id = new_id();
        c
    }
}

impl Clone for ClipCore {
    fn clone(&self) -> (res: Self)
        ensures
            res@ == self@,
    {
        ClipCore {
            id: self.id.clone(),
            audio_path: self.audio_path.clone(),
            position_bits: self.position_bits,
            trim_start_bits: self.trim_start_bits,
            trim_end_bits: self.trim_end_bits,
        }
    }
}

/// Copies a vector of clips.
pub fn clone_clips(s: &Vec<ClipCore>) -> (r: Vec<ClipCore>)
    ensures
        clip_views(r@) == clip_views(s@),
{
    let mut r: Vec<ClipCore> = Vec::new();
    let mut i: usize = 0;
    while i < s.len()
        invariant
            i <= s.len(),
            clip_views(r@) == clip_views(s@).take(i as int),
        decreases s.len() - i,
    {
        r.push(s[i].clone());
        assert(clip_views(s@).take(i + 1) == clip_views(s@).take(i as int).push(s@[i as int]@));
        i = i + 1;
    }
    assert(clip_views(s@).take(i as int) == clip_views(s@));
    r
}

/// The fields of a track that the user edits in place.
pub struct MutableTrackCore {
    pub name: String,
    /// Bit pattern of the `f32` height in points.
    pub height_bits: u32,
    pub closed: bool,
    pub color: Rgb,
}

/// Mathematical model of the editable fields of a track.
pub struct MutableTrackView {
    pub name: Seq<char>,
    pub height_bits: u32,
    pub closed: bool,
    pub color: Rgb,
}

impl View for MutableTrackCore {
    type V = MutableTrackView;

    open spec fn view(&self) -> MutableTrackView {
        MutableTrackView {
            name: self.name@,
            height_bits: self.height_bits,
            closed: self.closed,
            color: self.color,
        }
    }
}

impl Clone for MutableTrackCore {
    fn clone(&self) -> (res: Self)
        ensures
            res@ == self@,
    {
        MutableTrackCore {
            name: self.name.clone(),
            height_bits: self.height_bits,
            closed: self.closed,
            color: self.color,
        }
    }
}

impl MutableTrackCore {
    /// Default fields of an audio track, with a random colour.
    pub fn new() -> (m: Self)
        ensures
            m@.name == "# Audio Track"@,
            m@.height_bits == DEFAULT_TRACK_HEIGHT_BITS,
            !m@.closed,
    {
        let r = random_channel();
        let g = random_channel();
        let b = random_channel();
        MutableTrackCore {
            closed: false,
            height_bits: DEFAULT_TRACK_HEIGHT_BITS,
            color: Rgb { r, g, b },
            name: String::from_str("# Audio Track"),
        }
    }
}

/// A track holding clips and an effect chain.
pub struct TrackCore {
    pub id: String,
    pub clips: Vec<ClipCore>,
    pub muted: bool,
    /// Bit pattern of the `f32` gain.
    pub volume_bits: u32,
    pub arm: bool,
    /// Ids of the effects of the chain, in processing order.
    pub effects: Vec<String>,
    pub mutable: MutableTrackCore,
    /// Editable fields as last committed to the history.
    pub old_mutable: MutableTrackCore,
}

/// Mathematical model of a track.
pub struct TrackView {
    pub id: Seq<char>,
    pub clips: Seq<ClipView>,
    pub muted: bool,
    pub volume_bits: u32,
    pub arm: bool,
    pub effects: Seq<Seq<char>>,
    pub mutable: MutableTrackView,
    pub old_mutable: MutableTrackView,
}

impl View for TrackCore {
    type V = TrackView;

    open spec fn view(&self) -> TrackView {
        TrackView {
            id: self.id@,
            clips: clip_views(self.clips@),
            muted: self.muted,
            volume_bits: self.volume_bits,
            arm: self.arm,
            effects: str_views(self.effects@),
            mutable: self.mutable@,
            old_mutable: self.old_mutable@,
        }
    }
}

impl Clone for TrackCore {
    fn clone(&self) -> (res: Self)
        ensures
            res@ == self@,
    {
        TrackCore {
            id: self.id.clone(),
            clips: clone_clips(&self.clips),
            muted: self.muted,
            volume_bits: self.volume_bits,
            arm: self.arm,
            effects: clone_strings(&self.effects),
            mutable: self.mutable.clone(),
            old_mutable: self.old_mutable.clone(),
        }
    }
}

/// A read-only picture of a track, as handed to the user interface.
pub struct TrackReferenceCore {
    pub id: String,
    pub clips: Vec<ClipCore>,
    pub muted: bool,
    pub volume_bits: u32,
    pub arm: bool,
    pub name: String,
    pub height_bits: u32,
    pub closed: bool,
    pub color: Rgb,
    pub selected: bool,
    pub solo: TrackSoloState,
    pub index: usize,
}

/// Mathematical model of a track reference.
pub struct TrackReferenceView {
    pub id: Seq<char>,
    pub clips: Seq<ClipView>,
    pub muted: bool,
    pub volume_bits: u32,
    pub arm: bool,
    pub name: Seq<char>,
    pub height_bits: u32,
    pub closed: bool,
    pub color: Rgb,
    pub selected: bool,
    pub solo: TrackSoloState,
    pub index: usize,
}

impl View for TrackReferenceCore {
    type V = TrackReferenceView;

    open spec fn view(&self) -> TrackReferenceView {
        TrackReferenceView {
            id: self.id@,
            clips: clip_views(self.clips@),
            muted: self.muted,
            volume_bits: self.volume_bits,
            arm: self.arm,
            name: self.name@,
            height_bits: self.height_bits,
            closed: self.closed,
            color: self.color,
            selected: self.selected,
            solo: self.solo,
            index: self.index,
        }
    }
}

/// The reference that `get_reference` builds from a track model.
pub open spec fn reference_of(
    t: TrackView,
    index: usize,
    selected: bool,
    solo: TrackSoloState,
) -> TrackReferenceView {
    TrackReferenceView {
        id: t.id,
        clips: t.clips,
        muted: t.muted,
        volume_bits: t.volume_bits,
        arm: t.arm,
        name: t.mutable.name,
        height_bits: t.mutable.height_bits,
        closed: t.mutable.closed,
        color: t.mutable.color,
        selected,
        solo,
        index,
    }
}

/// Whether a track with these mute and solo states is silent.
pub open spec fn spec_disabled(muted: bool, solo: TrackSoloState) -> bool {
    (muted && solo != TrackSoloState::Solo) || solo == TrackSoloState::Soloing
}

impl TrackReferenceCore {
    /// A track is silent when it is muted and not soloed, or when another track is soloed.
    pub fn disabled(&self) -> (r: bool)
        ensures
            r == spec_disabled(self.muted, self.solo),
    {
        self.muted && !matches!(self.solo, TrackSoloState::Solo) || matches!(
            self.solo,
            TrackSoloState::Soloing
        )
    }
}

/// The pairs (old clip id, new clip id) of a track copy.
pub open spec fn pair_views(s: Seq<(String, String)>) -> Seq<(Seq<char>, Seq<char>)> {
    s.map_values(|p: (String, String)| (p.0@, p.1@))
}

/// The clips of `s` with the ids of `new_ids`, all else unchanged.
pub open spec fn clips_renamed(s: Seq<ClipView>, new_ids: Seq<Seq<char>>) -> Seq<ClipView> {
    Seq::new(s.len(), |i: int| ClipView { id: new_ids[i], ..s[i] })
}

impl TrackCore {
    /// An empty audio track with a fresh id and a random colour.
    pub fn new() -> (t: Self)
        ensures
            t@.id.len() == UUID_TEXT_LEN,
            t@.clips.len() == 0,
            !t@.muted,
            t@.volume_bits == DEFAULT_VOLUME_BITS,
            !t@.arm,
            t@.effects.len() == 0,
            t@.mutable.name == "# Audio Track"@,
            t@.mutable.height_bits == DEFAULT_TRACK_HEIGHT_BITS,
            !t@.mutable.closed,
            t@.old_mutable.name == "# Audio Track"@,
            t@.old_mutable.height_bits == DEFAULT_TRACK_HEIGHT_BITS,
            !t@.old_mutable.closed,
    {
        TrackCore {
            id: new_id(),
            clips: Vec::new(),
            muted: false,
            volume_bits: DEFAULT_VOLUME_BITS,
            arm: false,
            mutable: MutableTrackCore::new(),
            old_mutable: MutableTrackCore::new(),
            effects: Vec::new(),
        }
    }

    /// An empty audio track with the given id and name.
    pub fn from(id: &str, name: &str) -> (t: Self)
        ensures
            t@.id == id@,
            t@.mutable.name == name@,
            t@.clips.len() == 0,
            !t@.muted,
            t@.volume_bits == DEFAULT_VOLUME_BITS,
            !t@.arm,
            t@.effects.len() == 0,
            t@.mutable.height_bits == DEFAULT_TRACK_HEIGHT_BITS,
            !t@.mutable.closed,
            t@.old_mutable.name == "# Audio Track"@,
            t@.old_mutable.height_bits == DEFAULT_TRACK_HEIGHT_BITS,
            !t@.old_mutable.closed,
    {
        let mut track = Self::new();
        track.mutable.name = id_string(name);
        track.id = id_string(id);
        track
    }

    /// A picture of this track at `index`, with the given selection and solo state.
    pub fn get_reference(&self, index: usize, selected: bool, solo: TrackSoloState) -> (r:
        TrackReferenceCore)
        ensures
            r@ == reference_of(self@, index, selected, solo),
    {
        TrackReferenceCore {
            arm: self.arm,
            clips: clone_clips(&self.clips),
            closed: self.mutable.closed,
            color: self.mutable.color,
            height_bits: self.mutable.height_bits,
            id: self.id.clone(),
            muted: self.muted,
            name: self.mutable.name.clone(),
            selected,
            solo,
            volume_bits: self.volume_bits,
            index,
        }
    }

    /// Adds clips at the end of the track, without any overlap check.
    pub fn add_clips_skip_overlap_check(&mut self, clips: Vec<ClipCore>, tx: &mut Vec<PlayerCommand>)
        ensures
            final(self)@ == (TrackView { clips: old(self)@.clips + clip_views(clips@), ..old(self)@ }),
            commands_view(final(tx)@) == commands_view(old(tx)@).push(
                CommandView::AddClips(seq![(old(self)@.id, clip_views(clips@))]),
            ),
    {
        let copy = clone_clips(&clips);
        let mut added = clips;
        self.clips.append(&mut added);
        assert(clip_views(self.clips@) == old(self)@.clips + clip_views(clips@));
        let mut map: Vec<(String, Vec<ClipCore>)> = Vec::new();
        map.push((self.id.clone(), copy));
        assert(crate::command::clip_map_views(map@) =~= seq![(old(self)@.id, clip_views(clips@))]);
        tx.push(PlayerCommand::AddClips(map));
        proof {
            assert(commands_view(tx@) == commands_view(old(tx)@).push(tx@.last()@));
        }
    }

    /// Removes the clips whose id is in `ids`.
    pub fn delete_clips(&mut self, ids: &Vec<String>, tx: &mut Vec<PlayerCommand>)
        ensures
            final(self)@ == (TrackView {
                clips: clips_without(old(self)@.clips, str_views(ids@)),
                ..old(self)@
            }),
            commands_view(final(tx)@) == commands_view(old(tx)@).push(
                CommandView::RemoveClip(str_views(ids@)),
            ),
    {
        let removed = remove_clips_with_ids(&mut self.clips, ids);
        tx.push(PlayerCommand::RemoveClip(clone_strings(ids)));
        proof {
            assert(commands_view(tx@) == commands_view(old(tx)@).push(tx@.last()@));
        }
    }

    /// A copy of this track with a fresh id and fresh clip ids, and the pairs
    /// (old clip id, new clip id).
    pub fn duplicate(&self) -> (r: (Self, Vec<(String, String)>))
        ensures
            r.0@.id.len() == UUID_TEXT_LEN,
            r.0@ == (TrackView {
                id: r.0@.id,
                clips: clips_renamed(self@.clips, r.0@.clips.map_values(|c: ClipView| c.id)),
                ..self@
            }),
            r.0@.clips.len() == self@.clips.len(),
            forall|i: int| 0 <= i < r.0@.clips.len() ==> #[trigger] r.0@.clips[i].id.len() == UUID_TEXT_LEN,
            pair_views(r.1@) == Seq::new(
                self@.clips.len(),
                |i: int| (self@.clips[i].id, r.0@.clips[i].id),
            ),
    {
        let mut clips: Vec<ClipCore> = Vec::new();
        let mut map: Vec<(String, String)> = Vec::new();
        let mut i: usize = 0;
        while i < self.clips.len()
            invariant
                i <= self.clips.len(),
                clips@.len() == i,
                map@.len() == i,
                forall|j: int|
                    0 <= j < i ==> (#[trigger] clips@[j])@ == (ClipView {
                        id: clips@[j]@.id,
                        ..self@.clips[j]
                    }),
                forall|j: int| 0 <= j < i ==> (#[trigger] clips@[j])@.id.len() == UUID_TEXT_LEN,
                forall|j: int|
                    0 <= j < i ==> (#[trigger] map@[j]).0@ == self@.clips[j].id && map@[j].1@
                        == clips@[j]@.id,
            decreases self.clips.len() - i,
        {
            let mut clip = self.clips[i].clone();
            let old_id = clip.id.clone();
            let fresh = new_id();
            clip.id = fresh.clone();
            map.push((old_id, fresh));
            clips.push(clip);
            i = i + 1;
        }
        let copy = TrackCore {
            id: new_id(),
            clips,
            muted: self.muted,
            volume_bits: self.volume_bits,
            arm: self.arm,
            effects: clone_strings(&self.effects),
            mutable: self.mutable.clone(),
            old_mutable: self.old_mutable.clone(),
        };
        assert(clip_views(copy.clips@) =~= clips_renamed(
            self@.clips,
            clip_views(copy.clips@).map_values(|c: ClipView| c.id),
        ));
        assert(pair_views(map@) =~= Seq::new(
            self@.clips.len(),
            |i: int| (self@.clips[i].id, clip_views(copy.clips@)[i].id),
        ));
        (copy, map)
    }

    /// Sets the trims and position of the first clip whose id is `id`; does
    /// nothing if the track holds no such clip.
    pub fn resize_clip_skip_overlap_check(
        &mut self,
        id: &String,
        trim_start_bits: u32,
        trim_end_bits: u32,
        position_bits: u32,
        tx: &mut Vec<PlayerCommand>,
    )
        ensures
            ({
                let k = first_clip_index(old(self)@.clips, id@);
                if k < old(self)@.clips.len() {
                    &&& final(self)@ == (TrackView {
                        clips: old(self)@.clips.update(
                            k,
                            ClipView {
                                trim_start_bits,
                                trim_end_bits,
                                position_bits,
                                ..old(self)@.clips[k]
                            },
                        ),
                        ..old(self)@
                    })
                    &&& commands_view(final(tx)@) == commands_view(old(tx)@).push(
                        CommandView::ResizeClip(id@, trim_start_bits, trim_end_bits, position_bits),
                    )
                } else {
                    &&& final(self)@ == old(self)@
                    &&& final(tx)@ == old(tx)@
                }
            }),
    {
        let k = find_clip(&self.clips, id);
        if k < self.clips.len() {
            let mut clip = self.clips[k].clone();
            clip.trim_start_bits = trim_start_bits;
            clip.trim_end_bits = trim_end_bits;
            clip.position_bits = position_bits;
            self.clips.set(k, clip);
            assert(clip_views(self.clips@) =~= old(self)@.clips.update(
                k as int,
                ClipView {
                    trim_start_bits,
                    trim_end_bits,
                    position_bits,
                    ..old(self)@.clips[k as int]
                },
            ));
            tx.push(PlayerCommand::ResizeClip(id.clone(), trim_start_bits, trim_end_bits, position_bits));
            proof {
                assert(commands_view(tx@) == commands_view(old(tx)@).push(tx@.last()@));
            }
        }
    }

    /// Inserts the effect `effect_id` at `index` in the chain.
    pub fn add_effect(&mut self, effect_id: String, index: usize, tx: &mut Vec<PlayerCommand>)
        requires
            index <= old(self).effects.len(),
        ensures
            final(self)@ == (TrackView {
                effects: old(self)@.effects.insert(index as int, effect_id@),
                ..old(self)@
            }),
            commands_view(final(tx)@) == commands_view(old(tx)@).push(
                CommandView::AddNode(old(self)@.id, index, effect_id@),
            ),
    {
        tx.push(PlayerCommand::AddNode(self.id.clone(), index, effect_id.clone()));
        proof {
            assert(commands_view(tx@) == commands_view(old(tx)@).push(tx@.last()@));
        }
        self.effects.insert(index, effect_id);
        assert(str_views(self.effects@) =~= old(self)@.effects.insert(index as int, effect_id@));
    }

    /// Removes the effects at the positions `indexes`, asking the engine to
    /// remove each of them in chain order.
    pub fn remove_effects(&mut self, indexes: &Vec<usize>, tx: &mut Vec<PlayerCommand>)
        ensures
            final(self)@ == (TrackView {
                effects: effects_kept(old(self)@.effects, indexes@, 0),
                ..old(self)@
            }),
            commands_view(final(tx)@) == commands_view(old(tx)@) + effects_removed(
                old(self)@.id,
                old(self)@.effects,
                indexes@,
                0,
            ),
    {
        let mut kept: Vec<String> = Vec::new();
        let mut i: usize = 0;
        let ghost start_tx = commands_view(tx@);
        while i < self.effects.len()
            invariant
                i <= self.effects.len(),
                self@ == old(self)@,
                str_views(kept@) + effects_kept(self@.effects, indexes@, i as int) == effects_kept(
                    self@.effects,
                    indexes@,
                    0,
                ),
                commands_view(tx@) + effects_removed(self@.id, self@.effects, indexes@, i as int)
                    == start_tx + effects_removed(self@.id, self@.effects, indexes@, 0),
            decreases self.effects.len() - i,
        {
            let ghost before_tx = commands_view(tx@);
            if contains_index(indexes, i) {
                tx.push(PlayerCommand::RemoveNode(self.id.clone(), self.effects[i].clone()));
                assert(commands_view(tx@) == before_tx.push(tx@.last()@));
                assert(effects_removed(self@.id, self@.effects, indexes@, i as int) == seq![
                    CommandView::RemoveNode(self@.id, self@.effects[i as int]),
                ] + effects_removed(self@.id, self@.effects, indexes@, i + 1));
                assert(effects_kept(self@.effects, indexes@, i as int) == effects_kept(
                    self@.effects,
                    indexes@,
                    i + 1,
                ));
            } else {
                kept.push(self.effects[i].clone());
                assert(effects_kept(self@.effects, indexes@, i as int) == seq![self@.effects[i as int]]
                    + effects_kept(self@.effects, indexes@, i + 1));
                assert(effects_removed(self@.id, self@.effects, indexes@, i as int)
                    == effects_removed(self@.id, self@.effects, indexes@, i + 1));
            }
            i = i + 1;
        }
        assert(effects_kept(self@.effects, indexes@, i as int) == Seq::<Seq<char>>::empty());
        assert(effects_removed(self@.id, self@.effects, indexes@, i as int)
            == Seq::<CommandView>::empty());
        assert(str_views(kept@) + Seq::<Seq<char>>::empty() == str_views(kept@));
        assert(commands_view(tx@) + Seq::<CommandView>::empty() == commands_view(tx@));
        self.effects = kept;
    }
}

/// The effects of `e` from position `from` on whose position is not in `indexes`.
pub open spec fn effects_kept(e: Seq<Seq<char>>, indexes: Seq<usize>, from: int) -> Seq<Seq<char>>
    decreases e.len() - from,
{
    if from < 0 || from >= e.len() {
        Seq::empty()
    } else if indexes.contains(from as usize) {
        effects_kept(e, indexes, from + 1)
    } else {
        seq![e[from]] + effects_kept(e, indexes, from + 1)
    }
}

/// The removal commands for the effects of `e` from position `from` on whose
/// position is in `indexes`.
pub open spec fn effects_removed(
    track: Seq<char>,
    e: Seq<Seq<char>>,
    indexes: Seq<usize>,
    from: int,
) -> Seq<CommandView>
    decreases e.len() - from,
{
    if from < 0 || from >= e.len() {
        Seq::empty()
    } else if indexes.contains(from as usize) {
        seq![CommandView::RemoveNode(track, e[from])] + effects_removed(track, e, indexes, from + 1)
    } else {
        effects_removed(track, e, indexes, from + 1)
    }
}

/// How many of the positions `from`, `from + 1`, .., `to - 1` are not in `indexes`.
pub open spec fn unlisted_count(indexes: Seq<usize>, from: int, to: int) -> nat
    decreases to - from,
{
    if from >= to {
        0
    } else if indexes.contains(from as usize) {
        unlisted_count(indexes, from + 1, to)
    } else {
        1 + unlisted_count(indexes, from + 1, to)
    }
}

/// The unlisted positions of `from..to` are those of `from..mid` and those of
/// `mid..to`, and there are at most as many as positions.
proof fn lemma_unlisted_count_split(indexes: Seq<usize>, from: int, mid: int, to: int)
    requires
        from <= mid <= to,
    ensures
        unlisted_count(indexes, from, to) == unlisted_count(indexes, from, mid) + unlisted_count(
            indexes,
            mid,
            to,
        ),
        unlisted_count(indexes, from, to) <= to - from,
    decreases mid - from,
{
    if from < mid {
        lemma_unlisted_count_split(indexes, from + 1, mid, to);
    } else {
        lemma_unlisted_count_bound(indexes, mid, to);
    }
}

/// There are at most as many unlisted positions in `from..to` as positions.
proof fn lemma_unlisted_count_bound(indexes: Seq<usize>, from: int, to: int)
    requires
        from <= to,
    ensures
        unlisted_count(indexes, from, to) <= to - from,
    decreases to - from,
{
    if from < to {
        lemma_unlisted_count_bound(indexes, from + 1, to);
    }
}

/// The effects kept and the removals asked from position `from` on, by position.
proof fn lemma_remove_effects_from(track: Seq<char>, e: Seq<Seq<char>>, indexes: Seq<usize>, from: int)
    requires
        0 <= from <= e.len(),
    ensures
        effects_kept(e, indexes, from).len() == unlisted_count(indexes, from, e.len() as int),
        effects_removed(track, e, indexes, from).len() == (e.len() - from) - unlisted_count(
            indexes,
            from,
            e.len() as int,
        ),
        forall|p: int|
            from <= p < e.len() && !indexes.contains(p as usize) ==> effects_kept(e, indexes, from)[unlisted_count(indexes, from, p) as int]
                == #[trigger] e[p],
        forall|p: int|
            from <= p < e.len() && indexes.contains(p as usize) ==> effects_removed(track, e, indexes, from)[(p - from) - unlisted_count(indexes, from, p)]
                == CommandView::RemoveNode(track, #[trigger] e[p]),
    decreases e.len() - from,
{
    if from < e.len() {
        let len = e.len() as int;
        lemma_remove_effects_from(track, e, indexes, from + 1);
        lemma_unlisted_count_bound(indexes, from + 1, len);
        let r1 = effects_removed(track, e, indexes, from + 1);
        assert forall|p: int|
            from <= p < e.len() && !indexes.contains(p as usize) implies effects_kept(e, indexes, from)[unlisted_count(indexes, from, p) as int]
                == #[trigger] e[p] by {
            if p > from {
                lemma_unlisted_count_split(indexes, from + 1, p, len);
                lemma_unlisted_count_bound(indexes, p + 1, len);
            }
        }
        assert forall|p: int|
            from <= p < e.len() && indexes.contains(p as usize) implies effects_removed(track, e, indexes, from)[(p - from) - unlisted_count(indexes, from, p)]
                == CommandView::RemoveNode(track, #[trigger] e[p]) by {
            if p > from {
                lemma_unlisted_count_split(indexes, from + 1, p, len);
                lemma_unlisted_count_bound(indexes, p + 1, len);
                lemma_unlisted_count_bound(indexes, from + 1, p);
                // the position of the removal among those from `from + 1` on
                let j = (p - (from + 1)) - unlisted_count(indexes, from + 1, p);
                assert(0 <= j < r1.len());
                if indexes.contains(from as usize) {
                    assert((seq![CommandView::RemoveNode(track, e[from])] + r1)[j + 1] == r1[j]);
                }
            }
        }
    }
}

/// Removing the effects at the positions `indexes` keeps exactly the effects
/// at the other positions, in their order, and asks the engine to remove
/// exactly the effects at the listed positions, in chain order: the effect at
/// an unlisted position `p` is found at the position that counts the unlisted
/// positions before `p`, and the removal of the effect at a listed position
/// `p` comes at the position that counts the listed positions before `p`.
pub proof fn law_remove_effects(track: Seq<char>, e: Seq<Seq<char>>, indexes: Seq<usize>)
    ensures
        effects_kept(e, indexes, 0).len() == unlisted_count(indexes, 0, e.len() as int),
        effects_removed(track, e, indexes, 0).len() == e.len() - unlisted_count(
            indexes,
            0,
            e.len() as int,
        ),
        forall|p: int|
            0 <= p < e.len() && !indexes.contains(p as usize) ==> effects_kept(e, indexes, 0)[unlisted_count(indexes, 0, p) as int]
                == #[trigger] e[p],
        forall|p: int|
            0 <= p < e.len() && indexes.contains(p as usize) ==> effects_removed(track, e, indexes, 0)[p - unlisted_count(indexes, 0, p)]
                == CommandView::RemoveNode(track, #[trigger] e[p]),
{
    lemma_remove_effects_from(track, e, indexes, 0);
}

/// Whether `v` holds `x`.
pub fn contains_index(v: &Vec<usize>, x: usize) -> (r: bool)
    ensures
        r == v@.contains(x),
{
    let mut i: usize = 0;
    while i < v.len()
        invariant
            i <= v.len(),
            forall|j: int| 0 <= j < i ==> v@[j] != x,
        decreases v.len() - i,
    {
        if v[i] == x {
            return true;
        }
        i = i + 1;
    }
    false
}

/// A `String` with the text of `s`.
pub fn id_string(s: &str) -> (r: String)
    ensures
        r@ == s@,
{
    s.to_owned()
}

/// Index of the first clip of `clips` whose id is `id`, or the length if there is none.
pub fn find_clip(clips: &Vec<ClipCore>, id: &String) -> (k: usize)
    ensures
        k == first_clip_index(clip_views(clips@), id@),
{
    proof {
        lemma_first_clip_index(clip_views(clips@), id@);
    }
    let mut i: usize = 0;
    while i < clips.len()
        invariant
            i <= clips.len(),
            forall|j: int| 0 <= j < i ==> clip_views(clips@)[j].id != id@,
            0 <= first_clip_index(clip_views(clips@), id@) <= clips.len(),
            first_clip_index(clip_views(clips@), id@) < clips.len() ==> clip_views(clips@)[first_clip_index(clip_views(clips@), id@)].id == id@,
            forall|j: int| 0 <= j < first_clip_index(clip_views(clips@), id@) ==> clip_views(clips@)[j].id != id@,
        decreases clips.len() - i,
    {
        if clips[i].id == *id {
            assert(clip_ids(clip_views(clips@))[i as int] == id@);
            return i;
        }
        i = i + 1;
    }
    i
}

/// Removes from `clips` those whose id is in `ids`, keeping the order of the
/// others, and returns the removed ones in their order.
pub fn remove_clips_with_ids(clips: &mut Vec<ClipCore>, ids: &Vec<String>) -> (removed: Vec<ClipCore>)
    ensures
        clip_views(final(clips)@) == clips_without(clip_views(old(clips)@), str_views(ids@)),
        clip_views(removed@) == clips_within(clip_views(old(clips)@), str_views(ids@)),
{
    let mut kept: Vec<ClipCore> = Vec::new();
    let mut removed: Vec<ClipCore> = Vec::new();
    let mut i: usize = 0;
    let ghost all = clip_views(clips@);
    let ghost idv = str_views(ids@);
    while i < clips.len()
        invariant
            i <= clips.len(),
            clip_views(clips@) == all,
            idv == str_views(ids@),
            clip_views(kept@) == clips_without(all.take(i as int), idv),
            clip_views(removed@) == clips_within(all.take(i as int), idv),
        decreases clips.len() - i,
    {
        assert(all.take(i + 1).drop_last() == all.take(i as int));
        assert(all.take(i + 1).last() == clips@[i as int]@);
        let ghost k0 = clip_views(kept@);
        let ghost r0 = clip_views(removed@);
        let c = clips[i].clone();
        assert(all[i as int] == clips@[i as int]@);
        let hit = contains_str(ids, &clips[i].id);
        assert(hit == idv.contains(all[i as int].id));
        if hit {
            removed.push(c);
            assert(clip_views(removed@) == r0.push(all[i as int]));
            assert(clips_within(all.take(i + 1), idv) == r0.push(all[i as int]));
            assert(clips_without(all.take(i + 1), idv) == k0);
        } else {
            kept.push(c);
            assert(clip_views(kept@) == k0.push(all[i as int]));
            assert(clips_without(all.take(i + 1), idv) == k0.push(all[i as int]));
            assert(clips_within(all.take(i + 1), idv) == r0);
        }
        i = i + 1;
    }
    assert(all.take(i as int) == all);
    *clips = kept;
    removed
}


/// What fixing the overlaps of a new clip does to the first `n` clips of a
/// track: (the clips kept, in order; the clips taken out; the pieces made).
/// For each clip, the timeline tells whether the new clip covers part of it
/// (`overlaps`), whether it sticks out before (`before`) or after (`after`),
/// and what its left and right pieces would be. A clip stays as it is when
/// it is not covered, is the new clip itself, or is to be ignored; otherwise
/// it is taken out, and its sticking-out pieces take its place.
pub open spec fn overlap_plan(
    clips: Seq<ClipView>,
    added_id: Seq<char>,
    ignore: Seq<Seq<char>>,
    overlaps: Seq<bool>,
    before: Seq<bool>,
    after: Seq<bool>,
    lefts: Seq<ClipView>,
    rights: Seq<ClipView>,
    n: nat,
) -> (Seq<ClipView>, Seq<ClipView>, Seq<ClipView>)
    decreases n,
{
    if n == 0 {
        (Seq::empty(), Seq::empty(), Seq::empty())
    } else {
        let i = n - 1;
        let (k, d, c) = overlap_plan(clips, added_id, ignore, overlaps, before, after, lefts, rights, (n - 1) as nat);
        let clip = clips[i];
        if !overlaps[i] || clip.id == added_id || ignore.contains(clip.id) {
            (k.push(clip), d, c)
        } else {
            let (k1, c1) = if before[i] { (k.push(lefts[i]), c.push(lefts[i])) } else { (k, c) };
            let (k2, c2) = if after[i] { (k1.push(rights[i]), c1.push(rights[i])) } else { (k1, c1) };
            (k2, d.push(clip), c2)
        }
    }
}

/// Fixes the overlaps of a new clip on a track, given what the timeline
/// found of each clip (see `overlap_plan`): returns the clips kept, the
/// clips taken out and the pieces made.
pub fn fix_overlaps(
    clips: &Vec<ClipCore>,
    added_id: &String,
    ignore: &Vec<String>,
    overlaps: &Vec<bool>,
    before: &Vec<bool>,
    after: &Vec<bool>,
    lefts: &Vec<ClipCore>,
    rights: &Vec<ClipCore>,
) -> (r: (Vec<ClipCore>, Vec<ClipCore>, Vec<ClipCore>))
    requires
        overlaps@.len() == clips@.len(),
        before@.len() == clips@.len(),
        after@.len() == clips@.len(),
        lefts@.len() == clips@.len(),
        rights@.len() == clips@.len(),
    ensures
        (clip_views(r.0@), clip_views(r.1@), clip_views(r.2@)) == overlap_plan(
            clip_views(clips@),
            added_id@,
            str_views(ignore@),
            overlaps@,
            before@,
            after@,
            clip_views(lefts@),
            clip_views(rights@),
            clips@.len(),
        ),
{
    let ghost cv = clip_views(clips@);
    let ghost lv = clip_views(lefts@);
    let ghost rv = clip_views(rights@);
    let ghost iv = str_views(ignore@);
    let mut kept: Vec<ClipCore> = Vec::new();
    let mut deleted: Vec<ClipCore> = Vec::new();
    let mut created: Vec<ClipCore> = Vec::new();
    let mut i: usize = 0;
    while i < clips.len()
        invariant
            i <= clips.len(),
            overlaps@.len() == clips@.len(),
            before@.len() == clips@.len(),
            after@.len() == clips@.len(),
            lefts@.len() == clips@.len(),
            rights@.len() == clips@.len(),
            cv == clip_views(clips@),
            lv == clip_views(lefts@),
            rv == clip_views(rights@),
            iv == str_views(ignore@),
            (clip_views(kept@), clip_views(deleted@), clip_views(created@)) == overlap_plan(
                cv, added_id@, iv, overlaps@, before@, after@, lv, rv, i as nat),
        decreases clips.len() - i,
    {
        let ghost k0 = clip_views(kept@);
        let ghost d0 = clip_views(deleted@);
        let ghost c0 = clip_views(created@);
        assert(cv[i as int] == clips@[i as int]@);
        assert(lv[i as int] == lefts@[i as int]@);
        assert(rv[i as int] == rights@[i as int]@);
        let skip = !overlaps[i] || clips[i].id == *added_id || contains_str(ignore, &clips[i].id);
        if skip {
            kept.push(clips[i].clone());
            assert(clip_views(kept@) =~= k0.push(cv[i as int]));
        } else {
            deleted.push(clips[i].clone());
            assert(clip_views(deleted@) =~= d0.push(cv[i as int]));
            let ghost k1 = clip_views(kept@);
            let ghost c1 = clip_views(created@);
            if before[i] {
                kept.push(lefts[i].clone());
                created.push(lefts[i].clone());
                assert(clip_views(kept@) =~= k1.push(lv[i as int]));
                assert(clip_views(created@) =~= c1.push(lv[i as int]));
            }
            let ghost k2 = clip_views(kept@);
            let ghost c2 = clip_views(created@);
            if after[i] {
                kept.push(rights[i].clone());
                created.push(rights[i].clone());
                assert(clip_views(kept@) =~= k2.push(rv[i as int]));
                assert(clip_views(created@) =~= c2.push(rv[i as int]));
            }
        }
        i = i + 1;
    }
    (kept, deleted, created)
}
/// Whether placing the new clip `added_id` leaves the `i`-th clip of `clips`
/// as it is: the new clip does not cover it, it is the new clip itself, or it
/// is to be ignored.
pub open spec fn clip_untouched(
    clips: Seq<ClipView>,
    added_id: Seq<char>,
    ignore: Seq<Seq<char>>,
    overlaps: Seq<bool>,
    i: int,
) -> bool {
    !overlaps[i] || clips[i].id == added_id || ignore.contains(clips[i].id)
}

/// Placing a clip on a track, over its first `n` clips: every clip that the
/// new clip leaves as it is stays among the kept clips; every clip it covers
/// is taken out; the left piece of a covered clip is kept and made whenever
/// the clip sticks out before the new clip, and its right piece whenever it
/// sticks out after it, whatever the other side does. Nothing else is kept,
/// taken out or made.
pub proof fn law_overlap_plan(
    clips: Seq<ClipView>,
    added_id: Seq<char>,
    ignore: Seq<Seq<char>>,
    overlaps: Seq<bool>,
    before: Seq<bool>,
    after: Seq<bool>,
    lefts: Seq<ClipView>,
    rights: Seq<ClipView>,
    n: nat,
)
    requires
        n <= clips.len(),
        overlaps.len() == clips.len(),
        before.len() == clips.len(),
        after.len() == clips.len(),
        lefts.len() == clips.len(),
        rights.len() == clips.len(),
    ensures
        ({
            let (kept, deleted, created) = overlap_plan(
                clips,
                added_id,
                ignore,
                overlaps,
                before,
                after,
                lefts,
                rights,
                n,
            );
            &&& forall|i: int|
                0 <= i < n && clip_untouched(clips, added_id, ignore, overlaps, i) ==> kept.contains(
                    #[trigger] clips[i],
                )
            &&& forall|i: int|
                0 <= i < n && !clip_untouched(clips, added_id, ignore, overlaps, i) ==> deleted.contains(
                    #[trigger] clips[i],
                )
            &&& forall|i: int|
                0 <= i < n && !clip_untouched(clips, added_id, ignore, overlaps, i) && before[i]
                    ==> kept.contains(#[trigger] lefts[i]) && created.contains(lefts[i])
            &&& forall|i: int|
                0 <= i < n && !clip_untouched(clips, added_id, ignore, overlaps, i) && after[i]
                    ==> kept.contains(#[trigger] rights[i]) && created.contains(rights[i])
            &&& forall|x: ClipView|
                #[trigger] kept.contains(x) ==> exists|i: int|
                    #![trigger clip_untouched(clips, added_id, ignore, overlaps, i)]
                    0 <= i < n && ((clip_untouched(clips, added_id, ignore, overlaps, i) && clips[i] == x)
                        || (!clip_untouched(clips, added_id, ignore, overlaps, i) && before[i] && lefts[i] == x)
                        || (!clip_untouched(clips, added_id, ignore, overlaps, i) && after[i] && rights[i] == x))
            &&& forall|x: ClipView|
                #[trigger] deleted.contains(x) ==> exists|i: int|
                    #![trigger clip_untouched(clips, added_id, ignore, overlaps, i)]
                    0 <= i < n && !clip_untouched(clips, added_id, ignore, overlaps, i) && clips[i] == x
            &&& forall|x: ClipView|
                #[trigger] created.contains(x) ==> exists|i: int|
                    #![trigger clip_untouched(clips, added_id, ignore, overlaps, i)]
                    0 <= i < n && !clip_untouched(clips, added_id, ignore, overlaps, i) && ((before[i]
                        && lefts[i] == x) || (after[i] && rights[i] == x))
        }),
    decreases n,
{
    broadcast use vstd::seq_lib::lemma_seq_contains_after_push;

    if n > 0 {
        let m = (n - 1) as nat;
        let j = n - 1;
        law_overlap_plan(clips, added_id, ignore, overlaps, before, after, lefts, rights, m);
        let (k, d, c) = overlap_plan(clips, added_id, ignore, overlaps, before, after, lefts, rights, m);
        let (k2, d2, c2) = overlap_plan(
            clips,
            added_id,
            ignore,
            overlaps,
            before,
            after,
            lefts,
            rights,
            n,
        );
        let u = clip_untouched(clips, added_id, ignore, overlaps, j);
        // what the last clip adds to each of the three
        assert(forall|x: ClipView|
            #[trigger] k2.contains(x) <==> k.contains(x) || (u && x == clips[j]) || (!u && before[j]
                && x == lefts[j]) || (!u && after[j] && x == rights[j]));
        assert(forall|x: ClipView|
            #[trigger] d2.contains(x) <==> d.contains(x) || (!u && x == clips[j]));
        assert(forall|x: ClipView|
            #[trigger] c2.contains(x) <==> c.contains(x) || (!u && before[j] && x == lefts[j]) || (!u
                && after[j] && x == rights[j]));
        assert forall|i: int|
            0 <= i < n && clip_untouched(clips, added_id, ignore, overlaps, i) implies k2.contains(
            #[trigger] clips[i],
        ) by {
            if i < j {
                assert(k.contains(clips[i]));
            }
        }
        assert forall|i: int|
            0 <= i < n && !clip_untouched(clips, added_id, ignore, overlaps, i) implies d2.contains(
            #[trigger] clips[i],
        ) by {
            if i < j {
                assert(d.contains(clips[i]));
            }
        }
        assert forall|i: int|
            0 <= i < n && !clip_untouched(clips, added_id, ignore, overlaps, i) && before[i]
                implies k2.contains(#[trigger] lefts[i]) && c2.contains(lefts[i]) by {
            if i < j {
                assert(k.contains(lefts[i]) && c.contains(lefts[i]));
            }
        }
        assert forall|i: int|
            0 <= i < n && !clip_untouched(clips, added_id, ignore, overlaps, i) && after[i]
                implies k2.contains(#[trigger] rights[i]) && c2.contains(rights[i]) by {
            if i < j {
                assert(k.contains(rights[i]) && c.contains(rights[i]));
            }
        }
        assert forall|x: ClipView| #[trigger] k2.contains(x) implies exists|i: int|
            #![trigger clip_untouched(clips, added_id, ignore, overlaps, i)]
            0 <= i < n && ((clip_untouched(clips, added_id, ignore, overlaps, i) && clips[i] == x)
                || (!clip_untouched(clips, added_id, ignore, overlaps, i) && before[i] && lefts[i] == x)
                || (!clip_untouched(clips, added_id, ignore, overlaps, i) && after[i] && rights[i] == x)) by {
            if !k.contains(x) {
                assert(clip_untouched(clips, added_id, ignore, overlaps, j) == u);
            }
        }
        assert forall|x: ClipView| #[trigger] d2.contains(x) implies exists|i: int|
            #![trigger clip_untouched(clips, added_id, ignore, overlaps, i)]
            0 <= i < n && !clip_untouched(clips, added_id, ignore, overlaps, i) && clips[i] == x by {
            if !d.contains(x) {
                assert(clip_untouched(clips, added_id, ignore, overlaps, j) == u);
            }
        }
        assert forall|x: ClipView| #[trigger] c2.contains(x) implies exists|i: int|
            #![trigger clip_untouched(clips, added_id, ignore, overlaps, i)]
            0 <= i < n && !clip_untouched(clips, added_id, ignore, overlaps, i) && ((before[i]
                && lefts[i] == x) || (after[i] && rights[i] == x)) by {
            if !c.contains(x) {
                assert(clip_untouched(clips, added_id, ignore, overlaps, j) == u);
            }
        }
    }
}

/// How many entries of the kept clips placing the new clip gives for the
/// `i`-th clip: the clip itself when it is left as it is, else one piece for
/// each side on which it sticks out.
pub open spec fn kept_share(
    clips: Seq<ClipView>,
    added_id: Seq<char>,
    ignore: Seq<Seq<char>>,
    overlaps: Seq<bool>,
    before: Seq<bool>,
    after: Seq<bool>,
    i: int,
) -> nat {
    if clip_untouched(clips, added_id, ignore, overlaps, i) {
        1
    } else {
        made_share(clips, added_id, ignore, overlaps, before, after, i)
    }
}

/// How many pieces placing the new clip makes of the `i`-th clip: none when
/// it is left as it is, else one for each side on which it sticks out.
pub open spec fn made_share(
    clips: Seq<ClipView>,
    added_id: Seq<char>,
    ignore: Seq<Seq<char>>,
    overlaps: Seq<bool>,
    before: Seq<bool>,
    after: Seq<bool>,
    i: int,
) -> nat {
    if clip_untouched(clips, added_id, ignore, overlaps, i) {
        0
    } else {
        (if before[i] {
            1nat
        } else {
            0nat
        }) + (if after[i] {
            1nat
        } else {
            0nat
        })
    }
}

/// How many entries of the kept clips come from the clips before the `i`-th.
pub open spec fn kept_before(
    clips: Seq<ClipView>,
    added_id: Seq<char>,
    ignore: Seq<Seq<char>>,
    overlaps: Seq<bool>,
    before: Seq<bool>,
    after: Seq<bool>,
    i: nat,
) -> nat
    decreases i,
{
    if i == 0 {
        0
    } else {
        kept_before(clips, added_id, ignore, overlaps, before, after, (i - 1) as nat) + kept_share(
            clips,
            added_id,
            ignore,
            overlaps,
            before,
            after,
            i - 1,
        )
    }
}

/// How many of the clips before the `i`-th are taken out.
pub open spec fn taken_before(
    clips: Seq<ClipView>,
    added_id: Seq<char>,
    ignore: Seq<Seq<char>>,
    overlaps: Seq<bool>,
    i: nat,
) -> nat
    decreases i,
{
    if i == 0 {
        0
    } else {
        taken_before(clips, added_id, ignore, overlaps, (i - 1) as nat) + if clip_untouched(
            clips,
            added_id,
            ignore,
            overlaps,
            i - 1,
        ) {
            0nat
        } else {
            1nat
        }
    }
}

/// How many pieces are made of the clips before the `i`-th.
pub open spec fn made_before(
    clips: Seq<ClipView>,
    added_id: Seq<char>,
    ignore: Seq<Seq<char>>,
    overlaps: Seq<bool>,
    before: Seq<bool>,
    after: Seq<bool>,
    i: nat,
) -> nat
    decreases i,
{
    if i == 0 {
        0
    } else {
        made_before(clips, added_id, ignore, overlaps, before, after, (i - 1) as nat) + made_share(
            clips,
            added_id,
            ignore,
            overlaps,
            before,
            after,
            i - 1,
        )
    }
}

/// The counts before a clip, with its own share, do not exceed the counts
/// before any later clip.
proof fn lemma_counts_before_grow(
    clips: Seq<ClipView>,
    added_id: Seq<char>,
    ignore: Seq<Seq<char>>,
    overlaps: Seq<bool>,
    before: Seq<bool>,
    after: Seq<bool>,
    i: nat,
    m: nat,
)
    requires
        i < m,
    ensures
        kept_before(clips, added_id, ignore, overlaps, before, after, i) + kept_share(
            clips,
            added_id,
            ignore,
            overlaps,
            before,
            after,
            i as int,
        ) <= kept_before(clips, added_id, ignore, overlaps, before, after, m),
        taken_before(clips, added_id, ignore, overlaps, i) + (if clip_untouched(
            clips,
            added_id,
            ignore,
            overlaps,
            i as int,
        ) {
            0nat
        } else {
            1nat
        }) <= taken_before(clips, added_id, ignore, overlaps, m),
        made_before(clips, added_id, ignore, overlaps, before, after, i) + made_share(
            clips,
            added_id,
            ignore,
            overlaps,
            before,
            after,
            i as int,
        ) <= made_before(clips, added_id, ignore, overlaps, before, after, m),
    decreases m,
{
    if i + 1 < m {
        lemma_counts_before_grow(clips, added_id, ignore, overlaps, before, after, i, (m - 1) as nat);
    }
}

/// Placing a clip on a track keeps the order of the track: over its first
/// `n` clips, the kept clips are, clip after clip, the clip itself when the
/// new clip leaves it as it is, else its left piece when it sticks out before
/// the new clip and then its right piece when it sticks out after it; the
/// clips taken out are the covered clips in track order, and the pieces made
/// are the same pieces in the same order. Each entry stands at the position
/// that counts the entries given by the clips before it.
#[verifier::spinoff_prover]
#[verifier::rlimit(40)]
pub proof fn law_overlap_plan_order(
    clips: Seq<ClipView>,
    added_id: Seq<char>,
    ignore: Seq<Seq<char>>,
    overlaps: Seq<bool>,
    before: Seq<bool>,
    after: Seq<bool>,
    lefts: Seq<ClipView>,
    rights: Seq<ClipView>,
    n: nat,
)
    requires
        n <= clips.len(),
        overlaps.len() == clips.len(),
        before.len() == clips.len(),
        after.len() == clips.len(),
        lefts.len() == clips.len(),
        rights.len() == clips.len(),
    ensures
        ({
            let (kept, deleted, created) = overlap_plan(
                clips,
                added_id,
                ignore,
                overlaps,
                before,
                after,
                lefts,
                rights,
                n,
            );
            &&& kept.len() == kept_before(clips, added_id, ignore, overlaps, before, after, n)
            &&& deleted.len() == taken_before(clips, added_id, ignore, overlaps, n)
            &&& created.len() == made_before(clips, added_id, ignore, overlaps, before, after, n)
            &&& forall|i: int|
                0 <= i < n && clip_untouched(clips, added_id, ignore, overlaps, i) ==> kept[kept_before(
                    clips,
                    added_id,
                    ignore,
                    overlaps,
                    before,
                    after,
                    i as nat,
                ) as int] == #[trigger] clips[i]
            &&& forall|i: int|
                0 <= i < n && !clip_untouched(clips, added_id, ignore, overlaps, i) ==> deleted[taken_before(
                    clips,
                    added_id,
                    ignore,
                    overlaps,
                    i as nat,
                ) as int] == #[trigger] clips[i]
            &&& forall|i: int|
                0 <= i < n && !clip_untouched(clips, added_id, ignore, overlaps, i) && before[i]
                    ==> kept[kept_before(clips, added_id, ignore, overlaps, before, after, i as nat) as int]
                    == #[trigger] lefts[i] && created[made_before(
                    clips,
                    added_id,
                    ignore,
                    overlaps,
                    before,
                    after,
                    i as nat,
                ) as int] == lefts[i]
            &&& forall|i: int|
                0 <= i < n && !clip_untouched(clips, added_id, ignore, overlaps, i) && after[i]
                    ==> kept[kept_before(clips, added_id, ignore, overlaps, before, after, i as nat) + if before[i] {
                    1int
                } else {
                    0int
                }] == #[trigger] rights[i] && created[made_before(
                    clips,
                    added_id,
                    ignore,
                    overlaps,
                    before,
                    after,
                    i as nat,
                ) + if before[i] {
                    1int
                } else {
                    0int
                }] == rights[i]
        }),
    decreases n,
{
    if n > 0 {
        let m = (n - 1) as nat;
        let j = m as int;
        law_overlap_plan_order(clips, added_id, ignore, overlaps, before, after, lefts, rights, m);
        let (k, d, c) = overlap_plan(clips, added_id, ignore, overlaps, before, after, lefts, rights, m);
        let (k2, d2, c2) = overlap_plan(
            clips,
            added_id,
            ignore,
            overlaps,
            before,
            after,
            lefts,
            rights,
            n,
        );
        let u = clip_untouched(clips, added_id, ignore, overlaps, j);
        let kb = kept_before(clips, added_id, ignore, overlaps, before, after, m);
        let tb = taken_before(clips, added_id, ignore, overlaps, m);
        let mb = made_before(clips, added_id, ignore, overlaps, before, after, m);
        let b1: int = if before[j] { 1 } else { 0 };
        if u {
            assert(k2 == k.push(clips[j]) && d2 == d && c2 == c);
        } else {
            let (k1, c1) = if before[j] {
                (k.push(lefts[j]), c.push(lefts[j]))
            } else {
                (k, c)
            };
            assert(d2 == d.push(clips[j]));
            assert(k1.len() == k.len() + b1 && c1.len() == c.len() + b1);
            assert(before[j] ==> k1[kb as int] == lefts[j] && c1[mb as int] == lefts[j]);
            assert(forall|x: int| 0 <= x < k.len() ==> #[trigger] k1[x] == k[x]);
            assert(forall|x: int| 0 <= x < c.len() ==> #[trigger] c1[x] == c[x]);
            if after[j] {
                assert(k2 == k1.push(rights[j]) && c2 == c1.push(rights[j]));
            } else {
                assert(k2 == k1 && c2 == c1);
            }
        }
        // the entries of the earlier clips stay where they were
        assert(forall|x: int| 0 <= x < k.len() ==> #[trigger] k2[x] == k[x]);
        assert(forall|x: int| 0 <= x < d.len() ==> #[trigger] d2[x] == d[x]);
        assert(forall|x: int| 0 <= x < c.len() ==> #[trigger] c2[x] == c[x]);
        assert forall|i: int|
            0 <= i < n && clip_untouched(clips, added_id, ignore, overlaps, i) implies k2[kept_before(
                clips,
                added_id,
                ignore,
                overlaps,
                before,
                after,
                i as nat,
            ) as int] == #[trigger] clips[i] by {
            if i < j {
                lemma_counts_before_grow(clips, added_id, ignore, overlaps, before, after, i as nat, m);
            }
        }
        assert forall|i: int|
            0 <= i < n && !clip_untouched(clips, added_id, ignore, overlaps, i) implies d2[taken_before(
                clips,
                added_id,
                ignore,
                overlaps,
                i as nat,
            ) as int] == #[trigger] clips[i] by {
            if i < j {
                lemma_counts_before_grow(clips, added_id, ignore, overlaps, before, after, i as nat, m);
            }
        }
        assert forall|i: int|
            0 <= i < n && !clip_untouched(clips, added_id, ignore, overlaps, i) && before[i]
                implies k2[kept_before(clips, added_id, ignore, overlaps, before, after, i as nat) as int]
                == #[trigger] lefts[i] && c2[made_before(
                clips,
                added_id,
                ignore,
                overlaps,
                before,
                after,
                i as nat,
            ) as int] == lefts[i] by {
            if i < j {
                lemma_counts_before_grow(clips, added_id, ignore, overlaps, before, after, i as nat, m);
            }
        }
        assert forall|i: int|
            0 <= i < n && !clip_untouched(clips, added_id, ignore, overlaps, i) && after[i]
                implies k2[kept_before(clips, added_id, ignore, overlaps, before, after, i as nat) + if before[i] {
                1int
            } else {
                0int
            }] == #[trigger] rights[i] && c2[made_before(
                clips,
                added_id,
                ignore,
                overlaps,
                before,
                after,
                i as nat,
            ) + if before[i] {
                1int
            } else {
                0int
            }] == rights[i] by {
            if i < j {
                lemma_counts_before_grow(clips, added_id, ignore, overlaps, before, after, i as nat, m);
            }
        }
    }
}

} // verus!
