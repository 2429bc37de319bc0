use crate::service::{first_index, lemma_first_index, master_id, seq_without};
use crate::command::{clip_map_views, trim_views};
use crate::track::{
    clip_ids, clip_views, clips_without, clone_clips, first_clip_index, lemma_first_clip_index, str_views, contains_str,
    find_clip, id_string, ClipCore, ClipView, DEFAULT_VOLUME_BITS,
};
use vstd::prelude::*;

verus! {

/// The children of a bus track: the ids of the tracks mixed into it, in order.
pub struct BusTrackData {
    pub children: Vec<String>,
}

impl BusTrackData {
    /// A bus with no children.
    pub fn new() -> (b: Self)
        ensures
            b.children@.len() == 0,
    {
        BusTrackData { children: Vec::new() }
    }
}

/// What a track of the audio engine plays: clips of audio files, a MIDI
/// instrument, or the mix of other tracks.
pub enum TrackKind {
    Audio(Vec<ClipCore>),
    Midi,
    Bus(BusTrackData),
}

/// Mathematical model of a track kind.
pub enum KindView {
    Audio(Seq<ClipView>),
    Midi,
    Bus(Seq<Seq<char>>),
}

impl View for TrackKind {
    type V = KindView;

    open spec fn view(&self) -> KindView {
        match self {
            TrackKind::Audio(c) => KindView::Audio(clip_views(c@)),
            TrackKind::Midi => KindView::Midi,
            TrackKind::Bus(b) => KindView::Bus(str_views(b.children@)),
        }
    }
}

/// An effect node in the chain of a track. Its effect id names it, but only
/// the node added last under an effect id is reached through that id: that
/// node is `bound`. A node added earlier under the same id stays in the chain.
pub struct EffectNode {
    pub effect_id: String,
    pub bound: bool,
    pub enabled: bool,
}

/// Mathematical model of an effect node.
pub struct NodeView {
    pub effect_id: Seq<char>,
    pub bound: bool,
    pub enabled: bool,
}

impl View for EffectNode {
    type V = NodeView;

    open spec fn view(&self) -> NodeView {
        NodeView { effect_id: self.effect_id@, bound: self.bound, enabled: self.enabled }
    }
}

/// The models of an effect chain.
pub open spec fn node_views(s: Seq<EffectNode>) -> Seq<NodeView> {
    s.map_values(|n: EffectNode| n@)
}

/// A track of the audio engine. Its volume is an `f32` kept as its bit pattern.
pub struct TrackBackend {
    pub id: String,
    pub volume_bits: u32,
    pub kind: TrackKind,
    pub muted: bool,
    pub nodes: Vec<EffectNode>,
}

/// Mathematical model of an engine track.
pub struct BackendView {
    pub id: Seq<char>,
    pub volume_bits: u32,
    pub kind: KindView,
    pub muted: bool,
    pub nodes: Seq<NodeView>,
}

impl View for TrackBackend {
    type V = BackendView;

    open spec fn view(&self) -> BackendView {
        BackendView {
            id: self.id@,
            volume_bits: self.volume_bits,
            kind: self.kind@,
            muted: self.muted,
            nodes: node_views(self.nodes@),
        }
    }
}

/// Index of the node that the effect id `e` reaches, or `s.len()` if none does.
pub open spec fn bound_index(s: Seq<NodeView>, e: Seq<char>) -> int
    decreases s.len(),
{
    if s.len() == 0 {
        0
    } else if s[0].bound && s[0].effect_id == e {
        0
    } else {
        1 + bound_index(s.drop_first(), e)
    }
}

pub proof fn lemma_bound_index(s: Seq<NodeView>, e: Seq<char>)
    ensures
        0 <= bound_index(s, e) <= s.len(),
        bound_index(s, e) < s.len() ==> s[bound_index(s, e)].bound && s[bound_index(
            s,
            e,
        )].effect_id == e,
        forall|j: int| 0 <= j < bound_index(s, e) ==> !(s[j].bound && s[j].effect_id == e),
    decreases s.len(),
{
    if s.len() > 0 && !(s[0].bound && s[0].effect_id == e) {
        lemma_bound_index(s.drop_first(), e);
        assert forall|j: int| 0 <= j < bound_index(s, e) implies !(s[j].bound && s[j].effect_id
            == e) by {
            if j > 0 {
                assert(s[j] == s.drop_first()[j - 1]);
            }
        }
    }
}

/// The chain `s` with every node of effect id `e` no longer bound.
pub open spec fn nodes_unbound(s: Seq<NodeView>, e: Seq<char>) -> Seq<NodeView> {
    s.map_values(|n: NodeView| if n.effect_id == e { NodeView { bound: false, ..n } } else { n })
}

/// The chain `s` with a new enabled node of effect id `e` at `index`, the only
/// one that `e` reaches.
pub open spec fn node_added(s: Seq<NodeView>, index: int, e: Seq<char>) -> Seq<NodeView> {
    nodes_unbound(s, e).insert(index, NodeView { effect_id: e, bound: true, enabled: true })
}

/// The chain `s` without the node that `e` reaches, if there is one.
pub open spec fn node_removed(s: Seq<NodeView>, e: Seq<char>) -> Seq<NodeView> {
    let b = bound_index(s, e);
    if b < s.len() {
        s.remove(b)
    } else {
        s
    }
}

/// The chain `s` with the node that `e` reaches, if there is one, switched
/// on or off.
pub open spec fn node_switched(s: Seq<NodeView>, e: Seq<char>, enabled: bool) -> Seq<NodeView> {
    let b = bound_index(s, e);
    if b < s.len() {
        s.update(b, NodeView { enabled, ..s[b] })
    } else {
        s
    }
}

/// Whether the track `t` is an audio track holding a clip of id `c`.
pub open spec fn holds_clip(t: BackendView, c: Seq<char>) -> bool {
    match t.kind {
        KindView::Audio(clips) => clip_ids(clips).contains(c),
        _ => false,
    }
}

/// Whether a track is silent given the soloed tracks: it is muted and not
/// soloed, or another track is soloed.
pub open spec fn spec_track_disabled(muted: bool, id: Seq<char>, solo: Seq<Seq<char>>) -> bool {
    (muted && !solo.contains(id)) || (solo.len() > 0 && !solo.contains(id))
}

/// Copies an effect chain.
fn clone_nodes(s: &Vec<EffectNode>) -> (r: Vec<EffectNode>)
    ensures
        node_views(r@) == node_views(s@),
{
    let mut r: Vec<EffectNode> = Vec::new();
    let mut i: usize = 0;
    while i < s.len()
        invariant
            i <= s.len(),
            node_views(r@) == node_views(s@).take(i as int),
        decreases s.len() - i,
    {
        let n = EffectNode {
            effect_id: s[i].effect_id.clone(),
            bound: s[i].bound,
            enabled: s[i].enabled,
        };
        r.push(n);
        assert(node_views(s@).take(i + 1) == node_views(s@).take(i as int).push(s@[i as int]@));
        i = i + 1;
    }
    assert(node_views(s@).take(i as int) == node_views(s@));
    r
}

impl TrackBackend {
    /// An audio track with no clip and no effect.
    pub fn new(id: String, volume_bits: u32) -> (t: Self)
        ensures
            t@ == (BackendView {
                id: id@,
                volume_bits,
                kind: KindView::Audio(Seq::empty()),
                muted: false,
                nodes: Seq::empty(),
            }),
    {
        let t = TrackBackend {
            id,
            volume_bits,
            kind: TrackKind::Audio(Vec::new()),
            muted: false,
            nodes: Vec::new(),
        };
        assert(clip_views(Seq::<ClipCore>::empty()) =~= Seq::<ClipView>::empty());
        assert(node_views(t.nodes@) =~= Seq::<NodeView>::empty());
        t
    }

    /// An audio track at full volume.
    pub fn new_audio_track(id: &String) -> (t: Self)
        ensures
            t@ == audio_track_view(id@),
    {
        TrackBackend::new(id.clone(), DEFAULT_VOLUME_BITS)
    }

    /// A bus track at full volume with no children.
    pub fn new_bus(id: &str) -> (t: Self)
        ensures
            t@ == (BackendView {
                id: id@,
                volume_bits: DEFAULT_VOLUME_BITS,
                kind: KindView::Bus(Seq::empty()),
                muted: false,
                nodes: Seq::empty(),
            }),
    {
        let bus = BusTrackData::new();
        assert(str_views(bus.children@) =~= Seq::<Seq<char>>::empty());
        let t = TrackBackend {
            id: id_string(id),
            volume_bits: DEFAULT_VOLUME_BITS,
            kind: TrackKind::Bus(bus),
            muted: false,
            nodes: Vec::new(),
        };
        assert(node_views(t.nodes@) =~= Seq::<NodeView>::empty());
        t
    }

    /// Whether the track is silent: muted and not soloed, or some other track
    /// is soloed.
    pub fn disabled(&self, solo_tracks: &Vec<String>) -> (r: bool)
        ensures
            r == spec_track_disabled(self.muted, self.id@, str_views(solo_tracks@)),
    {
        let soloed = contains_str(solo_tracks, &self.id);
        (self.muted && !soloed) || (solo_tracks.len() > 0 && !soloed)
    }

    /// Takes out the first clip of id `id`, if the track is an audio track
    /// holding one.
    pub fn remove_clip(&mut self, id: &String) -> (r: Option<ClipCore>)
        ensures
            final(self)@.id == old(self)@.id,
            final(self)@.volume_bits == old(self)@.volume_bits,
            final(self)@.muted == old(self)@.muted,
            final(self)@.nodes == old(self)@.nodes,
            match old(self)@.kind {
                KindView::Audio(c) => {
                    let k = first_clip_index(c, id@);
                    if k < c.len() {
                        &&& r matches Some(x) && x@ == c[k]
                        &&& final(self)@.kind == KindView::Audio(c.remove(k))
                    } else {
                        r is None && final(self)@.kind == old(self)@.kind
                    }
                },
                _ => r is None && final(self)@.kind == old(self)@.kind,
            },
    {
        match &mut self.kind {
            TrackKind::Audio(clips) => {
                let k = find_clip(clips, id);
                if k < clips.len() {
                    let c = clips.remove(k);
                    assert(clip_views(clips@) =~= clip_views(old(self).kind->Audio_0@).remove(
                        k as int,
                    ));
                    Some(c)
                } else {
                    None
                }
            },
            _ => None,
        }
    }

    /// Inserts a node of effect id `effect_id` at `index` in the chain; it
    /// becomes the node that the id reaches.
    pub fn add_node(&mut self, effect_id: String, index: usize)
        requires
            index <= old(self).nodes@.len(),
        ensures
            final(self)@ == (BackendView {
                nodes: node_added(old(self)@.nodes, index as int, effect_id@),
                ..old(self)@
            }),
    {
        let ghost before = node_views(self.nodes@);
        let mut nodes: Vec<EffectNode> = Vec::new();
        let mut i: usize = 0;
        while i < self.nodes.len()
            invariant
                i <= self.nodes.len(),
                index <= self.nodes.len(),
                before == node_views(self.nodes@),
                node_views(nodes@) == nodes_unbound(before, effect_id@).take(i as int),
            decreases self.nodes.len() - i,
        {
            let same = self.nodes[i].effect_id == effect_id;
            let n = EffectNode {
                effect_id: self.nodes[i].effect_id.clone(),
                bound: self.nodes[i].bound && !same,
                enabled: self.nodes[i].enabled,
            };
            nodes.push(n);
            assert(nodes_unbound(before, effect_id@).take(i + 1) == nodes_unbound(
                before,
                effect_id@,
            ).take(i as int).push(n@));
            i = i + 1;
        }
        assert(nodes_unbound(before, effect_id@).take(i as int) == nodes_unbound(before, effect_id@));
        let ghost e = effect_id@;
        nodes.insert(index, EffectNode { effect_id, bound: true, enabled: true });
        assert(node_views(nodes@) =~= node_added(before, index as int, e));
        self.nodes = nodes;
    }

    /// Removes the node that `effect_id` reaches and returns its index in the
    /// chain; does nothing if the id reaches no node.
    pub fn remove_node(&mut self, effect_id: &String) -> (r: Option<usize>)
        ensures
            final(self)@ == (BackendView {
                nodes: node_removed(old(self)@.nodes, effect_id@),
                ..old(self)@
            }),
            r == (if bound_index(old(self)@.nodes, effect_id@) < old(self)@.nodes.len() {
                Some(bound_index(old(self)@.nodes, effect_id@) as usize)
            } else {
                None::<usize>
            }),
    {
        let b = self.bound_node(effect_id);
        if b < self.nodes.len() {
            self.nodes.remove(b);
            assert(node_views(self.nodes@) =~= node_views(old(self).nodes@).remove(b as int));
            Some(b)
        } else {
            None
        }
    }

    /// Switches on or off the node that `effect_id` reaches and returns its
    /// index in the chain; does nothing if the id reaches no node.
    pub fn set_node_enabled(&mut self, effect_id: &String, enabled: bool) -> (r: Option<usize>)
        ensures
            final(self)@ == (BackendView {
                nodes: node_switched(old(self)@.nodes, effect_id@, enabled),
                ..old(self)@
            }),
            r == (if bound_index(old(self)@.nodes, effect_id@) < old(self)@.nodes.len() {
                Some(bound_index(old(self)@.nodes, effect_id@) as usize)
            } else {
                None::<usize>
            }),
    {
        let b = self.bound_node(effect_id);
        if b < self.nodes.len() {
            let old_node = self.nodes.remove(b);
            let n = EffectNode { effect_id: old_node.effect_id, bound: old_node.bound, enabled };
            self.nodes.insert(b, n);
            assert(node_views(self.nodes@) =~= node_views(old(self).nodes@).update(
                b as int,
                NodeView { enabled, ..node_views(old(self).nodes@)[b as int] },
            ));
            Some(b)
        } else {
            None
        }
    }

    /// Index of the node that `effect_id` reaches, or the chain's length.
    fn bound_node(&self, effect_id: &String) -> (b: usize)
        ensures
            b == bound_index(self@.nodes, effect_id@),
    {
        proof {
            lemma_bound_index(self@.nodes, effect_id@);
        }
        let mut i: usize = 0;
        while i < self.nodes.len()
            invariant
                i <= self.nodes.len(),
                forall|j: int| 0 <= j < i ==> !(self@.nodes[j].bound && self@.nodes[j].effect_id == effect_id@),
                0 <= bound_index(self@.nodes, effect_id@) <= self@.nodes.len(),
                bound_index(self@.nodes, effect_id@) < self@.nodes.len() ==> self@.nodes[bound_index(self@.nodes, effect_id@)].bound
                    && self@.nodes[bound_index(self@.nodes, effect_id@)].effect_id == effect_id@,
                forall|j: int| 0 <= j < bound_index(self@.nodes, effect_id@) ==> !(self@.nodes[j].bound && self@.nodes[j].effect_id == effect_id@),
            decreases self.nodes.len() - i,
        {
            if self.nodes[i].bound && self.nodes[i].effect_id == *effect_id {
                assert(self@.nodes[i as int].bound && self@.nodes[i as int].effect_id == effect_id@);
                return i;
            }
            i = i + 1;
        }
        i
    }
}

/// Model of a new audio track at full volume.
pub open spec fn audio_track_view(id: Seq<char>) -> BackendView {
    BackendView {
        id,
        volume_bits: DEFAULT_VOLUME_BITS,
        kind: KindView::Audio(Seq::empty()),
        muted: false,
        nodes: Seq::empty(),
    }
}


/// The models of a sequence of engine tracks.
pub open spec fn backend_views(s: Seq<TrackBackend>) -> Seq<BackendView> {
    s.map_values(|t: TrackBackend| t@)
}

/// The ids of a sequence of engine tracks.
pub open spec fn track_ids(s: Seq<BackendView>) -> Seq<Seq<char>> {
    s.map_values(|t: BackendView| t.id)
}

/// Index of the track of id `id` in `s`, or `s.len()` if there is none.
pub open spec fn track_index(s: Seq<BackendView>, id: Seq<char>) -> int {
    first_index(track_ids(s), id)
}

/// `s` where `t` takes the place of the track with its id, or comes last if
/// there is no such track.
pub open spec fn stored(s: Seq<BackendView>, t: BackendView) -> Seq<BackendView> {
    let i = track_index(s, t.id);
    if i < s.len() {
        s.update(i, t)
    } else {
        s.push(t)
    }
}

/// `s` where the track of id `id`, if there is one, is replaced by `f` of it.
pub open spec fn updated(
    s: Seq<BackendView>,
    id: Seq<char>,
    f: spec_fn(BackendView) -> BackendView,
) -> Seq<BackendView> {
    let i = track_index(s, id);
    if i < s.len() {
        s.update(i, f(s[i]))
    } else {
        s
    }
}

/// `s` without the track of id `id`, if there is one.
pub open spec fn removed(s: Seq<BackendView>, id: Seq<char>) -> Seq<BackendView> {
    let i = track_index(s, id);
    if i < s.len() {
        s.remove(i)
    } else {
        s
    }
}

/// The track `t` with `child` added last to its children, if it is a bus.
pub open spec fn child_pushed(t: BackendView, child: Seq<char>) -> BackendView {
    match t.kind {
        KindView::Bus(c) => BackendView { kind: KindView::Bus(c.push(child)), ..t },
        _ => t,
    }
}

/// The track `t` without the child `child`, if it is a bus.
pub open spec fn child_dropped(t: BackendView, child: Seq<char>) -> BackendView {
    match t.kind {
        KindView::Bus(c) => BackendView { kind: KindView::Bus(seq_without(c, child)), ..t },
        _ => t,
    }
}

/// Mathematical model of the audio engine.
pub struct EngineView {
    pub sample_rate: usize,
    pub bpm_bits: u32,
    pub tracks: Seq<BackendView>,
    pub solo: Seq<Seq<char>>,
    pub layers: Seq<Seq<Seq<char>>>,
}

/// The track graph of the audio engine: the tracks with their clips and
/// effect chains, the soloed tracks, and the processing order (layers of
/// track ids, leaves first). A track is found by its id; when two tracks
/// share an id, the first one is found. The tempo is an `f32` kept as its
/// bit pattern.
pub struct Engine {
    pub sample_rate: usize,
    pub bpm_bits: u32,
    pub tracks: Vec<TrackBackend>,
    pub solo_tracks: Vec<String>,
    pub tree_layers: Vec<Vec<String>>,
}

/// The text views of a sequence of layers.
pub open spec fn layer_views(s: Seq<Vec<String>>) -> Seq<Seq<Seq<char>>> {
    s.map_values(|l: Vec<String>| str_views(l@))
}

impl View for Engine {
    type V = EngineView;

    open spec fn view(&self) -> EngineView {
        EngineView {
            sample_rate: self.sample_rate,
            bpm_bits: self.bpm_bits,
            tracks: backend_views(self.tracks@),
            solo: str_views(self.solo_tracks@),
            layers: layer_views(self.tree_layers@),
        }
    }
}

impl Engine {
    /// An engine holding only the master bus, with no children.
    pub fn new(sample_rate: usize, bpm_bits: u32) -> (e: Self)
        ensures
            e@.sample_rate == sample_rate,
            e@.bpm_bits == bpm_bits,
            e@.tracks == seq![BackendView {
                id: master_id(),
                volume_bits: DEFAULT_VOLUME_BITS,
                kind: KindView::Bus(Seq::empty()),
                muted: false,
                nodes: Seq::empty(),
            }],
            e@.solo.len() == 0,
            e@.layers == seq![seq![master_id()]],
    {
        proof {
            reveal_strlit("master");
        }
        assert("master"@ =~= master_id());
        let mut tracks: Vec<TrackBackend> = Vec::new();
        tracks.push(TrackBackend::new_bus("master"));
        let mut first: Vec<String> = Vec::new();
        first.push(id_string("master"));
        let mut layers: Vec<Vec<String>> = Vec::new();
        layers.push(first);
        let e = Engine {
            sample_rate,
            bpm_bits,
            tracks,
            solo_tracks: Vec::new(),
            tree_layers: layers,
        };
        assert(e@.tracks =~= seq![BackendView {
                id: master_id(),
                volume_bits: DEFAULT_VOLUME_BITS,
                kind: KindView::Bus(Seq::empty()),
                muted: false,
                nodes: Seq::empty(),
            }]);
        assert(str_views(e.tree_layers@[0]@) =~= seq![master_id()]);
        assert(e@.layers =~= seq![seq![master_id()]]);
        e
    }

    /// Index of the track of id `id`, or the number of tracks.
    fn index_of(&self, id: &String) -> (k: usize)
        ensures
            k == track_index(self@.tracks, id@),
    {
        track_position(&self.tracks, id)
    }

    /// Takes out the track at `i`; `put_back` returns a track to its place.
    fn take_at(&mut self, i: usize) -> (t: TrackBackend)
        requires
            i < old(self).tracks@.len(),
        ensures
            t@ == old(self)@.tracks[i as int],
            final(self).tracks@ == old(self).tracks@.remove(i as int),
            final(self).solo_tracks == old(self).solo_tracks,
            final(self).tree_layers == old(self).tree_layers,
            final(self).sample_rate == old(self).sample_rate,
            final(self).bpm_bits == old(self).bpm_bits,
    {
        self.tracks.remove(i)
    }

    /// Returns a track taken out by `take_at` to index `i`.
    fn put_back(&mut self, i: usize, t: TrackBackend)
        requires
            i <= old(self).tracks@.len(),
        ensures
            final(self).tracks@ == old(self).tracks@.insert(i as int, t),
            final(self).solo_tracks == old(self).solo_tracks,
            final(self).tree_layers == old(self).tree_layers,
            final(self).sample_rate == old(self).sample_rate,
            final(self).bpm_bits == old(self).bpm_bits,
    {
        self.tracks.insert(i, t);
    }

    /// Stores `t` in place of the track with its id, or last if there is none.
    fn store(&mut self, t: TrackBackend)
        ensures
            final(self)@ == (EngineView { tracks: stored(old(self)@.tracks, t@), ..old(self)@ }),
    {
        let i = self.index_of(&t.id);
        if i < self.tracks.len() {
            let _ = self.take_at(i);
            let ghost tv = t@;
            self.put_back(i, t);
            assert(backend_views(self.tracks@) =~= backend_views(old(self).tracks@).update(
                i as int,
                tv,
            ));
        } else {
            self.tracks.push(t);
            assert(backend_views(self.tracks@) =~= backend_views(old(self).tracks@).push(t@));
        }
    }

    /// Adds `child` to the children of the track `parent`, if it is a bus.
    fn add_child(&mut self, parent: &String, child: &String)
        ensures
            final(self)@ == (EngineView {
                tracks: updated(old(self)@.tracks, parent@, |t: BackendView| child_pushed(t, child@)),
                ..old(self)@
            }),
    {
        let i = self.index_of(parent);
        if i < self.tracks.len() {
            let mut t = self.take_at(i);
            let ghost t0 = t@;
            match &mut t.kind {
                TrackKind::Bus(b) => {
                    b.children.push(child.clone());
                    assert(str_views(b.children@) =~= t0.kind->Bus_0.push(child@));
                },
                _ => {},
            }
            assert(t@ == child_pushed(t0, child@));
            self.put_back(i, t);
            assert(backend_views(self.tracks@) =~= backend_views(old(self).tracks@).update(
                i as int,
                child_pushed(t0, child@),
            ));
        }
    }

    /// Removes `child` from the children of the track `parent`, if it is a bus.
    fn drop_child(&mut self, parent: &String, child: &String)
        ensures
            final(self)@ == (EngineView {
                tracks: updated(old(self)@.tracks, parent@, |t: BackendView| child_dropped(t, child@)),
                ..old(self)@
            }),
    {
        let i = self.index_of(parent);
        if i < self.tracks.len() {
            let mut t = self.take_at(i);
            let ghost t0 = t@;
            match &mut t.kind {
                TrackKind::Bus(b) => {
                    crate::service::retain_other(&mut b.children, child);
                },
                _ => {},
            }
            assert(t@ == child_dropped(t0, child@));
            self.put_back(i, t);
            assert(backend_views(self.tracks@) =~= backend_views(old(self).tracks@).update(
                i as int,
                child_dropped(t0, child@),
            ));
        }
    }
}


/// A `String` holding the id of the master track.
pub fn master_string() -> (m: String)
    ensures
        m@ == master_id(),
{
    proof {
        reveal_strlit("master");
    }
    let m = id_string("master");
    assert(m@ =~= master_id());
    m
}

/// `s` after the arrival of a new audio track `id`: `id` becomes the last
/// child of the master bus, and the new track is stored.
pub open spec fn track_added(s: Seq<BackendView>, id: Seq<char>) -> Seq<BackendView> {
    stored(updated(s, master_id(), |t: BackendView| child_pushed(t, id)), audio_track_view(id))
}

/// `s` after the removal of the track `id`: the track leaves, and so does its
/// id from the children of the master bus.
pub open spec fn track_removed(s: Seq<BackendView>, id: Seq<char>) -> Seq<BackendView> {
    updated(removed(s, id), master_id(), |t: BackendView| child_dropped(t, id))
}

/// The track `t` with the clips `c` added after its own, if it is an audio track.
pub open spec fn clips_appended(t: BackendView, c: Seq<ClipView>) -> BackendView {
    match t.kind {
        KindView::Audio(x) => BackendView { kind: KindView::Audio(x + c), ..t },
        _ => t,
    }
}

/// `s` after adding, pair by pair, the clips of each pair to the track the
/// pair names.
pub open spec fn pairs_added(s: Seq<BackendView>, p: Seq<(Seq<char>, Seq<ClipView>)>) -> Seq<
    BackendView,
>
    decreases p.len(),
{
    if p.len() == 0 {
        s
    } else {
        updated(
            pairs_added(s, p.drop_last()),
            p.last().0,
            |t: BackendView| clips_appended(t, p.last().1),
        )
    }
}

/// The track `t` without the clips whose id is in `ids`, if it is an audio track.
pub open spec fn clips_dropped(t: BackendView, ids: Seq<Seq<char>>) -> BackendView {
    match t.kind {
        KindView::Audio(x) => BackendView { kind: KindView::Audio(clips_without(x, ids)), ..t },
        _ => t,
    }
}

/// Every track of `s` without the clips whose id is in `ids`.
pub open spec fn all_clips_dropped(s: Seq<BackendView>, ids: Seq<Seq<char>>) -> Seq<BackendView> {
    s.map_values(|t: BackendView| clips_dropped(t, ids))
}

impl Engine {
    /// Adds an audio track `id` and makes it the last child of the master bus;
    /// a track already stored under `id` is replaced.
    pub fn add_audio_track(&mut self, id: String)
        ensures
            final(self)@ == (EngineView { tracks: track_added(old(self)@.tracks, id@), ..old(self)@ }),
    {
        let t = TrackBackend::new_audio_track(&id);
        let m = master_string();
        self.add_child(&m, &id);
        self.store(t);
    }

    /// Removes the track `id`, its id from the children of the master bus and
    /// from the soloed tracks. The processing order is left as it is.
    pub fn remove_track_entry(&mut self, id: &String)
        ensures
            final(self)@ == (EngineView {
                tracks: track_removed(old(self)@.tracks, id@),
                solo: seq_without(old(self)@.solo, id@),
                ..old(self)@
            }),
    {
        let i = self.index_of(id);
        if i < self.tracks.len() {
            let _ = self.take_at(i);
            assert(backend_views(self.tracks@) =~= backend_views(old(self).tracks@).remove(i as int));
        }
        let m = master_string();
        self.drop_child(&m, id);
        crate::service::retain_other(&mut self.solo_tracks, id);
    }

    /// Mutes or unmutes the track `id`, if there is one.
    pub fn set_muted(&mut self, id: &String, muted: bool)
        ensures
            final(self)@ == (EngineView {
                tracks: updated(old(self)@.tracks, id@, |t: BackendView| BackendView { muted, ..t }),
                ..old(self)@
            }),
    {
        let i = self.index_of(id);
        if i < self.tracks.len() {
            let mut t = self.take_at(i);
            t.muted = muted;
            let ghost tv = t@;
            self.put_back(i, t);
            assert(backend_views(self.tracks@) =~= backend_views(old(self).tracks@).update(i as int, tv));
        }
    }

    /// Sets the volume of the track `id`, if there is one.
    pub fn set_volume(&mut self, id: &String, volume_bits: u32)
        ensures
            final(self)@ == (EngineView {
                tracks: updated(
                    old(self)@.tracks,
                    id@,
                    |t: BackendView| BackendView { volume_bits, ..t },
                ),
                ..old(self)@
            }),
    {
        let i = self.index_of(id);
        if i < self.tracks.len() {
            let mut t = self.take_at(i);
            t.volume_bits = volume_bits;
            let ghost tv = t@;
            self.put_back(i, t);
            assert(backend_views(self.tracks@) =~= backend_views(old(self).tracks@).update(i as int, tv));
        }
    }

    /// Replaces the soloed tracks.
    pub fn set_solo(&mut self, ids: Vec<String>)
        ensures
            final(self)@ == (EngineView { solo: str_views(ids@), ..old(self)@ }),
    {
        self.solo_tracks = ids;
    }

    /// Adds the clips `clips` after those of the track `id`, if it is an audio track.
    fn append_clips(&mut self, id: &String, clips: Vec<ClipCore>)
        ensures
            final(self)@ == (EngineView {
                tracks: updated(
                    old(self)@.tracks,
                    id@,
                    |t: BackendView| clips_appended(t, clip_views(clips@)),
                ),
                ..old(self)@
            }),
    {
        let i = self.index_of(id);
        if i < self.tracks.len() {
            let mut t = self.take_at(i);
            let ghost t0 = t@;
            match &mut t.kind {
                TrackKind::Audio(c) => {
                    let ghost c0 = clip_views(c@);
                    let mut j: usize = 0;
                    while j < clips.len()
                        invariant
                            j <= clips.len(),
                            clip_views(c@) == c0 + clip_views(clips@).take(j as int),
                        decreases clips.len() - j,
                    {
                        let ghost before = clip_views(c@);
                        let x = clips[j].clone();
                        c.push(x);
                        assert(clip_views(c@) =~= before.push(clips@[j as int]@));
                        assert(clip_views(clips@).take(j + 1) == clip_views(clips@).take(j as int).push(
                            clips@[j as int]@,
                        ));
                        assert(clip_views(c@) =~= c0 + clip_views(clips@).take(j + 1));
                        j = j + 1;
                    }
                    assert(clip_views(clips@).take(j as int) == clip_views(clips@));
                },
                _ => {},
            }
            assert(t@ == clips_appended(t0, clip_views(clips@)));
            self.put_back(i, t);
            assert(backend_views(self.tracks@) =~= backend_views(old(self).tracks@).update(
                i as int,
                clips_appended(t0, clip_views(clips@)),
            ));
        }
    }

    /// Adds `clip` after the clips of the track `id`, if it is an audio track.
    pub fn add_clip(&mut self, id: &String, clip: ClipCore)
        ensures
            final(self)@ == (EngineView {
                tracks: updated(
                    old(self)@.tracks,
                    id@,
                    |t: BackendView| clips_appended(t, seq![clip@]),
                ),
                ..old(self)@
            }),
    {
        let ghost cv = clip@;
        let mut v: Vec<ClipCore> = Vec::new();
        v.push(clip);
        assert(clip_views(v@) =~= seq![cv]);
        self.append_clips(id, v);
    }

    /// Adds the clips of each pair to the audio track the pair names, pair by pair.
    pub fn add_clips(&mut self, pairs: Vec<(String, Vec<ClipCore>)>)
        ensures
            final(self)@ == (EngineView {
                tracks: pairs_added(old(self)@.tracks, clip_map_views(pairs@)),
                ..old(self)@
            }),
    {
        let ghost p = clip_map_views(pairs@);
        let mut i: usize = 0;
        while i < pairs.len()
            invariant
                i <= pairs.len(),
                p == clip_map_views(pairs@),
                self@ == (EngineView { tracks: pairs_added(old(self)@.tracks, p.take(i as int)), ..old(self)@ }),
            decreases pairs.len() - i,
        {
            let clips = clone_clips(&pairs[i].1);
            self.append_clips(&pairs[i].0, clips);
            assert(p.take(i + 1).drop_last() == p.take(i as int));
            assert(p.take(i + 1).last() == p[i as int]);
            i = i + 1;
        }
        assert(p.take(i as int) == p);
    }

    /// Removes from every audio track the clips whose id is in `ids`.
    pub fn remove_clips(&mut self, ids: &Vec<String>)
        ensures
            final(self)@ == (EngineView {
                tracks: all_clips_dropped(old(self)@.tracks, str_views(ids@)),
                ..old(self)@
            }),
    {
        let ghost all = backend_views(self.tracks@);
        let ghost idv = str_views(ids@);
        let mut i: usize = 0;
        while i < self.tracks.len()
            invariant
                i <= self.tracks.len(),
                self.tracks@.len() == all.len(),
                idv == str_views(ids@),
                forall|j: int| 0 <= j < i ==> backend_views(self.tracks@)[j] == clips_dropped(all[j], idv),
                forall|j: int| i <= j < all.len() ==> backend_views(self.tracks@)[j] == all[j],
                self.solo_tracks == old(self).solo_tracks,
                self.tree_layers == old(self).tree_layers,
                self.sample_rate == old(self).sample_rate,
                self.bpm_bits == old(self).bpm_bits,
            decreases all.len() - i,
        {
            let ghost before = backend_views(self.tracks@);
            let mut t = self.take_at(i);
            let ghost t0 = t@;
            match &mut t.kind {
                TrackKind::Audio(c) => {
                    let _ = crate::track::remove_clips_with_ids(c, ids);
                },
                _ => {},
            }
            assert(t@ == clips_dropped(t0, idv));
            self.put_back(i, t);
            assert(backend_views(self.tracks@) =~= before.update(i as int, clips_dropped(all[i as int], idv)));
            i = i + 1;
        }
        assert(backend_views(self.tracks@) =~= all_clips_dropped(all, idv));
    }
}

/// Index of the first audio track of `s` holding a clip of id `c`, or `s.len()`.
pub open spec fn clip_owner(s: Seq<BackendView>, c: Seq<char>) -> int
    decreases s.len(),
{
    if s.len() == 0 {
        0
    } else if holds_clip(s[0], c) {
        0
    } else {
        1 + clip_owner(s.drop_first(), c)
    }
}

pub proof fn lemma_clip_owner(s: Seq<BackendView>, c: Seq<char>)
    ensures
        0 <= clip_owner(s, c) <= s.len(),
        clip_owner(s, c) < s.len() ==> holds_clip(s[clip_owner(s, c)], c),
        forall|j: int| 0 <= j < clip_owner(s, c) ==> !holds_clip(s[j], c),
    decreases s.len(),
{
    if s.len() > 0 && !holds_clip(s[0], c) {
        lemma_clip_owner(s.drop_first(), c);
        assert forall|j: int| 0 <= j < clip_owner(s, c) implies !holds_clip(s[j], c) by {
            if j > 0 {
                assert(s[j] == s.drop_first()[j - 1]);
            }
        }
    }
}

/// The first clip of id `c` of the audio track `t`.
pub open spec fn clip_of(t: BackendView, c: Seq<char>) -> ClipView {
    let x = t.kind->Audio_0;
    x[first_clip_index(x, c)]
}

/// The audio track `t` without its first clip of id `c`.
pub open spec fn clip_taken(t: BackendView, c: Seq<char>) -> BackendView {
    let x = t.kind->Audio_0;
    BackendView { kind: KindView::Audio(x.remove(first_clip_index(x, c))), ..t }
}

/// `s` after moving the clip `c` to the track `dest` at the position `pos`:
/// the clip leaves the first audio track holding it and, if `dest` is an
/// audio track, comes last on it; otherwise it is dropped.
pub open spec fn clip_moved(s: Seq<BackendView>, c: Seq<char>, dest: Seq<char>, pos: u32) -> Seq<
    BackendView,
> {
    let k = clip_owner(s, c);
    if k < s.len() {
        let moved = ClipView { position_bits: pos, ..clip_of(s[k], c) };
        updated(s.update(k, clip_taken(s[k], c)), dest, |t: BackendView| clips_appended(t, seq![moved]))
    } else {
        s
    }
}

/// The audio track `t` whose first clip of id `c` has the trims and position given.
pub open spec fn clip_reshaped(t: BackendView, c: Seq<char>, ts: u32, te: u32, pos: u32) -> BackendView {
    let x = t.kind->Audio_0;
    let j = first_clip_index(x, c);
    BackendView {
        kind: KindView::Audio(
            x.update(j, ClipView { trim_start_bits: ts, trim_end_bits: te, position_bits: pos, ..x[j] }),
        ),
        ..t
    }
}

/// `s` where the first clip of id `c`, on the first audio track holding one,
/// has the trims and position given.
pub open spec fn clip_resized(s: Seq<BackendView>, c: Seq<char>, ts: u32, te: u32, pos: u32) -> Seq<
    BackendView,
> {
    let k = clip_owner(s, c);
    if k < s.len() {
        s.update(k, clip_reshaped(s[k], c, ts, te, pos))
    } else {
        s
    }
}

/// Index of the first triple of `p` for the clip `id`, or `p.len()`.
pub open spec fn trim_index(p: Seq<(Seq<char>, u32, u32)>, id: Seq<char>) -> int {
    first_index(p.map_values(|x: (Seq<char>, u32, u32)| x.0), id)
}

/// The clips `x`, each with the trims of the first triple of `p` naming it, if any.
pub open spec fn trims_applied(x: Seq<ClipView>, p: Seq<(Seq<char>, u32, u32)>) -> Seq<ClipView> {
    x.map_values(
        |c: ClipView|
            if trim_index(p, c.id) < p.len() {
                ClipView {
                    trim_start_bits: p[trim_index(p, c.id)].1,
                    trim_end_bits: p[trim_index(p, c.id)].2,
                    ..c
                }
            } else {
                c
            },
    )
}

/// The track `t` with the trims of `p` applied, if it is an audio track.
pub open spec fn trims_set(t: BackendView, p: Seq<(Seq<char>, u32, u32)>) -> BackendView {
    match t.kind {
        KindView::Audio(x) => BackendView { kind: KindView::Audio(trims_applied(x, p)), ..t },
        _ => t,
    }
}

/// Whether `t` is an audio track holding a clip of id `id`.
fn holds(t: &TrackBackend, id: &String) -> (r: bool)
    ensures
        r == holds_clip(t@, id@),
{
    match &t.kind {
        TrackKind::Audio(c) => {
            let k = find_clip(c, id);
            proof {
                lemma_first_clip_index(clip_views(c@), id@);
            }
            k < c.len()
        },
        _ => false,
    }
}

/// Index of the first triple of `p` for the clip `id`, or the length of `p`.
fn find_trim(p: &Vec<(String, u32, u32)>, id: &String) -> (k: usize)
    ensures
        k == trim_index(trim_views(p@), id@),
{
    let ghost keys = trim_views(p@).map_values(|x: (Seq<char>, u32, u32)| x.0);
    proof {
        lemma_first_index(keys, id@);
    }
    let mut i: usize = 0;
    while i < p.len()
        invariant
            i <= p.len(),
            keys == trim_views(p@).map_values(|x: (Seq<char>, u32, u32)| x.0),
            forall|j: int| 0 <= j < i ==> keys[j] != id@,
            0 <= first_index(keys, id@) <= keys.len(),
            first_index(keys, id@) < keys.len() ==> keys[first_index(keys, id@)] == id@,
            forall|j: int| 0 <= j < first_index(keys, id@) ==> keys[j] != id@,
        decreases p.len() - i,
    {
        if p[i].0 == *id {
            assert(keys[i as int] == id@);
            return i;
        }
        i = i + 1;
    }
    i
}

impl Engine {
    /// Index of the first audio track holding a clip of id `id`, or the number of tracks.
    fn owner_of(&self, id: &String) -> (k: usize)
        ensures
            k == clip_owner(self@.tracks, id@),
    {
        proof {
            lemma_clip_owner(self@.tracks, id@);
        }
        let mut i: usize = 0;
        while i < self.tracks.len()
            invariant
                i <= self.tracks.len(),
                forall|j: int| 0 <= j < i ==> !holds_clip(self@.tracks[j], id@),
                0 <= clip_owner(self@.tracks, id@) <= self@.tracks.len(),
                clip_owner(self@.tracks, id@) < self@.tracks.len() ==> holds_clip(
                    self@.tracks[clip_owner(self@.tracks, id@)],
                    id@,
                ),
                forall|j: int| 0 <= j < clip_owner(self@.tracks, id@) ==> !holds_clip(self@.tracks[j], id@),
            decreases self.tracks.len() - i,
        {
            assert(self@.tracks[i as int] == self.tracks@[i as int]@);
            if holds(&self.tracks[i], id) {
                return i;
            }
            i = i + 1;
        }
        i
    }

    /// Moves the clip `clip_id` to the track `track_id` at the position given:
    /// the clip leaves the first audio track holding it and comes last on
    /// `track_id` if that is an audio track; otherwise the clip is dropped.
    /// Does nothing if no audio track holds the clip.
    pub fn move_clip(&mut self, clip_id: &String, track_id: &String, position_bits: u32)
        ensures
            final(self)@ == (EngineView {
                tracks: clip_moved(old(self)@.tracks, clip_id@, track_id@, position_bits),
                ..old(self)@
            }),
    {
        let k = self.owner_of(clip_id);
        proof {
            lemma_clip_owner(self@.tracks, clip_id@);
        }
        if k < self.tracks.len() {
            let mut t = self.take_at(k);
            let ghost t0 = t@;
            proof {
                lemma_first_clip_index(t0.kind->Audio_0, clip_id@);
            }
            let r = t.remove_clip(clip_id);
            let ghost t1 = t@;
            assert(t1 == clip_taken(t0, clip_id@));
            self.put_back(k, t);
            assert(backend_views(self.tracks@) =~= backend_views(old(self).tracks@).update(k as int, t1));
            match r {
                Some(mut clip) => {
                    clip.position_bits = position_bits;
                    self.add_clip(track_id, clip);
                },
                None => {},
            }
        }
    }

    /// Sets the trims and position of the first clip of id `clip_id` on the
    /// first audio track holding one; does nothing if there is none.
    pub fn resize_clip(
        &mut self,
        clip_id: &String,
        trim_start_bits: u32,
        trim_end_bits: u32,
        position_bits: u32,
    )
        ensures
            final(self)@ == (EngineView {
                tracks: clip_resized(
                    old(self)@.tracks,
                    clip_id@,
                    trim_start_bits,
                    trim_end_bits,
                    position_bits,
                ),
                ..old(self)@
            }),
    {
        let k = self.owner_of(clip_id);
        proof {
            lemma_clip_owner(self@.tracks, clip_id@);
        }
        if k < self.tracks.len() {
            let mut t = self.take_at(k);
            let ghost t0 = t@;
            proof {
                lemma_first_clip_index(t0.kind->Audio_0, clip_id@);
            }
            match &mut t.kind {
                TrackKind::Audio(c) => {
                    let j = find_clip(c, clip_id);
                    let mut clip = c.remove(j);
                    clip.trim_start_bits = trim_start_bits;
                    clip.trim_end_bits = trim_end_bits;
                    clip.position_bits = position_bits;
                    c.insert(j, clip);
                    assert(clip_views(c@) =~= t0.kind->Audio_0.update(
                        j as int,
                        ClipView {
                            trim_start_bits,
                            trim_end_bits,
                            position_bits,
                            ..t0.kind->Audio_0[j as int]
                        },
                    ));
                },
                _ => {},
            }
            let ghost t1 = t@;
            assert(t1 == clip_reshaped(t0, clip_id@, trim_start_bits, trim_end_bits, position_bits));
            self.put_back(k, t);
            assert(backend_views(self.tracks@) =~= backend_views(old(self).tracks@).update(k as int, t1));
        }
    }

    /// Gives each clip of the audio track `track_id` the trims of the first
    /// triple naming it; clips that no triple names keep theirs.
    pub fn resize_clips(&mut self, track_id: &String, trims: &Vec<(String, u32, u32)>)
        ensures
            final(self)@ == (EngineView {
                tracks: updated(
                    old(self)@.tracks,
                    track_id@,
                    |t: BackendView| trims_set(t, trim_views(trims@)),
                ),
                ..old(self)@
            }),
    {
        let i = self.index_of(track_id);
        if i < self.tracks.len() {
            let mut t = self.take_at(i);
            let ghost t0 = t@;
            let ghost p = trim_views(trims@);
            match &mut t.kind {
                TrackKind::Audio(c) => {
                    let ghost c0 = clip_views(c@);
                    let mut j: usize = 0;
                    while j < c.len()
                        invariant
                            j <= c.len(),
                            c@.len() == c0.len(),
                            p == trim_views(trims@),
                            forall|m: int| 0 <= m < j ==> clip_views(c@)[m] == trims_applied(c0, p)[m],
                            forall|m: int| j <= m < c0.len() ==> clip_views(c@)[m] == c0[m],
                        decreases c@.len() - j,
                    {
                        let k = find_trim(trims, &c[j].id);
                        if k < trims.len() {
                            let ghost before = clip_views(c@);
                            let mut clip = c.remove(j);
                            clip.trim_start_bits = trims[k].1;
                            clip.trim_end_bits = trims[k].2;
                            c.insert(j, clip);
                            assert(clip_views(c@) =~= before.update(j as int, trims_applied(c0, p)[j as int]));
                        }
                        j = j + 1;
                    }
                    assert(clip_views(c@) =~= trims_applied(c0, p));
                },
                _ => {},
            }
            let ghost t1 = t@;
            assert(t1 == trims_set(t0, p));
            self.put_back(i, t);
            assert(backend_views(self.tracks@) =~= backend_views(old(self).tracks@).update(i as int, t1));
        }
    }
}

/// The id that the pairs (old id, new id) of `map` give to `id`: the new id
/// of the first pair for `id`, or `id` itself if no pair names it.
pub open spec fn renamed_id(id: Seq<char>, map: Seq<(Seq<char>, Seq<char>)>) -> Seq<char> {
    let k = first_index(map.map_values(|p: (Seq<char>, Seq<char>)| p.0), id);
    if k < map.len() {
        map[k].1
    } else {
        id
    }
}

/// A copy of the track `t` under the id `new_id`, its clips renamed by `map`.
pub open spec fn track_copy(t: BackendView, new_id: Seq<char>, map: Seq<(Seq<char>, Seq<char>)>) -> BackendView {
    BackendView {
        id: new_id,
        kind: match t.kind {
            KindView::Audio(x) => KindView::Audio(
                x.map_values(|c: ClipView| ClipView { id: renamed_id(c.id, map), ..c }),
            ),
            KindView::Midi => KindView::Midi,
            KindView::Bus(c) => KindView::Bus(c),
        },
        ..t
    }
}

/// `s` after copying the track `id` (which `s` holds) as `new_id`: `new_id`
/// becomes the last child of the master bus and the copy is stored.
pub open spec fn track_duplicated(
    s: Seq<BackendView>,
    id: Seq<char>,
    new_id: Seq<char>,
    map: Seq<(Seq<char>, Seq<char>)>,
) -> Seq<BackendView> {
    stored(
        updated(s, master_id(), |t: BackendView| child_pushed(t, new_id)),
        track_copy(s[track_index(s, id)], new_id, map),
    )
}

/// The new id that `map` gives to `id`, or `id` itself.
fn rename(id: &String, map: &Vec<(String, String)>) -> (r: String)
    ensures
        r@ == renamed_id(id@, crate::track::pair_views(map@)),
{
    let ghost m = crate::track::pair_views(map@);
    let ghost keys = m.map_values(|p: (Seq<char>, Seq<char>)| p.0);
    proof {
        lemma_first_index(keys, id@);
    }
    let mut i: usize = 0;
    while i < map.len()
        invariant
            i <= map.len(),
            m == crate::track::pair_views(map@),
            keys == m.map_values(|p: (Seq<char>, Seq<char>)| p.0),
            forall|j: int| 0 <= j < i ==> keys[j] != id@,
            0 <= first_index(keys, id@) <= keys.len(),
            first_index(keys, id@) < keys.len() ==> keys[first_index(keys, id@)] == id@,
            forall|j: int| 0 <= j < first_index(keys, id@) ==> keys[j] != id@,
        decreases map.len() - i,
    {
        if map[i].0 == *id {
            assert(keys[i as int] == id@);
            return map[i].1.clone();
        }
        i = i + 1;
    }
    id.clone()
}

/// A copy of `t` under the id `new_id`, its clips renamed by `map`.
fn copy_track(t: &TrackBackend, new_id: String, map: &Vec<(String, String)>) -> (r: TrackBackend)
    ensures
        r@ == track_copy(t@, new_id@, crate::track::pair_views(map@)),
{
    let ghost m = crate::track::pair_views(map@);
    let kind = match &t.kind {
        TrackKind::Audio(c) => {
            let mut copies: Vec<ClipCore> = Vec::new();
            let mut j: usize = 0;
            while j < c.len()
                invariant
                    j <= c.len(),
                    m == crate::track::pair_views(map@),
                    clip_views(copies@) == clip_views(c@).take(j as int).map_values(
                        |x: ClipView| ClipView { id: renamed_id(x.id, m), ..x },
                    ),
                decreases c.len() - j,
            {
                let mut x = c[j].clone();
                x.id = rename(&c[j].id, map);
                let ghost before = clip_views(copies@);
                copies.push(x);
                assert(clip_views(copies@) =~= before.push(x@));
                assert(clip_views(c@).take(j + 1) == clip_views(c@).take(j as int).push(c@[j as int]@));
                assert(clip_views(copies@) =~= clip_views(c@).take(j + 1).map_values(
                    |x: ClipView| ClipView { id: renamed_id(x.id, m), ..x },
                ));
                j = j + 1;
            }
            assert(clip_views(c@).take(j as int) == clip_views(c@));
            TrackKind::Audio(copies)
        },
        TrackKind::Midi => TrackKind::Midi,
        TrackKind::Bus(b) => TrackKind::Bus(BusTrackData { children: crate::track::clone_strings(&b.children) }),
    };
    TrackBackend {
        id: new_id,
        volume_bits: t.volume_bits,
        kind,
        muted: t.muted,
        nodes: clone_nodes(&t.nodes),
    }
}

impl Engine {
    /// Adds a node of effect id `effect_id` at `index` in the chain of the
    /// track `track_id`; tells whether there is such a track.
    pub fn add_node(&mut self, track_id: &String, index: usize, effect_id: String) -> (r: bool)
        requires
            track_index(old(self)@.tracks, track_id@) < old(self)@.tracks.len() ==> index
                <= old(self)@.tracks[track_index(old(self)@.tracks, track_id@)].nodes.len(),
        ensures
            r == (track_index(old(self)@.tracks, track_id@) < old(self)@.tracks.len()),
            final(self)@ == (EngineView {
                tracks: updated(
                    old(self)@.tracks,
                    track_id@,
                    |t: BackendView| BackendView { nodes: node_added(t.nodes, index as int, effect_id@), ..t },
                ),
                ..old(self)@
            }),
    {
        let i = self.index_of(track_id);
        if i < self.tracks.len() {
            let mut t = self.take_at(i);
            t.add_node(effect_id, index);
            let ghost tv = t@;
            self.put_back(i, t);
            assert(backend_views(self.tracks@) =~= backend_views(old(self).tracks@).update(i as int, tv));
            true
        } else {
            false
        }
    }

    /// Removes the node that `effect_id` reaches in the chain of the track
    /// `track_id`, and returns its index; `None` if there is no such node.
    pub fn remove_node(&mut self, track_id: &String, effect_id: &String) -> (r: Option<usize>)
        ensures
            final(self)@ == (EngineView {
                tracks: updated(
                    old(self)@.tracks,
                    track_id@,
                    |t: BackendView| BackendView { nodes: node_removed(t.nodes, effect_id@), ..t },
                ),
                ..old(self)@
            }),
            r == ({
                let i = track_index(old(self)@.tracks, track_id@);
                if i < old(self)@.tracks.len() && bound_index(old(self)@.tracks[i].nodes, effect_id@)
                    < old(self)@.tracks[i].nodes.len() {
                    Some(bound_index(old(self)@.tracks[i].nodes, effect_id@) as usize)
                } else {
                    None::<usize>
                }
            }),
    {
        let i = self.index_of(track_id);
        if i < self.tracks.len() {
            let mut t = self.take_at(i);
            let r = t.remove_node(effect_id);
            let ghost tv = t@;
            self.put_back(i, t);
            assert(backend_views(self.tracks@) =~= backend_views(old(self).tracks@).update(i as int, tv));
            r
        } else {
            None
        }
    }

    /// Switches on or off the node that `effect_id` reaches in the chain of
    /// the track `track_id`, and returns its index; `None` if there is no such node.
    pub fn set_node_enabled(&mut self, track_id: &String, effect_id: &String, enabled: bool) -> (r:
        Option<usize>)
        ensures
            final(self)@ == (EngineView {
                tracks: updated(
                    old(self)@.tracks,
                    track_id@,
                    |t: BackendView| BackendView { nodes: node_switched(t.nodes, effect_id@, enabled), ..t },
                ),
                ..old(self)@
            }),
            r == ({
                let i = track_index(old(self)@.tracks, track_id@);
                if i < old(self)@.tracks.len() && bound_index(old(self)@.tracks[i].nodes, effect_id@)
                    < old(self)@.tracks[i].nodes.len() {
                    Some(bound_index(old(self)@.tracks[i].nodes, effect_id@) as usize)
                } else {
                    None::<usize>
                }
            }),
    {
        let i = self.index_of(track_id);
        if i < self.tracks.len() {
            let mut t = self.take_at(i);
            let r = t.set_node_enabled(effect_id, enabled);
            let ghost tv = t@;
            self.put_back(i, t);
            assert(backend_views(self.tracks@) =~= backend_views(old(self).tracks@).update(i as int, tv));
            r
        } else {
            None
        }
    }

    /// Copies the track `id` as `new_id`, its clips renamed by `clip_map`, and
    /// makes `new_id` the last child of the master bus; tells whether the
    /// track `id` exists. Nothing changes when it does not.
    pub fn duplicate_track(&mut self, id: &String, new_id: String, clip_map: &Vec<(String, String)>) -> (r: bool)
        ensures
            r == (track_index(old(self)@.tracks, id@) < old(self)@.tracks.len()),
            r ==> final(self)@ == (EngineView {
                tracks: track_duplicated(
                    old(self)@.tracks,
                    id@,
                    new_id@,
                    crate::track::pair_views(clip_map@),
                ),
                ..old(self)@
            }),
            !r ==> final(self)@ == old(self)@,
    {
        let i = self.index_of(id);
        if i < self.tracks.len() {
            let copy = copy_track(&self.tracks[i], new_id, clip_map);
            let m = master_string();
            self.add_child(&m, &copy.id);
            self.store(copy);
            true
        } else {
            false
        }
    }
}

/// Index of the track of id `id` in `tracks`, or the number of tracks.
fn track_position(tracks: &Vec<TrackBackend>, id: &String) -> (k: usize)
    ensures
        k == track_index(backend_views(tracks@), id@),
{
    let ghost ids = track_ids(backend_views(tracks@));
    proof {
        lemma_first_index(ids, id@);
    }
    let mut i: usize = 0;
    while i < tracks.len()
        invariant
            i <= tracks.len(),
            ids == track_ids(backend_views(tracks@)),
            forall|j: int| 0 <= j < i ==> ids[j] != id@,
            0 <= first_index(ids, id@) <= ids.len(),
            first_index(ids, id@) < ids.len() ==> ids[first_index(ids, id@)] == id@,
            forall|j: int| 0 <= j < first_index(ids, id@) ==> ids[j] != id@,
        decreases tracks.len() - i,
    {
        if tracks[i].id == *id {
            assert(ids[i as int] == id@);
            return i;
        }
        i = i + 1;
    }
    i
}

/// The children of the track `id` in `s`: those of a bus, none otherwise.
pub open spec fn children_of(s: Seq<BackendView>, id: Seq<char>) -> Seq<Seq<char>> {
    let i = track_index(s, id);
    if i < s.len() {
        match s[i].kind {
            KindView::Bus(c) => c,
            _ => Seq::empty(),
        }
    } else {
        Seq::empty()
    }
}

/// The children of the tracks of `cur`, in order.
pub open spec fn next_layer(s: Seq<BackendView>, cur: Seq<Seq<char>>) -> Seq<Seq<char>>
    decreases cur.len(),
{
    if cur.len() == 0 {
        Seq::empty()
    } else {
        next_layer(s, cur.drop_last()) + children_of(s, cur.last())
    }
}

/// A layer holds exactly the children of the tracks of the layer above it:
/// an id is in the next layer if and only if some track of `cur` has it as a
/// child.
pub proof fn law_next_layer_children(s: Seq<BackendView>, cur: Seq<Seq<char>>, x: Seq<char>)
    ensures
        next_layer(s, cur).contains(x) <==> exists|k: int|
            0 <= k < cur.len() && #[trigger] children_of(s, cur[k]).contains(x),
    decreases cur.len(),
{
    broadcast use vstd::seq_lib::lemma_seq_concat_contains_all_elements;

    if cur.len() > 0 {
        let r = cur.drop_last();
        law_next_layer_children(s, r, x);
        if next_layer(s, r).contains(x) {
            let k = choose|k: int| 0 <= k < r.len() && #[trigger] children_of(s, r[k]).contains(x);
            assert(cur[k] == r[k]);
        }
        if exists|k: int| 0 <= k < cur.len() && #[trigger] children_of(s, cur[k]).contains(x) {
            let k = choose|k: int| 0 <= k < cur.len() && #[trigger] children_of(s, cur[k]).contains(x);
            if k < r.len() {
                assert(cur[k] == r[k]);
            }
        }
    }
}

/// The `n`-th layer below `root`: `root` alone, then the children of the
/// tracks of each layer.
pub open spec fn layer(s: Seq<BackendView>, root: Seq<char>, n: nat) -> Seq<Seq<char>>
    decreases n,
{
    if n == 0 {
        seq![root]
    } else {
        next_layer(s, layer(s, root, (n - 1) as nat))
    }
}

/// Whether some layer below `root` is empty, so that the layering stops.
pub open spec fn layering_ends(s: Seq<BackendView>, root: Seq<char>) -> bool {
    exists|n: nat| #[trigger] layer(s, root, n).len() == 0
}

/// Whether `l` is the layering of `s` below `root`, deepest layer first: the
/// non-empty layers, down to the first empty one.
pub open spec fn layered(s: Seq<BackendView>, root: Seq<char>, l: Seq<Seq<Seq<char>>>) -> bool {
    &&& layer(s, root, l.len()).len() == 0
    &&& forall|m: nat| m < l.len() ==> #[trigger] layer(s, root, m).len() > 0
    &&& forall|i: int| 0 <= i < l.len() ==> #[trigger] l[i] == layer(s, root, (l.len() - 1 - i) as nat)
}

/// The children of the tracks of `cur`, in order.
fn children_layer(tracks: &Vec<TrackBackend>, cur: &Vec<String>) -> (r: Vec<String>)
    ensures
        str_views(r@) == next_layer(backend_views(tracks@), str_views(cur@)),
{
    let ghost s = backend_views(tracks@);
    let ghost c = str_views(cur@);
    let mut next: Vec<String> = Vec::new();
    let mut i: usize = 0;
    while i < cur.len()
        invariant
            i <= cur.len(),
            s == backend_views(tracks@),
            c == str_views(cur@),
            str_views(next@) == next_layer(s, c.take(i as int)),
        decreases cur.len() - i,
    {
        let k = track_position(tracks, &cur[i]);
        assert(c.take(i + 1).drop_last() == c.take(i as int));
        assert(c.take(i + 1).last() == cur@[i as int]@);
        let ghost before = str_views(next@);
        if k < tracks.len() {
            assert(s[k as int] == tracks@[k as int]@);
            match &tracks[k].kind {
                TrackKind::Bus(b) => {
                    let mut j: usize = 0;
                    while j < b.children.len()
                        invariant
                            j <= b.children.len(),
                            str_views(next@) == before + str_views(b.children@).take(j as int),
                        decreases b.children.len() - j,
                    {
                        let ghost n0 = str_views(next@);
                        next.push(b.children[j].clone());
                        assert(str_views(next@) =~= n0.push(b.children@[j as int]@));
                        assert(str_views(b.children@).take(j + 1) == str_views(b.children@).take(
                            j as int,
                        ).push(b.children@[j as int]@));
                        assert(str_views(next@) =~= before + str_views(b.children@).take(j + 1));
                        j = j + 1;
                    }
                    assert(str_views(b.children@).take(j as int) == str_views(b.children@));
                },
                _ => {
                    assert(before + Seq::<Seq<char>>::empty() =~= before);
                },
            }
        } else {
            assert(before + Seq::<Seq<char>>::empty() =~= before);
        }
        i = i + 1;
    }
    assert(c.take(i as int) == c);
    next
}

/// The processing order of the tracks below `root`: the layers of track ids,
/// the deepest (the leaves) first and `root` alone last.
pub fn build_layers(root: &String, tracks: &Vec<TrackBackend>) -> (r: Vec<Vec<String>>)
    requires
        layering_ends(backend_views(tracks@), root@),
    ensures
        layered(backend_views(tracks@), root@, layer_views(r@)),
{
    let ghost s = backend_views(tracks@);
    let ghost bound: nat = choose|n: nat| #[trigger] layer(s, root@, n).len() == 0;
    let mut down: Vec<Vec<String>> = Vec::new();
    let mut current: Vec<String> = Vec::new();
    current.push(root.clone());
    assert(str_views(current@) =~= layer(s, root@, 0));
    let ghost mut d: nat = 0;
    while current.len() > 0
        invariant
            s == backend_views(tracks@),
            layer(s, root@, bound).len() == 0,
            d <= bound,
            down@.len() == d,
            str_views(current@) == layer(s, root@, d),
            forall|m: int| 0 <= m < d ==> #[trigger] str_views(down@[m]@) == layer(s, root@, m as nat),
            forall|m: nat| m < d ==> #[trigger] layer(s, root@, m).len() > 0,
        decreases bound - d,
    {
        assert(d != bound);
        let next = children_layer(tracks, &current);
        down.push(current);
        current = next;
        proof {
            d = d + 1;
        }
    }
    let mut r: Vec<Vec<String>> = Vec::new();
    let mut k: usize = down.len();
    while k > 0
        invariant
            k <= down@.len(),
            down@.len() == d,
            r@.len() == d - k,
            forall|m: int| 0 <= m < d ==> #[trigger] str_views(down@[m]@) == layer(s, root@, m as nat),
            forall|i: int| 0 <= i < r@.len() ==> #[trigger] str_views(r@[i]@) == str_views(down@[d - 1 - i]@),
        decreases k,
    {
        k = k - 1;
        r.push(crate::track::clone_strings(&down[k]));
    }
    assert forall|i: int| 0 <= i < layer_views(r@).len() implies #[trigger] layer_views(r@)[i] == layer(
        s,
        root@,
        (layer_views(r@).len() - 1 - i) as nat,
    ) by {
        assert(str_views(r@[i]@) == str_views(down@[d - 1 - i]@));
    }
    r
}

impl Engine {
    /// Adds `track` as the last child of `parent` (the master bus when
    /// `None`) and rebuilds the processing order; does nothing unless the
    /// parent is a bus. Tells whether the track was added.
    pub fn add_track(&mut self, track: TrackBackend, parent: Option<String>) -> (r: bool)
        requires
            ({
                let p = match parent {
                    Some(x) => x@,
                    None => master_id(),
                };
                let i = track_index(old(self)@.tracks, p);
                (i < old(self)@.tracks.len() && old(self)@.tracks[i].kind is Bus) ==> layering_ends(
                    stored(updated(old(self)@.tracks, p, |t: BackendView| child_pushed(t, track@.id)), track@),
                    master_id(),
                )
            }),
        ensures
            ({
                let p = match parent {
                    Some(x) => x@,
                    None => master_id(),
                };
                let i = track_index(old(self)@.tracks, p);
                &&& r == (i < old(self)@.tracks.len() && old(self)@.tracks[i].kind is Bus)
                &&& r ==> final(self)@.tracks == stored(
                    updated(old(self)@.tracks, p, |t: BackendView| child_pushed(t, track@.id)),
                    track@,
                )
                &&& r ==> layered(final(self)@.tracks, master_id(), final(self)@.layers)
                &&& r ==> final(self)@.solo == old(self)@.solo
                &&& !r ==> final(self)@ == old(self)@
            }),
            final(self)@.sample_rate == old(self)@.sample_rate,
            final(self)@.bpm_bits == old(self)@.bpm_bits,
    {
        let p = match parent {
            Some(x) => x,
            None => master_string(),
        };
        let i = self.index_of(&p);
        if i < self.tracks.len() {
            assert(self@.tracks[i as int] == self.tracks@[i as int]@);
            let is_bus = match &self.tracks[i].kind {
                TrackKind::Bus(_) => true,
                _ => false,
            };
            if is_bus {
                self.add_child(&p, &track.id);
                self.store(track);
                let m = master_string();
                self.tree_layers = build_layers(&m, &self.tracks);
                return true;
            }
        }
        false
    }

    /// Removes the track `id` as `remove_track_entry` does, then rebuilds the
    /// processing order.
    pub fn remove_track(&mut self, id: &String)
        requires
            layering_ends(track_removed(old(self)@.tracks, id@), master_id()),
        ensures
            final(self)@.tracks == track_removed(old(self)@.tracks, id@),
            final(self)@.solo == seq_without(old(self)@.solo, id@),
            layered(final(self)@.tracks, master_id(), final(self)@.layers),
            final(self)@.sample_rate == old(self)@.sample_rate,
            final(self)@.bpm_bits == old(self)@.bpm_bits,
    {
        self.remove_track_entry(id);
        let m = master_string();
        self.tree_layers = build_layers(&m, &self.tracks);
    }
}

/// A clip of MIDI events on a MIDI track, placed at frame `start` and
/// lasting `length` frames.
pub struct MidiClip {
    pub id: String,
    pub name: String,
    pub start: usize,
    pub length: usize,
}

impl MidiClip {
    /// Whether the clip lies wholly outside the block of `num_frames` frames
    /// starting at `pos`: it starts after the block or ends before it.
    pub fn in_range(&self, pos: usize, num_frames: usize) -> (r: bool)
        requires
            pos + num_frames <= usize::MAX,
            self.start + self.length <= usize::MAX,
        ensures
            r == (self.start > pos + num_frames || self.start + self.length < pos),
    {
        self.start > pos + num_frames || self.start + self.length < pos
    }
}

} // verus!
