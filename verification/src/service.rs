use crate::command::{commands_view, CommandView, PlayerCommand};
use crate::track::{
    clip_ids, clip_views, clips_renamed, clips_within, clips_without, clone_clips, clone_strings,
    contains_str, find_clip, first_clip_index, id_string, lemma_first_clip_index, reference_of,
    remove_clips_with_ids, str_views, ClipCore, ClipView, MutableTrackCore, MutableTrackView,
    TrackCore, TrackReferenceCore, TrackReferenceView, TrackSoloState, TrackView,
};
use vstd::prelude::*;

verus! {

/// Id of the master track, which every project holds and which is never listed
/// among the ordinary tracks.
pub open spec fn master_id() -> Seq<char> {
    seq!['m', 'a', 's', 't', 'e', 'r']
}

/// The models of a sequence of tracks.
pub open spec fn track_views(s: Seq<TrackCore>) -> Seq<TrackView> {
    s.map_values(|t: TrackCore| t@)
}

/// No two tracks of `s` share an id.
pub open spec fn unique_ids(s: Seq<TrackView>) -> bool {
    forall|i: int, j: int| 0 <= i < s.len() && 0 <= j < s.len() && i != j ==> s[i].id != s[j].id
}

/// Whether some track of `s` has the id `k`.
pub open spec fn has_id(s: Seq<TrackView>, k: Seq<char>) -> bool {
    exists|i: int| 0 <= i < s.len() && s[i].id == k
}

/// The tracks of `s`, keyed by id.
pub open spec fn map_of(s: Seq<TrackView>) -> Map<Seq<char>, TrackView> {
    Map::new(|k: Seq<char>| has_id(s, k), |k: Seq<char>| s[choose|i: int| 0 <= i < s.len() && s[i].id == k])
}

pub proof fn lemma_map_of_index(s: Seq<TrackView>, i: int)
    requires
        unique_ids(s),
        0 <= i < s.len(),
    ensures
        map_of(s).contains_key(s[i].id),
        map_of(s)[s[i].id] == s[i],
{
    assert(has_id(s, s[i].id));
    let j = choose|j: int| 0 <= j < s.len() && s[j].id == s[i].id;
    assert(j == i);
}

pub proof fn lemma_map_of_update(s: Seq<TrackView>, i: int, t: TrackView)
    requires
        unique_ids(s),
        0 <= i < s.len(),
        t.id == s[i].id,
    ensures
        unique_ids(s.update(i, t)),
        map_of(s.update(i, t)) == map_of(s).insert(t.id, t),
{
    let u = s.update(i, t);
    assert forall|k: Seq<char>| has_id(u, k) <==> has_id(s, k) || k == t.id by {
        if has_id(s, k) {
            let j = choose|j: int| 0 <= j < s.len() && s[j].id == k;
            assert(u[j].id == k);
        }
        if k == t.id {
            assert(u[i].id == k);
        }
        if has_id(u, k) {
            let j = choose|j: int| 0 <= j < u.len() && u[j].id == k;
            if j != i {
                assert(s[j].id == k);
            }
        }
    }
    assert forall|k: Seq<char>| #[trigger] map_of(u).contains_key(k) implies map_of(u)[k] == map_of(
        s,
    ).insert(t.id, t)[k] by {
        let j = choose|j: int| 0 <= j < u.len() && u[j].id == k;
        if j == i {
            assert(map_of(u)[k] == t);
        } else {
            lemma_map_of_index(s, j);
        }
    }
    assert(map_of(u) =~= map_of(s).insert(t.id, t));
}

pub proof fn lemma_map_of_push(s: Seq<TrackView>, t: TrackView)
    requires
        unique_ids(s),
        !has_id(s, t.id),
    ensures
        unique_ids(s.push(t)),
        map_of(s.push(t)) == map_of(s).insert(t.id, t),
{
    let u = s.push(t);
    assert forall|i: int, j: int|
        0 <= i < u.len() && 0 <= j < u.len() && i != j implies u[i].id != u[j].id by {
        if i == s.len() as int {
            assert(s[j].id == u[j].id);
        } else if j == s.len() as int {
            assert(s[i].id == u[i].id);
        }
    }
    assert forall|k: Seq<char>| has_id(u, k) <==> has_id(s, k) || k == t.id by {
        if has_id(s, k) {
            let j = choose|j: int| 0 <= j < s.len() && s[j].id == k;
            assert(u[j].id == k);
        }
        if k == t.id {
            assert(u[s.len() as int].id == k);
        }
        if has_id(u, k) {
            let j = choose|j: int| 0 <= j < u.len() && u[j].id == k;
            if j < s.len() {
                assert(s[j].id == k);
            }
        }
    }
    assert forall|k: Seq<char>| #[trigger] map_of(u).contains_key(k) implies map_of(u)[k] == map_of(
        s,
    ).insert(t.id, t)[k] by {
        let j = choose|j: int| 0 <= j < u.len() && u[j].id == k;
        lemma_map_of_index(u, j);
        if j < s.len() {
            lemma_map_of_index(s, j);
        }
    }
    assert(map_of(u) =~= map_of(s).insert(t.id, t));
}

pub proof fn lemma_map_of_remove(s: Seq<TrackView>, i: int)
    requires
        unique_ids(s),
        0 <= i < s.len(),
    ensures
        unique_ids(s.remove(i)),
        map_of(s.remove(i)) == map_of(s).remove(s[i].id),
{
    let u = s.remove(i);
    assert forall|a: int, b: int|
        0 <= a < u.len() && 0 <= b < u.len() && a != b implies u[a].id != u[b].id by {
        let a2 = if a < i { a } else { a + 1 };
        let b2 = if b < i { b } else { b + 1 };
        assert(u[a] == s[a2] && u[b] == s[b2]);
    }
    assert forall|k: Seq<char>| has_id(u, k) <==> has_id(s, k) && k != s[i].id by {
        if has_id(s, k) && k != s[i].id {
            let j = choose|j: int| 0 <= j < s.len() && s[j].id == k;
            if j < i {
                assert(u[j].id == k);
            } else {
                assert(u[j - 1].id == k);
            }
        }
        if has_id(u, k) {
            let j = choose|j: int| 0 <= j < u.len() && u[j].id == k;
            let j2 = if j < i { j } else { j + 1 };
            assert(s[j2].id == k);
        }
    }
    assert forall|k: Seq<char>| #[trigger] map_of(u).contains_key(k) implies map_of(u)[k] == map_of(
        s,
    ).remove(s[i].id)[k] by {
        let j = choose|j: int| 0 <= j < u.len() && u[j].id == k;
        lemma_map_of_index(u, j);
        let j2 = if j < i { j } else { j + 1 };
        assert(s[j2] == u[j]);
        lemma_map_of_index(s, j2);
    }
    assert(map_of(u) =~= map_of(s).remove(s[i].id));
}

/// The elements of `s` other than `x`, in their order.
pub open spec fn seq_without(s: Seq<Seq<char>>, x: Seq<char>) -> Seq<Seq<char>>
    decreases s.len(),
{
    if s.len() == 0 {
        Seq::empty()
    } else {
        let rest = seq_without(s.drop_last(), x);
        if s.last() == x {
            rest
        } else {
            rest.push(s.last())
        }
    }
}

/// Index of the first occurrence of `x` in `s`, or `s.len()` if there is none.
pub open spec fn first_index(s: Seq<Seq<char>>, x: Seq<char>) -> int
    decreases s.len(),
{
    if s.len() == 0 {
        0
    } else if s[0] == x {
        0
    } else {
        1 + first_index(s.drop_first(), x)
    }
}

pub proof fn lemma_first_index(s: Seq<Seq<char>>, x: Seq<char>)
    ensures
        0 <= first_index(s, x) <= s.len(),
        first_index(s, x) < s.len() ==> s[first_index(s, x)] == x,
        forall|j: int| 0 <= j < first_index(s, x) ==> s[j] != x,
        first_index(s, x) == s.len() <==> !s.contains(x),
    decreases s.len(),
{
    if s.len() > 0 && s[0] != x {
        lemma_first_index(s.drop_first(), x);
        assert forall|j: int| 0 <= j < first_index(s, x) implies s[j] != x by {
            if j > 0 {
                assert(s[j] == s.drop_first()[j - 1]);
            }
        }
        if s.contains(x) {
            let k = choose|k: int| 0 <= k < s.len() && s[k] == x;
            assert(s.drop_first()[k - 1] == x);
        }
        if s.drop_first().contains(x) {
            let k = choose|k: int| 0 <= k < s.drop_first().len() && s.drop_first()[k] == x;
            assert(s[k + 1] == x);
        }
    }
}

/// Solo state of the track `id`, given the soloed tracks.
pub open spec fn solo_state(solo: Seq<Seq<char>>, id: Seq<char>) -> TrackSoloState {
    if solo.len() == 0 {
        TrackSoloState::NotSoloing
    } else if solo.contains(id) {
        TrackSoloState::Solo
    } else {
        TrackSoloState::Soloing
    }
}

/// The ids of `order` that the track list shows: those of stored tracks other than the master.
pub open spec fn listed(order: Seq<Seq<char>>, tracks: Map<Seq<char>, TrackView>) -> Seq<Seq<char>>
    decreases order.len(),
{
    if order.len() == 0 {
        Seq::empty()
    } else {
        let rest = listed(order.drop_last(), tracks);
        if order.last() != master_id() && tracks.contains_key(order.last()) {
            rest.push(order.last())
        } else {
            rest
        }
    }
}

pub proof fn lemma_listed_len(order: Seq<Seq<char>>, tracks: Map<Seq<char>, TrackView>)
    ensures
        listed(order, tracks).len() <= order.len(),
        forall|i: int|
            0 <= i < listed(order, tracks).len() ==> tracks.contains_key(
                #[trigger] listed(order, tracks)[i],
            ),
    decreases order.len(),
{
    if order.len() > 0 {
        lemma_listed_len(order.drop_last(), tracks);
    }
}

/// Mathematical model of the track service.
pub struct ServiceView {
    /// The stored tracks (the master among them), in storage order.
    pub store: Seq<TrackView>,
    /// Display order of the track ids.
    pub order: Seq<Seq<char>>,
    pub solo: Seq<Seq<char>>,
    pub selected: Seq<Seq<char>>,
}

impl ServiceView {
    /// The stored tracks, keyed by id.
    pub open spec fn tracks(self) -> Map<Seq<char>, TrackView> {
        map_of(self.store)
    }

    /// Reference of the track `id` as the service hands it out.
    pub open spec fn reference(self, id: Seq<char>) -> TrackReferenceView {
        let i = first_index(self.order, id);
        reference_of(
            self.tracks()[id],
            if i < self.order.len() { i as usize } else { 0 },
            self.selected.contains(id),
            solo_state(self.solo, id),
        )
    }

    /// References of the listed tracks, numbered by their place in the list.
    pub open spec fn references(self) -> Seq<TrackReferenceView> {
        let l = listed(self.order, self.tracks());
        Seq::new(
            l.len(),
            |i: int|
                reference_of(
                    self.tracks()[l[i]],
                    i as usize,
                    self.selected.contains(l[i]),
                    solo_state(self.solo, l[i]),
                ),
        )
    }
}

/// Service managing the tracks of a project: their display order, solo and selection.
pub struct TrackService {
    tracks: Vec<TrackCore>,
    order: Vec<String>,
    solo_tracks: Vec<String>,
    selected_tracks: Vec<String>,
}

impl View for TrackService {
    type V = ServiceView;

    closed spec fn view(&self) -> ServiceView {
        ServiceView {
            store: track_views(self.tracks@),
            order: str_views(self.order@),
            solo: str_views(self.solo_tracks@),
            selected: str_views(self.selected_tracks@),
        }
    }
}

/// Removes every occurrence of `x` from `v`, keeping the order of the rest.
pub fn retain_other(v: &mut Vec<String>, x: &String)
    ensures
        str_views(final(v)@) == seq_without(str_views(old(v)@), x@),
{
    let ghost all = str_views(v@);
    let mut kept: Vec<String> = Vec::new();
    let mut i: usize = 0;
    while i < v.len()
        invariant
            i <= v.len(),
            str_views(v@) == all,
            str_views(kept@) == seq_without(all.take(i as int), x@),
        decreases v.len() - i,
    {
        assert(all.take(i + 1).drop_last() == all.take(i as int));
        assert(all.take(i + 1).last() == v@[i as int]@);
        let ghost k0 = str_views(kept@);
        if v[i] != *x {
            kept.push(v[i].clone());
            assert(str_views(kept@) == k0.push(all[i as int]));
        }
        i = i + 1;
    }
    assert(all.take(i as int) == all);
    *v = kept;
}

/// Index of the first occurrence of `x` in `v`, or the length of `v`.
pub fn position_of(v: &Vec<String>, x: &String) -> (k: usize)
    ensures
        k == first_index(str_views(v@), x@),
{
    proof {
        lemma_first_index(str_views(v@), x@);
    }
    let mut i: usize = 0;
    while i < v.len()
        invariant
            i <= v.len(),
            forall|j: int| 0 <= j < i ==> str_views(v@)[j] != x@,
            0 <= first_index(str_views(v@), x@) <= v.len(),
            first_index(str_views(v@), x@) < v.len() ==> str_views(v@)[first_index(
                str_views(v@),
                x@,
            )] == x@,
            forall|j: int| 0 <= j < first_index(str_views(v@), x@) ==> str_views(v@)[j] != x@,
        decreases v.len() - i,
    {
        if v[i] == *x {
            assert(str_views(v@)[i as int] == x@);
            return i;
        }
        i = i + 1;
    }
    i
}

impl TrackService {
    /// The service invariant: stored track ids are unique.
    pub open spec fn wf(&self) -> bool {
        unique_ids(self@.store)
    }

    /// Storage index of the track `id`, if it is stored.
    fn index_of(&self, id: &String) -> (r: Option<usize>)
        requires
            self.wf(),
        ensures
            r is Some <==> self@.tracks().contains_key(id@),
            r matches Some(i) ==> i < self.tracks@.len() && self@.store[i as int].id == id@
                && self@.tracks()[id@] == self@.store[i as int],
    {
        let mut i: usize = 0;
        while i < self.tracks.len()
            invariant
                i <= self.tracks.len(),
                self.wf(),
                forall|j: int| 0 <= j < i ==> self@.store[j].id != id@,
            decreases self.tracks.len() - i,
        {
            if self.tracks[i].id == *id {
                proof {
                    lemma_map_of_index(self@.store, i as int);
                }
                return Some(i);
            }
            i = i + 1;
        }
        None
    }

    /// Stores `track`, replacing the stored track with the same id if there is one.
    fn put(&mut self, track: TrackCore)
        requires
            old(self).wf(),
        ensures
            final(self).wf(),
            final(self)@.tracks() == old(self)@.tracks().insert(track@.id, track@),
            final(self)@.order == old(self)@.order,
            final(self)@.solo == old(self)@.solo,
            final(self)@.selected == old(self)@.selected,
    {
        match self.index_of(&track.id) {
            Some(i) => {
                proof {
                    lemma_map_of_update(self@.store, i as int, track@);
                }
                self.tracks.set(i, track);
                assert(self@.store =~= old(self)@.store.update(i as int, track@));
            },
            None => {
                proof {
                    lemma_map_of_push(self@.store, track@);
                }
                self.tracks.push(track);
                assert(self@.store =~= old(self)@.store.push(track@));
            },
        }
    }

    /// Removes the stored track at storage index `i`.
    fn take_at(&mut self, i: usize) -> (t: TrackCore)
        requires
            old(self).wf(),
            i < old(self)@.store.len(),
        ensures
            final(self).wf(),
            t@ == old(self)@.store[i as int],
            final(self)@.tracks() == old(self)@.tracks().remove(t@.id),
            final(self)@.order == old(self)@.order,
            final(self)@.solo == old(self)@.solo,
            final(self)@.selected == old(self)@.selected,
    {
        proof {
            lemma_map_of_remove(self@.store, i as int);
        }
        let t = self.tracks.remove(i);
        assert(self@.store =~= old(self)@.store.remove(i as int));
        t
    }

    /// A service holding only the master track.
    pub fn new() -> (s: Self)
        ensures
            s.wf(),
            s@.tracks().dom() == set![master_id()],
            s@.tracks()[master_id()].mutable.name == "Master"@,
            s@.tracks()[master_id()].clips.len() == 0,
            s@.order.len() == 0,
            s@.solo.len() == 0,
            s@.selected.len() == 0,
    {
        let master = TrackCore::from("master", "Master");
        proof {
            reveal_strlit("master");
        }
        let mut tracks: Vec<TrackCore> = Vec::new();
        tracks.push(master);
        let s = TrackService {
            tracks,
            order: Vec::new(),
            solo_tracks: Vec::new(),
            selected_tracks: Vec::new(),
        };
        assert(s@.store.len() == 1);
        assert(s@.store[0].id =~= master_id());
        proof {
            lemma_map_of_index(s@.store, 0);
        }
        assert forall|k: Seq<char>| s@.tracks().contains_key(k) <==> k == master_id() by {
            if s@.tracks().contains_key(k) {
                let j = choose|j: int| 0 <= j < s@.store.len() && s@.store[j].id == k;
                assert(j == 0);
            }
        }
        assert(s@.tracks().dom() =~= set![master_id()]);
        assert(str_views(s.order@) =~= Seq::<Seq<char>>::empty());
        assert(str_views(s.solo_tracks@) =~= Seq::<Seq<char>>::empty());
        assert(str_views(s.selected_tracks@) =~= Seq::<Seq<char>>::empty());
        s
    }

    /// Number of tracks in the display order.
    pub fn length(&self) -> (n: usize)
        ensures
            n == self@.order.len(),
    {
        self.order.len()
    }

    /// Whether a track with this id is stored.
    pub fn has_track(&self, id: &String) -> (r: bool)
        requires
            self.wf(),
        ensures
            r == self@.tracks().contains_key(id@),
    {
        self.index_of(id).is_some()
    }

    /// A copy of the track `id`, if it is stored.
    pub fn get(&self, id: &String) -> (r: Option<TrackCore>)
        requires
            self.wf(),
        ensures
            r is Some <==> self@.tracks().contains_key(id@),
            r matches Some(t) ==> t@ == self@.tracks()[id@],
    {
        match self.index_of(id) {
            Some(i) => Some(self.tracks[i].clone()),
            None => None,
        }
    }

    /// The solo state of the track `id`.
    pub fn solo_state_of(&self, id: &String) -> (s: TrackSoloState)
        ensures
            s == solo_state(self@.solo, id@),
    {
        if self.solo_tracks.len() == 0 {
            TrackSoloState::NotSoloing
        } else if contains_str(&self.solo_tracks, id) {
            TrackSoloState::Solo
        } else {
            TrackSoloState::Soloing
        }
    }

    /// The reference of the track `id`, if it is stored; its index is its place
    /// in the display order, or 0 if it has none.
    pub fn get_reference(&self, id: &String) -> (r: Option<TrackReferenceCore>)
        requires
            self.wf(),
        ensures
            r is Some <==> self@.tracks().contains_key(id@),
            r matches Some(t) ==> t@ == self@.reference(id@),
    {
        match self.index_of(id) {
            Some(i) => {
                let k = position_of(&self.order, id);
                let index = if k < self.order.len() {
                    k
                } else {
                    0
                };
                let selected = contains_str(&self.selected_tracks, id);
                let solo = self.solo_state_of(id);
                Some(self.tracks[i].get_reference(index, selected, solo))
            },
            None => None,
        }
    }

    /// The reference of the track at `index` in the display order.
    pub fn from_index(&self, index: usize) -> (r: Option<TrackReferenceCore>)
        requires
            self.wf(),
        ensures
            index >= self@.order.len() ==> r is None,
            index < self@.order.len() ==> (r is Some <==> self@.tracks().contains_key(
                self@.order[index as int],
            )),
            r matches Some(t) ==> t@ == self@.reference(self@.order[index as int]),
    {
        if index >= self.length() {
            return None;
        }
        self.get_reference(&self.order[index])
    }

    /// References of the tracks in display order, the master left out.
    pub fn tracks(&self) -> (r: Vec<TrackReferenceCore>)
        requires
            self.wf(),
        ensures
            r@.map_values(|t: TrackReferenceCore| t@) == self@.references(),
    {
        let ghost m = self@.tracks();
        let mut r: Vec<TrackReferenceCore> = Vec::new();
        let mut i: usize = 0;
        let master = id_string("master");
        proof {
            reveal_strlit("master");
            assert(master@ =~= master_id());
        }
        while i < self.order.len()
            invariant
                i <= self.order.len(),
                self.wf(),
                m == self@.tracks(),
                master@ == master_id(),
                listed(self@.order.take(i as int), m).len() == r@.len(),
                forall|j: int|
                    0 <= j < r@.len() ==> (#[trigger] r@[j])@ == ({
                        let l = listed(self@.order.take(i as int), m);
                        reference_of(
                            m[l[j]],
                            j as usize,
                            self@.selected.contains(l[j]),
                            solo_state(self@.solo, l[j]),
                        )
                    }),
            decreases self.order.len() - i,
        {
            let ghost before = listed(self@.order.take(i as int), m);
            assert(self@.order.take(i + 1).drop_last() == self@.order.take(i as int));
            assert(self@.order.take(i + 1).last() == self@.order[i as int]);
            proof {
                lemma_listed_len(self@.order.take(i as int), m);
            }
            let id = &self.order[i];
            if *id != master {
                match self.index_of(id) {
                    Some(k) => {
                        let index = r.len();
                        let selected = contains_str(&self.selected_tracks, id);
                        let solo = self.solo_state_of(id);
                        r.push(self.tracks[k].get_reference(index, selected, solo));
                        assert(listed(self@.order.take(i + 1), m) == before.push(id@));
                    },
                    None => {
                        assert(listed(self@.order.take(i + 1), m) == before);
                    },
                }
            } else {
                assert(listed(self@.order.take(i + 1), m) == before);
            }
            i = i + 1;
        }
        assert(self@.order.take(i as int) == self@.order);
        assert(r@.map_values(|t: TrackReferenceCore| t@) =~= self@.references());
        r
    }
}

/// Storage index of the first track holding a clip with id `id`, or the
/// number of stored tracks if none does.
pub open spec fn owner_index(s: Seq<TrackView>, id: Seq<char>) -> int
    decreases s.len(),
{
    if s.len() == 0 {
        0
    } else if clip_ids(s[0].clips).contains(id) {
        0
    } else {
        1 + owner_index(s.drop_first(), id)
    }
}

pub proof fn lemma_owner_index(s: Seq<TrackView>, id: Seq<char>)
    ensures
        0 <= owner_index(s, id) <= s.len(),
        owner_index(s, id) < s.len() ==> clip_ids(s[owner_index(s, id)].clips).contains(id),
        forall|j: int| 0 <= j < owner_index(s, id) ==> !clip_ids(#[trigger] s[j].clips).contains(id),
    decreases s.len(),
{
    if s.len() > 0 && !clip_ids(s[0].clips).contains(id) {
        lemma_owner_index(s.drop_first(), id);
        assert forall|j: int| 0 <= j < owner_index(s, id) implies !clip_ids(
            #[trigger] s[j].clips,
        ).contains(id) by {
            if j > 0 {
                assert(s[j] == s.drop_first()[j - 1]);
            }
        }
    }
}

/// The stored tracks with the clips whose id is in `ids` taken out.
pub open spec fn store_without_clips(s: Seq<TrackView>, ids: Seq<Seq<char>>) -> Seq<TrackView> {
    Seq::new(s.len(), |i: int| TrackView { clips: clips_without(s[i].clips, ids), ..s[i] })
}

/// For each stored track, in storage order, that holds clips whose id is in
/// `ids`: its id and those clips.
pub open spec fn deleted_pairs(s: Seq<TrackView>, ids: Seq<Seq<char>>) -> Seq<(Seq<char>, Seq<ClipView>)>
    decreases s.len(),
{
    if s.len() == 0 {
        Seq::empty()
    } else {
        let rest = deleted_pairs(s.drop_last(), ids);
        let w = clips_within(s.last().clips, ids);
        if w.len() > 0 {
            rest.push((s.last().id, w))
        } else {
            rest
        }
    }
}

/// The tracks `m` after the clips of each pair of `p` were appended, in order,
/// to the track named by the pair, where there is such a track.
pub open spec fn add_pairs(m: Map<Seq<char>, TrackView>, p: Seq<(Seq<char>, Seq<ClipView>)>) -> Map<
    Seq<char>,
    TrackView,
>
    decreases p.len(),
{
    if p.len() == 0 {
        m
    } else {
        let m1 = add_pairs(m, p.drop_last());
        let (k, cs) = p.last();
        if m1.contains_key(k) {
            m1.insert(k, TrackView { clips: m1[k].clips + cs, ..m1[k] })
        } else {
            m1
        }
    }
}

/// The commands that adding the pairs `p` to the tracks `m` emits.
pub open spec fn add_pairs_commands(m: Map<Seq<char>, TrackView>, p: Seq<(Seq<char>, Seq<ClipView>)>) -> Seq<
    CommandView,
>
    decreases p.len(),
{
    if p.len() == 0 {
        Seq::empty()
    } else {
        let rest = add_pairs_commands(m, p.drop_last());
        let (k, cs) = p.last();
        if m.contains_key(k) {
            rest.push(CommandView::AddClips(seq![(k, cs)]))
        } else {
            rest
        }
    }
}

pub proof fn lemma_add_pairs_dom(m: Map<Seq<char>, TrackView>, p: Seq<(Seq<char>, Seq<ClipView>)>)
    ensures
        add_pairs(m, p).dom() == m.dom(),
    decreases p.len(),
{
    if p.len() > 0 {
        lemma_add_pairs_dom(m, p.drop_last());
        let m1 = add_pairs(m, p.drop_last());
        if m1.contains_key(p.last().0) {
            assert(add_pairs(m, p).dom() =~= m1.dom());
        }
    }
}

/// The new solo list after toggling the solo of `id`.
pub open spec fn toggled_solo(solo: Seq<Seq<char>>, id: Seq<char>, modifier: bool) -> Seq<Seq<char>> {
    if modifier {
        if solo.contains(id) {
            seq_without(solo, id)
        } else {
            solo.push(id)
        }
    } else {
        if solo.contains(id) {
            Seq::empty()
        } else {
            seq![id]
        }
    }
}

/// The commands that inserting `t` emits.
pub open spec fn insert_commands(t: TrackView) -> Seq<CommandView> {
    if t.clips.len() > 0 {
        seq![CommandView::AddTrack(t.id), CommandView::AddClips(seq![(t.id, t.clips)])]
    } else {
        seq![CommandView::AddTrack(t.id)]
    }
}

pub proof fn lemma_same_ids_unique(s: Seq<TrackView>, u: Seq<TrackView>)
    requires
        unique_ids(s),
        s.len() == u.len(),
        forall|i: int| 0 <= i < s.len() ==> #[trigger] u[i].id == s[i].id,
    ensures
        unique_ids(u),
{
}

impl TrackService {
    /// Replaces the stored track at storage index `i` by `t`, which has the same id.
    fn set_at(&mut self, i: usize, t: TrackCore)
        requires
            old(self).wf(),
            i < old(self)@.store.len(),
            t@.id == old(self)@.store[i as int].id,
        ensures
            final(self).wf(),
            final(self)@.store == old(self)@.store.update(i as int, t@),
            final(self)@.tracks() == old(self)@.tracks().insert(t@.id, t@),
            final(self)@.order == old(self)@.order,
            final(self)@.solo == old(self)@.solo,
            final(self)@.selected == old(self)@.selected,
    {
        proof {
            lemma_map_of_update(self@.store, i as int, t@);
        }
        self.tracks.set(i, t);
        assert(self@.store =~= old(self)@.store.update(i as int, t@));
    }

    /// Stores `track` at `index` of the display order, replacing a stored
    /// track with the same id, and announces it to the engine with its clips.
    pub fn insert(&mut self, track: TrackCore, index: usize, tx: &mut Vec<PlayerCommand>)
        requires
            old(self).wf(),
            index <= old(self)@.order.len(),
        ensures
            final(self).wf(),
            inserted(
                old(self)@,
                track@,
                index as int,
                final(self)@,
                commands_view(old(tx)@),
                commands_view(final(tx)@),
            ),
    {
        tx.push(PlayerCommand::AddTrack(track.id.clone()));
        if track.clips.len() > 0 {
            let mut map: Vec<(String, Vec<ClipCore>)> = Vec::new();
            map.push((track.id.clone(), clone_clips(&track.clips)));
            assert(crate::command::clip_map_views(map@) =~= seq![(track@.id, track@.clips)]);
            tx.push(PlayerCommand::AddClips(map));
        }
        assert(commands_view(tx@) =~= commands_view(old(tx)@) + insert_commands(track@));
        self.order.insert(index, track.id.clone());
        assert(str_views(self.order@) =~= old(self)@.order.insert(index as int, track@.id));
        self.put(track);
    }

    /// Deletes the track `id`: it leaves the store, the display order, the
    /// selection and the solo list. Returns the track and its place in the
    /// display order, or `None` (and changes nothing) if the track is not both
    /// in the display order and stored.
    pub fn delete(&mut self, id: &String, tx: &mut Vec<PlayerCommand>) -> (r: Option<(TrackCore, usize)>)
        requires
            old(self).wf(),
        ensures
            final(self).wf(),
            deleted(old(self)@, id@, final(self)@, commands_view(old(tx)@), commands_view(final(tx)@)),
            ({
                let k = first_index(old(self)@.order, id@);
                if k < old(self)@.order.len() && old(self)@.tracks().contains_key(id@) {
                    r matches Some((t, p)) && t@ == old(self)@.tracks()[id@] && p == k
                } else {
                    r is None
                }
            }),
    {
        let pos = position_of(&self.order, id);
        if pos >= self.order.len() {
            return None;
        }
        let i = match self.index_of(id) {
            Some(i) => i,
            None => {
                return None;
            },
        };
        self.order.remove(pos);
        assert(str_views(self.order@) =~= old(self)@.order.remove(pos as int));
        retain_other(&mut self.selected_tracks, id);
        retain_other(&mut self.solo_tracks, id);
        let track = self.take_at(i);
        tx.push(PlayerCommand::RemoveTrack(id.clone()));
        assert(commands_view(tx@) =~= commands_view(old(tx)@).push(CommandView::RemoveTrack(id@)));
        Some((track, pos))
    }

    /// Copies the track `id` (fresh ids for it and its clips) and places the
    /// copy right after it in the display order. Returns the new id, or `None`
    /// (and changes nothing) if the track is not both in the display order and
    /// stored.
    pub fn duplicate(&mut self, id: &String, tx: &mut Vec<PlayerCommand>) -> (r: Option<String>)
        requires
            old(self).wf(),
        ensures
            final(self).wf(),
            duplicated(
                old(self)@,
                id@,
                match r {
                    Some(n) => Some(n@),
                    None => None,
                },
                final(self)@,
                commands_view(old(tx)@),
                commands_view(final(tx)@),
            ),
    {
        let pos = position_of(&self.order, id);
        if pos >= self.order.len() {
            return None;
        }
        let i = match self.index_of(id) {
            Some(i) => i,
            None => {
                return None;
            },
        };
        let (copy, clip_map) = self.tracks[i].duplicate();
        let new_id = copy.id.clone();
        let ghost c = copy@;
        assert(clip_ids(c.clips) =~= c.clips.map_values(|x: ClipView| x.id));
        self.put(copy);
        proof {
            assert(self@.tracks().contains_key(new_id@));
        }
        self.order.insert(pos + 1, new_id.clone());
        assert(str_views(self.order@) =~= old(self)@.order.insert(pos + 1, new_id@));
        tx.push(
            PlayerCommand::DuplicateTrack { id: id.clone(), new_id: new_id.clone(), clip_map },
        );
        assert(commands_view(tx@) =~= commands_view(old(tx)@).push(tx@.last()@));
        Some(new_id)
    }

    /// Sets the gain of the track `id`, if it is stored.
    pub fn set_volume(&mut self, id: &String, volume_bits: u32, tx: &mut Vec<PlayerCommand>)
        requires
            old(self).wf(),
        ensures
            final(self).wf(),
            volume_set(
                old(self)@,
                id@,
                volume_bits,
                final(self)@,
                commands_view(old(tx)@),
                commands_view(final(tx)@),
            ),
    {
        if let Some(i) = self.index_of(id) {
            let mut t = self.tracks[i].clone();
            t.volume_bits = volume_bits;
            self.set_at(i, t);
            tx.push(PlayerCommand::ChangeTrackVolume(id.clone(), volume_bits));
            assert(commands_view(tx@) =~= commands_view(old(tx)@).push(tx@.last()@));
        }
    }

    /// Mutes or unmutes the track `id`, if it is stored.
    pub fn set_mute(&mut self, id: String, mute: bool, tx: &mut Vec<PlayerCommand>)
        requires
            old(self).wf(),
        ensures
            final(self).wf(),
            if old(self)@.tracks().contains_key(id@) {
                &&& final(self)@ == (ServiceView {
                    store: final(self)@.store,
                    ..old(self)@
                })
                &&& final(self)@.tracks() == old(self)@.tracks().insert(
                    id@,
                    TrackView { muted: mute, ..old(self)@.tracks()[id@] },
                )
                &&& commands_view(final(tx)@) == commands_view(old(tx)@).push(
                    CommandView::MuteTrack(id@, mute),
                )
            } else {
                &&& final(self)@ == old(self)@
                &&& final(tx)@ == old(tx)@
            },
    {
        if let Some(i) = self.index_of(&id) {
            let mut t = self.tracks[i].clone();
            t.muted = mute;
            self.set_at(i, t);
            tx.push(PlayerCommand::MuteTrack(id, mute));
            assert(commands_view(tx@) =~= commands_view(old(tx)@).push(tx@.last()@));
        }
    }

    /// Toggles the solo of the track `id`, if it is stored. With the modifier
    /// the track joins or leaves the soloed tracks; without it, it becomes the
    /// only soloed track, or no track stays soloed if it was soloed.
    pub fn toggle_solo(&mut self, id: String, modifier_pressed: bool, tx: &mut Vec<PlayerCommand>)
        requires
            old(self).wf(),
        ensures
            final(self).wf(),
            if old(self)@.tracks().contains_key(id@) {
                let solo = toggled_solo(old(self)@.solo, id@, modifier_pressed);
                &&& final(self)@ == (ServiceView { solo, ..old(self)@ })
                &&& commands_view(final(tx)@) == commands_view(old(tx)@).push(
                    CommandView::SoloTracks(solo),
                )
            } else {
                &&& final(self)@ == old(self)@
                &&& final(tx)@ == old(tx)@
            },
    {
        if self.index_of(&id).is_some() {
            let present = contains_str(&self.solo_tracks, &id);
            if modifier_pressed {
                if present {
                    retain_other(&mut self.solo_tracks, &id);
                } else {
                    self.solo_tracks.push(id.clone());
                    assert(str_views(self.solo_tracks@) =~= old(self)@.solo.push(id@));
                }
            } else {
                if present {
                    self.solo_tracks = Vec::new();
                    assert(str_views(self.solo_tracks@) =~= Seq::<Seq<char>>::empty());
                } else {
                    let mut v: Vec<String> = Vec::new();
                    v.push(id.clone());
                    self.solo_tracks = v;
                    assert(str_views(self.solo_tracks@) =~= seq![id@]);
                }
            }
            tx.push(PlayerCommand::SoloTracks(clone_strings(&self.solo_tracks)));
            assert(commands_view(tx@) =~= commands_view(old(tx)@).push(tx@.last()@));
        }
    }

    /// Makes `id` the only selected track.
    pub fn select(&mut self, id: &String)
        requires
            old(self).wf(),
        ensures
            final(self).wf(),
            final(self)@ == (ServiceView { selected: seq![id@], ..old(self)@ }),
    {
        let mut v: Vec<String> = Vec::new();
        v.push(id.clone());
        self.selected_tracks = v;
        assert(str_views(self.selected_tracks@) =~= seq![id@]);
    }

    /// Clears the selection.
    pub fn deselect(&mut self)
        requires
            old(self).wf(),
        ensures
            final(self).wf(),
            final(self)@ == (ServiceView { selected: Seq::empty(), ..old(self)@ }),
    {
        self.selected_tracks = Vec::new();
        assert(str_views(self.selected_tracks@) =~= Seq::<Seq<char>>::empty());
    }

    /// The ids of the selected tracks.
    pub fn selected_tracks(&self) -> (r: Vec<String>)
        ensures
            str_views(r@) == self@.selected,
    {
        clone_strings(&self.selected_tracks)
    }

    /// The reference of the first selected track, if there is one and it is stored.
    pub fn selected_track(&self) -> (r: Option<TrackReferenceCore>)
        requires
            self.wf(),
        ensures
            self@.selected.len() == 0 ==> r is None,
            self@.selected.len() > 0 ==> (r is Some <==> self@.tracks().contains_key(
                self@.selected[0],
            )),
            r matches Some(t) ==> t@ == self@.reference(self@.selected[0]) && t@.selected,
    {
        if self.selected_tracks.len() > 0 {
            let r = self.get_reference(&self.selected_tracks[0]);
            proof {
                assert(self@.selected.contains(self@.selected[0]));
            }
            r
        } else {
            None
        }
    }

    /// The reference of the master track: index 0, never soloed nor silenced by a solo.
    pub fn master_track(&self) -> (r: TrackReferenceCore)
        requires
            self.wf(),
            self@.tracks().contains_key(master_id()),
        ensures
            r@ == reference_of(
                self@.tracks()[master_id()],
                0,
                self@.selected.contains(master_id()),
                TrackSoloState::NotSoloing,
            ),
    {
        let master = id_string("master");
        proof {
            reveal_strlit("master");
            assert(master@ =~= master_id());
        }
        let i = self.index_of(&master).unwrap();
        let selected = contains_str(&self.selected_tracks, &master);
        self.tracks[i].get_reference(0, selected, TrackSoloState::NotSoloing)
    }

    /// The editable fields of the track `id`, if it is stored.
    pub fn mutable_fields(&self, id: &String) -> (r: Option<MutableTrackCore>)
        requires
            self.wf(),
        ensures
            r is Some <==> self@.tracks().contains_key(id@),
            r matches Some(m) ==> m@ == self@.tracks()[id@].mutable,
    {
        match self.index_of(id) {
            Some(i) => Some(self.tracks[i].mutable.clone()),
            None => None,
        }
    }

    /// Sets the editable fields of the track `id` (not the committed ones), if it is stored.
    pub fn set_mutable_fields(&mut self, id: &String, fields: MutableTrackCore)
        requires
            old(self).wf(),
        ensures
            final(self).wf(),
            if old(self)@.tracks().contains_key(id@) {
                &&& final(self)@ == (ServiceView { store: final(self)@.store, ..old(self)@ })
                &&& final(self)@.tracks() == old(self)@.tracks().insert(
                    id@,
                    TrackView { mutable: fields@, ..old(self)@.tracks()[id@] },
                )
            } else {
                final(self)@ == old(self)@
            },
    {
        if let Some(i) = self.index_of(id) {
            let mut t = self.tracks[i].clone();
            t.mutable = fields;
            self.set_at(i, t);
        }
    }

    /// Sets both the editable and the committed fields of the track `id`, if it is stored.
    pub fn commit_mutable_fields(&mut self, id: &String, fields: &MutableTrackCore)
        requires
            old(self).wf(),
        ensures
            final(self).wf(),
            mutable_committed(old(self)@, id@, fields@, final(self)@),
    {
        if let Some(i) = self.index_of(id) {
            let mut t = self.tracks[i].clone();
            t.mutable = fields.clone();
            t.old_mutable = fields.clone();
            self.set_at(i, t);
        }
    }

    /// Inserts the effect `effect_id` at `index` in the chain of the track `id`, if it is stored.
    pub fn add_effect(
        &mut self,
        id: &String,
        effect_id: String,
        index: usize,
        tx: &mut Vec<PlayerCommand>,
    )
        requires
            old(self).wf(),
            old(self)@.tracks().contains_key(id@) ==> index <= old(self)@.tracks()[id@].effects.len(),
        ensures
            final(self).wf(),
            if old(self)@.tracks().contains_key(id@) {
                &&& final(self)@ == (ServiceView { store: final(self)@.store, ..old(self)@ })
                &&& final(self)@.tracks() == old(self)@.tracks().insert(
                    id@,
                    TrackView {
                        effects: old(self)@.tracks()[id@].effects.insert(index as int, effect_id@),
                        ..old(self)@.tracks()[id@]
                    },
                )
                &&& commands_view(final(tx)@) == commands_view(old(tx)@).push(
                    CommandView::AddNode(id@, index, effect_id@),
                )
            } else {
                &&& final(self)@ == old(self)@
                &&& final(tx)@ == old(tx)@
            },
    {
        if let Some(i) = self.index_of(id) {
            let mut t = self.tracks[i].clone();
            t.add_effect(effect_id, index, tx);
            self.set_at(i, t);
        }
    }

    /// Removes the effects at the positions `indexes` of the chain of the track `id`, if it is stored.
    pub fn remove_effects(&mut self, id: &String, indexes: &Vec<usize>, tx: &mut Vec<PlayerCommand>)
        requires
            old(self).wf(),
        ensures
            final(self).wf(),
            if old(self)@.tracks().contains_key(id@) {
                &&& final(self)@ == (ServiceView { store: final(self)@.store, ..old(self)@ })
                &&& final(self)@.tracks() == old(self)@.tracks().insert(
                    id@,
                    TrackView {
                        effects: crate::track::effects_kept(
                            old(self)@.tracks()[id@].effects,
                            indexes@,
                            0,
                        ),
                        ..old(self)@.tracks()[id@]
                    },
                )
                &&& commands_view(final(tx)@) == commands_view(old(tx)@)
                    + crate::track::effects_removed(
                    id@,
                    old(self)@.tracks()[id@].effects,
                    indexes@,
                    0,
                )
            } else {
                &&& final(self)@ == old(self)@
                &&& final(tx)@ == old(tx)@
            },
    {
        if let Some(i) = self.index_of(id) {
            let mut t = self.tracks[i].clone();
            t.remove_effects(indexes, tx);
            self.set_at(i, t);
        }
    }

    /// The effect ids of the track `id`, if it is stored.
    pub fn effects(&self, id: &String) -> (r: Option<Vec<String>>)
        requires
            self.wf(),
        ensures
            r is Some <==> self@.tracks().contains_key(id@),
            r matches Some(e) ==> str_views(e@) == self@.tracks()[id@].effects,
    {
        match self.index_of(id) {
            Some(i) => Some(clone_strings(&self.tracks[i].effects)),
            None => None,
        }
    }
}

/// `s1`, `c1` are the service and the commands after inserting `t` at `index` of the display order.
pub open spec fn inserted(
    s0: ServiceView,
    t: TrackView,
    index: int,
    s1: ServiceView,
    c0: Seq<CommandView>,
    c1: Seq<CommandView>,
) -> bool {
    &&& s1.tracks() == s0.tracks().insert(t.id, t)
    &&& s1.order == s0.order.insert(index, t.id)
    &&& s1.solo == s0.solo
    &&& s1.selected == s0.selected
    &&& c1 == c0 + insert_commands(t)
}

/// `s1`, `c1` are the service and the commands after deleting the track `id`.
pub open spec fn deleted(
    s0: ServiceView,
    id: Seq<char>,
    s1: ServiceView,
    c0: Seq<CommandView>,
    c1: Seq<CommandView>,
) -> bool {
    let k = first_index(s0.order, id);
    if k < s0.order.len() && s0.tracks().contains_key(id) {
        &&& s1.tracks() == s0.tracks().remove(id)
        &&& s1.order == s0.order.remove(k)
        &&& s1.selected == seq_without(s0.selected, id)
        &&& s1.solo == seq_without(s0.solo, id)
        &&& c1 == c0.push(CommandView::RemoveTrack(id))
    } else {
        &&& s1 == s0
        &&& c1 == c0
    }
}

/// `s1`, `c1` are the service and the commands after copying the track `id`;
/// `n` is the id of the copy, if one was made.
pub open spec fn duplicated(
    s0: ServiceView,
    id: Seq<char>,
    n: Option<Seq<char>>,
    s1: ServiceView,
    c0: Seq<CommandView>,
    c1: Seq<CommandView>,
) -> bool {
    let k = first_index(s0.order, id);
    if k < s0.order.len() && s0.tracks().contains_key(id) {
        &&& n is Some
        &&& ({
            let n = n->0;
            let t = s0.tracks()[id];
            let c = s1.tracks()[n];
            &&& n.len() == crate::ids::UUID_TEXT_LEN
            &&& s1.tracks() == s0.tracks().insert(n, c)
            &&& c == (TrackView { id: n, clips: clips_renamed(t.clips, clip_ids(c.clips)), ..t })
            &&& c.clips.len() == t.clips.len()
            &&& s1.order == s0.order.insert(k + 1, n)
            &&& s1.solo == s0.solo
            &&& s1.selected == s0.selected
            &&& c1 == c0.push(
                CommandView::DuplicateTrack(
                    id,
                    n,
                    Seq::new(t.clips.len(), |i: int| (t.clips[i].id, c.clips[i].id)),
                ),
            )
        })
    } else {
        &&& n is None
        &&& s1 == s0
        &&& c1 == c0
    }
}

/// `s1`, `c1` are the service and the commands after setting the gain of the track `id`.
pub open spec fn volume_set(
    s0: ServiceView,
    id: Seq<char>,
    volume_bits: u32,
    s1: ServiceView,
    c0: Seq<CommandView>,
    c1: Seq<CommandView>,
) -> bool {
    if s0.tracks().contains_key(id) {
        &&& s1 == (ServiceView { store: s1.store, ..s0 })
        &&& s1.tracks() == s0.tracks().insert(id, TrackView { volume_bits, ..s0.tracks()[id] })
        &&& c1 == c0.push(CommandView::ChangeTrackVolume(id, volume_bits))
    } else {
        &&& s1 == s0
        &&& c1 == c0
    }
}

/// `s1` is the service after committing `fields` as the editable fields of the track `id`.
pub open spec fn mutable_committed(
    s0: ServiceView,
    id: Seq<char>,
    fields: MutableTrackView,
    s1: ServiceView,
) -> bool {
    if s0.tracks().contains_key(id) {
        &&& s1 == (ServiceView { store: s1.store, ..s0 })
        &&& s1.tracks() == s0.tracks().insert(
            id,
            TrackView { mutable: fields, old_mutable: fields, ..s0.tracks()[id] },
        )
    } else {
        s1 == s0
    }
}

/// `s1`, `c1` are the service and the commands after the clips with ids in
/// `ids` were deleted; `r` are the clips deleted, per track.
pub open spec fn clips_deleted(
    s0: ServiceView,
    ids: Seq<Seq<char>>,
    r: Seq<(Seq<char>, Seq<ClipView>)>,
    s1: ServiceView,
    c0: Seq<CommandView>,
    c1: Seq<CommandView>,
) -> bool {
    &&& s1 == (ServiceView { store: store_without_clips(s0.store, ids), ..s0 })
    &&& r == deleted_pairs(s0.store, ids)
    &&& c1 == c0.push(CommandView::RemoveClip(ids))
}

/// `s1`, `c1` are the service and the commands after appending the clips of
/// the pairs `p` to their tracks.
pub open spec fn clips_added(
    s0: ServiceView,
    p: Seq<(Seq<char>, Seq<ClipView>)>,
    s1: ServiceView,
    c0: Seq<CommandView>,
    c1: Seq<CommandView>,
) -> bool {
    &&& s1.tracks() == add_pairs(s0.tracks(), p)
    &&& s1.order == s0.order
    &&& s1.solo == s0.solo
    &&& s1.selected == s0.selected
    &&& c1 == c0 + add_pairs_commands(s0.tracks(), p)
}

impl TrackService {
    /// Storage index of the first track holding a clip with id `id`, or the number of stored tracks.
    fn owner_of(&self, id: &String) -> (k: usize)
        requires
            self.wf(),
        ensures
            k == owner_index(self@.store, id@),
    {
        proof {
            lemma_owner_index(self@.store, id@);
        }
        let mut i: usize = 0;
        while i < self.tracks.len()
            invariant
                i <= self.tracks.len(),
                i <= owner_index(self@.store, id@),
                0 <= owner_index(self@.store, id@) <= self@.store.len(),
                owner_index(self@.store, id@) < self@.store.len() ==> clip_ids(
                    self@.store[owner_index(self@.store, id@)].clips,
                ).contains(id@),
                forall|j: int|
                    0 <= j < owner_index(self@.store, id@) ==> !clip_ids(
                        #[trigger] self@.store[j].clips,
                    ).contains(id@),
            decreases self.tracks.len() - i,
        {
            let k = find_clip(&self.tracks[i].clips, id);
            proof {
                lemma_first_clip_index(self@.store[i as int].clips, id@);
            }
            if k < self.tracks[i].clips.len() {
                return i;
            }
            i = i + 1;
        }
        i
    }

    /// A copy of the first stored track that holds the clip `id`, if any does.
    pub fn track_from_clip_id(&self, id: &String) -> (r: Option<TrackCore>)
        requires
            self.wf(),
        ensures
            ({
                let k = owner_index(self@.store, id@);
                if k < self@.store.len() {
                    r matches Some(t) && t@ == self@.store[k]
                } else {
                    r is None
                }
            }),
    {
        let k = self.owner_of(id);
        if k < self.tracks.len() {
            Some(self.tracks[k].clone())
        } else {
            None
        }
    }

    /// Removes from every track the clips whose id is in `ids`. Returns, for
    /// each track that lost clips, its id and the clips it lost.
    pub fn delete_clips(&mut self, ids: &Vec<String>, tx: &mut Vec<PlayerCommand>) -> (r: Vec<
        (String, Vec<ClipCore>),
    >)
        requires
            old(self).wf(),
        ensures
            final(self).wf(),
            clips_deleted(
                old(self)@,
                str_views(ids@),
                crate::command::clip_map_views(r@),
                final(self)@,
                commands_view(old(tx)@),
                commands_view(final(tx)@),
            ),
    {
        let ghost idv = str_views(ids@);
        let ghost s0 = self@.store;
        let mut r: Vec<(String, Vec<ClipCore>)> = Vec::new();
        let mut i: usize = 0;
        while i < self.tracks.len()
            invariant
                i <= self.tracks.len(),
                idv == str_views(ids@),
                self@.store.len() == s0.len(),
                self@.order == old(self)@.order,
                self@.solo == old(self)@.solo,
                self@.selected == old(self)@.selected,
                forall|j: int| 0 <= j < i ==> #[trigger] self@.store[j] == (TrackView {
                    clips: clips_without(s0[j].clips, idv),
                    ..s0[j]
                }),
                forall|j: int| i <= j < s0.len() ==> #[trigger] self@.store[j] == s0[j],
                crate::command::clip_map_views(r@) == deleted_pairs(s0.take(i as int), idv),
                unique_ids(s0),
            decreases self.tracks.len() - i,
        {
            assert(self@.store[i as int] == s0[i as int]);
            assert(self.tracks@[i as int]@ == s0[i as int]);
            let mut clips = clone_clips(&self.tracks[i].clips);
            let removed = remove_clips_with_ids(&mut clips, ids);
            assert(clip_views(clips@) == clips_without(s0[i as int].clips, idv));
            assert(clip_views(removed@) == clips_within(s0[i as int].clips, idv));
            let ghost before = crate::command::clip_map_views(r@);
            assert(s0.take(i + 1).drop_last() == s0.take(i as int));
            assert(s0.take(i + 1).last() == s0[i as int]);
            if removed.len() > 0 {
                r.push((self.tracks[i].id.clone(), removed));
                assert(crate::command::clip_map_views(r@) == before.push(
                    (s0[i as int].id, clips_within(s0[i as int].clips, idv)),
                ));
            }
            let mut t = self.tracks[i].clone();
            t.clips = clips;
            let ghost st = self@.store;
            self.tracks.set(i, t);
            assert(self@.store == st.update(i as int, self@.store[i as int]));
            i = i + 1;
        }
        assert(s0.take(i as int) == s0);
        assert(self@.store =~= store_without_clips(s0, idv));
        proof {
            lemma_same_ids_unique(s0, self@.store);
        }
        tx.push(PlayerCommand::RemoveClip(clone_strings(ids)));
        assert(commands_view(tx@) =~= commands_view(old(tx)@).push(tx@.last()@));
        r
    }

    /// Appends, pair by pair, the clips of each pair to the track it names,
    /// where that track is stored, without any overlap check.
    pub fn add_clips_skip_overlap_check(&mut self, clips: Vec<(String, Vec<ClipCore>)>, tx: &mut Vec<
        PlayerCommand,
    >)
        requires
            old(self).wf(),
        ensures
            final(self).wf(),
            clips_added(
                old(self)@,
                crate::command::clip_map_views(clips@),
                final(self)@,
                commands_view(old(tx)@),
                commands_view(final(tx)@),
            ),
    {
        let ghost p = crate::command::clip_map_views(clips@);
        let ghost m0 = self@.tracks();
        let ghost t0 = commands_view(tx@);
        let mut i: usize = 0;
        while i < clips.len()
            invariant
                i <= clips.len(),
                p == crate::command::clip_map_views(clips@),
                self.wf(),
                self@.tracks() == add_pairs(m0, p.take(i as int)),
                self@.order == old(self)@.order,
                self@.solo == old(self)@.solo,
                self@.selected == old(self)@.selected,
                commands_view(tx@) == t0 + add_pairs_commands(m0, p.take(i as int)),
            decreases clips.len() - i,
        {
            assert(p.take(i + 1).drop_last() == p.take(i as int));
            assert(p.take(i + 1).last() == p[i as int]);
            proof {
                lemma_add_pairs_dom(m0, p.take(i as int));
            }
            let ghost m1 = self@.tracks();
            let ghost c1 = commands_view(tx@);
            if let Some(k) = self.index_of(&clips[i].0) {
                let mut t = self.tracks[k].clone();
                t.add_clips_skip_overlap_check(clone_clips(&clips[i].1), tx);
                self.set_at(k, t);
                assert(m0.contains_key(p[i as int].0));
                assert(commands_view(tx@) == t0 + add_pairs_commands(m0, p.take(i + 1)));
            } else {
                assert(!m1.contains_key(p[i as int].0));
                assert(!m0.contains_key(p[i as int].0));
            }
            i = i + 1;
        }
        assert(p.take(i as int) == p);
    }
}

/// The tracks after moving the clip `id` from its owner track (storage
/// index `o`) to the track `to` at `pos`: within the same track only the
/// position changes; otherwise the clip leaves its owner and, if `to` is
/// stored, is appended to it with its new position.
pub open spec fn moved_tracks(
    s: Seq<TrackView>,
    o: int,
    id: Seq<char>,
    to: Seq<char>,
    pos: u32,
) -> Map<Seq<char>, TrackView> {
    let owner = s[o];
    let k = first_clip_index(owner.clips, id);
    let clip = owner.clips[k];
    if owner.id == to {
        map_of(s).insert(
            owner.id,
            TrackView {
                clips: owner.clips.update(k, ClipView { position_bits: pos, ..clip }),
                ..owner
            },
        )
    } else {
        let m1 = map_of(s).insert(owner.id, TrackView { clips: owner.clips.remove(k), ..owner });
        if m1.contains_key(to) {
            m1.insert(
                to,
                TrackView { clips: m1[to].clips.push(ClipView { position_bits: pos, ..clip }), ..m1[to] },
            )
        } else {
            m1
        }
    }
}

impl TrackService {
    /// Moves the clip `id` to the track `to_track` at `to_pos` without any
    /// overlap check; does nothing if no track holds the clip.
    pub fn move_clip_skip_overlap_check(
        &mut self,
        id: &String,
        to_track: &String,
        to_pos: u32,
        tx: &mut Vec<PlayerCommand>,
    )
        requires
            old(self).wf(),
        ensures
            final(self).wf(),
            final(self)@.order == old(self)@.order,
            final(self)@.solo == old(self)@.solo,
            final(self)@.selected == old(self)@.selected,
            ({
                let o = owner_index(old(self)@.store, id@);
                if o < old(self)@.store.len() {
                    &&& final(self)@.tracks() == moved_tracks(
                        old(self)@.store,
                        o,
                        id@,
                        to_track@,
                        to_pos,
                    )
                    &&& commands_view(final(tx)@) == commands_view(old(tx)@).push(
                        CommandView::MoveClip(id@, to_track@, to_pos),
                    )
                } else {
                    &&& final(self)@ == old(self)@
                    &&& final(tx)@ == old(tx)@
                }
            }),
    {
        let o = self.owner_of(id);
        if o >= self.tracks.len() {
            return;
        }
        proof {
            lemma_owner_index(self@.store, id@);
            lemma_first_clip_index(self@.store[o as int].clips, id@);
            lemma_map_of_index(self@.store, o as int);
        }
        let mut owner = self.tracks[o].clone();
        let k = find_clip(&owner.clips, id);
        let mut clip = owner.clips[k].clone();
        clip.position_bits = to_pos;
        if owner.id == *to_track {
            owner.clips.set(k, clip);
            assert(owner@.clips =~= old(self)@.store[o as int].clips.update(
                k as int,
                ClipView { position_bits: to_pos, ..old(self)@.store[o as int].clips[k as int] },
            ));
            self.set_at(o, owner);
        } else {
            owner.clips.remove(k);
            assert(owner@.clips =~= old(self)@.store[o as int].clips.remove(k as int));
            self.set_at(o, owner);
            if let Some(d) = self.index_of(to_track) {
                let mut dest = self.tracks[d].clone();
                dest.clips.push(clip);
                assert(dest@.clips =~= self@.tracks()[to_track@].clips.push(
                    ClipView { position_bits: to_pos, ..old(self)@.store[o as int].clips[k as int] },
                ));
                self.set_at(d, dest);
            }
        }
        tx.push(PlayerCommand::MoveClip(id.clone(), to_track.clone(), to_pos));
        assert(commands_view(tx@) =~= commands_view(old(tx)@).push(tx@.last()@));
    }

    /// Sets the trims and position of the clip `id` in the first track that
    /// holds it, without any overlap check. Returns that track's id, the clip
    /// before and the clip after, or `None` (and changes nothing) if no track
    /// holds the clip.
    pub fn resize_clip_skip_overlap_check(
        &mut self,
        id: &String,
        start_bits: u32,
        end_bits: u32,
        pos_bits: u32,
        tx: &mut Vec<PlayerCommand>,
    ) -> (r: Option<(String, ClipCore, ClipCore)>)
        requires
            old(self).wf(),
        ensures
            final(self).wf(),
            final(self)@.order == old(self)@.order,
            final(self)@.solo == old(self)@.solo,
            final(self)@.selected == old(self)@.selected,
            ({
                let o = owner_index(old(self)@.store, id@);
                if o < old(self)@.store.len() {
                    let owner = old(self)@.store[o];
                    let k = first_clip_index(owner.clips, id@);
                    let resized = ClipView {
                        trim_start_bits: start_bits,
                        trim_end_bits: end_bits,
                        position_bits: pos_bits,
                        ..owner.clips[k]
                    };
                    &&& r matches Some((t, before, after)) && t@ == owner.id && before@
                        == owner.clips[k] && after@ == resized
                    &&& final(self)@.tracks() == old(self)@.tracks().insert(
                        owner.id,
                        TrackView { clips: owner.clips.update(k, resized), ..owner },
                    )
                    &&& commands_view(final(tx)@) == commands_view(old(tx)@).push(
                        CommandView::ResizeClip(id@, start_bits, end_bits, pos_bits),
                    )
                } else {
                    &&& r is None
                    &&& final(self)@ == old(self)@
                    &&& final(tx)@ == old(tx)@
                }
            }),
    {
        let o = self.owner_of(id);
        if o >= self.tracks.len() {
            return None;
        }
        proof {
            lemma_owner_index(self@.store, id@);
            lemma_first_clip_index(self@.store[o as int].clips, id@);
        }
        let mut owner = self.tracks[o].clone();
        let track_id = owner.id.clone();
        let k = find_clip(&owner.clips, id);
        let before = owner.clips[k].clone();
        let mut after = owner.clips[k].clone();
        after.trim_start_bits = start_bits;
        after.trim_end_bits = end_bits;
        after.position_bits = pos_bits;
        owner.clips.set(k, after.clone());
        assert(owner@.clips =~= old(self)@.store[o as int].clips.update(k as int, after@));
        self.set_at(o, owner);
        tx.push(PlayerCommand::ResizeClip(id.clone(), start_bits, end_bits, pos_bits));
        assert(commands_view(tx@) =~= commands_view(old(tx)@).push(tx@.last()@));
        Some((track_id, before, after))
    }
}

} // verus!
