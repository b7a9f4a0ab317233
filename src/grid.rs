use crate::codec::{recount_sample_length, total_samples, NodeCodecParameters, RecountError, is_countable, first_gap_is_frames, first_gap_is_channels};
use crate::item_group::{key_index, lemma_update_value_wf, spec_get, spec_insert, spec_remove, GroupView, ItemGroup};
use crate::mix::{add_clip, is_sample_sum, window_model, sample_at};
use crate::settings::{samples_per_beat, spec_samples_per_beat, SampleRate, MAX_BEAT_PER_MINUTE, MIN_BEAT_PER_MINUTE};
use crate::sound_node::{same_but_requests, SoundNode};
use vstd::prelude::*;

verus! {

/// The entries of one outer key, each tagged with that key.
pub open spec fn track_entries<V>(key: usize, s: Seq<(usize, V)>) -> Seq<(usize, usize, V)> {
    s.map_values(|e: (usize, V)| (key, e.0, e.1))
}

/// Every (track, position, value) of a group, in iteration order: tracks in order, and
/// within a track its entries in order.
pub open spec fn flat_entries<V>(g: GroupView<V>) -> Seq<(usize, usize, V)>
    decreases g.len(),
{
    if g.len() == 0 {
        Seq::empty()
    } else {
        flat_entries(g.drop_last()) + track_entries(g.last().0, g.last().1)
    }
}

pub proof fn lemma_flat_take_step<V>(g: GroupView<V>, t: int)
    requires
        0 <= t < g.len(),
    ensures
        flat_entries(g.take(t + 1)) == flat_entries(g.take(t)) + track_entries(g[t].0, g[t].1),
{
    assert(g.take(t + 1).drop_last() =~= g.take(t));
}

pub proof fn lemma_track_take_step<V>(key: usize, s: Seq<(usize, V)>, i: int)
    requires
        0 <= i < s.len(),
    ensures
        track_entries(key, s.take(i + 1)) == track_entries(key, s.take(i)).push((key, s[i].0, s[i].1)),
{
    assert(track_entries(key, s.take(i + 1)) =~= track_entries(key, s.take(i)).push(
        (key, s[i].0, s[i].1),
    ));
}

/// The rate that a clip's end is counted in: its native rate, or 1 where it states none.
pub open spec fn end_rate<T>(node: SoundNode<T>) -> int {
    if node.spec_native_rate() == 0 {
        1
    } else {
        node.spec_native_rate() as int
    }
}

/// The frames that a clip's end counts: none where the clip states no rate.
pub open spec fn end_frames<T>(node: SoundNode<T>) -> int {
    if node.spec_native_rate() == 0 {
        0
    } else {
        node.spec_frames() as int
    }
}

/// A clip at beat `pos` ends `pos * 60 / bpm + frames / rate` seconds into the project, which
/// is `end_num / end_den`.
pub open spec fn end_num<T>(pos: usize, bpm: nat, node: SoundNode<T>) -> int {
    pos as int * 60 * end_rate(node) + end_frames(node) * bpm
}

pub open spec fn end_den<T>(bpm: nat, node: SoundNode<T>) -> int {
    bpm * end_rate(node)
}

/// The clip `a` ends no later than the clip `b` (each a track, a position and a clip).
pub open spec fn ends_by<T>(a: (usize, usize, SoundNode<T>), b: (usize, usize, SoundNode<T>), bpm: nat) -> bool {
    end_num(a.1, bpm, a.2) * end_den(bpm, b.2) <= end_num(b.1, bpm, b.2) * end_den(bpm, a.2)
}

proof fn lemma_ends_by_trans(na: int, da: int, nb: int, db: int, nc: int, dc: int)
    requires
        da > 0,
        db > 0,
        dc > 0,
        na * db <= nb * da,
        nb * dc <= nc * db,
    ensures
        na * dc <= nc * da,
{
    assert(na * db * dc <= nb * da * dc) by (nonlinear_arith)
        requires
            na * db <= nb * da,
            dc > 0,
    ;
    assert(nb * dc * da <= nc * db * da) by (nonlinear_arith)
        requires
            nb * dc <= nc * db,
            da > 0,
    ;
    assert(na * dc * db <= nc * da * db) by (nonlinear_arith)
        requires
            na * db * dc <= nb * da * dc,
            nb * dc * da <= nc * db * da,
    ;
    assert(na * dc <= nc * da) by (nonlinear_arith)
        requires
            na * dc * db <= nc * da * db,
            db > 0,
    ;
}

/// Comparing two ends written as a whole part and a proper fraction `w + n / d`.
proof fn lemma_mixed_compare(wa: int, na: int, da: int, wb: int, nb: int, db: int)
    requires
        0 <= na < da,
        0 <= nb < db,
    ensures
        ((wa * da + na) * db <= (wb * db + nb) * da) == (wa < wb || (wa == wb && na * db <= nb * da)),
{
    assert((wa * da + na) * db == wa * (da * db) + na * db) by (nonlinear_arith);
    assert((wb * db + nb) * da == wb * (da * db) + nb * da) by (nonlinear_arith);
    assert(na * db < da * db) by (nonlinear_arith)
        requires
            0 <= na < da,
            db > 0,
    ;
    assert(nb * da < da * db) by (nonlinear_arith)
        requires
            0 <= nb < db,
            da > 0,
    ;
    assert(0 <= na * db) by (nonlinear_arith)
        requires
            0 <= na,
            db > 0,
    ;
    assert(0 <= nb * da) by (nonlinear_arith)
        requires
            0 <= nb,
            da > 0,
    ;
    if wa < wb {
        assert(wa * (da * db) + da * db <= wb * (da * db)) by (nonlinear_arith)
            requires
                wa < wb,
                da * db > 0,
        ;
    } else if wa > wb {
        assert(wb * (da * db) + da * db <= wa * (da * db)) by (nonlinear_arith)
            requires
                wb < wa,
                da * db > 0,
        ;
    }
}

/// A clip's end as a whole part `w` and a proper fraction `n / d` of seconds, with `d` its
/// [`end_den`].
fn end_key<T>(pos: usize, bpm: usize, node: &SoundNode<T>) -> (r: (u128, u128, u128))
    requires
        1 <= bpm <= MAX_BEAT_PER_MINUTE,
    ensures
        r.0 * r.2 + r.1 == end_num(pos, bpm as nat, *node),
        r.2 == end_den(bpm as nat, *node),
        r.1 < r.2,
        r.2 < 0x200_0000_0000,
        r.0 < 0x1_0000_0000_0000_0000_0000,
{
    let native = node.native_rate();
    let (rate, frames): (u128, u128) = if native == 0 {
        (1, 0)
    } else {
        (native as u128, node.frames() as u128)
    };
    let b = bpm as u128;
    let beats = (pos as u128) * 60;
    let q1 = beats / b;
    let r1 = beats % b;
    let q2 = frames / rate;
    let r2 = frames % rate;
    proof {
        vstd::arithmetic::div_mod::lemma_fundamental_div_mod(beats as int, b as int);
        vstd::arithmetic::div_mod::lemma_fundamental_div_mod(frames as int, rate as int);
        assert(b * rate < 0x200_0000_0000) by (nonlinear_arith)
            requires
                1 <= rate <= 0xffff_ffff,
                1 <= b <= 495,
        ;
        assert(r1 * rate < rate * b) by (nonlinear_arith)
            requires
                r1 < b,
                rate >= 1,
        ;
        assert(r2 * b < rate * b) by (nonlinear_arith)
            requires
                r2 < rate,
                b >= 1,
        ;
        assert(q1 <= beats) by (nonlinear_arith)
            requires
                beats == b * q1 + r1,
                b >= 1,
                r1 >= 0,
                q1 >= 0,
        ;
        assert(q2 <= frames) by (nonlinear_arith)
            requires
                frames == rate * q2 + r2,
                rate >= 1,
                r2 >= 0,
                q2 >= 0,
        ;
    }
    let d = b * rate;
    let n0 = r1 * rate + r2 * b;
    let w0 = q1 + q2;
    proof {
        assert(w0 * d + n0 == beats * rate + frames * b) by (nonlinear_arith)
            requires
                beats == b * q1 + r1,
                frames == rate * q2 + r2,
                d == b * rate,
                n0 == r1 * rate + r2 * b,
                w0 == q1 + q2,
        ;
        assert(end_num(pos, bpm as nat, *node) == beats * rate + frames * b);
        assert(end_den(bpm as nat, *node) == b * rate);
    }
    if n0 >= d {
        proof {
            assert((w0 + 1) * d + (n0 - d) == w0 * d + n0) by (nonlinear_arith);
        }
        (w0 + 1, n0 - d, d)
    } else {
        (w0, n0, d)
    }
}

/// Whether the end keyed `a` comes no later than the end keyed `b`.
fn key_no_later(a: (u128, u128, u128), b: (u128, u128, u128)) -> (r: bool)
    requires
        a.1 < a.2 < 0x200_0000_0000,
        b.1 < b.2 < 0x200_0000_0000,
    ensures
        r == ((a.0 * a.2 + a.1) * b.2 <= (b.0 * b.2 + b.1) * a.2),
{
    proof {
        lemma_mixed_compare(a.0 as int, a.1 as int, a.2 as int, b.0 as int, b.1 as int, b.2 as int);
        assert(a.1 * b.2 < 0x200_0000_0000 * 0x200_0000_0000) by (nonlinear_arith)
            requires
                a.1 < 0x200_0000_0000,
                b.2 < 0x200_0000_0000,
        ;
        assert(b.1 * a.2 < 0x200_0000_0000 * 0x200_0000_0000) by (nonlinear_arith)
            requires
                b.1 < 0x200_0000_0000,
                a.2 < 0x200_0000_0000,
        ;
    }
    a.0 < b.0 || (a.0 == b.0 && a.1 * b.2 <= b.1 * a.2)
}

/// The clip that ends last on the grid: where it stands and how many samples it has.
#[derive(Debug, Clone, Copy, PartialEq, Eq, Structural)]
pub struct LastNode {
    pub track: usize,
    pub position: usize,
    pub sample_count: usize,
}

/// `r` names the clip that ends last in `flat`, the latest of them in iteration order where
/// several end together; `None` exactly when `flat` is empty.
pub open spec fn is_extent<T>(flat: Seq<(usize, usize, SoundNode<T>)>, bpm: nat, r: Option<LastNode>) -> bool {
    match r {
        None => flat.len() == 0,
        Some(ln) => exists|k: int|
            #![trigger flat[k]]
            is_extent_at(flat, bpm, k) && flat[k].0 == ln.track && flat[k].1 == ln.position
                && flat[k].2.spec_sample_count() == ln.sample_count,
    }
}

pub open spec fn is_extent_at<T>(flat: Seq<(usize, usize, SoundNode<T>)>, bpm: nat, k: int) -> bool {
    &&& 0 <= k < flat.len()
    &&& forall|j: int| 0 <= j < flat.len() ==> ends_by(#[trigger] flat[j], flat[k], bpm)
    &&& forall|j: int| k < j < flat.len() ==> !ends_by(flat[k], #[trigger] flat[j], bpm)
}

/// `key` is the end of the clip `e` as a whole part and a proper fraction.
pub open spec fn key_matches<T>(key: (u128, u128, u128), e: (usize, usize, SoundNode<T>), bpm: nat) -> bool {
    &&& key.0 * key.2 + key.1 == end_num(e.1, bpm, e.2)
    &&& key.2 == end_den(bpm, e.2)
    &&& key.1 < key.2 < 0x200_0000_0000
}

proof fn lemma_den_positive<T>(bpm: nat, node: SoundNode<T>)
    requires
        bpm >= 1,
    ensures
        end_den(bpm, node) > 0,
{
    assert(bpm * end_rate(node) > 0) by (nonlinear_arith)
        requires
            bpm >= 1,
            end_rate(node) >= 1,
    ;
}

/// The clip that ends last, scanning every track.
pub fn calculate_last_node<T>(nodes: &ItemGroup<SoundNode<T>>, beat_per_minute: usize) -> (r: Option<LastNode>)
    requires
        MIN_BEAT_PER_MINUTE <= beat_per_minute <= MAX_BEAT_PER_MINUTE,
    ensures
        is_extent(flat_entries(nodes@), beat_per_minute as nat, r),
{
    let tracks = nodes.values();
    let ghost g = nodes@;
    let ghost bpm = beat_per_minute as nat;
    let mut best: Option<(LastNode, (u128, u128, u128))> = None;
    let ghost mut k: int = 0;
    let mut t: usize = 0;
    while t < tracks.len()
        invariant
            t <= tracks@.len() == g.len(),
            1 <= beat_per_minute <= MAX_BEAT_PER_MINUTE,
            bpm == beat_per_minute as nat,
            g == nodes@,
            forall|u: int| 0 <= u < tracks@.len() ==> (#[trigger] tracks@[u]).0 == g[u].0 && tracks@[u].1@ == g[u].1,
            ({
                let flat = flat_entries(g.take(t as int));
                match best {
                    None => flat.len() == 0,
                    Some(b) => is_extent_at(flat, bpm, k) && flat[k].0 == b.0.track && flat[k].1 == b.0.position
                        && flat[k].2.spec_sample_count() == b.0.sample_count
                        && key_matches(b.1, flat[k], bpm),
                }
            }),
        decreases tracks@.len() - t,
    {
        let key = tracks[t].0;
        let entries = &tracks[t].1;
        let ghost before = flat_entries(g.take(t as int));
        let mut i: usize = 0;
        while i < entries.len()
            invariant
                t < tracks@.len() == g.len(),
                i <= entries@.len(),
                1 <= beat_per_minute <= MAX_BEAT_PER_MINUTE,
                bpm == beat_per_minute as nat,
                entries@ == g[t as int].1,
                key == g[t as int].0,
                ({
                    let flat = before + track_entries(key, entries@.take(i as int));
                    match best {
                        None => flat.len() == 0,
                        Some(b) => is_extent_at(flat, bpm, k) && flat[k].0 == b.0.track && flat[k].1 == b.0.position
                            && flat[k].2.spec_sample_count() == b.0.sample_count
                            && key_matches(b.1, flat[k], bpm),
                    }
                }),
            decreases entries@.len() - i,
        {
            let ghost prev = before + track_entries(key, entries@.take(i as int));
            let pos = entries[i].0;
            let end = end_key(pos, beat_per_minute, &entries[i].1);
            proof {
                lemma_track_take_step(key, entries@, i as int);
                assert(before + track_entries(key, entries@.take(i as int + 1)) =~= prev.push(
                    (key, pos, entries@[i as int].1),
                ));
            }
            let ghost next = prev.push((key, pos, entries@[i as int].1));
            let take = match best {
                None => true,
                Some(b) => key_no_later(b.1, end),
            };
            if take {
                proof {
                    let last = prev.len() as int;
                    assert(next[last] == (key, pos, entries@[i as int].1));
                    lemma_den_positive(bpm, next[last].2);
                    assert forall|j: int| 0 <= j < next.len() implies ends_by(#[trigger] next[j], next[last], bpm) by {
                        if j < prev.len() {
                            assert(next[j] == prev[j]);
                            assert(ends_by(prev[j], prev[k], bpm));
                            lemma_den_positive(bpm, prev[j].2);
                            lemma_den_positive(bpm, prev[k].2);
                            lemma_ends_by_trans(
                                end_num(prev[j].1, bpm, prev[j].2),
                                end_den(bpm, prev[j].2),
                                end_num(prev[k].1, bpm, prev[k].2),
                                end_den(bpm, prev[k].2),
                                end_num(next[last].1, bpm, next[last].2),
                                end_den(bpm, next[last].2),
                            );
                        } else {
                            assert(end_num(next[j].1, bpm, next[j].2) * end_den(bpm, next[j].2)
                                <= end_num(next[j].1, bpm, next[j].2) * end_den(bpm, next[j].2));
                        }
                    }
                    k = last;
                }
                let count = entries[i].1.sample_count();
                best = Some((LastNode { track: key, position: pos, sample_count: count }, end));
            } else {
                proof {
                    assert(next[prev.len() as int] == (key, pos, entries@[i as int].1));
                    assert forall|j: int| 0 <= j < next.len() implies ends_by(#[trigger] next[j], next[k], bpm) by {
                        if j < prev.len() {
                            assert(next[j] == prev[j]);
                        }
                    }
                    assert forall|j: int| k < j < next.len() implies !ends_by(next[k], #[trigger] next[j], bpm) by {
                        if j < prev.len() {
                            assert(next[j] == prev[j]);
                        }
                    }
                    assert(next[k] == prev[k]);
                }
            }
            i = i + 1;
        }
        proof {
            assert(entries@.take(i as int) =~= entries@);
            lemma_flat_take_step(g, t as int);
        }
        t = t + 1;
    }
    proof {
        assert(g.take(t as int) =~= g);
    }
    match best {
        None => None,
        Some(b) => Some(b.0),
    }
}

/// The height of one track row on the grid, in pixels.
pub const TRACK_HEIGHT: usize = 100;

/// The timeline: clips placed by track and beat position, with the project's tempo and rate.
pub struct MusicGrid<T> {
    nodes: ItemGroup<SoundNode<T>>,
    track_count: usize,
    beat_per_minute: usize,
    last_node: Option<LastNode>,
    sample_rate: SampleRate,
}

impl<T> Default for MusicGrid<T> {
    fn default() -> (r: Self)
        ensures
            r.wf(),
            r.spec_nodes() == GroupView::<SoundNode<T>>::empty(),
            r.spec_track_count() == 1,
            r.spec_bpm() == 100,
            r.spec_last_node() is None,
            r.spec_sample_rate() == SampleRate::Medium,
    {
        MusicGrid::new(1)
    }
}

impl<T> MusicGrid<T> {
    pub closed spec fn spec_nodes(&self) -> GroupView<SoundNode<T>> {
        self.nodes@
    }

    pub closed spec fn spec_bpm(&self) -> nat {
        self.beat_per_minute as nat
    }

    pub closed spec fn spec_last_node(&self) -> Option<LastNode> {
        self.last_node
    }

    pub closed spec fn spec_sample_rate(&self) -> SampleRate {
        self.sample_rate
    }

    pub closed spec fn spec_track_count(&self) -> nat {
        self.track_count as nat
    }

    pub closed spec fn wf(&self) -> bool {
        &&& self.nodes.wf()
        &&& MIN_BEAT_PER_MINUTE <= self.beat_per_minute <= MAX_BEAT_PER_MINUTE
        &&& is_extent(flat_entries(self.nodes@), self.beat_per_minute as nat, self.last_node)
    }

    /// An empty grid of `track_count` tracks at 100 beats per minute and the default rate.
    pub fn new(track_count: usize) -> (r: Self)
        ensures
            r.wf(),
            r.spec_nodes() == GroupView::<SoundNode<T>>::empty(),
            r.spec_track_count() == track_count,
            r.spec_bpm() == 100,
            r.spec_last_node() is None,
            r.spec_sample_rate() == SampleRate::Medium,
    {
        let nodes = ItemGroup::new();
        proof {
            assert(flat_entries(nodes@).len() == 0);
        }
        MusicGrid {
            nodes,
            track_count,
            beat_per_minute: 100,
            last_node: None,
            sample_rate: SampleRate::Medium,
        }
    }

    /// Places `node` at `position` on track `channel`, replacing the clip there if any, and
    /// recomputes the clip that ends last.
    pub fn insert_node(&mut self, channel: usize, position: usize, node: SoundNode<T>)
        requires
            old(self).wf(),
        ensures
            final(self).wf(),
            final(self).spec_nodes() == spec_insert(old(self).spec_nodes(), channel, position, node),
            final(self).spec_bpm() == old(self).spec_bpm(),
            final(self).spec_sample_rate() == old(self).spec_sample_rate(),
            final(self).spec_track_count() == old(self).spec_track_count(),
    {
        self.nodes.insert(channel, position, node);
        self.last_node = calculate_last_node(&self.nodes, self.beat_per_minute);
    }

    /// Takes the clip at `position` on track `channel` off the grid, and recomputes the clip
    /// that ends last.
    pub fn remove_node(&mut self, channel: usize, position: usize) -> (r: Option<SoundNode<T>>)
        requires
            old(self).wf(),
        ensures
            final(self).wf(),
            r == spec_get(old(self).spec_nodes(), channel, position),
            final(self).spec_nodes() == spec_remove(old(self).spec_nodes(), channel, position),
            final(self).spec_bpm() == old(self).spec_bpm(),
            final(self).spec_sample_rate() == old(self).spec_sample_rate(),
            final(self).spec_track_count() == old(self).spec_track_count(),
    {
        let r = self.nodes.remove(&channel, position);
        self.last_node = calculate_last_node(&self.nodes, self.beat_per_minute);
        r
    }

    /// Removes every clip.
    pub fn clear(&mut self)
        requires
            old(self).wf(),
        ensures
            final(self).wf(),
            final(self).spec_nodes() == GroupView::<SoundNode<T>>::empty(),
            final(self).spec_last_node() is None,
            final(self).spec_bpm() == old(self).spec_bpm(),
            final(self).spec_sample_rate() == old(self).spec_sample_rate(),
            final(self).spec_track_count() == old(self).spec_track_count(),
    {
        self.nodes.clear();
        self.last_node = None;
        assert(flat_entries(self.nodes@).len() == 0);
    }

    pub fn nodes(&self) -> (r: &ItemGroup<SoundNode<T>>)
        ensures
            r@ == self.spec_nodes(),
            self.wf() ==> r.wf(),
    {
        &self.nodes
    }

    /// The clip that ends last, if the grid holds any clip.
    pub fn last_node(&self) -> (r: Option<LastNode>)
        ensures
            r == self.spec_last_node(),
            self.wf() ==> is_extent(flat_entries(self.spec_nodes()), self.spec_bpm(), r),
    {
        self.last_node
    }

    pub fn beat_per_minute(&self) -> (r: usize)
        ensures
            r == self.spec_bpm(),
            self.wf() ==> MIN_BEAT_PER_MINUTE <= r <= MAX_BEAT_PER_MINUTE,
    {
        self.beat_per_minute
    }

    /// Sets the tempo and recomputes the clip that ends last.
    pub fn set_beat_per_minute(&mut self, beat_per_minute: usize)
        requires
            old(self).wf(),
            MIN_BEAT_PER_MINUTE <= beat_per_minute <= MAX_BEAT_PER_MINUTE,
        ensures
            final(self).wf(),
            final(self).spec_bpm() == beat_per_minute,
            final(self).spec_nodes() == old(self).spec_nodes(),
            final(self).spec_sample_rate() == old(self).spec_sample_rate(),
            final(self).spec_track_count() == old(self).spec_track_count(),
    {
        self.beat_per_minute = beat_per_minute;
        self.last_node = calculate_last_node(&self.nodes, self.beat_per_minute);
    }

    pub fn sample_rate(&self) -> (r: SampleRate)
        ensures
            r == self.spec_sample_rate(),
    {
        self.sample_rate
    }

    /// Sets the project rate; clips made before keep the rate they were resampled to.
    pub fn set_sample_rate(&mut self, sample_rate: SampleRate)
        requires
            old(self).wf(),
        ensures
            final(self).wf(),
            final(self).spec_sample_rate() == sample_rate,
            final(self).spec_nodes() == old(self).spec_nodes(),
            final(self).spec_bpm() == old(self).spec_bpm(),
            final(self).spec_last_node() == old(self).spec_last_node(),
            final(self).spec_track_count() == old(self).spec_track_count(),
    {
        self.sample_rate = sample_rate;
    }

    pub fn track_count(&self) -> (r: usize)
        ensures
            r == self.spec_track_count(),
    {
        self.track_count
    }

    pub fn set_track_count(&mut self, track_count: usize)
        requires
            old(self).wf(),
        ensures
            final(self).wf(),
            final(self).spec_track_count() == track_count,
            final(self).spec_nodes() == old(self).spec_nodes(),
            final(self).spec_bpm() == old(self).spec_bpm(),
            final(self).spec_last_node() == old(self).spec_last_node(),
            final(self).spec_sample_rate() == old(self).spec_sample_rate(),
    {
        self.track_count = track_count;
    }

    /// Hands samples that a clip's worker produced to the clip at `position` on track
    /// `channel`, in order, emptying `chunk`. Returns whether that clip exists; where it does
    /// not, nothing changes.
    pub fn append_samples(&mut self, channel: usize, position: usize, chunk: &mut Vec<T>) -> (r: bool)
        requires
            old(self).wf(),
            old(chunk)@.len() % 2 == 0,
        ensures
            final(self).wf(),
            r == spec_get(old(self).spec_nodes(), channel, position) is Some,
            r ==> ({
                let g = old(self).spec_nodes();
                let t = key_index(g, channel);
                let i = key_index(g[t].1, position);
                &&& 0 <= t < g.len()
                &&& 0 <= i < g[t].1.len()
                &&& final(self).spec_nodes().len() == g.len()
                &&& final(self).spec_nodes() == g.update(
                    t,
                    (g[t].0, g[t].1.update(i, (position, final(self).spec_nodes()[t].1[i].1))),
                )
                &&& node_appended(g[t].1[i].1, final(self).spec_nodes()[t].1[i].1, old(chunk)@)
                &&& final(chunk)@ == Seq::<T>::empty()
            }),
            !r ==> final(self).spec_nodes() == old(self).spec_nodes() && final(chunk)@ == old(chunk)@,
            final(self).spec_bpm() == old(self).spec_bpm(),
            final(self).spec_sample_rate() == old(self).spec_sample_rate(),
            final(self).spec_track_count() == old(self).spec_track_count(),
    {
        match self.nodes.locate(channel, position) {
            Some((t, i)) => {
                let ghost g = self.nodes@;
                let node = self.nodes.value_at_mut(t, i);
                node.append_samples(chunk);
                proof {
                    lemma_update_value_wf(g, t as int, i as int, self.nodes@[t as int].1[i as int].1);
                }
                self.last_node = calculate_last_node(&self.nodes, self.beat_per_minute);
                true
            },
            None => false,
        }
    }

    /// Where a clip dropped on the grid lands. The pointer is `x` pixels right of the grid's
    /// left edge and `y` pixels below its top, the grid is `width` pixels wide and scrolled
    /// `scroll` pixels to the right, and one beat spans `width / bpm` pixels. `None` where the
    /// pointer is off the grid or below its last track.
    pub fn drop_target(&self, x: usize, y: usize, width: usize, scroll: usize) -> (r: Option<(usize, usize)>)
        requires
            self.wf(),
        ensures
            r is Some <==> (x < width && y < self.spec_track_count() * TRACK_HEIGHT),
            r matches Some(tb) ==> tb.0 == y / TRACK_HEIGHT && tb.1 as int == if (x + scroll) * self.spec_bpm() / (width as int) <= usize::MAX {
                (x + scroll) * self.spec_bpm() / (width as int)
            } else {
                usize::MAX as int
            },
    {
        let rows = (self.track_count as u128) * (TRACK_HEIGHT as u128);
        if x >= width || (y as u128) >= rows {
            return None;
        }
        proof {
            let a = x as int + scroll as int;
            let b = self.beat_per_minute as int;
            assert(a * b <= 0x2_0000_0000_0000_0000 * 495) by (nonlinear_arith)
                requires
                    0 <= a <= 0x2_0000_0000_0000_0000,
                    0 <= b <= 495,
            ;
        }
        let beat_wide = ((x as u128) + (scroll as u128)) * (self.beat_per_minute as u128) / (width as u128);
        let beat = if beat_wide <= usize::MAX as u128 {
            beat_wide as usize
        } else {
            usize::MAX
        };
        Some((y / TRACK_HEIGHT, beat))
    }

    /// Counts the interleaved samples of every stream from their frame and channel counts.
    pub fn recount_sample_length(samples: &Vec<NodeCodecParameters>) -> (r: Result<u128, RecountError>)
        requires
            samples.len() <= u32::MAX,
        ensures
            r is Ok <==> forall|j: int| 0 <= j < samples.len() ==> is_countable(#[trigger] samples@[j]),
            r is Ok ==> r.unwrap() == total_samples(samples@),
            r == Err::<u128, RecountError>(RecountError::MissingFrameCount) <==> first_gap_is_frames(samples@),
            r == Err::<u128, RecountError>(RecountError::MissingChannels) <==> first_gap_is_channels(samples@),
    {
        recount_sample_length(samples)
    }
}

/// After a clip is taken off the grid, the cached extent names the clip of what remains that
/// ends last, and is `None` exactly when nothing remains.
pub proof fn lemma_remove_keeps_extent<T>(before: MusicGrid<T>, after: MusicGrid<T>, channel: usize, position: usize)
    requires
        before.wf(),
        after.wf(),
        after.spec_nodes() == spec_remove(before.spec_nodes(), channel, position),
        after.spec_bpm() == before.spec_bpm(),
    ensures
        is_extent(
            flat_entries(spec_remove(before.spec_nodes(), channel, position)),
            before.spec_bpm(),
            after.spec_last_node(),
        ),
        after.spec_last_node() is None <==> flat_entries(spec_remove(before.spec_nodes(), channel, position)).len() == 0,
{
}


/// Where a clip at beat `pos` starts on the interleaved timeline, saturating at `usize::MAX`.
pub open spec fn sat_offset(pos: usize, spb: nat) -> int {
    if pos * spb <= usize::MAX {
        pos * spb
    } else {
        usize::MAX as int
    }
}

fn beat_offset(pos: usize, spb: usize) -> (r: usize)
    ensures
        r == sat_offset(pos, spb as nat),
{
    if spb == 0 {
        assert(pos * 0 == 0);
        0
    } else if pos <= usize::MAX / spb {
        proof {
            let m = usize::MAX as int;
            assert(pos * spb <= m) by (nonlinear_arith)
                requires
                    spb > 0,
                    pos <= m / (spb as int),
            ;
        }
        pos * spb
    } else {
        proof {
            let m = usize::MAX as int;
            assert(pos * spb > m) by (nonlinear_arith)
                requires
                    spb > 0,
                    pos > m / (spb as int),
            ;
        }
        usize::MAX
    }
}

/// Whether a clip whose produced samples span `[offset, offset + produced)` shares a sample
/// with the window `[start, end)`, and so is asked for its next samples.
pub open spec fn spec_wants_read_ahead(offset: int, produced: int, start: int, end: int) -> bool {
    start < end && produced > 0 && offset < end && start < offset + produced
}

pub fn wants_read_ahead(offset: usize, produced: usize, start: usize, end: usize) -> (r: bool)
    ensures
        r == spec_wants_read_ahead(offset as int, produced as int, start as int, end as int),
{
    start < end && produced > 0 && offset < end && (start < offset || start - offset < produced)
}

/// Each clip of `flat` as its first global sample index and the samples produced for it.
pub open spec fn placements<T>(flat: Seq<(usize, usize, SoundNode<T>)>, spb: nat) -> Seq<(int, Seq<T>)> {
    flat.map_values(|e: (usize, usize, SoundNode<T>)| (sat_offset(e.1, spb), e.2.spec_samples()))
}

/// The length of the full preview: up to the end of the clip that ends last, saturating.
pub open spec fn spec_preview_len(ln: LastNode, spb: nat) -> int {
    if sat_offset(ln.position, spb) + ln.sample_count <= usize::MAX {
        sat_offset(ln.position, spb) + ln.sample_count
    } else {
        usize::MAX as int
    }
}

/// `b` is `a` with its produced samples taken out.
pub open spec fn node_drained<T>(a: SoundNode<T>, b: SoundNode<T>) -> bool {
    &&& b.spec_samples() == Seq::<T>::empty()
    &&& b.spec_name() == a.spec_name()
    &&& b.spec_path() == a.spec_path()
    &&& b.spec_params() == a.spec_params()
    &&& b.spec_packets() == a.spec_packets()
    &&& b.has_channel() == a.has_channel()
    &&& b.spec_duration_secs() == a.spec_duration_secs()
    &&& b.spec_sample_count() == a.spec_sample_count()
    &&& b.spec_requests() == a.spec_requests()
    &&& b.wf() == a.wf()
}

/// `b` is `a` with `chunk` appended to its produced samples.
pub open spec fn node_appended<T>(a: SoundNode<T>, b: SoundNode<T>, chunk: Seq<T>) -> bool {
    &&& b.spec_samples() == a.spec_samples() + chunk
    &&& b.spec_name() == a.spec_name()
    &&& b.spec_path() == a.spec_path()
    &&& b.spec_params() == a.spec_params()
    &&& b.spec_packets() == a.spec_packets()
    &&& b.has_channel() == a.has_channel()
    &&& b.spec_duration_secs() == a.spec_duration_secs()
    &&& b.spec_sample_count() == a.spec_sample_count()
    &&& b.spec_requests() == a.spec_requests()
    &&& b.wf() == a.wf()
}

/// `h` has the shape and keys of `g`; the clips before entry `i` of track `t` are drained and
/// the rest are as in `g`.
pub open spec fn drained_upto<T>(g: GroupView<SoundNode<T>>, h: GroupView<SoundNode<T>>, t: int, i: int) -> bool {
    &&& h.len() == g.len()
    &&& forall|u: int| 0 <= u < g.len() ==> (#[trigger] h[u]).0 == g[u].0 && h[u].1.len() == g[u].1.len()
    &&& forall|u: int, j: int|
        0 <= u < g.len() && 0 <= j < g[u].1.len() ==> (#[trigger] h[u].1[j]).0 == g[u].1[j].0 && if u < t || (u == t && j < i) {
            node_drained(g[u].1[j].1, h[u].1[j].1)
        } else {
            h[u].1[j].1 == g[u].1[j].1
        }
}

/// `b` is `a` after a read-ahead request where `want` holds: the default request is handed
/// to the clip's channel, if it has one.
pub open spec fn node_asked<T>(a: SoundNode<T>, b: SoundNode<T>, want: bool) -> bool {
    &&& same_but_requests(a, b)
    &&& b.spec_requests() == if want && a.has_channel() {
        a.spec_requests().push((None, a.spec_default_count() as usize))
    } else {
        a.spec_requests()
    }
}

/// `h` has the shape and keys of `g`; the clips before entry `i` of track `t` are asked for
/// their next samples where their produced samples meet `[start, end)`, and the rest are as in
/// `g`.
pub open spec fn asked_upto<T>(
    g: GroupView<SoundNode<T>>,
    h: GroupView<SoundNode<T>>,
    t: int,
    i: int,
    spb: nat,
    start: int,
    end: int,
) -> bool {
    &&& h.len() == g.len()
    &&& forall|u: int| 0 <= u < g.len() ==> (#[trigger] h[u]).0 == g[u].0 && h[u].1.len() == g[u].1.len()
    &&& forall|u: int, j: int|
        0 <= u < g.len() && 0 <= j < g[u].1.len() ==> (#[trigger] h[u].1[j]).0 == g[u].1[j].0 && if u < t || (u == t && j < i) {
            node_asked(
                g[u].1[j].1,
                h[u].1[j].1,
                spec_wants_read_ahead(sat_offset(g[u].1[j].0, spb), g[u].1[j].1.spec_samples().len() as int, start, end),
            )
        } else {
            h[u].1[j].1 == g[u].1[j].1
        }
}

/// Every clip of `h` is the clip of `g`, asked for its next samples exactly where its produced
/// samples meet `[start, end)`.
pub open spec fn all_asked<T>(g: GroupView<SoundNode<T>>, h: GroupView<SoundNode<T>>, spb: nat, start: int, end: int) -> bool {
    asked_upto(g, h, g.len() as int, 0, spb, start, end)
}

/// Every clip of `h` is the clip of `g` at the same place with its produced samples taken out.
pub open spec fn all_drained<T>(g: GroupView<SoundNode<T>>, h: GroupView<SoundNode<T>>) -> bool {
    drained_upto(g, h, g.len() as int, 0)
}

impl<T: Copy> MusicGrid<T> {
    /// Interleaved stereo samples per beat at the grid's rate and tempo.
    pub open spec fn spec_spb(&self) -> nat {
        spec_samples_per_beat(self.spec_sample_rate(), self.spec_bpm())
    }

    /// Every clip of the grid on the global timeline, in iteration order.
    pub open spec fn spec_clips(&self) -> Seq<(int, Seq<T>)> {
        placements(flat_entries(self.spec_nodes()), self.spec_spb())
    }

    /// Mixes the global range `[start, end)`.
    fn mix_range<F: Fn(T, T) -> T>(
        &self,
        start: usize,
        end: usize,
        silence: T,
        sum_fn: &F,
        lanes: bool,
    ) -> (r: Vec<T>)
        requires
            self.wf(),
            start <= end,
            is_sample_sum(*sum_fn),
        ensures
            r@ == window_model(*sum_fn, silence, self.spec_clips(), start as int, end as int),
    {
        let spb = samples_per_beat(self.sample_rate, self.beat_per_minute);
        let ghost spbn = spb as nat;
        let ghost g = self.nodes@;
        let len = end - start;
        let mut buffer: Vec<T> = Vec::with_capacity(len);
        let mut z: usize = 0;
        while z < len
            invariant
                z <= len,
                buffer@ =~= Seq::new(z as nat, |k: int| silence),
            decreases len - z,
        {
            buffer.push(silence);
            z = z + 1;
        }
        proof {
            assert(g.take(0) =~= GroupView::<SoundNode<T>>::empty());
            assert(placements(flat_entries(g.take(0)), spbn) =~= Seq::<(int, Seq<T>)>::empty());
            assert(buffer@ =~= window_model(*sum_fn, silence, placements(flat_entries(g.take(0)), spbn), start as int, end as int));
        }
        let tracks = self.nodes.values();
        let mut t: usize = 0;
        while t < tracks.len()
            invariant
                t <= tracks@.len() == g.len(),
                g == self.nodes@,
                spbn == spb,
                start <= end,
                buffer@.len() == end - start,
                is_sample_sum(*sum_fn),
                forall|u: int| 0 <= u < tracks@.len() ==> (#[trigger] tracks@[u]).0 == g[u].0 && tracks@[u].1@ == g[u].1,
                buffer@ == window_model(*sum_fn, silence, placements(flat_entries(g.take(t as int)), spbn), start as int, end as int),
            decreases tracks@.len() - t,
        {
            let key = tracks[t].0;
            let entries = &tracks[t].1;
            let ghost before = flat_entries(g.take(t as int));
            let mut i: usize = 0;
            while i < entries.len()
                invariant
                    t < tracks@.len() == g.len(),
                    i <= entries@.len(),
                    entries@ == g[t as int].1,
                    key == g[t as int].0,
                    spbn == spb,
                    start <= end,
                    buffer@.len() == end - start,
                    is_sample_sum(*sum_fn),
                    buffer@ == window_model(
                        *sum_fn,
                        silence,
                        placements(before + track_entries(key, entries@.take(i as int)), spbn),
                        start as int,
                        end as int,
                    ),
                decreases entries@.len() - i,
            {
                let ghost prev = before + track_entries(key, entries@.take(i as int));
                let ghost old_buffer = buffer@;
                let pos = entries[i].0;
                let node = &entries[i].1;
                let offset = beat_offset(pos, spb);
                add_clip(&mut buffer, start, offset, node.samples(), silence, sum_fn, lanes);
                proof {
                    lemma_track_take_step(key, entries@, i as int);
                    let next = prev.push((key, pos, entries@[i as int].1));
                    assert(before + track_entries(key, entries@.take(i as int + 1)) =~= next);
                    let pp = placements(prev, spbn);
                    let pn = placements(next, spbn);
                    assert(pn.drop_last() =~= pp);
                    assert(pn.last() == (offset as int, node.spec_samples()));
                    assert forall|k: int| 0 <= k < buffer@.len() implies buffer@[k] == sample_at(*sum_fn, silence, pn, start + k) by {
                        assert(old_buffer[k] == sample_at(*sum_fn, silence, pp, start + k));
                    }
                    assert(buffer@ =~= window_model(*sum_fn, silence, pn, start as int, end as int));
                }
                i = i + 1;
            }
            proof {
                assert(entries@.take(i as int) =~= entries@);
                lemma_flat_take_step(g, t as int);
            }
            t = t + 1;
        }
        proof {
            assert(g.take(t as int) =~= g);
        }
        buffer
    }

    /// The length of the full preview, if the grid holds any clip.
    pub fn preview_len(&self) -> (r: Option<usize>)
        requires
            self.wf(),
        ensures
            match self.spec_last_node() {
                None => r is None,
                Some(ln) => r == Some(spec_preview_len(ln, self.spec_spb()) as usize),
            },
    {
        match self.last_node {
            None => None,
            Some(ln) => {
                let spb = samples_per_beat(self.sample_rate, self.beat_per_minute);
                let offset = beat_offset(ln.position, spb);
                if ln.sample_count <= usize::MAX - offset {
                    Some(offset + ln.sample_count)
                } else {
                    Some(usize::MAX)
                }
            },
        }
    }

    /// Mixes the whole grid from the start to the end of the clip that ends last, lane by
    /// lane, reading the clips' samples without taking them; `None` on an empty grid.
    pub fn create_preview_samples_simd<F: Fn(T, T) -> T>(&self, silence: T, sum_fn: &F) -> (r: Option<Vec<T>>)
        requires
            self.wf(),
            is_sample_sum(*sum_fn),
        ensures
            match self.spec_last_node() {
                None => r is None,
                Some(ln) => r matches Some(v) && v@ == window_model(
                    *sum_fn,
                    silence,
                    self.spec_clips(),
                    0,
                    spec_preview_len(ln, self.spec_spb()),
                ),
            },
    {
        match self.preview_len() {
            None => None,
            Some(total) => Some(self.mix_range(0, total, silence, sum_fn, true)),
        }
    }

    /// Mixes the whole grid from the start to the end of the clip that ends last, one sample at
    /// a time, and takes the produced samples out of every clip; `None` on an empty grid.
    pub fn create_preview_samples<F: Fn(T, T) -> T>(&mut self, silence: T, sum_fn: &F) -> (r: Option<Vec<T>>)
        requires
            old(self).wf(),
            is_sample_sum(*sum_fn),
        ensures
            final(self).wf(),
            match old(self).spec_last_node() {
                None => r is None,
                Some(ln) => r matches Some(v) && v@ == window_model(
                    *sum_fn,
                    silence,
                    old(self).spec_clips(),
                    0,
                    spec_preview_len(ln, old(self).spec_spb()),
                ),
            },
            all_drained(old(self).spec_nodes(), final(self).spec_nodes()),
            final(self).spec_bpm() == old(self).spec_bpm(),
            final(self).spec_sample_rate() == old(self).spec_sample_rate(),
            final(self).spec_track_count() == old(self).spec_track_count(),
    {
        let r = match self.preview_len() {
            None => None,
            Some(total) => Some(self.mix_range(0, total, silence, sum_fn, false)),
        };
        self.drain_samples();
        r
    }

    /// Takes the produced samples out of every clip.
    fn drain_samples(&mut self)
        requires
            old(self).wf(),
        ensures
            final(self).wf(),
            all_drained(old(self).spec_nodes(), final(self).spec_nodes()),
            final(self).spec_bpm() == old(self).spec_bpm(),
            final(self).spec_sample_rate() == old(self).spec_sample_rate(),
            final(self).spec_track_count() == old(self).spec_track_count(),
    {
        let ghost g = self.nodes@;
        let track_len = self.nodes.key_len();
        let mut t: usize = 0;
        while t < track_len
            invariant
                t <= track_len == g.len(),
                self.nodes.wf(),
                drained_upto(g, self.nodes@, t as int, 0),
                MIN_BEAT_PER_MINUTE <= self.beat_per_minute <= MAX_BEAT_PER_MINUTE,
                self.beat_per_minute == old(self).beat_per_minute,
                self.sample_rate == old(self).sample_rate,
                self.track_count == old(self).track_count,
                g == old(self).nodes@,
            decreases track_len - t,
        {
            let entry_len = match self.nodes.get_by_index(t) {
                Some(n) => n,
                None => 0,
            };
            proof {
                assert(self.nodes@[t as int].1.len() == g[t as int].1.len());
            }
            let mut i: usize = 0;
            while i < entry_len
                invariant
                    t < track_len == g.len(),
                    i <= entry_len == g[t as int].1.len(),
                    self.nodes.wf(),
                    drained_upto(g, self.nodes@, t as int, i as int),
                    MIN_BEAT_PER_MINUTE <= self.beat_per_minute <= MAX_BEAT_PER_MINUTE,
                    self.beat_per_minute == old(self).beat_per_minute,
                    self.sample_rate == old(self).sample_rate,
                    self.track_count == old(self).track_count,
                    g == old(self).nodes@,
                decreases entry_len - i,
            {
                let ghost h = self.nodes@;
                let node = self.nodes.value_at_mut(t, i);
                let _ = node.take_samples();
                proof {
                    lemma_update_value_wf(h, t as int, i as int, self.nodes@[t as int].1[i as int].1);
                    let n = self.nodes@;
                    assert forall|u: int, j: int|
                        0 <= u < g.len() && 0 <= j < g[u].1.len() implies (#[trigger] n[u].1[j]).0 == g[u].1[j].0 && if u < t || (u == t && j < i + 1) {
                            node_drained(g[u].1[j].1, n[u].1[j].1)
                        } else {
                            n[u].1[j].1 == g[u].1[j].1
                        } by {
                        if u == t && j == i {
                        } else {
                            assert(n[u].1[j] == h[u].1[j]);
                        }
                    }
                    assert forall|u: int| 0 <= u < g.len() implies (#[trigger] n[u]).0 == g[u].0 && n[u].1.len() == g[u].1.len() by {
                        assert(n[u].0 == h[u].0);
                    }
                }
                i = i + 1;
            }
            t = t + 1;
        }
        self.last_node = calculate_last_node(&self.nodes, self.beat_per_minute);
    }

    /// Asks each clip whose produced samples meet `[start, end)` for its next samples.
    fn ask_read_ahead(&mut self, start: usize, end: usize)
        requires
            old(self).wf(),
        ensures
            final(self).wf(),
            all_asked(old(self).spec_nodes(), final(self).spec_nodes(), old(self).spec_spb(), start as int, end as int),
            final(self).spec_bpm() == old(self).spec_bpm(),
            final(self).spec_sample_rate() == old(self).spec_sample_rate(),
            final(self).spec_track_count() == old(self).spec_track_count(),
    {
        let ghost g = self.nodes@;
        let spb = samples_per_beat(self.sample_rate, self.beat_per_minute);
        let ghost spbn = spb as nat;
        let track_len = self.nodes.key_len();
        let mut t: usize = 0;
        while t < track_len
            invariant
                t <= track_len == g.len(),
                self.nodes.wf(),
                asked_upto(g, self.nodes@, t as int, 0, spbn, start as int, end as int),
                MIN_BEAT_PER_MINUTE <= self.beat_per_minute <= MAX_BEAT_PER_MINUTE,
                self.beat_per_minute == old(self).beat_per_minute,
                self.sample_rate == old(self).sample_rate,
                self.track_count == old(self).track_count,
                g == old(self).nodes@,
                spbn == spb,
                spbn == old(self).spec_spb(),
            decreases track_len - t,
        {
            let entry_len = match self.nodes.get_by_index(t) {
                Some(n) => n,
                None => 0,
            };
            proof {
                assert(self.nodes@[t as int].1.len() == g[t as int].1.len());
            }
            let mut i: usize = 0;
            while i < entry_len
                invariant
                    t < track_len == g.len(),
                    i <= entry_len == g[t as int].1.len(),
                    self.nodes.wf(),
                    asked_upto(g, self.nodes@, t as int, i as int, spbn, start as int, end as int),
                    MIN_BEAT_PER_MINUTE <= self.beat_per_minute <= MAX_BEAT_PER_MINUTE,
                    self.beat_per_minute == old(self).beat_per_minute,
                    self.sample_rate == old(self).sample_rate,
                    self.track_count == old(self).track_count,
                    g == old(self).nodes@,
                    spbn == spb,
                    spbn == old(self).spec_spb(),
                decreases entry_len - i,
            {
                let ghost h = self.nodes@;
                proof {
                    assert(h[t as int].1[i as int] == g[t as int].1[i as int]);
                }
                let pos = self.nodes.values()[t].1[i].0;
                let offset = beat_offset(pos, spb);
                let node = self.nodes.value_at_mut(t, i);
                let produced = node.samples().len();
                if wants_read_ahead(offset, produced, start, end) {
                    let _ = node.request_default_count_sample_parsing();
                }
                proof {
                    lemma_update_value_wf(h, t as int, i as int, self.nodes@[t as int].1[i as int].1);
                    let n = self.nodes@;
                    assert forall|u: int, j: int|
                        0 <= u < g.len() && 0 <= j < g[u].1.len() implies (#[trigger] n[u].1[j]).0 == g[u].1[j].0 && if u < t || (u == t && j < i + 1) {
                            node_asked(
                                g[u].1[j].1,
                                n[u].1[j].1,
                                spec_wants_read_ahead(sat_offset(g[u].1[j].0, spbn), g[u].1[j].1.spec_samples().len() as int, start as int, end as int),
                            )
                        } else {
                            n[u].1[j].1 == g[u].1[j].1
                        } by {
                        if u == t && j == i {
                        } else {
                            assert(n[u].1[j] == h[u].1[j]);
                        }
                    }
                    assert forall|u: int| 0 <= u < g.len() implies (#[trigger] n[u]).0 == g[u].0 && n[u].1.len() == g[u].1.len() by {
                        assert(n[u].0 == h[u].0);
                    }
                }
                i = i + 1;
            }
            t = t + 1;
        }
        self.last_node = calculate_last_node(&self.nodes, self.beat_per_minute);
    }

    /// Mixes the global range `[starting_sample_idx, destination_sample_idx)` lane by lane,
    /// then asks each clip whose produced samples meet the range to produce its next samples
    /// (see [`wants_read_ahead`]); a request that the worker no longer takes is dropped. A
    /// range that ends before it starts gives no samples and asks nothing.
    pub fn buffer_preview_samples_simd<F: Fn(T, T) -> T>(
        &mut self,
        starting_sample_idx: usize,
        destination_sample_idx: usize,
        silence: T,
        sum_fn: &F,
    ) -> (r: Vec<T>)
        requires
            old(self).wf(),
            is_sample_sum(*sum_fn),
        ensures
            final(self).wf(),
            starting_sample_idx <= destination_sample_idx ==> r@ == window_model(
                *sum_fn,
                silence,
                old(self).spec_clips(),
                starting_sample_idx as int,
                destination_sample_idx as int,
            ),
            starting_sample_idx <= destination_sample_idx ==> all_asked(
                old(self).spec_nodes(),
                final(self).spec_nodes(),
                old(self).spec_spb(),
                starting_sample_idx as int,
                destination_sample_idx as int,
            ),
            starting_sample_idx > destination_sample_idx ==> r@.len() == 0 && final(self).spec_nodes()
                == old(self).spec_nodes(),
            final(self).spec_bpm() == old(self).spec_bpm(),
            final(self).spec_sample_rate() == old(self).spec_sample_rate(),
            final(self).spec_track_count() == old(self).spec_track_count(),
    {
        if starting_sample_idx > destination_sample_idx {
            return Vec::new();
        }
        let r = self.mix_range(starting_sample_idx, destination_sample_idx, silence, sum_fn, true);
        self.ask_read_ahead(starting_sample_idx, destination_sample_idx);
        r
    }
}

} // verus!
