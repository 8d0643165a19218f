//! Live features of the voice and their bounded, ordered history.

use vstd::prelude::*;
use crate::ieee::F32;
use std::collections::VecDeque;

verus! {

/// One hop of the analysis as the coach publishes it, frequency in hertz.
#[derive(Clone, Copy, PartialEq, Eq, Structural, Debug)]
pub struct FeatureSnapshot {
    /// Session-local producer sequence number.
    pub hop_index: u64,
    /// The fundamental, `0` or less where the hop is unvoiced.
    pub f0_hz: F32,
    /// Periodicity confidence.
    pub confidence: F32,
    /// Onset detector output.
    pub onset: F32,
    /// Breath energy estimate.
    pub breath: F32,
    /// Vibrato rate in hertz.
    pub vibrato_rate: F32,
    /// Vibrato depth in semitones.
    pub vibrato_depth: F32,
    /// Back-dated timestamp of the vibrato features, in milliseconds.
    pub vibrato_t_ms: u64,
    /// Timestamp in milliseconds.
    pub t_ms: u64,
}

/// The same hop with the pitch lifted out of hertz: a base-2 logarithm where the
/// hop is voiced, and `None` where it is not.
#[derive(Clone, Copy, PartialEq, Eq, Structural, Debug)]
pub struct Features {
    /// Session-local producer sequence, used to detect missing hops.
    pub hop_index: u64,
    /// The detected pitch, or `None` when the hop is unvoiced.
    pub pitch: Option<F32>,
    /// Periodicity confidence.
    pub confidence: F32,
    /// Onset detector output, positive on attack.
    pub onset: F32,
    /// Breath energy estimate.
    pub breath: F32,
    /// Vibrato rate in hertz.
    pub vibrato_rate: F32,
    /// Vibrato depth in semitones.
    pub vibrato_depth: F32,
    /// Back-dated timestamp of the vibrato features, in milliseconds.
    pub vibrato_t_ms: u64,
    /// Timestamp in milliseconds.
    pub t_ms: u64,
}

impl FeatureSnapshot {
    /// Whether the hop carries a pitch.
    pub open spec fn voiced(self) -> bool {
        self.f0_hz.positive()
    }

    /// Whether the hop carries a pitch.
    pub fn is_voiced(&self) -> (yes: bool)
        ensures
            yes == self.voiced(),
    {
        self.f0_hz.is_positive()
    }

    /// The features of this hop, `pitch` being the base-2 logarithm of `f0_hz`.
    /// An unvoiced hop has no pitch, whatever is given for it.
    pub fn lift(&self, pitch: F32) -> (features: Features)
        ensures
            features == self.lifted(pitch),
    {
        Features {
            hop_index: self.hop_index,
            pitch: if self.is_voiced() {
                Some(pitch)
            } else {
                None
            },
            confidence: self.confidence,
            onset: self.onset,
            breath: self.breath,
            vibrato_rate: self.vibrato_rate,
            vibrato_depth: self.vibrato_depth,
            vibrato_t_ms: self.vibrato_t_ms,
            t_ms: self.t_ms,
        }
    }

    /// The features of this hop, `pitch` being the base-2 logarithm of `f0_hz`.
    pub open spec fn lifted(self, pitch: F32) -> Features {
        Features {
            hop_index: self.hop_index,
            pitch: if self.voiced() {
                Some(pitch)
            } else {
                None
            },
            confidence: self.confidence,
            onset: self.onset,
            breath: self.breath,
            vibrato_rate: self.vibrato_rate,
            vibrato_depth: self.vibrato_depth,
            vibrato_t_ms: self.vibrato_t_ms,
            t_ms: self.t_ms,
        }
    }
}

/// Retention of the history, which is also the visible width of the graph.
pub const DEFAULT_HISTORY_MS: u64 = 20_000;

/// How many hops are held at most.
pub const DEFAULT_HISTORY_CAPACITY: usize = 4_096;

/// The hops of the last `window_ms` milliseconds, in the order in which they
/// arrived, and never more than `capacity` of them.
pub struct FeatureHistory {
    samples: VecDeque<Features>,
    window_ms: u64,
    capacity: usize,
    max_seen_t_ms: Option<u64>,
}

/// A history as a mathematical value.
pub struct History {
    /// What is held, oldest arrival first.
    pub samples: Seq<Features>,
    /// The retention.
    pub window_ms: u64,
    /// The cap on what is held.
    pub capacity: nat,
    /// The greatest timestamp seen since the history was last empty.
    pub newest: Option<u64>,
}

/// The earliest timestamp inside a window that ends at `newest`.
pub open spec fn cutoff(newest: u64, window_ms: u64) -> u64 {
    if newest >= window_ms {
        (newest - window_ms) as u64
    } else {
        0
    }
}

/// The samples that are not older than `from`.
pub open spec fn fresh(samples: Seq<Features>, from: u64) -> Seq<Features> {
    samples.filter(|s: Features| s.t_ms >= from)
}

/// The last `n` elements, or all where there are fewer.
pub open spec fn last_of(samples: Seq<Features>, n: nat) -> Seq<Features> {
    if samples.len() > n {
        samples.skip(samples.len() - n)
    } else {
        samples
    }
}

impl History {
    /// What every operation keeps: the cap, and that all that is held lies in
    /// the window that ends at the greatest timestamp seen.
    pub open spec fn valid(self) -> bool {
        &&& self.capacity >= 1
        &&& self.samples.len() <= self.capacity
        &&& self.newest is None ==> self.samples.len() == 0
        &&& self.newest matches Some(newest) ==> forall|i: int|
            0 <= i < self.samples.len() ==> cutoff(newest, self.window_ms) <= (
            #[trigger] self.samples[i]).t_ms <= newest
    }

    /// The newest timestamp once `sample` has been seen too.
    pub open spec fn seen(self, sample: Features) -> u64 {
        match self.newest {
            Some(m) => if m < sample.t_ms {
                sample.t_ms
            } else {
                m
            },
            None => sample.t_ms,
        }
    }

    /// The history after one more sample: it goes to the end, what fell out of
    /// the window goes, and of what is then too much the oldest goes.
    pub open spec fn pushed(self, sample: Features) -> History {
        let newest = self.seen(sample);
        History {
            samples: last_of(
                fresh(self.samples.push(sample), cutoff(newest, self.window_ms)),
                self.capacity,
            ),
            newest: Some(newest),
            ..self
        }
    }

    /// The history after several more samples.
    pub open spec fn extended(self, more: Seq<Features>) -> History
        decreases more.len(),
    {
        if more.len() == 0 {
            self
        } else {
            self.extended(more.drop_last()).pushed(more.last())
        }
    }

    /// The history with nothing in it.
    pub open spec fn emptied(self) -> History {
        History { samples: Seq::empty(), newest: None, ..self }
    }
}

impl View for FeatureHistory {
    type V = History;

    closed spec fn view(&self) -> History {
        History {
            samples: self.samples@,
            window_ms: self.window_ms,
            capacity: self.capacity as nat,
            newest: self.max_seen_t_ms,
        }
    }
}

impl Default for FeatureHistory {
    fn default() -> (h: Self)
        ensures
            h@ == (History {
                samples: Seq::empty(),
                window_ms: DEFAULT_HISTORY_MS,
                capacity: DEFAULT_HISTORY_CAPACITY as nat,
                newest: None,
            }),
            h@.valid(),
    {
        FeatureHistory::new(DEFAULT_HISTORY_MS, DEFAULT_HISTORY_CAPACITY)
    }
}

impl FeatureHistory {
    /// An empty history. A capacity of 0 counts as 1.
    pub fn new(window_ms: u64, capacity: usize) -> (h: Self)
        ensures
            h@ == (History {
                samples: Seq::empty(),
                window_ms,
                capacity: if capacity == 0 {
                    1
                } else {
                    capacity as nat
                },
                newest: None,
            }),
            h@.valid(),
    {
        FeatureHistory {
            samples: VecDeque::new(),
            window_ms,
            capacity: if capacity == 0 {
                1
            } else {
                capacity
            },
            max_seen_t_ms: None,
        }
    }

    /// Adds one sample.
    pub fn push(&mut self, sample: Features)
        requires
            old(self)@.valid(),
        ensures
            final(self)@ == old(self)@.pushed(sample),
            final(self)@.valid(),
    {
        let newest: u64 = match self.max_seen_t_ms {
            Some(m) => if m < sample.t_ms {
                sample.t_ms
            } else {
                m
            },
            None => sample.t_ms,
        };
        proof {
            lemma_pushed_valid(self@, sample);
        }
        self.max_seen_t_ms = Some(newest);
        self.samples.push_back(sample);
        self.evict();
    }

    /// Adds several samples, in order.
    pub fn extend(&mut self, samples: &Vec<Features>)
        requires
            old(self)@.valid(),
        ensures
            final(self)@ == old(self)@.extended(samples@),
            final(self)@.valid(),
    {
        assert(samples@.take(0).len() == 0);
        for i in 0..samples.len()
            invariant
                self@ == old(self)@.extended(samples@.take(i as int)),
                self@.valid(),
        {
            assert(samples@.take(i + 1).drop_last() =~= samples@.take(i as int));
            self.push(samples[i]);
        }
        assert(samples@.take(samples@.len() as int) =~= samples@);
    }

    /// Drops everything and forgets the newest timestamp.
    pub fn clear(&mut self)
        requires
            old(self)@.valid(),
        ensures
            final(self)@ == old(self)@.emptied(),
            final(self)@.valid(),
    {
        self.samples = VecDeque::new();
        self.max_seen_t_ms = None;
    }

    /// What is held, oldest arrival first.
    pub fn iter(&self) -> (samples: Vec<Features>)
        ensures
            samples@ == self@.samples,
    {
        let mut out: Vec<Features> = Vec::new();
        for i in 0..self.samples.len()
            invariant
                out@ == self.samples@.take(i as int),
        {
            assert(self.samples@.take(i + 1) =~= self.samples@.take(i as int).push(
                self.samples@[i as int],
            ));
            out.push(self.samples[i]);
        }
        assert(self.samples@.take(self.samples@.len() as int) =~= self.samples@);
        out
    }

    /// How many samples are held.
    pub fn len(&self) -> (n: usize)
        ensures
            n == self@.samples.len(),
    {
        self.samples.len()
    }

    /// Whether nothing is held.
    pub fn is_empty(&self) -> (yes: bool)
        ensures
            yes == (self@.samples.len() == 0),
    {
        self.samples.len() == 0
    }

    /// The window that ends at the greatest timestamp seen, or `None` before
    /// the first sample.
    pub fn time_bounds(&self) -> (bounds: Option<(u64, u64)>)
        ensures
            bounds == (match self@.newest {
                Some(newest) => Some((cutoff(newest, self@.window_ms), newest)),
                None => None,
            }),
    {
        match self.max_seen_t_ms {
            Some(newest) => Some((newest.saturating_sub(self.window_ms), newest)),
            None => None,
        }
    }

    /// The retention in milliseconds.
    pub fn window_ms(&self) -> (ms: u64)
        ensures
            ms == self@.window_ms,
    {
        self.window_ms
    }

    fn evict(&mut self)
        requires
            old(self).max_seen_t_ms is Some,
            old(self).capacity >= 1,
        ensures
            final(self)@.samples == last_of(
                fresh(
                    old(self)@.samples,
                    cutoff(old(self).max_seen_t_ms->0, old(self).window_ms),
                ),
                old(self).capacity as nat,
            ),
            final(self).max_seen_t_ms == old(self).max_seen_t_ms,
            final(self).window_ms == old(self).window_ms,
            final(self).capacity == old(self).capacity,
    {
        let newest: u64 = match self.max_seen_t_ms {
            Some(newest) => newest,
            None => {
                return ;
            },
        };
        let from: u64 = newest.saturating_sub(self.window_ms);
        let ghost held = self.samples@;
        let mut kept: VecDeque<Features> = VecDeque::new();
        for i in 0..self.samples.len()
            invariant
                held == self.samples@,
                kept@ == fresh(held.take(i as int), from),
        {
            proof {
                assert(held.take(i + 1) =~= held.take(i as int).push(held[i as int]));
                lemma_fresh_push(held.take(i as int), held[i as int], from);
            }
            let sample = self.samples[i];
            if sample.t_ms >= from {
                kept.push_back(sample);
            }
        }
        assert(held.take(held.len() as int) =~= held);
        let ghost all = kept@;
        let ghost cap = self.capacity as nat;
        let capacity: usize = self.capacity;
        while kept.len() > capacity
            invariant
                capacity == cap,
                capacity >= 1,
                kept@.len() <= all.len(),
                kept@ == all.skip(all.len() - kept@.len()),
                all.len() >= cap ==> kept@.len() >= cap,
                all.len() <= cap ==> kept@ == all,
            decreases kept@.len(),
        {
            let ghost before = kept@;
            let _ = kept.pop_front();
            assert(kept@ =~= all.skip(all.len() - kept@.len()));
        }
        assert(kept@ =~= last_of(all, cap));
        self.samples = kept;
    }
}

/// Filtering looks at each sample on its own.
proof fn lemma_fresh_push(samples: Seq<Features>, s: Features, from: u64)
    ensures
        fresh(samples.push(s), from) == (if s.t_ms >= from {
            fresh(samples, from).push(s)
        } else {
            fresh(samples, from)
        }),
{
    reveal(Seq::filter);
    assert(samples.push(s).drop_last() =~= samples);
}

/// What is fresh is no longer than what it was taken from, and each of it is
/// one of them and new enough.
proof fn lemma_fresh(samples: Seq<Features>, from: u64)
    ensures
        fresh(samples, from).len() <= samples.len(),
        forall|i: int|
            0 <= i < fresh(samples, from).len() ==> (#[trigger] fresh(samples, from)[i]).t_ms
                >= from && samples.contains(fresh(samples, from)[i]),
    decreases samples.len(),
{
    reveal(Seq::filter);
    if samples.len() > 0 {
        let rest = samples.drop_last();
        lemma_fresh(rest, from);
        lemma_fresh_push(rest, samples.last(), from);
        assert(rest.push(samples.last()) =~= samples);
        let kept = fresh(samples, from);
        assert forall|i: int| 0 <= i < kept.len() implies (#[trigger] kept[i]).t_ms >= from
            && samples.contains(kept[i]) by {
            if i < fresh(rest, from).len() {
                assert(kept[i] == fresh(rest, from)[i]);
                let j = choose|j: int| 0 <= j < rest.len() && rest[j] == kept[i];
                assert(samples[j] == kept[i]);
            } else {
                assert(samples[samples.len() - 1] == kept[i]);
            }
        }
    }
}

/// Pushing keeps the history valid.
proof fn lemma_pushed_valid(h: History, sample: Features)
    requires
        h.valid(),
    ensures
        h.pushed(sample).valid(),
{
    let newest = h.seen(sample);
    let from = cutoff(newest, h.window_ms);
    let all = h.samples.push(sample);
    let kept = fresh(all, from);
    lemma_fresh(all, from);
    let held = h.pushed(sample).samples;
    assert forall|i: int| 0 <= i < held.len() implies from <= (#[trigger] held[i]).t_ms
        <= newest by {
        let k = if kept.len() > h.capacity {
            i + kept.len() - h.capacity
        } else {
            i
        };
        assert(held[i] == kept[k]);
        let j = choose|j: int| 0 <= j < all.len() && all[j] == kept[k];
        if j < h.samples.len() {
            assert(all[j] == h.samples[j]);
        }
    }
}

// ---- laws ----------------------------------------------------------------

/// A sample that comes late, with an older timestamp, does not move the window
/// backwards.
pub proof fn law_window_never_moves_back(h: History, sample: Features)
    requires
        h.valid(),
        h.newest is Some,
    ensures
        h.pushed(sample).newest is Some,
        h.newest->0 <= h.pushed(sample).newest->0,
        cutoff(h.newest->0, h.window_ms) <= cutoff(h.pushed(sample).newest->0, h.window_ms),
{
}

/// The sample just pushed is held, at the end, unless it is itself older than
/// the window.
pub proof fn law_push_holds_the_sample(h: History, sample: Features)
    requires
        h.valid(),
        sample.t_ms >= cutoff(h.seen(sample), h.window_ms),
    ensures
        h.pushed(sample).samples.len() > 0,
        h.pushed(sample).samples.last() == sample,
{
    lemma_fresh_push(h.samples, sample, cutoff(h.seen(sample), h.window_ms));
}

/// Samples of one timestamp are all preserved, in order, up to the capacity.
pub proof fn law_repeated_timestamps_are_preserved(h: History, more: Seq<Features>, t: u64)
    requires
        h.valid(),
        h.newest is None,
        forall|i: int| 0 <= i < more.len() ==> (#[trigger] more[i]).t_ms == t,
    ensures
        h.extended(more).samples == last_of(more, h.capacity),
{
    law_in_order_history(h, more);
    if more.len() > 0 {
        lemma_all_fresh(more, cutoff(t, h.window_ms));
    }
}

/// Where the timestamps arrive in order, an empty history that is fed with
/// `more` holds exactly the last `capacity` of those that lie in the window.
pub proof fn law_in_order_history(h: History, more: Seq<Features>)
    requires
        h.valid(),
        h.newest is None,
        in_order(more),
    ensures
        more.len() == 0 ==> h.extended(more) == h,
        more.len() > 0 ==> {
            &&& h.extended(more).newest == Some(more.last().t_ms)
            &&& h.extended(more).samples == last_of(
                fresh(more, cutoff(more.last().t_ms, h.window_ms)),
                h.capacity,
            )
        },
        h.extended(more).window_ms == h.window_ms,
        h.extended(more).capacity == h.capacity,
    decreases more.len(),
{
    if more.len() > 0 {
        let rest = more.drop_last();
        let s = more.last();
        law_in_order_history(h, rest);
        let before = h.extended(rest);
        let to = cutoff(s.t_ms, h.window_ms);
        assert(rest.push(s) =~= more);
        lemma_fresh_push(rest, s, to);
        if rest.len() == 0 {
            assert(h.samples =~= Seq::<Features>::empty());
            assert(rest =~= Seq::<Features>::empty());
            assert(h.samples.push(s) =~= more);
        } else {
            let from = cutoff(rest.last().t_ms, h.window_ms);
            assert(more[more.len() - 2].t_ms <= more[more.len() - 1].t_ms);
            lemma_fresh_of_last(rest, from, to, h.capacity);
            lemma_fresh_push(before.samples, s, to);
            lemma_last_push(fresh(last_of(fresh(rest, from), h.capacity), to), fresh(rest, to), s, h.capacity);
        }
    }
}

/// Whether the timestamps never decrease.
pub open spec fn in_order(samples: Seq<Features>) -> bool {
    forall|i: int, j: int| 0 <= i <= j < samples.len() ==> samples[i].t_ms <= samples[j].t_ms
}

/// Where everything is new enough, everything is fresh.
proof fn lemma_all_fresh(samples: Seq<Features>, from: u64)
    requires
        forall|i: int| 0 <= i < samples.len() ==> (#[trigger] samples[i]).t_ms >= from,
    ensures
        fresh(samples, from) == samples,
    decreases samples.len(),
{
    reveal(Seq::filter);
    if samples.len() > 0 {
        let rest = samples.drop_last();
        assert(rest.push(samples.last()) =~= samples);
        lemma_fresh_push(rest, samples.last(), from);
        assert forall|i: int| 0 <= i < rest.len() implies (#[trigger] rest[i]).t_ms >= from by {
            assert(rest[i] == samples[i]);
        }
        lemma_all_fresh(rest, from);
    } else {
        assert(fresh(samples, from) =~= samples);
    }
}

/// Of samples in order, the fresh ones are a tail.
proof fn lemma_fresh_is_tail(samples: Seq<Features>, from: u64) -> (k: int)
    requires
        in_order(samples),
    ensures
        0 <= k <= samples.len(),
        fresh(samples, from) == samples.skip(k),
        forall|i: int| 0 <= i < k ==> (#[trigger] samples[i]).t_ms < from,
        forall|i: int| k <= i < samples.len() ==> (#[trigger] samples[i]).t_ms >= from,
    decreases samples.len(),
{
    reveal(Seq::filter);
    if samples.len() == 0 {
        assert(fresh(samples, from) =~= samples.skip(0));
        0
    } else {
        let rest = samples.drop_last();
        let s = samples.last();
        assert(rest.push(s) =~= samples);
        let k = lemma_fresh_is_tail(rest, from);
        lemma_fresh_push(rest, s, from);
        if s.t_ms >= from {
            assert(samples.skip(k) =~= rest.skip(k).push(s));
            assert forall|i: int| 0 <= i < k implies (#[trigger] samples[i]).t_ms < from by {
                assert(samples[i] == rest[i]);
            }
            assert forall|i: int| k <= i < samples.len() implies (#[trigger] samples[i]).t_ms
                >= from by {
                if i < rest.len() {
                    assert(samples[i] == rest[i]);
                }
            }
            k
        } else {
            assert(k == rest.len()) by {
                if k < rest.len() {
                    assert(rest[k].t_ms >= from);
                    assert(samples[k].t_ms <= samples[samples.len() - 1].t_ms);
                }
            }
            assert(samples.skip(samples.len() as int) =~= rest.skip(k));
            assert forall|i: int| 0 <= i < samples.len() implies (#[trigger] samples[i]).t_ms
                < from by {
                if i < rest.len() {
                    assert(samples[i] == rest[i]);
                }
            }
            samples.len() as int
        }
    }
}

/// Dropping what is too much before a later cut changes nothing but what the
/// cap would have dropped anyway.
proof fn lemma_fresh_of_last(samples: Seq<Features>, from: u64, to: u64, cap: nat)
    requires
        in_order(samples),
        from <= to,
    ensures
        last_of(fresh(last_of(fresh(samples, from), cap), to), cap) == last_of(
            fresh(samples, to),
            cap,
        ),
        fresh(last_of(fresh(samples, from), cap), to) == last_of(fresh(samples, to), cap),
{
    let a = lemma_fresh_is_tail(samples, from);
    let b = lemma_fresh_is_tail(samples, to);
    let n = samples.len();
    let kept = last_of(fresh(samples, from), cap);
    let start = if n - a > cap {
        n - cap
    } else {
        a
    };
    assert(kept =~= samples.skip(start));
    assert forall|i: int, j: int| 0 <= i <= j < kept.len() implies kept[i].t_ms
        <= kept[j].t_ms by {
        assert(kept[i] == samples[start + i]);
        assert(kept[j] == samples[start + j]);
    }
    let c = lemma_fresh_is_tail(kept, to);
    assert(a <= b) by {
        if b < a {
            assert(samples[b].t_ms >= to);
            assert(samples[b].t_ms < from);
        }
    }
    let first = if b > start {
        b
    } else {
        start
    };
    assert(c == first - start) by {
        if c < first - start {
            assert(kept[c] == samples[start + c]);
            assert(samples[start + c].t_ms < to);
        }
        if c > first - start {
            assert(kept[first - start] == samples[first]);
            assert(samples[first].t_ms >= to);
        }
    }
    assert(fresh(kept, to) =~= samples.skip(first));
    assert(last_of(fresh(samples, to), cap) =~= samples.skip(first));
}

/// Adding one element to a tail and capping again is the same as adding it to
/// the whole and capping.
proof fn lemma_last_push(tail: Seq<Features>, all: Seq<Features>, s: Features, cap: nat)
    requires
        tail == last_of(all, cap),
    ensures
        last_of(tail.push(s), cap) == last_of(all.push(s), cap),
        last_of(tail, cap) == last_of(all, cap),
{
    assert(last_of(tail.push(s), cap) =~= last_of(all.push(s), cap));
    assert(last_of(tail, cap) =~= last_of(all, cap));
}

/// Lifting keeps every value of a hop but its frequency: there is a pitch exactly
/// where the frequency is above zero, and it is the one given.
pub proof fn law_lifting_keeps_the_hop(s: FeatureSnapshot, pitch: F32)
    ensures
        s.lifted(pitch).hop_index == s.hop_index,
        s.lifted(pitch).t_ms == s.t_ms,
        s.lifted(pitch).vibrato_t_ms == s.vibrato_t_ms,
        s.lifted(pitch).confidence == s.confidence,
        s.lifted(pitch).onset == s.onset,
        s.lifted(pitch).breath == s.breath,
        s.lifted(pitch).vibrato_rate == s.vibrato_rate,
        s.lifted(pitch).vibrato_depth == s.vibrato_depth,
        (F32 { bits: 0 }).below(s.f0_hz) ==> s.lifted(pitch).pitch == Some(pitch),
        !(F32 { bits: 0 }).below(s.f0_hz) ==> s.lifted(pitch).pitch is None,
        s.voiced() <==> (F32 { bits: 0 }).below(s.f0_hz),
{
}

/// How many of the first `n` samples are no older than `window` before `newest`.
pub open spec fn young_before(all: Seq<Features>, newest: int, window: int, n: int) -> int
    decreases n,
{
    if n <= 0 {
        0
    } else {
        young_before(all, newest, window, n - 1) + (if all[n - 1].t_ms + window >= newest {
            1int
        } else {
            0
        })
    }
}

proof fn lemma_young_grows(all: Seq<Features>, newest: int, window: int, a: int, b: int)
    requires
        0 <= a <= b,
    ensures
        0 <= young_before(all, newest, window, a) <= young_before(all, newest, window, b),
    decreases b,
{
    if a < b {
        lemma_young_grows(all, newest, window, a, b - 1);
    } else if b > 0 {
        lemma_young_grows(all, newest, window, a - 1, b - 1);
    }
}

proof fn lemma_fresh_places(all: Seq<Features>, newest: u64, window: u64, n: int)
    requires
        0 <= n <= all.len(),
    ensures
        fresh(all.take(n), cutoff(newest, window)).len() == young_before(
            all,
            newest as int,
            window as int,
            n,
        ),
        forall|i: int|
            0 <= i < n && (#[trigger] all[i]).t_ms + window >= newest ==> 0 <= young_before(
                all,
                newest as int,
                window as int,
                i,
            ) < fresh(all.take(n), cutoff(newest, window)).len() && fresh(
                all.take(n),
                cutoff(newest, window),
            )[young_before(all, newest as int, window as int, i)] == all[i],
    decreases n,
{
    let from = cutoff(newest, window);
    if n > 0 {
        lemma_fresh_places(all, newest, window, n - 1);
        assert(all.take(n) =~= all.take(n - 1).push(all[n - 1]));
        lemma_fresh_push(all.take(n - 1), all[n - 1], from);
    } else {
        reveal(Seq::filter);
        assert(fresh(all.take(0), from).len() == 0);
    }
}

/// After a push the history ends at the greatest time seen, and holds, in order of
/// arrival, exactly those of what it held and the new sample that are no older than
/// the window, and of these the last as many as it has room for.
pub proof fn law_push_retains_the_window(h: History, sample: Features, i: int)
    requires
        h.capacity >= 1,
        0 <= i <= h.samples.len(),
    ensures
        ({
            let after = h.pushed(sample);
            let all = h.samples.push(sample);
            let newest = after.newest->0 as int;
            let window = h.window_ms as int;
            let young = young_before(all, newest, window, all.len() as int);
            let room = if young < h.capacity {
                young
            } else {
                h.capacity as int
            };
            let place = young_before(all, newest, window, i) - (young - room);
            &&& after.newest is Some
            &&& newest >= sample.t_ms
            &&& h.newest matches Some(m) ==> newest >= m && (newest == m || newest == sample.t_ms)
            &&& h.newest is None ==> newest == sample.t_ms
            &&& after.window_ms == h.window_ms
            &&& after.capacity == h.capacity
            &&& after.samples.len() == room
            &&& all[i].t_ms + window >= newest && place >= 0 ==> place < room
                && after.samples[place] == all[i]
        }),
{
    let after = h.pushed(sample);
    let all = h.samples.push(sample);
    let newest = h.seen(sample);
    let n = all.len() as int;
    assert(all.take(n) =~= all);
    lemma_fresh_places(all, newest, h.window_ms, n);
    let kept = fresh(all, cutoff(newest, h.window_ms));
    if all[i].t_ms + h.window_ms >= newest {
        let p = young_before(all, newest as int, h.window_ms as int, i);
        assert(kept[p] == all[i]);
        if kept.len() > h.capacity && p >= kept.len() - h.capacity {
            assert(after.samples[p - (kept.len() - h.capacity)] == kept[p]);
        }
    }
}

/// Several samples are pushed one by one, in order.
pub proof fn law_samples_are_pushed_in_order(h: History, a: Seq<Features>, b: Seq<Features>)
    ensures
        h.extended(a + b) == h.extended(a).extended(b),
        b.len() == 0 ==> h.extended(b) == h,
        b.len() == 1 ==> h.extended(b) == h.pushed(b[0]),
    decreases b.len(),
{
    if b.len() == 0 {
        assert(a + b =~= a);
    } else {
        assert((a + b).drop_last() =~= a + b.drop_last());
        law_samples_are_pushed_in_order(h, a, b.drop_last());
        if b.len() == 1 {
            assert(b.drop_last().len() == 0);
            assert(b.last() == b[0]);
        }
    }
}

/// An emptied history holds nothing and has seen nothing, and keeps its window and
/// its room.
pub proof fn law_emptied_keeps_the_limits(h: History)
    ensures
        h.emptied().samples.len() == 0,
        h.emptied().newest is None,
        h.emptied().window_ms == h.window_ms,
        h.emptied().capacity == h.capacity,
{
}

/// A window reaches back by its width, but not before the first moment.
pub proof fn law_windows_reach_back(newest: u64, window_ms: u64, t: u64)
    ensures
        cutoff(newest, window_ms) <= t <==> newest <= t + window_ms,
        cutoff(newest, window_ms) <= newest,
{
}

/// Twenty seconds are kept, and at most 4096 hops.
pub proof fn law_default_retention()
    ensures
        DEFAULT_HISTORY_MS == 20_000,
        DEFAULT_HISTORY_CAPACITY == 4_096,
{
}

}
