//! The history of all units, in bounded memory.

use vstd::prelude::*;

use crate::logs::bytes::last_n;
use crate::logs::instant::{counted_back, Instant, EARLIEST_SECOND};
use crate::metrics::bucket::{
    add_sample, fold_into, folded, fresh, in_range, in_time_order, placed, Bucket, Merge, Sample,
    LATEST_SECOND,
};
use crate::metrics::budget::{all_bounded, dropped, enforce_memory_budget, within, Dropped};
use crate::metrics::settings::{MetricsSettings, DEFAULT_RETENTION};
use crate::metrics::whole::{keeping_of, noted, owned};
use crate::names::NameMap;

verus! {

/// How many minutes are kept before they are put together further.
pub const MINUTE_CAPACITY: usize = 60;

/// The most stretches of the oldest history.
pub const COARSE_CAPACITY_MAX: usize = 96;

/// A unit's history: recent samples, then minutes, then longer stretches.
pub struct UnitMetrics {
    /// Recent samples.
    pub raw: Vec<Bucket>,
    /// Minutes.
    pub minute: Vec<Bucket>,
    /// Longer stretches.
    pub coarse: Vec<Bucket>,
}

/// What [`UnitMetrics`] hold.
#[verifier::ext_equal]
pub struct Tiers {
    pub raw: Seq<Bucket>,
    pub minute: Seq<Bucket>,
    pub coarse: Seq<Bucket>,
}

impl View for UnitMetrics {
    type V = Tiers;

    open spec fn view(&self) -> Tiers {
        Tiers { raw: self.raw@, minute: self.minute@, coarse: self.coarse@ }
    }
}

impl Tiers {
    /// No history.
    pub open spec fn none() -> Tiers {
        Tiers { raw: seq![], minute: seq![], coarse: seq![] }
    }

    /// Whether every tier is in order.
    pub open spec fn sound(self) -> bool {
        in_time_order(self.raw) && in_time_order(self.minute) && in_time_order(self.coarse)
    }

    /// All stretches, the longest tier first. They are in time order while the clock does not step
    /// back, and after it did as long as no recent history was given up.
    pub open spec fn all(self) -> Seq<Bucket> {
        self.coarse + self.minute + self.raw
    }
}

// ---------------------------------------------------------------------------
// Moving history down
// ---------------------------------------------------------------------------

/// Two tiers once the first holds no more than `cap`, its oldest stretches folded into the second,
/// and what was merged on the way.
pub open spec fn spilled(src: Seq<Bucket>, dst: Seq<Bucket>, cap: nat, span: nat) -> (
    Seq<Bucket>,
    Seq<Bucket>,
    Seq<Merge>,
)
    decreases src.len(),
{
    if src.len() <= cap {
        (src, dst, seq![])
    } else {
        let (next, merge) = folded(dst, src[0], span);
        let (s, d, merges) = spilled(src.drop_first(), next, cap, span);
        (s, d, match merge {
            Some(m) => seq![m] + merges,
            None => merges,
        })
    }
}

proof fn lemma_drop_first_ordered(tier: Seq<Bucket>)
    requires
        in_time_order(tier),
        tier.len() > 0,
    ensures
        in_time_order(tier.drop_first()),
{
    let rest = tier.drop_first();
    assert forall|i: int| 0 <= i < rest.len() implies in_range((#[trigger] rest[i]).timestamp) by {
        assert(rest[i] == tier[i + 1]);
    }
    assert forall|i: int, j: int|
        #![trigger rest[i], rest[j]]
        0 <= i < j < rest.len() implies !rest[j].timestamp.precedes(rest[i].timestamp) by {
        assert(rest[i] == tier[i + 1] && rest[j] == tier[j + 1]);
    }
}

fn spill(
    src: &mut Vec<Bucket>,
    dst: &mut Vec<Bucket>,
    cap: usize,
    span: u64,
    merges: &mut Vec<Merge>,
)
    requires
        in_time_order(old(src)@),
        in_time_order(old(dst)@),
        0 < span <= i64::MAX,
    ensures
        ({
            let (s, d, m) = spilled(old(src)@, old(dst)@, cap as nat, span as nat);
            &&& final(src)@ == s
            &&& final(dst)@ == d
            &&& final(merges)@ == old(merges)@ + m
        }),
        in_time_order(final(src)@),
        in_time_order(final(dst)@),
        final(src)@.len() <= cap,
{
    let ghost src0 = src@;
    let ghost dst0 = dst@;
    let ghost merges0 = merges@;
    let ghost total = spilled(src0, dst0, cap as nat, span as nat);
    assert(merges0 + total.2 =~= merges@ + spilled(src@, dst@, cap as nat, span as nat).2);
    while src.len() > cap
        invariant
            in_time_order(src@),
            in_time_order(dst@),
            0 < span <= i64::MAX,
            total.0 == spilled(src@, dst@, cap as nat, span as nat).0,
            total.1 == spilled(src@, dst@, cap as nat, span as nat).1,
            merges0 + total.2 == merges@ + spilled(src@, dst@, cap as nat, span as nat).2,
        decreases src.len(),
    {
        let ghost s = src@;
        let ghost d = dst@;
        let ghost m0 = merges@;
        proof {
            lemma_drop_first_ordered(s);
        }
        let b = src.remove(0);
        assert(src@ =~= s.drop_first());
        assert(in_range(s[0].timestamp));
        let merge = fold_into(dst, b, span);
        let ghost rest = spilled(src@, dst@, cap as nat, span as nat).2;
        match merge {
            Some(m) => {
                merges.push(m);
                assert(m0 + (seq![m] + rest) =~= m0.push(m) + rest);
            },
            None => {},
        }
    }
    assert(merges@ + Seq::<Merge>::empty() =~= merges@);
}

/// How many stretches, from the front, are over by `cutoff`.
pub open spec fn over_by(tier: Seq<Bucket>, cutoff: Instant) -> nat
    decreases tier.len(),
{
    if tier.len() > 0 && !cutoff.precedes(tier[0].ends()) {
        1 + over_by(tier.drop_first(), cutoff)
    } else {
        0
    }
}

pub proof fn lemma_over_by(tier: Seq<Bucket>, cutoff: Instant)
    ensures
        over_by(tier, cutoff) <= tier.len(),
    decreases tier.len(),
{
    if tier.len() > 0 {
        lemma_over_by(tier.drop_first(), cutoff);
    }
}

fn expire(tier: &mut Vec<Bucket>, cutoff: Instant, evicted: &mut Vec<Bucket>)
    requires
        in_time_order(old(tier)@),
    ensures
        ({
            let n = over_by(old(tier)@, cutoff) as int;
            &&& final(tier)@ == old(tier)@.skip(n)
            &&& final(evicted)@ == old(evicted)@ + old(tier)@.take(n)
        }),
        in_time_order(final(tier)@),
{
    let ghost t0 = tier@;
    let ghost e0 = evicted@;
    let ghost n = over_by(t0, cutoff) as int;
    let ghost mut k: int = 0;
    proof {
        lemma_over_by(t0, cutoff);
        assert(t0.skip(0) =~= t0);
        assert(e0 + t0.take(0) =~= e0);
    }
    while tier.len() > 0 && !cutoff.before(tier[0].end())
        invariant
            in_time_order(tier@),
            0 <= k <= t0.len(),
            tier@ == t0.skip(k),
            evicted@ == e0 + t0.take(k),
            n == k + over_by(tier@, cutoff),
        decreases tier.len(),
    {
        let ghost t = tier@;
        proof {
            lemma_drop_first_ordered(t);
        }
        let b = tier.remove(0);
        evicted.push(b);
        proof {
            assert(tier@ =~= t.drop_first());
            assert(tier@ =~= t0.skip(k + 1));
            assert(e0 + t0.take(k + 1) =~= (e0 + t0.take(k)).push(t0[k]));
            k = k + 1;
        }
    }
}

fn overflow(tier: &mut Vec<Bucket>, cap: usize, evicted: &mut Vec<Bucket>)
    requires
        in_time_order(old(tier)@),
    ensures
        ({
            let n: int = if old(tier)@.len() > cap {
                old(tier)@.len() - cap
            } else {
                0
            };
            &&& final(tier)@ == old(tier)@.skip(n)
            &&& final(evicted)@ == old(evicted)@ + old(tier)@.take(n)
        }),
        in_time_order(final(tier)@),
{
    let ghost t0 = tier@;
    let ghost e0 = evicted@;
    let ghost mut k: int = 0;
    proof {
        assert(t0.skip(0) =~= t0);
        assert(e0 + t0.take(0) =~= e0);
    }
    while tier.len() > cap
        invariant
            in_time_order(tier@),
            0 <= k <= t0.len(),
            t0.len() > cap ==> k <= t0.len() - cap,
            t0.len() <= cap ==> k == 0,
            tier@ == t0.skip(k),
            evicted@ == e0 + t0.take(k),
        decreases tier.len(),
    {
        let ghost t = tier@;
        proof {
            lemma_drop_first_ordered(t);
        }
        let b = tier.remove(0);
        evicted.push(b);
        proof {
            assert(tier@ =~= t.drop_first());
            assert(tier@ =~= t0.skip(k + 1));
            assert(e0 + t0.take(k + 1) =~= (e0 + t0.take(k)).push(t0[k]));
            k = k + 1;
        }
    }
}

/// A unit's history without its oldest stretch.
pub open spec fn popped(t: Tiers) -> Tiers {
    if t.coarse.len() > 0 {
        Tiers { coarse: t.coarse.drop_first(), ..t }
    } else if t.minute.len() > 0 {
        Tiers { minute: t.minute.drop_first(), ..t }
    } else if t.raw.len() > 0 {
        Tiers { raw: t.raw.drop_first(), ..t }
    } else {
        t
    }
}

// ---------------------------------------------------------------------------
// Recording
// ---------------------------------------------------------------------------

/// What became of a unit's history when a sample was recorded.
pub struct Recorded {
    /// Stretches that went into others, in order.
    pub merges: Vec<Merge>,
    /// Stretches that were given up, in order.
    pub evicted: Vec<Bucket>,
}

/// What a unit's history is after a sample, what was merged, and what was given up. Samples beyond
/// the recent ones are put together by the minute, minutes by longer stretches. What lies before
/// `cutoff` is given up, and so is what exceeds the number of stretches kept.
pub open spec fn recorded(t: Tiers, b: Bucket, raw_cap: nat, coarse_span: nat, cutoff: Instant) -> (
    Tiers,
    Seq<Merge>,
    Seq<Bucket>,
) {
    let (raw, minute1, m1) = spilled(placed(t.raw, b), t.minute, raw_cap, 60);
    let (minute, coarse1, m2) = spilled(minute1, t.coarse, MINUTE_CAPACITY as nat, coarse_span);
    let nc = over_by(coarse1, cutoff) as int;
    let nm = over_by(minute, cutoff) as int;
    let nr = over_by(raw, cutoff) as int;
    let coarse2 = coarse1.skip(nc);
    let extra: int = if coarse2.len() > COARSE_CAPACITY_MAX {
        coarse2.len() - COARSE_CAPACITY_MAX
    } else {
        0
    };
    (
        Tiers { raw: raw.skip(nr), minute: minute.skip(nm), coarse: coarse2.skip(extra) },
        m1 + m2,
        coarse1.take(nc) + minute.take(nm) + raw.take(nr) + coarse2.take(extra),
    )
}

impl UnitMetrics {
    /// No history.
    pub fn new() -> (r: Self)
        ensures
            r@ == Tiers::none(),
            r@.sound(),
    {
        UnitMetrics { raw: Vec::new(), minute: Vec::new(), coarse: Vec::new() }
    }

    /// How many stretches there are.
    pub fn len(&self) -> (r: u128)
        ensures
            r == self@.all().len(),
    {
        let a: usize = self.coarse.len();
        let b: usize = self.minute.len();
        let c: usize = self.raw.len();
        a as u128 + b as u128 + c as u128
    }

    /// Records a sample.
    pub fn record(&mut self, b: Bucket, raw_cap: usize, coarse_span: u64, cutoff: Instant) -> (r:
        Recorded)
        requires
            old(self)@.sound(),
            in_range(b.timestamp),
            0 < coarse_span <= i64::MAX,
        ensures
            final(self)@.sound(),
            (final(self)@, r.merges@, r.evicted@) == recorded(
                old(self)@,
                b,
                raw_cap as nat,
                coarse_span as nat,
                cutoff,
            ),
            final(self)@.raw.len() <= raw_cap,
            final(self)@.minute.len() <= MINUTE_CAPACITY,
            final(self)@.coarse.len() <= COARSE_CAPACITY_MAX,
    {
        let mut merges: Vec<Merge> = Vec::new();
        let mut evicted: Vec<Bucket> = Vec::new();
        add_sample(&mut self.raw, b);
        spill(&mut self.raw, &mut self.minute, raw_cap, 60, &mut merges);
        spill(&mut self.minute, &mut self.coarse, MINUTE_CAPACITY, coarse_span, &mut merges);
        proof {
            lemma_over_by(self.raw@, cutoff);
            lemma_over_by(self.minute@, cutoff);
            lemma_over_by(self.coarse@, cutoff);
        }
        expire(&mut self.coarse, cutoff, &mut evicted);
        expire(&mut self.minute, cutoff, &mut evicted);
        expire(&mut self.raw, cutoff, &mut evicted);
        overflow(&mut self.coarse, COARSE_CAPACITY_MAX, &mut evicted);
        proof {
            let want = recorded(old(self)@, b, raw_cap as nat, coarse_span as nat, cutoff);
            assert(merges@ =~= want.1);
            assert(evicted@ =~= want.2);
            assert(self@ =~= want.0);
        }
        Recorded { merges, evicted }
    }

    /// Gives up the oldest stretch.
    pub fn pop_oldest(&mut self) -> (r: Option<Bucket>)
        requires
            old(self)@.sound(),
        ensures
            final(self)@.sound(),
            final(self)@ == popped(old(self)@),
            match r {
                Some(b) => {
                    &&& old(self)@.all().len() > 0
                    &&& b == old(self)@.all()[0]
                    &&& final(self)@.all() == old(self)@.all().drop_first()
                },
                None => old(self)@.all().len() == 0,
            },
    {
        let ghost t = self@;
        if self.coarse.len() > 0 {
            proof {
                lemma_drop_first_ordered(self.coarse@);
            }
            let b = self.coarse.remove(0);
            assert(self.coarse@ =~= t.coarse.drop_first());
            assert(self@.all() =~= t.all().drop_first());
            assert(self@ =~= popped(t));
            Some(b)
        } else if self.minute.len() > 0 {
            proof {
                lemma_drop_first_ordered(self.minute@);
            }
            let b = self.minute.remove(0);
            assert(self.minute@ =~= t.minute.drop_first());
            assert(self@.all() =~= t.all().drop_first());
            assert(self@ =~= popped(t));
            Some(b)
        } else if self.raw.len() > 0 {
            proof {
                lemma_drop_first_ordered(self.raw@);
            }
            let b = self.raw.remove(0);
            assert(self.raw@ =~= t.raw.drop_first());
            assert(self@.all() =~= t.all().drop_first());
            assert(self@ =~= popped(t));
            Some(b)
        } else {
            assert(self@.all().len() == 0);
            None
        }
    }

    /// All stretches, oldest first.
    pub fn buckets(&self) -> (r: Vec<Bucket>)
        ensures
            r@ == self@.all(),
    {
        let mut all: Vec<Bucket> = Vec::new();
        all.extend_from_slice(self.coarse.as_slice());
        all.extend_from_slice(self.minute.as_slice());
        all.extend_from_slice(self.raw.as_slice());
        assert(all@ =~= self@.all());
        all
    }

    /// The most recent stretches, oldest first, at most `limit`.
    pub fn latest(&self, limit: usize) -> (r: Vec<Bucket>)
        ensures
            r@ == last_n(self@.all(), limit as nat),
    {
        let mut all = self.buckets();
        if all.len() > limit {
            let from: usize = all.len() - limit;
            let last = all.split_off(from);
            assert(last@ =~= self@.all().skip(from as int));
            last
        } else {
            all
        }
    }
}

/// The history of each unit.
pub open spec fn histories(m: NameMap<UnitMetrics>) -> Map<Seq<char>, Tiers> {
    m@.map_values(|u: UnitMetrics| u@)
}

/// The history of a unit; none when it is not known.
pub open spec fn history(m: Map<Seq<char>, Tiers>, unit: Seq<char>) -> Tiers {
    if m.contains_key(unit) {
        m[unit]
    } else {
        Tiers::none()
    }
}

/// The time before which history is given up when a sample is taken at `now`.
pub open spec fn cutoff_of(now: Instant, retention: u64) -> Instant {
    counted_back(
        now,
        if retention > 9223372036854775 {
            DEFAULT_RETENTION as nat
        } else {
            retention as nat
        },
    )
}

/// Whether the retention reaches back no further than times do.
pub open spec fn retention_in_reach(now: Instant, retention: u64) -> bool {
    if retention > 9223372036854775 {
        now.secs - DEFAULT_RETENTION >= EARLIEST_SECOND
    } else {
        now.secs - retention >= EARLIEST_SECOND
    }
}

fn cutoff(now: Instant, retention: u64) -> (r: Instant)
    requires
        in_range(now),
        retention_in_reach(now, retention),
    ensures
        r == cutoff_of(now, retention),
{
    let n: u64 = if retention > 9223372036854775 {
        DEFAULT_RETENTION
    } else {
        retention
    };
    let secs: i64 = now.secs - n as i64;
    if n > 0 && now.nanos >= 1_000_000_000 {
        Instant { secs: secs + 1, nanos: now.nanos - 1_000_000_000 }
    } else {
        Instant { secs, nanos: now.nanos }
    }
}

// ---------------------------------------------------------------------------
// All units
// ---------------------------------------------------------------------------

/// The history of all units.
pub struct MetricsStore {
    /// How history is kept.
    pub settings: MetricsSettings,
    /// How many bytes one stretch takes in memory.
    pub bucket_bytes: usize,
    /// The history of each unit.
    pub units: NameMap<UnitMetrics>,
}

/// What became of the history of all units when a sample was recorded.
pub struct Outcome {
    /// Stretches that went into others, in order.
    pub merges: Vec<Merge>,
    /// The unit's stretches that were given up for their age or their number, in order.
    pub evicted: Vec<Bucket>,
    /// What units then gave up for the memory, in order.
    pub trimmed: Vec<Dropped>,
}

/// What can be told of a unit's history as a whole.
pub struct Totals {
    /// The stretch with the newest reading.
    pub latest: Bucket,
    /// How many observations there are.
    pub observations: u64,
}

/// How many observations stretches stand for.
pub open spec fn observations(s: Seq<Bucket>) -> nat
    decreases s.len(),
{
    if s.len() == 0 {
        0
    } else {
        observations(s.drop_last()) + s.last().count as nat
    }
}

/// Whether `i` is the stretch with the newest reading; of several, the last one.
pub open spec fn newest(s: Seq<Bucket>, i: int) -> bool {
    &&& 0 <= i < s.len()
    &&& forall|j: int|
        0 <= j < s.len() ==> !s[i].last_observed.precedes((#[trigger] s[j]).last_observed)
    &&& forall|j: int|
        i < j < s.len() ==> (#[trigger] s[j]).last_observed.precedes(s[i].last_observed)
}

impl MetricsStore {
    /// Whether every unit's history is in order and no larger than it may be.
    pub open spec fn sound(&self) -> bool {
        self.bucket_bytes > 0 && all_bounded(histories(self.units))
    }

    /// How many stretches there is room for in memory.
    pub open spec fn room(&self) -> nat {
        self.settings.max_memory_bytes as nat / self.bucket_bytes as nat
    }

    /// An empty store, for stretches of `bucket_bytes` each.
    pub fn new(settings: MetricsSettings, bucket_bytes: usize) -> (r: Self)
        requires
            bucket_bytes > 0,
        ensures
            r.settings == settings,
            r.bucket_bytes == bucket_bytes,
            histories(r.units) == Map::<Seq<char>, Tiers>::empty(),
            r.sound(),
    {
        let r = MetricsStore { settings, bucket_bytes, units: NameMap::new() };
        assert(histories(r.units) =~= Map::<Seq<char>, Tiers>::empty());
        r
    }

    /// Makes a unit known.
    pub fn register_unit(&mut self, unit: &str)
        requires
            old(self).sound(),
        ensures
            final(self).sound(),
            final(self).settings == old(self).settings,
            final(self).bucket_bytes == old(self).bucket_bytes,
            histories(final(self).units) == histories(old(self).units).insert(
                unit@,
                history(histories(old(self).units), unit@),
            ),
    {
        let ghost before = histories(self.units);
        if !self.units.has(unit) {
            self.units.insert(unit, UnitMetrics::new());
        }
        assert(histories(self.units) =~= before.insert(unit@, history(before, unit@)));
    }

    /// Forgets a unit.
    pub fn remove_unit(&mut self, unit: &str)
        requires
            old(self).sound(),
        ensures
            final(self).sound(),
            final(self).settings == old(self).settings,
            final(self).bucket_bytes == old(self).bucket_bytes,
            histories(final(self).units) == histories(old(self).units).remove(unit@),
    {
        let ghost before = histories(self.units);
        let _ = self.units.remove(unit);
        assert(histories(self.units) =~= before.remove(unit@));
    }

    /// Records a sample of a unit, making it known. Its stretch is known as `id`.
    pub fn record_sample(&mut self, unit: &str, id: u64, sample: &Sample) -> (r: Outcome)
        requires
            old(self).sound(),
            in_range(sample.timestamp),
            retention_in_reach(sample.timestamp, old(self).settings.retention),
        ensures
            final(self).sound(),
            final(self).settings == old(self).settings,
            final(self).bucket_bytes == old(self).bucket_bytes,
            ({
                let before = histories(old(self).units);
                let (after, merges, evicted) = recorded(
                    history(before, unit@),
                    fresh(id, *sample),
                    old(self).settings.raw_limit(),
                    old(self).settings.widest_span(),
                    cutoff_of(sample.timestamp, old(self).settings.retention),
                );
                let (left, gone) = within(before.insert(unit@, after), old(self).room());
                &&& histories(final(self).units) == left
                &&& r.merges@ == merges
                &&& r.evicted@ == evicted
                &&& dropped(r.trimmed@) == gone
            }),
            (histories(final(self).units), owned(unit@, r.evicted@) + dropped(r.trimmed@)) == noted(
                histories(old(self).units),
                unit@,
                fresh(id, *sample),
                keeping_of(*old(self)),
            ),
    {
        let ghost before = histories(self.units);
        let raw_cap = self.settings.raw_capacity();
        let span = self.settings.coarse_span();
        let limit = cutoff(sample.timestamp, self.settings.retention);
        let mut unit_history = match self.units.remove(unit) {
            Some(h) => h,
            None => UnitMetrics::new(),
        };
        assert(unit_history@ == history(before, unit@));
        assert(history(before, unit@).sound());
        let r = unit_history.record(Bucket::raw(id, sample), raw_cap, span, limit);
        let ghost after = unit_history@;
        self.units.insert(unit, unit_history);
        assert(histories(self.units) =~= before.insert(unit@, after));
        let room: usize = self.settings.max_memory_bytes / self.bucket_bytes;
        let trimmed = enforce_memory_budget(&mut self.units, room);
        Outcome { merges: r.merges, evicted: r.evicted, trimmed }
    }

    /// Whether a sample of this time can be recorded: one before which there is no room for the
    /// retention cannot.
    pub fn takes(&self, t: Instant) -> (r: bool)
        ensures
            r == (in_range(t) && retention_in_reach(t, self.settings.retention)),
    {
        let kept: u64 = if self.settings.retention > 9223372036854775 {
            DEFAULT_RETENTION
        } else {
            self.settings.retention
        };
        EARLIEST_SECOND <= t.secs && t.secs <= LATEST_SECOND && t.secs as i128 - kept as i128
            >= EARLIEST_SECOND as i128
    }

    /// How long history is kept, in seconds.
    pub fn retention(&self) -> (r: u64)
        ensures
            r == self.settings.retention,
    {
        self.settings.retention
    }

    /// How long between two samples, in seconds.
    pub fn sample_interval(&self) -> (r: u64)
        ensures
            r == self.settings.sample_interval,
    {
        self.settings.sample_interval
    }

    /// A unit's history, oldest first.
    pub fn snapshot_unit(&self, unit: &str) -> (r: Option<Vec<Bucket>>)
        ensures
            match r {
                Some(v) => histories(self.units).contains_key(unit@) && v@ == histories(
                    self.units,
                )[unit@].all(),
                None => !histories(self.units).contains_key(unit@),
            },
    {
        match self.units.get(unit) {
            Some(h) => Some(h.buckets()),
            None => None,
        }
    }

    /// The most recent stretches of a unit's history, oldest first, at most `limit`.
    pub fn latest_samples(&self, unit: &str, limit: usize) -> (r: Vec<Bucket>)
        ensures
            r@ == last_n(history(histories(self.units), unit@).all(), limit as nat),
    {
        match self.units.get(unit) {
            Some(h) => h.latest(limit),
            None => {
                let r: Vec<Bucket> = Vec::new();
                assert(Tiers::none().all() =~= Seq::<Bucket>::empty());
                assert(r@ =~= last_n(Tiers::none().all(), limit as nat));
                r
            },
        }
    }

    /// What can be told of a unit's history as a whole; nothing when there was no observation.
    pub fn summarize_unit(&self, unit: &str) -> (r: Option<Totals>)
        requires
            self.sound(),
        ensures
            ({
                let all = history(histories(self.units), unit@).all();
                match r {
                    Some(t) => {
                        &&& t.observations == observations(all)
                        &&& t.observations > 0
                        &&& exists|i: int| #[trigger] newest(all, i) && t.latest == all[i]
                    },
                    None => observations(all) == 0,
                }
            }),
    {
        let unit_history = match self.units.get(unit) {
            Some(h) => h,
            None => {
                assert(Tiers::none().all() =~= Seq::<Bucket>::empty());
                return None;
            },
        };
        let ghost h = histories(self.units);
        assert(h.contains_key(unit@));
        assert(h[unit@] == unit_history@);
        let all = unit_history.buckets();
        let n: usize = all.len();
        assert(n <= 276);
        if n == 0 {
            return None;
        }
        let mut best: usize = 0;
        let mut sum: u64 = 0;
        let mut i: usize = 0;
        assert(all@.take(0) =~= Seq::<Bucket>::empty());
        while i < n
            invariant
                i <= n,
                n == all@.len(),
                n <= 276,
                sum == observations(all@.take(i as int)),
                sum <= i * 0xffff_ffff,
                best < n,
                i > 0 ==> newest(all@.take(i as int), best as int),
                i == 0 ==> best == 0,
            decreases n - i,
        {
            let ghost before = all@.take(i as int);
            let ghost after = all@.take(i + 1);
            assert(after.drop_last() =~= before);
            sum = sum + all[i].count as u64;
            if !all[i].last_observed.before(all[best].last_observed) {
                best = i;
            }
            assert(newest(after, best as int)) by {
                assert forall|j: int| 0 <= j < after.len() implies !after[best as int].last_observed.precedes(
                    (#[trigger] after[j]).last_observed,
                ) by {
                    if j < i {
                        assert(after[j] == before[j]);
                    }
                }
                assert forall|j: int| best < j < after.len() implies (#[trigger] after[j]).last_observed.precedes(
                    after[best as int].last_observed,
                ) by {
                    if j < i {
                        assert(after[j] == before[j]);
                    }
                }
            }
            i = i + 1;
        }
        assert(all@.take(n as int) =~= all@);
        if sum == 0 {
            return None;
        }
        assert(newest(all@, best as int));
        Some(Totals { latest: all[best], observations: sum })
    }
}

/// What is over by the cutoff is counted from the front up to the first stretch that is not.
pub proof fn law_old_history_is_counted(tier: Seq<Bucket>, cutoff: Instant)
    ensures
        over_by(tier, cutoff) <= tier.len(),
        forall|i: int|
            0 <= i < over_by(tier, cutoff) ==> !cutoff.precedes((#[trigger] tier[i]).ends()),
        over_by(tier, cutoff) < tier.len() ==> cutoff.precedes(
            tier[over_by(tier, cutoff) as int].ends(),
        ),
    decreases tier.len(),
{
    if tier.len() > 0 && !cutoff.precedes(tier[0].ends()) {
        let rest = tier.drop_first();
        law_old_history_is_counted(rest, cutoff);
        assert(forall|i: int| 0 <= i < rest.len() ==> rest[i] == tier[i + 1]);
        assert forall|i: int| 0 <= i < over_by(tier, cutoff) implies !cutoff.precedes(
            (#[trigger] tier[i]).ends(),
        ) by {
            if i > 0 {
                assert(rest[i - 1] == tier[i]);
            }
        }
    }
}

/// A unit gives up its oldest stretch first: that of the longest stretches it has.
pub proof fn law_oldest_is_given_up_first(t: Tiers)
    ensures
        t.all().len() > 0 ==> popped(t).all() == t.all().drop_first(),
        t.all().len() == 0 ==> popped(t) == t,
{
    if t.coarse.len() > 0 {
        assert(popped(t).all() =~= t.all().drop_first());
    } else if t.minute.len() > 0 {
        assert(popped(t).all() =~= t.all().drop_first());
    } else if t.raw.len() > 0 {
        assert(popped(t).all() =~= t.all().drop_first());
    }
}

/// History reaches back as far as the retention says, from the time of the latest sample.
pub proof fn law_cutoff_lies_a_retention_back(now: Instant, retention: u64)
    requires
        retention <= 9223372036854775,
        now.nanos < 1_000_000_000,
        now.secs - retention >= EARLIEST_SECOND,
    ensures
        cutoff_of(now, retention).secs == now.secs - retention,
        cutoff_of(now, retention).nanos == now.nanos,
{
}

} // verus!
