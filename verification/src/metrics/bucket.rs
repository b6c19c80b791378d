//! Stretches of history, and putting them together.

use vstd::prelude::*;

use crate::logs::instant::{Instant, EARLIEST_SECOND};

verus! {

/// One stretch of a unit's history. A fresh sample is a stretch of one observation and no length.
/// The processor shares and the mean size that go with it are kept elsewhere under `id`.
#[derive(Debug, Clone, Copy, PartialEq, Eq, Structural)]
pub struct Bucket {
    /// Tells this stretch from all others.
    pub id: u64,
    /// When the stretch begins.
    pub timestamp: Instant,
    /// When the newest reading in it was taken.
    pub last_observed: Instant,
    /// The newest resident size.
    pub rss_bytes: u64,
    /// The smallest resident size.
    pub rss_min: u64,
    /// The largest resident size.
    pub rss_max: u64,
    /// Bytes read from disk, by the newest reading.
    pub io_read_bytes: u64,
    /// Bytes written to disk, by the newest reading.
    pub io_write_bytes: u64,
    /// Bytes received, by the newest reading.
    pub net_rx_bytes: u64,
    /// Bytes sent, by the newest reading.
    pub net_tx_bytes: u64,
    /// How many observations it stands for.
    pub count: u32,
    /// How many seconds it covers.
    pub span_secs: u32,
}

/// What is told of a unit at a time, or over a stretch of time that was put together before.
#[derive(Debug, Clone, Copy, PartialEq, Eq, Structural)]
pub struct Sample {
    /// When it was taken.
    pub timestamp: Instant,
    /// The resident size.
    pub rss_bytes: u64,
    /// Bytes read from disk.
    pub io_read_bytes: u64,
    /// Bytes written to disk.
    pub io_write_bytes: u64,
    /// Bytes received.
    pub net_rx_bytes: u64,
    /// Bytes sent.
    pub net_tx_bytes: u64,
    /// How many observations it stands for.
    pub sample_count: u32,
    /// How many seconds it covers; none for a single observation.
    pub span_secs: u32,
    /// The smallest resident size; absent for a single observation.
    pub rss_min: Option<u64>,
    /// The largest resident size; absent for a single observation.
    pub rss_max: Option<u64>,
}

impl Sample {
    /// The smallest resident size that it tells of.
    pub fn rss_low(&self) -> (r: u64)
        ensures
            r == (if self.rss_min is Some {
                self.rss_min->0
            } else {
                self.rss_bytes
            }),
    {
        match self.rss_min {
            Some(n) => n,
            None => self.rss_bytes,
        }
    }

    /// The largest resident size that it tells of.
    pub fn rss_high(&self) -> (r: u64)
        ensures
            r == (if self.rss_max is Some {
                self.rss_max->0
            } else {
                self.rss_bytes
            }),
    {
        match self.rss_max {
            Some(n) => n,
            None => self.rss_bytes,
        }
    }
}

/// A fresh sample as a stretch of history.
pub open spec fn fresh(id: u64, s: Sample) -> Bucket {
    Bucket {
        id,
        timestamp: s.timestamp,
        last_observed: s.timestamp,
        rss_bytes: s.rss_bytes,
        rss_min: if s.rss_min is Some {
            s.rss_min->0
        } else {
            s.rss_bytes
        },
        rss_max: if s.rss_max is Some {
            s.rss_max->0
        } else {
            s.rss_bytes
        },
        io_read_bytes: s.io_read_bytes,
        io_write_bytes: s.io_write_bytes,
        net_rx_bytes: s.net_rx_bytes,
        net_tx_bytes: s.net_tx_bytes,
        count: if s.sample_count < 1 {
            1
        } else {
            s.sample_count
        },
        span_secs: s.span_secs,
    }
}

/// What a stretch of history tells. Its extremes are told only where it stands for more than one
/// observation.
pub open spec fn told(b: Bucket) -> Sample {
    Sample {
        timestamp: b.timestamp,
        rss_bytes: b.rss_bytes,
        io_read_bytes: b.io_read_bytes,
        io_write_bytes: b.io_write_bytes,
        net_rx_bytes: b.net_rx_bytes,
        net_tx_bytes: b.net_tx_bytes,
        sample_count: b.count,
        span_secs: b.span_secs,
        rss_min: if b.count > 1 {
            Some(b.rss_min)
        } else {
            None
        },
        rss_max: if b.count > 1 {
            Some(b.rss_max)
        } else {
            None
        },
    }
}

/// The latest second that a sample can be taken at, so that no stretch ends beyond what times can
/// give.
pub const LATEST_SECOND: i64 = 8205971909503;

/// Whether a time can be that of a sample.
pub open spec fn in_range(t: Instant) -> bool {
    EARLIEST_SECOND <= t.secs <= LATEST_SECOND
}

/// The observations of two stretches together, capped.
pub open spec fn added(a: u32, b: u32) -> u32 {
    if a + b > u32::MAX {
        u32::MAX
    } else {
        (a + b) as u32
    }
}

/// The smaller of two numbers.
pub open spec fn least(a: u64, b: u64) -> u64 {
    if b < a {
        b
    } else {
        a
    }
}

/// The larger of two numbers.
pub open spec fn most(a: u64, b: u64) -> u64 {
    if b > a {
        b
    } else {
        a
    }
}

/// Two stretches put together: extremes survive, and the newest reading is that of whichever was
/// observed last, whatever order they came in.
pub open spec fn merged(a: Bucket, b: Bucket) -> Bucket {
    let newer = !b.last_observed.precedes(a.last_observed);
    Bucket {
        id: a.id,
        timestamp: a.timestamp,
        span_secs: a.span_secs,
        rss_min: least(a.rss_min, b.rss_min),
        rss_max: most(a.rss_max, b.rss_max),
        count: added(a.count, b.count),
        last_observed: if newer {
            b.last_observed
        } else {
            a.last_observed
        },
        rss_bytes: if newer {
            b.rss_bytes
        } else {
            a.rss_bytes
        },
        io_read_bytes: if newer {
            b.io_read_bytes
        } else {
            a.io_read_bytes
        },
        io_write_bytes: if newer {
            b.io_write_bytes
        } else {
            a.io_write_bytes
        },
        net_rx_bytes: if newer {
            b.net_rx_bytes
        } else {
            a.net_rx_bytes
        },
        net_tx_bytes: if newer {
            b.net_tx_bytes
        } else {
            a.net_tx_bytes
        },
    }
}

impl Bucket {
    /// A fresh sample.
    pub fn raw(id: u64, sample: &Sample) -> (r: Self)
        ensures
            r == fresh(id, *sample),
    {
        Bucket {
            id,
            timestamp: sample.timestamp,
            last_observed: sample.timestamp,
            rss_bytes: sample.rss_bytes,
            rss_min: sample.rss_low(),
            rss_max: sample.rss_high(),
            io_read_bytes: sample.io_read_bytes,
            io_write_bytes: sample.io_write_bytes,
            net_rx_bytes: sample.net_rx_bytes,
            net_tx_bytes: sample.net_tx_bytes,
            count: if sample.sample_count < 1 {
                1
            } else {
                sample.sample_count
            },
            span_secs: sample.span_secs,
        }
    }

    /// What the stretch tells.
    pub fn to_sample(&self) -> (r: Sample)
        ensures
            r == told(*self),
    {
        let several = self.count > 1;
        Sample {
            timestamp: self.timestamp,
            rss_bytes: self.rss_bytes,
            io_read_bytes: self.io_read_bytes,
            io_write_bytes: self.io_write_bytes,
            net_rx_bytes: self.net_rx_bytes,
            net_tx_bytes: self.net_tx_bytes,
            sample_count: self.count,
            span_secs: self.span_secs,
            rss_min: if several {
                Some(self.rss_min)
            } else {
                None
            },
            rss_max: if several {
                Some(self.rss_max)
            } else {
                None
            },
        }
    }

    /// Takes another stretch in.
    pub fn merge(self, other: Bucket) -> (r: Bucket)
        ensures
            r == merged(self, other),
    {
        let newer = !other.last_observed.before(self.last_observed);
        let latest = if newer {
            other
        } else {
            self
        };
        Bucket {
            id: self.id,
            timestamp: self.timestamp,
            span_secs: self.span_secs,
            rss_min: if other.rss_min < self.rss_min {
                other.rss_min
            } else {
                self.rss_min
            },
            rss_max: if other.rss_max > self.rss_max {
                other.rss_max
            } else {
                self.rss_max
            },
            count: self.count.saturating_add(other.count),
            last_observed: latest.last_observed,
            rss_bytes: latest.rss_bytes,
            io_read_bytes: latest.io_read_bytes,
            io_write_bytes: latest.io_write_bytes,
            net_rx_bytes: latest.net_rx_bytes,
            net_tx_bytes: latest.net_tx_bytes,
        }
    }

    /// When the stretch ends. Going on from within a leap second leaves it.
    pub open spec fn ends(self) -> Instant {
        if self.span_secs > 0 && self.timestamp.nanos >= 1_000_000_000 {
            Instant {
                secs: (self.timestamp.secs + self.span_secs) as i64,
                nanos: (self.timestamp.nanos - 1_000_000_000) as u32,
            }
        } else {
            Instant {
                secs: (self.timestamp.secs + self.span_secs) as i64,
                nanos: self.timestamp.nanos,
            }
        }
    }

    /// When the stretch ends.
    pub fn end(&self) -> (r: Instant)
        requires
            in_range(self.timestamp),
        ensures
            r == self.ends(),
    {
        let secs: i64 = self.timestamp.secs + self.span_secs as i64;
        if self.span_secs > 0 && self.timestamp.nanos >= 1_000_000_000 {
            Instant { secs, nanos: self.timestamp.nanos - 1_000_000_000 }
        } else {
            Instant { secs, nanos: self.timestamp.nanos }
        }
    }
}

/// The start of the stretch of `span` seconds that a time lies in. At the very beginning of time a
/// stretch starts where it can.
pub open spec fn aligned(t: Instant, span: nat) -> Instant {
    let start = t.secs - t.secs as int % span as int;
    if start < EARLIEST_SECOND {
        t
    } else {
        Instant { secs: start as i64, nanos: 0 }
    }
}

/// The start of the stretch of `span` seconds that a time lies in.
pub fn align_to_span(t: Instant, span: u64) -> (r: Instant)
    requires
        in_range(t),
        0 < span <= i64::MAX,
    ensures
        r == aligned(t, span as nat),
        in_range(r),
        !t.precedes(r),
{
    let rem: u64 = if t.secs >= 0 {
        t.secs as u64 % span
    } else {
        let below: u64 = (0 - t.secs) as u64;
        let over: u64 = below % span;
        proof {
            let q = below as int / span as int;
            vstd::arithmetic::div_mod::lemma_fundamental_div_mod(below as int, span as int);
            if over == 0 {
                assert(t.secs == (-q) * span + 0) by (nonlinear_arith)
                    requires
                        t.secs == -below,
                        below == span * q + 0,
                ;
                vstd::arithmetic::div_mod::lemma_fundamental_div_mod_converse(
                    t.secs as int,
                    span as int,
                    -q,
                    0,
                );
            } else {
                assert(t.secs == (-q - 1) * span + (span - over)) by (nonlinear_arith)
                    requires
                        t.secs == -below,
                        below == span * q + over,
                ;
                vstd::arithmetic::div_mod::lemma_fundamental_div_mod_converse(
                    t.secs as int,
                    span as int,
                    -q - 1,
                    span - over,
                );
            }
        }
        if over == 0 {
            0
        } else {
            span - over
        }
    };
    assert(rem == t.secs as int % span as int);
    assert(0 <= rem < span);
    let start: i128 = t.secs as i128 - rem as i128;
    if start < EARLIEST_SECOND as i128 {
        t
    } else {
        Instant { secs: start as i64, nanos: 0 }
    }
}

// ---------------------------------------------------------------------------
// Ordered stretches
// ---------------------------------------------------------------------------

/// Whether stretches begin in order, and all at times that samples can have.
pub open spec fn in_time_order(tier: Seq<Bucket>) -> bool {
    &&& forall|i: int| 0 <= i < tier.len() ==> in_range((#[trigger] tier[i]).timestamp)
    &&& forall|i: int, j: int|
        #![trigger tier[i], tier[j]]
        0 <= i < j < tier.len() ==> !tier[j].timestamp.precedes(tier[i].timestamp)
}

/// How many of the stretches begin at `t` or before it, when they are in order.
pub open spec fn up_to(tier: Seq<Bucket>, t: Instant) -> nat
    decreases tier.len(),
{
    if tier.len() == 0 {
        0
    } else if t.precedes(tier.last().timestamp) {
        up_to(tier.drop_last(), t)
    } else {
        tier.len()
    }
}

pub proof fn lemma_up_to(tier: Seq<Bucket>, t: Instant, n: int)
    requires
        0 <= n <= tier.len(),
        forall|i: int| n <= i < tier.len() ==> t.precedes((#[trigger] tier[i]).timestamp),
        n > 0 ==> !t.precedes(tier[n - 1].timestamp),
    ensures
        up_to(tier, t) == n,
    decreases tier.len(),
{
    if tier.len() > n {
        assert(t.precedes(tier[tier.len() - 1].timestamp));
        let front = tier.drop_last();
        assert forall|i: int| n <= i < front.len() implies t.precedes((#[trigger] front[i]).timestamp) by {
            assert(front[i] == tier[i]);
        }
        lemma_up_to(front, t, n);
    }
}

/// How many of the stretches begin at `t` or before it, when they are in order.
pub fn place_of(tier: &Vec<Bucket>, t: Instant) -> (r: usize)
    ensures
        r == up_to(tier@, t),
        r <= tier@.len(),
        forall|i: int| r <= i < tier@.len() ==> t.precedes((#[trigger] tier@[i]).timestamp),
        r > 0 ==> !t.precedes(tier@[r - 1].timestamp),
{
    let mut n: usize = tier.len();
    while n > 0 && t.before(tier[n - 1].timestamp)
        invariant
            n <= tier@.len(),
            forall|i: int| n <= i < tier@.len() ==> t.precedes((#[trigger] tier@[i]).timestamp),
        decreases n,
    {
        n = n - 1;
    }
    proof {
        lemma_up_to(tier@, t, n as int);
    }
    n
}

/// The stretches with one more, after those that begin at the same time.
pub open spec fn placed(tier: Seq<Bucket>, b: Bucket) -> Seq<Bucket> {
    tier.insert(up_to(tier, b.timestamp) as int, b)
}

pub proof fn lemma_placed(tier: Seq<Bucket>, b: Bucket, n: int)
    requires
        in_time_order(tier),
        in_range(b.timestamp),
        0 <= n <= tier.len(),
        forall|i: int|
            n <= i < tier.len() ==> b.timestamp.precedes((#[trigger] tier[i]).timestamp),
        n > 0 ==> !b.timestamp.precedes(tier[n - 1].timestamp),
    ensures
        in_time_order(tier.insert(n, b)),
{
    let after = tier.insert(n, b);
    assert forall|i: int| 0 <= i < after.len() implies in_range((#[trigger] after[i]).timestamp) by {
        if i < n {
            assert(in_range(tier[i].timestamp));
        } else if i > n {
            assert(in_range(tier[i - 1].timestamp));
        }
    }
    assert forall|i: int, j: int|
        #![trigger after[i], after[j]]
        0 <= i < j < after.len() implies !after[j].timestamp.precedes(after[i].timestamp) by {
        if j < n {
            assert(!tier[j].timestamp.precedes(tier[i].timestamp));
        } else if i > n {
            assert(!tier[j - 1].timestamp.precedes(tier[i - 1].timestamp));
        } else if i < n && j == n {
            if i < n - 1 {
                assert(!tier[n - 1].timestamp.precedes(tier[i].timestamp));
            }
        } else if i < n {
            assert(!tier[j - 1].timestamp.precedes(tier[i].timestamp));
        } else {
            assert(b.timestamp.precedes(tier[j - 1].timestamp));
        }
    }
}

/// Adds a fresh sample, in time order even when the clock has stepped back.
pub fn add_sample(raw: &mut Vec<Bucket>, b: Bucket)
    requires
        in_time_order(old(raw)@),
        in_range(b.timestamp),
    ensures
        final(raw)@ == placed(old(raw)@, b),
        in_time_order(final(raw)@),
{
    let n = place_of(raw, b.timestamp);
    proof {
        lemma_placed(raw@, b, n as int);
    }
    raw.insert(n, b);
}

/// One stretch that went into another, with how many observations each stood for.
#[derive(Debug, Clone, Copy, PartialEq, Eq, Structural)]
pub struct Merge {
    /// The stretch that stays.
    pub into: u64,
    /// How many observations it stood for.
    pub into_count: u32,
    /// The stretch that is gone.
    pub from: u64,
    /// How many observations it stood for.
    pub from_count: u32,
}

/// A stretch moved to the start of the longer stretch of `span` seconds that it lies in.
pub open spec fn widened(b: Bucket, span: nat) -> Bucket {
    Bucket { timestamp: aligned(b.timestamp, span), span_secs: span as u32, ..b }
}

/// The longer stretches with one more folded in: put together with the one that begins where it
/// does, or else put in its place.
pub open spec fn folded(tier: Seq<Bucket>, b: Bucket, span: nat) -> (Seq<Bucket>, Option<Merge>) {
    let w = widened(b, span);
    let n = up_to(tier, w.timestamp) as int;
    if n > 0 && tier[n - 1].timestamp == w.timestamp {
        let t = tier[n - 1];
        (
            tier.update(n - 1, merged(t, w)),
            Some(Merge { into: t.id, into_count: t.count, from: b.id, from_count: b.count }),
        )
    } else {
        (tier.insert(n, w), None)
    }
}

/// Folds a stretch into longer ones.
pub fn fold_into(tier: &mut Vec<Bucket>, b: Bucket, span: u64) -> (r: Option<Merge>)
    requires
        in_time_order(old(tier)@),
        in_range(b.timestamp),
        0 < span <= i64::MAX,
    ensures
        (final(tier)@, r) == folded(old(tier)@, b, span as nat),
        in_time_order(final(tier)@),
{
    let start = align_to_span(b.timestamp, span);
    let mut w = b;
    w.timestamp = start;
    w.span_secs = #[verifier::truncate] (span as u32);
    assert(w == widened(b, span as nat));
    let n = place_of(tier, start);
    let ghost before = tier@;
    if n > 0 && tier[n - 1].timestamp == start {
        let t = tier[n - 1];
        tier.set(n - 1, t.merge(w));
        proof {
            let after = tier@;
            assert(after =~= before.update(n - 1, merged(t, w)));
            assert forall|i: int| 0 <= i < after.len() implies in_range(
                (#[trigger] after[i]).timestamp,
            ) by {
                assert(in_range(before[i].timestamp));
            }
            assert forall|i: int, j: int|
                #![trigger after[i], after[j]]
                0 <= i < j < after.len() implies !after[j].timestamp.precedes(after[i].timestamp) by {
                assert(!before[j].timestamp.precedes(before[i].timestamp));
            }
        }
        return Some(
            Merge { into: t.id, into_count: t.count, from: b.id, from_count: b.count },
        );
    }
    proof {
        lemma_placed(before, w, n as int);
    }
    tier.insert(n, w);
    None
}

/// Folding a stretch in neither loses an observation nor hides a peak, and what was newest stays
/// newest.
pub proof fn law_merging_keeps_extremes(a: Bucket, b: Bucket)
    ensures
        merged(a, b).rss_max >= a.rss_max && merged(a, b).rss_max >= b.rss_max,
        merged(a, b).rss_min <= a.rss_min && merged(a, b).rss_min <= b.rss_min,
        a.count + b.count <= u32::MAX ==> merged(a, b).count == a.count + b.count,
        !merged(a, b).last_observed.precedes(a.last_observed),
        !merged(a, b).last_observed.precedes(b.last_observed),
{
}

/// Two stretches put together begin where the first did and stand for no extremes but theirs; the
/// readings are those of whichever was observed last.
pub proof fn law_merging_keeps_the_newest_reading(a: Bucket, b: Bucket)
    ensures
        merged(a, b).timestamp == a.timestamp,
        merged(a, b).span_secs == a.span_secs,
        merged(a, b).id == a.id,
        merged(a, b).rss_max == a.rss_max || merged(a, b).rss_max == b.rss_max,
        merged(a, b).rss_min == a.rss_min || merged(a, b).rss_min == b.rss_min,
        a.last_observed.precedes(b.last_observed) ==> {
            &&& merged(a, b).rss_bytes == b.rss_bytes
            &&& merged(a, b).io_read_bytes == b.io_read_bytes
            &&& merged(a, b).io_write_bytes == b.io_write_bytes
            &&& merged(a, b).net_rx_bytes == b.net_rx_bytes
            &&& merged(a, b).net_tx_bytes == b.net_tx_bytes
            &&& merged(a, b).last_observed == b.last_observed
        },
        b.last_observed.precedes(a.last_observed) ==> {
            &&& merged(a, b).rss_bytes == a.rss_bytes
            &&& merged(a, b).io_read_bytes == a.io_read_bytes
            &&& merged(a, b).io_write_bytes == a.io_write_bytes
            &&& merged(a, b).net_rx_bytes == a.net_rx_bytes
            &&& merged(a, b).net_tx_bytes == a.net_tx_bytes
            &&& merged(a, b).last_observed == a.last_observed
        },
{
}

/// A single sample is told back as it was taken.
pub proof fn law_sample_is_told_back(id: u64, s: Sample)
    requires
        s.sample_count == 1,
        s.rss_min is None,
        s.rss_max is None,
    ensures
        told(fresh(id, s)) == s,
        fresh(id, s).id == id,
        fresh(id, s).rss_min == s.rss_bytes,
        fresh(id, s).rss_max == s.rss_bytes,
        fresh(id, s).last_observed == s.timestamp,
{
}

/// A stretch begins at a whole multiple of its span, at or before the time that lies in it and less
/// than a span before.
pub proof fn law_stretches_are_aligned(t: Instant, span: nat)
    requires
        span > 0,
        t.secs - span >= EARLIEST_SECOND,
    ensures
        aligned(t, span).secs <= t.secs,
        t.secs < aligned(t, span).secs + span,
        aligned(t, span).secs as int % span as int == 0,
        aligned(t, span).nanos == 0,
{
    let s = t.secs as int;
    let d = span as int;
    vstd::arithmetic::div_mod::lemma_fundamental_div_mod(s, d);
    vstd::arithmetic::div_mod::lemma_mod_bound(s, d);
    assert(s - s % d == d * (s / d));
    vstd::arithmetic::div_mod::lemma_mod_multiples_basic(s / d, d);
    assert((s / d) * d == d * (s / d)) by (nonlinear_arith);
}

/// A new stretch stands after everything that begins no later, and before everything that begins
/// later.
pub proof fn law_stretch_is_put_in_its_place(tier: Seq<Bucket>, t: Instant)
    requires
        in_time_order(tier),
    ensures
        up_to(tier, t) <= tier.len(),
        forall|i: int| 0 <= i < up_to(tier, t) ==> !t.precedes((#[trigger] tier[i]).timestamp),
        forall|i: int| up_to(tier, t) <= i < tier.len() ==> t.precedes((#[trigger] tier[i]).timestamp),
    decreases tier.len(),
{
    if tier.len() > 0 {
        let front = tier.drop_last();
        assert(in_time_order(front)) by {
            assert(forall|i: int| 0 <= i < front.len() ==> front[i] == tier[i]);
        }
        law_stretch_is_put_in_its_place(front, t);
        assert(forall|i: int| 0 <= i < front.len() ==> front[i] == tier[i]);
        assert(tier[tier.len() - 1] == tier.last());
        if !t.precedes(tier.last().timestamp) {
            assert forall|i: int| 0 <= i < tier.len() implies !t.precedes(
                (#[trigger] tier[i]).timestamp,
            ) by {
                if i < tier.len() - 1 {
                    assert(!tier[tier.len() - 1].timestamp.precedes(tier[i].timestamp));
                }
            }
        }
    }
}

} // verus!
