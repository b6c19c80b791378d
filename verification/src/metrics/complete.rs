//! A history that fits into the retention and into the memory is complete.

use vstd::prelude::*;

use crate::logs::instant::{Instant, EARLIEST_SECOND};
use crate::metrics::bucket::{
    aligned, folded, in_range, in_time_order, merged, placed, told, up_to, widened, Bucket, Sample,
};
use crate::metrics::budget::{total, within};
use crate::metrics::laws::{peak, trough};
use crate::metrics::order::lemma_up_to_splits;
use crate::metrics::settings::law_coarse_history_covers_retention;
use crate::metrics::store::{
    cutoff_of, history, observations, over_by, recorded, spilled, MetricsStore, Tiers,
    COARSE_CAPACITY_MAX, MINUTE_CAPACITY,
};
use crate::metrics::whole::{
    keeping_of, law_history_is_oldest_first, law_nothing_is_lost, lemma_of_unit_sum, lemma_owned,
    noted_all, of_unit, owned, Keeping,
};

verus! {

/// Whether a stretch is a single observation without extremes of its own.
pub open spec fn single(b: Bucket) -> bool {
    &&& b.last_observed == b.timestamp
    &&& b.count == 1
    &&& b.span_secs == 0
    &&& b.rss_min == b.rss_bytes
    &&& b.rss_max == b.rss_bytes
}

/// The largest resident size that a sample tells of.
pub open spec fn high(s: Sample) -> u64 {
    if s.rss_max is Some {
        s.rss_max->0
    } else {
        s.rss_bytes
    }
}

/// The smallest resident size that a sample tells of.
pub open spec fn low(s: Sample) -> u64 {
    if s.rss_min is Some {
        s.rss_min->0
    } else {
        s.rss_bytes
    }
}

/// Whether all that a stretch knows of sizes is told.
pub open spec fn tells_all(b: Bucket) -> bool {
    high(told(b)) == b.rss_max && low(told(b)) == b.rss_min
}

/// Where the longest stretch begins that a sample taken at `t` ends up in.
pub open spec fn coarse_start(t: Instant, span: nat) -> Instant {
    aligned(aligned(t, 60), span)
}

/// Whether a sample taken at `now` leaves everything from `first` on within the retention: neither
/// `first` itself nor the longest stretch that it ends up in is over.
pub open spec fn still_kept(first: Instant, now: Instant, k: Keeping) -> bool {
    let cutoff = cutoff_of(now, k.retention);
    &&& cutoff.precedes(first)
    &&& cutoff.secs < coarse_start(first, k.coarse_span).secs + k.coarse_span
}

/// Whether the memory never binds while samples are recorded one after the other.
pub open spec fn fits(samples: Seq<(Seq<char>, Bucket)>, k: Keeping) -> bool
    decreases samples.len(),
{
    if samples.len() == 0 {
        true
    } else {
        let m = noted_all(samples.drop_last(), k).0;
        let (unit, b) = samples.last();
        let after = recorded(
            history(m, unit),
            b,
            k.raw_cap,
            k.coarse_span,
            cutoff_of(b.timestamp, k.retention),
        ).0;
        fits(samples.drop_last(), k) && total(m.insert(unit, after)) <= k.room
    }
}

// ---------------------------------------------------------------------------
// What the stretches of such a history are like
// ---------------------------------------------------------------------------

/// Whether a stretch stands for observations and, if only for one, knows one size.
spec fn honest(b: Bucket) -> bool {
    b.count >= 1 && (b.count == 1 ==> b.rss_min == b.rss_bytes && b.rss_max == b.rss_bytes)
}

/// Whether these are samples from `first` on, up to the second `hi`.
spec fn samples_since(s: Seq<Bucket>, first: Instant, hi: int) -> bool {
    forall|i: int| #![trigger s[i]]
        0 <= i < s.len() ==> {
            &&& honest(s[i])
            &&& s[i].span_secs == 0
            &&& !s[i].timestamp.precedes(first)
            &&& s[i].timestamp.secs <= hi
        }
}

/// Whether these are different stretches of `span` seconds, in order, from the second `lo` up to
/// the second `hi`.
spec fn stretches_since(s: Seq<Bucket>, lo: int, hi: int, span: nat) -> bool {
    &&& forall|i: int| #![trigger s[i]]
        0 <= i < s.len() ==> {
            &&& honest(s[i])
            &&& s[i].span_secs == span
            &&& s[i].timestamp.nanos == 0
            &&& s[i].timestamp.secs as int % span as int == 0
            &&& lo <= s[i].timestamp.secs <= hi
        }
    &&& forall|i: int, j: int|
        #![trigger s[i], s[j]]
        0 <= i < j < s.len() ==> s[i].timestamp.secs < s[j].timestamp.secs
}

/// Whether a history holds nothing from before `first`, nor from after the second `hi`.
spec fn whole_since(t: Tiers, first: Instant, hi: int, span: nat) -> bool {
    &&& samples_since(t.raw, first, hi)
    &&& stretches_since(t.minute, aligned(first, 60).secs as int, hi, 60)
    &&& stretches_since(t.coarse, coarse_start(first, span).secs as int, hi, span)
}

/// Whether the beginning of a history lies far enough from the earliest time.
spec fn has_room_before(first: Instant, span: nat) -> bool {
    EARLIEST_SECOND + span + 60 <= first.secs
}

proof fn lemma_aligned_start(t: Instant, span: nat)
    requires
        span > 0,
        EARLIEST_SECOND + span <= t.secs,
    ensures
        aligned(t, span).secs as int % span as int == 0,
        aligned(t, span).nanos == 0,
        t.secs - span < aligned(t, span).secs <= t.secs,
{
    let n = span as int;
    let a = t.secs as int;
    vstd::arithmetic::div_mod::lemma_mod_bound(a, n);
    vstd::arithmetic::div_mod::lemma_fundamental_div_mod(a, n);
    let q = a / n;
    assert(a - a % n == q * n + 0) by (nonlinear_arith)
        requires
            a == n * q + a % n,
    ;
    vstd::arithmetic::div_mod::lemma_fundamental_div_mod_converse(a - a % n, n, q, 0);
}

proof fn lemma_multiples_apart(a: int, b: int, n: int)
    requires
        n > 0,
        a < b,
        a % n == 0,
        b % n == 0,
    ensures
        a + n <= b,
{
    vstd::arithmetic::div_mod::lemma_fundamental_div_mod(a, n);
    vstd::arithmetic::div_mod::lemma_fundamental_div_mod(b, n);
    let p = a / n;
    let q = b / n;
    assert(p < q) by (nonlinear_arith)
        requires
            n > 0,
            a == n * p,
            b == n * q,
            a < b,
    ;
    assert(n * p + n <= n * q) by (nonlinear_arith)
        requires
            n > 0,
            p + 1 <= q,
    ;
}

proof fn lemma_few_stretches(s: Seq<Bucket>, lo: int, hi: int, span: nat)
    requires
        stretches_since(s, lo, hi, span),
        span > 0,
        s.len() > 0,
    ensures
        (s.len() - 1) * span <= s.last().timestamp.secs - lo,
    decreases s.len(),
{
    if s.len() > 1 {
        let front = s.drop_last();
        assert(stretches_since(front, lo, hi, span)) by {
            assert(forall|i: int| 0 <= i < front.len() ==> #[trigger] front[i] == s[i]);
        }
        lemma_few_stretches(front, lo, hi, span);
        let a = s[s.len() - 2];
        let b = s[s.len() - 1];
        assert(front.last() == a);
        lemma_multiples_apart(a.timestamp.secs as int, b.timestamp.secs as int, span as int);
        let n = s.len() - 1;
        let w = span as int;
        assert(n * w == (n - 1) * w + w) by (nonlinear_arith);
    } else {
        assert(s[0] == s.last());
    }
}

proof fn lemma_folded_stretches(s: Seq<Bucket>, b: Bucket, lo: int, hi: int, span: nat)
    requires
        stretches_since(s, lo, hi, span),
        0 < span <= u32::MAX,
        honest(b),
        EARLIEST_SECOND + span <= b.timestamp.secs <= hi,
        lo <= aligned(b.timestamp, span).secs,
    ensures
        stretches_since(folded(s, b, span).0, lo, hi, span),
{
    let w = widened(b, span);
    lemma_aligned_start(b.timestamp, span);
    lemma_up_to_splits(s, w.timestamp);
    let n = up_to(s, w.timestamp) as int;
    let next = folded(s, b, span).0;
    if n > 0 && s[n - 1].timestamp == w.timestamp {
        let t = s[n - 1];
        assert(honest(merged(t, w)));
        assert(forall|i: int| 0 <= i < next.len() && i != n - 1 ==> #[trigger] next[i] == s[i]);
        assert(forall|i: int|
            0 <= i < next.len() ==> (#[trigger] next[i]).timestamp == s[i].timestamp);
    } else {
        assert forall|i: int| #![trigger next[i]] 0 <= i < next.len() implies next[i] == (if i < n {
            s[i]
        } else if i == n {
            w
        } else {
            s[i - 1]
        }) by {}
        assert forall|i: int, j: int|
            #![trigger next[i], next[j]]
            0 <= i < j < next.len() implies next[i].timestamp.secs < next[j].timestamp.secs by {
            if i < n && j == n {
                assert(s[n - 1].timestamp.secs < w.timestamp.secs);
                if i < n - 1 {
                    assert(s[i].timestamp.secs < s[n - 1].timestamp.secs);
                }
            } else if i == n {
                assert(w.timestamp.precedes(s[j - 1].timestamp));
            }
        }
    }
}

proof fn lemma_spill_samples(
    src: Seq<Bucket>,
    dst: Seq<Bucket>,
    cap: nat,
    first: Instant,
    hi: int,
)
    requires
        samples_since(src, first, hi),
        stretches_since(dst, aligned(first, 60).secs as int, hi, 60),
        EARLIEST_SECOND + 60 <= first.secs,
    ensures
        ({
            let (s, d, _) = spilled(src, dst, cap, 60);
            &&& samples_since(s, first, hi)
            &&& stretches_since(d, aligned(first, 60).secs as int, hi, 60)
            &&& s.len() <= cap
        }),
    decreases src.len(),
{
    if src.len() > cap {
        let b = src[0];
        let rest = src.drop_first();
        crate::metrics::order::lemma_aligned_grows(first, b.timestamp, 60);
        lemma_folded_stretches(dst, b, aligned(first, 60).secs as int, hi, 60);
        assert(forall|i: int| 0 <= i < rest.len() ==> #[trigger] rest[i] == src[i + 1]);
        lemma_spill_samples(rest, folded(dst, b, 60).0, cap, first, hi);
    }
}

proof fn lemma_spill_stretches(
    src: Seq<Bucket>,
    dst: Seq<Bucket>,
    cap: nat,
    span: nat,
    first: Instant,
    hi: int,
)
    requires
        stretches_since(src, aligned(first, 60).secs as int, hi, 60),
        stretches_since(dst, coarse_start(first, span).secs as int, hi, span),
        0 < span <= u32::MAX,
        has_room_before(first, span),
    ensures
        ({
            let (s, d, _) = spilled(src, dst, cap, span);
            &&& stretches_since(s, aligned(first, 60).secs as int, hi, 60)
            &&& stretches_since(d, coarse_start(first, span).secs as int, hi, span)
            &&& s.len() <= cap
        }),
    decreases src.len(),
{
    if src.len() > cap {
        let b = src[0];
        let rest = src.drop_first();
        lemma_aligned_start(first, 60);
        crate::metrics::order::lemma_aligned_grows(aligned(first, 60), b.timestamp, span);
        lemma_folded_stretches(dst, b, coarse_start(first, span).secs as int, hi, span);
        assert(forall|i: int| 0 <= i < rest.len() ==> #[trigger] rest[i] == src[i + 1]);
        lemma_spill_stretches(rest, folded(dst, b, span).0, cap, span, first, hi);
    }
}

/// Recording a sample within the retention gives nothing up.
proof fn lemma_recording_keeps_all(t: Tiers, b: Bucket, k: Keeping, first: Instant, hi: int)
    requires
        whole_since(t, first, hi, k.coarse_span),
        single(b),
        in_range(b.timestamp),
        !b.timestamp.precedes(first),
        hi <= b.timestamp.secs,
        still_kept(first, b.timestamp, k),
        has_room_before(first, k.coarse_span),
        900 <= k.coarse_span <= u32::MAX,
        k.retention < 49 * k.coarse_span,
        k.retention <= 9223372036854775,
    ensures
        ({
            let (after, _, evicted) = recorded(
                t,
                b,
                k.raw_cap,
                k.coarse_span,
                cutoff_of(b.timestamp, k.retention),
            );
            &&& evicted.len() == 0
            &&& whole_since(after, first, b.timestamp.secs as int, k.coarse_span)
            &&& after.raw.len() <= k.raw_cap
            &&& after.minute.len() <= MINUTE_CAPACITY
            &&& after.coarse.len() <= COARSE_CAPACITY_MAX
        }),
{
    let span = k.coarse_span;
    let now = b.timestamp.secs as int;
    let cutoff = cutoff_of(b.timestamp, k.retention);
    let raw0 = placed(t.raw, b);
    let n = up_to(t.raw, b.timestamp) as int;
    lemma_up_to_splits(t.raw, b.timestamp);
    assert(samples_since(raw0, first, now)) by {
        assert forall|i: int| #![trigger raw0[i]] 0 <= i < raw0.len() implies raw0[i] == (if i < n {
            t.raw[i]
        } else if i == n {
            b
        } else {
            t.raw[i - 1]
        }) by {}
    }
    let lo_minute = aligned(first, 60).secs as int;
    let lo_coarse = coarse_start(first, span).secs as int;
    lemma_aligned_start(first, 60);
    lemma_aligned_start(aligned(first, 60), span);
    lemma_spill_samples(raw0, t.minute, k.raw_cap, first, now);
    let (raw, minute1, _) = spilled(raw0, t.minute, k.raw_cap, 60);
    lemma_spill_stretches(minute1, t.coarse, MINUTE_CAPACITY as nat, span, first, now);
    let (minute, coarse, _) = spilled(minute1, t.coarse, MINUTE_CAPACITY as nat, span);
    assert(over_by(raw, cutoff) == 0) by {
        if raw.len() > 0 {
            assert(raw[0].ends() == raw[0].timestamp);
        }
    }
    assert(over_by(minute, cutoff) == 0) by {
        if minute.len() > 0 {
            assert(minute[0].ends().secs == minute[0].timestamp.secs + 60);
        }
    }
    assert(over_by(coarse, cutoff) == 0) by {
        if coarse.len() > 0 {
            assert(coarse[0].ends().secs == coarse[0].timestamp.secs + span);
        }
    }
    assert(coarse.len() <= COARSE_CAPACITY_MAX) by {
        if coarse.len() > 0 {
            lemma_few_stretches(coarse, lo_coarse, now, span);
            assert(coarse.last() == coarse[coarse.len() - 1]);
            assert(cutoff.secs >= now - k.retention);
            let w = span as int;
            let c = coarse.len() - 1;
            assert(c * w <= now - lo_coarse);
            assert(c <= 95) by (nonlinear_arith)
                requires
                    c * w < 51 * w,
                    w > 0,
            ;
        }
    }
    assert(raw.skip(0) =~= raw);
    assert(minute.skip(0) =~= minute);
    assert(coarse.skip(0) =~= coarse);
    assert(coarse.skip(0).skip(0) =~= coarse);
}

// ---------------------------------------------------------------------------
// Whole histories
// ---------------------------------------------------------------------------

/// Where minutes divide the longest stretches, everything younger than the retention is kept.
pub proof fn law_younger_than_retention_is_kept(first: Instant, now: Instant, k: Keeping)
    requires
        k.coarse_span > 0,
        k.coarse_span % 60 == 0,
        EARLIEST_SECOND + k.coarse_span + 60 <= first.secs,
        cutoff_of(now, k.retention).precedes(first),
    ensures
        still_kept(first, now, k),
{
    let span = k.coarse_span as int;
    let a = aligned(first, 60);
    lemma_aligned_start(first, 60);
    lemma_aligned_start(a, k.coarse_span);
    let end = coarse_start(first, k.coarse_span).secs + span;
    let p = span / 60;
    vstd::arithmetic::div_mod::lemma_fundamental_div_mod(span, 60);
    vstd::arithmetic::div_mod::lemma_fundamental_div_mod(end - span, span);
    let q = (end - span) / span;
    assert(end == (p * q + p) * 60 + 0) by (nonlinear_arith)
        requires
            span == 60 * p,
            end - span == span * q,
    ;
    vstd::arithmetic::div_mod::lemma_fundamental_div_mod_converse(end, 60, p * q + p, 0);
    lemma_multiples_apart(a.secs as int, end, 60);
}

/// Whether the samples of a unit are single observations in time order that span less than the
/// retention.
pub open spec fn plain_run(part: Seq<Bucket>, k: Keeping) -> bool {
    &&& in_time_order(part)
    &&& forall|i: int|
        0 <= i < part.len() ==> single(#[trigger] part[i]) && still_kept(
            part[0].timestamp,
            part[i].timestamp,
            k,
        )
    &&& part.len() > 0 ==> EARLIEST_SECOND + k.coarse_span + 60 <= part[0].timestamp.secs
}

proof fn lemma_run_is_kept(samples: Seq<(Seq<char>, Bucket)>, k: Keeping, unit: Seq<char>)
    requires
        plain_run(of_unit(samples, unit), k),
        fits(samples, k),
        900 <= k.coarse_span <= u32::MAX,
        k.retention < 49 * k.coarse_span,
        k.retention <= 9223372036854775,
    ensures
        ({
            let part = of_unit(samples, unit);
            let (m, gone) = noted_all(samples, k);
            let t = history(m, unit);
            &&& of_unit(gone, unit).len() == 0
            &&& part.len() == 0 ==> t == Tiers::none()
            &&& part.len() > 0 ==> whole_since(
                t,
                part[0].timestamp,
                part.last().timestamp.secs as int,
                k.coarse_span,
            )
            &&& t.raw.len() <= k.raw_cap
            &&& t.minute.len() <= MINUTE_CAPACITY
            &&& t.coarse.len() <= COARSE_CAPACITY_MAX
        }),
    decreases samples.len(),
{
    if samples.len() > 0 {
        let before = samples.drop_last();
        let (m, gone) = noted_all(before, k);
        let (owner, b) = samples.last();
        let part = of_unit(samples, unit);
        let earlier = of_unit(before, unit);
        assert(forall|i: int| 0 <= i < earlier.len() ==> #[trigger] earlier[i] == part[i]);
        lemma_run_is_kept(before, k, unit);
        let cutoff = cutoff_of(b.timestamp, k.retention);
        let (after, _, evicted) = recorded(
            history(m, owner),
            b,
            k.raw_cap,
            k.coarse_span,
            cutoff,
        );
        let next = m.insert(owner, after);
        assert(within(next, k.room) == (next, Seq::<(Seq<char>, Bucket)>::empty()));
        assert(owned(owner, evicted) + Seq::<(Seq<char>, Bucket)>::empty() =~= owned(owner, evicted));
        lemma_of_unit_sum(gone, owned(owner, evicted), unit);
        lemma_owned(owner, evicted, unit);
        if owner == unit {
            assert(part.last() == b && part[part.len() - 1] == b);
            let first = part[0].timestamp;
            let t = history(m, unit);
            let hi: int = if earlier.len() > 0 {
                earlier.last().timestamp.secs as int
            } else {
                b.timestamp.secs as int
            };
            assert(!b.timestamp.precedes(first));
            if earlier.len() > 0 {
                assert(earlier.last() == part[part.len() - 2]);
            }
            assert(whole_since(t, first, hi, k.coarse_span));
            lemma_recording_keeps_all(t, b, k, first, hi);
        } else {
            assert(history(next, unit) == history(m, unit));
        }
    }
}

proof fn lemma_singles(s: Seq<Bucket>)
    requires
        forall|i: int| 0 <= i < s.len() ==> single(#[trigger] s[i]),
    ensures
        observations(s) == s.len(),
    decreases s.len(),
{
    if s.len() > 0 {
        let front = s.drop_last();
        assert(forall|i: int| 0 <= i < front.len() ==> #[trigger] front[i] == s[i]);
        assert(single(s[s.len() - 1]));
        lemma_singles(front);
    }
}

/// Folding loses no observation and no extreme: however many samples of a unit are recorded in time
/// order, spanning less than the retention, with memory that never binds, the unit's history has no
/// more than a fixed number of stretches, in time order, nothing of it was given up, the
/// observations it tells of are as many as the samples, and the largest and the smallest size it
/// tells of are those of the samples. The number of samples must be one that can be counted, and
/// the longest stretches no longer than can be written.
pub proof fn law_folding_loses_nothing(
    store: MetricsStore,
    samples: Seq<(Seq<char>, Bucket)>,
    unit: Seq<char>,
)
    requires
        plain_run(of_unit(samples, unit), keeping_of(store)),
        fits(samples, keeping_of(store)),
        of_unit(samples, unit).len() <= u32::MAX,
        store.settings.retention <= 48 * u32::MAX,
    ensures
        ({
            let seen = of_unit(samples, unit);
            let (m, gone) = noted_all(samples, keeping_of(store));
            let v = history(m, unit).all();
            &&& v.len() <= 276
            &&& in_time_order(v)
            &&& of_unit(gone, unit).len() == 0
            &&& observations(v) == seen.len()
            &&& peak(v) == peak(seen)
            &&& trough(v) == trough(seen)
            &&& forall|i: int| 0 <= i < v.len() ==> tells_all(#[trigger] v[i])
        }),
{
    let k = keeping_of(store);
    let seen = of_unit(samples, unit);
    law_coarse_history_covers_retention(store.settings);
    assert(store.settings.retention as nat / 48 <= u32::MAX);
    lemma_run_is_kept(samples, k, unit);
    lemma_singles(seen);
    law_nothing_is_lost(samples, k, unit);
    law_history_is_oldest_first(samples, k, unit);
    let (m, gone) = noted_all(samples, k);
    let t = history(m, unit);
    let v = t.all();
    assert(of_unit(gone, unit) =~= Seq::<Bucket>::empty());
    assert(k.raw_cap <= 120) by (nonlinear_arith)
        requires
            k.raw_cap == store.settings.raw_limit(),
    ;
    let c = t.coarse.len() as int;
    let n = t.minute.len() as int;
    assert forall|i: int| 0 <= i < v.len() implies tells_all(#[trigger] v[i]) by {
        if i < c {
            assert(v[i] == t.coarse[i]);
        } else if i < c + n {
            assert(v[i] == t.minute[i - c]);
        } else {
            assert(v[i] == t.raw[i - c - n]);
        }
        assert(honest(v[i]));
    }
}

} // verus!
