//! When a unit's history, taken as a whole, is in time order.
//!
//! Each tier is in order by itself. The tiers after one another are in order as well: always while
//! the clock does not step back, and otherwise as long as every tier is filled before the next
//! one is begun.

use vstd::prelude::*;

use crate::logs::instant::Instant;
use crate::metrics::bucket::{
    aligned, folded, in_range, in_time_order, lemma_placed, placed, up_to, widened, Bucket,
};
use crate::metrics::store::{
    lemma_over_by, over_by, popped, recorded, spilled, Tiers, COARSE_CAPACITY_MAX, MINUTE_CAPACITY,
};

verus! {

/// Whether every stretch of `a` begins no later than every one of `b`.
spec fn below(a: Seq<Bucket>, b: Seq<Bucket>) -> bool {
    forall|i: int, j: int|
        #![trigger a[i], b[j]]
        0 <= i < a.len() && 0 <= j < b.len() ==> !b[j].timestamp.precedes(a[i].timestamp)
}

/// Whether every tier is in order, and the tiers among each other.
spec fn tiers_in_order(t: Tiers) -> bool {
    &&& t.sound()
    &&& below(t.coarse, t.minute)
    &&& below(t.coarse, t.raw)
    &&& below(t.minute, t.raw)
}

proof fn lemma_tiers(t: Tiers)
    ensures
        tiers_in_order(t) <==> in_time_order(t.all()),
{
    let all = t.all();
    let c = t.coarse.len() as int;
    let m = t.minute.len() as int;
    if tiers_in_order(t) {
        assert forall|i: int| 0 <= i < all.len() implies in_range((#[trigger] all[i]).timestamp) by {
            if i < c {
                assert(all[i] == t.coarse[i]);
            } else if i < c + m {
                assert(all[i] == t.minute[i - c]);
            } else {
                assert(all[i] == t.raw[i - c - m]);
            }
        }
        assert forall|i: int, j: int|
            #![trigger all[i], all[j]]
            0 <= i < j < all.len() implies !all[j].timestamp.precedes(all[i].timestamp) by {
            if i < c {
                assert(all[i] == t.coarse[i]);
            } else if i < c + m {
                assert(all[i] == t.minute[i - c]);
            } else {
                assert(all[i] == t.raw[i - c - m]);
            }
            if j < c {
                assert(all[j] == t.coarse[j]);
            } else if j < c + m {
                assert(all[j] == t.minute[j - c]);
            } else {
                assert(all[j] == t.raw[j - c - m]);
            }
        }
    }
    if in_time_order(all) {
        assert(forall|i: int| 0 <= i < c ==> #[trigger] t.coarse[i] == all[i]);
        assert(forall|i: int| 0 <= i < m ==> #[trigger] t.minute[i] == all[c + i]);
        assert(forall|i: int| 0 <= i < t.raw.len() ==> #[trigger] t.raw[i] == all[c + m + i]);
    }
}

proof fn lemma_aligned(t: Instant, span: nat)
    requires
        in_range(t),
        span > 0,
    ensures
        in_range(aligned(t, span)),
        !t.precedes(aligned(t, span)),
{
    let rem = t.secs as int % span as int;
    assert(0 <= rem < span) by (nonlinear_arith)
        requires
            rem == t.secs as int % span as int,
            span > 0,
    ;
}

pub proof fn lemma_aligned_grows(s: Instant, t: Instant, span: nat)
    requires
        !t.precedes(s),
        span > 0,
    ensures
        !aligned(t, span).precedes(aligned(s, span)),
{
    let n = span as int;
    let a = s.secs as int;
    let b = t.secs as int;
    vstd::arithmetic::div_mod::lemma_fundamental_div_mod(a, n);
    vstd::arithmetic::div_mod::lemma_fundamental_div_mod(b, n);
    vstd::arithmetic::div_mod::lemma_mod_bound(a, n);
    vstd::arithmetic::div_mod::lemma_mod_bound(b, n);
    vstd::arithmetic::div_mod::lemma_div_is_ordered(a, b, n);
    let qa = a / n;
    let qb = b / n;
    assert(n * qa <= n * qb) by (nonlinear_arith)
        requires
            qa <= qb,
            n > 0,
    ;
    if qa < qb {
        assert(n * qa + n <= n * qb) by (nonlinear_arith)
            requires
                qa < qb,
                n > 0,
        ;
    } else {
        assert(n * qa == n * qb);
    }
}

/// Where a stretch of the longer ones comes from once another was folded in.
spec fn comes_from(tier: Seq<Bucket>, b: Bucket, span: nat, y: Bucket) -> bool {
    ||| exists|k: int|
        0 <= k < tier.len() && (#[trigger] tier[k]).timestamp == y.timestamp
            && !y.last_observed.precedes(tier[k].last_observed)
    ||| y.timestamp == aligned(b.timestamp, span) && y.last_observed == b.last_observed
}

proof fn lemma_folded(tier: Seq<Bucket>, b: Bucket, span: nat)
    requires
        in_time_order(tier),
        in_range(b.timestamp),
        span > 0,
    ensures
        in_time_order(folded(tier, b, span).0),
        forall|i: int|
            0 <= i < folded(tier, b, span).0.len() ==> comes_from(
                tier,
                b,
                span,
                #[trigger] folded(tier, b, span).0[i],
            ),
{
    let w = widened(b, span);
    let n = up_to(tier, w.timestamp) as int;
    lemma_aligned(b.timestamp, span);
    lemma_up_to_splits(tier, w.timestamp);
    let next = folded(tier, b, span).0;
    if n > 0 && tier[n - 1].timestamp == w.timestamp {
        let t = tier[n - 1];
        assert forall|i: int| 0 <= i < next.len() implies in_range((#[trigger] next[i]).timestamp)
            && comes_from(tier, b, span, next[i]) by {
            assert(tier[i].timestamp == next[i].timestamp);
        }
        assert forall|i: int, j: int|
            #![trigger next[i], next[j]]
            0 <= i < j < next.len() implies !next[j].timestamp.precedes(next[i].timestamp) by {
            assert(tier[i].timestamp == next[i].timestamp);
            assert(tier[j].timestamp == next[j].timestamp);
        }
    } else {
        lemma_placed(tier, w, n);
        assert forall|i: int| 0 <= i < next.len() implies comes_from(
            tier,
            b,
            span,
            #[trigger] next[i],
        ) by {
            if i < n {
                assert(next[i] == tier[i]);
            } else if i > n {
                assert(next[i] == tier[i - 1]);
            }
        }
    }
}

pub proof fn lemma_up_to_splits(tier: Seq<Bucket>, t: Instant)
    ensures
        up_to(tier, t) <= tier.len(),
        forall|i: int|
            up_to(tier, t) <= i < tier.len() ==> t.precedes((#[trigger] tier[i]).timestamp),
        up_to(tier, t) > 0 ==> !t.precedes(tier[up_to(tier, t) - 1].timestamp),
    decreases tier.len(),
{
    if tier.len() > 0 && t.precedes(tier.last().timestamp) {
        let front = tier.drop_last();
        lemma_up_to_splits(front, t);
        assert forall|i: int| up_to(tier, t) <= i < tier.len() implies t.precedes(
            (#[trigger] tier[i]).timestamp,
        ) by {
            if i < front.len() {
                assert(front[i] == tier[i]);
            }
        }
    }
}

/// What is left of tiers after some of the first stretches of each are gone is in order as well.
proof fn lemma_fronts_gone(t: Tiers, c: int, m: int, r: int)
    requires
        tiers_in_order(t),
        0 <= c <= t.coarse.len(),
        0 <= m <= t.minute.len(),
        0 <= r <= t.raw.len(),
    ensures
        tiers_in_order(
            Tiers { raw: t.raw.skip(r), minute: t.minute.skip(m), coarse: t.coarse.skip(c) },
        ),
{
    let a = t.coarse.skip(c);
    let b = t.minute.skip(m);
    let d = t.raw.skip(r);
    assert(forall|i: int| 0 <= i < a.len() ==> #[trigger] a[i] == t.coarse[i + c]);
    assert(forall|i: int| 0 <= i < b.len() ==> #[trigger] b[i] == t.minute[i + m]);
    assert(forall|i: int| 0 <= i < d.len() ==> #[trigger] d[i] == t.raw[i + r]);
}

// ---------------------------------------------------------------------------
// A clock that may step back
// ---------------------------------------------------------------------------

/// Whether a tier is begun only once the one before it is full. This is so as long as no sample is
/// given up while a minute stays, nor a minute while a longer stretch does.
pub open spec fn filled(t: Tiers, raw_cap: nat) -> bool {
    &&& t.raw.len() <= raw_cap
    &&& t.minute.len() <= MINUTE_CAPACITY
    &&& t.minute.len() > 0 ==> t.raw.len() == raw_cap
    &&& t.coarse.len() > 0 ==> t.minute.len() == MINUTE_CAPACITY
}

proof fn lemma_front_moves(old: Seq<Bucket>, n: int, x: Bucket, older: Seq<Bucket>)
    requires
        0 <= n <= old.len(),
        in_time_order(old.insert(n, x)),
        below(older, old),
    ensures
        below(older, old.insert(n, x).drop_first()),
        in_time_order(old.insert(n, x).drop_first()),
        below(seq![old.insert(n, x)[0]], old.insert(n, x).drop_first()),
{
    let now = old.insert(n, x);
    let rest = now.drop_first();
    assert forall|j: int| 0 <= j < rest.len() implies #[trigger] rest[j] == now[j + 1] by {}
    assert forall|i: int, j: int|
        #![trigger older[i], rest[j]]
        0 <= i < older.len() && 0 <= j < rest.len() implies !rest[j].timestamp.precedes(
        older[i].timestamp,
    ) by {
        if n == 0 {
            assert(rest[j] == old[j]);
        } else {
            assert(now[0] == old[0]);
            assert(!now[j + 1].timestamp.precedes(now[0].timestamp));
        }
    }
}

/// A stretch that is folded in leaves the tier no later than what its parts were no later than.
proof fn lemma_folded_below(tier: Seq<Bucket>, b: Bucket, span: nat, rest: Seq<Bucket>)
    requires
        in_time_order(tier),
        in_range(b.timestamp),
        span > 0,
        below(tier, rest),
        below(seq![b], rest),
    ensures
        in_time_order(folded(tier, b, span).0),
        below(folded(tier, b, span).0, rest),
{
    lemma_folded(tier, b, span);
    lemma_aligned(b.timestamp, span);
    let next = folded(tier, b, span).0;
    assert forall|i: int, j: int|
        #![trigger next[i], rest[j]]
        0 <= i < next.len() && 0 <= j < rest.len() implies !rest[j].timestamp.precedes(
        next[i].timestamp,
    ) by {
        assert(comes_from(tier, b, span, next[i]));
        assert(seq![b][0] == b);
    }
}

proof fn lemma_chained(a: Seq<Bucket>, b: Seq<Bucket>, c: Seq<Bucket>)
    requires
        below(a, b),
        below(b, c),
        b.len() > 0,
    ensures
        below(a, c),
{
    assert forall|i: int, j: int|
        #![trigger a[i], c[j]]
        0 <= i < a.len() && 0 <= j < c.len() implies !c[j].timestamp.precedes(a[i].timestamp) by {
        assert(!b[0].timestamp.precedes(a[i].timestamp));
        assert(!c[j].timestamp.precedes(b[0].timestamp));
    }
}

proof fn lemma_spilled_once(src: Seq<Bucket>, dst: Seq<Bucket>, cap: nat, span: nat)
    requires
        src.len() <= cap + 1,
    ensures
        src.len() <= cap ==> spilled(src, dst, cap, span).0 == src && spilled(
            src,
            dst,
            cap,
            span,
        ).1 == dst,
        src.len() == cap + 1 ==> spilled(src, dst, cap, span).0 == src.drop_first() && spilled(
            src,
            dst,
            cap,
            span,
        ).1 == folded(dst, src[0], span).0,
{
    if src.len() == cap + 1 {
        let next = folded(dst, src[0], span).0;
        assert(spilled(src.drop_first(), next, cap, span).0 == src.drop_first());
        assert(spilled(src.drop_first(), next, cap, span).1 == next);
    }
}

/// Whether a recording gives up neither samples nor minutes for their age.
pub open spec fn keeps_recent(
    t: Tiers,
    b: Bucket,
    raw_cap: nat,
    coarse_span: nat,
    cutoff: Instant,
) -> bool {
    let (raw, minute1, _) = spilled(placed(t.raw, b), t.minute, raw_cap, 60);
    let (minute, _, _) = spilled(minute1, t.coarse, MINUTE_CAPACITY as nat, coarse_span);
    over_by(raw, cutoff) == 0 && over_by(minute, cutoff) == 0
}

/// A history whose tiers are filled one after the other is in time order again when a sample was
/// recorded, whatever the time of the sample: one that comes late, after the clock stepped back, is
/// put where it belongs. The tiers stay filled as long as neither samples nor minutes are given up,
/// in particular as long as nothing is.
pub proof fn law_late_samples_keep_order(
    t: Tiers,
    b: Bucket,
    raw_cap: nat,
    coarse_span: nat,
    cutoff: Instant,
)
    requires
        in_time_order(t.all()),
        filled(t, raw_cap),
        in_range(b.timestamp),
        coarse_span > 0,
    ensures
        ({
            let (after, _, evicted) = recorded(t, b, raw_cap, coarse_span, cutoff);
            &&& in_time_order(after.all())
            &&& keeps_recent(t, b, raw_cap, coarse_span, cutoff) ==> filled(after, raw_cap)
            &&& evicted.len() == 0 ==> keeps_recent(t, b, raw_cap, coarse_span, cutoff)
        }),
{
    lemma_tiers(t);
    let n = up_to(t.raw, b.timestamp) as int;
    lemma_up_to_splits(t.raw, b.timestamp);
    lemma_placed(t.raw, b, n);
    let raw0 = placed(t.raw, b);
    lemma_spilled_once(raw0, t.minute, raw_cap, 60);
    let (raw, minute1, _) = spilled(raw0, t.minute, raw_cap, 60);
    if raw0.len() <= raw_cap {
        assert(t.minute.len() == 0 && t.coarse.len() == 0);
    } else {
        assert(in_range(raw0[0].timestamp));
        lemma_front_moves(t.raw, n, b, t.minute);
        lemma_front_moves(t.raw, n, b, t.coarse);
        lemma_folded_below(t.minute, raw0[0], 60, raw);
        lemma_up_to_splits(t.minute, widened(raw0[0], 60).timestamp);
    }
    assert(in_time_order(raw) && in_time_order(minute1) && below(minute1, raw));
    assert(t.minute.len() <= minute1.len() <= t.minute.len() + 1);
    let cap = MINUTE_CAPACITY as nat;
    lemma_spilled_once(minute1, t.coarse, cap, coarse_span);
    let (minute, coarse1, _) = spilled(minute1, t.coarse, cap, coarse_span);
    if minute1.len() <= cap {
        if t.coarse.len() > 0 {
            assert(minute1.len() == t.minute.len());
            assert forall|i: int, j: int|
                #![trigger t.coarse[i], minute1[j]]
                0 <= i < t.coarse.len() && 0 <= j < minute1.len() implies !minute1[j].timestamp.precedes(
                t.coarse[i].timestamp,
            ) by {
                assert(minute1[j].timestamp == t.minute[j].timestamp);
            }
            lemma_chained(t.coarse, minute1, raw);
        }
    } else {
        let w = widened(raw0[0], 60);
        let k = up_to(t.minute, w.timestamp) as int;
        assert(minute1 == t.minute.insert(k, w));
        assert(in_range(minute1[0].timestamp));
        lemma_front_moves(t.minute, k, w, t.coarse);
        lemma_folded_below(t.coarse, minute1[0], coarse_span, minute);
        assert(below(minute, raw)) by {
            assert(forall|j: int| 0 <= j < minute.len() ==> #[trigger] minute[j] == minute1[j + 1]);
        }
        lemma_chained(coarse1, minute, raw);
    }
    let full = Tiers { raw, minute, coarse: coarse1 };
    assert(tiers_in_order(full));
    lemma_given_up(full, cutoff, t, b, raw_cap, coarse_span);
}

/// Giving up history for its age or its number keeps it in order.
proof fn lemma_given_up(
    full: Tiers,
    cutoff: Instant,
    t: Tiers,
    b: Bucket,
    raw_cap: nat,
    coarse_span: nat,
)
    requires
        ({
            let (raw, minute1, _) = spilled(placed(t.raw, b), t.minute, raw_cap, 60);
            let (minute, coarse1, _) = spilled(
                minute1,
                t.coarse,
                MINUTE_CAPACITY as nat,
                coarse_span,
            );
            full.raw == raw && full.minute == minute && full.coarse == coarse1
        }),
    ensures
        ({
            let (after, _, evicted) = recorded(t, b, raw_cap, coarse_span, cutoff);
            &&& tiers_in_order(full) ==> in_time_order(after.all())
            &&& over_by(full.raw, cutoff) == 0 ==> after.raw == full.raw
            &&& over_by(full.minute, cutoff) == 0 ==> after.minute == full.minute
            &&& after.coarse.len() <= full.coarse.len()
            &&& evicted.len() == 0 ==> over_by(full.raw, cutoff) == 0 && over_by(
                full.minute,
                cutoff,
            ) == 0
            &&& exists|c: int, m: int, r: int|
                #![trigger full.coarse.skip(c), full.minute.skip(m), full.raw.skip(r)]
                {
                    &&& 0 <= c <= full.coarse.len() && after.coarse == full.coarse.skip(c)
                    &&& 0 <= m <= full.minute.len() && after.minute == full.minute.skip(m)
                    &&& 0 <= r <= full.raw.len() && after.raw == full.raw.skip(r)
                }
        }),
{
    let (after, _, evicted) = recorded(t, b, raw_cap, coarse_span, cutoff);
    lemma_over_by(full.coarse, cutoff);
    lemma_over_by(full.minute, cutoff);
    lemma_over_by(full.raw, cutoff);
    let nc = over_by(full.coarse, cutoff) as int;
    let nm = over_by(full.minute, cutoff) as int;
    let nr = over_by(full.raw, cutoff) as int;
    let coarse2 = full.coarse.skip(nc);
    let extra: int = if coarse2.len() > COARSE_CAPACITY_MAX {
        coarse2.len() - COARSE_CAPACITY_MAX
    } else {
        0
    };
    assert(coarse2.skip(extra) =~= full.coarse.skip(nc + extra));
    assert(full.raw.skip(0) =~= full.raw);
    assert(full.minute.skip(0) =~= full.minute);
    assert(after.coarse == full.coarse.skip(nc + extra));
    assert(after.minute == full.minute.skip(nm));
    assert(after.raw == full.raw.skip(nr));
    if tiers_in_order(full) {
        lemma_fronts_gone(full, nc + extra, nm, nr);
        lemma_tiers(after);
    }
}

// ---------------------------------------------------------------------------
// A clock that does not step back
// ---------------------------------------------------------------------------

/// Whether a stretch begins no later than the minute of every reading that it may hold or that
/// comes after it: the newest of its own, and the samples `raw`.
spec fn anchored(s: Seq<Bucket>, raw: Seq<Bucket>) -> bool {
    &&& forall|i: int|
        0 <= i < s.len() ==> !aligned((#[trigger] s[i]).last_observed, 60).precedes(s[i].timestamp)
    &&& forall|i: int, j: int|
        #![trigger s[i], raw[j]]
        0 <= i < s.len() && 0 <= j < raw.len() ==> !aligned(raw[j].timestamp, 60).precedes(
            s[i].timestamp,
        )
}

/// Whether a history is in time order and will stay so while samples come in time order.
pub closed spec fn settled(t: Tiers) -> bool {
    &&& tiers_in_order(t)
    &&& forall|i: int| 0 <= i < t.raw.len() ==> (#[trigger] t.raw[i]).last_observed == t.raw[i].timestamp
    &&& anchored(t.minute, t.raw)
    &&& anchored(t.coarse, t.raw)
}

/// Whether every reading of `s` was taken at `now` or before.
pub open spec fn all_seen_by(s: Seq<Bucket>, now: Instant) -> bool {
    forall|i: int| 0 <= i < s.len() ==> !now.precedes((#[trigger] s[i]).last_observed)
}

/// No history is settled.
pub proof fn law_no_history_is_settled()
    ensures
        settled(Tiers::none()),
{
}

/// A settled history is in time order.
pub proof fn law_settled_is_in_order(t: Tiers)
    requires
        settled(t),
    ensures
        in_time_order(t.all()),
{
    lemma_tiers(t);
}

/// While the clock does not step back, a history stays in time order when a sample is recorded,
/// whatever is given up on the way.
pub proof fn law_steady_clock_keeps_order(
    t: Tiers,
    b: Bucket,
    raw_cap: nat,
    coarse_span: nat,
    cutoff: Instant,
)
    requires
        settled(t),
        in_range(b.timestamp),
        b.last_observed == b.timestamp,
        all_seen_by(t.all(), b.timestamp),
        coarse_span > 0,
    ensures
        ({
            let after = recorded(t, b, raw_cap, coarse_span, cutoff).0;
            &&& settled(after)
            &&& all_seen_by(after.all(), b.timestamp)
            &&& in_time_order(after.all())
        }),
{
    lemma_seen_tiers(t, b.timestamp);
    let raw0 = placed(t.raw, b);
    lemma_newest_goes_last(t.raw, b);
    lemma_still_anchored(t.minute, t.raw, b);
    lemma_still_anchored(t.coarse, t.raw, b);
    lemma_spill_raw(raw0, t.minute, t.coarse, raw_cap, b.timestamp);
    let (raw, minute1, _) = spilled(raw0, t.minute, raw_cap, 60);
    lemma_spill_minute(raw, minute1, t.coarse, coarse_span, b.timestamp);
    let (minute, coarse1, _) = spilled(minute1, t.coarse, MINUTE_CAPACITY as nat, coarse_span);
    let full = Tiers { raw, minute, coarse: coarse1 };
    lemma_given_up(full, cutoff, t, b, raw_cap, coarse_span);
    let after = recorded(t, b, raw_cap, coarse_span, cutoff).0;
    let (c, m, r) = choose|c: int, m: int, r: int|
        #![trigger full.coarse.skip(c), full.minute.skip(m), full.raw.skip(r)]
        {
            &&& 0 <= c <= full.coarse.len() && after.coarse == full.coarse.skip(c)
            &&& 0 <= m <= full.minute.len() && after.minute == full.minute.skip(m)
            &&& 0 <= r <= full.raw.len() && after.raw == full.raw.skip(r)
        };
    lemma_settled_fronts_gone(full, c, m, r, b.timestamp);
    lemma_tiers(after);
}

/// Giving up the oldest stretch of a settled history leaves it settled.
pub proof fn law_giving_up_keeps_order(t: Tiers, now: Instant)
    requires
        settled(t),
        all_seen_by(t.all(), now),
    ensures
        settled(popped(t)),
        all_seen_by(popped(t).all(), now),
{
    let c: int = if t.coarse.len() > 0 {
        1
    } else {
        0
    };
    let m: int = if c == 0 && t.minute.len() > 0 {
        1
    } else {
        0
    };
    let r: int = if c == 0 && m == 0 && t.raw.len() > 0 {
        1
    } else {
        0
    };
    lemma_seen_tiers(t, now);
    lemma_settled_fronts_gone(t, c, m, r, now);
    let left = Tiers { raw: t.raw.skip(r), minute: t.minute.skip(m), coarse: t.coarse.skip(c) };
    assert(popped(t) =~= left) by {
        assert(popped(t).raw =~= left.raw);
        assert(popped(t).minute =~= left.minute);
        assert(popped(t).coarse =~= left.coarse);
    }
}

proof fn lemma_seen_tiers(t: Tiers, now: Instant)
    ensures
        all_seen_by(t.all(), now) <==> all_seen_by(t.coarse, now) && all_seen_by(t.minute, now)
            && all_seen_by(t.raw, now),
{
    let all = t.all();
    let c = t.coarse.len() as int;
    let m = t.minute.len() as int;
    assert(forall|i: int| 0 <= i < c ==> #[trigger] t.coarse[i] == all[i]);
    assert(forall|i: int| 0 <= i < m ==> #[trigger] t.minute[i] == all[c + i]);
    assert(forall|i: int| 0 <= i < t.raw.len() ==> #[trigger] t.raw[i] == all[c + m + i]);
    assert forall|i: int| 0 <= i < all.len() implies (#[trigger] all[i]) == (if i < c {
        t.coarse[i]
    } else if i < c + m {
        t.minute[i - c]
    } else {
        t.raw[i - c - m]
    }) by {}
}

proof fn lemma_settled_fronts_gone(t: Tiers, c: int, m: int, r: int, now: Instant)
    requires
        settled(t),
        0 <= c <= t.coarse.len(),
        0 <= m <= t.minute.len(),
        0 <= r <= t.raw.len(),
        all_seen_by(t.coarse, now),
        all_seen_by(t.minute, now),
        all_seen_by(t.raw, now),
    ensures
        ({
            let left = Tiers {
                raw: t.raw.skip(r),
                minute: t.minute.skip(m),
                coarse: t.coarse.skip(c),
            };
            settled(left) && all_seen_by(left.all(), now)
        }),
{
    let left = Tiers { raw: t.raw.skip(r), minute: t.minute.skip(m), coarse: t.coarse.skip(c) };
    lemma_fronts_gone(t, c, m, r);
    assert(forall|i: int| 0 <= i < left.coarse.len() ==> #[trigger] left.coarse[i] == t.coarse[i + c]);
    assert(forall|i: int| 0 <= i < left.minute.len() ==> #[trigger] left.minute[i] == t.minute[i + m]);
    assert(forall|i: int| 0 <= i < left.raw.len() ==> #[trigger] left.raw[i] == t.raw[i + r]);
    lemma_seen_tiers(left, now);
}

proof fn lemma_newest_goes_last(raw: Seq<Bucket>, b: Bucket)
    requires
        in_time_order(raw),
        in_range(b.timestamp),
        forall|i: int|
            0 <= i < raw.len() ==> (#[trigger] raw[i]).last_observed == raw[i].timestamp,
        all_seen_by(raw, b.timestamp),
    ensures
        placed(raw, b) == raw.push(b),
        in_time_order(raw.push(b)),
{
    if raw.len() > 0 {
        assert(raw.last() == raw[raw.len() - 1]);
    }
    assert(up_to(raw, b.timestamp) == raw.len());
    assert(raw.insert(raw.len() as int, b) =~= raw.push(b));
    lemma_placed(raw, b, raw.len() as int);
}

proof fn lemma_still_anchored(s: Seq<Bucket>, raw: Seq<Bucket>, b: Bucket)
    requires
        anchored(s, raw),
        in_range(b.timestamp),
        below(s, raw),
        all_seen_by(s, b.timestamp),
    ensures
        anchored(s, raw.push(b)),
        below(s, raw.push(b)),
{
    lemma_aligned(b.timestamp, 60);
    assert forall|i: int| 0 <= i < s.len() implies !aligned(b.timestamp, 60).precedes(
        (#[trigger] s[i]).timestamp,
    ) by {
        lemma_aligned_grows(s[i].last_observed, b.timestamp, 60);
    }
    let now = raw.push(b);
    assert forall|i: int, j: int|
        #![trigger s[i], now[j]]
        0 <= i < s.len() && 0 <= j < now.len() implies !aligned(now[j].timestamp, 60).precedes(
        s[i].timestamp,
    ) && !now[j].timestamp.precedes(s[i].timestamp) by {
        if j < raw.len() {
            assert(now[j] == raw[j]);
        }
    }
}

proof fn lemma_spill_raw(
    src: Seq<Bucket>,
    dst: Seq<Bucket>,
    coarse: Seq<Bucket>,
    cap: nat,
    now: Instant,
)
    requires
        settled(Tiers { raw: src, minute: dst, coarse }),
        all_seen_by(src, now),
        all_seen_by(dst, now),
        all_seen_by(coarse, now),
    ensures
        ({
            let (s, d, _) = spilled(src, dst, cap, 60);
            &&& settled(Tiers { raw: s, minute: d, coarse })
            &&& all_seen_by(s, now)
            &&& all_seen_by(d, now)
        }),
    decreases src.len(),
{
    if src.len() > cap {
        let b = src[0];
        let rest = src.drop_first();
        let next = folded(dst, b, 60).0;
        assert(in_range(b.timestamp));
        lemma_folded(dst, b, 60);
        lemma_aligned(b.timestamp, 60);
        assert(forall|j: int| 0 <= j < rest.len() ==> #[trigger] rest[j] == src[j + 1]);
        assert forall|j: int| 0 <= j < rest.len() implies !aligned(
            (#[trigger] rest[j]).timestamp,
            60,
        ).precedes(aligned(b.timestamp, 60)) by {
            lemma_aligned_grows(b.timestamp, rest[j].timestamp, 60);
        }
        assert forall|i: int| 0 <= i < next.len() implies !aligned(
            (#[trigger] next[i]).last_observed,
            60,
        ).precedes(next[i].timestamp) by {
            assert(comes_from(dst, b, 60, next[i]));
            if !(next[i].timestamp == aligned(b.timestamp, 60) && next[i].last_observed
                == b.last_observed) {
                let k = choose|k: int|
                    0 <= k < dst.len() && (#[trigger] dst[k]).timestamp == next[i].timestamp
                        && !next[i].last_observed.precedes(dst[k].last_observed);
                lemma_aligned_grows(dst[k].last_observed, next[i].last_observed, 60);
            }
        }
        assert forall|i: int, j: int|
            #![trigger next[i], rest[j]]
            0 <= i < next.len() && 0 <= j < rest.len() implies !aligned(
            rest[j].timestamp,
            60,
        ).precedes(next[i].timestamp) && !rest[j].timestamp.precedes(next[i].timestamp) by {
            assert(comes_from(dst, b, 60, next[i]));
        }
        assert forall|i: int, j: int|
            #![trigger coarse[i], next[j]]
            0 <= i < coarse.len() && 0 <= j < next.len() implies !next[j].timestamp.precedes(
            coarse[i].timestamp,
        ) by {
            assert(comes_from(dst, b, 60, next[j]));
            assert(!aligned(src[0].timestamp, 60).precedes(coarse[i].timestamp));
        }
        lemma_folded_seen(dst, b, 60, now);
        assert(in_time_order(rest));
        lemma_spill_raw(rest, next, coarse, cap, now);
    }
}

proof fn lemma_folded_seen(tier: Seq<Bucket>, b: Bucket, span: nat, now: Instant)
    requires
        all_seen_by(tier, now),
        !now.precedes(b.last_observed),
    ensures
        all_seen_by(folded(tier, b, span).0, now),
{
    let w = widened(b, span);
    let n = up_to(tier, w.timestamp) as int;
    lemma_up_to_splits(tier, w.timestamp);
    let next = folded(tier, b, span).0;
    assert forall|i: int| 0 <= i < next.len() implies !now.precedes(
        (#[trigger] next[i]).last_observed,
    ) by {
        if n > 0 && tier[n - 1].timestamp == w.timestamp {
            assert(!now.precedes(tier[i].last_observed));
        } else if i < n {
            assert(next[i] == tier[i]);
        } else if i > n {
            assert(next[i] == tier[i - 1]);
        }
    }
}

proof fn lemma_spill_minute(
    raw: Seq<Bucket>,
    src: Seq<Bucket>,
    dst: Seq<Bucket>,
    span: nat,
    now: Instant,
)
    requires
        settled(Tiers { raw, minute: src, coarse: dst }),
        all_seen_by(src, now),
        all_seen_by(dst, now),
        span > 0,
    ensures
        ({
            let (s, d, _) = spilled(src, dst, MINUTE_CAPACITY as nat, span);
            &&& settled(Tiers { raw, minute: s, coarse: d })
            &&& all_seen_by(s, now)
            &&& all_seen_by(d, now)
        }),
    decreases src.len(),
{
    if src.len() > MINUTE_CAPACITY {
        let b = src[0];
        let rest = src.drop_first();
        let next = folded(dst, b, span).0;
        assert(in_range(b.timestamp));
        lemma_folded(dst, b, span);
        lemma_aligned(b.timestamp, span);
        assert(forall|j: int| 0 <= j < rest.len() ==> #[trigger] rest[j] == src[j + 1]);
        assert forall|i: int| 0 <= i < next.len() implies !aligned(
            (#[trigger] next[i]).last_observed,
            60,
        ).precedes(next[i].timestamp) by {
            assert(comes_from(dst, b, span, next[i]));
            if !(next[i].timestamp == aligned(b.timestamp, span) && next[i].last_observed
                == b.last_observed) {
                let k = choose|k: int|
                    0 <= k < dst.len() && (#[trigger] dst[k]).timestamp == next[i].timestamp
                        && !next[i].last_observed.precedes(dst[k].last_observed);
                lemma_aligned_grows(dst[k].last_observed, next[i].last_observed, 60);
            } else {
                assert(!aligned(src[0].last_observed, 60).precedes(src[0].timestamp));
            }
        }
        assert forall|i: int, j: int|
            #![trigger next[i], raw[j]]
            0 <= i < next.len() && 0 <= j < raw.len() implies !aligned(
            raw[j].timestamp,
            60,
        ).precedes(next[i].timestamp) && !raw[j].timestamp.precedes(next[i].timestamp) by {
            assert(comes_from(dst, b, span, next[i]));
            assert(!raw[j].timestamp.precedes(src[0].timestamp));
            assert(!aligned(raw[j].timestamp, 60).precedes(src[0].timestamp));
        }
        assert forall|i: int, j: int|
            #![trigger next[i], rest[j]]
            0 <= i < next.len() && 0 <= j < rest.len() implies !rest[j].timestamp.precedes(
            next[i].timestamp,
        ) by {
            assert(comes_from(dst, b, span, next[i]));
            assert(!src[j + 1].timestamp.precedes(src[0].timestamp));
        }
        lemma_folded_seen(dst, b, span, now);
        assert(in_time_order(rest));
        lemma_spill_minute(raw, rest, next, span, now);
    }
}

} // verus!
