//! What recording a sample keeps.

use vstd::prelude::*;

use crate::logs::instant::Instant;
use crate::metrics::bucket::{folded, least, merged, placed, up_to, widened, Bucket};
use crate::metrics::budget::{count_of, total, trimmed, within};
use crate::metrics::store::{
    histories, lemma_over_by, observations, over_by, popped, recorded, spilled, MetricsStore, Tiers,
    COARSE_CAPACITY_MAX, MINUTE_CAPACITY,
};
use crate::names::{ascending, in_order, lemma_in_order_exists, lemma_precedes_total, precedes};

verus! {

/// The largest resident size that stretches tell of.
pub open spec fn peak(s: Seq<Bucket>) -> u64
    decreases s.len(),
{
    if s.len() == 0 {
        0
    } else if s.last().rss_max > peak(s.drop_last()) {
        s.last().rss_max
    } else {
        peak(s.drop_last())
    }
}

/// The smallest resident size that stretches tell of.
pub open spec fn trough(s: Seq<Bucket>) -> u64
    decreases s.len(),
{
    if s.len() == 0 {
        u64::MAX
    } else {
        least(trough(s.drop_last()), s.last().rss_min)
    }
}

/// The larger of two sizes.
pub open spec fn larger(a: u64, b: u64) -> u64 {
    if a > b {
        a
    } else {
        b
    }
}

pub proof fn lemma_sum(a: Seq<Bucket>, b: Seq<Bucket>)
    ensures
        observations(a + b) == observations(a) + observations(b),
        peak(a + b) == larger(peak(a), peak(b)),
        trough(a + b) == least(trough(a), trough(b)),
    decreases b.len(),
{
    if b.len() == 0 {
        assert(a + b =~= a);
    } else {
        assert((a + b).drop_last() =~= a + b.drop_last());
        lemma_sum(a, b.drop_last());
    }
}

pub proof fn lemma_one(b: Bucket)
    ensures
        observations(seq![b]) == b.count,
        peak(seq![b]) == b.rss_max,
        trough(seq![b]) == b.rss_min,
{
    let s = seq![b];
    assert(s.drop_last() =~= Seq::<Bucket>::empty());
    assert(observations(s.drop_last()) == 0);
    assert(peak(s.drop_last()) == 0);
    assert(trough(s.drop_last()) == u64::MAX);
}

proof fn lemma_insert(s: Seq<Bucket>, i: int, b: Bucket)
    requires
        0 <= i <= s.len(),
    ensures
        observations(s.insert(i, b)) == observations(s) + b.count,
        peak(s.insert(i, b)) == larger(peak(s), b.rss_max),
        trough(s.insert(i, b)) == least(trough(s), b.rss_min),
{
    let x = s.take(i);
    let y = s.skip(i);
    assert(s =~= x + y);
    assert(s.insert(i, b) =~= x + seq![b] + y);
    lemma_sum(x, y);
    lemma_one(b);
    lemma_sum(x, seq![b]);
    lemma_sum(x + seq![b], y);
}

proof fn lemma_split(s: Seq<Bucket>, n: int)
    requires
        0 <= n <= s.len(),
    ensures
        observations(s) == observations(s.take(n)) + observations(s.skip(n)),
        peak(s) == larger(peak(s.take(n)), peak(s.skip(n))),
        trough(s) == least(trough(s.take(n)), trough(s.skip(n))),
{
    assert(s =~= s.take(n) + s.skip(n));
    lemma_sum(s.take(n), s.skip(n));
}

proof fn lemma_up_to_bound(s: Seq<Bucket>, t: Instant)
    ensures
        up_to(s, t) <= s.len(),
    decreases s.len(),
{
    if s.len() > 0 {
        lemma_up_to_bound(s.drop_last(), t);
    }
}

proof fn lemma_folded(tier: Seq<Bucket>, b: Bucket, span: nat)
    requires
        observations(tier) + b.count <= u32::MAX,
    ensures
        observations(folded(tier, b, span).0) == observations(tier) + b.count,
        peak(folded(tier, b, span).0) == larger(peak(tier), b.rss_max),
        trough(folded(tier, b, span).0) == least(trough(tier), b.rss_min),
{
    let w = widened(b, span);
    let n = up_to(tier, w.timestamp) as int;
    lemma_up_to_bound(tier, w.timestamp);
    if n > 0 && tier[n - 1].timestamp == w.timestamp {
        let t = tier[n - 1];
        let rest = tier.remove(n - 1);
        assert(tier =~= rest.insert(n - 1, t));
        lemma_insert(rest, n - 1, t);
        lemma_insert(rest, n - 1, merged(t, w));
        assert(tier.update(n - 1, merged(t, w)) =~= rest.insert(n - 1, merged(t, w)));
    } else {
        lemma_insert(tier, n, w);
    }
}

proof fn lemma_spilled(src: Seq<Bucket>, dst: Seq<Bucket>, cap: nat, span: nat)
    requires
        observations(src) + observations(dst) <= u32::MAX,
    ensures
        ({
            let (s, d, _) = spilled(src, dst, cap, span);
            &&& observations(s) + observations(d) == observations(src) + observations(dst)
            &&& larger(peak(s), peak(d)) == larger(peak(src), peak(dst))
            &&& least(trough(s), trough(d)) == least(trough(src), trough(dst))
        }),
    decreases src.len(),
{
    if src.len() > cap {
        let rest = src.drop_first();
        assert(src =~= seq![src[0]] + rest);
        lemma_one(src[0]);
        lemma_sum(seq![src[0]], rest);
        lemma_folded(dst, src[0], span);
        lemma_spilled(rest, folded(dst, src[0], span).0, cap, span);
    }
}

/// Recording a sample loses nothing without saying so: every observation is either still in the
/// history or among the stretches that were given up, and so are the largest and the smallest size
/// seen. The number of observations must be one that can be counted.
pub proof fn law_recording_loses_nothing(
    t: Tiers,
    b: Bucket,
    raw_cap: nat,
    coarse_span: nat,
    cutoff: Instant,
)
    requires
        observations(t.all()) + b.count <= u32::MAX,
    ensures
        ({
            let (after, _, evicted) = recorded(t, b, raw_cap, coarse_span, cutoff);
            &&& observations(after.all()) + observations(evicted) == observations(t.all()) + b.count
            &&& larger(peak(after.all()), peak(evicted)) == larger(peak(t.all()), b.rss_max)
            &&& least(trough(after.all()), trough(evicted)) == least(trough(t.all()), b.rss_min)
        }),
{
    lemma_sum(t.coarse, t.minute);
    lemma_sum(t.coarse + t.minute, t.raw);
    lemma_up_to_bound(t.raw, b.timestamp);
    lemma_insert(t.raw, up_to(t.raw, b.timestamp) as int, b);
    let raw0 = placed(t.raw, b);
    lemma_spilled(raw0, t.minute, raw_cap, 60);
    let (raw, minute1, _) = spilled(raw0, t.minute, raw_cap, 60);
    lemma_spilled(minute1, t.coarse, MINUTE_CAPACITY as nat, coarse_span);
    let (minute, coarse1, _) = spilled(minute1, t.coarse, MINUTE_CAPACITY as nat, coarse_span);
    let nc = over_by(coarse1, cutoff) as int;
    let nm = over_by(minute, cutoff) as int;
    let nr = over_by(raw, cutoff) as int;
    lemma_over_by(coarse1, cutoff);
    lemma_over_by(minute, cutoff);
    lemma_over_by(raw, cutoff);
    lemma_split(coarse1, nc);
    lemma_split(minute, nm);
    lemma_split(raw, nr);
    let coarse2 = coarse1.skip(nc);
    let extra: int = if coarse2.len() > COARSE_CAPACITY_MAX {
        coarse2.len() - COARSE_CAPACITY_MAX
    } else {
        0
    };
    lemma_split(coarse2, extra);
    lemma_sum(coarse2.skip(extra), minute.skip(nm));
    lemma_sum(coarse2.skip(extra) + minute.skip(nm), raw.skip(nr));
    lemma_sum(coarse1.take(nc), minute.take(nm));
    lemma_sum(coarse1.take(nc) + minute.take(nm), raw.take(nr));
    lemma_sum(coarse1.take(nc) + minute.take(nm) + raw.take(nr), coarse2.take(extra));
}

/// A unit's history costs the same however long the unit has run: it never has more than a fixed
/// number of stretches.
pub proof fn law_history_is_bounded(store: MetricsStore, unit: Seq<char>)
    requires
        store.sound(),
        histories(store.units).contains_key(unit),
    ensures
        histories(store.units)[unit].all().len() <= 276,
{
}

proof fn lemma_count_insert(
    m: Map<Seq<char>, Tiers>,
    units: Seq<Seq<char>>,
    n: int,
    i: int,
    t: Tiers,
)
    requires
        ascending(units),
        0 <= i < units.len(),
        0 <= n <= units.len(),
    ensures
        count_of(m.insert(units[i], t), units, n) - count_of(m, units, n) == (if i < n {
            t.all().len() - m[units[i]].all().len()
        } else {
            0
        }),
    decreases n,
{
    if n > 0 {
        lemma_count_insert(m, units, n - 1, i, t);
        if n - 1 != i {
            lemma_precedes_total(units[i], units[i]);
            if n - 1 < i {
                assert(precedes(units[n - 1], units[i]));
            } else {
                assert(precedes(units[i], units[n - 1]));
            }
        }
    }
}

proof fn lemma_count_empty(m: Map<Seq<char>, Tiers>, units: Seq<Seq<char>>, n: int)
    requires
        0 <= n <= units.len(),
        forall|j: int| 0 <= j < n ==> m[#[trigger] units[j]].all().len() == 0,
    ensures
        count_of(m, units, n) == 0,
    decreases n,
{
    if n > 0 {
        lemma_count_empty(m, units, n - 1);
    }
}

proof fn lemma_trimmed(
    m: Map<Seq<char>, Tiers>,
    units: Seq<Seq<char>>,
    room: nat,
    count: nat,
    i: nat,
    any: bool,
)
    requires
        ascending(units),
        forall|j: int| 0 <= j < units.len() ==> m.contains_key(#[trigger] units[j]),
        i <= units.len(),
        count == count_of(m, units, units.len() as int),
        !any ==> forall|j: int| 0 <= j < i ==> m[#[trigger] units[j]].all().len() == 0,
    ensures
        ({
            let after = trimmed(m, units, room, count, i, any).0;
            &&& count_of(after, units, units.len() as int) <= room
            &&& after.dom() =~= m.dom()
        }),
    decreases
            count,
            if any {
                1int
            } else {
                0
            },
            units.len() - i,
{
    if count <= room {
    } else if i >= units.len() {
        if any {
            lemma_trimmed(m, units, room, count, 0, false);
        } else {
            lemma_count_empty(m, units, units.len() as int);
        }
    } else {
        let u = units[i as int];
        if m[u].all().len() > 0 {
            let t = popped(m[u]);
            assert(t.all().len() == m[u].all().len() - 1);
            lemma_count_insert(m, units, units.len() as int, i as int, t);
            let next = m.insert(u, t);
            assert(next.dom() =~= m.dom());
            lemma_trimmed(next, units, room, (count - 1) as nat, i + 1, true);
        } else {
            lemma_trimmed(m, units, room, count, i + 1, any);
        }
    }
}

/// However many units there are, once a sample is recorded their history takes no more memory than
/// was granted.
pub proof fn law_memory_is_bounded(m: Map<Seq<char>, Tiers>, room: nat)
    requires
        m.dom().finite(),
    ensures
        total(within(m, room).0) <= room,
        within(m, room).0.dom() == m.dom(),
{
    let units = in_order(m.dom());
    lemma_in_order_exists(m.dom());
    assert forall|j: int| 0 <= j < units.len() implies m.contains_key(#[trigger] units[j]) by {
        assert(units.contains(units[j]));
    }
    lemma_trimmed(m, units, room, total(m), 0, false);
}

} // verus!
