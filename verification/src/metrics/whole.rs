//! What becomes of everything that was ever recorded, of all units together.

use vstd::prelude::*;

use crate::logs::instant::Instant;
use crate::metrics::bucket::{in_range, in_time_order, least, Bucket};
use crate::metrics::budget::{total, trimmed, within};
use crate::metrics::laws::{
    larger, law_memory_is_bounded, law_recording_loses_nothing, lemma_one, lemma_sum, peak, trough,
};
use crate::metrics::order::{
    all_seen_by, filled, law_giving_up_keeps_order, law_late_samples_keep_order,
    law_no_history_is_settled, law_settled_is_in_order, law_steady_clock_keeps_order, settled,
};
use crate::metrics::store::{
    cutoff_of, history, observations, popped, recorded, MetricsStore, Tiers,
};
use crate::names::{in_order, lemma_in_order_exists};

verus! {

/// How history is kept.
pub struct Keeping {
    /// How many samples are kept as they are.
    pub raw_cap: nat,
    /// How many seconds the oldest history is put together in.
    pub coarse_span: nat,
    /// How long history is kept.
    pub retention: u64,
    /// How many stretches there is room for.
    pub room: nat,
}

/// How a store keeps history.
pub open spec fn keeping_of(store: MetricsStore) -> Keeping {
    Keeping {
        raw_cap: store.settings.raw_limit(),
        coarse_span: store.settings.widest_span(),
        retention: store.settings.retention,
        room: store.room(),
    }
}

/// Stretches of one unit.
pub open spec fn owned(unit: Seq<char>, s: Seq<Bucket>) -> Seq<(Seq<char>, Bucket)> {
    s.map_values(|b: Bucket| (unit, b))
}

/// The stretches of one unit among those of all, in order.
pub open spec fn of_unit(s: Seq<(Seq<char>, Bucket)>, unit: Seq<char>) -> Seq<Bucket>
    decreases s.len(),
{
    if s.len() == 0 {
        seq![]
    } else if s.last().0 == unit {
        of_unit(s.drop_last(), unit).push(s.last().1)
    } else {
        of_unit(s.drop_last(), unit)
    }
}

/// The history of all units once a sample of one was recorded, and what was given up for it.
pub open spec fn noted(
    m: Map<Seq<char>, Tiers>,
    unit: Seq<char>,
    b: Bucket,
    k: Keeping,
) -> (Map<Seq<char>, Tiers>, Seq<(Seq<char>, Bucket)>) {
    let (after, _, evicted) = recorded(
        history(m, unit),
        b,
        k.raw_cap,
        k.coarse_span,
        cutoff_of(b.timestamp, k.retention),
    );
    let (left, gone) = within(m.insert(unit, after), k.room);
    (left, owned(unit, evicted) + gone)
}

/// The history of all units once samples were recorded one after the other, and everything that
/// was given up.
pub open spec fn noted_all(samples: Seq<(Seq<char>, Bucket)>, k: Keeping) -> (
    Map<Seq<char>, Tiers>,
    Seq<(Seq<char>, Bucket)>,
)
    decreases samples.len(),
{
    if samples.len() == 0 {
        (Map::empty(), seq![])
    } else {
        let (m, gone) = noted_all(samples.drop_last(), k);
        let (after, more) = noted(m, samples.last().0, samples.last().1, k);
        (after, gone + more)
    }
}

pub proof fn lemma_of_unit_sum(a: Seq<(Seq<char>, Bucket)>, b: Seq<(Seq<char>, Bucket)>, unit: Seq<char>)
    ensures
        of_unit(a + b, unit) == of_unit(a, unit) + of_unit(b, unit),
    decreases b.len(),
{
    if b.len() == 0 {
        assert(a + b =~= a);
        assert(of_unit(a, unit) + of_unit(b, unit) =~= of_unit(a, unit));
    } else {
        assert((a + b).drop_last() =~= a + b.drop_last());
        lemma_of_unit_sum(a, b.drop_last(), unit);
        assert(of_unit(a + b, unit) =~= of_unit(a, unit) + of_unit(b, unit));
    }
}

pub proof fn lemma_owned(owner: Seq<char>, s: Seq<Bucket>, unit: Seq<char>)
    ensures
        of_unit(owned(owner, s), unit) == (if owner == unit {
            s
        } else {
            Seq::<Bucket>::empty()
        }),
    decreases s.len(),
{
    if s.len() > 0 {
        assert(owned(owner, s).drop_last() =~= owned(owner, s.drop_last()));
        lemma_owned(owner, s.drop_last(), unit);
        assert(s =~= s.drop_last().push(s.last()));
    } else {
        assert(owned(owner, s).len() == 0);
        assert(s =~= Seq::<Bucket>::empty());
    }
}

/// What a unit gives up for the memory is the front of its history.
proof fn lemma_trimmed_accounts(
    m: Map<Seq<char>, Tiers>,
    units: Seq<Seq<char>>,
    room: nat,
    count: nat,
    i: nat,
    any: bool,
    unit: Seq<char>,
)
    requires
        forall|j: int| 0 <= j < units.len() ==> m.contains_key(#[trigger] units[j]),
    ensures
        ({
            let (after, gone) = trimmed(m, units, room, count, i, any);
            &&& history(m, unit).all() == of_unit(gone, unit) + history(after, unit).all()
            &&& of_unit(gone, unit).len() == 0 ==> history(after, unit) == history(m, unit)
            &&& forall|t: Instant|
                settled(history(m, unit)) && #[trigger] all_seen_by(history(m, unit).all(), t)
                    ==> settled(history(after, unit)) && all_seen_by(
                    history(after, unit).all(),
                    t,
                )
        }),
    decreases
            count,
            if any {
                1int
            } else {
                0
            },
            units.len() - i,
{
    let (after, gone) = trimmed(m, units, room, count, i, any);
    if count <= room {
        assert(of_unit(gone, unit) + history(m, unit).all() =~= history(m, unit).all());
    } else if i >= units.len() {
        if any {
            lemma_trimmed_accounts(m, units, room, count, 0, false, unit);
        } else {
            assert(of_unit(gone, unit) + history(m, unit).all() =~= history(m, unit).all());
        }
    } else {
        let u = units[i as int];
        if m[u].all().len() > 0 {
            let next = m.insert(u, popped(m[u]));
            let first = m[u].all()[0];
            lemma_trimmed_accounts(next, units, room, (count - 1) as nat, i + 1, true, unit);
            let rest = trimmed(next, units, room, (count - 1) as nat, i + 1, true).1;
            assert(gone == seq![(u, first)] + rest);
            lemma_of_unit_sum(seq![(u, first)], rest, unit);
            lemma_owned(u, seq![first], unit);
            assert(owned(u, seq![first]) =~= seq![(u, first)]);
            if u == unit {
                assert(m[u].all() =~= seq![first] + popped(m[u]).all());
                assert(of_unit(gone, unit) + history(after, unit).all() =~= seq![first] + (of_unit(
                    rest,
                    unit,
                ) + history(after, unit).all()));
                assert forall|t: Instant|
                    settled(history(m, unit)) && #[trigger] all_seen_by(
                        history(m, unit).all(),
                        t,
                    ) implies settled(history(after, unit)) && all_seen_by(
                    history(after, unit).all(),
                    t,
                ) by {
                    law_giving_up_keeps_order(m[u], t);
                    assert(all_seen_by(history(next, unit).all(), t));
                }
            } else {
                assert(history(next, unit) == history(m, unit));
                assert(of_unit(gone, unit) =~= of_unit(rest, unit));
            }
        } else {
            lemma_trimmed_accounts(m, units, room, count, i + 1, any, unit);
        }
    }
}

proof fn lemma_within(m: Map<Seq<char>, Tiers>, room: nat, unit: Seq<char>)
    requires
        m.dom().finite(),
    ensures
        ({
            let (after, gone) = within(m, room);
            &&& after.dom() == m.dom()
            &&& history(m, unit).all() == of_unit(gone, unit) + history(after, unit).all()
            &&& of_unit(gone, unit).len() == 0 ==> history(after, unit) == history(m, unit)
            &&& forall|t: Instant|
                settled(history(m, unit)) && #[trigger] all_seen_by(history(m, unit).all(), t)
                    ==> settled(history(after, unit)) && all_seen_by(
                    history(after, unit).all(),
                    t,
                )
        }),
{
    law_memory_is_bounded(m, room);
    let units = in_order(m.dom());
    lemma_in_order_exists(m.dom());
    assert forall|j: int| 0 <= j < units.len() implies m.contains_key(#[trigger] units[j]) by {
        assert(units.contains(units[j]));
    }
    lemma_trimmed_accounts(m, units, room, total(m), 0, false, unit);
}

proof fn lemma_known(samples: Seq<(Seq<char>, Bucket)>, k: Keeping, unit: Seq<char>)
    ensures
        noted_all(samples, k).0.dom().finite(),
        of_unit(samples, unit).len() == 0 ==> !noted_all(samples, k).0.contains_key(unit),
    decreases samples.len(),
{
    if samples.len() > 0 {
        lemma_known(samples.drop_last(), k, unit);
        let m = noted_all(samples.drop_last(), k).0;
        let (owner, b) = samples.last();
        let after = recorded(
            history(m, owner),
            b,
            k.raw_cap,
            k.coarse_span,
            cutoff_of(b.timestamp, k.retention),
        ).0;
        law_memory_is_bounded(m.insert(owner, after), k.room);
        assert(noted_all(samples, k).0.dom() == m.dom().insert(owner));
    }
}

/// Nothing that was ever recorded of a unit is lost without saying so, however many samples of
/// however many units came: every observation is either in the unit's history or in what it gave
/// up, and so are the largest and the smallest size ever seen. The number of observations must be
/// one that can be counted.
pub proof fn law_nothing_is_lost(samples: Seq<(Seq<char>, Bucket)>, k: Keeping, unit: Seq<char>)
    requires
        observations(of_unit(samples, unit)) <= u32::MAX,
    ensures
        ({
            let (m, gone) = noted_all(samples, k);
            let kept = history(m, unit).all();
            let given_up = of_unit(gone, unit);
            let seen = of_unit(samples, unit);
            &&& observations(kept) + observations(given_up) == observations(seen)
            &&& larger(peak(kept), peak(given_up)) == peak(seen)
            &&& least(trough(kept), trough(given_up)) == trough(seen)
        }),
    decreases samples.len(),
{
    if samples.len() == 0 {
        assert(Tiers::none().all() =~= Seq::<Bucket>::empty());
    } else {
        let before = samples.drop_last();
        let (m, gone) = noted_all(before, k);
        let (owner, b) = samples.last();
        let cutoff = cutoff_of(b.timestamp, k.retention);
        let (after, _, evicted) = recorded(
            history(m, owner),
            b,
            k.raw_cap,
            k.coarse_span,
            cutoff,
        );
        let next = m.insert(owner, after);
        let (left, trims) = within(next, k.room);
        lemma_known(before, k, unit);
        let past = of_unit(before, unit);
        if owner == unit {
            assert(of_unit(samples, unit) =~= past + seq![b]);
            lemma_sum(past, seq![b]);
            lemma_one(b);
        }
        law_nothing_is_lost(before, k, unit);
        lemma_within(next, k.room, unit);
        lemma_owned(owner, evicted, unit);
        lemma_of_unit_sum(owned(owner, evicted), trims, unit);
        lemma_of_unit_sum(gone, owned(owner, evicted) + trims, unit);
        let a = of_unit(gone, unit);
        let c = of_unit(owned(owner, evicted), unit);
        let d = of_unit(trims, unit);
        let kept = history(left, unit).all();
        lemma_sum(c, d);
        lemma_sum(a, c + d);
        lemma_sum(d, kept);
        if owner == unit {
            law_recording_loses_nothing(
                history(m, owner),
                b,
                k.raw_cap,
                k.coarse_span,
                cutoff,
            );
        } else {
            assert(history(next, unit) == history(m, unit));
            assert(observations(c) == 0 && peak(c) == 0 && trough(c) == u64::MAX);
        }
    }
}

/// While the clock does not step back, a unit's history is in time order, whatever was given up of
/// it and however many other units there are.
pub proof fn law_history_is_oldest_first(
    samples: Seq<(Seq<char>, Bucket)>,
    k: Keeping,
    unit: Seq<char>,
)
    requires
        in_time_order(of_unit(samples, unit)),
        forall|i: int|
            0 <= i < of_unit(samples, unit).len() ==> (#[trigger] of_unit(
                samples,
                unit,
            )[i]).last_observed == of_unit(samples, unit)[i].timestamp,
        k.coarse_span > 0,
    ensures
        in_time_order(history(noted_all(samples, k).0, unit).all()),
{
    lemma_oldest_first(samples, k, unit);
    law_settled_is_in_order(history(noted_all(samples, k).0, unit));
}

proof fn lemma_oldest_first(samples: Seq<(Seq<char>, Bucket)>, k: Keeping, unit: Seq<char>)
    requires
        in_time_order(of_unit(samples, unit)),
        forall|i: int|
            0 <= i < of_unit(samples, unit).len() ==> (#[trigger] of_unit(
                samples,
                unit,
            )[i]).last_observed == of_unit(samples, unit)[i].timestamp,
        k.coarse_span > 0,
    ensures
        settled(history(noted_all(samples, k).0, unit)),
        of_unit(samples, unit).len() > 0 ==> all_seen_by(
            history(noted_all(samples, k).0, unit).all(),
            of_unit(samples, unit).last().timestamp,
        ),
    decreases samples.len(),
{
    law_no_history_is_settled();
    lemma_known(samples, k, unit);
    if of_unit(samples, unit).len() > 0 {
        let before = samples.drop_last();
        let m = noted_all(before, k).0;
        let (owner, b) = samples.last();
        let part = of_unit(samples, unit);
        let earlier = of_unit(before, unit);
        assert(forall|i: int| 0 <= i < earlier.len() ==> #[trigger] earlier[i] == part[i]);
        lemma_oldest_first(before, k, unit);
        lemma_known(before, k, unit);
        let cutoff = cutoff_of(b.timestamp, k.retention);
        let after = recorded(history(m, owner), b, k.raw_cap, k.coarse_span, cutoff).0;
        let next = m.insert(owner, after);
        let now = part.last().timestamp;
        if owner == unit {
            assert(part.last() == b && part[part.len() - 1] == b);
            assert(in_range(b.timestamp));
            let h = history(m, unit);
            assert(all_seen_by(h.all(), b.timestamp)) by {
                if earlier.len() > 0 {
                    let last = earlier.last().timestamp;
                    assert(earlier[earlier.len() - 1] == part[earlier.len() - 1]);
                    assert(!b.timestamp.precedes(last));
                    assert forall|i: int| 0 <= i < h.all().len() implies !b.timestamp.precedes(
                        (#[trigger] h.all()[i]).last_observed,
                    ) by {}
                } else {
                    assert(h.all() =~= Seq::<Bucket>::empty());
                }
            }
            law_steady_clock_keeps_order(h, b, k.raw_cap, k.coarse_span, cutoff);
        } else {
            assert(history(next, unit) == history(m, unit));
        }
        lemma_within(next, k.room, unit);
        assert(all_seen_by(history(next, unit).all(), now));
    }
}

/// As long as a unit gave nothing up, its history is in time order even where the clock stepped
/// back.
pub proof fn law_late_samples_are_put_in_place(
    samples: Seq<(Seq<char>, Bucket)>,
    k: Keeping,
    unit: Seq<char>,
)
    requires
        forall|i: int|
            0 <= i < of_unit(samples, unit).len() ==> in_range(
                (#[trigger] of_unit(samples, unit)[i]).timestamp,
            ),
        of_unit(noted_all(samples, k).1, unit).len() == 0,
        k.coarse_span > 0,
    ensures
        in_time_order(history(noted_all(samples, k).0, unit).all()),
        filled(history(noted_all(samples, k).0, unit), k.raw_cap),
    decreases samples.len(),
{
    if samples.len() == 0 {
        assert(Tiers::none().all() =~= Seq::<Bucket>::empty());
    } else {
        let before = samples.drop_last();
        let (m, gone) = noted_all(before, k);
        let (owner, b) = samples.last();
        let part = of_unit(samples, unit);
        let earlier = of_unit(before, unit);
        assert(forall|i: int| 0 <= i < earlier.len() ==> #[trigger] earlier[i] == part[i]);
        let cutoff = cutoff_of(b.timestamp, k.retention);
        let (after, _, evicted) = recorded(
            history(m, owner),
            b,
            k.raw_cap,
            k.coarse_span,
            cutoff,
        );
        let next = m.insert(owner, after);
        let trims = within(next, k.room).1;
        lemma_known(before, k, unit);
        lemma_owned(owner, evicted, unit);
        lemma_of_unit_sum(owned(owner, evicted), trims, unit);
        lemma_of_unit_sum(gone, owned(owner, evicted) + trims, unit);
        law_late_samples_are_put_in_place(before, k, unit);
        if owner == unit {
            assert(part[part.len() - 1] == b);
            law_late_samples_keep_order(history(m, unit), b, k.raw_cap, k.coarse_span, cutoff);
        } else {
            assert(history(next, unit) == history(m, unit));
        }
        lemma_within(next, k.room, unit);
    }
}

} // verus!
