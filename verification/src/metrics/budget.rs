//! Keeping the history of all units within a number of stretches.

use vstd::prelude::*;

use crate::metrics::bucket::Bucket;
use crate::metrics::store::{histories, popped, Tiers, UnitMetrics};
use crate::names::{in_order, lemma_in_order, NameMap};

verus! {

/// A unit's stretch of history that was given up.
#[derive(Debug, PartialEq, Eq)]
pub struct Dropped {
    /// The unit.
    pub unit: String,
    /// The stretch.
    pub bucket: Bucket,
}

/// What was given up, in order.
pub open spec fn dropped(v: Seq<Dropped>) -> Seq<(Seq<char>, Bucket)> {
    v.map_values(|d: Dropped| (d.unit@, d.bucket))
}

/// How many stretches the first `n` of the units have.
pub open spec fn count_of(m: Map<Seq<char>, Tiers>, units: Seq<Seq<char>>, n: int) -> nat
    decreases n,
{
    if n <= 0 {
        0
    } else {
        count_of(m, units, n - 1) + m[units[n - 1]].all().len()
    }
}

/// How many stretches all units have.
pub open spec fn total(m: Map<Seq<char>, Tiers>) -> nat {
    let units = in_order(m.dom());
    count_of(m, units, units.len() as int)
}

/// The units' history once it is down from `count` stretches to no more than `room`, and what was
/// given up: each unit in turn gives up its oldest stretch, from the `i`-th on and round again as
/// long as one has anything to give. `any` says whether one had in this round.
pub open spec fn trimmed(
    m: Map<Seq<char>, Tiers>,
    units: Seq<Seq<char>>,
    room: nat,
    count: nat,
    i: nat,
    any: bool,
) -> (Map<Seq<char>, Tiers>, Seq<(Seq<char>, Bucket)>)
    decreases
            count,
            if any {
                1int
            } else {
                0
            },
            units.len() - i,
{
    if count <= room {
        (m, seq![])
    } else if i >= units.len() {
        if any {
            trimmed(m, units, room, count, 0, false)
        } else {
            (m, seq![])
        }
    } else {
        let u = units[i as int];
        if m[u].all().len() > 0 {
            let (after, rest) = trimmed(
                m.insert(u, popped(m[u])),
                units,
                room,
                (count - 1) as nat,
                i + 1,
                true,
            );
            (after, seq![(u, m[u].all()[0])] + rest)
        } else {
            trimmed(m, units, room, count, i + 1, any)
        }
    }
}

/// The units' history within `room` stretches, and what was given up for that.
pub open spec fn within(m: Map<Seq<char>, Tiers>, room: nat) -> (
    Map<Seq<char>, Tiers>,
    Seq<(Seq<char>, Bucket)>,
) {
    trimmed(m, in_order(m.dom()), room, total(m), 0, false)
}

/// Whether no unit's history is larger than a unit's can be, and every tier is in order.
pub open spec fn all_bounded(m: Map<Seq<char>, Tiers>) -> bool {
    forall|u: Seq<char>| #[trigger]
        m.contains_key(u) ==> m[u].sound() && m[u].raw.len() <= 120 && m[u].minute.len() <= 60
            && m[u].coarse.len() <= 96
}

/// Gives up history until no more than `room` stretches are left.
pub fn enforce_memory_budget(units: &mut NameMap<UnitMetrics>, room: usize) -> (r: Vec<Dropped>)
    requires
        all_bounded(histories(*old(units))),
    ensures
        all_bounded(histories(*final(units))),
        (histories(*final(units)), dropped(r@)) == within(histories(*old(units)), room as nat),
{
    let ghost m0 = histories(*units);
    let n: usize = units.len();
    let mut keys: Vec<String> = Vec::new();
    let mut count: u128 = 0;
    let ghost ks = units.names();
    let mut k: usize = 0;
    while k < n
        invariant
            k <= n,
            n == ks.len(),
            n == units.values().len(),
            ks == units.names(),
            m0 == histories(*units),
            all_bounded(m0),
            keys@.len() == k,
            forall|j: int| 0 <= j < k ==> (#[trigger] keys@[j])@ == ks[j],
            count == count_of(m0, ks, k as int),
            count <= 276 * k,
        decreases n - k,
    {
        let name = units.name_at(k);
        let unit = units.value_at(k);
        assert(m0.contains_key(ks[k as int]));
        assert(m0[ks[k as int]] == unit@);
        keys.push(name.clone());
        count = count + unit.len();
        k = k + 1;
    }
    proof {
        assert forall|u: Seq<char>| #[trigger] ks.contains(u) <==> m0.dom().contains(u) by {}
        lemma_in_order(ks, m0.dom());
    }
    let mut out: Vec<Dropped> = Vec::new();
    let mut i: usize = 0;
    let mut any = false;
    let ghost want = within(m0, room as nat);
    assert(dropped(out@) =~= seq![]);
    assert(want.1 =~= dropped(out@) + want.1);
    while count > room as u128
        invariant_except_break
            i <= n,
        invariant
            n == ks.len(),
            keys@.len() == n,
            forall|j: int| 0 <= j < n ==> (#[trigger] keys@[j])@ == ks[j],
            forall|u: Seq<char>|
                #![trigger histories(*units).contains_key(u)]
                histories(*units).contains_key(u) <==> ks.contains(u),
            all_bounded(histories(*units)),
            want.0 == trimmed(histories(*units), ks, room as nat, count as nat, i as nat, any).0,
            want.1 == dropped(out@) + trimmed(
                histories(*units),
                ks,
                room as nat,
                count as nat,
                i as nat,
                any,
            ).1,
        ensures
            want.0 == histories(*units),
            want.1 == dropped(out@),
        decreases
                count,
                if any {
                    1int
                } else {
                    0
                },
                n - i,
    {
        if i >= n {
            if !any {
                assert(dropped(out@) + Seq::<(Seq<char>, Bucket)>::empty() =~= dropped(out@));
                break;
            }
            i = 0;
            any = false;
        } else {
            let ghost m = histories(*units);
            let ghost u = ks[i as int];
            assert(ks.contains(u));
            assert(m.contains_key(u));
            match units.remove(keys[i].as_str()) {
                Some(mut unit) => {
                    assert(unit@ == m[u]);
                    let oldest = unit.pop_oldest();
                    let ghost left = unit@;
                    units.insert(keys[i].as_str(), unit);
                    assert(histories(*units) =~= m.insert(u, left));
                    assert forall|v: Seq<char>| #[trigger]
                        histories(*units).contains_key(v) implies histories(*units)[v].sound()
                        && histories(*units)[v].raw.len() <= 120
                        && histories(*units)[v].minute.len() <= 60
                        && histories(*units)[v].coarse.len() <= 96 by {
                        assert(m.contains_key(v));
                    }
                    match oldest {
                        Some(b) => {
                            let ghost before = dropped(out@);
                            out.push(Dropped { unit: keys[i].clone(), bucket: b });
                            assert(dropped(out@) =~= before.push((u, b)));
                            count = count - 1;
                            any = true;
                            proof {
                                let rest = trimmed(
                                    histories(*units),
                                    ks,
                                    room as nat,
                                    count as nat,
                                    (i + 1) as nat,
                                    true,
                                ).1;
                                assert(before + (seq![(u, b)] + rest) =~= before.push((u, b)) + rest);
                            }
                        },
                        None => {
                            assert(m.insert(u, left) =~= m);
                        },
                    }
                },
                None => {},
            }
            i = i + 1;
        }
    }
    assert(dropped(out@) + Seq::<(Seq<char>, Bucket)>::empty() =~= dropped(out@));
    out
}

} // verus!
