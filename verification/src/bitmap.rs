//! The bookkeeping of a block allocator, as mathematics: a map of used units, the
//! runs that are marked and cleared in it, and the ledger of live allocations
//! that it stands for.

use vstd::prelude::*;

verus! {

/// Units `start .. start + units` lie within `used` and are all free.
pub open spec fn run_free(used: Seq<bool>, start: int, units: int) -> bool {
    &&& 0 <= start
    &&& 0 <= units
    &&& start + units <= used.len()
    &&& forall|i: int| start <= i < start + units ==> !used[i]
}

/// Units `start .. start + units` lie within `used` and are all in use.
pub open spec fn run_used(used: Seq<bool>, start: int, units: int) -> bool {
    &&& 0 <= start
    &&& 0 <= units
    &&& start + units <= used.len()
    &&& forall|i: int| start <= i < start + units ==> used[i]
}

/// `used` with units `start .. start + units` set to `value`.
pub open spec fn mark(used: Seq<bool>, start: int, units: int, value: bool) -> Seq<bool> {
    Seq::new(
        used.len(),
        |i: int|
            if start <= i < start + units {
                value
            } else {
                used[i]
            },
    )
}

/// Some run of `units` free units exists in `used`.
pub open spec fn fits(used: Seq<bool>, units: int) -> bool {
    exists|s: int| run_free(used, s, units)
}

/// `start` begins the first run of `units` free units in `used`: no such run
/// begins further left.
pub open spec fn is_first_fit(used: Seq<bool>, units: int, start: int) -> bool {
    &&& run_free(used, start, units)
    &&& forall|s: int| 0 <= s < start ==> !run_free(used, s, units)
}

/// The number of units in use.
pub open spec fn count_used(used: Seq<bool>) -> nat
    decreases used.len(),
{
    if used.len() == 0 {
        0
    } else {
        count_used(used.drop_last()) + if used.last() {
            1nat
        } else {
            0nat
        }
    }
}

/// Whether unit `i` belongs to the range `r`, given as first unit and length.
pub open spec fn covers(r: (int, int), i: int) -> bool {
    r.0 <= i < r.0 + r.1
}

/// Two ranges have no unit in common.
pub open spec fn disjoint(a: (int, int), b: (int, int)) -> bool {
    a.1 <= 0 || b.1 <= 0 || a.0 + a.1 <= b.0 || b.0 + b.1 <= a.0
}

/// The ranges of `live` are the allocations that `used` records: each lies
/// within the map, no two have a unit in common, and a unit is marked used
/// exactly when one of them holds it.
pub open spec fn ledger_matches(used: Seq<bool>, live: Seq<(int, int)>) -> bool {
    &&& forall|k: int|
        0 <= k < live.len() ==> 0 <= (#[trigger] live[k]).0 && 0 <= live[k].1 && live[k].0
            + live[k].1 <= used.len()
    &&& forall|j: int, k: int|
        0 <= j < k < live.len() ==> disjoint(#[trigger] live[j], #[trigger] live[k])
    &&& forall|i: int|
        0 <= i < used.len() ==> (#[trigger] used[i] <==> exists|k: int|
            0 <= k < live.len() && covers(#[trigger] live[k], i))
}

/// The number of units that the ranges of `live` hold together.
pub open spec fn total_units(live: Seq<(int, int)>) -> int
    decreases live.len(),
{
    if live.len() == 0 {
        0
    } else {
        total_units(live.drop_last()) + live.last().1
    }
}

/// The first fit is unique: two starts that both begin the first free run are
/// the same.
pub proof fn lemma_first_fit_unique(used: Seq<bool>, units: int, a: int, b: int)
    requires
        is_first_fit(used, units, a),
        is_first_fit(used, units, b),
    ensures
        a == b,
{
    if a < b {
        assert(!run_free(used, a, units));
    } else if b < a {
        assert(!run_free(used, b, units));
    }
}

/// A request for no units is served at the very start of the map.
pub proof fn lemma_first_fit_empty(used: Seq<bool>)
    ensures
        is_first_fit(used, 0, 0),
{
}

/// A run as long as the whole map fits exactly when the whole map is free, and
/// then it begins at the first unit.
pub proof fn lemma_whole_map_fits(used: Seq<bool>)
    ensures
        fits(used, used.len() as int) <==> (forall|i: int| 0 <= i < used.len() ==> !used[i]),
        fits(used, used.len() as int) ==> is_first_fit(used, used.len() as int, 0),
{
    let n = used.len() as int;
    if fits(used, n) {
        let s = choose|s: int| run_free(used, s, n);
        assert(s == 0);
    }
    if forall|i: int| 0 <= i < used.len() ==> !used[i] {
        assert(run_free(used, 0, n));
    }
}

/// No run longer than the map fits.
pub proof fn lemma_longer_than_map(used: Seq<bool>, units: int)
    requires
        units > used.len(),
    ensures
        !fits(used, units),
{
}

/// No more units are in use than there are.
pub proof fn lemma_count_bound(used: Seq<bool>)
    ensures
        count_used(used) <= used.len(),
    decreases used.len(),
{
    if used.len() > 0 {
        lemma_count_bound(used.drop_last());
    }
}

/// Setting one unit changes the count of used units by what that unit
/// contributed before and contributes after.
pub proof fn lemma_count_update(used: Seq<bool>, i: int, value: bool)
    requires
        0 <= i < used.len(),
    ensures
        count_used(used.update(i, value)) == count_used(used) - (if used[i] {
            1int
        } else {
            0int
        }) + (if value {
            1int
        } else {
            0int
        }),
    decreases used.len(),
{
    let after = used.update(i, value);
    if i == used.len() - 1 {
        assert(after.drop_last() =~= used.drop_last());
    } else {
        assert(after.drop_last() =~= used.drop_last().update(i, value));
        lemma_count_update(used.drop_last(), i, value);
    }
}

/// Marking a free run adds its length to the count of used units, and
/// clearing a used run takes its length away.
pub proof fn lemma_count_mark(used: Seq<bool>, start: int, units: int, value: bool)
    requires
        if value {
            run_free(used, start, units)
        } else {
            run_used(used, start, units)
        },
    ensures
        count_used(mark(used, start, units, value)) == count_used(used) + (if value {
            units
        } else {
            -units
        }),
    decreases units,
{
    if units == 0 {
        assert(mark(used, start, units, value) =~= used);
    } else {
        lemma_count_mark(used, start, units - 1, value);
        let before = mark(used, start, units - 1, value);
        assert(mark(used, start, units, value) =~= before.update(start + units - 1, value));
        lemma_count_update(before, start + units - 1, value);
        assert(before[start + units - 1] == used[start + units - 1]);
    }
}

/// A map without a used unit counts none.
pub proof fn lemma_count_free(used: Seq<bool>)
    requires
        forall|i: int| 0 <= i < used.len() ==> !used[i],
    ensures
        count_used(used) == 0,
    decreases used.len(),
{
    if used.len() > 0 {
        lemma_count_free(used.drop_last());
    }
}

/// A map without a used unit is the map of an empty ledger.
pub proof fn lemma_fresh(used: Seq<bool>)
    requires
        forall|i: int| 0 <= i < used.len() ==> !used[i],
    ensures
        ledger_matches(used, Seq::<(int, int)>::empty()),
{
}

/// When no allocation is live, every unit is free.
pub proof fn lemma_all_released(used: Seq<bool>)
    requires
        ledger_matches(used, Seq::<(int, int)>::empty()),
    ensures
        forall|i: int| 0 <= i < used.len() ==> !used[i],
        count_used(used) == 0,
{
    assert forall|i: int| 0 <= i < used.len() implies !used[i] by {
        if used[i] {
            let k = choose|k: int|
                0 <= k < Seq::<(int, int)>::empty().len() && covers(
                    #[trigger] Seq::<(int, int)>::empty()[k],
                    i,
                );
            assert(false);
        }
    }
    lemma_count_free(used);
}

/// A live allocation holds used units only.
pub proof fn lemma_live_is_used(used: Seq<bool>, live: Seq<(int, int)>, k: int)
    requires
        ledger_matches(used, live),
        0 <= k < live.len(),
    ensures
        run_used(used, live[k].0, live[k].1),
{
    assert forall|i: int| live[k].0 <= i < live[k].0 + live[k].1 implies used[i] by {
        assert(covers(live[k], i));
    }
}

/// Acquiring a free run keeps the ledger in step with the map, and the new
/// allocation has no unit in common with any that was live.
pub proof fn lemma_acquire(used: Seq<bool>, live: Seq<(int, int)>, start: int, units: int)
    requires
        ledger_matches(used, live),
        run_free(used, start, units),
    ensures
        ledger_matches(mark(used, start, units, true), live.push((start, units))),
        forall|k: int| 0 <= k < live.len() ==> disjoint(#[trigger] live[k], (start, units)),
{
    let after = mark(used, start, units, true);
    let ledger = live.push((start, units));
    assert forall|k: int| 0 <= k < live.len() implies disjoint(
        #[trigger] live[k],
        (start, units),
    ) by {
        lemma_live_is_used(used, live, k);
        if !disjoint(live[k], (start, units)) {
            let i = if live[k].0 >= start {
                live[k].0
            } else {
                start
            };
            assert(used[i]);
            assert(!used[i]);
        }
    }
    assert forall|j: int, k: int| 0 <= j < k < ledger.len() implies disjoint(
        #[trigger] ledger[j],
        #[trigger] ledger[k],
    ) by {
        if k == live.len() {
            assert(ledger[j] == live[j]);
        } else {
            assert(ledger[j] == live[j] && ledger[k] == live[k]);
        }
    }
    assert forall|i: int| 0 <= i < after.len() implies (#[trigger] after[i] <==> exists|k: int|
        0 <= k < ledger.len() && covers(#[trigger] ledger[k], i)) by {
        if after[i] {
            if start <= i < start + units {
                assert(covers(ledger[live.len() as int], i));
            } else {
                assert(used[i]);
                let k = choose|k: int| 0 <= k < live.len() && covers(#[trigger] live[k], i);
                assert(covers(ledger[k], i));
            }
        }
        if exists|k: int| 0 <= k < ledger.len() && covers(#[trigger] ledger[k], i) {
            let k = choose|k: int| 0 <= k < ledger.len() && covers(#[trigger] ledger[k], i);
            if k < live.len() {
                assert(covers(live[k], i));
                assert(used[i]);
            }
        }
    }
}

/// Releasing a live allocation keeps the ledger in step with the map.
pub proof fn lemma_release(used: Seq<bool>, live: Seq<(int, int)>, k: int)
    requires
        ledger_matches(used, live),
        0 <= k < live.len(),
    ensures
        ledger_matches(mark(used, live[k].0, live[k].1, false), live.remove(k)),
{
    let gone = live[k];
    let after = mark(used, gone.0, gone.1, false);
    let ledger = live.remove(k);
    assert forall|j: int| 0 <= j < ledger.len() implies 0 <= (#[trigger] ledger[j]).0 && 0
        <= ledger[j].1 && ledger[j].0 + ledger[j].1 <= after.len() by {
        if j < k {
            assert(ledger[j] == live[j]);
        } else {
            assert(ledger[j] == live[j + 1]);
        }
    }
    assert forall|i: int, j: int| 0 <= i < j < ledger.len() implies disjoint(
        #[trigger] ledger[i],
        #[trigger] ledger[j],
    ) by {
        let a = if i < k {
            i
        } else {
            i + 1
        };
        let b = if j < k {
            j
        } else {
            j + 1
        };
        assert(ledger[i] == live[a] && ledger[j] == live[b]);
    }
    assert forall|i: int| 0 <= i < after.len() implies (#[trigger] after[i] <==> exists|j: int|
        0 <= j < ledger.len() && covers(#[trigger] ledger[j], i)) by {
        if after[i] {
            assert(used[i] && !covers(gone, i));
            let j = choose|j: int| 0 <= j < live.len() && covers(#[trigger] live[j], i);
            assert(j != k);
            let at = if j < k {
                j
            } else {
                j - 1
            };
            assert(ledger[at] == live[j]);
            assert(covers(ledger[at], i));
        }
        if exists|j: int| 0 <= j < ledger.len() && covers(#[trigger] ledger[j], i) {
            let j = choose|j: int| 0 <= j < ledger.len() && covers(#[trigger] ledger[j], i);
            let from = if j < k {
                j
            } else {
                j + 1
            };
            assert(ledger[j] == live[from]);
            assert(covers(live[from], i));
            assert(used[i]);
            if from < k {
                assert(disjoint(live[from], live[k]));
            } else {
                assert(disjoint(live[k], live[from]));
            }
            assert(!covers(gone, i));
        }
    }
}

/// Taking the entry at `k` out of a ledger takes its units out of the total.
pub proof fn lemma_total_remove(live: Seq<(int, int)>, k: int)
    requires
        0 <= k < live.len(),
    ensures
        total_units(live.remove(k)) == total_units(live) - live[k].1,
    decreases live.len(),
{
    if k == live.len() - 1 {
        assert(live.remove(k) =~= live.drop_last());
    } else {
        assert(live.remove(k).drop_last() =~= live.drop_last().remove(k));
        assert(live.remove(k).last() == live.last());
        lemma_total_remove(live.drop_last(), k);
    }
}

/// As many units are marked used as the live allocations hold together.
pub proof fn lemma_conservation(used: Seq<bool>, live: Seq<(int, int)>)
    requires
        ledger_matches(used, live),
    ensures
        count_used(used) == total_units(live),
    decreases live.len(),
{
    if live.len() == 0 {
        assert(live =~= Seq::<(int, int)>::empty());
        lemma_all_released(used);
    } else {
        let k = live.len() - 1;
        let gone = live[k];
        let before = mark(used, gone.0, gone.1, false);
        lemma_release(used, live, k);
        assert(live.remove(k) =~= live.drop_last());
        lemma_conservation(before, live.drop_last());
        lemma_live_is_used(used, live, k);
        lemma_count_mark(used, gone.0, gone.1, false);
    }
}

/// Growing a live allocation into the free units behind it, or giving up units
/// at its end, keeps the ledger in step with the map.
pub proof fn lemma_resize(used: Seq<bool>, live: Seq<(int, int)>, k: int, units: int)
    requires
        ledger_matches(used, live),
        0 <= k < live.len(),
        0 <= units,
        units > live[k].1 ==> run_free(used, live[k].0 + live[k].1, units - live[k].1),
    ensures
        units >= live[k].1 ==> ledger_matches(
            mark(used, live[k].0 + live[k].1, units - live[k].1, true),
            live.update(k, (live[k].0, units)),
        ),
        units <= live[k].1 ==> ledger_matches(
            mark(used, live[k].0 + units, live[k].1 - units, false),
            live.update(k, (live[k].0, units)),
        ),
{
    let start = live[k].0;
    let held = live[k].1;
    lemma_release(used, live, k);
    let cleared = mark(used, start, held, false);
    let rest = live.remove(k);
    assert(run_free(cleared, start, units)) by {
        assert forall|i: int| start <= i < start + units implies !cleared[i] by {
            if i >= start + held {
                assert(!used[i]);
            }
        }
    }
    lemma_acquire(cleared, rest, start, units);
    let grown = mark(cleared, start, units, true);
    let pushed = rest.push((start, units));
    let target = live.update(k, (start, units));
    lemma_live_is_used(used, live, k);
    if units >= held {
        assert(grown =~= mark(used, start + held, units - held, true));
    }
    if units <= held {
        assert(grown =~= mark(used, start + units, held - units, false));
    }
    // the ledger with the entry replaced in place holds the same ranges as the
    // one with the entry taken out and put at the end
    assert forall|j: int| 0 <= j < target.len() implies 0 <= (#[trigger] target[j]).0 && 0
        <= target[j].1 && target[j].0 + target[j].1 <= grown.len() by {
        if j != k {
            assert(target[j] == live[j]);
        }
    }
    assert forall|i: int, j: int| 0 <= i < j < target.len() implies disjoint(
        #[trigger] target[i],
        #[trigger] target[j],
    ) by {
        if i != k && j != k {
            assert(target[i] == live[i] && target[j] == live[j]);
        } else {
            let o = if i == k {
                j
            } else {
                i
            };
            let at = if o < k {
                o
            } else {
                o - 1
            };
            assert(rest[at] == live[o]);
            assert(target[o] == live[o]);
            assert(disjoint(rest[at], (start, units)));
        }
    }
    assert forall|i: int| 0 <= i < grown.len() implies (#[trigger] grown[i] <==> exists|j: int|
        0 <= j < target.len() && covers(#[trigger] target[j], i)) by {
        if grown[i] {
            let j = choose|j: int| 0 <= j < pushed.len() && covers(#[trigger] pushed[j], i);
            if j == rest.len() {
                assert(covers(target[k], i));
            } else {
                let from = if j < k {
                    j
                } else {
                    j + 1
                };
                assert(pushed[j] == live[from]);
                assert(target[from] == live[from]);
                assert(covers(target[from], i));
            }
        }
        if exists|j: int| 0 <= j < target.len() && covers(#[trigger] target[j], i) {
            let j = choose|j: int| 0 <= j < target.len() && covers(#[trigger] target[j], i);
            if j == k {
                assert(covers(pushed[rest.len() as int], i));
            } else {
                let at = if j < k {
                    j
                } else {
                    j - 1
                };
                assert(pushed[at] == live[j]);
                assert(covers(pushed[at], i));
            }
        }
    }
}

} // verus!
