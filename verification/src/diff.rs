//! The snapshot differ: comparing the planned-meals calendar captured just
//! before a remote reload against the calendar after it, and emitting one
//! close signal for every previously planned entry the new calendar no
//! longer supports — so a consumer can collapse stale open views without
//! diffing anything itself.
//!
//! For every date of the before-snapshot: if the date is entirely absent
//! afterwards, every one of its stubs gets a signal; otherwise every stub
//! with no structurally identical counterpart (same date, recipe id and
//! leftover flag) in the date's new stub list gets one. Unchanged and newly
//! added entries stay silent.

use vstd::prelude::*;

use crate::store::lemma_filter_push;
use crate::types::{days_view, key_get, key_has, keys_unique, DayPlan, MealStub};

verus! {

/// A notification that a previously planned entry is no longer valid and
/// any open view of it should close.
#[derive(Clone, Copy, Debug, PartialEq, Eq, Structural)]
pub struct CloseSignal {
    pub date: u64,
    pub id: u128,
}

/// The signals one before-snapshot day contributes: all of its stubs when
/// its date vanished, otherwise its stubs without an identical counterpart.
pub open spec fn day_signals(
    day: (u64, Seq<MealStub>),
    after: Seq<(u64, Seq<MealStub>)>,
) -> Seq<CloseSignal> {
    if !key_has(after, day.0) {
        day.1.map_values(|s: MealStub| CloseSignal { date: s.date, id: s.id })
    } else {
        day.1.filter(|s: MealStub| !key_get(after, day.0).contains(s)).map_values(
            |s: MealStub| CloseSignal { date: day.0, id: s.id },
        )
    }
}

/// The signals of a whole diff, in before-snapshot order.
pub open spec fn diff_spec(
    before: Seq<(u64, Seq<MealStub>)>,
    after: Seq<(u64, Seq<MealStub>)>,
) -> Seq<CloseSignal>
    decreases before.len(),
{
    if before.len() == 0 {
        Seq::empty()
    } else {
        diff_spec(before.drop_last(), after) + day_signals(before.last(), after)
    }
}

/// Extending the before-prefix by one day appends that day's signals.
proof fn lemma_diff_spec_step(
    before: Seq<(u64, Seq<MealStub>)>,
    after: Seq<(u64, Seq<MealStub>)>,
    i: int,
)
    requires
        0 <= i < before.len(),
    ensures
        diff_spec(before.subrange(0, i + 1), after) == diff_spec(before.subrange(0, i), after)
            + day_signals(before[i], after),
{
    let p1 = before.subrange(0, i + 1);
    assert(p1.drop_last() =~= before.subrange(0, i));
    assert(p1.last() == before[i]);
}

/// The index of the day entry for `date` in a calendar, if one exists.
fn find_day_entry(days: &Vec<DayPlan>, date: u64) -> (r: Option<usize>)
    ensures
        match r {
            Some(i) => i < days@.len() && days@[i as int].date == date,
            None => !key_has(days_view(days@), date),
        },
{
    let n = days.len();
    let mut i: usize = 0;
    while i < n
        invariant
            n == days@.len(),
            i <= n,
            forall|j: int| 0 <= j < i ==> days_view(days@)[j].0 != date,
        decreases n - i,
    {
        if days[i].date == date {
            return Some(i);
        }
        assert(days_view(days@)[i as int].0 == days@[i as int].date);
        i += 1;
    }
    None
}

/// Whether the stub list holds a structurally identical stub.
fn contains_stub(stubs: &Vec<MealStub>, s: MealStub) -> (r: bool)
    ensures
        r == stubs@.contains(s),
{
    let n = stubs.len();
    let mut i: usize = 0;
    while i < n
        invariant
            n == stubs@.len(),
            i <= n,
            forall|j: int| 0 <= j < i ==> stubs@[j] != s,
        decreases n - i,
    {
        if stubs[i] == s {
            assert(stubs@.contains(s));
            return true;
        }
        i += 1;
    }
    false
}

/// Diffs the planned-meals calendar captured before a remote reload against
/// the calendar after it, and returns the close signals for every entry the
/// new calendar no longer supports, in before-snapshot order: a signal for
/// each stub of a vanished date, and one for each stub without a
/// structurally identical counterpart at its date.
pub fn diff_planned(before: &Vec<DayPlan>, after: &Vec<DayPlan>) -> (r: Vec<CloseSignal>)
    requires
        keys_unique(days_view(after@)),
    ensures
        r@ == diff_spec(days_view(before@), days_view(after@)),
{
    let ghost bv = days_view(before@);
    let ghost av = days_view(after@);
    let mut out: Vec<CloseSignal> = Vec::new();
    let n = before.len();
    let mut i: usize = 0;
    while i < n
        invariant
            keys_unique(av),
            bv == days_view(before@),
            av == days_view(after@),
            n == before@.len(),
            i <= n,
            out@ == diff_spec(bv.subrange(0, i as int), av),
        decreases n - i,
    {
        let date = before[i].date;
        proof {
            assert(bv[i as int] == (date, before@[i as int].stubs@));
            lemma_diff_spec_step(bv, av, i as int);
        }
        let m = before[i].stubs.len();
        match find_day_entry(after, date) {
            None => {
                let ghost out_day_start = out@;
                let mut k: usize = 0;
                while k < m
                    invariant
                        0 <= i < before@.len(),
                        m == before@[i as int].stubs@.len(),
                        k <= m,
                        out@ =~= out_day_start + before@[i as int].stubs@.subrange(
                            0,
                            k as int,
                        ).map_values(|s: MealStub| CloseSignal { date: s.date, id: s.id }),
                    decreases m - k,
                {
                    let s = before[i].stubs[k];
                    out.push(CloseSignal { date: s.date, id: s.id });
                    proof {
                        assert(before@[i as int].stubs@.subrange(0, k as int + 1)
                            =~= before@[i as int].stubs@.subrange(0, k as int).push(s));
                    }
                    k += 1;
                }
                proof {
                    assert(before@[i as int].stubs@.subrange(0, m as int)
                        =~= before@[i as int].stubs@);
                    assert(!key_has(av, date));
                    assert(out@ =~= out_day_start + day_signals(bv[i as int], av));
                }
            },
            Some(a) => {
                proof {
                    crate::store::lemma_key_unique_index(av, date, a as int);
                    assert(key_get(av, date) == after@[a as int].stubs@);
                }
                let ghost out_day_start = out@;
                let ghost keep = |s: MealStub| !key_get(av, date).contains(s);
                let mut k: usize = 0;
                while k < m
                    invariant
                        keys_unique(av),
                        av == days_view(after@),
                        0 <= i < before@.len(),
                        0 <= a < after@.len(),
                        key_get(av, date) == after@[a as int].stubs@,
                        keep == (|s: MealStub| !key_get(av, date).contains(s)),
                        m == before@[i as int].stubs@.len(),
                        k <= m,
                        out@ =~= out_day_start + before@[i as int].stubs@.subrange(
                            0,
                            k as int,
                        ).filter(keep).map_values(
                            |s: MealStub| CloseSignal { date, id: s.id },
                        ),
                    decreases m - k,
                {
                    let s = before[i].stubs[k];
                    proof {
                        assert(before@[i as int].stubs@.subrange(0, k as int + 1)
                            =~= before@[i as int].stubs@.subrange(0, k as int).push(s));
                        lemma_filter_push(
                            before@[i as int].stubs@.subrange(0, k as int),
                            s,
                            keep,
                        );
                    }
                    if !contains_stub(&after[a].stubs, s) {
                        out.push(CloseSignal { date, id: s.id });
                        proof {
                            assert(keep(s));
                        }
                    } else {
                        proof {
                            assert(!keep(s));
                        }
                    }
                    k += 1;
                }
                proof {
                    assert(before@[i as int].stubs@.subrange(0, m as int)
                        =~= before@[i as int].stubs@);
                    assert(out@ =~= out_day_start + day_signals(bv[i as int], av));
                }
            },
        }
        proof {
            assert(out@ =~= diff_spec(bv.subrange(0, i as int + 1), av));
        }
        i += 1;
    }
    proof {
        assert(bv.subrange(0, n as int) =~= bv);
    }
    out
}

} // verus!
