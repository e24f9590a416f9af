//! Runs of consecutive days on which tokens were spent.
use crate::daily::{day_entries, days_in_range, lists_days};
use crate::time::{day_in_range, MAX_DAY, MIN_DAY};
use std::collections::BTreeMap;
use vstd::prelude::*;

verus! {

/// Whether tokens were spent on the day.
pub open spec fn active(by_day: Map<i32, i64>, day: int) -> bool {
    i32::MIN <= day <= i32::MAX && by_day.contains_key(day as i32) && by_day[day as i32] > 0
}

/// Whether all of the `len` days from `start` on are active.
pub open spec fn active_run(by_day: Map<i32, i64>, start: int, len: nat) -> bool {
    forall|d: int| start <= d < start + len ==> active(by_day, d)
}

/// Whether `n` is the number of active days in a row that end with `today`.
pub open spec fn is_current_streak(by_day: Map<i32, i64>, today: int, n: nat) -> bool {
    active_run(by_day, today - n + 1, n) && !active(by_day, today - n)
}

/// Whether `n` is the largest number of active days in a row.
pub open spec fn is_longest_streak(by_day: Map<i32, i64>, n: nat) -> bool {
    &&& exists|start: int| active_run(by_day, start, n)
    &&& forall|start: int, len: nat| #[trigger] active_run(by_day, start, len) ==> len <= n
}

/// The active days, in ascending order.
pub open spec fn lists_active_days(by_day: Map<i32, i64>, days: Seq<i32>) -> bool {
    &&& forall|i: int, j: int| 0 <= i < j < days.len() ==> days[i] < days[j]
    &&& forall|i: int| 0 <= i < days.len() ==> active(by_day, #[trigger] days[i] as int)
    &&& forall|d: int| #[trigger] active(by_day, d) ==> days.contains(d as i32)
}

/// Collects the active days in ascending order.
pub fn active_dates(by_day: &BTreeMap<i32, i64>) -> (days: Vec<i32>)
    ensures
        lists_active_days(by_day@, days@),
{
    let entries = day_entries(by_day);
    let mut days: Vec<i32> = Vec::new();
    for n in 0..entries.len()
        invariant
            lists_days(by_day@, entries@),
            forall|i: int, j: int| 0 <= i < j < days@.len() ==> days@[i] < days@[j],
            forall|i: int|
                0 <= i < days@.len() ==> active(by_day@, #[trigger] days@[i] as int),
            forall|i: int, j: int|
                0 <= i < days@.len() && n <= j < entries@.len() ==> #[trigger] days@[i]
                    < (#[trigger] entries@[j]).0,
            forall|i: int|
                0 <= i < n && (#[trigger] entries@[i]).1 > 0 ==> days@.contains(entries@[i].0),
    {
        let (day, tokens) = entries[n];
        let ghost before = days@;
        if tokens > 0 {
            days.push(day);
        }
        proof {
            assert forall|i: int|
                0 <= i <= n && (#[trigger] entries@[i]).1 > 0 implies days@.contains(
                entries@[i].0,
            ) by {
                if i < n {
                    let k = before.index_of(entries@[i].0);
                    assert(days@[k] == entries@[i].0);
                } else {
                    assert(days@.last() == day);
                }
            }
        }
    }
    proof {
        assert forall|d: int| #[trigger] active(by_day@, d) implies days@.contains(d as i32) by {
            let entry = (d as i32, by_day@[d as i32]);
            let k = entries@.index_of(entry);
            assert(entries@[k] == entry);
        }
    }
    days
}

/// The number of listed days in a row that end with the `i`th one.
spec fn run_length(days: Seq<i32>, i: int) -> nat
    decreases i,
{
    if i <= 0 {
        1
    } else if days[i] == days[i - 1] + 1 {
        run_length(days, i - 1) + 1
    } else {
        1
    }
}

proof fn lemma_run_is_active(by_day: Map<i32, i64>, days: Seq<i32>, i: int)
    requires
        lists_active_days(by_day, days),
        0 <= i < days.len(),
    ensures
        active_run(by_day, days[i] - run_length(days, i) + 1, run_length(days, i)),
        run_length(days, i) <= i + 1,
    decreases i,
{
    assert(active(by_day, days[i] as int));
    if i > 0 && days[i] == days[i - 1] + 1 {
        lemma_run_is_active(by_day, days, i - 1);
    }
}

proof fn lemma_run_is_maximal(
    by_day: Map<i32, i64>,
    days: Seq<i32>,
    i: int,
    start: int,
    len: nat,
)
    requires
        lists_active_days(by_day, days),
        0 <= i < days.len(),
        len > 0,
        active_run(by_day, start, len),
        days[i] == start + len - 1,
    ensures
        len <= run_length(days, i),
    decreases len,
{
    if len > 1 {
        let before = days[i] - 1;
        assert(active(by_day, before));
        let k = days.index_of(before as i32);
        assert(days[k] == before);
        assert(k == i - 1) by {
            if k > i {
                assert(days[i] < days[k]);
            } else if k < i - 1 {
                assert(days[k] < days[i - 1]);
                assert(days[i - 1] < days[i]);
            }
        }
        assert(active_run(by_day, start, (len - 1) as nat));
        lemma_run_is_maximal(by_day, days, i - 1, start, (len - 1) as nat);
    }
}

/// The largest number of listed days in a row.
fn longest_run(Ghost(by_day): Ghost<Map<i32, i64>>, days: &Vec<i32>) -> (longest: usize)
    requires
        lists_active_days(by_day, days@),
    ensures
        is_longest_streak(by_day, longest as nat),
{
    if days.len() == 0 {
        proof {
            assert(active_run(by_day, 0, 0));
            assert forall|start: int, len: nat| #[trigger] active_run(by_day, start, len) implies len
                <= 0 by {
                if len > 0 {
                    assert(active(by_day, start));
                    assert(days@.contains(start as i32));
                }
            }
        }
        return 0;
    }
    let mut longest: usize = 1;
    let mut current_run: usize = 1;
    let mut best: Ghost<int> = Ghost(0);
    for i in 1..days.len()
        invariant
            lists_active_days(by_day, days@),
            current_run == run_length(days@, i - 1),
            current_run <= i,
            0 <= best@ < i,
            longest == run_length(days@, best@),
            forall|j: int|
                0 <= j < i ==> #[trigger] run_length(days@, j) <= longest || run_length(days@, j)
                    <= current_run,
    {
        assert(days@[i - 1] < days@[i as int]);
        if days[i] == days[i - 1] + 1 {
            current_run += 1;
        } else {
            if longest < current_run {
                longest = current_run;
                proof {
                    best@ = i - 1;
                }
            }
            current_run = 1;
        }
    }
    if longest < current_run {
        longest = current_run;
        proof {
            best@ = days@.len() - 1;
        }
    }
    proof {
        lemma_run_is_active(by_day, days@, best@);
        assert forall|start: int, len: nat| #[trigger] active_run(by_day, start, len) implies len
            <= longest by {
            if len > 0 {
                let last = start + len - 1;
                assert(active(by_day, last));
                let k = days@.index_of(last as i32);
                lemma_run_is_maximal(by_day, days@, k, start, len);
            }
        }
    }
    longest
}

/// The number of active days in a row that end with `today`, and the largest
/// number of active days in a row.
pub fn compute_streaks(by_day: &BTreeMap<i32, i64>, today: i32) -> (streaks: (usize, usize))
    requires
        days_in_range(by_day@),
        day_in_range(today as int),
    ensures
        is_current_streak(by_day@, today as int, streaks.0 as nat),
        is_longest_streak(by_day@, streaks.1 as nat),
{
    let days = active_dates(by_day);
    let longest = longest_run(Ghost(by_day@), &days);
    let mut current_streak: usize = 0;
    let mut cursor: i32 = today;
    loop
        invariant
            days_in_range(by_day@),
            MIN_DAY - 1 <= cursor <= today <= MAX_DAY,
            current_streak == today - cursor,
            active_run(by_day@, cursor + 1, current_streak as nat),
        ensures
            is_current_streak(by_day@, today as int, current_streak as nat),
        decreases cursor - MIN_DAY + 1,
    {
        let tokens: i64 = match by_day.get(&cursor) {
            Some(tokens) => *tokens,
            None => 0,
        };
        if tokens > 0 {
            assert(active(by_day@, cursor as int));
            current_streak += 1;
            cursor -= 1;
        } else {
            break;
        }
    }
    (current_streak, longest)
}

/// The current streak is one number, and so is the longest.
pub proof fn law_streaks_are_unique(by_day: Map<i32, i64>, today: int, a: nat, b: nat)
    ensures
        is_current_streak(by_day, today, a) && is_current_streak(by_day, today, b) ==> a == b,
        is_longest_streak(by_day, a) && is_longest_streak(by_day, b) ==> a == b,
{
    if is_current_streak(by_day, today, a) && is_current_streak(by_day, today, b) {
        if a < b {
            assert(active(by_day, today - a));
        } else if b < a {
            assert(active(by_day, today - b));
        }
    }
}

/// The current streak is no longer than the longest.
pub proof fn law_current_streak_within_longest(
    by_day: Map<i32, i64>,
    today: int,
    current: nat,
    longest: nat,
)
    requires
        is_current_streak(by_day, today, current),
        is_longest_streak(by_day, longest),
    ensures
        current <= longest,
{
    assert(active_run(by_day, today - current + 1, current));
}

/// There is a current streak exactly if today is active, and a longest one exactly
/// if some day is.
pub proof fn law_streaks_need_active_days(
    by_day: Map<i32, i64>,
    today: int,
    current: nat,
    longest: nat,
)
    requires
        is_current_streak(by_day, today, current),
        is_longest_streak(by_day, longest),
    ensures
        current > 0 <==> active(by_day, today),
        longest > 0 <==> exists|d: int| active(by_day, d),
{
    if current > 0 {
        assert(active(by_day, today));
    }
    if longest > 0 {
        let start = choose|start: int| active_run(by_day, start, longest);
        assert(active(by_day, start));
    }
    if exists|d: int| active(by_day, d) {
        let d = choose|d: int| active(by_day, d);
        assert(active_run(by_day, d, 1));
    }
}

/// An active tomorrow makes the current streak longer by one day, and an inactive
/// one ends it.
pub proof fn law_streak_goes_on(by_day: Map<i32, i64>, today: int, current: nat)
    requires
        is_current_streak(by_day, today, current),
    ensures
        active(by_day, today + 1) ==> is_current_streak(by_day, today + 1, current + 1),
        !active(by_day, today + 1) ==> is_current_streak(by_day, today + 1, 0),
{
}

/// The current streak counts back from today: on each of its days a positive number
/// of tokens is recorded, and on the day before them none.
pub proof fn law_current_streak_counts_back(by_day: Map<i32, i64>, today: i32, n: nat)
    requires
        is_current_streak(by_day, today as int, n),
        today - n >= i32::MIN,
    ensures
        forall|d: i32|
            today - n < d <= today ==> #[trigger] by_day.contains_key(d) && by_day[d] > 0,
        ({
            let before = (today - n) as i32;
            !by_day.contains_key(before) || by_day[before] <= 0
        }),
{
    assert forall|d: i32| today - n < d <= today implies #[trigger] by_day.contains_key(d)
        && by_day[d] > 0 by {
        assert(active(by_day, d as int));
    }
}

/// The longest streak is the length of some run of days with a positive number of
/// tokens each, and no such run is longer.
pub proof fn law_longest_streak_is_of_recorded_days(by_day: Map<i32, i64>, n: nat)
    requires
        is_longest_streak(by_day, n),
    ensures
        n > 0 ==> exists|first: i32| #[trigger] recorded_run(by_day, first, n),
        forall|first: i32, len: nat| #[trigger] recorded_run(by_day, first, len) ==> len <= n,
{
    if n > 0 {
        let start = choose|start: int| active_run(by_day, start, n);
        assert(active(by_day, start));
        assert forall|d: i32| start <= d < start + n implies #[trigger] by_day.contains_key(d)
            && by_day[d] > 0 by {
            assert(active(by_day, d as int));
        }
        assert(active(by_day, start + n - 1));
        assert(recorded_run(by_day, start as i32, n));
    }
    assert forall|first: i32, len: nat| #[trigger] recorded_run(by_day, first, len) implies len
        <= n by {
        assert forall|d: int| first <= d < first + len implies active(by_day, d) by {
            assert(by_day.contains_key(d as i32));
        }
        assert(active_run(by_day, first as int, len));
    }
}

/// Whether each of the `len` days from `first` on is recorded with a positive number
/// of tokens.
pub open spec fn recorded_run(by_day: Map<i32, i64>, first: i32, len: nat) -> bool {
    &&& first + len <= i32::MAX + 1
    &&& forall|d: i32|
        first <= d < first + len ==> #[trigger] by_day.contains_key(d) && by_day[d] > 0
}

/// The listed active days are the recorded ones with a positive number of tokens,
/// each once, in ascending order.
pub proof fn law_active_days_are_listed(by_day: Map<i32, i64>, days: Seq<i32>)
    requires
        lists_active_days(by_day, days),
    ensures
        forall|i: int, j: int| 0 <= i < j < days.len() ==> days[i] < days[j],
        forall|d: i32|
            days.contains(d) <==> #[trigger] by_day.contains_key(d) && by_day[d] > 0,
{
    assert forall|d: i32| days.contains(d) <==> #[trigger] by_day.contains_key(d) && by_day[d]
        > 0 by {
        if days.contains(d) {
            let i = days.index_of(d);
            assert(active(by_day, days[i] as int));
        }
        if by_day.contains_key(d) && by_day[d] > 0 {
            assert(active(by_day, d as int));
        }
    }
}

} // verus!
