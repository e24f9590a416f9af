//! Tokens per calendar day: a map from day number to the tokens of that day.
use crate::time::day_in_range;
use std::collections::BTreeMap;
use vstd::prelude::*;

verus! {

/// Whether every recorded day is one that the calendar can represent.
pub open spec fn days_in_range(by_day: Map<i32, i64>) -> bool {
    forall|day: i32| #[trigger] by_day.contains_key(day) ==> day_in_range(day as int)
}

/// Whether `entries` holds the days of `by_day` with their tokens, in ascending
/// order of the days.
pub open spec fn lists_days(by_day: Map<i32, i64>, entries: Seq<(i32, i64)>) -> bool {
    &&& forall|i: int, j: int| 0 <= i < j < entries.len() ==> entries[i].0 < entries[j].0
    &&& forall|i: int|
        0 <= i < entries.len() ==> by_day.contains_key((#[trigger] entries[i]).0)
            && by_day[entries[i].0] == entries[i].1
    &&& forall|day: i32| #[trigger]
        by_day.contains_key(day) ==> entries.contains((day, by_day[day]))
}

/// The days of the map with their tokens, in ascending order.
pub fn day_entries(by_day: &BTreeMap<i32, i64>) -> (entries: Vec<(i32, i64)>)
    ensures
        lists_days(by_day@, entries@),
{
    let mut entries: Vec<(i32, i64)> = Vec::new();
    let walk = by_day.iter();
    let ghost items = vstd::std_specs::iter::IteratorSpec::remaining(&walk);
    proof {
        let keys = items.map_values(|kv: (&i32, &i64)| *kv.0);
        assert(vstd::std_specs::btree::increasing_seq(keys));
        assert forall|i: int, j: int| 0 <= i < j < items.len() implies *(#[trigger] items[i]).0 < *(
        #[trigger] items[j]).0 by {
            assert(vstd::std_specs::cmp::OrdSpec::cmp_spec(&keys[i], &keys[j]) is Less);
        }
    }
    for item in it: walk
        invariant
            it.seq() == items,
            entries@.len() == it.index(),
            forall|i: int|
                0 <= i < it.index() ==> #[trigger] entries@[i] == (*items[i].0, *items[i].1),
    {
        entries.push((*item.0, *item.1));
    }
    proof {
        assert forall|day: i32| #[trigger] by_day@.contains_key(day) implies entries@.contains(
            (day, by_day@[day]),
        ) by {
            let k = items.index_of((&day, &by_day@[day]));
            assert(entries@[k] == (day, by_day@[day]));
        }
        assert forall|i: int| 0 <= i < entries@.len() implies by_day@.contains_key(
            (#[trigger] entries@[i]).0,
        ) && by_day@[entries@[i].0] == entries@[i].1 by {
            assert(by_day@.contains_key(*items[i].0));
        }
    }
    entries
}

/// The entries are the recorded days with their tokens, each once, in ascending
/// order.
pub proof fn law_entries_are_the_recorded_days(by_day: Map<i32, i64>, entries: Seq<(i32, i64)>)
    requires
        lists_days(by_day, entries),
    ensures
        forall|i: int, j: int|
            0 <= i < j < entries.len() ==> (#[trigger] entries[i]).0 < (#[trigger] entries[j]).0,
        forall|day: i32, tokens: i64|
            entries.contains((day, tokens)) <==> #[trigger] by_day.contains_pair(day, tokens),
{
    assert forall|day: i32, tokens: i64|
        entries.contains((day, tokens)) <==> #[trigger] by_day.contains_pair(day, tokens) by {
        if entries.contains((day, tokens)) {
            let i = entries.index_of((day, tokens));
            assert(by_day.contains_key(entries[i].0));
        }
        if by_day.contains_pair(day, tokens) {
            assert(by_day.contains_key(day));
        }
    }
}

} // verus!
