//! The full usage report: sums over periods, streaks, models and recent days.
use crate::daily::{day_entries, days_in_range, lists_days};
use crate::streaks::{
    active, active_dates, active_run, compute_streaks, is_current_streak, is_longest_streak,
    law_current_streak_within_longest, law_streaks_are_unique, lists_active_days,
};
use crate::text::{lemma_text_order, lemma_text_order_transitive, precedes, text_precedes};
use crate::time::{day_in_range, Moment, MAX_DAY, MIN_DAY};
use crate::usage::{models_ascend, ModelUsageSummary, UsageTally};
use std::collections::BTreeMap;
use vstd::prelude::*;
use vstd::seq_lib::*;

verus! {

/// The tokens of one day.
#[derive(Clone, Copy, Debug, PartialEq, Eq, Structural)]
pub struct DailyUsageSummary {
    /// The number of the day.
    pub day: i32,
    pub tokens: i64,
}

/// The full usage report.
#[derive(Clone, Debug)]
pub struct FullObservabilityData {
    pub today_tokens: i64,
    pub seven_day_tokens: i64,
    pub thirty_day_tokens: i64,
    pub all_time_tokens: i64,
    pub active_days: usize,
    pub current_streak_days: usize,
    pub longest_streak_days: usize,
    /// The models, those with the most tokens first.
    pub model_usage: Vec<ModelUsageSummary>,
    /// The last seven days, the oldest first.
    pub recent_days: Vec<DailyUsageSummary>,
    pub scanned_files: usize,
}

/// The tokens of a day as they count towards a sum: a negative count is none.
pub open spec fn counted_tokens(by_day: Map<i32, i64>, day: int) -> int {
    if active(by_day, day) {
        by_day[day as i32] as int
    } else {
        0
    }
}

/// The tokens of the days from `first` to `last`.
pub open spec fn tokens_between(by_day: Map<i32, i64>, first: int, last: int) -> int
    decreases last - first + 1,
{
    if first > last {
        0
    } else {
        tokens_between(by_day, first, last - 1) + counted_tokens(by_day, last)
    }
}

/// The tokens of all days.
pub open spec fn all_tokens(by_day: Map<i32, i64>) -> int {
    tokens_between(by_day, MIN_DAY as int, MAX_DAY as int)
}

/// What recording a number of tokens for a day, in place of what was recorded for
/// it before, does to the tokens of a period.
pub proof fn lemma_tokens_insert(
    by_day: Map<i32, i64>,
    day: i32,
    tokens: i64,
    first: int,
    last: int,
)
    ensures
        tokens_between(by_day.insert(day, tokens), first, last) == tokens_between(
            by_day,
            first,
            last,
        ) + (if first <= day <= last {
            (if tokens > 0 {
                tokens as int
            } else {
                0
            }) - counted_tokens(by_day, day as int)
        } else {
            0
        }),
    decreases last - first + 1,
{
    if first <= last {
        lemma_tokens_insert(by_day, day, tokens, first, last - 1);
        if last != day && i32::MIN <= last <= i32::MAX {
            assert(last as i32 != day);
        }
    }
}

proof fn lemma_tokens_submap(part: Map<i32, i64>, whole: Map<i32, i64>, first: int, last: int)
    requires
        part.submap_of(whole),
    ensures
        0 <= tokens_between(part, first, last) <= tokens_between(whole, first, last),
    decreases last - first + 1,
{
    if first <= last {
        lemma_tokens_submap(part, whole, first, last - 1);
        assert(part.dom().contains(last as i32) ==> whole.dom().contains(last as i32));
    }
}

proof fn lemma_tokens_subrange(
    by_day: Map<i32, i64>,
    first: int,
    inner_first: int,
    inner_last: int,
    last: int,
)
    requires
        first <= inner_first,
        inner_last <= last,
    ensures
        0 <= tokens_between(by_day, inner_first, inner_last) <= tokens_between(by_day, first, last),
    decreases last - first + 1,
{
    if inner_first > inner_last {
        lemma_tokens_submap(by_day, by_day, first, last);
    } else {
        if inner_last < last {
            lemma_tokens_subrange(by_day, first, inner_first, inner_last, last - 1);
        } else {
            lemma_tokens_subrange(by_day, first, inner_first, inner_last - 1, last - 1);
        }
    }
}

/// The first `n` entries as a map.
spec fn prefix_map(entries: Seq<(i32, i64)>, n: int) -> Map<i32, i64>
    decreases n,
{
    if n <= 0 {
        Map::empty()
    } else {
        prefix_map(entries, n - 1).insert(entries[n - 1].0, entries[n - 1].1)
    }
}

proof fn lemma_prefix_map(by_day: Map<i32, i64>, entries: Seq<(i32, i64)>, n: int)
    requires
        lists_days(by_day, entries),
        0 <= n <= entries.len(),
    ensures
        prefix_map(entries, n).submap_of(by_day),
        forall|i: int|
            0 <= i < n ==> prefix_map(entries, n).contains_key((#[trigger] entries[i]).0),
        forall|i: int|
            n <= i < entries.len() ==> !prefix_map(entries, n).contains_key(
                (#[trigger] entries[i]).0,
            ),
        n == entries.len() ==> prefix_map(entries, n) == by_day,
    decreases n,
{
    if n > 0 {
        lemma_prefix_map(by_day, entries, n - 1);
        assert(by_day.contains_key(entries[n - 1].0));
    }
    if n == entries.len() {
        assert forall|day: i32| #[trigger] by_day.contains_key(day) implies prefix_map(
            entries,
            n,
        ).contains_key(day) by {
            let i = entries.index_of((day, by_day[day]));
            assert(entries[i].0 == day);
        }
        assert(prefix_map(entries, n) =~= by_day);
    }
}

/// No days have no tokens.
pub proof fn lemma_no_tokens(first: int, last: int)
    ensures
        tokens_between(Map::empty(), first, last) == 0,
    decreases last - first + 1,
{
    if first <= last {
        lemma_no_tokens(first, last - 1);
    }
}

/// The sums over the first `n + 1` entries, from those over the first `n`.
proof fn lemma_next_entry(
    by_day: Map<i32, i64>,
    entries: Seq<(i32, i64)>,
    n: int,
    first: int,
    last: int,
)
    requires
        lists_days(by_day, entries),
        0 <= n < entries.len(),
    ensures
        tokens_between(prefix_map(entries, n + 1), first, last) == tokens_between(
            prefix_map(entries, n),
            first,
            last,
        ) + (if first <= entries[n].0 <= last && entries[n].1 > 0 {
            entries[n].1 as int
        } else {
            0
        }),
        tokens_between(prefix_map(entries, n + 1), first, last) <= tokens_between(
            by_day,
            first,
            last,
        ),
{
    lemma_prefix_map(by_day, entries, n);
    lemma_prefix_map(by_day, entries, n + 1);
    lemma_tokens_insert(prefix_map(entries, n), entries[n].0, entries[n].1, first, last);
    lemma_tokens_submap(prefix_map(entries, n + 1), by_day, first, last);
}

/// The tokens of all days, or `None` where they exceed 64 bits.
pub fn all_time_tokens(by_day: &BTreeMap<i32, i64>) -> (r: Option<i64>)
    requires
        days_in_range(by_day@),
    ensures
        r is Some <==> all_tokens(by_day@) <= i64::MAX,
        r matches Some(tokens) ==> tokens == all_tokens(by_day@),
{
    let entries = day_entries(by_day);
    let mut sum: i64 = 0;
    proof {
        lemma_no_tokens(MIN_DAY as int, MAX_DAY as int);
    }
    for n in 0..entries.len()
        invariant
            days_in_range(by_day@),
            lists_days(by_day@, entries@),
            0 <= sum == all_tokens(prefix_map(entries@, n as int)),
    {
        let (day, tokens) = entries[n];
        proof {
            lemma_next_entry(by_day@, entries@, n as int, MIN_DAY as int, MAX_DAY as int);
            assert(by_day@.contains_key(entries@[n as int].0));
        }
        if tokens > 0 {
            match sum.checked_add(tokens) {
                Some(next) => {
                    sum = next;
                },
                None => {
                    return None;
                },
            }
        }
    }
    proof {
        lemma_prefix_map(by_day@, entries@, entries@.len() as int);
    }
    Some(sum)
}

/// Tokens of the periods that end with a given day.
struct PeriodTokens {
    today: i64,
    seven_days: i64,
    thirty_days: i64,
    all_time: i64,
}

/// The tokens of the periods that end with `today`.
fn period_tokens(by_day: &BTreeMap<i32, i64>, today: i32) -> (r: PeriodTokens)
    requires
        days_in_range(by_day@),
        day_in_range(today as int),
        all_tokens(by_day@) <= i64::MAX,
    ensures
        r.today == counted_tokens(by_day@, today as int),
        r.seven_days == tokens_between(by_day@, today - 6, today as int),
        r.thirty_days == tokens_between(by_day@, today - 29, today as int),
        r.all_time == all_tokens(by_day@),
{
    let entries = day_entries(by_day);
    let mut r = PeriodTokens { today: 0, seven_days: 0, thirty_days: 0, all_time: 0 };
    let ghost last = today as int;
    proof {
        lemma_no_tokens(MIN_DAY as int, MAX_DAY as int);
        lemma_no_tokens(last - 29, last);
        lemma_no_tokens(last - 6, last);
        lemma_no_tokens(last, last);
    }
    for n in 0..entries.len()
        invariant
            days_in_range(by_day@),
            day_in_range(today as int),
            last == today,
            lists_days(by_day@, entries@),
            all_tokens(by_day@) <= i64::MAX,
            0 <= r.today == tokens_between(prefix_map(entries@, n as int), last, last),
            0 <= r.seven_days == tokens_between(prefix_map(entries@, n as int), last - 6, last),
            0 <= r.thirty_days == tokens_between(prefix_map(entries@, n as int), last - 29, last),
            0 <= r.all_time == all_tokens(prefix_map(entries@, n as int)),
    {
        let (day, tokens) = entries[n];
        let value: i64 = if tokens > 0 {
            tokens
        } else {
            0
        };
        proof {
            assert(by_day@.contains_key(entries@[n as int].0));
            let m = prefix_map(entries@, n + 1);
            lemma_next_entry(by_day@, entries@, n as int, MIN_DAY as int, MAX_DAY as int);
            lemma_next_entry(by_day@, entries@, n as int, last - 29, last);
            lemma_next_entry(by_day@, entries@, n as int, last - 6, last);
            lemma_next_entry(by_day@, entries@, n as int, last, last);
            lemma_prefix_map(by_day@, entries@, n + 1);
            assert forall|d: i32| #[trigger] m.contains_key(d) implies day_in_range(d as int) by {
                assert(m.dom().contains(d));
                assert(by_day@.contains_key(d));
            }
            lemma_tokens_in_period(m, last - 29, last);
            lemma_tokens_in_period(m, last - 6, last);
            lemma_tokens_in_period(m, last, last);
        }
        r.all_time = r.all_time + value;
        let delta_days: i32 = today - day;
        if delta_days == 0 {
            r.today = r.today + value;
        }
        if 0 <= delta_days && delta_days < 7 {
            r.seven_days = r.seven_days + value;
        }
        if 0 <= delta_days && delta_days < 30 {
            r.thirty_days = r.thirty_days + value;
        }
    }
    proof {
        lemma_prefix_map(by_day@, entries@, entries@.len() as int);
        assert(tokens_between(by_day@, last, last) == tokens_between(by_day@, last, last - 1)
            + counted_tokens(by_day@, last));
    }
    r
}

/// A period has no more tokens than all days together, even where it reaches
/// beyond the calendar.
proof fn lemma_tokens_in_period(by_day: Map<i32, i64>, first: int, last: int)
    requires
        days_in_range(by_day),
    ensures
        0 <= tokens_between(by_day, first, last) <= all_tokens(by_day),
{
    let low = if first < MIN_DAY { MIN_DAY as int } else { first };
    let high = if last > MAX_DAY { MAX_DAY as int } else { last };
    lemma_clip(by_day, first, last);
    lemma_tokens_subrange(by_day, MIN_DAY as int, low, high, MAX_DAY as int);
}

/// Days outside the calendar have no tokens.
proof fn lemma_clip(by_day: Map<i32, i64>, first: int, last: int)
    requires
        days_in_range(by_day),
    ensures
        tokens_between(by_day, first, last) == tokens_between(
            by_day,
            if first < MIN_DAY { MIN_DAY as int } else { first },
            if last > MAX_DAY { MAX_DAY as int } else { last },
        ),
    decreases last - first + 1,
{
    if first <= last {
        lemma_clip(by_day, first, last - 1);
        if !day_in_range(last) {
            assert(counted_tokens(by_day, last) == 0);
        }
    }
}

/// The order of the models in a report: more tokens first, and among equals the
/// model name that comes first.
pub open spec fn ranks_higher(a: ModelUsageSummary, b: ModelUsageSummary) -> bool {
    a.tokens > b.tokens || (a.tokens == b.tokens && text_precedes(a.model@, b.model@))
}

/// Whether no summary ranks higher than one before it.
pub open spec fn ranked(models: Seq<ModelUsageSummary>) -> bool {
    forall|i: int, j: int|
        0 <= i < j < models.len() ==> !ranks_higher(#[trigger] models[j], #[trigger] models[i])
}

fn outranks(a: &ModelUsageSummary, b: &ModelUsageSummary) -> (r: bool)
    ensures
        r == ranks_higher(*a, *b),
{
    a.tokens > b.tokens || (a.tokens == b.tokens && precedes(a.model.as_str(), b.model.as_str()))
}

proof fn lemma_ranks(a: ModelUsageSummary, b: ModelUsageSummary, c: ModelUsageSummary)
    ensures
        ranks_higher(a, b) ==> !ranks_higher(b, a),
        ranks_higher(a, b) && ranks_higher(b, c) ==> ranks_higher(a, c),
{
    lemma_text_order(a.model@, b.model@);
    if text_precedes(a.model@, b.model@) && text_precedes(b.model@, c.model@) {
        lemma_text_order_transitive(a.model@, b.model@, c.model@);
    }
}

/// Puts the summaries in the order of a report.
pub fn rank_models(models: Vec<ModelUsageSummary>) -> (sorted: Vec<ModelUsageSummary>)
    ensures
        ranked(sorted@),
        sorted@.to_multiset() == models@.to_multiset(),
{
    broadcast use group_to_multiset_ensures;

    let mut models = models;
    let ghost all = models@.to_multiset();
    let mut sorted: Vec<ModelUsageSummary> = Vec::new();
    proof {
        assert(sorted@.to_multiset().add(models@.to_multiset()) =~= all);
    }
    while models.len() > 0
        invariant
            ranked(sorted@),
            sorted@.to_multiset().add(models@.to_multiset()) == all,
        decreases models@.len(),
    {
        let ghost waiting = models@;
        let ghost placed = sorted@;
        let item = models.pop().unwrap();
        let mut place: usize = 0;
        while place < sorted.len() && !outranks(&item, &sorted[place])
            invariant
                sorted@ == placed,
                place <= placed.len(),
                forall|i: int| 0 <= i < place ==> !ranks_higher(item, #[trigger] placed[i]),
            decreases sorted.len() - place,
        {
            place += 1;
        }
        proof {
            assert forall|j: int| place <= j < placed.len() implies !ranks_higher(
                #[trigger] placed[j],
                item,
            ) by {
                lemma_ranks(item, placed[place as int], item);
                lemma_ranks(placed[j], item, placed[place as int]);
            }
            let after = placed.insert(place as int, item);
            assert forall|i: int, j: int| 0 <= i < j < after.len() implies !ranks_higher(
                #[trigger] after[j],
                #[trigger] after[i],
            ) by {
                let oi = if i < place { i } else { i - 1 };
                let oj = if j < place { j } else { j - 1 };
                assert(i != place ==> after[i] == placed[oi]);
                assert(j != place ==> after[j] == placed[oj]);
            }
            to_multiset_insert(placed, place as int, item);
            assert(waiting =~= models@.push(item));
            to_multiset_build(models@, item);
            assert(placed.to_multiset().insert(item).add(models@.to_multiset())
                =~= placed.to_multiset().add(models@.to_multiset().insert(item)));
        }
        sorted.insert(place, item);
    }
    proof {
        assert(models@.to_multiset() =~= vstd::multiset::Multiset::<ModelUsageSummary>::empty());
        assert(sorted@.to_multiset() =~= all);
    }
    sorted
}

/// The days with tokens.
pub open spec fn active_days(by_day: Map<i32, i64>) -> Set<i32> {
    by_day.dom().filter(|day: i32| by_day[day] > 0)
}

proof fn lemma_active_days_listed(by_day: Map<i32, i64>, days: Seq<i32>)
    requires
        lists_active_days(by_day, days),
    ensures
        active_days(by_day).finite(),
        active_days(by_day).len() == days.len(),
{
    assert forall|day: i32| active_days(by_day).contains(day) <==> days.to_set().contains(
        day,
    ) by {
        if active_days(by_day).contains(day) {
            assert(active(by_day, day as int));
        }
        if days.contains(day) {
            let i = days.index_of(day);
            assert(active(by_day, days[i] as int));
        }
    }
    assert(active_days(by_day) =~= days.to_set());
    assert(days.no_duplicates());
    days.unique_seq_to_set();
    seq_to_set_is_finite(days);
}

/// The tokens recorded for a day, whatever their sign.
pub open spec fn recorded_tokens(by_day: Map<i32, i64>, day: int) -> int {
    if i32::MIN <= day <= i32::MAX && by_day.contains_key(day as i32) {
        by_day[day as i32] as int
    } else {
        0
    }
}

/// Whether `days` are the seven days that end with `today`, the oldest first,
/// each with the tokens recorded for it.
pub open spec fn is_recent_week(
    by_day: Map<i32, i64>,
    today: int,
    days: Seq<DailyUsageSummary>,
) -> bool {
    &&& days.len() == 7
    &&& forall|i: int|
        0 <= i < 7 ==> (#[trigger] days[i]).day == today - 6 + i && days[i].tokens
            == recorded_tokens(by_day, today - 6 + i)
}

/// The seven days that end with `today`, the oldest first.
pub fn recent_week(by_day: &BTreeMap<i32, i64>, today: i32) -> (days: Vec<DailyUsageSummary>)
    requires
        MIN_DAY + 6 <= today <= MAX_DAY,
    ensures
        is_recent_week(by_day@, today as int, days@),
{
    let mut days: Vec<DailyUsageSummary> = Vec::new();
    for i in 0..7i32
        invariant
            MIN_DAY + 6 <= today <= MAX_DAY,
            days@.len() == i,
            forall|j: int|
                0 <= j < i ==> (#[trigger] days@[j]).day == today - 6 + j && days@[j].tokens
                    == recorded_tokens(by_day@, today - 6 + j),
    {
        let day: i32 = today - 6 + i;
        let tokens: i64 = match by_day.get(&day) {
            Some(tokens) => *tokens,
            None => 0,
        };
        days.push(DailyUsageSummary { day, tokens });
    }
    days
}

/// Whether `data` is the report on a tally that `scanned_files` files gave, as of
/// the day `today`.
pub open spec fn is_report(
    data: FullObservabilityData,
    usage: UsageTally,
    today: int,
    scanned_files: usize,
) -> bool {
    let by_day = usage.by_day@;
    &&& data.today_tokens == counted_tokens(by_day, today)
    &&& data.seven_day_tokens == tokens_between(by_day, today - 6, today)
    &&& data.thirty_day_tokens == tokens_between(by_day, today - 29, today)
    &&& data.all_time_tokens == all_tokens(by_day)
    &&& data.active_days == active_days(by_day).len()
    &&& is_current_streak(by_day, today, data.current_streak_days as nat)
    &&& is_longest_streak(by_day, data.longest_streak_days as nat)
    &&& ranked(data.model_usage@)
    &&& data.model_usage@.to_multiset() == usage.by_model@.to_multiset()
    &&& is_recent_week(by_day, today, data.recent_days@)
    &&& data.scanned_files == scanned_files
}

/// The full usage report on a tally that `scanned_files` files gave, as of `now`.
/// There is none where no file was found or no tokens were spent.
pub fn compute_full_observability(
    scanned_files: usize,
    usage: UsageTally,
    now: Moment,
) -> (r: Option<FullObservabilityData>)
    requires
        usage.wf(),
        now.wf(),
        scanned_files > 0 && usage.by_day@.len() > 0 ==> day_in_range(now.day()),
        scanned_files > 0 && all_tokens(usage.by_day@) > 0 ==> MIN_DAY + 6 <= now.day(),
        scanned_files > 0 ==> all_tokens(usage.by_day@) <= i64::MAX,
    ensures
        r is Some <==> scanned_files > 0 && all_tokens(usage.by_day@) > 0,
        r matches Some(data) ==> is_report(data, usage, now.day(), scanned_files),
{
    if scanned_files == 0 {
        return None;
    }
    let UsageTally { by_day, by_model } = usage;
    if by_day.is_empty() {
        proof {
            assert(by_day@ =~= Map::empty());
            lemma_no_tokens(MIN_DAY as int, MAX_DAY as int);
        }
        return None;
    }
    let today: i32 = now.date_naive();
    let periods = period_tokens(&by_day, today);
    if periods.all_time <= 0 {
        return None;
    }
    let active = active_dates(&by_day);
    proof {
        lemma_active_days_listed(by_day@, active@);
    }
    let (current_streak_days, longest_streak_days) = compute_streaks(&by_day, today);
    let model_usage = rank_models(by_model);
    let recent_days = recent_week(&by_day, today);
    Some(
        FullObservabilityData {
            today_tokens: periods.today,
            seven_day_tokens: periods.seven_days,
            thirty_day_tokens: periods.thirty_days,
            all_time_tokens: periods.all_time,
            active_days: active.len(),
            current_streak_days,
            longest_streak_days,
            model_usage,
            recent_days,
            scanned_files,
        },
    )
}

/// The shorter of two periods that end today never has more tokens, and no period
/// has more than all days together.
pub proof fn law_periods_nest(by_day: Map<i32, i64>, today: int)
    requires
        days_in_range(by_day),
    ensures
        0 <= counted_tokens(by_day, today) <= tokens_between(by_day, today - 6, today)
            <= tokens_between(by_day, today - 29, today) <= all_tokens(by_day),
{
    assert(tokens_between(by_day, today, today) == tokens_between(by_day, today, today - 1)
        + counted_tokens(by_day, today));
    lemma_tokens_subrange(by_day, today - 6, today, today, today);
    lemma_tokens_subrange(by_day, today - 29, today - 6, today, today);
    lemma_tokens_in_period(by_day, today - 29, today);
}

/// The tokens of the listed days together, a negative count being none.
pub open spec fn listed_tokens(days: Seq<DailyUsageSummary>) -> int
    decreases days.len(),
{
    if days.len() == 0 {
        0
    } else {
        listed_tokens(days.drop_last()) + (if days.last().tokens > 0 {
            days.last().tokens as int
        } else {
            0
        })
    }
}

proof fn lemma_listed_tokens(
    by_day: Map<i32, i64>,
    today: int,
    days: Seq<DailyUsageSummary>,
    n: int,
)
    requires
        is_recent_week(by_day, today, days),
        0 <= n <= 7,
    ensures
        listed_tokens(days.take(n)) == tokens_between(by_day, today - 6, today - 7 + n),
    decreases n,
{
    if n > 0 {
        lemma_listed_tokens(by_day, today, days, n - 1);
        assert(days.take(n).drop_last() =~= days.take(n - 1));
        assert(days[n - 1].day == today - 7 + n);
    }
}

/// The seven listed days together have the tokens of the last seven days.
pub proof fn law_recent_week_adds_up(
    by_day: Map<i32, i64>,
    today: int,
    days: Seq<DailyUsageSummary>,
)
    requires
        is_recent_week(by_day, today, days),
    ensures
        listed_tokens(days) == tokens_between(by_day, today - 6, today),
{
    lemma_listed_tokens(by_day, today, days, 7);
    assert(days.take(7) =~= days);
}

proof fn lemma_tokens_of_idle_days(by_day: Map<i32, i64>, first: int, last: int)
    ensures
        tokens_between(by_day, first, last) > 0 <==> exists|d: int|
            first <= d <= last && #[trigger] active(by_day, d),
    decreases last - first + 1,
{
    if first <= last {
        lemma_tokens_of_idle_days(by_day, first, last - 1);
        lemma_tokens_submap(by_day, by_day, first, last - 1);
        if active(by_day, last) {
            assert(first <= last <= last);
        }
        if exists|d: int| first <= d <= last - 1 && #[trigger] active(by_day, d) {
            let d = choose|d: int| first <= d <= last - 1 && #[trigger] active(by_day, d);
            assert(first <= d <= last && active(by_day, d));
        }
    }
}

/// Tokens were spent exactly if some day is active.
pub proof fn law_tokens_need_an_active_day(by_day: Map<i32, i64>)
    requires
        days_in_range(by_day),
    ensures
        all_tokens(by_day) > 0 <==> exists|d: int| #[trigger] active(by_day, d),
{
    lemma_tokens_of_idle_days(by_day, MIN_DAY as int, MAX_DAY as int);
    if exists|d: int| #[trigger] active(by_day, d) {
        let d = choose|d: int| #[trigger] active(by_day, d);
        assert(by_day.contains_key(d as i32));
        assert(MIN_DAY <= d <= MAX_DAY && active(by_day, d));
    }
}

proof fn lemma_run_within(by_day: Map<i32, i64>, days: Set<i32>, start: int, len: nat)
    requires
        days.finite(),
        active_run(by_day, start, len),
        forall|d: int| start <= d < start + len && #[trigger] active(by_day, d) ==> days.contains(
            d as i32,
        ),
    ensures
        len <= days.len(),
    decreases len,
{
    if len > 0 {
        let last = start + len - 1;
        assert(active(by_day, last));
        let rest = days.remove(last as i32);
        assert forall|d: int| start <= d < start + len - 1 && #[trigger] active(
            by_day,
            d,
        ) implies rest.contains(d as i32) by {
            assert(d as i32 != last as i32);
        }
        assert(active_run(by_day, start, (len - 1) as nat));
        lemma_run_within(by_day, rest, start, (len - 1) as nat);
    }
}

proof fn lemma_days_are_finite(days: Set<i32>, end: int)
    requires
        end <= MAX_DAY + 1,
        forall|d: i32| #[trigger] days.contains(d) ==> MIN_DAY <= d < end,
    ensures
        days.finite(),
    decreases end - MIN_DAY,
{
    if end <= MIN_DAY {
        assert(days =~= Set::empty());
    } else {
        let last = (end - 1) as i32;
        let rest = days.remove(last);
        lemma_days_are_finite(rest, end - 1);
        if days.contains(last) {
            assert(days =~= rest.insert(last));
        } else {
            assert(days =~= rest);
        }
    }
}

/// No streak is longer than the number of active days.
pub proof fn law_streak_within_active_days(by_day: Map<i32, i64>, longest: nat)
    requires
        days_in_range(by_day),
        is_longest_streak(by_day, longest),
    ensures
        longest <= active_days(by_day).len(),
{
    lemma_days_are_finite(by_day.dom(), MAX_DAY + 1);
    let start = choose|start: int| active_run(by_day, start, longest);
    lemma_run_within(by_day, active_days(by_day), start, longest);
}

/// A report is consistent in itself: the periods nest, the listed week adds up to
/// its period, the current streak is no longer than the longest one, and that one
/// has at least one day and no more days than were active.
pub proof fn law_report_is_consistent(
    data: FullObservabilityData,
    usage: UsageTally,
    today: int,
    scanned_files: usize,
)
    requires
        usage.wf(),
        is_report(data, usage, today, scanned_files),
        all_tokens(usage.by_day@) > 0,
    ensures
        0 <= data.today_tokens <= data.seven_day_tokens <= data.thirty_day_tokens
            <= data.all_time_tokens,
        listed_tokens(data.recent_days@) == data.seven_day_tokens,
        data.current_streak_days <= data.longest_streak_days,
        1 <= data.longest_streak_days <= data.active_days,
{
    let by_day = usage.by_day@;
    law_periods_nest(by_day, today);
    law_recent_week_adds_up(by_day, today, data.recent_days@);
    law_current_streak_within_longest(
        by_day,
        today,
        data.current_streak_days as nat,
        data.longest_streak_days as nat,
    );
    law_tokens_need_an_active_day(by_day);
    let d = choose|d: int| #[trigger] active(by_day, d);
    assert(active_run(by_day, d, 1));
    law_streak_within_active_days(by_day, data.longest_streak_days as nat);
}

/// Whether no two of the summaries are of the same model.
pub open spec fn models_distinct(models: Seq<ModelUsageSummary>) -> bool {
    forall|i: int, j: int|
        0 <= i < j < models.len() ==> (#[trigger] models[i]).model@ != (
        #[trigger] models[j]).model@
}

/// Summaries of distinct models have one order in a report.
pub proof fn law_ranking_is_unique(a: Seq<ModelUsageSummary>, b: Seq<ModelUsageSummary>)
    requires
        ranked(a),
        ranked(b),
        a.to_multiset() == b.to_multiset(),
        models_distinct(a),
    ensures
        a == b,
    decreases a.len(),
{
    broadcast use group_to_multiset_ensures;

    to_multiset_len(a);
    to_multiset_len(b);
    if a.len() > 0 {
        assert(b.contains(a[0])) by {
            assert(a.contains(a[0]));
            assert(a.to_multiset().count(a[0]) > 0);
        }
        assert(a.contains(b[0])) by {
            assert(b.contains(b[0]));
            assert(b.to_multiset().count(b[0]) > 0);
        }
        let i = a.index_of(b[0]);
        let j = b.index_of(a[0]);
        lemma_text_order(a[0].model@, b[0].model@);
        if i > 0 {
            assert(!ranks_higher(a[i], a[0]));
            assert(a[0].model@ != a[i].model@);
            assert(j > 0);
            assert(!ranks_higher(b[j], b[0]));
        }
        assert(a[0] == b[0]);
        let ra = a.drop_first();
        let rb = b.drop_first();
        assert(ra =~= a.remove(0));
        assert(rb =~= b.remove(0));
        assert(ra.to_multiset() =~= rb.to_multiset());
        assert forall|x: int, y: int| 0 <= x < y < ra.len() implies !ranks_higher(
            #[trigger] ra[y],
            #[trigger] ra[x],
        ) by {
            assert(ra[x] == a[x + 1] && ra[y] == a[y + 1]);
        }
        assert forall|x: int, y: int| 0 <= x < y < rb.len() implies !ranks_higher(
            #[trigger] rb[y],
            #[trigger] rb[x],
        ) by {
            assert(rb[x] == b[x + 1] && rb[y] == b[y + 1]);
        }
        assert forall|x: int, y: int| 0 <= x < y < ra.len() implies (#[trigger] ra[x]).model@ != (
        #[trigger] ra[y]).model@ by {
            assert(ra[x] == a[x + 1] && ra[y] == a[y + 1]);
        }
        law_ranking_is_unique(ra, rb);
        assert(a =~= seq![a[0]] + ra);
        assert(b =~= seq![b[0]] + rb);
    } else {
        assert(a =~= b);
    }
}

/// A table in order, in whatever order it is put, names each model once.
proof fn lemma_models_stay_distinct(table: Seq<ModelUsageSummary>, models: Seq<ModelUsageSummary>)
    requires
        models_ascend(table),
        models.to_multiset() == table.to_multiset(),
    ensures
        models_distinct(models),
{
    broadcast use group_to_multiset_ensures;

    assert forall|i: int, j: int| 0 <= i < j < table.len() implies (#[trigger] table[i]).model@ != (
    #[trigger] table[j]).model@ by {
        lemma_text_order(table[i].model@, table[j].model@);
    }
    assert(table.no_duplicates()) by {
        assert forall|i: int, j: int|
            0 <= i < table.len() && 0 <= j < table.len() && i != j implies table[i] != table[j] by {
            let low = if i < j { i } else { j };
            let high = if i < j { j } else { i };
            assert(table[low].model@ != table[high].model@);
        }
    }
    table.lemma_multiset_has_no_duplicates();
    models.lemma_multiset_has_no_duplicates_conv();
    assert forall|i: int, j: int| 0 <= i < j < models.len() implies (
    #[trigger] models[i]).model@ != (#[trigger] models[j]).model@ by {
        assert(models.contains(models[i]) && models.contains(models[j]));
        assert(models.to_multiset().count(models[i]) > 0);
        assert(models.to_multiset().count(models[j]) > 0);
        assert(table.contains(models[i]) && table.contains(models[j]));
        let p = table.index_of(models[i]);
        let q = table.index_of(models[j]);
        assert(p != q);
        let low = if p < q { p } else { q };
        let high = if p < q { q } else { p };
        assert(table[low].model@ != table[high].model@);
    }
}

/// There is one report on a tally.
pub proof fn law_report_is_unique(
    a: FullObservabilityData,
    b: FullObservabilityData,
    usage: UsageTally,
    today: int,
    scanned_files: usize,
)
    requires
        usage.wf(),
        is_report(a, usage, today, scanned_files),
        is_report(b, usage, today, scanned_files),
    ensures
        a.today_tokens == b.today_tokens,
        a.seven_day_tokens == b.seven_day_tokens,
        a.thirty_day_tokens == b.thirty_day_tokens,
        a.all_time_tokens == b.all_time_tokens,
        a.active_days == b.active_days,
        a.current_streak_days == b.current_streak_days,
        a.longest_streak_days == b.longest_streak_days,
        a.model_usage@ == b.model_usage@,
        a.recent_days@ == b.recent_days@,
        a.scanned_files == b.scanned_files,
{
    let by_day = usage.by_day@;
    law_streaks_are_unique(
        by_day,
        today,
        a.current_streak_days as nat,
        b.current_streak_days as nat,
    );
    law_streaks_are_unique(
        by_day,
        today,
        a.longest_streak_days as nat,
        b.longest_streak_days as nat,
    );
    lemma_models_stay_distinct(usage.by_model@, a.model_usage@);
    law_ranking_is_unique(a.model_usage@, b.model_usage@);
    assert forall|i: int| 0 <= i < 7 implies a.recent_days@[i] == b.recent_days@[i] by {
        assert(a.recent_days@[i].day == b.recent_days@[i].day);
    }
    assert(a.recent_days@ =~= b.recent_days@);
}

/// In a list of models in the order of a report, no model has more tokens than one
/// before it, and of two with equally many the name of the later one does not come
/// first. What was cached plays no part.
pub proof fn law_ranking_puts_more_tokens_first(models: Seq<ModelUsageSummary>)
    ensures
        ranked(models) <==> forall|i: int, j: int|
            0 <= i < j < models.len() ==> {
                &&& (#[trigger] models[i]).tokens >= (#[trigger] models[j]).tokens
                &&& models[i].tokens == models[j].tokens ==> !text_precedes(
                    models[j].model@,
                    models[i].model@,
                )
            },
{
    if ranked(models) {
        assert forall|i: int, j: int| 0 <= i < j < models.len() implies {
            &&& (#[trigger] models[i]).tokens >= (#[trigger] models[j]).tokens
            &&& models[i].tokens == models[j].tokens ==> !text_precedes(
                models[j].model@,
                models[i].model@,
            )
        } by {
            assert(!ranks_higher(models[j], models[i]));
        }
    }
}

/// A day counts with the tokens recorded for it where these are positive, and with
/// none otherwise.
pub proof fn law_day_counts_with_its_tokens(by_day: Map<i32, i64>, day: i32)
    ensures
        tokens_between(by_day, day as int, day as int) == counted_tokens(by_day, day as int),
        by_day.contains_key(day) && by_day[day] > 0 ==> counted_tokens(by_day, day as int)
            == by_day[day],
        !by_day.contains_key(day) || by_day[day] <= 0 ==> counted_tokens(by_day, day as int) == 0,
{
    assert(tokens_between(by_day, day as int, day - 1) == 0);
}

/// The tokens of a period are those of its two parts together, and a period without
/// days has none.
pub proof fn law_period_is_the_sum_of_its_parts(
    by_day: Map<i32, i64>,
    first: int,
    mid: int,
    last: int,
)
    requires
        first <= mid + 1,
        mid <= last,
    ensures
        tokens_between(by_day, first, last) == tokens_between(by_day, first, mid) + tokens_between(
            by_day,
            mid + 1,
            last,
        ),
        first > last ==> tokens_between(by_day, first, last) == 0,
    decreases last - mid,
{
    if mid < last {
        law_period_is_the_sum_of_its_parts(by_day, first, mid, last - 1);
    }
}

/// Recording a day that was not recorded before adds its tokens, where they are
/// positive, to the sum of all days, and to the sums of today, of the last seven and
/// of the last thirty days exactly if it is one of them.
pub proof fn law_new_day_adds_to_its_periods(
    by_day: Map<i32, i64>,
    day: i32,
    tokens: i64,
    today: int,
)
    requires
        !by_day.contains_key(day),
        day_in_range(day as int),
    ensures
        ({
            let after = by_day.insert(day, tokens);
            let gain: int = if tokens > 0 {
                tokens as int
            } else {
                0
            };
            &&& all_tokens(after) == all_tokens(by_day) + gain
            &&& counted_tokens(after, today) == counted_tokens(by_day, today) + if day == today {
                gain
            } else {
                0
            }
            &&& tokens_between(after, today - 6, today) == tokens_between(by_day, today - 6, today)
                + if 0 <= today - day < 7 {
                gain
            } else {
                0
            }
            &&& tokens_between(after, today - 29, today) == tokens_between(
                by_day,
                today - 29,
                today,
            ) + if 0 <= today - day < 30 {
                gain
            } else {
                0
            }
        }),
        all_tokens(Map::empty()) == 0,
{
    lemma_no_tokens(MIN_DAY as int, MAX_DAY as int);
    lemma_tokens_insert(by_day, day, tokens, MIN_DAY as int, MAX_DAY as int);
    lemma_tokens_insert(by_day, day, tokens, today - 6, today);
    lemma_tokens_insert(by_day, day, tokens, today - 29, today);
    if day != today && i32::MIN <= today <= i32::MAX {
        assert(today as i32 != day);
    }
}

/// Tokens were spent exactly if a positive number of them is recorded for some day.
pub proof fn law_tokens_are_of_a_recorded_day(by_day: Map<i32, i64>)
    requires
        days_in_range(by_day),
    ensures
        all_tokens(by_day) > 0 <==> exists|day: i32| #[trigger]
            by_day.contains_key(day) && by_day[day] > 0,
{
    law_tokens_need_an_active_day(by_day);
    if exists|d: int| #[trigger] active(by_day, d) {
        let d = choose|d: int| #[trigger] active(by_day, d);
        assert(by_day.contains_key(d as i32) && by_day[d as i32] > 0);
    }
    if exists|day: i32| #[trigger] by_day.contains_key(day) && by_day[day] > 0 {
        let day = choose|day: i32| #[trigger] by_day.contains_key(day) && by_day[day] > 0;
        assert(active(by_day, day as int));
    }
}

/// What the figures of a report are: the tokens of today, of the seven and of the
/// thirty days that end with it and of all days; the number of recorded days with a
/// positive number of tokens, and the streaks of them; the models of the tally, each once, those with more
/// tokens first; the last seven days with what is recorded for them, the oldest
/// first; and the number of files.
pub proof fn law_report_figures(
    data: FullObservabilityData,
    usage: UsageTally,
    today: i32,
    scanned_files: usize,
)
    requires
        is_report(data, usage, today as int, scanned_files),
        i32::MIN + 6 <= today,
    ensures
        ({
            let by_day = usage.by_day@;
            &&& data.today_tokens == tokens_between(by_day, today as int, today as int)
            &&& data.seven_day_tokens == tokens_between(by_day, today - 6, today as int)
            &&& data.thirty_day_tokens == tokens_between(by_day, today - 29, today as int)
            &&& data.all_time_tokens == tokens_between(by_day, MIN_DAY as int, MAX_DAY as int)
            &&& data.active_days == by_day.dom().filter(|day: i32| by_day[day] > 0).len()
            &&& is_current_streak(by_day, today as int, data.current_streak_days as nat)
            &&& is_longest_streak(by_day, data.longest_streak_days as nat)
            &&& data.scanned_files == scanned_files
            &&& data.recent_days@.len() == 7
            &&& forall|i: int|
                0 <= i < 7 ==> (#[trigger] data.recent_days@[i]).day == today - 6 + i
                    && data.recent_days@[i].tokens == if by_day.contains_key(
                    data.recent_days@[i].day,
                ) {
                    by_day[data.recent_days@[i].day]
                } else {
                    0
                }
        }),
        data.model_usage@.to_multiset() == usage.by_model@.to_multiset(),
        forall|i: int, j: int|
            0 <= i < j < data.model_usage@.len() ==> {
                let (above, below) = (
                    #[trigger] data.model_usage@[i],
                    #[trigger] data.model_usage@[j],
                );
                &&& above.tokens >= below.tokens
                &&& above.tokens == below.tokens ==> !text_precedes(below.model@, above.model@)
            },
{
    law_day_counts_with_its_tokens(usage.by_day@, today);
    law_ranking_puts_more_tokens_first(data.model_usage@);
}

/// The seven listed days end with today, the oldest first, and each shows what is
/// recorded for it, or nothing.
pub proof fn law_recent_week_shows_recorded_days(
    by_day: Map<i32, i64>,
    today: int,
    days: Seq<DailyUsageSummary>,
)
    requires
        is_recent_week(by_day, today, days),
    ensures
        days.len() == 7,
        forall|i: int|
            0 <= i < 7 ==> (#[trigger] days[i]).day == today - 6 + i && days[i].tokens
                == if by_day.contains_key(days[i].day) {
                by_day[days[i].day]
            } else {
                0
            },
{
}

} // verus!
