//! The sums per day and the sums per model of a tally agree.
use crate::daily::days_in_range;
use crate::observability::{
    all_tokens, counted_tokens, is_report, lemma_no_tokens, lemma_tokens_insert,
    FullObservabilityData,
};
use crate::rollout::{
    counted_days_in_range, days_allowed, scan_line, scan_lines, scan_outcome, RolloutItem,
    RolloutLine, ScanState,
};
use crate::text::lemma_text_order;
use crate::time::{day_in_range, MAX_DAY, MIN_DAY};
use crate::usage::{
    lemma_model_map, model_map, models_ascend, names_model, ModelTotals, ModelUsageSummary, Totals,
    UsageTally,
};
use vstd::prelude::*;
use vstd::seq_lib::*;

verus! {

/// The tokens of all models together.
pub open spec fn model_tokens(by_model: Map<Seq<char>, ModelTotals>) -> int
    decreases by_model.dom().len(),
{
    if !by_model.dom().finite() || by_model.dom().len() == 0 {
        0
    } else {
        let name = by_model.dom().choose();
        by_model[name].tokens + model_tokens(by_model.remove(name))
    }
}

/// The tokens of all summaries together.
pub open spec fn summary_tokens(models: Seq<ModelUsageSummary>) -> int
    decreases models.len(),
{
    if models.len() == 0 {
        0
    } else {
        summary_tokens(models.drop_last()) + models.last().tokens
    }
}

/// Whether the days together have the tokens that the models together have, no
/// day having a negative number of them.
pub open spec fn balanced(totals: Totals) -> bool {
    &&& totals.by_model.dom().finite()
    &&& days_in_range(totals.by_day)
    &&& forall|day: i32| #[trigger] totals.by_day.contains_key(day) ==> totals.by_day[day] >= 0
    &&& all_tokens(totals.by_day) == model_tokens(totals.by_model)
}

proof fn lemma_model_tokens_remove(by_model: Map<Seq<char>, ModelTotals>, name: Seq<char>)
    requires
        by_model.dom().finite(),
        by_model.contains_key(name),
    ensures
        model_tokens(by_model) == by_model[name].tokens + model_tokens(by_model.remove(name)),
    decreases by_model.dom().len(),
{
    let chosen = by_model.dom().choose();
    assert(by_model.dom().contains(name));
    assert(by_model.dom().len() > 0);
    if chosen != name {
        let rest = by_model.remove(chosen);
        lemma_model_tokens_remove(rest, name);
        lemma_model_tokens_remove(by_model.remove(name), chosen);
        assert(rest.remove(name) =~= by_model.remove(name).remove(chosen));
    }
}

/// What setting the totals of a model does to the tokens of all models.
proof fn lemma_model_tokens_insert(
    by_model: Map<Seq<char>, ModelTotals>,
    name: Seq<char>,
    totals: ModelTotals,
)
    requires
        by_model.dom().finite(),
    ensures
        model_tokens(by_model.insert(name, totals)) == model_tokens(by_model) + totals.tokens - (
        if by_model.contains_key(name) {
            by_model[name].tokens
        } else {
            0
        }),
{
    let after = by_model.insert(name, totals);
    lemma_model_tokens_remove(after, name);
    if by_model.contains_key(name) {
        lemma_model_tokens_remove(by_model, name);
        assert(after.remove(name) =~= by_model.remove(name));
    } else {
        assert(after.remove(name) =~= by_model);
    }
}

/// A tally of nothing is balanced.
pub proof fn law_empty_tally_is_balanced()
    ensures
        balanced(Totals { by_day: Map::empty(), by_model: Map::empty() }),
{
    lemma_no_tokens(MIN_DAY as int, MAX_DAY as int);
}

/// Recording a use of a model keeps a tally balanced.
pub proof fn law_usage_keeps_balance(
    totals: Totals,
    name: Seq<char>,
    tokens: int,
    cached_input_tokens: int,
    day: i32,
)
    requires
        balanced(totals),
        tokens >= 0,
        day_in_range(day as int),
        totals.has_room(name, tokens, cached_input_tokens, day),
    ensures
        balanced(totals.with_usage(name, tokens, cached_input_tokens, day)),
{
    let after = totals.with_usage(name, tokens, cached_input_tokens, day);
    lemma_model_tokens_insert(totals.by_model, name, after.by_model[name]);
    lemma_tokens_insert(
        totals.by_day,
        day,
        (totals.day_tokens(day) + tokens) as i64,
        MIN_DAY as int,
        MAX_DAY as int,
    );
    assert(counted_tokens(totals.by_day, day as int) == totals.day_tokens(day));
}

proof fn lemma_line_keeps_balance(state: ScanState, item: RolloutItem, day: i32)
    requires
        balanced(state.totals),
        item.counted() is Some ==> day_in_range(day as int),
    ensures
        scan_line(state, item, day) matches Some(after) ==> balanced(after.totals),
{
    if let Some(usage) = item.counted() {
        if scan_line(state, item, day) is Some {
            law_usage_keeps_balance(
                state.totals,
                state.model,
                usage.blended_total as int,
                usage.cached_input as int,
                day,
            );
        }
    }
}

/// Scanning lines keeps a tally balanced.
pub proof fn law_scan_keeps_balance(state: ScanState, lines: Seq<RolloutLine>, days: Seq<i32>)
    requires
        balanced(state.totals),
        counted_days_in_range(lines, days),
    ensures
        scan_lines(state, lines, days) matches Some(after) ==> balanced(after.totals),
    decreases lines.len(),
{
    if lines.len() > 0 {
        let lines_before = lines.drop_last();
        let days_before = days.drop_last();
        assert forall|i: int|
            0 <= i < lines_before.len() && (
            #[trigger] lines_before[i]).item.counted() is Some implies day_in_range(
            days_before[i] as int,
        ) by {
            assert(lines_before[i] == lines[i]);
        }
        law_scan_keeps_balance(state, lines_before, days_before);
        if let Some(before) = scan_lines(state, lines_before, days_before) {
            assert(lines.last() == lines[lines.len() - 1]);
            lemma_line_keeps_balance(before, lines.last().item, days.last());
        }
    }
}

/// Reading a rollout file keeps a tally balanced, whether all of its lines could
/// be counted or not.
pub proof fn law_file_keeps_balance(
    before: Totals,
    lines: Seq<RolloutLine>,
    days: Seq<i32>,
    complete: bool,
    after: Totals,
)
    requires
        balanced(before),
        counted_days_in_range(lines, days),
        scan_outcome(before, lines, days, complete, after),
    ensures
        balanced(after),
{
    let start = ScanState { totals: before, model: "unknown"@ };
    if complete {
        law_scan_keeps_balance(start, lines, days);
    } else {
        let n = choose|n: int|
            0 <= n < lines.len() && (#[trigger] scan_lines(
                start,
                lines.take(n),
                days.take(n),
            ) matches Some(end) && end.totals == after) && scan_lines(
                start,
                lines.take(n + 1),
                days.take(n + 1),
            ) is None;
        let some_lines = lines.take(n);
        let some_days = days.take(n);
        assert forall|i: int|
            0 <= i < some_lines.len() && (
            #[trigger] some_lines[i]).item.counted() is Some implies day_in_range(
            some_days[i] as int,
        ) by {
            assert(some_lines[i] == lines[i]);
        }
        law_scan_keeps_balance(start, some_lines, some_days);
    }
}

/// Reading a rollout file of any name keeps a tally balanced, on whichever of the
/// days that they may have its lines are counted.
pub proof fn law_reading_keeps_balance(
    before: Totals,
    lines: Seq<RolloutLine>,
    file_name: Option<Seq<char>>,
    complete: bool,
    after: Totals,
)
    requires
        balanced(before),
        exists|days: Seq<i32>|
            days_allowed(lines, file_name, days) && #[trigger] scan_outcome(
                before,
                lines,
                days,
                complete,
                after,
            ),
    ensures
        balanced(after),
{
    let days = choose|days: Seq<i32>|
        days_allowed(lines, file_name, days) && #[trigger] scan_outcome(
            before,
            lines,
            days,
            complete,
            after,
        );
    law_file_keeps_balance(before, lines, days, complete, after);
}

/// The table of a tally has the tokens of its map.
proof fn lemma_summary_tokens(models: Seq<ModelUsageSummary>)
    requires
        models_ascend(models),
    ensures
        model_map(models).dom().finite(),
        model_tokens(model_map(models)) == summary_tokens(models),
    decreases models.len(),
{
    if models.len() == 0 {
        assert(model_map(models) =~= Map::empty());
    } else {
        let before = models.drop_last();
        let last = models.last();
        assert(models_ascend(before)) by {
            assert forall|i: int, j: int| 0 <= i < j < before.len() implies #[trigger] before[i]
                == models[i] && #[trigger] before[j] == models[j] by {}
        }
        lemma_summary_tokens(before);
        lemma_model_map(models);
        lemma_model_map(before);
        let map = model_map(before);
        assert(models[models.len() - 1] == last);
        assert(!map.contains_key(last.model@)) by {
            if map.contains_key(last.model@) {
                let i = choose|i: int| names_model(before, i, last.model@);
                assert(models[i].model@ == last.model@);
                lemma_text_order(last.model@, last.model@);
            }
        }
        assert forall|name: Seq<char>| model_map(models).contains_key(name) <==> map.insert(
            last.model@,
            last.totals(),
        ).contains_key(name) by {
            if model_map(models).contains_key(name) {
                let i = choose|i: int| names_model(models, i, name);
                if i < before.len() {
                    assert(before[i].model@ == name);
                }
            }
            if map.contains_key(name) {
                let i = choose|i: int| names_model(before, i, name);
                assert(models[i].model@ == name);
            }
        }
        assert forall|name: Seq<char>| model_map(models).contains_key(name) implies model_map(
            models,
        )[name] == map.insert(last.model@, last.totals())[name] by {
            let i = choose|i: int| names_model(models, i, name);
            assert(models[i].model@ == name);
            if i < before.len() {
                assert(before[i].model@ == name);
            }
        }
        assert(model_map(models) =~= map.insert(last.model@, last.totals()));
        lemma_model_tokens_insert(map, last.model@, last.totals());
    }
}

proof fn lemma_summary_tokens_remove(models: Seq<ModelUsageSummary>, i: int)
    requires
        0 <= i < models.len(),
    ensures
        summary_tokens(models) == summary_tokens(models.remove(i)) + models[i].tokens,
    decreases models.len(),
{
    if i < models.len() - 1 {
        lemma_summary_tokens_remove(models.drop_last(), i);
        assert(models.remove(i).drop_last() =~= models.drop_last().remove(i));
    } else {
        assert(models.remove(i) =~= models.drop_last());
    }
}

proof fn lemma_summary_tokens_permuted(a: Seq<ModelUsageSummary>, b: Seq<ModelUsageSummary>)
    requires
        a.to_multiset() == b.to_multiset(),
    ensures
        summary_tokens(a) == summary_tokens(b),
    decreases a.len(),
{
    broadcast use group_to_multiset_ensures;

    to_multiset_len(a);
    to_multiset_len(b);
    if a.len() > 0 {
        let item = a[0];
        assert(b.contains(item)) by {
            assert(a.contains(item));
            assert(a.to_multiset().count(item) > 0);
        }
        let i = b.index_of(item);
        assert(a.remove(0).to_multiset() =~= b.remove(i).to_multiset());
        lemma_summary_tokens_remove(a, 0);
        lemma_summary_tokens_remove(b, i);
        lemma_summary_tokens_permuted(a.remove(0), b.remove(i));
    }
}

/// In the report on a balanced tally the models together have the tokens of all
/// days.
pub proof fn law_report_models_add_up(
    data: FullObservabilityData,
    usage: UsageTally,
    today: int,
    scanned_files: usize,
)
    requires
        usage.wf(),
        balanced(usage@),
        is_report(data, usage, today, scanned_files),
    ensures
        summary_tokens(data.model_usage@) == data.all_time_tokens,
{
    lemma_summary_tokens(usage.by_model@);
    lemma_summary_tokens_permuted(data.model_usage@, usage.by_model@);
}

} // verus!
