//! What scanning rollout files adds up to, and that the order of the files does
//! not matter.
use crate::rollout::{
    law_model_sticks, law_response_is_refused_only_on_overflow, named_model, scan_lines,
    scan_outcome, RolloutItem, RolloutLine, ScanState, TokenDelta,
};
use crate::usage::Totals;
use vstd::prelude::*;

verus! {

/// The tokens that the lines count on a day.
pub open spec fn tokens_on(lines: Seq<RolloutLine>, days: Seq<i32>, day: i32) -> int
    decreases lines.len(),
{
    if lines.len() == 0 {
        0
    } else {
        tokens_on(lines.drop_last(), days.drop_last(), day) + match lines.last().item {
            RolloutItem::TokenCount { usage: Some(usage) } if usage.blended_total > 0
                && days.last() == day => usage.blended_total as int,
            _ => 0,
        }
    }
}

/// The tokens that the lines count for a model, when the first of them come from
/// the model `first`.
pub open spec fn tokens_for(first: Seq<char>, lines: Seq<RolloutLine>, name: Seq<char>) -> int
    decreases lines.len(),
{
    if lines.len() == 0 {
        0
    } else {
        tokens_for(first, lines.drop_last(), name) + match lines.last().item {
            RolloutItem::TokenCount { usage: Some(usage) } if usage.blended_total > 0
                && named_model(first, lines.drop_last()) == name => usage.blended_total as int,
            _ => 0,
        }
    }
}

/// The cached input tokens that the lines count for a model, when the first of
/// them come from the model `first`.
pub open spec fn cached_for(first: Seq<char>, lines: Seq<RolloutLine>, name: Seq<char>) -> int
    decreases lines.len(),
{
    if lines.len() == 0 {
        0
    } else {
        cached_for(first, lines.drop_last(), name) + match lines.last().item {
            RolloutItem::TokenCount { usage: Some(usage) } if usage.blended_total > 0
                && named_model(first, lines.drop_last()) == name => usage.cached_input as int,
            _ => 0,
        }
    }
}

/// Scanning lines adds to every day, and to every model, what the lines count for
/// it. A day or a model is recorded afterwards exactly if it was before or if the
/// lines count tokens for it.
pub proof fn law_scan_adds_what_lines_count(
    state: ScanState,
    lines: Seq<RolloutLine>,
    days: Seq<i32>,
    day: i32,
    name: Seq<char>,
)
    requires
        days.len() == lines.len(),
    ensures
        scan_lines(state, lines, days) matches Some(after) ==> {
            &&& after.totals.day_tokens(day) == state.totals.day_tokens(day) + tokens_on(
                lines,
                days,
                day,
            )
            &&& after.totals.model_totals(name).tokens == state.totals.model_totals(name).tokens
                + tokens_for(state.model, lines, name)
            &&& after.totals.model_totals(name).cached_input_tokens == state.totals.model_totals(
                name,
            ).cached_input_tokens + cached_for(state.model, lines, name)
            &&& after.totals.by_day.contains_key(day) <==> state.totals.by_day.contains_key(day)
                || tokens_on(lines, days, day) > 0
            &&& after.totals.by_model.contains_key(name)
                <==> state.totals.by_model.contains_key(name) || tokens_for(
                state.model,
                lines,
                name,
            ) > 0
        },
        tokens_on(lines, days, day) >= 0,
        tokens_for(state.model, lines, name) >= 0,
    decreases lines.len(),
{
    if lines.len() > 0 {
        let lines_before = lines.drop_last();
        let days_before = days.drop_last();
        law_scan_adds_what_lines_count(state, lines_before, days_before, day, name);
        law_model_sticks(state, lines_before, days_before);
    }
}

/// The state in which a rollout file is begun.
pub open spec fn file_start(totals: Totals) -> ScanState {
    ScanState { totals, model: "unknown"@ }
}

/// Two rollout files give the same sums in either order.
pub proof fn law_files_commute(
    totals: Totals,
    lines: Seq<RolloutLine>,
    days: Seq<i32>,
    other_lines: Seq<RolloutLine>,
    other_days: Seq<i32>,
    after: Totals,
    other_after: Totals,
)
    requires
        days.len() == lines.len(),
        other_days.len() == other_lines.len(),
        scan_lines(file_start(totals), lines, days) matches Some(first) && scan_lines(
            file_start(first.totals),
            other_lines,
            other_days,
        ) matches Some(end) && end.totals == after,
        scan_lines(file_start(totals), other_lines, other_days) matches Some(first) && scan_lines(
            file_start(first.totals),
            lines,
            days,
        ) matches Some(end) && end.totals == other_after,
    ensures
        after == other_after,
{
    let start = file_start(totals);
    let one = scan_lines(start, lines, days)->0.totals;
    let other = scan_lines(start, other_lines, other_days)->0.totals;
    assert forall|day: i32|
        after.day_tokens(day) == other_after.day_tokens(day) && (
        #[trigger] after.by_day.contains_key(day) <==> other_after.by_day.contains_key(day)) by {
        law_scan_adds_what_lines_count(start, lines, days, day, seq![]);
        law_scan_adds_what_lines_count(start, other_lines, other_days, day, seq![]);
        law_scan_adds_what_lines_count(file_start(one), other_lines, other_days, day, seq![]);
        law_scan_adds_what_lines_count(file_start(other), lines, days, day, seq![]);
    }
    assert forall|name: Seq<char>|
        after.model_totals(name) == other_after.model_totals(name) && (
        #[trigger] after.by_model.contains_key(name) <==> other_after.by_model.contains_key(
            name,
        )) by {
        law_scan_adds_what_lines_count(start, lines, days, 0, name);
        law_scan_adds_what_lines_count(start, other_lines, other_days, 0, name);
        law_scan_adds_what_lines_count(file_start(one), other_lines, other_days, 0, name);
        law_scan_adds_what_lines_count(file_start(other), lines, days, 0, name);
    }
    assert(after.by_day =~= other_after.by_day);
    assert(after.by_model =~= other_after.by_model);
}

/// A file that is counted whole adds to every day, and to every model, what its lines
/// count for it; responses before the first turn that names a model are those of
/// `unknown`.
pub proof fn law_file_adds_what_its_lines_count(
    before: Totals,
    lines: Seq<RolloutLine>,
    days: Seq<i32>,
    after: Totals,
    day: i32,
    name: Seq<char>,
)
    requires
        days.len() == lines.len(),
        scan_outcome(before, lines, days, true, after),
    ensures
        after.day_tokens(day) == before.day_tokens(day) + tokens_on(lines, days, day),
        after.model_totals(name).tokens == before.model_totals(name).tokens + tokens_for(
            "unknown"@,
            lines,
            name,
        ),
        after.model_totals(name).cached_input_tokens == before.model_totals(
            name,
        ).cached_input_tokens + cached_for("unknown"@, lines, name),
        after.by_day.contains_key(day) <==> before.by_day.contains_key(day) || tokens_on(
            lines,
            days,
            day,
        ) > 0,
        after.by_model.contains_key(name) <==> before.by_model.contains_key(name) || tokens_for(
            "unknown"@,
            lines,
            name,
        ) > 0,
{
    law_scan_adds_what_lines_count(file_start(before), lines, days, day, name);
}

/// Whether counting the response `usage` on a day, for a model, on top of `totals`
/// takes a sum beyond 64 bits.
pub open spec fn overflows(
    totals: Totals,
    usage: TokenDelta,
    day: i32,
    name: Seq<char>,
) -> bool {
    let model = totals.model_totals(name);
    ||| totals.day_tokens(day) + usage.blended_total > 0x7fff_ffff_ffff_ffff
    ||| totals.day_tokens(day) + usage.blended_total < -0x8000_0000_0000_0000
    ||| model.tokens + usage.blended_total > 0x7fff_ffff_ffff_ffff
    ||| model.tokens + usage.blended_total < -0x8000_0000_0000_0000
    ||| model.cached_input_tokens + usage.cached_input > 0x7fff_ffff_ffff_ffff
    ||| model.cached_input_tokens + usage.cached_input < -0x8000_0000_0000_0000
}

/// A file that is not counted whole is counted up to a response that would take a
/// sum beyond 64 bits.
pub proof fn law_count_stops_only_on_overflow(
    before: Totals,
    lines: Seq<RolloutLine>,
    days: Seq<i32>,
    after: Totals,
)
    requires
        days.len() == lines.len(),
        scan_outcome(before, lines, days, false, after),
    ensures
        exists|n: int|
            {
                &&& 0 <= n < lines.len()
                &&& #[trigger] scan_outcome(before, lines.take(n), days.take(n), true, after)
                &&& lines[n].item matches RolloutItem::TokenCount { usage: Some(usage) }
                    && usage.blended_total > 0 && overflows(
                    after,
                    usage,
                    days[n],
                    named_model("unknown"@, lines.take(n)),
                )
            },
{
    let start = file_start(before);
    let n = choose|n: int|
        0 <= n < lines.len() && (#[trigger] scan_lines(
            start,
            lines.take(n),
            days.take(n),
        ) matches Some(end) && end.totals == after) && scan_lines(
            start,
            lines.take(n + 1),
            days.take(n + 1),
        ) is None;
    assert(lines.take(n + 1) =~= lines.take(n).push(lines[n]));
    assert(days.take(n + 1) =~= days.take(n).push(days[n]));
    let end = scan_lines(start, lines.take(n), days.take(n))->0;
    law_model_sticks(start, lines.take(n), days.take(n));
    law_response_is_refused_only_on_overflow(
        start,
        lines.take(n),
        days.take(n),
        lines[n],
        days[n],
        end,
    );
    assert(scan_outcome(before, lines.take(n), days.take(n), true, after));
}

} // verus!
