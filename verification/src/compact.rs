//! The compact status: burn rate, time to the limit, next reset and warnings.
use crate::double::{lemma_named_patterns, Double, EIGHTY_BITS, FOUR_THOUSAND_BITS};
use crate::limits::{
    countdown_fits, countdown_text, counts_down, duration_text, eta_inputs_of,
    format_reset_countdown, is_least_eta, is_max_used_percent, is_nearest_reset,
    law_least_eta_is_unique, law_max_used_percent_is_unique, law_max_used_percent_reaches,
    law_nearest_reset_is_unique, max_used_percent, windows_of, EtaInputs,
    RateLimitSnapshotDisplay, RateLimitWindowDisplay,
};
use crate::time::{
    clock_text, elapsed_seconds, instant_in_range, is_local_offset,
    law_seconds_between_are_whole, second_of_day, seconds_between, Moment,
};
use vstd::arithmetic::power2::pow2;
use vstd::prelude::*;

verus! {

/// From this burn rate on, in tokens per minute, the status warns.
pub const HIGH_BURN_RATE_TOKENS_PER_MIN: i64 = 4_000;

/// From this use of the context window on, in percent, the status warns.
pub const HIGH_CONTEXT_USED_PERCENT: i64 = 80;

/// From this use of a rate limit on, in percent, the status warns.
pub const HIGH_LIMIT_USED_PERCENT: i64 = 80;

/// A burn rate takes at least this much time to be known, in seconds.
pub const MIN_BURN_RATE_SECONDS: i64 = 60;

/// A burn rate: so many tokens in so much time.
#[derive(Clone, Copy, Debug, PartialEq, Eq, Structural)]
pub struct BurnRate {
    pub total_tokens: i64,
    pub elapsed_seconds: i64,
}

/// The burn rate of a session that spent `total_tokens` since `started_at`. There
/// is none before a minute has passed, nor where no tokens were spent.
pub open spec fn burn_rate(total_tokens: i64, started_at: Moment, now: Moment) -> Option<BurnRate> {
    let elapsed = seconds_between(started_at, now);
    if total_tokens > 0 && elapsed >= MIN_BURN_RATE_SECONDS {
        Some(BurnRate { total_tokens, elapsed_seconds: elapsed as i64 })
    } else {
        None
    }
}

/// The burn rate of a session that spent `total_tokens` since `started_at`.
pub fn calculate_burn_rate(total_tokens: i64, started_at: Moment, now: Moment) -> (r: Option<
    BurnRate,
>)
    requires
        started_at.wf(),
        now.wf(),
    ensures
        r == burn_rate(total_tokens, started_at, now),
{
    if total_tokens <= 0 {
        return None;
    }
    let elapsed: i64 = elapsed_seconds(started_at, now);
    if elapsed < MIN_BURN_RATE_SECONDS {
        return None;
    }
    Some(BurnRate { total_tokens, elapsed_seconds: elapsed })
}

/// The burn rate of a session that spent `total_tokens` since it started, where it
/// is known when that was.
pub fn session_burn_rate(total_tokens: i64, started_at: Option<Moment>, now: Moment) -> (r: Option<
    BurnRate,
>)
    requires
        started_at matches Some(start) ==> start.wf(),
        now.wf(),
    ensures
        r == match started_at {
            Some(start) => burn_rate(total_tokens, start, now),
            None => None,
        },
{
    match started_at {
        Some(start) => calculate_burn_rate(total_tokens, start, now),
        None => None,
    }
}

/// The compact status.
#[derive(Clone, Debug)]
pub struct CompactStatusInsights {
    /// Tokens per minute.
    pub burn_rate_tpm: Option<Double>,
    /// Seconds until a limit is reached.
    pub eta_to_limit: Option<i64>,
    /// The countdown to the next reset.
    pub reset_countdown: Option<String>,
    pub warnings: Vec<String>,
}

/// Whether the status warns of the use of a limit.
pub open spec fn limit_used_high(max_used: Option<Double>) -> bool {
    max_used matches Some(used) && used.at_least_whole(HIGH_LIMIT_USED_PERCENT as int)
}

/// Whether the status warns of the burn rate.
pub open spec fn burn_rate_high(burn_rate_tpm: Option<Double>) -> bool {
    burn_rate_tpm matches Some(rate) && rate.at_least_whole(HIGH_BURN_RATE_TOKENS_PER_MIN as int)
}

/// Whether the status warns of the use of the context window.
pub open spec fn context_used_high(context_remaining_percent: Option<i64>) -> bool {
    context_remaining_percent matches Some(remaining) && 100 - remaining
        >= HIGH_CONTEXT_USED_PERCENT
}

/// The warnings that are due, in order.
pub open spec fn due_warnings(limit: bool, burn_rate: bool, context: bool) -> Seq<Seq<char>> {
    let none = Seq::<Seq<char>>::empty();
    (if limit {
        seq!["usage above 80% of limit"@]
    } else {
        none
    }) + (if burn_rate {
        seq!["high burn rate"@]
    } else {
        none
    }) + (if context {
        seq!["high context usage"@]
    } else {
        none
    })
}

pub open spec fn texts(strings: Seq<String>) -> Seq<Seq<char>> {
    strings.map_values(|text: String| text@)
}

/// The warnings that are due, from the highest use of a limit, the burn rate in
/// tokens per minute, and the share of the context window that remains.
pub fn status_warnings(
    max_used: Option<Double>,
    burn_rate_tpm: Option<Double>,
    context_remaining_percent: Option<i64>,
) -> (warnings: Vec<String>)
    ensures
        texts(warnings@) == due_warnings(
            limit_used_high(max_used),
            burn_rate_high(burn_rate_tpm),
            context_used_high(context_remaining_percent),
        ),
{
    proof {
        lemma_named_patterns();
    }
    let limit: bool = match max_used {
        Some(used) => used.at_least(Double::from_bits(EIGHTY_BITS)),
        None => false,
    };
    let burn_rate: bool = match burn_rate_tpm {
        Some(rate) => rate.at_least(Double::from_bits(FOUR_THOUSAND_BITS)),
        None => false,
    };
    let context: bool = match context_remaining_percent {
        Some(remaining) => remaining <= 100 - HIGH_CONTEXT_USED_PERCENT,
        None => false,
    };
    let mut warnings: Vec<String> = Vec::new();
    if limit {
        warnings.push("usage above 80% of limit".to_owned());
    }
    if burn_rate {
        warnings.push("high burn rate".to_owned());
    }
    if context {
        warnings.push("high context usage".to_owned());
    }
    proof {
        assert(texts(warnings@) =~= due_warnings(limit, burn_rate, context));
    }
    warnings
}

/// Whether `insights` is the compact status at `now`, from the burn rate in tokens
/// per minute, the estimated seconds to the first limit, the percentage of the
/// context window that remains, and the windows of the rate limits.
pub open spec fn is_compact_status(
    insights: CompactStatusInsights,
    burn_rate_tpm: Option<Double>,
    eta_to_limit: Option<i64>,
    context_remaining_percent: Option<i64>,
    windows: Seq<RateLimitWindowDisplay>,
    now: int,
) -> bool {
    &&& insights.burn_rate_tpm == burn_rate_tpm
    &&& insights.eta_to_limit == eta_to_limit
    &&& exists|reset: Option<i64>| #[trigger]
        is_nearest_reset(windows, now, reset) && counts_down(reset, now, insights.reset_countdown)
    &&& exists|max_used: Option<Double>| #[trigger]
        is_max_used_percent(windows, max_used) && texts(insights.warnings@) == due_warnings(
            limit_used_high(max_used),
            burn_rate_high(burn_rate_tpm),
            context_used_high(context_remaining_percent),
        )
}

/// The compact status, from the burn rate in tokens per minute, the estimated
/// seconds to the first limit, the percentage of the context window that
/// remains, and the rate limits.
pub fn compute_compact_status_insights(
    burn_rate_tpm: Option<Double>,
    eta_to_limit: Option<i64>,
    context_remaining_percent: Option<i64>,
    rate_limits: &[RateLimitSnapshotDisplay],
    now: Moment,
) -> (insights: CompactStatusInsights)
    requires
        countdown_fits(windows_of(rate_limits@), now.timestamp as int),
    ensures
        is_compact_status(
            insights,
            burn_rate_tpm,
            eta_to_limit,
            context_remaining_percent,
            windows_of(rate_limits@),
            now.timestamp as int,
        ),
{
    let reset_countdown = format_reset_countdown(rate_limits, now);
    let max_used = max_used_percent(rate_limits);
    let warnings = status_warnings(max_used, burn_rate_tpm, context_remaining_percent);
    CompactStatusInsights { burn_rate_tpm, eta_to_limit, reset_countdown, warnings }
}

/// A burn rate is always of tokens that were spent, over at least a minute.
pub proof fn law_burn_rate_is_meaningful(total_tokens: i64, started_at: Moment, now: Moment)
    requires
        started_at.wf(),
        now.wf(),
    ensures
        burn_rate(total_tokens, started_at, now) matches Some(rate) ==> rate.total_tokens > 0
            && rate.elapsed_seconds >= 60 && rate.elapsed_seconds == seconds_between(
            started_at,
            now,
        ),
{
}

/// Where no use of a limit is NaN, the status warns of the limits exactly if some
/// window is used to the threshold.
pub proof fn law_limit_warning(windows: Seq<RateLimitWindowDisplay>, max_used: Option<Double>)
    requires
        is_max_used_percent(windows, max_used),
        forall|i: int| 0 <= i < windows.len() ==> !(#[trigger] windows[i]).used_percent.is_nan(),
    ensures
        limit_used_high(max_used) <==> exists|i: int|
            0 <= i < windows.len() && (#[trigger] windows[i]).used_percent.at_least_whole(
                HIGH_LIMIT_USED_PERCENT as int,
            ),
{
    law_max_used_percent_reaches(windows, max_used, HIGH_LIMIT_USED_PERCENT as int);
}

/// Each warning is there exactly if it is due.
pub proof fn law_warnings_are_independent(limit: bool, burn_rate: bool, context: bool)
    ensures
        due_warnings(limit, burn_rate, context).contains("usage above 80% of limit"@) == limit,
        due_warnings(limit, burn_rate, context).contains("high burn rate"@) == burn_rate,
        due_warnings(limit, burn_rate, context).contains("high context usage"@) == context,
{
    reveal_strlit("usage above 80% of limit");
    reveal_strlit("high burn rate");
    reveal_strlit("high context usage");
    let warnings = due_warnings(limit, burn_rate, context);
    assert("usage above 80% of limit"@[0] == 'u');
    assert("high burn rate"@.len() == 14);
    assert("high context usage"@.len() == 18);
    let at_burn_rate: int = if limit { 1 } else { 0 };
    let at_context: int = at_burn_rate + if burn_rate { 1int } else { 0 };
    assert(limit ==> warnings[0] == "usage above 80% of limit"@);
    assert(burn_rate ==> warnings[at_burn_rate] == "high burn rate"@);
    assert(context ==> warnings[at_context] == "high context usage"@);
}

/// The estimate that a projection gives for a limit that is reached first.
pub open spec fn is_projected_eta(
    project: spec_fn(EtaInputs) -> Option<i64>,
    windows: Seq<RateLimitWindowDisplay>,
    now: int,
    eta: Option<i64>,
) -> bool {
    is_least_eta(eta_inputs_of(windows, now).map_values(project), eta)
}

/// Whether two countdowns are the same but for the clock time that they name.
pub open spec fn same_but_for_clock(a: Option<String>, b: Option<String>) -> bool {
    match (a, b) {
        (Some(a), Some(b)) => {
            &&& a@.len() == b@.len() >= 6
            &&& a@.take(a@.len() - 6) == b@.take(b@.len() - 6)
            &&& a@.last() == b@.last()
        },
        (a, b) => a is None && b is None,
    }
}

/// The characters of a countdown.
pub open spec fn countdown_view(text: Option<String>) -> Option<Seq<char>> {
    match text {
        Some(text) => Some(text@),
        None => None,
    }
}

/// Whether `text` counts down to the next reset, with the clock time of a zone
/// that has the UTC offset `zone(t)` at the instant `t`.
pub open spec fn is_zone_countdown(
    zone: spec_fn(int) -> int,
    windows: Seq<RateLimitWindowDisplay>,
    now: int,
    text: Option<String>,
) -> bool {
    exists|reset: Option<i64>| #[trigger]
        is_nearest_reset(windows, now, reset) && countdown_view(text) == match reset {
            Some(reset) if instant_in_range(reset as int) => Some(
                countdown_text(reset as int, now, zone(reset as int)),
            ),
            _ => None,
        }
}

/// What a status says of the limits depends on the limits and the time alone,
/// whatever the burn rate and the use of the context are. Two statuses of the same
/// limits at the same time both warn of the limits or neither does, and they count
/// down to the same reset, in texts that can differ only in the clock time. In the
/// same time zone the texts are the same, and so are the estimates if they were
/// projected in the same way.
pub proof fn law_limits_decide_alone(
    a: CompactStatusInsights,
    a_burn_rate_tpm: Option<Double>,
    a_context: Option<i64>,
    b: CompactStatusInsights,
    b_burn_rate_tpm: Option<Double>,
    b_context: Option<i64>,
    windows: Seq<RateLimitWindowDisplay>,
    now: int,
    zone: spec_fn(int) -> int,
    project: spec_fn(EtaInputs) -> Option<i64>,
)
    requires
        is_compact_status(a, a_burn_rate_tpm, a.eta_to_limit, a_context, windows, now),
        is_compact_status(b, b_burn_rate_tpm, b.eta_to_limit, b_context, windows, now),
    ensures
        texts(a.warnings@).contains("usage above 80% of limit"@) == texts(b.warnings@).contains(
            "usage above 80% of limit"@,
        ),
        exists|reset: Option<i64>| #[trigger]
            is_nearest_reset(windows, now, reset) && counts_down(reset, now, a.reset_countdown)
                && counts_down(reset, now, b.reset_countdown),
        same_but_for_clock(a.reset_countdown, b.reset_countdown),
        is_zone_countdown(zone, windows, now, a.reset_countdown) && is_zone_countdown(
            zone,
            windows,
            now,
            b.reset_countdown,
        ) ==> countdown_view(a.reset_countdown) == countdown_view(b.reset_countdown),
        is_projected_eta(project, windows, now, a.eta_to_limit) && is_projected_eta(
            project,
            windows,
            now,
            b.eta_to_limit,
        ) ==> a.eta_to_limit == b.eta_to_limit,
{
    let a_max = choose|max_used: Option<Double>| #[trigger]
        is_max_used_percent(windows, max_used) && texts(a.warnings@) == due_warnings(
            limit_used_high(max_used),
            burn_rate_high(a_burn_rate_tpm),
            context_used_high(a_context),
        );
    let b_max = choose|max_used: Option<Double>| #[trigger]
        is_max_used_percent(windows, max_used) && texts(b.warnings@) == due_warnings(
            limit_used_high(max_used),
            burn_rate_high(b_burn_rate_tpm),
            context_used_high(b_context),
        );
    law_max_used_percent_is_unique(windows, a_max, b_max);
    law_warnings_are_independent(
        limit_used_high(a_max),
        burn_rate_high(a_burn_rate_tpm),
        context_used_high(a_context),
    );
    law_warnings_are_independent(
        limit_used_high(b_max),
        burn_rate_high(b_burn_rate_tpm),
        context_used_high(b_context),
    );
    let a_reset = choose|reset: Option<i64>| #[trigger]
        is_nearest_reset(windows, now, reset) && counts_down(reset, now, a.reset_countdown);
    let b_reset = choose|reset: Option<i64>| #[trigger]
        is_nearest_reset(windows, now, reset) && counts_down(reset, now, b.reset_countdown);
    law_nearest_reset_is_unique(windows, now, a_reset, b_reset);
    assert(is_nearest_reset(windows, now, a_reset) && counts_down(a_reset, now, a.reset_countdown)
        && counts_down(a_reset, now, b.reset_countdown));
    if a_reset is Some && a.reset_countdown is Some {
        let at = a_reset->0;
        let reset = at as int;
        let a_text = a.reset_countdown->0@;
        let b_text = b.reset_countdown->0@;
        let a_offset = choose|utc_offset: i32| #[trigger]
            is_local_offset(at, utc_offset) && a_text == countdown_text(
                reset,
                now,
                utc_offset as int,
            );
        let b_offset = choose|utc_offset: i32| #[trigger]
            is_local_offset(at, utc_offset) && b_text == countdown_text(
                reset,
                now,
                utc_offset as int,
            );
        reveal_strlit(")");
        let head = "resets in "@ + duration_text(reset - now) + " ("@;
        assert(a_text =~= head + clock_text(second_of_day(reset, a_offset as int)) + ")"@);
        assert(b_text =~= head + clock_text(second_of_day(reset, b_offset as int)) + ")"@);
        assert(a_text.take(a_text.len() - 6) =~= head);
        assert(b_text.take(b_text.len() - 6) =~= head);
    }
    assert forall|x: Option<i64>, y: Option<i64>| #[trigger]
        is_nearest_reset(windows, now, x) && #[trigger] is_nearest_reset(
            windows,
            now,
            y,
        ) implies x == y by {
        law_nearest_reset_is_unique(windows, now, x, y);
    }
    if is_projected_eta(project, windows, now, a.eta_to_limit) && is_projected_eta(
        project,
        windows,
        now,
        b.eta_to_limit,
    ) {
        law_least_eta_is_unique(
            eta_inputs_of(windows, now).map_values(project),
            a.eta_to_limit,
            b.eta_to_limit,
        );
    }
}

/// There is a burn rate exactly if tokens were spent and at least 60 seconds have
/// passed. It is of all of those tokens, over the whole seconds that passed. Outside
/// leap seconds these are the whole ones of the nanoseconds between the moments.
pub proof fn law_burn_rate_is_of_all_tokens(
    total_tokens: i64,
    started_at: Moment,
    now: Moment,
    rate: Option<BurnRate>,
)
    requires
        started_at.wf(),
        now.wf(),
        rate == burn_rate(total_tokens, started_at, now),
    ensures
        rate is Some <==> total_tokens > 0 && seconds_between(started_at, now) >= 60,
        rate matches Some(rate) ==> rate.total_tokens == total_tokens && rate.elapsed_seconds
            == seconds_between(started_at, now),
        started_at.nanos < 1_000_000_000 && now.nanos < 1_000_000_000 ==> {
            let nanos = (now.timestamp - started_at.timestamp) * 1_000_000_000 + now.nanos
                - started_at.nanos;
            &&& rate is Some <==> total_tokens > 0 && nanos >= 60_000_000_000
            &&& rate matches Some(rate) ==> rate.elapsed_seconds * 1_000_000_000 <= nanos < (
            rate.elapsed_seconds + 1) * 1_000_000_000
        },
{
    law_seconds_between_are_whole(started_at, now);
    law_seconds_between_are_whole(now, started_at);
}

/// The warnings come in a fixed order, each once: of the limit, of the burn rate, of
/// the context.
pub proof fn law_warnings_come_in_order(limit: bool, burn_rate: bool, context: bool)
    ensures
        ({
            let warnings = due_warnings(limit, burn_rate, context);
            let first: int = if limit { 1 } else { 0 };
            let second: int = if burn_rate { first + 1 } else { first };
            &&& warnings.len() == second + if context { 1int } else { 0 }
            &&& limit ==> warnings[0] == "usage above 80% of limit"@
            &&& burn_rate ==> warnings[first] == "high burn rate"@
            &&& context ==> warnings[second] == "high context usage"@
        }),
{
}

/// A compact status warns of the context exactly if 20 percent of it or less remain,
/// of the burn rate exactly if that is 4000 or more, and of the limits, where no use
/// of one is NaN, exactly if 80 percent or more of some window is used. It carries
/// the burn rate and the estimate on as they are. The values of doubles count
/// multiples of 2^-1074.
pub proof fn law_status_warns_of_what_is_high(
    insights: CompactStatusInsights,
    burn_rate_tpm: Option<Double>,
    eta_to_limit: Option<i64>,
    context_remaining_percent: Option<i64>,
    windows: Seq<RateLimitWindowDisplay>,
    now: int,
)
    requires
        is_compact_status(
            insights,
            burn_rate_tpm,
            eta_to_limit,
            context_remaining_percent,
            windows,
            now,
        ),
    ensures
        insights.burn_rate_tpm == burn_rate_tpm,
        insights.eta_to_limit == eta_to_limit,
        texts(insights.warnings@).contains("high context usage"@) <==> (
        context_remaining_percent matches Some(remaining) && remaining <= 20),
        texts(insights.warnings@).contains("high burn rate"@) <==> (burn_rate_tpm matches Some(rate)
            && !rate.is_nan() && rate.units() >= 4_000 * pow2(1074)),
        (forall|i: int| 0 <= i < windows.len() ==> !(#[trigger] windows[i]).used_percent.is_nan())
            ==> (texts(insights.warnings@).contains("usage above 80% of limit"@) <==> exists|i: int|
            0 <= i < windows.len() && (#[trigger] windows[i]).used_percent.units() >= 80 * pow2(
                1074,
            )),
        insights.warnings@.len() == (if texts(insights.warnings@).contains(
            "usage above 80% of limit"@,
        ) {
            1int
        } else {
            0
        }) + (if texts(insights.warnings@).contains("high burn rate"@) {
            1int
        } else {
            0
        }) + (if texts(insights.warnings@).contains("high context usage"@) {
            1int
        } else {
            0
        }),
{
    let max_used = choose|max_used: Option<Double>| #[trigger]
        is_max_used_percent(windows, max_used) && texts(insights.warnings@) == due_warnings(
            limit_used_high(max_used),
            burn_rate_high(burn_rate_tpm),
            context_used_high(context_remaining_percent),
        );
    law_warnings_are_independent(
        limit_used_high(max_used),
        burn_rate_high(burn_rate_tpm),
        context_used_high(context_remaining_percent),
    );
    law_warnings_come_in_order(
        limit_used_high(max_used),
        burn_rate_high(burn_rate_tpm),
        context_used_high(context_remaining_percent),
    );
    if forall|i: int| 0 <= i < windows.len() ==> !(#[trigger] windows[i]).used_percent.is_nan() {
        law_limit_warning(windows, max_used);
        if exists|i: int|
            0 <= i < windows.len() && (#[trigger] windows[i]).used_percent.units() >= 80 * pow2(
                1074,
            ) {
            let i = choose|i: int|
                0 <= i < windows.len() && (#[trigger] windows[i]).used_percent.units() >= 80 * pow2(
                    1074,
                );
            assert(windows[i].used_percent.at_least_whole(80));
        }
    }
}

/// The texts of some strings are theirs, one by one.
pub proof fn law_texts_are_those_of_the_strings(strings: Seq<String>)
    ensures
        texts(strings).len() == strings.len(),
        forall|i: int| 0 <= i < strings.len() ==> #[trigger] texts(strings)[i] == strings[i]@,
{
}

} // verus!
