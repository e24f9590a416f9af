//! Rate limits: the windows of the limits, the next reset, and what an estimate
//! of the time to the limit needs.
use crate::double::{
    law_rank_follows_value, law_rank_is_injective, law_rank_is_total_order_of_bits,
    lemma_named_patterns, whole_units, Double, HUNDRED_BITS,
};
use crate::text::{decimal, push_decimal};
use crate::time::{
    clock_text, format_clock, instant_in_range, is_local_offset,
    law_clock_shows_hour_and_minute, law_second_of_day_counts_from_midnight,
    lemma_local_offset_is_valid, second_of_day, shifted, timestamp_after, valid_offset,
    zone_offset, Moment, MAX_DAY, MAX_DURATION_SECONDS, MIN_DAY,
};
use vstd::prelude::*;
use vstd::string::*;

verus! {

/// A window of a rate limit.
#[derive(Clone, Copy, Debug, PartialEq, Eq, Structural)]
pub struct RateLimitWindowDisplay {
    /// How much of the limit is used, in percent.
    pub used_percent: Double,
    /// When the window resets, in seconds since the Unix epoch.
    pub resets_at_unix: Option<i64>,
    /// How long the window is.
    pub window_minutes: Option<i64>,
}

/// The state of a rate limit.
#[derive(Clone, Copy, Debug, PartialEq, Eq, Structural)]
pub struct RateLimitSnapshotDisplay {
    pub primary: Option<RateLimitWindowDisplay>,
    pub secondary: Option<RateLimitWindowDisplay>,
}

impl RateLimitSnapshotDisplay {
    /// The windows of one limit, the primary one first.
    pub open spec fn windows(self) -> Seq<RateLimitWindowDisplay> {
        let first = match self.primary {
            Some(window) => seq![window],
            None => seq![],
        };
        let second = match self.secondary {
            Some(window) => seq![window],
            None => seq![],
        };
        first + second
    }
}

/// The windows of all limits, in order.
pub open spec fn windows_of(rate_limits: Seq<RateLimitSnapshotDisplay>) -> Seq<
    RateLimitWindowDisplay,
>
    decreases rate_limits.len(),
{
    if rate_limits.len() == 0 {
        Seq::empty()
    } else {
        windows_of(rate_limits.drop_last()) + rate_limits.last().windows()
    }
}

/// Whether `windows` refers to the windows of all limits, in order.
pub open spec fn refers_to_windows(
    windows: Seq<&RateLimitWindowDisplay>,
    rate_limits: Seq<RateLimitSnapshotDisplay>,
) -> bool {
    &&& windows.len() == windows_of(rate_limits).len()
    &&& forall|i: int|
        0 <= i < windows.len() ==> *(#[trigger] windows[i]) == windows_of(rate_limits)[i]
}

/// The windows of all limits, in order.
pub fn iter_windows(rate_limits: &[RateLimitSnapshotDisplay]) -> (windows: Vec<
    &RateLimitWindowDisplay,
>)
    ensures
        refers_to_windows(windows@, rate_limits@),
{
    let mut windows: Vec<&RateLimitWindowDisplay> = Vec::new();
    for n in 0..rate_limits.len()
        invariant
            refers_to_windows(windows@, rate_limits@.take(n as int)),
    {
        let snapshot = &rate_limits[n];
        proof {
            assert(rate_limits@.take(n + 1).drop_last() =~= rate_limits@.take(n as int));
            assert(rate_limits@.take(n + 1).last() == *snapshot);
        }
        if let Some(primary) = snapshot.primary.as_ref() {
            windows.push(primary);
        }
        if let Some(secondary) = snapshot.secondary.as_ref() {
            windows.push(secondary);
        }
    }
    proof {
        assert(rate_limits@.take(rate_limits@.len() as int) =~= rate_limits@);
    }
    windows
}

/// Whether `max` is the highest use of any window, in the total order of doubles.
pub open spec fn is_max_used_percent(
    windows: Seq<RateLimitWindowDisplay>,
    max: Option<Double>,
) -> bool {
    match max {
        Some(max) => {
            &&& exists|i: int| 0 <= i < windows.len() && (#[trigger] windows[i]).used_percent == max
            &&& forall|i: int|
                0 <= i < windows.len() ==> (#[trigger] windows[i]).used_percent.rank()
                    <= max.rank()
        },
        None => windows.len() == 0,
    }
}

/// The highest use of any window.
pub fn max_used_percent(rate_limits: &[RateLimitSnapshotDisplay]) -> (max: Option<Double>)
    ensures
        is_max_used_percent(windows_of(rate_limits@), max),
{
    let windows = iter_windows(rate_limits);
    let mut max: Option<Double> = None;
    for n in 0..windows.len()
        invariant
            refers_to_windows(windows@, rate_limits@),
            is_max_used_percent(windows_of(rate_limits@).take(n as int), max),
    {
        let used: Double = windows[n].used_percent;
        let ghost taken = windows_of(rate_limits@).take(n as int);
        let ghost after = windows_of(rate_limits@).take(n + 1);
        proof {
            assert(after =~= taken.push(*windows@[n as int]));
        }
        let higher: bool = match max {
            Some(before) => !used.ranks_below(before),
            None => true,
        };
        if higher {
            max = Some(used);
            proof {
                assert(after[n as int].used_percent == used);
            }
        } else {
            proof {
                let i = choose|i: int|
                    0 <= i < taken.len() && (#[trigger] taken[i]).used_percent == max->0;
                assert(after[i].used_percent == max->0);
            }
        }
        proof {
            assert forall|i: int| 0 <= i < after.len() implies (
            #[trigger] after[i]).used_percent.rank() <= max->0.rank() by {
                if i < n {
                    assert(after[i] == taken[i]);
                }
            }
        }
    }
    proof {
        assert(windows_of(rate_limits@).take(windows@.len() as int) =~= windows_of(rate_limits@));
    }
    max
}

/// Whether a window resets after `now`.
pub open spec fn resets_later(window: RateLimitWindowDisplay, now: int) -> bool {
    window.resets_at_unix matches Some(resets_at) && resets_at > now
}

/// Whether `reset` is the first reset of any window after `now`.
pub open spec fn is_nearest_reset(
    windows: Seq<RateLimitWindowDisplay>,
    now: int,
    reset: Option<i64>,
) -> bool {
    match reset {
        Some(reset) => {
            &&& reset > now
            &&& exists|i: int|
                0 <= i < windows.len() && (#[trigger] windows[i]).resets_at_unix == Some(reset)
            &&& forall|i: int|
                0 <= i < windows.len() && resets_later(#[trigger] windows[i], now) ==> reset
                    <= windows[i].resets_at_unix->0
        },
        None => forall|i: int|
            0 <= i < windows.len() ==> !resets_later(#[trigger] windows[i], now),
    }
}

/// The first reset of any window after `now`.
pub fn nearest_reset(rate_limits: &[RateLimitSnapshotDisplay], now: i64) -> (reset: Option<i64>)
    ensures
        is_nearest_reset(windows_of(rate_limits@), now as int, reset),
{
    let windows = iter_windows(rate_limits);
    let mut nearest: Option<i64> = None;
    for n in 0..windows.len()
        invariant
            refers_to_windows(windows@, rate_limits@),
            is_nearest_reset(windows_of(rate_limits@).take(n as int), now as int, nearest),
    {
        let ghost taken = windows_of(rate_limits@).take(n as int);
        let ghost after = windows_of(rate_limits@).take(n + 1);
        let ghost before = nearest;
        proof {
            assert(after =~= taken.push(*windows@[n as int]));
        }
        if let Some(resets_at) = windows[n].resets_at_unix {
            let nearer: bool = match nearest {
                Some(existing) => resets_at < existing,
                None => true,
            };
            if resets_at > now && nearer {
                nearest = Some(resets_at);
                proof {
                    assert(after[n as int].resets_at_unix == nearest);
                }
            }
        }
        proof {
            if nearest == before && before is Some {
                let i = choose|i: int|
                    0 <= i < taken.len() && (#[trigger] taken[i]).resets_at_unix == before;
                assert(after[i].resets_at_unix == nearest);
            }
            assert forall|i: int| 0 <= i < n implies #[trigger] after[i] == taken[i] by {}
        }
    }
    proof {
        assert(windows_of(rate_limits@).take(windows@.len() as int) =~= windows_of(rate_limits@));
    }
    nearest
}

/// A duration in words: days and hours, or hours and minutes, or minutes.
pub open spec fn duration_text(seconds: int) -> Seq<char> {
    let whole = if seconds > 0 { seconds } else { 0 };
    let days = (whole / 86_400) as nat;
    let hours = (whole % 86_400 / 3_600) as nat;
    let minutes = (whole % 3_600 / 60) as nat;
    if days > 0 {
        decimal(days) + "d "@ + decimal(hours) + "h"@
    } else if hours > 0 {
        decimal(hours) + "h "@ + decimal(minutes) + "m"@
    } else {
        decimal(minutes) + "m"@
    }
}

/// A duration in words; a negative one counts as none.
pub fn format_duration(seconds: i64) -> (text: String)
    ensures
        text@ == duration_text(seconds as int),
{
    let whole: u64 = if seconds > 0 {
        seconds as u64
    } else {
        0
    };
    let days: u64 = whole / 86_400;
    let day_rest: u64 = whole - days * 86_400;
    let hours: u64 = day_rest / 3_600;
    let minutes: u64 = (day_rest - hours * 3_600) / 60;
    let mut text = String::new();
    if days > 0 {
        push_decimal(&mut text, days);
        text.append("d ");
        push_decimal(&mut text, hours);
        text.append("h");
    } else if hours > 0 {
        push_decimal(&mut text, hours);
        text.append("h ");
        push_decimal(&mut text, minutes);
        text.append("m");
    } else {
        push_decimal(&mut text, minutes);
        text.append("m");
    }
    proof {
        assert(text@ =~= duration_text(seconds as int));
    }
    text
}

/// The reset `seconds` after a snapshot was captured, in seconds since the Unix
/// epoch.
pub fn reset_at_from(captured_at: Moment, seconds: i64) -> (reset: i64)
    requires
        captured_at.wf(),
        -MAX_DURATION_SECONDS <= seconds <= MAX_DURATION_SECONDS,
        instant_in_range(shifted(captured_at, seconds as int)),
    ensures
        reset == shifted(captured_at, seconds as int),
{
    timestamp_after(captured_at, seconds)
}

/// The countdown to a reset, with the clock time of the reset at a UTC offset.
pub open spec fn countdown_text(reset: int, now: int, utc_offset: int) -> Seq<char> {
    "resets in "@ + duration_text(reset - now) + " ("@ + clock_text(
        second_of_day(reset, utc_offset),
    ) + ")"@
}

/// The countdown to a reset, with the clock time of the reset at a UTC offset.
pub fn reset_countdown_text(reset: i64, now: i64, utc_offset: i32) -> (text: String)
    requires
        now < reset,
        reset - now <= MAX_DURATION_SECONDS,
        instant_in_range(reset as int),
        valid_offset(utc_offset as int),
    ensures
        text@ == countdown_text(reset as int, now as int, utc_offset as int),
{
    let mut text = "resets in ".to_owned();
    text.append(format_duration(reset - now).as_str());
    text.append(" (");
    text.append(format_clock(reset, utc_offset).as_str());
    text.append(")");
    text
}

/// Whether `text` counts down to `reset`, if there is one that the calendar can
/// represent. The UTC offset of its clock time is the one that the time zone of the
/// machine has at the reset.
pub open spec fn counts_down(reset: Option<i64>, now: int, text: Option<String>) -> bool {
    match (reset, text) {
        (Some(reset), Some(text)) => instant_in_range(reset as int) && exists|utc_offset: i32|
            #[trigger] is_local_offset(reset, utc_offset) && text@ == countdown_text(
                reset as int,
                now,
                utc_offset as int,
            ),
        (Some(reset), None) => !instant_in_range(reset as int),
        (None, text) => text is None,
    }
}

/// Whether the next reset, if there is one, is near enough to be counted down.
pub open spec fn countdown_fits(windows: Seq<RateLimitWindowDisplay>, now: int) -> bool {
    forall|reset: i64| #[trigger]
        is_nearest_reset(windows, now, Some(reset)) ==> reset - now <= MAX_DURATION_SECONDS
}

/// The countdown to the next reset of any window.
pub fn format_reset_countdown(rate_limits: &[RateLimitSnapshotDisplay], now: Moment) -> (text:
    Option<String>)
    requires
        countdown_fits(windows_of(rate_limits@), now.timestamp as int),
    ensures
        exists|reset: Option<i64>| #[trigger]
            is_nearest_reset(windows_of(rate_limits@), now.timestamp as int, reset) && counts_down(
                reset,
                now.timestamp as int,
                text,
            ),
{
    match nearest_reset(rate_limits, now.timestamp) {
        Some(reset) => match zone_offset(reset) {
            Some(utc_offset) => {
                let text = reset_countdown_text(reset, now.timestamp, utc_offset);
                proof {
                    let found = Some(text);
                    assert(text@ == countdown_text(
                        reset as int,
                        now.timestamp as int,
                        utc_offset as int,
                    ));
                    assert(counts_down(Some(reset), now.timestamp as int, found));
                }
                Some(text)
            },
            None => {
                proof {
                    assert(counts_down(Some(reset), now.timestamp as int, None));
                }
                None
            },
        },
        None => {
            proof {
                assert(counts_down(None, now.timestamp as int, None));
            }
            None
        },
    }
}

/// What an estimate of the time to a limit is made from.
#[derive(Clone, Copy, Debug, PartialEq, Eq, Structural)]
pub struct EtaInputs {
    /// More than 0 and less than 100.
    pub used_percent: Double,
    pub window_minutes: i64,
    /// More than 0.
    pub seconds_until_reset: i64,
}

/// Whether a window is partly used, and neither the whole nor nothing of it.
pub open spec fn partly_used(window: RateLimitWindowDisplay) -> bool {
    let used = window.used_percent;
    !used.is_nan() && whole_units(0) < used.units() < whole_units(100)
}

/// What the estimate for a window is made from, where there can be one: the
/// window is partly used, its length is known and it resets after `now`.
pub open spec fn eta_inputs(window: RateLimitWindowDisplay, now: int) -> Option<EtaInputs> {
    match (window.window_minutes, window.resets_at_unix) {
        (Some(window_minutes), Some(reset_at)) => if partly_used(window) && reset_at > now {
            Some(
                EtaInputs {
                    used_percent: window.used_percent,
                    window_minutes,
                    seconds_until_reset: (reset_at - now) as i64,
                },
            )
        } else {
            None
        },
        _ => None,
    }
}

/// Whether the time to a window's reset can be expressed in 64 bits, where it is
/// needed.
pub open spec fn eta_fits(window: RateLimitWindowDisplay, now: int) -> bool {
    match (window.window_minutes, window.resets_at_unix) {
        (Some(_), Some(reset_at)) => partly_used(window) ==> i64::MIN <= reset_at - now
            <= i64::MAX,
        _ => true,
    }
}

/// What the estimate for a window is made from, where there can be one.
pub fn eta_for_window(window: &RateLimitWindowDisplay, now: Moment) -> (r: Option<EtaInputs>)
    requires
        eta_fits(*window, now.timestamp as int),
    ensures
        r == eta_inputs(*window, now.timestamp as int),
{
    let used: Double = window.used_percent;
    proof {
        lemma_named_patterns();
    }
    if used.nan() || used.at_least(Double::from_bits(HUNDRED_BITS)) || Double::from_bits(
        0,
    ).at_least(used) {
        return None;
    }
    match (window.window_minutes, window.resets_at_unix) {
        (Some(window_minutes), Some(reset_at)) => {
            let seconds_until_reset: i64 = reset_at - now.timestamp;
            if seconds_until_reset <= 0 {
                None
            } else {
                Some(EtaInputs { used_percent: used, window_minutes, seconds_until_reset })
            }
        },
        _ => None,
    }
}

/// What the estimates for the windows are made from, in order.
pub open spec fn eta_inputs_of(windows: Seq<RateLimitWindowDisplay>, now: int) -> Seq<EtaInputs>
    decreases windows.len(),
{
    if windows.len() == 0 {
        Seq::empty()
    } else {
        let before = eta_inputs_of(windows.drop_last(), now);
        match eta_inputs(windows.last(), now) {
            Some(inputs) => before.push(inputs),
            None => before,
        }
    }
}

/// What the estimates for all windows are made from, in order.
pub fn etas_to_project(rate_limits: &[RateLimitSnapshotDisplay], now: Moment) -> (etas: Vec<
    EtaInputs,
>)
    requires
        forall|i: int|
            0 <= i < windows_of(rate_limits@).len() ==> eta_fits(
                #[trigger] windows_of(rate_limits@)[i],
                now.timestamp as int,
            ),
    ensures
        etas@ == eta_inputs_of(windows_of(rate_limits@), now.timestamp as int),
{
    let windows = iter_windows(rate_limits);
    let ghost all = windows_of(rate_limits@);
    let mut etas: Vec<EtaInputs> = Vec::new();
    for n in 0..windows.len()
        invariant
            all == windows_of(rate_limits@),
            refers_to_windows(windows@, rate_limits@),
            forall|i: int|
                0 <= i < all.len() ==> eta_fits(#[trigger] all[i], now.timestamp as int),
            etas@ == eta_inputs_of(all.take(n as int), now.timestamp as int),
    {
        proof {
            assert(all.take(n + 1).drop_last() =~= all.take(n as int));
            assert(all.take(n + 1).last() == *windows@[n as int]);
            assert(eta_fits(all[n as int], now.timestamp as int));
        }
        if let Some(inputs) = eta_for_window(windows[n], now) {
            etas.push(inputs);
        }
    }
    proof {
        assert(all.take(windows@.len() as int) =~= all);
    }
    etas
}

/// Whether `least` is the least of the estimates that could be made.
pub open spec fn is_least_eta(etas: Seq<Option<i64>>, least: Option<i64>) -> bool {
    match least {
        Some(least) => {
            &&& etas.contains(Some(least))
            &&& forall|i: int|
                0 <= i < etas.len() ==> (#[trigger] etas[i] matches Some(eta) ==> least <= eta)
        },
        None => forall|i: int| 0 <= i < etas.len() ==> #[trigger] etas[i] is None,
    }
}

/// The time to the limit that is reached first, from the estimates for the
/// windows, in seconds.
pub fn estimate_eta_to_limit(etas: &[Option<i64>]) -> (least: Option<i64>)
    ensures
        is_least_eta(etas@, least),
{
    let mut least: Option<i64> = None;
    for n in 0..etas.len()
        invariant
            is_least_eta(etas@.take(n as int), least),
    {
        let ghost taken = etas@.take(n as int);
        let ghost after = etas@.take(n + 1);
        let ghost before = least;
        proof {
            assert(after =~= taken.push(etas@[n as int]));
        }
        if let Some(eta) = etas[n] {
            let sooner: bool = match least {
                Some(existing) => eta < existing,
                None => true,
            };
            if sooner {
                least = Some(eta);
                proof {
                    assert(after[n as int] == least);
                }
            }
        }
        proof {
            if least == before && before is Some {
                let i = taken.index_of(before);
                assert(after[i] == least);
            }
            assert forall|i: int| 0 <= i < n implies #[trigger] after[i] == taken[i] by {}
        }
    }
    proof {
        assert(etas@.take(etas@.len() as int) =~= etas@);
    }
    least
}

/// There is one highest use of a set of windows.
pub proof fn law_max_used_percent_is_unique(
    windows: Seq<RateLimitWindowDisplay>,
    a: Option<Double>,
    b: Option<Double>,
)
    requires
        is_max_used_percent(windows, a),
        is_max_used_percent(windows, b),
    ensures
        a == b,
{
    if a is Some && b is Some {
        law_rank_is_injective(a->0, b->0);
    }
}

/// Where no window's use is NaN, the highest use reaches a threshold exactly when
/// the use of some window does.
pub proof fn law_max_used_percent_reaches(
    windows: Seq<RateLimitWindowDisplay>,
    max: Option<Double>,
    threshold: int,
)
    requires
        is_max_used_percent(windows, max),
        forall|i: int| 0 <= i < windows.len() ==> !(#[trigger] windows[i]).used_percent.is_nan(),
    ensures
        (max matches Some(used) && used.at_least_whole(threshold)) <==> exists|i: int|
            0 <= i < windows.len() && (#[trigger] windows[i]).used_percent.at_least_whole(
                threshold,
            ),
{
    if let Some(used) = max {
        assert forall|i: int|
            0 <= i < windows.len() && (#[trigger] windows[i]).used_percent.at_least_whole(
                threshold,
            ) implies used.at_least_whole(threshold) by {
            law_rank_follows_value(windows[i].used_percent, used);
        }
    }
}

/// There is one next reset of a set of windows.
pub proof fn law_nearest_reset_is_unique(
    windows: Seq<RateLimitWindowDisplay>,
    now: int,
    a: Option<i64>,
    b: Option<i64>,
)
    requires
        is_nearest_reset(windows, now, a),
        is_nearest_reset(windows, now, b),
    ensures
        a == b,
{
    if let Some(reset) = a {
        let i = choose|i: int|
            0 <= i < windows.len() && (#[trigger] windows[i]).resets_at_unix == Some(reset);
        assert(resets_later(windows[i], now));
    }
    if let Some(reset) = b {
        let i = choose|i: int|
            0 <= i < windows.len() && (#[trigger] windows[i]).resets_at_unix == Some(reset);
        assert(resets_later(windows[i], now));
    }
}

/// As time passes, the next reset stays the same until it is reached.
pub proof fn law_nearest_reset_stays(
    windows: Seq<RateLimitWindowDisplay>,
    now: int,
    later: int,
    reset: i64,
)
    requires
        is_nearest_reset(windows, now, Some(reset)),
        now <= later < reset,
    ensures
        is_nearest_reset(windows, later, Some(reset)),
{
    assert forall|i: int|
        0 <= i < windows.len() && resets_later(
            #[trigger] windows[i],
            later,
        ) implies reset <= windows[i].resets_at_unix->0 by {
        assert(resets_later(windows[i], now));
    }
}

/// There is one least estimate.
pub proof fn law_least_eta_is_unique(etas: Seq<Option<i64>>, a: Option<i64>, b: Option<i64>)
    requires
        is_least_eta(etas, a),
        is_least_eta(etas, b),
    ensures
        a == b,
{
    if let Some(least) = a {
        let i = etas.index_of(a);
        assert(etas[i] == a);
    }
    if let Some(least) = b {
        let i = etas.index_of(b);
        assert(etas[i] == b);
    }
}

/// An estimate is only made for a window that is partly used and whose reset lies
/// ahead, and it is made for each of those whose length is known.
pub proof fn law_eta_inputs_are_open_windows(windows: Seq<RateLimitWindowDisplay>, now: int)
    ensures
        forall|i: int|
            0 <= i < windows.len() && eta_inputs(#[trigger] windows[i], now) is Some
                ==> eta_inputs_of(windows, now).contains(eta_inputs(windows[i], now)->0),
        forall|k: int|
            0 <= k < eta_inputs_of(windows, now).len() ==> exists|i: int|
                0 <= i < windows.len() && eta_inputs(#[trigger] windows[i], now) == Some(
                    #[trigger] eta_inputs_of(windows, now)[k],
                ),
    decreases windows.len(),
{
    if windows.len() > 0 {
        let before = windows.drop_last();
        let list = eta_inputs_of(windows, now);
        let old_list = eta_inputs_of(before, now);
        law_eta_inputs_are_open_windows(before, now);
        assert forall|i: int|
            0 <= i < windows.len() && eta_inputs(
                #[trigger] windows[i],
                now,
            ) is Some implies list.contains(eta_inputs(windows[i], now)->0) by {
            let inputs = eta_inputs(windows[i], now)->0;
            if i < before.len() {
                assert(before[i] == windows[i]);
                let k = old_list.index_of(inputs);
                assert(list[k] == inputs);
            } else {
                assert(list.last() == inputs);
            }
        }
        assert forall|k: int| 0 <= k < list.len() implies exists|i: int|
            0 <= i < windows.len() && eta_inputs(#[trigger] windows[i], now) == Some(
                #[trigger] list[k],
            ) by {
            if k < old_list.len() {
                assert(list[k] == old_list[k]);
                let i = choose|i: int|
                    0 <= i < before.len() && eta_inputs(#[trigger] before[i], now) == Some(
                        old_list[k],
                    );
                assert(windows[i] == before[i]);
            } else {
                assert(eta_inputs(windows.last(), now) == Some(list[k]));
            }
        }
    }
}

/// A snapshot whose only reset was set to come `seconds` after it was captured
/// has that reset as its next one, so many seconds away.
pub proof fn law_reset_comes_after_its_seconds(
    windows: Seq<RateLimitWindowDisplay>,
    captured_at: Moment,
    seconds: int,
    reset: i64,
)
    requires
        seconds > 0,
        reset == shifted(captured_at, seconds),
        windows.len() > 0,
        forall|i: int|
            0 <= i < windows.len() ==> (#[trigger] windows[i]).resets_at_unix == Some(reset),
    ensures
        is_nearest_reset(windows, captured_at.timestamp as int, Some(reset)),
        reset - captured_at.timestamp == seconds,
{
    assert(windows[0].resets_at_unix == Some(reset));
}

/// The windows of one limit are those that it has, the primary one first.
pub proof fn law_windows_of_one_limit(snapshot: RateLimitSnapshotDisplay)
    ensures
        windows_of(seq![snapshot]) == match (snapshot.primary, snapshot.secondary) {
            (Some(primary), Some(secondary)) => seq![primary, secondary],
            (Some(primary), None) => seq![primary],
            (None, Some(secondary)) => seq![secondary],
            (None, None) => Seq::empty(),
        },
{
    let one = seq![snapshot];
    assert(one.drop_last() =~= Seq::empty());
    assert(windows_of(one.drop_last()) =~= Seq::empty());
    assert(windows_of(one) =~= snapshot.windows());
    assert(snapshot.windows() =~= match (snapshot.primary, snapshot.secondary) {
        (Some(primary), Some(secondary)) => seq![primary, secondary],
        (Some(primary), None) => seq![primary],
        (None, Some(secondary)) => seq![secondary],
        (None, None) => Seq::empty(),
    });
}

/// The windows of some limits and of some more are the windows of all of them.
pub proof fn law_windows_of_more_limits(
    rate_limits: Seq<RateLimitSnapshotDisplay>,
    more: Seq<RateLimitSnapshotDisplay>,
)
    ensures
        windows_of(rate_limits + more) == windows_of(rate_limits) + windows_of(more),
    decreases more.len(),
{
    if more.len() == 0 {
        assert(rate_limits + more =~= rate_limits);
        assert(windows_of(rate_limits) + windows_of(more) =~= windows_of(rate_limits));
    } else {
        law_windows_of_more_limits(rate_limits, more.drop_last());
        assert((rate_limits + more).drop_last() =~= rate_limits + more.drop_last());
        assert((rate_limits + more).last() == more.last());
        assert(windows_of(rate_limits + more) =~= windows_of(rate_limits) + windows_of(more));
    }
}

/// The highest use is that of one of the windows, and no window is used more; there
/// is none exactly if there is no window.
pub proof fn law_max_used_percent_is_of_a_window(
    windows: Seq<RateLimitWindowDisplay>,
    max: Option<Double>,
)
    requires
        is_max_used_percent(windows, max),
    ensures
        max is None <==> windows.len() == 0,
        max matches Some(max) ==> exists|i: int|
            0 <= i < windows.len() && (#[trigger] windows[i]).used_percent.bits == max.bits,
        max matches Some(max) ==> forall|i: int|
            0 <= i < windows.len() && !max.is_nan() && !(
            #[trigger] windows[i]).used_percent.is_nan() ==> windows[i].used_percent.units()
                <= max.units(),
        max matches Some(max) ==> forall|i: int|
            0 <= i < windows.len() ==> !max.ranked_below((#[trigger] windows[i]).used_percent),
{
    if let Some(max) = max {
        assert forall|i: int|
            0 <= i < windows.len() && !max.is_nan() && !(
            #[trigger] windows[i]).used_percent.is_nan() implies windows[i].used_percent.units()
            <= max.units() by {
            law_rank_follows_value(windows[i].used_percent, max);
        }
        assert forall|i: int| 0 <= i < windows.len() implies !max.ranked_below(
            (#[trigger] windows[i]).used_percent,
        ) by {
            law_rank_is_total_order_of_bits(max, windows[i].used_percent);
        }
    }
}

/// The next reset is the least of those that the windows have after `now`, and there
/// is none exactly if no window has one.
pub proof fn law_nearest_reset_is_the_next(
    windows: Seq<RateLimitWindowDisplay>,
    now: int,
    reset: Option<i64>,
)
    requires
        is_nearest_reset(windows, now, reset),
    ensures
        reset matches Some(reset) ==> now < reset && exists|i: int|
            0 <= i < windows.len() && (#[trigger] windows[i]).resets_at_unix == Some(reset),
        forall|i: int, at: i64|
            0 <= i < windows.len() && (#[trigger] windows[i]).resets_at_unix == Some(at) && now < at
                ==> reset is Some && #[trigger] not_after(reset->0, at),
{
    assert forall|i: int, at: i64|
        0 <= i < windows.len() && (#[trigger] windows[i]).resets_at_unix == Some(at) && now
            < at implies reset is Some && #[trigger] not_after(reset->0, at) by {
        assert(resets_later(windows[i], now));
    }
}

/// Whether the first instant is no later than the second.
pub open spec fn not_after(a: i64, b: i64) -> bool {
    a <= b
}

/// A duration of a day or more is told in days and hours, a shorter one of an hour
/// or more in hours and minutes, any other in minutes, each number being whole.
pub proof fn law_duration_tells_its_largest_units(days: nat, hours: nat, minutes: nat, rest: nat)
    requires
        hours < 24,
        minutes < 60,
        rest < 60,
    ensures
        ({
            let text = duration_text(
                (86_400 * days + 3_600 * hours + 60 * minutes + rest) as int,
            );
            &&& days > 0 ==> text == decimal(days) + "d "@ + decimal(hours) + "h"@
            &&& days == 0 && hours > 0 ==> text == decimal(hours) + "h "@ + decimal(minutes) + "m"@
            &&& days == 0 && hours == 0 ==> text == decimal(minutes) + "m"@
        }),
{
    let seconds = 86_400 * days + 3_600 * hours + 60 * minutes + rest;
    assert(seconds / 86_400 == days);
    assert(seconds % 86_400 == 3_600 * hours + 60 * minutes + rest);
    assert(seconds % 86_400 / 3_600 == hours);
    assert(seconds % 3_600 == 60 * minutes + rest);
    assert(seconds % 3_600 / 60 == minutes);
}

/// A duration below zero is told as none.
pub proof fn law_negative_duration_is_none(seconds: int)
    requires
        seconds <= 0,
    ensures
        duration_text(seconds) == decimal(0) + "m"@,
{
}

/// A countdown that is shown is to the reset that it is for. Its clock shows the
/// hour and minute of that reset, by the offset that the time zone of the machine
/// has at that very instant. It is left out only where there is no reset, or none
/// within the calendar.
pub proof fn law_countdown_shows_the_local_clock(
    reset: Option<i64>,
    now: int,
    text: Option<String>,
)
    requires
        counts_down(reset, now, text),
    ensures
        text is Some <==> (reset matches Some(at) && 86_400 * (MIN_DAY - 719_163) <= at < 86_400 * (
        MAX_DAY - 719_162)),
        text matches Some(text) ==> exists|utc_offset: i32, hour: int, minute: int|
            #![trigger is_local_offset(reset->0, utc_offset), shows_clock(text@, hour, minute)]
            {
                &&& is_local_offset(reset->0, utc_offset)
                &&& 0 <= hour < 24
                &&& 0 <= minute < 60
                &&& 3_600 * hour + 60 * minute <= (reset->0 + utc_offset) % 86_400 < 3_600 * hour
                    + 60 * minute + 60
                &&& shows_clock(text@, hour, minute)
                &&& text@.take(text@.len() - 6) == "resets in "@ + duration_text(reset->0 - now)
                    + " ("@
            },
{
    if let (Some(reset), Some(text)) = (reset, text) {
        let utc_offset = choose|utc_offset: i32| #[trigger]
            is_local_offset(reset, utc_offset) && text@ == countdown_text(
                reset as int,
                now,
                utc_offset as int,
            );
        lemma_local_offset_is_valid(reset, utc_offset);
        law_second_of_day_counts_from_midnight(reset as int, utc_offset as int);
        let second = second_of_day(reset as int, utc_offset as int);
        let hour = second / 3_600;
        let minute = second % 3_600 / 60;
        law_clock_shows_hour_and_minute(hour, minute, second % 60);
        assert(second == 3_600 * hour + 60 * minute + second % 60);
        reveal_strlit(")");
        let head = "resets in "@ + duration_text(reset - now) + " ("@;
        assert(text@ =~= head + clock_text(second) + ")"@);
        assert(text@.take(text@.len() - 6) =~= head);
        assert(shows_clock(text@, hour, minute));
    }
}

/// Whether a text ends with the hour and the minute, two digits each, and a closing
/// bracket.
pub open spec fn shows_clock(text: Seq<char>, hour: int, minute: int) -> bool {
    let end = text.len();
    &&& end >= 6
    &&& text[end - 6] as int == 0x30 + hour / 10
    &&& text[end - 5] as int == 0x30 + hour % 10
    &&& text[end - 4] == ':'
    &&& text[end - 3] as int == 0x30 + minute / 10
    &&& text[end - 2] as int == 0x30 + minute % 10
    &&& text[end - 1] == ')'
}

/// A countdown is its introduction, the time that is left, and the clock time in
/// brackets.
pub proof fn law_countdown_is_made_of_parts(reset: int, now: int, utc_offset: int)
    ensures
        countdown_text(reset, now, utc_offset) == "resets in "@ + duration_text(reset - now)
            + " ("@ + clock_text((reset + utc_offset) % 86_400) + ")"@,
{
}

/// Whether more than nothing and less than 100 percent of a window is used. The
/// values count multiples of the smallest double.
pub open spec fn between_none_and_all(window: RateLimitWindowDisplay) -> bool {
    &&& !window.used_percent.is_nan()
    &&& 0 < window.used_percent.units() < 100 * vstd::arithmetic::power2::pow2(1074)
}

/// An estimate is made exactly for a window of which more than nothing and less than
/// all is used, whose length is known and whose reset lies ahead. It is made from
/// the use and the length of the window as they are, and from the seconds that lead
/// from now to the reset.
pub proof fn law_estimate_is_made_from_the_window(
    window: RateLimitWindowDisplay,
    now: i64,
    inputs: Option<EtaInputs>,
)
    requires
        inputs == eta_inputs(window, now as int),
        window.resets_at_unix matches Some(reset) ==> reset - now <= i64::MAX,
    ensures
        inputs is Some <==> between_none_and_all(window) && window.window_minutes is Some
            && window.resets_at_unix is Some && window.resets_at_unix->0 > now,
        inputs matches Some(inputs) ==> {
            &&& inputs.used_percent.bits == window.used_percent.bits
            &&& Some(inputs.window_minutes) == window.window_minutes
            &&& now + inputs.seconds_until_reset == window.resets_at_unix->0
        },
{
}

/// A second later the same estimate has one second less to the reset, as long as the
/// reset still lies ahead.
pub proof fn law_estimate_counts_down(window: RateLimitWindowDisplay, now: i64)
    requires
        now < i64::MAX,
        eta_inputs(window, now as int) is Some,
        window.resets_at_unix->0 - now <= i64::MAX,
        window.resets_at_unix->0 > now + 1,
    ensures
        eta_inputs(window, now + 1) is Some,
        eta_inputs(window, now + 1)->0.seconds_until_reset == eta_inputs(
            window,
            now as int,
        )->0.seconds_until_reset - 1,
{
}

/// One more window adds its estimate at the end, where there is one.
pub proof fn law_estimates_follow_the_windows(
    windows: Seq<RateLimitWindowDisplay>,
    window: RateLimitWindowDisplay,
    now: int,
)
    ensures
        eta_inputs_of(Seq::empty(), now).len() == 0,
        eta_inputs_of(windows.push(window), now) == match eta_inputs(window, now) {
            Some(inputs) => eta_inputs_of(windows, now).push(inputs),
            None => eta_inputs_of(windows, now),
        },
{
    assert(windows.push(window).drop_last() =~= windows);
}

/// The estimate that counts is one of those made, and none of them is sooner; there
/// is none exactly if none was made.
pub proof fn law_least_estimate_is_the_soonest(etas: Seq<Option<i64>>, least: Option<i64>)
    requires
        is_least_eta(etas, least),
    ensures
        least is Some ==> exists|i: int| 0 <= i < etas.len() && #[trigger] etas[i] == least,
        forall|i: int|
            0 <= i < etas.len() && (#[trigger] etas[i]) is Some ==> least is Some && least->0
                <= etas[i]->0,
{
    if least is Some {
        let i = etas.index_of(least);
        assert(etas[i] == least);
    }
}

/// A reset is as many seconds after the capture of a snapshot as were asked for.
pub proof fn law_reset_adds_its_seconds(captured_at: Moment, seconds: int)
    requires
        captured_at.nanos < 1_000_000_000,
    ensures
        shifted(captured_at, seconds) - captured_at.timestamp == seconds,
{
}

/// References to the windows of limits are to each of them, in order.
pub proof fn law_references_are_to_all_windows(
    windows: Seq<&RateLimitWindowDisplay>,
    rate_limits: Seq<RateLimitSnapshotDisplay>,
)
    requires
        refers_to_windows(windows, rate_limits),
    ensures
        windows.len() == windows_of(rate_limits).len(),
        forall|i: int|
            0 <= i < windows.len() ==> *(#[trigger] windows[i]) == windows_of(rate_limits)[i],
{
}

} // verus!
