//! Rollout files: the recorded lines of a session, from which usage is read.
use crate::text::{
    is_white_space, law_trimming_takes_white_space_alone, occurs_at, stands_at, to_chars, trim,
    trimmed,
};
use crate::time::{
    day_in_range, is_current_day, is_local_offset, law_day_holds_its_seconds, local_day,
    parse_rfc3339, parse_ymd, rfc3339_timestamp, today, ymd_day, zone_offset, Moment,
};
use crate::usage::{Totals, UsageTally};
use vstd::prelude::*;
use vstd::string::*;
use vstd::utf8::*;

verus! {

/// No more than this many rollout files are read.
pub const MAX_OBSERVABILITY_FILES: usize = 500;

/// No more than this many lines of a rollout file are read.
pub const MAX_OBSERVABILITY_LINES_PER_FILE: usize = 20_000;

/// How the name of a rollout file begins and ends.
pub open spec fn is_rollout_name(name: Seq<char>) -> bool {
    &&& occurs_at(name, "rollout-"@, 0)
    &&& occurs_at(name, ".jsonl"@, name.len() - ".jsonl"@.len())
}

/// The part of a rollout file's name between its beginning and its end.
pub open spec fn name_core(name: Seq<char>) -> Option<Seq<char>> {
    let rest = name.skip("rollout-"@.len() as int);
    if occurs_at(name, "rollout-"@, 0) && occurs_at(
        rest,
        ".jsonl"@,
        rest.len() - ".jsonl"@.len(),
    ) {
        Some(rest.take(rest.len() - ".jsonl"@.len()))
    } else {
        None
    }
}

/// The first ten bytes of a text, where they are whole characters.
pub open spec fn ten_bytes(text: Seq<char>) -> Option<Seq<char>> {
    let bytes = encode_utf8(text);
    if bytes.len() >= 10 && is_char_boundary(bytes, 10) {
        Some(decode_utf8(bytes.take(10)))
    } else {
        None
    }
}

/// The part of a rollout file's name that holds its date.
pub open spec fn name_date(name: Seq<char>) -> Option<Seq<char>> {
    match name_core(name) {
        Some(core) => ten_bytes(core),
        None => None,
    }
}

/// The day that the name of a rollout file gives.
pub open spec fn name_day(name: Seq<char>) -> Option<i32> {
    match name_date(name) {
        Some(date) => ymd_day(date),
        None => None,
    }
}

/// Whether a file of this name is a rollout file.
pub fn is_rollout_file_name(name: &str) -> (r: bool)
    ensures
        r == is_rollout_name(name@),
{
    let chars = to_chars(name);
    let prefix = to_chars("rollout-");
    let suffix = to_chars(".jsonl");
    stands_at(&chars, &prefix, 0) && chars.len() >= suffix.len() && stands_at(
        &chars,
        &suffix,
        chars.len() - suffix.len(),
    )
}

/// The part of a rollout file's name that holds its date: the first ten bytes
/// between `rollout-` and `.jsonl`.
pub fn date_in_file_name(name: &str) -> (r: Option<&str>)
    ensures
        match r {
            Some(date) => name_date(name@) == Some(date@),
            None => name_date(name@) is None,
        },
{
    let chars = to_chars(name);
    let prefix = to_chars("rollout-");
    let suffix = to_chars(".jsonl");
    if !stands_at(&chars, &prefix, 0) {
        return None;
    }
    let rest = name.substring_char(prefix.len(), chars.len());
    let rest_chars = to_chars(rest);
    proof {
        assert(rest@ =~= name@.skip(prefix@.len() as int));
    }
    if rest_chars.len() < suffix.len() || !stands_at(
        &rest_chars,
        &suffix,
        rest_chars.len() - suffix.len(),
    ) {
        return None;
    }
    let core = rest.substring_char(0, rest_chars.len() - suffix.len());
    proof {
        assert(core@ =~= rest@.take(rest@.len() - suffix@.len()));
    }
    let bytes = core.as_bytes();
    if bytes.len() < 10 || !core.is_char_boundary(10) {
        return None;
    }
    let (date, _) = core.split_at(10);
    proof {
        assert(encode_utf8(core@).take(10) =~= date.spec_bytes());
        encode_utf8_decode_utf8(date@);
    }
    Some(date)
}

/// The day that the name of a rollout file gives.
pub fn infer_day_from_file_name(name: &str) -> (r: Option<i32>)
    ensures
        r == name_day(name@),
        r matches Some(day) ==> day_in_range(day as int),
{
    match date_in_file_name(name) {
        Some(date) => parse_ymd(date),
        None => None,
    }
}

/// Whether `day` is the day of the instant at the UTC offset that the time zone of
/// the machine has then.
pub open spec fn is_day_of(timestamp: i64, day: int) -> bool {
    exists|utc_offset: i32| #[trigger]
        is_local_offset(timestamp, utc_offset) && day == local_day(
            timestamp as int,
            utc_offset as int,
        )
}

/// The local day of a line's timestamp. There is one exactly where the timestamp
/// reads as RFC 3339; the UTC offset is that of the machine at that instant.
pub fn parse_rollout_line_day(timestamp: &str) -> (r: Option<i32>)
    ensures
        r is Some <==> rfc3339_timestamp(timestamp@) is Some,
        r matches Some(day) ==> day_in_range(day as int) && is_day_of(
            rfc3339_timestamp(timestamp@)->0,
            day as int,
        ),
{
    match parse_rfc3339(timestamp) {
        Some(instant) => match zone_offset(instant) {
            Some(utc_offset) => Some(
                (Moment { timestamp: instant, nanos: 0, utc_offset }).date_naive(),
            ),
            None => None,
        },
        None => None,
    }
}

/// The token counts of one model response.
#[derive(Clone, Copy, Debug, PartialEq, Eq, Structural)]
pub struct TokenDelta {
    /// Input tokens that were not cached, and output tokens.
    pub blended_total: i64,
    /// Input tokens that were cached.
    pub cached_input: i64,
}

/// What a line of a rollout file records.
#[derive(Clone, Debug)]
pub enum RolloutItem {
    /// The following responses come from this model.
    TurnContext { model: String },
    /// A response was counted; without counts the line says nothing.
    TokenCount { usage: Option<TokenDelta> },
    /// Anything else.
    Other,
}

/// A line of a rollout file.
#[derive(Clone, Debug)]
pub struct RolloutLine {
    pub timestamp: String,
    pub item: RolloutItem,
}

impl RolloutItem {
    /// The token counts that the line adds to the tally, where it adds any.
    pub open spec fn counted(self) -> Option<TokenDelta> {
        match self {
            RolloutItem::TokenCount { usage: Some(usage) } => if usage.blended_total > 0 {
                Some(usage)
            } else {
                None
            },
            _ => None,
        }
    }

    /// The token counts that the line adds to the tally, where it adds any.
    pub fn counted_usage(&self) -> (r: Option<TokenDelta>)
        ensures
            r == self.counted(),
    {
        match self {
            RolloutItem::TokenCount { usage: Some(usage) } => if usage.blended_total > 0 {
                Some(*usage)
            } else {
                None
            },
            _ => None,
        }
    }
}

/// Sums so far, and the model that the next response comes from.
#[verifier::ext_equal]
pub struct ScanState {
    pub totals: Totals,
    pub model: Seq<char>,
}

/// The state after one line, with `day` as the day of the line; `None` where a
/// sum would leave the range of 64-bit integers.
pub open spec fn scan_line(state: ScanState, item: RolloutItem, day: i32) -> Option<ScanState> {
    match item.counted() {
        Some(usage) => if state.totals.has_room(
            state.model,
            usage.blended_total as int,
            usage.cached_input as int,
            day,
        ) {
            Some(
                ScanState {
                    totals: state.totals.with_usage(
                        state.model,
                        usage.blended_total as int,
                        usage.cached_input as int,
                        day,
                    ),
                    model: state.model,
                },
            )
        } else {
            None
        },
        None => match item {
            RolloutItem::TurnContext { model } => if trimmed(model@).len() > 0 {
                Some(ScanState { totals: state.totals, model: model@ })
            } else {
                Some(state)
            },
            _ => Some(state),
        },
    }
}

/// The state after the lines, with `days` as their days.
pub open spec fn scan_lines(
    state: ScanState,
    lines: Seq<RolloutLine>,
    days: Seq<i32>,
) -> Option<ScanState>
    decreases lines.len(),
{
    if lines.len() == 0 {
        Some(state)
    } else {
        match scan_lines(state, lines.drop_last(), days.drop_last()) {
            Some(before) => scan_line(before, lines.last().item, days.last()),
            None => None,
        }
    }
}

/// What reading a rollout file makes of a tally: `complete` says whether every
/// line was counted. If not, the tally holds the lines before the first one whose
/// sums do not fit.
pub open spec fn scan_outcome(
    before: Totals,
    lines: Seq<RolloutLine>,
    days: Seq<i32>,
    complete: bool,
    after: Totals,
) -> bool {
    let start = ScanState { totals: before, model: "unknown"@ };
    if complete {
        scan_lines(start, lines, days) matches Some(end) && end.totals == after
    } else {
        exists|n: int|
            0 <= n < lines.len() && (#[trigger] scan_lines(
                start,
                lines.take(n),
                days.take(n),
            ) matches Some(end) && end.totals == after) && scan_lines(
                start,
                lines.take(n + 1),
                days.take(n + 1),
            ) is None
    }
}

/// Whether `days` gives every counted line a day of the calendar.
pub open spec fn counted_days_in_range(lines: Seq<RolloutLine>, days: Seq<i32>) -> bool {
    &&& days.len() == lines.len()
    &&& forall|i: int|
        0 <= i < lines.len() && (#[trigger] lines[i]).item.counted() is Some ==> day_in_range(
            days[i] as int,
        )
}

/// Adds the lines of a rollout file to a tally, with `days` as their days. Says
/// whether all sums stayed within the range of 64-bit integers; the count stops
/// where one does not.
pub fn tally_lines(lines: &Vec<RolloutLine>, days: &Vec<i32>, tally: &mut UsageTally) -> (complete:
    bool)
    requires
        old(tally).wf(),
        counted_days_in_range(lines@, days@),
    ensures
        final(tally).wf(),
        scan_outcome(old(tally)@, lines@, days@, complete, final(tally)@),
{
    let ghost start = ScanState { totals: tally@, model: "unknown"@ };
    let mut model_for_turn: String = "unknown".to_owned();
    for n in 0..lines.len()
        invariant
            start == (ScanState { totals: old(tally)@, model: "unknown"@ }),
            tally.wf(),
            counted_days_in_range(lines@, days@),
            scan_lines(start, lines@.take(n as int), days@.take(n as int)) == Some(
                ScanState { totals: tally@, model: model_for_turn@ },
            ),
    {
        let line = &lines[n];
        proof {
            let ahead = n + 1;
            assert(lines@.take(ahead).drop_last() =~= lines@.take(n as int));
            assert(days@.take(ahead).drop_last() =~= days@.take(n as int));
            assert(lines@.take(ahead).last() == *line);
            assert(days@.take(ahead).last() == days@[n as int]);
        }
        match line.item.counted_usage() {
            Some(usage) => {
                if !tally.record_usage(
                    model_for_turn.as_str(),
                    usage.blended_total,
                    usage.cached_input,
                    days[n],
                ) {
                    return false;
                }
            },
            None => {
                if let RolloutItem::TurnContext { model } = &line.item {
                    if !trim(model.as_str()).is_empty() {
                        model_for_turn = model.clone();
                    }
                }
            },
        }
    }
    proof {
        assert(lines@.take(lines@.len() as int) =~= lines@);
        assert(days@.take(lines@.len() as int) =~= days@);
    }
    true
}

/// Whether `day` is a day on which a line with this timestamp may be counted: the
/// local day of the timestamp; failing that, the day in the name of the file;
/// failing that, the current local day.
pub open spec fn line_day_allowed(
    timestamp: Seq<char>,
    file_name: Option<Seq<char>>,
    day: i32,
) -> bool {
    let named = match file_name {
        Some(name) => name_day(name),
        None => None,
    };
    &&& day_in_range(day as int)
    &&& match (rfc3339_timestamp(timestamp), named) {
        (Some(instant), _) => is_day_of(instant, day as int),
        (None, Some(named_day)) => day == named_day,
        (None, None) => is_current_day(day),
    }
}

pub open spec fn opt_view(text: Option<&str>) -> Option<Seq<char>> {
    match text {
        Some(text) => Some(text@),
        None => None,
    }
}

/// The day of a line: the local day of its timestamp, or the day in the name of
/// its file, or the current local day.
pub fn line_day(timestamp: &str, file_name: Option<&str>) -> (day: i32)
    ensures
        line_day_allowed(timestamp@, opt_view(file_name), day),
{
    match parse_rollout_line_day(timestamp) {
        Some(day) => day,
        None => {
            let named: Option<i32> = match file_name {
                Some(name) => infer_day_from_file_name(name),
                None => None,
            };
            match named {
                Some(day) => day,
                None => today(),
            }
        },
    }
}

/// Whether `days` gives every counted line a day that it may have.
pub open spec fn days_allowed(
    lines: Seq<RolloutLine>,
    file_name: Option<Seq<char>>,
    days: Seq<i32>,
) -> bool {
    &&& days.len() == lines.len()
    &&& forall|i: int|
        0 <= i < lines.len() && (#[trigger] lines[i]).item.counted() is Some ==> line_day_allowed(
            lines[i].timestamp@,
            file_name,
            days[i],
        )
}

/// The days of the lines; a line that is not counted gets no day of its own.
pub fn line_days(lines: &Vec<RolloutLine>, file_name: Option<&str>) -> (days: Vec<i32>)
    ensures
        days_allowed(lines@, opt_view(file_name), days@),
{
    let mut days: Vec<i32> = Vec::new();
    for n in 0..lines.len()
        invariant
            days@.len() == n,
            forall|i: int|
                0 <= i < n && (#[trigger] lines@[i]).item.counted() is Some ==> line_day_allowed(
                    lines@[i].timestamp@,
                    opt_view(file_name),
                    days@[i],
                ),
    {
        let line = &lines[n];
        let day: i32 = if line.item.counted_usage().is_some() {
            line_day(line.timestamp.as_str(), file_name)
        } else {
            0
        };
        days.push(day);
    }
    days
}

/// Adds the lines of a rollout file to a tally. Says whether all sums stayed
/// within the range of 64-bit integers; the count stops where one does not.
pub fn parse_rollout_usage(
    lines: &Vec<RolloutLine>,
    file_name: Option<&str>,
    tally: &mut UsageTally,
) -> (complete: bool)
    requires
        old(tally).wf(),
    ensures
        final(tally).wf(),
        exists|days: Seq<i32>|
            days_allowed(lines@, opt_view(file_name), days) && #[trigger] scan_outcome(
                old(tally)@,
                lines@,
                days,
                complete,
                final(tally)@,
            ),
{
    let days = line_days(lines, file_name);
    tally_lines(lines, &days, tally)
}

/// What to do with a line of a rollout file as it is read.
pub enum LineStep<'a> {
    /// Read no further.
    Stop,
    /// The line says nothing.
    Skip,
    /// The line is this text, to be decoded.
    Decode(&'a str),
}

/// What a step does, with the text as its characters.
pub enum LineAction {
    Stop,
    Skip,
    Decode(Seq<char>),
}

impl<'a> View for LineStep<'a> {
    type V = LineAction;

    open spec fn view(&self) -> LineAction {
        match self {
            LineStep::Stop => LineAction::Stop,
            LineStep::Skip => LineAction::Skip,
            LineStep::Decode(text) => LineAction::Decode(text@),
        }
    }
}

/// What to do with the line at `index`, where `line` is its text, or `None` where
/// it could not be read. A line that is not blank is decoded without the white
/// space around it.
pub open spec fn line_action(index: int, line: Option<Seq<char>>) -> LineAction {
    if index >= MAX_OBSERVABILITY_LINES_PER_FILE {
        LineAction::Stop
    } else {
        match line {
            Some(text) => if trimmed(text).len() > 0 {
                LineAction::Decode(trimmed(text))
            } else {
                LineAction::Skip
            },
            None => LineAction::Skip,
        }
    }
}

/// Decides what to do with the line at `index`, where `line` is its text, or
/// `None` where it could not be read.
pub fn line_step<'a>(index: usize, line: Option<&'a str>) -> (step: LineStep<'a>)
    ensures
        step@ == line_action(index as int, opt_view(line)),
{
    if index >= MAX_OBSERVABILITY_LINES_PER_FILE {
        return LineStep::Stop;
    }
    match line {
        Some(text) => {
            let decoded = trim(text);
            if decoded.is_empty() {
                LineStep::Skip
            } else {
                LineStep::Decode(decoded)
            }
        },
        None => LineStep::Skip,
    }
}

/// A file name has a core between its beginning and its end exactly if it begins
/// and ends as the name of a rollout file does: the two never overlap.
pub proof fn law_rollout_names_have_a_core(name: Seq<char>)
    ensures
        is_rollout_name(name) <==> name_core(name) is Some,
{
    reveal_strlit("rollout-");
    reveal_strlit(".jsonl");
    let prefix = "rollout-"@;
    let suffix = ".jsonl"@;
    let rest = name.skip(8);
    if occurs_at(name, prefix, 0) && name.len() >= 6 {
        let at = name.len() - 6;
        if occurs_at(name, suffix, at) && at < 8 {
            assert(name.subrange(0, 8)[7] == '-');
            assert(name.subrange(at, at + 6)[7 - at] == name[7]);
            assert(suffix[7 - at] == '-');
        }
        if at >= 8 {
            assert(name.subrange(at, at + 6) =~= rest.subrange(at - 8, at - 2));
        }
    }
}

/// Scanning some lines and then some more is scanning them all.
pub proof fn law_scan_in_parts(
    state: ScanState,
    lines: Seq<RolloutLine>,
    days: Seq<i32>,
    more_lines: Seq<RolloutLine>,
    more_days: Seq<i32>,
)
    requires
        days.len() == lines.len(),
        more_days.len() == more_lines.len(),
    ensures
        scan_lines(state, lines + more_lines, days + more_days) == (match scan_lines(
            state,
            lines,
            days,
        ) {
            Some(between) => scan_lines(between, more_lines, more_days),
            None => None,
        }),
    decreases more_lines.len(),
{
    if more_lines.len() == 0 {
        assert(lines + more_lines =~= lines);
        assert(days + more_days =~= days);
    } else {
        law_scan_in_parts(state, lines, days, more_lines.drop_last(), more_days.drop_last());
        assert((lines + more_lines).drop_last() =~= lines + more_lines.drop_last());
        assert((days + more_days).drop_last() =~= days + more_days.drop_last());
    }
}

/// Lines that count no tokens leave the sums as they are.
pub proof fn law_uncounted_lines_change_no_sum(
    state: ScanState,
    lines: Seq<RolloutLine>,
    days: Seq<i32>,
)
    requires
        forall|i: int| 0 <= i < lines.len() ==> (#[trigger] lines[i]).item.counted() is None,
    ensures
        scan_lines(state, lines, days) matches Some(after) && after.totals == state.totals,
    decreases lines.len(),
{
    if lines.len() > 0 {
        let before = lines.drop_last();
        assert forall|i: int| 0 <= i < before.len() implies (
        #[trigger] before[i]).item.counted() is None by {
            assert(before[i] == lines[i]);
        }
        law_uncounted_lines_change_no_sum(state, before, days.drop_last());
        assert(lines.last() == lines[lines.len() - 1]);
    }
}

/// The model that the last turn among the lines names, or `before` where none
/// does.
pub open spec fn named_model(before: Seq<char>, lines: Seq<RolloutLine>) -> Seq<char>
    decreases lines.len(),
{
    if lines.len() == 0 {
        before
    } else {
        match lines.last().item {
            RolloutItem::TurnContext { model } if trimmed(model@).len() > 0 => model@,
            _ => named_model(before, lines.drop_last()),
        }
    }
}

/// Tokens are counted for the model that the last turn before them names; a turn
/// with a blank model name does not change it.
pub proof fn law_model_sticks(state: ScanState, lines: Seq<RolloutLine>, days: Seq<i32>)
    ensures
        scan_lines(state, lines, days) matches Some(after) ==> after.model == named_model(
            state.model,
            lines,
        ),
    decreases lines.len(),
{
    if lines.len() > 0 {
        law_model_sticks(state, lines.drop_last(), days.drop_last());
    }
}

/// The day of a line whose timestamp can be read is the one between whose local
/// midnights the instant lies, by the offset that the time zone of the machine has
/// at that instant.
pub proof fn law_line_day_is_the_local_one(
    timestamp: Seq<char>,
    instant: i64,
    file_name: Option<Seq<char>>,
    day: i32,
)
    requires
        rfc3339_timestamp(timestamp) == Some(instant),
        line_day_allowed(timestamp, file_name, day),
    ensures
        exists|utc_offset: i32| #[trigger]
            is_local_offset(instant, utc_offset) && 86_400 * (day - 719_163) <= instant + utc_offset
                < 86_400 * (day - 719_162),
{
    let utc_offset = choose|utc_offset: i32| #[trigger]
        is_local_offset(instant, utc_offset) && day == local_day(
            instant as int,
            utc_offset as int,
        );
    law_day_holds_its_seconds(instant as int, utc_offset as int);
}

/// A line whose timestamp cannot be read gets the day in the name of its file, and
/// the current local day where that gives none.
pub proof fn law_line_day_falls_back(
    timestamp: Seq<char>,
    name: Seq<char>,
    named: bool,
    day: i32,
)
    requires
        rfc3339_timestamp(timestamp) is None,
        line_day_allowed(timestamp, if named { Some(name) } else { None }, day),
    ensures
        named && name_date(name) is Some && ymd_day(name_date(name)->0) is Some ==> day == ymd_day(
            name_date(name)->0,
        )->0,
        !named || name_date(name) is None || ymd_day(name_date(name)->0) is None ==> is_current_day(
            day,
        ),
{
}

/// The name of a rollout file is `rollout-`, then anything, then `.jsonl`; and the
/// part between the two is its core.
pub proof fn law_rollout_name_is_made_of_parts(name: Seq<char>, core: Seq<char>)
    ensures
        name == "rollout-"@ + core + ".jsonl"@ <==> name_core(name) == Some(core),
        name == "rollout-"@ + core + ".jsonl"@ ==> is_rollout_name(name),
        is_rollout_name(name) ==> exists|rest: Seq<char>| name == #[trigger] ("rollout-"@ + rest)
            + ".jsonl"@,
{
    reveal_strlit("rollout-");
    reveal_strlit(".jsonl");
    let made = "rollout-"@ + core + ".jsonl"@;
    assert(made.subrange(0, 8) =~= "rollout-"@);
    assert(made.skip(8) =~= core + ".jsonl"@);
    assert((core + ".jsonl"@).subrange(core.len() as int, core.len() as int + 6) =~= ".jsonl"@);
    assert((core + ".jsonl"@).take(core.len() as int) =~= core);
    law_rollout_names_have_a_core(name);
    law_rollout_names_have_a_core(made);
    if let Some(found) = name_core(name) {
        let rest = name.skip(8);
        assert(name =~= name.subrange(0, 8) + rest);
        assert(rest =~= found + rest.subrange(rest.len() - 6, rest.len() as int));
        assert(name =~= ("rollout-"@ + found) + ".jsonl"@);
    }
}

/// The date in the name of a rollout file is what stands in ten bytes right after
/// `rollout-`, whatever follows it up to `.jsonl`.
pub proof fn law_name_date_is_ten_bytes(date: Seq<char>, rest: Seq<char>)
    requires
        encode_utf8(date).len() == 10,
    ensures
        name_date("rollout-"@ + (date + rest) + ".jsonl"@) == Some(date),
        name_day("rollout-"@ + (date + rest) + ".jsonl"@) == ymd_day(date),
{
    law_rollout_name_is_made_of_parts("rollout-"@ + (date + rest) + ".jsonl"@, date + rest);
    lemma_encoding_of_parts(date, rest);
    let bytes = encode_utf8(date + rest);
    assert(bytes.take(10) =~= encode_utf8(date));
    encode_utf8_decode_utf8(date);
    lemma_boundary_after(date, rest);
}

/// A text of fewer than ten bytes between `rollout-` and `.jsonl` holds no date.
pub proof fn law_short_name_has_no_date(core: Seq<char>)
    requires
        encode_utf8(core).len() < 10,
    ensures
        name_date("rollout-"@ + core + ".jsonl"@) is None,
        name_day("rollout-"@ + core + ".jsonl"@) is None,
{
    law_rollout_name_is_made_of_parts("rollout-"@ + core + ".jsonl"@, core);
}

proof fn lemma_encoding_of_parts(a: Seq<char>, b: Seq<char>)
    ensures
        encode_utf8(a + b) == encode_utf8(a) + encode_utf8(b),
    decreases a.len(),
{
    if a.len() == 0 {
        assert(a + b =~= b);
        assert(encode_utf8(a) + encode_utf8(b) =~= encode_utf8(b));
    } else {
        lemma_encoding_of_parts(a.drop_first(), b);
        assert((a + b).drop_first() =~= a.drop_first() + b);
        assert(encode_utf8(a + b) =~= encode_utf8(a) + encode_utf8(b));
    }
}

proof fn lemma_boundary_after(a: Seq<char>, b: Seq<char>)
    ensures
        is_char_boundary(encode_utf8(a + b), encode_utf8(a).len() as int),
    decreases a.len(),
{
    lemma_encoding_of_parts(a, b);
    encode_utf8_valid_utf8(a);
    encode_utf8_valid_utf8(b);
    encode_utf8_valid_utf8(a + b);
    if a.len() > 0 {
        encode_utf8_first_scalar(a + b);
        lemma_boundary_after(a.drop_first(), b);
        assert((a + b).drop_first() =~= a.drop_first() + b);
        lemma_encoding_of_parts(a.drop_first(), b);
        assert(pop_first_scalar(encode_utf8(a + b)) =~= encode_utf8(a.drop_first() + b));
    }
}

/// A response whose blended count is positive adds exactly that count to its day and
/// to the model of the turn, and exactly its cached input to the model, however much
/// of that there is; other days and models, and the model of the turn, stay.
pub proof fn law_counted_response_adds_its_tokens(
    state: ScanState,
    lines: Seq<RolloutLine>,
    days: Seq<i32>,
    line: RolloutLine,
    day: i32,
    usage: TokenDelta,
    before: ScanState,
    after: ScanState,
)
    requires
        line.item == (RolloutItem::TokenCount { usage: Some(usage) }),
        usage.blended_total > 0,
        scan_lines(state, lines, days) == Some(before),
        scan_lines(state, lines.push(line), days.push(day)) == Some(after),
    ensures
        after.model == before.model,
        after.totals.by_day.dom() == before.totals.by_day.dom().insert(day),
        after.totals.by_day[day] == usage.blended_total + if before.totals.by_day.contains_key(
            day,
        ) {
            before.totals.by_day[day] as int
        } else {
            0
        },
        forall|other: i32|
            other != day && #[trigger] before.totals.by_day.contains_key(other)
                ==> after.totals.by_day[other] == before.totals.by_day[other],
        after.totals.by_model.dom() == before.totals.by_model.dom().insert(before.model),
        before.totals.by_model.contains_key(before.model) ==> {
            &&& after.totals.by_model[before.model].tokens
                == before.totals.by_model[before.model].tokens + usage.blended_total
            &&& after.totals.by_model[before.model].cached_input_tokens
                == before.totals.by_model[before.model].cached_input_tokens + usage.cached_input
        },
        !before.totals.by_model.contains_key(before.model) ==> {
            &&& after.totals.by_model[before.model].tokens == usage.blended_total
            &&& after.totals.by_model[before.model].cached_input_tokens == usage.cached_input
        },
        forall|other: Seq<char>|
            other != before.model && #[trigger] before.totals.by_model.contains_key(other)
                ==> after.totals.by_model[other] == before.totals.by_model[other],
{
    assert(lines.push(line).drop_last() =~= lines);
    assert(days.push(day).drop_last() =~= days);
}

/// A response with a positive blended count is refused only where one of the three
/// sums that it adds to would leave 64 bits.
pub proof fn law_response_is_refused_only_on_overflow(
    state: ScanState,
    lines: Seq<RolloutLine>,
    days: Seq<i32>,
    line: RolloutLine,
    day: i32,
    before: ScanState,
)
    requires
        scan_lines(state, lines, days) == Some(before),
    ensures
        scan_lines(state, lines.push(line), days.push(day)) is None <==> {
            line.item matches RolloutItem::TokenCount { usage: Some(usage) } && {
                let on_day = if before.totals.by_day.contains_key(day) {
                    before.totals.by_day[day] as int
                } else {
                    0
                };
                let (tokens, cached) = if before.totals.by_model.contains_key(before.model) {
                    (
                        before.totals.by_model[before.model].tokens,
                        before.totals.by_model[before.model].cached_input_tokens,
                    )
                } else {
                    (0, 0)
                };
                &&& usage.blended_total > 0
                &&& {
                    ||| on_day + usage.blended_total > 0x7fff_ffff_ffff_ffff
                    ||| on_day + usage.blended_total < -0x8000_0000_0000_0000
                    ||| tokens + usage.blended_total > 0x7fff_ffff_ffff_ffff
                    ||| tokens + usage.blended_total < -0x8000_0000_0000_0000
                    ||| cached + usage.cached_input > 0x7fff_ffff_ffff_ffff
                    ||| cached + usage.cached_input < -0x8000_0000_0000_0000
                }
            }
        },
{
    assert(lines.push(line).drop_last() =~= lines);
    assert(days.push(day).drop_last() =~= days);
}

/// A line without counts, or with a blended count that is not positive, changes
/// nothing; a turn changes the model alone, and only where it names one that is not
/// blank.
pub proof fn law_other_lines_add_nothing(
    state: ScanState,
    lines: Seq<RolloutLine>,
    days: Seq<i32>,
    line: RolloutLine,
    day: i32,
    before: ScanState,
)
    requires
        scan_lines(state, lines, days) == Some(before),
    ensures
        line.item == (RolloutItem::TokenCount { usage: None }) || line.item is Other
            ==> scan_lines(state, lines.push(line), days.push(day)) == Some(before),
        line.item matches RolloutItem::TokenCount { usage: Some(usage) } ==> usage.blended_total
            <= 0 ==> scan_lines(state, lines.push(line), days.push(day)) == Some(before),
        line.item matches RolloutItem::TurnContext { model } ==> scan_lines(
            state,
            lines.push(line),
            days.push(day),
        ) == Some(
            ScanState {
                totals: before.totals,
                model: if exists|i: int|
                    0 <= i < model@.len() && !is_white_space(#[trigger] model@[i]) {
                    model@
                } else {
                    before.model
                },
            },
        ),
{
    assert(lines.push(line).drop_last() =~= lines);
    assert(days.push(day).drop_last() =~= days);
    if let RolloutItem::TurnContext { model } = line.item {
        law_trimming_takes_white_space_alone(model@);
    }
}

/// Scanning no lines leaves everything as it is.
pub proof fn law_no_lines_add_nothing(state: ScanState)
    ensures
        scan_lines(state, Seq::empty(), Seq::empty()) == Some(state),
{
}

/// The counts of a response are those that it has, where its blended count is
/// positive, whatever its cached input is; no other line has counts.
pub proof fn law_counts_are_of_positive_responses(item: RolloutItem, usage: TokenDelta)
    ensures
        item.counted() == Some(usage) <==> item == (RolloutItem::TokenCount { usage: Some(usage) })
            && usage.blended_total > 0,
{
}

/// What a step does with a line: nothing more from line 20000 on; before that, a line
/// with anything but white space in it is decoded, and others are passed over.
pub proof fn law_steps_take_lines_with_text(index: int, line: Option<Seq<char>>)
    ensures
        line_action(index, line) is Stop <==> index >= MAX_OBSERVABILITY_LINES_PER_FILE,
        index < MAX_OBSERVABILITY_LINES_PER_FILE ==> (line_action(index, line) is Decode <==> (
        line matches Some(text) && exists|i: int|
            0 <= i < text.len() && !is_white_space(#[trigger] text[i]))),
        line_action(index, line) matches LineAction::Decode(decoded) ==> decoded == trimmed(
            line->0,
        ),
{
    if let Some(text) = line {
        law_trimming_takes_white_space_alone(text);
    }
}

/// Every response with a positive blended count is counted on its own day: where its
/// timestamp can be read, on the one between whose local midnights the instant lies;
/// else on the one in the name of the file; else on the current one.
pub proof fn law_responses_are_counted_on_their_days(
    lines: Seq<RolloutLine>,
    file_name: Option<Seq<char>>,
    days: Seq<i32>,
    i: int,
    usage: TokenDelta,
)
    requires
        days_allowed(lines, file_name, days),
        0 <= i < lines.len(),
        lines[i].item == (RolloutItem::TokenCount { usage: Some(usage) }),
        usage.blended_total > 0,
    ensures
        days.len() == lines.len(),
        rfc3339_timestamp(lines[i].timestamp@) matches Some(instant) ==> exists|utc_offset: i32|
            #[trigger] is_local_offset(instant, utc_offset) && 86_400 * (days[i] - 719_163)
                <= instant + utc_offset < 86_400 * (days[i] - 719_162),
        rfc3339_timestamp(lines[i].timestamp@) is None && file_name is Some && name_day(
            file_name->0,
        ) is Some ==> days[i] == name_day(file_name->0)->0,
        rfc3339_timestamp(lines[i].timestamp@) is None && (file_name is None || name_day(
            file_name->0,
        ) is None) ==> is_current_day(days[i]),
{
    assert(lines[i].item.counted() is Some);
    if let Some(instant) = rfc3339_timestamp(lines[i].timestamp@) {
        law_line_day_is_the_local_one(lines[i].timestamp@, instant, file_name, days[i]);
    }
}

/// What the name of a rollout file holds as its date has ten bytes, and the part after
/// `rollout-` begins with it.
pub proof fn law_name_date_begins_the_core(name: Seq<char>, date: Seq<char>)
    requires
        name_date(name) == Some(date),
    ensures
        encode_utf8(date).len() == 10,
        exists|rest: Seq<char>| name == #[trigger] ("rollout-"@ + (date + rest)) + ".jsonl"@,
{
    let core = name_core(name)->0;
    law_rollout_name_is_made_of_parts(name, core);
    let bytes = encode_utf8(core);
    encode_utf8_valid_utf8(core);
    encode_utf8_decode_utf8(core);
    valid_utf8_split(bytes, 10);
    decode_utf8_split(bytes, 10);
    assert(bytes.take(10) =~= bytes.subrange(0, 10));
    decode_utf8_encode_utf8(bytes.take(10));
    let rest = decode_utf8(bytes.subrange(10, bytes.len() as int));
    assert(core =~= date + rest);
    assert(name == ("rollout-"@ + (date + rest)) + ".jsonl"@);
}

/// A text that may be missing is the same one as its characters, and so is a step with
/// its text.
pub proof fn law_texts_are_their_characters<'a>(text: &'a str)
    ensures
        opt_view(Some(text)) == Some(text@),
        opt_view(None) is None,
        LineStep::Decode(text)@ == LineAction::Decode(text@),
        LineStep::<'a>::Stop@ is Stop,
        LineStep::<'a>::Skip@ is Skip,
{
}

} // verus!
