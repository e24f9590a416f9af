//! What of a rollout file is read, and that what is read decides the tally.
use crate::rollout::{
    days_allowed, law_scan_in_parts, line_action, name_day, scan_lines, scan_outcome, LineAction,
    RolloutItem, RolloutLine, ScanState, MAX_OBSERVABILITY_LINES_PER_FILE,
};
use crate::sums::file_start;
use crate::text::trimmed;
use crate::time::{local_day, rfc3339_timestamp};
use crate::usage::Totals;
use vstd::prelude::*;

verus! {

/// The texts that are decoded when a file is read from the line at `index` on,
/// line by line, until there are no lines or a step stops the reading. A line is
/// `None` where it could not be read.
pub open spec fn texts_from(file: Seq<Option<Seq<char>>>, index: int) -> Seq<Seq<char>>
    decreases file.len() - index,
{
    if index >= file.len() {
        Seq::empty()
    } else {
        match line_action(index, file[index]) {
            LineAction::Stop => Seq::empty(),
            LineAction::Skip => texts_from(file, index + 1),
            LineAction::Decode(text) => seq![text] + texts_from(file, index + 1),
        }
    }
}

/// The texts that are decoded when a file is read.
pub open spec fn texts_read(file: Seq<Option<Seq<char>>>) -> Seq<Seq<char>> {
    texts_from(file, 0)
}

/// The lines that say something, without the white space around them.
pub open spec fn spoken_texts(file: Seq<Option<Seq<char>>>) -> Seq<Seq<char>>
    decreases file.len(),
{
    if file.len() == 0 {
        Seq::empty()
    } else {
        let before = spoken_texts(file.drop_last());
        match file.last() {
            Some(text) if trimmed(text).len() > 0 => before.push(trimmed(text)),
            _ => before,
        }
    }
}

/// The lines of a file as far as they are read: blank and unreadable ones count.
pub open spec fn lines_in_reach(file: Seq<Option<Seq<char>>>) -> Seq<Option<Seq<char>>> {
    if file.len() <= MAX_OBSERVABILITY_LINES_PER_FILE {
        file
    } else {
        file.take(MAX_OBSERVABILITY_LINES_PER_FILE as int)
    }
}

proof fn lemma_texts_from(file: Seq<Option<Seq<char>>>, index: int)
    requires
        0 <= index <= lines_in_reach(file).len(),
    ensures
        spoken_texts(lines_in_reach(file)) == spoken_texts(file.take(index)) + texts_from(
            file,
            index,
        ),
    decreases file.len() - index,
{
    let reach = lines_in_reach(file);
    if index == reach.len() {
        assert(file.take(index) =~= reach);
        assert(spoken_texts(reach) =~= spoken_texts(reach) + Seq::<Seq<char>>::empty());
    } else {
        lemma_texts_from(file, index + 1);
        assert(file.take(index + 1).drop_last() =~= file.take(index));
        assert(file.take(index + 1).last() == file[index]);
        assert(spoken_texts(file.take(index + 1)) + texts_from(file, index + 1) =~= spoken_texts(
            file.take(index),
        ) + texts_from(file, index));
    }
}

/// The texts that are read from a file are those of its first lines, as many as
/// may be read: the last of these is still read, and nothing after it.
pub proof fn law_reading_takes_the_first_lines(file: Seq<Option<Seq<char>>>)
    ensures
        texts_read(file) == spoken_texts(lines_in_reach(file)),
        lines_in_reach(file).len() > 0 ==> match lines_in_reach(file).last() {
            Some(text) if trimmed(text).len() > 0 => texts_read(file).len() > 0
                && texts_read(file).last() == trimmed(text),
            _ => true,
        },
{
    lemma_texts_from(file, 0);
    assert(file.take(0) =~= Seq::empty());
    assert(texts_read(file) =~= spoken_texts(lines_in_reach(file)));
}

/// The lines that a decoder makes of the texts; a text that it refuses is passed
/// over.
pub open spec fn decoded_lines(
    texts: Seq<Seq<char>>,
    decode: spec_fn(Seq<char>) -> Option<RolloutLine>,
) -> Seq<RolloutLine>
    decreases texts.len(),
{
    if texts.len() == 0 {
        Seq::empty()
    } else {
        let before = decoded_lines(texts.drop_last(), decode);
        match decode(texts.last()) {
            Some(line) => before.push(line),
            None => before,
        }
    }
}

/// The lines that are tallied of a file.
pub open spec fn file_lines(
    file: Seq<Option<Seq<char>>>,
    decode: spec_fn(Seq<char>) -> Option<RolloutLine>,
) -> Seq<RolloutLine> {
    decoded_lines(texts_read(file), decode)
}

/// Whether the two lists give every counted line the same day.
pub open spec fn same_counted_days(
    lines: Seq<RolloutLine>,
    days: Seq<i32>,
    other_days: Seq<i32>,
) -> bool {
    &&& days.len() == lines.len()
    &&& other_days.len() == lines.len()
    &&& forall|i: int|
        0 <= i < lines.len() && (#[trigger] lines[i]).item.counted() is Some ==> days[i]
            == other_days[i]
}

proof fn lemma_same_days_same_scan(
    state: ScanState,
    lines: Seq<RolloutLine>,
    days: Seq<i32>,
    other_days: Seq<i32>,
)
    requires
        same_counted_days(lines, days, other_days),
    ensures
        scan_lines(state, lines, days) == scan_lines(state, lines, other_days),
    decreases lines.len(),
{
    if lines.len() > 0 {
        let before = lines.drop_last();
        assert forall|i: int|
            0 <= i < before.len() && (
            #[trigger] before[i]).item.counted() is Some implies days.drop_last()[i]
            == other_days.drop_last()[i] by {
            assert(before[i] == lines[i]);
        }
        lemma_same_days_same_scan(state, before, days.drop_last(), other_days.drop_last());
        assert(lines.last() == lines[lines.len() - 1]);
    }
}

proof fn lemma_same_days_same_outcome(
    before: Totals,
    lines: Seq<RolloutLine>,
    days: Seq<i32>,
    other_days: Seq<i32>,
    complete: bool,
    after: Totals,
)
    requires
        same_counted_days(lines, days, other_days),
        scan_outcome(before, lines, days, complete, after),
    ensures
        scan_outcome(before, lines, other_days, complete, after),
{
    let start = file_start(before);
    if complete {
        lemma_same_days_same_scan(start, lines, days, other_days);
    } else {
        let n = choose|n: int|
            0 <= n < lines.len() && (#[trigger] scan_lines(
                start,
                lines.take(n),
                days.take(n),
            ) matches Some(end) && end.totals == after) && scan_lines(
                start,
                lines.take(n + 1),
                days.take(n + 1),
            ) is None;
        assert forall|m: int| 0 <= m <= lines.len() implies same_counted_days(
            #[trigger] lines.take(m),
            days.take(m),
            other_days.take(m),
        ) by {
            let some = lines.take(m);
            assert forall|i: int|
                0 <= i < some.len() && (
                #[trigger] some[i]).item.counted() is Some implies days.take(m)[i]
                == other_days.take(m)[i] by {
                assert(some[i] == lines[i]);
            }
        }
        lemma_same_days_same_scan(start, lines.take(n), days.take(n), other_days.take(n));
        lemma_same_days_same_scan(
            start,
            lines.take(n + 1),
            days.take(n + 1),
            other_days.take(n + 1),
        );
        assert(scan_lines(start, lines.take(n), other_days.take(n)) is Some);
    }
}

/// Once a sum does not fit, no more lines are scanned.
proof fn lemma_scan_stays_stopped(
    state: ScanState,
    lines: Seq<RolloutLine>,
    days: Seq<i32>,
    n: int,
    m: int,
)
    requires
        days.len() == lines.len(),
        0 <= n <= m <= lines.len(),
        scan_lines(state, lines.take(n), days.take(n)) is None,
    ensures
        scan_lines(state, lines.take(m), days.take(m)) is None,
{
    let more_lines = lines.subrange(n, m);
    let more_days = days.subrange(n, m);
    law_scan_in_parts(state, lines.take(n), days.take(n), more_lines, more_days);
    assert(lines.take(n) + more_lines =~= lines.take(m));
    assert(days.take(n) + more_days =~= days.take(m));
}

/// The lines of a file and the days of those that are counted determine what
/// becomes of a tally, and whether all of the lines could be counted.
pub proof fn law_outcome_is_unique(
    before: Totals,
    lines: Seq<RolloutLine>,
    days: Seq<i32>,
    complete: bool,
    after: Totals,
    other_days: Seq<i32>,
    other_complete: bool,
    other_after: Totals,
)
    requires
        same_counted_days(lines, days, other_days),
        scan_outcome(before, lines, days, complete, after),
        scan_outcome(before, lines, other_days, other_complete, other_after),
    ensures
        complete == other_complete,
        after == other_after,
{
    let start = file_start(before);
    lemma_same_days_same_outcome(before, lines, days, other_days, complete, after);
    let len = lines.len() as int;
    assert(lines.take(len) =~= lines);
    assert(other_days.take(len) =~= other_days);
    let n = if complete {
        len
    } else {
        choose|n: int|
            0 <= n < lines.len() && (#[trigger] scan_lines(
                start,
                lines.take(n),
                other_days.take(n),
            ) matches Some(end) && end.totals == after) && scan_lines(
                start,
                lines.take(n + 1),
                other_days.take(n + 1),
            ) is None
    };
    let m = if other_complete {
        len
    } else {
        choose|m: int|
            0 <= m < lines.len() && (#[trigger] scan_lines(
                start,
                lines.take(m),
                other_days.take(m),
            ) matches Some(end) && end.totals == other_after) && scan_lines(
                start,
                lines.take(m + 1),
                other_days.take(m + 1),
            ) is None
    };
    if n < m {
        lemma_scan_stays_stopped(start, lines, other_days, n + 1, m);
    } else if m < n {
        lemma_scan_stays_stopped(start, lines, other_days, m + 1, n);
    }
}

/// Whether the days of the counted lines do not depend on the clock: the timestamp
/// of each can be read, and its day is that of the timestamp in a zone that has
/// the UTC offset `zone(t)` at the instant `t`; or else the name of the file gives
/// a day.
pub open spec fn days_in_zone(
    zone: spec_fn(int) -> int,
    lines: Seq<RolloutLine>,
    file_name: Option<Seq<char>>,
    days: Seq<i32>,
) -> bool {
    &&& days.len() == lines.len()
    &&& forall|i: int|
        0 <= i < lines.len() && (#[trigger] lines[i]).item.counted() is Some
            ==> match rfc3339_timestamp(lines[i].timestamp@) {
            Some(instant) => days[i] == local_day(instant as int, zone(instant as int)),
            None => file_name matches Some(name) && name_day(name) is Some,
        }
}

/// What follows the lines that may be read of a file changes nothing. Two files of
/// the same name that agree in those lines are tallied alike on top of the same
/// sums: in one time zone, where every counted line has a timestamp that can be
/// read or the name gives a day, they leave the same sums.
pub proof fn law_later_lines_change_nothing(
    file: Seq<Option<Seq<char>>>,
    other_file: Seq<Option<Seq<char>>>,
    file_name: Option<Seq<char>>,
    decode: spec_fn(Seq<char>) -> Option<RolloutLine>,
    zone: spec_fn(int) -> int,
    before: Totals,
    days: Seq<i32>,
    complete: bool,
    after: Totals,
    other_days: Seq<i32>,
    other_complete: bool,
    other_after: Totals,
)
    requires
        lines_in_reach(file) == lines_in_reach(other_file),
        days_allowed(file_lines(file, decode), file_name, days),
        days_allowed(file_lines(other_file, decode), file_name, other_days),
        days_in_zone(zone, file_lines(file, decode), file_name, days),
        days_in_zone(zone, file_lines(other_file, decode), file_name, other_days),
        scan_outcome(before, file_lines(file, decode), days, complete, after),
        scan_outcome(
            before,
            file_lines(other_file, decode),
            other_days,
            other_complete,
            other_after,
        ),
    ensures
        file_lines(file, decode) == file_lines(other_file, decode),
        complete == other_complete,
        after == other_after,
{
    law_reading_takes_the_first_lines(file);
    law_reading_takes_the_first_lines(other_file);
    law_outcome_is_unique(
        before,
        file_lines(file, decode),
        days,
        complete,
        after,
        other_days,
        other_complete,
        other_after,
    );
}

/// Whether a line of a rollout file neither counts tokens nor names a model.
pub open spec fn is_idle(line: RolloutLine) -> bool {
    match line.item {
        RolloutItem::TokenCount { usage: Some(usage) } => usage.blended_total <= 0,
        RolloutItem::TokenCount { usage: None } => true,
        RolloutItem::TurnContext { model } => trimmed(model@).len() == 0,
        RolloutItem::Other => true,
    }
}

/// What a line of a file says, where it says something: it can be read, is not
/// blank, can be decoded, and counts tokens or names a model.
pub open spec fn said(
    line: Option<Seq<char>>,
    decode: spec_fn(Seq<char>) -> Option<RolloutLine>,
) -> Option<RolloutLine> {
    match line {
        Some(text) if trimmed(text).len() > 0 => match decode(trimmed(text)) {
            Some(decoded) if !is_idle(decoded) => Some(decoded),
            _ => None,
        },
        _ => None,
    }
}

/// A file without the lines that say nothing.
pub open spec fn without_idle(
    file: Seq<Option<Seq<char>>>,
    decode: spec_fn(Seq<char>) -> Option<RolloutLine>,
) -> Seq<Option<Seq<char>>>
    decreases file.len(),
{
    if file.len() == 0 {
        Seq::empty()
    } else {
        let before = without_idle(file.drop_last(), decode);
        if said(file.last(), decode) is Some {
            before.push(file.last())
        } else {
            before
        }
    }
}

/// The lines that are not idle.
pub open spec fn telling_lines(lines: Seq<RolloutLine>) -> Seq<RolloutLine>
    decreases lines.len(),
{
    if lines.len() == 0 {
        Seq::empty()
    } else if is_idle(lines.last()) {
        telling_lines(lines.drop_last())
    } else {
        telling_lines(lines.drop_last()).push(lines.last())
    }
}

/// The days of the lines that are not idle.
pub open spec fn telling_days(lines: Seq<RolloutLine>, days: Seq<i32>) -> Seq<i32>
    decreases lines.len(),
{
    if lines.len() == 0 {
        Seq::empty()
    } else if is_idle(lines.last()) {
        telling_days(lines.drop_last(), days.drop_last())
    } else {
        telling_days(lines.drop_last(), days.drop_last()).push(days.last())
    }
}

proof fn lemma_telling_lines_of_push(
    file: Seq<Option<Seq<char>>>,
    line: Option<Seq<char>>,
    decode: spec_fn(Seq<char>) -> Option<RolloutLine>,
)
    ensures
        telling_lines(decoded_lines(spoken_texts(file.push(line)), decode)) == match said(
            line,
            decode,
        ) {
            Some(decoded) => telling_lines(decoded_lines(spoken_texts(file), decode)).push(decoded),
            None => telling_lines(decoded_lines(spoken_texts(file), decode)),
        },
{
    let texts = spoken_texts(file);
    let lines = decoded_lines(texts, decode);
    assert(file.push(line).drop_last() =~= file);
    if let Some(text) = line {
        if trimmed(text).len() > 0 {
            let after = texts.push(trimmed(text));
            assert(after.drop_last() =~= texts);
            if let Some(decoded) = decode(trimmed(text)) {
                assert(decoded_lines(after, decode) == lines.push(decoded));
                assert(lines.push(decoded).drop_last() =~= lines);
            }
        }
    }
}

proof fn lemma_telling_lines_of_file(
    file: Seq<Option<Seq<char>>>,
    decode: spec_fn(Seq<char>) -> Option<RolloutLine>,
)
    ensures
        telling_lines(decoded_lines(spoken_texts(file), decode)) == telling_lines(
            decoded_lines(spoken_texts(without_idle(file, decode)), decode),
        ),
    decreases file.len(),
{
    if file.len() > 0 {
        let before = file.drop_last();
        lemma_telling_lines_of_file(before, decode);
        assert(file =~= before.push(file.last()));
        lemma_telling_lines_of_push(before, file.last(), decode);
        lemma_telling_lines_of_push(without_idle(before, decode), file.last(), decode);
    }
}

proof fn lemma_scan_of_telling_lines(state: ScanState, lines: Seq<RolloutLine>, days: Seq<i32>)
    requires
        days.len() == lines.len(),
    ensures
        telling_days(lines, days).len() == telling_lines(lines).len(),
        scan_lines(state, lines, days) == scan_lines(
            state,
            telling_lines(lines),
            telling_days(lines, days),
        ),
    decreases lines.len(),
{
    if lines.len() > 0 {
        let before = lines.drop_last();
        let days_before = days.drop_last();
        lemma_scan_of_telling_lines(state, before, days_before);
        if !is_idle(lines.last()) {
            assert(telling_lines(lines).drop_last() =~= telling_lines(before));
            assert(telling_days(lines, days).drop_last() =~= telling_days(before, days_before));
        }
    }
}

/// The lines that are not idle among the first `n` come first among those of all.
proof fn lemma_telling_prefix(lines: Seq<RolloutLine>, days: Seq<i32>, n: int)
    requires
        days.len() == lines.len(),
        0 <= n <= lines.len(),
    ensures
        telling_lines(lines.take(n)).is_prefix_of(telling_lines(lines)),
        telling_days(lines.take(n), days.take(n)).is_prefix_of(telling_days(lines, days)),
    decreases lines.len(),
{
    if n == lines.len() {
        assert(lines.take(n) =~= lines);
        assert(days.take(n) =~= days);
    } else {
        lemma_telling_prefix(lines.drop_last(), days.drop_last(), n);
        assert(lines.drop_last().take(n) =~= lines.take(n));
        assert(days.drop_last().take(n) =~= days.take(n));
    }
}

/// Each line that is not idle is one of the lines, with its day.
proof fn lemma_telling_line_stands(
    lines: Seq<RolloutLine>,
    days: Seq<i32>,
    k: int,
) -> (i: int)
    requires
        days.len() == lines.len(),
        0 <= k < telling_lines(lines).len(),
    ensures
        0 <= i < lines.len(),
        telling_lines(lines)[k] == lines[i],
        telling_days(lines, days)[k] == days[i],
    decreases lines.len(),
{
    let before = lines.drop_last();
    let days_before = days.drop_last();
    lemma_telling_lengths(before, days_before);
    if k < telling_lines(before).len() {
        lemma_telling_line_stands(before, days_before, k)
    } else {
        lines.len() - 1
    }
}

proof fn lemma_telling_lengths(lines: Seq<RolloutLine>, days: Seq<i32>)
    requires
        days.len() == lines.len(),
    ensures
        telling_days(lines, days).len() == telling_lines(lines).len(),
    decreases lines.len(),
{
    if lines.len() > 0 {
        lemma_telling_lengths(lines.drop_last(), days.drop_last());
    }
}

proof fn lemma_outcome_of_telling_lines(
    before: Totals,
    lines: Seq<RolloutLine>,
    days: Seq<i32>,
    complete: bool,
    after: Totals,
)
    requires
        days.len() == lines.len(),
        scan_outcome(before, lines, days, complete, after),
    ensures
        scan_outcome(
            before,
            telling_lines(lines),
            telling_days(lines, days),
            complete,
            after,
        ),
{
    let start = file_start(before);
    let telling = telling_lines(lines);
    let telling_on = telling_days(lines, days);
    lemma_scan_of_telling_lines(start, lines, days);
    if !complete {
        let n = choose|n: int|
            0 <= n < lines.len() && (#[trigger] scan_lines(
                start,
                lines.take(n),
                days.take(n),
            ) matches Some(end) && end.totals == after) && scan_lines(
                start,
                lines.take(n + 1),
                days.take(n + 1),
            ) is None;
        lemma_scan_of_telling_lines(start, lines.take(n), days.take(n));
        lemma_scan_of_telling_lines(start, lines.take(n + 1), days.take(n + 1));
        lemma_telling_prefix(lines, days, n);
        lemma_telling_prefix(lines, days, n + 1);
        assert(lines.take(n + 1).drop_last() =~= lines.take(n));
        assert(days.take(n + 1).drop_last() =~= days.take(n));
        let k = telling_lines(lines.take(n)).len() as int;
        assert(telling.take(k) =~= telling_lines(lines.take(n)));
        assert(telling_on.take(k) =~= telling_days(lines.take(n), days.take(n)));
        assert(!is_idle(lines.take(n + 1).last()));
        assert(telling.take(k + 1) =~= telling_lines(lines.take(n + 1)));
        assert(telling_on.take(k + 1) =~= telling_days(lines.take(n + 1), days.take(n + 1)));
        assert(scan_lines(start, telling.take(k), telling_on.take(k)) is Some);
    }
}

/// Two files that may be read whole and that differ only in lines that say nothing
/// have the same lines that are not idle.
proof fn lemma_same_telling_lines(
    file: Seq<Option<Seq<char>>>,
    other_file: Seq<Option<Seq<char>>>,
    decode: spec_fn(Seq<char>) -> Option<RolloutLine>,
)
    requires
        file.len() <= MAX_OBSERVABILITY_LINES_PER_FILE,
        other_file.len() <= MAX_OBSERVABILITY_LINES_PER_FILE,
        without_idle(file, decode) == without_idle(other_file, decode),
    ensures
        telling_lines(file_lines(file, decode)) == telling_lines(file_lines(other_file, decode)),
{
    law_reading_takes_the_first_lines(file);
    law_reading_takes_the_first_lines(other_file);
    lemma_telling_lines_of_file(file, decode);
    lemma_telling_lines_of_file(other_file, decode);
}

/// In one time zone the lines that are not idle have the same days in both files.
proof fn lemma_same_telling_days(
    zone: spec_fn(int) -> int,
    file_name: Option<Seq<char>>,
    lines: Seq<RolloutLine>,
    days: Seq<i32>,
    other_lines: Seq<RolloutLine>,
    other_days: Seq<i32>,
)
    requires
        telling_lines(lines) == telling_lines(other_lines),
        days_allowed(lines, file_name, days),
        days_allowed(other_lines, file_name, other_days),
        days_in_zone(zone, lines, file_name, days),
        days_in_zone(zone, other_lines, file_name, other_days),
    ensures
        same_counted_days(
            telling_lines(lines),
            telling_days(lines, days),
            telling_days(other_lines, other_days),
        ),
{
    let telling = telling_lines(lines);
    lemma_telling_lengths(lines, days);
    lemma_telling_lengths(other_lines, other_days);
    assert forall|k: int|
        0 <= k < telling.len() && (#[trigger] telling[k]).item.counted() is Some implies telling_days(
        lines,
        days,
    )[k] == telling_days(other_lines, other_days)[k] by {
        let i = lemma_telling_line_stands(lines, days, k);
        let j = lemma_telling_line_stands(other_lines, other_days, k);
        assert(lines[i].item.counted() is Some);
        assert(other_lines[j].item.counted() is Some);
    }
}

/// Lines that say nothing change nothing, wherever they stand in a file that may be
/// read whole: blank, unreadable and undecodable lines, lines that count no tokens,
/// and turns with a blank model name. Two such files of the same name that differ
/// only in them are tallied alike on top of the same sums: in one time zone, where
/// every counted line has a timestamp that can be read or the name gives a day, they
/// leave the same sums, and the same model for the next response from whatever
/// state they are scanned.
pub proof fn law_idle_lines_change_nothing(
    file: Seq<Option<Seq<char>>>,
    other_file: Seq<Option<Seq<char>>>,
    file_name: Option<Seq<char>>,
    decode: spec_fn(Seq<char>) -> Option<RolloutLine>,
    zone: spec_fn(int) -> int,
    before: Totals,
    days: Seq<i32>,
    complete: bool,
    after: Totals,
    other_days: Seq<i32>,
    other_complete: bool,
    other_after: Totals,
)
    requires
        file.len() <= MAX_OBSERVABILITY_LINES_PER_FILE,
        other_file.len() <= MAX_OBSERVABILITY_LINES_PER_FILE,
        without_idle(file, decode) == without_idle(other_file, decode),
        days_allowed(file_lines(file, decode), file_name, days),
        days_allowed(file_lines(other_file, decode), file_name, other_days),
        days_in_zone(zone, file_lines(file, decode), file_name, days),
        days_in_zone(zone, file_lines(other_file, decode), file_name, other_days),
        scan_outcome(before, file_lines(file, decode), days, complete, after),
        scan_outcome(
            before,
            file_lines(other_file, decode),
            other_days,
            other_complete,
            other_after,
        ),
    ensures
        complete == other_complete,
        after == other_after,
        forall|state: ScanState| #[trigger]
            scan_lines(state, file_lines(file, decode), days) == scan_lines(
                state,
                file_lines(other_file, decode),
                other_days,
            ),
{
    let lines = file_lines(file, decode);
    let other_lines = file_lines(other_file, decode);
    lemma_same_telling_lines(file, other_file, decode);
    lemma_same_telling_days(zone, file_name, lines, days, other_lines, other_days);
    lemma_outcome_of_telling_lines(before, lines, days, complete, after);
    lemma_outcome_of_telling_lines(
        before,
        other_lines,
        other_days,
        other_complete,
        other_after,
    );
    law_outcome_is_unique(
        before,
        telling_lines(lines),
        telling_days(lines, days),
        complete,
        after,
        telling_days(other_lines, other_days),
        other_complete,
        other_after,
    );
    assert forall|state: ScanState| #[trigger]
        scan_lines(state, lines, days) == scan_lines(state, other_lines, other_days) by {
        lemma_scan_of_telling_lines(state, lines, days);
        lemma_scan_of_telling_lines(state, other_lines, other_days);
        lemma_same_days_same_scan(
            state,
            telling_lines(lines),
            telling_days(lines, days),
            telling_days(other_lines, other_days),
        );
    }
}

/// A line that says nothing may be put anywhere into a file: without such lines the
/// file stays the same.
pub proof fn law_idle_line_leaves_file(
    file: Seq<Option<Seq<char>>>,
    at: int,
    line: Option<Seq<char>>,
    decode: spec_fn(Seq<char>) -> Option<RolloutLine>,
)
    requires
        0 <= at <= file.len(),
        said(line, decode) is None,
    ensures
        without_idle(file.insert(at, line), decode) == without_idle(file, decode),
    decreases file.len(),
{
    let longer = file.insert(at, line);
    if at == file.len() {
        assert(longer.drop_last() =~= file);
    } else {
        law_idle_line_leaves_file(file.drop_last(), at, line, decode);
        assert(longer.drop_last() =~= file.drop_last().insert(at, line));
        assert(longer.last() == file.last());
    }
}

} // verus!
