//! Rollout files: names, lines, and the tally of their tokens.
use chrono::{DateTime, Datelike, Local, NaiveDate};
use status_insights::rollout::{
    date_in_file_name, infer_day_from_file_name, is_rollout_file_name, line_day, line_days,
    line_step, parse_rollout_line_day, parse_rollout_usage, tally_lines, LineStep, RolloutItem,
    RolloutLine, TokenDelta, MAX_OBSERVABILITY_FILES, MAX_OBSERVABILITY_LINES_PER_FILE,
};
use status_insights::time::{Moment, MAX_DAY, MIN_DAY, UNIX_EPOCH_DAY};
use status_insights::usage::UsageTally;
use status_insights::walk::{scans_directory, visit_entry, DirEntry, Visit};

fn ymd(year: i32, month: u32, day: u32) -> i32 {
    NaiveDate::from_ymd_opt(year, month, day)
        .expect("date")
        .num_days_from_ce()
}

fn turn(model: &str) -> RolloutLine {
    RolloutLine {
        timestamp: "2026-01-10T12:00:00Z".to_string(),
        item: RolloutItem::TurnContext {
            model: model.to_string(),
        },
    }
}

fn count(blended_total: i64, cached_input: i64) -> RolloutLine {
    RolloutLine {
        timestamp: "2026-01-10T12:00:05Z".to_string(),
        item: RolloutItem::TokenCount {
            usage: Some(TokenDelta {
                blended_total,
                cached_input,
            }),
        },
    }
}

fn models(tally: &UsageTally) -> Vec<(String, i64, i64)> {
    tally
        .by_model
        .iter()
        .map(|model| {
            (
                model.model.clone(),
                model.tokens,
                model.cached_input_tokens,
            )
        })
        .collect()
}

#[test]
fn rollout_names_have_a_beginning_and_an_end() {
    assert!(is_rollout_file_name(
        "rollout-2026-01-10T12-00-00-000000000Z.jsonl"
    ));
    assert!(is_rollout_file_name("rollout-.jsonl"));
    assert!(!is_rollout_file_name("rollout-.json"));
    assert!(!is_rollout_file_name("rollout.jsonl"));
    assert!(!is_rollout_file_name("a-rollout-2026-01-10.jsonl"));
    assert!(!is_rollout_file_name("rollout-2026-01-10.jsonl.bak"));
    assert!(!is_rollout_file_name(""));
}

#[test]
fn date_is_the_first_ten_bytes() {
    assert_eq!(
        date_in_file_name("rollout-2026-01-10T12-00-00.jsonl"),
        Some("2026-01-10")
    );
    assert_eq!(date_in_file_name("rollout-0123456789.jsonl"), Some("0123456789"));
    assert_eq!(date_in_file_name("rollout-012345678.jsonl"), None);
    assert_eq!(date_in_file_name("rollout-012345678\u{e4}.jsonl"), None);
    assert_eq!(
        date_in_file_name("rollout-01234567\u{e4}x.jsonl"),
        Some("01234567\u{e4}")
    );
    assert_eq!(date_in_file_name("session-2026-01-10.jsonl"), None);
    assert_eq!(date_in_file_name("rollout-2026-01-10.txt"), None);
}

#[test]
fn file_name_gives_a_day() {
    assert_eq!(
        infer_day_from_file_name("rollout-2026-01-10T12-00-00-000000000Z.jsonl"),
        Some(ymd(2026, 1, 10))
    );
    assert_eq!(infer_day_from_file_name("rollout-2026-13-10T12.jsonl"), None);
    assert_eq!(infer_day_from_file_name("rollout-2026-02-30T12.jsonl"), None);
    assert_eq!(infer_day_from_file_name("rollout-yesterday--.jsonl"), None);
    assert_eq!(infer_day_from_file_name("rollout-x.jsonl"), None);
}

#[test]
fn timestamp_gives_the_local_day() {
    let timestamp = "2026-01-10T12:00:00Z";
    let expected = DateTime::parse_from_rfc3339(timestamp)
        .unwrap()
        .with_timezone(&Local)
        .date_naive()
        .num_days_from_ce();
    assert_eq!(parse_rollout_line_day(timestamp), Some(expected));
    assert_eq!(
        parse_rollout_line_day("2026-01-10T14:00:00.25+02:00"),
        Some(expected)
    );
    assert_eq!(parse_rollout_line_day("2026-01-10 noon"), None);
    assert_eq!(parse_rollout_line_day(""), None);
    assert!(parse_rollout_line_day("0000-01-01T00:00:00+23:59").is_some());
    assert!(parse_rollout_line_day("9999-12-31T23:59:60-23:59").is_some());
}

#[test]
fn moments_fall_on_days() {
    let noon = Moment::new(1_768_046_400, 0, 0).unwrap();
    assert_eq!(noon.date_naive(), ymd(2026, 1, 10));
    let late = Moment::new(1_768_046_400, 0, 12 * 3_600).unwrap();
    assert_eq!(late.date_naive(), ymd(2026, 1, 11));
    let early = Moment::new(1_768_046_400, 0, -13 * 3_600).unwrap();
    assert_eq!(early.date_naive(), ymd(2026, 1, 9));
    assert_eq!(
        Moment::new(-1, 0, 0).unwrap().date_naive(),
        UNIX_EPOCH_DAY - 1
    );
    assert_eq!(Moment::new(0, 2_000_000_000, 0), None);
    assert_eq!(Moment::new(0, 0, 86_400), None);
    assert_eq!(Moment::new(0, 0, -86_400), None);
}

#[test]
fn calendar_ends_where_chrono_ends() {
    assert_eq!(MIN_DAY, NaiveDate::MIN.num_days_from_ce());
    assert_eq!(MAX_DAY, NaiveDate::MAX.num_days_from_ce());
    assert_eq!(UNIX_EPOCH_DAY, ymd(1970, 1, 1));
    let first = DateTime::<chrono::Utc>::MIN_UTC.timestamp();
    let last = DateTime::<chrono::Utc>::MAX_UTC.timestamp();
    assert_eq!(Moment::new(first, 0, 0).unwrap().date_naive(), MIN_DAY);
    assert_eq!(Moment::new(last, 0, 0).unwrap().date_naive(), MAX_DAY);
    assert_eq!(Moment::new(first - 1, 0, 0), None);
    assert_eq!(Moment::new(last + 1, 0, 0), None);
}

#[test]
fn line_day_falls_back_to_the_file_name_and_to_today() {
    let name = Some("rollout-2025-06-01T00-00-00.jsonl");
    let noon = "2026-01-10T12:00:00Z";
    assert_eq!(Some(line_day(noon, name)), parse_rollout_line_day(noon));
    assert_eq!(line_day("garbled", name), ymd(2025, 6, 1));
    let before = Local::now().date_naive().num_days_from_ce();
    let today = line_day("garbled", None);
    let after = Local::now().date_naive().num_days_from_ce();
    assert!(before <= today && today <= after);
    assert!(line_day("garbled", Some("notes.txt")) >= before);
}

#[test]
fn lines_are_read_up_to_a_limit() {
    let step = |index: usize, line: Option<&str>| match line_step(index, line) {
        LineStep::Stop => "stop".to_string(),
        LineStep::Skip => "skip".to_string(),
        LineStep::Decode(text) => format!("decode {text}"),
    };
    assert_eq!(step(0, Some("  {\"a\": 1} \r")), "decode {\"a\": 1}");
    assert_eq!(step(0, Some(" \t ")), "skip");
    assert_eq!(step(0, Some("")), "skip");
    assert_eq!(step(7, None), "skip");
    assert_eq!(step(MAX_OBSERVABILITY_LINES_PER_FILE - 1, Some("x")), "decode x");
    assert_eq!(step(MAX_OBSERVABILITY_LINES_PER_FILE, Some("x")), "stop");
    assert_eq!(step(MAX_OBSERVABILITY_LINES_PER_FILE, None), "stop");
    assert_eq!(MAX_OBSERVABILITY_LINES_PER_FILE, 20_000);
}

#[test]
fn walk_collects_rollout_files_up_to_a_limit() {
    let file = |name: &str| DirEntry::File {
        name: Some(name.to_string()),
    };
    assert_eq!(MAX_OBSERVABILITY_FILES, 500);
    assert_eq!(visit_entry(0, &DirEntry::Directory), Visit::Descend);
    assert_eq!(visit_entry(499, &file("rollout-a.jsonl")), Visit::Collect);
    assert_eq!(visit_entry(0, &file("notes.txt")), Visit::Skip);
    assert_eq!(visit_entry(0, &DirEntry::File { name: None }), Visit::Skip);
    assert_eq!(visit_entry(500, &file("rollout-a.jsonl")), Visit::Stop);
    assert_eq!(visit_entry(500, &DirEntry::Directory), Visit::Stop);
    assert!(scans_directory(499, true));
    assert!(!scans_directory(500, true));
    assert!(!scans_directory(0, false));
}

#[test]
fn tokens_go_to_the_model_of_the_turn() {
    let lines = vec![
        count(5, 1),
        turn("alpha-model"),
        count(300, 100),
        turn(" \t"),
        count(7, 0),
        count(0, 50),
        count(-9, 50),
        RolloutLine {
            timestamp: String::new(),
            item: RolloutItem::TokenCount { usage: None },
        },
        RolloutLine {
            timestamp: String::new(),
            item: RolloutItem::Other,
        },
        turn("Zeta"),
        count(120, 40),
    ];
    let days: Vec<i32> = (0..lines.len() as i32).map(|n| 739_000 + n / 3).collect();
    let mut tally = UsageTally::new();
    assert!(tally_lines(&lines, &days, &mut tally));
    assert_eq!(
        models(&tally),
        vec![
            ("Zeta".to_string(), 120, 40),
            ("alpha-model".to_string(), 307, 100),
            ("unknown".to_string(), 5, 1),
        ]
    );
    assert_eq!(
        tally.by_day.into_iter().collect::<Vec<(i32, i64)>>(),
        vec![(739_000, 305), (739_001, 7), (739_003, 120)]
    );
}

#[test]
fn files_are_counted_on_top_of_each_other() {
    let name = Some("rollout-2026-01-10T12-00-00-000000000Z.jsonl");
    let mut tally = UsageTally::new();
    assert!(parse_rollout_usage(
        &vec![turn("alpha-model"), count(300, 100)],
        name,
        &mut tally
    ));
    // The model of one file does not carry over to the next.
    assert!(parse_rollout_usage(&vec![count(20, 0)], name, &mut tally));
    assert!(parse_rollout_usage(&vec![], None, &mut tally));
    assert_eq!(
        models(&tally),
        vec![
            ("alpha-model".to_string(), 300, 100),
            ("unknown".to_string(), 20, 0),
        ]
    );
    let day = parse_rollout_line_day("2026-01-10T12:00:05Z").unwrap();
    assert_eq!(tally.by_day.get(&day), Some(&320));
    assert_eq!(tally.by_day.len(), 1);
}

#[test]
fn scanning_in_parts_is_scanning_all() {
    let lines = vec![turn("a"), count(1, 1), count(2, 1), turn("b"), count(4, 1)];
    let days = vec![10, 10, 11, 11, 11];
    let mut all = UsageTally::new();
    assert!(tally_lines(&lines, &days, &mut all));
    let mut parts = UsageTally::new();
    assert!(tally_lines(
        &lines[..3].to_vec(),
        &days[..3].to_vec(),
        &mut parts
    ));
    assert!(tally_lines(
        &lines[3..].to_vec(),
        &days[3..].to_vec(),
        &mut parts
    ));
    assert_eq!(all.by_day, parts.by_day);
    assert_eq!(models(&all), models(&parts));
}

#[test]
fn uncounted_lines_get_no_day_and_change_nothing() {
    let lines = vec![turn("a"), count(0, 3)];
    assert_eq!(line_days(&lines, None).len(), 2);
    let mut tally = UsageTally::new();
    assert!(parse_rollout_usage(&lines, None, &mut tally));
    assert!(tally.by_day.is_empty());
    assert!(tally.by_model.is_empty());
}

#[test]
fn sums_beyond_64_bits_stop_the_count() {
    let mut tally = UsageTally::new();
    let lines = vec![count(i64::MAX, 0), count(1, 0), turn("b"), count(2, 0)];
    assert!(!tally_lines(&lines, &vec![1, 2, 2, 2], &mut tally));
    assert_eq!(models(&tally), vec![("unknown".to_string(), i64::MAX, 0)]);
    assert_eq!(tally.by_day.get(&2), None);

    assert!(!tally.record_usage("b", 1, 0, 1));
    assert!(tally.record_usage("b", 1, i64::MAX, 2));
    assert!(!tally.record_usage("b", 1, 1, 2));
    assert!(tally.record_usage("b", -1, -5, 2));
    assert_eq!(tally.by_day.get(&2), Some(&0));
}

#[test]
fn uses_may_be_recorded_in_either_order() {
    let uses = [("b", 3, 1, 7), ("a", 4, 0, 7), ("b", 5, 2, 8)];
    let mut forward = UsageTally::new();
    let mut backward = UsageTally::new();
    for (model, tokens, cached, day) in uses {
        assert!(forward.record_usage(model, tokens, cached, day));
    }
    for (model, tokens, cached, day) in uses.into_iter().rev() {
        assert!(backward.record_usage(model, tokens, cached, day));
    }
    assert_eq!(forward.by_day, backward.by_day);
    assert_eq!(models(&forward), models(&backward));
    assert_eq!(
        models(&forward),
        vec![("a".to_string(), 4, 0), ("b".to_string(), 8, 3)]
    );
}

/// A directory tree in memory.
enum Node {
    Directory(Vec<Node>),
    File(String),
}

fn walk(entries: &[Node], files: &mut Vec<String>) {
    if !scans_directory(files.len(), true) {
        return;
    }
    for entry in entries {
        let kind = match entry {
            Node::Directory(_) => DirEntry::Directory,
            Node::File(name) => DirEntry::File {
                name: Some(name.clone()),
            },
        };
        match (visit_entry(files.len(), &kind), entry) {
            (Visit::Stop, _) => break,
            (Visit::Descend, Node::Directory(inner)) => walk(inner, files),
            (Visit::Collect, Node::File(name)) => files.push(name.clone()),
            _ => {}
        }
    }
}

#[test]
fn walk_finds_the_first_files_at_any_depth() {
    let rollout = |n: usize| Node::File(format!("rollout-{n}.jsonl"));
    let tree = vec![
        rollout(0),
        Node::Directory(vec![
            Node::File("notes.txt".to_string()),
            Node::Directory((1..400).map(rollout).collect()),
        ]),
        Node::Directory(vec![]),
        Node::Directory((400..900).map(rollout).collect()),
        rollout(900),
    ];
    let mut files = vec![];
    walk(&tree, &mut files);
    let expected: Vec<String> = (0..500).map(|n| format!("rollout-{n}.jsonl")).collect();
    assert_eq!(files, expected);
    walk(&tree, &mut files);
    assert_eq!(files.len(), MAX_OBSERVABILITY_FILES);
}

#[test]
fn files_may_be_read_in_either_order() {
    let one = vec![turn("a"), count(1, 1), count(2, 0)];
    let other = vec![count(4, 0), turn("b"), count(8, 5), turn("a"), count(16, 2)];
    let one_days = vec![1, 1, 2];
    let other_days = vec![2, 2, 3, 3, 1];
    let mut forward = UsageTally::new();
    assert!(tally_lines(&one, &one_days, &mut forward));
    assert!(tally_lines(&other, &other_days, &mut forward));
    let mut backward = UsageTally::new();
    assert!(tally_lines(&other, &other_days, &mut backward));
    assert!(tally_lines(&one, &one_days, &mut backward));
    assert_eq!(forward.by_day, backward.by_day);
    assert_eq!(models(&forward), models(&backward));
    assert_eq!(
        models(&forward),
        vec![
            ("a".to_string(), 19, 3),
            ("b".to_string(), 8, 5),
            ("unknown".to_string(), 4, 0),
        ]
    );
}

/// The texts that are decoded of a file with these lines.
fn texts_read(file: &[Option<String>]) -> Vec<String> {
    let mut texts = vec![];
    for (index, line) in file.iter().enumerate() {
        match line_step(index, line.as_deref()) {
            LineStep::Stop => break,
            LineStep::Skip => {}
            LineStep::Decode(text) => texts.push(text.to_string()),
        }
    }
    texts
}

#[test]
fn later_lines_of_a_file_change_nothing() {
    let mut file: Vec<Option<String>> = vec![None; MAX_OBSERVABILITY_LINES_PER_FILE];
    file[0] = Some(" first ".to_string());
    file[7] = Some("   ".to_string());
    file[MAX_OBSERVABILITY_LINES_PER_FILE - 1] = Some("last\t".to_string());
    let expected = vec!["first".to_string(), "last".to_string()];
    assert_eq!(texts_read(&file), expected);
    file.push(Some("beyond".to_string()));
    assert_eq!(texts_read(&file), expected);
    file.push(Some("further beyond".to_string()));
    assert_eq!(texts_read(&file), expected);
}

#[test]
fn idle_lines_of_a_file_change_nothing() {
    let nothing = RolloutLine {
        timestamp: String::new(),
        item: RolloutItem::TokenCount { usage: None },
    };
    let other = RolloutLine {
        timestamp: String::new(),
        item: RolloutItem::Other,
    };
    let plain = vec![turn("a"), count(1, 1), turn("b"), count(2, 0)];
    let padded = vec![
        nothing.clone(),
        turn("a"),
        turn("  "),
        count(1, 1),
        count(0, 9),
        other,
        turn("b"),
        nothing,
        count(2, 0),
        count(-3, 0),
    ];
    let name = Some("rollout-2026-01-10T12-00-00.jsonl");
    let mut one = UsageTally::new();
    assert!(parse_rollout_usage(&plain, name, &mut one));
    let mut two = UsageTally::new();
    assert!(parse_rollout_usage(&padded, name, &mut two));
    assert_eq!(one.by_day, two.by_day);
    assert_eq!(models(&one), models(&two));

    let text = |text: &str| Some(text.to_string());
    assert_eq!(
        texts_read(&[None, text("x"), text(" \t"), text("y "), text("")]),
        texts_read(&[text("x"), text("y")])
    );
}
