//! Plain text, against what the standard library does.
use status_insights::snapshot::{render_lines, sanitize_directory, Line, Span};
use status_insights::text::{
    find_first, find_last, precedes, push_decimal, stands_at, to_chars, trim, white_space,
};

#[test]
fn white_space_is_that_of_unicode() {
    for code in 0..=0x10_ffffu32 {
        if let Some(c) = char::from_u32(code) {
            assert_eq!(white_space(c), c.is_whitespace(), "{code:x}");
        }
    }
}

#[test]
fn trimming_takes_white_space_off_both_ends() {
    for text in [
        "",
        " ",
        "a",
        "  a b\t\n",
        "\u{2003}\u{e4}\u{3000}",
        "a\u{200b}",
        "\r\n{\"x\": 1}\r\n",
    ] {
        assert_eq!(trim(text), text.trim());
    }
}

#[test]
fn text_order_is_that_of_strings() {
    let texts = ["", "a", "ab", "b", "B", "\u{e4}", "\u{ffff}", "\u{10000}", "a b", "gpt-5.1"];
    for a in texts {
        for b in texts {
            assert_eq!(precedes(a, b), a < b);
        }
    }
}

#[test]
fn numbers_in_decimal() {
    for n in [0, 7, 9, 10, 99, 100, 12_345, u64::MAX] {
        let mut out = "n=".to_string();
        push_decimal(&mut out, n);
        assert_eq!(out, format!("n={n}"));
    }
}

#[test]
fn patterns_are_found() {
    let text = to_chars("abcabc");
    let pattern = to_chars("bc");
    assert!(stands_at(&text, &pattern, 1));
    assert!(!stands_at(&text, &pattern, 2));
    assert!(!stands_at(&text, &pattern, 5));
    assert!(!stands_at(&text, &pattern, usize::MAX));
    assert_eq!(find_first(&text, &pattern), Some(1));
    assert_eq!(find_first(&text, &to_chars("cb")), None);
    assert_eq!(find_first(&to_chars(""), &to_chars("")), Some(0));
    assert_eq!(find_last(&text, 'b'), Some(4));
    assert_eq!(find_last(&text, 'x'), None);
}

fn strings(lines: &[&str]) -> Vec<String> {
    lines.iter().map(|line| line.to_string()).collect()
}

#[test]
fn directory_becomes_a_placeholder() {
    let lines = strings(&[
        "│  Model: gpt-5.1-codex-max        │",
        "│  Directory: /workspace/tests     │",
        "│  Directory: /tmp │",
        "│  Directory: /tmp/äöü/abcdefgh │ x",
        "Directory: /workspace/tests",
        "│ Directory: ",
    ]);
    let expected = strings(&[
        "│  Model: gpt-5.1-codex-max        │",
        "│  Directory: [[workspace]]        │",
        "│  Directory: [[workspace]]│",
        "│  Directory: [[workspace]]        │ x",
        "Directory: /workspace/tests",
        "│ Directory: [[workspace]]│ Directory: ",
    ]);
    let once = sanitize_directory(lines);
    assert_eq!(once, expected);
    assert_eq!(sanitize_directory(once.clone()), once);
}

#[test]
fn spans_are_joined() {
    let span = |text: &str| Span {
        content: text.to_string(),
    };
    let lines = [
        Line {
            spans: vec![span("Limit: "), span("72%"), span("")],
        },
        Line { spans: vec![] },
    ];
    assert_eq!(render_lines(&lines), strings(&["Limit: 72%", ""]));
}
