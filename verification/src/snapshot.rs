//! Rendered status cards as text that can be compared from run to run.
use crate::text::{find_first, find_last, first_occurrence, last_place, occurs_at, to_chars};
use vstd::prelude::*;
use vstd::string::*;
use vstd::utf8::*;

verus! {

/// A piece of a rendered line.
#[derive(Clone, Debug)]
pub struct Span {
    pub content: String,
}

/// A rendered line.
#[derive(Clone, Debug)]
pub struct Line {
    pub spans: Vec<Span>,
}

/// The text of the pieces, one after the other.
pub open spec fn spans_text(spans: Seq<Span>) -> Seq<char>
    decreases spans.len(),
{
    if spans.len() == 0 {
        Seq::empty()
    } else {
        spans_text(spans.drop_last()) + spans.last().content@
    }
}

/// The text of a rendered line.
fn render_line(line: &Line) -> (text: String)
    ensures
        text@ == spans_text(line.spans@),
{
    let mut text = String::new();
    for n in 0..line.spans.len()
        invariant
            text@ == spans_text(line.spans@.take(n as int)),
    {
        proof {
            assert(line.spans@.take(n + 1).drop_last() =~= line.spans@.take(n as int));
        }
        text.append(line.spans[n].content.as_str());
    }
    proof {
        assert(line.spans@.take(line.spans@.len() as int) =~= line.spans@);
    }
    text
}

/// The texts of the rendered lines.
pub fn render_lines(lines: &[Line]) -> (texts: Vec<String>)
    ensures
        texts@.len() == lines@.len(),
        forall|i: int|
            0 <= i < lines@.len() ==> (#[trigger] texts@[i])@ == spans_text(lines@[i].spans@),
{
    let mut texts: Vec<String> = Vec::new();
    for n in 0..lines.len()
        invariant
            texts@.len() == n,
            forall|i: int|
                0 <= i < n ==> (#[trigger] texts@[i])@ == spans_text(lines@[i].spans@),
    {
        texts.push(render_line(&lines[n]));
    }
    texts
}

/// The border of a status card.
pub const BORDER: char = '\u{2502}';

pub open spec fn spaces(n: nat) -> Seq<char> {
    Seq::new(n, |i: int| ' ')
}

/// The number of bytes of a text.
pub open spec fn byte_width(text: Seq<char>) -> nat {
    encode_utf8(text).len()
}

/// A line with a placeholder for the directory that it names: `label` is where
/// the label of the directory stands, `border` where the right border does. The
/// placeholder is padded to the width in bytes of what it stands for.
pub open spec fn with_placeholder(line: Seq<char>, label: int, border: int) -> Seq<char> {
    let start = label + "Directory: "@.len();
    let placeholder = "[[workspace]]"@;
    let width = if start <= border {
        byte_width(line.subrange(start, border))
    } else {
        0
    };
    let padding = if width > placeholder.len() {
        spaces((width - placeholder.len()) as nat)
    } else {
        Seq::empty()
    };
    line.take(start) + placeholder + padding + line.skip(border)
}

/// Whether `out` is the line with a placeholder for the directory that it names;
/// a line that names none, or that has no border, stays as it is.
pub open spec fn is_sanitized(line: Seq<char>, out: Seq<char>) -> bool {
    ||| exists|label: int, border: int|
        first_occurrence(line, "Directory: "@, label) && last_place(line, BORDER, border) && out
            == #[trigger] with_placeholder(line, label, border)
    ||| {
        &&& out == line
        &&& (forall|label: int| !first_occurrence(line, "Directory: "@, label)) || (forall|
            border: int,
        | !last_place(line, BORDER, border))
    }
}

/// A line with a placeholder for the directory that it names.
fn sanitize_line(line: String) -> (out: String)
    ensures
        is_sanitized(line@, out@),
{
    let chars = to_chars(line.as_str());
    let len: usize = chars.len();
    let label = to_chars("Directory: ");
    let placeholder = "[[workspace]]";
    proof {
        reveal_strlit("Directory: ");
        reveal_strlit("[[workspace]]");
        is_ascii_chars_encode_utf8(placeholder@);
    }
    match (find_first(&chars, &label), find_last(&chars, BORDER)) {
        (Some(at), Some(border)) => {
            let start: usize = at + label.len();
            let width: usize = if start <= border {
                line.as_str().substring_char(start, border).as_bytes().len()
            } else {
                0
            };
            let mut out = line.as_str().substring_char(0, start).to_owned();
            out.append(placeholder);
            let ghost rebuilt = out@;
            if width > placeholder.len() {
                let padding: usize = width - placeholder.len();
                for n in 0..padding
                    invariant
                        out@ == rebuilt + spaces(n as nat),
                {
                    proof {
                        reveal_strlit(" ");
                        assert(spaces(n as nat) + " "@ =~= spaces((n + 1) as nat));
                        assert((rebuilt + spaces(n as nat)) + " "@ =~= rebuilt + (spaces(n as nat)
                            + " "@));
                    }
                    out.append(" ");
                }
            }
            out.append(line.as_str().substring_char(border, len));
            proof {
                assert(out@ =~= with_placeholder(line@, at as int, border as int));
            }
            out
        },
        _ => line,
    }
}

/// The lines with a placeholder for the directory that they name.
pub fn sanitize_directory(lines: Vec<String>) -> (out: Vec<String>)
    ensures
        out@.len() == lines@.len(),
        forall|i: int|
            0 <= i < lines@.len() ==> is_sanitized(lines@[i]@, (#[trigger] out@[i])@),
{
    let mut out: Vec<String> = Vec::new();
    for n in 0..lines.len()
        invariant
            out@.len() == n,
            forall|i: int| 0 <= i < n ==> is_sanitized(lines@[i]@, (#[trigger] out@[i])@),
    {
        out.push(sanitize_line(lines[n].clone()));
    }
    out
}

/// What a line becomes is determined by the line.
pub proof fn law_sanitized_line_is_unique(line: Seq<char>, a: Seq<char>, b: Seq<char>)
    requires
        is_sanitized(line, a),
        is_sanitized(line, b),
    ensures
        a == b,
{
    let label = "Directory: "@;
    assert forall|i: int, j: int|
        #[trigger] first_occurrence(line, label, i) && #[trigger] first_occurrence(
            line,
            label,
            j,
        ) implies i == j by {
        assert(occurs_at(line, label, i) && occurs_at(line, label, j));
    }
    assert forall|i: int, j: int|
        #[trigger] last_place(line, BORDER, i) && #[trigger] last_place(
            line,
            BORDER,
            j,
        ) implies i == j by {
        assert(line[i] == BORDER && line[j] == BORDER);
    }
}

proof fn lemma_placeholder_width(padding: nat)
    ensures
        byte_width("[[workspace]]"@ + spaces(padding)) == 13 + padding,
{
    reveal_strlit("[[workspace]]");
    is_ascii_chars_encode_utf8("[[workspace]]"@ + spaces(padding));
}

/// Putting the placeholder in a second time changes nothing.
pub proof fn law_sanitizing_twice_is_sanitizing_once(
    line: Seq<char>,
    once: Seq<char>,
    twice: Seq<char>,
)
    requires
        is_sanitized(line, once),
        is_sanitized(once, twice),
    ensures
        once == twice,
{
    let label = "Directory: "@;
    let placeholder = "[[workspace]]"@;
    reveal_strlit("Directory: ");
    reveal_strlit("[[workspace]]");
    if exists|at: int, border: int|
        first_occurrence(line, label, at) && last_place(line, BORDER, border) && once
            == #[trigger] with_placeholder(line, at, border) {
        let (at, border) = choose|at: int, border: int|
            first_occurrence(line, label, at) && last_place(line, BORDER, border) && once
                == #[trigger] with_placeholder(line, at, border);
        let start = at + 11;
        let width = if start <= border {
            byte_width(line.subrange(start, border))
        } else {
            0
        };
        let padding: nat = if width > 13 {
            (width - 13) as nat
        } else {
            0
        };
        let new_border = start + 13 + padding;
        let suffix = line.skip(border);
        assert(once =~= line.take(start) + placeholder + spaces(padding) + suffix);
        assert(first_occurrence(once, label, at)) by {
            assert(once.subrange(at, start) =~= line.subrange(at, start));
            assert forall|i: int| 0 <= i < at implies !occurs_at(once, label, i) by {
                assert(!occurs_at(line, label, i));
                assert(once.subrange(i, i + 11) =~= line.subrange(i, i + 11));
            }
        }
        assert(last_place(once, BORDER, new_border)) by {
            assert(once[new_border] == suffix[0]);
            assert forall|i: int| new_border < i < once.len() implies once[i] != BORDER by {
                assert(once[i] == line[border + (i - new_border)]);
            }
        }
        assert(once.subrange(start, new_border) =~= placeholder + spaces(padding));
        lemma_placeholder_width(padding);
        let again = with_placeholder(once, at, new_border);
        assert(once.take(start) =~= line.take(start));
        assert(once.skip(new_border) =~= suffix);
        assert(again =~= once);
        law_sanitized_line_is_unique(once, again, twice);
    } else {
        law_sanitized_line_is_unique(line, once, twice);
    }
}

/// The text of some pieces and of some more is the text of all of them, and that of
/// one piece is its content.
pub proof fn law_pieces_are_joined(spans: Seq<Span>, more: Seq<Span>, span: Span)
    ensures
        spans_text(spans + more) == spans_text(spans) + spans_text(more),
        spans_text(seq![span]) == span.content@,
        spans_text(Seq::empty()) == Seq::<char>::empty(),
    decreases more.len(),
{
    let one = seq![span];
    assert(one.drop_last() =~= Seq::empty());
    assert(spans_text(one.drop_last()) =~= Seq::empty());
    assert(spans_text(one) =~= span.content@);
    if more.len() == 0 {
        assert(spans + more =~= spans);
        assert(spans_text(spans) + spans_text(more) =~= spans_text(spans));
    } else {
        law_pieces_are_joined(spans, more.drop_last(), span);
        assert((spans + more).drop_last() =~= spans + more.drop_last());
        assert(spans_text(spans + more) =~= spans_text(spans) + spans_text(more));
    }
}

/// Of a line that names a directory, with a border after it, the placeholder takes the
/// place of what stands between the first label and the last border. It is followed
/// by as many spaces as make up for the bytes that it is shorter, and all else stays.
pub proof fn law_directory_is_replaced(
    front: Seq<char>,
    directory: Seq<char>,
    back: Seq<char>,
    out: Seq<char>,
)
    requires
        forall|i: int|
            0 <= i < front.len() ==> #[trigger] (front + "Directory: "@ + directory
                + seq!['\u{2502}'] + back).subrange(i, i + 11) != "Directory: "@,
        forall|i: int| 0 <= i < back.len() ==> #[trigger] back[i] != '\u{2502}',
        is_sanitized(front + "Directory: "@ + directory + seq!['\u{2502}'] + back, out),
    ensures
        ({
            let width = encode_utf8(directory).len();
            let padding: nat = if width > 13 {
                (width - 13) as nat
            } else {
                0
            };
            out == front + "Directory: "@ + "[[workspace]]"@ + Seq::new(padding, |i: int| ' ')
                + seq!['\u{2502}'] + back
        }),
{
    reveal_strlit("Directory: ");
    reveal_strlit("[[workspace]]");
    let label = "Directory: "@;
    let line = front + label + directory + seq!['\u{2502}'] + back;
    let at = front.len() as int;
    let border = at + 11 + directory.len();
    assert(line.subrange(at, at + 11) =~= label);
    assert(first_occurrence(line, label, at)) by {
        assert forall|i: int| 0 <= i < at implies !occurs_at(line, label, i) by {
            assert(line.subrange(i, i + 11) != label);
        }
    }
    assert(last_place(line, BORDER, border)) by {
        assert forall|i: int| border < i < line.len() implies line[i] != BORDER by {
            assert(line[i] == back[i - border - 1]);
        }
    }
    let made = with_placeholder(line, at, border);
    assert(line.subrange(at + 11, border) =~= directory);
    assert(line.take(at + 11) =~= front + label);
    assert(line.skip(border) =~= seq!['\u{2502}'] + back);
    law_sanitized_line_is_unique(line, made, out);
    let width = encode_utf8(directory).len();
    let padding: nat = if width > 13 {
        (width - 13) as nat
    } else {
        0
    };
    assert(made =~= front + label + "[[workspace]]"@ + Seq::new(padding, |i: int| ' ')
        + seq!['\u{2502}'] + back);
}

/// Where the last border stands before the first label, the line is repeated from
/// that border on behind the placeholder.
pub proof fn law_directory_behind_the_border(
    line: Seq<char>,
    label: int,
    border: int,
    out: Seq<char>,
)
    requires
        first_occurrence(line, "Directory: "@, label),
        last_place(line, '\u{2502}', border),
        border < label,
        is_sanitized(line, out),
    ensures
        out == line.take(label + 11) + "[[workspace]]"@ + line.skip(border),
{
    reveal_strlit("Directory: ");
    let made = with_placeholder(line, label, border);
    law_sanitized_line_is_unique(line, made, out);
    assert(made =~= line.take(label + 11) + "[[workspace]]"@ + line.skip(border));
}

/// A line that names no directory, or that has no border, stays as it is.
pub proof fn law_other_lines_stay(line: Seq<char>, out: Seq<char>)
    requires
        is_sanitized(line, out),
        !line.contains('\u{2502}') || forall|i: int|
            0 <= i && i + 11 <= line.len() ==> #[trigger] line.subrange(i, i + 11)
                != "Directory: "@,
    ensures
        out == line,
{
    reveal_strlit("Directory: ");
    if out != line {
        let (label, border) = choose|label: int, border: int|
            first_occurrence(line, "Directory: "@, label) && last_place(line, BORDER, border) && out
                == #[trigger] with_placeholder(line, label, border);
        assert(line[border] == BORDER);
        assert(line.subrange(label, label + 11) == "Directory: "@);
    }
}

} // verus!
