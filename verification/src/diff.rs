//! Line classification and colouring of `svn diff` output.
use vstd::prelude::*;

use crate::text::{chars_of, chars_start_with, lines_of, split_lines, starts_with};

verus! {

/// The role of one line of unified diff output.
#[derive(Debug, Clone, Copy, PartialEq, Eq, Structural)]
pub enum Kind {
    Added,
    Removed,
    Hunk,
    Header,
    NoNewline,
    Context,
}

/// The kind of a diff line, decided by its first characters.  The
/// order of the tests matters: `+++ ` and `--- ` file headers are
/// headers, not added or removed lines.
pub open spec fn kind_of(l: Seq<char>) -> Kind {
    if starts_with(l, "@@ "@) || starts_with(l, "## "@) {
        Kind::Hunk
    } else if starts_with(l, "+"@) && !starts_with(l, "+++ "@) {
        Kind::Added
    } else if starts_with(l, "-"@) && !starts_with(l, "--- "@) {
        Kind::Removed
    } else if starts_with(l, "Index: "@) || starts_with(l, "===="@) || starts_with(l, "--- "@)
        || starts_with(l, "+++ "@) || starts_with(l, "Property changes"@) {
        Kind::Header
    } else if starts_with(l, "\\"@) {
        Kind::NoNewline
    } else {
        Kind::Context
    }
}

/// Default foreground colour (R, G, B) of each kind of line.
pub open spec fn rgb_of(kind: Kind) -> (u8, u8, u8) {
    match kind {
        Kind::Added => (26, 127, 55),
        Kind::Removed => (207, 34, 46),
        Kind::Hunk => (87, 96, 106),
        Kind::Header => (87, 96, 106),
        Kind::NoNewline => (110, 119, 129),
        Kind::Context => (31, 35, 40),
    }
}

/// Hunk markers and file headers are drawn in bold.
pub open spec fn is_bold(kind: Kind) -> bool {
    kind == Kind::Hunk || kind == Kind::Header
}

/// The "no newline at end of file" marker is drawn in italics.
pub open spec fn is_italic(kind: Kind) -> bool {
    kind == Kind::NoNewline
}

fn has_prefix(v: &Vec<char>, p: &str) -> (r: bool)
    ensures
        r == starts_with(v@, p@),
{
    let pv = chars_of(p);
    chars_start_with(v, &pv)
}

fn classify_chars(v: &Vec<char>) -> (k: Kind)
    ensures
        k == kind_of(v@),
{
    if has_prefix(v, "@@ ") || has_prefix(v, "## ") {
        Kind::Hunk
    } else if has_prefix(v, "+") && !has_prefix(v, "+++ ") {
        Kind::Added
    } else if has_prefix(v, "-") && !has_prefix(v, "--- ") {
        Kind::Removed
    } else if has_prefix(v, "Index: ") || has_prefix(v, "====") || has_prefix(v, "--- ")
        || has_prefix(v, "+++ ") || has_prefix(v, "Property changes") {
        Kind::Header
    } else if has_prefix(v, "\\") {
        Kind::NoNewline
    } else {
        Kind::Context
    }
}

/// Classifies one line of diff output.
pub fn classify(line: &str) -> (k: Kind)
    ensures
        k == kind_of(line@),
{
    let v = chars_of(line);
    classify_chars(&v)
}

/// Default foreground colour of a kind of line.
pub fn rgb(kind: Kind) -> (c: (u8, u8, u8))
    ensures
        c == rgb_of(kind),
{
    match kind {
        Kind::Added => (26, 127, 55),
        Kind::Removed => (207, 34, 46),
        Kind::Hunk => (87, 96, 106),
        Kind::Header => (87, 96, 106),
        Kind::NoNewline => (110, 119, 129),
        Kind::Context => (31, 35, 40),
    }
}

/// Whether lines of this kind are bold.
pub fn bold(kind: Kind) -> (b: bool)
    ensures
        b == is_bold(kind),
{
    match kind {
        Kind::Hunk | Kind::Header => true,
        _ => false,
    }
}

/// Whether lines of this kind are italic.
pub fn italic(kind: Kind) -> (b: bool)
    ensures
        b == is_italic(kind),
{
    match kind {
        Kind::NoNewline => true,
        _ => false,
    }
}

/// One line of diff text with its colour and style.
#[derive(Debug, PartialEq, Eq)]
pub struct ColoredLine {
    pub rgb: (u8, u8, u8),
    pub bold: bool,
    pub italic: bool,
    pub text: String,
}

impl Clone for ColoredLine {
    fn clone(&self) -> (r: Self)
        ensures
            r.rgb == self.rgb,
            r.bold == self.bold,
            r.italic == self.italic,
            r.text@ == self.text@,
    {
        ColoredLine { rgb: self.rgb, bold: self.bold, italic: self.italic, text: self.text.clone() }
    }
}

/// `c` shows the text `line` in the style of its kind.
pub open spec fn styled_as(c: ColoredLine, line: Seq<char>) -> bool {
    let k = kind_of(line);
    &&& c.text@ == line
    &&& c.rgb == rgb_of(k)
    &&& c.bold == is_bold(k)
    &&& c.italic == is_italic(k)
}

/// Renders `svn diff` text as coloured lines, one per line of the text.
pub fn render(diff: &str) -> (r: Vec<ColoredLine>)
    ensures
        r@.len() == lines_of(diff@).len(),
        forall|i: int| 0 <= i < r@.len() ==> styled_as(#[trigger] r@[i], lines_of(diff@)[i]),
{
    let lines = split_lines(diff);
    let mut out: Vec<ColoredLine> = Vec::new();
    let mut i: usize = 0;
    while i < lines.len()
        invariant
            i <= lines@.len(),
            lines@.len() == lines_of(diff@).len(),
            forall|j: int| 0 <= j < lines@.len() ==> #[trigger] lines@[j]@ == lines_of(diff@)[j],
            out@.len() == i,
            forall|j: int| 0 <= j < i ==> styled_as(#[trigger] out@[j], lines_of(diff@)[j]),
        decreases lines.len() - i,
    {
        let text = lines[i].clone();
        let kind = classify(text.as_str());
        out.push(ColoredLine { rgb: rgb(kind), bold: bold(kind), italic: italic(kind), text });
        i += 1;
    }
    out
}

/// A single message line in the given colour, neither bold nor italic.
pub fn render_msg(msg: &str, rgb: (u8, u8, u8)) -> (r: Vec<ColoredLine>)
    ensures
        r@.len() == 1,
        r@[0].text@ == msg@,
        r@[0].rgb == rgb,
        !r@[0].bold,
        !r@[0].italic,
{
    let mut out: Vec<ColoredLine> = Vec::new();
    out.push(ColoredLine { rgb, bold: false, italic: false, text: msg.to_owned() });
    out
}

/// Colour of error messages.
pub const RED: (u8, u8, u8) = (207, 34, 46);

/// Colour of informational messages.
pub const GRAY: (u8, u8, u8) = (110, 119, 129);

/// File header lines (`+++ ` and `--- `) are headers, never added or
/// removed lines.
pub proof fn lemma_file_headers_are_headers(l: Seq<char>)
    requires
        starts_with(l, "+++ "@) || starts_with(l, "--- "@),
    ensures
        kind_of(l) == Kind::Header,
{
    reveal_strlit("+++ ");
    reveal_strlit("--- ");
    reveal_strlit("@@ ");
    reveal_strlit("## ");
    reveal_strlit("+");
    reveal_strlit("-");
    assert("+++ "@[0] == '+' && "--- "@[0] == '-' && "@@ "@[0] == '@' && "## "@[0] == '#');
    assert("+"@[0] == '+' && "-"@[0] == '-');
    if starts_with(l, "+++ "@) {
        assert(l.take(4)[0] == l[0]);
        assert(l[0] == '+');
    } else {
        assert(l.take(4)[0] == l[0]);
        assert(l[0] == '-');
    }
    assert(l.take(3)[0] == l[0]);
    assert(l.take(1)[0] == l[0]);
    assert(!starts_with(l, "@@ "@));
    assert(!starts_with(l, "## "@));
    if starts_with(l, "+++ "@) {
        assert(!starts_with(l, "-"@));
    } else {
        assert(!starts_with(l, "+"@));
    }
}

/// A line that starts with `+` is an added line, and one that starts
/// with `-` a removed line, whatever follows, unless it is a `+++ ` or
/// `--- ` file header.
pub proof fn lemma_plus_and_minus_lines(l: Seq<char>)
    ensures
        starts_with(l, "+"@) && !starts_with(l, "+++ "@) ==> kind_of(l) == Kind::Added,
        starts_with(l, "-"@) && !starts_with(l, "--- "@) ==> kind_of(l) == Kind::Removed,
{
    reveal_strlit("@@ ");
    reveal_strlit("## ");
    reveal_strlit("+");
    reveal_strlit("-");
    assert("@@ "@[0] == '@' && "## "@[0] == '#');
    assert("+"@[0] == '+' && "-"@[0] == '-');
    if l.len() > 0 {
        assert(l.take(1)[0] == l[0]);
        assert(l.len() >= 3 ==> l.take(3)[0] == l[0]);
        if l[0] == '+' || l[0] == '-' {
            assert(!starts_with(l, "@@ "@));
            assert(!starts_with(l, "## "@));
        }
        if l[0] == '-' {
            assert(!starts_with(l, "+"@));
        }
    }
}

/// Every line of a diff appears in the rendering, in order, with its
/// text unchanged; the rendering holds nothing else.
pub proof fn lemma_render_keeps_every_line(diff: Seq<char>, r: Seq<ColoredLine>)
    requires
        r.len() == lines_of(diff).len(),
        forall|i: int| 0 <= i < r.len() ==> styled_as(#[trigger] r[i], lines_of(diff)[i]),
    ensures
        r.map_values(|c: ColoredLine| c.text@) == lines_of(diff),
{
    assert(r.map_values(|c: ColoredLine| c.text@) =~= lines_of(diff));
}

} // verus!
