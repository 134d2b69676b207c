//! Line endings, indentation style, line counting and go-to-line targets of
//! editor text.
use vstd::prelude::*;
use crate::text::{chars_of, contains_seq, contains_chars, decimal_seq, push_decimal, push_str_chars, string_of, string_from, split_by, split_chars, trim_seq, trim_chars, parse_u32_spec, parse_u32_chars};
use crate::editor_text::Position;

verus! {

broadcast use crate::text::lemma_chars_deep_view;

/// The line ending a text uses.
#[derive(Clone, Copy, Debug, PartialEq, Eq, Structural)]
pub enum LineEndingKind {
    Lf,
    CrLf,
    Cr,
}

impl LineEndingKind {
    /// The status-bar label of the line ending.
    pub fn label(self) -> (s: &'static str)
        ensures
            s@ == line_ending_label_spec(self),
    {
        proof {
            reveal_strlit("LF");
            reveal_strlit("CRLF");
            reveal_strlit("CR");
        }
        match self {
            LineEndingKind::Lf => "LF",
            LineEndingKind::CrLf => "CRLF",
            LineEndingKind::Cr => "CR",
        }
    }
}

pub open spec fn line_ending_label_spec(k: LineEndingKind) -> Seq<char> {
    match k {
        LineEndingKind::Lf => seq!['L', 'F'],
        LineEndingKind::CrLf => seq!['C', 'R', 'L', 'F'],
        LineEndingKind::Cr => seq!['C', 'R'],
    }
}

/// The indentation style a text uses.
#[derive(Clone, Copy, Debug, PartialEq, Eq, Structural)]
pub enum IndentStyle {
    Spaces(u8),
    Tabs,
    Mixed,
    Unknown,
}

pub open spec fn indent_label_spec(style: IndentStyle) -> Seq<char> {
    match style {
        IndentStyle::Spaces(size) => "Spaces: "@ + decimal_seq(size as nat),
        IndentStyle::Tabs => "Tabs"@,
        IndentStyle::Mixed => "Mixed Indent"@,
        IndentStyle::Unknown => "Indent: Auto"@,
    }
}

impl IndentStyle {
    /// The status-bar label of the indentation style.
    pub fn label(&self) -> (s: String)
        ensures
            s@ == indent_label_spec(*self),
    {
        match self {
            IndentStyle::Spaces(size) => {
                let mut out: Vec<char> = Vec::new();
                push_str_chars(&mut out, "Spaces: ");
                push_decimal(&mut out, *size as u64);
                string_of(out.as_slice())
            },
            IndentStyle::Tabs => string_from("Tabs"),
            IndentStyle::Mixed => string_from("Mixed Indent"),
            IndentStyle::Unknown => string_from("Indent: Auto"),
        }
    }
}

/// `detect_line_ending`: CRLF if the text holds `\r\n`, else LF if it holds a
/// `\n`, else CR if it holds a `\r`, else LF.
pub open spec fn line_ending_spec(text: Seq<char>) -> LineEndingKind {
    if contains_seq(text, seq!['\r', '\n']) {
        LineEndingKind::CrLf
    } else if contains_seq(text, seq!['\n']) {
        LineEndingKind::Lf
    } else if contains_seq(text, seq!['\r']) {
        LineEndingKind::Cr
    } else {
        LineEndingKind::Lf
    }
}

/// The line ending used by `text`.
pub fn detect_line_ending(text: &str) -> (k: LineEndingKind)
    ensures
        k == line_ending_spec(text@),
{
    let cs = chars_of(text);
    let mut crlf: Vec<char> = Vec::new();
    crlf.push('\r');
    crlf.push('\n');
    let mut lf: Vec<char> = Vec::new();
    lf.push('\n');
    let mut cr: Vec<char> = Vec::new();
    cr.push('\r');
    proof {
        assert(crlf@ =~= seq!['\r', '\n']);
        assert(lf@ =~= seq!['\n']);
        assert(cr@ =~= seq!['\r']);
    }
    if contains_chars(cs.as_slice(), crlf.as_slice()) {
        LineEndingKind::CrLf
    } else if contains_chars(cs.as_slice(), lf.as_slice()) {
        LineEndingKind::Lf
    } else if contains_chars(cs.as_slice(), cr.as_slice()) {
        LineEndingKind::Cr
    } else {
        LineEndingKind::Lf
    }
}

/// A line without the `\r` of a `\r\n` ending.
pub open spec fn strip_cr(line: Seq<char>) -> Seq<char> {
    if line.len() > 0 && line.last() == '\r' {
        line.drop_last()
    } else {
        line
    }
}

/// `str::lines`: the pieces between `\n`s, each without a `\r` that precedes
/// its `\n`, and without an empty piece after a final `\n`.
pub open spec fn lines_of(text: Seq<char>) -> Seq<Seq<char>> {
    let parts = split_by(text, '\n');
    let ended = parts.drop_last().map_values(|l: Seq<char>| strip_cr(l));
    if parts.last().len() > 0 {
        ended.push(parts.last())
    } else {
        ended
    }
}

/// The lines of a character vector (see `lines_of`).
pub fn lines_of_chars(cs: &[char]) -> (lines: Vec<Vec<char>>)
    ensures
        lines.deep_view() == lines_of(cs@),
{
    let parts = split_chars(cs, '\n');
    let ghost pv = parts.deep_view();
    let mut lines: Vec<Vec<char>> = Vec::new();
    let n = parts.len();
    let mut i: usize = 0;
    while i + 1 < n
        invariant
            n == parts.len(),
            n >= 1,
            i + 1 <= n,
            pv == parts.deep_view(),
            lines.deep_view() == pv.take(i as int).map_values(|l: Seq<char>| strip_cr(l)),
        decreases n - i,
    {
        let part = &parts[i];
        let ghost before = lines.deep_view();
        proof {
            assert(pv[i as int] == part@);
        }
        if part.len() > 0 && part[part.len() - 1] == '\r' {
            let mut l: Vec<char> = part.clone();
            l.pop();
            proof {
                assert(l@ =~= part@.drop_last());
            }
            lines.push(l);
        } else {
            lines.push(part.clone());
        }
        proof {
            assert(lines.deep_view() =~= before.push(strip_cr(pv[i as int])));
            assert(pv.take(i + 1).map_values(|l: Seq<char>| strip_cr(l)) =~= pv.take(i as int).map_values(|l: Seq<char>| strip_cr(l)).push(strip_cr(pv[i as int])));
        }
        i += 1;
    }
    proof {
        assert(pv.take(i as int) =~= pv.drop_last());
        assert(pv.last() == parts@[n - 1]@);
    }
    let last = &parts[n - 1];
    if last.len() > 0 {
        let ghost before = lines.deep_view();
        lines.push(last.clone());
        proof {
            assert(lines.deep_view() =~= before.push(pv.last()));
        }
    }
    lines
}

/// `text.lines().count().max(1)`.
pub open spec fn line_count_spec(text: Seq<char>) -> nat {
    if lines_of(text).len() == 0 { 1 } else { lines_of(text).len() }
}

/// The number of lines of `text`, at least one.
pub fn line_count(text: &str) -> (n: usize)
    ensures
        n == line_count_spec(text@),
{
    let cs = chars_of(text);
    let lines = lines_of_chars(cs.as_slice());
    if lines.len() == 0 { 1 } else { lines.len() }
}

/// The number of leading spaces and tabs.
pub open spec fn blank_prefix_len(s: Seq<char>) -> nat
    decreases s.len(),
{
    if s.len() > 0 && (s[0] == ' ' || s[0] == '\t') {
        1 + blank_prefix_len(s.drop_first())
    } else {
        0
    }
}

/// How one line counts toward the indentation style.
#[derive(Clone, Copy, Debug, PartialEq, Eq, Structural)]
pub enum LineIndent {
    /// Empty or not indented, or indented by spaces then tabs.
    Ignored,
    /// Indented starting with a tab.
    Tab,
    /// Indented by this many spaces (at most 8).
    Spaces(u8),
}

/// How a line counts toward the indentation style.
pub open spec fn line_indent_spec(line: Seq<char>) -> LineIndent {
    let n = blank_prefix_len(line);
    if n == 0 {
        LineIndent::Ignored
    } else if line[0] == '\t' {
        LineIndent::Tab
    } else if forall|i: int| 0 <= i < n ==> line[i] == ' ' {
        LineIndent::Spaces(if n > 8 { 8u8 } else { n as u8 })
    } else {
        LineIndent::Ignored
    }
}

proof fn lemma_blank_prefix(s: Seq<char>, i: int)
    requires
        0 <= i <= s.len(),
        forall|j: int| 0 <= j < i ==> s[j] == ' ' || s[j] == '\t',
        i < s.len() ==> !(s[i] == ' ' || s[i] == '\t'),
    ensures
        blank_prefix_len(s) == i,
    decreases i,
{
    if i > 0 {
        lemma_blank_prefix(s.drop_first(), i - 1);
    }
}

/// How a line counts toward the indentation style.
pub fn line_indent(line: &[char]) -> (r: LineIndent)
    ensures
        r == line_indent_spec(line@),
{
    let mut n: usize = 0;
    let mut all_spaces = true;
    while n < line.len() && (line[n] == ' ' || line[n] == '\t')
        invariant
            n <= line.len(),
            forall|j: int| 0 <= j < n ==> line@[j] == ' ' || line@[j] == '\t',
            all_spaces == (forall|j: int| 0 <= j < n ==> line@[j] == ' '),
        decreases line.len() - n,
    {
        if line[n] != ' ' {
            all_spaces = false;
        }
        n += 1;
    }
    proof {
        lemma_blank_prefix(line@, n as int);
    }
    if n == 0 {
        LineIndent::Ignored
    } else if line[0] == '\t' {
        LineIndent::Tab
    } else if all_spaces {
        LineIndent::Spaces(if n > 8 { 8u8 } else { n as u8 })
    } else {
        LineIndent::Ignored
    }
}

/// How many of `lines` count as tab-indented.
pub open spec fn tab_lines(lines: Seq<Seq<char>>) -> nat
    decreases lines.len(),
{
    if lines.len() == 0 {
        0
    } else {
        tab_lines(lines.drop_last()) + if line_indent_spec(lines.last()) == LineIndent::Tab { 1nat } else { 0nat }
    }
}

/// How many of `lines` count as space-indented.
pub open spec fn space_lines(lines: Seq<Seq<char>>) -> nat
    decreases lines.len(),
{
    if lines.len() == 0 {
        0
    } else {
        space_lines(lines.drop_last()) + if line_indent_spec(lines.last()) is Spaces { 1nat } else { 0nat }
    }
}

/// How many of `lines` are indented by exactly `w` spaces (8 standing for 8 or more).
pub open spec fn width_lines(lines: Seq<Seq<char>>, w: nat) -> nat
    decreases lines.len(),
{
    if lines.len() == 0 {
        0
    } else {
        width_lines(lines.drop_last(), w) + if line_indent_spec(lines.last()) == LineIndent::Spaces(w as u8) { 1nat } else { 0nat }
    }
}

/// The most common space width among widths `1..=upto` (the smallest on a
/// tie) with its count, `(0, 0)` when none occurs.
pub open spec fn best_width(lines: Seq<Seq<char>>, upto: nat) -> (nat, nat)
    decreases upto,
{
    if upto == 0 {
        (0, 0)
    } else {
        let b = best_width(lines, (upto - 1) as nat);
        if width_lines(lines, upto) > b.1 {
            (upto, width_lines(lines, upto))
        } else {
            b
        }
    }
}

/// The lines that decide the indentation style: the first 200.
pub open spec fn sampled_lines(text: Seq<char>) -> Seq<Seq<char>> {
    let ls = lines_of(text);
    if ls.len() > 200 { ls.take(200) } else { ls }
}

/// `detect_indent_style`: over the first 200 lines, no indented line gives
/// `Unknown`, tab- and space-indented lines together `Mixed`, only tabs
/// `Tabs`, and only spaces the most common width.
pub open spec fn indent_style_spec(text: Seq<char>) -> IndentStyle {
    let ls = sampled_lines(text);
    let tabs = tab_lines(ls);
    let spaces = space_lines(ls);
    if tabs == 0 && spaces == 0 {
        IndentStyle::Unknown
    } else if tabs > 0 && spaces > 0 {
        IndentStyle::Mixed
    } else if tabs > 0 {
        IndentStyle::Tabs
    } else if best_width(ls, 8).0 == 0 {
        IndentStyle::Spaces(4)
    } else {
        IndentStyle::Spaces(best_width(ls, 8).0 as u8)
    }
}

proof fn lemma_counts_bounded(lines: Seq<Seq<char>>)
    ensures
        tab_lines(lines) <= lines.len(),
        space_lines(lines) <= lines.len(),
        forall|w: nat| #[trigger] width_lines(lines, w) <= lines.len(),
    decreases lines.len(),
{
    if lines.len() > 0 {
        lemma_counts_bounded(lines.drop_last());
        assert forall|w: nat| #[trigger] width_lines(lines, w) <= lines.len() by {
            assert(width_lines(lines.drop_last(), w) <= lines.drop_last().len());
        }
    }
}

proof fn lemma_best_width_bound(lines: Seq<Seq<char>>, upto: nat)
    ensures
        best_width(lines, upto).0 <= upto,
    decreases upto,
{
    if upto > 0 {
        lemma_best_width_bound(lines, (upto - 1) as nat);
    }
}

/// The indentation style of `text`.
pub fn detect_indent_style(text: &str) -> (style: IndentStyle)
    ensures
        style == indent_style_spec(text@),
{
    let cs = chars_of(text);
    let all = lines_of_chars(cs.as_slice());
    let limit: usize = if all.len() > 200 { 200 } else { all.len() };
    let ghost ls = sampled_lines(text@);
    proof {
        assert(ls =~= all.deep_view().take(limit as int));
    }
    let mut tabs: u32 = 0;
    let mut spaces: u32 = 0;
    let mut widths: Vec<u32> = Vec::new();
    let mut w: usize = 0;
    while w < 9
        invariant
            w <= 9,
            widths.len() == w,
            forall|k: int| 0 <= k < w ==> widths@[k] == 0,
        decreases 9 - w,
    {
        widths.push(0);
        w += 1;
    }
    let mut i: usize = 0;
    proof {
        assert(ls.take(0) =~= Seq::<Seq<char>>::empty());
    }
    while i < limit
        invariant
            i <= limit <= all.len(),
            limit <= 200,
            ls == all.deep_view().take(limit as int),
            widths.len() == 9,
            tabs == tab_lines(ls.take(i as int)),
            spaces == space_lines(ls.take(i as int)),
            forall|k: int| 1 <= k <= 8 ==> widths@[k] == width_lines(ls.take(i as int), k as nat),
        decreases limit - i,
    {
        proof {
            lemma_counts_bounded(ls.take(i as int));
            assert(ls.take(i + 1).drop_last() =~= ls.take(i as int));
            assert(ls.take(i + 1).last() == ls[i as int]);
            assert(ls[i as int] == all@[i as int]@);
        }
        let kind = line_indent(all[i].as_slice());
        match kind {
            LineIndent::Tab => {
                tabs = tabs + 1;
            },
            LineIndent::Spaces(width) => {
                spaces = spaces + 1;
                proof {
                    assert(1 <= width <= 8);
                }
                let cur = widths[width as usize];
                widths.set(width as usize, cur + 1);
            },
            LineIndent::Ignored => {},
        }
        proof {
            assert forall|k: int| 1 <= k <= 8 implies widths@[k] == width_lines(ls.take(i + 1), k as nat) by {
                assert(k as nat as u8 == k as u8);
            }
        }
        i += 1;
    }
    proof {
        assert(ls.take(i as int) =~= ls);
    }
    if tabs == 0 && spaces == 0 {
        return IndentStyle::Unknown;
    }
    if tabs > 0 && spaces > 0 {
        return IndentStyle::Mixed;
    }
    if tabs > 0 {
        return IndentStyle::Tabs;
    }
    let mut best: usize = 0;
    let mut best_count: u32 = 0;
    let mut k: usize = 1;
    while k <= 8
        invariant
            1 <= k <= 9,
            widths.len() == 9,
            forall|j: int| 1 <= j <= 8 ==> widths@[j] == width_lines(ls, j as nat),
            (best as nat, best_count as nat) == best_width(ls, (k - 1) as nat),
        decreases 9 - k,
    {
        if widths[k] > best_count {
            best_count = widths[k];
            best = k;
        }
        k += 1;
    }
    proof {
        lemma_best_width_bound(ls, 8);
    }
    if best == 0 {
        IndentStyle::Spaces(4)
    } else {
        IndentStyle::Spaces(best as u8)
    }
}

/// The indentation unit to insert: the detected number of spaces (at least
/// one), a tab, or four spaces when the style is mixed or unknown.
pub open spec fn indent_unit_spec(style: IndentStyle) -> Seq<char> {
    match style {
        IndentStyle::Spaces(size) => Seq::new(if size == 0 { 1nat } else { size as nat }, |i: int| ' '),
        IndentStyle::Tabs => seq!['\t'],
        _ => seq![' ', ' ', ' ', ' '],
    }
}

/// The indentation unit for a style.
pub fn preferred_indent_unit(style: IndentStyle) -> (s: String)
    ensures
        s@ == indent_unit_spec(style),
{
    let mut out: Vec<char> = Vec::new();
    match style {
        IndentStyle::Spaces(size) => {
            let n: u8 = if size == 0 { 1 } else { size };
            let mut i: u8 = 0;
            while i < n
                invariant
                    i <= n,
                    out@ == Seq::new(i as nat, |j: int| ' '),
                decreases n - i,
            {
                out.push(' ');
                proof {
                    assert(out@ =~= Seq::new((i + 1) as nat, |j: int| ' '));
                }
                i += 1;
            }
        },
        IndentStyle::Tabs => {
            out.push('\t');
            proof {
                assert(out@ =~= seq!['\t']);
            }
        },
        _ => {
            out.push(' ');
            out.push(' ');
            out.push(' ');
            out.push(' ');
            proof {
                assert(out@ =~= seq![' ', ' ', ' ', ' ']);
            }
        },
    }
    string_of(out.as_slice())
}

/// `parse_go_to_line_target`: `line` or `line:column`, both 1-based, each
/// trimmed, the column defaulting to 1 when missing or blank; a zero, a part
/// that is not a `u32`, or a third part gives nothing.
pub open spec fn go_to_line_spec(raw: Seq<char>) -> Option<Position> {
    let parts = split_by(raw, ':');
    match parse_u32_spec(trim_seq(parts[0])) {
        None => None,
        Some(line) => if line == 0 {
            None
        } else {
            let column = if parts.len() >= 2 && trim_seq(parts[1]).len() > 0 {
                parse_u32_spec(trim_seq(parts[1]))
            } else {
                Some(1u32)
            };
            match column {
                None => None,
                Some(col) => if col == 0 || parts.len() >= 3 {
                    None
                } else {
                    Some(Position { line: (line - 1) as u32, character: (col - 1) as u32 })
                },
            }
        },
    }
}

/// Parses a go-to-line target (see `go_to_line_spec`).
pub fn parse_go_to_line_target(raw: &str) -> (r: Option<Position>)
    ensures
        r == go_to_line_spec(raw@),
{
    let cs = chars_of(raw);
    let parts = split_chars(cs.as_slice(), ':');
    let ghost pv = parts.deep_view();
    proof {
        assert(pv[0] == parts@[0]@);
    }
    let first = trim_chars(parts[0].as_slice());
    let line = match parse_u32_chars(first.as_slice()) {
        None => return None,
        Some(v) => v,
    };
    if line == 0 {
        return None;
    }
    let column: u32;
    if parts.len() >= 2 {
        proof {
            assert(pv[1] == parts@[1]@);
        }
        let second = trim_chars(parts[1].as_slice());
        if second.len() > 0 {
            column = match parse_u32_chars(second.as_slice()) {
                None => return None,
                Some(v) => v,
            };
        } else {
            column = 1;
        }
    } else {
        column = 1;
    }
    if column == 0 || parts.len() >= 3 {
        return None;
    }
    Some(Position { line: line - 1, character: column - 1 })
}


/// Law: a go-to-line target written 1-based, `line:column` or `line`
/// alone, reads back as the 0-based position (column 0 when it is left out).
pub proof fn law_go_to_line_round_trip(line: u32, column: u32)
    requires
        line < u32::MAX,
        column < u32::MAX,
    ensures
        go_to_line_spec(crate::text::decimal_seq((line + 1) as nat) + seq![':'] + crate::text::decimal_seq((column + 1) as nat))
            == Some(Position { line, character: column }),
        go_to_line_spec(crate::text::decimal_seq((line + 1) as nat)) == Some(Position { line, character: 0 }),
{
    let l = crate::text::decimal_seq((line + 1) as nat);
    let c = crate::text::decimal_seq((column + 1) as nat);
    crate::text::lemma_parse_decimal((line + 1) as u32);
    crate::text::lemma_parse_decimal((column + 1) as u32);
    crate::text::lemma_split_by_plain(l, ':');
    crate::text::lemma_split_by_plain(c, ':');
    crate::text::lemma_split_by_concat(l, c, ':');
    assert(crate::text::split_by(l + seq![':'] + c, ':') =~= seq![l, c]);
}


proof fn lemma_no_tab_lines(ls: Seq<Seq<char>>)
    requires
        forall|k: int| 0 <= k < ls.len() ==> line_indent_spec(#[trigger] ls[k]) != LineIndent::Tab,
    ensures
        tab_lines(ls) == 0,
    decreases ls.len(),
{
    if ls.len() > 0 {
        let d = ls.drop_last();
        assert forall|k: int| 0 <= k < d.len() implies line_indent_spec(#[trigger] d[k]) != LineIndent::Tab by {
            assert(d[k] == ls[k]);
        }
        lemma_no_tab_lines(d);
        assert(line_indent_spec(ls[ls.len() - 1]) != LineIndent::Tab);
    }
}

proof fn lemma_some_space_line(ls: Seq<Seq<char>>, k: int)
    requires
        0 <= k < ls.len(),
        line_indent_spec(ls[k]) is Spaces,
    ensures
        space_lines(ls) >= 1,
    decreases ls.len(),
{
    if k < ls.len() - 1 {
        assert(ls.drop_last()[k] == ls[k]);
        lemma_some_space_line(ls.drop_last(), k);
    } else {
        assert(ls.last() == ls[k]);
    }
}

/// Law: when one of the first 200 lines of a text is indented by spaces
/// (its first `n` characters are spaces, followed by neither a space nor a
/// tab) and none of the first 200 lines starts with a tab, the text is
/// detected as indented by spaces, of some width from 1 to 8; every one of
/// the first 200 lines counts.
pub proof fn law_space_indent_detected(text: Seq<char>, j: int, n: int)
    requires
        0 <= j < lines_of(text).len(),
        j < 200,
        0 < n <= lines_of(text)[j].len(),
        forall|i: int| 0 <= i < n ==> lines_of(text)[j][i] == ' ',
        n < lines_of(text)[j].len() ==> lines_of(text)[j][n] != ' ' && lines_of(text)[j][n] != '\t',
        forall|k: int| 0 <= k < lines_of(text).len() && k < 200 ==> !((#[trigger] lines_of(text)[k]).len() > 0
            && lines_of(text)[k][0] == '\t'),
    ensures
        indent_style_spec(text) matches IndentStyle::Spaces(w) && 1 <= w <= 8,
{
    let all = lines_of(text);
    let ls = sampled_lines(text);
    assert(ls.len() == if all.len() > 200 { 200 } else { all.len() });
    assert forall|k: int| 0 <= k < ls.len() implies #[trigger] ls[k] == all[k] by {}
    let line = all[j];
    lemma_blank_prefix(line, n);
    assert(ls[j] == line);
    assert(line_indent_spec(ls[j]) is Spaces);
    assert forall|k: int| 0 <= k < ls.len() implies line_indent_spec(#[trigger] ls[k]) != LineIndent::Tab by {
        assert(ls[k] == all[k]);
        let l = all[k];
        if blank_prefix_len(l) > 0 {
            assert(l.len() > 0);
        }
    }
    lemma_no_tab_lines(ls);
    lemma_some_space_line(ls, j);
    lemma_best_width_bound(ls, 8);
}

} // verus!
