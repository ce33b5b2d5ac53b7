//! Markdown rendering for task descriptions.
//!
//! Rendering itself is `tui-markdown`'s job. This module exists for one thing it
//! does not offer, treating a single newline as a line break, and for styling
//! that suits any terminal theme.
//!
//! CommonMark joins consecutive lines into one paragraph, which is correct but
//! wrong for dex descriptions -- people write them as plain text, one thought per
//! line, and `dex` stores them verbatim. Without this, "line one\nline two"
//! renders as "line one line two".

use vstd::prelude::*;

use crate::text::{
    ends, ends_with, find_char, is_digit, is_space, lemma_find_char, lemma_found_char, lines,
    lines_of, opt_str, skip_space, starts, starts_with, texts, to_chars, trim, trim_start, trimmed,
    without_cr,
};
use crate::theme::{ansi_name, palette_name, Color, CODE, DIM};

verus! {

// ---------------------------------------------------------------------------
// Styles
// ---------------------------------------------------------------------------

/// How a stretch of text looks.
#[derive(Debug, Clone, Copy, PartialEq, Eq, Structural)]
pub struct Look {
    pub fg: Option<Color>,
    pub bg: Option<Color>,
    pub bold: bool,
    pub italic: bool,
    pub underlined: bool,
}

/// Text as the terminal shows it.
pub open spec fn plain() -> Look {
    Look { fg: None, bg: None, bold: false, italic: false, underlined: false }
}

/// The look of a heading.
pub open spec fn heading_look(level: u8) -> Look {
    Look { bold: true, underlined: level == 1, italic: level != 1 && level != 2, ..plain() }
}

impl Look {
    /// Depth reads from weight and decoration rather than colour.
    pub fn heading(level: u8) -> (r: Look)
        ensures
            r == heading_look(level),
    {
        Look {
            fg: None,
            bg: None,
            bold: true,
            underlined: level == 1,
            italic: level != 1 && level != 2,
        }
    }

    pub fn code() -> (r: Look)
        ensures
            r == (Look { fg: Some(CODE), ..plain() }),
    {
        Look { fg: Some(CODE), bg: None, bold: false, italic: false, underlined: false }
    }

    pub fn link() -> (r: Look)
        ensures
            r == (Look { underlined: true, ..plain() }),
    {
        Look { fg: None, bg: None, bold: false, italic: false, underlined: true }
    }

    pub fn blockquote() -> (r: Look)
        ensures
            r == (Look { fg: Some(DIM), italic: true, ..plain() }),
    {
        Look { fg: Some(DIM), bg: None, bold: false, italic: true, underlined: false }
    }

    pub fn table_border() -> (r: Look)
        ensures
            r == (Look { fg: Some(DIM), ..plain() }),
    {
        Look { fg: Some(DIM), bg: None, bold: false, italic: false, underlined: false }
    }

    pub fn table_header() -> (r: Look)
        ensures
            r == (Look { bold: true, ..plain() }),
    {
        Look { fg: None, bg: None, bold: true, italic: false, underlined: false }
    }
}

/// Styling that does not assume a background colour.
///
/// A background without a matching foreground leaves the text in whatever the
/// terminal's default foreground is, and a fixed black block is wrong on a light
/// background. Structure is carried by modifiers instead, which work in any
/// theme, with a single foreground accent for code. Same rule as the rest of the
/// UI: the terminal owns colour.
#[derive(Debug, Clone, Copy, PartialEq, Eq, Structural)]
pub struct Adaptive;

/// Headings stand out by a modifier and no background, and the three depths
/// that are told apart all look different.
pub proof fn law_headings_do_not_rely_on_colour(level: u8)
    ensures
        heading_look(level).bold,
        heading_look(level).bg is None && heading_look(level).fg is None,
        heading_look(1) != heading_look(2),
        level > 2 ==> heading_look(level) != heading_look(1) && heading_look(level)
            != heading_look(2),
{
}

// ---------------------------------------------------------------------------
// Line breaks
// ---------------------------------------------------------------------------

/// Whether a line opens or closes a fenced code block.
pub open spec fn is_fence(line: Seq<char>) -> bool {
    starts(trim_start(line), "```"@)
}

/// Whether the `n`th line starts inside a fenced code block.
pub open spec fn fenced(ls: Seq<Seq<char>>, n: int) -> bool
    decreases n,
{
    if n <= 0 {
        false
    } else if is_fence(ls[n - 1]) {
        !fenced(ls, n - 1)
    } else {
        fenced(ls, n - 1)
    }
}

/// Whether a line needs the two trailing spaces that CommonMark reads as a hard
/// break. Not inside a fenced code block, where content is verbatim; not on the
/// fence delimiters; not on blank lines or before one, where the break is
/// redundant; and not where the line already ends in two spaces.
pub open spec fn needs_break(ls: Seq<Seq<char>>, i: int) -> bool {
    &&& !fenced(ls, i)
    &&& !is_fence(ls[i])
    &&& trimmed(ls[i]).len() > 0
    &&& i + 1 < ls.len() && trimmed(ls[i + 1]).len() > 0
    &&& !ends(ls[i], "  "@)
}

/// One line as it is handed on.
pub open spec fn prepared(ls: Seq<Seq<char>>, i: int) -> Seq<char> {
    if needs_break(ls, i) {
        ls[i] + "  "@
    } else {
        ls[i]
    }
}

/// The lines from `i` on as they are handed on, each ended by a newline.
pub open spec fn prepared_from(ls: Seq<Seq<char>>, i: int) -> Seq<char>
    decreases ls.len() - i,
{
    if i >= ls.len() {
        Seq::empty()
    } else {
        prepared(ls, i) + "\n"@ + prepared_from(ls, i + 1)
    }
}

/// Appends the two trailing spaces that CommonMark reads as a hard break, to
/// every line that needs them.
///
/// Skipped for anything where trailing whitespace would change meaning or where
/// a break makes no sense:
///
/// - inside fenced code blocks, where content is verbatim;
/// - the fence delimiters themselves;
/// - blank lines, which already separate paragraphs;
/// - lines followed by a blank line, where the break is redundant;
/// - lines that already end in two or more spaces.
pub fn hard_break_soft_lines(text: &str) -> (r: String)
    ensures
        r@ == prepared_from(lines_of(text@), 0),
{
    let ls = lines(text);
    let ghost all = texts(ls@);
    let mut out = String::new();
    let mut in_fence = false;
    assert(out@ + prepared_from(all, 0) =~= prepared_from(all, 0));
    for i in 0..ls.len()
        invariant
            all == texts(ls@),
            all == lines_of(text@),
            in_fence == fenced(all, i as int),
            out@ + prepared_from(all, i as int) == prepared_from(all, 0),
    {
        let line = ls[i].as_str();
        assert(all[i as int] == line@);
        let fence = starts_with(skip_space(line), "```");
        let next_is_text = if i + 1 < ls.len() {
            assert(all[i + 1] == ls@[i + 1]@);
            trim(ls[i + 1].as_str()).unicode_len() > 0
        } else {
            false
        };
        let ghost so_far = out@;
        out.append(line);
        if !in_fence && !fence && trim(line).unicode_len() > 0 && next_is_text && !ends_with(
            line,
            "  ",
        ) {
            out.append("  ");
        }
        assert(out@ =~= so_far + prepared(all, i as int));
        out.append("\n");
        proof {
            assert(so_far + (prepared(all, i as int) + "\n"@ + prepared_from(all, i + 1)) =~= out@
                + prepared_from(all, i + 1));
        }
        if fence {
            in_fence = !in_fence;
        }
    }
    assert(out@ + prepared_from(all, all.len() as int) =~= out@);
    out
}

proof fn lemma_lines_hold_no_newline(s: Seq<char>, i: int)
    requires
        0 <= i < lines_of(s).len(),
    ensures
        !lines_of(s)[i].contains('\n'),
    decreases s.len(),
{
    lemma_found_char(s, '\n');
    let k = find_char(s, '\n');
    if k < s.len() {
        if i > 0 {
            lemma_lines_hold_no_newline(s.skip(k + 1), i - 1);
        }
    }
}

proof fn lemma_line_off_the_front(x: Seq<char>, rest: Seq<char>)
    requires
        !x.contains('\n'),
    ensures
        lines_of(x + "\n"@ + rest) == seq![without_cr(x)] + lines_of(rest),
{
    reveal_strlit("\n");
    let s = x + "\n"@ + rest;
    assert forall|j: int| 0 <= j < x.len() implies s[j] != '\n' by {
        assert(x.contains(x[j]));
    }
    assert(s[x.len() as int] == '\n');
    lemma_find_char(s, '\n', x.len() as int);
    assert(s.take(x.len() as int) =~= x);
    assert(s.skip((x.len() + 1) as int) =~= rest);
}

proof fn lemma_prepared_lines(ls: Seq<Seq<char>>, i: int)
    requires
        0 <= i <= ls.len(),
        forall|j: int| 0 <= j < ls.len() ==> !(#[trigger] ls[j]).contains('\n'),
    ensures
        lines_of(prepared_from(ls, i)).len() == ls.len() - i,
        forall|j: int|
            i <= j < ls.len() ==> #[trigger] lines_of(prepared_from(ls, i))[j - i] == without_cr(
                prepared(ls, j),
            ),
    decreases ls.len() - i,
{
    if i < ls.len() {
        lemma_prepared_lines(ls, i + 1);
        let x = prepared(ls, i);
        let rest = prepared_from(ls, i + 1);
        reveal_strlit("  ");
        assert(!x.contains('\n')) by {
            if x.contains('\n') {
                let k = choose|k: int| 0 <= k < x.len() && x[k] == '\n';
                assert(k < ls[i].len());
                assert(ls[i][k] == '\n');
            }
        }
        lemma_line_off_the_front(x, rest);
        let all = lines_of(prepared_from(ls, i));
        assert forall|j: int| i <= j < ls.len() implies #[trigger] all[j - i] == without_cr(
            prepared(ls, j),
        ) by {
            if j > i {
                assert(all[j - i] == lines_of(rest)[j - (i + 1)]);
            }
        }
    }
}

/// The preparation neither joins, splits nor drops a line, whatever the text:
/// every line is still there, in its place, and starts as it did.
pub proof fn law_preparing_keeps_every_line(text: Seq<char>, i: int)
    ensures
        lines_of(prepared_from(lines_of(text), 0)).len() == lines_of(text).len(),
        0 <= i < lines_of(text).len() ==> {
            let before = lines_of(text)[i];
            let after = lines_of(prepared_from(lines_of(text), 0))[i];
            after == without_cr(before) || after == before + "  "@
        },
{
    let ls = lines_of(text);
    assert forall|j: int| 0 <= j < ls.len() implies !(#[trigger] ls[j]).contains('\n') by {
        lemma_lines_hold_no_newline(text, j);
    }
    lemma_prepared_lines(ls, 0);
    if 0 <= i < ls.len() {
        assert(lines_of(prepared_from(ls, 0))[i - 0] == without_cr(prepared(ls, i)));
        reveal_strlit("  ");
    }
}

/// Nothing inside a fenced code block, no fence and no blank line is touched,
/// and a line that already ends in a hard break is not given another.
pub proof fn law_code_is_never_touched(text: Seq<char>, i: int)
    requires
        0 <= i < lines_of(text).len(),
        fenced(lines_of(text), i) || is_fence(lines_of(text)[i]) || trimmed(
            lines_of(text)[i],
        ).len() == 0 || ends(lines_of(text)[i], "  "@),
    ensures
        prepared(lines_of(text), i) == lines_of(text)[i],
{
}

// ---------------------------------------------------------------------------
// Rendering
// ---------------------------------------------------------------------------

/// `ratatui::style::Style`: how a stretch of rendered text looks. Carried from
/// the renderer to the screen as it is.
#[verifier::external_type_specification]
#[verifier::external_body]
pub struct ExStyle(ratatui::style::Style);

/// A stretch of rendered text.
#[derive(Debug)]
pub struct StyledSpan {
    pub content: String,
    pub style: ratatui::style::Style,
}

/// A line of rendered text.
#[derive(Debug)]
pub struct StyledLine {
    pub spans: Vec<StyledSpan>,
    pub style: ratatui::style::Style,
}

/// What a stretch of rendered text says, and how it looks.
pub ghost struct SpanView {
    pub content: Seq<char>,
    pub style: ratatui::style::Style,
}

/// What a line of rendered text says, and how it looks.
pub ghost struct LineView {
    pub spans: Seq<SpanView>,
    pub style: ratatui::style::Style,
}

impl View for StyledSpan {
    type V = SpanView;

    open spec fn view(&self) -> SpanView {
        SpanView { content: self.content@, style: self.style }
    }
}

impl View for StyledLine {
    type V = LineView;

    open spec fn view(&self) -> LineView {
        LineView { spans: self.spans@.map_values(|s: StyledSpan| s@), style: self.style }
    }
}

/// What each line of a rendered text says.
pub open spec fn line_views(ls: Seq<StyledLine>) -> Seq<LineView> {
    ls.map_values(|l: StyledLine| l@)
}

/// The `ratatui` style with these colours, by name, and these decorations.
pub uninterp spec fn style_of(
    fg: Option<Seq<char>>,
    bg: Option<Seq<char>>,
    bold: bool,
    italic: bool,
    underlined: bool,
) -> ratatui::style::Style;

/// A `ratatui::style::Style`: its colours by `Color::from_str`, none for a name
/// that it does not know, and its decorations as the modifiers of the same
/// names. The answer depends on the arguments alone.
#[verifier::external_body]
fn styled(
    fg: Option<&str>,
    bg: Option<&str>,
    bold: bool,
    italic: bool,
    underlined: bool,
) -> (r: ratatui::style::Style)
    ensures
        r == style_of(opt_str(fg), opt_str(bg), bold, italic, underlined),
{
    let mut modifier = ratatui::style::Modifier::empty();
    modifier.set(ratatui::style::Modifier::BOLD, bold);
    modifier.set(ratatui::style::Modifier::ITALIC, italic);
    modifier.set(ratatui::style::Modifier::UNDERLINED, underlined);
    let mut style = ratatui::style::Style::new().add_modifier(modifier);
    style.fg = fg.and_then(|name| name.parse().ok());
    style.bg = bg.and_then(|name| name.parse().ok());
    style
}

/// The name of a colour, where there is one.
pub open spec fn opt_name(c: Option<Color>) -> Option<Seq<char>> {
    match c {
        Some(c) => Some(palette_name(c)),
        None => None,
    }
}

fn named(c: Option<Color>) -> (r: Option<&'static str>)
    ensures
        opt_str(r) == opt_name(c),
{
    match c {
        Some(c) => Some(ansi_name(c)),
        None => None,
    }
}

/// The `ratatui` style of a look.
pub open spec fn dressed(look: Look) -> ratatui::style::Style {
    style_of(opt_name(look.fg), opt_name(look.bg), look.bold, look.italic, look.underlined)
}

impl Look {
    /// The `ratatui` style of a look.
    pub fn style(self) -> (r: ratatui::style::Style)
        ensures
            r == dressed(self),
    {
        styled(named(self.fg), named(self.bg), self.bold, self.italic, self.underlined)
    }
}

impl tui_markdown::StyleSheet for Adaptive {
    fn heading(&self, level: u8) -> (r: ratatui::style::Style)
        ensures
            r == dressed(heading_look(level)),
    {
        Look::heading(level).style()
    }

    fn code(&self) -> (r: ratatui::style::Style)
        ensures
            r == dressed(Look { fg: Some(CODE), ..plain() }),
    {
        Look::code().style()
    }

    fn link(&self) -> (r: ratatui::style::Style)
        ensures
            r == dressed(Look { underlined: true, ..plain() }),
    {
        Look::link().style()
    }

    fn blockquote(&self) -> (r: ratatui::style::Style)
        ensures
            r == dressed(Look { fg: Some(DIM), italic: true, ..plain() }),
    {
        Look::blockquote().style()
    }

    fn table_border(&self) -> (r: ratatui::style::Style)
        ensures
            r == dressed(Look { fg: Some(DIM), ..plain() }),
    {
        Look::table_border().style()
    }

    fn table_header(&self) -> (r: ratatui::style::Style)
        ensures
            r == dressed(Look { bold: true, ..plain() }),
    {
        Look::table_header().style()
    }
}

/// The columns of white space a character can fill.
pub open spec fn columns(c: char) -> nat {
    match c {
        ' ' => 1,
        '\t' => 4,
        _ => 0,
    }
}

/// Whether a list marker ends right before a place: a bullet, or a digit and
/// what follows a number.
pub open spec fn after_marker(line: Seq<char>, i: int) -> bool {
    i >= 1 && match line[i - 1] {
        '-' | '+' | '*' => true,
        '.' | ')' => i >= 2 && is_digit(line[i - 2]),
        _ => false,
    }
}

/// Whether white space at a place can be indentation: at the start of a line,
/// after more of it, or after what else can open a block.
pub open spec fn can_indent(line: Seq<char>, i: int) -> bool {
    i == 0 || match line[i - 1] {
        ' ' | '\t' | '\r' | '>' | ':' => true,
        _ => false,
    }
}

/// How much room for list levels a character gives, a level being two. A marker
/// and a column of the white space behind it open a level, and a level that goes
/// on takes at least two columns of indentation.
pub open spec fn list_share(line: Seq<char>, i: int) -> nat {
    if columns(line[i]) == 0 {
        0
    } else if after_marker(line, i) {
        columns(line[i]) + 1
    } else if can_indent(line, i) {
        columns(line[i])
    } else {
        0
    }
}

/// The room for list levels on a line.
pub open spec fn list_room(line: Seq<char>) -> nat
    decreases line.len(),
{
    if line.len() == 0 {
        0
    } else {
        list_room(line.drop_last()) + list_share(line, line.len() - 1)
    }
}

/// Whether no line of a text has more room for list levels than this.
pub open spec fn nests_within(text: Seq<char>, room: nat) -> bool {
    forall|i: int| 0 <= i < lines_of(text).len() ==> list_room(#[trigger] lines_of(text)[i]) <= room
}

/// Whether a text can be rendered: it is short, or no line of it could be
/// thousands of list levels deep.
pub open spec fn renderable(text: Seq<char>) -> bool {
    text.len() <= 6552 || nests_within(text, 32764)
}

fn digit(c: char) -> (r: bool)
    ensures
        r == is_digit(c),
{
    let n: u32 = c as u32;
    48 <= n && n <= 57
}

fn share_at(line: &Vec<char>, i: usize) -> (r: u32)
    requires
        i < line@.len(),
    ensures
        r == list_share(line@, i as int),
{
    let wide: u32 = match line[i] {
        ' ' => 1,
        '\t' => 4,
        _ => 0,
    };
    if wide == 0 || i == 0 {
        return wide;
    }
    match line[i - 1] {
        '-' | '+' | '*' => wide + 1,
        '.' | ')' => if i >= 2 && digit(line[i - 2]) {
            wide + 1
        } else {
            0
        },
        ' ' | '\t' | '\r' | '>' | ':' => wide,
        _ => 0,
    }
}

fn fits_on(line: &str) -> (r: bool)
    ensures
        r == (list_room(line@) <= 32764),
{
    let v = to_chars(line);
    let mut room: u32 = 0;
    assert(v@.take(0) =~= Seq::empty());
    for i in 0..v.len()
        invariant
            v@ == line@,
            room == list_room(v@.take(i as int)),
            room <= 32764,
    {
        proof {
            let upto = v@.take(i + 1);
            assert(upto.drop_last() =~= v@.take(i as int));
            assert(list_share(upto, i as int) == list_share(v@, i as int));
        }
        room = room + share_at(&v, i);
        if room > 32764 {
            proof {
                lemma_room_grows(v@, i + 1);
            }
            return false;
        }
    }
    assert(v@.take(v@.len() as int) =~= v@);
    true
}

proof fn lemma_room_grows(line: Seq<char>, n: int)
    requires
        0 <= n <= line.len(),
    ensures
        list_room(line.take(n)) <= list_room(line),
    decreases line.len(),
{
    if n < line.len() {
        lemma_room_grows(line.drop_last(), n);
        assert(line.drop_last().take(n) =~= line.take(n));
    } else {
        assert(line.take(n) =~= line);
    }
}

/// Whether a text can be rendered.
pub fn can_render(text: &str) -> (r: bool)
    ensures
        r == renderable(text@),
{
    if text.unicode_len() <= 6552 {
        return true;
    }
    let ls = lines(text);
    let ghost all = texts(ls@);
    for i in 0..ls.len()
        invariant
            all == texts(ls@),
            all == lines_of(text@),
            text@.len() > 6552,
            forall|j: int| 0 <= j < i ==> list_room(#[trigger] all[j]) <= 32764,
    {
        assert(all[i as int] == ls@[i as int]@);
        if !fits_on(ls[i].as_str()) {
            assert(list_room(lines_of(text@)[i as int]) > 32764);
            return false;
        }
    }
    true
}

proof fn lemma_room_of_short(line: Seq<char>)
    ensures
        list_room(line) <= 5 * line.len(),
    decreases line.len(),
{
    if line.len() > 0 {
        lemma_room_of_short(line.drop_last());
    }
}

proof fn lemma_lines_are_no_longer(s: Seq<char>, i: int)
    requires
        0 <= i < lines_of(s).len(),
    ensures
        lines_of(s)[i].len() <= s.len(),
    decreases s.len(),
{
    lemma_found_char(s, '\n');
    let k = find_char(s, '\n');
    if k < s.len() {
        if i > 0 {
            lemma_lines_are_no_longer(s.skip(k + 1), i - 1);
        }
    }
}

/// Preparing a text leaves it as shallow as it was, but for a break after a
/// marker.
proof fn lemma_prepared_stays_shallow(text: Seq<char>)
    requires
        renderable(text),
    ensures
        nests_within(prepared_from(lines_of(text), 0), 32767),
{
    let ls = lines_of(text);
    let after = prepared_from(ls, 0);
    assert forall|i: int| 0 <= i < lines_of(after).len() implies list_room(
        #[trigger] lines_of(after)[i],
    ) <= 32767 by {
        law_preparing_keeps_every_line(text, i);
        if text.len() <= 6552 {
            lemma_lines_are_no_longer(text, i);
            lemma_room_of_short(ls[i]);
        }
        assert(list_room(ls[i]) <= 32764);
        let x = lines_of(after)[i];
        if x == ls[i] + "  "@ {
            reveal_strlit("  ");
            let y = x.drop_last();
            assert(y.drop_last() =~= ls[i]);
            assert(y.last() == ' ' && x.last() == ' ' && y.last() == x[x.len() - 2]);
            assert(list_share(y, y.len() - 1) <= 2);
            assert(list_share(x, x.len() - 1) == 1);
            assert(list_room(y) <= list_room(ls[i]) + 2);
            assert(list_room(x) == list_room(y) + 1);
        } else {
            lemma_room_grows(ls[i], x.len() as int);
            assert(x =~= ls[i].take(x.len() as int));
        }
    }
}

/// Whether a line is nothing but words of ASCII letters with spaces between:
/// text that no markup can be made of.
pub open spec fn is_words(line: Seq<char>) -> bool {
    &&& line.len() > 0
    &&& line[0] != ' ' && line.last() != ' '
    &&& forall|i: int| 0 <= i < line.len() ==> #[trigger] line[i] == ' ' || is_letter(line[i])
}

/// Whether a character is an ASCII letter.
pub open spec fn is_letter(c: char) -> bool {
    65 <= c as u32 <= 90 || 97 <= c as u32 <= 122
}

/// Whether every line is nothing but words.
pub open spec fn all_words(ls: Seq<Seq<char>>) -> bool {
    forall|i: int| 0 <= i < ls.len() ==> is_words(#[trigger] ls[i])
}

/// A line without the two spaces of a hard break.
pub open spec fn unbroken(line: Seq<char>) -> Seq<char> {
    if ends(line, "  "@) {
        line.take(line.len() - 2)
    } else {
        line
    }
}

/// Lines without the two spaces of their hard breaks.
pub open spec fn all_unbroken(ls: Seq<Seq<char>>) -> Seq<Seq<char>> {
    ls.map_values(|l: Seq<char>| unbroken(l))
}

/// Whether lines are nothing but words, with a hard break after each but the
/// last.
pub open spec fn words_apart(ls: Seq<Seq<char>>) -> bool {
    &&& all_words(all_unbroken(ls))
    &&& forall|i: int| 0 <= i < ls.len() ==> ends(#[trigger] ls[i], "  "@) == (i + 1 < ls.len())
}

/// The text of a line, whatever its styles.
pub open spec fn said_in(spans: Seq<SpanView>) -> Seq<char>
    decreases spans.len(),
{
    if spans.len() == 0 {
        Seq::empty()
    } else {
        said_in(spans.drop_last()) + spans.last().content
    }
}

/// The text of each line, whatever its styles.
pub open spec fn said_by(ls: Seq<LineView>) -> Seq<Seq<char>> {
    ls.map_values(|l: LineView| said_in(l.spans))
}

/// What `tui_markdown` makes of a text under the styles of [`Adaptive`].
pub uninterp spec fn rendered(prepared: Seq<char>) -> Seq<LineView>;

/// `tui_markdown::from_str_with_options`, with [`Adaptive`] for its style sheet
/// and every other option as it comes: the lines, each with its style, of spans,
/// each with its text and style. The answer depends on the text alone. Of a
/// paragraph that is nothing but words it says that each hard break ends a line,
/// and that nothing is added to or taken from the words.
///
/// The renderer panics where an ordered list is more than 16384 levels deep, as
/// it pads the number to a width that no longer fits 16 bits. Of the levels an
/// item is in, each one that its line opens takes a marker and a column of white
/// space there, but for one marker at the end of the line, and each one that
/// goes on takes two columns of indentation: two of [`list_room`] each.
#[verifier::external_body]
fn render_prepared(prepared: &str) -> (r: Vec<StyledLine>)
    requires
        nests_within(prepared@, 32767),
    ensures
        line_views(r@) == rendered(prepared@),
        words_apart(lines_of(prepared@)) ==> said_by(line_views(r@)) == all_unbroken(
            lines_of(prepared@),
        ),
{
    let options = tui_markdown::Options::new(Adaptive);
    let text = tui_markdown::from_str_with_options(prepared, &options);
    let span = |s: ratatui::text::Span| StyledSpan { content: s.content.into_owned(), style: s.style };
    text.lines
        .into_iter()
        .map(|l| StyledLine { style: l.style, spans: l.spans.into_iter().map(span).collect() })
        .collect()
}

proof fn lemma_words_stay_apart(text: Seq<char>)
    requires
        all_words(lines_of(text)),
    ensures
        words_apart(lines_of(prepared_from(lines_of(text), 0))),
        all_unbroken(lines_of(prepared_from(lines_of(text), 0))) == lines_of(text),
{
    let ls = lines_of(text);
    let after = lines_of(prepared_from(ls, 0));
    reveal_strlit("  ");
    reveal_strlit("```");
    assert forall|j: int| 0 <= j < ls.len() implies !(#[trigger] ls[j]).contains('\n') by {
        lemma_lines_hold_no_newline(text, j);
    }
    lemma_prepared_lines(ls, 0);
    assert forall|i: int| 0 <= i < ls.len() implies !is_fence(#[trigger] ls[i]) && trimmed(
        ls[i],
    ).len() > 0 && !ends(ls[i], "  "@) by {
        lemma_words_hold_no_markup(ls[i]);
    }
    assert forall|i: int| 0 <= i < ls.len() implies (#[trigger] after[i]) == (if i + 1 < ls.len() {
        ls[i] + "  "@
    } else {
        ls[i]
    }) by {
        lemma_no_fence(ls, i);
        assert(needs_break(ls, i) == (i + 1 < ls.len()));
        assert(after[i - 0] == without_cr(prepared(ls, i)));
        assert(is_words(ls[i]));
        assert(ls[i][ls[i].len() - 1] == ls[i].last());
    }
    assert forall|i: int| 0 <= i < ls.len() implies unbroken(#[trigger] after[i]) == ls[i] && ends(
        after[i],
        "  "@,
    ) == (i + 1 < ls.len()) by {
        if i + 1 < ls.len() {
            let x = after[i];
            assert(x.subrange(x.len() - 2, x.len() as int) =~= "  "@);
            assert(x.take(x.len() - 2) =~= ls[i]);
        }
    }
    assert(all_unbroken(after) =~= ls);
}

proof fn lemma_words_hold_no_markup(line: Seq<char>)
    requires
        is_words(line),
    ensures
        !is_fence(line),
        trimmed(line).len() > 0,
        !ends(line, "  "@),
{
    reveal_strlit("  ");
    reveal_strlit("```");
    assert(is_letter(line[0]));
    assert(line[line.len() - 1] == line.last() && is_letter(line.last()));
    assert(!is_space(line[0]) && !is_space(line.last()));
    assert(trim_start(line) == line);
    assert(trimmed(line) == line);
    if is_fence(line) {
        assert(line.subrange(0, 3)[0] == '`');
    }
    if ends(line, "  "@) {
        assert(line.subrange(line.len() - 2, line.len() as int)[1] == ' ');
    }
}

proof fn lemma_no_fence(ls: Seq<Seq<char>>, n: int)
    requires
        0 <= n <= ls.len(),
        forall|i: int| 0 <= i < ls.len() ==> !is_fence(#[trigger] ls[i]),
    ensures
        !fenced(ls, n),
    decreases n,
{
    if n > 0 {
        lemma_no_fence(ls, n - 1);
    }
}

/// Renders `text`, honouring single newlines as line breaks: of a text that is
/// nothing but words, every line comes out as a line of its own.
pub fn render(text: &str) -> (r: Vec<StyledLine>)
    requires
        renderable(text@),
    ensures
        line_views(r@) == rendered(prepared_from(lines_of(text@), 0)),
        all_words(lines_of(text@)) ==> said_by(line_views(r@)) == lines_of(text@),
{
    proof {
        lemma_prepared_stays_shallow(text@);
        if all_words(lines_of(text@)) {
            lemma_words_stay_apart(text@);
        }
    }
    render_prepared(hard_break_soft_lines(text).as_str())
}

/// How many of the first `n` lines open or close a fenced block.
pub open spec fn fences_before(ls: Seq<Seq<char>>, n: int) -> nat
    decreases n,
{
    if n <= 0 {
        0
    } else {
        fences_before(ls, n - 1) + if is_fence(ls[n - 1]) {
            1nat
        } else {
            0
        }
    }
}

/// A line of text that another follows is given a hard break: outside a fenced
/// block, which is to say after an even number of fences, every line that is not
/// a fence, is not blank, is not followed by a blank one and has none yet; and
/// no other line is.
pub proof fn law_a_single_newline_becomes_a_hard_break(text: Seq<char>, i: int)
    requires
        0 <= i < lines_of(text).len(),
    ensures
        ({
            let ls = lines_of(text);
            let blank = |l: Seq<char>|
                forall|k: int| 0 <= k < l.len() ==> is_space(#[trigger] l[k]);
            let needs = fences_before(ls, i) % 2 == 0 && !is_fence(ls[i]) && !blank(ls[i]) && i + 1
                < ls.len() && !blank(ls[i + 1]) && !(ls[i].len() >= 2 && ls[i].last() == ' '
                && ls[i][ls[i].len() - 2] == ' ');
            &&& needs ==> prepared(ls, i) == ls[i].push(' ').push(' ')
            &&& !needs ==> prepared(ls, i) == ls[i]
        }),
{
    let ls = lines_of(text);
    lemma_fenced_is_odd(ls, i);
    crate::text::law_nothing_is_left_of_blank_text(ls[i]);
    if i + 1 < ls.len() {
        crate::text::law_nothing_is_left_of_blank_text(ls[i + 1]);
    }
    reveal_strlit("  ");
    let l = ls[i];
    assert(l + "  "@ =~= l.push(' ').push(' '));
    if l.len() >= 2 {
        let e = l.subrange(l.len() - 2, l.len() as int);
        assert(e[0] == l[l.len() - 2] && e[1] == l.last());
        if l.last() == ' ' && l[l.len() - 2] == ' ' {
            assert(e =~= "  "@);
        }
    }
}

proof fn lemma_fenced_is_odd(ls: Seq<Seq<char>>, n: int)
    requires
        0 <= n <= ls.len(),
    ensures
        fenced(ls, n) == (fences_before(ls, n) % 2 == 1),
    decreases n,
{
    if n > 0 {
        lemma_fenced_is_odd(ls, n - 1);
    }
}

/// A fence is three backticks, with nothing but white space before them.
pub proof fn law_a_fence_is_three_backticks(space: Seq<char>, rest: Seq<char>)
    requires
        forall|k: int| 0 <= k < space.len() ==> is_space(#[trigger] space[k]),
    ensures
        is_fence(space + "```"@ + rest),
        rest.len() > 0 && !is_space(rest[0]) && rest[0] != '`' ==> !is_fence(space + rest),
    decreases space.len(),
{
    reveal_strlit("```");
    let (a, b) = (space + "```"@ + rest, space + rest);
    if space.len() > 0 {
        let t = space.drop_first();
        assert forall|k: int| 0 <= k < t.len() implies is_space(#[trigger] t[k]) by {
            assert(t[k] == space[k + 1]);
        }
        law_a_fence_is_three_backticks(t, rest);
        assert(a[0] == space[0] && b[0] == space[0]);
        assert(a.drop_first() =~= t + "```"@ + rest);
        assert(b.drop_first() =~= t + rest);
    } else {
        assert(a =~= "```"@ + rest);
        assert(b =~= rest);
        assert(a[0] == '`');
        assert(!is_space('`'));
        assert(a.subrange(0, 3) =~= "```"@);
        if rest.len() >= 3 && rest[0] != '`' {
            assert(rest.subrange(0, 3)[0] == rest[0]);
        }
    }
}

} // verus!
