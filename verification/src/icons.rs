//! Glyph sets, in three tiers.
//!
//! Every codepoint here was verified against FiraCode Nerd Font with fontTools
//! rather than taken from a cheat sheet -- which is how `▾` U+25BE, `▸` U+25B8
//! and `⊘` U+2298 turned out to be **absent** from that font despite looking like
//! safe box-drawing characters. macOS silently font-fallbacks them, so they
//! rendered at the wrong width. They are not used anywhere.
//!
//! Note that `✗` U+2717, `✘` U+2718 and `⊗` U+2297 are also missing, so there is
//! no pure-Unicode cross available; the unicode tier uses `×` U+00D7.
//!
//! **The spinner is braille.** FiraCode Nerd Font contains no braille at all, so
//! `⠋⠙⠹` is font-fallbacked by macOS to Apple Braille, whose advance measures
//! 1.111 cells. An advance is what the *font* asks for; a terminal lays out its
//! own fixed grid and snaps the glyph into one cell regardless, so the marker
//! column does not move. Measure the font, but verify against the terminal.
//!
//! The tier comes from the config file or `DEXTUI_ICONS`; `config` owns that
//! precedence. The default is `unicode`, because a Nerd Font cannot be reliably
//! detected at runtime and guessing wrong yields a screen full of tofu.

use vstd::prelude::*;

verus! {

#[derive(Debug, Clone, Copy, PartialEq, Eq, Structural)]
pub enum Tier {
    Nerd,
    Unicode,
    Ascii,
}

#[derive(Debug, Clone, Copy)]
pub struct Icons {
    pub tier: Tier,
    // Tree structure
    pub expanded: &'static str,
    pub collapsed: &'static str,
    pub leaf: &'static str,
    // Task state
    pub pending: &'static str,
    /// The still marker for in-progress work: used wherever the state has to be
    /// named rather than watched -- the header counts, the help, the legend --
    /// and as the resting frame when `animate` is off.
    pub active: &'static str,
    /// The rotation, one glyph per frame. Every frame must measure exactly one
    /// cell in the tier's font, or the marker column shifts as it turns.
    pub spin: &'static [&'static str],
    pub done: &'static str,
    pub blocked: &'static str,
    // Header
    pub app: &'static str,
    pub project: &'static str,
    /// The selected row's left-margin rail. A reserved column on every row,
    /// painted only on the selected one.
    pub gutter: &'static str,
    // Meter
    pub meter: Meter,
}

/// The inline progress meter's glyph table.
///
/// The cell arithmetic is shared across every tier; only this table and whether
/// `partial` is populated differ. Each run is `[left cap, middle, right cap]`,
/// indexed by the cell's position in the bar, so a tier that draws a real
/// capped bar (nerd) and one that stamps the same block seven times (unicode,
/// ascii) go through identical code.
#[derive(Debug, Clone, Copy)]
pub struct Meter {
    pub done: [&'static str; 3],
    pub active: [&'static str; 3],
    pub empty: [&'static str; 3],
    /// Left-aligned fractions, 1/8 .. 7/8, indexed `partial[eighths - 1]`.
    /// Empty in tiers that have no sub-cell glyphs, which makes the bar snap to
    /// whole cells there. A capped tier must leave this empty -- a fraction on
    /// the last cell would eat the right cap.
    pub partial: &'static [&'static str],
}

/// What a meter's table holds.
pub ghost struct MeterView {
    pub done: Seq<Seq<char>>,
    pub active: Seq<Seq<char>>,
    pub empty: Seq<Seq<char>>,
    pub partial: Seq<Seq<char>>,
}

/// What a glyph set holds.
pub ghost struct IconsView {
    pub tier: Tier,
    pub expanded: Seq<char>,
    pub collapsed: Seq<char>,
    pub leaf: Seq<char>,
    pub pending: Seq<char>,
    pub active: Seq<char>,
    pub spin: Seq<Seq<char>>,
    pub done: Seq<char>,
    pub blocked: Seq<char>,
    pub app: Seq<char>,
    pub project: Seq<char>,
    pub gutter: Seq<char>,
    pub meter: MeterView,
}

/// The glyphs behind a table.
pub open spec fn glyphs(s: Seq<&'static str>) -> Seq<Seq<char>> {
    s.map_values(|g: &'static str| g@)
}

impl View for Meter {
    type V = MeterView;

    open spec fn view(&self) -> MeterView {
        MeterView {
            done: glyphs(self.done@),
            active: glyphs(self.active@),
            empty: glyphs(self.empty@),
            partial: glyphs(self.partial@),
        }
    }
}

impl View for Icons {
    type V = IconsView;

    open spec fn view(&self) -> IconsView {
        IconsView {
            tier: self.tier,
            expanded: self.expanded@,
            collapsed: self.collapsed@,
            leaf: self.leaf@,
            pending: self.pending@,
            active: self.active@,
            spin: glyphs(self.spin@),
            done: self.done@,
            blocked: self.blocked@,
            app: self.app@,
            project: self.project@,
            gutter: self.gutter@,
            meter: self.meter@,
        }
    }
}

/// The braille "dots" rotation, as `cli-spinners` defines it and therefore what
/// ora, yarn and npm all show. One frame per [`crate::pulse::FRAME`].
pub open spec fn braille_spin() -> Seq<Seq<char>> {
    seq!["\u{280b}"@, "\u{2819}"@, "\u{2839}"@, "\u{2838}"@, "\u{283c}"@, "\u{2834}"@, "\u{2826}"@, "\u{2827}"@, "\u{2807}"@, "\u{280f}"@]
}

/// A growing dot, not the classic `-\|/` rotation.
///
/// This tier's structural vocabulary already owns most of that set: `-` is
/// `expanded`, `|` is the selection `gutter`, `.` is `pending` and `>` is the
/// still `active`. `*` `o` `O` collide with nothing, and swelling reads as
/// motion just as clearly as turning does.
pub open spec fn ascii_spin() -> Seq<Seq<char>> {
    seq!["*"@, "o"@, "O"@]
}

/// The glyph set of each tier.
pub open spec fn table(tier: Tier) -> IconsView {
    match tier {
        Tier::Nerd => IconsView {
            tier: Tier::Nerd,
            expanded: "\u{f078}"@,
            collapsed: "\u{f054}"@,
            leaf: " "@,
            pending: "\u{f070c}"@,
            active: "\u{f04b}"@,
            spin: braille_spin(),
            done: "\u{f070b}"@,
            blocked: "\u{f05e}"@,
            app: "\u{f0ae}"@,
            project: "\u{f07b}"@,
            gutter: "\u{2503}"@,
            meter: MeterView {
                done: seq!["\u{ee03}"@, "\u{ee04}"@, "\u{ee05}"@],
                active: seq!["\u{ee03}"@, "\u{ee04}"@, "\u{ee05}"@],
                empty: seq!["\u{ee00}"@, "\u{ee01}"@, "\u{ee02}"@],
                partial: Seq::empty(),
            },
        },
        Tier::Unicode => IconsView {
            tier: Tier::Unicode,
            expanded: "\u{25bc}"@,
            collapsed: "\u{25b6}"@,
            leaf: " "@,
            pending: "\u{25c7}"@,
            active: "\u{25ba}"@,
            spin: braille_spin(),
            done: "\u{25c6}"@,
            blocked: "\u{00d7}"@,
            app: ""@,
            project: ""@,
            gutter: "\u{2503}"@,
            meter: MeterView {
                done: seq!["\u{2588}"@, "\u{2588}"@, "\u{2588}"@],
                active: seq!["\u{2588}"@, "\u{2588}"@, "\u{2588}"@],
                empty: seq!["\u{2591}"@, "\u{2591}"@, "\u{2591}"@],
                partial: seq!["\u{258f}"@, "\u{258e}"@, "\u{258d}"@, "\u{258c}"@, "\u{258b}"@, "\u{258a}"@, "\u{2589}"@],
            },
        },
        Tier::Ascii => IconsView {
            tier: Tier::Ascii,
            expanded: "-"@,
            collapsed: "+"@,
            leaf: " "@,
            pending: "."@,
            active: ">"@,
            spin: ascii_spin(),
            done: "x"@,
            blocked: "!"@,
            app: ""@,
            project: ""@,
            gutter: "|"@,
            meter: MeterView {
                done: seq!["#"@, "#"@, "#"@],
                active: seq!["+"@, "+"@, "+"@],
                empty: seq!["."@, "."@, "."@],
                partial: Seq::empty(),
            },
        },
    }
}

/// Nerd Font: chevrons and Font Awesome state icons.
pub fn nerd() -> (r: Icons)
    ensures
        r@ == table(Tier::Nerd),
{
    let r = Icons {
        tier: Tier::Nerd,
        // fa chevron-down
        expanded: "\u{f078}",
        // fa chevron-right
        collapsed: "\u{f054}",
        leaf: " ",
        // md-rhombus_outline
        pending: "\u{f070c}",
        // fa-play
        active: "\u{f04b}",
        spin: &["\u{280b}", "\u{2819}", "\u{2839}", "\u{2838}", "\u{283c}", "\u{2834}", "\u{2826}", "\u{2827}", "\u{2807}", "\u{280f}"],
        // md-rhombus
        done: "\u{f070b}",
        // fa-ban
        blocked: "\u{f05e}",
        // fa tasks
        app: "\u{f0ae}",
        // fa folder
        project: "\u{f07b}",
        // ┃ -- not `│`, which is both the pane border and the indent guide
        gutter: "\u{2503}",
        meter: Meter {
            done: ["\u{ee03}", "\u{ee04}", "\u{ee05}"],
            active: ["\u{ee03}", "\u{ee04}", "\u{ee05}"],
            empty: ["\u{ee00}", "\u{ee01}", "\u{ee02}"],
            partial: &[],
        },
    };
    proof {
        let want = table(Tier::Nerd);
        assert(r@.spin =~= want.spin);
        assert(r@.meter.done =~= want.meter.done);
        assert(r@.meter.active =~= want.meter.active);
        assert(r@.meter.empty =~= want.meter.empty);
        assert(r@.meter.partial =~= want.meter.partial);
    }
    r
}

/// Plain Unicode, verified present in FiraCode Nerd Font.
pub fn unicode() -> (r: Icons)
    ensures
        r@ == table(Tier::Unicode),
{
    let r = Icons {
        tier: Tier::Unicode,
        // ▼
        expanded: "\u{25bc}",
        // ▶
        collapsed: "\u{25b6}",
        leaf: " ",
        // ◇
        pending: "\u{25c7}",
        // ► -- not ▶ U+25B6, which is `collapsed`
        active: "\u{25ba}",
        spin: &["\u{280b}", "\u{2819}", "\u{2839}", "\u{2838}", "\u{283c}", "\u{2834}", "\u{2826}", "\u{2827}", "\u{2807}", "\u{280f}"],
        // ◆
        done: "\u{25c6}",
        // × -- ✗ and ⊗ are unavailable
        blocked: "\u{00d7}",
        app: "",
        project: "",
        // ┃
        gutter: "\u{2503}",
        meter: Meter {
            done: ["\u{2588}", "\u{2588}", "\u{2588}"],
            active: ["\u{2588}", "\u{2588}", "\u{2588}"],
            empty: ["\u{2591}", "\u{2591}", "\u{2591}"],
            partial: &["\u{258f}", "\u{258e}", "\u{258d}", "\u{258c}", "\u{258b}", "\u{258a}", "\u{2589}"],
        },
    };
    proof {
        let want = table(Tier::Unicode);
        assert(r@.spin =~= want.spin);
        assert(r@.meter.done =~= want.meter.done);
        assert(r@.meter.active =~= want.meter.active);
        assert(r@.meter.empty =~= want.meter.empty);
        assert(r@.meter.partial =~= want.meter.partial);
    }
    r
}

/// Nothing above 7-bit. For terminals or fonts where the rest cannot be trusted.
pub fn ascii() -> (r: Icons)
    ensures
        r@ == table(Tier::Ascii),
{
    let r = Icons {
        tier: Tier::Ascii,
        expanded: "-",
        collapsed: "+",
        leaf: " ",
        pending: ".",
        active: ">",
        spin: &["*", "o", "O"],
        done: "x",
        blocked: "!",
        app: "",
        project: "",
        gutter: "|",
        meter: Meter {
            done: ["#", "#", "#"],
            active: ["+", "+", "+"],
            empty: [".", ".", "."],
            partial: &[],
        },
    };
    proof {
        let want = table(Tier::Ascii);
        assert(r@.spin =~= want.spin);
        assert(r@.meter.done =~= want.meter.done);
        assert(r@.meter.active =~= want.meter.active);
        assert(r@.meter.empty =~= want.meter.empty);
        assert(r@.meter.partial =~= want.meter.partial);
    }
    r
}

/// The glyph in front of a row's name.
pub open spec fn marker_of(ic: IconsView, has_children: bool, is_open: bool) -> Seq<char> {
    if !has_children {
        ic.leaf
    } else if is_open {
        ic.expanded
    } else {
        ic.collapsed
    }
}

impl Icons {
    pub fn marker(&self, has_children: bool, is_open: bool) -> (r: &'static str)
        ensures
            r@ == marker_of(self@, has_children, is_open),
    {
        if !has_children {
            self.leaf
        } else if is_open {
            self.expanded
        } else {
            self.collapsed
        }
    }
}

/// Every glyph set, fullest first.
pub fn all() -> (r: [Icons; 3])
    ensures
        r@[0]@ == table(Tier::Nerd),
        r@[1]@ == table(Tier::Unicode),
        r@[2]@ == table(Tier::Ascii),
{
    [nerd(), unicode(), ascii()]
}

/// What a tier is called.
pub open spec fn tier_name(tier: Tier) -> Seq<char> {
    match tier {
        Tier::Nerd => "nerd"@,
        Tier::Unicode => "unicode"@,
        Tier::Ascii => "ascii"@,
    }
}

pub fn name(tier: Tier) -> (r: &'static str)
    ensures
        r@ == tier_name(tier),
{
    match tier {
        Tier::Nerd => "nerd",
        Tier::Unicode => "unicode",
        Tier::Ascii => "ascii",
    }
}

/// What a tier is for.
pub open spec fn tier_about(tier: Tier) -> Seq<char> {
    match tier {
        Tier::Nerd => "Nerd Font icons (needs a patched font)"@,
        Tier::Unicode => "plain Unicode; works in any modern font"@,
        Tier::Ascii => "7-bit only; for anywhere else"@,
    }
}

pub fn about(tier: Tier) -> (r: &'static str)
    ensures
        r@ == tier_about(tier),
{
    match tier {
        Tier::Nerd => "Nerd Font icons (needs a patched font)",
        Tier::Unicode => "plain Unicode; works in any modern font",
        Tier::Ascii => "7-bit only; for anywhere else",
    }
}

// ---------------------------------------------------------------------------
// What the tables promise
// ---------------------------------------------------------------------------

/// The glyphs of the four states.
pub open spec fn states(ic: IconsView) -> Seq<Seq<char>> {
    seq![ic.pending, ic.active, ic.done, ic.blocked]
}

proof fn lemma_glyphs()
    ensures
        ""@ == Seq::<char>::empty(),
        " "@ == seq![' '],
        "!"@ == seq!['!'],
        "#"@ == seq!['#'],
        "*"@ == seq!['*'],
        "+"@ == seq!['+'],
        "-"@ == seq!['-'],
        "."@ == seq!['.'],
        ">"@ == seq!['>'],
        "O"@ == seq!['O'],
        "\u{00d7}"@ == seq!['\u{00d7}'],
        "\u{2503}"@ == seq!['\u{2503}'],
        "\u{2588}"@ == seq!['\u{2588}'],
        "\u{2589}"@ == seq!['\u{2589}'],
        "\u{258a}"@ == seq!['\u{258a}'],
        "\u{258b}"@ == seq!['\u{258b}'],
        "\u{258c}"@ == seq!['\u{258c}'],
        "\u{258d}"@ == seq!['\u{258d}'],
        "\u{258e}"@ == seq!['\u{258e}'],
        "\u{258f}"@ == seq!['\u{258f}'],
        "\u{2591}"@ == seq!['\u{2591}'],
        "\u{25b6}"@ == seq!['\u{25b6}'],
        "\u{25ba}"@ == seq!['\u{25ba}'],
        "\u{25bc}"@ == seq!['\u{25bc}'],
        "\u{25c6}"@ == seq!['\u{25c6}'],
        "\u{25c7}"@ == seq!['\u{25c7}'],
        "\u{2807}"@ == seq!['\u{2807}'],
        "\u{280b}"@ == seq!['\u{280b}'],
        "\u{280f}"@ == seq!['\u{280f}'],
        "\u{2819}"@ == seq!['\u{2819}'],
        "\u{2826}"@ == seq!['\u{2826}'],
        "\u{2827}"@ == seq!['\u{2827}'],
        "\u{2834}"@ == seq!['\u{2834}'],
        "\u{2838}"@ == seq!['\u{2838}'],
        "\u{2839}"@ == seq!['\u{2839}'],
        "\u{283c}"@ == seq!['\u{283c}'],
        "\u{ee00}"@ == seq!['\u{ee00}'],
        "\u{ee01}"@ == seq!['\u{ee01}'],
        "\u{ee02}"@ == seq!['\u{ee02}'],
        "\u{ee03}"@ == seq!['\u{ee03}'],
        "\u{ee04}"@ == seq!['\u{ee04}'],
        "\u{ee05}"@ == seq!['\u{ee05}'],
        "\u{f04b}"@ == seq!['\u{f04b}'],
        "\u{f054}"@ == seq!['\u{f054}'],
        "\u{f05e}"@ == seq!['\u{f05e}'],
        "\u{f070b}"@ == seq!['\u{f070b}'],
        "\u{f070c}"@ == seq!['\u{f070c}'],
        "\u{f078}"@ == seq!['\u{f078}'],
        "\u{f07b}"@ == seq!['\u{f07b}'],
        "\u{f0ae}"@ == seq!['\u{f0ae}'],
        "o"@ == seq!['o'],
        "x"@ == seq!['x'],
        "|"@ == seq!['|'],
{
    reveal_strlit("");
    assert(""@ =~= Seq::<char>::empty());
    reveal_strlit(" ");
    assert(" "@ =~= seq![' ']);
    reveal_strlit("!");
    assert("!"@ =~= seq!['!']);
    reveal_strlit("#");
    assert("#"@ =~= seq!['#']);
    reveal_strlit("*");
    assert("*"@ =~= seq!['*']);
    reveal_strlit("+");
    assert("+"@ =~= seq!['+']);
    reveal_strlit("-");
    assert("-"@ =~= seq!['-']);
    reveal_strlit(".");
    assert("."@ =~= seq!['.']);
    reveal_strlit(">");
    assert(">"@ =~= seq!['>']);
    reveal_strlit("O");
    assert("O"@ =~= seq!['O']);
    reveal_strlit("\u{00d7}");
    assert("\u{00d7}"@ =~= seq!['\u{00d7}']);
    reveal_strlit("\u{2503}");
    assert("\u{2503}"@ =~= seq!['\u{2503}']);
    reveal_strlit("\u{2588}");
    assert("\u{2588}"@ =~= seq!['\u{2588}']);
    reveal_strlit("\u{2589}");
    assert("\u{2589}"@ =~= seq!['\u{2589}']);
    reveal_strlit("\u{258a}");
    assert("\u{258a}"@ =~= seq!['\u{258a}']);
    reveal_strlit("\u{258b}");
    assert("\u{258b}"@ =~= seq!['\u{258b}']);
    reveal_strlit("\u{258c}");
    assert("\u{258c}"@ =~= seq!['\u{258c}']);
    reveal_strlit("\u{258d}");
    assert("\u{258d}"@ =~= seq!['\u{258d}']);
    reveal_strlit("\u{258e}");
    assert("\u{258e}"@ =~= seq!['\u{258e}']);
    reveal_strlit("\u{258f}");
    assert("\u{258f}"@ =~= seq!['\u{258f}']);
    reveal_strlit("\u{2591}");
    assert("\u{2591}"@ =~= seq!['\u{2591}']);
    reveal_strlit("\u{25b6}");
    assert("\u{25b6}"@ =~= seq!['\u{25b6}']);
    reveal_strlit("\u{25ba}");
    assert("\u{25ba}"@ =~= seq!['\u{25ba}']);
    reveal_strlit("\u{25bc}");
    assert("\u{25bc}"@ =~= seq!['\u{25bc}']);
    reveal_strlit("\u{25c6}");
    assert("\u{25c6}"@ =~= seq!['\u{25c6}']);
    reveal_strlit("\u{25c7}");
    assert("\u{25c7}"@ =~= seq!['\u{25c7}']);
    reveal_strlit("\u{2807}");
    assert("\u{2807}"@ =~= seq!['\u{2807}']);
    reveal_strlit("\u{280b}");
    assert("\u{280b}"@ =~= seq!['\u{280b}']);
    reveal_strlit("\u{280f}");
    assert("\u{280f}"@ =~= seq!['\u{280f}']);
    reveal_strlit("\u{2819}");
    assert("\u{2819}"@ =~= seq!['\u{2819}']);
    reveal_strlit("\u{2826}");
    assert("\u{2826}"@ =~= seq!['\u{2826}']);
    reveal_strlit("\u{2827}");
    assert("\u{2827}"@ =~= seq!['\u{2827}']);
    reveal_strlit("\u{2834}");
    assert("\u{2834}"@ =~= seq!['\u{2834}']);
    reveal_strlit("\u{2838}");
    assert("\u{2838}"@ =~= seq!['\u{2838}']);
    reveal_strlit("\u{2839}");
    assert("\u{2839}"@ =~= seq!['\u{2839}']);
    reveal_strlit("\u{283c}");
    assert("\u{283c}"@ =~= seq!['\u{283c}']);
    reveal_strlit("\u{ee00}");
    assert("\u{ee00}"@ =~= seq!['\u{ee00}']);
    reveal_strlit("\u{ee01}");
    assert("\u{ee01}"@ =~= seq!['\u{ee01}']);
    reveal_strlit("\u{ee02}");
    assert("\u{ee02}"@ =~= seq!['\u{ee02}']);
    reveal_strlit("\u{ee03}");
    assert("\u{ee03}"@ =~= seq!['\u{ee03}']);
    reveal_strlit("\u{ee04}");
    assert("\u{ee04}"@ =~= seq!['\u{ee04}']);
    reveal_strlit("\u{ee05}");
    assert("\u{ee05}"@ =~= seq!['\u{ee05}']);
    reveal_strlit("\u{f04b}");
    assert("\u{f04b}"@ =~= seq!['\u{f04b}']);
    reveal_strlit("\u{f054}");
    assert("\u{f054}"@ =~= seq!['\u{f054}']);
    reveal_strlit("\u{f05e}");
    assert("\u{f05e}"@ =~= seq!['\u{f05e}']);
    reveal_strlit("\u{f070b}");
    assert("\u{f070b}"@ =~= seq!['\u{f070b}']);
    reveal_strlit("\u{f070c}");
    assert("\u{f070c}"@ =~= seq!['\u{f070c}']);
    reveal_strlit("\u{f078}");
    assert("\u{f078}"@ =~= seq!['\u{f078}']);
    reveal_strlit("\u{f07b}");
    assert("\u{f07b}"@ =~= seq!['\u{f07b}']);
    reveal_strlit("\u{f0ae}");
    assert("\u{f0ae}"@ =~= seq!['\u{f0ae}']);
    reveal_strlit("o");
    assert("o"@ =~= seq!['o']);
    reveal_strlit("x");
    assert("x"@ =~= seq!['x']);
    reveal_strlit("|");
    assert("|"@ =~= seq!['|']);
}

/// The tree is a column: in every tier each state, tree marker, gutter and
/// frame of the rotation is exactly one character, and no state is blank.
pub proof fn law_every_marker_is_one_character(tier: Tier, i: int)
    ensures
        0 <= i < 4 ==> states(table(tier))[i].len() == 1 && !crate::text::is_space(
            states(table(tier))[i][0],
        ),
        table(tier).expanded.len() == 1,
        table(tier).collapsed.len() == 1,
        table(tier).leaf.len() == 1,
        table(tier).gutter.len() == 1,
        0 <= i < table(tier).spin.len() ==> table(tier).spin[i].len() == 1,
        table(tier).spin.len() >= 2,
{
    lemma_glyphs();
}

/// Within a tier no two states draw the same glyph, and none doubles as a tree
/// marker.
pub proof fn law_states_are_distinguishable(tier: Tier, i: int, j: int)
    requires
        0 <= i < j < 4,
    ensures
        states(table(tier))[i] != states(table(tier))[j],
        states(table(tier))[i] != table(tier).expanded,
        states(table(tier))[i] != table(tier).collapsed,
        states(table(tier))[j] != table(tier).expanded,
        states(table(tier))[j] != table(tier).collapsed,
{
    lemma_glyphs();
    let s = states(table(tier));
    let t = table(tier);
    assert(s[i][0] != s[j][0]);
    assert(s[i][0] != t.expanded[0] && s[i][0] != t.collapsed[0]);
    assert(s[j][0] != t.expanded[0] && s[j][0] != t.collapsed[0]);
}

/// Whether a run of the meter draws its ends differently from its middle.
pub open spec fn capped(run: Seq<Seq<char>>) -> bool {
    run[0] != run[1] || run[1] != run[2]
}

/// A tier whose bar has caps has no fractions: one on the last cell would eat
/// the cap. Where there are fractions there are seven, thinnest first.
pub proof fn law_a_capped_bar_has_no_fractions(tier: Tier, i: int, j: int)
    ensures
        ({
            let m = table(tier).meter;
            &&& capped(m.done) || capped(m.active) || capped(m.empty) ==> m.partial.len() == 0
            &&& m.partial.len() == 0 || m.partial.len() == 7
            &&& 0 <= i < j < m.partial.len() ==> m.partial[i].len() == 1 && m.partial[j].len() == 1
                && (m.partial[j][0] as int) < (m.partial[i][0] as int)
        }),
{
    lemma_glyphs();
}

/// Whether a text is 7-bit.
pub open spec fn seven_bit(s: Seq<char>) -> bool {
    forall|i: int| 0 <= i < s.len() ==> (#[trigger] s[i]) as int <= 127
}

/// Everything the ascii tier draws is 7-bit.
pub proof fn law_the_ascii_tier_stays_seven_bit(i: int)
    ensures
        ({
            let t = table(Tier::Ascii);
            &&& seven_bit(t.expanded) && seven_bit(t.collapsed) && seven_bit(t.leaf)
            &&& seven_bit(t.pending) && seven_bit(t.active) && seven_bit(t.done) && seven_bit(
                t.blocked,
            )
            &&& seven_bit(t.app) && seven_bit(t.project) && seven_bit(t.gutter)
            &&& 0 <= i < t.spin.len() ==> seven_bit(t.spin[i])
            &&& 0 <= i < 3 ==> seven_bit(t.meter.done[i]) && seven_bit(t.meter.active[i])
                && seven_bit(t.meter.empty[i])
            &&& t.meter.partial.len() == 0
        }),
{
    lemma_glyphs();
}

/// A row's marker tells a leaf from a branch, and an open branch from a shut
/// one.
pub proof fn law_the_marker_tells_what_can_be_opened(tier: Tier)
    ensures
        ({
            let ic = table(tier);
            &&& marker_of(ic, false, true) == ic.leaf && marker_of(ic, false, false) == ic.leaf
            &&& marker_of(ic, true, true) == ic.expanded
            &&& marker_of(ic, true, false) == ic.collapsed
            &&& ic.expanded != ic.collapsed
        }),
{
    lemma_glyphs();
    assert(table(tier).expanded[0] != table(tier).collapsed[0]);
}

} // verus!
