//! Starting values, read from `~/.config/dextui/config.toml`.
//!
//! The file is **read-only**: it sets what the app opens with, and the runtime
//! toggles (`w`, `o`, `O`, `f`) affect only the current run. Writing every
//! toggle back would mean turning wrap off for one wide table silently changed
//! your default forever, and would clobber comments in a hand-edited file.
//!
//! Precedence is defaults < file < `DEXTUI_*` environment, so an env var stays
//! useful as a one-off override without editing anything.
//!
//! A missing file is normal and silent. A malformed one is reported and then
//! ignored: refusing to start because of a typo in a preferences file would be
//! a worse failure than running with defaults.

use vstd::prelude::*;

use crate::dex::{absent, answers, join_path, path_under};
use crate::icons::{ascii, nerd, table, unicode, Icons, IconsView, Tier};
use crate::text::{
    after_last, ascii_lowercased, concat, concat3, join, joined, last_piece, lines, lines_of,
    opt_str, opt_text, quote, quoted, same, texts, to_ascii_lowercase, trim, trim_end_matches,
    trim_end_of, trimmed, starts,
};
use crate::tree::{Filter, Sort};

verus! {

/// One file's values, as written: whatever it does not mention is absent.
#[derive(Debug)]
pub struct Raw {
    pub sort: Option<String>,
    pub sort_reversed: Option<bool>,
    pub filter: Option<String>,
    pub wrap: Option<bool>,
    pub icons: Option<String>,
    pub animate: Option<bool>,
    pub single_pane_below: Option<u16>,
    pub split_percent: Option<u16>,
    pub repos_width: Option<u16>,
    pub repos_pane_above: Option<u16>,
    pub repos_open: Option<bool>,
}

/// A file that mentions nothing.
pub open spec fn mentions_nothing(raw: Raw) -> bool {
    raw == (Raw {
        sort: None,
        sort_reversed: None,
        filter: None,
        wrap: None,
        icons: None,
        animate: None,
        single_pane_below: None,
        split_percent: None,
        repos_width: None,
        repos_pane_above: None,
        repos_open: None,
    })
}

impl Default for Raw {
    fn default() -> (r: Self)
        ensures
            mentions_nothing(r),
    {
        Raw {
            sort: None,
            sort_reversed: None,
            filter: None,
            wrap: None,
            icons: None,
            animate: None,
            single_pane_below: None,
            split_percent: None,
            repos_width: None,
            repos_pane_above: None,
            repos_open: None,
        }
    }
}

#[derive(Debug, Clone, Copy)]
pub struct Config {
    pub sort: Sort,
    pub sort_reversed: bool,
    pub filter: Filter,
    pub wrap: bool,
    pub icons: Icons,
    /// Whether in-progress rows spin. Off restores the pre-animation event
    /// loop exactly -- see `pulse::poll_timeout`.
    pub animate: bool,
    /// Terminal width below which only one pane is drawn at a time.
    ///
    /// Two panes below about this need every column for borders and indents and
    /// leave no room for either. `0` never switches, so the split is always
    /// shown; a value above any terminal you use always switches.
    pub single_pane_below: u16,
    /// The tree's share of the space it splits with the detail pane, as a
    /// percentage.
    ///
    /// A percentage rather than a width because both panes hold content that
    /// genuinely wants more room -- task names and prose -- unlike the
    /// sidebar. Of the region the two *share*, so it means the same thing
    /// whether or not the sidebar is on screen.
    pub split_percent: u16,
    /// The repo sidebar's width, in columns.
    ///
    /// Cells rather than a percentage: it holds repo and branch names, so a
    /// share of a wide terminal would be mostly empty space.
    pub repos_width: u16,
    /// Terminal width at or above which the repo pane is drawn as a third pane.
    ///
    /// Three panes need roughly this much before each is worth having.
    ///
    /// `0` means "never *automatically*", not "no repo pane": `1` and `b` still
    /// reach it, and at a width with room for two panes the sidebar takes one
    /// and the detail yields. Not the same as `single_pane_below = 0`, which
    /// really does turn its behaviour off.
    pub repos_pane_above: u16,
    /// Whether the repo sidebar starts shown.
    ///
    /// `false` (the default) behaves exactly as if `b` had already been
    /// pressed: hidden regardless of `repos_pane_above` or terminal width,
    /// which is what the common case -- running `dextui` in a single repo's
    /// root and reading `./.dex` -- wants, since there is nothing for the
    /// sidebar to add there. `true` behaves as if `1` had: shown regardless of
    /// width. `repos_pane_above` still governs whether it fits as a *third*
    /// pane once shown, either way -- this only decides the starting state
    /// `b`/`1` then toggle from.
    pub repos_open: bool,
}

/// What a config says.
pub ghost struct ConfigView {
    pub sort: Sort,
    pub sort_reversed: bool,
    pub filter: Filter,
    pub wrap: bool,
    pub icons: IconsView,
    pub animate: bool,
    pub single_pane_below: u16,
    pub split_percent: u16,
    pub repos_width: u16,
    pub repos_pane_above: u16,
    pub repos_open: bool,
}

impl View for Config {
    type V = ConfigView;

    open spec fn view(&self) -> ConfigView {
        ConfigView {
            sort: self.sort,
            sort_reversed: self.sort_reversed,
            filter: self.filter,
            wrap: self.wrap,
            icons: self.icons@,
            animate: self.animate,
            single_pane_below: self.single_pane_below,
            split_percent: self.split_percent,
            repos_width: self.repos_width,
            repos_pane_above: self.repos_pane_above,
            repos_open: self.repos_open,
        }
    }
}

/// What the app opens with when nothing says otherwise.
pub open spec fn defaults() -> ConfigView {
    ConfigView {
        sort: Sort::Priority,
        sort_reversed: false,
        filter: Filter::Pending,
        wrap: true,
        icons: table(Tier::Unicode),
        animate: true,
        single_pane_below: 80,
        split_percent: 45,
        repos_width: 26,
        repos_pane_above: 110,
        repos_open: false,
    }
}

impl Default for Config {
    fn default() -> (r: Self)
        ensures
            r@ == defaults(),
    {
        Config {
            sort: Sort::Priority,
            sort_reversed: false,
            filter: Filter::Pending,
            wrap: true,
            icons: unicode(),
            animate: true,
            single_pane_below: 80,
            split_percent: 45,
            repos_width: 26,
            repos_pane_above: 110,
            repos_open: false,
        }
    }
}

/// Narrow enough to be useful, wide enough to still show a branch name.
pub const REPOS_WIDTH_MIN: u16 = 12;

// ---------------------------------------------------------------------------
// Values
// ---------------------------------------------------------------------------

/// A value as it is compared: without the space around it, in lower case.
pub open spec fn spelled(v: Seq<char>) -> Seq<char> {
    ascii_lowercased(trimmed(v))
}

/// The order a word names.
pub open spec fn sort_named(v: Seq<char>) -> Option<Sort> {
    let w = spelled(v);
    if w == "priority"@ {
        Some(Sort::Priority)
    } else if w == "updated"@ {
        Some(Sort::Updated)
    } else if w == "created"@ {
        Some(Sort::Created)
    } else if w == "name"@ {
        Some(Sort::Name)
    } else {
        None
    }
}

pub fn parse_sort(v: &str) -> (r: Option<Sort>)
    ensures
        r == sort_named(v@),
{
    let w = to_ascii_lowercase(trim(v));
    if same(w.as_str(), "priority") {
        Some(Sort::Priority)
    } else if same(w.as_str(), "updated") {
        Some(Sort::Updated)
    } else if same(w.as_str(), "created") {
        Some(Sort::Created)
    } else if same(w.as_str(), "name") {
        Some(Sort::Name)
    } else {
        None
    }
}

/// The filter a word names.
pub open spec fn filter_named(v: Seq<char>) -> Option<Filter> {
    let w = spelled(v);
    if w == "pending"@ {
        Some(Filter::Pending)
    } else if w == "active"@ || w == "in-progress"@ || w == "in_progress"@ {
        Some(Filter::InProgress)
    } else if w == "all"@ {
        Some(Filter::All)
    } else {
        None
    }
}

pub fn parse_filter(v: &str) -> (r: Option<Filter>)
    ensures
        r == filter_named(v@),
{
    let w = to_ascii_lowercase(trim(v));
    if same(w.as_str(), "pending") {
        Some(Filter::Pending)
    } else if same(w.as_str(), "active") || same(w.as_str(), "in-progress") || same(
        w.as_str(),
        "in_progress",
    ) {
        Some(Filter::InProgress)
    } else if same(w.as_str(), "all") {
        Some(Filter::All)
    } else {
        None
    }
}

/// The truth value a word names.
pub open spec fn bool_named(v: Seq<char>) -> Option<bool> {
    let w = spelled(v);
    if w == "1"@ || w == "true"@ || w == "yes"@ || w == "on"@ {
        Some(true)
    } else if w == "0"@ || w == "false"@ || w == "no"@ || w == "off"@ {
        Some(false)
    } else {
        None
    }
}

/// Only for the environment layer: TOML already has a real boolean, so a file
/// cannot spell one wrongly. An unrecognised env value is ignored in silence,
/// matching `DEXTUI_ICONS` -- files report their problems, the environment does
/// not, because it is a one-off override rather than something you maintain.
pub fn parse_bool(v: &str) -> (r: Option<bool>)
    ensures
        r == bool_named(v@),
{
    let w = to_ascii_lowercase(trim(v));
    let w = w.as_str();
    if same(w, "1") || same(w, "true") || same(w, "yes") || same(w, "on") {
        Some(true)
    } else if same(w, "0") || same(w, "false") || same(w, "no") || same(w, "off") {
        Some(false)
    } else {
        None
    }
}

/// The tier a word names.
pub open spec fn tier_named(v: Seq<char>) -> Option<Tier> {
    let w = spelled(v);
    if w == "nerd"@ {
        Some(Tier::Nerd)
    } else if w == "unicode"@ {
        Some(Tier::Unicode)
    } else if w == "ascii"@ {
        Some(Tier::Ascii)
    } else {
        None
    }
}

pub fn parse_icons(v: &str) -> (r: Option<Icons>)
    ensures
        match (r, tier_named(v@)) {
            (Some(i), Some(tier)) => i@ == table(tier),
            (None, None) => true,
            _ => false,
        },
{
    let w = to_ascii_lowercase(trim(v));
    if same(w.as_str(), "nerd") {
        Some(nerd())
    } else if same(w.as_str(), "unicode") {
        Some(unicode())
    } else if same(w.as_str(), "ascii") {
        Some(ascii())
    } else {
        None
    }
}

// ---------------------------------------------------------------------------
// Layers
// ---------------------------------------------------------------------------

/// A percentage held to what a drag could reach.
pub open spec fn held_percent(v: int) -> int {
    if v < 20 {
        20
    } else if v > 80 {
        80
    } else {
        v
    }
}

/// One file's values laid over a config. Only what the file mentions, in a
/// spelling that means something, changes; numbers are clamped to what a drag
/// could reach rather than refused.
pub open spec fn overlaid(cfg: ConfigView, raw: Raw) -> ConfigView {
    ConfigView {
        sort: match raw.sort {
            Some(v) => match sort_named(v@) {
                Some(s) => s,
                None => cfg.sort,
            },
            None => cfg.sort,
        },
        filter: match raw.filter {
            Some(v) => match filter_named(v@) {
                Some(f) => f,
                None => cfg.filter,
            },
            None => cfg.filter,
        },
        icons: match raw.icons {
            Some(v) => match tier_named(v@) {
                Some(t) => table(t),
                None => cfg.icons,
            },
            None => cfg.icons,
        },
        sort_reversed: match raw.sort_reversed {
            Some(v) => v,
            None => cfg.sort_reversed,
        },
        wrap: match raw.wrap {
            Some(v) => v,
            None => cfg.wrap,
        },
        animate: match raw.animate {
            Some(v) => v,
            None => cfg.animate,
        },
        single_pane_below: match raw.single_pane_below {
            Some(v) => v,
            None => cfg.single_pane_below,
        },
        split_percent: match raw.split_percent {
            Some(v) => held_percent(v as int) as u16,
            None => cfg.split_percent,
        },
        repos_width: match raw.repos_width {
            Some(v) => if v < REPOS_WIDTH_MIN {
                REPOS_WIDTH_MIN
            } else {
                v
            },
            None => cfg.repos_width,
        },
        repos_pane_above: match raw.repos_pane_above {
            Some(v) => v,
            None => cfg.repos_pane_above,
        },
        repos_open: match raw.repos_open {
            Some(v) => v,
            None => cfg.repos_open,
        },
    }
}

/// What is wrong with one value, when it names nothing.
pub open spec fn complaint(what: Seq<char>, value: Option<String>, known: bool) -> Seq<Seq<char>> {
    match value {
        Some(v) => if known {
            Seq::empty()
        } else {
            seq![what + quoted(v@)]
        },
        None => Seq::empty(),
    }
}

/// What is wrong with a file's values.
pub open spec fn complaints(raw: Raw) -> Seq<Seq<char>> {
    complaint("unknown sort "@, raw.sort, raw.sort is Some && sort_named(raw.sort->0@) is Some)
        + complaint(
        "unknown filter "@,
        raw.filter,
        raw.filter is Some && filter_named(raw.filter->0@) is Some,
    ) + complaint(
        "unknown icons "@,
        raw.icons,
        raw.icons is Some && tier_named(raw.icons->0@) is Some,
    )
}

fn complain(problems: &mut Vec<String>, what: &str, value: &str)
    ensures
        texts(final(problems)@) == texts(old(problems)@) + seq![what@ + quoted(value@)],
{
    let ghost before = problems@;
    problems.push(concat(what, quote(value).as_str()));
    assert(texts(problems@) =~= texts(before) + seq![what@ + quoted(value@)]);
}

fn hold_percent(v: u16) -> (r: u16)
    ensures
        r == held_percent(v as int),
{
    if v < 20 {
        20
    } else if v > 80 {
        80
    } else {
        v
    }
}

fn pick_sort(now: Sort, value: &Option<String>, problems: &mut Vec<String>) -> (r: Sort)
    ensures
        r == (match *value {
            Some(v) => match sort_named(v@) {
                Some(s) => s,
                None => now,
            },
            None => now,
        }),
        texts(final(problems)@) == texts(old(problems)@) + complaint(
            "unknown sort "@,
            *value,
            value is Some && sort_named(value->0@) is Some,
        ),
{
    let ghost said = texts(problems@);
    if let Some(v) = value {
        match parse_sort(v.as_str()) {
            Some(s) => {
                assert(said + Seq::empty() =~= said);
                return s;
            },
            None => complain(problems, "unknown sort ", v.as_str()),
        }
    } else {
        assert(said + Seq::empty() =~= said);
    }
    now
}

fn pick_filter(now: Filter, value: &Option<String>, problems: &mut Vec<String>) -> (r: Filter)
    ensures
        r == (match *value {
            Some(v) => match filter_named(v@) {
                Some(f) => f,
                None => now,
            },
            None => now,
        }),
        texts(final(problems)@) == texts(old(problems)@) + complaint(
            "unknown filter "@,
            *value,
            value is Some && filter_named(value->0@) is Some,
        ),
{
    let ghost said = texts(problems@);
    if let Some(v) = value {
        match parse_filter(v.as_str()) {
            Some(f) => {
                assert(said + Seq::empty() =~= said);
                return f;
            },
            None => complain(problems, "unknown filter ", v.as_str()),
        }
    } else {
        assert(said + Seq::empty() =~= said);
    }
    now
}

fn pick_icons(now: Icons, value: &Option<String>, problems: &mut Vec<String>) -> (r: Icons)
    ensures
        r@ == (match *value {
            Some(v) => match tier_named(v@) {
                Some(t) => table(t),
                None => now@,
            },
            None => now@,
        }),
        texts(final(problems)@) == texts(old(problems)@) + complaint(
            "unknown icons "@,
            *value,
            value is Some && tier_named(value->0@) is Some,
        ),
{
    let ghost said = texts(problems@);
    if let Some(v) = value {
        match parse_icons(v.as_str()) {
            Some(i) => {
                assert(said + Seq::empty() =~= said);
                return i;
            },
            None => complain(problems, "unknown icons ", v.as_str()),
        }
    } else {
        assert(said + Seq::empty() =~= said);
    }
    now
}

/// Applies one file's values over `cfg`, recording anything unrecognised.
///
/// Only keys actually present are applied, so a partial project file overrides
/// exactly what it mentions and leaves the rest of the global file intact.
pub fn apply(cfg: &mut Config, raw: Raw, problems: &mut Vec<String>)
    ensures
        final(cfg)@ == overlaid(old(cfg)@, raw),
        texts(final(problems)@) == texts(old(problems)@) + complaints(raw),
{
    let sort = pick_sort(cfg.sort, &raw.sort, problems);
    let filter = pick_filter(cfg.filter, &raw.filter, problems);
    let icons = pick_icons(cfg.icons, &raw.icons, problems);
    *cfg = Config {
        sort,
        filter,
        icons,
        sort_reversed: raw.sort_reversed.unwrap_or(cfg.sort_reversed),
        wrap: raw.wrap.unwrap_or(cfg.wrap),
        animate: raw.animate.unwrap_or(cfg.animate),
        single_pane_below: raw.single_pane_below.unwrap_or(cfg.single_pane_below),
        // Clamped, not rejected: the same bounds a drag obeys, so a hand-edited
        // 5 or 300 lands where dragging there would rather than failing to start
        // over a number. `Config` is soft everywhere else for the same reason.
        split_percent: match raw.split_percent {
            Some(v) => hold_percent(v),
            None => cfg.split_percent,
        },
        repos_width: match raw.repos_width {
            Some(v) => if v < REPOS_WIDTH_MIN {
                REPOS_WIDTH_MIN
            } else {
                v
            },
            None => cfg.repos_width,
        },
        repos_pane_above: raw.repos_pane_above.unwrap_or(cfg.repos_pane_above),
        repos_open: raw.repos_open.unwrap_or(cfg.repos_open),
    };
    assert(texts(problems@) =~= texts(old(problems)@) + complaints(raw));
}

/// A config file that is there: where it is, and what it decodes to.
pub struct Layer {
    pub path: String,
    pub decoded: Result<Raw, String>,
}

/// The first line of a text, without the space around it.
pub open spec fn opening_line(s: Seq<char>) -> Seq<char> {
    if lines_of(s).len() > 0 {
        trimmed(lines_of(s)[0])
    } else {
        trimmed(s)
    }
}

pub fn first_line(s: &str) -> (r: String)
    ensures
        r@ == opening_line(s@),
{
    let ls = lines(s);
    if ls.len() > 0 {
        assert(texts(ls@)[0] == ls@[0]@);
        trim(ls[0].as_str()).to_owned()
    } else {
        assert(texts(ls@).len() == 0);
        trim(s).to_owned()
    }
}

/// A config with a file laid over it. One that does not decode is treated as
/// absent.
pub open spec fn with_layer(cfg: ConfigView, layer: Option<Layer>) -> ConfigView {
    match layer {
        Some(l) => match l.decoded {
            Ok(raw) => overlaid(cfg, raw),
            Err(_) => cfg,
        },
        None => cfg,
    }
}

/// What is wrong with a file: that it does not decode, or what its values say.
pub open spec fn layer_complaints(layer: Option<Layer>) -> Seq<Seq<char>> {
    match layer {
        Some(l) => match l.decoded {
            Ok(raw) => complaints(raw),
            Err(e) => seq![l.path@ + ": "@ + opening_line(e@)],
        },
        None => Seq::empty(),
    }
}

fn read(cfg: &mut Config, layer: Option<Layer>, problems: &mut Vec<String>)
    ensures
        final(cfg)@ == with_layer(old(cfg)@, layer),
        texts(final(problems)@) == texts(old(problems)@) + layer_complaints(layer),
{
    let ghost said = texts(problems@);
    match layer {
        Some(l) => match l.decoded {
            Ok(raw) => apply(cfg, raw, problems),
            Err(e) => {
                problems.push(concat3(l.path.as_str(), ": ", first_line(e.as_str()).as_str()));
                assert(texts(problems@) =~= said + layer_complaints(layer));
            },
        },
        None => {
            assert(texts(problems@) =~= said + layer_complaints(layer));
        },
    }
}

/// A config with the environment's one-off overrides.
pub open spec fn with_env(
    cfg: ConfigView,
    icons: Option<Seq<char>>,
    animate: Option<Seq<char>>,
) -> ConfigView {
    ConfigView {
        icons: match icons {
            Some(v) => match tier_named(v) {
                Some(t) => table(t),
                None => cfg.icons,
            },
            None => cfg.icons,
        },
        animate: match animate {
            Some(v) => match bool_named(v) {
                Some(b) => b,
                None => cfg.animate,
            },
            None => cfg.animate,
        },
        ..cfg
    }
}

/// Lays the files and the environment over the defaults, returning the config
/// plus anything worth telling the user about.
///
/// Layered defaults < global < project < environment, matching dex's own
/// precedence so the two behave the same way in the same repository. `icons` and
/// `animate` are the values of `DEXTUI_ICONS` and `DEXTUI_ANIMATE`.
///
/// Never fails: an unreadable or invalid file yields the layer beneath it.
pub fn load(
    global: Option<Layer>,
    project: Option<Layer>,
    icons: Option<&str>,
    animate: Option<&str>,
) -> (r: (Config, Option<String>))
    ensures
        r.0@ == with_env(
            with_layer(with_layer(defaults(), global), project),
            opt_str(icons),
            opt_str(animate),
        ),
        opt_text(r.1) == ({
            let said = layer_complaints(global) + layer_complaints(project);
            if said.len() == 0 {
                None
            } else {
                Some(joined(said, "; "@))
            }
        }),
{
    let ghost said = layer_complaints(global) + layer_complaints(project);
    let mut cfg = Config::default();
    let mut problems: Vec<String> = Vec::new();
    assert(texts(problems@) =~= Seq::empty());
    read(&mut cfg, global, &mut problems);
    read(&mut cfg, project, &mut problems);
    assert(texts(problems@) =~= said);

    // Environment last, so it overrides both files for a one-off run.
    if let Some(v) = icons {
        if let Some(i) = parse_icons(v) {
            cfg.icons = i;
        }
    }
    if let Some(v) = animate {
        if let Some(b) = parse_bool(v) {
            cfg.animate = b;
        }
    }
    let problem = if problems.len() == 0 {
        None
    } else {
        Some(join(&problems, "; "))
    };
    (cfg, problem)
}

/// A file that mentions nothing changes nothing, and says nothing.
pub proof fn law_an_empty_layer_changes_nothing(cfg: ConfigView, raw: Raw)
    requires
        mentions_nothing(raw),
    ensures
        overlaid(cfg, raw) == cfg,
        complaints(raw) == Seq::<Seq<char>>::empty(),
{
    assert(complaints(raw) =~= Seq::empty());
}

/// A later file wins wherever it says something, and where it says nothing the
/// earlier one stands.
pub proof fn law_the_later_layer_wins(cfg: ConfigView, first: Raw, second: Raw)
    ensures
        ({
            let both = overlaid(overlaid(cfg, first), second);
            &&& second.wrap matches Some(v) ==> both.wrap == v
            &&& second.wrap is None ==> both.wrap == overlaid(cfg, first).wrap
            &&& second.animate matches Some(v) ==> both.animate == v
            &&& second.animate is None ==> both.animate == overlaid(cfg, first).animate
            &&& second.sort_reversed matches Some(v) ==> both.sort_reversed == v
            &&& second.sort_reversed is None ==> both.sort_reversed == overlaid(
                cfg,
                first,
            ).sort_reversed
            &&& second.repos_open matches Some(v) ==> both.repos_open == v
            &&& second.repos_open is None ==> both.repos_open == overlaid(cfg, first).repos_open
            &&& second.sort matches Some(v) ==> (sort_named(v@) matches Some(s) ==> both.sort == s)
            &&& second.sort is None || sort_named(second.sort->0@) is None ==> both.sort == overlaid(
                cfg,
                first,
            ).sort
            &&& second.filter matches Some(v) ==> (filter_named(v@) matches Some(f) ==> both.filter
                == f)
            &&& second.filter is None || filter_named(second.filter->0@) is None ==> both.filter
                == overlaid(cfg, first).filter
            &&& second.icons matches Some(v) ==> (tier_named(v@) matches Some(t) ==> both.icons
                == table(t))
            &&& second.icons is None || tier_named(second.icons->0@) is None ==> both.icons
                == overlaid(cfg, first).icons
            &&& second.single_pane_below matches Some(v) ==> both.single_pane_below == v
            &&& second.single_pane_below is None ==> both.single_pane_below == overlaid(
                cfg,
                first,
            ).single_pane_below
            &&& second.repos_pane_above matches Some(v) ==> both.repos_pane_above == v
            &&& second.repos_pane_above is None ==> both.repos_pane_above == overlaid(
                cfg,
                first,
            ).repos_pane_above
            &&& second.split_percent is Some ==> both.split_percent == overlaid(
                cfg,
                second,
            ).split_percent
            &&& second.split_percent is None ==> both.split_percent == overlaid(
                cfg,
                first,
            ).split_percent
            &&& second.repos_width is Some ==> both.repos_width == overlaid(cfg, second).repos_width
            &&& second.repos_width is None ==> both.repos_width == overlaid(cfg, first).repos_width
        }),
{
}

/// However a file spells its numbers, the layout stays within what dragging
/// could reach.
pub proof fn law_layout_values_stay_in_bounds(cfg: ConfigView, raw: Raw)
    requires
        20 <= cfg.split_percent <= 80,
        cfg.repos_width >= REPOS_WIDTH_MIN,
    ensures
        20 <= overlaid(cfg, raw).split_percent <= 80,
        overlaid(cfg, raw).repos_width >= REPOS_WIDTH_MIN,
        20 <= defaults().split_percent <= 80,
        defaults().repos_width >= REPOS_WIDTH_MIN,
{
}

// ---------------------------------------------------------------------------
// Where the files are
// ---------------------------------------------------------------------------

/// The directory configuration lives in, given `XDG_CONFIG_HOME` and `HOME`.
pub open spec fn config_home(xdg: Option<Seq<char>>, home: Option<Seq<char>>) -> Option<Seq<char>> {
    if xdg is Some && xdg->0.len() > 0 {
        xdg
    } else {
        match home {
            Some(h) => Some(path_under(h, ".config"@)),
            None => None,
        }
    }
}

/// The directory configuration lives in, given `XDG_CONFIG_HOME` and `HOME`.
pub fn home_of(xdg: Option<&str>, home: Option<&str>) -> (r: Option<String>)
    ensures
        opt_text(r) == config_home(opt_str(xdg), opt_str(home)),
{
    if let Some(x) = xdg {
        if x.unicode_len() > 0 {
            return Some(x.to_owned());
        }
    }
    match home {
        Some(h) => Some(join_path(h, ".config")),
        None => None,
    }
}

/// Where the global config lives.
pub open spec fn global_path(xdg: Option<Seq<char>>, home: Option<Seq<char>>) -> Option<Seq<char>> {
    match config_home(xdg, home) {
        Some(base) => Some(path_under(path_under(base, "dextui"@), "config.toml"@)),
        None => None,
    }
}

/// Where the global config lives, honouring `XDG_CONFIG_HOME` like dex does.
/// Takes the values of `XDG_CONFIG_HOME` and `HOME`.
pub fn path(xdg: Option<&str>, home: Option<&str>) -> (r: Option<String>)
    ensures
        opt_text(r) == global_path(opt_str(xdg), opt_str(home)),
{
    match home_of(xdg, home) {
        Some(base) => Some(join_path(join_path(base.as_str(), "dextui").as_str(), "config.toml")),
        None => None,
    }
}

/// The directory a path is in: nothing above the root, or above an empty path.
pub open spec fn parent_of(p: Seq<char>) -> Option<Seq<char>> {
    let t = trim_end_of(p, '/');
    if t.len() == 0 {
        None
    } else {
        let above = t.take(t.len() - after_last(t, '/').len());
        let h = trim_end_of(above, '/');
        if above.len() > 0 && h.len() == 0 {
            Some("/"@)
        } else {
            Some(h)
        }
    }
}

proof fn lemma_trimmed_is_shorter(p: Seq<char>, c: char)
    ensures
        trim_end_of(p, c).len() <= p.len(),
        trim_end_of(p, c) == p.take(trim_end_of(p, c).len() as int),
        trim_end_of(p, c).len() > 0 ==> trim_end_of(p, c).last() != c,
    decreases p.len(),
{
    if p.len() > 0 && p.last() == c {
        lemma_trimmed_is_shorter(p.drop_last(), c);
        let n = trim_end_of(p.drop_last(), c).len() as int;
        assert(p.drop_last().take(n) =~= p.take(n));
    } else {
        assert(p.take(p.len() as int) =~= p);
    }
}

proof fn lemma_last_piece_length(p: Seq<char>, c: char)
    ensures
        after_last(p, c).len() <= p.len(),
        p.len() > 0 && p.last() != c ==> after_last(p, c).len() > 0,
    decreases p.len(),
{
    if p.len() > 0 && p.last() != c {
        lemma_last_piece_length(p.drop_last(), c);
    }
}

proof fn lemma_parent_is_shorter(p: Seq<char>)
    ensures
        parent_of(p) matches Some(q) ==> q.len() < p.len(),
{
    let t = trim_end_of(p, '/');
    lemma_trimmed_is_shorter(p, '/');
    lemma_last_piece_length(t, '/');
    if t.len() > 0 {
        let above = t.take(t.len() - after_last(t, '/').len());
        lemma_trimmed_is_shorter(above, '/');
        reveal_strlit("/");
    }
}

/// The directory a path is in.
fn parent(p: &str) -> (r: Option<String>)
    ensures
        opt_text(r) == parent_of(p@),
{
    let t = trim_end_matches(p, '/');
    let n: usize = t.unicode_len();
    if n == 0 {
        return None;
    }
    let last = last_piece(t, '/');
    proof {
        lemma_last_piece_length(t@, '/');
    }
    let above = t.substring_char(0, n - last.unicode_len());
    assert(above@ =~= t@.take(t@.len() - after_last(t@, '/').len()));
    let h = trim_end_matches(above, '/');
    if above.unicode_len() > 0 && h.unicode_len() == 0 {
        Some("/".to_owned())
    } else {
        Some(h.to_owned())
    }
}

/// A directory and every one above it, innermost first.
pub open spec fn upward(dir: Seq<char>) -> Seq<Seq<char>>
    decreases dir.len(),
{
    match parent_of(dir) {
        Some(p) => if p.len() < dir.len() {
            seq![dir] + upward(p)
        } else {
            seq![dir]
        },
        None => seq![dir],
    }
}

/// Where the walk up from a directory looks for a repository.
pub open spec fn git_entries(dirs: Seq<Seq<char>>) -> Seq<Seq<char>> {
    dirs.map_values(|d: Seq<char>| path_under(d, ".git"@))
}

/// What the walk comes to: the innermost directory that has a `.git`, or
/// nothing when none does.
pub open spec fn rooted_at<F: Fn(&str) -> bool>(
    dirs: Seq<Seq<char>>,
    exists_at: F,
    found: Option<Seq<char>>,
) -> bool {
    match found {
        Some(d) => exists|i: int|
            0 <= i < dirs.len() && d == dirs[i] && answers(
                exists_at,
                path_under(d, ".git"@),
                true,
            ) && #[trigger] absent(git_entries(dirs), exists_at, i),
        None => absent(git_entries(dirs), exists_at, dirs.len() as int),
    }
}

/// The git root `dir` is in. The root is found by walking up for a `.git` entry
/// rather than shelling out to git: no process spawn, and it also matches
/// worktrees, where `.git` is a file rather than a directory.
fn git_root<F: Fn(&str) -> bool>(dir: &str, exists_at: F) -> (r: Option<String>)
    requires
        forall|s: &str| call_requires(exists_at, (s,)),
    ensures
        rooted_at(upward(dir@), exists_at, opt_text(r)),
{
    let ghost dirs = upward(dir@);
    let ghost entries = git_entries(dirs);
    let mut here = dir.to_owned();
    let ghost mut i: int = 0;
    assert(dirs.skip(0) =~= dirs);
    loop
        invariant
            forall|s: &str| call_requires(exists_at, (s,)),
            dirs == upward(dir@),
            entries == git_entries(dirs),
            0 <= i < dirs.len(),
            upward(here@) == dirs.skip(i),
            absent(entries, exists_at, i),
        decreases here@.len(),
    {
        proof {
            lemma_parent_is_shorter(here@);
            assert(dirs.skip(i)[0] == here@);
        }
        let at = join_path(here.as_str(), ".git");
        assert(entries[i] == at@);
        let there = exists_at(at.as_str());
        assert(answers(exists_at, at@, there));
        if there {
            return Some(here);
        }
        assert(absent(entries, exists_at, i + 1));
        match parent(here.as_str()) {
            Some(up) => {
                proof {
                    assert(upward(up@) =~= dirs.skip(i).skip(1));
                    assert(dirs.skip(i).skip(1) =~= dirs.skip(i + 1));
                    assert(upward(up@).len() >= 1);
                    i = i + 1;
                }
                here = up;
            },
            None => {
                assert(dirs.skip(i).len() == 1);
                return None;
            },
        }
    }
}

/// The per-project file, `.dextui.toml` at the git root.
///
/// Mirrors how dex layers `.dex/config.toml` over its global file, so "in this
/// repo, start unwrapped" is expressible. `dir` is the working directory, and
/// `exists_at` says whether anything is at a path.
pub fn project_path<F: Fn(&str) -> bool>(dir: &str, exists_at: F) -> (r: Option<String>)
    requires
        forall|s: &str| call_requires(exists_at, (s,)),
    ensures
        exists|root: Option<Seq<char>>| #[trigger]
            rooted_at(upward(dir@), exists_at, root) && opt_text(r) == (match root {
                Some(d) => Some(path_under(d, ".dextui.toml"@)),
                None => None,
            }),
{
    let root = git_root(dir, exists_at);
    let ghost seen = opt_text(root);
    assert(rooted_at(upward(dir@), exists_at, seen));
    match root {
        Some(d) => Some(join_path(d.as_str(), ".dextui.toml")),
        None => None,
    }
}

/// Which file a command acts on.
#[derive(Debug, Clone, Copy, PartialEq, Eq, Structural)]
pub enum Scope {
    Global,
    Project,
}

/// Why a scope has no file.
pub open spec fn no_target(scope: Scope) -> Seq<char> {
    match scope {
        Scope::Global => "could not resolve a config path (is HOME set?)"@,
        Scope::Project => "not inside a git repository, so there is no project config"@,
    }
}

/// The file of a scope, given where the global and the project file are.
pub fn target(scope: Scope, global: Option<String>, project: Option<String>) -> (r: Result<
    String,
    String,
>)
    ensures
        ({
            let at = match scope {
                Scope::Global => global,
                Scope::Project => project,
            };
            match at {
                Some(p) => r == Ok::<String, String>(p),
                None => r is Err && r->Err_0@ == no_target(scope),
            }
        }),
{
    match scope {
        Scope::Global => match global {
            Some(p) => Ok(p),
            None => Err("could not resolve a config path (is HOME set?)".to_owned()),
        },
        Scope::Project => match project {
            Some(p) => Ok(p),
            None => Err("not inside a git repository, so there is no project config".to_owned()),
        },
    }
}

/// The template of each scope.
pub open spec fn template_of(scope: Scope) -> Seq<char> {
    match scope {
        Scope::Global => EXAMPLE@,
        Scope::Project => PROJECT_EXAMPLE@,
    }
}

/// What creating the config file writes, given where it goes and whether
/// something is there already.
///
/// Refuses to overwrite: a preferences file is the sort of thing people edit and
/// then forget about, and silently replacing one would be the worst outcome of a
/// command whose whole job is convenience.
pub fn init(scope: Scope, path: &str, present: bool, force: bool) -> (r: Result<
    &'static str,
    String,
>)
    ensures
        r is Err <==> present && !force,
        r matches Ok(t) ==> t@ == template_of(scope),
        r matches Err(e) ==> e@ == path@ + " already exists; pass --force to overwrite it"@,
{
    if present && !force {
        return Err(concat(path, " already exists; pass --force to overwrite it"));
    }
    Ok(
        match scope {
            Scope::Global => EXAMPLE,
            Scope::Project => PROJECT_EXAMPLE,
        },
    )
}

/// What to write before a file can be opened in an editor: the template on
/// first use, so `,` works before any config has been written.
pub fn path_for_editing(scope: Scope, present: bool) -> (r: Option<&'static str>)
    ensures
        opt_str(r) == (if present {
            None
        } else {
            Some(template_of(scope))
        }),
{
    if present {
        None
    } else {
        Some(
            match scope {
                Scope::Global => EXAMPLE,
                Scope::Project => PROJECT_EXAMPLE,
            },
        )
    }
}

/// Printed by `config` and written by `config init`, so there is something to
/// start from rather than invent.
pub const EXAMPLE: &'static str = r#"# Starting values only. w / o / O / f still toggle freely at runtime; nothing
# is written back, so this file stays exactly as you left it.
#
# Layered defaults < global < project < environment:
#   global   ~/.config/dextui/config.toml
#   project  .dextui.toml at the git root
# A project file need only mention what it changes.

# priority | updated | created | name
sort = "priority"

# Flips the order's natural direction: newest->oldest, updated->stalest.
sort_reversed = false

# pending | active | all
filter = "pending"

# Wrap long lines in the detail pane. Turn off to scroll wide tables sideways.
wrap = true

# nerd | unicode | ascii   (DEXTUI_ICONS overrides this for one run)
icons = "unicode"

# Breathe the marker on in-progress tasks. Costs nothing while nothing is
# running.  (DEXTUI_ANIMATE overrides this for one run)
animate = true

# Below this terminal width, show one pane at a time instead of squeezing both:
# Enter or Right opens the detail full-width, Left or Tab goes back. Two panes
# narrower than this leave no room for either.  0 always splits.
single_pane_below = 80

# At or above this terminal width, show the repo pane as a third pane alongside
# the tree and detail panes.  0 never shows it.
repos_pane_above = 110

# Whether the repo pane starts shown, regardless of repos_pane_above or
# terminal width -- false is exactly as if b had already been pressed, true as
# if 1 had. b / 1 still toggle it freely at runtime either way. Most sessions
# are one repo read from its own directory, where the sidebar has nothing to
# add, hence false.
repos_open = false

# The task tree's share of the space it splits with the detail pane, as a
# percentage of that space -- so it means the same thing with or without the
# repo pane. Drag the divider to change it for one run; 20-80.
split_percent = 45

# The repo pane's width in columns. Columns rather than a percentage: it holds
# repo and branch names, so a share of a wide terminal is mostly empty space.
# Drag its edge to change it for one run.
repos_width = 26
"#;

/// The project template is deliberately near-empty: a project file exists to
/// override a handful of things, and a full copy would silently pin every
/// setting against later changes to the global file.
pub const PROJECT_EXAMPLE: &'static str = r#"# .dextui.toml — settings for this repository only.
#
# Layered over ~/.config/dextui/config.toml, so mention only what differs.
# Anything left out falls through to the global file. See `dextui --config`.

# wrap = false          # this repo's descriptions have wide tables
# sort = "updated"      # priority | updated | created | name
# sort_reversed = false
# filter = "pending"    # pending | active | all
# icons = "unicode"     # nerd | unicode | ascii
# animate = false       # no pulse on in-progress rows in this repo
"#;

/// What the environment names it decides, whatever the files say, and what it
/// does not name it leaves alone.
pub proof fn law_the_environment_wins(
    cfg: ConfigView,
    icons: Option<Seq<char>>,
    animate: Option<Seq<char>>,
)
    ensures
        ({
            let r = with_env(cfg, icons, animate);
            &&& icons is Some && tier_named(icons->0) is Some ==> r.icons == table(
                tier_named(icons->0)->0,
            )
            &&& animate is Some && bool_named(animate->0) is Some ==> r.animate == bool_named(
                animate->0,
            )->0
            &&& icons is None && animate is None ==> r == cfg
            &&& r == (ConfigView { icons: r.icons, animate: r.animate, ..cfg })
        }),
{
}

/// A number within bounds is taken as it is, and one beyond them as the nearer
/// bound.
pub proof fn law_numbers_within_bounds_are_taken_as_they_are(cfg: ConfigView, raw: Raw)
    ensures
        raw.split_percent matches Some(v) ==> {
            &&& 20 <= v <= 80 ==> overlaid(cfg, raw).split_percent == v
            &&& v < 20 ==> overlaid(cfg, raw).split_percent == 20
            &&& v > 80 ==> overlaid(cfg, raw).split_percent == 80
        },
        raw.repos_width matches Some(v) ==> {
            &&& v >= 12 ==> overlaid(cfg, raw).repos_width == v
            &&& v < 12 ==> overlaid(cfg, raw).repos_width == 12
        },
        raw.single_pane_below matches Some(v) ==> overlaid(cfg, raw).single_pane_below == v,
        raw.repos_pane_above matches Some(v) ==> overlaid(cfg, raw).repos_pane_above == v,
        raw.wrap matches Some(v) ==> overlaid(cfg, raw).wrap == v,
        raw.animate matches Some(v) ==> overlaid(cfg, raw).animate == v,
        raw.sort_reversed matches Some(v) ==> overlaid(cfg, raw).sort_reversed == v,
        raw.repos_open matches Some(v) ==> overlaid(cfg, raw).repos_open == v,
{
}

/// Which words a setting knows, in any case and with any space around them; each
/// names one thing, and nothing else names any.
pub proof fn law_the_words_a_setting_knows(v: Seq<char>)
    ensures
        ({
            let w = ascii_lowercased(trimmed(v));
            &&& sort_named(v) == Some(Sort::Priority) <==> w == "priority"@
            &&& sort_named(v) == Some(Sort::Updated) <==> w == "updated"@
            &&& sort_named(v) == Some(Sort::Created) <==> w == "created"@
            &&& sort_named(v) == Some(Sort::Name) <==> w == "name"@
            &&& filter_named(v) == Some(Filter::Pending) <==> w == "pending"@
            &&& filter_named(v) == Some(Filter::InProgress) <==> w == "active"@ || w
                == "in-progress"@ || w == "in_progress"@
            &&& filter_named(v) == Some(Filter::All) <==> w == "all"@
            &&& tier_named(v) == Some(Tier::Nerd) <==> w == "nerd"@
            &&& tier_named(v) == Some(Tier::Unicode) <==> w == "unicode"@
            &&& tier_named(v) == Some(Tier::Ascii) <==> w == "ascii"@
            &&& bool_named(v) == Some(true) <==> w == "1"@ || w == "true"@ || w == "yes"@ || w
                == "on"@
            &&& bool_named(v) == Some(false) <==> w == "0"@ || w == "false"@ || w == "no"@ || w
                == "off"@
        }),
{
    reveal_strlit("priority");
    reveal_strlit("updated");
    reveal_strlit("created");
    reveal_strlit("name");
    reveal_strlit("pending");
    reveal_strlit("active");
    reveal_strlit("in-progress");
    reveal_strlit("in_progress");
    reveal_strlit("all");
    reveal_strlit("nerd");
    reveal_strlit("unicode");
    reveal_strlit("ascii");
    reveal_strlit("1");
    reveal_strlit("0");
    reveal_strlit("true");
    reveal_strlit("false");
    reveal_strlit("yes");
    reveal_strlit("no");
    reveal_strlit("on");
    reveal_strlit("off");
    assert("priority"@.len() == 8 && "updated"@.len() == 7 && "created"@.len() == 7
        && "name"@.len() == 4);
    assert("updated"@[0] == 'u' && "created"@[0] == 'c');
    assert("pending"@.len() == 7 && "active"@.len() == 6 && "in-progress"@.len() == 11
        && "in_progress"@.len() == 11 && "all"@.len() == 3);
    assert("nerd"@.len() == 4 && "unicode"@.len() == 7 && "ascii"@.len() == 5);
    assert("1"@[0] == '1' && "0"@[0] == '0');
    assert("yes"@[0] == 'y' && "off"@[0] == 'o' && "on"@[1] == 'n' && "no"@[1] == 'o');
    assert("true"@.len() == 4 && "false"@.len() == 5 && "yes"@.len() == 3 && "off"@.len() == 3);
    assert("on"@.len() == 2 && "no"@.len() == 2 && "1"@.len() == 1 && "0"@.len() == 1);
}

/// A value that is not known is complained of, once and in its own words, and
/// leaves the setting as it was; one that is known, or not given, is not.
pub proof fn law_an_unknown_value_is_complained_of_once(cfg: ConfigView, raw: Raw)
    ensures
        ({
            let bad_sort = raw.sort is Some && sort_named(raw.sort->0@) is None;
            let bad_filter = raw.filter is Some && filter_named(raw.filter->0@) is None;
            let bad_icons = raw.icons is Some && tier_named(raw.icons->0@) is None;
            &&& complaints(raw).len() == (if bad_sort {
                1int
            } else {
                0
            }) + (if bad_filter {
                1int
            } else {
                0
            }) + (if bad_icons {
                1int
            } else {
                0
            })
            &&& bad_sort ==> complaints(raw)[0] == "unknown sort "@ + quoted(raw.sort->0@)
                && overlaid(cfg, raw).sort == cfg.sort
            &&& bad_icons ==> complaints(raw).last() == "unknown icons "@ + quoted(raw.icons->0@)
                && overlaid(cfg, raw).icons == cfg.icons
            &&& bad_filter && !bad_sort ==> complaints(raw)[0] == "unknown filter "@ + quoted(
                raw.filter->0@,
            )
            &&& bad_filter ==> overlaid(cfg, raw).filter == cfg.filter
        }),
{
}

/// The files are laid one over the other, the project's over the global one's,
/// and a file that cannot be read changes nothing but is complained of by name.
pub proof fn law_the_project_file_lies_over_the_global_one(cfg: ConfigView, layer: Layer, raw: Raw)
    ensures
        with_layer(cfg, None) == cfg,
        layer.decoded == Ok::<Raw, String>(raw) ==> with_layer(cfg, Some(layer)) == overlaid(
            cfg,
            raw,
        ) && layer_complaints(Some(layer)) == complaints(raw),
        layer.decoded is Err ==> with_layer(cfg, Some(layer)) == cfg && layer_complaints(
            Some(layer),
        ).len() == 1 && starts(layer_complaints(Some(layer))[0], layer.path@),
{
    if layer.decoded is Err {
        let c = layer_complaints(Some(layer))[0];
        assert(c.subrange(0, layer.path@.len() as int) =~= layer.path@);
    }
}

/// The settings live under `XDG_CONFIG_HOME` where that says anything, and under
/// `.config` at home where it does not.
pub proof fn law_the_settings_follow_xdg(xdg: Seq<char>, home: Seq<char>)
    requires
        xdg.len() > 0,
        xdg.last() != '/',
        home.len() > 0,
        home.last() != '/',
    ensures
        global_path(Some(xdg), Some(home)) == Some(xdg + "/dextui/config.toml"@),
        global_path(Some(xdg), None) == global_path(Some(xdg), Some(home)),
        global_path(None, Some(home)) == Some(home + "/.config/dextui/config.toml"@),
        global_path(Some(Seq::empty()), Some(home)) == global_path(None, Some(home)),
        global_path(None, None) is None,
{
    reveal_strlit("/");
    reveal_strlit(".config");
    reveal_strlit("dextui");
    reveal_strlit("config.toml");
    reveal_strlit("/dextui/config.toml");
    reveal_strlit("/.config/dextui/config.toml");
    assert(xdg + "/"@ + "dextui"@ + "/"@ + "config.toml"@ =~= xdg + "/dextui/config.toml"@);
    assert(home + "/"@ + ".config"@ + "/"@ + "dextui"@ + "/"@ + "config.toml"@ =~= home
        + "/.config/dextui/config.toml"@);
}

/// A project's settings are looked for in the directory one is in, then in each
/// one above it: the directory a path is in is what stands before its last
/// slash.
pub proof fn law_the_way_up_goes_by_one_directory(place: Seq<char>, name: Seq<char>)
    requires
        name.len() > 0,
        !name.contains('/'),
        place.len() > 0,
        place.last() != '/',
    ensures
        parent_of(place.push('/') + name) == Some(place),
        upward(place.push('/') + name) == seq![place.push('/') + name] + upward(place),
        parent_of(seq!['/'] + name) == Some("/"@),
        parent_of("/"@) is None,
{
    reveal_strlit("/");
    let p = place.push('/') + name;
    assert(p.last() == name.last() && name[name.len() - 1] == name.last());
    assert(name.last() != '/');
    assert(trim_end_of(p, '/') == p);
    crate::text::law_the_last_piece_is_behind_the_last_separator(place, name, '/');
    assert(p.take(p.len() - name.len()) =~= place.push('/'));
    assert(place.push('/').drop_last() =~= place);
    assert(trim_end_of(place, '/') == place);
    assert(trim_end_of(place.push('/'), '/') == place);
    let q = seq!['/'] + name;
    assert(q =~= Seq::<char>::empty().push('/') + name);
    assert(q.last() == name.last());
    assert(trim_end_of(q, '/') == q);
    crate::text::law_the_last_piece_is_behind_the_last_separator(Seq::empty(), name, '/');
    assert(q.take(q.len() - name.len()) =~= seq!['/']);
    assert(seq!['/'].drop_last() =~= Seq::empty());
    assert(trim_end_of(seq!['/'], '/') == trim_end_of(Seq::empty(), '/'));
    assert("/"@ =~= seq!['/']);
}

/// A problem is told by its first line, without the space around it.
pub proof fn law_a_problem_is_told_in_one_line(line: Seq<char>, rest: Seq<char>)
    requires
        !line.contains('\n'),
        line.len() > 0,
        line.last() != '\r',
    ensures
        opening_line(line.push('\n') + rest) == trimmed(line),
        opening_line(line) == trimmed(line),
{
    crate::text::law_lines_end_at_newlines(line, rest);
    assert((seq![line] + lines_of(rest))[0] == line);
}

/// A project is rooted at the nearest directory, going up, that has a `.git` in
/// it.
pub proof fn law_a_project_is_rooted_at_its_git_entry<F: Fn(&str) -> bool>(
    dirs: Seq<Seq<char>>,
    exists_at: F,
    found: Option<Seq<char>>,
    i: int,
)
    requires
        rooted_at(dirs, exists_at, found),
        forall|j: int|
            0 <= j < dirs.len() ==> (#[trigger] dirs[j]).len() > 0 && dirs[j].last() != '/',
        0 <= i < dirs.len(),
        // The answer for a text is one or the other.
        forall|s: Seq<char>| !(#[trigger] answers(exists_at, s, true) && answers(exists_at, s, false)),
    ensures
        answers(exists_at, dirs[i] + "/.git"@, true) && (forall|j: int|
            0 <= j < i ==> !answers(exists_at, #[trigger] dirs[j] + "/.git"@, true)) ==> found
            == Some(dirs[i]),
        found is Some ==> dirs.contains(found->0) && answers(
            exists_at,
            found->0 + "/.git"@,
            true,
        ),
{
    reveal_strlit(".git");
    reveal_strlit("/.git");
    let entries = git_entries(dirs);
    assert forall|j: int| 0 <= j < dirs.len() implies #[trigger] entries[j] == dirs[j]
        + "/.git"@ by {
        assert(dirs[j].len() > 0 && dirs[j].last() != '/');
        crate::dex::law_paths_join_with_one_slash(dirs[j], ".git"@);
        assert(dirs[j].push('/') + ".git"@ =~= dirs[j] + "/.git"@);
    }
    match found {
        Some(d) => {
            let k = choose|k: int|
                0 <= k < dirs.len() && d == dirs[k] && answers(
                    exists_at,
                    path_under(d, ".git"@),
                    true,
                ) && #[trigger] absent(entries, exists_at, k);
            assert(entries[k] == dirs[k] + "/.git"@);
            if answers(exists_at, dirs[i] + "/.git"@, true) && (forall|j: int|
                0 <= j < i ==> !answers(exists_at, #[trigger] dirs[j] + "/.git"@, true)) {
                if k < i {
                    assert(!answers(exists_at, dirs[k] + "/.git"@, true));
                }
                if i < k {
                    assert(answers(exists_at, entries[i], false));
                }
            }
        },
        None => {
            assert(answers(exists_at, entries[i], false));
        },
    }
}

} // verus!
