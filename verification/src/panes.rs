//! The layout: which panes are drawn, which one owns a column, and what the
//! mouse and the scroll keys do to them.

use vstd::prelude::*;

use crate::app::{
    clamped, fits, rebuilt, rebuilt_around, selects, App, Divider, Focus, HeaderZone, Mode, Panes,
};
use crate::config::{held_percent, Config, REPOS_WIDTH_MIN};
use crate::tree;
use crate::tree::{filter_after, has_row, row_views, sort_after, Filter, RowView, Sort};

verus! {

// ---------------------------------------------------------------------------
// Dividers
// ---------------------------------------------------------------------------

/// How far `x` is along `span`, as the nearest percentage.
///
/// Halves go up, but for four that go down: dividing first and multiplying after
/// in single precision lands just under 26.5, 29.5, 52.5 and 58.5.
pub open spec fn percent_along(x: int, span: int) -> int {
    let up = (200 * x + span) / (2 * span);
    let half = (200 * x + span) % (2 * span) == 0;
    if half && (up == 27 || up == 30 || up == 53 || up == 59) {
        up - 1
    } else {
        up
    }
}

/// What is left of a number after taking another away, but never below zero.
pub open spec fn less_by(a: int, b: int) -> int {
    if a < b {
        0
    } else {
        a - b
    }
}

/// How far apart two numbers are.
pub open spec fn apart(a: int, b: int) -> int {
    if a < b {
        b - a
    } else {
        a - b
    }
}

/// Which divider a column is on or beside. The sidebar's edge wins where the
/// two are within a cell of each other.
pub open spec fn divider_of(app: App, column: int) -> Option<Divider> {
    if app.repos_right > 0 && apart(column, less_by(app.repos_right as int, 1)) <= 1 {
        Some(Divider::Repos)
    } else if app.divider_x > 0 && apart(column, app.divider_x as int) <= 1 {
        Some(Divider::Split)
    } else {
        None
    }
}

// ---------------------------------------------------------------------------
// Rows under the pointer
// ---------------------------------------------------------------------------

/// Which item a pane's list drew on a row of the screen, given the offset it
/// was drawn with. Neither border is an item's row.
#[verifier::inline]
pub open spec fn item_at(app: App, row: int, offset: int) -> Option<int> {
    if row + 1 >= app.body_bottom || row < app.body_top + 1 {
        None
    } else {
        Some(row - (app.body_top + 1) + offset)
    }
}

/// The first header zone a column is in.
pub open spec fn zone_from(zones: Seq<(u16, u16, HeaderZone)>, i: int, column: int) -> Option<
    HeaderZone,
>
    decreases zones.len() - i,
{
    if i >= zones.len() {
        None
    } else if zones[i].0 <= column <= zones[i].1 {
        Some(zones[i].2)
    } else {
        zone_from(zones, i + 1, column)
    }
}

/// The order and filter a header zone picks.
pub open spec fn picked(
    zone: HeaderZone,
    secondary: bool,
    sort: Sort,
    reversed: bool,
    filter: Filter,
) -> (Sort, bool, Filter) {
    match zone {
        HeaderZone::Sort(s) => (s, reversed != secondary, filter),
        HeaderZone::SortCycle => if secondary {
            (sort, !reversed, filter)
        } else {
            (sort_after(sort), reversed, filter)
        },
        HeaderZone::Filter(f) => (sort, reversed, f),
        HeaderZone::FilterCycle => (sort, reversed, filter_after(filter)),
        HeaderZone::Pane(_) => (sort, reversed, filter),
    }
}

/// What a header click leaves, given the zone it landed in. Only the sort has a
/// second action; a pane's tab moves the focus, and anything else rebuilds.
#[verifier::opaque]
pub open spec fn header_clicked(pre: App, zone: HeaderZone, secondary: bool, post: App) -> bool {
    if !zone_answers(zone, secondary) {
        post == pre
    } else if zone is Pane {
        focused(pre, zone->Pane_0, post)
    } else {
        relooked(pre, picked(zone, secondary, pre.sort, pre.sort_reversed, pre.filter), post)
    }
}

/// What looking in another order, through another filter, leaves.
#[verifier::opaque]
pub open spec fn relooked(pre: App, look: (Sort, bool, Filter), post: App) -> bool {
    rebuilt(App { sort: look.0, sort_reversed: look.1, filter: look.2, ..pre }, post)
}

/// What moving to a pane leaves.
#[verifier::opaque]
pub open spec fn focused(pre: App, focus: Focus, post: App) -> bool {
    post == (App { focus, ..pre })
}

/// Whether a zone answers to a button: only the sort has a second action.
pub open spec fn zone_answers(zone: HeaderZone, secondary: bool) -> bool {
    !secondary || zone is Sort || zone is SortCycle
}

/// The first of the two columns a row's expand/collapse marker takes: past the
/// pane's border, the selection gutter and the tree drawing.
pub open spec fn marker_column(repos_right: u16, prefix: Seq<char>) -> int {
    repos_right + 1 + 2 + prefix.len()
}

/// Whether a column is on a row's marker.
pub open spec fn on_marker(repos_right: u16, prefix: Seq<char>, column: int) -> bool {
    marker_column(repos_right, prefix) <= column <= marker_column(repos_right, prefix) + 1
}

/// The row drawn at a place in the list, if there is one.
pub open spec fn row_drawn(rows: Seq<RowView>, at: Option<int>) -> Option<RowView> {
    match at {
        Some(i) => if 0 <= i < rows.len() {
            Some(rows[i])
        } else {
            None
        },
        None => None,
    }
}

/// What selecting the row under the pointer leaves.
#[verifier::opaque]
pub open spec fn row_selected(pre: App, row: int, post: App) -> bool {
    match row_drawn(pre.rows(), item_at(pre, row, pre.tree_offset as int)) {
        Some(r) => selects(pre, Some(r.node.task.id), post),
        None => post == pre,
    }
}

/// A set with one id put in where it was missing, and taken out where it was
/// not.
pub open spec fn toggled(s: Set<Seq<char>>, id: Seq<char>) -> Set<Seq<char>> {
    if s.contains(id) {
        s.remove(id)
    } else {
        s.insert(id)
    }
}

/// What selecting a task and opening or closing it leaves.
#[verifier::opaque]
pub open spec fn pressed(pre: App, id: Seq<char>, post: App) -> bool {
    &&& selects(App { expanded: post.expanded, ..pre }, Some(id), post)
    &&& post.expanded@ == toggled(pre.expanded@, id)
}

/// What a left click in the tree leaves: the row under it is selected, and also
/// opened or closed where the click was on its marker and there is anything to
/// open.
#[verifier::opaque]
pub open spec fn tree_clicked(pre: App, column: int, row: int, post: App) -> bool {
    match row_drawn(pre.rows(), item_at(pre, row, pre.tree_offset as int)) {
        Some(r) => if r.has_children && on_marker(pre.repos_right, r.prefix, column) {
            pressed(pre, r.node.task.id, post)
        } else {
            selects(pre, Some(r.node.task.id), post)
        },
        None => post == pre,
    }
}

// ---------------------------------------------------------------------------
// Panes
// ---------------------------------------------------------------------------

/// The panes `Tab` walks, left to right as they are drawn.
pub open spec fn cycle_of(repos_visible: bool) -> Seq<Focus> {
    if repos_visible {
        seq![Focus::Repos, Focus::Tree, Focus::Detail]
    } else {
        seq![Focus::Tree, Focus::Detail]
    }
}

/// Whether the width reserves room for three panes side by side.
pub open spec fn roomy(app: App) -> bool {
    app.repos_pane_above > 0 && app.terminal_width >= app.repos_pane_above
}

/// The panes the width would lay out, left to right, before zoom or a focus
/// that none of them holds is taken into account.
pub open spec fn layout_of(app: App) -> Seq<Focus> {
    if !app.repos_visible {
        seq![Focus::Tree, Focus::Detail]
    } else if roomy(app) {
        seq![Focus::Repos, Focus::Tree, Focus::Detail]
    } else {
        seq![Focus::Repos, Focus::Tree]
    }
}

/// Whether only one pane is drawn: what `z` says, else what the width says,
/// else whether the focused pane has no slot.
pub open spec fn lone(app: App) -> bool {
    match app.zoom {
        Some(z) => z,
        None => app.single_pane_below > 0 && app.terminal_width < app.single_pane_below
            || !layout_of(app).contains(app.focus),
    }
}

/// The panes actually drawn, left to right.
pub open spec fn drawn(app: App) -> Seq<Focus> {
    if lone(app) {
        seq![app.focus]
    } else {
        layout_of(app)
    }
}

/// The pane before or after another in the cycle; the first when it is in none.
pub open spec fn focus_after(cycle: Seq<Focus>, focus: Focus, forward: bool) -> Focus {
    let n = cycle.len() as int;
    if !cycle.contains(focus) {
        cycle[0]
    } else {
        let i = cycle.index_of(focus);
        cycle[if forward {
            (i + 1) % n
        } else {
            (i + n - 1) % n
        }]
    }
}

/// The pane that owns a column.
pub open spec fn owner_of(app: App, column: int) -> Focus {
    if lone(app) {
        app.focus
    } else if app.repos_right > 0 && column < app.repos_right {
        Focus::Repos
    } else if app.divider_x > 0 && column >= app.divider_x {
        Focus::Detail
    } else {
        Focus::Tree
    }
}

/// How far the detail pane can scroll.
pub open spec fn detail_room(app: App) -> int {
    less_by(app.detail_content_height as int, app.detail_viewport_height as int)
}

/// How far the help can scroll.
pub open spec fn help_room(app: App) -> int {
    less_by(app.help_content_height as int, app.help_viewport_height as int)
}

/// What dragging the divider between tree and detail leaves.
#[verifier::opaque]
pub open spec fn split_dragged(pre: App, column: int, total_width: int, post: App) -> bool {
    let span = less_by(total_width, pre.repos_right as int);
    let x = less_by(column, pre.repos_right as int);
    post == (App {
        split_percent: if span == 0 {
            pre.split_percent
        } else {
            held_percent(percent_along(x, span)) as u16
        },
        ..pre
    })
}

/// What dragging the sidebar's edge leaves: never less than the minimum, and
/// never more than half the terminal unless that is less.
#[verifier::opaque]
pub open spec fn sidebar_dragged(pre: App, column: int, total_width: int, post: App) -> bool {
    let half = total_width / 2;
    let cap = if half < REPOS_WIDTH_MIN {
        REPOS_WIDTH_MIN as int
    } else {
        half
    };
    post == (App {
        repos_width: clamped(column, REPOS_WIDTH_MIN as int, cap) as u16,
        ..pre
    })
}

/// What a reloaded config leaves: everything the file controls, and the forest
/// built anew.
#[verifier::opaque]
pub open spec fn configured(pre: App, cfg: Config, post: App) -> bool {
    rebuilt(
        App {
            sort: cfg.sort,
            sort_reversed: cfg.sort_reversed,
            filter: cfg.filter,
            wrap: cfg.wrap,
            animate: cfg.animate,
            single_pane_below: cfg.single_pane_below,
            repos_pane_above: cfg.repos_pane_above,
            repos_visible: cfg.repos_open,
            split_percent: cfg.split_percent,
            repos_width: cfg.repos_width,
            ..pre
        },
        post,
    )
}

/// What answering "zoomed?" by hand leaves.
#[verifier::opaque]
pub open spec fn zoomed(pre: App, answer: bool, post: App) -> bool {
    post == (App { zoom: Some(answer), ..pre })
}

/// What showing or hiding the sidebar leaves: hiding the pane you are standing
/// in moves you to the tree.
#[verifier::opaque]
pub open spec fn repos_toggled(pre: App, post: App) -> bool {
    post == (App {
        repos_visible: !pre.repos_visible,
        focus: if pre.repos_visible && pre.focus == Focus::Repos {
            Focus::Tree
        } else {
            pre.focus
        },
        ..pre
    })
}

/// What moving to the sidebar leaves.
#[verifier::opaque]
pub open spec fn repos_shown(pre: App, post: App) -> bool {
    post == (App { repos_visible: true, focus: Focus::Repos, ..pre })
}

/// What switching wrapping leaves: a wrapped pane has no sideways offset.
#[verifier::opaque]
pub open spec fn wrap_toggled(pre: App, post: App) -> bool {
    post == (App {
        wrap: !pre.wrap,
        detail_scroll: (
            pre.detail_scroll.0,
            if pre.wrap {
                pre.detail_scroll.1
            } else {
                0
            },
        ),
        ..pre
    })
}

/// What scrolling the detail pane leaves: down within its content, sideways
/// from zero on, and not at all sideways where it wraps.
#[verifier::opaque]
pub open spec fn detail_scrolled(pre: App, dy: int, dx: int, post: App) -> bool {
    post == (App {
        detail_scroll: (
            clamped(pre.detail_scroll.0 + dy, 0, detail_room(pre)) as u16,
            if pre.wrap {
                0
            } else {
                (less_by(pre.detail_scroll.1 + dx, 0) % 65536) as u16
            },
        ),
        ..pre
    })
}

/// What going to a line of the detail pane leaves.
#[verifier::opaque]
pub open spec fn detail_at(pre: App, y: u16, post: App) -> bool {
    post == (App { detail_scroll: (y, pre.detail_scroll.1), ..pre })
}

/// What scrolling the help leaves.
#[verifier::opaque]
pub open spec fn help_scrolled(pre: App, dy: int, post: App) -> bool {
    post == (App {
        help_scroll: clamped(pre.help_scroll + dy, 0, help_room(pre)) as u16,
        ..pre
    })
}

/// What opening the help leaves.
#[verifier::opaque]
pub open spec fn help_opened(pre: App, post: App) -> bool {
    post == (App { help_scroll: 0, mode: Mode::Help, ..pre })
}

fn minus(a: u16, b: u16) -> (r: u16)
    ensures
        r == less_by(a as int, b as int),
{
    if a < b {
        0
    } else {
        a - b
    }
}

pub(crate) fn answers_to(zone: HeaderZone, secondary: bool) -> (r: bool)
    ensures
        r == zone_answers(zone, secondary),
{
    !secondary || match zone {
        HeaderZone::Sort(_) => true,
        HeaderZone::SortCycle => true,
        _ => false,
    }
}

pub(crate) fn pick(zone: HeaderZone, secondary: bool, sort: Sort, reversed: bool, filter: Filter) -> (r: (
    Sort,
    bool,
    Filter,
))
    ensures
        r == picked(zone, secondary, sort, reversed, filter),
{
    match zone {
        HeaderZone::Sort(s) => (s, reversed != secondary, filter),
        HeaderZone::SortCycle => if secondary {
            (sort, !reversed, filter)
        } else {
            (sort.next(), reversed, filter)
        },
        HeaderZone::Filter(f) => (sort, reversed, f),
        HeaderZone::FilterCycle => (sort, reversed, filter.next()),
        HeaderZone::Pane(_) => (sort, reversed, filter),
    }
}

fn distance(a: u16, b: u16) -> (r: u16)
    ensures
        r == apart(a as int, b as int),
{
    if a < b {
        b - a
    } else {
        a - b
    }
}

impl App {
    /// Narrow enough to be useful, wide enough to still show a branch name.
    pub const REPOS_WIDTH_MIN: u16 = REPOS_WIDTH_MIN;

    pub fn cycle_sort(&mut self)
        ensures
            relooked(
                *old(self),
                (sort_after(old(self).sort), old(self).sort_reversed, old(self).filter),
                *final(self),
            ),
            old(self).wf() ==> final(self).wf(),
    {
        self.look((self.sort.next(), self.sort_reversed, self.filter));
    }

    pub fn toggle_sort_direction(&mut self)
        ensures
            relooked(
                *old(self),
                (old(self).sort, !old(self).sort_reversed, old(self).filter),
                *final(self),
            ),
            old(self).wf() ==> final(self).wf(),
    {
        self.look((self.sort, !self.sort_reversed, self.filter));
    }

    /// Clamped so neither pane can be dragged away entirely.
    ///
    /// A percentage **of the region the two panes share**, which is the body
    /// minus the sidebar -- so both ends of the fraction describe the same span.
    pub fn set_split(&mut self, column: u16, total_width: u16)
        ensures
            split_dragged(*old(self), column as int, total_width as int, *final(self)),
            old(self).wf() ==> final(self).wf(),
    {
        proof {
            reveal(split_dragged);
        }
        let span: u64 = minus(total_width, self.repos_right) as u64;
        if span == 0 {
            return;
        }
        let x: u64 = minus(column, self.repos_right) as u64;
        let up: u64 = (200 * x + span) / (2 * span);
        let half = (200 * x + span) % (2 * span) == 0;
        let percent: u64 = if half && (up == 27 || up == 30 || up == 53 || up == 59) {
            up - 1
        } else {
            up
        };
        self.split_percent = if percent < 20 {
            20
        } else if percent > 80 {
            80
        } else {
            percent as u16
        };
    }

    /// Sets the sidebar's width from a dragged column.
    ///
    /// A width rather than a percentage, unlike the tree/detail split: the
    /// sidebar holds names, not prose, so it neither wants nor needs to grow
    /// with the terminal. Never wider than half the terminal, so the pane it
    /// exists to navigate *to* cannot be squeezed out by the pane doing the
    /// navigating.
    pub fn set_repos_width(&mut self, column: u16, total_width: u16)
        ensures
            sidebar_dragged(*old(self), column as int, total_width as int, *final(self)),
            old(self).wf() ==> final(self).wf(),
    {
        proof {
            reveal(sidebar_dragged);
        }
        let half: u16 = total_width / 2;
        let cap: u16 = if half < REPOS_WIDTH_MIN {
            REPOS_WIDTH_MIN
        } else {
            half
        };
        self.repos_width = if column < REPOS_WIDTH_MIN {
            REPOS_WIDTH_MIN
        } else if column > cap {
            cap
        } else {
            column
        };
    }

    /// Which divider `column` is on or beside, if any -- grabbable without
    /// demanding single-cell precision.
    pub fn divider_at(&self, column: u16) -> (r: Option<Divider>)
        ensures
            r == divider_of(*self, column as int),
    {
        // The sidebar's edge is tested first: with the sidebar collapsed to
        // its minimum on a narrow terminal the two dividers can be within a
        // cell of each other, and the one you cannot otherwise reach should
        // win.
        if self.repos_right > 0 && distance(column, minus(self.repos_right, 1)) <= 1 {
            return Some(Divider::Repos);
        }
        if self.divider_x > 0 && distance(column, self.divider_x) <= 1 {
            return Some(Divider::Split);
        }
        None
    }

    pub fn in_body(&self, row: u16) -> (r: bool)
        ensures
            r == (self.body_top <= row < self.body_bottom),
    {
        row >= self.body_top && row < self.body_bottom
    }

    /// Which item a pane's list drew on `row`, given the offset it was drawn
    /// with -- or `None` if `row` is not one of its item rows at all. Past what
    /// a list can hold there is no item either.
    pub(crate) fn list_row_index(&self, row: u16, offset: usize) -> (r: Option<usize>)
        ensures
            match r {
                Some(i) => item_at(*self, row as int, offset as int) == Some(i as int),
                None => item_at(*self, row as int, offset as int) is None || item_at(
                    *self,
                    row as int,
                    offset as int,
                )->0 > usize::MAX,
            },
    {
        if row as u32 + 1 >= self.body_bottom as u32 || (row as u32) < self.body_top as u32 + 1 {
            return None;
        }
        let r: usize = (row - self.body_top - 1) as usize;
        if r > usize::MAX - offset {
            return None;
        }
        Some(r + offset)
    }

    /// What sits under `column` on the header row, if anything.
    pub fn header_zone_at(&self, column: u16) -> (r: Option<HeaderZone>)
        ensures
            r == zone_from(self.header_zones@, 0, column as int),
    {
        for i in 0..self.header_zones.len()
            invariant
                zone_from(self.header_zones@, i as int, column as int) == zone_from(
                    self.header_zones@,
                    0,
                    column as int,
                ),
        {
            let (from, to, zone) = self.header_zones[i];
            if column >= from && column <= to {
                return Some(zone);
            }
        }
        None
    }

    /// Acts on a header click. `secondary` is the right button, which reverses
    /// the sort rather than cycling it -- mirroring `o` and `O`.
    ///
    /// Returns whether anything changed, so a click on empty header space stays
    /// genuinely inert: it must not steal focus or move the selection.
    pub fn click_header(&mut self, column: u16, secondary: bool) -> (r: bool)
        ensures
            match zone_from(old(self).header_zones@, 0, column as int) {
                Some(zone) => header_clicked(*old(self), zone, secondary, *final(self)) && r
                    == zone_answers(zone, secondary),
                None => *final(self) == *old(self) && !r,
            },
            old(self).wf() ==> final(self).wf(),
    {
        match self.header_zone_at(column) {
            Some(zone) => self.act_on(zone, secondary),
            None => false,
        }
    }

    fn act_on(&mut self, zone: HeaderZone, secondary: bool) -> (r: bool)
        ensures
            header_clicked(*old(self), zone, secondary, *final(self)),
            r == zone_answers(zone, secondary),
            old(self).wf() ==> final(self).wf(),
    {
        proof {
            reveal(header_clicked);
        }
        // Picking a filter with the right button would be a surprise; only
        // the sort has a second action.
        if !answers_to(zone, secondary) {
            return false;
        }
        match zone {
            // Nothing to rebuild -- the tree is unchanged, only which pane is
            // looked at -- but the click is still handled.
            HeaderZone::Pane(f) => self.show(f),
            _ => self.look(pick(zone, secondary, self.sort, self.sort_reversed, self.filter)),
        }
        true
    }

    /// Rebuilds in another order, through another filter.
    pub(crate) fn look(&mut self, look: (Sort, bool, Filter))
        ensures
            relooked(*old(self), look, *final(self)),
            old(self).wf() ==> final(self).wf(),
    {
        proof {
            reveal(relooked);
        }
        self.sort = look.0;
        self.sort_reversed = look.1;
        self.filter = look.2;
        self.rebuild();
    }

    /// Moves to a pane.
    pub(crate) fn show(&mut self, focus: Focus)
        ensures
            focused(*old(self), focus, *final(self)),
            old(self).wf() ==> final(self).wf(),
    {
        proof {
            reveal(focused);
        }
        self.focus = focus;
    }

    /// Selects the task drawn on `row`, if any.
    pub fn select_at_row(&mut self, row: u16)
        ensures
            row_selected(*old(self), row as int, *final(self)),
            old(self).wf() ==> final(self).wf(),
    {
        proof {
            reveal(row_selected);
        }
        if let Some((id, _, _)) = self.row_under(row) {
            self.select(Some(id));
        }
    }

    /// The row drawn on `row`: its task, its prefix's length, and whether it has
    /// anything below it.
    fn row_under(&self, row: u16) -> (r: Option<(String, usize, bool)>)
        ensures
            match (r, row_drawn(self.rows(), item_at(*self, row as int, self.tree_offset as int))) {
                (Some(x), Some(y)) => x.0@ == y.node.task.id && x.1 == y.prefix.len() && x.2
                    == y.has_children,
                (None, None) => true,
                _ => false,
            },
    {
        let rows = tree::visible_rows(&self.tree, &self.expanded);
        assert(row_views(rows@).len() == rows.len());
        match self.list_row_index(row, self.tree_offset) {
            Some(i) => if i < rows.len() {
                assert(row_views(rows@)[i as int] == rows@[i as int]@);
                let r = &rows[i];
                Some((r.node.task.id.clone(), r.prefix.as_str().unicode_len(), r.has_children))
            } else {
                None
            },
            None => None,
        }
    }

    /// A left-click in the task tree: selects the row, and *also* opens or
    /// closes it when the click landed on that row's expand/collapse marker.
    ///
    /// It selects either way. Toggling without moving the selection would let
    /// you collapse a node the selection is *inside*, hiding the cursor and
    /// leaving the detail pane describing a task no visible row points at.
    /// Selecting the row you clicked keeps the selection on screen by
    /// construction.
    ///
    /// The marker's zone is the glyph and the pad space behind it, which is part
    /// of the same span; the branch character to its left is tree drawing.
    pub fn click_tree(&mut self, column: u16, row: u16)
        ensures
            tree_clicked(*old(self), column as int, row as int, *final(self)),
            old(self).wf() ==> final(self).wf(),
    {
        proof {
            reveal(tree_clicked);
        }
        if let Some((id, width, has_children)) = self.row_under(row) {
            // Character count is a cell count here: every glyph a prefix is
            // built from is one cell wide.
            let x: u128 = self.repos_right as u128 + 3 + width as u128;
            // A leaf has a marker drawn in that column too, but nothing to open
            // -- so a click there stays an ordinary select.
            let marked = has_children && x <= column as u128 && column as u128 <= x + 1;
            self.press(id, marked);
        }
    }

    /// Selects a task, and opens or closes it where asked.
    fn press(&mut self, id: String, marked: bool)
        ensures
            marked ==> pressed(*old(self), id@, *final(self)),
            !marked ==> selects(*old(self), Some(id@), *final(self)),
            old(self).wf() ==> final(self).wf(),
    {
        proof {
            reveal(selects);
            reveal(pressed);
        }
        if marked {
            self.toggle_open(id.as_str());
        }
        self.select(Some(id));
    }

    /// Opens what is closed, and closes what is open.
    fn toggle_open(&mut self, id: &str)
        ensures
            *final(self) == (App { expanded: final(self).expanded, ..*old(self) }),
            final(self).expanded@ == toggled(old(self).expanded@, id@),
    {
        if self.expanded.contains(id) {
            self.expanded.remove(id);
        } else {
            self.expanded.insert(id.to_owned());
        }
    }

    /// Applies a freshly loaded config to a running session.
    ///
    /// Everything the file controls is a *starting* value, so a reload after an
    /// edit is the one moment those values are meant to replace what the runtime
    /// toggles and dragging have done -- otherwise saving a change would appear
    /// to do nothing.
    pub fn apply_config(&mut self, cfg: Config)
        ensures
            configured(*old(self), cfg, *final(self)),
            old(self).wf() ==> final(self).wf(),
    {
        proof {
            reveal(configured);
        }
        self.sort = cfg.sort;
        self.sort_reversed = cfg.sort_reversed;
        self.filter = cfg.filter;
        self.wrap = cfg.wrap;
        self.animate = cfg.animate;
        self.single_pane_below = cfg.single_pane_below;
        self.repos_pane_above = cfg.repos_pane_above;
        self.repos_visible = cfg.repos_open;
        self.split_percent = cfg.split_percent;
        self.repos_width = cfg.repos_width;
        self.rebuild();
    }

    /// Moves focus one pane along the cycle; `Tab` forward, `Shift-Tab` back.
    ///
    /// The sidebar joins the cycle exactly when it is shown, so the key can
    /// never land on a pane that is not there. Focused on a pane no longer in
    /// the cycle -- the sidebar, hidden from under you -- it lands on the first.
    pub fn cycle_focus(&mut self, forward: bool)
        ensures
            focused(
                *old(self),
                focus_after(cycle_of(old(self).repos_visible), old(self).focus, forward),
                *final(self),
            ),
            old(self).wf() ==> final(self).wf(),
    {
        proof {
            lemma_cycle_positions(self.repos_visible);
        }
        let next: Focus = if self.repos_visible {
            match (self.focus, forward) {
                (Focus::Repos, true) => Focus::Tree,
                (Focus::Tree, true) => Focus::Detail,
                (Focus::Detail, true) => Focus::Repos,
                (Focus::Repos, false) => Focus::Detail,
                (Focus::Tree, false) => Focus::Repos,
                (Focus::Detail, false) => Focus::Tree,
            }
        } else {
            match self.focus {
                Focus::Repos => Focus::Tree,
                Focus::Tree => Focus::Detail,
                Focus::Detail => Focus::Tree,
            }
        };
        self.show(next);
    }

    /// Whether only one pane is drawn, the focused one filling the width.
    ///
    /// Two panes below the configured width leave no room for either: borders,
    /// the tree's indent guides and the meter gutter all cost columns before a
    /// task name gets any. So `focus` stops meaning "which border is brighter"
    /// and starts meaning "which pane you are looking at".
    ///
    /// Measured against the width the renderer last published, so it follows a
    /// terminal resized under the running app. Also true whenever the focused
    /// pane has no slot in the layout at all.
    pub fn single_pane(&self) -> (r: bool)
        ensures
            r == lone(*self),
    {
        if let Some(z) = self.zoom {
            return z;
        }
        if self.single_pane_below > 0 && self.terminal_width < self.single_pane_below {
            return true;
        }
        let laid_out = self.laid_out();
        for i in 0..laid_out.len()
            invariant
                self.zoom is None,
                !(self.single_pane_below > 0 && self.terminal_width < self.single_pane_below),
                laid_out@ == layout_of(*self),
                forall|j: int| 0 <= j < i ==> laid_out@[j] != self.focus,
        {
            if laid_out[i] == self.focus {
                return false;
            }
        }
        true
    }

    /// The panes the width would lay out, left to right, before zoom or a
    /// focus that none of them holds is taken into account.
    ///
    /// With room for two, and the sidebar one of them, **the detail yields**,
    /// not the tree: the sidebar's whole job is choosing which store the *tree*
    /// shows, so those two side by side is the pairing that makes asking for the
    /// sidebar worth anything.
    fn laid_out(&self) -> (r: Vec<Focus>)
        ensures
            r@ == layout_of(*self),
    {
        if !self.repos_visible {
            vec![Focus::Tree, Focus::Detail]
        } else if self.repos_pane_above > 0 && self.terminal_width >= self.repos_pane_above {
            vec![Focus::Repos, Focus::Tree, Focus::Detail]
        } else {
            vec![Focus::Repos, Focus::Tree]
        }
    }

    /// The panes actually drawn, left to right.
    pub fn drawn_panes(&self) -> (r: Vec<Focus>)
        ensures
            r@ == drawn(*self),
    {
        if self.single_pane() {
            return vec![self.focus];
        }
        self.laid_out()
    }

    /// See [`Panes`]. How *many* panes are drawn -- the shape of the layout.
    pub fn panes(&self) -> (r: Panes)
        ensures
            r == (if drawn(*self).len() == 1 {
                Panes::One
            } else if drawn(*self).len() == 2 {
                Panes::Two
            } else {
                Panes::Three
            }),
    {
        let n: usize = self.drawn_panes().len();
        if n == 1 {
            Panes::One
        } else if n == 2 {
            Panes::Two
        } else {
            Panes::Three
        }
    }

    /// Flips what you are looking at, and keeps it that way.
    ///
    /// Always toggles the *effective* state rather than a stored flag, so the
    /// first press does the visible thing whether the width had zoomed you or
    /// not.
    pub fn toggle_zoom(&mut self)
        ensures
            zoomed(*old(self), !lone(*old(self)), *final(self)),
            old(self).wf() ==> final(self).wf(),
    {
        proof {
            reveal(zoomed);
        }
        self.zoom = Some(!self.single_pane());
    }

    /// Shows or hides the repo sidebar, whatever it started as.
    ///
    /// Hiding the pane you are standing in has to move you somewhere, or the
    /// movement keys would drive a pane that is not on screen.
    pub fn toggle_repos(&mut self)
        ensures
            repos_toggled(*old(self), *final(self)),
            old(self).wf() ==> final(self).wf(),
    {
        proof {
            reveal(repos_toggled);
        }
        let showing = self.repos_visible;
        self.repos_visible = !showing;
        if showing && self.focus == Focus::Repos {
            self.focus = Focus::Tree;
        }
    }

    /// Moves to the repo sidebar, revealing it if it was hidden.
    ///
    /// A key that reaches a pane has to be able to bring it back, or `b` would
    /// be a way to lose the sidebar with `1` silently refusing to return it.
    pub fn show_repos(&mut self)
        ensures
            repos_shown(*old(self), *final(self)),
            old(self).wf() ==> final(self).wf(),
    {
        proof {
            reveal(repos_shown);
        }
        self.repos_visible = true;
        self.focus = Focus::Repos;
    }

    /// Moves to the detail pane. What `Enter` does, and what `Right` falls back
    /// to when there is nothing left to expand.
    pub fn show_detail(&mut self)
        ensures
            focused(*old(self), Focus::Detail, *final(self)),
            old(self).wf() ==> final(self).wf(),
    {
        self.show(Focus::Detail);
    }

    /// Back to the tree.
    pub fn show_tree(&mut self)
        ensures
            focused(*old(self), Focus::Tree, *final(self)),
            old(self).wf() ==> final(self).wf(),
    {
        self.show(Focus::Tree);
    }

    /// Which pane occupies `column`.
    ///
    /// With one pane it is whichever is on screen, whatever the column. The
    /// sidebar is tested first and only when it is actually drawn, so its
    /// columns never answer for the tree; and `divider_x == 0` means no
    /// tree/detail boundary was drawn, so nothing answers for a detail pane that
    /// is not on screen.
    pub fn pane_at(&self, column: u16) -> (r: Focus)
        ensures
            r == owner_of(*self, column as int),
    {
        if self.single_pane() {
            return self.focus;
        }
        if self.repos_right > 0 && column < self.repos_right {
            return Focus::Repos;
        }
        if self.divider_x > 0 && column >= self.divider_x {
            return Focus::Detail;
        }
        Focus::Tree
    }

    /// Wrapping on makes horizontal offset meaningless, so it is also reset.
    pub fn toggle_wrap(&mut self)
        ensures
            wrap_toggled(*old(self), *final(self)),
            old(self).wf() ==> final(self).wf(),
    {
        proof {
            reveal(wrap_toggled);
        }
        self.wrap = !self.wrap;
        if self.wrap {
            self.detail_scroll = (self.detail_scroll.0, 0);
        }
    }

    /// Scrolls the detail pane, down within its content and sideways without a
    /// bound on the right: no content width is known, so scrolling past the end
    /// simply shows blank. A wrapped pane does not scroll sideways.
    pub fn scroll_detail(&mut self, dy: i32, dx: i32)
        ensures
            detail_scrolled(*old(self), dy as int, dx as int, *final(self)),
            old(self).wf() ==> final(self).wf(),
    {
        proof {
            reveal(detail_scrolled);
        }
        let room: i64 = minus(self.detail_content_height, self.detail_viewport_height) as i64;
        let down: i64 = self.detail_scroll.0 as i64 + dy as i64;
        let y: u16 = if down < 0 {
            0
        } else if down > room {
            room as u16
        } else {
            down as u16
        };
        let x: u16 = if self.wrap {
            0
        } else {
            let across: i64 = self.detail_scroll.1 as i64 + dx as i64;
            if across < 0 {
                0
            } else {
                (across % 65536) as u16
            }
        };
        self.detail_scroll = (y, x);
    }

    pub fn detail_to_top(&mut self)
        ensures
            detail_at(*old(self), 0, *final(self)),
            old(self).wf() ==> final(self).wf(),
    {
        proof {
            reveal(detail_at);
        }
        self.detail_scroll = (0, self.detail_scroll.1);
    }

    pub fn detail_to_bottom(&mut self)
        ensures
            detail_at(*old(self), detail_room(*old(self)) as u16, *final(self)),
            old(self).wf() ==> final(self).wf(),
    {
        proof {
            reveal(detail_at);
        }
        let room: u16 = minus(self.detail_content_height, self.detail_viewport_height);
        self.detail_scroll = (room, self.detail_scroll.1);
    }

    /// How far the help can scroll before its last line is on screen. Zero
    /// means the whole dialog fits, which is what the hint row and the overflow
    /// markers both key off.
    pub fn help_max_scroll(&self) -> (r: u16)
        ensures
            r == help_room(*self),
    {
        minus(self.help_content_height, self.help_viewport_height)
    }

    /// Clamped like the detail pane's, and against a height only the renderer
    /// can know -- so before the first frame this is a no-op, which is correct:
    /// you cannot scroll a dialog you have not been shown.
    pub fn scroll_help(&mut self, dy: i32)
        ensures
            help_scrolled(*old(self), dy as int, *final(self)),
            old(self).wf() ==> final(self).wf(),
    {
        proof {
            reveal(help_scrolled);
        }
        let room: i64 = self.help_max_scroll() as i64;
        let down: i64 = self.help_scroll as i64 + dy as i64;
        self.help_scroll = if down < 0 {
            0
        } else if down > room {
            room as u16
        } else {
            down as u16
        };
    }

    /// Always from the top: `?` is asked by someone looking for a key, and
    /// resuming where the last reading stopped hides the first ten of them.
    pub fn open_help(&mut self)
        ensures
            help_opened(*old(self), *final(self)),
            old(self).wf() ==> final(self).wf(),
    {
        proof {
            reveal(help_opened);
            reveal(fits);
        }
        self.help_scroll = 0;
        self.mode = Mode::Help;
    }

    pub fn is_modal(&self) -> (r: bool)
        ensures
            r == !(self.mode is Normal || self.mode is Search),
    {
        match self.mode {
            Mode::Normal => false,
            Mode::Search => false,
            _ => true,
        }
    }
}

// ---------------------------------------------------------------------------
// What the layout promises
// ---------------------------------------------------------------------------

proof fn lemma_cycle_positions(repos_visible: bool)
    ensures
        repos_visible ==> cycle_of(repos_visible).len() == 3 && cycle_of(repos_visible).index_of(Focus::Repos) == 0
            && cycle_of(repos_visible).index_of(Focus::Tree) == 1 && cycle_of(repos_visible).index_of(Focus::Detail)
            == 2,
        !repos_visible ==> cycle_of(repos_visible).len() == 2 && cycle_of(repos_visible).index_of(Focus::Tree) == 0
            && cycle_of(repos_visible).index_of(Focus::Detail) == 1 && !cycle_of(repos_visible).contains(Focus::Repos),
        cycle_of(repos_visible).contains(Focus::Tree),
        cycle_of(repos_visible).contains(Focus::Detail),
        repos_visible ==> cycle_of(repos_visible).contains(Focus::Repos),
{
    let c = cycle_of(repos_visible);
    if repos_visible {
        assert(c[0] == Focus::Repos && c[1] == Focus::Tree && c[2] == Focus::Detail);
    } else {
        assert(c[0] == Focus::Tree && c[1] == Focus::Detail);
    }
}

proof fn lemma_layout_members(app: App)
    ensures
        layout_of(app).contains(Focus::Tree),
        layout_of(app).contains(Focus::Repos) <==> app.repos_visible,
        layout_of(app).contains(Focus::Detail) <==> !app.repos_visible || roomy(app),
{
    let l = layout_of(app);
    if !app.repos_visible {
        assert(l[0] == Focus::Tree && l[1] == Focus::Detail);
    } else if roomy(app) {
        assert(l[0] == Focus::Repos && l[1] == Focus::Tree && l[2] == Focus::Detail);
    } else {
        assert(l[0] == Focus::Repos && l[1] == Focus::Tree);
    }
}

/// A wider terminal never draws fewer panes, whatever `z` says.
pub proof fn law_the_pane_ladder_is_monotone(app: App, narrow: u16, wide: u16)
    requires
        narrow <= wide,
    ensures
        drawn(App { terminal_width: narrow, ..app }).len() <= drawn(
            App { terminal_width: wide, ..app },
        ).len(),
{
    lemma_layout_members(App { terminal_width: narrow, ..app });
    lemma_layout_members(App { terminal_width: wide, ..app });
}

/// The focused pane is always on screen, unless zoom has been switched off by
/// hand; and something always is.
pub proof fn law_the_focused_pane_is_drawn(app: App)
    ensures
        app.zoom != Some(false) ==> drawn(app).contains(app.focus),
        1 <= drawn(app).len() <= 3,
{
    if lone(app) {
        assert(drawn(app)[0] == app.focus);
    }
}

/// Zooming flips what is on screen, and zooming again flips it back.
pub proof fn law_zooming_flips_what_is_drawn(app: App)
    ensures
        lone(App { zoom: Some(!lone(app)), ..app }) == !lone(app),
        lone(App { zoom: Some(lone(app)), ..app }) == lone(app),
{
}

/// `Tab` and `Shift-Tab` undo each other, and never leave the cycle.
pub proof fn law_the_focus_cycle_goes_both_ways(repos_visible: bool, focus: Focus)
    requires
        cycle_of(repos_visible).contains(focus),
    ensures
        focus_after(cycle_of(repos_visible), focus_after(cycle_of(repos_visible), focus, true), false) == focus,
        focus_after(cycle_of(repos_visible), focus_after(cycle_of(repos_visible), focus, false), true) == focus,
        cycle_of(repos_visible).contains(focus_after(cycle_of(repos_visible), focus, true)),
        cycle_of(repos_visible).contains(focus_after(cycle_of(repos_visible), focus, false)),
{
    lemma_cycle_positions(repos_visible);
    let cycle = cycle_of(repos_visible);
    let n = cycle.len() as int;
    let i = cycle.index_of(focus);
    assert(cycle[i] == focus);
    let (next, last) = (focus_after(cycle, focus, true), focus_after(cycle, focus, false));
    assert(next == cycle[(i + 1) % n] && last == cycle[(i + n - 1) % n]);
    assert(cycle.index_of(next) == (i + 1) % n);
    assert(cycle.index_of(last) == (i + n - 1) % n);
    if repos_visible {
        assert(n == 3 && 0 <= i < 3);
        assert(((i + 1) % 3 + 2) % 3 == i && ((i + 2) % 3 + 1) % 3 == i);
    } else {
        assert(n == 2 && 0 <= i < 2);
        assert(((i + 1) % 2 + 1) % 2 == i);
    }
}

/// Whether the published geometry is that of the layout: a sidebar edge where a
/// sidebar is drawn beside something, and a divider where a detail pane is.
pub open spec fn published(app: App) -> bool {
    &&& app.repos_right > 0 <==> !lone(app) && layout_of(app).contains(Focus::Repos)
    &&& app.divider_x > 0 <==> !lone(app) && layout_of(app).contains(Focus::Detail)
}

/// Every column belongs to a pane that is on screen, and the three panes take
/// it in turn from left to right.
pub proof fn law_every_column_belongs_to_a_drawn_pane(app: App, column: int)
    requires
        published(app),
    ensures
        drawn(app).contains(owner_of(app, column)),
        !lone(app) && owner_of(app, column) == Focus::Repos ==> column < app.repos_right,
        !lone(app) && owner_of(app, column) == Focus::Detail ==> column >= app.divider_x,
{
    lemma_layout_members(app);
    if lone(app) {
        assert(drawn(app)[0] == app.focus);
    }
}

/// However far a divider is dragged, neither pane is dragged away.
pub proof fn law_a_split_stays_within_bounds(x: int, span: int)
    ensures
        20 <= held_percent(percent_along(x, span)) <= 80,
{
}

/// Hiding the sidebar never leaves the focus on it, and hiding and showing it
/// brings the same layout back.
pub proof fn law_hiding_the_sidebar_moves_the_focus(pre: App, post: App)
    requires
        pre.repos_visible,
        repos_toggled(pre, post),
    ensures
        post.focus != Focus::Repos,
        !post.repos_visible,
        layout_of(App { repos_visible: true, ..post }) == layout_of(pre),
{
    reveal(repos_toggled);
}

/// Switching wrapping twice gives back a pane that was not scrolled sideways.
pub proof fn law_wrapping_twice_changes_nothing(pre: App, mid: App, post: App)
    requires
        wrap_toggled(pre, mid),
        wrap_toggled(mid, post),
        pre.wrap ==> pre.detail_scroll.1 == 0,
    ensures
        post.wrap == pre.wrap,
        post.detail_scroll.0 == pre.detail_scroll.0,
        pre.wrap ==> post.detail_scroll == pre.detail_scroll,
        post.wrap ==> post.detail_scroll.1 == 0,
{
    reveal(wrap_toggled);
}

/// A click in the tree leaves the selection on the row that was clicked, and
/// that row on screen, also where it opened or closed it: the cursor never ends
/// up inside something a click has just closed.
pub proof fn law_a_click_keeps_the_cursor_on_screen(pre: App, column: int, row: int, post: App)
    requires
        tree_clicked(pre, column, row, post),
        row_drawn(pre.rows(), item_at(pre, row, pre.tree_offset as int)) is Some,
    ensures
        post.chosen() == Some(
            row_drawn(pre.rows(), item_at(pre, row, pre.tree_offset as int))->0.node.task.id,
        ),
        has_row(post.rows(), post.chosen()->0),
        post.nodes() == pre.nodes(),
{
    reveal(tree_clicked);
    reveal(pressed);
    reveal(selects);
    let at = item_at(pre, row, pre.tree_offset as int);
    let id = row_drawn(pre.rows(), at)->0.node.task.id;
    assert(pre.rows()[at->0].node.task.id == id);
    assert(has_row(pre.rows(), id));
    tree::law_a_row_survives_its_own_marker(pre.nodes(), pre.expanded@, post.expanded@, id);
}

// ---------------------------------------------------------------------------
// What dragging, clicking and scrolling promise
// ---------------------------------------------------------------------------

/// Dragging the split puts it where the pointer is, to the nearest hundredth of
/// what tree and detail share: less than a fifth is a fifth, more than four
/// fifths four, and nothing else changes.
pub proof fn law_the_split_follows_the_pointer(pre: App, column: int, width: int, post: App)
    requires
        split_dragged(pre, column, width, post),
        pre.repos_right <= column <= width,
        pre.repos_right < width,
    ensures
        ({
            let (x, span, p) = (
                column - pre.repos_right,
                width - pre.repos_right,
                post.split_percent as int,
            );
            &&& 20 <= p <= 80
            &&& 20 < p < 80 ==> -span <= 2 * (p * span - 100 * x) <= span
            &&& p == 20 ==> 200 * x <= 41 * span
            &&& p == 80 ==> 200 * x >= 159 * span
        }),
        post.repos_width == pre.repos_width && post.focus == pre.focus,
{
    reveal(split_dragged);
    let x = column - pre.repos_right;
    let span = width - pre.repos_right;
    let up = (200 * x + span) / (2 * span);
    let m = (200 * x + span) % (2 * span);
    assert(200 * x + span == up * (2 * span) + m && 0 <= m < 2 * span) by (nonlinear_arith)
        requires
            span > 0,
            up == (200 * x + span) / (2 * span),
            m == (200 * x + span) % (2 * span),
    ;
    let p = percent_along(x, span);
    assert(p == up || p == up - 1 && m == 0);
    assert(up * (2 * span) == 2 * (up * span)) by (nonlinear_arith);
    assert((up - 1) * span == up * span - span) by (nonlinear_arith);
    assert(-span <= 2 * (p * span - 100 * x) <= span);
    if p <= 20 {
        assert(p * span <= 20 * span) by (nonlinear_arith)
            requires
                p <= 20,
                span > 0,
        ;
    }
    if p >= 80 {
        assert(p * span >= 80 * span) by (nonlinear_arith)
            requires
                p >= 80,
                span > 0,
        ;
    }
}

/// Dragging the sidebar's edge puts it where the pointer is, never narrower than
/// its least width and never past the middle of the terminal, unless that is
/// narrower still.
pub proof fn law_the_sidebar_edge_follows_the_pointer(pre: App, column: int, width: int, post: App)
    requires
        sidebar_dragged(pre, column, width, post),
        0 <= column <= 65535,
        0 <= width <= 65535,
    ensures
        12 <= column && 2 * column <= width ==> post.repos_width == column,
        column < 12 ==> post.repos_width == 12,
        post.repos_width >= 12,
        2 * post.repos_width <= width || post.repos_width == 12,
        2 * column > width && width >= 24 ==> 2 * post.repos_width <= width < 2 * (post.repos_width
            + 1),
        post.split_percent == pre.split_percent,
{
    reveal(sidebar_dragged);
}

/// A reloaded config replaces everything the file controls, and nothing else of
/// the layout; the forest is built for it.
pub proof fn law_a_reload_replaces_every_setting(pre: App, cfg: Config, post: App)
    requires
        configured(pre, cfg, post),
    ensures
        post.sort == cfg.sort && post.sort_reversed == cfg.sort_reversed,
        post.filter == cfg.filter && post.wrap == cfg.wrap && post.animate == cfg.animate,
        post.single_pane_below == cfg.single_pane_below,
        post.repos_pane_above == cfg.repos_pane_above,
        post.repos_visible == cfg.repos_open,
        post.split_percent == cfg.split_percent && post.repos_width == cfg.repos_width,
        post.focus == pre.focus && post.zoom == pre.zoom && post.query == pre.query,
        post.tasks == pre.tasks && post.expanded == pre.expanded && post.mode == pre.mode,
        post.nodes() == tree::forest(post.task_list(), post.lens()),
{
    reveal(configured);
    reveal(rebuilt_around);
    reveal(selects);
}

/// Which panes are drawn: the tree and the detail where the sidebar is hidden;
/// all three where it is shown and there is room; the sidebar and the tree where
/// there is not; and one alone where `z` says so, or the width does, or the
/// focused pane has no place among them.
pub proof fn law_the_layout_follows_the_width(app: App)
    ensures
        app.zoom == Some(true) ==> drawn(app) == seq![app.focus],
        app.zoom is None && 0 < app.single_pane_below && app.terminal_width < app.single_pane_below
            ==> drawn(app) == seq![app.focus],
        app.zoom == Some(false) && !app.repos_visible ==> drawn(app) == seq![
            Focus::Tree,
            Focus::Detail,
        ],
        app.zoom == Some(false) && app.repos_visible && app.repos_pane_above > 0
            && app.terminal_width >= app.repos_pane_above ==> drawn(app) == seq![
            Focus::Repos,
            Focus::Tree,
            Focus::Detail,
        ],
        app.zoom == Some(false) && app.repos_visible && (app.repos_pane_above == 0
            || app.terminal_width < app.repos_pane_above) ==> drawn(app) == seq![
            Focus::Repos,
            Focus::Tree,
        ],
        app.zoom is None && (app.single_pane_below == 0 || app.terminal_width
            >= app.single_pane_below) ==> drawn(app) == drawn(App { zoom: Some(false), ..app })
            || drawn(app) == seq![app.focus] && !drawn(
            App { zoom: Some(false), ..app },
        ).contains(app.focus),
        app.zoom is None && (app.single_pane_below == 0 || app.terminal_width
            >= app.single_pane_below) && app.focus == Focus::Tree ==> drawn(app) == drawn(
            App { zoom: Some(false), ..app },
        ),
{
    lemma_layout_members(app);
}

/// A click in the tree lands on the task drawn there: `k` rows below the pane's
/// top border is the `k`th row after the one the list is scrolled to; and a
/// click on a border, or below the last row, does nothing.
pub proof fn law_a_click_lands_on_the_row_under_it(
    pre: App,
    column: int,
    row: int,
    post: App,
    k: int,
)
    requires
        tree_clicked(pre, column, row, post),
        0 <= k,
        row == pre.body_top + 1 + k,
    ensures
        row < pre.body_bottom - 1 && pre.tree_offset + k < pre.rows().len() ==> post.chosen()
            == Some(pre.rows()[pre.tree_offset + k].node.task.id),
        row >= pre.body_bottom - 1 || pre.tree_offset + k >= pre.rows().len() ==> post == pre,
{
    reveal(tree_clicked);
    reveal(pressed);
    reveal(selects);
}

/// A click on a row's marker opens or closes its task, where there is anything
/// to open; anywhere else on the row it opens and closes nothing.
pub proof fn law_only_the_marker_opens_and_closes(
    pre: App,
    column: int,
    row: int,
    post: App,
    k: int,
)
    requires
        tree_clicked(pre, column, row, post),
        0 <= k,
        row == pre.body_top + 1 + k,
        row < pre.body_bottom - 1,
        pre.tree_offset + k < pre.rows().len(),
    ensures
        ({
            let r = pre.rows()[pre.tree_offset + k];
            let id = r.node.task.id;
            let from = pre.repos_right + 3 + r.prefix.len();
            &&& r.has_children && from <= column <= from + 1 ==> forall|x: Seq<char>| #[trigger]
                post.expanded@.contains(x) <==> (if x == id {
                    !pre.expanded@.contains(id)
                } else {
                    pre.expanded@.contains(x)
                })
            &&& !r.has_children || column < from || column > from + 1 ==> post.expanded
                == pre.expanded
        }),
{
    reveal(tree_clicked);
    reveal(pressed);
    reveal(selects);
}

/// The detail scrolls by as much as it is asked to, within its content; sideways
/// only where it does not wrap; and the help and the tree the same way.
pub proof fn law_scrolling_goes_as_far_as_there_is_content(
    pre: App,
    dy: int,
    post: App,
    help: App,
)
    requires
        detail_scrolled(pre, dy, 0, post),
        help_scrolled(pre, dy, help),
        pre.detail_scroll.0 + pre.detail_viewport_height <= pre.detail_content_height,
        pre.help_scroll + pre.help_viewport_height <= pre.help_content_height,
    ensures
        ({
            let room = pre.detail_content_height - pre.detail_viewport_height;
            let y = pre.detail_scroll.0 + dy;
            &&& 0 <= y <= room ==> post.detail_scroll.0 == y
            &&& y < 0 ==> post.detail_scroll.0 == 0
            &&& y > room ==> post.detail_scroll.0 == room
            &&& pre.wrap ==> post.detail_scroll.1 == 0
            &&& !pre.wrap ==> post.detail_scroll.1 == pre.detail_scroll.1
        }),
        ({
            let room = pre.help_content_height - pre.help_viewport_height;
            let y = pre.help_scroll + dy;
            &&& 0 <= y <= room ==> help.help_scroll == y
            &&& y < 0 ==> help.help_scroll == 0
            &&& y > room ==> help.help_scroll == room
        }),
        post.selected == pre.selected && help.selected == pre.selected,
{
    reveal(detail_scrolled);
    reveal(help_scrolled);
}

/// A word of the header's menu picks what it names, and a lone label goes on to
/// the next; the second button reverses the order where the label is of one, and
/// does nothing elsewhere.
pub proof fn law_the_header_picks_what_it_names(
    pre: App,
    zone: HeaderZone,
    secondary: bool,
    post: App,
)
    requires
        header_clicked(pre, zone, secondary, post),
    ensures
        !secondary ==> match zone {
            HeaderZone::Sort(s) => post.sort == s && post.sort_reversed == pre.sort_reversed
                && post.filter == pre.filter,
            HeaderZone::SortCycle => post.sort == sort_after(pre.sort) && post.sort_reversed
                == pre.sort_reversed,
            HeaderZone::Filter(f) => post.filter == f && post.sort == pre.sort
                && post.sort_reversed == pre.sort_reversed,
            HeaderZone::FilterCycle => post.filter == filter_after(pre.filter) && post.sort
                == pre.sort,
            HeaderZone::Pane(p) => post.focus == p && post.sort == pre.sort && post.filter
                == pre.filter,
        },
        secondary ==> match zone {
            HeaderZone::Sort(s) => post.sort == s && post.sort_reversed != pre.sort_reversed,
            HeaderZone::SortCycle => post.sort == pre.sort && post.sort_reversed
                != pre.sort_reversed,
            _ => post == pre,
        },
        !(zone is Pane) ==> post.focus == pre.focus,
{
    reveal(header_clicked);
    reveal(relooked);
    reveal(focused);
    reveal(rebuilt_around);
    reveal(selects);
}

/// `Tab` goes from the sidebar, where it is shown, to the tree, to the detail,
/// and round again; and with the sidebar hidden between the other two.
pub proof fn law_tab_goes_from_left_to_right()
    ensures
        focus_after(cycle_of(true), Focus::Repos, true) == Focus::Tree,
        focus_after(cycle_of(true), Focus::Tree, true) == Focus::Detail,
        focus_after(cycle_of(true), Focus::Detail, true) == Focus::Repos,
        focus_after(cycle_of(false), Focus::Tree, true) == Focus::Detail,
        focus_after(cycle_of(false), Focus::Detail, true) == Focus::Tree,
        focus_after(cycle_of(false), Focus::Repos, true) == Focus::Tree,
{
    lemma_cycle_positions(true);
    lemma_cycle_positions(false);
}

/// Showing and hiding the sidebar undo each other but for the focus, which never
/// stays on what is hidden; asking for it shows it and goes there; wrapping
/// gives up the sideways offset and keeps the line.
pub proof fn law_what_the_toggles_leave(pre: App, mid: App, post: App, shown: App, wrapped: App)
    requires
        repos_toggled(pre, mid),
        repos_toggled(mid, post),
        repos_shown(pre, shown),
        wrap_toggled(pre, wrapped),
    ensures
        mid.repos_visible != pre.repos_visible,
        post.repos_visible == pre.repos_visible,
        pre.focus != Focus::Repos ==> mid.focus == pre.focus && post.focus == pre.focus,
        pre.repos_visible && pre.focus == Focus::Repos ==> mid.focus == Focus::Tree,
        shown.repos_visible && shown.focus == Focus::Repos,
        wrapped.wrap != pre.wrap && wrapped.detail_scroll.0 == pre.detail_scroll.0,
        wrapped.wrap ==> wrapped.detail_scroll.1 == 0,
        mid.selected == pre.selected && shown.selected == pre.selected && wrapped.selected
            == pre.selected,
        mid.zoom == pre.zoom && shown.zoom == pre.zoom,
{
    reveal(repos_toggled);
    reveal(repos_shown);
    reveal(wrap_toggled);
}

/// A divider is taken hold of on its own column or the one next to it, and
/// nowhere else; where both are in reach it is the sidebar's. One that is not
/// drawn cannot be.
pub proof fn law_a_divider_is_within_a_cell(app: App, column: int)
    ensures
        divider_of(app, column) == Some(Divider::Repos) <==> app.repos_right > 0
            && app.repos_right - 2 <= column <= app.repos_right,
        divider_of(app, column) == Some(Divider::Split) <==> app.divider_x > 0 && app.divider_x - 1
            <= column <= app.divider_x + 1 && !(app.repos_right > 0 && app.repos_right - 2 <= column
            <= app.repos_right),
{
}

/// A column belongs to the sidebar up to its edge, to the detail from the divider
/// on, and to the tree between; and all of it to the one pane there is.
pub proof fn law_columns_are_shared_out_left_to_right(app: App, column: int)
    ensures
        lone(app) ==> owner_of(app, column) == app.focus,
        !lone(app) ==> (owner_of(app, column) == Focus::Repos <==> app.repos_right > 0 && column
            < app.repos_right),
        !lone(app) && !(app.repos_right > 0 && column < app.repos_right) ==> (owner_of(app, column)
            == Focus::Detail <==> app.divider_x > 0 && column >= app.divider_x),
{
}

/// The first zone of the header that a column is in answers for it.
pub proof fn law_the_first_zone_answers(
    zones: Seq<(u16, u16, HeaderZone)>,
    column: int,
    i: int,
)
    ensures
        0 <= i < zones.len() && zones[i].0 <= column <= zones[i].1 && (forall|j: int|
            0 <= j < i ==> !((#[trigger] zones[j]).0 <= column <= zones[j].1)) ==> zone_from(
            zones,
            0,
            column,
        ) == Some(zones[i].2),
        (forall|j: int| 0 <= j < zones.len() ==> !((#[trigger] zones[j]).0 <= column <= zones[j].1))
            ==> zone_from(zones, 0, column) is None,
{
    if 0 <= i < zones.len() && zones[i].0 <= column <= zones[i].1 && (forall|j: int|
        0 <= j < i ==> !((#[trigger] zones[j]).0 <= column <= zones[j].1)) {
        lemma_zone(zones, 0, column, i);
    }
    if forall|j: int| 0 <= j < zones.len() ==> !((#[trigger] zones[j]).0 <= column <= zones[j].1) {
        lemma_zone(zones, 0, column, zones.len() as int);
    }
}

proof fn lemma_zone(zones: Seq<(u16, u16, HeaderZone)>, from: int, column: int, i: int)
    requires
        0 <= from <= i <= zones.len(),
        i < zones.len() ==> zones[i].0 <= column <= zones[i].1,
        forall|j: int| from <= j < i ==> !((#[trigger] zones[j]).0 <= column <= zones[j].1),
    ensures
        zone_from(zones, from, column) == if i < zones.len() {
            Some(zones[i].2)
        } else {
            None
        },
    decreases i - from,
{
    if from < i {
        assert(!(zones[from].0 <= column <= zones[from].1));
        lemma_zone(zones, from + 1, column, i);
    }
}

} // verus!
