//! All mutable view state, plus the rules for surviving a background refresh.
//!
//! Immediate-mode rendering pays off here: the selection is just an id we own,
//! so a refresh cannot lose it inside a widget. Only the genuine product rule --
//! what to select when the selected task is deleted elsewhere -- needs code.

use vstd::hash_map::StringHashMap;
use vstd::hash_set::StringHashSet;
use vstd::prelude::*;

use crate::config::Config;
use crate::dex::{
    index, indexed, label_of, map_views, store_label, task_views, Task, TaskMap, TaskView,
};
use crate::registry::Registry;
use crate::repos::Repo;
use crate::text::{clone_opt, opt_text, same, texts};
use crate::tree;
use crate::tree::{
    asked_for, flat, forest, node_ref_views, node_views, rollups, row_views, rows_of, Filter,
    IdSet, Lens, Node, NodeView, ProgressMap, RowView, Sort,
};

pub use crate::counts::{counts_for, Counts};
pub use crate::input::TextInput;

verus! {

/// What a prompt should do once the user accepts it.
#[derive(Debug)]
pub enum Pending {
    Complete { id: String },
    CreateName { parent: Option<String> },
    CreateDescription { parent: Option<String>, name: String },
    EditName { id: String },
    /// A path typed into the sidebar's "save a repo" prompt.
    ///
    /// The only prompt that is not about a task, which is why it carries
    /// nothing: everything it needs is what was typed.
    SaveRepo,
}

#[derive(Debug)]
pub struct Prompt {
    pub title: String,
    pub label: String,
    pub input: TextInput,
    pub pending: Pending,
}

#[derive(Debug)]
pub enum Mode {
    Normal,
    Search,
    Prompt(Prompt),
    /// Delete confirmation.
    Confirm { id: String, message: String },
    /// Offered when dex refuses to complete a task with unfinished subtasks.
    ForceComplete { id: String, result: String, message: String },
    Error(String),
    Help,
}

/// Which pane the movement keys drive.
#[derive(Debug, Clone, Copy, PartialEq, Eq, Structural)]
pub enum Focus {
    Tree,
    Detail,
    /// The repo/worktree sidebar. `1` goes straight there, and `Tab` includes
    /// it in the cycle whenever it is on screen -- see `cycle_focus`.
    Repos,
}

/// A draggable pane boundary.
#[derive(Debug, Clone, Copy, PartialEq, Eq, Structural)]
pub enum Divider {
    /// Between the repo sidebar and the task tree.
    Repos,
    /// Between the task tree and the detail pane.
    Split,
}

/// How many panes are drawn. A single ordered ladder, so first-fit can only
/// ever shed.
#[derive(Debug, Clone, Copy, PartialEq, Eq, Structural)]
pub enum Panes {
    One,
    Two,
    Three,
}

/// Something in the header you can click.
///
/// Published by the renderer each frame from **what it actually drew**, the same
/// way `divider_x` is, so the header's degradation ladder needs no second copy
/// of itself here: a rung that dropped the menu simply publishes no zones for it.
#[derive(Debug, Clone, Copy, PartialEq, Eq, Structural)]
pub enum HeaderZone {
    /// One word of the sort menu. Picks that sort outright.
    Sort(Sort),
    /// The lone sort name a narrow header falls back to. Left cycles the order,
    /// right reverses it -- mirroring `o` and `O`.
    SortCycle,
    /// One word of the menu. Picks that filter outright.
    Filter(Filter),
    /// The lone filter name a narrow header falls back to. With no options on
    /// screen there is nothing to pick, so a click advances instead.
    FilterCycle,
    /// A numbered pane tab. Only drawn in zoom mode, so only clickable there.
    Pane(Focus),
}

pub struct App {
    pub tasks: Vec<Task>,
    pub by_id: TaskMap,
    pub tree: Vec<Node>,
    /// Subtree completion per task, from the unfiltered list.
    pub progress: ProgressMap,
    pub expanded: IdSet,
    pub selected: Option<String>,
    pub filter: Filter,
    pub sort: Sort,
    pub sort_reversed: bool,
    pub query: TextInput,
    pub mode: Mode,
    pub status: String,
    pub store_label: String,
    /// The store directory the task list came from -- what `store_label` is a
    /// display name *of*. Kept alongside it because a label is ambiguous (two
    /// projects can share a directory name) and because an in-flight refresh
    /// has to be matched against the store it read, not against how that store
    /// is spelled on screen.
    pub store_dir: String,
    pub should_quit: bool,
    /// Set by `e`; the main loop picks it up and hands off to $EDITOR, which
    /// cannot happen mid-draw because the terminal has to be released first.
    pub pending_editor: Option<String>,
    /// Set by `,`; the main loop opens the config file in $EDITOR and reloads.
    pub pending_config_edit: bool,
    /// Set by `enter`/`l` in the repo pane; the main loop picks it up and
    /// swaps which store the task panes read.
    pub pending_store: Option<String>,
    /// Width of the tree pane as a percentage. Dragged with the mouse.
    pub split_percent: u16,
    /// Which divider is being dragged, if any.
    pub dragging: Option<Divider>,
    /// The sidebar's width in cells. A fixed length in the layout rather than a
    /// share, so it does not grow with the terminal -- see `set_repos_width`.
    pub repos_width: u16,
    /// Geometry the renderer publishes so mouse maths can be exact rather than
    /// re-derived from assumptions about the layout.
    pub divider_x: u16,
    /// The first column *after* the repo sidebar, or 0 when the sidebar is not
    /// drawn as its own pane. Published for the same reason `divider_x` is:
    /// mouse maths that re-derived it here would be a second copy free to drift
    /// from the layout.
    pub repos_right: u16,
    pub body_top: u16,
    pub body_bottom: u16,
    pub terminal_width: u16,
    /// The list's scroll offset, kept across frames so a click maps to the row
    /// actually under the cursor.
    pub tree_offset: usize,
    /// Set whenever the selection actually changes; consumed by the very next
    /// frame, which is the one and only frame that scrolls the real selection
    /// into view.
    ///
    /// A running task's spinner redraws many times a second with no selection
    /// change at all, so revealing on every frame would pull a wheel scroll
    /// straight back. Limiting the reveal to the frame where the selection
    /// actually moved is what makes a scroll that carries the cursor off-screen
    /// stick.
    pub needs_tree_reveal: bool,
    pub focus: Focus,
    /// (vertical, horizontal) offset into the detail pane.
    pub detail_scroll: (u16, u16),
    /// Wrapping and horizontal scrolling are mutually exclusive: wrapping
    /// removes the overflow there would be anything to scroll to. Prose wants
    /// wrap on, wide tables want it off, hence a toggle rather than a setting.
    pub wrap: bool,
    /// Written by the renderer each frame so input can clamp scrolling to
    /// content it cannot otherwise measure (wrapped height depends on width).
    pub detail_content_height: u16,
    pub detail_viewport_height: u16,
    /// Vertical offset into the `?` dialog, which is longer and wider than a
    /// small terminal.
    pub help_scroll: u16,
    /// Written by the renderer, for the same reason `detail_content_height` is:
    /// the help wraps, so its height depends on the dialog's width and only the
    /// renderer can measure it.
    pub help_content_height: u16,
    pub help_viewport_height: u16,
    /// Set when a repo is added mid-run, so the main loop can give its stores
    /// a watcher and a first read. `App` owns view state, not I/O -- the same
    /// division `pending_store` follows.
    pub repos_changed: bool,
    /// Set when a refresh arrives while a dialog is open; applied on close.
    pub pending_refresh: bool,
    /// Whether in-progress rows spin at all. From the config, and the opt-out
    /// reaches the event loop's timeout rather than only the colour.
    pub animate: bool,
    /// Which frame of the in-progress rotation the renderer should draw.
    pub spin_frame: usize,
    /// Terminal width below which only the focused pane is drawn. From the
    /// config; 0 disables the behaviour entirely.
    pub single_pane_below: u16,
    /// Terminal width at or above which the repo pane is drawn as a third pane.
    /// From the config; 0 disables the behaviour entirely.
    pub repos_pane_above: u16,
    /// Whether the sidebar is shown, set by `b`/`1` and seeded at startup from
    /// `Config::repos_open`. `repos_pane_above` still matters once it is shown
    /// -- does it get a third pane, or does the detail yield -- just never for
    /// *whether* it is shown.
    pub repos_visible: bool,
    /// A manual answer to "zoomed?", set by `z`, which outranks the width rule.
    /// `None` means decide by width. Pressing the key is an explicit decision,
    /// so it holds until it is pressed again rather than being undone by a
    /// resize -- a layout that changed on its own would read as a fault.
    pub zoom: Option<bool>,
    /// Clickable regions of the header row, as `(first_x, last_x, what)`.
    /// Rewritten every frame; empty while the search box owns the row, so a
    /// click can never act on a menu that is not on screen.
    pub header_zones: Vec<(u16, u16, HeaderZone)>,
    /// Which worktree's store the task tree is showing.
    pub selected_worktree: Option<String>,
    /// Task selection per worktree path, so switching back returns the cursor.
    /// Session-only: this is view state, not something to persist.
    pub task_memory: StringHashMap<String>,
    /// Registered repos with their worktrees, and whether each is expanded.
    pub repos: Vec<Repo>,
    pub selected_repo_row: usize,
    /// The repo pane's own scroll offset, carried across frames the same way
    /// `tree_offset` is -- without it, `G`/`PageDown` could select a row
    /// below the visible area with nothing on screen ever moving to show it.
    pub repos_offset: usize,
    /// Set by Ctrl-L: repaint every cell rather than only what changed.
    ///
    /// Drawing diffs against the buffer *it* last drew, so anything that
    /// corrupts the screen from outside the app leaves cells believed to be
    /// already correct, which would therefore never be rewritten.
    pub force_redraw: bool,
    pub registry: Registry,
    /// The repo dextui was launched in, and the store it resolved there.
    ///
    /// Both fixed for the run: `here` means where you are, which switching
    /// stores does not change. Empty on a launch that resolved no repo.
    pub here_path: Option<String>,
    pub here_store: String,
    /// Whether `here_store` is there on disk. Looked up anew each frame rather
    /// than at startup, so creating the first task makes the `here` section
    /// appear without a relaunch.
    pub here_store_present: bool,
    /// Every sidebar store's task list, keyed by store directory.
    ///
    /// This is what lets moving the sidebar cursor change the panes as
    /// immediately as moving the tree cursor changes the detail -- one model
    /// for both, rather than two that look identical and are not. A switch is
    /// a lookup here, not a `dex list`.
    pub store_tasks: StringHashMap<Vec<Task>>,
}

// ---------------------------------------------------------------------------
// What the state says
// ---------------------------------------------------------------------------

/// Where an id first stands in a list: its length when it does not.
pub open spec fn first_index(ids: Seq<Seq<char>>, id: Seq<char>) -> int
    decreases ids.len(),
{
    if ids.len() == 0 || ids[0] == id {
        0
    } else {
        1 + first_index(ids.drop_first(), id)
    }
}

/// The ids rows stand for.
pub open spec fn ids_shown(rows: Seq<RowView>) -> Seq<Seq<char>> {
    rows.map_values(|r: RowView| r.node.task.id)
}

/// Whether a forest has a node for a task, expanded or not.
pub open spec fn has_node(nodes: Seq<NodeView>, id: Seq<char>) -> bool {
    exists|i: int| 0 <= i < flat(nodes).len() && (#[trigger] flat(nodes)[i]).task.id == id
}

/// Whether a forest has a node for a task with anything below it.
pub open spec fn has_branch(nodes: Seq<NodeView>, id: Seq<char>) -> bool {
    exists|i: int|
        0 <= i < flat(nodes).len() && (#[trigger] flat(nodes)[i]).task.id == id && flat(
            nodes,
        )[i].children.len() > 0
}

/// The first of a list of ids.
pub open spec fn first_of(ids: Seq<Seq<char>>) -> Option<Seq<char>> {
    if ids.len() == 0 {
        None
    } else {
        Some(ids[0])
    }
}

/// The last of a list of ids.
pub open spec fn last_of(ids: Seq<Seq<char>>) -> Option<Seq<char>> {
    if ids.len() == 0 {
        None
    } else {
        Some(ids.last())
    }
}

/// A number held between two bounds.
pub open spec fn clamped(v: int, low: int, high: int) -> int {
    if v < low {
        low
    } else if v > high {
        high
    } else {
        v
    }
}

impl App {
    /// What each task says.
    #[verifier::inline]
    pub open spec fn task_list(&self) -> Seq<TaskView> {
        task_views(self.tasks@)
    }

    /// What each task says, by id.
    #[verifier::inline]
    pub open spec fn held(&self) -> Map<Seq<char>, TaskView> {
        map_views(self.by_id@)
    }

    /// What the forest is built for.
    #[verifier::inline]
    pub open spec fn lens(&self) -> Lens {
        Lens {
            query: asked_for(self.query.value@),
            filter: self.filter,
            sort: self.sort,
            reversed: self.sort_reversed,
        }
    }

    /// The forest as it was last built.
    #[verifier::inline]
    pub open spec fn nodes(&self) -> Seq<NodeView> {
        node_views(self.tree@)
    }

    /// The rows on screen.
    #[verifier::inline]
    pub open spec fn rows(&self) -> Seq<RowView> {
        rows_of(self.nodes(), self.expanded@)
    }

    /// The ids of the rows on screen.
    #[verifier::inline]
    pub open spec fn shown(&self) -> Seq<Seq<char>> {
        ids_shown(self.rows())
    }

    /// The selected id.
    #[verifier::inline]
    pub open spec fn chosen(&self) -> Option<Seq<char>> {
        opt_text(self.selected)
    }

    /// The invariant: the index, the rollups and the label are those of the
    /// tasks and the store, and the cursors of the text fields stand in their
    /// texts.
    #[verifier::inline]
    pub open spec fn wf(&self) -> bool {
        fits(
            self.tasks,
            self.by_id,
            self.progress,
            self.store_label,
            self.store_dir,
            self.query,
            self.mode,
        )
    }
}

/// Whether an index, rollups and a label are those of a list of tasks and a
/// store, and the cursors of text fields stand in their texts.
#[verifier::opaque]
pub open spec fn fits(
    tasks: Vec<Task>,
    by_id: TaskMap,
    progress: ProgressMap,
    store_label: String,
    store_dir: String,
    query: TextInput,
    mode: Mode,
) -> bool {
    &&& map_views(by_id@) == indexed(task_views(tasks@))
    &&& rollups(task_views(tasks@), progress@)
    &&& store_label@ == label_of(store_dir@)
    &&& query.wf()
    &&& (mode matches Mode::Prompt(p) ==> p.input.wf())
}

/// A selection that is still in a forest, else its first row.
pub open spec fn kept(
    choice: Option<Seq<char>>,
    nodes: Seq<NodeView>,
    expanded: Set<Seq<char>>,
) -> Option<Seq<char>> {
    if choice is Some && has_node(nodes, choice->0) {
        choice
    } else {
        first_of(ids_shown(rows_of(nodes, expanded)))
    }
}

/// What a rebuild leaves: the forest of the tasks under the current search,
/// filter and order. A selection that is still in it stays; one that is not, or
/// that was never made, falls to the first row.
pub open spec fn rebuilt(pre: App, post: App) -> bool {
    rebuilt_around(pre, pre.chosen(), post)
}

/// What a rebuild around a choice leaves: that choice is selected, or the first
/// row where it is not in the forest.
#[verifier::opaque]
pub open spec fn rebuilt_around(pre: App, choice: Option<Seq<char>>, post: App) -> bool {
    &&& post.nodes() == forest(pre.task_list(), pre.lens())
    &&& selects(
        App { tree: post.tree, ..pre },
        kept(choice, post.nodes(), pre.expanded@),
        post,
    )
}

/// What selecting a task leaves: a different selection starts at the top of its
/// description, and asks to be scrolled into view.
#[verifier::opaque]
pub open spec fn selects(pre: App, id: Option<Seq<char>>, post: App) -> bool {
    &&& post == (App {
        selected: post.selected,
        detail_scroll: if id == pre.chosen() {
            pre.detail_scroll
        } else {
            (0, 0)
        },
        needs_tree_reveal: pre.needs_tree_reveal || id != pre.chosen(),
        ..pre
    })
    &&& post.chosen() == id
}

/// The row `delta` further on from a selection, held to the rows there are. A
/// selection that is on no row counts from the first.
pub open spec fn row_after(rows: Seq<Seq<char>>, choice: Option<Seq<char>>, delta: int) -> Seq<
    char,
> {
    let at = match choice {
        Some(id) => if first_index(rows, id) < rows.len() {
            first_index(rows, id)
        } else {
            0
        },
        None => 0,
    };
    rows[clamped(at + delta, 0, rows.len() - 1)]
}

/// What moving the selection leaves: nothing without rows, else the row `delta`
/// further on.
#[verifier::opaque]
pub open spec fn moved(pre: App, delta: int, post: App) -> bool {
    if pre.shown().len() == 0 {
        post == pre
    } else {
        selects(pre, Some(row_after(pre.shown(), pre.chosen(), delta)), post)
    }
}

/// What expanding everything leaves: every task with anything below it, however
/// much of it a filter hides.
#[verifier::opaque]
pub open spec fn all_expanded(pre: App, post: App) -> bool {
    &&& post == (App { expanded: post.expanded, ..pre })
    &&& forall|id: Seq<char>| #[trigger]
        post.expanded@.contains(id) <==> has_branch(
            forest(
                pre.task_list(),
                Lens { query: None, filter: Filter::All, sort: pre.sort, reversed: pre.sort_reversed },
            ),
            id,
        )
}

/// What collapsing everything leaves.
#[verifier::opaque]
pub open spec fn all_collapsed(pre: App, post: App) -> bool {
    &&& post == (App { expanded: post.expanded, ..pre })
    &&& post.expanded@ == Set::<Seq<char>>::empty()
}

/// What a wheel over the tree leaves: another offset, and the same selection.
#[verifier::opaque]
pub open spec fn tree_scrolled(pre: App, delta: int, post: App) -> bool {
    post == (App {
        tree_offset: if pre.shown().len() == 0 {
            pre.tree_offset
        } else {
            clamped(pre.tree_offset + delta, 0, pre.shown().len() - 1) as usize
        },
        ..pre
    })
}

pub(crate) proof fn lemma_first_index(ids: Seq<Seq<char>>, id: Seq<char>, i: int)
    requires
        0 <= i <= ids.len(),
        forall|j: int| 0 <= j < i ==> ids[j] != id,
        i < ids.len() ==> ids[i] == id,
    ensures
        first_index(ids, id) == i,
    decreases ids.len(),
{
    if i > 0 {
        assert(ids[0] != id);
        lemma_first_index(ids.drop_first(), id, i - 1);
    }
}

pub proof fn lemma_nothing_asked()
    ensures
        asked_for(""@) is None,
{
    reveal_strlit("");
    assert(crate::text::trim_start(""@) == ""@);
}

/// Whether two optional texts are the same.
pub(crate) fn same_choice(a: &Option<String>, b: &Option<String>) -> (r: bool)
    ensures
        r == (opt_text(*a) == opt_text(*b)),
{
    match (a, b) {
        (None, None) => true,
        (Some(x), Some(y)) => same(x.as_str(), y.as_str()),
        _ => false,
    }
}

/// Where an id first stands in a list.
pub(crate) fn position(ids: &Vec<String>, id: &str) -> (r: usize)
    ensures
        r == first_index(texts(ids@), id@),
        r <= ids@.len(),
{
    let ghost t = texts(ids@);
    for i in 0..ids.len()
        invariant
            t == texts(ids@),
            forall|j: int| 0 <= j < i ==> #[trigger] t[j] != id@,
    {
        assert(t[i as int] == ids@[i as int]@);
        if same(ids[i].as_str(), id) {
            proof {
                lemma_first_index(t, id@, i as int);
            }
            return i;
        }
    }
    proof {
        lemma_first_index(t, id@, t.len() as int);
    }
    ids.len()
}

/// A number moved by a step, held between zero and a bound.
pub(crate) fn step(at: usize, delta: isize, last: usize) -> (r: usize)
    ensures
        r == clamped(at + delta, 0, last as int),
{
    let next: i128 = at as i128 + delta as i128;
    if next < 0 {
        0
    } else if next > last as i128 {
        last
    } else {
        next as usize
    }
}

impl App {
    /// `store_dir` is the directory dex resolved, not a display name: the
    /// label is derived from it here, the same way `load_store` does it, so
    /// the two can never be set to different stores.
    pub fn new(tasks: Vec<Task>, store_dir: String, cfg: Config) -> (r: Self)
        ensures
            starts_as(r, tasks@, store_dir@, cfg),
            r.wf(),
    {
        // Captured before the field takes ownership: `here_store` is the store
        // this run *launched* with, and never changes with `load_store`.
        let here_store = store_dir.clone();
        let label = store_label(store_dir.as_str());
        let by_id = index(&tasks);
        let progress = tree::subtree_progress(&tasks);
        let mut app = App {
            by_id,
            tasks,
            tree: Vec::new(),
            progress,
            expanded: StringHashSet::new(),
            selected: None,
            filter: cfg.filter,
            sort: cfg.sort,
            sort_reversed: cfg.sort_reversed,
            query: TextInput::default(),
            mode: Mode::Normal,
            status: String::new(),
            store_label: label,
            store_dir,
            should_quit: false,
            pending_editor: None,
            pending_config_edit: false,
            pending_store: None,
            split_percent: cfg.split_percent,
            dragging: None,
            repos_width: cfg.repos_width,
            divider_x: 0,
            repos_right: 0,
            body_top: 0,
            body_bottom: 0,
            terminal_width: 0,
            tree_offset: 0,
            // The first frame reveals the initial selection: there is no
            // earlier "selection changed" edge to have set this from.
            needs_tree_reveal: true,
            focus: Focus::Tree,
            detail_scroll: (0, 0),
            wrap: cfg.wrap,
            detail_content_height: 0,
            detail_viewport_height: 0,
            help_scroll: 0,
            help_content_height: 0,
            help_viewport_height: 0,
            repos_changed: false,
            pending_refresh: false,
            animate: cfg.animate,
            spin_frame: 0,
            single_pane_below: cfg.single_pane_below,
            repos_pane_above: cfg.repos_pane_above,
            repos_visible: cfg.repos_open,
            zoom: None,
            header_zones: Vec::new(),
            selected_worktree: None,
            task_memory: StringHashMap::new(),
            repos: Vec::new(),
            selected_repo_row: 0,
            repos_offset: 0,
            force_redraw: false,
            registry: Registry::default(),
            here_path: None,
            here_store,
            here_store_present: false,
            store_tasks: StringHashMap::new(),
        };

        proof {
            reveal(fits);
            reveal(rebuilt_around);
            reveal(selects);
            reveal(all_expanded);
        }
        // Everything is "new" on first load, so the collapse-new-tasks rule would
        // otherwise open onto a single collapsed root. Expand once up front.
        app.expand_all();
        app.rebuild();
        app
    }

    pub fn expand_all(&mut self)
        ensures
            all_expanded(*old(self), *final(self)),
            old(self).wf() ==> final(self).wf(),
    {
        proof {
            reveal(all_expanded);
        }
        // Built unfiltered, so a task stays expanded once a filter that hid its
        // children is cleared again.
        let full = tree::build(&self.tasks, "", Filter::All, self.sort, self.sort_reversed);
        let nodes = tree::flatten(&full);
        let ghost lens = Lens {
            query: None,
            filter: Filter::All,
            sort: self.sort,
            reversed: self.sort_reversed,
        };
        let ghost whole = forest(self.task_list(), lens);
        let ghost all = flat(whole);
        proof {
            lemma_nothing_asked();
        }
        assert(node_ref_views(nodes@) == all);
        let mut open: IdSet = StringHashSet::new();
        for i in 0..nodes.len()
            invariant
                node_ref_views(nodes@) == all,
                all == flat(whole),
                forall|id: Seq<char>| #[trigger]
                    open@.contains(id) <==> exists|k: int|
                        0 <= k < i && (#[trigger] all[k]).task.id == id && all[k].children.len() > 0,
        {
            let n = nodes[i];
            assert(all[i as int] == n@);
            if n.children.len() > 0 {
                open.insert(n.task.id.clone());
            }
        }
        proof {
            assert forall|id: Seq<char>| #[trigger] open@.contains(id) <==> has_branch(whole, id) by {
                if has_branch(whole, id) {
                    let k = choose|k: int|
                        0 <= k < flat(whole).len() && (#[trigger] flat(whole)[k]).task.id == id
                            && flat(whole)[k].children.len() > 0;
                    assert(all[k].task.id == id);
                }
            }
        }
        self.expanded = open;
    }

    pub fn collapse_all(&mut self)
        ensures
            all_collapsed(*old(self), *final(self)),
            old(self).wf() ==> final(self).wf(),
    {
        proof {
            reveal(all_collapsed);
        }
        self.expanded = StringHashSet::new();
    }

    /// Builds the forest anew.
    ///
    /// A selection filtered out of view must not linger invisibly -- and having
    /// *no* selection while rows are on screen is the same fault seen from the
    /// other side. This only ever *establishes* a selection, never moves a live
    /// one, so the rule that a refresh must not disturb the user still holds.
    pub fn rebuild(&mut self)
        ensures
            rebuilt(*old(self), *final(self)),
            old(self).wf() ==> final(self).wf(),
    {
        let choice = clone_opt(&self.selected);
        self.rebuild_around(choice);
    }

    /// Builds the forest anew and selects `choice`, or the first row where that
    /// is not in it.
    pub(crate) fn rebuild_around(&mut self, choice: Option<String>)
        ensures
            rebuilt_around(*old(self), opt_text(choice), *final(self)),
            old(self).wf() ==> final(self).wf(),
    {
        proof {
            reveal(rebuilt_around);
        }
        self.tree = tree::build(
            &self.tasks,
            self.query.value.as_str(),
            self.filter,
            self.sort,
            self.sort_reversed,
        );
        let still_visible = match &choice {
            Some(sel) => self.is_visible(sel.as_str()),
            None => false,
        };
        let ghost mid = *self;
        if still_visible {
            self.select(choice);
        } else {
            let first = self.first_visible_id();
            self.select(first);
        }
        proof {
            reveal(selects);
            assert(self.tree == mid.tree);
        }
    }

    fn is_visible(&self, id: &str) -> (r: bool)
        ensures
            r == has_node(self.nodes(), id@),
    {
        let nodes = tree::flatten(&self.tree);
        let ghost all = flat(self.nodes());
        for i in 0..nodes.len()
            invariant
                node_ref_views(nodes@) == all,
                all == flat(self.nodes()),
                forall|k: int| 0 <= k < i ==> (#[trigger] all[k]).task.id != id@,
        {
            let n = nodes[i];
            assert(all[i as int] == n@);
            if same(n.id(), id) {
                return true;
            }
        }
        false
    }

    fn first_visible_id(&self) -> (r: Option<String>)
        ensures
            opt_text(r) == first_of(self.shown()),
    {
        let rows = tree::visible_rows(&self.tree, &self.expanded);
        assert(rows@.len() == self.rows().len());
        if rows.len() > 0 {
            assert(self.rows()[0] == rows@[0]@);
            Some(rows[0].node.task.id.clone())
        } else {
            None
        }
    }

    pub fn selected_task(&self) -> (r: Option<&Task>)
        ensures
            match r {
                Some(t) => self.chosen() is Some && self.by_id@.contains_key(self.chosen()->0)
                    && *t == self.by_id@[self.chosen()->0],
                None => self.chosen() is None || !self.by_id@.contains_key(self.chosen()->0),
            },
    {
        match &self.selected {
            Some(id) => self.by_id.get(id.as_str()),
            None => None,
        }
    }

    pub fn row_ids(&self) -> (r: Vec<String>)
        ensures
            texts(r@) == self.shown(),
    {
        let rows = tree::visible_rows(&self.tree, &self.expanded);
        let mut out: Vec<String> = Vec::new();
        let ghost want = self.shown();
        assert(texts(out@) =~= want.take(0));
        for i in 0..rows.len()
            invariant
                row_views(rows@) == self.rows(),
                want == self.shown(),
                texts(out@) == want.take(i as int),
        {
            let ghost before = out@;
            assert(self.rows()[i as int] == rows@[i as int]@);
            out.push(rows[i].node.task.id.clone());
            proof {
                assert(texts(out@) =~= texts(before).push(want[i as int]));
                assert(want.take(i + 1) =~= want.take(i as int).push(want[i as int]));
            }
        }
        assert(want.take(want.len() as int) =~= want);
        out
    }

    /// Where the selection is among the rows on screen.
    pub fn selected_row(&self) -> (r: Option<usize>)
        ensures
            match r {
                Some(i) => self.chosen() is Some && i == first_index(
                    self.shown(),
                    self.chosen()->0,
                ) && i < self.shown().len(),
                None => self.chosen() is None || first_index(self.shown(), self.chosen()->0)
                    == self.shown().len(),
            },
    {
        match &self.selected {
            Some(sel) => {
                let rows = self.row_ids();
                assert(texts(rows@).len() == rows@.len());
                let i: usize = position(&rows, sel.as_str());
                if i < rows.len() {
                    Some(i)
                } else {
                    None
                }
            },
            None => None,
        }
    }

    pub fn move_selection(&mut self, delta: isize)
        ensures
            moved(*old(self), delta as int, *final(self)),
            old(self).wf() ==> final(self).wf(),
    {
        proof {
            reveal(moved);
        }
        if let Some(id) = self.row_further(delta) {
            self.select(Some(id));
        }
    }

    fn row_further(&self, delta: isize) -> (r: Option<String>)
        ensures
            self.shown().len() == 0 ==> r is None,
            self.shown().len() > 0 ==> r is Some && r->0@ == row_after(
                self.shown(),
                self.chosen(),
                delta as int,
            ),
    {
        let rows = self.row_ids();
        assert(texts(rows@).len() == rows@.len());
        if rows.len() == 0 {
            return None;
        }
        let current: usize = match self.selected_row() {
            Some(i) => i,
            None => 0,
        };
        let next: usize = step(current, delta, rows.len() - 1);
        assert(texts(rows@)[next as int] == rows@[next as int]@);
        Some(rows[next].clone())
    }

    /// A wheel or trackpad drag over the tree. The *content* slides with the
    /// gesture; the selected task does not change, exactly as the detail pane's
    /// own text scrolls under a stationary reading position.
    ///
    /// The offset clamps against the row count, not the viewport height, which
    /// this type does not know. Overshooting is harmless.
    pub fn scroll_tree(&mut self, delta: isize)
        ensures
            tree_scrolled(*old(self), delta as int, *final(self)),
            old(self).wf() ==> final(self).wf(),
    {
        proof {
            reveal(tree_scrolled);
        }
        let rows = self.row_ids();
        assert(texts(rows@).len() == rows@.len());
        if rows.len() == 0 {
            return;
        }
        self.tree_offset = step(self.tree_offset, delta, rows.len() - 1);
    }

    pub fn select_first(&mut self)
        ensures
            selects(*old(self), first_of(old(self).shown()), *final(self)),
            old(self).wf() ==> final(self).wf(),
    {
        let id = self.first_visible_id();
        self.select(id);
    }

    pub fn select_last(&mut self)
        ensures
            selects(*old(self), last_of(old(self).shown()), *final(self)),
            old(self).wf() ==> final(self).wf(),
    {
        let id = self.last_visible_id();
        self.select(id);
    }

    fn last_visible_id(&self) -> (r: Option<String>)
        ensures
            opt_text(r) == last_of(self.shown()),
    {
        let rows = self.row_ids();
        let n: usize = rows.len();
        assert(texts(rows@).len() == n);
        if n == 0 {
            return None;
        }
        assert(texts(rows@)[n - 1] == rows@[n - 1]@);
        Some(rows[n - 1].clone())
    }

    /// Selecting a different task must not leave you halfway down the old one.
    ///
    /// The single choke point every selection change goes through, which is
    /// what lets `needs_tree_reveal` cover all of them -- a keypress, a click,
    /// a worktree switch's remembered cursor -- for free.
    pub fn select(&mut self, id: Option<String>)
        ensures
            selects(*old(self), opt_text(id), *final(self)),
            old(self).wf() ==> final(self).wf(),
    {
        proof {
            reveal(selects);
        }
        let changed = !same_choice(&id, &self.selected);
        self.detail_scroll = if changed {
            (0, 0)
        } else {
            self.detail_scroll
        };
        self.needs_tree_reveal = self.needs_tree_reveal || changed;
        self.selected = id;
    }

    /// Right arrow: open the node, or step into it if already open.
    /// Returns whether it did anything, so a caller can fall through to
    /// something else when the row has no children to open or step into.
    pub fn expand_selected(&mut self) -> (r: bool)
        ensures
            r == (old(self).chosen() is Some && has_branch(old(self).nodes(), old(self).chosen()->0)),
            expands(*old(self), *final(self)),
            old(self).wf() ==> final(self).wf(),
    {
        proof {
            reveal(expands);
        }
        let id: String = match &self.selected {
            Some(id) => id.clone(),
            None => {
                return false;
            },
        };
        let has_kids = self.is_branch(id.as_str());
        if has_kids && !self.expanded.contains(id.as_str()) {
            self.expanded.insert(id);
        } else if has_kids {
            self.move_selection(1);
        }
        has_kids
    }

    fn is_branch(&self, id: &str) -> (r: bool)
        ensures
            r == has_branch(self.nodes(), id@),
    {
        let nodes = tree::flatten(&self.tree);
        let ghost all = flat(self.nodes());
        for i in 0..nodes.len()
            invariant
                node_ref_views(nodes@) == all,
                all == flat(self.nodes()),
                forall|k: int|
                    0 <= k < i ==> !((#[trigger] all[k]).task.id == id@ && all[k].children.len() > 0),
        {
            let n = nodes[i];
            assert(all[i as int] == n@);
            if same(n.id(), id) && n.children.len() > 0 {
                return true;
            }
        }
        false
    }

    /// Left arrow: close the node, or step out to its parent if already closed.
    pub fn collapse_selected(&mut self)
        ensures
            collapses(*old(self), *final(self)),
            old(self).wf() ==> final(self).wf(),
    {
        proof {
            reveal(collapses);
        }
        let id: String = match &self.selected {
            Some(id) => id.clone(),
            None => {
                return;
            },
        };
        if self.expanded.contains(id.as_str()) {
            self.expanded.remove(id.as_str());
            return;
        }
        let parent: Option<String> = match self.by_id.get(id.as_str()) {
            Some(t) => clone_opt(&t.parent_id),
            None => None,
        };
        assert(self.held().contains_key(id@) == self.by_id@.contains_key(id@));
        if let Some(p) = parent {
            let rows = self.row_ids();
            assert(texts(rows@).len() == rows@.len());
            if position(&rows, p.as_str()) < rows.len() {
                self.select(Some(p));
            }
        }
    }
}

/// What opening the selected node leaves: it is open, or, where it already was,
/// the row below it is selected; nothing where there is nothing below it.
#[verifier::opaque]
pub open spec fn expands(pre: App, post: App) -> bool {
    if pre.chosen() is Some && has_branch(pre.nodes(), pre.chosen()->0) {
        if pre.expanded@.contains(pre.chosen()->0) {
            moved(pre, 1, post)
        } else {
            &&& post == (App { expanded: post.expanded, ..pre })
            &&& post.expanded@ == pre.expanded@.insert(pre.chosen()->0)
        }
    } else {
        post == pre
    }
}

/// The parent of a held task.
pub open spec fn parent_in(held: Map<Seq<char>, TaskView>, id: Seq<char>) -> Option<Seq<char>> {
    if held.contains_key(id) {
        held[id].parent_id
    } else {
        None
    }
}

/// What closing the selected node leaves: it is closed, or, where it already
/// was, its parent is selected, if that has a row.
#[verifier::opaque]
pub open spec fn collapses(pre: App, post: App) -> bool {
    match pre.chosen() {
        None => post == pre,
        Some(id) => if pre.expanded@.contains(id) {
            &&& post == (App { expanded: post.expanded, ..pre })
            &&& post.expanded@ == pre.expanded@.remove(id)
        } else {
            match parent_in(pre.held(), id) {
                Some(p) => if first_index(pre.shown(), p) < pre.shown().len() {
                    selects(pre, Some(p), post)
                } else {
                    post == pre
                },
                None => post == pre,
            }
        },
    }
}

/// What the app opens with: everything expanded, the first row selected, and
/// whatever the config says.
pub open spec fn starts_as(r: App, tasks: Seq<Task>, store_dir: Seq<char>, cfg: Config) -> bool {
    &&& r.tasks@ == tasks
    &&& r.store_dir@ == store_dir
    &&& r.here_store@ == store_dir
    &&& r.store_label@ == label_of(store_dir)
    &&& r.filter == cfg.filter && r.sort == cfg.sort && r.sort_reversed == cfg.sort_reversed
    &&& r.wrap == cfg.wrap && r.animate == cfg.animate
    &&& r.split_percent == cfg.split_percent && r.repos_width == cfg.repos_width
    &&& r.single_pane_below == cfg.single_pane_below && r.repos_pane_above == cfg.repos_pane_above
    &&& r.repos_visible == cfg.repos_open
    &&& r.query.value@ == Seq::<char>::empty() && r.query.cursor == 0
    &&& r.mode is Normal && r.status@ == Seq::<char>::empty()
    &&& !r.should_quit && r.pending_editor is None && !r.pending_config_edit
    &&& r.pending_store is None && r.dragging is None
    &&& r.divider_x == 0 && r.repos_right == 0 && r.body_top == 0 && r.body_bottom == 0
    &&& r.terminal_width == 0 && r.tree_offset == 0 && r.needs_tree_reveal
    &&& r.focus == Focus::Tree && r.detail_scroll == (0u16, 0u16)
    &&& r.detail_content_height == 0 && r.detail_viewport_height == 0
    &&& r.help_scroll == 0 && r.help_content_height == 0 && r.help_viewport_height == 0
    &&& !r.repos_changed && !r.pending_refresh && r.spin_frame == 0 && r.zoom is None
    &&& r.header_zones@.len() == 0 && r.selected_worktree is None
    &&& r.task_memory@ == Map::<Seq<char>, String>::empty()
    &&& r.repos@.len() == 0 && r.selected_repo_row == 0 && r.repos_offset == 0
    &&& !r.force_redraw && r.registry@ == Seq::<Seq<char>>::empty()
    &&& r.here_path is None && !r.here_store_present
    &&& r.store_tasks@ == Map::<Seq<char>, Vec<Task>>::empty()
    &&& r.nodes() == forest(r.task_list(), r.lens())
    &&& r.chosen() == first_of(r.shown())
    &&& forall|id: Seq<char>| #[trigger]
        r.expanded@.contains(id) <==> has_branch(
            forest(
                r.task_list(),
                Lens { query: None, filter: Filter::All, sort: r.sort, reversed: r.sort_reversed },
            ),
            id,
        )
}

// ---------------------------------------------------------------------------
// What moving about promises
// ---------------------------------------------------------------------------

/// Moving steps along the rows: so many down or up from the one selected, to the
/// last or the first where there are not so many. Another task is read from its
/// top and scrolled into view, and nothing else changes.
pub proof fn law_moving_steps_along_the_rows(pre: App, delta: int, post: App, i: int)
    requires
        moved(pre, delta, post),
        pre.shown().no_duplicates(),
        0 <= i < pre.shown().len(),
        pre.chosen() == Some(pre.shown()[i]),
    ensures
        0 <= i + delta < pre.shown().len() ==> post.chosen() == Some(pre.shown()[i + delta]),
        i + delta < 0 ==> post.chosen() == Some(pre.shown()[0]),
        i + delta >= pre.shown().len() ==> post.chosen() == Some(pre.shown().last()),
        post.chosen() != pre.chosen() ==> post.detail_scroll == (0u16, 0u16)
            && post.needs_tree_reveal,
        post.chosen() == pre.chosen() ==> post.detail_scroll == pre.detail_scroll
            && post.needs_tree_reveal == pre.needs_tree_reveal,
        post.tree == pre.tree && post.expanded == pre.expanded && post.tasks == pre.tasks,
        post.tree_offset == pre.tree_offset && post.focus == pre.focus && post.mode == pre.mode,
{
    reveal(moved);
    reveal(selects);
    let rows = pre.shown();
    assert forall|j: int| 0 <= j < i implies rows[j] != rows[i] by {}
    lemma_first_index(rows, rows[i], i);
}

/// A selection that is on no row moves from the first.
pub proof fn law_moving_from_nowhere_starts_at_the_top(pre: App, delta: int, post: App)
    requires
        moved(pre, delta, post),
        pre.shown().len() > 0,
        pre.chosen() is Some ==> !pre.shown().contains(pre.chosen()->0),
        0 <= delta < pre.shown().len(),
    ensures
        post.chosen() == Some(pre.shown()[delta]),
{
    reveal(moved);
    reveal(selects);
    if let Some(id) = pre.chosen() {
        let rows = pre.shown();
        assert forall|j: int| 0 <= j < rows.len() implies rows[j] != id by {
            assert(rows.contains(rows[j]));
        }
        lemma_first_index(rows, id, rows.len() as int);
    }
}

/// Opening a task that has something below it and is closed opens that task
/// alone and keeps the cursor; and closing it again puts everything back.
pub proof fn law_closing_undoes_opening(pre: App, mid: App, post: App, id: Seq<char>)
    requires
        pre.chosen() == Some(id),
        has_branch(pre.nodes(), id),
        !pre.expanded@.contains(id),
        expands(pre, mid),
        collapses(mid, post),
    ensures
        mid.chosen() == Some(id),
        mid.expanded@ == pre.expanded@.insert(id),
        mid.tree == pre.tree && mid.detail_scroll == pre.detail_scroll,
        post.chosen() == Some(id),
        post.expanded@ == pre.expanded@,
        post.rows() == pre.rows(),
{
    reveal(expands);
    reveal(collapses);
    assert(pre.expanded@.insert(id).remove(id) =~= pre.expanded@);
}

/// Stepping out of a task that is closed, or has nothing below it, goes to the
/// task it is filed under, where that has a row, and opens or closes nothing.
pub proof fn law_stepping_out_goes_to_the_parent(
    pre: App,
    post: App,
    id: Seq<char>,
    parent: Seq<char>,
)
    requires
        collapses(pre, post),
        pre.chosen() == Some(id),
        !pre.expanded@.contains(id),
        pre.held().contains_key(id),
        pre.held()[id].parent_id == Some(parent),
    ensures
        pre.shown().contains(parent) ==> post.chosen() == Some(parent),
        pre.shown().contains(parent) && parent != id ==> post.detail_scroll == (0u16, 0u16)
            && post.needs_tree_reveal,
        !pre.shown().contains(parent) ==> post == pre,
        post.expanded == pre.expanded,
{
    reveal(collapses);
    reveal(selects);
    let rows = pre.shown();
    lemma_first_index_finds(rows, parent);
}

proof fn lemma_first_index_finds(ids: Seq<Seq<char>>, id: Seq<char>)
    ensures
        0 <= first_index(ids, id) <= ids.len(),
        first_index(ids, id) < ids.len() <==> ids.contains(id),
        first_index(ids, id) < ids.len() ==> ids[first_index(ids, id)] == id,
    decreases ids.len(),
{
    if ids.len() > 0 && ids[0] != id {
        let t = ids.drop_first();
        lemma_first_index_finds(t, id);
        if t.contains(id) {
            let k = choose|k: int| 0 <= k < t.len() && t[k] == id;
            assert(ids[k + 1] == id);
        }
        if ids.contains(id) {
            let k = choose|k: int| 0 <= k < ids.len() && ids[k] == id;
            assert(t[k - 1] == id);
        }
    } else if ids.len() > 0 {
        assert(ids[0] == id);
    }
}

/// Expanding everything opens exactly the tasks that have anything filed below
/// them, hidden by a filter or not, and collapsing everything closes them all;
/// neither moves the cursor.
pub proof fn law_expanding_everything_opens_every_branch(pre: App, post: App, shut: App)
    requires
        all_expanded(pre, post),
        all_collapsed(post, shut),
    ensures
        tree::all_open(
            forest(
                pre.task_list(),
                Lens { query: None, filter: Filter::All, sort: pre.sort, reversed: pre.sort_reversed },
            ),
            post.expanded@,
        ),
        post.selected == pre.selected && post.tree == pre.tree,
        forall|id: Seq<char>| !#[trigger] shut.expanded@.contains(id),
        shut.selected == pre.selected,
{
    reveal(all_expanded);
    reveal(all_collapsed);
    let whole = forest(
        pre.task_list(),
        Lens { query: None, filter: Filter::All, sort: pre.sort, reversed: pre.sort_reversed },
    );
    assert forall|i: int| 0 <= i < flat(whole).len() && (#[trigger] flat(whole)[i]).children.len()
        > 0 implies post.expanded@.contains(flat(whole)[i].task.id) by {
        assert(has_branch(whole, flat(whole)[i].task.id));
    }
}

/// The app opens on its first row, with everything open that has anything below
/// it, as the config says, and looking at the tree of the store it was given.
pub proof fn law_the_app_opens_on_its_first_row(
    app: App,
    tasks: Seq<Task>,
    store_dir: Seq<char>,
    cfg: Config,
)
    requires
        starts_as(app, tasks, store_dir, cfg),
    ensures
        app.shown().len() > 0 ==> app.chosen() == Some(app.shown()[0]),
        app.shown().len() == 0 ==> app.chosen() is None,
        app.nodes() == forest(app.task_list(), app.lens()),
        app.filter == cfg.filter && app.sort == cfg.sort && app.sort_reversed == cfg.sort_reversed,
        app.wrap == cfg.wrap && app.repos_visible == cfg.repos_open && app.animate == cfg.animate,
        app.single_pane_below == cfg.single_pane_below,
        app.split_percent == cfg.split_percent && app.repos_width == cfg.repos_width,
        app.focus == Focus::Tree && app.mode is Normal && app.query.value@.len() == 0,
        app.store_dir@ == store_dir && app.here_store@ == store_dir,
        tree::all_open(
            forest(
                app.task_list(),
                Lens { query: None, filter: Filter::All, sort: app.sort, reversed: app.sort_reversed },
            ),
            app.expanded@,
        ),
{
    let whole = forest(
        app.task_list(),
        Lens { query: None, filter: Filter::All, sort: app.sort, reversed: app.sort_reversed },
    );
    assert forall|i: int| 0 <= i < flat(whole).len() && (#[trigger] flat(whole)[i]).children.len()
        > 0 implies app.expanded@.contains(flat(whole)[i].task.id) by {
        assert(has_branch(whole, flat(whole)[i].task.id));
    }
}

/// Building the forest anew keeps what was chosen wherever it is still in it,
/// and its detail as it was scrolled; what has gone gives way to the first row,
/// read from its top.
pub proof fn law_a_rebuild_keeps_the_choice(pre: App, choice: Option<Seq<char>>, post: App, i: int)
    requires
        rebuilt_around(pre, choice, post),
    ensures
        choice is Some && 0 <= i < flat(post.nodes()).len() && flat(post.nodes())[i].task.id
            == choice->0 ==> post.chosen() == choice,
        choice is None && post.shown().len() > 0 ==> post.chosen() == Some(post.shown()[0]),
        choice is Some && (forall|j: int|
            0 <= j < flat(post.nodes()).len() ==> (#[trigger] flat(post.nodes())[j]).task.id
                != choice->0) && post.shown().len() > 0 ==> post.chosen() == Some(post.shown()[0]),
        post.chosen() == pre.chosen() ==> post.detail_scroll == pre.detail_scroll,
        post.chosen() != pre.chosen() ==> post.detail_scroll == (0u16, 0u16)
            && post.needs_tree_reveal,
        post.nodes() == forest(pre.task_list(), pre.lens()),
        post.expanded == pre.expanded && post.tasks == pre.tasks && post.focus == pre.focus,
{
    reveal(rebuilt_around);
    reveal(selects);
    if choice is Some && 0 <= i < flat(post.nodes()).len() && flat(post.nodes())[i].task.id
        == choice->0 {
        assert(has_node(post.nodes(), choice->0));
    }
    assert(post.shown() == ids_shown(rows_of(post.nodes(), pre.expanded@)));
}

} // verus!
