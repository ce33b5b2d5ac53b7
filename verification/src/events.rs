//! The mouse, and what comes back from the outside.

use vstd::prelude::*;

use crate::actions::{cursor_put, followed};
use crate::app::{tree_scrolled, App, Divider, Focus, HeaderZone, Mode};
use crate::config::Config;
use crate::dex::{store_problem, store_refused, task_views, Task, TaskView};
use crate::effects::{
    effect_views, flatten, just, nothing, on_one_line, Effect, EffectView, Msg, Verb, VerbView,
};
use crate::modes::{opened, said, ModeView};
use crate::panes::{
    configured, detail_scrolled, divider_of, focused, header_clicked, help_scrolled, item_at,
    law_a_click_lands_on_the_row_under_it, owner_of, sidebar_dragged, split_dragged, tree_clicked,
    zone_from,
};
use crate::refresh::{loaded, refreshed};
use crate::sidebar::{clicked_row, repos_scrolled, store_from};
use crate::text::{concat, opt_text, same, texts};
use crate::tree::IdSet;

verus! {

// ---------------------------------------------------------------------------
// The mouse
// ---------------------------------------------------------------------------

#[derive(Debug, Clone, Copy, PartialEq, Eq, Structural)]
pub enum MouseButton {
    Left,
    Right,
    Middle,
}

#[derive(Debug, Clone, Copy, PartialEq, Eq, Structural)]
pub enum MouseEventKind {
    Down(MouseButton),
    Up(MouseButton),
    Drag(MouseButton),
    Moved,
    ScrollDown,
    ScrollUp,
    ScrollLeft,
    ScrollRight,
}

/// A mouse event, in cells from the top left.
#[derive(Debug, Clone, Copy, PartialEq, Eq, Structural)]
pub struct MouseEvent {
    pub kind: MouseEventKind,
    pub column: u16,
    pub row: u16,
}

/// What taking hold of a divider, or letting go of one, leaves.
#[verifier::opaque]
pub open spec fn held_divider(pre: App, d: Option<Divider>, post: App) -> bool {
    post == (App { dragging: d, ..pre })
}

/// What clicking a pane leaves: it has the focus, and the row under the pointer
/// is selected in it.
pub open spec fn pane_clicked(pre: App, pane: Focus, column: u16, row: u16, post: App) -> bool {
    exists|mid: App| #[trigger]
        focused(pre, pane, mid) && match pane {
            Focus::Tree => tree_clicked(mid, column as int, row as int, post),
            Focus::Detail => post == mid,
            Focus::Repos => cursor_put(
                mid,
                clicked_row(
                    mid.side_rows(),
                    mid.selected_repo_row,
                    item_at(mid, row as int, mid.repos_offset as int),
                ),
                post,
            ),
        }
}

/// What clicking the header leaves: nothing outside its zones.
pub open spec fn header_pressed(pre: App, column: u16, secondary: bool, post: App) -> bool {
    match zone_from(pre.header_zones@, 0, column as int) {
        Some(zone) => header_clicked(pre, zone, secondary, post),
        None => post == pre,
    }
}

/// What a left click below the header leaves: a divider is taken hold of, else a
/// pane is clicked, else nothing.
pub open spec fn body_pressed(pre: App, column: u16, row: u16, post: App) -> bool {
    match divider_of(pre, column as int) {
        Some(d) => held_divider(pre, Some(d), post),
        None => if pre.body_top <= row < pre.body_bottom {
            pane_clicked(pre, owner_of(pre, column as int), column, row, post)
        } else {
            post == pre
        },
    }
}

/// What dragging leaves: whichever divider is held moves.
pub open spec fn dragged(pre: App, column: u16, post: App) -> bool {
    match pre.dragging {
        Some(Divider::Repos) => sidebar_dragged(
            pre,
            column as int,
            pre.terminal_width as int,
            post,
        ),
        Some(Divider::Split) => split_dragged(pre, column as int, pre.terminal_width as int, post),
        None => post == pre,
    }
}

/// What the wheel leaves: the pane under the pointer slides, whatever has the
/// focus.
pub open spec fn wheeled(pre: App, column: u16, delta: int, post: App) -> bool {
    match owner_of(pre, column as int) {
        Focus::Tree => tree_scrolled(pre, delta, post),
        Focus::Detail => detail_scrolled(pre, delta, 0, post),
        Focus::Repos => repos_scrolled(pre, delta, post),
    }
}

/// What a mouse event leaves. With the help open the wheel scrolls it, and
/// nothing reaches through it.
pub open spec fn moused(pre: App, m: MouseEvent, post: App) -> bool {
    if pre.mode is Help {
        match m.kind {
            MouseEventKind::ScrollDown => help_scrolled(pre, 1, post),
            MouseEventKind::ScrollUp => help_scrolled(pre, -1, post),
            _ => post == pre,
        }
    } else {
        match m.kind {
            MouseEventKind::Down(MouseButton::Right) => if m.row == 0 {
                header_pressed(pre, m.column, true, post)
            } else {
                post == pre
            },
            MouseEventKind::Down(MouseButton::Left) => if m.row == 0 {
                header_pressed(pre, m.column, false, post)
            } else {
                body_pressed(pre, m.column, m.row, post)
            },
            MouseEventKind::Drag(MouseButton::Left) => dragged(pre, m.column, post),
            MouseEventKind::Up(_) => held_divider(pre, None, post),
            MouseEventKind::ScrollDown => wheeled(pre, m.column, 1, post),
            MouseEventKind::ScrollUp => wheeled(pre, m.column, -1, post),
            MouseEventKind::ScrollLeft => detail_scrolled(pre, 0, -4, post),
            MouseEventKind::ScrollRight => detail_scrolled(pre, 0, 4, post),
            _ => post == pre,
        }
    }
}

impl App {
    fn hold(&mut self, d: Option<Divider>)
        ensures
            held_divider(*old(self), d, *final(self)),
            old(self).wf() ==> final(self).wf(),
    {
        proof {
            reveal(held_divider);
        }
        self.dragging = d;
    }

    fn press_header(&mut self, column: u16, secondary: bool)
        ensures
            header_pressed(*old(self), column, secondary, *final(self)),
            old(self).wf() ==> final(self).wf(),
    {
        self.click_header(column, secondary);
    }

    fn press_pane(&mut self, pane: Focus, column: u16, row: u16)
        ensures
            pane_clicked(*old(self), pane, column, row, *final(self)),
            old(self).wf() ==> final(self).wf(),
    {
        self.show(pane);
        let ghost mid = *self;
        match pane {
            Focus::Tree => self.click_tree(column, row),
            Focus::Detail => {},
            // Selects, like the tree. A click is how you *look* at a row.
            Focus::Repos => self.press_sidebar(row),
        }
        assert(focused(*old(self), pane, mid));
    }

    fn press_sidebar(&mut self, row: u16)
        ensures
            cursor_put(
                *old(self),
                clicked_row(
                    old(self).side_rows(),
                    old(self).selected_repo_row,
                    item_at(*old(self), row as int, old(self).repos_offset as int),
                ),
                *final(self),
            ),
            old(self).wf() ==> final(self).wf(),
    {
        self.select_repo_at_row(row);
        let ghost mid = *self;
        self.follow_repo_cursor();
        assert(followed(mid, *self));
    }

    fn press_body(&mut self, column: u16, row: u16)
        ensures
            body_pressed(*old(self), column, row, *final(self)),
            old(self).wf() ==> final(self).wf(),
    {
        match self.divider_at(column) {
            Some(d) => self.hold(Some(d)),
            None => {
                if self.in_body(row) {
                    let pane = self.pane_at(column);
                    self.press_pane(pane, column, row);
                }
            },
        }
    }

    fn drag(&mut self, column: u16)
        ensures
            dragged(*old(self), column, *final(self)),
            old(self).wf() ==> final(self).wf(),
    {
        match self.dragging {
            Some(Divider::Repos) => self.set_repos_width(column, self.terminal_width),
            Some(Divider::Split) => self.set_split(column, self.terminal_width),
            None => {},
        }
    }

    fn wheel(&mut self, column: u16, delta: isize)
        requires
            -0x8000 <= delta <= 0x7fff,
        ensures
            wheeled(*old(self), column, delta as int, *final(self)),
            old(self).wf() ==> final(self).wf(),
    {
        match self.pane_at(column) {
            Focus::Tree => self.scroll_tree(delta),
            Focus::Detail => self.scroll_detail(delta as i32, 0),
            Focus::Repos => self.scroll_repos(delta),
        }
    }

    fn mouse_over_help(&mut self, m: MouseEvent)
        requires
            old(self).mode is Help,
        ensures
            moused(*old(self), m, *final(self)),
            old(self).wf() ==> final(self).wf(),
    {
        match m.kind {
            MouseEventKind::ScrollDown => self.scroll_help(1),
            MouseEventKind::ScrollUp => self.scroll_help(-1),
            _ => {},
        }
    }

    fn mouse_over_panes(&mut self, m: MouseEvent)
        requires
            !(old(self).mode is Help),
        ensures
            moused(*old(self), m, *final(self)),
            old(self).wf() ==> final(self).wf(),
    {
        match m.kind {
            // The header row, before anything else: it is above the body, so the
            // divider and pane tests never see it.
            MouseEventKind::Down(MouseButton::Right) => {
                if m.row == 0 {
                    self.press_header(m.column, true);
                }
            },
            MouseEventKind::Down(MouseButton::Left) => {
                if m.row == 0 {
                    self.press_header(m.column, false);
                } else {
                    self.press_body(m.column, m.row);
                }
            },
            MouseEventKind::Drag(MouseButton::Left) => self.drag(m.column),
            MouseEventKind::Up(_) => self.hold(None),
            MouseEventKind::ScrollDown => self.wheel(m.column, 1),
            MouseEventKind::ScrollUp => self.wheel(m.column, -1),
            MouseEventKind::ScrollLeft => self.scroll_detail(0, -4),
            MouseEventKind::ScrollRight => self.scroll_detail(0, 4),
            _ => {},
        }
    }

    /// With the help open the dialog is what the pointer is over, so the wheel
    /// scrolls it rather than a pane it is covering -- and every other gesture
    /// is swallowed rather than reaching through.
    pub fn handle_mouse(&mut self, m: MouseEvent)
        ensures
            moused(*old(self), m, *final(self)),
            old(self).wf() ==> final(self).wf(),
    {
        match self.mode {
            Mode::Help => self.mouse_over_help(m),
            _ => self.mouse_over_panes(m),
        }
    }
}

// ---------------------------------------------------------------------------
// Messages
// ---------------------------------------------------------------------------

/// What a cache of task lists holds.
pub open spec fn cached(m: Map<Seq<char>, Vec<Task>>) -> Map<Seq<char>, Seq<TaskView>> {
    m.map_values(|v: Vec<Task>| task_views(v@))
}

/// What caching a store's list leaves.
#[verifier::opaque]
pub open spec fn store_cached(pre: App, dir: Seq<char>, tasks: Seq<TaskView>, post: App) -> bool {
    &&& post == (App { store_tasks: post.store_tasks, ..pre })
    &&& cached(post.store_tasks@) == cached(pre.store_tasks@).insert(dir, tasks)
}

/// What putting off a refresh leaves.
#[verifier::opaque]
pub open spec fn refresh_deferred(pre: App, post: App) -> bool {
    post == (App { pending_refresh: true, ..pre })
}

/// What a store that has been re-read leaves. It is cached in any case. The one
/// on screen is applied as well, unless a dialog is open: then the refresh waits
/// until it closes.
pub open spec fn store_reread(pre: App, dir: Seq<char>, tasks: Seq<TaskView>, post: App) -> bool {
    exists|mid: App| #[trigger]
        store_cached(pre, dir, tasks, mid) && if dir != pre.store_dir@ {
            post == mid
        } else if pre.mode is Normal || pre.mode is Search {
            refreshed(mid, tasks, post)
        } else {
            refresh_deferred(mid, post)
        }
}

/// What a message leaves, and asks for.
pub open spec fn told(pre: App, msg: Msg, post: App, fx: Seq<EffectView>) -> bool {
    match msg {
        Msg::Tasks { store, result } => {
            &&& fx == Seq::<EffectView>::empty()
            &&& if store@ != pre.store_dir@ {
                post == pre
            } else {
                match result {
                    Ok(tasks) => refreshed(pre, task_views(tasks@), post),
                    Err(e) => said(pre, "refresh failed: "@ + on_one_line(e@), post),
                }
            }
        },
        Msg::Done(message) => said(pre, message@, post) && fx == seq![
            EffectView::Refresh { store: pre.store_dir@ },
        ],
        Msg::Failed(e) => opened(pre, ModeView::Error(on_one_line(e@)), post) && fx == Seq::<
            EffectView,
        >::empty(),
        Msg::CompleteRejected { id, result, error } => {
            &&& fx == Seq::<EffectView>::empty()
            &&& opened(
                pre,
                ModeView::ForceComplete {
                    id: id@,
                    result: result@,
                    message: on_one_line(error@),
                },
                post,
            )
        },
        Msg::StoreLoaded { dir, result } => {
            &&& fx == Seq::<EffectView>::empty()
            &&& match result {
                Ok(tasks) => store_reread(pre, dir@, task_views(tasks@), post),
                Err(_) => post == pre,
            }
        },
    }
}

/// A copy of a list of tasks.
pub fn clone_tasks(tasks: &Vec<Task>) -> (r: Vec<Task>)
    ensures
        task_views(r@) == task_views(tasks@),
{
    let ghost all = task_views(tasks@);
    let mut out: Vec<Task> = Vec::new();
    assert(task_views(out@) =~= all.take(0));
    for i in 0..tasks.len()
        invariant
            all == task_views(tasks@),
            task_views(out@) == all.take(i as int),
    {
        let ghost before = out@;
        let t = tasks[i].clone();
        out.push(t);
        proof {
            assert(task_views(out@) =~= task_views(before).push(all[i as int]));
            assert(all.take(i + 1) =~= all.take(i as int).push(all[i as int]));
        }
    }
    assert(all.take(all.len() as int) =~= all);
    out
}

impl App {
    /// Keeps a store's list for when it is switched to.
    pub fn cache_store(&mut self, dir: String, tasks: Vec<Task>)
        ensures
            store_cached(*old(self), dir@, task_views(tasks@), *final(self)),
            old(self).wf() ==> final(self).wf(),
    {
        proof {
            reveal(store_cached);
        }
        self.store_tasks.insert(dir, tasks);
        assert(cached(self.store_tasks@) =~= cached(old(self).store_tasks@).insert(
            dir@,
            task_views(tasks@),
        ));
    }

    fn defer_refresh(&mut self)
        ensures
            refresh_deferred(*old(self), *final(self)),
            old(self).wf() ==> final(self).wf(),
    {
        proof {
            reveal(refresh_deferred);
        }
        self.pending_refresh = true;
    }

    fn reread(&mut self, dir: String, tasks: Vec<Task>)
        requires
            old(self).wf(),
        ensures
            store_reread(*old(self), dir@, task_views(tasks@), *final(self)),
            final(self).wf(),
    {
        proof {
            reveal(store_cached);
        }
        let on_screen = same(dir.as_str(), self.store_dir.as_str());
        let copy = clone_tasks(&tasks);
        let ghost (at, list) = (dir@, task_views(tasks@));
        // The cache is updated even when a dialog holds the refresh up, so a
        // switch away and back cannot resurrect the older list.
        self.cache_store(dir, copy);
        let ghost mid = *self;
        assert(store_cached(*old(self), at, list, mid));
        if on_screen {
            if self.is_modal() {
                self.defer_refresh();
            } else {
                // What preserves the selection and the expansion set.
                self.apply_tasks(tasks);
            }
        }
    }

    fn receive(&mut self, store: String, result: Result<Vec<Task>, String>)
        requires
            old(self).wf(),
        ensures
            told(*old(self), (Msg::Tasks { store, result }), *final(self), Seq::empty()),
            final(self).wf(),
    {
        // A refresh that was already in flight when the store changed under it
        // describes a store nobody is looking at any more, and painting it would
        // leave the tree and the header disagreeing about which project this is.
        if same(store.as_str(), self.store_dir.as_str()) {
            match result {
                Ok(tasks) => self.apply_tasks(tasks),
                // Keep the last good model rather than blanking the view.
                Err(e) => {
                    let text = concat("refresh failed: ", flatten(e.as_str()).as_str());
                    self.say(text.as_str());
                },
            }
        }
    }

    /// Reacts to what came back from the outside.
    pub fn handle_msg(&mut self, msg: Msg) -> (r: Vec<Effect>)
        requires
            old(self).wf(),
        ensures
            told(*old(self), msg, *final(self), effect_views(r@)),
            final(self).wf(),
    {
        match msg {
            Msg::Tasks { store, result } => {
                self.receive(store, result);
                nothing()
            },
            Msg::Done(message) => {
                let fx = just(Effect::Refresh { store: self.store_dir.clone() });
                self.say(message.as_str());
                fx
            },
            Msg::Failed(e) => {
                self.open(Mode::Error(flatten(e.as_str())));
                nothing()
            },
            Msg::CompleteRejected { id, result, error } => {
                let message = flatten(error.as_str());
                self.open(Mode::ForceComplete { id, result, message });
                nothing()
            },
            // A store's watcher fired and it has been re-read. On failure the
            // cache is left exactly as it was, and without a status message for
            // a store nobody is looking at.
            Msg::StoreLoaded { dir, result } => {
                if let Ok(tasks) = result {
                    self.reread(dir, tasks);
                }
                nothing()
            },
        }
    }

    /// Whether a message can change anything on screen: one for a store nobody
    /// is looking at changes only the cache.
    pub fn is_visible_msg(&self, msg: &Msg) -> (r: bool)
        ensures
            r == (msg matches Msg::StoreLoaded { dir, .. } ==> dir@ == self.store_dir@),
    {
        match msg {
            Msg::StoreLoaded { dir, .. } => same(dir.as_str(), self.store_dir.as_str()),
            _ => true,
        }
    }
}

// ---------------------------------------------------------------------------
// Switching stores
// ---------------------------------------------------------------------------

/// What switching to the store behind a path leaves, and asks for. Nothing when
/// it is the one on screen. A store that has been read is loaded from the cache;
/// one that has not is shown empty while it is read -- never the old store's
/// tasks under the new name.
pub open spec fn store_switched(pre: App, path: Seq<char>, post: App, fx: Seq<EffectView>) -> bool {
    let dir = store_from(pre.repo_list(), 0, path);
    if dir == pre.store_dir@ {
        post == pre && fx == Seq::<EffectView>::empty()
    } else if store_refused(dir) is Some {
        said(pre, "could not switch store: "@ + store_refused(dir)->0, post) && fx == Seq::<
            EffectView,
        >::empty()
    } else if cached(pre.store_tasks@).contains_key(dir) {
        loaded(pre, cached(pre.store_tasks@)[dir], dir, post) && fx == seq![
            EffectView::UseStore { dir },
        ]
    } else {
        loaded(pre, Seq::empty(), dir, post) && fx == seq![
            EffectView::UseStore { dir },
            EffectView::ReadStore { dir },
        ]
    }
}

impl App {
    /// Points the running app at a different worktree's dex store.
    ///
    /// **Does no I/O on the common path**, which is what lets the sidebar cursor
    /// drive the panes as immediately as the tree cursor drives the detail.
    /// Every sidebar store is already listed at startup and kept current by its
    /// own watcher, so a switch is a cache lookup.
    ///
    /// A miss -- a repo registered mid-run, or a store whose read failed -- falls
    /// back to reading it. dex reports the wrong store as an empty project
    /// rather than an error, so the one thing this must never do is make a wrong
    /// store look plausible.
    pub fn switch_store(&mut self, worktree_path: &str) -> (r: Vec<Effect>)
        ensures
            store_switched(*old(self), worktree_path@, *final(self), effect_views(r@)),
            old(self).wf() ==> final(self).wf(),
    {
        let dir = self.store_for_path(worktree_path);
        if same(dir.as_str(), self.store_dir.as_str()) {
            return nothing();
        }
        if let Some(e) = store_problem(dir.as_str()) {
            let text = concat("could not switch store: ", e.as_str());
            self.say(text.as_str());
            return nothing();
        }
        self.enter_store(dir)
    }

    fn cached_list(&self, dir: &str) -> (r: Option<Vec<Task>>)
        ensures
            match r {
                Some(v) => cached(self.store_tasks@).contains_key(dir@) && task_views(v@)
                    == cached(self.store_tasks@)[dir@],
                None => !cached(self.store_tasks@).contains_key(dir@),
            },
    {
        match self.store_tasks.get(dir) {
            Some(v) => Some(clone_tasks(v)),
            None => None,
        }
    }

    fn enter_store(&mut self, dir: String) -> (r: Vec<Effect>)
        ensures
            cached(old(self).store_tasks@).contains_key(dir@) ==> loaded(
                *old(self),
                cached(old(self).store_tasks@)[dir@],
                dir@,
                *final(self),
            ) && effect_views(r@) == seq![EffectView::UseStore { dir: dir@ }],
            !cached(old(self).store_tasks@).contains_key(dir@) ==> loaded(
                *old(self),
                Seq::empty(),
                dir@,
                *final(self),
            ) && effect_views(r@) == seq![
                EffectView::UseStore { dir: dir@ },
                EffectView::ReadStore { dir: dir@ },
            ],
            old(self).wf() ==> final(self).wf(),
    {
        let mut fx = just(Effect::UseStore { dir: dir.clone() });
        match self.cached_list(dir.as_str()) {
            Some(tasks) => {
                self.load_store(tasks, dir);
            },
            None => {
                let ghost before = fx@;
                fx.push(Effect::ReadStore { dir: dir.clone() });
                let none: Vec<Task> = Vec::new();
                proof {
                    let second = EffectView::ReadStore { dir: dir@ };
                    assert(effect_views(fx@) =~= effect_views(before).push(second));
                    assert(effect_views(fx@) =~= seq![
                        EffectView::UseStore { dir: dir@ },
                        EffectView::ReadStore { dir: dir@ },
                    ]);
                    assert(task_views(none@) =~= Seq::empty());
                }
                self.load_store(none, dir);
            },
        }
        fx
    }

    /// The sidebar's stores that have no watcher yet, and whether each still
    /// needs its first read. Asked whenever the repo list changes: stacking a
    /// second watcher on a store that already has one would double every event
    /// it reports.
    pub fn new_stores(&self, watched: &IdSet) -> (r: Vec<(String, bool)>)
        ensures
            new_views(r@) == unwatched(
                crate::sidebar::deduped(
                    crate::sidebar::all_stores(self.repo_list(), self.repos@.len() as int),
                ),
                watched@,
                self.store_tasks@.dom(),
            ),
    {
        let stores = self.sidebar_stores();
        let ghost all = texts(stores@);
        let ghost known = self.store_tasks@.dom();
        let mut out: Vec<(String, bool)> = Vec::new();
        assert(new_views(out@) =~= unwatched(all.take(0), watched@, known));
        for i in 0..stores.len()
            invariant
                all == texts(stores@),
                known == self.store_tasks@.dom(),
                new_views(out@) == unwatched(all.take(i as int), watched@, known),
        {
            let dir = stores[i].as_str();
            proof {
                assert(all[i as int] == dir@);
                assert(all.take(i + 1).drop_last() =~= all.take(i as int));
                assert(all.take(i + 1).last() == dir@);
            }
            if !watched.contains(dir) {
                let ghost before = out@;
                let unread = !self.store_tasks.contains_key(dir);
                out.push((dir.to_owned(), unread));
                assert(new_views(out@) =~= new_views(before).push((dir@, !known.contains(dir@))));
            }
        }
        assert(all.take(all.len() as int) =~= all);
        out
    }
}

/// The texts behind a list of stores to watch.
pub open spec fn new_views(v: Seq<(String, bool)>) -> Seq<(Seq<char>, bool)> {
    v.map_values(|x: (String, bool)| (x.0@, x.1))
}

/// The stores of a list that are not watched, each with whether it is unread.
pub open spec fn unwatched(
    stores: Seq<Seq<char>>,
    watched: Set<Seq<char>>,
    known: Set<Seq<char>>,
) -> Seq<(Seq<char>, bool)>
    decreases stores.len(),
{
    if stores.len() == 0 {
        Seq::empty()
    } else {
        let front = unwatched(stores.drop_last(), watched, known);
        if watched.contains(stores.last()) {
            front
        } else {
            front.push((stores.last(), !known.contains(stores.last())))
        }
    }
}

// ---------------------------------------------------------------------------
// Back from the editor
// ---------------------------------------------------------------------------

/// What comes of editing a description.
pub open spec fn description_edited(
    pre: App,
    id: Seq<char>,
    outcome: Result<Option<String>, String>,
    post: App,
    fx: Seq<EffectView>,
) -> bool {
    match outcome {
        Ok(Some(text)) => post == pre && fx == seq![
            EffectView::Write {
                verb: VerbView::Edit { id, name: None, description: Some(text@) },
                success: "description updated"@,
            },
        ],
        Ok(None) => said(pre, "description unchanged"@, post) && fx == Seq::<EffectView>::empty(),
        Err(e) => opened(pre, ModeView::Error(on_one_line(e@)), post) && fx == Seq::<
            EffectView,
        >::empty(),
    }
}

/// What a reloaded config says.
pub open spec fn reload_report(problem: Option<Seq<char>>) -> Seq<char> {
    match problem {
        Some(p) => "config reloaded, but: "@ + p,
        None => "config reloaded"@,
    }
}

impl App {
    /// The text to edit for a task.
    pub fn description_of(&self, id: &str) -> (r: String)
        ensures
            r@ == (if self.held().contains_key(id@) && self.held()[id@].description is Some {
                self.held()[id@].description->0
            } else {
                Seq::empty()
            }),
    {
        assert(self.held().contains_key(id@) == self.by_id@.contains_key(id@));
        match self.by_id.get(id) {
            Some(t) => match &t.description {
                Some(d) => d.clone(),
                None => String::new(),
            },
            None => String::new(),
        }
    }

    /// Back from editing a description: written back only if the text actually
    /// changed.
    pub fn editor_finished(
        &mut self,
        id: &str,
        outcome: Result<Option<String>, String>,
    ) -> (r: Vec<Effect>)
        ensures
            description_edited(*old(self), id@, outcome, *final(self), effect_views(r@)),
            old(self).wf() ==> final(self).wf(),
    {
        match outcome {
            Ok(Some(text)) => just(
                Effect::Write {
                    verb: Verb::Edit { id: id.to_owned(), name: None, description: Some(text) },
                    success: "description updated".to_owned(),
                },
            ),
            Ok(None) => {
                self.say("description unchanged");
                nothing()
            },
            Err(e) => {
                self.report(e.as_str());
                nothing()
            },
        }
    }

    /// Shows what went wrong.
    pub fn report(&mut self, error: &str)
        ensures
            opened(*old(self), ModeView::Error(on_one_line(error@)), *final(self)),
            old(self).wf() ==> final(self).wf(),
    {
        self.open(Mode::Error(flatten(error)));
    }

    /// Shows what went wrong, as it was said.
    pub fn report_verbatim(&mut self, error: String)
        ensures
            opened(*old(self), ModeView::Error(error@), *final(self)),
            old(self).wf() ==> final(self).wf(),
    {
        self.open(Mode::Error(error));
    }

    /// Back from editing the config, which has been saved and read again.
    pub fn config_reloaded(&mut self, cfg: Config, problem: Option<String>)
        ensures
            exists|mid: App| #[trigger]
                configured(*old(self), cfg, mid) && said(
                    mid,
                    reload_report(opt_text(problem)),
                    *final(self),
                ),
            old(self).wf() ==> final(self).wf(),
    {
        self.apply_config(cfg);
        let ghost mid = *self;
        let text = match problem {
            Some(p) => concat("config reloaded, but: ", p.as_str()),
            None => "config reloaded".to_owned(),
        };
        self.say(text.as_str());
        assert(configured(*old(self), cfg, mid));
    }

    /// Back from editing the config, which was left as it was.
    pub fn config_unchanged(&mut self)
        ensures
            said(*old(self), "config unchanged"@, *final(self)),
            old(self).wf() ==> final(self).wf(),
    {
        self.say("config unchanged");
    }
}

// ---------------------------------------------------------------------------
// What messages promise
// ---------------------------------------------------------------------------

/// A task list from a store that is no longer on screen changes nothing at all.
pub proof fn law_another_stores_tasks_are_dropped(pre: App, msg: Msg, post: App, fx: Seq<EffectView>)
    requires
        told(pre, msg, post, fx),
        msg matches Msg::Tasks { store, .. } && store@ != pre.store_dir@,
    ensures
        post == pre,
        fx == Seq::<EffectView>::empty(),
{
}

/// A refresh that arrives while a dialog is open leaves the dialog, the tasks,
/// the tree and the selection alone, and is owed when the dialog closes.
pub proof fn law_a_refresh_waits_for_a_dialog(
    pre: App,
    dir: Seq<char>,
    tasks: Seq<TaskView>,
    post: App,
)
    requires
        store_reread(pre, dir, tasks, post),
        dir == pre.store_dir@,
        !(pre.mode is Normal || pre.mode is Search),
    ensures
        post.mode == pre.mode,
        post.tasks == pre.tasks && post.tree == pre.tree && post.selected == pre.selected,
        post.expanded == pre.expanded,
        post.pending_refresh,
        cached(post.store_tasks@).contains_key(dir) && cached(post.store_tasks@)[dir] == tasks,
{
    reveal(store_cached);
    reveal(refresh_deferred);
}

/// A store nobody is looking at is re-read without anything on screen changing.
pub proof fn law_a_hidden_store_disturbs_nothing(
    pre: App,
    dir: Seq<char>,
    tasks: Seq<TaskView>,
    post: App,
)
    requires
        store_reread(pre, dir, tasks, post),
        dir != pre.store_dir@,
    ensures
        post == (App { store_tasks: post.store_tasks, ..pre }),
{
    reveal(store_cached);
}

/// A switch never shows one store's tasks under another's name: what is shown
/// afterwards is the new store's own list, or nothing.
pub proof fn law_a_switch_never_mixes_stores(
    pre: App,
    path: Seq<char>,
    post: App,
    fx: Seq<EffectView>,
)
    requires
        store_switched(pre, path, post, fx),
        post.store_dir@ != pre.store_dir@,
    ensures
        post.task_list() == (if cached(pre.store_tasks@).contains_key(post.store_dir@) {
            cached(pre.store_tasks@)[post.store_dir@]
        } else {
            Seq::empty()
        }),
        post.store_label@ == crate::dex::label_of(post.store_dir@),
{
    reveal(loaded);
    reveal(said);
}

/// Whether an event is the wheel, or a trackpad sliding.
pub open spec fn is_wheel(kind: MouseEventKind) -> bool {
    match kind {
        MouseEventKind::ScrollDown | MouseEventKind::ScrollUp => true,
        MouseEventKind::ScrollLeft | MouseEventKind::ScrollRight => true,
        _ => false,
    }
}

/// The wheel only moves the view: the selected task, the tree's shape, the
/// store being read and the pane with the focus all stay, and no other store is
/// asked for.
pub proof fn law_the_wheel_only_moves_the_view(pre: App, m: MouseEvent, post: App)
    requires
        moused(pre, m, post),
        is_wheel(m.kind),
    ensures
        post.selected == pre.selected,
        post.expanded == pre.expanded,
        post.tasks == pre.tasks,
        post.store_dir == pre.store_dir,
        post.pending_store == pre.pending_store,
        post.selected_worktree == pre.selected_worktree,
        post.focus == pre.focus,
{
    reveal(help_scrolled);
    reveal(tree_scrolled);
    reveal(detail_scrolled);
    reveal(repos_scrolled);
}

/// What comes back from the outside does what it says. A list for the store on
/// screen replaces the one shown. A change that went through says so and asks
/// for that store again; one that failed opens an error with what was wrong. A
/// refused completion offers to force that very completion. A store that could
/// not be read changes nothing.
pub proof fn law_messages_do_what_they_say(pre: App, msg: Msg, post: App, fx: Seq<EffectView>)
    requires
        told(pre, msg, post, fx),
    ensures
        match msg {
            Msg::Tasks { store, result } => {
                &&& fx.len() == 0
                &&& store@ == pre.store_dir@ && result is Ok ==> post.task_list() == task_views(
                    result->Ok_0@,
                ) && post.status == pre.status
                &&& store@ == pre.store_dir@ && result is Err ==> post.tasks == pre.tasks
                    && post.status@ == "refresh failed: "@ + on_one_line(result->Err_0@)
            },
            Msg::Done(text) => post.status@ == text@ && post.tasks == pre.tasks && fx.len() == 1
                && fx[0] == (EffectView::Refresh { store: pre.store_dir@ }),
            Msg::Failed(e) => fx.len() == 0 && post.mode@ == ModeView::Error(on_one_line(e@))
                && post.tasks == pre.tasks,
            Msg::CompleteRejected { id, result, error } => fx.len() == 0 && post.mode@ is ForceComplete
                && post.mode@->ForceComplete_id == id@ && post.mode@->ForceComplete_result
                == result@ && post.mode@->ForceComplete_message == on_one_line(error@),
            Msg::StoreLoaded { dir, result } => {
                &&& fx.len() == 0
                &&& result is Err ==> post == pre
                &&& result is Ok ==> cached(post.store_tasks@) == cached(pre.store_tasks@).insert(
                    dir@,
                    task_views(result->Ok_0@),
                )
                &&& result is Ok && dir@ == pre.store_dir@ && (pre.mode is Normal || pre.mode
                    is Search) ==> post.task_list() == task_views(result->Ok_0@)
                &&& result is Ok && dir@ == pre.store_dir@ && !(pre.mode is Normal || pre.mode
                    is Search) ==> post.tasks == pre.tasks && post.pending_refresh
                &&& dir@ != pre.store_dir@ ==> post.tasks == pre.tasks && post.selected
                    == pre.selected
            },
        },
        post.store_dir == pre.store_dir,
{
    reveal(refreshed);
    reveal(said);
    reveal(opened);
    reveal(store_cached);
    reveal(refresh_deferred);
}

/// An edited description is written to the task it was opened from, as the
/// description and nothing else; an unchanged one writes nothing.
pub proof fn law_an_edited_description_is_written_as_one(
    pre: App,
    id: Seq<char>,
    outcome: Result<Option<String>, String>,
    post: App,
    fx: Seq<EffectView>,
)
    requires
        description_edited(pre, id, outcome, post, fx),
    ensures
        outcome is Ok && outcome->Ok_0 is Some ==> fx.len() == 1 && fx[0] is Write && fx[0]->verb == (
        VerbView::Edit { id, name: None, description: Some(outcome->Ok_0->0@) }) && post == pre,
        outcome is Ok && outcome->Ok_0 is None ==> fx.len() == 0 && post.mode == pre.mode
            && post.tasks == pre.tasks,
        outcome is Err ==> fx.len() == 0 && post.mode@ is Error,
{
    reveal(said);
    reveal(opened);
}

/// Switching to a store shows what is held of it at once, and asks for it only
/// when nothing is; dex is pointed there either way, and nothing happens for the
/// store that is already shown.
pub proof fn law_a_switch_shows_what_is_held(
    pre: App,
    path: Seq<char>,
    post: App,
    fx: Seq<EffectView>,
    dir: Seq<char>,
)
    requires
        store_switched(pre, path, post, fx),
        store_from(pre.repo_list(), 0, path) == dir,
        store_refused(dir) is None,
    ensures
        dir == pre.store_dir@ ==> post == pre && fx.len() == 0,
        dir != pre.store_dir@ ==> post.store_dir@ == dir && fx.len() >= 1 && fx[0] == (
        EffectView::UseStore { dir }),
        dir != pre.store_dir@ && pre.store_tasks@.contains_key(dir) ==> post.task_list()
            == task_views(pre.store_tasks@[dir]@) && fx.len() == 1,
        dir != pre.store_dir@ && !pre.store_tasks@.contains_key(dir) ==> post.tasks@.len() == 0
            && fx.len() == 2 && fx[1] == (EffectView::ReadStore { dir }),
{
    reveal(loaded);
    assert(cached(pre.store_tasks@).contains_key(dir) == pre.store_tasks@.contains_key(dir));
    assert(task_views(post.tasks@).len() == post.tasks@.len());
}

/// The stores to watch are those of the sidebar that are not watched yet, each
/// read unless a list of it is held.
pub proof fn law_only_new_stores_are_watched(
    stores: Seq<Seq<char>>,
    watched: Set<Seq<char>>,
    known: Set<Seq<char>>,
    dir: Seq<char>,
    read: bool,
)
    ensures
        unwatched(stores, watched, known).contains((dir, read)) <==> stores.contains(dir)
            && !watched.contains(dir) && read == !known.contains(dir),
    decreases stores.len(),
{
    if stores.len() > 0 {
        let front = stores.drop_last();
        law_only_new_stores_are_watched(front, watched, known, dir, read);
        let (f, all) = (unwatched(front, watched, known), unwatched(stores, watched, known));
        assert(stores[stores.len() - 1] == stores.last());
        if front.contains(dir) {
            let k = choose|k: int| 0 <= k < front.len() && front[k] == dir;
            assert(stores[k] == dir);
        }
        if stores.contains(dir) && stores.last() != dir {
            let k = choose|k: int| 0 <= k < stores.len() && stores[k] == dir;
            assert(front[k] == dir);
        }
        if f.contains((dir, read)) {
            let k = choose|k: int| 0 <= k < f.len() && f[k] == (dir, read);
            assert(all[k] == (dir, read));
        }
        if all.contains((dir, read)) {
            let k = choose|k: int| 0 <= k < all.len() && all[k] == (dir, read);
            if k < f.len() {
                assert(f[k] == (dir, read));
            }
        }
        if !watched.contains(stores.last()) {
            assert(all[all.len() - 1] == (stores.last(), !known.contains(stores.last())));
        }
    }
}

/// A left click on a row of the tree selects the task drawn there and goes to
/// the tree; one in the detail goes there and selects nothing; one on a divider
/// takes hold of it; and one outside the panes does nothing.
pub proof fn law_a_left_click_goes_where_it_points(pre: App, m: MouseEvent, post: App, k: int)
    requires
        moused(pre, m, post),
        m.kind == MouseEventKind::Down(MouseButton::Left),
        !(pre.mode is Help),
        m.row > 0,
    ensures
        divider_of(pre, m.column as int) is Some ==> post.dragging == divider_of(
            pre,
            m.column as int,
        ) && post.selected == pre.selected && post.focus == pre.focus,
        divider_of(pre, m.column as int) is None && !(pre.body_top <= m.row < pre.body_bottom)
            ==> post == pre,
        divider_of(pre, m.column as int) is None && pre.body_top <= m.row < pre.body_bottom
            && owner_of(pre, m.column as int) == Focus::Detail ==> post.focus == Focus::Detail
            && post.selected == pre.selected,
        divider_of(pre, m.column as int) is None && pre.body_top <= m.row && owner_of(
            pre,
            m.column as int,
        ) == Focus::Tree && 0 <= k && m.row == pre.body_top + 1 + k && m.row < pre.body_bottom - 1
            && pre.tree_offset + k < pre.rows().len() ==> post.chosen() == Some(
            pre.rows()[pre.tree_offset + k].node.task.id,
        ) && post.focus == Focus::Tree,
{
    reveal(held_divider);
    reveal(focused);
    if divider_of(pre, m.column as int) is None && pre.body_top <= m.row < pre.body_bottom {
        let pane = owner_of(pre, m.column as int);
        let mid = choose|mid: App| #[trigger]
            focused(pre, pane, mid) && match pane {
                Focus::Tree => tree_clicked(mid, m.column as int, m.row as int, post),
                Focus::Detail => post == mid,
                Focus::Repos => cursor_put(
                    mid,
                    clicked_row(
                        mid.side_rows(),
                        mid.selected_repo_row,
                        item_at(mid, m.row as int, mid.repos_offset as int),
                    ),
                    post,
                ),
            };
        if pane == Focus::Tree && 0 <= k && m.row == pre.body_top + 1 + k {
            assert(mid.rows() == pre.rows());
            law_a_click_lands_on_the_row_under_it(mid, m.column as int, m.row as int, post, k);
            lemma_tree_click_keeps_the_focus(mid, m.column as int, m.row as int, post);
        }
    }
}

proof fn lemma_tree_click_keeps_the_focus(pre: App, column: int, row: int, post: App)
    requires
        tree_clicked(pre, column, row, post),
    ensures
        post.focus == pre.focus,
{
    reveal(tree_clicked);
    reveal(crate::panes::pressed);
    reveal(crate::app::selects);
}

/// Dragging moves the divider that is held and no other, and letting go holds
/// none.
pub proof fn law_a_drag_moves_what_is_held(pre: App, m: MouseEvent, post: App)
    requires
        moused(pre, m, post),
        !(pre.mode is Help),
    ensures
        m.kind == MouseEventKind::Drag(MouseButton::Left) && pre.dragging is None ==> post == pre,
        m.kind == MouseEventKind::Drag(MouseButton::Left) && pre.dragging == Some(Divider::Split)
            ==> split_dragged(pre, m.column as int, pre.terminal_width as int, post),
        m.kind == MouseEventKind::Drag(MouseButton::Left) && pre.dragging == Some(Divider::Repos)
            ==> sidebar_dragged(pre, m.column as int, pre.terminal_width as int, post),
        m.kind is Up ==> post.dragging is None && post.split_percent == pre.split_percent
            && post.repos_width == pre.repos_width,
{
    reveal(held_divider);
}

/// The wheel scrolls the pane under it by a row, and the help while that is
/// open; sideways it goes by four columns.
pub proof fn law_the_wheel_scrolls_what_is_under_it(pre: App, m: MouseEvent, post: App)
    requires
        moused(pre, m, post),
        pre.rows().len() <= usize::MAX,
        pre.side_rows().len() <= usize::MAX,
    ensures
        ({
            let down = m.kind == MouseEventKind::ScrollDown;
            let up = m.kind == MouseEventKind::ScrollUp;
            let under = owner_of(pre, m.column as int);
            let rows = pre.rows().len();
            let side = pre.side_rows().len();
            let help = pre.help_content_height - pre.help_viewport_height;
            let detail = pre.detail_content_height - pre.detail_viewport_height;
            &&& pre.mode is Help && down && pre.help_scroll < help ==> post.help_scroll
                == pre.help_scroll + 1
            &&& pre.mode is Help && up && 0 < pre.help_scroll <= help ==> post.help_scroll
                == pre.help_scroll - 1
            &&& pre.mode is Help && m.kind is Down ==> post == pre
            &&& !(pre.mode is Help) && under == Focus::Tree && down && pre.tree_offset + 1 < rows
                ==> post.tree_offset == pre.tree_offset + 1
            &&& !(pre.mode is Help) && under == Focus::Tree && up && 0 < pre.tree_offset <= rows
                ==> post.tree_offset == pre.tree_offset - 1
            &&& !(pre.mode is Help) && under == Focus::Detail && down && pre.detail_scroll.0
                < detail ==> post.detail_scroll.0 == pre.detail_scroll.0 + 1 && post.tree_offset
                == pre.tree_offset
            &&& !(pre.mode is Help) && under == Focus::Detail && up && 0 < pre.detail_scroll.0
                <= detail ==> post.detail_scroll.0 == pre.detail_scroll.0 - 1
            &&& !(pre.mode is Help) && under == Focus::Repos && down && pre.repos_offset + 1 < side
                ==> post.repos_offset == pre.repos_offset + 1
            &&& !(pre.mode is Help) && !pre.wrap && m.kind == MouseEventKind::ScrollRight
                && pre.detail_scroll.1 + 4 < 65536 ==> post.detail_scroll.1 == pre.detail_scroll.1
                + 4
            &&& !(pre.mode is Help) && !pre.wrap && m.kind == MouseEventKind::ScrollLeft
                && pre.detail_scroll.1 >= 4 ==> post.detail_scroll.1 == pre.detail_scroll.1 - 4
        }),
{
    assert(pre.shown().len() == pre.rows().len());
    if pre.mode is Help {
        reveal(help_scrolled);
    } else if m.kind == MouseEventKind::ScrollRight || m.kind == MouseEventKind::ScrollLeft {
        reveal(detail_scrolled);
    } else if is_wheel(m.kind) {
        match owner_of(pre, m.column as int) {
            Focus::Tree => {
                reveal(tree_scrolled);
            },
            Focus::Detail => {
                reveal(detail_scrolled);
            },
            Focus::Repos => {
                reveal(repos_scrolled);
            },
        }
    }
}

/// In the header the left button takes what is under it and the right one turns
/// the order round.
pub proof fn law_the_buttons_differ_in_the_header(
    pre: App,
    m: MouseEvent,
    post: App,
    zone: HeaderZone,
)
    requires
        moused(pre, m, post),
        !(pre.mode is Help),
        m.row == 0,
        zone_from(pre.header_zones@, 0, m.column as int) == Some(zone),
    ensures
        m.kind == MouseEventKind::Down(MouseButton::Left) && zone is Sort ==> post.sort
            == zone->Sort_0 && post.sort_reversed == pre.sort_reversed,
        m.kind == MouseEventKind::Down(MouseButton::Right) && zone is Sort ==> post.sort
            == zone->Sort_0 && post.sort_reversed != pre.sort_reversed,
        m.kind == MouseEventKind::Down(MouseButton::Left) && zone is Filter ==> post.filter
            == zone->Filter_0,
        m.kind == MouseEventKind::Down(MouseButton::Right) && zone is Filter ==> post == pre,
{
    if m.kind == MouseEventKind::Down(MouseButton::Left) {
        crate::panes::law_the_header_picks_what_it_names(pre, zone, false, post);
    }
    if m.kind == MouseEventKind::Down(MouseButton::Right) {
        crate::panes::law_the_header_picks_what_it_names(pre, zone, true, post);
    }
}

} // verus!
