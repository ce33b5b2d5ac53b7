//! The repo sidebar: its cursor, the stores behind its rows, and saving.

use vstd::prelude::*;

use crate::app::{clamped, step, App};
use crate::counts::{counts_for, counts_of, Counts};
use crate::dex::{indexed, task_views};
use crate::panes::item_at;
use crate::registry::{saved_as, with_path, without_path, Registry};
use crate::repos;
use crate::repos::{
    any_saved, block, can_rest, has_place, lemma_saved_rows_contain, owner_of, repo_row_views,
    repo_views, saved_rows, shown_here, sidebar, store_dir, store_of, store_under, Repo, RepoView,
    Row, RowView,
};
use crate::text::{opt_text, same, same_opt, texts};
use crate::worktree::{worktree_views, Worktree, WorktreeView};

verus! {

// ---------------------------------------------------------------------------
// Rows
// ---------------------------------------------------------------------------

/// Where a path's repo is in the list: its length when there is none.
pub open spec fn repo_at(repos: Seq<RepoView>, path: Seq<char>) -> int
    decreases repos.len(),
{
    if repos.len() == 0 || repos[0].path == path {
        0
    } else {
        1 + repo_at(repos.drop_first(), path)
    }
}

/// The repo that goes under `here`: the one dextui was launched in, when there
/// is a store there to show.
pub open spec fn here_in(repos: Seq<RepoView>, path: Option<Seq<char>>, present: bool) -> Option<
    usize,
> {
    match path {
        Some(p) => if present && repo_at(repos, p) < repos.len() {
            Some(repo_at(repos, p) as usize)
        } else {
            None
        },
        None => None,
    }
}

impl App {
    /// What each repo says.
    #[verifier::inline]
    pub open spec fn repo_list(&self) -> Seq<RepoView> {
        repo_views(self.repos@)
    }

    /// The sidebar's rows.
    #[verifier::inline]
    pub open spec fn side_rows(&self) -> Seq<RowView> {
        sidebar(
            repo_views(self.repos@),
            here_in(repo_views(self.repos@), opt_text(self.here_path), self.here_store_present),
        )
    }
}

/// The first row from `i` on the cursor may rest on: the length when there is
/// none.
pub open spec fn place_from(rows: Seq<RowView>, i: int) -> int
    decreases rows.len() - i,
{
    if i >= rows.len() {
        rows.len() as int
    } else if can_rest(rows[i]) {
        i
    } else {
        place_from(rows, i + 1)
    }
}

/// The last row up to `i` the cursor may rest on: -1 when there is none.
pub open spec fn place_upto(rows: Seq<RowView>, i: int) -> int
    decreases i + 1,
{
    if i < 0 {
        -1
    } else if can_rest(rows[i]) {
        i
    } else {
        place_upto(rows, i - 1)
    }
}

/// The smaller of two numbers.
pub open spec fn lesser(a: int, b: int) -> int {
    if a < b {
        a
    } else {
        b
    }
}

/// The nearest row the cursor may rest on, searching in the direction of travel
/// and then back the other way.
pub open spec fn nearest(rows: Seq<RowView>, from: int, forward: bool) -> Option<int> {
    let n = rows.len() as int;
    if n == 0 {
        None
    } else if forward {
        if place_from(rows, from) < n {
            Some(place_from(rows, from))
        } else if place_upto(rows, lesser(from, n) - 1) >= 0 {
            Some(place_upto(rows, lesser(from, n) - 1))
        } else {
            None
        }
    } else if place_upto(rows, lesser(from, n - 1)) >= 0 {
        Some(place_upto(rows, lesser(from, n - 1)))
    } else if place_from(rows, lesser(from, n - 1)) < n {
        Some(place_from(rows, lesser(from, n - 1)))
    } else {
        None
    }
}

/// The nearest row, or where the cursor already is when there is none.
pub open spec fn rest_near(rows: Seq<RowView>, at: usize, from: int, forward: bool) -> usize {
    match nearest(rows, from, forward) {
        Some(i) => i as usize,
        None => at,
    }
}

/// Where a step takes the sidebar's cursor.
pub open spec fn stepped(rows: Seq<RowView>, at: usize, delta: int) -> usize {
    if rows.len() == 0 {
        at
    } else {
        rest_near(rows, at, clamped(at + delta, 0, rows.len() - 1), delta >= 0)
    }
}

/// What moving the sidebar's cursor leaves.
#[verifier::opaque]
pub open spec fn row_moved(pre: App, to: usize, post: App) -> bool {
    post == (App { selected_repo_row: to, ..pre })
}

/// What a wheel over the sidebar leaves: the content slides, and the cursor
/// with it.
#[verifier::opaque]
pub open spec fn repos_scrolled(pre: App, delta: int, post: App) -> bool {
    post == (App {
        repos_offset: if pre.side_rows().len() == 0 {
            pre.repos_offset
        } else {
            clamped(pre.repos_offset + delta, 0, pre.side_rows().len() - 1) as usize
        },
        selected_repo_row: stepped(pre.side_rows(), pre.selected_repo_row, delta),
        ..pre
    })
}

/// Where a click takes the sidebar's cursor: nowhere but onto a row it may rest
/// on.
pub open spec fn clicked_row(rows: Seq<RowView>, at: usize, item: Option<int>) -> usize {
    match item {
        Some(i) => if i < rows.len() && can_rest(rows[i]) {
            i as usize
        } else {
            at
        },
        None => at,
    }
}

/// The row under the cursor.
pub open spec fn row_under_cursor(rows: Seq<RowView>, at: usize) -> Option<RowView> {
    if at < rows.len() {
        Some(rows[at as int])
    } else {
        None
    }
}

/// The repo owning a row.
pub open spec fn owned_by(row: Option<RowView>) -> Option<int> {
    match row {
        Some(r) => owner_of(r),
        None => None,
    }
}

/// The worktree path behind a row: a repo's own row stands for its main one.
pub open spec fn path_behind(repos: Seq<RepoView>, row: Option<RowView>) -> Option<Seq<char>> {
    match row {
        Some(RowView::Repo { index }) => Some(repos[index].path),
        Some(RowView::Worktree { repo, index }) => Some(repos[repo].worktrees[index].path),
        _ => None,
    }
}

// ---------------------------------------------------------------------------
// Stores
// ---------------------------------------------------------------------------

/// Where a path's worktree is in a list: its length when there is none.
pub open spec fn worktree_at(ws: Seq<WorktreeView>, path: Seq<char>) -> int
    decreases ws.len(),
{
    if ws.len() == 0 || ws[0].path == path {
        0
    } else {
        1 + worktree_at(ws.drop_first(), path)
    }
}

/// The store behind a path, by the first repo from `i` on that owns it.
pub open spec fn store_from(repos: Seq<RepoView>, i: int, path: Seq<char>) -> Seq<char>
    decreases repos.len() - i,
{
    if i >= repos.len() {
        store_under(path)
    } else {
        let r = repos[i];
        let k = worktree_at(r.worktrees, path);
        if k < r.worktrees.len() {
            store_of(r, Some(r.worktrees[k]))
        } else if r.path == path {
            store_of(r, None)
        } else {
            store_from(repos, i + 1, path)
        }
    }
}

/// The stores of one repo: one for each worktree, or its own when it has none.
pub open spec fn stores_in(r: RepoView) -> Seq<Seq<char>> {
    if r.worktrees.len() == 0 {
        seq![store_of(r, None)]
    } else {
        r.worktrees.map_values(|w: WorktreeView| store_of(r, Some(w)))
    }
}

/// The stores of the first `n` repos.
pub open spec fn all_stores(repos: Seq<RepoView>, n: int) -> Seq<Seq<char>>
    decreases n,
{
    if n <= 0 {
        Seq::empty()
    } else {
        all_stores(repos, n - 1) + stores_in(repos[n - 1])
    }
}

/// A list without what has already occurred in it.
pub open spec fn deduped(s: Seq<Seq<char>>) -> Seq<Seq<char>>
    decreases s.len(),
{
    if s.len() == 0 {
        Seq::empty()
    } else if deduped(s.drop_last()).contains(s.last()) {
        deduped(s.drop_last())
    } else {
        deduped(s.drop_last()).push(s.last())
    }
}

/// Whether a row stands for a store.
pub open spec fn stands_for(repos: Seq<RepoView>, row: RowView, store: Seq<char>) -> bool {
    match row {
        RowView::Repo { index } => store_of(repos[index], None) == store,
        RowView::Worktree { repo, index } => store_of(
            repos[repo],
            Some(repos[repo].worktrees[index]),
        ) == store,
        _ => false,
    }
}

/// The first row from `i` on that stands for a store, or where the cursor is.
pub open spec fn store_row(
    repos: Seq<RepoView>,
    rows: Seq<RowView>,
    i: int,
    store: Seq<char>,
    at: usize,
) -> usize
    decreases rows.len() - i,
{
    if i >= rows.len() {
        at
    } else if stands_for(repos, rows[i], store) {
        i as usize
    } else {
        store_row(repos, rows, i + 1, store, at)
    }
}

// ---------------------------------------------------------------------------
// Saving
// ---------------------------------------------------------------------------

/// What saving a repo leaves.
#[verifier::opaque]
pub open spec fn registry_changed(pre: App, post: App) -> bool {
    post == (App { registry: post.registry, ..pre })
}

/// The repos with one no longer saved.
pub open spec fn unsaved(repos: Seq<RepoView>, path: Seq<char>) -> Seq<RepoView> {
    let k = repo_at(repos, path);
    if k < repos.len() {
        repos.update(k, RepoView { registered: false, ..repos[k] })
    } else {
        repos
    }
}

/// A repo that keeps its row: one that is saved, or the one you are in.
pub open spec fn keeps_row(here: Option<Seq<char>>) -> spec_fn(RepoView) -> bool {
    |r: RepoView| r.registered || here == Some(r.path)
}

/// The repos once one has been unsaved.
pub open spec fn repos_without(
    repos: Seq<RepoView>,
    path: Seq<char>,
    here: Option<Seq<char>>,
) -> Seq<RepoView> {
    unsaved(repos, path).filter(keeps_row(here))
}

/// What dropping an unsaved repo leaves: its row goes unless you are in it, and
/// the cursor stays on the list.
#[verifier::opaque]
pub open spec fn row_dropped(pre: App, path: Seq<char>, post: App) -> bool {
    &&& post == (App {
        registry: post.registry,
        repos: post.repos,
        selected_repo_row: lesser(
            pre.selected_repo_row as int,
            crate::panes::less_by(post.side_rows().len() as int, 1),
        ) as usize,
        ..pre
    })
    &&& post.repo_list() == repos_without(pre.repo_list(), path, opt_text(pre.here_path))
}

proof fn lemma_repo_at(repos: Seq<RepoView>, path: Seq<char>, i: int)
    requires
        0 <= i <= repos.len(),
        forall|j: int| 0 <= j < i ==> (#[trigger] repos[j]).path != path,
        i < repos.len() ==> repos[i].path == path,
    ensures
        repo_at(repos, path) == i,
    decreases repos.len(),
{
    if i > 0 {
        assert(repos[0].path != path);
        let t = repos.drop_first();
        assert forall|j: int| 0 <= j < i - 1 implies (#[trigger] t[j]).path != path by {
            assert(t[j] == repos[j + 1]);
        }
        lemma_repo_at(t, path, i - 1);
    }
}

pub proof fn lemma_repo_at_bounds(repos: Seq<RepoView>, path: Seq<char>)
    ensures
        0 <= repo_at(repos, path) <= repos.len(),
        repo_at(repos, path) < repos.len() ==> repos[repo_at(repos, path)].path == path,
    decreases repos.len(),
{
    if repos.len() > 0 && repos[0].path != path {
        lemma_repo_at_bounds(repos.drop_first(), path);
    }
}

proof fn lemma_worktree_at(ws: Seq<WorktreeView>, path: Seq<char>, i: int)
    requires
        0 <= i <= ws.len(),
        forall|j: int| 0 <= j < i ==> (#[trigger] ws[j]).path != path,
        i < ws.len() ==> ws[i].path == path,
    ensures
        worktree_at(ws, path) == i,
    decreases ws.len(),
{
    if i > 0 {
        assert(ws[0].path != path);
        let t = ws.drop_first();
        assert forall|j: int| 0 <= j < i - 1 implies (#[trigger] t[j]).path != path by {
            assert(t[j] == ws[j + 1]);
        }
        lemma_worktree_at(t, path, i - 1);
    }
}

pub(crate) fn find_repo(list: &Vec<Repo>, path: &str) -> (r: usize)
    ensures
        r == repo_at(repo_views(list@), path@),
        r <= list@.len(),
{
    let ghost all = repo_views(list@);
    for i in 0..list.len()
        invariant
            all == repo_views(list@),
            forall|j: int| 0 <= j < i ==> (#[trigger] all[j]).path != path@,
    {
        assert(all[i as int] == list@[i as int]@);
        if same(list[i].path.as_str(), path) {
            proof {
                lemma_repo_at(all, path@, i as int);
            }
            return i;
        }
    }
    proof {
        lemma_repo_at(all, path@, all.len() as int);
    }
    list.len()
}

fn find_worktree(list: &Vec<Worktree>, path: &str) -> (r: usize)
    ensures
        r == worktree_at(worktree_views(list@), path@),
        r <= list@.len(),
{
    let ghost all = worktree_views(list@);
    for i in 0..list.len()
        invariant
            all == worktree_views(list@),
            forall|j: int| 0 <= j < i ==> (#[trigger] all[j]).path != path@,
    {
        assert(all[i as int] == list@[i as int]@);
        if same(list[i].path.as_str(), path) {
            proof {
                lemma_worktree_at(all, path@, i as int);
            }
            return i;
        }
    }
    proof {
        lemma_worktree_at(all, path@, all.len() as int);
    }
    list.len()
}

fn first_place(rows: &Vec<Row>, from: usize) -> (r: usize)
    ensures
        r == place_from(repo_row_views(rows@), from as int),
        r <= rows@.len(),
{
    let ghost all = repo_row_views(rows@);
    let mut i: usize = from;
    while i < rows.len()
        invariant
            all == repo_row_views(rows@),
            place_from(all, i as int) == place_from(all, from as int),
        decreases rows.len() - i,
    {
        assert(all[i as int] == rows@[i as int]@);
        if rows[i].selectable() {
            return i;
        }
        i = i + 1;
    }
    rows.len()
}

fn last_place(rows: &Vec<Row>, upto: usize) -> (r: Option<usize>)
    requires
        upto <= rows@.len(),
    ensures
        match r {
            Some(i) => i == place_upto(repo_row_views(rows@), upto - 1) && i < upto,
            None => place_upto(repo_row_views(rows@), upto - 1) == -1,
        },
{
    let ghost all = repo_row_views(rows@);
    let mut i: usize = upto;
    while i > 0
        invariant
            all == repo_row_views(rows@),
            i <= upto <= rows@.len(),
            place_upto(all, i - 1) == place_upto(all, upto - 1),
        decreases i,
    {
        assert(all[i - 1] == rows@[i - 1]@);
        if rows[i - 1].selectable() {
            return Some(i - 1);
        }
        i = i - 1;
    }
    None
}

/// The nearest row the cursor may rest on, searching in the direction of
/// travel and then back the other way.
///
/// Headings are labels, so the cursor has to pass over them rather than
/// land on them -- and `j` at the bottom of a section must not stick.
/// Searching outward in both directions also means a cursor left on a
/// heading by a list that changed under it recovers instead of freezing.
fn nearest_selectable(rows: &Vec<Row>, from: usize, forward: bool) -> (r: Option<usize>)
    ensures
        match r {
            Some(i) => nearest(repo_row_views(rows@), from as int, forward) == Some(i as int),
            None => nearest(repo_row_views(rows@), from as int, forward) is None,
        },
{
    let n: usize = rows.len();
    assert(repo_row_views(rows@).len() == n);
    if n == 0 {
        return None;
    }
    if forward {
        let a: usize = first_place(rows, from);
        if a < n {
            return Some(a);
        }
        last_place(
            rows,
            if from < n {
                from
            } else {
                n
            },
        )
    } else {
        let start: usize = if from < n - 1 {
            from
        } else {
            n - 1
        };
        match last_place(rows, start + 1) {
            Some(i) => Some(i),
            None => {
                let b: usize = first_place(rows, start);
                if b < n {
                    Some(b)
                } else {
                    None
                }
            },
        }
    }
}

fn rest(rows: &Vec<Row>, at: usize, from: usize, forward: bool) -> (r: usize)
    ensures
        r == rest_near(repo_row_views(rows@), at, from as int, forward),
{
    match nearest_selectable(rows, from, forward) {
        Some(i) => i,
        None => at,
    }
}

fn step_row(rows: &Vec<Row>, at: usize, delta: isize) -> (r: usize)
    ensures
        r == stepped(repo_row_views(rows@), at, delta as int),
{
    assert(repo_row_views(rows@).len() == rows.len());
    if rows.len() == 0 {
        at
    } else {
        let target: usize = step(at, delta, rows.len() - 1);
        rest(rows, at, target, delta >= 0)
    }
}

proof fn lemma_rows_name_repos(repos: Seq<RepoView>, here: Option<usize>, k: int)
    requires
        here matches Some(h) ==> h < repos.len(),
        0 <= k < sidebar(repos, here).len(),
    ensures
        match sidebar(repos, here)[k] {
            RowView::Repo { index } => 0 <= index < repos.len(),
            RowView::Worktree { repo, index } => 0 <= repo < repos.len() && 0 <= index
                < repos[repo].worktrees.len(),
            _ => true,
        },
{
    let n = repos.len() as int;
    lemma_saved_rows_contain(repos, n);
    let s = sidebar(repos, here);
    let tail = if any_saved(repos, n) {
        saved_rows(repos, n)
    } else {
        seq![RowView::Hint("nothing saved yet"@)]
    };
    match shown_here(repos, here) {
        Some(h) => {
            let b = block(repos, h);
            if 0 < k < 1 + b.len() {
                assert(s[k] == b[k - 1]);
            } else if k > 1 + b.len() {
                assert(s[k] == tail[k - 2 - b.len()]);
            }
        },
        None => {
            if k > 0 {
                assert(s[k] == tail[k - 1]);
            }
        },
    }
}

impl App {
    /// Rebuilt from the repos on every call, exactly as the task tree is rebuilt
    /// every frame -- a cached list would go stale the moment the repo list
    /// changed underneath it, since a row carries bare indices.
    pub fn repo_rows(&self) -> (r: Vec<Row>)
        ensures
            repo_row_views(r@) == self.side_rows(),
    {
        repos::rows(&self.repos, self.here_repo())
    }

    /// The repo that goes under `here`: the one dextui was **launched in**.
    ///
    /// Deliberately not "the store being read": where you are in the filesystem
    /// does not change because you looked at another project's tasks, so this is
    /// fixed for the run.
    ///
    /// Shown only when there is a store to show. Launched somewhere with no
    /// `.dex`, `here` would be a heading over a repo with nothing in it.
    fn here_repo(&self) -> (r: Option<usize>)
        ensures
            r == here_in(self.repo_list(), opt_text(self.here_path), self.here_store_present),
            r matches Some(i) ==> i < self.repos@.len(),
    {
        match &self.here_path {
            Some(p) => if self.here_store_present {
                let i: usize = find_repo(&self.repos, p.as_str());
                assert(self.repo_list().len() == self.repos@.len());
                if i < self.repos.len() {
                    Some(i)
                } else {
                    None
                }
            } else {
                None
            },
            None => None,
        }
    }

    /// Moves the sidebar cursor, clamped the same way `move_selection` clamps
    /// the tree's -- a no-op on an empty list rather than a panic.
    pub fn move_repo_row(&mut self, delta: isize)
        ensures
            row_moved(
                *old(self),
                stepped(old(self).side_rows(), old(self).selected_repo_row, delta as int),
                *final(self),
            ),
            old(self).wf() ==> final(self).wf(),
    {
        proof {
            reveal(row_moved);
        }
        let rows = self.repo_rows();
        self.selected_repo_row = step_row(&rows, self.selected_repo_row, delta);
    }

    /// Selects the sidebar row drawn on `row`, if any -- the mouse half of
    /// `move_repo_row`.
    ///
    /// Selecting only. Past the last row is dead space: it must not move the
    /// cursor to the end. A heading is dead space too -- clicking a label should
    /// no more move the cursor than clicking below the list does.
    pub fn select_repo_at_row(&mut self, row: u16)
        ensures
            row_moved(
                *old(self),
                clicked_row(
                    old(self).side_rows(),
                    old(self).selected_repo_row,
                    item_at(*old(self), row as int, old(self).repos_offset as int),
                ),
                *final(self),
            ),
            old(self).wf() ==> final(self).wf(),
    {
        proof {
            reveal(row_moved);
        }
        let to: usize = self.row_clicked(row);
        self.selected_repo_row = to;
    }

    fn row_clicked(&self, row: u16) -> (r: usize)
        ensures
            r == clicked_row(
                self.side_rows(),
                self.selected_repo_row,
                item_at(*self, row as int, self.repos_offset as int),
            ),
    {
        let rows = self.repo_rows();
        let ghost all = repo_row_views(rows@);
        assert(all.len() == rows.len());
        match self.list_row_index(row, self.repos_offset) {
            Some(i) => if i < rows.len() {
                assert(all[i as int] == rows@[i as int]@);
                if rows[i].selectable() {
                    i
                } else {
                    self.selected_repo_row
                }
            } else {
                self.selected_repo_row
            },
            None => self.selected_repo_row,
        }
    }

    /// A wheel over the sidebar. Slides the content and holds the cursor on
    /// its screen row.
    pub fn scroll_repos(&mut self, delta: isize)
        ensures
            repos_scrolled(*old(self), delta as int, *final(self)),
            old(self).wf() ==> final(self).wf(),
    {
        proof {
            reveal(repos_scrolled);
        }
        let rows = self.repo_rows();
        assert(repo_row_views(rows@).len() == rows.len());
        self.repos_offset = if rows.len() == 0 {
            self.repos_offset
        } else {
            step(self.repos_offset, delta, rows.len() - 1)
        };
        self.selected_repo_row = step_row(&rows, self.selected_repo_row, delta);
    }

    pub fn select_first_repo_row(&mut self)
        ensures
            row_moved(
                *old(self),
                rest_near(old(self).side_rows(), old(self).selected_repo_row, 0, true),
                *final(self),
            ),
            old(self).wf() ==> final(self).wf(),
    {
        proof {
            reveal(row_moved);
        }
        let rows = self.repo_rows();
        self.selected_repo_row = rest(&rows, self.selected_repo_row, 0, true);
    }

    pub fn select_last_repo_row(&mut self)
        ensures
            row_moved(
                *old(self),
                rest_near(
                    old(self).side_rows(),
                    old(self).selected_repo_row,
                    crate::panes::less_by(old(self).side_rows().len() as int, 1),
                    false,
                ),
                *final(self),
            ),
            old(self).wf() ==> final(self).wf(),
    {
        proof {
            reveal(row_moved);
        }
        let rows = self.repo_rows();
        assert(repo_row_views(rows@).len() == rows.len());
        let last: usize = if rows.len() == 0 {
            0
        } else {
            rows.len() - 1
        };
        self.selected_repo_row = rest(&rows, self.selected_repo_row, last, false);
    }

    fn cursor_row(&self) -> (r: Option<Row>)
        ensures
            match (r, row_under_cursor(self.side_rows(), self.selected_repo_row)) {
                (Some(x), Some(y)) => x@ == y,
                (None, None) => true,
                _ => false,
            },
            r matches Some(Row::Repo { index }) ==> index < self.repos@.len(),
            r matches Some(Row::Worktree { repo, index }) ==> repo < self.repos@.len() && index
                < self.repos@[repo as int].worktrees@.len(),
    {
        let rows = self.repo_rows();
        let ghost all = repo_row_views(rows@);
        assert(all.len() == rows.len());
        if self.selected_repo_row < rows.len() {
            proof {
                let here = here_in(
                    self.repo_list(),
                    opt_text(self.here_path),
                    self.here_store_present,
                );
                assert(here matches Some(h) ==> h < self.repo_list().len()) by {
                    if self.here_path is Some {
                        lemma_repo_at_bounds(self.repo_list(), self.here_path->0@);
                        assert(self.repo_list().len() == self.repos.len());
                    }
                }
                lemma_rows_name_repos(self.repo_list(), here, self.selected_repo_row as int);
                assert(all[self.selected_repo_row as int]
                    == rows@[self.selected_repo_row as int]@);
            }
            Some(rows[self.selected_repo_row])
        } else {
            None
        }
    }

    /// The repo owning the row under the sidebar cursor -- a worktree row
    /// resolves to its parent, since `D` unregisters the whole entry, not one
    /// worktree inside it.
    pub fn selected_repo(&self) -> (r: Option<&Repo>)
        ensures
            match (r, owned_by(row_under_cursor(self.side_rows(), self.selected_repo_row))) {
                (Some(x), Some(i)) => 0 <= i < self.repos@.len() && *x == self.repos@[i],
                (None, None) => true,
                _ => false,
            },
    {
        match self.cursor_row() {
            Some(Row::Repo { index }) => Some(&self.repos[index]),
            Some(Row::Worktree { repo, .. }) => Some(&self.repos[repo]),
            _ => None,
        }
    }

    /// The exact worktree path under the sidebar cursor -- a repo row
    /// resolves to its own (main) worktree, which `git worktree list` always
    /// reports first and which shares the repo's own registered path.
    pub fn selected_worktree_path(&self) -> (r: Option<String>)
        ensures
            opt_text(r) == path_behind(
                self.repo_list(),
                row_under_cursor(self.side_rows(), self.selected_repo_row),
            ),
    {
        match self.cursor_row() {
            Some(Row::Repo { index }) => Some(self.repos[index].path.clone()),
            Some(Row::Worktree { repo, index }) => Some(
                self.repos[repo].worktrees[index].path.clone(),
            ),
            _ => None,
        }
    }

    /// The dex store behind a sidebar path.
    ///
    /// Not always `<path>/.dex`: the global row's path *is* its store, since
    /// dex's out-of-repo fallback is a bare directory rather than a checkout
    /// with a `.dex` in it. Everything that turns a sidebar selection into a
    /// store goes through here so that exception lives in one place.
    pub fn store_for_path(&self, path: &str) -> (r: String)
        ensures
            r@ == store_from(self.repo_list(), 0, path@),
    {
        let ghost all = self.repo_list();
        for i in 0..self.repos.len()
            invariant
                all == self.repo_list(),
                store_from(all, i as int, path@) == store_from(all, 0, path@),
        {
            let r = &self.repos[i];
            assert(all[i as int] == r@);
            let k: usize = find_worktree(&r.worktrees, path);
            assert(r@.worktrees.len() == r.worktrees@.len());
            if k < r.worktrees.len() {
                assert(r@.worktrees[k as int] == r.worktrees@[k as int]@);
                return r.store(Some(&r.worktrees[k]));
            }
            if same(r.path.as_str(), path) {
                return r.store(None);
            }
        }
        store_dir(path)
    }

    /// Every store the sidebar can reach, deduplicated.
    ///
    /// One definition rather than two: startup builds its watcher fleet and
    /// its cache from this, and so does anything that adds a repo mid-run, so
    /// the two cannot disagree about what "every store" means.
    pub fn sidebar_stores(&self) -> (r: Vec<String>)
        ensures
            texts(r@) == deduped(all_stores(self.repo_list(), self.repos@.len() as int)),
    {
        let ghost all = self.repo_list();
        let mut out: Vec<String> = Vec::new();
        let ghost mut seen: Seq<Seq<char>> = Seq::empty();
        assert(texts(out@) =~= deduped(seen));
        for i in 0..self.repos.len()
            invariant
                all == self.repo_list(),
                seen == all_stores(all, i as int),
                texts(out@) == deduped(seen),
        {
            let r = &self.repos[i];
            assert(all[i as int] == r@);
            let ghost before = seen;
            let n: usize = r.worktrees.len();
            assert(r@.worktrees.len() == n);
            if n == 0 {
                let dir = r.store(None);
                push_new(&mut out, dir, Ghost(seen));
                proof {
                    seen = seen.push(dir@);
                    assert(seen =~= before + stores_in(r@));
                }
            } else {
                let ghost mine = stores_in(r@);
                assert(before + mine.take(0) =~= before);
                for j in 0..n
                    invariant
                        n == r.worktrees@.len(),
                        mine == r@.worktrees.map_values(|w: WorktreeView| store_of(r@, Some(w))),
                        seen == before + mine.take(j as int),
                        texts(out@) == deduped(seen),
                {
                    let dir = r.store(Some(&r.worktrees[j]));
                    assert(r@.worktrees[j as int] == r.worktrees@[j as int]@);
                    push_new(&mut out, dir, Ghost(seen));
                    proof {
                        seen = seen.push(dir@);
                        assert(mine[j as int] == dir@);
                        assert(seen =~= before + mine.take(j + 1));
                    }
                }
                assert(mine.take(n as int) =~= mine);
            }
        }
        out
    }

    /// Puts the sidebar cursor on whichever row is the store being read, so
    /// the pane opens pointing at what the other two panes are showing.
    pub fn select_current_store_row(&mut self)
        ensures
            row_moved(
                *old(self),
                store_row(
                    old(self).repo_list(),
                    old(self).side_rows(),
                    0,
                    old(self).store_dir@,
                    old(self).selected_repo_row,
                ),
                *final(self),
            ),
            old(self).wf() ==> final(self).wf(),
    {
        proof {
            reveal(row_moved);
        }
        let to: usize = self.current_store_row();
        self.selected_repo_row = to;
    }

    fn current_store_row(&self) -> (r: usize)
        ensures
            r == store_row(
                self.repo_list(),
                self.side_rows(),
                0,
                self.store_dir@,
                self.selected_repo_row,
            ),
    {
        let rows = self.repo_rows();
        let ghost all = repo_row_views(rows@);
        let ghost here = here_in(
            self.repo_list(),
            opt_text(self.here_path),
            self.here_store_present,
        );
        proof {
            if self.here_path is Some {
                lemma_repo_at_bounds(self.repo_list(), self.here_path->0@);
                assert(self.repo_list().len() == self.repos.len());
            }
        }
        for i in 0..rows.len()
            invariant
                all == repo_row_views(rows@),
                all == sidebar(self.repo_list(), here),
                all == self.side_rows(),
                here matches Some(h) ==> h < self.repo_list().len(),
                store_row(
                    self.repo_list(),
                    all,
                    i as int,
                    self.store_dir@,
                    self.selected_repo_row,
                ) == store_row(
                    self.repo_list(),
                    all,
                    0,
                    self.store_dir@,
                    self.selected_repo_row,
                ),
        {
            assert(all[i as int] == rows@[i as int]@);
            proof {
                lemma_rows_name_repos(self.repo_list(), here, i as int);
            }
            let found = match rows[i] {
                Row::Repo { index } => same(
                    self.repos[index].store(None).as_str(),
                    self.store_dir.as_str(),
                ),
                Row::Worktree { repo, index } => {
                    let r = &self.repos[repo];
                    same(r.store(Some(&r.worktrees[index])).as_str(), self.store_dir.as_str())
                },
                _ => false,
            };
            if found {
                return i;
            }
        }
        self.selected_repo_row
    }

    /// A cached store's counts, for the sidebar. `None` means it has not been
    /// read yet -- a repo registered mid-run, or one whose read failed -- which
    /// is a different thing from a store with no tasks and must stay tellable
    /// apart.
    pub fn counts_for_store(&self, store_dir: &str) -> (r: Option<Counts>)
        ensures
            match r {
                Some(c) => self.store_tasks@.contains_key(store_dir@) && ({
                    let tasks = task_views(self.store_tasks@[store_dir@]@);
                    counts_of(tasks, indexed(tasks), c)
                }),
                None => !self.store_tasks@.contains_key(store_dir@),
            },
    {
        match self.store_tasks.get(store_dir) {
            Some(tasks) => Some(counts_for(tasks)),
            None => None,
        }
    }

    /// Registers a repo. Returns whether the registry changed, so a duplicate
    /// can be reported rather than looking inert.
    ///
    /// `stored` is the registry's file read fresh, and `write` stores the new
    /// list; see `Registry::add_and_save`.
    pub fn register_repo_path<W: Fn(&Registry) -> Result<(), String>>(
        &mut self,
        repo_path: &str,
        stored: Result<Registry, String>,
        write: W,
    ) -> (r: Result<bool, String>)
        requires
            forall|x: &Registry| call_requires(write, (x,)),
        ensures
            registry_changed(*old(self), *final(self)),
            saved_as(
                old(self).registry,
                final(self).registry,
                stored,
                (match stored {
                    Ok(s) => with_path(s@, repo_path@),
                    Err(_) => Seq::empty(),
                }),
                write,
                r,
            ),
            old(self).wf() ==> final(self).wf(),
    {
        proof {
            reveal(registry_changed);
        }
        self.registry.add_and_save(repo_path, stored, write)
    }

    /// Unregistering is a view operation: it never touches the worktree, the
    /// branch or the store, only the entry and the row it drew.
    ///
    /// Returns `Err` -- rather than swallowing the failure -- when the
    /// removal could not actually be persisted, and leaves the rows untouched in
    /// that case. Applying the in-memory removal on a save that failed would
    /// make the row disappear for this session only to reappear at the next
    /// launch, with nothing on screen to explain why.
    ///
    /// Unsaving the launch repo moves it back up into `here` -- the exact
    /// reverse of what `a` does -- rather than taking its row away.
    pub fn unregister_repo_path<W: Fn(&Registry) -> Result<(), String>>(
        &mut self,
        repo_path: &str,
        stored: Result<Registry, String>,
        write: W,
    ) -> (r: Result<bool, String>)
        requires
            forall|x: &Registry| call_requires(write, (x,)),
        ensures
            r == Ok::<bool, String>(true) ==> row_dropped(*old(self), repo_path@, *final(self)),
            r != Ok::<bool, String>(true) ==> registry_changed(*old(self), *final(self)),
            saved_as(
                old(self).registry,
                final(self).registry,
                stored,
                (match stored {
                    Ok(s) => without_path(s@, repo_path@),
                    Err(_) => Seq::empty(),
                }),
                write,
                r,
            ),
            old(self).wf() ==> final(self).wf(),
    {
        proof {
            reveal(registry_changed);
            reveal(row_dropped);
        }
        let outcome = self.registry.remove_and_save(repo_path, stored, write);
        if let Ok(true) = outcome {
            self.drop_row(repo_path);
        }
        outcome
    }

    fn drop_row(&mut self, path: &str)
        ensures
            row_dropped(*old(self), path@, *final(self)),
            final(self).registry == old(self).registry,
            old(self).wf() ==> final(self).wf(),
    {
        proof {
            reveal(row_dropped);
        }
        let kept = self.rows_kept(path);
        self.repos = kept;
        let n: usize = self.repo_rows().len();
        let last: usize = if n == 0 {
            0
        } else {
            n - 1
        };
        let at: usize = self.selected_repo_row;
        self.selected_repo_row = if at < last {
            at
        } else {
            last
        };
    }

    fn rows_kept(&self, path: &str) -> (r: Vec<Repo>)
        ensures
            repo_views(r@) == repos_without(self.repo_list(), path@, opt_text(self.here_path)),
    {
        let ghost all = unsaved(self.repo_list(), path@);
        let ghost keep = keeps_row(opt_text(self.here_path));
        let k: usize = find_repo(&self.repos, path);
        assert(self.repo_list().len() == self.repos@.len());
        let mut out: Vec<Repo> = Vec::new();
        proof {
            reveal(Seq::filter);
            assert(repo_views(out@) =~= Seq::empty());
        }
        for i in 0..self.repos.len()
            invariant
                all == unsaved(self.repo_list(), path@),
                keep == keeps_row(opt_text(self.here_path)),
                k == repo_at(self.repo_list(), path@),
                all.len() == self.repos@.len(),
                repo_views(out@) == all.take(i as int).filter(keep),
        {
            let mut r = self.repos[i].clone();
            if i == k {
                r.registered = false;
            }
            proof {
                reveal(Seq::filter);
                assert(self.repo_list()[i as int] == self.repos@[i as int]@);
                assert(all[i as int] == r@);
                assert(all.take(i + 1).drop_last() =~= all.take(i as int));
            }
            if r.registered || same_opt(&self.here_path, r.path.as_str()) {
                let ghost before = out@;
                out.push(r);
                assert(repo_views(out@) =~= repo_views(before).push(all[i as int]));
            }
        }
        assert(all.take(all.len() as int) =~= all);
        out
    }
}

fn push_new(out: &mut Vec<String>, dir: String, Ghost(seen): Ghost<Seq<Seq<char>>>)
    requires
        texts(old(out)@) == deduped(seen),
    ensures
        texts(final(out)@) == deduped(seen.push(dir@)),
{
    let ghost t = texts(out@);
    assert(seen.push(dir@).drop_last() =~= seen);
    for i in 0..out.len()
        invariant
            t == texts(out@),
            t == deduped(seen),
            out@ == old(out)@,
            seen.push(dir@).drop_last() == seen,
            forall|j: int| 0 <= j < i ==> #[trigger] t[j] != dir@,
    {
        assert(t[i as int] == out@[i as int]@);
        if same(out[i].as_str(), dir.as_str()) {
            assert(t.contains(dir@));
            return;
        }
    }
    assert(!t.contains(dir@));
    out.push(dir);
    assert(texts(out@) =~= t.push(dir@));
}

// ---------------------------------------------------------------------------
// What the sidebar promises
// ---------------------------------------------------------------------------

proof fn lemma_place_from(rows: Seq<RowView>, i: int)
    requires
        0 <= i,
    ensures
        i <= place_from(rows, i) || place_from(rows, i) == rows.len(),
        place_from(rows, i) <= rows.len(),
        place_from(rows, i) < rows.len() ==> can_rest(rows[place_from(rows, i)]),
        forall|j: int| i <= j < place_from(rows, i) && j < rows.len() ==> !can_rest(#[trigger] rows[j]),
    decreases rows.len() - i,
{
    if i < rows.len() && !can_rest(rows[i]) {
        lemma_place_from(rows, i + 1);
    }
}

proof fn lemma_place_upto(rows: Seq<RowView>, i: int)
    requires
        i < rows.len(),
    ensures
        -1 <= place_upto(rows, i),
        i >= -1 ==> place_upto(rows, i) <= i,
        place_upto(rows, i) >= 0 ==> can_rest(rows[place_upto(rows, i)]),
        forall|j: int| place_upto(rows, i) < j <= i && 0 <= j ==> !can_rest(#[trigger] rows[j]),
    decreases i + 1,
{
    if i >= 0 && !can_rest(rows[i]) {
        lemma_place_upto(rows, i - 1);
    }
}

/// However the sidebar's cursor is moved, it never rests on a heading or a hint:
/// as long as there is any row to rest on, that is where it ends up.
pub proof fn law_the_sidebar_cursor_rests_on_a_row(
    rows: Seq<RowView>,
    at: usize,
    from: int,
    forward: bool,
    k: int,
)
    requires
        rows.len() <= usize::MAX,
        0 <= from,
        0 <= k < rows.len(),
        can_rest(rows[k]),
    ensures
        rest_near(rows, at, from, forward) < rows.len(),
        can_rest(rows[rest_near(rows, at, from, forward) as int]),
{
    let n = rows.len() as int;
    if forward {
        lemma_place_from(rows, from);
        lemma_place_upto(rows, lesser(from, n) - 1);
    } else {
        lemma_place_upto(rows, lesser(from, n - 1));
        lemma_place_from(rows, lesser(from, n - 1));
    }
}

/// A sidebar with anything in it has a row to rest on.
pub proof fn law_a_sidebar_has_somewhere_to_rest(repos: Seq<RepoView>, here: Option<usize>)
    requires
        here matches Some(h) ==> h < repos.len(),
        sidebar(repos, here).len() > 0,
    ensures
        exists|k: int|
            0 <= k < sidebar(repos, here).len() && can_rest(#[trigger] sidebar(repos, here)[k]),
{
    let n = repos.len() as int;
    let s = sidebar(repos, here);
    match shown_here(repos, here) {
        Some(h) => {
            assert(s[1] == (RowView::Repo { index: h }));
            assert(can_rest(s[1]));
        },
        None => {
            let i = choose|i: int| 0 <= i < n && (#[trigger] repos[i]).registered;
            repos::law_every_repo_has_one_row(repos, here, i);
            assert(has_place(repos, here, i));
            let k = choose|k: int| 0 <= k < s.len() && s[k] == (RowView::Repo { index: i });
            assert(can_rest(s[k]));
        },
    }
}

proof fn lemma_deduped(s: Seq<Seq<char>>, x: Seq<char>)
    ensures
        deduped(s).no_duplicates(),
        deduped(s).contains(x) <==> s.contains(x),
    decreases s.len(),
{
    if s.len() > 0 {
        let front = s.drop_last();
        lemma_deduped(front, x);
        lemma_deduped(front, s.last());
        let d = deduped(front);
        if s.contains(x) {
            let k = choose|k: int| 0 <= k < s.len() && s[k] == x;
            if k < front.len() {
                assert(front[k] == x);
            }
        }
        if front.contains(x) {
            let k = choose|k: int| 0 <= k < front.len() && front[k] == x;
            assert(s[k] == x);
        }
        assert(s[s.len() - 1] == s.last());
        if !d.contains(s.last()) {
            let p = d.push(s.last());
            assert forall|i: int, j: int| 0 <= i < j < p.len() implies p[i] != p[j] by {
                if j == d.len() {
                    assert(d.contains(d[i]));
                }
            }
            if d.contains(x) {
                let k = choose|k: int| 0 <= k < d.len() && d[k] == x;
                assert(p[k] == x);
            }
            if p.contains(x) && x != s.last() {
                let k = choose|k: int| 0 <= k < p.len() && p[k] == x;
                assert(d[k] == x);
            }
            assert(p[d.len() as int] == s.last());
        }
    }
}

/// The list of stores names every store the rows can reach, and none twice.
pub proof fn law_sidebar_stores_are_distinct_and_complete(
    repos: Seq<RepoView>,
    store: Seq<char>,
)
    ensures
        deduped(all_stores(repos, repos.len() as int)).no_duplicates(),
        deduped(all_stores(repos, repos.len() as int)).contains(store) <==> all_stores(
            repos,
            repos.len() as int,
        ).contains(store),
{
    lemma_deduped(all_stores(repos, repos.len() as int), store);
}

/// Unsaving keeps the row of the repo you are in, and of every saved one, and
/// drops any other.
pub proof fn law_unsaving_drops_only_that_row(
    repos: Seq<RepoView>,
    path: Seq<char>,
    here: Option<Seq<char>>,
    r: RepoView,
)
    ensures
        repos_without(repos, path, here).contains(r) <==> unsaved(repos, path).contains(r) && (
        r.registered || here == Some(r.path)),
{
    lemma_kept_repo(unsaved(repos, path), keeps_row(here), r);
}

proof fn lemma_kept_repo(s: Seq<RepoView>, f: spec_fn(RepoView) -> bool, r: RepoView)
    ensures
        s.filter(f).contains(r) <==> s.contains(r) && f(r),
    decreases s.len(),
{
    reveal(Seq::filter);
    if s.len() > 0 {
        let front = s.drop_last();
        lemma_kept_repo(front, f, r);
        let ff = front.filter(f);
        let sf = s.filter(f);
        if s.contains(r) {
            let k = choose|k: int| 0 <= k < s.len() && s[k] == r;
            if k < front.len() {
                assert(front[k] == r);
            }
        }
        if front.contains(r) {
            let k = choose|k: int| 0 <= k < front.len() && front[k] == r;
            assert(s[k] == r);
        }
        if ff.contains(r) {
            let k = choose|k: int| 0 <= k < ff.len() && ff[k] == r;
            assert(sf[k] == r);
        }
        if f(s.last()) {
            assert(sf[ff.len() as int] == s.last());
            assert(s[s.len() - 1] == s.last());
        }
        if sf.contains(r) && !ff.contains(r) {
            let k = choose|k: int| 0 <= k < sf.len() && sf[k] == r;
            if k < ff.len() {
                assert(ff[k] == r);
            }
        }
    }
}

/// Whether a repo or one of its worktrees is at a path.
pub open spec fn is_at(r: RepoView, path: Seq<char>) -> bool {
    r.path == path || exists|k: int|
        0 <= k < r.worktrees.len() && (#[trigger] r.worktrees[k]).path == path
}

/// A path leads to the store in the worktree there; but where the first repo it
/// belongs to is the shared store, to that; and a path that belongs to none to
/// the store that would be in it.
pub proof fn law_a_path_leads_to_its_own_store(repos: Seq<RepoView>, path: Seq<char>, i: int)
    ensures
        (0 <= i < repos.len() && is_at(repos[i], path) && (forall|j: int|
            0 <= j < i ==> !is_at(#[trigger] repos[j], path))) ==> store_from(repos, 0, path) == (
        if repos[i].is_global {
            repos[i].path
        } else {
            store_under(path)
        }),
        (forall|j: int| 0 <= j < repos.len() ==> !is_at(#[trigger] repos[j], path)) ==> store_from(
            repos,
            0,
            path,
        ) == store_under(path),
{
    if 0 <= i < repos.len() && is_at(repos[i], path) && (forall|j: int|
        0 <= j < i ==> !is_at(#[trigger] repos[j], path)) {
        lemma_store_from(repos, path, 0, i);
    }
    if forall|j: int| 0 <= j < repos.len() ==> !is_at(#[trigger] repos[j], path) {
        lemma_store_from(repos, path, 0, repos.len() as int);
    }
}

proof fn lemma_worktree_found(ws: Seq<WorktreeView>, path: Seq<char>)
    ensures
        0 <= worktree_at(ws, path) <= ws.len(),
        worktree_at(ws, path) < ws.len() ==> ws[worktree_at(ws, path)].path == path,
        worktree_at(ws, path) < ws.len() <==> exists|k: int|
            0 <= k < ws.len() && (#[trigger] ws[k]).path == path,
    decreases ws.len(),
{
    if ws.len() > 0 && ws[0].path != path {
        let t = ws.drop_first();
        lemma_worktree_found(t, path);
        if worktree_at(t, path) < t.len() {
            assert(ws[worktree_at(t, path) + 1].path == path);
        }
        if exists|k: int| 0 <= k < ws.len() && (#[trigger] ws[k]).path == path {
            let k = choose|k: int| 0 <= k < ws.len() && (#[trigger] ws[k]).path == path;
            assert(t[k - 1].path == path);
        }
    } else if ws.len() > 0 {
        assert(ws[0].path == path);
    }
}

proof fn lemma_store_from(repos: Seq<RepoView>, path: Seq<char>, from: int, i: int)
    requires
        0 <= from <= i <= repos.len(),
        i < repos.len() ==> is_at(repos[i], path),
        forall|j: int| from <= j < i ==> !is_at(#[trigger] repos[j], path),
    ensures
        store_from(repos, from, path) == (if i < repos.len() && repos[i].is_global {
            repos[i].path
        } else {
            store_under(path)
        }),
    decreases i - from,
{
    if from < repos.len() {
        lemma_worktree_found(repos[from].worktrees, path);
        if from < i {
            assert(!is_at(repos[from], path));
            lemma_store_from(repos, path, from + 1, i);
        }
    }
}

/// A step takes the sidebar's cursor exactly so far, where there is a row to rest
/// on; over a label it goes on the same way, to the next one there is.
pub proof fn law_a_step_goes_to_the_row_it_names(
    rows: Seq<RowView>,
    at: usize,
    delta: int,
    to: int,
)
    requires
        at < rows.len() <= usize::MAX,
        0 <= at + delta < rows.len(),
        0 <= to < rows.len(),
        can_rest(rows[to]),
        delta >= 0 ==> at + delta <= to && forall|k: int|
            at + delta <= k < to ==> !can_rest(#[trigger] rows[k]),
        delta < 0 ==> to <= at + delta && forall|k: int|
            to < k <= at + delta ==> !can_rest(#[trigger] rows[k]),
    ensures
        stepped(rows, at, delta) == to,
{
    if delta >= 0 {
        lemma_place_from_is(rows, at + delta, to);
    } else {
        lemma_place_upto_is(rows, at + delta, to);
    }
}

proof fn lemma_place_from_is(rows: Seq<RowView>, i: int, to: int)
    requires
        0 <= i <= to < rows.len(),
        can_rest(rows[to]),
        forall|k: int| i <= k < to ==> !can_rest(#[trigger] rows[k]),
    ensures
        place_from(rows, i) == to,
    decreases to - i,
{
    if i < to {
        assert(!can_rest(rows[i]));
        lemma_place_from_is(rows, i + 1, to);
    }
}

proof fn lemma_place_upto_is(rows: Seq<RowView>, i: int, to: int)
    requires
        0 <= to <= i < rows.len(),
        can_rest(rows[to]),
        forall|k: int| to < k <= i ==> !can_rest(#[trigger] rows[k]),
    ensures
        place_upto(rows, i) == to,
    decreases i - to,
{
    if to < i {
        assert(!can_rest(rows[i]));
        lemma_place_upto_is(rows, i - 1, to);
    }
}

/// Headings and hints are nowhere to rest; a repo's row stands for the repo and
/// its main checkout, and a worktree's for that worktree and the repo it is of.
pub proof fn law_rows_stand_for_what_they_show(
    repos: Seq<RepoView>,
    index: int,
    w: int,
    text: Seq<char>,
)
    ensures
        !can_rest(RowView::Heading(text)),
        !can_rest(RowView::Hint(text)),
        can_rest(RowView::Repo { index }),
        can_rest(RowView::Worktree { repo: index, index: w }),
        path_behind(repos, Some(RowView::Repo { index })) == Some(repos[index].path),
        path_behind(repos, Some(RowView::Worktree { repo: index, index: w })) == Some(
            repos[index].worktrees[w].path,
        ),
        path_behind(repos, Some(RowView::Heading(text))) is None,
        owned_by(Some(RowView::Repo { index })) == Some(index),
        owned_by(Some(RowView::Worktree { repo: index, index: w })) == Some(index),
        owned_by(Some(RowView::Hint(text))) is None,
{
}

/// The cursor is put on the first row that stands for the store being read, and
/// left where it is when none does.
pub proof fn law_the_cursor_finds_the_store_being_read(
    repos: Seq<RepoView>,
    rows: Seq<RowView>,
    store: Seq<char>,
    at: usize,
    i: int,
)
    requires
        rows.len() <= usize::MAX,
    ensures
        0 <= i < rows.len() && stands_for(repos, rows[i], store) && (forall|j: int|
            0 <= j < i ==> !stands_for(repos, #[trigger] rows[j], store)) ==> store_row(
            repos,
            rows,
            0,
            store,
            at,
        ) == i,
        (forall|j: int| 0 <= j < rows.len() ==> !stands_for(repos, #[trigger] rows[j], store))
            ==> store_row(repos, rows, 0, store, at) == at,
{
    if 0 <= i < rows.len() && stands_for(repos, rows[i], store) && (forall|j: int|
        0 <= j < i ==> !stands_for(repos, #[trigger] rows[j], store)) {
        lemma_store_row(repos, rows, 0, store, at, i);
    }
    if forall|j: int| 0 <= j < rows.len() ==> !stands_for(repos, #[trigger] rows[j], store) {
        lemma_store_row(repos, rows, 0, store, at, rows.len() as int);
    }
}

proof fn lemma_store_row(
    repos: Seq<RepoView>,
    rows: Seq<RowView>,
    from: int,
    store: Seq<char>,
    at: usize,
    i: int,
)
    requires
        rows.len() <= usize::MAX,
        0 <= from <= i <= rows.len(),
        i < rows.len() ==> stands_for(repos, rows[i], store),
        forall|j: int| from <= j < i ==> !stands_for(repos, #[trigger] rows[j], store),
    ensures
        store_row(repos, rows, from, store, at) == if i < rows.len() {
            i
        } else {
            at as int
        },
    decreases i - from,
{
    if from < i {
        assert(!stands_for(repos, rows[from], store));
        lemma_store_row(repos, rows, from + 1, store, at, i);
    }
}

/// A click in the sidebar puts the cursor on the row under it, where it can
/// rest there, and else leaves it.
pub proof fn law_a_click_rests_on_repos_and_worktrees(
    rows: Seq<RowView>,
    at: usize,
    i: int,
    repo: int,
    w: int,
    text: Seq<char>,
)
    requires
        0 <= i < rows.len() <= usize::MAX,
    ensures
        rows[i] == (RowView::Repo { index: repo }) || rows[i] == (RowView::Worktree {
            repo,
            index: w,
        }) ==> clicked_row(rows, at, Some(i)) == i,
        rows[i] == RowView::Heading(text) || rows[i] == RowView::Hint(text) ==> clicked_row(
            rows,
            at,
            Some(i),
        ) == at,
        clicked_row(rows, at, None) == at,
        clicked_row(rows, at, Some(rows.len() as int)) == at,
{
}

/// After a repo is forgotten the cursor is where it was, or on the last row
/// where there are no longer so many.
pub proof fn law_forgetting_keeps_the_cursor_in_sight(pre: App, path: Seq<char>, post: App)
    requires
        row_dropped(pre, path, post),
    ensures
        pre.selected_repo_row < post.side_rows().len() ==> post.selected_repo_row
            == pre.selected_repo_row,
        0 < post.side_rows().len() <= pre.selected_repo_row ==> post.selected_repo_row
            == post.side_rows().len() - 1,
        post.side_rows().len() == 0 ==> post.selected_repo_row == 0,
        post.tasks == pre.tasks && post.selected == pre.selected && post.focus == pre.focus,
{
    reveal(row_dropped);
}

/// A repo has the store of each of its worktrees, or its own where it has none.
pub proof fn law_each_worktree_has_its_store(r: RepoView, dir: Seq<char>)
    requires
        !r.is_global,
    ensures
        r.worktrees.len() == 0 ==> stores_in(r) == seq![store_under(r.path)],
        r.worktrees.len() > 0 ==> (stores_in(r).contains(dir) <==> exists|i: int|
            0 <= i < r.worktrees.len() && dir == store_under((#[trigger] r.worktrees[i]).path)),
{
    if r.worktrees.len() > 0 {
        let s = stores_in(r);
        assert(s.len() == r.worktrees.len());
        assert forall|i: int| 0 <= i < s.len() implies #[trigger] s[i] == store_under(
            r.worktrees[i].path,
        ) by {}
        if s.contains(dir) {
            let i = choose|i: int| 0 <= i < s.len() && s[i] == dir;
            assert(dir == store_under(r.worktrees[i].path));
        }
        if exists|i: int| 0 <= i < r.worktrees.len() && dir == store_under(
            (#[trigger] r.worktrees[i]).path,
        ) {
            let i = choose|i: int| 0 <= i < r.worktrees.len() && dir == store_under(
                (#[trigger] r.worktrees[i]).path,
            );
            assert(s[i] == dir);
        }
    }
}

/// The launch repo has a row of its own exactly when it is known, its store is
/// there, and it is among the repos: at the first place it has among them.
pub proof fn law_the_launch_repo_is_found_by_its_path(
    repos: Seq<RepoView>,
    path: Seq<char>,
    i: int,
)
    requires
        repos.len() <= usize::MAX,
    ensures
        0 <= i < repos.len() && repos[i].path == path && (forall|j: int|
            0 <= j < i ==> (#[trigger] repos[j]).path != path) ==> here_in(repos, Some(path), true)
            == Some(i as usize),
        (forall|j: int| 0 <= j < repos.len() ==> (#[trigger] repos[j]).path != path) ==> here_in(
            repos,
            Some(path),
            true,
        ) is None,
        here_in(repos, Some(path), false) is None,
        here_in(repos, None, true) is None,
{
    if 0 <= i < repos.len() && repos[i].path == path && (forall|j: int|
        0 <= j < i ==> (#[trigger] repos[j]).path != path) {
        lemma_first_at(repos, path, i);
    }
    if forall|j: int| 0 <= j < repos.len() ==> (#[trigger] repos[j]).path != path {
        lemma_first_at(repos, path, repos.len() as int);
    }
}

proof fn lemma_first_at(repos: Seq<RepoView>, path: Seq<char>, i: int)
    requires
        0 <= i <= repos.len(),
        i < repos.len() ==> repos[i].path == path,
        forall|j: int| 0 <= j < i ==> (#[trigger] repos[j]).path != path,
    ensures
        repo_at(repos, path) == i,
    decreases i,
{
    if i > 0 {
        let t = repos.drop_first();
        assert(repos[0].path != path);
        assert forall|j: int| 0 <= j < i - 1 implies (#[trigger] t[j]).path != path by {
            assert(t[j] == repos[j + 1]);
        }
        lemma_first_at(t, path, i - 1);
    }
}

/// Scrolling the sidebar moves what is drawn by as many rows, as far as there
/// are any.
pub proof fn law_the_sidebar_scrolls_by_rows(pre: App, delta: int, post: App)
    requires
        repos_scrolled(pre, delta, post),
        pre.side_rows().len() <= usize::MAX,
    ensures
        0 <= pre.repos_offset + delta < pre.side_rows().len() ==> post.repos_offset
            == pre.repos_offset + delta,
        pre.repos_offset + delta < 0 && pre.side_rows().len() > 0 ==> post.repos_offset == 0,
        0 < pre.side_rows().len() <= pre.repos_offset + delta ==> post.repos_offset
            == pre.side_rows().len() - 1,
        pre.side_rows().len() == 0 ==> post.repos_offset == pre.repos_offset
            && post.selected_repo_row == pre.selected_repo_row,
        post.selected == pre.selected && post.focus == pre.focus && post.repos == pre.repos,
{
    reveal(repos_scrolled);
}

/// The ends of the sidebar are the first and the last row that the cursor can
/// rest on.
pub proof fn law_the_ends_of_the_sidebar(rows: Seq<RowView>, at: usize, k: int)
    requires
        0 <= k < rows.len() <= usize::MAX,
        can_rest(rows[k]),
    ensures
        (forall|j: int| 0 <= j < k ==> !can_rest(#[trigger] rows[j])) ==> rest_near(
            rows,
            at,
            0,
            true,
        ) == k,
        (forall|j: int| k < j < rows.len() ==> !can_rest(#[trigger] rows[j])) ==> rest_near(
            rows,
            at,
            rows.len() - 1,
            false,
        ) == k,
{
    if forall|j: int| 0 <= j < k ==> !can_rest(#[trigger] rows[j]) {
        lemma_place_from_is(rows, 0, k);
    }
    if forall|j: int| k < j < rows.len() ==> !can_rest(#[trigger] rows[j]) {
        lemma_place_upto_is(rows, rows.len() - 1, k);
    }
}

} // verus!
