//! Registered repositories and their worktrees, flattened for rendering.
//!
//! Mirrors `tree::visible_rows`: a flat list of rows with enough identity to
//! address the thing each one draws, so selection and clicking work the same way
//! they already do in the task tree.

use vstd::prelude::*;

use crate::text::{concat, trim_end_matches, trim_end_of};
use crate::worktree::{clone_worktrees, worktree_views, Worktree, WorktreeView};

verus! {

#[derive(Debug, PartialEq, Eq)]
pub struct Repo {
    pub name: String,
    pub path: String,
    pub worktrees: Vec<Worktree>,
    pub open: bool,
    /// Whether this repo is saved in `repos.toml`.
    ///
    /// Decides which *section* it appears under rather than whether it appears
    /// at all: the repo you are in is always on screen, saved or not. Nothing
    /// marks the distinction on the row itself -- the heading above it already
    /// does, which is the whole point of having headings.
    pub registered: bool,
    /// The global store, which is what dex falls back to outside a git repo.
    ///
    /// It is not a repo at all: no worktrees, and `path` is the store itself
    /// rather than a checkout with a `.dex` inside it -- hence [`Repo::store`]
    /// rather than [`store_dir`] at every call site that resolves a row.
    pub is_global: bool,
}

/// What a repo says.
pub ghost struct RepoView {
    pub name: Seq<char>,
    pub path: Seq<char>,
    pub worktrees: Seq<WorktreeView>,
    pub open: bool,
    pub registered: bool,
    pub is_global: bool,
}

impl View for Repo {
    type V = RepoView;

    open spec fn view(&self) -> RepoView {
        RepoView {
            name: self.name@,
            path: self.path@,
            worktrees: worktree_views(self.worktrees@),
            open: self.open,
            registered: self.registered,
            is_global: self.is_global,
        }
    }
}

/// What each repo of a list says.
pub open spec fn repo_views(repos: Seq<Repo>) -> Seq<RepoView> {
    repos.map_values(|r: Repo| r@)
}

impl Clone for Repo {
    fn clone(&self) -> (r: Self)
        ensures
            r@ == self@,
    {
        Repo {
            name: self.name.clone(),
            path: self.path.clone(),
            worktrees: clone_worktrees(&self.worktrees),
            open: self.open,
            registered: self.registered,
            is_global: self.is_global,
        }
    }
}

/// The dex store under a checkout.
pub open spec fn store_under(path: Seq<char>) -> Seq<char> {
    trim_end_of(path, '/') + "/.dex"@
}

/// The dex store for a worktree.
pub fn store_dir(worktree_path: &str) -> (r: String)
    ensures
        r@ == store_under(worktree_path@),
{
    concat(trim_end_matches(worktree_path, '/'), "/.dex")
}

/// The dex store behind one of a repo's rows.
pub open spec fn store_of(repo: RepoView, worktree: Option<WorktreeView>) -> Seq<char> {
    if repo.is_global {
        repo.path
    } else {
        match worktree {
            Some(w) => store_under(w.path),
            None => store_under(repo.path),
        }
    }
}

/// What an optional borrowed worktree says.
pub open spec fn opt_worktree(w: Option<&Worktree>) -> Option<WorktreeView> {
    match w {
        Some(w) => Some(w@),
        None => None,
    }
}

impl Repo {
    /// The dex store behind one of this repo's rows: `worktree` for a worktree
    /// row, `None` for the repo's own row.
    pub fn store(&self, worktree: Option<&Worktree>) -> (r: String)
        ensures
            r@ == store_of(self@, opt_worktree(worktree)),
    {
        if self.is_global {
            return self.path.clone();
        }
        match worktree {
            Some(w) => store_dir(w.path.as_str()),
            None => store_dir(self.path.as_str()),
        }
    }
}

#[derive(Debug, Clone, Copy, PartialEq, Eq)]
pub enum Row {
    /// A section label. Not selectable, and carries no store.
    Heading(&'static str),
    /// What an empty section says instead of nothing. Not selectable either.
    Hint(&'static str),
    Repo { index: usize },
    Worktree { repo: usize, index: usize },
}

/// What a row stands for.
pub ghost enum RowView {
    Heading(Seq<char>),
    Hint(Seq<char>),
    Repo { index: int },
    Worktree { repo: int, index: int },
}

impl View for Row {
    type V = RowView;

    open spec fn view(&self) -> RowView {
        match *self {
            Row::Heading(t) => RowView::Heading(t@),
            Row::Hint(t) => RowView::Hint(t@),
            Row::Repo { index } => RowView::Repo { index: index as int },
            Row::Worktree { repo, index } => RowView::Worktree {
                repo: repo as int,
                index: index as int,
            },
        }
    }
}

/// What each row stands for.
pub open spec fn repo_row_views(rows: Seq<Row>) -> Seq<RowView> {
    rows.map_values(|r: Row| r@)
}

/// Whether the cursor can rest on a row. Labels are not places.
pub open spec fn can_rest(row: RowView) -> bool {
    row is Repo || row is Worktree
}

impl Row {
    /// Whether the cursor can rest here. Labels are not places.
    ///
    /// Written as a positive match, so a further kind of label defaults to *not*
    /// selectable -- the safe way round, since a cursor that can land on a label
    /// resolves to no store.
    pub fn selectable(&self) -> (r: bool)
        ensures
            r == can_rest(self@),
    {
        match self {
            Row::Repo { .. } => true,
            Row::Worktree { .. } => true,
            _ => false,
        }
    }
}

/// A repo's row, followed by its worktrees' when it is open.
pub open spec fn block(repos: Seq<RepoView>, i: int) -> Seq<RowView> {
    seq![RowView::Repo { index: i }] + if repos[i].open {
        Seq::new(
            repos[i].worktrees.len(),
            |j: int| RowView::Worktree { repo: i, index: j },
        )
    } else {
        Seq::empty()
    }
}

/// The rows of the saved ones among the first `n` repos.
pub open spec fn saved_rows(repos: Seq<RepoView>, n: int) -> Seq<RowView>
    decreases n,
{
    if n <= 0 {
        Seq::empty()
    } else if repos[n - 1].registered {
        saved_rows(repos, n - 1) + block(repos, n - 1)
    } else {
        saved_rows(repos, n - 1)
    }
}

/// Whether any of the first `n` repos is saved.
pub open spec fn any_saved(repos: Seq<RepoView>, n: int) -> bool {
    exists|i: int| 0 <= i < n && (#[trigger] repos[i]).registered
}

/// The repo that goes under `here`: the one you are in, while it is unsaved.
pub open spec fn shown_here(repos: Seq<RepoView>, here: Option<usize>) -> Option<int> {
    match here {
        Some(i) => if repos[i as int].registered {
            None
        } else {
            Some(i as int)
        },
        None => None,
    }
}

/// Every visible row of the sidebar, top to bottom.
pub open spec fn sidebar(repos: Seq<RepoView>, here: Option<usize>) -> Seq<RowView> {
    let n = repos.len() as int;
    let head = match shown_here(repos, here) {
        Some(i) => seq![RowView::Heading("here"@)] + block(repos, i),
        None => Seq::empty(),
    };
    if shown_here(repos, here) is None && !any_saved(repos, n) {
        Seq::empty()
    } else {
        head + seq![RowView::Heading("saved"@)] + if any_saved(repos, n) {
            saved_rows(repos, n)
        } else {
            seq![RowView::Hint("nothing saved yet"@)]
        }
    }
}

fn push_repo(out: &mut Vec<Row>, repos: &Vec<Repo>, i: usize)
    requires
        i < repos@.len(),
    ensures
        repo_row_views(final(out)@) == repo_row_views(old(out)@) + block(
            repo_views(repos@),
            i as int,
        ),
{
    let ghost before = repo_row_views(out@);
    let ghost all = repo_views(repos@);
    out.push(Row::Repo { index: i });
    assert(repo_row_views(out@) =~= before + seq![RowView::Repo { index: i as int }]);
    if repos[i].open {
        let ghost below = Seq::new(
            all[i as int].worktrees.len(),
            |j: int| RowView::Worktree { repo: i as int, index: j },
        );
        let ghost first = before + seq![RowView::Repo { index: i as int }];
        assert(first + below.take(0) =~= first);
        let count: usize = repos[i].worktrees.len();
        for j in 0..count
            invariant
                i < repos@.len(),
                count == all[i as int].worktrees.len(),
                all == repo_views(repos@),
                below == Seq::new(
                    all[i as int].worktrees.len(),
                    |k: int| RowView::Worktree { repo: i as int, index: k },
                ),
                repo_row_views(out@) == first + below.take(j as int),
        {
            let ghost so_far = out@;
            out.push(Row::Worktree { repo: i, index: j });
            proof {
                assert(repo_row_views(out@) =~= repo_row_views(so_far).push(below[j as int]));
                assert(first + below.take(j + 1) =~= (first + below.take(j as int)).push(
                    below[j as int],
                ));
            }
        }
        assert(below.take(below.len() as int) =~= below);
        assert(first + below =~= before + block(all, i as int));
    } else {
        assert(before + seq![RowView::Repo { index: i as int }] =~= before + block(all, i as int));
    }
}

/// Every visible row, top to bottom, split into "here" and "saved".
///
/// The two answer different questions and needed separating rather than
/// blending: *where I am* is told by the working directory and needs no
/// memory at all, while *where else I can go* is precisely a remembered set.
///
/// **`here` holds the launch repo only while it is unsaved**, and saving moves
/// it down into `saved`. That move is the entire visible answer to "did `a`
/// work?", and it is why the rule is this way round rather than the other.
///
/// The **`saved` heading is drawn even when the section is empty**, with a
/// hint under it. It is where `a` puts things, so it has to be visible
/// *before* the press for the move to read as a move afterwards -- a
/// destination that materialises along with its first arrival is a layout
/// change, not a confirmation.
///
/// The `here` heading, by contrast, appears only when that section exists:
/// there is nothing useful to say under an empty one, and an empty `here`
/// while you are plainly somewhere reads as the app having lost you.
pub fn rows(repos: &Vec<Repo>, here: Option<usize>) -> (r: Vec<Row>)
    requires
        here matches Some(i) ==> i < repos@.len(),
    ensures
        repo_row_views(r@) == sidebar(repo_views(repos@), here),
{
    let ghost all = repo_views(repos@);
    let unsaved: Option<usize> = match here {
        Some(i) => if repos[i].registered {
            None
        } else {
            Some(i)
        },
        None => None,
    };
    let mut some_saved = false;
    for i in 0..repos.len()
        invariant
            all == repo_views(repos@),
            some_saved == any_saved(all, i as int),
    {
        if repos[i].registered {
            assert(all[i as int].registered);
            some_saved = true;
        }
    }
    let mut out: Vec<Row> = Vec::new();
    assert(repo_row_views(out@) =~= Seq::empty());
    // Nothing at all: no headings over an empty pane, and in particular no
    // "nothing saved yet" hint in a run that has no sidebar content to hint
    // about.
    if unsaved.is_none() && !some_saved {
        return out;
    }
    let ghost head = match shown_here(all, here) {
        Some(i) => seq![RowView::Heading("here"@)] + block(all, i),
        None => Seq::empty(),
    };
    if let Some(i) = unsaved {
        out.push(Row::Heading("here"));
        assert(repo_row_views(out@) =~= seq![RowView::Heading("here"@)]);
        push_repo(&mut out, repos, i);
    }
    assert(repo_row_views(out@) == head);
    out.push(Row::Heading("saved"));
    let ghost top = head + seq![RowView::Heading("saved"@)];
    assert(repo_row_views(out@) =~= top);
    if !some_saved {
        out.push(Row::Hint("nothing saved yet"));
        assert(repo_row_views(out@) =~= top + seq![RowView::Hint("nothing saved yet"@)]);
        return out;
    }
    assert(top + saved_rows(all, 0) =~= top);
    for i in 0..repos.len()
        invariant
            all == repo_views(repos@),
            repo_row_views(out@) == top + saved_rows(all, i as int),
    {
        if repos[i].registered {
            push_repo(&mut out, repos, i);
            assert(top + saved_rows(all, i as int) + block(all, i as int) =~= top + (saved_rows(
                all,
                i as int,
            ) + block(all, i as int)));
        }
    }
    out
}

// ---------------------------------------------------------------------------
// What the sidebar promises
// ---------------------------------------------------------------------------

/// Whether a repo has a place in the sidebar: it is saved, or you are in it.
pub open spec fn has_place(repos: Seq<RepoView>, here: Option<usize>, i: int) -> bool {
    0 <= i < repos.len() && (repos[i].registered || here is Some && here->0 == i)
}

/// The repo a row belongs to.
pub open spec fn owner_of(row: RowView) -> Option<int> {
    match row {
        RowView::Repo { index } => Some(index),
        RowView::Worktree { repo, .. } => Some(repo),
        _ => None,
    }
}

proof fn lemma_block(repos: Seq<RepoView>, i: int)
    ensures
        block(repos, i).len() >= 1,
        block(repos, i)[0] == (RowView::Repo { index: i }),
        forall|k: int| 0 <= k < block(repos, i).len() ==> owner_of(#[trigger] block(repos, i)[k]) == Some(i),
        forall|k: int| 0 < k < block(repos, i).len() ==> (#[trigger] block(repos, i)[k]) is Worktree,
        block(repos, i).no_duplicates(),
{
}

proof fn lemma_saved_rows(repos: Seq<RepoView>, n: int)
    requires
        0 <= n <= repos.len(),
    ensures
        saved_rows(repos, n).no_duplicates(),
        forall|k: int|
            0 <= k < saved_rows(repos, n).len() ==> {
                let o = owner_of(#[trigger] saved_rows(repos, n)[k]);
                o is Some && 0 <= o->0 < n && repos[o->0].registered
            },
        forall|i: int|
            0 <= i < n && (#[trigger] repos[i]).registered ==> saved_rows(repos, n).contains(
                RowView::Repo { index: i },
            ),
    decreases n,
{
    if n > 0 {
        lemma_saved_rows(repos, n - 1);
        lemma_block(repos, n - 1);
        let a = saved_rows(repos, n - 1);
        let b = block(repos, n - 1);
        let s = saved_rows(repos, n);
        if repos[n - 1].registered {
            assert forall|i: int, j: int| 0 <= i < j < s.len() implies s[i] != s[j] by {
                if j < a.len() {
                    assert(a[i] != a[j]);
                } else if i >= a.len() {
                    assert(b[i - a.len()] != b[j - a.len()]);
                } else {
                    assert(owner_of(a[i])->0 < n - 1);
                    assert(owner_of(b[j - a.len()]) == Some(n - 1));
                }
            }
            assert forall|k: int| 0 <= k < s.len() implies {
                let o = owner_of(#[trigger] s[k]);
                o is Some && 0 <= o->0 < n && repos[o->0].registered
            } by {
                if k < a.len() {
                    assert(s[k] == a[k]);
                } else {
                    assert(s[k] == b[k - a.len()]);
                }
            }
            assert forall|i: int| 0 <= i < n && (#[trigger] repos[i]).registered implies s.contains(
                RowView::Repo { index: i },
            ) by {
                if i < n - 1 {
                    let k = choose|k: int| 0 <= k < a.len() && a[k] == (RowView::Repo { index: i });
                    assert(s[k] == a[k]);
                } else {
                    assert(s[a.len() as int] == b[0]);
                }
            }
        }
    }
}

/// The rows of saved repos name repos and worktrees that are there.
pub proof fn lemma_saved_rows_contain(repos: Seq<RepoView>, n: int)
    requires
        0 <= n <= repos.len(),
    ensures
        forall|k: int|
            0 <= k < saved_rows(repos, n).len() ==> match #[trigger] saved_rows(repos, n)[k] {
                RowView::Repo { index } => 0 <= index < n,
                RowView::Worktree { repo, index } => 0 <= repo < n && 0 <= index
                    < repos[repo].worktrees.len(),
                _ => false,
            },
    decreases n,
{
    if n > 0 {
        lemma_saved_rows_contain(repos, n - 1);
        let a = saved_rows(repos, n - 1);
        let b = block(repos, n - 1);
        let s = saved_rows(repos, n);
        assert forall|k: int| 0 <= k < s.len() implies match #[trigger] s[k] {
            RowView::Repo { index } => 0 <= index < n,
            RowView::Worktree { repo, index } => 0 <= repo < n && 0 <= index
                < repos[repo].worktrees.len(),
            _ => false,
        } by {
            if k < a.len() {
                assert(s[k] == a[k]);
            } else {
                assert(s[k] == b[k - a.len()]);
            }
        }
    }
}

proof fn lemma_joined_distinct(a: Seq<RowView>, b: Seq<RowView>)
    requires
        a.no_duplicates(),
        b.no_duplicates(),
        forall|x: int, y: int| 0 <= x < a.len() && 0 <= y < b.len() ==> #[trigger] a[x] != #[trigger] b[y],
    ensures
        (a + b).no_duplicates(),
{
    let s = a + b;
    assert forall|x: int, y: int| 0 <= x < y < s.len() implies s[x] != s[y] by {
        if y < a.len() {
            assert(a[x] != a[y]);
        } else if x >= a.len() {
            assert(b[x - a.len()] != b[y - a.len()]);
        } else {
            assert(a[x] != b[y - a.len()]);
        }
    }
}

proof fn lemma_joined_contains(a: Seq<RowView>, b: Seq<RowView>, r: RowView)
    ensures
        (a + b).contains(r) <==> a.contains(r) || b.contains(r),
{
    if a.contains(r) {
        let k = choose|k: int| 0 <= k < a.len() && a[k] == r;
        assert((a + b)[k] == r);
    }
    if b.contains(r) {
        let k = choose|k: int| 0 <= k < b.len() && b[k] == r;
        assert((a + b)[k + a.len()] == r);
    }
    if (a + b).contains(r) {
        let k = choose|k: int| 0 <= k < (a + b).len() && (a + b)[k] == r;
        if k < a.len() {
            assert(a[k] == r);
        } else {
            assert(b[k - a.len()] == r);
        }
    }
}

proof fn lemma_lone(r: RowView, x: RowView)
    ensures
        seq![r].no_duplicates(),
        seq![r].contains(x) <==> x == r,
{
    assert(seq![r][0] == r);
}

/// What stands below the `saved` heading.
spec fn saved_section(repos: Seq<RepoView>) -> Seq<RowView> {
    if any_saved(repos, repos.len() as int) {
        saved_rows(repos, repos.len() as int)
    } else {
        seq![RowView::Hint("nothing saved yet"@)]
    }
}

proof fn lemma_saved_section(repos: Seq<RepoView>, i: int)
    ensures
        saved_section(repos).no_duplicates(),
        forall|k: int|
            0 <= k < saved_section(repos).len() ==> !((#[trigger] saved_section(repos)[k]) is Heading),
        forall|k: int|
            0 <= k < saved_section(repos).len() ==> (owner_of(#[trigger] saved_section(repos)[k])
                matches Some(o) ==> 0 <= o < repos.len() && repos[o].registered),
        saved_section(repos).contains(RowView::Repo { index: i }) <==> 0 <= i < repos.len()
            && repos[i].registered,
{
    let n = repos.len() as int;
    let row = RowView::Repo { index: i };
    lemma_saved_rows(repos, n);
    if any_saved(repos, n) {
        let s = saved_rows(repos, n);
        assert forall|k: int| 0 <= k < s.len() implies !((#[trigger] s[k]) is Heading) by {
            assert(owner_of(s[k]) is Some);
        }
        if s.contains(row) {
            let k = choose|k: int| 0 <= k < s.len() && s[k] == row;
            assert(owner_of(s[k]) == Some(i));
        }
    } else {
        lemma_lone(RowView::Hint("nothing saved yet"@), row);
        if 0 <= i < repos.len() {
            assert(!repos[i].registered);
        }
    }
}

/// No row appears twice; a repo has its row exactly when it is saved or you
/// are in it, and so not both under `here` and under `saved`.
pub proof fn law_every_repo_has_one_row(repos: Seq<RepoView>, here: Option<usize>, i: int)
    requires
        here matches Some(h) ==> h < repos.len(),
    ensures
        sidebar(repos, here).no_duplicates(),
        sidebar(repos, here).contains(RowView::Repo { index: i }) <==> has_place(repos, here, i),
{
    let n = repos.len() as int;
    let row = RowView::Repo { index: i };
    let tail = saved_section(repos);
    let mid = seq![RowView::Heading("saved"@)];
    lemma_saved_section(repos, i);
    lemma_lone(RowView::Heading("saved"@), row);
    reveal_strlit("here");
    reveal_strlit("saved");
    assert("here"@.len() != "saved"@.len());
    if let Some(h) = shown_here(repos, here) {
        lemma_block(repos, h);
        let b = block(repos, h);
        let top = seq![RowView::Heading("here"@)];
        lemma_lone(RowView::Heading("here"@), row);
        assert forall|x: int, y: int| 0 <= x < top.len() && 0 <= y < b.len() implies #[trigger] top[x]
            != #[trigger] b[y] by {
            assert(owner_of(b[y]) is Some);
        }
        lemma_joined_distinct(top, b);
        let head = top + b;
        assert forall|x: int| 0 <= x < head.len() implies (head[x] == RowView::Heading("here"@)
            || owner_of(#[trigger] head[x]) == Some(h)) by {
            if x > 0 {
                assert(head[x] == b[x - 1]);
            }
        }
        lemma_joined_distinct(head, mid);
        let above = head + mid;
        assert forall|x: int, y: int| 0 <= x < above.len() && 0 <= y < tail.len() implies #[trigger] above[x]
            != #[trigger] tail[y] by {
            if x < head.len() {
                assert(above[x] == head[x]);
            }
        }
        lemma_joined_distinct(above, tail);
        lemma_joined_contains(top, b, row);
        lemma_joined_contains(head, mid, row);
        lemma_joined_contains(above, tail, row);
        if b.contains(row) {
            let k = choose|k: int| 0 <= k < b.len() && b[k] == row;
            assert(owner_of(b[k]) == Some(h));
        }
        if i == h {
            assert(b[0] == row);
        }
        assert(sidebar(repos, here) == above + tail);
    } else if any_saved(repos, n) {
        lemma_joined_distinct(mid, tail);
        lemma_joined_contains(mid, tail, row);
        assert(sidebar(repos, here) =~= mid + tail);
    } else if has_place(repos, here, i) {
        assert(repos[i].registered);
    }
}

/// Saving the repo you are in moves its row out of `here` and under `saved`:
/// the heading it leaves goes, and what is drawn changes.
pub proof fn law_saving_moves_the_row(repos: Seq<RepoView>, h: usize)
    requires
        h < repos.len(),
        !repos[h as int].registered,
    ensures
        sidebar(repos, Some(h))[0] == RowView::Heading("here"@),
        sidebar(repos, Some(h))[1] == (RowView::Repo { index: h as int }),
        ({
            let after = repos.update(
                h as int,
                RepoView { registered: true, ..repos[h as int] },
            );
            &&& sidebar(after, Some(h))[0] == RowView::Heading("saved"@)
            &&& !sidebar(after, Some(h)).contains(RowView::Heading("here"@))
            &&& sidebar(after, Some(h)).contains(RowView::Repo { index: h as int })
        }),
{
    let n = repos.len() as int;
    let after = repos.update(h as int, RepoView { registered: true, ..repos[h as int] });
    lemma_block(repos, h as int);
    assert(after[h as int].registered);
    assert(any_saved(after, n));
    assert(shown_here(after, Some(h)) is None);
    law_every_repo_has_one_row(after, Some(h), h as int);
    lemma_saved_rows(after, n);
    reveal_strlit("here");
    reveal_strlit("saved");
    assert("here"@.len() != "saved"@.len());
    let s = sidebar(after, Some(h));
    assert(s =~= seq![RowView::Heading("saved"@)] + saved_rows(after, n));
    if s.contains(RowView::Heading("here"@)) {
        let k = choose|k: int| 0 <= k < s.len() && s[k] == RowView::Heading("here"@);
        assert(k > 0);
        assert(s[k] == saved_rows(after, n)[k - 1]);
    }
}

/// A worktree's store is the `.dex` directory in it, however many slashes its
/// path ends in; the shared store is where its row says, and no worktree of it is
/// asked.
pub proof fn law_a_worktrees_store_is_in_it(path: Seq<char>, repo: RepoView, w: WorktreeView)
    ensures
        path.len() == 0 || path.last() != '/' ==> store_under(path) == path + "/.dex"@,
        store_under(path.push('/')) == store_under(path),
        repo.is_global ==> store_of(repo, Some(w)) == repo.path && store_of(repo, None)
            == repo.path,
        !repo.is_global ==> store_of(repo, Some(w)) == store_under(w.path) && store_of(repo, None)
            == store_under(repo.path),
{
    assert(path.push('/').drop_last() =~= path);
}

/// Each worktree of an open repo has its row exactly where the repo has one, and
/// those of a closed one have none.
pub proof fn law_open_repos_show_their_worktrees(
    repos: Seq<RepoView>,
    here: Option<usize>,
    i: int,
    j: int,
)
    requires
        here matches Some(h) ==> h < repos.len(),
        0 <= i < repos.len(),
    ensures
        sidebar(repos, here).contains(RowView::Worktree { repo: i, index: j }) <==> sidebar(
            repos,
            here,
        ).contains(RowView::Repo { index: i }) && repos[i].open && 0 <= j
            < repos[i].worktrees.len(),
{
    let n = repos.len() as int;
    let row = RowView::Worktree { repo: i, index: j };
    law_every_repo_has_one_row(repos, here, i);
    lemma_saved_worktree(repos, n, i, j);
    let s = sidebar(repos, here);
    let saved = saved_rows(repos, n);
    match shown_here(repos, here) {
        Some(h) => {
            lemma_block_worktree(repos, h, i, j);
            let head = seq![RowView::Heading("here"@)] + block(repos, h);
            let tail = if any_saved(repos, n) {
                saved
            } else {
                seq![RowView::Hint("nothing saved yet"@)]
            };
            assert(s == head + seq![RowView::Heading("saved"@)] + tail);
            if block(repos, h).contains(row) {
                let k = choose|k: int| 0 <= k < block(repos, h).len() && block(repos, h)[k] == row;
                assert(s[k + 1] == row);
            }
            if any_saved(repos, n) && saved.contains(row) {
                let k = choose|k: int| 0 <= k < saved.len() && saved[k] == row;
                assert(s[head.len() + 1 + k] == row);
            }
            if s.contains(row) {
                let k = choose|k: int| 0 <= k < s.len() && s[k] == row;
                if k < head.len() {
                    assert(k > 0 && block(repos, h)[k - 1] == row);
                } else {
                    assert(k > head.len() && tail[k - head.len() - 1] == row);
                }
            }
        },
        None => {
            if any_saved(repos, n) {
                assert(s =~= seq![RowView::Heading("saved"@)] + saved);
                if saved.contains(row) {
                    let k = choose|k: int| 0 <= k < saved.len() && saved[k] == row;
                    assert(s[k + 1] == row);
                }
                if s.contains(row) {
                    let k = choose|k: int| 0 <= k < s.len() && s[k] == row;
                    assert(k > 0 && saved[k - 1] == row);
                }
            }
        },
    }
    if repos[i].registered {
        assert(any_saved(repos, n));
    }
}

proof fn lemma_block_worktree(repos: Seq<RepoView>, h: int, i: int, j: int)
    ensures
        block(repos, h).contains(RowView::Worktree { repo: i, index: j }) <==> h == i && repos[h].open
            && 0 <= j < repos[h].worktrees.len(),
{
    let b = block(repos, h);
    let row = RowView::Worktree { repo: i, index: j };
    if h == i && repos[h].open && 0 <= j < repos[h].worktrees.len() {
        assert(b[j + 1] == row);
    }
    if b.contains(row) {
        let k = choose|k: int| 0 <= k < b.len() && b[k] == row;
        assert(k > 0);
    }
}

proof fn lemma_saved_worktree(repos: Seq<RepoView>, n: int, i: int, j: int)
    requires
        0 <= n <= repos.len(),
    ensures
        saved_rows(repos, n).contains(RowView::Worktree { repo: i, index: j }) <==> 0 <= i < n
            && repos[i].registered && repos[i].open && 0 <= j < repos[i].worktrees.len(),
    decreases n,
{
    if n > 0 {
        lemma_saved_worktree(repos, n - 1, i, j);
        lemma_block_worktree(repos, n - 1, i, j);
        let row = RowView::Worktree { repo: i, index: j };
        let (a, b) = (saved_rows(repos, n - 1), block(repos, n - 1));
        if repos[n - 1].registered {
            let all = a + b;
            if a.contains(row) {
                let k = choose|k: int| 0 <= k < a.len() && a[k] == row;
                assert(all[k] == row);
            }
            if b.contains(row) {
                let k = choose|k: int| 0 <= k < b.len() && b[k] == row;
                assert(all[a.len() + k] == row);
            }
            if all.contains(row) {
                let k = choose|k: int| 0 <= k < all.len() && all[k] == row;
                if k < a.len() {
                    assert(a[k] == row);
                } else {
                    assert(b[k - a.len()] == row);
                }
            }
        }
    }
}

} // verus!
