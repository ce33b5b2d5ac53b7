//! Saving repos to the sidebar and forgetting them, and the rows it opens with.

use vstd::prelude::*;

use crate::app::App;
use crate::effects::{flatten, on_one_line};
use crate::modes::said;
use crate::order::{lemma_sorted_map, sorted_by, stable_sort};
use crate::registry::{saved_as, with_path, without_path, Registry};
use crate::repos::{repo_views, store_dir, store_under, Repo, RepoView};
use crate::sidebar::{find_repo, registry_changed, repo_at, row_dropped, row_moved, store_row};
use crate::text::{
    after_last, concat, concat3, ends, ends_with, join, joined, last_piece, less, opt_str,
    opt_text, same, text_lt, texts, trim, trim_end_matches, trim_end_of, trimmed,
};
use crate::worktree::{worktree_views, Worktree, WorktreeView};

verus! {

// ---------------------------------------------------------------------------
// Names and rows
// ---------------------------------------------------------------------------

/// A path without the slashes and `.` components it ends in.
pub open spec fn tidied(path: Seq<char>) -> Seq<char>
    decreases path.len(),
{
    let t = trim_end_of(path, '/');
    if t.len() <= path.len() && ends(t, "/."@) && t.len() >= 2 {
        tidied(t.take(t.len() - 2))
    } else {
        t
    }
}

/// The last component of a path; the path itself when it has none.
pub open spec fn last_component(path: Seq<char>) -> Seq<char> {
    let name = after_last(tidied(path), '/');
    if name.len() == 0 || name == "."@ || name == ".."@ {
        path
    } else {
        name
    }
}

proof fn lemma_trimmed_shorter(s: Seq<char>, c: char)
    ensures
        trim_end_of(s, c).len() <= s.len(),
    decreases s.len(),
{
    if s.len() > 0 && s.last() == c {
        lemma_trimmed_shorter(s.drop_last(), c);
    }
}

fn tidy(path: &str) -> (r: String)
    ensures
        r@ == tidied(path@),
{
    let mut out = path.to_owned();
    loop
        invariant
            tidied(out@) == tidied(path@),
        decreases out@.len(),
    {
        let ghost before = out@;
        proof {
            lemma_trimmed_shorter(before, '/');
            reveal_strlit("/.");
        }
        let t = trim_end_matches(out.as_str(), '/');
        if !ends_with(t, "/.") {
            return t.to_owned();
        }
        let n: usize = t.unicode_len();
        let shorter = t.substring_char(0, n - 2);
        assert(shorter@ =~= t@.take(t@.len() - 2));
        out = shorter.to_owned();
    }
}

/// The last path component, which is what the sidebar shows for a repo.
/// Shared by startup and `a` so a repo registered mid-run is labelled exactly
/// the way it will be after a restart.
pub fn repo_name(repo_path: &str) -> (r: String)
    ensures
        r@ == last_component(repo_path@),
{
    let tidy_path = tidy(repo_path);
    let name = last_piece(tidy_path.as_str(), '/');
    if name.unicode_len() == 0 || same(name, ".") || same(name, "..") {
        repo_path.to_owned()
    } else {
        name.to_owned()
    }
}

/// The row of an ordinary repo.
pub open spec fn repo_row(path: Seq<char>, worktrees: Seq<WorktreeView>, registered: bool) -> RepoView {
    RepoView {
        name: last_component(path),
        path,
        worktrees,
        open: true,
        registered,
        is_global: false,
    }
}

/// The row of an ordinary repo.
pub fn row_for(path: String, worktrees: Vec<Worktree>, registered: bool) -> (r: Repo)
    ensures
        r@ == repo_row(path@, worktree_views(worktrees@), registered),
{
    Repo {
        name: repo_name(path.as_str()),
        path,
        worktrees,
        open: true,
        registered,
        is_global: false,
    }
}

/// What the sidebar says of a saved repo whose worktrees could not be listed.
pub open spec fn listing_problem(path: Seq<char>, error: Seq<char>) -> Seq<char> {
    path + ": "@ + on_one_line(error)
}

/// The row of a saved repo, or what is wrong with it: a repo someone has since
/// deleted must not stop the app starting. `listing` is what git says of its
/// worktrees, or `None` when the path is not there any more.
pub fn saved_row(path: &str, listing: Option<Result<Vec<Worktree>, String>>) -> (r: Result<
    Repo,
    String,
>)
    ensures
        match listing {
            None => r is Err && r->Err_0@ == path@ + " no longer exists"@,
            Some(Ok(ws)) => r is Ok && r->Ok_0@ == repo_row(path@, worktree_views(ws@), true),
            Some(Err(e)) => r is Err && r->Err_0@ == listing_problem(path@, e@),
        },
{
    match listing {
        None => Err(concat(path, " no longer exists")),
        Some(Ok(ws)) => Ok(row_for(path.to_owned(), ws, true)),
        Some(Err(e)) => Err(concat3(path, ": ", flatten(e.as_str()).as_str())),
    }
}

/// The checkout a store directory belongs to: none for the shared store.
pub open spec fn root_of(store_dir: Seq<char>) -> Option<Seq<char>> {
    if ends(store_dir, "/.dex"@) {
        Some(store_dir.take(store_dir.len() - 5))
    } else {
        None
    }
}

/// The checkout a store directory belongs to.
pub fn repo_root(store_dir: &str) -> (r: Option<String>)
    ensures
        opt_text(r) == root_of(store_dir@),
{
    proof {
        reveal_strlit("/.dex");
    }
    if ends_with(store_dir, "/.dex") {
        let n: usize = store_dir.unicode_len();
        let root = store_dir.substring_char(0, n - 5);
        assert(root@ =~= store_dir@.take(store_dir@.len() - 5));
        Some(root.to_owned())
    } else {
        None
    }
}

/// The row of the shared store, which is no repo at all: no worktrees, and its
/// path *is* its store.
pub open spec fn global_row(store_dir: Seq<char>) -> RepoView {
    RepoView {
        name: "global"@,
        path: store_dir,
        worktrees: Seq::empty(),
        open: true,
        registered: false,
        is_global: true,
    }
}

/// The row for wherever the app was launched, given what git says of the
/// checkout there. The repo's identity is the main checkout, which git reports
/// first, whatever was asked about.
pub open spec fn launch_row(store_dir: Seq<char>, listing: Result<Seq<WorktreeView>, Seq<char>>) -> Result<
    RepoView,
    Seq<char>,
> {
    match root_of(store_dir) {
        None => Ok(global_row(store_dir)),
        Some(root) => match listing {
            Ok(ws) => Ok(
                repo_row(
                    if ws.len() > 0 {
                        ws[0].path
                    } else {
                        root
                    },
                    ws,
                    false,
                ),
            ),
            Err(e) => Err(listing_problem(root, e)),
        },
    }
}

/// What git says, as plain texts.
pub open spec fn listing_view(listing: Result<Vec<Worktree>, String>) -> Result<
    Seq<WorktreeView>,
    Seq<char>,
> {
    match listing {
        Ok(ws) => Ok(worktree_views(ws@)),
        Err(e) => Err(e@),
    }
}

/// The sidebar row for wherever the app was launched, registered or not.
///
/// Two shapes, because dex has two. Inside a git repo the store is
/// `<worktree>/.dex` and the row is an ordinary repo with its real worktrees.
/// Outside one, dex silently falls back to a global store, so that gets a row
/// named `global`, which is the only place on screen that says so.
///
/// `store_dir` is what decides between them: it is dex's own answer about which
/// store this run reads, and a second opinion here could disagree with it.
/// `listing` is what git says of the checkout, and is not looked at for the
/// global store.
pub fn current_repo(
    store_dir: &str,
    listing: Result<Vec<Worktree>, String>,
    problems: &mut Vec<String>,
) -> (r: Option<Repo>)
    ensures
        match launch_row(store_dir@, listing_view(listing)) {
            Ok(row) => r is Some && r->0@ == row && final(problems)@ == old(problems)@,
            Err(e) => r is None && texts(final(problems)@) == texts(old(problems)@).push(e),
        },
{
    match repo_root(store_dir) {
        None => {
            let r = Repo {
                name: "global".to_owned(),
                path: store_dir.to_owned(),
                worktrees: Vec::new(),
                open: true,
                registered: false,
                is_global: true,
            };
            assert(r@.worktrees =~= Seq::empty());
            Some(r)
        },
        Some(root) => match listing {
            Ok(ws) => {
                let path = if ws.len() > 0 {
                    assert(worktree_views(ws@)[0] == ws@[0]@);
                    ws[0].path.clone()
                } else {
                    root
                };
                Some(row_for(path, ws, false))
            },
            Err(e) => {
                let ghost before = problems@;
                problems.push(concat3(root.as_str(), ": ", flatten(e.as_str()).as_str()));
                assert(texts(problems@) =~= texts(before).push(
                    listing_problem(root@, e@),
                ));
                None
            },
        },
    }
}

/// The order of rows.
pub open spec fn by_path() -> spec_fn(RepoView, RepoView) -> bool {
    |a: RepoView, b: RepoView| text_lt(a.path, b.path)
}

/// Rows in the order the registry's file keeps.
fn sort_rows(rows: Vec<Repo>) -> (r: Vec<Repo>)
    ensures
        repo_views(r@) == sorted_by(repo_views(rows@), by_path()),
{
    let ghost lt = |a: Repo, b: Repo| text_lt(a@.path, b@.path);
    let ghost all = rows@;
    let before = |a: &Repo, b: &Repo| -> (r: bool)
        ensures
            r == text_lt(a@.path, b@.path),
        {
            less(a.path.as_str(), b.path.as_str())
        };
    let sorted = stable_sort(rows, before, Ghost(lt));
    proof {
        lemma_sorted_map(all, lt, |x: Repo| x@, by_path());
    }
    sorted
}

/// Rows with one more, unless one of that path is there.
pub open spec fn joined_by(rows: Seq<RepoView>, here: Option<RepoView>) -> Seq<RepoView> {
    match here {
        Some(h) => if repo_at(rows, h.path) < rows.len() {
            rows
        } else {
            rows.push(h)
        },
        None => rows,
    }
}

/// The rows the sidebar opens with: the saved repos and the one dextui was
/// launched in, sorted the same way the registry's file is, so registering the
/// current repo changes its section and never its position among the repos.
pub fn opening_rows(saved: Vec<Repo>, here: Option<Repo>) -> (r: Vec<Repo>)
    ensures
        repo_views(r@) == sorted_by(
            joined_by(
                repo_views(saved@),
                match here {
                    Some(h) => Some(h@),
                    None => None,
                },
            ),
            by_path(),
        ),
{
    let mut rows = saved;
    assert(repo_views(rows@).len() == rows@.len());
    if let Some(h) = here {
        if find_repo(&rows, h.path.as_str()) >= rows.len() {
            let ghost before = rows@;
            rows.push(h);
            assert(repo_views(rows@) =~= repo_views(before).push(h@));
        }
    }
    sort_rows(rows)
}

/// An optional problem, under a heading.
pub open spec fn headed(heading: Seq<char>, problem: Option<Seq<char>>) -> Seq<Seq<char>> {
    match problem {
        Some(p) => seq![heading + p],
        None => Seq::empty(),
    }
}

/// Everything there is to say at startup, on one line.
pub fn opening_status(
    config: Option<String>,
    registry: Option<String>,
    repos: &Vec<String>,
) -> (r: String)
    ensures
        r@ == joined(
            headed("config: "@, opt_text(config)) + headed("repos: "@, opt_text(registry)) + texts(
                repos@,
            ),
            "; "@,
        ),
{
    let ghost want = headed("config: "@, opt_text(config)) + headed(
        "repos: "@,
        opt_text(registry),
    );
    let mut all: Vec<String> = Vec::new();
    assert(texts(all@) =~= Seq::empty());
    if let Some(c) = config {
        all.push(concat("config: ", c.as_str()));
    }
    assert(texts(all@) =~= headed("config: "@, opt_text(config)));
    if let Some(p) = registry {
        all.push(concat("repos: ", p.as_str()));
    }
    assert(texts(all@) =~= want);
    assert(want + texts(repos@).take(0) =~= want);
    for i in 0..repos.len()
        invariant
            texts(all@) == want + texts(repos@).take(i as int),
    {
        let ghost before = all@;
        all.push(repos[i].clone());
        proof {
            let t = texts(repos@);
            assert(texts(all@) =~= texts(before).push(t[i as int]));
            assert(want + t.take(i + 1) =~= (want + t.take(i as int)).push(t[i as int]));
        }
    }
    assert(texts(repos@).take(repos@.len() as int) =~= texts(repos@));
    join(&all, "; ")
}

/// Every worktree of the first `n` rows.
pub open spec fn worktrees_in(rows: Seq<RepoView>, n: int) -> Seq<WorktreeView>
    decreases n,
{
    if n <= 0 {
        Seq::empty()
    } else {
        worktrees_in(rows, n - 1) + rows[n - 1].worktrees
    }
}

/// The path of the first worktree whose store is the one asked for.
pub open spec fn first_with_store(ws: Seq<WorktreeView>, store: Seq<char>) -> Option<Seq<char>>
    decreases ws.len(),
{
    if ws.len() == 0 {
        None
    } else if store_under(ws[0].path) == store {
        Some(ws[0].path)
    } else {
        first_with_store(ws.drop_first(), store)
    }
}

fn all_worktrees<'a>(rows: &'a Vec<Repo>) -> (r: Vec<&'a Worktree>)
    ensures
        r@.map_values(|w: &Worktree| w@) == worktrees_in(repo_views(rows@), rows@.len() as int),
{
    let ghost all = repo_views(rows@);
    let mut out: Vec<&'a Worktree> = Vec::new();
    let ghost see = |w: &Worktree| w@;
    assert(out@.map_values(see) =~= worktrees_in(all, 0));
    for i in 0..rows.len()
        invariant
            all == repo_views(rows@),
            see == (|w: &Worktree| w@),
            out@.map_values(see) == worktrees_in(all, i as int),
    {
        let ws: &'a Vec<Worktree> = &rows[i].worktrees;
        let ghost head = worktrees_in(all, i as int);
        let ghost mine = worktree_views(ws@);
        assert(all[i as int] == rows@[i as int]@);
        assert(head + mine.take(0) =~= head);
        for j in 0..ws.len()
            invariant
                see == (|w: &Worktree| w@),
                mine == worktree_views(ws@),
                out@.map_values(see) == head + mine.take(j as int),
        {
            let ghost before = out@;
            out.push(&ws[j]);
            proof {
                assert(out@.map_values(see) =~= before.map_values(see).push(mine[j as int]));
                assert(head + mine.take(j + 1) =~= (head + mine.take(j as int)).push(
                    mine[j as int],
                ));
            }
        }
        assert(mine.take(mine.len() as int) =~= mine);
    }
    out
}

/// Which worktree the app is actually reading: the one whose store is the one
/// dex resolved.
pub fn worktree_for_store(rows: &Vec<Repo>, store: &str) -> (r: Option<String>)
    ensures
        opt_text(r) == first_with_store(
            worktrees_in(repo_views(rows@), rows@.len() as int),
            store@,
        ),
{
    let ws = all_worktrees(rows);
    let ghost all = ws@.map_values(|w: &Worktree| w@);
    assert(all.skip(0) =~= all);
    for i in 0..ws.len()
        invariant
            all == ws@.map_values(|w: &Worktree| w@),
            first_with_store(all.skip(i as int), store@) == first_with_store(all, store@),
            all == worktrees_in(repo_views(rows@), rows@.len() as int),
    {
        let w = ws[i];
        proof {
            assert(all.skip(i as int)[0] == w@);
            assert(all.skip(i as int).drop_first() =~= all.skip(i + 1));
        }
        if same(store_dir(w.path.as_str()).as_str(), store) {
            return Some(w.path.clone());
        }
    }
    None
}

// ---------------------------------------------------------------------------
// Saving
// ---------------------------------------------------------------------------

/// The rows once a repo has been saved: its row is marked where it has one, and
/// one is added in its place in the order where it has none.
pub open spec fn rows_with(
    rows: Seq<RepoView>,
    path: Seq<char>,
    worktrees: Seq<WorktreeView>,
) -> Seq<RepoView> {
    let k = repo_at(rows, path);
    if k < rows.len() {
        rows.update(k, RepoView { registered: true, ..rows[k] })
    } else {
        sorted_by(rows.push(repo_row(path, worktrees, true)), by_path())
    }
}

/// What saving a repo's row leaves.
#[verifier::opaque]
pub open spec fn row_saved(
    pre: App,
    path: Seq<char>,
    worktrees: Seq<WorktreeView>,
    post: App,
) -> bool {
    &&& post == (App { repos: post.repos, repos_changed: true, ..pre })
    &&& post.repo_list() == rows_with(pre.repo_list(), path, worktrees)
}

/// What saving a repo says.
pub open spec fn saving_report(path: Seq<char>, outcome: Result<bool, String>) -> Seq<char> {
    match outcome {
        Ok(true) => "saved "@ + path,
        Ok(false) => path + " is already saved"@,
        Err(e) => "could not save: "@ + on_one_line(e@),
    }
}

/// What saving a repo leaves and says, given how writing the registry went. A
/// saved repo's row is drawn at once, and the cursor follows the row it moves.
pub open spec fn repo_saved(
    pre: App,
    path: Seq<char>,
    worktrees: Seq<WorktreeView>,
    outcome: Result<bool, String>,
    post: App,
) -> bool {
    if outcome == Ok::<bool, String>(true) {
        exists|mid: App| #[trigger]
            row_saved(pre, path, worktrees, mid) && row_moved(
                mid,
                store_row(
                    mid.repo_list(),
                    mid.side_rows(),
                    0,
                    mid.store_dir@,
                    mid.selected_repo_row,
                ),
                post,
            )
    } else {
        post == pre
    }
}

/// What is at a path someone typed.
pub enum Place {
    NotADirectory,
    /// A directory git does not know; what it said.
    NotARepo(String),
    /// A repo, and its worktrees, the main checkout first.
    Repo(Vec<Worktree>),
}

/// What is where dextui is running.
pub enum Here {
    /// There is no current directory; why.
    Nowhere(String),
    /// Git cannot list its worktrees; what it said.
    Unlisted(String),
    /// A repo, and its worktrees, the main checkout first.
    Repo(Vec<Worktree>),
}

/// What a typed path stands for: nothing when it is blank, and a leading `~`
/// is the home directory.
pub open spec fn expanded(typed: Seq<char>, home: Option<Seq<char>>) -> Result<
    Option<Seq<char>>,
    Seq<char>,
> {
    let t = trimmed(typed);
    if t.len() == 0 {
        Ok(None)
    } else if t[0] == '~' {
        match home {
            Some(h) => Ok(Some(h + t.skip(1))),
            None => Err("cannot expand ~: HOME is not set"@),
        }
    } else {
        Ok(Some(t))
    }
}

/// What a typed path stands for, given the value of `HOME`.
///
/// `~` is expanded here rather than by a shell: nothing in this app goes
/// through one, so a pasted `~/Developer/thing` would otherwise be taken
/// literally and fail on a directory that does not exist.
pub fn typed_path(typed: &str, home: Option<&str>) -> (r: Result<Option<String>, String>)
    ensures
        match (r, expanded(typed@, opt_str(home))) {
            (Ok(a), Ok(b)) => opt_text(a) == b,
            (Err(a), Err(b)) => a@ == b,
            _ => false,
        },
{
    let t = trim(typed);
    let n: usize = t.unicode_len();
    if n == 0 {
        return Ok(None);
    }
    if t.get_char(0) == '~' {
        let rest = t.substring_char(1, n);
        assert(rest@ =~= t@.skip(1));
        match home {
            Some(h) => Ok(Some(concat(h, rest))),
            None => Err("cannot expand ~: HOME is not set".to_owned()),
        }
    } else {
        Ok(Some(t.to_owned()))
    }
}

impl App {
    fn save_row(&mut self, path: String, worktrees: Vec<Worktree>)
        ensures
            row_saved(*old(self), path@, worktree_views(worktrees@), *final(self)),
            old(self).wf() ==> final(self).wf(),
    {
        proof {
            reveal(row_saved);
        }
        let rows = self.rows_including(path, worktrees);
        self.repos = rows;
        self.repos_changed = true;
    }

    fn rows_including(&self, path: String, worktrees: Vec<Worktree>) -> (r: Vec<Repo>)
        ensures
            repo_views(r@) == rows_with(self.repo_list(), path@, worktree_views(worktrees@)),
    {
        let ghost all = self.repo_list();
        assert(all.len() == self.repos@.len());
        let k: usize = find_repo(&self.repos, path.as_str());
        let mut out: Vec<Repo> = Vec::new();
        let ghost marked = if k < all.len() {
            all.update(k as int, RepoView { registered: true, ..all[k as int] })
        } else {
            all
        };
        assert(repo_views(out@) =~= marked.take(0));
        for i in 0..self.repos.len()
            invariant
                all == self.repo_list(),
                all.len() == self.repos@.len(),
                k == repo_at(all, path@),
                marked == (if k < all.len() {
                    all.update(k as int, RepoView { registered: true, ..all[k as int] })
                } else {
                    all
                }),
                repo_views(out@) == marked.take(i as int),
        {
            let mut r = self.repos[i].clone();
            if i == k {
                r.registered = true;
            }
            let ghost before = out@;
            out.push(r);
            proof {
                assert(all[i as int] == self.repos@[i as int]@);
                assert(r@ == marked[i as int]);
                assert(repo_views(out@) =~= repo_views(before).push(r@));
                assert(marked.take(i + 1) =~= marked.take(i as int).push(marked[i as int]));
            }
        }
        assert(marked.take(marked.len() as int) =~= marked);
        if k < self.repos.len() {
            return out;
        }
        let ghost before = out@;
        let row = row_for(path, worktrees, true);
        out.push(row);
        assert(repo_views(out@) =~= repo_views(before).push(row@));
        sort_rows(out)
    }

    fn settle_saved(&mut self, path: &str, worktrees: Vec<Worktree>)
        ensures
            repo_saved(
                *old(self),
                path@,
                worktree_views(worktrees@),
                Ok::<bool, String>(true),
                *final(self),
            ),
            old(self).wf() ==> final(self).wf(),
    {
        self.save_row(path.to_owned(), worktrees);
        let ghost mid = *self;
        // The row moves -- out of `here` and down into `saved`, which is the
        // whole point -- so the cursor has to follow it or it would be left
        // addressing whatever slid up into that index.
        self.select_current_store_row();
        assert(row_saved(*old(self), path@, worktree_views(worktrees@), mid));
    }

    /// Saves the repo these worktrees are of. `git worktree list` always reports
    /// the main checkout first, so that entry is "the repo that has the
    /// worktrees," which is what gets saved. Returns what to say about it.
    ///
    /// Writing the registry is only half of it: the sidebar draws the rows, so a
    /// registration that only persisted would appear to do **nothing at all**
    /// until the next launch.
    ///
    /// `stored` is the registry's file read fresh, and `write` stores the new
    /// list; see `Registry::add_and_save`.
    pub fn register_repo<W: Fn(&Registry) -> Result<(), String>>(
        &mut self,
        worktrees: Vec<Worktree>,
        stored: Result<Registry, String>,
        write: W,
    ) -> (r: String)
        requires
            forall|x: &Registry| call_requires(write, (x,)),
        ensures
            worktrees@.len() == 0 ==> *final(self) == *old(self) && r@ == "no worktrees found"@,
            worktrees@.len() > 0 ==> exists|outcome: Result<bool, String>, mid: App| #[trigger]
                saving_went(
                    *old(self),
                    worktrees@[0].path@,
                    stored,
                    write,
                    outcome,
                    mid,
                ) && repo_saved(
                    mid,
                    worktrees@[0].path@,
                    worktree_views(worktrees@),
                    outcome,
                    *final(self),
                ) && r@ == saving_report(worktrees@[0].path@, outcome),
            old(self).wf() ==> final(self).wf(),
    {
        if worktrees.len() == 0 {
            return "no worktrees found".to_owned();
        }
        let path = worktrees[0].path.clone();
        let outcome = self.register_repo_path(path.as_str(), stored, write);
        let ghost (went, mid) = (outcome, *self);
        assert(saving_went(*old(self), path@, stored, write, went, mid));
        match outcome {
            Ok(true) => {
                self.settle_saved(path.as_str(), worktrees);
                concat("saved ", path.as_str())
            },
            Ok(false) => concat(path.as_str(), " is already saved"),
            Err(e) => concat("could not save: ", flatten(e.as_str()).as_str()),
        }
    }

    /// Saves the repo at a path, so a repo you are *not* in can be added. Any
    /// path *inside* a repo works, not just its root. Returns what to say about
    /// it.
    pub fn save_repo_at<W: Fn(&Registry) -> Result<(), String>>(
        &mut self,
        path: &str,
        place: Place,
        stored: Result<Registry, String>,
        write: W,
    ) -> (r: String)
        requires
            forall|x: &Registry| call_requires(write, (x,)),
        ensures
            match place {
                Place::NotADirectory => *final(self) == *old(self) && r@ == path@
                    + " is not a directory"@,
                Place::NotARepo(e) => *final(self) == *old(self) && r@ == path@
                    + " is not a git repo: "@ + on_one_line(e@),
                Place::Repo(ws) => {
                    &&& ws@.len() == 0 ==> *final(self) == *old(self) && r@
                        == "no worktrees found"@
                    &&& ws@.len() > 0 ==> exists|outcome: Result<bool, String>, mid: App| #[trigger]
                        saving_went(*old(self), ws@[0].path@, stored, write, outcome, mid)
                            && repo_saved(
                            mid,
                            ws@[0].path@,
                            worktree_views(ws@),
                            outcome,
                            *final(self),
                        ) && r@ == saving_report(ws@[0].path@, outcome)
                },
            },
            old(self).wf() ==> final(self).wf(),
    {
        match place {
            Place::NotADirectory => concat(path, " is not a directory"),
            Place::NotARepo(e) => concat3(
                path,
                " is not a git repo: ",
                flatten(e.as_str()).as_str(),
            ),
            Place::Repo(worktrees) => self.register_repo(worktrees, stored, write),
        }
    }

    /// Saves the repo dextui is currently running against -- not whatever row the
    /// cursor happens to be on in the sidebar. Returns what to say about it.
    pub fn register_current_repo<W: Fn(&Registry) -> Result<(), String>>(
        &mut self,
        here: Here,
        stored: Result<Registry, String>,
        write: W,
    ) -> (r: String)
        requires
            forall|x: &Registry| call_requires(write, (x,)),
        ensures
            match here {
                Here::Nowhere(e) => *final(self) == *old(self) && r@
                    == "could not resolve the current directory: "@ + e@,
                Here::Unlisted(e) => *final(self) == *old(self) && r@
                    == "could not list worktrees: "@ + on_one_line(e@),
                Here::Repo(ws) => {
                    &&& ws@.len() == 0 ==> *final(self) == *old(self) && r@
                        == "no worktrees found"@
                    &&& ws@.len() > 0 ==> exists|outcome: Result<bool, String>, mid: App| #[trigger]
                        saving_went(*old(self), ws@[0].path@, stored, write, outcome, mid)
                            && repo_saved(
                            mid,
                            ws@[0].path@,
                            worktree_views(ws@),
                            outcome,
                            *final(self),
                        ) && r@ == saving_report(ws@[0].path@, outcome)
                },
            },
            old(self).wf() ==> final(self).wf(),
    {
        match here {
            Here::Nowhere(e) => concat("could not resolve the current directory: ", e.as_str()),
            Here::Unlisted(e) => concat(
                "could not list worktrees: ",
                flatten(e.as_str()).as_str(),
            ),
            Here::Repo(worktrees) => self.register_repo(worktrees, stored, write),
        }
    }

    /// Forgets a saved repo, and says how that went: reporting it gone when the
    /// removal did not reach disk would leave it silently reappearing at the
    /// next launch.
    pub fn forget_repo<W: Fn(&Registry) -> Result<(), String>>(
        &mut self,
        path: &str,
        stored: Result<Registry, String>,
        write: W,
    )
        requires
            forall|x: &Registry| call_requires(write, (x,)),
        ensures
            exists|outcome: Result<bool, String>, mid: App| #[trigger]
                forgetting_went(*old(self), path@, stored, write, outcome, mid) && said(
                    mid,
                    forgetting_report(path@, outcome),
                    *final(self),
                ),
            old(self).wf() ==> final(self).wf(),
    {
        let outcome = self.unregister_repo_path(path, stored, write);
        let ghost (went, mid) = (outcome, *self);
        assert(forgetting_went(*old(self), path@, stored, write, went, mid));
        let text = match outcome {
            Ok(true) => concat("forgot ", path),
            Ok(false) => concat(path, " was not saved"),
            Err(e) => {
                let mut out = concat3("could not forget ", path, ": ");
                out.append(flatten(e.as_str()).as_str());
                out
            },
        };
        self.say(text.as_str());
    }
}

/// What forgetting a repo says.
pub open spec fn forgetting_report(path: Seq<char>, outcome: Result<bool, String>) -> Seq<char> {
    match outcome {
        Ok(true) => "forgot "@ + path,
        Ok(false) => path + " was not saved"@,
        Err(e) => "could not forget "@ + path + ": "@ + on_one_line(e@),
    }
}

/// How saving a path in the registry went.
pub open spec fn saving_went<W: Fn(&Registry) -> Result<(), String>>(
    pre: App,
    path: Seq<char>,
    stored: Result<Registry, String>,
    write: W,
    outcome: Result<bool, String>,
    mid: App,
) -> bool {
    &&& registry_changed(pre, mid)
    &&& saved_as(
        pre.registry,
        mid.registry,
        stored,
        match stored {
            Ok(s) => with_path(s@, path),
            Err(_) => Seq::empty(),
        },
        write,
        outcome,
    )
}

/// How taking a path out of the registry, and its row out of the sidebar, went.
pub open spec fn forgetting_went<W: Fn(&Registry) -> Result<(), String>>(
    pre: App,
    path: Seq<char>,
    stored: Result<Registry, String>,
    write: W,
    outcome: Result<bool, String>,
    mid: App,
) -> bool {
    &&& if outcome == Ok::<bool, String>(true) {
        row_dropped(pre, path, mid)
    } else {
        registry_changed(pre, mid)
    }
    &&& saved_as(
        pre.registry,
        mid.registry,
        stored,
        match stored {
            Ok(s) => without_path(s@, path),
            Err(_) => Seq::empty(),
        },
        write,
        outcome,
    )
}

// ---------------------------------------------------------------------------
// What saving promises
// ---------------------------------------------------------------------------

/// A registry that could not be read, or not be written, leaves every row, the
/// registry and the cursor as they were.
pub proof fn law_a_failed_save_changes_nothing<W: Fn(&Registry) -> Result<(), String>>(
    pre: App,
    path: Seq<char>,
    worktrees: Seq<WorktreeView>,
    stored: Result<Registry, String>,
    write: W,
    outcome: Result<bool, String>,
    mid: App,
    post: App,
)
    requires
        saving_went(pre, path, stored, write, outcome, mid),
        repo_saved(mid, path, worktrees, outcome, post),
        outcome is Err,
    ensures
        post.repos == pre.repos,
        post.registry == pre.registry,
        post.selected_repo_row == pre.selected_repo_row,
{
    reveal(registry_changed);
}

/// The row of a saved repo is there at once, saved, and every other row is
/// still there.
pub proof fn law_a_saved_repo_has_a_row(
    rows: Seq<RepoView>,
    path: Seq<char>,
    worktrees: Seq<WorktreeView>,
)
    ensures
        exists|k: int|
            0 <= k < rows_with(rows, path, worktrees).len() && (#[trigger] rows_with(
                rows,
                path,
                worktrees,
            )[k]).path == path && rows_with(rows, path, worktrees)[k].registered,
        rows_with(rows, path, worktrees).len() == rows.len() + if repo_at(rows, path) < rows.len() {
            0int
        } else {
            1
        },
{
    let k = repo_at(rows, path);
    crate::sidebar::lemma_repo_at_bounds(rows, path);
    let out = rows_with(rows, path, worktrees);
    if k < rows.len() {
        assert(out[k].path == path);
    } else {
        let row = repo_row(path, worktrees, true);
        let p = rows.push(row);
        crate::order::law_sort_is_a_permutation(p, by_path());
        crate::order::lemma_sorted_contains(p, by_path(), row);
        assert(p[rows.len() as int] == row);
        let j = choose|j: int| 0 <= j < out.len() && out[j] == row;
        assert(out[j].path == path);
    }
}

/// A repo is called after the directory it is in, however many slashes its path
/// ends in.
pub proof fn law_a_repo_is_called_after_its_directory(place: Seq<char>, name: Seq<char>)
    requires
        name.len() > 0,
        !name.contains('/'),
        name != "."@,
        name != ".."@,
    ensures
        last_component(place.push('/') + name) == name,
        last_component((place.push('/') + name).push('/')) == name,
{
    reveal_strlit("/.");
    reveal_strlit(".");
    let p = place.push('/') + name;
    assert(p.last() == name.last());
    assert(name[name.len() - 1] == name.last());
    assert(name.last() != '/');
    assert(p.push('/').drop_last() =~= p);
    assert(!ends(p, "/."@)) by {
        if ends(p, "/."@) {
            let e = p.subrange(p.len() - 2, p.len() as int);
            assert(e[0] == '/' && e[1] == '.');
            assert(p[p.len() - 2] == '/' && p[p.len() - 1] == '.');
            if name.len() >= 2 {
                assert(name[name.len() - 2] == '/');
                assert(name.contains('/'));
            } else {
                assert(name =~= "."@);
            }
        }
    }
    assert(trim_end_of(p, '/') == p);
    assert(trim_end_of(p.push('/'), '/') == p);
    assert(tidied(p) == p && tidied(p.push('/')) == p);
    crate::text::law_the_last_piece_is_behind_the_last_separator(place, name, '/');
}

/// A store in a checkout belongs to that checkout, and one that is in none to the
/// shared row, which stands for itself.
pub proof fn law_the_launch_row_is_the_checkout_of_its_store(
    root: Seq<char>,
    ws: Seq<WorktreeView>,
    elsewhere: Seq<char>,
    e: Seq<char>,
)
    ensures
        root_of(root + "/.dex"@) == Some(root),
        !ends(elsewhere, "/.dex"@) ==> root_of(elsewhere) is None && launch_row(elsewhere, Ok(ws))
            is Ok && launch_row(elsewhere, Ok(ws))->Ok_0.is_global && launch_row(
            elsewhere,
            Ok(ws),
        )->Ok_0.path == elsewhere && launch_row(elsewhere, Err(e)) == launch_row(
            elsewhere,
            Ok(ws),
        ),
        ({
            let row = launch_row(root + "/.dex"@, Ok(ws));
            &&& row is Ok && !row->Ok_0.is_global && !row->Ok_0.registered
            &&& row->Ok_0.worktrees == ws
            &&& ws.len() > 0 ==> row->Ok_0.path == ws[0].path
            &&& ws.len() == 0 ==> row->Ok_0.path == root
        }),
        launch_row(root + "/.dex"@, Err(e)) is Err,
{
    reveal_strlit("/.dex");
    let s = root + "/.dex"@;
    assert(s.subrange(s.len() - 5, s.len() as int) =~= "/.dex"@);
    assert(s.take(s.len() - 5) =~= root);
}

/// A typed path is taken without the space around it, a leading `~` as the home
/// directory, and blank as nothing; only a `~` without a home is a fault.
pub proof fn law_a_typed_path_is_taken_as_typed(
    path: Seq<char>,
    home: Option<Seq<char>>,
    typed: Seq<char>,
)
    requires
        path.len() > 0,
        trimmed(typed) == path,
    ensures
        path[0] != '~' ==> expanded(typed, home) == Ok::<Option<Seq<char>>, Seq<char>>(Some(path)),
        path[0] == '~' && home is Some ==> expanded(typed, home) == Ok::<
            Option<Seq<char>>,
            Seq<char>,
        >(Some(home->0 + path.skip(1))),
        expanded(typed, home) is Err <==> path[0] == '~' && home is None,
{
}

/// Saving a repo marks or adds the row of that repo, and leaves every other row
/// as it was; where it adds one the rows are in the order of their paths.
pub proof fn law_saving_touches_one_row(
    rows: Seq<RepoView>,
    path: Seq<char>,
    worktrees: Seq<WorktreeView>,
    r: RepoView,
)
    requires
        r.path != path,
    ensures
        rows_with(rows, path, worktrees).contains(r) <==> rows.contains(r),
{
    crate::sidebar::lemma_repo_at_bounds(rows, path);
    let k = repo_at(rows, path);
    let after = rows_with(rows, path, worktrees);
    if k < rows.len() {
        if rows.contains(r) {
            let i = choose|i: int| 0 <= i < rows.len() && rows[i] == r;
            assert(after[i] == r);
        }
        if after.contains(r) {
            let i = choose|i: int| 0 <= i < after.len() && after[i] == r;
            assert(i != k);
            assert(rows[i] == r);
        }
    } else {
        let row = repo_row(path, worktrees, true);
        let p = rows.push(row);
        crate::order::lemma_sorted_contains(p, by_path(), r);
        if rows.contains(r) {
            let i = choose|i: int| 0 <= i < rows.len() && rows[i] == r;
            assert(p[i] == r);
        }
        if p.contains(r) {
            let i = choose|i: int| 0 <= i < p.len() && p[i] == r;
            assert(rows[i] == r);
        }
    }
}

/// A path is the same with and without the slashes and the dots that name its
/// own directory at its end.
pub proof fn law_trailing_dots_and_slashes_say_nothing(path: Seq<char>)
    ensures
        tidied(path.push('/')) == tidied(path),
        tidied(path + "/."@) == tidied(path),
        path.len() > 0 && path.last() != '/' && path.last() != '.' ==> tidied(path) == path,
{
    reveal_strlit("/.");
    assert(path.push('/').drop_last() =~= path);
    assert(trim_end_of(path.push('/'), '/') == trim_end_of(path, '/'));
    crate::text::law_a_trailing_run_is_taken_off_whole(path, '/');
    let q = path + "/."@;
    assert(q.last() == '.');
    assert(trim_end_of(q, '/') == q);
    assert(q.subrange(q.len() - 2, q.len() as int) =~= "/."@);
    assert(q.take(q.len() - 2) =~= path);
    if path.len() > 0 && path.last() != '/' && path.last() != '.' {
        if path.len() >= 2 {
            let e = path.subrange(path.len() - 2, path.len() as int);
            assert(e[1] == path.last() && "/."@[1] == '.');
        }
    }
}

/// The worktree a store belongs to is the first that it is in.
pub proof fn law_a_store_belongs_to_the_first_worktree_with_it(
    ws: Seq<WorktreeView>,
    store: Seq<char>,
    i: int,
)
    ensures
        0 <= i < ws.len() && store_under(ws[i].path) == store && (forall|j: int|
            0 <= j < i ==> store_under((#[trigger] ws[j]).path) != store) ==> first_with_store(
            ws,
            store,
        ) == Some(ws[i].path),
        (forall|j: int| 0 <= j < ws.len() ==> store_under((#[trigger] ws[j]).path) != store)
            ==> first_with_store(ws, store) is None,
    decreases ws.len(),
{
    if ws.len() > 0 {
        let t = ws.drop_first();
        law_a_store_belongs_to_the_first_worktree_with_it(t, store, i - 1);
        if forall|j: int| 0 <= j < ws.len() ==> store_under((#[trigger] ws[j]).path) != store {
            assert forall|j: int| 0 <= j < t.len() implies store_under((#[trigger] t[j]).path)
                != store by {
                assert(t[j] == ws[j + 1]);
            }
            assert(store_under(ws[0].path) != store);
        }
        if 0 < i < ws.len() && store_under(ws[i].path) == store && (forall|j: int|
            0 <= j < i ==> store_under((#[trigger] ws[j]).path) != store) {
            assert forall|j: int| 0 <= j < i - 1 implies store_under((#[trigger] t[j]).path)
                != store by {
                assert(t[j] == ws[j + 1]);
            }
            assert(store_under(ws[0].path) != store);
            assert(t[i - 1] == ws[i]);
        }
    }
}

/// The row of the launch directory joins the saved ones, at their end, unless
/// one of them is the same repo.
pub proof fn law_the_launch_row_comes_last_and_once(rows: Seq<RepoView>, h: RepoView, i: int)
    ensures
        0 <= i < rows.len() && rows[i].path == h.path ==> joined_by(rows, Some(h)) == rows,
        (forall|j: int| 0 <= j < rows.len() ==> (#[trigger] rows[j]).path != h.path) ==> joined_by(
            rows,
            Some(h),
        ) == rows.push(h),
        joined_by(rows, None) == rows,
{
    lemma_repo_at(rows, h.path, i);
}

proof fn lemma_repo_at(rows: Seq<RepoView>, path: Seq<char>, i: int)
    ensures
        0 <= i < rows.len() && rows[i].path == path ==> repo_at(rows, path) < rows.len(),
        (forall|j: int| 0 <= j < rows.len() ==> (#[trigger] rows[j]).path != path) ==> repo_at(
            rows,
            path,
        ) >= rows.len(),
    decreases rows.len(),
{
    if rows.len() > 0 {
        let t = rows.drop_first();
        lemma_repo_at(t, path, i - 1);
        if 0 < i < rows.len() {
            assert(t[i - 1] == rows[i]);
        }
        if forall|j: int| 0 <= j < rows.len() ==> (#[trigger] rows[j]).path != path {
            assert forall|j: int| 0 <= j < t.len() implies (#[trigger] t[j]).path != path by {
                assert(t[j] == rows[j + 1]);
            }
            assert(rows[0].path != path);
        }
    }
}

/// A repo that is saved for the first time takes its place by path among the
/// rows.
pub proof fn law_saved_rows_stay_in_order(
    rows: Seq<RepoView>,
    path: Seq<char>,
    worktrees: Seq<WorktreeView>,
    i: int,
    j: int,
)
    requires
        forall|k: int| 0 <= k < rows.len() ==> (#[trigger] rows[k]).path != path,
        0 <= i < j < rows_with(rows, path, worktrees).len(),
    ensures
        ({
            let after = rows_with(rows, path, worktrees);
            after[i].path == after[j].path || text_lt(after[i].path, after[j].path)
        }),
{
    lemma_repo_at(rows, path, 0);
    lemma_paths_are_ordered();
    let all = rows.push(repo_row(path, worktrees, true));
    crate::order::law_sort_sorts(all, by_path());
    let after = rows_with(rows, path, worktrees);
    assert(!by_path()(after[j], after[i]));
    crate::text::law_text_order_is_total(after[i].path, after[j].path);
}

proof fn lemma_paths_are_ordered()
    ensures
        crate::order::is_order(by_path()),
{
    let lt = by_path();
    assert forall|a: RepoView| !#[trigger] lt(a, a) by {
        crate::text::law_text_order_is_total(a.path, a.path);
    }
    assert forall|a: RepoView, b: RepoView, c: RepoView|
        #![trigger lt(a, b), lt(b, c)]
        lt(a, b) && lt(b, c) implies lt(a, c) by {
        crate::text::law_text_order_is_transitive(a.path, b.path, c.path);
    }
    assert forall|a: RepoView, b: RepoView, c: RepoView|
        #![trigger lt(a, b), lt(b, c)]
        !lt(a, b) && !lt(b, c) implies !lt(a, c) by {
        if lt(a, c) && a.path != b.path {
            crate::text::law_text_order_is_total(a.path, b.path);
            crate::text::law_text_order_is_transitive(b.path, a.path, c.path);
        }
    }
}

/// Saving and forgetting write the list that is stored with the one path in it,
/// or out of it, and every other as it was.
pub proof fn law_the_stored_list_changes_by_one_path<W: Fn(&Registry) -> Result<(), String>>(
    pre: App,
    path: Seq<char>,
    stored: Registry,
    write: W,
    saved: App,
    forgotten: App,
    x: Seq<char>,
)
    requires
        saving_went(pre, path, Ok(stored), write, Ok(true), saved),
        forgetting_went(pre, path, Ok(stored), write, Ok(true), forgotten),
    ensures
        saved.registry@.contains(x) <==> stored@.contains(x) || x == path,
        forgotten.registry@.contains(x) <==> stored@.contains(x) && x != path,
{
    crate::registry::law_nothing_is_taken_for_saved_that_is_not(
        pre.registry,
        saved.registry,
        Ok(stored),
        with_path(stored@, path),
        write,
        Ok(true),
    );
    crate::registry::law_nothing_is_taken_for_saved_that_is_not(
        pre.registry,
        forgotten.registry,
        Ok(stored),
        without_path(stored@, path),
        write,
        Ok(true),
    );
    crate::registry::law_only_the_path_named_comes_or_goes(stored@, path, x);
}

/// The worktrees of all the rows are those of each of them.
pub proof fn law_every_worktree_is_counted_in(rows: Seq<RepoView>, n: int, w: WorktreeView)
    requires
        0 <= n <= rows.len(),
    ensures
        worktrees_in(rows, n).contains(w) <==> exists|i: int|
            0 <= i < n && (#[trigger] rows[i]).worktrees.contains(w),
    decreases n,
{
    if n > 0 {
        law_every_worktree_is_counted_in(rows, n - 1, w);
        let (front, last) = (worktrees_in(rows, n - 1), rows[n - 1].worktrees);
        let all = worktrees_in(rows, n);
        if all.contains(w) {
            let k = choose|k: int| 0 <= k < all.len() && all[k] == w;
            if k < front.len() {
                assert(front[k] == w);
            } else {
                assert(last[k - front.len()] == w);
            }
        }
        if front.contains(w) {
            let k = choose|k: int| 0 <= k < front.len() && front[k] == w;
            assert(all[k] == w);
        }
        if last.contains(w) {
            let k = choose|k: int| 0 <= k < last.len() && last[k] == w;
            assert(all[front.len() + k] == w);
        }
    }
}

/// A new row shows the worktrees it was given, opened out, under the name of
/// the directory; the global store's has none and is at its own directory.
pub proof fn law_new_rows_start_open(
    path: Seq<char>,
    worktrees: Seq<WorktreeView>,
    registered: bool,
)
    ensures
        ({
            let r = repo_row(path, worktrees, registered);
            &&& r.path == path && r.worktrees == worktrees && r.registered == registered
            &&& r.open && !r.is_global && r.name == last_component(path)
        }),
        ({
            let g = global_row(path);
            &&& g.path == path && g.worktrees.len() == 0 && g.is_global && !g.registered
            &&& g.open && g.name == "global"@
        }),
{
}

} // verus!
