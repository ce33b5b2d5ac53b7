//! Git worktrees, as the sidebar sees them.

use vstd::prelude::*;

use crate::text::{lines, lines_of, same, starts, starts_with, texts};

verus! {

/// One checkout of a repository.
#[derive(Debug, PartialEq, Eq)]
pub struct Worktree {
    pub path: String,
    pub branch: String,
    pub is_main: bool,
    pub is_locked: bool,
    pub is_detached: bool,
}

/// What a worktree says.
pub ghost struct WorktreeView {
    pub path: Seq<char>,
    pub branch: Seq<char>,
    pub is_main: bool,
    pub is_locked: bool,
    pub is_detached: bool,
}

impl View for Worktree {
    type V = WorktreeView;

    open spec fn view(&self) -> WorktreeView {
        WorktreeView {
            path: self.path@,
            branch: self.branch@,
            is_main: self.is_main,
            is_locked: self.is_locked,
            is_detached: self.is_detached,
        }
    }
}

impl Clone for Worktree {
    fn clone(&self) -> (r: Self)
        ensures
            r == *self,
    {
        Worktree {
            path: self.path.clone(),
            branch: self.branch.clone(),
            is_main: self.is_main,
            is_locked: self.is_locked,
            is_detached: self.is_detached,
        }
    }
}

/// What each worktree of a list says.
pub open spec fn worktree_views(ws: Seq<Worktree>) -> Seq<WorktreeView> {
    ws.map_values(|w: Worktree| w@)
}

/// A copy of a list of worktrees.
pub fn clone_worktrees(ws: &Vec<Worktree>) -> (r: Vec<Worktree>)
    ensures
        r@ == ws@,
{
    let mut out: Vec<Worktree> = Vec::new();
    for i in 0..ws.len()
        invariant
            out@ == ws@.take(i as int),
    {
        proof {
            assert(ws@.take(i + 1) =~= ws@.take(i as int).push(ws@[i as int]));
        }
        out.push(ws[i].clone());
    }
    assert(ws@.take(ws@.len() as int) =~= ws@);
    out
}

/// A worktree with what one more line says of it.
pub open spec fn told_more(w: WorktreeView, line: Seq<char>) -> WorktreeView {
    if starts(line, "branch refs/heads/"@) {
        WorktreeView { branch: line.skip(18), ..w }
    } else if line == "detached"@ {
        WorktreeView { is_detached: true, ..w }
    } else if line == "locked"@ || starts(line, "locked "@) {
        WorktreeView { is_locked: true, ..w }
    } else {
        w
    }
}

/// What `git worktree list --porcelain` says, line by line. A `worktree` line
/// begins the next one, and the first is the main checkout.
pub open spec fn worktrees_of(ls: Seq<Seq<char>>) -> Seq<WorktreeView>
    decreases ls.len(),
{
    if ls.len() == 0 {
        Seq::empty()
    } else {
        let so_far = worktrees_of(ls.drop_last());
        let line = ls.last();
        if starts(line, "worktree "@) {
            so_far.push(
                WorktreeView {
                    path: line.skip(9),
                    branch: Seq::empty(),
                    is_main: so_far.len() == 0,
                    is_locked: false,
                    is_detached: false,
                },
            )
        } else if so_far.len() == 0 {
            so_far
        } else {
            so_far.drop_last().push(told_more(so_far.last(), line))
        }
    }
}

fn tell_more(w: Worktree, line: &str) -> (r: Worktree)
    ensures
        r@ == told_more(w@, line@),
{
    let mut out = w;
    if starts_with(line, "branch refs/heads/") {
        proof {
            reveal_strlit("branch refs/heads/");
        }
        let n: usize = line.unicode_len();
        let name = line.substring_char(18, n);
        assert(name@ =~= line@.skip(18));
        out.branch = name.to_owned();
    } else if same(line, "detached") {
        out.is_detached = true;
    } else if same(line, "locked") || starts_with(line, "locked ") {
        out.is_locked = true;
    }
    out
}

/// Reads what `git worktree list --porcelain` prints.
pub fn parse_list(text: &str) -> (r: Vec<Worktree>)
    ensures
        worktree_views(r@) == worktrees_of(lines_of(text@)),
{
    let ls = lines(text);
    let ghost all = texts(ls@);
    let mut out: Vec<Worktree> = Vec::new();
    assert(worktree_views(out@) =~= worktrees_of(all.take(0)));
    for i in 0..ls.len()
        invariant
            all == texts(ls@),
            all == lines_of(text@),
            worktree_views(out@) == worktrees_of(all.take(i as int)),
    {
        let line = ls[i].as_str();
        let ghost before = out@;
        proof {
            assert(all[i as int] == line@);
            assert(all.take(i + 1).drop_last() =~= all.take(i as int));
            assert(all.take(i + 1).last() == line@);
            assert(worktree_views(before).len() == before.len());
        }
        if starts_with(line, "worktree ") {
            proof {
                reveal_strlit("worktree ");
            }
            let n: usize = line.unicode_len();
            let path = line.substring_char(9, n);
            assert(path@ =~= line@.skip(9));
            let w = Worktree {
                path: path.to_owned(),
                branch: String::new(),
                is_main: out.len() == 0,
                is_locked: false,
                is_detached: false,
            };
            out.push(w);
            assert(worktree_views(out@) =~= worktree_views(before).push(w@));
        } else if let Some(w) = out.pop() {
            let ghost front = out@;
            let next = tell_more(w, line);
            out.push(next);
            proof {
                assert(worktree_views(front) =~= worktree_views(before).drop_last());
                assert(worktree_views(before).last() == w@);
                assert(worktree_views(out@) =~= worktree_views(front).push(next@));
            }
        } else {
            assert(worktree_views(out@) =~= worktree_views(before));
        }
    }
    assert(all.take(all.len() as int) =~= all);
    out
}

/// The main checkout is reported first, and it is the only one marked so.
pub proof fn law_the_first_worktree_is_the_main_one(ls: Seq<Seq<char>>, i: int)
    requires
        0 <= i < worktrees_of(ls).len(),
    ensures
        worktrees_of(ls)[i].is_main <==> i == 0,
    decreases ls.len(),
{
    let so_far = worktrees_of(ls.drop_last());
    if i < so_far.len() {
        law_the_first_worktree_is_the_main_one(ls.drop_last(), i);
    }
}

/// What git prints of one worktree: where it is, the branch that is checked out
/// or that none is, and whether it is locked.
pub open spec fn record_of(w: WorktreeView) -> Seq<Seq<char>> {
    let head = seq!["worktree "@ + w.path];
    let branch = if w.is_detached {
        seq!["detached"@]
    } else {
        seq!["branch refs/heads/"@ + w.branch]
    };
    let lock = if w.is_locked {
        seq!["locked"@]
    } else {
        Seq::empty()
    };
    head + branch + lock + seq![""@]
}

/// What git prints of a list of worktrees.
pub open spec fn records_of(ws: Seq<WorktreeView>) -> Seq<Seq<char>>
    decreases ws.len(),
{
    if ws.len() == 0 {
        Seq::empty()
    } else {
        records_of(ws.drop_last()) + record_of(ws.last())
    }
}

/// Whether worktrees are as git has them: the first is the main one and no other
/// is, and one without a branch names none.
pub open spec fn as_git_has_them(ws: Seq<WorktreeView>) -> bool {
    forall|i: int|
        0 <= i < ws.len() ==> (#[trigger] ws[i]).is_main == (i == 0) && (ws[i].is_detached
            ==> ws[i].branch.len() == 0)
}

proof fn lemma_lines_told_apart(path: Seq<char>)
    ensures
        starts("worktree "@ + path, "worktree "@),
        ("worktree "@ + path).skip(9) == path,
        !starts("branch refs/heads/"@ + path, "worktree "@),
        starts("branch refs/heads/"@ + path, "branch refs/heads/"@),
        ("branch refs/heads/"@ + path).skip(18) == path,
        !starts("detached"@, "worktree "@),
        !starts("detached"@, "branch refs/heads/"@),
        !starts("locked"@, "worktree "@),
        !starts("locked"@, "branch refs/heads/"@),
        "locked"@ != "detached"@,
        !starts(""@, "worktree "@),
        !starts(""@, "branch refs/heads/"@),
        ""@ != "detached"@,
        ""@ != "locked"@,
        !starts(""@, "locked "@),
{
    reveal_strlit("worktree ");
    reveal_strlit("branch refs/heads/");
    reveal_strlit("detached");
    reveal_strlit("locked");
    reveal_strlit("locked ");
    reveal_strlit("");
    let a = "worktree "@ + path;
    let b = "branch refs/heads/"@ + path;
    assert(a.subrange(0, 9) =~= "worktree "@);
    assert(a.skip(9) =~= path);
    assert(b.subrange(0, 18) =~= "branch refs/heads/"@);
    assert(b.skip(18) =~= path);
    assert(b.subrange(0, 9)[0] == 'b');
    assert("worktree "@[0] == 'w');
}

proof fn lemma_one_more_record(before: Seq<Seq<char>>, w: WorktreeView)
    requires
        w.is_main == (worktrees_of(before).len() == 0),
        w.is_detached ==> w.branch.len() == 0,
    ensures
        worktrees_of(before + record_of(w)) == worktrees_of(before).push(w),
{
    lemma_lines_told_apart(w.path);
    lemma_lines_told_apart(w.branch);
    let so_far = worktrees_of(before);
    let one = before.push("worktree "@ + w.path);
    assert(one.drop_last() =~= before);
    let fresh = WorktreeView {
        path: w.path,
        branch: Seq::empty(),
        is_main: w.is_main,
        is_locked: false,
        is_detached: false,
    };
    assert(worktrees_of(one) == so_far.push(fresh));
    let line = if w.is_detached {
        "detached"@
    } else {
        "branch refs/heads/"@ + w.branch
    };
    let two = one.push(line);
    assert(two.drop_last() =~= one);
    let named = WorktreeView { branch: w.branch, is_detached: w.is_detached, ..fresh };
    assert(w.is_detached ==> w.branch =~= Seq::empty());
    assert(so_far.push(fresh).drop_last() =~= so_far);
    assert(told_more(fresh, line) == named);
    assert(worktrees_of(two) == so_far.push(named));
    let three = if w.is_locked {
        two.push("locked"@)
    } else {
        two
    };
    if w.is_locked {
        assert(three.drop_last() =~= two);
        assert(so_far.push(named).drop_last() =~= so_far);
    }
    assert(worktrees_of(three) == so_far.push(w));
    let four = three.push(""@);
    assert(four.drop_last() =~= three);
    assert(so_far.push(w).drop_last() =~= so_far);
    assert(told_more(w, ""@) == w);
    assert(four =~= before + record_of(w));
}

/// Reading what git prints gives back the worktrees it printed: each path and
/// branch as it is, which is the main one, which are locked, and which have no
/// branch.
pub proof fn law_what_git_prints_reads_back(ws: Seq<WorktreeView>)
    requires
        as_git_has_them(ws),
    ensures
        worktrees_of(records_of(ws)) == ws,
    decreases ws.len(),
{
    if ws.len() > 0 {
        let front = ws.drop_last();
        assert forall|i: int| 0 <= i < front.len() implies (#[trigger] front[i]).is_main == (i == 0)
            && (front[i].is_detached ==> front[i].branch.len() == 0) by {
            assert(front[i] == ws[i]);
        }
        law_what_git_prints_reads_back(front);
        assert(ws[ws.len() - 1] == ws.last());
        lemma_one_more_record(records_of(front), ws.last());
        assert(front.push(ws.last()) =~= ws);
    } else {
        assert(ws =~= Seq::empty());
    }
}

/// A lock is told with its reason or without, and each thing git says of a
/// worktree tells of that alone.
pub proof fn law_each_line_tells_one_thing(w: WorktreeView, name: Seq<char>, reason: Seq<char>)
    ensures
        told_more(w, "locked"@) == (WorktreeView { is_locked: true, ..w }),
        told_more(w, "locked "@ + reason) == (WorktreeView { is_locked: true, ..w }),
        told_more(w, "detached"@) == (WorktreeView { is_detached: true, ..w }),
        told_more(w, "branch refs/heads/"@ + name) == (WorktreeView { branch: name, ..w }),
        told_more(w, ""@) == w,
{
    reveal_strlit("locked");
    reveal_strlit("locked ");
    reveal_strlit("detached");
    reveal_strlit("branch refs/heads/");
    reveal_strlit("");
    let b = "branch refs/heads/"@ + name;
    assert(b.subrange(0, 18) =~= "branch refs/heads/"@);
    assert(b.skip(18) =~= name);
    let l = "locked "@ + reason;
    assert(l.subrange(0, 7) =~= "locked "@);
    assert(l[0] == 'l' && "branch refs/heads/"@[0] == 'b' && "detached"@[0] == 'd');
    if l.len() >= 18 {
        assert(l.subrange(0, 18)[0] == 'l');
    }
    assert("locked"@.len() == 6 && "detached"@.len() == 8);
}

} // verus!
