//! Surviving a background refresh: what stays expanded, and what is selected
//! when the selected task is gone.

use vstd::hash_set::StringHashSet;
use vstd::prelude::*;

use crate::app::{
    all_expanded, first_index, first_of, fits, has_branch, has_node, kept, lemma_first_index,
    parent_in, position, rebuilt, rebuilt_around, selects, App,
};
use crate::dex::{
    distinct_ids, index, indexed, label_of, law_the_index_holds_every_task, store_label, task_views,
    Task, TaskView,
};
use crate::order::{
    is_order, law_sort_keeps_elements_distinct, law_sort_sorts,
    lemma_sorted_contains, lemma_sorted_map, sorted_by, stable_sort,
};
use crate::text::{clone_opt, opt_text, same_opt, texts};
use crate::tree;
use crate::tree::{
    forest, id_set, knows, lemma_filtered_member, lemma_opt_order, no_later, opt_less_text, opt_lt,
    ref_views, rollups, root_tasks, rootless, Filter, IdSet, Lens,
};

verus! {

// ---------------------------------------------------------------------------
// What to select
// ---------------------------------------------------------------------------

/// The order of root tasks: by priority, then by creation.
pub open spec fn ranks_before(a: TaskView, b: TaskView) -> bool {
    a.priority < b.priority || a.priority == b.priority && opt_lt(a.created_at, b.created_at)
}

/// That order as a relation.
pub open spec fn by_rank() -> spec_fn(TaskView, TaskView) -> bool {
    |a: TaskView, b: TaskView| ranks_before(a, b)
}

/// The ids of tasks.
pub open spec fn ids_of(tasks: Seq<TaskView>) -> Seq<Seq<char>> {
    tasks.map_values(|t: TaskView| t.id)
}

/// The first root of a list.
pub open spec fn first_root_of(tasks: Seq<TaskView>) -> Option<Seq<char>> {
    first_of(ids_of(sorted_by(root_tasks(tasks), by_rank())))
}

/// A task filed under nothing that is held.
pub open spec fn adrift(held: Map<Seq<char>, TaskView>) -> spec_fn(TaskView) -> bool {
    |t: TaskView| !(t.parent_id is Some && held.contains_key(t.parent_id->0))
}

/// The siblings a task had, in the order they had: its parent's children, or
/// the other roots.
pub open spec fn siblings_of(
    tasks: Seq<TaskView>,
    held: Map<Seq<char>, TaskView>,
    id: Seq<char>,
) -> Option<Seq<Seq<char>>> {
    if !held.contains_key(id) {
        None
    } else {
        match held[id].parent_id {
            Some(p) => if held.contains_key(p) {
                Some(held[p].children)
            } else {
                None
            },
            None => Some(ids_of(sorted_by(tasks.filter(adrift(held)), by_rank()))),
        }
    }
}

/// The nearest survivor to a place, from `offset` away on: the next one first,
/// then the previous.
pub open spec fn survivor(
    siblings: Seq<Seq<char>>,
    at: int,
    offset: int,
    next: Seq<TaskView>,
) -> Option<Seq<char>>
    decreases siblings.len() + 1 - offset,
{
    if offset > siblings.len() {
        None
    } else if at + offset < siblings.len() && knows(next, siblings[at + offset]) {
        Some(siblings[at + offset])
    } else if offset <= at && knows(next, siblings[at - offset]) {
        Some(siblings[at - offset])
    } else {
        survivor(siblings, at, offset + 1, next)
    }
}

/// The sibling to fall back to.
pub open spec fn nearest_sibling_of(
    tasks: Seq<TaskView>,
    held: Map<Seq<char>, TaskView>,
    id: Seq<char>,
    next: Seq<TaskView>,
) -> Option<Seq<char>> {
    match siblings_of(tasks, held, id) {
        Some(s) => if first_index(s, id) < s.len() {
            survivor(s, first_index(s, id), 1, next)
        } else {
            None
        },
        None => None,
    }
}

/// The ancestor `n` steps up, if there is one.
pub open spec fn ancestor(held: Map<Seq<char>, TaskView>, id: Seq<char>, n: nat) -> Option<
    Seq<char>,
>
    decreases n,
{
    if n == 0 {
        Some(id)
    } else {
        match ancestor(held, id, (n - 1) as nat) {
            Some(x) => parent_in(held, x),
            None => None,
        }
    }
}

/// Whether the ancestor `n` steps up survives.
pub open spec fn survives(
    held: Map<Seq<char>, TaskView>,
    id: Seq<char>,
    n: nat,
    next: Seq<TaskView>,
) -> bool {
    ancestor(held, id, n) is Some && knows(next, ancestor(held, id, n)->0)
}

/// Whether `r` is the nearest surviving ancestor of a task: the first one up
/// that is still there, or nothing when none is.
pub open spec fn nearest_ancestor_is(
    held: Map<Seq<char>, TaskView>,
    id: Seq<char>,
    next: Seq<TaskView>,
    r: Option<Seq<char>>,
) -> bool {
    match r {
        Some(p) => exists|n: nat|
            n >= 1 && #[trigger] survives(held, id, n, next) && ancestor(held, id, n) == Some(p)
                && forall|m: nat| 1 <= m < n ==> !#[trigger] survives(held, id, m, next),
        None => forall|m: nat| 1 <= m ==> !#[trigger] survives(held, id, m, next),
    }
}

/// Whether `r` is what to select once a list has been replaced by another: what
/// was selected if it is still there, else a sibling, so the cursor stays
/// visually put, else an ancestor, so it stays in the same branch, else the
/// first root.
pub open spec fn resolved(pre: App, next: Seq<TaskView>, r: Option<Seq<char>>) -> bool {
    match pre.chosen() {
        None => r == first_root_of(next),
        Some(sel) => if knows(next, sel) {
            r == Some(sel)
        } else {
            match nearest_sibling_of(pre.task_list(), pre.held(), sel, next) {
                Some(s) => r == Some(s),
                None => exists|a: Option<Seq<char>>| #[trigger]
                    nearest_ancestor_is(pre.held(), sel, next, a) && r == if a is Some {
                        a
                    } else {
                        first_root_of(next)
                    },
            }
        },
    }
}

/// Whether a task has children now and had none a moment ago.
pub open spec fn sprouted(held: Map<Seq<char>, TaskView>, next: Seq<TaskView>, id: Seq<char>) -> bool {
    &&& !(held.contains_key(id) && held[id].children.len() > 0)
    &&& exists|i: int|
        0 <= i < next.len() && (#[trigger] next[i]).id == id && next[i].children.len() > 0
}

/// What is expanded after a refresh: what was and is still there, and what just
/// got its first children.
pub open spec fn stays_open(pre: App, next: Seq<TaskView>, id: Seq<char>) -> bool {
    pre.expanded@.contains(id) && knows(next, id) || sprouted(pre.held(), next, id)
}

/// What applying a freshly fetched list leaves.
#[verifier::opaque]
pub open spec fn refreshed(pre: App, next: Seq<TaskView>, post: App) -> bool {
    &&& post == (App {
        tasks: post.tasks,
        by_id: post.by_id,
        progress: post.progress,
        expanded: post.expanded,
        tree: post.tree,
        selected: post.selected,
        detail_scroll: if post.chosen() == pre.chosen() {
            pre.detail_scroll
        } else {
            (0, 0)
        },
        needs_tree_reveal: pre.needs_tree_reveal || post.chosen() != pre.chosen(),
        ..pre
    })
    &&& post.task_list() == next
    &&& post.held() == indexed(next)
    &&& rollups(next, post.progress@)
    &&& forall|id: Seq<char>| #[trigger] post.expanded@.contains(id) <==> stays_open(pre, next, id)
    &&& post.nodes() == forest(next, pre.lens())
    &&& exists|sel: Option<Seq<char>>| #[trigger]
        resolved(pre, next, sel) && post.chosen() == kept(sel, post.nodes(), post.expanded@)
}

fn rank_less(a: &Task, b: &Task) -> (r: bool)
    ensures
        r == ranks_before(a@, b@),
{
    if a.priority != b.priority {
        a.priority < b.priority
    } else {
        opt_less_text(&a.created_at, &b.created_at)
    }
}

fn ranked_ids(tasks: Vec<&Task>) -> (r: Vec<String>)
    ensures
        texts(r@) == ids_of(sorted_by(ref_views(tasks@), by_rank())),
{
    let ghost lt = |a: &Task, b: &Task| ranks_before(a@, b@);
    let ghost all = tasks@;
    let before = |a: &&Task, b: &&Task| -> (r: bool)
        ensures
            r == ranks_before(a@, b@),
        {
            rank_less(a, b)
        };
    let sorted = stable_sort(tasks, before, Ghost(lt));
    proof {
        lemma_sorted_map(all, lt, |t: &Task| t@, by_rank());
    }
    let ghost want = ids_of(ref_views(sorted@));
    let mut out: Vec<String> = Vec::new();
    assert(texts(out@) =~= want.take(0));
    for i in 0..sorted.len()
        invariant
            want == ids_of(ref_views(sorted@)),
            texts(out@) == want.take(i as int),
    {
        let ghost so_far = out@;
        out.push(sorted[i].id.clone());
        proof {
            assert(texts(out@) =~= texts(so_far).push(want[i as int]));
            assert(want.take(i + 1) =~= want.take(i as int).push(want[i as int]));
        }
    }
    assert(want.take(want.len() as int) =~= want);
    out
}

fn first_root(tasks: &Vec<Task>) -> (r: Option<String>)
    ensures
        opt_text(r) == first_root_of(task_views(tasks@)),
{
    let ids = ranked_ids(tree::roots_of(tasks));
    assert(texts(ids@).len() == ids@.len());
    if ids.len() > 0 {
        assert(texts(ids@)[0] == ids@[0]@);
        Some(ids[0].clone())
    } else {
        None
    }
}

proof fn lemma_cycle(held: Map<Seq<char>, TaskView>, id: Seq<char>, n: nat, j: nat, m: nat)
    requires
        j < n,
        ancestor(held, id, n) == ancestor(held, id, j),
        m >= 1,
    ensures
        exists|k: nat| 1 <= k <= n && #[trigger] ancestor(held, id, k) == ancestor(held, id, m),
    decreases m,
{
    if m > n {
        lemma_cycle(held, id, n, j, (m - 1) as nat);
        let k = choose|k: nat|
            1 <= k <= n && #[trigger] ancestor(held, id, k) == ancestor(held, id, (m - 1) as nat);
        if k < n {
            assert(ancestor(held, id, k + 1) == ancestor(held, id, m));
        } else {
            assert(ancestor(held, id, n + 1) == ancestor(held, id, j + 1));
            assert(ancestor(held, id, j + 1) == ancestor(held, id, m));
        }
    } else {
        assert(ancestor(held, id, m) == ancestor(held, id, m));
    }
}

proof fn lemma_chain_ends(held: Map<Seq<char>, TaskView>, id: Seq<char>, n: nat, m: nat)
    requires
        ancestor(held, id, n) is None,
        m >= n,
    ensures
        ancestor(held, id, m) is None,
    decreases m,
{
    if m > n {
        lemma_chain_ends(held, id, n, (m - 1) as nat);
    }
}

proof fn lemma_index_is_finite(tasks: Seq<TaskView>)
    ensures
        indexed(tasks).dom().finite(),
    decreases tasks.len(),
{
    if tasks.len() > 0 {
        lemma_index_is_finite(tasks.drop_last());
    }
}

impl App {
    fn resolve_selection(&self, next_ids: &IdSet, next: &Vec<Task>) -> (r: Option<String>)
        requires
            self.wf(),
            forall|id: Seq<char>| #[trigger]
                next_ids@.contains(id) <==> knows(task_views(next@), id),
        ensures
            resolved(*self, task_views(next@), opt_text(r)),
    {
        let ghost list = task_views(next@);
        let sel: String = match &self.selected {
            Some(s) => s.clone(),
            None => {
                return first_root(next);
            },
        };
        // The common case: what was selected is still there.
        if next_ids.contains(sel.as_str()) {
            return Some(sel);
        }
        // It vanished. Prefer a sibling, so the cursor stays visually put...

        if let Some(sib) = self.nearest_sibling(sel.as_str(), next_ids, Ghost(list)) {
            return Some(sib);
        }
        // ...then climb to a surviving ancestor, keeping the same branch.

        let anc = self.nearest_ancestor(sel.as_str(), next_ids, Ghost(list));
        let ghost seen = opt_text(anc);
        assert(nearest_ancestor_is(self.held(), sel@, list, seen));
        match anc {
            Some(a) => Some(a),
            None => first_root(next),
        }
    }

    fn old_siblings(&self, id: &str) -> (r: Option<Vec<String>>)
        ensures
            match (r, siblings_of(self.task_list(), self.held(), id@)) {
                (Some(v), Some(s)) => texts(v@) == s,
                (None, None) => true,
                _ => false,
            },
    {
        let ghost held = self.held();
        assert(forall|k: Seq<char>| held.contains_key(k) == self.by_id@.contains_key(k));
        let removed: &Task = match self.by_id.get(id) {
            Some(t) => t,
            None => {
                return None;
            },
        };
        match &removed.parent_id {
            Some(p) => match self.by_id.get(p.as_str()) {
                Some(t) => Some(crate::text::clone_texts(&t.children)),
                None => None,
            },
            // Reconstruct the sibling order as it was before the refresh.
            None => {
                let mut roots: Vec<&Task> = Vec::new();
                let ghost all = self.task_list();
                proof {
                    reveal(Seq::filter);
                    assert(ref_views(roots@) =~= Seq::empty());
                }
                for i in 0..self.tasks.len()
                    invariant
                        all == self.task_list(),
                        held == self.held(),
                        forall|k: Seq<char>|
                            held.contains_key(k) == #[trigger] self.by_id@.contains_key(k),
                        ref_views(roots@) == all.take(i as int).filter(adrift(held)),
                {
                    proof {
                        reveal(Seq::filter);
                        assert(all.take(i + 1).drop_last() =~= all.take(i as int));
                        assert(ref_views(roots@.push(&self.tasks@[i as int])) =~= ref_views(
                            roots@,
                        ).push(all[i as int]));
                    }
                    let filed = match &self.tasks[i].parent_id {
                        Some(p) => self.by_id.contains_key(p.as_str()),
                        None => false,
                    };
                    if !filed {
                        roots.push(&self.tasks[i]);
                    }
                }
                assert(all.take(all.len() as int) =~= all);
                Some(ranked_ids(roots))
            },
        }
    }

    fn nearest_sibling(&self, id: &str, next_ids: &IdSet, Ghost(next): Ghost<Seq<TaskView>>) -> (r:
        Option<String>)
        requires
            forall|k: Seq<char>| #[trigger] next_ids@.contains(k) <==> knows(next, k),
        ensures
            opt_text(r) == nearest_sibling_of(self.task_list(), self.held(), id@, next),
    {
        let siblings: Vec<String> = match self.old_siblings(id) {
            Some(s) => s,
            None => {
                return None;
            },
        };
        let ghost s = texts(siblings@);
        assert(s.len() == siblings@.len());
        let at: usize = position(&siblings, id);
        if at >= siblings.len() {
            return None;
        }
        // Scan outward from where it used to be: next sibling first, then previous.

        let mut offset: usize = 1;
        while offset <= siblings.len()
            invariant
                s == texts(siblings@),
                siblings_of(self.task_list(), self.held(), id@) == Some(s),
                at == first_index(s, id@),
                at < siblings.len(),
                1 <= offset <= siblings.len() + 1,
                forall|k: Seq<char>| #[trigger] next_ids@.contains(k) <==> knows(next, k),
                survivor(s, at as int, offset as int, next) == survivor(s, at as int, 1, next),
            decreases siblings.len() + 1 - offset,
        {
            if offset < siblings.len() - at {
                let after = &siblings[at + offset];
                assert(s[at + offset] == after@);
                if next_ids.contains(after.as_str()) {
                    return Some(after.clone());
                }
            }
            if offset <= at {
                let before = &siblings[at - offset];
                assert(s[at - offset] == before@);
                if next_ids.contains(before.as_str()) {
                    return Some(before.clone());
                }
            }
            if offset == siblings.len() {
                assert(survivor(s, at as int, offset + 1, next) is None);
                return None;
            }
            offset = offset + 1;
        }
        None
    }

    fn nearest_ancestor(&self, id: &str, next_ids: &IdSet, Ghost(next): Ghost<Seq<TaskView>>) -> (r:
        Option<String>)
        requires
            self.wf(),
            forall|k: Seq<char>| #[trigger] next_ids@.contains(k) <==> knows(next, k),
        ensures
            nearest_ancestor_is(self.held(), id@, next, opt_text(r)),
    {
        let ghost held = self.held();
        let mut seen: StringHashSet = StringHashSet::new();
        let mut current = id.to_owned();
        let ghost mut n: nat = 0;
        proof {
            reveal(fits);
            lemma_index_is_finite(self.task_list());
        }
        loop
            invariant
                held == self.held(),
                held.dom().finite(),
                forall|k: Seq<char>| #[trigger] next_ids@.contains(k) <==> knows(next, k),
                ancestor(held, id@, n) == Some(current@),
                forall|m: nat| 1 <= m <= n ==> !#[trigger] survives(held, id@, m, next),
                forall|x: Seq<char>| #[trigger]
                    seen@.contains(x) ==> exists|j: nat|
                        j < n && #[trigger] ancestor(held, id@, j) == Some(x),
            decreases held.dom().difference(seen@).len(),
        {
            if seen.contains(current.as_str()) {
                proof {
                    let j = choose|j: nat|
                        j < n && #[trigger] ancestor(held, id@, j) == Some(current@);
                    assert forall|m: nat| 1 <= m implies !#[trigger] survives(held, id@, m, next) by {
                        lemma_cycle(held, id@, n, j, m);
                        let k = choose|k: nat|
                            1 <= k <= n && #[trigger] ancestor(held, id@, k) == ancestor(
                                held,
                                id@,
                                m,
                            );
                        assert(!survives(held, id@, k, next));
                    }
                }
                return None;
            }
            let parent: Option<String> = match self.by_id.get(current.as_str()) {
                Some(t) => clone_opt(&t.parent_id),
                None => {
                    proof {
                        assert(!held.contains_key(current@));
                        assert(ancestor(held, id@, n + 1) is None);
                        assert forall|m: nat| 1 <= m implies !#[trigger] survives(
                            held,
                            id@,
                            m,
                            next,
                        ) by {
                            if m > n {
                                lemma_chain_ends(held, id@, n + 1, m);
                            }
                        }
                    }
                    return None;
                },
            };
            assert(held.contains_key(current@));
            assert(ancestor(held, id@, n + 1) == opt_text(parent));
            match parent {
                Some(p) => {
                    if next_ids.contains(p.as_str()) {
                        assert(survives(held, id@, n + 1, next));
                        return Some(p);
                    }
                    let ghost before = seen@;
                    seen.insert(current.clone());
                    proof {
                        let left = held.dom().difference(before);
                        assert(held.dom().difference(seen@) =~= left.remove(current@));
                        assert(left.contains(current@));
                        assert forall|x: Seq<char>| #[trigger] seen@.contains(x) implies exists|j: nat|
                            j < n + 1 && #[trigger] ancestor(held, id@, j) == Some(x) by {
                            if x == current@ {
                                assert(ancestor(held, id@, n) == Some(x));
                            } else {
                                let j = choose|j: nat|
                                    j < n && #[trigger] ancestor(held, id@, j) == Some(x);
                                assert(ancestor(held, id@, j) == Some(x));
                            }
                        }
                        assert forall|m: nat| 1 <= m <= n + 1 implies !#[trigger] survives(
                            held,
                            id@,
                            m,
                            next,
                        ) by {
                            if m == n + 1 {
                                assert(ancestor(held, id@, m) == Some(p@));
                            }
                        }
                        n = n + 1;
                    }
                    current = p;
                },
                None => {
                    proof {
                        assert forall|m: nat| 1 <= m implies !#[trigger] survives(
                            held,
                            id@,
                            m,
                            next,
                        ) by {
                            if m > n {
                                lemma_chain_ends(held, id@, n + 1, m);
                            }
                        }
                    }
                    return None;
                },
            }
        }
    }

    /// Applies a freshly fetched task list without disturbing the user.
    ///
    /// Expansion is kept only for tasks that still exist. Tasks added since the
    /// last refresh are absent, so new work arrives collapsed and an agent
    /// creating subtasks cannot explode the tree under the cursor.
    ///
    /// The exception is a task that has children *and did not a moment ago* --
    /// whether because it is brand new or because it just sprouted them. Both
    /// are the same event to a reader: a thing that was one row is now a branch,
    /// and the subtasks are the entire reason it changed. The rule is
    /// deliberately about gaining the *first* children, not about having any: a
    /// parent you collapsed by hand is a decision, and a fifth child arriving
    /// must not undo it.
    pub fn apply_tasks(&mut self, next: Vec<Task>)
        requires
            old(self).wf(),
        ensures
            refreshed(*old(self), task_views(next@), *final(self)),
            final(self).wf(),
    {
        proof {
            reveal(refreshed);
            reveal(rebuilt_around);
            reveal(selects);
        }
        let ghost pre = *self;
        let ghost list = task_views(next@);
        let next_ids = id_set(&next);
        let selected = self.resolve_selection(&next_ids, &next);
        let ghost sel = opt_text(selected);
        let mut open: IdSet = StringHashSet::new();
        for i in 0..next.len()
            invariant
                *self == pre,
                list == task_views(next@),
                forall|id: Seq<char>| #[trigger]
                    open@.contains(id) <==> stays_open(pre, list.take(i as int), id),
        {
            let t = &next[i];
            let had_children = match self.by_id.get(t.id.as_str()) {
                Some(prev) => prev.children.len() > 0,
                None => false,
            };
            let ghost before = open@;
            assert(list[i as int] == t@);
            assert(pre.held().contains_key(t@.id) == pre.by_id@.contains_key(t@.id));
            assert(t@.children.len() == t.children@.len());
            assert(had_children == (pre.held().contains_key(t@.id) && pre.held()[t@.id].children.len()
                > 0));
            if self.expanded.contains(t.id.as_str()) || (t.children.len() > 0 && !had_children) {
                open.insert(t.id.clone());
            }
            proof {
                assert forall|id: Seq<char>| #[trigger] open@.contains(id) <==> stays_open(
                    pre,
                    list.take(i + 1),
                    id,
                ) by {
                    lemma_open_step(pre, list, i as int, id);
                    assert(before.contains(id) <==> stays_open(pre, list.take(i as int), id));
                }
            }
        }
        assert(list.take(list.len() as int) =~= list);
        self.expanded = open;
        self.by_id = index(&next);
        self.progress = tree::subtree_progress(&next);
        self.tasks = next;
        proof {
            reveal(fits);
        }
        self.rebuild_around(selected);
        assert(resolved(pre, list, sel));
    }
}

proof fn lemma_open_step(pre: App, next: Seq<TaskView>, i: int, id: Seq<char>)
    requires
        0 <= i < next.len(),
    ensures
        stays_open(pre, next.take(i + 1), id) <==> stays_open(pre, next.take(i), id) || (next[i].id
            == id && (pre.expanded@.contains(id) || next[i].children.len() > 0 && !(
        pre.held().contains_key(id) && pre.held()[id].children.len() > 0))),
{
    tree::lemma_knows_step(next, i, id);
    let (a, b) = (next.take(i), next.take(i + 1));
    let held = pre.held();
    if sprouted(held, a, id) {
        let k = choose|k: int|
            0 <= k < a.len() && (#[trigger] a[k]).id == id && a[k].children.len() > 0;
        assert(b[k].id == id);
    }
    if sprouted(held, b, id) {
        let k = choose|k: int|
            0 <= k < b.len() && (#[trigger] b[k]).id == id && b[k].children.len() > 0;
        if k < i {
            assert(a[k].id == id);
        }
    }
    if next[i].id == id {
        assert(b[i].id == id);
    }
}

// ---------------------------------------------------------------------------
// Switching stores
// ---------------------------------------------------------------------------

/// The texts a memory holds.
pub open spec fn memory_of(m: Map<Seq<char>, String>) -> Map<Seq<char>, Seq<char>> {
    m.map_values(|s: String| s@)
}

/// The memory once a worktree has been left: the cursor in it is kept.
pub open spec fn remembered(pre: App) -> Map<Seq<char>, Seq<char>> {
    match (opt_text(pre.selected_worktree), pre.chosen()) {
        (Some(old), Some(sel)) => memory_of(pre.task_memory@).insert(old, sel),
        _ => memory_of(pre.task_memory@),
    }
}

/// What entering a worktree leaves: the cursor is where it was left there.
#[verifier::opaque]
pub open spec fn entered(pre: App, path: Seq<char>, post: App) -> bool {
    if opt_text(pre.selected_worktree) == Some(path) {
        post == pre
    } else {
        let memory = remembered(pre);
        &&& selects(
            App {
                selected_worktree: post.selected_worktree,
                task_memory: post.task_memory,
                ..pre
            },
            if memory.contains_key(path) {
                Some(memory[path])
            } else {
                None
            },
            post,
        )
        &&& opt_text(post.selected_worktree) == Some(path)
        &&& memory_of(post.task_memory@) == memory
    }
}

/// What loading another store leaves: everything of the old one is gone, and
/// everything of the new one is expanded.
#[verifier::opaque]
pub open spec fn loaded(pre: App, tasks: Seq<TaskView>, store_dir: Seq<char>, post: App) -> bool {
    &&& post == (App {
        tasks: post.tasks,
        by_id: post.by_id,
        progress: post.progress,
        expanded: post.expanded,
        tree: post.tree,
        selected: post.selected,
        store_label: post.store_label,
        store_dir: post.store_dir,
        tree_offset: 0,
        detail_scroll: (0, 0),
        needs_tree_reveal: pre.needs_tree_reveal || post.chosen() != pre.chosen(),
        ..pre
    })
    &&& post.task_list() == tasks
    &&& post.held() == indexed(tasks)
    &&& rollups(tasks, post.progress@)
    &&& post.store_dir@ == store_dir
    &&& post.store_label@ == label_of(store_dir)
    &&& forall|id: Seq<char>| #[trigger]
        post.expanded@.contains(id) <==> has_branch(
            forest(
                tasks,
                Lens { query: None, filter: Filter::All, sort: pre.sort, reversed: pre.sort_reversed },
            ),
            id,
        )
    &&& post.nodes() == forest(tasks, pre.lens())
    &&& post.chosen() == kept(pre.chosen(), post.nodes(), post.expanded@)
}

impl App {
    /// Switches which store the task panes read, remembering where the cursor
    /// was in the worktree being left.
    pub fn select_worktree(&mut self, path: &str)
        ensures
            entered(*old(self), path@, *final(self)),
            old(self).wf() ==> final(self).wf(),
    {
        proof {
            reveal(entered);
            reveal(selects);
        }
        if same_opt(&self.selected_worktree, path) {
            return;
        }
        self.remember();
        self.selected_worktree = Some(path.to_owned());
        // Through `select`, not a bare field write: the task now selected
        // belongs to a different store, so any scroll position left over from
        // the previous one has to go the same way it does whenever the
        // selection changes for any other reason.
        let kept: Option<String> = match self.task_memory.get(path) {
            Some(s) => Some(s.clone()),
            None => None,
        };
        assert(memory_of(self.task_memory@).contains_key(path@) == self.task_memory@.contains_key(
            path@,
        ));
        self.select(kept);
    }

    /// Keeps where the cursor is in the current worktree.
    fn remember(&mut self)
        ensures
            *final(self) == (App { task_memory: final(self).task_memory, ..*old(self) }),
            memory_of(final(self).task_memory@) == remembered(*old(self)),
    {
        if let (Some(path), Some(sel)) = (&self.selected_worktree, &self.selected) {
            let ghost before = self.task_memory@;
            let (k, v) = (path.clone(), sel.clone());
            self.task_memory.insert(k, v);
            assert(memory_of(self.task_memory@) =~= memory_of(before).insert(k@, v@));
        }
    }

    /// Loads a different store into a running app.
    ///
    /// Deliberately **not** `apply_tasks`: that method's whole job is
    /// preserving a selection and an expansion set the *same* store made.
    /// Across a store switch those ids belong to an entirely different store,
    /// so comparing them is meaningless. Everything here is new, so it is
    /// expanded.
    ///
    /// Takes the store *directory* and derives the label from it, rather than
    /// taking the label: the one thing that must never happen is those two
    /// describing different stores. One argument, set in one place, cannot.
    ///
    /// The selection is not reset: a store switch restores a remembered task id
    /// just before, and a rebuild keeps it exactly when it exists in the new
    /// store and is visible.
    pub fn load_store(&mut self, tasks: Vec<Task>, store_dir: String)
        ensures
            loaded(*old(self), task_views(tasks@), store_dir@, *final(self)),
            old(self).wf() ==> final(self).wf(),
    {
        proof {
            reveal(loaded);
            reveal(rebuilt_around);
            reveal(selects);
            reveal(all_expanded);
        }
        self.by_id = index(&tasks);
        self.progress = tree::subtree_progress(&tasks);
        self.tasks = tasks;
        self.store_label = store_label(store_dir.as_str());
        self.store_dir = store_dir;
        proof {
            reveal(fits);
        }
        self.expand_all();
        self.rebuild();
        self.tree_offset = 0;
        self.detail_scroll = (0, 0);
    }
}

// ---------------------------------------------------------------------------
// What a refresh promises
// ---------------------------------------------------------------------------

/// A selected task that is still there and still in view stays selected,
/// whatever else a refresh brings.
pub proof fn law_a_refresh_keeps_the_selection(
    pre: App,
    next: Seq<TaskView>,
    post: App,
    sel: Seq<char>,
)
    requires
        refreshed(pre, next, post),
        pre.chosen() == Some(sel),
        knows(next, sel),
        has_node(forest(next, pre.lens()), sel),
    ensures
        post.chosen() == Some(sel),
{
    reveal(refreshed);
}

/// What was expanded and is still there stays expanded. A parent collapsed by
/// hand stays collapsed, however many children arrive. A new task without
/// children arrives collapsed.
pub proof fn law_a_refresh_keeps_the_expansion(
    pre: App,
    next: Seq<TaskView>,
    post: App,
    id: Seq<char>,
)
    requires
        refreshed(pre, next, post),
    ensures
        pre.expanded@.contains(id) && knows(next, id) ==> post.expanded@.contains(id),
        !pre.expanded@.contains(id) && pre.held().contains_key(id)
            && pre.held()[id].children.len() > 0 ==> !post.expanded@.contains(id),
        !pre.expanded@.contains(id) && (forall|i: int|
            0 <= i < next.len() && (#[trigger] next[i]).id == id ==> next[i].children.len() == 0)
            ==> !post.expanded@.contains(id),
        post.expanded@.contains(id) ==> knows(next, id),
{
    reveal(refreshed);
    assert(post.expanded@.contains(id) <==> stays_open(pre, next, id));
    if sprouted(pre.held(), next, id) {
        let k = choose|k: int|
            0 <= k < next.len() && (#[trigger] next[k]).id == id && next[k].children.len() > 0;
        assert(next[k].id == id);
    }
}

/// A refresh touches nothing but the tasks, what is derived from them, the
/// expansion and the selection: no dialog, search, pane or scroll position
/// changes under the user. Where the selected task is gone and another takes
/// over, that one is read from its top.
pub proof fn law_a_refresh_disturbs_nothing_else(pre: App, next: Seq<TaskView>, post: App)
    requires
        refreshed(pre, next, post),
    ensures
        post.mode == pre.mode && post.query == pre.query && post.status == pre.status,
        post.focus == pre.focus && post.zoom == pre.zoom,
        post.tree_offset == pre.tree_offset,
        post.chosen() == pre.chosen() ==> post.detail_scroll == pre.detail_scroll
            && post.needs_tree_reveal == pre.needs_tree_reveal,
        post.chosen() != pre.chosen() ==> post.detail_scroll == (0u16, 0u16)
            && post.needs_tree_reveal,
        post.filter == pre.filter && post.sort == pre.sort,
        post.sort_reversed == pre.sort_reversed,
        post.store_dir == pre.store_dir && post.store_label == pre.store_label,
        post.selected_worktree == pre.selected_worktree && post.repos == pre.repos,
        post.selected_repo_row == pre.selected_repo_row,
{
    reveal(refreshed);
}

/// The node of a forest's first row is in the forest.
proof fn lemma_front_is_in_flat(nodes: Seq<tree::NodeView>)
    requires
        nodes.len() > 0,
    ensures
        tree::flat(nodes).len() > 0,
        tree::flat(nodes)[0] == nodes[0],
    decreases nodes.len(),
{
    if nodes.len() > 1 {
        lemma_front_is_in_flat(nodes.drop_last());
    } else {
        assert(tree::flat(nodes.drop_last()) =~= Seq::empty());
    }
}

/// A rebuild never moves a selection that is still in view; it makes one
/// whenever there is anything to select, and what is selected is always in the
/// forest.
pub proof fn law_a_rebuild_only_establishes_a_selection(pre: App, post: App)
    requires
        rebuilt(pre, post),
    ensures
        pre.chosen() matches Some(sel) ==> (has_node(post.nodes(), sel) ==> post.chosen() == Some(
            sel,
        )),
        post.nodes().len() > 0 <==> post.chosen() is Some,
        post.chosen() matches Some(x) ==> has_node(post.nodes(), x),
{
    reveal(rebuilt_around);
    reveal(selects);
    reveal(tree::rows_of);
    if post.nodes().len() > 0 {
        lemma_front_is_in_flat(post.nodes());
        assert(post.rows()[0].node == post.nodes()[0]);
        assert(tree::flat(post.nodes())[0].task.id == post.shown()[0]);
    } else {
        assert(post.rows().len() == 0);
        assert(tree::flat(post.nodes()).len() == 0);
    }
}

proof fn lemma_survivor(siblings: Seq<Seq<char>>, at: int, offset: int, next: Seq<TaskView>)
    requires
        0 <= at < siblings.len(),
        1 <= offset,
    ensures
        survivor(siblings, at, offset, next) is Some ==> exists|d: int| #[trigger]
            takes_over(siblings, at, offset, d, survivor(siblings, at, offset, next)->0, next),
        survivor(siblings, at, offset, next) is None ==> forall|e: int|
            offset <= e ==> !#[trigger] lives_off(siblings, at, e, next),
    decreases siblings.len() + 1 - offset,
{
    if offset <= siblings.len() {
        if at + offset < siblings.len() && knows(next, siblings[at + offset]) {
            let x = survivor(siblings, at, offset, next)->0;
            assert(takes_over(siblings, at, offset, offset, x, next));
        } else if offset <= at && knows(next, siblings[at - offset]) {
            let x = survivor(siblings, at, offset, next)->0;
            assert(takes_over(siblings, at, offset, offset, x, next));
        } else {
            assert(survivor(siblings, at, offset, next) == survivor(siblings, at, offset + 1, next));
            lemma_survivor(siblings, at, offset + 1, next);
            assert(!lives_off(siblings, at, offset, next));
            if survivor(siblings, at, offset, next) is Some {
                let x = survivor(siblings, at, offset, next)->0;
                let d = choose|d: int| #[trigger]
                    takes_over(siblings, at, offset + 1, d, x, next);
                assert(takes_over(siblings, at, offset, d, x, next));
            }
        }
    }
}

/// Whether `x` is the sibling `d` places after or before a place.
pub open spec fn stands_off(siblings: Seq<Seq<char>>, at: int, d: int, x: Seq<char>) -> bool {
    at + d < siblings.len() && siblings[at + d] == x || d <= at && siblings[at - d] == x
}

/// Whether `x` survives `d` places away, and nothing does from `from` to there.
pub open spec fn takes_over(
    siblings: Seq<Seq<char>>,
    at: int,
    from: int,
    d: int,
    x: Seq<char>,
    next: Seq<TaskView>,
) -> bool {
    &&& from <= d <= siblings.len()
    &&& stands_off(siblings, at, d, x)
    &&& knows(next, x)
    &&& forall|e: int| from <= e < d ==> !#[trigger] lives_off(siblings, at, e, next)
}

/// Whether a sibling `d` places away survives.
pub open spec fn lives_off(siblings: Seq<Seq<char>>, at: int, d: int, next: Seq<TaskView>) -> bool {
    at + d < siblings.len() && knows(next, siblings[at + d]) || d <= at && knows(
        next,
        siblings[at - d],
    )
}

/// A deleted task hands its selection to the nearest sibling that is still
/// there: one that survives, with none surviving nearer by; and to none only
/// when none survives.
pub proof fn law_the_nearest_sibling_takes_over(
    siblings: Seq<Seq<char>>,
    at: int,
    next: Seq<TaskView>,
)
    requires
        0 <= at < siblings.len(),
    ensures
        survivor(siblings, at, 1, next) matches Some(x) ==> exists|d: int| #[trigger]
            takes_over(siblings, at, 1, d, x, next),
        survivor(siblings, at, 1, next) is None ==> forall|e: int|
            1 <= e ==> !#[trigger] lives_off(siblings, at, e, next),
{
    lemma_survivor(siblings, at, 1, next);
}

/// Whatever the store, coming back to a worktree returns the cursor to where it
/// was left, however long one has been away.
pub proof fn law_worktrees_remember_their_cursor(
    leaving: App,
    away: App,
    later: App,
    back: App,
    a: Seq<char>,
    b: Seq<char>,
    sel: Seq<char>,
)
    requires
        a != b,
        opt_text(leaving.selected_worktree) == Some(a),
        leaving.chosen() == Some(sel),
        entered(leaving, b, away),
        later.task_memory == away.task_memory,
        later.selected_worktree == away.selected_worktree,
        entered(later, a, back),
    ensures
        back.chosen() == Some(sel),
{
    reveal(entered);
    reveal(selects);
}

/// Loading a store keeps what was just restored, when it is in view there, and
/// labels the store by the directory it came from.
pub proof fn law_a_loaded_store_keeps_a_restored_cursor(
    pre: App,
    tasks: Seq<TaskView>,
    store_dir: Seq<char>,
    post: App,
)
    requires
        loaded(pre, tasks, store_dir, post),
    ensures
        pre.chosen() matches Some(sel) ==> (has_node(forest(tasks, pre.lens()), sel)
            ==> post.chosen() == Some(sel)),
        post.store_label@ == label_of(post.store_dir@),
        post.here_store == pre.here_store && post.here_path == pre.here_path,
{
    reveal(loaded);
}

// ---------------------------------------------------------------------------
// Who takes over from a task that is gone
// ---------------------------------------------------------------------------

/// Whether one root stands above another: its priority number is lower, or, of
/// equal priority, it was created earlier.
pub open spec fn stands_above(a: TaskView, b: TaskView) -> bool {
    ||| a.priority < b.priority
    ||| a.priority == b.priority && a.created_at != b.created_at && no_later(
        a.created_at,
        b.created_at,
    )
}

/// Whether a task of a list is filed under nothing that is in the list.
pub open spec fn is_root_in(tasks: Seq<TaskView>, t: TaskView) -> bool {
    &&& tasks.contains(t)
    &&& t.parent_id matches Some(p) ==> forall|k: int|
        0 <= k < tasks.len() ==> (#[trigger] tasks[k]).id != p
}

/// Whether no task of a list has this id.
pub open spec fn gone_from(tasks: Seq<TaskView>, id: Seq<char>) -> bool {
    forall|k: int| 0 <= k < tasks.len() ==> (#[trigger] tasks[k]).id != id
}

proof fn lemma_ranks(a: TaskView, b: TaskView)
    ensures
        ranks_before(a, b) <==> stands_above(a, b),
{
    lemma_opt_order(a.created_at, b.created_at, a.created_at);
    lemma_opt_order(b.created_at, a.created_at, b.created_at);
}

proof fn lemma_rank_is_an_order()
    ensures
        is_order(by_rank()),
{
    assert forall|a: TaskView| !#[trigger] by_rank()(a, a) by {
        lemma_opt_order(a.created_at, a.created_at, a.created_at);
    }
    assert forall|a: TaskView, b: TaskView, c: TaskView|
        #![trigger by_rank()(a, b), by_rank()(b, c)]
        by_rank()(a, b) && by_rank()(b, c) implies by_rank()(a, c) by {
        lemma_opt_order(a.created_at, b.created_at, c.created_at);
    }
    assert forall|a: TaskView, b: TaskView, c: TaskView|
        #![trigger by_rank()(a, b), by_rank()(b, c)]
        !by_rank()(a, b) && !by_rank()(b, c) implies !by_rank()(a, c) by {
        lemma_opt_order(a.created_at, b.created_at, c.created_at);
        lemma_opt_order(c.created_at, b.created_at, a.created_at);
        lemma_opt_order(b.created_at, a.created_at, c.created_at);
        lemma_opt_order(a.created_at, c.created_at, b.created_at);
    }
}

proof fn lemma_distinct_tasks(tasks: Seq<TaskView>, f: spec_fn(TaskView) -> bool)
    requires
        distinct_ids(tasks),
    ensures
        tasks.no_duplicates(),
        tasks.filter(f).no_duplicates(),
        distinct_ids(tasks.filter(f)),
    decreases tasks.len(),
{
    reveal(Seq::filter);
    assert forall|i: int, j: int| 0 <= i < tasks.len() && 0 <= j < tasks.len() && i
        != j implies tasks[i] != tasks[j] by {
        if i < j {
            assert(tasks[i].id != tasks[j].id);
        } else {
            assert(tasks[j].id != tasks[i].id);
        }
    }
    if tasks.len() > 0 {
        let front = tasks.drop_last();
        assert forall|i: int, j: int|
            #![trigger front[i], front[j]]
            0 <= i < j < front.len() implies front[i].id != front[j].id by {
            assert(tasks[i].id != tasks[j].id);
        }
        lemma_distinct_tasks(front, f);
        let ff = front.filter(f);
        let all = tasks.filter(f);
        assert forall|i: int, j: int|
            #![trigger all[i], all[j]]
            0 <= i < j < all.len() implies all[i].id != all[j].id by {
            if j < ff.len() {
                assert(ff[i].id != ff[j].id);
            } else {
                lemma_filtered_member(front, f, ff[i]);
                assert(ff.contains(ff[i]));
                let k = choose|k: int| 0 <= k < front.len() && front[k] == ff[i];
                assert(tasks[k].id != tasks[tasks.len() - 1].id);
            }
        }
    }
    let all = tasks.filter(f);
    assert forall|i: int, j: int| 0 <= i < all.len() && 0 <= j < all.len() && i != j implies all[i]
        != all[j] by {
        if i < j {
            assert(all[i].id != all[j].id);
        } else {
            assert(all[j].id != all[i].id);
        }
    }
}

/// The roots of a list in the order the fallback walks them: where each stands,
/// and that those that stand above come first.
proof fn lemma_ranked_roots(tasks: Seq<TaskView>, f: spec_fn(TaskView) -> bool, t: TaskView)
    requires
        distinct_ids(tasks),
    ensures
        ({
            let s = sorted_by(tasks.filter(f), by_rank());
            &&& s.contains(t) <==> tasks.contains(t) && f(t)
            &&& forall|i: int, j: int|
                #![trigger s[i], s[j]]
                0 <= i < j < s.len() ==> !stands_above(s[j], s[i]) && s[i].id != s[j].id
            &&& forall|i: int| 0 <= i < s.len() ==> first_index(ids_of(s), (#[trigger] s[i]).id) == i
        }),
{
    let r = tasks.filter(f);
    let s = sorted_by(r, by_rank());
    lemma_distinct_tasks(tasks, f);
    lemma_rank_is_an_order();
    law_sort_sorts(r, by_rank());
    law_sort_keeps_elements_distinct(r, by_rank());
    lemma_sorted_contains(r, by_rank(), t);
    lemma_filtered_member(tasks, f, t);
    assert forall|i: int, j: int| #![trigger s[i], s[j]] 0 <= i < j < s.len() implies !stands_above(
        s[j],
        s[i],
    ) && s[i].id != s[j].id by {
        assert(!by_rank()(s[j], s[i]));
        lemma_ranks(s[j], s[i]);
        lemma_sorted_contains(r, by_rank(), s[i]);
        lemma_sorted_contains(r, by_rank(), s[j]);
        assert(s.contains(s[i]) && s.contains(s[j]));
        let x = choose|x: int| 0 <= x < r.len() && r[x] == s[i];
        let y = choose|y: int| 0 <= y < r.len() && r[y] == s[j];
        assert(s[i] != s[j]);
        if x < y {
            assert(r[x].id != r[y].id);
        } else {
            assert(r[y].id != r[x].id);
        }
    }
    assert forall|i: int| 0 <= i < s.len() implies first_index(ids_of(s), (#[trigger] s[i]).id)
        == i by {
        let ids = ids_of(s);
        assert forall|j: int| 0 <= j < i implies ids[j] != s[i].id by {
            assert(s[j].id != s[i].id);
        }
        lemma_first_index(ids, s[i].id, i);
    }
}

/// When the selected root is gone after a refresh, the root that stood right
/// below it takes over: the one of the next higher priority number, or of equal
/// priority the one created next. Where that one is gone too, or there is none,
/// the root that stood right above it does.
pub proof fn law_a_lost_root_hands_over_to_its_neighbour(
    pre: App,
    next: Seq<TaskView>,
    post: App,
    lost: TaskView,
    heir: TaskView,
    below: bool,
)
    requires
        pre.wf(),
        refreshed(pre, next, post),
        distinct_ids(pre.task_list()),
        pre.chosen() == Some(lost.id),
        is_root_in(pre.task_list(), lost),
        lost.parent_id is None,
        gone_from(next, lost.id),
        is_root_in(pre.task_list(), heir),
        !gone_from(next, heir.id),
        // The heir stands right below the lost root, or right above it with no
        // survivor right below.
        below ==> stands_above(lost, heir),
        !below ==> stands_above(heir, lost),
        forall|r: TaskView| #[trigger]
            is_root_in(pre.task_list(), r) && r != lost && r != heir ==> if below {
                stands_above(r, lost) || stands_above(heir, r)
            } else {
                stands_above(r, heir) || stands_above(lost, r)
            },
        !below ==> forall|r: TaskView| #[trigger]
            is_root_in(pre.task_list(), r) && stands_above(lost, r) ==> gone_from(next, r.id),
        has_node(forest(next, pre.lens()), heir.id),
    ensures
        post.chosen() == Some(heir.id),
{
    reveal(refreshed);
    reveal(fits);
    let tasks = pre.task_list();
    let held = pre.held();
    law_the_index_holds_every_task(tasks, lost.id);
    let at = choose|i: int| 0 <= i < tasks.len() && tasks[i] == lost;
    assert(tasks[at].id == lost.id);
    assert(held.contains_key(lost.id) && held[lost.id] == lost);
    assert forall|t: TaskView| #[trigger] is_root_in(tasks, t) <==> tasks.contains(t) && adrift(held)(
        t,
    ) by {
        if t.parent_id is Some {
            law_the_index_holds_every_task(tasks, t.parent_id->0);
        }
    }
    let s = sorted_by(tasks.filter(adrift(held)), by_rank());
    lemma_ranked_roots(tasks, adrift(held), lost);
    lemma_ranked_roots(tasks, adrift(held), heir);
    let p = choose|i: int| 0 <= i < s.len() && s[i] == lost;
    let q = choose|i: int| 0 <= i < s.len() && s[i] == heir;
    let ids = ids_of(s);
    assert(first_index(ids, s[p].id) == p);
    assert forall|k: int| 0 <= k < s.len() implies is_root_in(tasks, #[trigger] s[k]) by {
        lemma_ranked_roots(tasks, adrift(held), s[k]);
        assert(s.contains(s[k]));
    }
    lemma_ranks(lost, heir);
    lemma_ranks(heir, lost);
    if below {
        assert(p < q) by {
            if q < p {
                assert(!stands_above(s[p], s[q]));
            }
        }
        if q > p + 1 {
            let r = s[p + 1];
            assert(is_root_in(tasks, r));
            assert(s[p].id != s[p + 1].id && s[p + 1].id != s[q].id);
            assert(!stands_above(s[p + 1], s[p]) && !stands_above(s[q], s[p + 1]));
        }
        assert(ids[p + 1] == heir.id);
    } else {
        assert(q < p) by {
            if p < q {
                assert(!stands_above(s[q], s[p]));
            }
        }
        if p > q + 1 {
            let r = s[q + 1];
            assert(is_root_in(tasks, r));
            assert(s[q].id != s[q + 1].id && s[q + 1].id != s[p].id);
            assert(!stands_above(s[q + 1], s[q]) && !stands_above(s[p], s[q + 1]));
        }
        assert(ids[p - 1] == heir.id);
        if p + 1 < s.len() {
            let r = s[p + 1];
            assert(is_root_in(tasks, r));
            assert(s[p].id != s[p + 1].id && s[q].id != s[p + 1].id);
            assert(!stands_above(s[p + 1], s[q]));
            assert(stands_above(lost, r));
            assert(gone_from(next, r.id));
            assert(ids[p + 1] == r.id);
            assert(!knows(next, ids[p + 1]));
        }
    }
    let k = choose|k: int| 0 <= k < next.len() && (#[trigger] next[k]).id == heir.id;
    assert(knows(next, heir.id));
    assert(!knows(next, lost.id));
    assert(survivor(ids, p, 1, next) == Some(heir.id));
}

/// When the selected subtask is gone after a refresh, the next of its parent's
/// children takes over if it is still there, and else the one before it.
pub proof fn law_a_lost_subtask_hands_over_to_its_neighbour(
    pre: App,
    next: Seq<TaskView>,
    post: App,
    lost: TaskView,
    parent: TaskView,
    at: int,
    heir: Seq<char>,
)
    requires
        pre.wf(),
        refreshed(pre, next, post),
        distinct_ids(pre.task_list()),
        pre.chosen() == Some(lost.id),
        pre.task_list().contains(lost),
        pre.task_list().contains(parent),
        lost.parent_id == Some(parent.id),
        gone_from(next, lost.id),
        0 <= at < parent.children.len(),
        parent.children[at] == lost.id,
        forall|j: int| 0 <= j < at ==> parent.children[j] != lost.id,
        ({
            ||| at + 1 < parent.children.len() && heir == parent.children[at + 1]
            ||| at > 0 && heir == parent.children[at - 1] && (at + 1 < parent.children.len()
                ==> gone_from(next, parent.children[at + 1]))
        }),
        !gone_from(next, heir),
        has_node(forest(next, pre.lens()), heir),
    ensures
        post.chosen() == Some(heir),
{
    reveal(refreshed);
    reveal(fits);
    let tasks = pre.task_list();
    lemma_held(tasks, lost);
    lemma_held(tasks, parent);
    lemma_first_index(parent.children, lost.id, at);
    let k = choose|k: int| 0 <= k < next.len() && (#[trigger] next[k]).id == heir;
    assert(knows(next, heir));
    assert(!knows(next, lost.id));
    if at + 1 < parent.children.len() && gone_from(next, parent.children[at + 1]) {
        assert(!knows(next, parent.children[at + 1]));
    }
    assert(survivor(parent.children, at, 1, next) == Some(heir));
}

proof fn lemma_held(tasks: Seq<TaskView>, t: TaskView)
    requires
        distinct_ids(tasks),
        tasks.contains(t),
    ensures
        indexed(tasks).contains_key(t.id),
        indexed(tasks)[t.id] == t,
{
    law_the_index_holds_every_task(tasks, t.id);
    let i = choose|i: int| 0 <= i < tasks.len() && tasks[i] == t;
    assert(tasks[i].id == t.id);
}

proof fn lemma_no_survivor(siblings: Seq<Seq<char>>, at: int, offset: int, next: Seq<TaskView>)
    requires
        0 <= at < siblings.len(),
        1 <= offset,
        forall|j: int| 0 <= j < siblings.len() ==> gone_from(next, #[trigger] siblings[j]),
    ensures
        survivor(siblings, at, offset, next) is None,
    decreases siblings.len() + 1 - offset,
{
    if offset <= siblings.len() {
        if at + offset < siblings.len() {
            assert(gone_from(next, siblings[at + offset]));
        }
        if offset <= at {
            assert(gone_from(next, siblings[at - offset]));
        }
        lemma_no_survivor(siblings, at, offset + 1, next);
    }
}

/// When a subtask is gone with all its siblings, its parent takes over; and where
/// that is gone as well, the parent's parent.
pub proof fn law_a_lost_branch_falls_back_to_what_it_hung_under(
    pre: App,
    next: Seq<TaskView>,
    post: App,
    lost: TaskView,
    parent: TaskView,
    heir: TaskView,
)
    requires
        pre.wf(),
        refreshed(pre, next, post),
        distinct_ids(pre.task_list()),
        pre.chosen() == Some(lost.id),
        pre.task_list().contains(lost),
        pre.task_list().contains(parent),
        pre.task_list().contains(heir),
        lost.parent_id == Some(parent.id),
        gone_from(next, lost.id),
        forall|j: int|
            0 <= j < parent.children.len() ==> gone_from(next, #[trigger] parent.children[j]),
        heir == parent || gone_from(next, parent.id) && parent.parent_id == Some(heir.id),
        !gone_from(next, heir.id),
        has_node(forest(next, pre.lens()), heir.id),
    ensures
        post.chosen() == Some(heir.id),
{
    reveal(refreshed);
    reveal(fits);
    reveal_with_fuel(ancestor, 4);
    let tasks = pre.task_list();
    let held = pre.held();
    lemma_held(tasks, lost);
    lemma_held(tasks, parent);
    lemma_held(tasks, heir);
    let c = parent.children;
    if first_index(c, lost.id) < c.len() {
        lemma_first_index_holds(c, lost.id);
        lemma_no_survivor(c, first_index(c, lost.id), 1, next);
    }
    assert(nearest_sibling_of(tasks, held, lost.id, next) is None);
    assert(!knows(next, lost.id));
    let k = choose|k: int| 0 <= k < next.len() && (#[trigger] next[k]).id == heir.id;
    assert(knows(next, heir.id));
    assert(ancestor(held, lost.id, 0) == Some(lost.id));
    assert(ancestor(held, lost.id, 1) == Some(parent.id));
    assert forall|a: Option<Seq<char>>| #[trigger]
        nearest_ancestor_is(held, lost.id, next, a) implies a == Some(heir.id) by {
        if heir == parent {
            assert(survives(held, lost.id, 1, next));
            if a is Some {
                let n = choose|n: nat|
                    n >= 1 && #[trigger] survives(held, lost.id, n, next) && ancestor(
                        held,
                        lost.id,
                        n,
                    ) == a && forall|m: nat| 1 <= m < n ==> !#[trigger] survives(
                        held,
                        lost.id,
                        m,
                        next,
                    );
                if n > 1 {
                    assert(!survives(held, lost.id, 1, next));
                }
            }
        } else {
            assert(!knows(next, parent.id));
            assert(ancestor(held, lost.id, 2) == Some(heir.id));
            assert(!survives(held, lost.id, 1, next));
            assert(survives(held, lost.id, 2, next));
            if a is Some {
                let n = choose|n: nat|
                    n >= 1 && #[trigger] survives(held, lost.id, n, next) && ancestor(
                        held,
                        lost.id,
                        n,
                    ) == a && forall|m: nat| 1 <= m < n ==> !#[trigger] survives(
                        held,
                        lost.id,
                        m,
                        next,
                    );
                if n > 2 {
                    assert(!survives(held, lost.id, 2, next));
                }
            }
        }
    }
}

proof fn lemma_first_index_holds(ids: Seq<Seq<char>>, id: Seq<char>)
    ensures
        0 <= first_index(ids, id) <= ids.len(),
    decreases ids.len(),
{
    if ids.len() > 0 && ids[0] != id {
        lemma_first_index_holds(ids.drop_first(), id);
    }
}

/// With nothing selected before, a refresh selects the topmost root that it
/// brings: the one of the lowest priority number, and of those the one created
/// first.
pub proof fn law_the_topmost_root_is_selected_first(
    pre: App,
    next: Seq<TaskView>,
    post: App,
    top: TaskView,
)
    requires
        refreshed(pre, next, post),
        distinct_ids(next),
        pre.chosen() is None,
        is_root_in(next, top),
        forall|r: TaskView| #[trigger] is_root_in(next, r) && r != top ==> stands_above(top, r),
        has_node(forest(next, pre.lens()), top.id),
    ensures
        post.chosen() == Some(top.id),
{
    reveal(refreshed);
    assert forall|t: TaskView| #[trigger] is_root_in(next, t) <==> next.contains(t) && rootless(next)(
        t,
    ) by {}
    let s = sorted_by(next.filter(rootless(next)), by_rank());
    lemma_ranked_roots(next, rootless(next), top);
    let p = choose|i: int| 0 <= i < s.len() && s[i] == top;
    if p > 0 {
        lemma_ranked_roots(next, rootless(next), s[0]);
        assert(s.contains(s[0]));
        assert(is_root_in(next, s[0]));
        assert(s[0].id != s[p].id);
        assert(!stands_above(s[p], s[0]));
    }
    assert(ids_of(s)[0] == top.id);
}

/// A task that had nothing below it, or was not there, and now has something
/// arrives open: the new subtasks are the reason it changed.
pub proof fn law_first_subtasks_arrive_in_sight(
    pre: App,
    next: Seq<TaskView>,
    post: App,
    t: TaskView,
)
    requires
        refreshed(pre, next, post),
        next.contains(t),
        t.children.len() > 0,
        pre.held().contains_key(t.id) ==> pre.held()[t.id].children.len() == 0,
    ensures
        post.expanded@.contains(t.id),
        post.task_list() == next,
        post.nodes() == forest(next, pre.lens()),
{
    reveal(refreshed);
    let i = choose|i: int| 0 <= i < next.len() && next[i] == t;
    assert(next[i].id == t.id && next[i].children.len() > 0);
    assert(sprouted(pre.held(), next, t.id));
    assert(stays_open(pre, next, t.id));
}

/// Whether nothing survives less than `d` places away from a place.
pub open spec fn barren(siblings: Seq<Seq<char>>, at: int, d: int, next: Seq<TaskView>) -> bool {
    forall|j: int|
        0 <= j < siblings.len() && at - d < j < at + d ==> gone_from(next, #[trigger] siblings[j])
}

/// The place the selection goes to, `d` away from one that is gone: the one
/// after it where that survives, and else the one before it.
pub open spec fn goes_to(
    siblings: Seq<Seq<char>>,
    at: int,
    d: int,
    next: Seq<TaskView>,
    heir: Seq<char>,
) -> bool {
    &&& !gone_from(next, heir)
    &&& at + d < siblings.len() && heir == siblings[at + d] || d <= at && heir == siblings[at - d]
        && (at + d < siblings.len() ==> gone_from(next, siblings[at + d]))
}

proof fn lemma_heir(
    siblings: Seq<Seq<char>>,
    at: int,
    from: int,
    d: int,
    next: Seq<TaskView>,
    heir: Seq<char>,
)
    requires
        0 <= at < siblings.len(),
        1 <= from <= d,
        barren(siblings, at, d, next),
        goes_to(siblings, at, d, next, heir),
    ensures
        survivor(siblings, at, from, next) == Some(heir),
    decreases d - from,
{
    let k = choose|k: int| 0 <= k < next.len() && (#[trigger] next[k]).id == heir;
    assert(knows(next, heir));
    if from < d {
        if at + from < siblings.len() {
            assert(gone_from(next, siblings[at + from]));
            assert(!knows(next, siblings[at + from]));
        }
        if from <= at {
            assert(gone_from(next, siblings[at - from]));
            assert(!knows(next, siblings[at - from]));
        }
        lemma_heir(siblings, at, from + 1, d, next, heir);
    } else if at + d < siblings.len() && gone_from(next, siblings[at + d]) {
        assert(!knows(next, siblings[at + d]));
    }
}

/// When the selected subtask is gone, the nearest of its parent's children that
/// is still there takes over, however far off; and of two as near the later one.
pub proof fn law_the_nearest_child_of_the_parent_takes_over(
    pre: App,
    next: Seq<TaskView>,
    post: App,
    lost: TaskView,
    parent: TaskView,
    at: int,
    d: int,
    heir: Seq<char>,
)
    requires
        pre.wf(),
        refreshed(pre, next, post),
        distinct_ids(pre.task_list()),
        pre.chosen() == Some(lost.id),
        pre.task_list().contains(lost),
        pre.task_list().contains(parent),
        lost.parent_id == Some(parent.id),
        0 <= at < parent.children.len(),
        parent.children[at] == lost.id,
        forall|j: int| 0 <= j < at ==> parent.children[j] != lost.id,
        1 <= d,
        barren(parent.children, at, d, next),
        goes_to(parent.children, at, d, next, heir),
        has_node(forest(next, pre.lens()), heir),
    ensures
        post.chosen() == Some(heir),
{
    reveal(refreshed);
    reveal(fits);
    let tasks = pre.task_list();
    lemma_held(tasks, lost);
    lemma_held(tasks, parent);
    lemma_first_index(parent.children, lost.id, at);
    assert(gone_from(next, parent.children[at]));
    assert(!knows(next, lost.id));
    lemma_heir(parent.children, at, 1, d, next, heir);
}

/// Whether these are the roots of a list, each standing above the next.
pub open spec fn are_the_roots(tasks: Seq<TaskView>, order: Seq<TaskView>) -> bool {
    &&& forall|t: TaskView| #[trigger] order.contains(t) <==> is_root_in(tasks, t)
    &&& forall|i: int, j: int|
        #![trigger order[i], order[j]]
        0 <= i < j < order.len() ==> stands_above(order[i], order[j])
}

proof fn lemma_the_ranking_is_the_order(
    tasks: Seq<TaskView>,
    f: spec_fn(TaskView) -> bool,
    order: Seq<TaskView>,
)
    requires
        distinct_ids(tasks),
        are_the_roots(tasks, order),
        forall|t: TaskView| #[trigger] is_root_in(tasks, t) <==> tasks.contains(t) && f(t),
    ensures
        sorted_by(tasks.filter(f), by_rank()) == order,
{
    let s = sorted_by(tasks.filter(f), by_rank());
    lemma_distinct_tasks(tasks, f);
    law_sort_keeps_elements_distinct(tasks.filter(f), by_rank());
    assert(order.no_duplicates()) by {
        assert forall|i: int, j: int| 0 <= i < order.len() && 0 <= j < order.len() && i
            != j implies order[i] != order[j] by {
            if i < j {
                assert(stands_above(order[i], order[j]));
            } else {
                assert(stands_above(order[j], order[i]));
            }
        }
    }
    assert forall|t: TaskView| #[trigger] s.contains(t) <==> order.contains(t) by {
        lemma_ranked_roots(tasks, f, t);
        assert(order.contains(t) <==> is_root_in(tasks, t));
    }
    assert(s.to_set() =~= order.to_set()) by {
        assert forall|t: TaskView| s.to_set().contains(t) <==> order.to_set().contains(t) by {
            assert(s.contains(t) <==> order.contains(t));
        }
    }
    s.unique_seq_to_set();
    order.unique_seq_to_set();
    assert(s.len() == order.len());
    if s.len() > 0 {
        lemma_ranked_roots(tasks, f, s[0]);
    }
    lemma_same_from(tasks, s, order, s.len() as int);
    assert(s =~= order);
}

proof fn lemma_same_from(tasks: Seq<TaskView>, s: Seq<TaskView>, order: Seq<TaskView>, n: int)
    requires
        s.len() == order.len(),
        0 <= n <= s.len(),
        s.no_duplicates(),
        order.no_duplicates(),
        forall|t: TaskView| #[trigger] s.contains(t) <==> order.contains(t),
        forall|i: int, j: int|
            #![trigger s[i], s[j]]
            0 <= i < j < s.len() ==> !stands_above(s[j], s[i]) && s[i].id != s[j].id,
        are_the_roots(tasks, order),
    ensures
        forall|i: int| 0 <= i < n ==> s[i] == order[i],
    decreases n,
{
    if n > 0 {
        let i = n - 1;
        lemma_same_from(tasks, s, order, i);
        assert(s.contains(s[i]));
        assert(order.contains(order[i]));
        assert(order.contains(s[i]) && s.contains(order[i]));
        let p = choose|p: int| 0 <= p < order.len() && order[p] == s[i];
        let q = choose|q: int| 0 <= q < s.len() && s[q] == order[i];
        if p < i {
            assert(s[p] == order[p]);
        }
        if q < i {
            assert(s[q] == order[q]);
        }
        if p > i && q > i {
            assert(stands_above(order[i], order[p]));
            assert(!stands_above(s[q], s[i]));
        }
    }
}

/// When the selected root is gone, the nearest root that is still there takes
/// over, however far off in the order of priority and then of creation; and of
/// two as near the later one.
pub proof fn law_the_nearest_root_takes_over(
    pre: App,
    next: Seq<TaskView>,
    post: App,
    order: Seq<TaskView>,
    at: int,
    d: int,
    heir: Seq<char>,
)
    requires
        pre.wf(),
        refreshed(pre, next, post),
        distinct_ids(pre.task_list()),
        are_the_roots(pre.task_list(), order),
        0 <= at < order.len(),
        order[at].parent_id is None,
        pre.chosen() == Some(order[at].id),
        1 <= d,
        barren(ids_of(order), at, d, next),
        goes_to(ids_of(order), at, d, next, heir),
        has_node(forest(next, pre.lens()), heir),
    ensures
        post.chosen() == Some(heir),
{
    reveal(refreshed);
    reveal(fits);
    let tasks = pre.task_list();
    let held = pre.held();
    let lost = order[at];
    assert(order.contains(lost));
    assert(is_root_in(tasks, lost));
    lemma_held(tasks, lost);
    assert forall|t: TaskView| #[trigger] is_root_in(tasks, t) <==> tasks.contains(t) && adrift(held)(
        t,
    ) by {
        if t.parent_id is Some {
            law_the_index_holds_every_task(tasks, t.parent_id->0);
        }
    }
    lemma_the_ranking_is_the_order(tasks, adrift(held), order);
    lemma_ranked_roots(tasks, adrift(held), lost);
    let ids = ids_of(order);
    assert(first_index(ids, order[at].id) == at);
    assert(ids[at] == lost.id);
    assert(gone_from(next, ids[at]));
    assert(!knows(next, lost.id));
    lemma_heir(ids, at, 1, d, next, heir);
}

/// When a subtask is gone with all its siblings, the selection climbs: to the
/// first task on the way up that is still there, however far.
pub proof fn law_a_lost_branch_climbs_to_what_is_left(
    pre: App,
    next: Seq<TaskView>,
    post: App,
    up: Seq<TaskView>,
)
    requires
        pre.wf(),
        refreshed(pre, next, post),
        distinct_ids(pre.task_list()),
        up.len() >= 2,
        forall|i: int| 0 <= i < up.len() ==> pre.task_list().contains(#[trigger] up[i]),
        forall|i: int|
            0 <= i < up.len() - 1 ==> (#[trigger] up[i]).parent_id == Some(up[i + 1].id),
        pre.chosen() == Some(up[0].id),
        forall|j: int|
            0 <= j < up[1].children.len() ==> gone_from(next, #[trigger] up[1].children[j]),
        forall|i: int| 0 <= i < up.len() - 1 ==> gone_from(next, (#[trigger] up[i]).id),
        !gone_from(next, up.last().id),
        has_node(forest(next, pre.lens()), up.last().id),
    ensures
        post.chosen() == Some(up.last().id),
{
    reveal(refreshed);
    reveal(fits);
    let tasks = pre.task_list();
    let held = pre.held();
    let (lost, parent, heir) = (up[0], up[1], up.last());
    let n = (up.len() - 1) as nat;
    assert(up[n as int] == heir);
    lemma_held(tasks, lost);
    lemma_held(tasks, parent);
    let c = parent.children;
    lemma_first_index_holds(c, lost.id);
    if first_index(c, lost.id) < c.len() {
        lemma_no_survivor(c, first_index(c, lost.id), 1, next);
    }
    assert(nearest_sibling_of(tasks, held, lost.id, next) is None);
    assert(gone_from(next, up[0].id));
    assert(!knows(next, lost.id));
    let k = choose|k: int| 0 <= k < next.len() && (#[trigger] next[k]).id == heir.id;
    assert(knows(next, heir.id));
    lemma_climb(tasks, up, n);
    assert(survives(held, lost.id, n, next));
    assert forall|m: nat| 1 <= m < n implies !#[trigger] survives(held, lost.id, m, next) by {
        lemma_climb(tasks, up, m);
        assert(gone_from(next, up[m as int].id));
    }
    assert forall|a: Option<Seq<char>>| #[trigger]
        nearest_ancestor_is(held, lost.id, next, a) implies a == Some(heir.id) by {
        if a is Some {
            let m = choose|m: nat|
                m >= 1 && #[trigger] survives(held, lost.id, m, next) && ancestor(held, lost.id, m)
                    == a && forall|x: nat| 1 <= x < m ==> !#[trigger] survives(
                    held,
                    lost.id,
                    x,
                    next,
                );
            if m > n {
                assert(!survives(held, lost.id, n, next));
            }
            assert(m == n);
        }
    }
}

proof fn lemma_climb(tasks: Seq<TaskView>, up: Seq<TaskView>, n: nat)
    requires
        distinct_ids(tasks),
        n < up.len(),
        forall|i: int| 0 <= i < up.len() ==> tasks.contains(#[trigger] up[i]),
        forall|i: int|
            0 <= i < up.len() - 1 ==> (#[trigger] up[i]).parent_id == Some(up[i + 1].id),
    ensures
        ancestor(indexed(tasks), up[0].id, n) == Some(up[n as int].id),
    decreases n,
{
    if n > 0 {
        lemma_climb(tasks, up, (n - 1) as nat);
        lemma_held(tasks, up[n - 1]);
        assert(up[n - 1].parent_id == Some(up[n as int].id));
    }
}

/// Where nothing is left of the roots that stood beside a lost one, or the lost
/// task hung under one that is not there, the topmost root is selected.
pub proof fn law_with_no_kin_left_the_topmost_root_takes_over(
    pre: App,
    next: Seq<TaskView>,
    post: App,
    lost: TaskView,
    top: TaskView,
)
    requires
        pre.wf(),
        refreshed(pre, next, post),
        distinct_ids(pre.task_list()),
        distinct_ids(next),
        pre.chosen() == Some(lost.id),
        pre.task_list().contains(lost),
        gone_from(next, lost.id),
        lost.parent_id is None ==> forall|r: TaskView| #[trigger]
            is_root_in(pre.task_list(), r) ==> gone_from(next, r.id),
        lost.parent_id matches Some(p) ==> gone_from(pre.task_list(), p) && gone_from(next, p),
        is_root_in(next, top),
        forall|r: TaskView| #[trigger] is_root_in(next, r) && r != top ==> stands_above(top, r),
        has_node(forest(next, pre.lens()), top.id),
    ensures
        post.chosen() == Some(top.id),
{
    reveal(refreshed);
    reveal(fits);
    reveal_with_fuel(ancestor, 3);
    let tasks = pre.task_list();
    let held = pre.held();
    lemma_held(tasks, lost);
    assert(!knows(next, lost.id));
    if lost.parent_id is None {
        let s = sorted_by(tasks.filter(adrift(held)), by_rank());
        let ids = ids_of(s);
        assert forall|j: int| 0 <= j < ids.len() implies gone_from(next, #[trigger] ids[j]) by {
            lemma_ranked_roots(tasks, adrift(held), s[j]);
            assert(s.contains(s[j]));
            if s[j].parent_id is Some {
                law_the_index_holds_every_task(tasks, s[j].parent_id->0);
            }
            assert(is_root_in(tasks, s[j]));
        }
        if first_index(ids, lost.id) < ids.len() {
            lemma_first_index_holds(ids, lost.id);
            lemma_no_survivor(ids, first_index(ids, lost.id), 1, next);
        }
    } else {
        let p = lost.parent_id->0;
        law_the_index_holds_every_task(tasks, p);
        assert(!held.contains_key(p));
        assert(!knows(next, p));
    }
    assert(nearest_sibling_of(tasks, held, lost.id, next) is None);
    assert(ancestor(held, lost.id, 0) == Some(lost.id));
    assert(ancestor(held, lost.id, 1) == lost.parent_id);
    assert(ancestor(held, lost.id, 2) is None);
    assert forall|m: nat| 1 <= m implies !#[trigger] survives(held, lost.id, m, next) by {
        if m >= 2 {
            lemma_chain_ends(held, lost.id, 2, m);
        }
    }
    assert forall|t: TaskView| #[trigger] is_root_in(next, t) <==> next.contains(t) && rootless(next)(
        t,
    ) by {}
    let s = sorted_by(next.filter(rootless(next)), by_rank());
    lemma_ranked_roots(next, rootless(next), top);
    let p = choose|i: int| 0 <= i < s.len() && s[i] == top;
    if p > 0 {
        lemma_ranked_roots(next, rootless(next), s[0]);
        assert(s.contains(s[0]));
        assert(is_root_in(next, s[0]));
        assert(s[0].id != s[p].id);
        assert(!stands_above(s[p], s[0]));
    }
    assert(ids_of(s)[0] == top.id);
}

/// A worktree entered for the first time has nothing selected yet; entering the
/// one that is shown changes nothing; and no other worktree's cursor is lost.
pub proof fn law_entering_forgets_no_cursor(
    pre: App,
    path: Seq<char>,
    post: App,
    other: Seq<char>,
)
    requires
        entered(pre, path, post),
    ensures
        opt_text(pre.selected_worktree) == Some(path) ==> post == pre,
        opt_text(post.selected_worktree) == Some(path),
        opt_text(pre.selected_worktree) != Some(path) && !pre.task_memory@.contains_key(path)
            ==> post.chosen() is None,
        opt_text(pre.selected_worktree) != Some(path) && pre.task_memory@.contains_key(path)
            ==> post.chosen() == Some(pre.task_memory@[path]@),
        opt_text(pre.selected_worktree) != Some(other) && pre.task_memory@.contains_key(other)
            ==> post.task_memory@.contains_key(other) && post.task_memory@[other]@
            == pre.task_memory@[other]@,
        post.tasks == pre.tasks && post.tree == pre.tree && post.expanded == pre.expanded
            && post.focus == pre.focus,
{
    reveal(entered);
    reveal(selects);
    if opt_text(pre.selected_worktree) != Some(path) {
        let memory = remembered(pre);
        assert(memory_of(post.task_memory@) == memory);
        if pre.task_memory@.contains_key(other) {
            assert(memory_of(pre.task_memory@).contains_key(other));
        }
        if opt_text(pre.selected_worktree) != Some(other) && pre.task_memory@.contains_key(other) {
            assert(memory.contains_key(other));
            assert(memory_of(post.task_memory@).contains_key(other));
            assert(memory_of(post.task_memory@)[other] == memory[other]);
        }
    }
}

} // verus!
