//! What the header says of the whole store, and what an empty tree says of
//! itself.

use vstd::prelude::*;

use crate::app::App;
use crate::dex::{
    blocked, holds_up, in_progress, index, indexed, is_blocked, map_views, task_views, Task, TaskMap,
    TaskView,
};
use crate::pulse::{frame, frame_at};
use crate::text::{concat3, decimal, decimal_of, opt_text, starts, trim, trimmed};
use crate::tree::{
    count_if, filter_name, filter_word, hits, lemma_count_apart, lemma_count_implied,
    matches_query,
};

verus! {

/// What the header reports about the whole store. See [`App::counts`] for why
/// `ready + blocked` deliberately does not equal `pending`.
#[derive(Debug, Clone, Copy, PartialEq, Eq, Structural)]
pub struct Counts {
    pub total: usize,
    pub completed: usize,
    pub pending: usize,
    /// Started and unfinished.
    pub active: usize,
    /// Has at least one blocker that exists and is not completed.
    pub blocked: usize,
    /// Pending, unstarted, unblocked, and with no unfinished children.
    pub ready: usize,
    /// Completed over total, rounded down.
    pub percent: usize,
}

impl Default for Counts {
    fn default() -> (r: Self)
        ensures
            r == (Counts {
                total: 0,
                completed: 0,
                pending: 0,
                active: 0,
                blocked: 0,
                ready: 0,
                percent: 0,
            }),
    {
        Counts { total: 0, completed: 0, pending: 0, active: 0, blocked: 0, ready: 0, percent: 0 }
    }
}

/// Whether the `i`th child of a task is known and not completed.
pub open spec fn unfinished_child(t: TaskView, by_id: Map<Seq<char>, TaskView>, i: int) -> bool {
    let id = t.children[i];
    by_id.contains_key(id) && !by_id[id].completed
}

/// Whether any immediate child of a task is known and not completed.
pub open spec fn incomplete_children(t: TaskView, by_id: Map<Seq<char>, TaskView>) -> bool {
    exists|i: int| 0 <= i < t.children.len() && #[trigger] unfinished_child(t, by_id, i)
}

/// Immediate children only, matching dex's `hasIncompleteChildren` -- not the
/// progress rollup, which counts all descendants.
fn has_incomplete_children(t: &Task, by_id: &TaskMap) -> (r: bool)
    ensures
        r == incomplete_children(t@, map_views(by_id@)),
{
    for i in 0..t.children.len()
        invariant
            forall|j: int| 0 <= j < i ==> !#[trigger] unfinished_child(t@, map_views(by_id@), j),
    {
        assert(t@.children[i as int] == t.children@[i as int]@);
        if let Some(c) = by_id.get(t.children[i].as_str()) {
            if !c.completed {
                assert(unfinished_child(t@, map_views(by_id@), i as int));
                return true;
            }
        }
    }
    false
}

pub open spec fn is_completed() -> spec_fn(TaskView) -> bool {
    |t: TaskView| t.completed
}

pub open spec fn is_pending() -> spec_fn(TaskView) -> bool {
    |t: TaskView| !t.completed
}

pub open spec fn is_active() -> spec_fn(TaskView) -> bool {
    |t: TaskView| in_progress(t)
}

/// Not begun, and held up.
pub open spec fn is_held_up(by_id: Map<Seq<char>, TaskView>) -> spec_fn(TaskView) -> bool {
    |t: TaskView| !t.completed && !in_progress(t) && blocked(t, by_id)
}

/// Not begun, not held up, and with nothing below it left to do.
pub open spec fn is_ready(by_id: Map<Seq<char>, TaskView>) -> spec_fn(TaskView) -> bool {
    |t: TaskView|
        !t.completed && !in_progress(t) && !blocked(t, by_id) && !incomplete_children(t, by_id)
}

/// Whether counts are those of a list.
pub open spec fn counts_of(
    tasks: Seq<TaskView>,
    by_id: Map<Seq<char>, TaskView>,
    c: Counts,
) -> bool {
    &&& c.total == tasks.len()
    &&& c.completed == count_if(tasks, is_completed())
    &&& c.pending == count_if(tasks, is_pending())
    &&& c.active == count_if(tasks, is_active())
    &&& c.blocked == count_if(tasks, is_held_up(by_id))
    &&& c.ready == count_if(tasks, is_ready(by_id))
    &&& c.percent == if c.total == 0 {
        0
    } else {
        c.completed * 100 / c.total as int
    }
}

/// The shared arithmetic behind `App::counts()` and `counts_for()` -- see
/// `App::counts()` for the precedence rules and why `ready + blocked` does not
/// sum to `pending`.
fn counts_from(tasks: &Vec<Task>, by_id: &TaskMap) -> (r: Counts)
    ensures
        counts_of(task_views(tasks@), map_views(by_id@), r),
{
    let ghost all = task_views(tasks@);
    let ghost m = map_views(by_id@);
    let mut c = Counts::default();
    c.total = tasks.len();
    for i in 0..tasks.len()
        invariant
            all == task_views(tasks@),
            m == map_views(by_id@),
            c.total == tasks.len(),
            c.completed == count_if(all.take(i as int), is_completed()),
            c.pending == count_if(all.take(i as int), is_pending()),
            c.active == count_if(all.take(i as int), is_active()),
            c.blocked == count_if(all.take(i as int), is_held_up(m)),
            c.ready == count_if(all.take(i as int), is_ready(m)),
            c.completed <= i && c.pending <= i && c.active <= i && c.blocked <= i && c.ready <= i,
            c.percent == 0,
    {
        let t = &tasks[i];
        assert(all.take(i + 1).drop_last() =~= all.take(i as int));
        assert(all.take(i + 1).last() == t@);
        if t.completed {
            c.completed = c.completed + 1;
        } else {
            c.pending = c.pending + 1;
            // Same precedence as dex: started wins over everything else.
            if t.is_in_progress() {
                c.active = c.active + 1;
            } else if is_blocked(t, by_id) {
                c.blocked = c.blocked + 1;
            } else if !has_incomplete_children(t, by_id) {
                c.ready = c.ready + 1;
            }
        }
    }
    assert(all.take(all.len() as int) =~= all);
    if c.total > 0 {
        let share: u128 = c.completed as u128 * 100 / c.total as u128;
        proof {
            assert(share <= 100) by (nonlinear_arith)
                requires
                    share == c.completed as int * 100 / c.total as int,
                    c.completed <= c.total,
                    c.total > 0,
            ;
        }
        c.percent = share as usize;
    }
    c
}

/// Counts for a task list that belongs to no running `App` -- another
/// registered worktree's store, read only to keep the sidebar's numbers
/// current. Builds its own index, since the tasks belong to an entirely
/// different store; see `App::counts()` for the version that avoids paying that
/// cost every frame for the selected store.
pub fn counts_for(tasks: &Vec<Task>) -> (r: Counts)
    ensures
        counts_of(task_views(tasks@), indexed(task_views(tasks@)), r),
{
    counts_from(tasks, &index(tasks))
}

/// How many tasks a search finds, whatever the filter.
pub open spec fn found(tasks: Seq<TaskView>, query: Seq<char>) -> nat {
    count_if(tasks, |t: TaskView| hits(t, query))
}

/// Why an empty tree is empty.
pub open spec fn reason(app: App) -> Option<Seq<char>> {
    let q = trimmed(app.query.value@);
    let hidden = found(app.task_list(), q);
    if app.tree@.len() > 0 {
        None
    } else if app.tasks@.len() == 0 {
        Some("No tasks yet.\n\nPress n to create one."@)
    } else if q.len() == 0 {
        Some(
            "No tasks match the "@ + filter_name(app.filter)
                + " filter.\n\nPress f to change it."@,
        )
    } else if hidden == 0 {
        Some("Nothing matches \""@ + q + "\".\n\nPress esc to clear the search."@)
    } else {
        Some(
            "\""@ + q + "\" matches "@ + decimal_of(hidden) + if hidden == 1 {
                " task"@
            } else {
                " tasks"@
            } + ", hidden by the "@ + filter_word(app.filter)
                + " filter.\n\nPress f until the filter reads all."@,
        )
    }
}

/// Whether anything is underway.
pub open spec fn any_active(tasks: Seq<TaskView>) -> bool {
    exists|i: int| 0 <= i < tasks.len() && in_progress(#[trigger] tasks[i])
}

/// Whether anything is turning.
pub open spec fn turning(app: App) -> bool {
    app.animate && any_active(app.task_list())
}

/// What a tick of the pulse leaves: the frame that is due, or the resting one
/// where nothing is turning. It asks for a repaint when that is another frame.
pub open spec fn ticked(pre: App, elapsed: int, frames: int, post: App, repaint: bool) -> bool {
    &&& post == (App {
        spin_frame: (if turning(pre) {
            frame_at(elapsed, frames)
        } else {
            0
        }) as usize,
        ..pre
    })
    &&& repaint == (post.spin_frame != pre.spin_frame)
}

impl App {
    /// Store-wide totals for the header, from the **unfiltered** list -- like the
    /// progress rollups, so changing what is on screen never changes what the
    /// header reports.
    ///
    /// The rule mirrors the `dex list --ready` / `dex list --blocked` pair, and
    /// deliberately **not** `dex status`'s partition, which counts a parent with
    /// unfinished children as blocked. Following that would put this header at
    /// odds with the tree drawn beneath it, since the row glyph means "has an
    /// incomplete blocker".
    ///
    /// The cost, which is deliberate: `ready + blocked` does **not** sum to
    /// `pending`. A parent with unfinished children is neither -- you cannot
    /// pick up an epic, and nothing is blocking it.
    pub fn counts(&self) -> (r: Counts)
        ensures
            counts_of(self.task_list(), self.held(), r),
    {
        counts_from(&self.tasks, &self.by_id)
    }

    /// Why the tree is empty, phrased for the pane that has to say so -- or
    /// `None` when it is not empty and nothing needs explaining.
    ///
    /// An empty tree has four causes that look identical and are not. The one
    /// this exists for is the last: **the query is answered, by tasks the
    /// filter is hiding.** Drawing nothing there reads as the search being
    /// broken, and most sharply when the query is an id, because an id is a
    /// thing you know exists.
    ///
    /// It names the filter and counts what it is hiding: a filter silently
    /// hiding tasks with nothing on screen saying so is the most confusing
    /// state this app has. Naming `all` is the only advice that always works,
    /// since it is the one filter that hides nothing.
    pub fn empty_reason(&self) -> (r: Option<String>)
        ensures
            opt_text(r) == reason(*self),
    {
        if self.tree.len() > 0 {
            return None;
        }
        if self.tasks.len() == 0 {
            return Some("No tasks yet.\n\nPress n to create one.".to_owned());
        }
        let q = trim(self.query.value.as_str());
        if q.unicode_len() == 0 {
            return Some(
                concat3(
                    "No tasks match the ",
                    self.filter.name(),
                    " filter.\n\nPress f to change it.",
                ),
            );
        }
        let hidden: usize = self.count_hits(q);
        if hidden == 0 {
            return Some(
                concat3("Nothing matches \"", q, "\".\n\nPress esc to clear the search."),
            );
        }
        let mut out = concat3("\"", q, "\" matches ");
        out.append(decimal(hidden as u64).as_str());
        out.append(
            if hidden == 1 {
                " task"
            } else {
                " tasks"
            },
        );
        out.append(", hidden by the ");
        out.append(self.filter.word());
        out.append(" filter.\n\nPress f until the filter reads all.");
        Some(out)
    }

    fn count_hits(&self, query: &str) -> (r: usize)
        ensures
            r == found(self.task_list(), query@),
    {
        let ghost all = self.task_list();
        let ghost f = |t: TaskView| hits(t, query@);
        let mut n: usize = 0;
        for i in 0..self.tasks.len()
            invariant
                all == self.task_list(),
                f == (|t: TaskView| hits(t, query@)),
                n == count_if(all.take(i as int), f),
                n <= i,
        {
            assert(all.take(i + 1).drop_last() =~= all.take(i as int));
            assert(all.take(i + 1).last() == self.tasks@[i as int]@);
            if matches_query(&self.tasks[i], query) {
                n = n + 1;
            }
        }
        assert(all.take(all.len() as int) =~= all);
        n
    }

    /// Whether anything on screen is currently turning.
    ///
    /// `animate` is tested first on purpose, so the opt-out costs nothing at all
    /// -- otherwise turning it off would still pay for the scan on every wakeup.
    pub fn is_animating(&self) -> (r: bool)
        ensures
            r == turning(*self),
    {
        if !self.animate {
            return false;
        }
        for i in 0..self.tasks.len()
            invariant
                self.animate,
                forall|j: int| 0 <= j < i ==> !in_progress(#[trigger] self.task_list()[j]),
        {
            assert(self.task_list()[i as int] == self.tasks@[i as int]@);
            if self.tasks[i].is_in_progress() {
                return true;
            }
        }
        false
    }

    /// Advances the pulse, returning true when the frame needs repainting.
    ///
    /// That return value is the *only* redraw animation ever causes, which is
    /// what keeps the cost of this feature to a number you can state.
    ///
    /// `elapsed`, in milliseconds, is passed in rather than read from a clock so
    /// the schedule is deterministic, and it folds in the settle case for free:
    /// when the last in-progress task finishes, the marker returns to its base
    /// state in one final repaint rather than freezing on whichever frame
    /// happened to be up.
    pub fn pulse_tick(&mut self, elapsed: u64, frames: usize) -> (r: bool)
        ensures
            ticked(*old(self), elapsed as int, frames as int, *final(self), r),
    {
        let want: usize = if self.is_animating() {
            frame(elapsed, frames)
        } else {
            0
        };
        if want == self.spin_frame {
            return false;
        }
        self.spin_frame = want;
        true
    }
}

/// Completed and pending make up everything, and what is underway, held up and
/// ready are different pending tasks; the share done is a percentage, and is
/// all only when nothing is pending.
pub proof fn law_counts_add_up(tasks: Seq<TaskView>, by_id: Map<Seq<char>, TaskView>, c: Counts)
    requires
        counts_of(tasks, by_id, c),
    ensures
        c.completed + c.pending == c.total,
        c.active + c.blocked + c.ready <= c.pending,
        0 <= c.percent <= 100,
        c.percent == 100 ==> c.pending == 0,
{
    lemma_count_apart(tasks, is_completed(), is_pending());
    lemma_count_all(tasks, |t: TaskView| is_completed()(t) || is_pending()(t));
    lemma_count_apart(tasks, is_active(), is_held_up(by_id));
    let started_or_held = |t: TaskView| is_active()(t) || is_held_up(by_id)(t);
    lemma_count_apart(tasks, started_or_held, is_ready(by_id));
    lemma_count_implied(
        tasks,
        |t: TaskView| started_or_held(t) || is_ready(by_id)(t),
        is_pending(),
    );
    if c.total > 0 {
        let (done, n) = (c.completed as int, c.total as int);
        assert(0 <= done * 100 / n <= 100) by (nonlinear_arith)
            requires
                0 <= done <= n,
                n > 0,
        ;
        if done < n {
            assert(done * 100 / n < 100) by (nonlinear_arith)
                requires
                    0 <= done < n,
            ;
        }
    }
}

proof fn lemma_count_all(tasks: Seq<TaskView>, f: spec_fn(TaskView) -> bool)
    requires
        forall|t: TaskView| #[trigger] f(t),
    ensures
        count_if(tasks, f) == tasks.len(),
    decreases tasks.len(),
{
    if tasks.len() > 0 {
        lemma_count_all(tasks.drop_last(), f);
    }
}

/// Changing the filter, the search or the order never changes the counts: they
/// speak of the tasks alone.
pub proof fn law_counts_ignore_the_view(a: App, b: App, c: Counts, d: Counts)
    requires
        a.tasks == b.tasks,
        a.by_id == b.by_id,
        counts_of(a.task_list(), a.held(), c),
        counts_of(b.task_list(), b.held(), d),
    ensures
        c == d,
{
}

/// A parent with unfinished children that nothing blocks is pending and yet
/// neither ready, blocked nor underway: the gap between the numbers is real.
pub proof fn law_an_epic_is_neither_ready_nor_blocked(t: TaskView, by_id: Map<Seq<char>, TaskView>)
    requires
        !t.completed,
        t.started_at is None,
        !blocked(t, by_id),
        incomplete_children(t, by_id),
    ensures
        is_pending()(t),
        !is_active()(t),
        !is_held_up(by_id)(t),
        !is_ready(by_id)(t),
{
}

/// A store in which nothing is underway is repainted at most once for the pulse
/// -- to settle the marker -- and never again; with animation off that holds of
/// any store.
pub proof fn law_a_still_store_settles_once(
    pre: App,
    first: int,
    mid: App,
    settled: bool,
    second: int,
    frames: int,
    post: App,
    repaint: bool,
)
    requires
        !turning(pre),
        ticked(pre, first, frames, mid, settled),
        ticked(mid, second, frames, post, repaint),
    ensures
        settled == (pre.spin_frame != 0),
        !repaint,
        post == mid,
{
}

/// A pending task that nothing blocks, that is not begun, and that has a child
/// still to be done.
pub open spec fn waits_on_a_child(by_id: Map<Seq<char>, TaskView>) -> spec_fn(TaskView) -> bool {
    |t: TaskView|
        {
            &&& !t.completed
            &&& t.started_at is None
            &&& forall|i: int|
                0 <= i < t.blocked_by.len() ==> !by_id.contains_key(#[trigger] t.blocked_by[i])
                    || by_id[t.blocked_by[i]].completed
            &&& exists|i: int|
                0 <= i < t.children.len() && by_id.contains_key(#[trigger] t.children[i])
                    && !by_id[t.children[i]].completed
        }
}

/// Every pending task is counted in one place and one only: it is underway, or
/// held up, or ready, or it waits on a child.
pub proof fn law_every_pending_task_is_counted_once(
    tasks: Seq<TaskView>,
    by_id: Map<Seq<char>, TaskView>,
    c: Counts,
)
    requires
        counts_of(tasks, by_id, c),
    ensures
        c.active + c.blocked + c.ready + count_if(tasks, waits_on_a_child(by_id)) == c.pending,
{
    let w = waits_on_a_child(by_id);
    assert forall|t: TaskView| #[trigger] w(t) <==> !t.completed && !is_active()(t) && !is_held_up(
        by_id,
    )(t) && !is_ready(by_id)(t) by {
        lemma_in_the_way(t, by_id);
    }
    lemma_count_apart(tasks, is_active(), is_held_up(by_id));
    let two = |t: TaskView| is_active()(t) || is_held_up(by_id)(t);
    lemma_count_apart(tasks, two, is_ready(by_id));
    let three = |t: TaskView| two(t) || is_ready(by_id)(t);
    lemma_count_apart(tasks, three, w);
    let four = |t: TaskView| three(t) || w(t);
    lemma_count_implied(tasks, four, is_pending());
    lemma_count_implied(tasks, is_pending(), four);
}

proof fn lemma_in_the_way(t: TaskView, by_id: Map<Seq<char>, TaskView>)
    ensures
        blocked(t, by_id) <==> exists|i: int|
            0 <= i < t.blocked_by.len() && by_id.contains_key(#[trigger] t.blocked_by[i])
                && !by_id[t.blocked_by[i]].completed,
        incomplete_children(t, by_id) <==> exists|i: int|
            0 <= i < t.children.len() && by_id.contains_key(#[trigger] t.children[i])
                && !by_id[t.children[i]].completed,
{
    if blocked(t, by_id) {
        let i = choose|i: int| 0 <= i < t.blocked_by.len() && #[trigger] holds_up(t, by_id, i);
        assert(by_id.contains_key(t.blocked_by[i]));
    }
    if exists|i: int|
        0 <= i < t.blocked_by.len() && by_id.contains_key(#[trigger] t.blocked_by[i])
            && !by_id[t.blocked_by[i]].completed {
        let i = choose|i: int|
            0 <= i < t.blocked_by.len() && by_id.contains_key(#[trigger] t.blocked_by[i])
                && !by_id[t.blocked_by[i]].completed;
        assert(holds_up(t, by_id, i));
    }
    if incomplete_children(t, by_id) {
        let i = choose|i: int| 0 <= i < t.children.len() && #[trigger] unfinished_child(t, by_id, i);
        assert(by_id.contains_key(t.children[i]));
    }
    if exists|i: int|
        0 <= i < t.children.len() && by_id.contains_key(#[trigger] t.children[i])
            && !by_id[t.children[i]].completed {
        let i = choose|i: int|
            0 <= i < t.children.len() && by_id.contains_key(#[trigger] t.children[i])
                && !by_id[t.children[i]].completed;
        assert(unfinished_child(t, by_id, i));
    }
}

/// Only what stands in the way now counts: a blocker that is done, or that is in
/// no list, holds nothing up, and a child that is done is not waited for. With
/// one more task at the end of a list, the counts go up by that task alone: it
/// is one of completed, active, blocked and ready, or waits on a child.
pub proof fn law_a_task_is_counted_for_what_it_is(
    tasks: Seq<TaskView>,
    t: TaskView,
    by_id: Map<Seq<char>, TaskView>,
    before: Counts,
    after: Counts,
)
    requires
        counts_of(tasks, by_id, before),
        counts_of(tasks.push(t), by_id, after),
    ensures
        ({
            let held = exists|i: int|
                0 <= i < t.blocked_by.len() && by_id.contains_key(#[trigger] t.blocked_by[i])
                    && !by_id[t.blocked_by[i]].completed;
            let parent = exists|i: int|
                0 <= i < t.children.len() && by_id.contains_key(#[trigger] t.children[i])
                    && !by_id[t.children[i]].completed;
            let open = !t.completed && t.started_at is None;
            &&& after.total == before.total + 1
            &&& after.completed == before.completed + if t.completed {
                1int
            } else {
                0
            }
            &&& after.pending == before.pending + if t.completed {
                0int
            } else {
                1
            }
            &&& after.active == before.active + if !t.completed && t.started_at is Some {
                1int
            } else {
                0
            }
            &&& after.blocked == before.blocked + if open && held {
                1int
            } else {
                0
            }
            &&& after.ready == before.ready + if open && !held && !parent {
                1int
            } else {
                0
            }
        }),
{
    lemma_in_the_way(t, by_id);
    let all = tasks.push(t);
    assert(all.drop_last() =~= tasks);
    assert(all.last() == t);
}

/// The share done is rounded down: so many hundredths are done, and not one
/// more; an empty store has none.
pub proof fn law_the_share_done_is_rounded_down(
    tasks: Seq<TaskView>,
    by_id: Map<Seq<char>, TaskView>,
    c: Counts,
)
    requires
        counts_of(tasks, by_id, c),
    ensures
        c.total > 0 ==> c.percent * c.total <= c.completed * 100 < (c.percent + 1) * c.total,
        c.total == 0 ==> c.percent == 0 && c.completed == 0 && c.pending == 0,
{
    if c.total > 0 {
        let (d, n, p) = (c.completed as int, c.total as int, c.percent as int);
        assert(p * n <= d * 100 < (p + 1) * n) by (nonlinear_arith)
            requires
                n > 0,
                p == d * 100 / n,
        ;
    }
}

/// An empty tree is explained by the first thing that makes it so: that there are
/// no tasks at all; that the filter lets none through; that a search finds none;
/// or that the filter hides what it finds, and how many. A tree that is not empty
/// needs no explaining.
pub proof fn law_an_empty_tree_is_explained(app: App)
    ensures
        reason(app) is None <==> app.tree@.len() > 0,
        app.tree@.len() == 0 && app.tasks@.len() == 0 ==> starts(reason(app)->0, "No tasks yet."@),
        app.tree@.len() == 0 && app.tasks@.len() > 0 && trimmed(app.query.value@).len() == 0
            ==> starts(reason(app)->0, "No tasks match the "@ + filter_name(app.filter)),
        app.tree@.len() == 0 && app.tasks@.len() > 0 && trimmed(app.query.value@).len() > 0 && (
        forall|i: int|
            0 <= i < app.task_list().len() ==> !hits(
                #[trigger] app.task_list()[i],
                trimmed(app.query.value@),
            )) ==> starts(reason(app)->0, "Nothing matches "@),
        app.tree@.len() == 0 && trimmed(app.query.value@).len() > 0 && (exists|i: int|
            0 <= i < app.task_list().len() && hits(
                #[trigger] app.task_list()[i],
                trimmed(app.query.value@),
            )) ==> starts(
            reason(app)->0,
            "\""@ + trimmed(app.query.value@) + "\" matches "@ + decimal_of(
                found(app.task_list(), trimmed(app.query.value@)),
            ),
        ) && found(app.task_list(), trimmed(app.query.value@)) > 0,
{
    reveal_strlit("No tasks yet.");
    reveal_strlit("No tasks yet.\n\nPress n to create one.");
    reveal_strlit("Nothing matches ");
    reveal_strlit("Nothing matches \"");
    let q = trimmed(app.query.value@);
    let n = found(app.task_list(), q);
    lemma_count_none(app.task_list(), |t: TaskView| hits(t, q));
    assert(app.task_list().len() == app.tasks@.len());
    if app.tree@.len() == 0 {
        let r = reason(app)->0;
        if app.tasks@.len() == 0 {
            assert(r.subrange(0, 13) =~= "No tasks yet."@);
        } else if q.len() == 0 {
            let p = "No tasks match the "@ + filter_name(app.filter);
            assert(r.subrange(0, p.len() as int) =~= p);
        } else if n == 0 {
            assert(r.subrange(0, 16) =~= "Nothing matches "@);
        } else {
            let p = "\""@ + q + "\" matches "@ + decimal_of(n);
            assert(r.subrange(0, p.len() as int) =~= p);
        }
    }
}

proof fn lemma_count_none(tasks: Seq<TaskView>, f: spec_fn(TaskView) -> bool)
    ensures
        count_if(tasks, f) == 0 <==> forall|i: int| 0 <= i < tasks.len() ==> !f(#[trigger] tasks[i]),
    decreases tasks.len(),
{
    if tasks.len() > 0 {
        let front = tasks.drop_last();
        lemma_count_none(front, f);
        assert(tasks[tasks.len() - 1] == tasks.last());
        if forall|i: int| 0 <= i < tasks.len() ==> !f(#[trigger] tasks[i]) {
            assert forall|i: int| 0 <= i < front.len() implies !f(#[trigger] front[i]) by {
                assert(front[i] == tasks[i]);
            }
        }
        if count_if(tasks, f) == 0 {
            assert forall|i: int| 0 <= i < tasks.len() implies !f(#[trigger] tasks[i]) by {
                if i < front.len() {
                    assert(front[i] == tasks[i]);
                }
            }
        }
    }
}

/// The spinner turns while any task is started and not done, unless animation
/// is off; and a tick repaints exactly when the frame it leaves is another.
pub proof fn law_the_spinner_turns_while_work_is_underway(
    pre: App,
    elapsed: int,
    frames: int,
    post: App,
    repaint: bool,
    i: int,
)
    requires
        ticked(pre, elapsed, frames, post, repaint),
        2 <= frames <= usize::MAX,
        0 <= elapsed,
    ensures
        pre.animate && 0 <= i < pre.task_list().len() && pre.task_list()[i].started_at is Some
            && !pre.task_list()[i].completed ==> post.spin_frame == (elapsed / 80) % frames,
        !pre.animate || (forall|j: int|
            0 <= j < pre.task_list().len() ==> (#[trigger] pre.task_list()[j]).started_at is None
                || pre.task_list()[j].completed) ==> post.spin_frame == 0,
        repaint <==> post.spin_frame != pre.spin_frame,
{
    assert(0 <= (elapsed / 80) % frames < frames) by (nonlinear_arith)
        requires
            frames >= 2,
    ;
    if 0 <= i < pre.task_list().len() && pre.task_list()[i].started_at is Some
        && !pre.task_list()[i].completed {
        assert(in_progress(pre.task_list()[i]));
    }
}

} // verus!
