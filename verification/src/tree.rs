//! Turns dex's flat task array into a hierarchy, with search and status filtering.

use vstd::hash_map::StringHashMap;
use vstd::hash_set::StringHashSet;
use vstd::prelude::*;

use crate::dex::{in_progress, task_views, Task, TaskView};
use crate::order::{
    is_order, lemma_sorted_contains, lemma_sorted_map, law_sort_sorts, reverse, sorted_by,
    stable_sort,
};
use crate::text::{
    all_ascii, ascii_lower, concat, contains, law_text_order_is_total,
    law_text_order_is_transitive, less, lower, lowercase, occurs, same, same_but_case, stands_at,
    starts, starts_with, text_lt, texts, trim, trimmed,
};

verus! {

#[derive(Debug, Clone, Copy, PartialEq, Eq, Structural)]
pub enum Filter {
    /// Everything, including completed. Mirrors `dex list --all`.
    All,
    /// Not yet completed. Mirrors the default `dex list`.
    Pending,
    /// Started but not completed. Mirrors `dex list --in-progress`.
    InProgress,
}

/// The filter that comes after another.
pub open spec fn filter_after(f: Filter) -> Filter {
    match f {
        Filter::Pending => Filter::InProgress,
        Filter::InProgress => Filter::All,
        Filter::All => Filter::Pending,
    }
}

/// The filter that comes before another.
pub open spec fn filter_before(f: Filter) -> Filter {
    match f {
        Filter::Pending => Filter::All,
        Filter::InProgress => Filter::Pending,
        Filter::All => Filter::InProgress,
    }
}

/// The whole filter menu, with the active entry in capitals.
pub open spec fn filter_menu(f: Filter) -> Seq<char> {
    match f {
        Filter::All => "[ ALL  pending  active ]"@,
        Filter::InProgress => "[ all  pending  ACTIVE ]"@,
        Filter::Pending => "[ all  PENDING  active ]"@,
    }
}

/// The active filter alone.
pub open spec fn filter_name(f: Filter) -> Seq<char> {
    match f {
        Filter::All => "ALL"@,
        Filter::InProgress => "ACTIVE"@,
        Filter::Pending => "PENDING"@,
    }
}

/// The active filter as a word in a sentence.
pub open spec fn filter_word(f: Filter) -> Seq<char> {
    match f {
        Filter::All => "all"@,
        Filter::InProgress => "active"@,
        Filter::Pending => "pending"@,
    }
}

impl Filter {
    pub fn next(self) -> (r: Filter)
        ensures
            r == filter_after(self),
    {
        match self {
            Filter::Pending => Filter::InProgress,
            Filter::InProgress => Filter::All,
            Filter::All => Filter::Pending,
        }
    }

    /// The other way round the same cycle.
    pub fn prev(self) -> (r: Filter)
        ensures
            r == filter_before(self),
    {
        match self {
            Filter::Pending => Filter::All,
            Filter::InProgress => Filter::Pending,
            Filter::All => Filter::InProgress,
        }
    }

    /// All three render at the same width so a fixed-width label cannot truncate.
    pub fn label(self) -> (r: &'static str)
        ensures
            r@ == filter_menu(self),
    {
        match self {
            Filter::All => "[ ALL  pending  active ]",
            Filter::InProgress => "[ all  pending  ACTIVE ]",
            Filter::Pending => "[ all  PENDING  active ]",
        }
    }

    /// The active filter alone, for a header too narrow for the whole menu. The
    /// menu is an affordance; *which filter is on* is the fact, and a filter
    /// silently hiding tasks with nothing on screen saying so is the most
    /// confusing state this app has.
    pub fn name(self) -> (r: &'static str)
        ensures
            r@ == filter_name(self),
    {
        match self {
            Filter::All => "ALL",
            Filter::InProgress => "ACTIVE",
            Filter::Pending => "PENDING",
        }
    }

    /// The active filter as a word in a sentence.
    pub fn word(self) -> (r: &'static str)
        ensures
            r@ == filter_word(self),
    {
        match self {
            Filter::All => "all",
            Filter::InProgress => "active",
            Filter::Pending => "pending",
        }
    }
}

/// How siblings are ordered. Applied at every level, so the hierarchy, the
/// progress rollups and expand/collapse all keep working.
#[derive(Debug, Clone, Copy, PartialEq, Eq, Structural)]
pub enum Sort {
    /// priority, then creation time, then name.
    Priority,
    Updated,
    Created,
    Name,
}

/// The order that comes after another.
pub open spec fn sort_after(s: Sort) -> Sort {
    match s {
        Sort::Priority => Sort::Updated,
        Sort::Updated => Sort::Created,
        Sort::Created => Sort::Name,
        Sort::Name => Sort::Priority,
    }
}

/// What an order is called in each direction.
pub open spec fn sort_text(s: Sort, reversed: bool) -> Seq<char> {
    match (s, reversed) {
        (Sort::Priority, false) => "priority"@,
        (Sort::Priority, true) => "priority ↓"@,
        (Sort::Updated, false) => "updated"@,
        (Sort::Updated, true) => "stalest"@,
        (Sort::Created, false) => "newest"@,
        (Sort::Created, true) => "oldest"@,
        (Sort::Name, false) => "A-Z"@,
        (Sort::Name, true) => "Z-A"@,
    }
}

impl Sort {
    pub fn next(self) -> (r: Sort)
        ensures
            r == sort_after(self),
    {
        match self {
            Sort::Priority => Sort::Updated,
            Sort::Updated => Sort::Created,
            Sort::Created => Sort::Name,
            Sort::Name => Sort::Priority,
        }
    }

    /// `reversed` flips each order's *natural* direction rather than meaning a
    /// blanket ascending/descending: newest-first is the useful default for
    /// timestamps, lowest-number-first for priority, A-Z for names.
    pub fn label(self, reversed: bool) -> (r: &'static str)
        ensures
            r@ == sort_text(self, reversed),
    {
        match (self, reversed) {
            (Sort::Priority, false) => "priority",
            (Sort::Priority, true) => "priority ↓",
            (Sort::Updated, false) => "updated",
            (Sort::Updated, true) => "stalest",
            (Sort::Created, false) => "newest",
            (Sort::Created, true) => "oldest",
            (Sort::Name, false) => "A-Z",
            (Sort::Name, true) => "Z-A",
        }
    }
}

/// Three steps forward return to the filter one started from, and a step back
/// undoes a step forward.
pub proof fn law_the_filter_cycle_closes(f: Filter)
    ensures
        filter_after(filter_after(filter_after(f))) == f,
        filter_before(filter_after(f)) == f,
        filter_after(filter_before(f)) == f,
{
}

/// Four steps return to the order one started from.
pub proof fn law_the_sort_cycle_closes(s: Sort)
    ensures
        sort_after(sort_after(sort_after(sort_after(s)))) == s,
{
}

/// Filter menus are all one width, and say which filter is on.
pub proof fn law_filter_menus_share_a_width(f: Filter, g: Filter)
    ensures
        filter_menu(f).len() == filter_menu(g).len(),
        filter_menu(f) == filter_menu(g) ==> f == g,
        filter_name(f) == filter_name(g) ==> f == g,
        occurs(filter_menu(f), filter_name(f)),
{
    reveal_strlit("[ ALL  pending  active ]");
    reveal_strlit("[ all  pending  ACTIVE ]");
    reveal_strlit("[ all  PENDING  active ]");
    reveal_strlit("ALL");
    reveal_strlit("ACTIVE");
    reveal_strlit("PENDING");
    let a = "[ ALL  pending  active ]"@;
    let b = "[ all  pending  ACTIVE ]"@;
    let c = "[ all  PENDING  active ]"@;
    assert(a[2] == 'A' && b[2] == 'a' && c[2] == 'a');
    assert(b[7] == 'p' && c[7] == 'P');
    assert(a.subrange(2, 5) =~= "ALL"@);
    assert(crate::text::stands_at(a, "ALL"@, 2));
    assert(b.subrange(16, 22) =~= "ACTIVE"@);
    assert(crate::text::stands_at(b, "ACTIVE"@, 16));
    assert(c.subrange(7, 14) =~= "PENDING"@);
    assert(crate::text::stands_at(c, "PENDING"@, 7));
}

/// No two orders, in either direction, read the same.
pub proof fn law_sort_labels_are_distinct(s: Sort, r: bool, t: Sort, q: bool)
    ensures
        sort_text(s, r) == sort_text(t, q) ==> s == t && r == q,
{
    reveal_strlit("priority");
    reveal_strlit("priority ↓");
    reveal_strlit("updated");
    reveal_strlit("stalest");
    reveal_strlit("newest");
    reveal_strlit("oldest");
    reveal_strlit("A-Z");
    reveal_strlit("Z-A");
    assert("updated"@[0] == 'u' && "stalest"@[0] == 's' && "newest"@[0] == 'n' && "oldest"@[0]
        == 'o' && "A-Z"@[0] == 'A' && "Z-A"@[0] == 'Z' && "priority"@[0] == 'p'
        && "priority ↓"@[0] == 'p');
    assert("priority"@.len() == 8 && "priority ↓"@.len() == 10);
}

// ---------------------------------------------------------------------------
// Sibling order
// ---------------------------------------------------------------------------

/// The order of optional texts: an absent one comes first.
pub open spec fn opt_lt(a: Option<Seq<char>>, b: Option<Seq<char>>) -> bool {
    match (a, b) {
        (None, Some(_)) => true,
        (Some(x), Some(y)) => text_lt(x, y),
        _ => false,
    }
}

/// The order of names, whatever their case.
pub open spec fn name_lt(a: TaskView, b: TaskView) -> bool {
    text_lt(lower(a.name), lower(b.name))
}

/// Whether one task comes before another. Name is the final tiebreak
/// everywhere, so ordering does not jitter between refreshes when the primary
/// key ties. Timestamps run newest first, with the undated last.
pub open spec fn task_lt(sort: Sort, a: TaskView, b: TaskView) -> bool {
    match sort {
        Sort::Priority => {
            ||| a.priority < b.priority
            ||| a.priority == b.priority && opt_lt(a.created_at, b.created_at)
            ||| a.priority == b.priority && a.created_at == b.created_at && name_lt(a, b)
        },
        Sort::Updated => {
            ||| opt_lt(b.updated_at, a.updated_at)
            ||| a.updated_at == b.updated_at && name_lt(a, b)
        },
        Sort::Created => {
            ||| opt_lt(b.created_at, a.created_at)
            ||| a.created_at == b.created_at && name_lt(a, b)
        },
        Sort::Name => name_lt(a, b),
    }
}

/// The order as a relation on tasks.
pub open spec fn by_sort(sort: Sort) -> spec_fn(TaskView, TaskView) -> bool {
    |a: TaskView, b: TaskView| task_lt(sort, a, b)
}

/// Siblings in the order they are shown.
pub open spec fn ordered(tasks: Seq<TaskView>, sort: Sort, reversed: bool) -> Seq<TaskView> {
    let s = sorted_by(tasks, by_sort(sort));
    if reversed {
        s.reverse()
    } else {
        s
    }
}

pub(crate) fn opt_less_text(a: &Option<String>, b: &Option<String>) -> (r: bool)
    ensures
        r == opt_lt(crate::text::opt_text(*a), crate::text::opt_text(*b)),
{
    match (a, b) {
        (None, Some(_)) => true,
        (Some(x), Some(y)) => less(x.as_str(), y.as_str()),
        _ => false,
    }
}

pub(crate) fn opt_same_text(a: &Option<String>, b: &Option<String>) -> (r: bool)
    ensures
        r == (crate::text::opt_text(*a) == crate::text::opt_text(*b)),
{
    match (a, b) {
        (None, None) => true,
        (Some(x), Some(y)) => same(x.as_str(), y.as_str()),
        _ => false,
    }
}

fn name_less(a: &Task, b: &Task) -> (r: bool)
    ensures
        r == name_lt(a@, b@),
{
    less(lowercase(a.name.as_str()).as_str(), lowercase(b.name.as_str()).as_str())
}

fn task_less(sort: Sort, a: &Task, b: &Task) -> (r: bool)
    ensures
        r == task_lt(sort, a@, b@),
{
    match sort {
        Sort::Priority => if a.priority != b.priority {
            a.priority < b.priority
        } else if opt_same_text(&a.created_at, &b.created_at) {
            proof {
                if a@.created_at is Some {
                    law_text_order_is_total(a@.created_at->0, b@.created_at->0);
                }
            }
            name_less(a, b)
        } else {
            opt_less_text(&a.created_at, &b.created_at)
        },
        Sort::Updated => opt_less_text(&b.updated_at, &a.updated_at) || (opt_same_text(
            &a.updated_at,
            &b.updated_at,
        ) && name_less(a, b)),
        Sort::Created => opt_less_text(&b.created_at, &a.created_at) || (opt_same_text(
            &a.created_at,
            &b.created_at,
        ) && name_less(a, b)),
        Sort::Name => name_less(a, b),
    }
}

/// What each borrowed task of a list says.
pub open spec fn ref_views(tasks: Seq<&Task>) -> Seq<TaskView> {
    tasks.map_values(|t: &Task| t@)
}

fn order<'a>(tasks: Vec<&'a Task>, sort: Sort, reversed: bool) -> (r: Vec<&'a Task>)
    ensures
        ref_views(r@) == ordered(ref_views(tasks@), sort, reversed),
{
    let ghost lt = |a: &Task, b: &Task| task_lt(sort, a@, b@);
    let ghost all = tasks@;
    let before = |a: &&'a Task, b: &&'a Task| -> (r: bool)
        ensures
            r == task_lt(sort, a@, b@),
        {
            task_less(sort, a, b)
        };
    let sorted = stable_sort(tasks, before, Ghost(lt));
    proof {
        lemma_sorted_map(all, lt, |t: &Task| t@, by_sort(sort));
    }
    if reversed {
        let ghost up = sorted@;
        let down = reverse(sorted);
        assert(ref_views(down@) =~= ref_views(up).reverse());
        down
    } else {
        sorted
    }
}

pub(crate) proof fn lemma_opt_order(a: Option<Seq<char>>, b: Option<Seq<char>>, c: Option<Seq<char>>)
    ensures
        !opt_lt(a, a),
        !(opt_lt(a, b) && opt_lt(b, a)),
        a != b ==> opt_lt(a, b) || opt_lt(b, a),
        opt_lt(a, b) && opt_lt(b, c) ==> opt_lt(a, c),
{
    if a is Some && b is Some {
        law_text_order_is_total(a->0, b->0);
        if c is Some && opt_lt(a, b) && opt_lt(b, c) {
            law_text_order_is_transitive(a->0, b->0, c->0);
        }
    } else if a is Some {
        law_text_order_is_total(a->0, a->0);
    }
}

proof fn lemma_name_order(a: TaskView, b: TaskView, c: TaskView)
    ensures
        !name_lt(a, a),
        !(name_lt(a, b) && name_lt(b, a)),
        name_lt(a, b) && name_lt(b, c) ==> name_lt(a, c),
        !name_lt(a, b) && !name_lt(b, c) ==> !name_lt(a, c),
{
    let (x, y, z) = (lower(a.name), lower(b.name), lower(c.name));
    law_text_order_is_total(x, y);
    law_text_order_is_total(y, z);
    law_text_order_is_total(x, z);
    if text_lt(x, y) && text_lt(y, z) {
        law_text_order_is_transitive(x, y, z);
    }
    if text_lt(z, y) && text_lt(y, x) {
        law_text_order_is_transitive(z, y, x);
    }
}

proof fn lemma_task_order(sort: Sort, a: TaskView, b: TaskView, c: TaskView)
    ensures
        !task_lt(sort, a, a),
        task_lt(sort, a, b) && task_lt(sort, b, c) ==> task_lt(sort, a, c),
        !task_lt(sort, a, b) && !task_lt(sort, b, c) ==> !task_lt(sort, a, c),
{
    lemma_name_order(a, b, c);
    lemma_opt_order(a.created_at, b.created_at, c.created_at);
    lemma_opt_order(c.created_at, b.created_at, a.created_at);
    lemma_opt_order(a.created_at, c.created_at, b.created_at);
    lemma_opt_order(b.created_at, a.created_at, c.created_at);
    lemma_opt_order(a.updated_at, b.updated_at, c.updated_at);
    lemma_opt_order(c.updated_at, b.updated_at, a.updated_at);
    lemma_opt_order(a.updated_at, c.updated_at, b.updated_at);
    lemma_opt_order(b.updated_at, a.updated_at, c.updated_at);
}

/// Every sibling order ranks any tasks consistently: nothing comes before
/// itself, and neither "before" nor "not before" is lost along a chain.
pub proof fn law_sibling_order_is_consistent(sort: Sort)
    ensures
        is_order(by_sort(sort)),
{
    let lt = by_sort(sort);
    assert forall|a: TaskView| !#[trigger] lt(a, a) by {
        lemma_task_order(sort, a, a, a);
    }
    assert forall|a: TaskView, b: TaskView, c: TaskView|
        #![trigger lt(a, b), lt(b, c)]
        lt(a, b) && lt(b, c) implies lt(a, c) by {
        lemma_task_order(sort, a, b, c);
    }
    assert forall|a: TaskView, b: TaskView, c: TaskView|
        #![trigger lt(a, b), lt(b, c)]
        !lt(a, b) && !lt(b, c) implies !lt(a, c) by {
        lemma_task_order(sort, a, b, c);
    }
}

/// Whether siblings stand in the order asked for.
pub open spec fn in_order(tasks: Seq<TaskView>, sort: Sort, reversed: bool) -> bool {
    forall|i: int, j: int|
        #![trigger tasks[i], tasks[j]]
        0 <= i < j < tasks.len() ==> if reversed {
            !task_lt(sort, tasks[i], tasks[j])
        } else {
            !task_lt(sort, tasks[j], tasks[i])
        }
}

proof fn lemma_ordered_is_in_order(tasks: Seq<TaskView>, sort: Sort, reversed: bool)
    ensures
        in_order(ordered(tasks, sort, reversed), sort, reversed),
{
    law_sibling_order_is_consistent(sort);
    law_sort_sorts(tasks, by_sort(sort));
    let s = sorted_by(tasks, by_sort(sort));
    let o = ordered(tasks, sort, reversed);
    assert forall|i: int, j: int| #![trigger o[i], o[j]] 0 <= i < j < o.len() implies if reversed {
        !task_lt(sort, o[i], o[j])
    } else {
        !task_lt(sort, o[j], o[i])
    } by {
        if reversed {
            let n = s.len();
            assert(o[i] == s[n - 1 - i] && o[j] == s[n - 1 - j]);
            assert(!by_sort(sort)(s[n - 1 - i], s[n - 1 - j]));
        } else {
            assert(!by_sort(sort)(s[j], s[i]));
        }
    }
}

proof fn lemma_ordered_contains(tasks: Seq<TaskView>, sort: Sort, reversed: bool, t: TaskView)
    ensures
        ordered(tasks, sort, reversed).contains(t) == tasks.contains(t),
        ordered(tasks, sort, reversed).len() == tasks.len(),
{
    let s = sorted_by(tasks, by_sort(sort));
    lemma_sorted_contains(tasks, by_sort(sort), t);
    crate::order::law_sort_is_a_permutation(tasks, by_sort(sort));
    if s.contains(t) {
        let i = choose|i: int| 0 <= i < s.len() && s[i] == t;
        assert(s.reverse()[s.len() - 1 - i] == t);
    }
    if s.reverse().contains(t) {
        let i = choose|i: int| 0 <= i < s.reverse().len() && s.reverse()[i] == t;
        assert(s[s.len() - 1 - i] == t);
    }
}

// ---------------------------------------------------------------------------
// Matching
// ---------------------------------------------------------------------------

/// Whether a filter lets a task through.
pub open spec fn passes(t: TaskView, filter: Filter) -> bool {
    match filter {
        Filter::All => true,
        Filter::Pending => !t.completed,
        Filter::InProgress => in_progress(t),
    }
}

/// Whether a search finds a task: in its name or description, or at the start
/// of its id, whatever the case.
pub open spec fn hits(t: TaskView, query: Seq<char>) -> bool {
    let q = lower(query);
    ||| occurs(lower(t.name), q)
    ||| t.description is Some && occurs(lower(t.description->0), q)
    ||| starts(lower(t.id), q)
}

/// Whether a task belongs in the view for its own sake.
pub open spec fn matching(t: TaskView, query: Option<Seq<char>>, filter: Filter) -> bool {
    passes(t, filter) && match query {
        None => true,
        Some(q) => hits(t, q),
    }
}

/// What a typed search asks for: nothing when it is blank.
pub open spec fn asked_for(query: Seq<char>) -> Option<Seq<char>> {
    if trimmed(query).len() == 0 {
        None
    } else {
        Some(trimmed(query))
    }
}

/// Whether a search finds a task. Names and descriptions match anywhere, ids
/// from their start.
pub fn matches_query(t: &Task, query: &str) -> (r: bool)
    ensures
        r == hits(t@, query@),
{
    let q = lowercase(query);
    if contains(lowercase(t.name.as_str()).as_str(), q.as_str()) {
        return true;
    }
    if let Some(d) = &t.description {
        if contains(lowercase(d.as_str()).as_str(), q.as_str()) {
            return true;
        }
    }
    starts_with(lowercase(t.id.as_str()).as_str(), q.as_str())
}

fn matches(t: &Task, query: Option<&str>, filter: Filter) -> (r: bool)
    ensures
        r == matching(t@, crate::text::opt_str(query), filter),
{
    let status_ok = match filter {
        Filter::All => true,
        Filter::Pending => !t.completed,
        Filter::InProgress => t.is_in_progress(),
    };
    if !status_ok {
        return false;
    }
    match query {
        None => true,
        Some(q) => matches_query(t, q),
    }
}

// ---------------------------------------------------------------------------
// Parents and children
// ---------------------------------------------------------------------------

/// Whether a task with this id is in the list.
pub open spec fn knows(tasks: Seq<TaskView>, id: Seq<char>) -> bool {
    exists|i: int| 0 <= i < tasks.len() && #[trigger] tasks[i].id == id
}

/// The tasks filed under `id`.
pub open spec fn child_of(id: Seq<char>) -> spec_fn(TaskView) -> bool {
    |t: TaskView| t.parent_id == Some(id)
}

/// The tasks filed under `id`, as they come in the list.
pub open spec fn kids(tasks: Seq<TaskView>, id: Seq<char>) -> Seq<TaskView> {
    tasks.filter(child_of(id))
}

/// A task filed under nothing that is in the list.
pub open spec fn rootless(tasks: Seq<TaskView>) -> spec_fn(TaskView) -> bool {
    |t: TaskView| !(t.parent_id is Some && knows(tasks, t.parent_id->0))
}

/// The tasks at the top. One whose parent is missing from the list becomes a
/// root rather than vanishing from the view.
pub open spec fn root_tasks(tasks: Seq<TaskView>) -> Seq<TaskView> {
    tasks.filter(rootless(tasks))
}

/// Whether positions `g` are, in order, those of the first `n` tasks that are
/// filed under `id`.
spec fn lists(tasks: Seq<TaskView>, n: int, id: Seq<char>, g: Seq<usize>) -> bool {
    &&& forall|j: int| 0 <= j < g.len() ==> #[trigger] g[j] < n
    &&& g.map_values(|i: usize| tasks[i as int]) == kids(tasks.take(n), id)
}

/// Where the children of each task are in the list.
struct ChildIndex {
    slots: StringHashMap<usize>,
    groups: Vec<Vec<usize>>,
}

impl ChildIndex {
    spec fn covers(self, tasks: Seq<TaskView>, n: int) -> bool {
        &&& forall|id: Seq<char>| #[trigger]
            self.slots@.contains_key(id) ==> self.slots@[id] < self.groups@.len() && lists(
                tasks,
                n,
                id,
                self.groups@[self.slots@[id] as int]@,
            )
        &&& forall|id: Seq<char>|
            !(#[trigger] self.slots@.contains_key(id)) ==> kids(tasks.take(n), id).len() == 0
        &&& forall|a: Seq<char>, b: Seq<char>|
            #![trigger self.slots@.contains_key(a), self.slots@.contains_key(b)]
            self.slots@.contains_key(a) && self.slots@.contains_key(b) && self.slots@[a]
                == self.slots@[b] ==> a == b
    }
}

pub proof fn lemma_kids_step(tasks: Seq<TaskView>, n: int, id: Seq<char>)
    requires
        0 <= n < tasks.len(),
    ensures
        kids(tasks.take(n + 1), id) == if tasks[n].parent_id == Some(id) {
            kids(tasks.take(n), id).push(tasks[n])
        } else {
            kids(tasks.take(n), id)
        },
{
    reveal(Seq::filter);
    assert(tasks.take(n + 1).drop_last() =~= tasks.take(n));
}

proof fn lemma_lists_step(tasks: Seq<TaskView>, n: int, id: Seq<char>, g: Seq<usize>)
    requires
        0 <= n < tasks.len() <= usize::MAX,
        lists(tasks, n, id, g),
    ensures
        tasks[n].parent_id == Some(id) ==> lists(tasks, n + 1, id, g.push(n as usize)),
        tasks[n].parent_id != Some(id) ==> lists(tasks, n + 1, id, g),
{
    lemma_kids_step(tasks, n, id);
    let f = |i: usize| tasks[i as int];
    assert(g.push(n as usize).map_values(f) =~= g.map_values(f).push(tasks[n]));
}

fn child_index(tasks: &Vec<Task>) -> (r: ChildIndex)
    ensures
        r.covers(task_views(tasks@), tasks@.len() as int),
{
    let mut index = ChildIndex { slots: StringHashMap::new(), groups: Vec::new() };
    let ghost all = task_views(tasks@);
    proof {
        reveal(Seq::filter);
    }
    for i in 0..tasks.len()
        invariant
            all == task_views(tasks@),
            index.covers(all, i as int),
    {
        assert(all.len() == tasks.len());
        let ghost before = index;
        proof {
            assert forall|id: Seq<char>| #[trigger] before.slots@.contains_key(id) implies (all[
                i as int
            ].parent_id == Some(id) ==> lists(
                all,
                i + 1,
                id,
                before.groups@[before.slots@[id] as int]@.push(i),
            )) && (all[i as int].parent_id != Some(id) ==> lists(
                all,
                i + 1,
                id,
                before.groups@[before.slots@[id] as int]@,
            )) by {
                lemma_lists_step(all, i as int, id, before.groups@[before.slots@[id] as int]@);
            }
            assert forall|id: Seq<char>| !(#[trigger] before.slots@.contains_key(id)) implies kids(
                all.take(i + 1),
                id,
            ).len() == (if all[i as int].parent_id == Some(id) {
                1int
            } else {
                0
            }) by {
                lemma_kids_step(all, i as int, id);
            }
        }
        if let Some(p) = &tasks[i].parent_id {
            let slot: Option<usize> = match index.slots.get(p.as_str()) {
                Some(s) => Some(*s),
                None => None,
            };
            match slot {
                Some(s) => {
                    index.groups[s].push(i);
                    proof {
                        assert(index.groups@ =~= before.groups@.update(
                            s as int,
                            index.groups@[s as int],
                        ));
                        assert(index.groups@[s as int]@ == before.groups@[s as int]@.push(i));
                    }
                },
                None => {
                    let n: usize = index.groups.len();
                    let mut fresh: Vec<usize> = Vec::new();
                    fresh.push(i);
                    proof {
                        lemma_kids_step(all, i as int, p@);
                        let f = |k: usize| all[k as int];
                        assert(kids(all.take(i as int), p@) =~= Seq::empty());
                        assert(fresh@.map_values(f) =~= kids(all.take(i + 1), p@));
                        assert(lists(all, i + 1, p@, fresh@));
                    }
                    index.groups.push(fresh);
                    index.slots.insert(p.clone(), n);
                },
            }
        }
        assert(index.covers(all, i + 1));
    }
    index
}

fn kids_of<'a>(tasks: &'a Vec<Task>, index: &ChildIndex, id: &str) -> (r: Vec<&'a Task>)
    requires
        index.covers(task_views(tasks@), tasks@.len() as int),
    ensures
        ref_views(r@) == kids(task_views(tasks@), id@),
{
    let ghost all = task_views(tasks@);
    assert(all.take(tasks@.len() as int) =~= all);
    let mut out: Vec<&'a Task> = Vec::new();
    match index.slots.get(id) {
        Some(slot) => {
            let group: &Vec<usize> = &index.groups[*slot];
            let ghost f = |i: usize| all[i as int];
            for j in 0..group.len()
                invariant
                    all == task_views(tasks@),
                    lists(all, tasks@.len() as int, id@, group@),
                    f == (|i: usize| all[i as int]),
                    ref_views(out@) == group@.take(j as int).map_values(f),
            {
                let k: usize = group[j];
                proof {
                    assert(group@[j as int] < tasks@.len());
                    assert(ref_views(out@.push(&tasks@[k as int])) =~= ref_views(out@).push(
                        all[k as int],
                    ));
                    assert(group@.take(j + 1).map_values(f) =~= group@.take(j as int).map_values(
                        f,
                    ).push(all[k as int]));
                }
                out.push(&tasks[k]);
            }
            assert(group@.take(group@.len() as int) =~= group@);
        },
        None => {
            assert(ref_views(out@) =~= Seq::empty());
        },
    }
    out
}

// ---------------------------------------------------------------------------
// The forest
// ---------------------------------------------------------------------------

#[derive(Debug)]
pub struct Node {
    pub task: Task,
    pub children: Vec<Node>,
    /// False when this node survived filtering only because a descendant matched,
    /// so the UI can dim pure scaffolding.
    pub is_match: bool,
}

/// What a node and everything below it say.
pub ghost struct NodeView {
    pub task: TaskView,
    pub children: Seq<NodeView>,
    pub is_match: bool,
}

pub open spec fn node_view(n: Node) -> NodeView
    decreases n,
{
    NodeView {
        task: n.task@,
        children: Seq::new(
            n.children@.len(),
            |i: int|
                if 0 <= i < n.children@.len() {
                    node_view(n.children@[i])
                } else {
                    arbitrary()
                },
        ),
        is_match: n.is_match,
    }
}

/// What each node of a forest says.
pub open spec fn node_views(nodes: Seq<Node>) -> Seq<NodeView> {
    nodes.map_values(|n: Node| node_view(n))
}

impl View for Node {
    type V = NodeView;

    open spec fn view(&self) -> NodeView {
        node_view(*self)
    }
}

proof fn lemma_children_view(n: Node)
    ensures
        n@.children == node_views(n.children@),
{
    assert(n@.children =~= node_views(n.children@));
}

impl Clone for Node {
    fn clone(&self) -> (r: Self)
        ensures
            r@ == self@,
        decreases *self,
    {
        let mut children: Vec<Node> = Vec::new();
        for i in 0..self.children.len()
            invariant
                node_views(children@) == node_views(self.children@).take(i as int),
            decreases self.children.len() - i,
        {
            let ghost before = children@;
            let c = self.children[i].clone();
            proof {
                let all = node_views(self.children@);
                assert(node_views(before.push(c)) =~= node_views(before).push(c@));
                assert(all.take(i + 1) =~= all.take(i as int).push(all[i as int]));
            }
            children.push(c);
        }
        let r = Node { task: self.task.clone(), children, is_match: self.is_match };
        proof {
            let all = node_views(self.children@);
            assert(all.take(all.len() as int) =~= all);
            lemma_children_view(*self);
            lemma_children_view(r);
        }
        r
    }
}

impl Node {
    pub fn id(&self) -> (r: &str)
        ensures
            r@ == self@.task.id,
    {
        self.task.id.as_str()
    }
}

/// What a forest is built for: the search, the filter and the order.
pub ghost struct Lens {
    pub query: Option<Seq<char>>,
    pub filter: Filter,
    pub sort: Sort,
    pub reversed: bool,
}

/// The ids a list holds.
pub open spec fn ids(tasks: Seq<TaskView>) -> Set<Seq<char>> {
    tasks.map_values(|t: TaskView| t.id).to_set()
}

/// How many ids are not yet on the path from the root.
pub open spec fn unvisited(tasks: Seq<TaskView>, visiting: Set<Seq<char>>) -> nat {
    ids(tasks).difference(visiting).len()
}

pub proof fn lemma_visiting_one_more(tasks: Seq<TaskView>, visiting: Set<Seq<char>>, id: Seq<char>)
    requires
        ids(tasks).contains(id),
        !visiting.contains(id),
    ensures
        unvisited(tasks, visiting.insert(id)) < unvisited(tasks, visiting),
{
    tasks.map_values(|t: TaskView| t.id).lemma_cardinality_of_set();
    let left = ids(tasks).difference(visiting);
    assert(ids(tasks).difference(visiting.insert(id)) =~= left.remove(id));
}

/// The node for a task, with what is below it, or nothing when neither it nor
/// anything below it belongs in the view. A task already on the path from the
/// root is not entered again: parent links that form a cycle end there.
pub open spec fn node_of(
    tasks: Seq<TaskView>,
    task: TaskView,
    lens: Lens,
    visiting: Set<Seq<char>>,
) -> Option<NodeView>
    decreases unvisited(tasks, visiting), 0nat,
{
    if visiting.contains(task.id) || !ids(tasks).contains(task.id) {
        None
    } else {
        proof {
            lemma_visiting_one_more(tasks, visiting, task.id);
        }
        let children = nodes_of(
            tasks,
            ordered(kids(tasks, task.id), lens.sort, lens.reversed),
            lens,
            visiting.insert(task.id),
        );
        let is_match = matching(task, lens.query, lens.filter);
        if !is_match && children.len() == 0 {
            None
        } else {
            Some(NodeView { task, children, is_match })
        }
    }
}

/// The nodes for a list of siblings, leaving out those with nothing to show.
pub open spec fn nodes_of(
    tasks: Seq<TaskView>,
    siblings: Seq<TaskView>,
    lens: Lens,
    visiting: Set<Seq<char>>,
) -> Seq<NodeView>
    decreases unvisited(tasks, visiting), siblings.len() + 1,
{
    if siblings.len() == 0 {
        Seq::empty()
    } else {
        let front = nodes_of(tasks, siblings.drop_last(), lens, visiting);
        match node_of(tasks, siblings.last(), lens, visiting) {
            Some(n) => front.push(n),
            None => front,
        }
    }
}

/// The visible forest.
#[verifier::opaque]
pub open spec fn forest(tasks: Seq<TaskView>, lens: Lens) -> Seq<NodeView> {
    nodes_of(
        tasks,
        ordered(root_tasks(tasks), lens.sort, lens.reversed),
        lens,
        Set::empty(),
    )
}

fn build_node(
    tasks: &Vec<Task>,
    index: &ChildIndex,
    task: &Task,
    query: Option<&str>,
    filter: Filter,
    sort: Sort,
    reversed: bool,
    visiting: &mut StringHashSet,
) -> (r: Option<Node>)
    requires
        index.covers(task_views(tasks@), tasks@.len() as int),
        ids(task_views(tasks@)).contains(task@.id),
    ensures
        final(visiting)@ == old(visiting)@,
        opt_node(r) == node_of(
            task_views(tasks@),
            task@,
            (Lens { query: crate::text::opt_str(query), filter, sort, reversed }),
            old(visiting)@,
        ),
    decreases unvisited(task_views(tasks@), old(visiting)@), 0nat,
{
    let ghost all = task_views(tasks@);
    let ghost path = visiting@;
    // Guards against a malformed store where parent links form a cycle.
    if visiting.contains(task.id.as_str()) {
        return None;
    }
    visiting.insert(task.id.clone());
    proof {
        lemma_visiting_one_more(all, path, task@.id);
    }
    let below = order(kids_of(tasks, index, task.id.as_str()), sort, reversed);
    proof {
        assert forall|i: int| 0 <= i < below@.len() implies #[trigger] ids(all).contains(
            below@[i]@.id,
        ) by {
            lemma_ordered_kids_are_known(all, task@.id, sort, reversed, i);
        }
    }
    let children = build_nodes(tasks, index, &below, query, filter, sort, reversed, visiting);
    visiting.remove(task.id.as_str());
    assert(visiting@ =~= path);

    let is_match = matches(task, query, filter);
    if !is_match && children.len() == 0 {
        return None;
    }
    let n = Node { task: task.clone(), children, is_match };
    proof {
        lemma_children_view(n);
    }
    Some(n)
}

fn build_nodes(
    tasks: &Vec<Task>,
    index: &ChildIndex,
    siblings: &Vec<&Task>,
    query: Option<&str>,
    filter: Filter,
    sort: Sort,
    reversed: bool,
    visiting: &mut StringHashSet,
) -> (r: Vec<Node>)
    requires
        index.covers(task_views(tasks@), tasks@.len() as int),
        forall|i: int|
            0 <= i < siblings@.len() ==> #[trigger] ids(task_views(tasks@)).contains(
                siblings@[i]@.id,
            ),
    ensures
        final(visiting)@ == old(visiting)@,
        node_views(r@) == nodes_of(
            task_views(tasks@),
            ref_views(siblings@),
            (Lens { query: crate::text::opt_str(query), filter, sort, reversed }),
            old(visiting)@,
        ),
    decreases unvisited(task_views(tasks@), old(visiting)@), siblings@.len() + 1,
{
    let ghost all = task_views(tasks@);
    let ghost lens = Lens { query: crate::text::opt_str(query), filter, sort, reversed };
    let ghost path = visiting@;
    let ghost listed = ref_views(siblings@);
    let mut out: Vec<Node> = Vec::new();
    assert(node_views(out@) =~= Seq::empty());
    for i in 0..siblings.len()
        invariant
            all == task_views(tasks@),
            lens == (Lens { query: crate::text::opt_str(query), filter, sort, reversed }),
            listed == ref_views(siblings@),
            index.covers(all, tasks@.len() as int),
            visiting@ == path,
            path == old(visiting)@,
            forall|j: int|
                0 <= j < siblings@.len() ==> #[trigger] ids(all).contains(siblings@[j]@.id),
            node_views(out@) == nodes_of(all, listed.take(i as int), lens, path),
        decreases siblings.len() - i,
    {
        proof {
            assert(listed.take(i + 1).drop_last() =~= listed.take(i as int));
            assert(listed.take(i + 1).last() == siblings@[i as int]@);
            assert(ids(all).contains(siblings@[i as int]@.id));
        }
        let ghost before = out@;
        if let Some(n) = build_node(
            tasks,
            index,
            siblings[i],
            query,
            filter,
            sort,
            reversed,
            visiting,
        ) {
            assert(node_views(before.push(n)) =~= node_views(before).push(n@));
            out.push(n);
        }
    }
    assert(listed.take(listed.len() as int) =~= listed);
    out
}

/// What an optional node says.
pub open spec fn opt_node(n: Option<Node>) -> Option<NodeView> {
    match n {
        Some(n) => Some(n@),
        None => None,
    }
}

pub(crate) proof fn lemma_filtered_member(tasks: Seq<TaskView>, f: spec_fn(TaskView) -> bool, t: TaskView)
    ensures
        tasks.filter(f).contains(t) <==> tasks.contains(t) && f(t),
    decreases tasks.len(),
{
    reveal(Seq::filter);
    if tasks.len() > 0 {
        let front = tasks.drop_last();
        lemma_filtered_member(front, f, t);
        let ff = front.filter(f);
        if tasks.contains(t) && f(t) {
            let i = choose|i: int| 0 <= i < tasks.len() && tasks[i] == t;
            if i < front.len() {
                assert(front[i] == t);
                let j = choose|j: int| 0 <= j < ff.len() && ff[j] == t;
                assert(tasks.filter(f)[j] == t);
            } else {
                assert(tasks.filter(f)[ff.len() as int] == t);
            }
        }
        if tasks.filter(f).contains(t) {
            let j = choose|j: int| 0 <= j < tasks.filter(f).len() && tasks.filter(f)[j] == t;
            if j < ff.len() {
                assert(ff[j] == t);
                let i = choose|i: int| 0 <= i < front.len() && front[i] == t;
                assert(tasks[i] == t);
            } else {
                assert(tasks[tasks.len() - 1] == t);
            }
        }
    }
}

proof fn lemma_listed_id(tasks: Seq<TaskView>, t: TaskView)
    requires
        tasks.contains(t),
    ensures
        ids(tasks).contains(t.id),
{
    let i = choose|i: int| 0 <= i < tasks.len() && tasks[i] == t;
    assert(tasks.map_values(|t: TaskView| t.id)[i] == t.id);
}

proof fn lemma_ordered_member(
    tasks: Seq<TaskView>,
    f: spec_fn(TaskView) -> bool,
    sort: Sort,
    reversed: bool,
    i: int,
)
    requires
        0 <= i < ordered(tasks.filter(f), sort, reversed).len(),
    ensures
        tasks.contains(ordered(tasks.filter(f), sort, reversed)[i]),
        f(ordered(tasks.filter(f), sort, reversed)[i]),
        ids(tasks).contains(ordered(tasks.filter(f), sort, reversed)[i].id),
{
    let t = ordered(tasks.filter(f), sort, reversed)[i];
    lemma_ordered_contains(tasks.filter(f), sort, reversed, t);
    lemma_filtered_member(tasks, f, t);
    lemma_listed_id(tasks, t);
}

proof fn lemma_ordered_kids_are_known(
    tasks: Seq<TaskView>,
    id: Seq<char>,
    sort: Sort,
    reversed: bool,
    i: int,
)
    requires
        0 <= i < ordered(kids(tasks, id), sort, reversed).len(),
    ensures
        ids(tasks).contains(ordered(kids(tasks, id), sort, reversed)[i].id),
{
    lemma_ordered_member(tasks, child_of(id), sort, reversed, i);
}

pub(crate) fn roots_of<'a>(tasks: &'a Vec<Task>) -> (r: Vec<&'a Task>)
    ensures
        ref_views(r@) == root_tasks(task_views(tasks@)),
{
    let ghost all = task_views(tasks@);
    let known = id_set(tasks);
    let mut out: Vec<&'a Task> = Vec::new();
    proof {
        reveal(Seq::filter);
        assert(ref_views(out@) =~= Seq::empty());
    }
    for i in 0..tasks.len()
        invariant
            all == task_views(tasks@),
            forall|id: Seq<char>| #[trigger] known@.contains(id) <==> knows(all, id),
            ref_views(out@) == all.take(i as int).filter(rootless(all)),
    {
        proof {
            reveal(Seq::filter);
            assert(all.take(i + 1).drop_last() =~= all.take(i as int));
            assert(ref_views(out@.push(&tasks@[i as int])) =~= ref_views(out@).push(all[i as int]));
        }
        let filed = match &tasks[i].parent_id {
            Some(p) => known.contains(p.as_str()),
            None => false,
        };
        if !filed {
            out.push(&tasks[i]);
        }
    }
    assert(all.take(all.len() as int) =~= all);
    out
}

/// A set of ids.
pub type IdSet = StringHashSet;

/// The ids a list holds.
pub fn id_set(tasks: &Vec<Task>) -> (r: IdSet)
    ensures
        forall|id: Seq<char>| #[trigger] r@.contains(id) <==> knows(task_views(tasks@), id),
{
    let ghost all = task_views(tasks@);
    let mut out: IdSet = StringHashSet::new();
    for i in 0..tasks.len()
        invariant
            all == task_views(tasks@),
            forall|id: Seq<char>| #[trigger] out@.contains(id) <==> knows(all.take(i as int), id),
    {
        out.insert(tasks[i].id.clone());
        proof {
            assert forall|id: Seq<char>| #[trigger] out@.contains(id) <==> knows(
                all.take(i + 1),
                id,
            ) by {
                let (a, b) = (all.take(i as int), all.take(i + 1));
                if knows(a, id) {
                    let k = choose|k: int| 0 <= k < a.len() && #[trigger] a[k].id == id;
                    assert(b[k].id == id);
                }
                if knows(b, id) {
                    let k = choose|k: int| 0 <= k < b.len() && #[trigger] b[k].id == id;
                    if k < i {
                        assert(a[k].id == id);
                    }
                }
                if all[i as int].id == id {
                    assert(b[i as int].id == id);
                }
            }
        }
    }
    assert(all.take(all.len() as int) =~= all);
    out
}

/// Builds the visible forest.
///
/// dex returns tasks sorted by id, which is meaningless to a reader, so siblings
/// are ordered by priority, then creation time, then name. Any task whose
/// descendant matches is kept, so a match is never orphaned from its path.
pub fn build(tasks: &Vec<Task>, query: &str, filter: Filter, sort: Sort, reversed: bool) -> (r: Vec<
    Node,
>)
    ensures
        node_views(r@) == forest(
            task_views(tasks@),
            (Lens { query: asked_for(query@), filter, sort, reversed }),
        ),
{
    proof {
        reveal(forest);
    }
    let ghost all = task_views(tasks@);
    let index = child_index(tasks);
    let roots = order(roots_of(tasks), sort, reversed);
    let trimmed = trim(query);
    let asked: Option<&str> = if trimmed.unicode_len() == 0 {
        None
    } else {
        Some(trimmed)
    };
    proof {
        assert forall|i: int| 0 <= i < roots@.len() implies #[trigger] ids(all).contains(
            roots@[i]@.id,
        ) by {
            lemma_ordered_member(all, rootless(all), sort, reversed, i);
            assert(ref_views(roots@)[i] == roots@[i]@);
        }
    }
    let mut visiting: StringHashSet = StringHashSet::new();
    build_nodes(tasks, &index, &roots, asked, filter, sort, reversed, &mut visiting)
}

// ---------------------------------------------------------------------------
// Progress
// ---------------------------------------------------------------------------

/// Completed vs total descendants of a task.
#[derive(Debug, Clone, Copy, PartialEq, Eq, Structural)]
pub struct Progress {
    pub done: usize,
    /// Started but not finished. Tracked separately so a parent whose children
    /// are all underway does not read as a completely empty bar.
    pub active: usize,
    pub total: usize,
}

impl Default for Progress {
    fn default() -> (r: Self)
        ensures
            r == (Progress { done: 0, active: 0, total: 0 }),
    {
        Progress { done: 0, active: 0, total: 0 }
    }
}

/// How many tasks of a list are such.
pub open spec fn count_if(tasks: Seq<TaskView>, f: spec_fn(TaskView) -> bool) -> nat
    decreases tasks.len(),
{
    if tasks.len() == 0 {
        0
    } else {
        count_if(tasks.drop_last(), f) + if f(tasks.last()) {
            1nat
        } else {
            0
        }
    }
}

/// Whether `to` is `n` steps down from `from`, from parent to child.
pub open spec fn steps_down(tasks: Seq<TaskView>, from: Seq<char>, to: Seq<char>, n: nat) -> bool
    decreases n,
{
    if n == 0 {
        to == from
    } else {
        exists|k: int|
            0 <= k < tasks.len() && (#[trigger] tasks[k]).id == to && tasks[k].parent_id is Some
                && steps_down(tasks, from, tasks[k].parent_id->0, (n - 1) as nat)
    }
}

/// Whether `to` is `from` or somewhere below it.
pub open spec fn reaches(tasks: Seq<TaskView>, from: Seq<char>, to: Seq<char>) -> bool {
    exists|n: nat| steps_down(tasks, from, to, n)
}

/// Whether a task is filed somewhere below `id`.
pub open spec fn below(tasks: Seq<TaskView>, id: Seq<char>, t: TaskView) -> bool {
    t.parent_id is Some && reaches(tasks, id, t.parent_id->0)
}

/// How many tasks are below `id`.
pub open spec fn total_below(tasks: Seq<TaskView>, id: Seq<char>) -> nat {
    count_if(tasks, |t: TaskView| below(tasks, id, t))
}

/// How many tasks below `id` are completed.
pub open spec fn done_below(tasks: Seq<TaskView>, id: Seq<char>) -> nat {
    count_if(tasks, |t: TaskView| below(tasks, id, t) && t.completed)
}

/// How many tasks below `id` are started and not completed.
pub open spec fn active_below(tasks: Seq<TaskView>, id: Seq<char>) -> nat {
    count_if(tasks, |t: TaskView| below(tasks, id, t) && in_progress(t))
}

/// Whether a rollup says how far along everything below `id` is.
pub open spec fn tallies(tasks: Seq<TaskView>, id: Seq<char>, p: Progress) -> bool {
    &&& p.total == total_below(tasks, id)
    &&& p.done == done_below(tasks, id)
    &&& p.active == active_below(tasks, id)
}

/// Rollups by id.
pub type ProgressMap = StringHashMap<Progress>;

/// Whether rollups are those of a list: one for every task with anything below
/// it, and no other.
#[verifier::opaque]
pub open spec fn rollups(tasks: Seq<TaskView>, m: Map<Seq<char>, Progress>) -> bool {
    &&& forall|id: Seq<char>| #[trigger]
        m.contains_key(id) <==> knows(tasks, id) && total_below(tasks, id) > 0
    &&& forall|id: Seq<char>| #[trigger] m.contains_key(id) ==> tallies(tasks, id, m[id])
}

proof fn lemma_count_bound(tasks: Seq<TaskView>, f: spec_fn(TaskView) -> bool)
    ensures
        count_if(tasks, f) <= tasks.len(),
    decreases tasks.len(),
{
    if tasks.len() > 0 {
        lemma_count_bound(tasks.drop_last(), f);
    }
}

proof fn lemma_count_same(
    tasks: Seq<TaskView>,
    f: spec_fn(TaskView) -> bool,
    g: spec_fn(TaskView) -> bool,
)
    requires
        forall|i: int| 0 <= i < tasks.len() ==> f(#[trigger] tasks[i]) == g(tasks[i]),
    ensures
        count_if(tasks, f) == count_if(tasks, g),
    decreases tasks.len(),
{
    if tasks.len() > 0 {
        let front = tasks.drop_last();
        assert forall|i: int| 0 <= i < front.len() implies f(#[trigger] front[i]) == g(front[i]) by {
            assert(front[i] == tasks[i]);
        }
        lemma_count_same(front, f, g);
        assert(f(tasks[tasks.len() - 1]) == g(tasks[tasks.len() - 1]));
    }
}

pub proof fn lemma_count_implied(
    tasks: Seq<TaskView>,
    f: spec_fn(TaskView) -> bool,
    g: spec_fn(TaskView) -> bool,
)
    requires
        forall|t: TaskView| #[trigger] f(t) ==> g(t),
    ensures
        count_if(tasks, f) <= count_if(tasks, g),
    decreases tasks.len(),
{
    if tasks.len() > 0 {
        lemma_count_implied(tasks.drop_last(), f, g);
        if f(tasks.last()) {
            assert(g(tasks.last()));
        }
    }
}

pub proof fn lemma_count_apart(
    tasks: Seq<TaskView>,
    f: spec_fn(TaskView) -> bool,
    g: spec_fn(TaskView) -> bool,
)
    requires
        forall|t: TaskView| !(#[trigger] f(t) && g(t)),
    ensures
        count_if(tasks, f) + count_if(tasks, g) == count_if(tasks, |t: TaskView| f(t) || g(t)),
    decreases tasks.len(),
{
    if tasks.len() > 0 {
        lemma_count_apart(tasks.drop_last(), f, g);
        if f(tasks.last()) {
            assert(!g(tasks.last()));
        }
    }
}

proof fn lemma_count_filtered(
    tasks: Seq<TaskView>,
    f: spec_fn(TaskView) -> bool,
    g: spec_fn(TaskView) -> bool,
)
    ensures
        count_if(tasks.filter(f), g) == count_if(tasks, |t: TaskView| f(t) && g(t)),
    decreases tasks.len(),
{
    reveal(Seq::filter);
    if tasks.len() > 0 {
        let front = tasks.drop_last();
        lemma_count_filtered(front, f, g);
        if f(tasks.last()) {
            assert(front.filter(f).push(tasks.last()).drop_last() =~= front.filter(f));
        }
    }
}

/// A task filed under one of the ids, of a kind.
spec fn under_any(parents: Set<Seq<char>>, kind: spec_fn(TaskView) -> bool) -> spec_fn(
    TaskView,
) -> bool {
    |t: TaskView| t.parent_id is Some && parents.contains(t.parent_id->0) && kind(t)
}

spec fn anything() -> spec_fn(TaskView) -> bool {
    |t: TaskView| true
}

spec fn finished() -> spec_fn(TaskView) -> bool {
    |t: TaskView| t.completed
}

spec fn underway() -> spec_fn(TaskView) -> bool {
    |t: TaskView| in_progress(t)
}

proof fn lemma_count_one_more_parent(
    tasks: Seq<TaskView>,
    parents: Set<Seq<char>>,
    id: Seq<char>,
    kind: spec_fn(TaskView) -> bool,
)
    requires
        !parents.contains(id),
    ensures
        count_if(tasks, under_any(parents.insert(id), kind)) == count_if(
            tasks,
            under_any(parents, kind),
        ) + count_if(kids(tasks, id), kind),
{
    lemma_count_filtered(tasks, child_of(id), kind);
    let f = under_any(parents, kind);
    let c = child_of(id);
    let g = |t: TaskView| c(t) && kind(t);
    lemma_count_apart(tasks, f, g);
    lemma_count_same(tasks, |t: TaskView| f(t) || g(t), under_any(parents.insert(id), kind));
}

/// The first `n` ids of a list.
spec fn first_ids(v: Seq<String>, n: int) -> Set<Seq<char>> {
    texts(v).take(n).to_set()
}

proof fn lemma_first_ids(v: Seq<String>, n: int)
    requires
        0 <= n < v.len(),
        texts(v).no_duplicates(),
    ensures
        first_ids(v, n + 1) == first_ids(v, n).insert(v[n]@),
        !first_ids(v, n).contains(v[n]@),
{
    let t = texts(v);
    assert(t.take(n + 1) =~= t.take(n).push(t[n]));
    assert(first_ids(v, n + 1) =~= first_ids(v, n).insert(v[n]@)) by {
        assert forall|x: Seq<char>| first_ids(v, n + 1).contains(x) <==> first_ids(v, n).insert(
            v[n]@,
        ).contains(x) by {
            if first_ids(v, n).contains(x) {
                let k = choose|k: int| 0 <= k < n && t.take(n)[k] == x;
                assert(t.take(n + 1)[k] == x);
            }
            if x == v[n]@ {
                assert(t.take(n + 1)[n] == x);
            }
            if first_ids(v, n + 1).contains(x) {
                let longer = t.take(n + 1);
                let k = choose|k: int| 0 <= k < longer.len() && longer[k] == x;
                if k < n {
                    assert(t.take(n)[k] == x);
                }
            }
        }
    }
    if first_ids(v, n).contains(v[n]@) {
        let k = choose|k: int| 0 <= k < n && t.take(n)[k] == v[n]@;
        assert(t[k] == t[n]);
    }
}

/// A set that holds `from`, is closed under children and holds only what
/// `from` reaches is all that `from` reaches.
proof fn lemma_closed_set_is_reach(
    tasks: Seq<TaskView>,
    from: Seq<char>,
    found: Set<Seq<char>>,
    to: Seq<char>,
    n: nat,
)
    requires
        found.contains(from),
        forall|k: int|
            #![trigger tasks[k]]
            0 <= k < tasks.len() && tasks[k].parent_id is Some && found.contains(
                tasks[k].parent_id->0,
            ) ==> found.contains(tasks[k].id),
        steps_down(tasks, from, to, n),
    ensures
        found.contains(to),
    decreases n,
{
    if n > 0 {
        let k = choose|k: int|
            0 <= k < tasks.len() && (#[trigger] tasks[k]).id == to && tasks[k].parent_id is Some
                && steps_down(tasks, from, tasks[k].parent_id->0, (n - 1) as nat);
        lemma_closed_set_is_reach(tasks, from, found, tasks[k].parent_id->0, (n - 1) as nat);
    }
}

proof fn lemma_distinct_ids_are_few(v: Seq<Seq<char>>, tasks: Seq<TaskView>, id: Seq<char>)
    requires
        v.no_duplicates(),
        forall|i: int| 0 <= i < v.len() ==> #[trigger] v[i] == id || knows(tasks, v[i]),
    ensures
        v.len() <= tasks.len() + 1,
{
    let names = tasks.map_values(|t: TaskView| t.id);
    names.lemma_cardinality_of_set();
    v.unique_seq_to_set();
    let all = ids(tasks).insert(id);
    assert(v.to_set().subset_of(all)) by {
        assert forall|x: Seq<char>| v.to_set().contains(x) implies all.contains(x) by {
            let i = choose|i: int| 0 <= i < v.len() && v[i] == x;
            if v[i] != id {
                let k = choose|k: int| 0 <= k < tasks.len() && #[trigger] tasks[k].id == v[i];
                assert(names[k] == x);
            }
        }
    }
    vstd::set_lib::lemma_len_subset(v.to_set(), all);
}

/// How far along everything below `id` is.
fn accumulate(tasks: &Vec<Task>, index: &ChildIndex, id: &str) -> (r: Progress)
    requires
        index.covers(task_views(tasks@), tasks@.len() as int),
    ensures
        tallies(task_views(tasks@), id@, r),
{
    let ghost all = task_views(tasks@);
    let mut queue: Vec<String> = Vec::new();
    let mut seen: StringHashSet = StringHashSet::new();
    queue.push(id.to_owned());
    seen.insert(id.to_owned());
    let mut p = Progress { done: 0, active: 0, total: 0 };
    let mut i: usize = 0;
    proof {
        assert(texts(queue@) =~= seq![id@]);
        assert(first_ids(queue@, 0) =~= Set::empty());
        assert(texts(queue@)[0] == id@);
        assert(seen@ =~= texts(queue@).to_set());
        assert(steps_down(all, id@, id@, 0));
        lemma_count_none(all, under_any(Set::empty(), anything()));
        lemma_count_none(all, under_any(Set::empty(), finished()));
        lemma_count_none(all, under_any(Set::empty(), underway()));
        assert(first_ids(queue@, 0) == Set::<Seq<char>>::empty());
    }
    // A store whose parent links form a cycle ends where it comes round: an id
    // is queued once.
    while i < queue.len()
        invariant
            all == task_views(tasks@),
            index.covers(all, tasks@.len() as int),
            i <= queue.len(),
            queue@.len() >= 1,
            queue@[0]@ == id@,
            texts(queue@).no_duplicates(),
            seen@ == texts(queue@).to_set(),
            forall|k: int| 0 <= k < queue@.len() ==> reaches(all, id@, #[trigger] texts(queue@)[k]),
            forall|k: int|
                0 <= k < queue@.len() ==> #[trigger] texts(queue@)[k] == id@ || knows(
                    all,
                    texts(queue@)[k],
                ),
            forall|k: int|
                #![trigger all[k]]
                0 <= k < all.len() && all[k].parent_id is Some && first_ids(
                    queue@,
                    i as int,
                ).contains(all[k].parent_id->0) ==> seen@.contains(all[k].id),
            p.total == count_if(all, under_any(first_ids(queue@, i as int), anything())),
            p.done == count_if(all, under_any(first_ids(queue@, i as int), finished())),
            p.active == count_if(all, under_any(first_ids(queue@, i as int), underway())),
        decreases all.len() + 1 - i,
    {
        let here = queue[i].clone();
        let ghost parents = first_ids(queue@, i as int);
        let ghost begun = queue@;
        let ghost q = p;
        let kids_here = kids_of(tasks, index, here.as_str());
        let ghost below_here = kids(all, here@);
        proof {
            assert(texts(queue@)[i as int] == here@);
            lemma_distinct_ids_are_few(texts(queue@), all, id@);
            lemma_first_ids(queue@, i as int);
            lemma_count_one_more_parent(all, parents, here@, anything());
            lemma_count_one_more_parent(all, parents, here@, finished());
            lemma_count_one_more_parent(all, parents, here@, underway());
            lemma_count_bound(all, under_any(parents.insert(here@), anything()));
            lemma_count_bound(all, under_any(parents.insert(here@), finished()));
            lemma_count_bound(all, under_any(parents.insert(here@), underway()));
            assert(all.len() == tasks.len());
            assert(reaches(all, id@, texts(queue@)[i as int]));
        }
        for j in 0..kids_here.len()
            invariant
                all == task_views(tasks@),
                all.len() == tasks.len(),
                below_here == kids(all, here@),
                below_here == ref_views(kids_here@),
                reaches(all, id@, here@),
                i < begun.len() <= queue@.len(),
                begun[i as int]@ == here@,
                forall|k: int| 0 <= k < begun.len() ==> #[trigger] queue@[k] == begun[k],
                queue@[0]@ == id@,
                texts(queue@).no_duplicates(),
                seen@ == texts(queue@).to_set(),
                forall|k: int|
                    0 <= k < queue@.len() ==> reaches(all, id@, #[trigger] texts(queue@)[k]),
                forall|k: int|
                    0 <= k < queue@.len() ==> #[trigger] texts(queue@)[k] == id@ || knows(
                        all,
                        texts(queue@)[k],
                    ),
                forall|k: int| 0 <= k < j ==> seen@.contains((#[trigger] below_here[k]).id),
                forall|x: Seq<char>| #[trigger] texts(begun).to_set().contains(x) ==> seen@.contains(x),
                p.total == q.total + count_if(below_here.take(j as int), anything()),
                p.done == q.done + count_if(below_here.take(j as int), finished()),
                p.active == q.active + count_if(below_here.take(j as int), underway()),
                q.total + count_if(below_here, anything()) <= all.len(),
                q.done + count_if(below_here, finished()) <= all.len(),
                q.active + count_if(below_here, underway()) <= all.len(),
        {
            let k: &Task = kids_here[j];
            proof {
                assert(below_here[j as int] == k@);
                assert(below_here.take(j + 1).drop_last() =~= below_here.take(j as int));
                lemma_count_prefix(below_here, j + 1, anything());
                lemma_count_prefix(below_here, j + 1, finished());
                lemma_count_prefix(below_here, j + 1, underway());
                lemma_filtered_member(all, child_of(here@), k@);
                assert(below_here.contains(below_here[j as int]));
            }
            p.total = p.total + 1;
            if k.completed {
                p.done = p.done + 1;
            } else if k.started_at.is_some() {
                p.active = p.active + 1;
            }
            if !seen.contains(k.id.as_str()) {
                let ghost before = queue@;
                queue.push(k.id.clone());
                seen.insert(k.id.clone());
                proof {
                    let t = texts(before);
                    assert(texts(queue@) =~= t.push(k@.id));
                    assert forall|a: int, b: int|
                        0 <= a < b < texts(queue@).len() implies #[trigger] texts(queue@)[a]
                        != #[trigger] texts(queue@)[b] by {
                        if b == t.len() {
                            assert(t.to_set().contains(t[a]));
                        } else {
                            assert(t[a] != t[b]);
                        }
                    }
                    lemma_pushed_set(t, k@.id);
                    lemma_step_down(all, id@, here@, k@);
                    let at = choose|at: int| 0 <= at < all.len() && all[at] == k@;
                    assert(all[at].id == k@.id);
                    assert forall|m: int| 0 <= m < queue@.len() implies reaches(
                        all,
                        id@,
                        #[trigger] texts(queue@)[m],
                    ) && (texts(queue@)[m] == id@ || knows(all, texts(queue@)[m])) by {
                        if m < t.len() {
                            assert(texts(queue@)[m] == t[m]);
                        }
                    }
                }
            }
        }
        proof {
            assert(below_here.take(below_here.len() as int) =~= below_here);
            assert(first_ids(queue@, i as int) =~= parents) by {
                assert(texts(queue@).take(i as int) =~= texts(begun).take(i as int));
            }
            lemma_first_ids(queue@, i as int);
            assert forall|k: int|
                #![trigger all[k]]
                0 <= k < all.len() && all[k].parent_id is Some && first_ids(
                    queue@,
                    i + 1,
                ).contains(all[k].parent_id->0) implies seen@.contains(all[k].id) by {
                if all[k].parent_id->0 == here@ {
                    lemma_filtered_member(all, child_of(here@), all[k]);
                    assert(all.contains(all[k]));
                    let m = choose|m: int| 0 <= m < below_here.len() && below_here[m] == all[k];
                    assert(seen@.contains(below_here[m].id));
                } else {
                    assert(parents.contains(all[k].parent_id->0));
                    assert(texts(begun).to_set().contains(all[k].id));
                }
            }
        }
        i = i + 1;
    }
    proof {
        let found = first_ids(queue@, i as int);
        assert(texts(queue@).take(i as int) =~= texts(queue@));
        assert(found.contains(id@)) by {
            assert(texts(queue@)[0] == id@);
        }
        assert forall|t: TaskView| t.parent_id is Some implies found.contains(t.parent_id->0)
            == #[trigger] below(all, id@, t) by {
            let to = t.parent_id->0;
            if found.contains(to) {
                let k = choose|k: int| 0 <= k < texts(queue@).len() && texts(queue@)[k] == to;
                assert(reaches(all, id@, texts(queue@)[k]));
            }
            if reaches(all, id@, to) {
                let n = choose|n: nat| steps_down(all, id@, to, n);
                lemma_closed_set_is_reach(all, id@, found, to, n);
            }
        }
        lemma_count_same(
            all,
            under_any(found, anything()),
            |t: TaskView| below(all, id@, t),
        );
        lemma_count_same(
            all,
            under_any(found, finished()),
            |t: TaskView| below(all, id@, t) && t.completed,
        );
        lemma_count_same(
            all,
            under_any(found, underway()),
            |t: TaskView| below(all, id@, t) && in_progress(t),
        );
    }
    p
}

proof fn lemma_count_none(tasks: Seq<TaskView>, f: spec_fn(TaskView) -> bool)
    requires
        forall|t: TaskView| !#[trigger] f(t),
    ensures
        count_if(tasks, f) == 0,
    decreases tasks.len(),
{
    if tasks.len() > 0 {
        lemma_count_none(tasks.drop_last(), f);
    }
}

proof fn lemma_count_prefix(tasks: Seq<TaskView>, n: int, f: spec_fn(TaskView) -> bool)
    requires
        0 <= n <= tasks.len(),
    ensures
        count_if(tasks.take(n), f) <= count_if(tasks, f),
    decreases tasks.len(),
{
    if n < tasks.len() {
        lemma_count_prefix(tasks.drop_last(), n, f);
        assert(tasks.drop_last().take(n) =~= tasks.take(n));
    } else {
        assert(tasks.take(n) =~= tasks);
    }
}

proof fn lemma_pushed_set(s: Seq<Seq<char>>, x: Seq<char>)
    ensures
        s.push(x).to_set() == s.to_set().insert(x),
{
    assert(s.push(x).to_set() =~= s.to_set().insert(x)) by {
        assert forall|y: Seq<char>| s.push(x).to_set().contains(y) <==> s.to_set().insert(
            x,
        ).contains(y) by {
            if s.to_set().contains(y) {
                let k = choose|k: int| 0 <= k < s.len() && s[k] == y;
                assert(s.push(x)[k] == y);
            }
            if y == x {
                assert(s.push(x)[s.len() as int] == y);
            }
            if s.push(x).to_set().contains(y) {
                let k = choose|k: int| 0 <= k < s.push(x).len() && s.push(x)[k] == y;
                if k < s.len() {
                    assert(s[k] == y);
                }
            }
        }
    }
}

proof fn lemma_step_down(tasks: Seq<TaskView>, from: Seq<char>, at: Seq<char>, t: TaskView)
    requires
        tasks.contains(t),
        t.parent_id == Some(at),
        reaches(tasks, from, at),
    ensures
        reaches(tasks, from, t.id),
{
    let n = choose|n: nat| steps_down(tasks, from, at, n);
    let k = choose|k: int| 0 <= k < tasks.len() && tasks[k] == t;
    assert(tasks[k].id == t.id);
    assert(steps_down(tasks, from, t.id, n + 1));
}

/// Completion rolled up over every descendant, for every task that has any.
///
/// Deliberately computed from the *unfiltered* task list: a meter built from the
/// filtered tree would read 0/n as soon as a filter hid the completed children,
/// which is exactly when you most want to see the real number.
pub fn subtree_progress(tasks: &Vec<Task>) -> (r: ProgressMap)
    ensures
        rollups(task_views(tasks@), r@),
{
    proof {
        reveal(rollups);
    }
    let ghost all = task_views(tasks@);
    let index = child_index(tasks);
    let mut out: ProgressMap = StringHashMap::new();
    for i in 0..tasks.len()
        invariant
            all == task_views(tasks@),
            index.covers(all, tasks@.len() as int),
            forall|id: Seq<char>| #[trigger]
                out@.contains_key(id) <==> knows(all.take(i as int), id) && total_below(all, id) > 0,
            forall|id: Seq<char>| #[trigger]
                out@.contains_key(id) ==> tallies(all, id, out@[id]),
    {
        let progress = accumulate(tasks, &index, tasks[i].id.as_str());
        let ghost before = out@;
        if progress.total > 0 {
            out.insert(tasks[i].id.clone(), progress);
        }
        proof {
            assert forall|id: Seq<char>| #[trigger]
                out@.contains_key(id) <==> knows(all.take(i + 1), id) && total_below(all, id)
                    > 0 by {
                lemma_knows_step(all, i as int, id);
                assert(before.contains_key(id) <==> knows(all.take(i as int), id) && total_below(
                    all,
                    id,
                ) > 0);
            }
        }
    }
    assert(all.take(all.len() as int) =~= all);
    out
}

pub proof fn lemma_knows_step(tasks: Seq<TaskView>, i: int, id: Seq<char>)
    requires
        0 <= i < tasks.len(),
    ensures
        knows(tasks.take(i + 1), id) <==> knows(tasks.take(i), id) || tasks[i].id == id,
{
    let (a, b) = (tasks.take(i), tasks.take(i + 1));
    if knows(a, id) {
        let k = choose|k: int| 0 <= k < a.len() && #[trigger] a[k].id == id;
        assert(b[k].id == id);
    }
    if knows(b, id) {
        let k = choose|k: int| 0 <= k < b.len() && #[trigger] b[k].id == id;
        if k < i {
            assert(a[k].id == id);
        }
    }
    if tasks[i].id == id {
        assert(b[i].id == id);
    }
}

/// What is finished and what is underway are different tasks, and never more
/// than there are.
pub proof fn law_progress_adds_up(tasks: Seq<TaskView>, id: Seq<char>)
    ensures
        done_below(tasks, id) + active_below(tasks, id) <= total_below(tasks, id) <= tasks.len(),
{
    let f = |t: TaskView| below(tasks, id, t) && t.completed;
    let g = |t: TaskView| below(tasks, id, t) && in_progress(t);
    lemma_count_apart(tasks, f, g);
    lemma_count_implied(
        tasks,
        |t: TaskView| f(t) || g(t),
        |t: TaskView| below(tasks, id, t),
    );
    lemma_count_bound(tasks, |t: TaskView| below(tasks, id, t));
}

/// A task with nothing filed under it has no rollup.
pub proof fn law_leaves_have_no_progress(
    tasks: Seq<TaskView>,
    m: Map<Seq<char>, Progress>,
    id: Seq<char>,
)
    requires
        rollups(tasks, m),
        kids(tasks, id).len() == 0,
    ensures
        !m.contains_key(id),
{
    reveal(rollups);
    assert forall|to: Seq<char>| reaches(tasks, id, to) implies to == id by {
        let n = choose|n: nat| steps_down(tasks, id, to, n);
        lemma_leaf_reaches_itself(tasks, id, to, n);
    }
    let f = |t: TaskView| below(tasks, id, t);
    assert forall|i: int| 0 <= i < tasks.len() implies f(#[trigger] tasks[i]) == (|t: TaskView|
        false)(tasks[i]) by {
        if below(tasks, id, tasks[i]) {
            lemma_filtered_member(tasks, child_of(id), tasks[i]);
            assert(tasks.contains(tasks[i]));
            assert(kids(tasks, id).contains(tasks[i]));
        }
    }
    lemma_count_same(tasks, f, |t: TaskView| false);
    lemma_count_none(tasks, |t: TaskView| false);
}

proof fn lemma_leaf_reaches_itself(tasks: Seq<TaskView>, id: Seq<char>, to: Seq<char>, n: nat)
    requires
        kids(tasks, id).len() == 0,
        steps_down(tasks, id, to, n),
    ensures
        to == id,
    decreases n,
{
    if n > 0 {
        let k = choose|k: int|
            0 <= k < tasks.len() && (#[trigger] tasks[k]).id == to && tasks[k].parent_id is Some
                && steps_down(tasks, id, tasks[k].parent_id->0, (n - 1) as nat);
        lemma_leaf_reaches_itself(tasks, id, tasks[k].parent_id->0, (n - 1) as nat);
        lemma_filtered_member(tasks, child_of(id), tasks[k]);
        assert(tasks.contains(tasks[k]));
        assert(kids(tasks, id).contains(tasks[k]));
    }
}

// ---------------------------------------------------------------------------
// Rows
// ---------------------------------------------------------------------------

/// Every node in a forest, depth-first.
pub open spec fn flat(nodes: Seq<NodeView>) -> Seq<NodeView>
    decreases nodes,
{
    if nodes.len() == 0 {
        Seq::empty()
    } else {
        flat(nodes.drop_last()).push(nodes.last()) + flat(nodes.last().children)
    }
}

/// What each borrowed node of a list says.
pub open spec fn node_ref_views(nodes: Seq<&Node>) -> Seq<NodeView> {
    nodes.map_values(|n: &Node| n@)
}

/// Every node in the forest, depth-first, ignoring expansion.
pub fn flatten(nodes: &Vec<Node>) -> (r: Vec<&Node>)
    ensures
        node_ref_views(r@) == flat(node_views(nodes@)),
{
    let mut out: Vec<&Node> = Vec::new();
    collect(nodes, &mut out);
    assert(node_ref_views(out@) =~= flat(node_views(nodes@)));
    out
}

fn collect<'a>(nodes: &'a Vec<Node>, out: &mut Vec<&'a Node>)
    ensures
        node_ref_views(final(out)@) == node_ref_views(old(out)@) + flat(node_views(nodes@)),
    decreases nodes,
{
    let ghost before = node_ref_views(out@);
    let ghost all = node_views(nodes@);
    assert(before + flat(all.take(0)) =~= before);
    for i in 0..nodes.len()
        invariant
            all == node_views(nodes@),
            node_ref_views(out@) == before + flat(all.take(i as int)),
        decreases nodes.len() - i,
    {
        let n: &'a Node = &nodes[i];
        let ghost so_far = out@;
        out.push(n);
        proof {
            assert(node_ref_views(out@) =~= node_ref_views(so_far).push(n@));
            lemma_children_view(*n);
            assert(all.take(i + 1).drop_last() =~= all.take(i as int));
            assert(all.take(i + 1).last() == n@);
        }
        collect(&n.children, out);
        proof {
            assert((before + flat(all.take(i as int))).push(n@) + flat(n@.children) =~= before + (
            flat(all.take(i as int)).push(n@) + flat(n@.children)));
        }
    }
    assert(all.take(all.len() as int) =~= all);
}

/// One rendered line: the node, its tree-drawing prefix, and enough state for
/// the renderer to pick an expand/collapse glyph.
///
/// The marker is deliberately NOT baked into `prefix`: which glyph to use is a
/// presentation decision that depends on the icon tier.
pub struct Row<'a> {
    pub node: &'a Node,
    /// Indentation plus the branch character, e.g. `"│ ├"`.
    pub prefix: String,
    pub has_children: bool,
    pub is_open: bool,
}

/// What a row says.
pub ghost struct RowView {
    pub node: NodeView,
    pub prefix: Seq<char>,
    pub has_children: bool,
    pub is_open: bool,
}

impl<'a> View for Row<'a> {
    type V = RowView;

    open spec fn view(&self) -> RowView {
        RowView {
            node: self.node@,
            prefix: self.prefix@,
            has_children: self.has_children,
            is_open: self.is_open,
        }
    }
}

/// What each row says.
pub open spec fn row_views(rows: Seq<Row<'_>>) -> Seq<RowView> {
    rows.map_values(|r: Row<'_>| r@)
}

/// The row of one node among its siblings.
pub open spec fn row_for(
    nodes: Seq<NodeView>,
    i: int,
    expanded: Set<Seq<char>>,
    indent: Seq<char>,
) -> RowView {
    RowView {
        node: nodes[i],
        prefix: indent + if i + 1 == nodes.len() {
            "└"@
        } else {
            "├"@
        },
        has_children: nodes[i].children.len() > 0,
        is_open: expanded.contains(nodes[i].task.id),
    }
}

/// How much further in the rows below one node are drawn.
pub open spec fn deeper(nodes: Seq<NodeView>, i: int, indent: Seq<char>) -> Seq<char> {
    indent + if i + 1 == nodes.len() {
        "  "@
    } else {
        "│ "@
    }
}

/// The rows of the siblings from `from` on, each followed by the rows below it
/// where it is open.
pub open spec fn rows_from(
    nodes: Seq<NodeView>,
    from: int,
    expanded: Set<Seq<char>>,
    indent: Seq<char>,
) -> Seq<RowView>
    decreases nodes, nodes.len() - from,
{
    if from < 0 || from >= nodes.len() {
        Seq::empty()
    } else {
        let row = row_for(nodes, from, expanded, indent);
        let below = if row.has_children && row.is_open {
            rows_from(nodes[from].children, 0, expanded, deeper(nodes, from, indent))
        } else {
            Seq::empty()
        };
        seq![row] + below + rows_from(nodes, from + 1, expanded, indent)
    }
}

/// The rows of a forest.
#[verifier::opaque]
pub open spec fn rows_of(nodes: Seq<NodeView>, expanded: Set<Seq<char>>) -> Seq<RowView> {
    rows_from(nodes, 0, expanded, Seq::empty())
}

/// Flattens to only what is currently visible, honouring `expanded`, and builds
/// the box-drawing prefix for each row.
pub fn visible_rows<'a>(nodes: &'a Vec<Node>, expanded: &IdSet) -> (r: Vec<Row<'a>>)
    ensures
        row_views(r@) == rows_of(node_views(nodes@), expanded@),
{
    proof {
        reveal(rows_of);
    }
    let mut out: Vec<Row<'a>> = Vec::new();
    let indent = String::new();
    walk(nodes, expanded, indent.as_str(), &mut out);
    assert(row_views(out@) =~= rows_of(node_views(nodes@), expanded@));
    out
}

fn walk<'a>(nodes: &'a Vec<Node>, expanded: &IdSet, indent: &str, out: &mut Vec<Row<'a>>)
    ensures
        row_views(final(out)@) == row_views(old(out)@) + rows_from(
            node_views(nodes@),
            0,
            expanded@,
            indent@,
        ),
    decreases nodes,
{
    let ghost before = row_views(out@);
    let ghost all = node_views(nodes@);
    let ghost whole = rows_from(all, 0, expanded@, indent@);
    for i in 0..nodes.len()
        invariant
            all == node_views(nodes@),
            row_views(out@) + rows_from(all, i as int, expanded@, indent@) == before + whole,
        decreases nodes.len() - i,
    {
        let node: &'a Node = &nodes[i];
        let last = i + 1 == nodes.len();
        let has_kids = node.children.len() > 0;
        let is_open = expanded.contains(node.id());
        proof {
            lemma_children_view(*node);
        }
        let branch = if last {
            "└"
        } else {
            "├"
        };
        let row = Row { node, prefix: concat(indent, branch), has_children: has_kids, is_open };
        let ghost so_far = out@;
        let ghost shown = row@;
        assert(shown == row_for(all, i as int, expanded@, indent@));
        out.push(row);
        assert(row_views(out@) =~= row_views(so_far).push(shown));
        let ghost rest = rows_from(all, i + 1, expanded@, indent@);
        if has_kids && is_open {
            let added = if last {
                "  "
            } else {
                "│ "
            };
            let further = concat(indent, added);
            walk(&node.children, expanded, further.as_str(), out);
            proof {
                let below = rows_from(node@.children, 0, expanded@, further@);
                assert(row_views(so_far) + (seq![shown] + below + rest) =~= row_views(so_far).push(
                    shown,
                ) + below + rest);
            }
        } else {
            assert(row_views(so_far) + (seq![shown] + Seq::empty() + rest) =~= row_views(
                so_far,
            ).push(shown) + rest);
        }
    }
    assert(row_views(out@) + Seq::empty() =~= row_views(out@));
}

// ---------------------------------------------------------------------------
// What the forest promises
// ---------------------------------------------------------------------------

/// Whether a forest shows a path of tasks, each as a child of the one before.
pub open spec fn shows_path(nodes: Seq<NodeView>, path: Seq<TaskView>) -> bool
    decreases path.len(),
{
    path.len() == 0 || exists|i: int|
        0 <= i < nodes.len() && (#[trigger] nodes[i]).task == path[0] && shows_path(
            nodes[i].children,
            path.drop_first(),
        )
}

/// Whether a path leads down a list: from a root, child by child, without
/// coming round to a task it has already passed.
pub open spec fn leads_down(tasks: Seq<TaskView>, path: Seq<TaskView>) -> bool {
    &&& path.len() > 0
    &&& root_tasks(tasks).contains(path[0])
    &&& forall|i: int|
        #![trigger path[i]]
        0 <= i < path.len() - 1 ==> kids(tasks, path[i].id).contains(path[i + 1])
    &&& forall|i: int, j: int|
        #![trigger path[i], path[j]]
        0 <= i < j < path.len() ==> path[i].id != path[j].id
}

proof fn lemma_nodes_of_contains(
    tasks: Seq<TaskView>,
    siblings: Seq<TaskView>,
    lens: Lens,
    visiting: Set<Seq<char>>,
    t: TaskView,
)
    requires
        siblings.contains(t),
        node_of(tasks, t, lens, visiting) is Some,
    ensures
        nodes_of(tasks, siblings, lens, visiting).contains(
            node_of(tasks, t, lens, visiting)->0,
        ),
    decreases siblings.len(),
{
    let n = node_of(tasks, t, lens, visiting)->0;
    let front = siblings.drop_last();
    let all = nodes_of(tasks, siblings, lens, visiting);
    let k = choose|k: int| 0 <= k < siblings.len() && siblings[k] == t;
    if k < front.len() {
        assert(front[k] == t);
        lemma_nodes_of_contains(tasks, front, lens, visiting, t);
        let f = nodes_of(tasks, front, lens, visiting);
        let j = choose|j: int| 0 <= j < f.len() && f[j] == n;
        assert(all[j] == n);
    } else {
        assert(all.last() == n);
        assert(all[all.len() - 1] == n);
    }
}

proof fn lemma_path_is_shown(
    tasks: Seq<TaskView>,
    siblings: Seq<TaskView>,
    lens: Lens,
    visiting: Set<Seq<char>>,
    path: Seq<TaskView>,
)
    requires
        path.len() > 0,
        siblings.contains(path[0]),
        tasks.contains(path[0]),
        forall|i: int|
            #![trigger path[i]]
            0 <= i < path.len() - 1 ==> kids(tasks, path[i].id).contains(path[i + 1]),
        forall|i: int, j: int|
            #![trigger path[i], path[j]]
            0 <= i < j < path.len() ==> path[i].id != path[j].id,
        forall|i: int| 0 <= i < path.len() ==> !visiting.contains((#[trigger] path[i]).id),
        matching(path.last(), lens.query, lens.filter),
    ensures
        shows_path(nodes_of(tasks, siblings, lens, visiting), path),
    decreases path.len(),
{
    let top = path[0];
    let rest = path.drop_first();
    lemma_listed_id(tasks, top);
    let below = ordered(kids(tasks, top.id), lens.sort, lens.reversed);
    let inside = visiting.insert(top.id);
    let children = nodes_of(tasks, below, lens, inside);
    if rest.len() > 0 {
        assert(kids(tasks, path[0].id).contains(path[1]));
        lemma_ordered_contains(kids(tasks, top.id), lens.sort, lens.reversed, path[1]);
        lemma_filtered_member(tasks, child_of(top.id), path[1]);
        assert forall|i: int| #![trigger rest[i]] 0 <= i < rest.len() - 1 implies kids(
            tasks,
            rest[i].id,
        ).contains(rest[i + 1]) by {
            assert(rest[i] == path[i + 1]);
            assert(kids(tasks, path[i + 1].id).contains(path[i + 2]));
        }
        assert forall|i: int, j: int|
            #![trigger rest[i], rest[j]]
            0 <= i < j < rest.len() implies rest[i].id != rest[j].id by {
            assert(path[i + 1].id != path[j + 1].id);
        }
        assert forall|i: int| 0 <= i < rest.len() implies !inside.contains((#[trigger] rest[i]).id) by {
            assert(path[0].id != path[i + 1].id);
        }
        assert(rest.last() == path.last());
        lemma_path_is_shown(tasks, below, lens, inside, rest);
    }
    let n = node_of(tasks, top, lens, visiting);
    assert(n is Some);
    lemma_nodes_of_contains(tasks, siblings, lens, visiting, top);
    let all = nodes_of(tasks, siblings, lens, visiting);
    let k = choose|k: int| 0 <= k < all.len() && all[k] == n->0;
    assert(all[k].task == path[0]);
    assert(shows_path(all[k].children, rest));
}

/// A match is never orphaned: whatever the search, the filter and the order,
/// every task on the way down to it is shown above it.
pub proof fn law_a_match_is_never_orphaned(tasks: Seq<TaskView>, lens: Lens, path: Seq<TaskView>)
    requires
        leads_down(tasks, path),
        matching(path.last(), lens.query, lens.filter),
    ensures
        shows_path(forest(tasks, lens), path),
{
    reveal(forest);
    let roots = ordered(root_tasks(tasks), lens.sort, lens.reversed);
    lemma_ordered_contains(root_tasks(tasks), lens.sort, lens.reversed, path[0]);
    lemma_filtered_member(tasks, rootless(tasks), path[0]);
    lemma_path_is_shown(tasks, roots, lens, Set::empty(), path);
}

/// What siblings are tasks of.
pub open spec fn tasks_of(nodes: Seq<NodeView>) -> Seq<TaskView> {
    nodes.map_values(|n: NodeView| n.task)
}

/// Whether a node is there for a reason: it stands for a listed task, says
/// whether that task matches, and has either a match or something below it;
/// and whatever is below it is filed under it.
pub open spec fn justified(tasks: Seq<TaskView>, n: NodeView, lens: Lens) -> bool {
    &&& tasks.contains(n.task)
    &&& n.is_match == matching(n.task, lens.query, lens.filter)
    &&& n.is_match || n.children.len() > 0
    &&& forall|j: int|
        0 <= j < n.children.len() ==> (#[trigger] n.children[j]).task.parent_id == Some(n.task.id)
}

/// Whether every node of a forest is justified, and siblings stand in order,
/// at every level.
pub open spec fn sound(tasks: Seq<TaskView>, nodes: Seq<NodeView>, lens: Lens) -> bool
    decreases nodes,
{
    &&& in_order(tasks_of(nodes), lens.sort, lens.reversed)
    &&& forall|i: int|
        0 <= i < nodes.len() ==> justified(tasks, #[trigger] nodes[i], lens) && sound(
            tasks,
            nodes[i].children,
            lens,
        )
}

proof fn lemma_node_is_sound(
    tasks: Seq<TaskView>,
    task: TaskView,
    lens: Lens,
    visiting: Set<Seq<char>>,
)
    requires
        tasks.contains(task),
    ensures
        node_of(tasks, task, lens, visiting) matches Some(n) ==> n.task == task && justified(
            tasks,
            n,
            lens,
        ) && sound(tasks, n.children, lens),
    decreases unvisited(tasks, visiting), 0nat,
{
    if !visiting.contains(task.id) && ids(tasks).contains(task.id) {
        lemma_visiting_one_more(tasks, visiting, task.id);
        let below = ordered(kids(tasks, task.id), lens.sort, lens.reversed);
        let inside = visiting.insert(task.id);
        assert forall|i: int| 0 <= i < below.len() implies tasks.contains(#[trigger] below[i])
            && below[i].parent_id == Some(task.id) by {
            lemma_ordered_member(tasks, child_of(task.id), lens.sort, lens.reversed, i);
        }
        lemma_ordered_is_in_order(kids(tasks, task.id), lens.sort, lens.reversed);
        lemma_nodes_are_sound(tasks, below, lens, inside);
        let children = nodes_of(tasks, below, lens, inside);
        assert forall|j: int| 0 <= j < children.len() implies (#[trigger] children[j]).task.parent_id
            == Some(task.id) by {
            assert(below.contains(tasks_of(children)[j]));
        }
    }
}

proof fn lemma_nodes_are_sound(
    tasks: Seq<TaskView>,
    siblings: Seq<TaskView>,
    lens: Lens,
    visiting: Set<Seq<char>>,
)
    requires
        forall|i: int| 0 <= i < siblings.len() ==> tasks.contains(#[trigger] siblings[i]),
        in_order(siblings, lens.sort, lens.reversed),
    ensures
        sound(tasks, nodes_of(tasks, siblings, lens, visiting), lens),
        forall|j: int|
            0 <= j < nodes_of(tasks, siblings, lens, visiting).len() ==> siblings.contains(
                #[trigger] tasks_of(nodes_of(tasks, siblings, lens, visiting))[j],
            ),
    decreases unvisited(tasks, visiting), siblings.len() + 1,
{
    let all = nodes_of(tasks, siblings, lens, visiting);
    if siblings.len() > 0 {
        let front = siblings.drop_last();
        let last = siblings.last();
        assert(last == siblings[siblings.len() - 1]);
        assert forall|i: int| 0 <= i < front.len() implies tasks.contains(#[trigger] front[i]) by {
            assert(front[i] == siblings[i]);
        }
        assert forall|i: int, j: int|
            #![trigger front[i], front[j]]
            0 <= i < j < front.len() implies if lens.reversed {
            !task_lt(lens.sort, front[i], front[j])
        } else {
            !task_lt(lens.sort, front[j], front[i])
        } by {
            assert(front[i] == siblings[i] && front[j] == siblings[j]);
        }
        lemma_nodes_are_sound(tasks, front, lens, visiting);
        lemma_node_is_sound(tasks, last, lens, visiting);
        let f = nodes_of(tasks, front, lens, visiting);
        let t = tasks_of(all);
        assert forall|j: int| 0 <= j < all.len() implies siblings.contains(#[trigger] t[j]) by {
            if j < f.len() {
                assert(front.contains(tasks_of(f)[j]));
                let k = choose|k: int| 0 <= k < front.len() && front[k] == tasks_of(f)[j];
                assert(siblings[k] == t[j]);
            } else {
                assert(siblings[siblings.len() - 1] == t[j]);
            }
        }
        assert forall|i: int, j: int| #![trigger t[i], t[j]] 0 <= i < j < t.len() implies if lens.reversed {
            !task_lt(lens.sort, t[i], t[j])
        } else {
            !task_lt(lens.sort, t[j], t[i])
        } by {
            if j < f.len() {
                assert(t[i] == tasks_of(f)[i] && t[j] == tasks_of(f)[j]);
            } else {
                assert(front.contains(tasks_of(f)[i]));
                let k = choose|k: int| 0 <= k < front.len() && front[k] == tasks_of(f)[i];
                assert(siblings[k] == t[i] && siblings[siblings.len() - 1] == t[j]);
            }
        }
        assert forall|i: int| 0 <= i < all.len() implies justified(tasks, #[trigger] all[i], lens)
            && sound(tasks, all[i].children, lens) by {
            if i < f.len() {
                assert(all[i] == f[i]);
            }
        }
    }
}

/// Whatever is shown is there for a reason, hangs under its own parent, and
/// stands among its siblings in the order asked for -- at every level.
pub proof fn law_the_forest_is_sound(tasks: Seq<TaskView>, lens: Lens)
    ensures
        sound(tasks, forest(tasks, lens), lens),
{
    reveal(forest);
    let roots = ordered(root_tasks(tasks), lens.sort, lens.reversed);
    assert forall|i: int| 0 <= i < roots.len() implies tasks.contains(#[trigger] roots[i]) by {
        lemma_ordered_member(tasks, rootless(tasks), lens.sort, lens.reversed, i);
    }
    lemma_ordered_is_in_order(root_tasks(tasks), lens.sort, lens.reversed);
    lemma_nodes_are_sound(tasks, roots, lens, Set::empty());
}

/// Rows are shown exactly when there is anything to show.
pub proof fn law_a_forest_shows_rows(nodes: Seq<NodeView>, expanded: Set<Seq<char>>)
    ensures
        rows_of(nodes, expanded).len() == 0 <==> nodes.len() == 0,
{
    reveal(rows_of);
}

/// Whether every node with anything below it, at every level, is expanded.
pub open spec fn all_open(nodes: Seq<NodeView>, expanded: Set<Seq<char>>) -> bool {
    forall|i: int|
        0 <= i < flat(nodes).len() && (#[trigger] flat(nodes)[i]).children.len() > 0
            ==> expanded.contains(flat(nodes)[i].task.id)
}

/// The nodes rows stand for.
pub open spec fn nodes_shown(rows: Seq<RowView>) -> Seq<NodeView> {
    rows.map_values(|r: RowView| r.node)
}

proof fn lemma_flat_split(nodes: Seq<NodeView>, from: int)
    requires
        0 <= from < nodes.len(),
    ensures
        flat(nodes.skip(from)) == seq![nodes[from]] + flat(nodes[from].children) + flat(
            nodes.skip(from + 1),
        ),
    decreases nodes.len(),
{
    let s = nodes.skip(from);
    let front = nodes.drop_last();
    if from + 1 == nodes.len() {
        assert(s.drop_last() =~= Seq::empty());
        assert(nodes.skip(from + 1) =~= Seq::empty());
        assert(flat(s) =~= seq![nodes[from]] + flat(nodes[from].children) + flat(
            nodes.skip(from + 1),
        ));
    } else {
        lemma_flat_split(front, from);
        assert(s.drop_last() =~= front.skip(from));
        assert(nodes.skip(from + 1).drop_last() =~= front.skip(from + 1));
        assert(nodes.skip(from + 1).last() == nodes.last());
        assert(flat(s) =~= seq![nodes[from]] + flat(nodes[from].children) + flat(
            nodes.skip(from + 1),
        ));
    }
}

proof fn lemma_open_rows(
    nodes: Seq<NodeView>,
    from: int,
    expanded: Set<Seq<char>>,
    indent: Seq<char>,
)
    requires
        0 <= from <= nodes.len(),
        all_open(nodes.skip(from), expanded),
    ensures
        nodes_shown(rows_from(nodes, from, expanded, indent)) == flat(nodes.skip(from)),
    decreases nodes, nodes.len() - from,
{
    if from < nodes.len() {
        lemma_flat_split(nodes, from);
        let here = flat(nodes.skip(from));
        let kids_flat = flat(nodes[from].children);
        let rest = flat(nodes.skip(from + 1));
        assert(here[0] == nodes[from]);
        assert forall|i: int|
            0 <= i < kids_flat.len() && (#[trigger] kids_flat[i]).children.len()
                > 0 implies expanded.contains(kids_flat[i].task.id) by {
            assert(here[i + 1] == kids_flat[i]);
        }
        assert forall|i: int|
            0 <= i < rest.len() && (#[trigger] rest[i]).children.len()
                > 0 implies expanded.contains(rest[i].task.id) by {
            assert(here[i + 1 + kids_flat.len()] == rest[i]);
        }
        let children = nodes[from].children;
        let further = deeper(nodes, from, indent);
        assert(children.skip(0) =~= children);
        lemma_open_rows(nodes, from + 1, expanded, indent);
        let row = row_for(nodes, from, expanded, indent);
        let after = rows_from(nodes, from + 1, expanded, indent);
        if children.len() > 0 {
            lemma_open_rows(children, 0, expanded, further);
            let below = rows_from(children, 0, expanded, further);
            assert(nodes_shown(seq![row] + below + after) =~= seq![row.node] + nodes_shown(below)
                + nodes_shown(after));
        } else {
            assert(flat(children) =~= Seq::empty());
            assert(nodes_shown(seq![row] + Seq::empty() + after) =~= seq![row.node] + flat(children)
                + nodes_shown(after));
        }
    } else {
        assert(nodes.skip(from) =~= Seq::empty());
        assert(nodes_shown(rows_from(nodes, from, expanded, indent)) =~= flat(nodes.skip(from)));
    }
}

/// With everything expanded that has anything below it, every node of the forest
/// has its row, in depth-first order.
pub proof fn law_expanding_everything_shows_everything(
    nodes: Seq<NodeView>,
    expanded: Set<Seq<char>>,
)
    requires
        all_open(nodes, expanded),
    ensures
        nodes_shown(rows_of(nodes, expanded)) == flat(nodes),
{
    reveal(rows_of);
    assert(nodes.skip(0) =~= nodes);
    lemma_open_rows(nodes, 0, expanded, Seq::empty());
}

/// Whether some row stands for a task.
pub open spec fn has_row(rows: Seq<RowView>, id: Seq<char>) -> bool {
    exists|i: int| 0 <= i < rows.len() && (#[trigger] rows[i]).node.task.id == id
}

proof fn lemma_row_survives_own_marker(
    nodes: Seq<NodeView>,
    from: int,
    before: Set<Seq<char>>,
    after: Set<Seq<char>>,
    indent: Seq<char>,
    id: Seq<char>,
)
    requires
        0 <= from <= nodes.len(),
        has_row(rows_from(nodes, from, before, indent), id),
        forall|x: Seq<char>| x != id && #[trigger] before.contains(x) ==> after.contains(x),
    ensures
        has_row(rows_from(nodes, from, after, indent), id),
    decreases nodes, nodes.len() - from,
{
    if from < nodes.len() {
        let node = nodes[from];
        let further = deeper(nodes, from, indent);
        let old_rows = rows_from(nodes, from, before, indent);
        let new_rows = rows_from(nodes, from, after, indent);
        let i = choose|i: int| 0 <= i < old_rows.len() && (#[trigger] old_rows[i]).node.task.id == id;
        if node.task.id == id {
            assert(new_rows[0].node.task.id == id);
        } else {
            let open = node.children.len() > 0 && before.contains(node.task.id);
            let old_below = if open {
                rows_from(node.children, 0, before, further)
            } else {
                Seq::empty()
            };
            let still = node.children.len() > 0 && after.contains(node.task.id);
            let new_below = if still {
                rows_from(node.children, 0, after, further)
            } else {
                Seq::empty()
            };
            let old_rest = rows_from(nodes, from + 1, before, indent);
            let new_rest = rows_from(nodes, from + 1, after, indent);
            assert(old_rows =~= seq![row_for(nodes, from, before, indent)] + old_below + old_rest);
            assert(new_rows =~= seq![row_for(nodes, from, after, indent)] + new_below + new_rest);
            if i < 1 + old_below.len() {
                assert(old_below[i - 1] == old_rows[i]);
                lemma_row_survives_own_marker(node.children, 0, before, after, further, id);
                let j = choose|j: int|
                    0 <= j < new_below.len() && (#[trigger] new_below[j]).node.task.id == id;
                assert(new_rows[j + 1] == new_below[j]);
            } else {
                assert(old_rest[i - 1 - old_below.len()] == old_rows[i]);
                lemma_row_survives_own_marker(nodes, from + 1, before, after, indent, id);
                let j = choose|j: int|
                    0 <= j < new_rest.len() && (#[trigger] new_rest[j]).node.task.id == id;
                assert(new_rows[j + 1 + new_below.len()] == new_rest[j]);
            }
        }
    }
}

/// Opening or closing a task hides no row of its own.
pub proof fn law_a_row_survives_its_own_marker(
    nodes: Seq<NodeView>,
    before: Set<Seq<char>>,
    after: Set<Seq<char>>,
    id: Seq<char>,
)
    requires
        has_row(rows_of(nodes, before), id),
        forall|x: Seq<char>| x != id ==> (before.contains(x) <==> #[trigger] after.contains(x)),
    ensures
        has_row(rows_of(nodes, after), id),
{
    reveal(rows_of);
    lemma_row_survives_own_marker(nodes, 0, before, after, Seq::empty(), id);
}

/// Whether `at` says where each node of one list stands in another, in order.
pub open spec fn picks(at: Seq<int>, some: Seq<NodeView>, all: Seq<NodeView>) -> bool {
    &&& at.len() == some.len()
    &&& forall|i: int| 0 <= i < at.len() ==> 0 <= #[trigger] at[i] < all.len() && all[at[i]] == some[i]
    &&& forall|i: int, j: int| 0 <= i < j < at.len() ==> #[trigger] at[i] < #[trigger] at[j]
}

/// Whether a list is another with some of it left out.
pub open spec fn part_of(some: Seq<NodeView>, all: Seq<NodeView>) -> bool {
    exists|at: Seq<int>| #[trigger] picks(at, some, all)
}

proof fn lemma_parts_join(a: Seq<NodeView>, b: Seq<NodeView>, c: Seq<NodeView>, d: Seq<NodeView>)
    requires
        part_of(a, b),
        part_of(c, d),
    ensures
        part_of(a + c, b + d),
{
    let x = choose|x: Seq<int>| #[trigger] picks(x, a, b);
    let y = choose|y: Seq<int>| #[trigger] picks(y, c, d);
    let at = Seq::new(
        x.len() + y.len(),
        |i: int|
            if i < x.len() {
                x[i]
            } else {
                b.len() + y[i - x.len()]
            },
    );
    assert(picks(at, a + c, b + d));
}

proof fn lemma_part_of_itself(a: Seq<NodeView>)
    ensures
        part_of(a, a),
        part_of(Seq::empty(), a),
{
    assert(picks(Seq::new(a.len(), |i: int| i), a, a));
    assert(picks(Seq::empty(), Seq::empty(), a));
}

proof fn lemma_rows_are_part(
    nodes: Seq<NodeView>,
    from: int,
    expanded: Set<Seq<char>>,
    indent: Seq<char>,
)
    requires
        0 <= from <= nodes.len(),
    ensures
        part_of(nodes_shown(rows_from(nodes, from, expanded, indent)), flat(nodes.skip(from))),
    decreases nodes, nodes.len() - from,
{
    if from < nodes.len() {
        let children = nodes[from].children;
        let further = deeper(nodes, from, indent);
        let row = row_for(nodes, from, expanded, indent);
        let below = if row.has_children && row.is_open {
            rows_from(children, 0, expanded, further)
        } else {
            Seq::empty()
        };
        let after = rows_from(nodes, from + 1, expanded, indent);
        lemma_flat_split(nodes, from);
        lemma_rows_are_part(nodes, from + 1, expanded, indent);
        lemma_part_of_itself(flat(children));
        lemma_part_of_itself(seq![nodes[from]]);
        if row.has_children && row.is_open {
            lemma_rows_are_part(children, 0, expanded, further);
            assert(children.skip(0) =~= children);
        } else {
            assert(nodes_shown(below) =~= Seq::empty());
        }
        lemma_parts_join(
            seq![nodes[from]],
            seq![nodes[from]],
            nodes_shown(below),
            flat(children),
        );
        lemma_parts_join(
            seq![nodes[from]] + nodes_shown(below),
            seq![nodes[from]] + flat(children),
            nodes_shown(after),
            flat(nodes.skip(from + 1)),
        );
        assert(nodes_shown(seq![row] + below + after) =~= seq![nodes[from]] + nodes_shown(below)
            + nodes_shown(after));
    } else {
        lemma_part_of_itself(flat(nodes.skip(from)));
        assert(nodes_shown(rows_from(nodes, from, expanded, indent)) =~= Seq::empty());
    }
}

/// Whatever is expanded, the rows shown are nodes of the forest in depth-first
/// order: collapsing leaves rows out and never moves, repeats or adds one.
pub proof fn law_rows_come_from_the_forest_in_order(
    nodes: Seq<NodeView>,
    expanded: Set<Seq<char>>,
)
    ensures
        part_of(nodes_shown(rows_of(nodes, expanded)), flat(nodes)),
{
    reveal(rows_of);
    assert(nodes.skip(0) =~= nodes);
    lemma_rows_are_part(nodes, 0, expanded, Seq::empty());
}

/// A forest with the siblings at every level the other way round.
pub open spec fn mirrored(nodes: Seq<NodeView>) -> Seq<NodeView>
    decreases nodes,
{
    if nodes.len() == 0 {
        Seq::empty()
    } else {
        seq![turned(nodes.last())] + mirrored(nodes.drop_last())
    }
}

/// A node with everything below it the other way round.
pub open spec fn turned(n: NodeView) -> NodeView
    decreases n,
{
    NodeView { children: mirrored(n.children), ..n }
}

proof fn lemma_mirrored_length(nodes: Seq<NodeView>)
    ensures
        mirrored(nodes).len() == nodes.len(),
    decreases nodes.len(),
{
    if nodes.len() > 0 {
        lemma_mirrored_length(nodes.drop_last());
    }
}

proof fn lemma_nodes_off_the_front(
    tasks: Seq<TaskView>,
    siblings: Seq<TaskView>,
    lens: Lens,
    visiting: Set<Seq<char>>,
)
    requires
        siblings.len() > 0,
    ensures
        nodes_of(tasks, siblings, lens, visiting) == (match node_of(
            tasks,
            siblings[0],
            lens,
            visiting,
        ) {
            Some(n) => seq![n],
            None => Seq::empty(),
        }) + nodes_of(tasks, siblings.drop_first(), lens, visiting),
    decreases siblings.len(),
{
    let rest = siblings.drop_first();
    if siblings.len() == 1 {
        assert(siblings.drop_last() =~= Seq::empty());
        assert(rest =~= Seq::empty());
        assert(siblings.last() == siblings[0]);
    } else {
        lemma_nodes_off_the_front(tasks, siblings.drop_last(), lens, visiting);
        assert(siblings.drop_last().drop_first() =~= rest.drop_last());
        assert(rest.last() == siblings.last());
    }
    assert(nodes_of(tasks, siblings, lens, visiting) =~= (match node_of(
        tasks,
        siblings[0],
        lens,
        visiting,
    ) {
        Some(n) => seq![n],
        None => Seq::empty(),
    }) + nodes_of(tasks, rest, lens, visiting));
}

/// A view in the opposite order.
pub open spec fn flipped(lens: Lens) -> Lens {
    Lens { reversed: !lens.reversed, ..lens }
}

proof fn lemma_node_turns(
    tasks: Seq<TaskView>,
    task: TaskView,
    lens: Lens,
    visiting: Set<Seq<char>>,
)
    ensures
        node_of(tasks, task, flipped(lens), visiting) == (match node_of(
            tasks,
            task,
            lens,
            visiting,
        ) {
            Some(n) => Some(turned(n)),
            None => None,
        }),
    decreases unvisited(tasks, visiting), 0nat,
{
    if !visiting.contains(task.id) && ids(tasks).contains(task.id) {
        lemma_visiting_one_more(tasks, visiting, task.id);
        let s = sorted_by(kids(tasks, task.id), by_sort(lens.sort));
        let below = ordered(kids(tasks, task.id), lens.sort, lens.reversed);
        assert(s.reverse().reverse() =~= s);
        lemma_nodes_mirror(tasks, below, lens, visiting.insert(task.id));
        lemma_mirrored_length(nodes_of(tasks, below, lens, visiting.insert(task.id)));
    }
}

proof fn lemma_nodes_mirror(
    tasks: Seq<TaskView>,
    siblings: Seq<TaskView>,
    lens: Lens,
    visiting: Set<Seq<char>>,
)
    ensures
        nodes_of(tasks, siblings.reverse(), flipped(lens), visiting) == mirrored(
            nodes_of(tasks, siblings, lens, visiting),
        ),
    decreases unvisited(tasks, visiting), siblings.len() + 1,
{
    let back = siblings.reverse();
    if siblings.len() == 0 {
        assert(back =~= Seq::empty());
    } else {
        let front = siblings.drop_last();
        lemma_nodes_mirror(tasks, front, lens, visiting);
        lemma_node_turns(tasks, siblings.last(), lens, visiting);
        lemma_nodes_off_the_front(tasks, back, flipped(lens), visiting);
        assert(back[0] == siblings.last());
        assert(back.drop_first() =~= front.reverse());
        let f = nodes_of(tasks, front, lens, visiting);
        match node_of(tasks, siblings.last(), lens, visiting) {
            Some(n) => {
                assert(f.push(n).drop_last() =~= f);
            },
            None => {
                assert(Seq::<NodeView>::empty() + mirrored(f) =~= mirrored(f));
            },
        }
    }
}

/// Reversing the order turns the whole forest round: the same nodes, with the
/// siblings at every level exactly the other way.
pub proof fn law_reversing_mirrors_the_forest(tasks: Seq<TaskView>, lens: Lens)
    ensures
        forest(tasks, flipped(lens)) == mirrored(forest(tasks, lens)),
{
    reveal(forest);
    let s = sorted_by(root_tasks(tasks), by_sort(lens.sort));
    assert(s.reverse().reverse() =~= s);
    lemma_nodes_mirror(
        tasks,
        ordered(root_tasks(tasks), lens.sort, lens.reversed),
        lens,
        Set::empty(),
    );
}

/// Two texts, where there are any, that differ in the case of ASCII letters at
/// most.
pub open spec fn same_opt_but_case(a: Option<Seq<char>>, b: Option<Seq<char>>) -> bool {
    match (a, b) {
        (Some(x), Some(y)) => same_but_case(x, y),
        (None, None) => true,
        _ => false,
    }
}

/// Case does not matter on ASCII text, to a search or to the order of names:
/// tasks and searches that differ in the case of letters alone are found and
/// ranked alike.
pub proof fn law_case_does_not_matter(
    t: TaskView,
    u: TaskView,
    query: Seq<char>,
    other: Seq<char>,
    x: TaskView,
)
    requires
        same_but_case(t.name, u.name),
        same_but_case(t.id, u.id),
        same_opt_but_case(t.description, u.description),
        same_but_case(query, other),
    ensures
        hits(t, query) == hits(u, other),
        name_lt(t, x) == name_lt(u, x),
        name_lt(x, t) == name_lt(x, u),
{
}

proof fn lemma_found_in_any_case(s: Seq<char>, q: Seq<char>)
    requires
        all_ascii(s),
        all_ascii(q),
    ensures
        occurs(s, q) ==> occurs(lower(s), lower(q)),
        starts(s, q) ==> starts(lower(s), lower(q)),
{
    let (a, b) = (lower(s), lower(q));
    if occurs(s, q) {
        let i = choose|i: int| #[trigger] stands_at(s, q, i);
        assert(a.subrange(i, i + b.len()) =~= s.subrange(i, i + q.len()).map_values(
            |c: char| ascii_lower(c),
        ));
        assert(stands_at(a, b, i));
    }
    if starts(s, q) {
        assert(a.subrange(0, b.len() as int) =~= s.subrange(0, q.len() as int).map_values(
            |c: char| ascii_lower(c),
        ));
    }
}

/// What is typed as it stands in a task finds it: any part of an ASCII name or
/// description, and any start of an ASCII id.
pub proof fn law_what_is_typed_is_found(t: TaskView, query: Seq<char>)
    requires
        all_ascii(query),
    ensures
        all_ascii(t.name) && occurs(t.name, query) ==> hits(t, query),
        t.description is Some && all_ascii(t.description->0) && occurs(t.description->0, query)
            ==> hits(t, query),
        all_ascii(t.id) && starts(t.id, query) ==> hits(t, query),
{
    if all_ascii(t.name) {
        lemma_found_in_any_case(t.name, query);
    }
    if t.description is Some && all_ascii(t.description->0) {
        lemma_found_in_any_case(t.description->0, query);
    }
    if all_ascii(t.id) {
        lemma_found_in_any_case(t.id, query);
    }
}

// ---------------------------------------------------------------------------
// What the filters, the search and the orders mean
// ---------------------------------------------------------------------------

proof fn lemma_every_node_is_justified(tasks: Seq<TaskView>, nodes: Seq<NodeView>, lens: Lens, i: int)
    requires
        sound(tasks, nodes, lens),
        0 <= i < flat(nodes).len(),
    ensures
        justified(tasks, flat(nodes)[i], lens),
        sound(tasks, flat(nodes)[i].children, lens),
    decreases nodes,
{
    let front = nodes.drop_last();
    let last = nodes.last();
    assert(last == nodes[nodes.len() - 1]);
    let f = flat(front);
    if i < f.len() {
        assert forall|j: int| 0 <= j < front.len() implies justified(tasks, #[trigger] front[j], lens)
            && sound(tasks, front[j].children, lens) by {
            assert(front[j] == nodes[j]);
        }
        assert forall|x: int, y: int|
            #![trigger tasks_of(front)[x], tasks_of(front)[y]]
            0 <= x < y < tasks_of(front).len() implies if lens.reversed {
            !task_lt(lens.sort, tasks_of(front)[x], tasks_of(front)[y])
        } else {
            !task_lt(lens.sort, tasks_of(front)[y], tasks_of(front)[x])
        } by {
            assert(tasks_of(front)[x] == tasks_of(nodes)[x] && tasks_of(front)[y] == tasks_of(
                nodes,
            )[y]);
        }
        lemma_every_node_is_justified(tasks, front, lens, i);
        assert(flat(nodes)[i] == f[i]);
    } else if i == f.len() {
        assert(flat(nodes)[i] == last);
    } else {
        lemma_every_node_is_justified(tasks, last.children, lens, i - f.len() - 1);
        assert(flat(nodes)[i] == flat(last.children)[i - f.len() - 1]);
    }
}

/// What the filters mean, with nothing searched for: a node is marked as shown
/// for its own sake under `pending` exactly when its task is not completed,
/// begun or not; under `active` exactly when it is begun and not completed; and
/// under `all` always. Whatever else is shown has something below it.
pub proof fn law_the_filters_mean_what_they_say(tasks: Seq<TaskView>, lens: Lens, i: int)
    requires
        lens.query is None,
        0 <= i < flat(forest(tasks, lens)).len(),
    ensures
        tasks.contains(flat(forest(tasks, lens))[i].task),
        lens.filter == Filter::All ==> flat(forest(tasks, lens))[i].is_match,
        lens.filter == Filter::Pending ==> flat(forest(tasks, lens))[i].is_match != flat(
            forest(tasks, lens),
        )[i].task.completed,
        lens.filter == Filter::InProgress ==> flat(forest(tasks, lens))[i].is_match == (flat(
            forest(tasks, lens),
        )[i].task.started_at is Some && !flat(forest(tasks, lens))[i].task.completed),
        !flat(forest(tasks, lens))[i].is_match ==> flat(forest(tasks, lens))[i].children.len() > 0,
{
    law_the_forest_is_sound(tasks, lens);
    lemma_every_node_is_justified(tasks, forest(tasks, lens), lens, i);
}

/// Whether `path` goes down a list by parent links alone, from a task whose
/// parent is not in the list, without meeting an id twice.
pub open spec fn goes_down(tasks: Seq<TaskView>, path: Seq<TaskView>) -> bool {
    &&& path.len() > 0
    &&& forall|i: int| 0 <= i < path.len() ==> tasks.contains(#[trigger] path[i])
    &&& path[0].parent_id matches Some(p) ==> forall|k: int|
        0 <= k < tasks.len() ==> (#[trigger] tasks[k]).id != p
    &&& forall|i: int|
        0 < i < path.len() ==> (#[trigger] path[i]).parent_id == Some(path[i - 1].id)
    &&& forall|i: int, j: int|
        #![trigger path[i], path[j]]
        0 <= i < j < path.len() ==> path[i].id != path[j].id
}

proof fn lemma_goes_down(tasks: Seq<TaskView>, path: Seq<TaskView>)
    requires
        goes_down(tasks, path),
    ensures
        leads_down(tasks, path),
{
    lemma_filtered_member(tasks, rootless(tasks), path[0]);
    assert forall|i: int| #![trigger path[i]] 0 <= i < path.len() - 1 implies kids(
        tasks,
        path[i].id,
    ).contains(path[i + 1]) by {
        lemma_filtered_member(tasks, child_of(path[i].id), path[i + 1]);
    }
}

/// Nothing that a filter lets through goes missing: with nothing searched for,
/// every task that can be reached from the top is shown under `all`, every one
/// that is not completed under `pending` too, and every one that is begun as
/// well under all three -- each with everything above it.
pub proof fn law_the_filters_lose_nothing(
    tasks: Seq<TaskView>,
    sort: Sort,
    reversed: bool,
    path: Seq<TaskView>,
)
    requires
        goes_down(tasks, path),
    ensures
        shows_path(
            forest(tasks, Lens { query: None, filter: Filter::All, sort, reversed }),
            path,
        ),
        !path.last().completed ==> shows_path(
            forest(tasks, Lens { query: None, filter: Filter::Pending, sort, reversed }),
            path,
        ),
        !path.last().completed && path.last().started_at is Some ==> shows_path(
            forest(tasks, Lens { query: None, filter: Filter::InProgress, sort, reversed }),
            path,
        ),
{
    lemma_goes_down(tasks, path);
    law_a_match_is_never_orphaned(
        tasks,
        Lens { query: None, filter: Filter::All, sort, reversed },
        path,
    );
    if !path.last().completed {
        law_a_match_is_never_orphaned(
            tasks,
            Lens { query: None, filter: Filter::Pending, sort, reversed },
            path,
        );
        if path.last().started_at is Some {
            law_a_match_is_never_orphaned(
                tasks,
                Lens { query: None, filter: Filter::InProgress, sort, reversed },
                path,
            );
        }
    }
}

/// Each filter lets through all that a narrower one does: what passes `active`
/// passes `pending`, and what passes `pending` passes `all`, whatever is
/// searched for; and a search only ever narrows.
pub proof fn law_the_filters_widen(t: TaskView, query: Option<Seq<char>>)
    ensures
        matching(t, query, Filter::InProgress) ==> matching(t, query, Filter::Pending)
            && t.started_at is Some,
        matching(t, query, Filter::Pending) ==> matching(t, query, Filter::All) && !t.completed,
        matching(t, query, Filter::All) && !t.completed ==> matching(t, query, Filter::Pending),
        matching(t, query, Filter::Pending) && t.started_at is Some ==> matching(
            t,
            query,
            Filter::InProgress,
        ),
        matching(t, None, Filter::All),
        forall|f: Filter| #[trigger] matching(t, query, f) ==> matching(t, None, f),
{
}

/// Whether a text stands in another from a place on.
pub open spec fn spelled_at(s: Seq<char>, q: Seq<char>, k: int) -> bool {
    &&& 0 <= k
    &&& k + q.len() <= s.len()
    &&& forall|j: int| 0 <= j < q.len() ==> s[k + j] == #[trigger] q[j]
}

proof fn lemma_spelled(s: Seq<char>, q: Seq<char>)
    ensures
        occurs(s, q) <==> exists|k: int| #[trigger] spelled_at(s, q, k),
        starts(s, q) <==> spelled_at(s, q, 0),
{
    assert forall|k: int| #[trigger] stands_at(s, q, k) <==> spelled_at(s, q, k) by {
        if stands_at(s, q, k) {
            assert forall|j: int| 0 <= j < q.len() implies s[k + j] == #[trigger] q[j] by {
                assert(s.subrange(k, k + q.len())[j] == q[j]);
            }
        }
        if spelled_at(s, q, k) {
            assert(s.subrange(k, k + q.len()) =~= q);
        }
    }
    if occurs(s, q) {
        let k = choose|k: int| #[trigger] stands_at(s, q, k);
        assert(spelled_at(s, q, k));
    }
    if exists|k: int| #[trigger] spelled_at(s, q, k) {
        let k = choose|k: int| #[trigger] spelled_at(s, q, k);
        assert(stands_at(s, q, k));
    }
}

/// A search finds a task exactly when every character of what was typed stands,
/// one after another and up to case, somewhere in its name, somewhere in its
/// description, or from the very start of its id.
pub proof fn law_what_is_found_holds_what_was_typed(t: TaskView, query: Seq<char>)
    ensures
        hits(t, query) <==> {
            ||| exists|k: int| #[trigger] spelled_at(lower(t.name), lower(query), k)
            ||| t.description is Some && exists|k: int| #[trigger]
                spelled_at(lower(t.description->0), lower(query), k)
            ||| spelled_at(lower(t.id), lower(query), 0)
        },
{
    lemma_spelled(lower(t.name), lower(query));
    lemma_spelled(lower(t.id), lower(query));
    if t.description is Some {
        lemma_spelled(lower(t.description->0), lower(query));
    }
}

/// Whether two characters are the same but for the case of an ASCII letter.
pub open spec fn alike(a: char, b: char) -> bool {
    ||| a == b
    ||| 65 <= a as u32 <= 90 && b as u32 == a as u32 + 32
    ||| 65 <= b as u32 <= 90 && a as u32 == b as u32 + 32
}

/// Whether a text stands in another from a place on, but for the case of ASCII
/// letters.
pub open spec fn alike_at(s: Seq<char>, q: Seq<char>, k: int) -> bool {
    &&& 0 <= k
    &&& k + q.len() <= s.len()
    &&& forall|j: int| 0 <= j < q.len() ==> alike(s[k + j], #[trigger] q[j])
}

proof fn lemma_alike(a: char, b: char)
    requires
        (a as u32) < 128,
        (b as u32) < 128,
    ensures
        alike(a, b) <==> ascii_lower(a) == ascii_lower(b),
{
    assert(ascii_lower(a) as u32 == if 65 <= a as u32 <= 90 {
        a as u32 + 32
    } else {
        a as u32 as int
    });
    assert(ascii_lower(b) as u32 == if 65 <= b as u32 <= 90 {
        b as u32 + 32
    } else {
        b as u32 as int
    });
}

proof fn lemma_alike_at(s: Seq<char>, q: Seq<char>, k: int)
    requires
        all_ascii(s),
        all_ascii(q),
    ensures
        alike_at(s, q, k) <==> spelled_at(lower(s), lower(q), k),
{
    if 0 <= k && k + q.len() <= s.len() {
        assert forall|j: int| 0 <= j < q.len() implies (alike(s[k + j], #[trigger] q[j]) <==> lower(
            s,
        )[k + j] == lower(q)[j]) by {
            lemma_alike(s[k + j], q[j]);
        }
        if alike_at(s, q, k) {
            assert forall|j: int| 0 <= j < lower(q).len() implies lower(s)[k + j] == #[trigger] lower(
                q,
            )[j] by {
                assert(alike(s[k + j], q[j]));
            }
        }
        if spelled_at(lower(s), lower(q), k) {
            assert forall|j: int| 0 <= j < q.len() implies alike(s[k + j], #[trigger] q[j]) by {
                assert(lower(s)[k + j] == lower(q)[j]);
            }
        }
    }
}

/// On ASCII text a search finds a task exactly when what was typed stands there
/// letter for letter, whatever the case of each: anywhere in the name or the
/// description, or from the start of the id.
pub proof fn law_a_search_is_letter_for_letter(t: TaskView, query: Seq<char>)
    requires
        all_ascii(query),
        all_ascii(t.name),
        all_ascii(t.id),
        t.description is Some ==> all_ascii(t.description->0),
    ensures
        hits(t, query) <==> {
            ||| exists|k: int| #[trigger] alike_at(t.name, query, k)
            ||| t.description is Some && exists|k: int| #[trigger]
                alike_at(t.description->0, query, k)
            ||| alike_at(t.id, query, 0)
        },
{
    law_what_is_found_holds_what_was_typed(t, query);
    lemma_alike_at(t.id, query, 0);
    assert forall|k: int| alike_at(t.name, query, k) <==> #[trigger] spelled_at(
        lower(t.name),
        lower(query),
        k,
    ) by {
        lemma_alike_at(t.name, query, k);
    }
    assert forall|k: int| #[trigger] alike_at(t.name, query, k) <==> spelled_at(
        lower(t.name),
        lower(query),
        k,
    ) by {
        lemma_alike_at(t.name, query, k);
    }
    if t.description is Some {
        let d = t.description->0;
        assert forall|k: int| alike_at(d, query, k) <==> #[trigger] spelled_at(
            lower(d),
            lower(query),
            k,
        ) by {
            lemma_alike_at(d, query, k);
        }
        assert forall|k: int| #[trigger] alike_at(d, query, k) <==> spelled_at(
            lower(d),
            lower(query),
            k,
        ) by {
            lemma_alike_at(d, query, k);
        }
    }
}

/// Whether these are all the siblings of one place of a forest: its roots, or
/// what is below one of its nodes.
pub open spec fn is_level(nodes: Seq<NodeView>, level: Seq<NodeView>) -> bool {
    level == nodes || exists|i: int|
        0 <= i < flat(nodes).len() && (#[trigger] flat(nodes)[i]).children == level
}

/// Whether a text comes no later than another, where both are there; one that is
/// not there comes first.
pub open spec fn no_later(a: Option<Seq<char>>, b: Option<Seq<char>>) -> bool {
    a is Some ==> b is Some && !text_lt(b->0, a->0)
}

/// What the orders mean, at every level. Of two siblings the first has the lower
/// priority number; of equal priority it was created no later; and of equal
/// creation its name comes no later. By date the first is the newer, and the
/// undated come last. Reversed, all of it the other way round.
pub proof fn law_the_orders_mean_what_they_say(
    tasks: Seq<TaskView>,
    lens: Lens,
    level: Seq<NodeView>,
    i: int,
    j: int,
)
    requires
        is_level(forest(tasks, lens), level),
        0 <= i < j < level.len(),
    ensures
        ({
            let a = if lens.reversed {
                level[j].task
            } else {
                level[i].task
            };
            let b = if lens.reversed {
                level[i].task
            } else {
                level[j].task
            };
            let by_name = !text_lt(lower(b.name), lower(a.name));
            &&& lens.sort == Sort::Priority ==> {
                &&& a.priority <= b.priority
                &&& a.priority == b.priority ==> no_later(a.created_at, b.created_at)
                &&& a.priority == b.priority && a.created_at == b.created_at ==> by_name
            }
            &&& lens.sort == Sort::Updated ==> {
                &&& no_later(b.updated_at, a.updated_at)
                &&& a.updated_at == b.updated_at ==> by_name
            }
            &&& lens.sort == Sort::Created ==> {
                &&& no_later(b.created_at, a.created_at)
                &&& a.created_at == b.created_at ==> by_name
            }
            &&& lens.sort == Sort::Name ==> by_name
        }),
{
    let nodes = forest(tasks, lens);
    law_the_forest_is_sound(tasks, lens);
    if level != nodes {
        let k = choose|k: int|
            0 <= k < flat(nodes).len() && (#[trigger] flat(nodes)[k]).children == level;
        lemma_every_node_is_justified(tasks, nodes, lens, k);
    }
    let ts = tasks_of(level);
    assert(ts[i] == level[i].task && ts[j] == level[j].task);
    assert(in_order(ts, lens.sort, lens.reversed));
}

/// With nothing expanded exactly the roots have rows, in their order; and a row
/// says of its own node whether it has anything below it and is open.
pub proof fn law_nothing_expanded_shows_the_roots(nodes: Seq<NodeView>)
    ensures
        nodes_shown(rows_of(nodes, Set::empty())) == nodes,
{
    reveal(rows_of);
    lemma_closed_rows(nodes, 0, Seq::empty());
    assert(nodes.skip(0) =~= nodes);
}

proof fn lemma_closed_rows(nodes: Seq<NodeView>, from: int, indent: Seq<char>)
    requires
        0 <= from <= nodes.len(),
    ensures
        nodes_shown(rows_from(nodes, from, Set::empty(), indent)) == nodes.skip(from),
    decreases nodes.len() - from,
{
    if from < nodes.len() {
        lemma_closed_rows(nodes, from + 1, indent);
        let row = row_for(nodes, from, Set::empty(), indent);
        let rest = rows_from(nodes, from + 1, Set::empty(), indent);
        assert(rows_from(nodes, from, Set::empty(), indent) =~= seq![row] + rest);
        assert(nodes_shown(seq![row] + rest) =~= seq![nodes[from]] + nodes_shown(rest));
        assert(nodes.skip(from) =~= seq![nodes[from]] + nodes.skip(from + 1));
    } else {
        assert(nodes_shown(rows_from(nodes, from, Set::empty(), indent)) =~= nodes.skip(from));
    }
}

proof fn lemma_row_flags(
    nodes: Seq<NodeView>,
    from: int,
    expanded: Set<Seq<char>>,
    indent: Seq<char>,
    i: int,
)
    requires
        0 <= from <= nodes.len(),
        0 <= i < rows_from(nodes, from, expanded, indent).len(),
    ensures
        ({
            let r = rows_from(nodes, from, expanded, indent)[i];
            &&& r.has_children == (r.node.children.len() > 0)
            &&& r.is_open == expanded.contains(r.node.task.id)
            &&& r.prefix.len() > indent.len()
            &&& (r.prefix.len() - indent.len()) % 2 == 1
            &&& r.prefix.take(indent.len() as int) == indent
            &&& r.prefix.last() == '└' || r.prefix.last() == '├'
        }),
    decreases nodes, nodes.len() - from,
{
    reveal_strlit("└");
    reveal_strlit("├");
    reveal_strlit("  ");
    reveal_strlit("│ ");
    let all = rows_from(nodes, from, expanded, indent);
    let row = row_for(nodes, from, expanded, indent);
    let further = deeper(nodes, from, indent);
    let below = if row.has_children && row.is_open {
        rows_from(nodes[from].children, 0, expanded, further)
    } else {
        Seq::empty()
    };
    let rest = rows_from(nodes, from + 1, expanded, indent);
    assert(all =~= seq![row] + below + rest);
    if i == 0 {
        assert(all[0] == row);
        assert(row.prefix.take(indent.len() as int) =~= indent);
    } else if i < 1 + below.len() {
        lemma_row_flags(nodes[from].children, 0, expanded, further, i - 1);
        let r = all[i];
        assert(r == below[i - 1]);
        assert(further.len() == indent.len() + 2);
        assert(r.prefix.take(indent.len() as int) =~= r.prefix.take(
            further.len() as int,
        ).take(indent.len() as int));
        assert(further.take(indent.len() as int) =~= indent);
    } else {
        lemma_row_flags(nodes, from + 1, expanded, indent, i - 1 - below.len());
        assert(all[i] == rest[i - 1 - below.len()]);
    }
}

/// Every row says of its own node whether it has anything below it and whether
/// it is open, and is drawn with a branch behind two columns for each level.
pub proof fn law_rows_describe_their_nodes(
    nodes: Seq<NodeView>,
    expanded: Set<Seq<char>>,
    i: int,
)
    requires
        0 <= i < rows_of(nodes, expanded).len(),
    ensures
        ({
            let r = rows_of(nodes, expanded)[i];
            &&& r.has_children == (r.node.children.len() > 0)
            &&& r.is_open == expanded.contains(r.node.task.id)
            &&& r.prefix.len() % 2 == 1
            &&& r.prefix.last() == '└' || r.prefix.last() == '├'
        }),
{
    reveal(rows_of);
    lemma_row_flags(nodes, 0, expanded, Seq::empty(), i);
}

/// Everything filed below a task is below it, through however many others.
pub proof fn law_everything_down_a_path_is_below(
    tasks: Seq<TaskView>,
    id: Seq<char>,
    path: Seq<TaskView>,
)
    requires
        path.len() > 0,
        forall|i: int| 0 <= i < path.len() ==> tasks.contains(#[trigger] path[i]),
        path[0].parent_id == Some(id),
        forall|i: int|
            0 < i < path.len() ==> (#[trigger] path[i]).parent_id == Some(path[i - 1].id),
    ensures
        below(tasks, id, path.last()),
    decreases path.len(),
{
    if path.len() == 1 {
        assert(steps_down(tasks, id, id, 0));
    } else {
        let front = path.drop_last();
        assert forall|i: int| 0 <= i < front.len() implies tasks.contains(#[trigger] front[i]) by {
            assert(front[i] == path[i]);
        }
        assert forall|i: int| 0 < i < front.len() implies (#[trigger] front[i]).parent_id == Some(
            front[i - 1].id,
        ) by {
            assert(front[i] == path[i]);
        }
        law_everything_down_a_path_is_below(tasks, id, front);
        let last = front.last();
        let n = choose|n: nat| steps_down(tasks, id, last.parent_id->0, n);
        assert(front[front.len() - 1] == last);
        assert(tasks.contains(last));
        let k = choose|k: int| 0 <= k < tasks.len() && tasks[k] == last;
        assert(tasks[k].id == last.id && steps_down(tasks, id, tasks[k].parent_id->0, n));
        assert(steps_down(tasks, id, last.id, n + 1));
        assert(path[path.len() - 1].parent_id == Some(path[path.len() - 2].id));
    }
}

/// What is below a task with nothing further below: exactly what is filed under
/// it. So its rollup counts those, those of them that are done, and those that
/// are begun and not done.
pub proof fn law_a_rollup_counts_what_is_filed_below(
    tasks: Seq<TaskView>,
    m: Map<Seq<char>, Progress>,
    id: Seq<char>,
)
    requires
        rollups(tasks, m),
        m.contains_key(id),
        forall|i: int, j: int|
            #![trigger tasks[i], tasks[j]]
            0 <= i < tasks.len() && 0 <= j < tasks.len() && tasks[i].parent_id == Some(id)
                ==> tasks[j].parent_id != Some(tasks[i].id),
    ensures
        m[id].total == count_if(tasks, |t: TaskView| t.parent_id == Some(id)),
        m[id].done == count_if(tasks, |t: TaskView| t.parent_id == Some(id) && t.completed),
        m[id].active == count_if(
            tasks,
            |t: TaskView| t.parent_id == Some(id) && t.started_at is Some && !t.completed,
        ),
{
    reveal(rollups);
    assert(tallies(tasks, id, m[id]));
    assert forall|i: int| 0 <= i < tasks.len() implies below(tasks, id, #[trigger] tasks[i]) == (
    tasks[i].parent_id == Some(id)) by {
        let t = tasks[i];
        if t.parent_id == Some(id) {
            assert(steps_down(tasks, id, id, 0));
        }
        if below(tasks, id, t) {
            let n = choose|n: nat| steps_down(tasks, id, t.parent_id->0, n);
            lemma_one_level(tasks, id, i, n);
        }
    }
    lemma_count_same(
        tasks,
        |t: TaskView| below(tasks, id, t),
        |t: TaskView| t.parent_id == Some(id),
    );
    lemma_count_same(
        tasks,
        |t: TaskView| below(tasks, id, t) && t.completed,
        |t: TaskView| t.parent_id == Some(id) && t.completed,
    );
    lemma_count_same(
        tasks,
        |t: TaskView| below(tasks, id, t) && in_progress(t),
        |t: TaskView| t.parent_id == Some(id) && t.started_at is Some && !t.completed,
    );
}

proof fn lemma_one_level(tasks: Seq<TaskView>, id: Seq<char>, i: int, n: nat)
    requires
        forall|i: int, j: int|
            #![trigger tasks[i], tasks[j]]
            0 <= i < tasks.len() && 0 <= j < tasks.len() && tasks[i].parent_id == Some(id)
                ==> tasks[j].parent_id != Some(tasks[i].id),
        0 <= i < tasks.len(),
        tasks[i].parent_id is Some,
        steps_down(tasks, id, tasks[i].parent_id->0, n),
    ensures
        tasks[i].parent_id == Some(id),
    decreases n,
{
    if n > 0 {
        let p = tasks[i].parent_id->0;
        let k = choose|k: int|
            0 <= k < tasks.len() && (#[trigger] tasks[k]).id == p && tasks[k].parent_id is Some
                && steps_down(tasks, id, tasks[k].parent_id->0, (n - 1) as nat);
        lemma_one_level(tasks, id, k, (n - 1) as nat);
        assert(tasks[k].parent_id == Some(id));
        assert(tasks[i].parent_id != Some(tasks[k].id));
    }
}

/// A search is asked for without the space around it, and a blank one not at
/// all.
pub proof fn law_a_blank_search_asks_for_nothing(query: Seq<char>)
    ensures
        asked_for(query) is None <==> forall|i: int|
            0 <= i < query.len() ==> crate::text::is_space(#[trigger] query[i]),
        asked_for(query) matches Some(q) ==> q == trimmed(query),
{
    crate::text::law_nothing_is_left_of_blank_text(query);
}

/// The filters come round as pending, active, all, and the orders as priority,
/// updated, created, name.
pub proof fn law_the_cycles_go_in_their_order()
    ensures
        filter_after(Filter::Pending) == Filter::InProgress,
        filter_after(Filter::InProgress) == Filter::All,
        filter_after(Filter::All) == Filter::Pending,
        sort_after(Sort::Priority) == Sort::Updated,
        sort_after(Sort::Updated) == Sort::Created,
        sort_after(Sort::Created) == Sort::Name,
        sort_after(Sort::Name) == Sort::Priority,
        forall|f: Filter| #[trigger] filter_before(filter_after(f)) == f,
        forall|f: Filter| #[trigger] filter_after(filter_before(f)) == f,
{
}

proof fn lemma_shown_whatever_the_indent(
    nodes: Seq<NodeView>,
    from: int,
    expanded: Set<Seq<char>>,
    indent: Seq<char>,
)
    requires
        0 <= from <= nodes.len(),
    ensures
        nodes_shown(rows_from(nodes, from, expanded, indent)) == nodes_shown(
            rows_of(nodes.skip(from), expanded),
        ),
    decreases nodes, nodes.len() - from,
{
    reveal(rows_of);
    assert(nodes.skip(from).skip(0) =~= nodes.skip(from));
    lemma_shown_from(nodes, from, expanded, indent, nodes.skip(from), 0, Seq::empty());
}

proof fn lemma_shown_from(
    a: Seq<NodeView>,
    i: int,
    expanded: Set<Seq<char>>,
    x: Seq<char>,
    b: Seq<NodeView>,
    j: int,
    y: Seq<char>,
)
    requires
        0 <= i <= a.len(),
        0 <= j <= b.len(),
        a.skip(i) == b.skip(j),
    ensures
        nodes_shown(rows_from(a, i, expanded, x)) == nodes_shown(rows_from(b, j, expanded, y)),
    decreases a, a.len() - i,
{
    let (c, d) = (a.skip(i), b.skip(j));
    assert(c.len() == a.len() - i && d.len() == b.len() - j);
    if i < a.len() {
        assert(c[0] == a[i] && d[0] == b[j]);
        assert(a.skip(i + 1) =~= a.skip(i).skip(1));
        assert(b.skip(j + 1) =~= b.skip(j).skip(1));
        lemma_shown_from(a, i + 1, expanded, x, b, j + 1, y);
        let (r, q) = (row_for(a, i, expanded, x), row_for(b, j, expanded, y));
        let (u, v) = (deeper(a, i, x), deeper(b, j, y));
        let kids = a[i].children;
        let (below, under) = if r.has_children && r.is_open {
            (rows_from(kids, 0, expanded, u), rows_from(kids, 0, expanded, v))
        } else {
            (Seq::empty(), Seq::empty())
        };
        if r.has_children && r.is_open {
            lemma_shown_from(kids, 0, expanded, u, kids, 0, v);
        }
        let (p, s) = (rows_from(a, i + 1, expanded, x), rows_from(b, j + 1, expanded, y));
        assert(nodes_shown(seq![r] + below + p) =~= seq![a[i]] + nodes_shown(below) + nodes_shown(
            p,
        ));
        assert(nodes_shown(seq![q] + under + s) =~= seq![a[i]] + nodes_shown(under) + nodes_shown(
            s,
        ));
    } else {
        assert(rows_from(a, i, expanded, x) =~= Seq::empty());
        assert(rows_from(b, j, expanded, y) =~= Seq::empty());
    }
}

/// What is shown unfolds node by node: the first, then what is shown of its
/// children where it is expanded and nothing of them where it is not, then what
/// is shown of the rest.
pub proof fn law_an_expanded_node_shows_its_children(
    first: NodeView,
    rest: Seq<NodeView>,
    expanded: Set<Seq<char>>,
)
    ensures
        nodes_shown(rows_of(seq![first] + rest, expanded)) == seq![first] + (if expanded.contains(
            first.task.id,
        ) {
            nodes_shown(rows_of(first.children, expanded))
        } else {
            Seq::empty()
        }) + nodes_shown(rows_of(rest, expanded)),
{
    reveal(rows_of);
    let nodes = seq![first] + rest;
    let row = row_for(nodes, 0, expanded, Seq::empty());
    let further = deeper(nodes, 0, Seq::empty());
    let below = if row.has_children && row.is_open {
        rows_from(first.children, 0, expanded, further)
    } else {
        Seq::empty()
    };
    let after = rows_from(nodes, 1, expanded, Seq::empty());
    assert(nodes[0] == first);
    assert(nodes.skip(1) =~= rest);
    assert(first.children.skip(0) =~= first.children);
    lemma_shown_whatever_the_indent(nodes, 1, expanded, Seq::empty());
    lemma_shown_whatever_the_indent(first.children, 0, expanded, further);
    if first.children.len() == 0 {
        assert(rows_from(first.children, 0, expanded, Seq::empty()) =~= Seq::empty());
        assert(nodes_shown(rows_of(first.children, expanded)) =~= Seq::empty());
    }
    assert(nodes_shown(Seq::<RowView>::empty()) =~= Seq::<NodeView>::empty());
    assert(nodes_shown(seq![row] + below + after) =~= seq![first] + nodes_shown(below)
        + nodes_shown(after));
}

proof fn lemma_node_unfolds(
    tasks: Seq<TaskView>,
    task: TaskView,
    lens: Lens,
    visiting: Set<Seq<char>>,
)
    ensures
        node_of(tasks, task, lens, visiting) matches Some(n) ==> n.task == task && n.children
            == nodes_of(
            tasks,
            ordered(kids(tasks, task.id), lens.sort, lens.reversed),
            lens,
            visiting.insert(task.id),
        ),
{
    if !visiting.contains(task.id) && ids(tasks).contains(task.id) {
        lemma_visiting_one_more(tasks, visiting, task.id);
    }
}

proof fn lemma_nodes_are_distinct(
    tasks: Seq<TaskView>,
    siblings: Seq<TaskView>,
    lens: Lens,
    visiting: Set<Seq<char>>,
)
    requires
        siblings.no_duplicates(),
    ensures
        tasks_of(nodes_of(tasks, siblings, lens, visiting)).no_duplicates(),
        forall|j: int|
            0 <= j < nodes_of(tasks, siblings, lens, visiting).len() ==> siblings.contains(
                #[trigger] tasks_of(nodes_of(tasks, siblings, lens, visiting))[j],
            ),
    decreases siblings.len(),
{
    if siblings.len() > 0 {
        let front = siblings.drop_last();
        lemma_nodes_are_distinct(tasks, front, lens, visiting);
        let f = nodes_of(tasks, front, lens, visiting);
        let all = nodes_of(tasks, siblings, lens, visiting);
        let (t, u) = (tasks_of(f), tasks_of(all));
        let last = siblings.last();
        lemma_node_unfolds(tasks, last, lens, visiting);
        assert(siblings[siblings.len() - 1] == last);
        assert forall|j: int| 0 <= j < f.len() implies t[j] != last && siblings.contains(
            #[trigger] t[j],
        ) by {
            assert(front.contains(t[j]));
            let k = choose|k: int| 0 <= k < front.len() && front[k] == t[j];
            assert(siblings[k] == t[j]);
        }
        assert forall|i: int, j: int| 0 <= i < u.len() && 0 <= j < u.len() && i != j implies u[i]
            != u[j] by {
            if i < f.len() {
                assert(u[i] == t[i]);
            }
            if j < f.len() {
                assert(u[j] == t[j]);
            }
        }
        assert forall|j: int| 0 <= j < all.len() implies siblings.contains(#[trigger] u[j]) by {
            if j < f.len() {
                assert(u[j] == t[j]);
            } else {
                assert(u[j] == last);
            }
        }
    }
}

/// No task stands twice at the top of the forest, nor twice under the same one.
pub proof fn law_no_task_is_shown_twice_under_one(tasks: Seq<TaskView>, lens: Lens)
    requires
        tasks.no_duplicates(),
    ensures
        tasks_of(forest(tasks, lens)).no_duplicates(),
        forall|i: int|
            0 <= i < forest(tasks, lens).len() ==> tasks_of(
                (#[trigger] forest(tasks, lens)[i]).children,
            ).no_duplicates(),
{
    reveal(forest);
    let roots = ordered(root_tasks(tasks), lens.sort, lens.reversed);
    lemma_ordered_distinct(tasks, rootless(tasks), lens.sort, lens.reversed);
    lemma_nodes_are_distinct(tasks, roots, lens, Set::empty());
    assert forall|i: int| 0 <= i < forest(tasks, lens).len() implies tasks_of(
        (#[trigger] forest(tasks, lens)[i]).children,
    ).no_duplicates() by {
        lemma_children_are_distinct(tasks, roots, lens, Set::empty(), i);
    }
}

proof fn lemma_children_are_distinct(
    tasks: Seq<TaskView>,
    siblings: Seq<TaskView>,
    lens: Lens,
    visiting: Set<Seq<char>>,
    i: int,
)
    requires
        tasks.no_duplicates(),
        0 <= i < nodes_of(tasks, siblings, lens, visiting).len(),
    ensures
        tasks_of(nodes_of(tasks, siblings, lens, visiting)[i].children).no_duplicates(),
    decreases siblings.len(),
{
    let front = siblings.drop_last();
    let f = nodes_of(tasks, front, lens, visiting);
    if i < f.len() {
        lemma_children_are_distinct(tasks, front, lens, visiting, i);
    } else {
        let t = siblings.last();
        lemma_node_unfolds(tasks, t, lens, visiting);
        lemma_ordered_distinct(tasks, child_of(t.id), lens.sort, lens.reversed);
        lemma_nodes_are_distinct(
            tasks,
            ordered(kids(tasks, t.id), lens.sort, lens.reversed),
            lens,
            visiting.insert(t.id),
        );
    }
}

proof fn lemma_ordered_distinct(
    tasks: Seq<TaskView>,
    f: spec_fn(TaskView) -> bool,
    sort: Sort,
    reversed: bool,
)
    requires
        tasks.no_duplicates(),
    ensures
        ordered(tasks.filter(f), sort, reversed).no_duplicates(),
{
    lemma_filter_distinct(tasks, f);
    let s = sorted_by(tasks.filter(f), by_sort(sort));
    crate::order::law_sort_keeps_elements_distinct(tasks.filter(f), by_sort(sort));
    let r = s.reverse();
    assert forall|i: int, j: int| 0 <= i < r.len() && 0 <= j < r.len() && i != j implies r[i]
        != r[j] by {
        assert(r[i] == s[s.len() - 1 - i] && r[j] == s[s.len() - 1 - j]);
    }
}

proof fn lemma_filter_distinct(tasks: Seq<TaskView>, f: spec_fn(TaskView) -> bool)
    requires
        tasks.no_duplicates(),
    ensures
        tasks.filter(f).no_duplicates(),
    decreases tasks.len(),
{
    reveal(Seq::filter);
    if tasks.len() > 0 {
        let front = tasks.drop_last();
        lemma_filter_distinct(front, f);
        let (ff, all) = (front.filter(f), tasks.filter(f));
        assert(tasks[tasks.len() - 1] == tasks.last());
        assert forall|i: int| 0 <= i < ff.len() implies ff[i] != tasks.last() by {
            lemma_filtered_member(front, f, ff[i]);
            assert(ff.contains(ff[i]));
            let k = choose|k: int| 0 <= k < front.len() && front[k] == ff[i];
            assert(tasks[k] == ff[i]);
        }
        assert forall|i: int, j: int| 0 <= i < all.len() && 0 <= j < all.len() && i
            != j implies all[i] != all[j] by {
            if i < ff.len() {
                assert(all[i] == ff[i]);
            }
            if j < ff.len() {
                assert(all[j] == ff[j]);
            }
        }
    }
}

/// A row's guide ends in a corner exactly when no sibling follows it, and the
/// rows below an open node carry its line on, where a sibling follows, and
/// else leave its column blank.
pub proof fn law_the_guides_lead_to_the_last_sibling(
    nodes: Seq<NodeView>,
    from: int,
    expanded: Set<Seq<char>>,
    indent: Seq<char>,
    k: int,
)
    requires
        0 <= from < nodes.len(),
    ensures
        ({
            let rows = rows_from(nodes, from, expanded, indent);
            let below = rows_from(
                nodes[from].children,
                0,
                expanded,
                indent + if from == nodes.len() - 1 {
                    seq![' ', ' ']
                } else {
                    seq!['│', ' ']
                },
            );
            let open = nodes[from].children.len() > 0 && expanded.contains(nodes[from].task.id);
            &&& rows[0].node == nodes[from]
            &&& rows[0].prefix == indent.push(
                if from == nodes.len() - 1 {
                    '└'
                } else {
                    '├'
                },
            )
            &&& open && 0 <= k < below.len() ==> rows[1 + k] == below[k]
            &&& open && 0 <= k < below.len() ==> rows[1 + k].prefix.take(indent.len() as int + 2)
                == indent + if from == nodes.len() - 1 {
                seq![' ', ' ']
            } else {
                seq!['│', ' ']
            }
            &&& from + 1 < nodes.len() ==> rows[1 + if open {
                below.len() as int
            } else {
                0
            }].node == nodes[from + 1]
        }),
{
    reveal_strlit("└");
    reveal_strlit("├");
    reveal_strlit("  ");
    reveal_strlit("│ ");
    let rows = rows_from(nodes, from, expanded, indent);
    let further = deeper(nodes, from, indent);
    assert(further =~= indent + if from == nodes.len() - 1 {
        seq![' ', ' ']
    } else {
        seq!['│', ' ']
    });
    let row = row_for(nodes, from, expanded, indent);
    assert(row.prefix =~= indent.push(
        if from == nodes.len() - 1 {
            '└'
        } else {
            '├'
        },
    ));
    let below = rows_from(nodes[from].children, 0, expanded, further);
    let rest = rows_from(nodes, from + 1, expanded, indent);
    if nodes[from].children.len() > 0 && expanded.contains(nodes[from].task.id) {
        assert(rows =~= seq![row] + below + rest);
        if 0 <= k < below.len() {
            lemma_row_flags(nodes[from].children, 0, expanded, further, k);
            assert(further.len() == indent.len() + 2);
        }
    } else {
        assert(rows =~= seq![row] + rest);
    }
    if from + 1 < nodes.len() {
        assert(rest[0] == row_for(nodes, from + 1, expanded, indent));
    }
}

} // verus!
