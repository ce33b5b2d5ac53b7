//! Everything that knows the `dex` CLI exists.
//!
//! Reads and writes both go through the CLI rather than touching `tasks.jsonl`
//! directly, so dex's own validation and its GitHub/Shortcut sync hooks always run.

use vstd::hash_map::StringHashMap;
use vstd::prelude::*;

use crate::text::{
    after_last, clone_opt, clone_texts, code_point, concat, concat3, contains, decimal, decimal_of,
    ends, ends_with, is_space, last_piece, law_nothing_is_left_of_blank_text,
    law_the_last_piece_is_behind_the_last_separator, lines, lines_of, occurs, opt_str, opt_text, pieces, same,
    same_opt, signed_decimal, signed_decimal_of, split, starts, starts_with, texts, to_chars, trim,
    trim_end_matches, trim_end_of, trimmed,
};

verus! {

#[derive(Debug, Clone, Copy, PartialEq, Eq, Structural)]
pub enum Status {
    Pending,
    Blocked,
    InProgress,
    Completed,
}

/// How a status reads.
pub open spec fn status_text(s: Status) -> Seq<char> {
    match s {
        Status::Completed => "completed"@,
        Status::InProgress => "in progress"@,
        Status::Blocked => "blocked"@,
        Status::Pending => "pending"@,
    }
}

impl Status {
    pub fn label(self) -> (r: &'static str)
        ensures
            r@ == status_text(self),
    {
        match self {
            Status::Completed => "completed",
            Status::InProgress => "in progress",
            Status::Blocked => "blocked",
            Status::Pending => "pending",
        }
    }
}

/// A git commit linked to a task via `dex complete --commit <sha>`.
///
/// Purely local: this comes from your git repo and needs no sync configured.
#[derive(Debug)]
pub struct CommitMeta {
    pub sha: String,
    pub message: Option<String>,
    pub branch: Option<String>,
}

/// What a linked commit says, as plain texts.
pub ghost struct CommitView {
    pub sha: Seq<char>,
    pub message: Option<Seq<char>>,
    pub branch: Option<Seq<char>>,
}

impl View for CommitMeta {
    type V = CommitView;

    open spec fn view(&self) -> CommitView {
        CommitView {
            sha: self.sha@,
            message: opt_text(self.message),
            branch: opt_text(self.branch),
        }
    }
}

impl Clone for CommitMeta {
    fn clone(&self) -> (r: Self)
        ensures
            r@ == self@,
    {
        CommitMeta {
            sha: self.sha.clone(),
            message: clone_opt(&self.message),
            branch: clone_opt(&self.branch),
        }
    }
}

/// How many bytes a character takes in UTF-8.
pub open spec fn char_width(c: char) -> nat {
    let n = c as int;
    if n < 0x80 {
        1
    } else if n < 0x800 {
        2
    } else if n < 0x10000 {
        3
    } else {
        4
    }
}

/// How many bytes a text takes in UTF-8.
pub open spec fn text_width(s: Seq<char>) -> nat
    decreases s.len(),
{
    if s.len() == 0 {
        0
    } else {
        text_width(s.drop_last()) + char_width(s.last())
    }
}

/// The text of the first `n` bytes: `k` characters that take exactly that many.
pub open spec fn cuts_at(s: Seq<char>, n: nat, k: int) -> bool {
    0 <= k <= s.len() && text_width(s.take(k)) == n
}

proof fn lemma_width_grows(s: Seq<char>, i: int, j: int)
    requires
        0 <= i <= j <= s.len(),
    ensures
        text_width(s.take(i)) + (j - i) <= text_width(s.take(j)),
    decreases j - i,
{
    if i < j {
        lemma_width_grows(s, i, j - 1);
        assert(s.take(j).drop_last() =~= s.take(j - 1));
    }
}

/// The number of leading bytes an abbreviation keeps.
pub open spec fn short_width(s: Seq<char>) -> nat {
    if text_width(s) < 7 {
        text_width(s)
    } else {
        7
    }
}

impl CommitMeta {
    /// The usual 7-character abbreviation.
    pub fn short_sha(&self) -> (r: &str)
        requires
            exists|k: int| cuts_at(self.sha@, short_width(self.sha@), k),
        ensures
            cuts_at(self.sha@, short_width(self.sha@), r@.len() as int),
            r@ == self.sha@.take(r@.len() as int),
    {
        let s = self.sha.as_str();
        let v = to_chars(s);
        let mut i: usize = 0;
        let mut width: usize = 0;
        assert(v@.take(0) =~= Seq::<char>::empty());
        while i < v.len() && width < 7
            invariant
                v@ == s@,
                i <= v.len(),
                width == text_width(s@.take(i as int)),
                width <= 10,
                i > 0 ==> text_width(s@.take(i - 1)) < 7,
            decreases v.len() - i,
        {
            let n: u32 = code_point(v[i]);
            let w: usize = if n < 0x80 {
                1
            } else if n < 0x800 {
                2
            } else if n < 0x10000 {
                3
            } else {
                4
            };
            assert(s@.take(i + 1).drop_last() =~= s@.take(i as int));
            width += w;
            i += 1;
        }
        proof {
            let whole = s@;
            let k = choose|k: int| cuts_at(whole, short_width(whole), k);
            assert(whole.take(whole.len() as int) =~= whole);
            lemma_width_grows(whole, k, whole.len() as int);
            lemma_width_grows(whole, i as int, whole.len() as int);
            if i < k {
                lemma_width_grows(whole, i as int, k);
            } else if k < i {
                lemma_width_grows(whole, k, i - 1);
                lemma_width_grows(whole, i - 1, i as int);
            }
            assert(whole.subrange(0, i as int) =~= whole.take(i as int));
        }
        s.substring_char(0, i)
    }
}

/// dex also stores `github`, `shortcut` and `beads` blocks here. They are
/// deliberately not modelled: they only appear once sync is configured.
#[derive(Debug)]
pub struct Metadata {
    pub commit: Option<CommitMeta>,
}

/// What a task's metadata says.
pub ghost struct MetadataView {
    pub commit: Option<CommitView>,
}

impl View for Metadata {
    type V = MetadataView;

    open spec fn view(&self) -> MetadataView {
        MetadataView {
            commit: match self.commit {
                Some(c) => Some(c@),
                None => None,
            },
        }
    }
}

impl Clone for Metadata {
    fn clone(&self) -> (r: Self)
        ensures
            r@ == self@,
    {
        Metadata {
            commit: match &self.commit {
                Some(c) => Some(c.clone()),
                None => None,
            },
        }
    }
}

impl Default for Metadata {
    fn default() -> (r: Self)
        ensures
            r@ == (MetadataView { commit: None }),
    {
        Metadata { commit: None }
    }
}

/// The priority of a task that names none.
pub fn default_priority() -> (r: i64)
    ensures
        r == 1,
{
    1
}

/// One dex task, as emitted by `dex list --json`.
#[derive(Debug)]
pub struct Task {
    pub id: String,
    pub parent_id: Option<String>,
    pub name: String,
    pub description: Option<String>,
    pub priority: i64,
    pub completed: bool,
    pub result: Option<String>,
    /// Absent for most tasks; carries the linked commit when there is one.
    pub metadata: Option<Metadata>,
    pub created_at: Option<String>,
    pub updated_at: Option<String>,
    pub started_at: Option<String>,
    pub completed_at: Option<String>,
    pub blocked_by: Vec<String>,
    /// Tasks this one is blocking -- the reverse of `blocked_by`.
    pub blocks: Vec<String>,
    pub children: Vec<String>,
}

/// What a task says, as plain texts and numbers.
pub ghost struct TaskView {
    pub id: Seq<char>,
    pub parent_id: Option<Seq<char>>,
    pub name: Seq<char>,
    pub description: Option<Seq<char>>,
    pub priority: int,
    pub completed: bool,
    pub result: Option<Seq<char>>,
    pub metadata: Option<MetadataView>,
    pub created_at: Option<Seq<char>>,
    pub updated_at: Option<Seq<char>>,
    pub started_at: Option<Seq<char>>,
    pub completed_at: Option<Seq<char>>,
    pub blocked_by: Seq<Seq<char>>,
    pub blocks: Seq<Seq<char>>,
    pub children: Seq<Seq<char>>,
}

impl View for Task {
    type V = TaskView;

    open spec fn view(&self) -> TaskView {
        TaskView {
            id: self.id@,
            parent_id: opt_text(self.parent_id),
            name: self.name@,
            description: opt_text(self.description),
            priority: self.priority as int,
            completed: self.completed,
            result: opt_text(self.result),
            metadata: match self.metadata {
                Some(m) => Some(m@),
                None => None,
            },
            created_at: opt_text(self.created_at),
            updated_at: opt_text(self.updated_at),
            started_at: opt_text(self.started_at),
            completed_at: opt_text(self.completed_at),
            blocked_by: texts(self.blocked_by@),
            blocks: texts(self.blocks@),
            children: texts(self.children@),
        }
    }
}

/// The task that says nothing: no name, no dates, the ordinary priority.
pub open spec fn blank_task() -> TaskView {
    TaskView {
        id: Seq::empty(),
        parent_id: None,
        name: Seq::empty(),
        description: None,
        priority: 1,
        completed: false,
        result: None,
        metadata: None,
        created_at: None,
        updated_at: None,
        started_at: None,
        completed_at: None,
        blocked_by: Seq::empty(),
        blocks: Seq::empty(),
        children: Seq::empty(),
    }
}

impl Default for Task {
    fn default() -> (r: Self)
        ensures
            r@ == blank_task(),
    {
        let t = Task {
            id: String::new(),
            parent_id: None,
            name: String::new(),
            description: None,
            // Not zero: tasks written by hand and tasks read from dex agree on
            // sibling ordering.
            priority: default_priority(),
            completed: false,
            result: None,
            metadata: None,
            created_at: None,
            updated_at: None,
            started_at: None,
            completed_at: None,
            blocked_by: Vec::new(),
            blocks: Vec::new(),
            children: Vec::new(),
        };
        assert(texts(t.blocked_by@) =~= Seq::empty());
        assert(texts(t.blocks@) =~= Seq::empty());
        assert(texts(t.children@) =~= Seq::empty());
        t
    }
}

impl Clone for Task {
    fn clone(&self) -> (r: Self)
        ensures
            r@ == self@,
    {
        Task {
            id: self.id.clone(),
            parent_id: clone_opt(&self.parent_id),
            name: self.name.clone(),
            description: clone_opt(&self.description),
            priority: self.priority,
            completed: self.completed,
            result: clone_opt(&self.result),
            metadata: match &self.metadata {
                Some(m) => Some(m.clone()),
                None => None,
            },
            created_at: clone_opt(&self.created_at),
            updated_at: clone_opt(&self.updated_at),
            started_at: clone_opt(&self.started_at),
            completed_at: clone_opt(&self.completed_at),
            blocked_by: clone_texts(&self.blocked_by),
            blocks: clone_texts(&self.blocks),
            children: clone_texts(&self.children),
        }
    }
}

/// What each task of a list says.
pub open spec fn task_views(tasks: Seq<Task>) -> Seq<TaskView> {
    tasks.map_values(|t: Task| t@)
}

/// Tasks held by id.
pub type TaskMap = StringHashMap<Task>;

/// What each held task says.
pub open spec fn map_views(m: Map<Seq<char>, Task>) -> Map<Seq<char>, TaskView> {
    m.map_values(|t: Task| t@)
}

/// A list of tasks by id. Where an id occurs twice the later task stands.
pub open spec fn indexed(tasks: Seq<TaskView>) -> Map<Seq<char>, TaskView>
    decreases tasks.len(),
{
    if tasks.len() == 0 {
        Map::empty()
    } else {
        indexed(tasks.drop_last()).insert(tasks.last().id, tasks.last())
    }
}

/// Holds a list of tasks by id.
pub fn index(tasks: &Vec<Task>) -> (r: TaskMap)
    ensures
        map_views(r@) == indexed(task_views(tasks@)),
{
    let mut m: TaskMap = StringHashMap::new();
    assert(map_views(m@) =~= Map::empty());
    assert(task_views(tasks@).take(0) =~= Seq::empty());
    for i in 0..tasks.len()
        invariant
            map_views(m@) == indexed(task_views(tasks@).take(i as int)),
    {
        let ghost before = m@;
        let t = tasks[i].clone();
        m.insert(tasks[i].id.clone(), t);
        proof {
            let all = task_views(tasks@);
            assert(all.take(i + 1).drop_last() =~= all.take(i as int));
            assert(map_views(m@) =~= map_views(before).insert(t@.id, t@));
        }
    }
    assert(task_views(tasks@).take(tasks@.len() as int) =~= task_views(tasks@));
    m
}

/// Whether the `i`th blocker of a task still holds it up: it is known, and not
/// completed.
pub open spec fn holds_up(task: TaskView, by_id: Map<Seq<char>, TaskView>, i: int) -> bool {
    let id = task.blocked_by[i];
    by_id.contains_key(id) && !by_id[id].completed
}

/// Whether anything still holds a task up.
pub open spec fn blocked(task: TaskView, by_id: Map<Seq<char>, TaskView>) -> bool {
    exists|i: int| 0 <= i < task.blocked_by.len() && #[trigger] holds_up(task, by_id, i)
}

/// Whether anything is still holding a task up.
///
/// dex never clears `blockedBy` when a blocker finishes, so the list alone says
/// nothing -- the blockers have to be resolved against the rest of the set and
/// checked. Ids absent from the set are skipped, as are completed blockers.
///
/// Only *direct* blockers count, exactly as in dex. That also means a blocking
/// cycle -- which dex refuses to create, but a hand-edited store could hold --
/// cannot recurse.
pub fn is_blocked(task: &Task, by_id: &TaskMap) -> (r: bool)
    ensures
        r == blocked(task@, map_views(by_id@)),
{
    for i in 0..task.blocked_by.len()
        invariant
            forall|j: int| 0 <= j < i ==> !#[trigger] holds_up(task@, map_views(by_id@), j),
    {
        assert(task@.blocked_by[i as int] == task.blocked_by@[i as int]@);
        if let Some(blocker) = by_id.get(task.blocked_by[i].as_str()) {
            if !blocker.completed {
                assert(holds_up(task@, map_views(by_id@), i as int));
                return true;
            }
        }
    }
    false
}

/// Whether a task is started and not yet finished.
pub open spec fn in_progress(t: TaskView) -> bool {
    t.started_at is Some && !t.completed
}

/// The status a task has among the others.
pub open spec fn status_of(task: TaskView, by_id: Map<Seq<char>, TaskView>) -> Status {
    if task.completed {
        Status::Completed
    } else if task.started_at is Some {
        Status::InProgress
    } else if blocked(task, by_id) {
        Status::Blocked
    } else {
        Status::Pending
    }
}

/// dex has no status field; it is implied by `completed`, `started_at` and the
/// state of whatever `blockedBy` points at.
///
/// The order is dex's own: in progress is tested *before* blocked, so a
/// started-but-blocked task reads as in progress. Work is actually happening on
/// it, which is the more useful signal than the fact that something else
/// nominally holds it up.
pub fn status(task: &Task, by_id: &TaskMap) -> (r: Status)
    ensures
        r == status_of(task@, map_views(by_id@)),
{
    if task.completed {
        Status::Completed
    } else if task.started_at.is_some() {
        Status::InProgress
    } else if is_blocked(task, by_id) {
        Status::Blocked
    } else {
        Status::Pending
    }
}

/// The view of an optional borrowed commit.
pub open spec fn commit_view(c: Option<&CommitMeta>) -> Option<CommitView> {
    match c {
        Some(c) => Some(c@),
        None => None,
    }
}

/// The commit a task is linked to.
pub open spec fn linked_commit(t: TaskView) -> Option<CommitView> {
    match t.metadata {
        Some(m) => m.commit,
        None => None,
    }
}

/// Whether a task was last touched at a moment no other stamp of it names.
pub open spec fn update_is_distinct(t: TaskView) -> bool {
    &&& t.updated_at is Some
    &&& t.updated_at != t.created_at
    &&& t.updated_at != t.started_at
    &&& t.updated_at != t.completed_at
}

impl Task {
    /// Started and not yet finished. Self-contained, exactly like dex's own
    /// `isInProgress` -- unlike blocked-ness, this needs no view of the set.
    pub fn is_in_progress(&self) -> (r: bool)
        ensures
            r == in_progress(self@),
    {
        self.started_at.is_some() && !self.completed
    }

    pub fn commit(&self) -> (r: Option<&CommitMeta>)
        ensures
            commit_view(r) == linked_commit(self@),
    {
        match &self.metadata {
            Some(m) => match &m.commit {
                Some(c) => Some(c),
                None => None,
            },
            None => None,
        }
    }

    /// How long the task was actually in flight, if it ran to completion.
    pub fn worked_duration(&self) -> (r: Option<String>)
        ensures
            opt_text(r) == (match (self@.started_at, self@.completed_at) {
                (Some(a), Some(b)) => span_text(a, b),
                _ => None,
            }),
    {
        match (&self.started_at, &self.completed_at) {
            (Some(a), Some(b)) => span_between(a.as_str(), b.as_str()),
            _ => None,
        }
    }

    /// True only when `updated_at` tells you something the other timestamps do
    /// not. Creating, starting and completing all bump `updated_at`, so without
    /// this the row would simply repeat whichever of those happened last.
    pub fn has_distinct_update(&self) -> (r: bool)
        ensures
            r == update_is_distinct(self@),
    {
        match &self.updated_at {
            None => false,
            Some(updated) => {
                !same_opt(&self.created_at, updated.as_str()) && !same_opt(
                    &self.started_at,
                    updated.as_str(),
                ) && !same_opt(&self.completed_at, updated.as_str())
            },
        }
    }
}

// ---------------------------------------------------------------------------
// Time
// ---------------------------------------------------------------------------

/// Whether `chrono::DateTime::parse_from_rfc3339` accepts a text.
pub uninterp spec fn is_timestamp(s: Seq<char>) -> bool;

/// The whole seconds from one timestamp to another, as chrono counts them:
/// `signed_duration_since`, then `num_seconds`.
pub uninterp spec fn seconds_apart(start: Seq<char>, end: Seq<char>) -> int;

/// `chrono::DateTime::parse_from_rfc3339` on both texts, then
/// `DateTime::signed_duration_since` and `TimeDelta::num_seconds`. There is an
/// answer exactly when both texts are timestamps, and it depends on the two
/// texts alone.
#[verifier::external_body]
fn seconds_between(start: &str, end: &str) -> (r: Option<i64>)
    ensures
        (r is Some) == (is_timestamp(start@) && is_timestamp(end@)),
        r is Some ==> r->0 == seconds_apart(start@, end@),
{
    let a = chrono::DateTime::parse_from_rfc3339(start).ok()?;
    let b = chrono::DateTime::parse_from_rfc3339(end).ok()?;
    Some(b.signed_duration_since(a).num_seconds())
}

/// The whole seconds from a timestamp to a moment, given in nanoseconds after
/// the epoch, as chrono counts them.
pub uninterp spec fn seconds_after(stamp: Seq<char>, now: int) -> int;

/// `chrono::DateTime::parse_from_rfc3339`, then the seconds since that moment
/// by `chrono::Utc::now`: `signed_duration_since`, then `num_seconds`. There is
/// an answer exactly when the text is a timestamp; it is that of the text and of
/// whatever the clock says.
#[verifier::external_body]
fn seconds_since(stamp: &str) -> (r: Option<i64>)
    ensures
        (r is Some) == is_timestamp(stamp@),
        r is Some ==> exists|now: int| r->0 == #[trigger] seconds_after(stamp@, now),
{
    let then = chrono::DateTime::parse_from_rfc3339(stamp).ok()?;
    let now = chrono::Utc::now();
    Some(now.signed_duration_since(then.with_timezone(&chrono::Utc)).num_seconds())
}

/// Whether a pattern holds nothing for chrono to fill in but years, months,
/// days, hours, minutes and seconds, which every moment has.
pub open spec fn known_pattern(p: Seq<char>) -> bool {
    forall|i: int|
        0 <= i < p.len() && #[trigger] p[i] == '%' ==> i + 1 < p.len() && fills_in(p[i + 1])
}

/// Whether a letter stands for a part of a moment.
pub open spec fn fills_in(c: char) -> bool {
    c == 'Y' || c == 'm' || c == 'd' || c == 'H' || c == 'M' || c == 'S'
}

/// How a timestamp reads under a pattern where clocks are this many seconds
/// ahead of UTC.
pub uninterp spec fn reading_at(stamp: Seq<char>, pattern: Seq<char>, offset: int) -> Seq<char>;

/// `chrono::DateTime::parse_from_rfc3339`, then `with_timezone` to
/// `chrono::Local`, shown by `format` under a pattern that it knows in full: it
/// panics on one that it does not. There is an answer exactly when the text is a
/// timestamp; it is the text's reading at whatever offset, less than a day
/// either way, the machine's time zone has at that moment.
#[verifier::external_body]
fn in_local_time(stamp: &str, pattern: &str) -> (r: Option<String>)
    requires
        known_pattern(pattern@),
    ensures
        (r is Some) == is_timestamp(stamp@),
        r is Some ==> exists|offset: int|
            -86400 < offset < 86400 && r->0@ == #[trigger] reading_at(stamp@, pattern@, offset),
{
    let dt = chrono::DateTime::parse_from_rfc3339(stamp).ok()?;
    Some(dt.with_timezone(&chrono::Local).format(pattern).to_string())
}

proof fn lemma_stamp_pattern()
    ensures
        known_pattern("%Y-%m-%d %H:%M"@),
{
    reveal_strlit("%Y-%m-%d %H:%M");
    let p = "%Y-%m-%d %H:%M"@;
    assert(p.len() == 14);
    assert(p[1] == 'Y' && p[2] == '-' && p[4] == 'm' && p[5] == '-' && p[7] == 'd');
    assert(p[8] == ' ' && p[10] == 'H' && p[11] == ':' && p[13] == 'M');
    assert forall|i: int| 0 <= i < p.len() && #[trigger] p[i] == '%' implies i + 1 < p.len()
        && fills_in(p[i + 1]) by {
        assert(i == 0 || i == 3 || i == 6 || i == 9 || i == 12);
    }
}

/// What is shown for a stamp, given how it reads in local time if it is one.
pub open spec fn stamp_text(raw: Option<Seq<char>>, local: Option<Seq<char>>) -> Seq<char> {
    match (raw, local) {
        (None, _) => "-"@,
        (Some(_), Some(t)) => t,
        (Some(r), None) => r,
    }
}

/// What to show for a stamp, given how it reads in local time if it is one.
pub fn shown_stamp(raw: &Option<String>, local: Option<String>) -> (r: String)
    ensures
        r@ == stamp_text(opt_text(*raw), opt_text(local)),
{
    match raw {
        None => "-".to_string(),
        Some(r) => match local {
            Some(t) => t,
            // Never lose the value just because the shape was unexpected.
            None => r.clone(),
        },
    }
}

/// Formats an ISO-8601 timestamp from dex as local `yyyy-MM-dd HH:mm`. The
/// offset rests on the machine's time zone; anything that is no timestamp is
/// shown as it stands.
pub fn local_time(iso: &Option<String>) -> (r: String)
    ensures
        iso is None ==> r@ == "-"@,
        iso is Some && !is_timestamp(iso->0@) ==> r@ == iso->0@,
        iso is Some && is_timestamp(iso->0@) ==> exists|offset: int|
            -86400 < offset < 86400 && r@ == #[trigger] reading_at(
                iso->0@,
                "%Y-%m-%d %H:%M"@,
                offset,
            ),
{
    proof {
        lemma_stamp_pattern();
    }
    let local: Option<String> = match iso {
        Some(raw) => in_local_time(raw.as_str(), "%Y-%m-%d %H:%M"),
        None => None,
    };
    shown_stamp(iso, local)
}

/// A duration in one short unit: `12m`, `4h`, `2d`, `3w`.
pub open spec fn short_span(secs: int) -> Seq<char> {
    if secs < 60 {
        "now"@
    } else if secs < 3600 {
        decimal_of((secs / 60) as nat) + "m"@
    } else if secs < 86400 {
        decimal_of((secs / 3600) as nat) + "h"@
    } else if secs < 604800 {
        decimal_of((secs / 86400) as nat) + "d"@
    } else {
        decimal_of((secs / 604800) as nat) + "w"@
    }
}

/// Compresses a duration to a short label: `12m`, `4h`, `2d`, `3w`.
///
/// Split out from the clock so it can be tested directly.
pub fn humanize_secs(secs: i64) -> (r: String)
    ensures
        r@ == short_span(secs as int),
{
    if secs < 60 {
        "now".to_string()
    } else if secs < 3600 {
        concat(decimal((secs / 60) as u64).as_str(), "m")
    } else if secs < 86400 {
        concat(decimal((secs / 3600) as u64).as_str(), "h")
    } else if secs < 604800 {
        concat(decimal((secs / 86400) as u64).as_str(), "d")
    } else {
        concat(decimal((secs / 604800) as u64).as_str(), "w")
    }
}

/// A duration in `major` units, and what is left over in `minor` ones when
/// anything is.
pub open spec fn two_units(
    secs: int,
    major: int,
    major_unit: Seq<char>,
    minor: int,
    minor_unit: Seq<char>,
) -> Seq<char> {
    let whole = decimal_of((secs / major) as nat) + major_unit;
    let rest = (secs % major) / minor;
    if rest == 0 {
        whole
    } else {
        whole + " "@ + decimal_of(rest as nat) + minor_unit
    }
}

/// A duration as up to two units.
pub open spec fn long_span(secs: int) -> Seq<char> {
    if secs <= 0 {
        "0s"@
    } else if secs < 60 {
        decimal_of(secs as nat) + "s"@
    } else if secs < 3600 {
        two_units(secs, 60, "m"@, 1, "s"@)
    } else if secs < 86400 {
        two_units(secs, 3600, "h"@, 60, "m"@)
    } else if secs < 604800 {
        two_units(secs, 86400, "d"@, 3600, "h"@)
    } else {
        two_units(secs, 604800, "w"@, 86400, "d"@)
    }
}

fn in_two_units(secs: i64, major: i64, major_unit: &str, minor: i64, minor_unit: &str) -> (r: String)
    requires
        secs >= 0,
        major > 0,
        minor > 0,
    ensures
        r@ == two_units(secs as int, major as int, major_unit@, minor as int, minor_unit@),
{
    let whole: i64 = secs / major;
    let rest: i64 = (secs % major) / minor;
    proof {
        assert(secs / major >= 0) by (nonlinear_arith)
            requires
                secs >= 0,
                major > 0,
        ;
        assert(rest >= 0) by (nonlinear_arith)
            requires
                rest == (secs as int % major as int) / minor as int,
                major > 0,
                minor > 0,
        ;
    }
    let mut out = concat(decimal(whole as u64).as_str(), major_unit);
    if rest != 0 {
        out.append(" ");
        out.append(decimal(rest as u64).as_str());
        out.append(minor_unit);
    }
    out
}

/// A duration as up to two units: `45s`, `5m 30s`, `4h 12m`, `3d 5h`, `2w 3d`.
///
/// Deliberately more precise than `humanize_secs`, which shows one unit because
/// it has to fit a narrow gutter. Here there is room, and "4h 12m" answers
/// "how long did this take" better than "4h".
pub fn humanize_span(secs: i64) -> (r: String)
    ensures
        r@ == long_span(secs as int),
{
    if secs <= 0 {
        "0s".to_string()
    } else if secs < 60 {
        concat(decimal(secs as u64).as_str(), "s")
    } else if secs < 3600 {
        in_two_units(secs, 60, "m", 1, "s")
    } else if secs < 86400 {
        in_two_units(secs, 3600, "h", 60, "m")
    } else if secs < 604800 {
        in_two_units(secs, 86400, "d", 3600, "h")
    } else {
        in_two_units(secs, 604800, "w", 86400, "d")
    }
}

/// The time between two stamps, where both are timestamps.
pub open spec fn span_text(start: Seq<char>, end: Seq<char>) -> Option<Seq<char>> {
    if is_timestamp(start) && is_timestamp(end) {
        Some(long_span(seconds_apart(start, end)))
    } else {
        None
    }
}

/// Elapsed time between two ISO-8601 stamps, or None if either will not parse.
pub fn span_between(start: &str, end: &str) -> (r: Option<String>)
    ensures
        opt_text(r) == span_text(start@, end@),
{
    match seconds_between(start, end) {
        Some(secs) => Some(humanize_span(secs)),
        None => None,
    }
}

/// How long ago an ISO-8601 timestamp was, or None if absent or unparseable.
/// What time it is now rests on the clock.
pub fn age(iso: &Option<String>) -> (r: Option<String>)
    ensures
        r is Some <==> iso is Some && is_timestamp(iso->0@),
        r matches Some(t) ==> exists|now: int|
            t@ == short_span(#[trigger] seconds_after(iso->0@, now)),
{
    match iso {
        Some(raw) => match seconds_since(raw.as_str()) {
            Some(secs) => Some(humanize_secs(secs)),
            None => None,
        },
        None => None,
    }
}

proof fn lemma_decimal_has_no_sign(n: nat)
    ensures
        !decimal_of(n).contains('-'),
    decreases n,
{
    if n >= 10 {
        lemma_decimal_has_no_sign(n / 10);
        let front = decimal_of(n / 10);
        assert forall|i: int| 0 <= i < decimal_of(n).len() implies decimal_of(n)[i] != '-' by {
            if i < front.len() {
                assert(front.contains(front[i]));
            }
        }
    }
}

proof fn lemma_two_units_lack_sign(
    secs: int,
    major: int,
    major_unit: Seq<char>,
    minor: int,
    minor_unit: Seq<char>,
)
    requires
        !major_unit.contains('-'),
        !minor_unit.contains('-'),
    ensures
        !two_units(secs, major, major_unit, minor, minor_unit).contains('-'),
{
    reveal_strlit(" ");
    let whole = decimal_of((secs / major) as nat);
    let rest = decimal_of(((secs % major) / minor) as nat);
    lemma_decimal_has_no_sign((secs / major) as nat);
    lemma_decimal_has_no_sign(((secs % major) / minor) as nat);
    lemma_concat_lacks(whole, major_unit, '-');
    lemma_concat_lacks(whole + major_unit, " "@, '-');
    lemma_concat_lacks(whole + major_unit + " "@, rest, '-');
    lemma_concat_lacks(whole + major_unit + " "@ + rest, minor_unit, '-');
}

/// Clock skew between the machines writing a store never shows: a negative
/// duration reads as no time at all, and no duration reads with a minus sign.
pub proof fn law_durations_are_never_negative(secs: int)
    ensures
        secs < 0 ==> short_span(secs) == short_span(0) && long_span(secs) == long_span(0),
        !short_span(secs).contains('-'),
        !long_span(secs).contains('-'),
{
    reveal_strlit("now");
    reveal_strlit("0s");
    reveal_strlit("s");
    reveal_strlit("m");
    reveal_strlit("h");
    reveal_strlit("d");
    reveal_strlit("w");
    reveal_strlit(" ");
    assert forall|n: nat| !#[trigger] decimal_of(n).contains('-') by {
        lemma_decimal_has_no_sign(n);
    }
    assert forall|n: nat, unit: Seq<char>| !unit.contains('-') implies !(#[trigger] (decimal_of(n)
        + unit)).contains('-') by {
        lemma_concat_lacks(decimal_of(n), unit, '-');
    }
    lemma_two_units_lack_sign(secs, 60, "m"@, 1, "s"@);
    lemma_two_units_lack_sign(secs, 3600, "h"@, 60, "m"@);
    lemma_two_units_lack_sign(secs, 86400, "d"@, 3600, "h"@);
    lemma_two_units_lack_sign(secs, 604800, "w"@, 86400, "d"@);
}

/// Where a character of a text put together from two parts comes from.
proof fn lemma_concat_lacks(a: Seq<char>, b: Seq<char>, c: char)
    requires
        !a.contains(c),
        !b.contains(c),
    ensures
        !(a + b).contains(c),
{
    assert forall|i: int| 0 <= i < (a + b).len() implies (a + b)[i] != c by {
        if i < a.len() {
            assert(a.contains(a[i]));
        } else {
            assert(b.contains(b[i - a.len()]));
        }
    }
}

// ---------------------------------------------------------------------------
// Calling dex
// ---------------------------------------------------------------------------

/// What one run of dex left behind.
#[derive(Debug)]
pub struct Output {
    pub code: i32,
    pub stdout: String,
    pub stderr: String,
}

impl Clone for Output {
    fn clone(&self) -> (r: Self)
        ensures
            r == *self,
    {
        Output { code: self.code, stdout: self.stdout.clone(), stderr: self.stderr.clone() }
    }
}

/// What a failed run has to say for itself: its diagnostics, else its output,
/// else its exit code.
pub open spec fn message_of(out: Output, label: Seq<char>) -> Seq<char> {
    if trimmed(out.stderr@).len() > 0 {
        trimmed(out.stderr@)
    } else if trimmed(out.stdout@).len() > 0 {
        trimmed(out.stdout@)
    } else {
        label + " failed (exit "@ + signed_decimal_of(out.code as int) + ")"@
    }
}

impl Output {
    pub fn ok(&self) -> (r: bool)
        ensures
            r == (self.code == 0),
    {
        self.code == 0
    }

    /// dex writes real diagnostics to stderr; prefer those over an exit code.
    pub fn message(&self, label: &str) -> (r: String)
        ensures
            r@ == message_of(*self, label@),
    {
        let err = trim(self.stderr.as_str());
        if err.unicode_len() > 0 {
            return err.to_owned();
        }
        let out = trim(self.stdout.as_str());
        if out.unicode_len() > 0 {
            return out.to_owned();
        }
        let mut m = concat(label, " failed (exit ");
        m.append(signed_decimal(self.code as i64).as_str());
        m.append(")");
        m
    }
}

/// Seam so the argv built for every verb can be asserted without running dex.
pub trait Runner: Send + Sync {
    fn run(&self, args: &[String]) -> Result<Output, String>;
}

/// Where to get dex, for the one message that has to explain the dependency.
pub const HOME: &'static str = "https://dex.rip/";

/// A file name under a directory, as `Path::join` puts them together on Unix.
pub open spec fn path_under(dir: Seq<char>, name: Seq<char>) -> Seq<char> {
    if name.len() > 0 && name[0] == '/' {
        name
    } else if dir.len() == 0 || dir.last() == '/' {
        dir + name
    } else {
        dir + "/"@ + name
    }
}

/// A file name under a directory.
pub fn join_path(dir: &str, name: &str) -> (r: String)
    ensures
        r@ == path_under(dir@, name@),
{
    if name.unicode_len() > 0 && name.get_char(0) == '/' {
        return name.to_owned();
    }
    let n: usize = dir.unicode_len();
    if n == 0 || dir.get_char(n - 1) == '/' {
        concat(dir, name)
    } else {
        concat3(dir, "/", name)
    }
}

/// The places a name could be on a `PATH`-style list, in order. Empty entries
/// name no place.
pub open spec fn places(name: Seq<char>, dirs: Seq<Seq<char>>) -> Seq<Seq<char>>
    decreases dirs.len(),
{
    if dirs.len() == 0 {
        Seq::empty()
    } else if dirs.last().len() == 0 {
        places(name, dirs.drop_last())
    } else {
        places(name, dirs.drop_last()).push(path_under(dirs.last(), name))
    }
}

/// Whether a test on paths can answer `b` for a text.
pub open spec fn answers<F: Fn(&str) -> bool>(f: F, text: Seq<char>, b: bool) -> bool {
    exists|s: &str| s@ == text && #[trigger] call_ensures(f, (s,), b)
}

/// Whether none of the first `n` places passes the test.
pub open spec fn absent<F: Fn(&str) -> bool>(at: Seq<Seq<char>>, is_file: F, n: int) -> bool {
    forall|j: int| 0 <= j < n ==> answers(is_file, #[trigger] at[j], false)
}

/// What a search along `at` found: the first place that passes the test, or
/// nothing when none does.
pub open spec fn first_present<F: Fn(&str) -> bool>(
    at: Seq<Seq<char>>,
    is_file: F,
    found: Option<Seq<char>>,
) -> bool {
    match found {
        Some(p) => exists|i: int|
            0 <= i < at.len() && p == at[i] && answers(is_file, p, true) && #[trigger] absent(
                at,
                is_file,
                i,
            ),
        None => absent(at, is_file, at.len() as int),
    }
}

/// Where `name` resolves on `path`, if anywhere. `path` is a `PATH`-style
/// colon-separated list, and `is_file` says what is there.
///
/// Needed because `ErrorKind::NotFound` from an exec is **ambiguous**: it means
/// "nothing to run" whether the binary is absent *or* present with a `#!` line
/// pointing at an interpreter that is absent. dex is a Node script, so the
/// second is a real case -- a node upgrade moving the runtime out from under it
/// produces a `dex` sitting on the PATH that cannot start. Telling someone to
/// install a thing they can see with `which` sends them the wrong way.
pub fn lookup<F: Fn(&str) -> bool>(name: &str, path: &str, is_file: F) -> (r: Option<String>)
    requires
        forall|s: &str| call_requires(is_file, (s,)),
    ensures
        first_present(places(name@, pieces(path@, ':')), is_file, opt_text(r)),
{
    let dirs = split(path, ':');
    let ghost all = texts(dirs@);
    assert(all.take(0) =~= Seq::empty());
    assert(all.take(all.len() as int) =~= all);
    for i in 0..dirs.len()
        invariant
            all == texts(dirs@),
            all == pieces(path@, ':'),
            forall|s: &str| call_requires(is_file, (s,)),
            absent(
                places(name@, all.take(i as int)),
                is_file,
                places(name@, all.take(i as int)).len() as int,
            ),
    {
        let ghost so_far = places(name@, all.take(i as int));
        assert(all.take(i + 1).drop_last() =~= all.take(i as int));
        assert(all[i as int] == dirs@[i as int]@);
        if dirs[i].as_str().unicode_len() > 0 {
            let p = join_path(dirs[i].as_str(), name);
            let there = is_file(p.as_str());
            assert(answers(is_file, p@, there));
            if there {
                proof {
                    lemma_places_prefix(name@, all, i + 1);
                    let at = places(name@, all);
                    assert(at[so_far.len() as int] == p@);
                    assert forall|j: int| 0 <= j < so_far.len() implies answers(
                        is_file,
                        #[trigger] at[j],
                        false,
                    ) by {
                        assert(at[j] == so_far[j]);
                    }
                    assert(absent(at, is_file, so_far.len() as int));
                }
                return Some(p);
            }
            proof {
                let next = places(name@, all.take(i + 1));
                assert forall|j: int| 0 <= j < next.len() implies answers(
                    is_file,
                    #[trigger] next[j],
                    false,
                ) by {
                    if j < so_far.len() {
                        assert(next[j] == so_far[j]);
                    } else {
                        assert(next[j] == p@);
                    }
                }
            }
        }
    }
    None
}

proof fn lemma_places_prefix(name: Seq<char>, dirs: Seq<Seq<char>>, k: int)
    requires
        0 <= k <= dirs.len(),
    ensures
        places(name, dirs.take(k)).len() <= places(name, dirs).len(),
        forall|j: int|
            0 <= j < places(name, dirs.take(k)).len() ==> #[trigger] places(name, dirs)[j] == places(
                name,
                dirs.take(k),
            )[j],
    decreases dirs.len(),
{
    if k < dirs.len() {
        lemma_places_prefix(name, dirs.drop_last(), k);
        assert(dirs.drop_last().take(k) =~= dirs.take(k));
    } else {
        assert(dirs.take(k) =~= dirs);
    }
}

/// Why `dex` could not be started, given where it was found.
pub open spec fn not_started(found: Option<Seq<char>>) -> Seq<char> {
    match found {
        Some(p) => "`dex` is at "@ + p
            + " but could not be started -- its interpreter is probably missing (check the `#!` line)"@,
        None => "`dex` was not found on your PATH"@,
    }
}

/// Why `dex` could not be started, said as precisely as the evidence allows.
pub fn why_not_found<F: Fn(&str) -> bool>(path: &str, is_file: F) -> (r: String)
    requires
        forall|s: &str| call_requires(is_file, (s,)),
    ensures
        exists|found: Option<Seq<char>>|
            first_present(places("dex"@, pieces(path@, ':')), is_file, found) && r@
                == #[trigger] not_started(found),
{
    let found = lookup("dex", path, is_file);
    let ghost seen = opt_text(found);
    let r = match found {
        Some(p) => concat3(
            "`dex` is at ",
            p.as_str(),
            " but could not be started -- its interpreter is probably missing (check the `#!` line)",
        ),
        None => "`dex` was not found on your PATH".to_string(),
    };
    assert(r@ == not_started(seen));
    r
}

/// The first line that starts with a word dex and node use for an error.
pub open spec fn names_error(line: Seq<char>) -> bool {
    starts(line, "Error:"@) || starts(line, "error:"@)
}

/// The first of the trimmed lines that names an error.
pub open spec fn first_error(lines: Seq<Seq<char>>) -> Option<Seq<char>>
    decreases lines.len(),
{
    if lines.len() == 0 {
        None
    } else if names_error(trimmed(lines[0])) {
        Some(trimmed(lines[0]))
    } else {
        first_error(lines.drop_first())
    }
}

/// The first of the trimmed lines that is not blank.
pub open spec fn first_words(lines: Seq<Seq<char>>) -> Option<Seq<char>>
    decreases lines.len(),
{
    if lines.len() == 0 {
        None
    } else if trimmed(lines[0]).len() > 0 {
        Some(trimmed(lines[0]))
    } else {
        first_words(lines.drop_first())
    }
}

/// The line of an error text that names the cause.
pub open spec fn cause_of(err: Seq<char>) -> Seq<char> {
    match first_error(lines_of(err)) {
        Some(l) => l,
        None => match first_words(lines_of(err)) {
            Some(l) => l,
            None => err,
        },
    }
}

fn cause(err: &str) -> (r: String)
    ensures
        r@ == cause_of(err@),
{
    let ls = lines(err);
    let ghost all = texts(ls@);
    assert(all.skip(0) =~= all);
    for i in 0..ls.len()
        invariant
            all == texts(ls@),
            all == lines_of(err@),
            first_error(all.skip(i as int)) == first_error(all),
    {
        assert(all.skip(i as int)[0] == ls@[i as int]@);
        assert(all.skip(i as int).drop_first() =~= all.skip(i + 1));
        let l = trim(ls[i].as_str());
        if starts_with(l, "Error:") || starts_with(l, "error:") {
            return l.to_owned();
        }
    }
    for i in 0..ls.len()
        invariant
            all == texts(ls@),
            all == lines_of(err@),
            first_error(all) is None,
            first_words(all.skip(i as int)) == first_words(all),
    {
        assert(all.skip(i as int)[0] == ls@[i as int]@);
        assert(all.skip(i as int).drop_first() =~= all.skip(i + 1));
        let l = trim(ls[i].as_str());
        if l.unicode_len() > 0 {
            return l.to_owned();
        }
    }
    err.to_owned()
}

/// The message for a dex that cannot be run, around its cause.
pub open spec fn dex_required(cause: Seq<char>) -> Seq<char> {
    "dextui: dex is required, but could not be run.\n\n    "@ + cause
        + "\n\ndextui is a viewer for dex -- it reads and writes tasks only through\nthe dex CLI, so there is nothing it can show without it.\n\nInstall it from "@
        + HOME@ + " and check that `dex --version` works."@
}

/// What to print when dex cannot be run at all.
///
/// dextui is a front end and nothing else -- every read and every write is a
/// `dex` call -- so this is a hard stop rather than a degraded mode, and the
/// message has to say what to install and where from.
///
/// It deliberately does **not** guess at PATH. `dex` being absent and `dex`
/// being present but failing produce very different errors, and telling someone
/// to check their PATH when the binary is sitting on it sends them the wrong
/// way. The underlying error is shown instead, and it is left to say which
/// happened. Node stack traces run to dozens of lines, and the *first* is the
/// least useful of them, so the line that names an error is preferred.
pub fn requires_dex(err: &str) -> (r: String)
    ensures
        r@ == dex_required(cause_of(err@)),
{
    let mut out = "dextui: dex is required, but could not be run.\n\n    ".to_owned();
    out.append(cause(err).as_str());
    out.append(
        "\n\ndextui is a viewer for dex -- it reads and writes tasks only through\nthe dex CLI, so there is nothing it can show without it.\n\nInstall it from ",
    );
    out.append(HOME);
    out.append(" and check that `dex --version` works.");
    out
}

/// Why a store directory is refused: a path ending in `.jsonl` names the file
/// in it.
pub open spec fn store_refused(store_dir: Seq<char>) -> Option<Seq<char>> {
    if ends(store_dir, ".jsonl"@) {
        Some("store path must be the .dex directory, not a file: "@ + store_dir)
    } else {
        None
    }
}

/// What is wrong with a store directory, if anything is.
///
/// dex accepts the path of the file, finds no tasks, and returns an empty list
/// rather than an error -- a wrong store would look like an empty project.
pub fn store_problem(store_dir: &str) -> (r: Option<String>)
    ensures
        opt_text(r) == store_refused(store_dir@),
{
    if ends_with(store_dir, ".jsonl") {
        Some(concat("store path must be the .dex directory, not a file: ", store_dir))
    } else {
        None
    }
}

/// One task store's dex.
pub struct Dex<R: Runner> {
    pub runner: Box<R>,
    /// The store every call targets, or `None` to let dex resolve it from the
    /// working directory.
    ///
    /// Held here rather than passed per call because a verb that forgets the
    /// flag writes to a different project's task list, silently. One field and
    /// one argv builder means there is exactly one place that can be wrong.
    pub store: Option<String>,
}

/// The full argv for a call, with the global option ahead of the verb.
pub open spec fn argv_of(store: Option<Seq<char>>, rest: Seq<Seq<char>>) -> Seq<Seq<char>> {
    match store {
        Some(dir) => seq!["--storage-path"@, dir] + rest,
        None => rest,
    }
}

/// What a run that only has to succeed comes to.
pub open spec fn settled(out: Result<Output, String>, label: Seq<char>) -> Result<(), Seq<char>> {
    match out {
        Ok(o) => if o.code == 0 {
            Ok(())
        } else {
            Err(message_of(o, label))
        },
        Err(e) => Err(e@),
    }
}

/// What a run whose output is wanted comes to.
pub open spec fn printed(out: Result<Output, String>, label: Seq<char>) -> Result<
    Seq<char>,
    Seq<char>,
> {
    match out {
        Ok(o) => if o.code == 0 {
            Ok(o.stdout@)
        } else {
            Err(message_of(o, label))
        },
        Err(e) => Err(e@),
    }
}

/// The texts behind an outcome.
pub open spec fn unit_text(r: Result<(), String>) -> Result<(), Seq<char>> {
    match r {
        Ok(()) => Ok(()),
        Err(e) => Err(e@),
    }
}

pub open spec fn dir_args() -> Seq<Seq<char>> {
    seq!["dir"@]
}

pub open spec fn list_args() -> Seq<Seq<char>> {
    seq!["list"@, "--json"@, "--all"@]
}

pub open spec fn start_args(id: Seq<char>) -> Seq<Seq<char>> {
    seq!["start"@, id]
}

pub open spec fn complete_args(id: Seq<char>, result: Seq<char>, force: bool) -> Seq<Seq<char>> {
    let args = seq!["complete"@, id, "--result"@, result, "--no-commit"@];
    if force {
        args.push("--force"@)
    } else {
        args
    }
}

pub open spec fn create_args(
    name: Seq<char>,
    description: Seq<char>,
    parent: Option<Seq<char>>,
) -> Seq<Seq<char>> {
    let args = seq!["create"@, name];
    let args = if trimmed(description).len() > 0 {
        args + seq!["--description"@, description]
    } else {
        args
    };
    match parent {
        Some(p) => args + seq!["--parent"@, p],
        None => args,
    }
}

pub open spec fn edit_args(
    id: Seq<char>,
    name: Option<Seq<char>>,
    description: Option<Seq<char>>,
) -> Seq<Seq<char>> {
    let args = seq!["edit"@, id];
    let args = match name {
        Some(n) => args + seq!["--name"@, n],
        None => args,
    };
    match description {
        Some(d) => args + seq!["--description"@, d],
        None => args,
    }
}

pub open spec fn delete_args(id: Seq<char>) -> Seq<Seq<char>> {
    seq!["delete"@, id, "--force"@]
}

fn push(v: &mut Vec<String>, s: &str)
    ensures
        texts(final(v)@) == texts(old(v)@).push(s@),
{
    let ghost before = v@;
    v.push(s.to_owned());
    assert(texts(v@) =~= texts(before).push(s@));
}

fn args_of(verb: &str) -> (r: Vec<String>)
    ensures
        texts(r@) == seq![verb@],
{
    let mut v: Vec<String> = Vec::new();
    assert(texts(v@) =~= Seq::empty());
    push(&mut v, verb);
    assert(texts(v@) =~= seq![verb@]);
    v
}

impl<R: Runner> Dex<R> {
    /// Whether dex, asked with these arguments, can have come out so.
    pub open spec fn asked(&self, rest: Seq<Seq<char>>, out: Result<Output, String>) -> bool {
        exists|argv: &[String]| #[trigger]
            call_ensures(R::run, (&*self.runner, argv), out) && texts(argv@) == argv_of(
                opt_text(self.store),
                rest,
            )
    }

    pub fn new(runner: Box<R>) -> (r: Self)
        ensures
            r.runner == runner,
            r.store is None,
    {
        Dex { runner, store: None }
    }

    /// Targets a specific store directory.
    pub fn for_store_with(store_dir: &str, runner: Box<R>) -> (r: Result<Self, String>)
        ensures
            match (r, store_refused(store_dir@)) {
                (Ok(d), None) => d.runner == runner && opt_text(d.store) == Some(store_dir@),
                (Err(e), Some(text)) => e@ == text,
                _ => false,
            },
    {
        match store_problem(store_dir) {
            Some(e) => Err(e),
            None => Ok(Dex { runner, store: Some(store_dir.to_owned()) }),
        }
    }

    /// The full argv for a call, with the global option ahead of the verb.
    pub fn argv(&self, rest: &Vec<String>) -> (r: Vec<String>)
        ensures
            texts(r@) == argv_of(opt_text(self.store), texts(rest@)),
    {
        match &self.store {
            Some(dir) => {
                let mut v = args_of("--storage-path");
                push(&mut v, dir.as_str());
                let ghost head = texts(v@);
                assert(head =~= seq!["--storage-path"@, dir@]);
                assert(head + texts(rest@).take(0) =~= head);
                for i in 0..rest.len()
                    invariant
                        texts(v@) == head + texts(rest@).take(i as int),
                {
                    proof {
                        let t = texts(rest@);
                        assert(head + t.take(i + 1) =~= (head + t.take(i as int)).push(t[i as int]));
                    }
                    push(&mut v, rest[i].as_str());
                }
                assert(texts(rest@).take(rest@.len() as int) =~= texts(rest@));
                v
            },
            None => clone_texts(rest),
        }
    }

    fn ask(&self, rest: &Vec<String>) -> (r: Result<Output, String>)
        ensures
            self.asked(texts(rest@), r),
    {
        let argv = self.argv(rest);
        self.runner.run(argv.as_slice())
    }

    fn void(&self, rest: &Vec<String>, label: &str) -> (r: Result<(), String>)
        ensures
            exists|out| #[trigger] self.asked(texts(rest@), out) && unit_text(r) == settled(out, label@),
    {
        match self.ask(rest) {
            Ok(out) => if out.ok() {
                Ok(())
            } else {
                Err(out.message(label))
            },
            Err(e) => Err(e),
        }
    }

    /// Resolves the store dex is actually using.
    ///
    /// This is NOT always `./.dex`: outside a git repo dex falls back to a global
    /// store under `~/.config/dex`, so the watcher must follow whatever this says.
    pub fn store_dir(&self) -> (r: Result<String, String>)
        ensures
            exists|out| #[trigger]
                self.asked(dir_args(), out) && match (r, printed(out, "dex dir"@)) {
                    (Ok(dir), Ok(text)) => dir@ == trimmed(text),
                    (Err(e), Err(text)) => e@ == text,
                    _ => false,
                },
    {
        let args = args_of("dir");
        assert(texts(args@) == dir_args());
        match self.ask(&args) {
            Ok(out) => if out.ok() {
                Ok(trim(out.stdout.as_str()).to_owned())
            } else {
                Err(out.message("dex dir"))
            },
            Err(e) => Err(e),
        }
    }

    /// Always fetches `--all`; status filtering happens in memory so that
    /// changing the filter is instant and costs no process spawn. `decode`
    /// turns the JSON into tasks, or says what is wrong with it.
    pub fn list<D: Fn(&str) -> Result<Vec<Task>, String>>(&self, decode: D) -> (r: Result<
        Vec<Task>,
        String,
    >)
        requires
            forall|s: &str| call_requires(decode, (s,)),
        ensures
            exists|out| #[trigger]
                self.asked(list_args(), out) && match printed(
                    out,
                    "dex list"@,
                ) {
                    Ok(json) => decoded(decode, json, r),
                    Err(text) => r is Err && r->Err_0@ == text,
                },
    {
        let mut args = args_of("list");
        push(&mut args, "--json");
        push(&mut args, "--all");
        assert(texts(args@) =~= list_args());
        match self.ask(&args) {
            Ok(out) => if out.ok() {
                let tasks = decode(out.stdout.as_str());
                let ghost seen = tasks;
                let r = list_outcome(tasks);
                assert(list_comes_to(seen, r));
                r
            } else {
                Err(out.message("dex list"))
            },
            Err(e) => Err(e),
        }
    }

    pub fn start(&self, id: &str) -> (r: Result<(), String>)
        ensures
            exists|out| #[trigger]
                self.asked(start_args(id@), out) && unit_text(r) == settled(out, "dex start"@),
    {
        let mut args = args_of("start");
        push(&mut args, id);
        assert(texts(args@) =~= start_args(id@));
        self.void(&args, "dex start")
    }

    /// `--no-commit` is always sent: for tasks synced to GitHub, dex refuses to
    /// complete without either `--commit` or `--no-commit`, and a TUI has no way
    /// to answer that prompt. `force` bypasses the incomplete-subtask check.
    pub fn complete(&self, id: &str, result: &str, force: bool) -> (r: Result<(), String>)
        ensures
            exists|out| #[trigger]
                self.asked(complete_args(id@, result@, force), out) && unit_text(r) == settled(
                    out,
                    "dex complete"@,
                ),
    {
        let mut args = args_of("complete");
        push(&mut args, id);
        push(&mut args, "--result");
        push(&mut args, result);
        push(&mut args, "--no-commit");
        assert(texts(args@) =~= complete_args(id@, result@, false));
        if force {
            push(&mut args, "--force");
            assert(texts(args@) =~= complete_args(id@, result@, true));
        }
        self.void(&args, "dex complete")
    }

    pub fn create(&self, name: &str, description: &str, parent: Option<&str>) -> (r: Result<
        (),
        String,
    >)
        ensures
            exists|out| #[trigger]
                self.asked(create_args(name@, description@, opt_str(parent)), out) && unit_text(r)
                    == settled(out, "dex create"@),
    {
        let mut args = args_of("create");
        push(&mut args, name);
        if trim(description).unicode_len() > 0 {
            push(&mut args, "--description");
            push(&mut args, description);
        }
        if let Some(p) = parent {
            push(&mut args, "--parent");
            push(&mut args, p);
        }
        assert(texts(args@) =~= create_args(name@, description@, opt_str(parent)));
        self.void(&args, "dex create")
    }

    pub fn edit(&self, id: &str, name: Option<&str>, description: Option<&str>) -> (r: Result<
        (),
        String,
    >)
        ensures
            exists|out| #[trigger]
                self.asked(edit_args(id@, opt_str(name), opt_str(description)), out) && unit_text(r)
                    == settled(out, "dex edit"@),
    {
        let mut args = args_of("edit");
        push(&mut args, id);
        if let Some(n) = name {
            push(&mut args, "--name");
            push(&mut args, n);
        }
        if let Some(d) = description {
            push(&mut args, "--description");
            push(&mut args, d);
        }
        assert(texts(args@) =~= edit_args(id@, opt_str(name), opt_str(description)));
        self.void(&args, "dex edit")
    }

    /// Always forced: dex prompts interactively when subtasks exist, which would
    /// hang a TUI that has no way to answer.
    pub fn delete(&self, id: &str) -> (r: Result<(), String>)
        ensures
            exists|out| #[trigger]
                self.asked(delete_args(id@), out) && unit_text(r) == settled(out, "dex delete"@),
    {
        let mut args = args_of("delete");
        push(&mut args, id);
        push(&mut args, "--force");
        assert(texts(args@) =~= delete_args(id@));
        self.void(&args, "dex delete")
    }
}

/// What listing comes to, given what decoding said.
pub open spec fn list_comes_to(
    tasks: Result<Vec<Task>, String>,
    r: Result<Vec<Task>, String>,
) -> bool {
    match (tasks, r) {
        (Ok(ts), Ok(rs)) => rs == ts,
        (Err(e), Err(f)) => f@ == "could not parse dex output: "@ + e@,
        _ => false,
    }
}

/// What listing comes to, given what decoding said.
pub fn list_outcome(tasks: Result<Vec<Task>, String>) -> (r: Result<Vec<Task>, String>)
    ensures
        list_comes_to(tasks, r),
{
    match tasks {
        Ok(ts) => Ok(ts),
        Err(e) => Err(concat("could not parse dex output: ", e.as_str())),
    }
}

/// Whether listing can come to `r` when this JSON is decoded.
pub open spec fn decoded<D: Fn(&str) -> Result<Vec<Task>, String>>(
    decode: D,
    json: Seq<char>,
    r: Result<Vec<Task>, String>,
) -> bool {
    exists|s: &str, tasks: Result<Vec<Task>, String>|
        s@ == json && #[trigger] call_ensures(decode, (s,), tasks) && list_comes_to(tasks, r)
}

/// A dex that targets a store says so ahead of anything else, whatever the
/// verb; one that does not adds nothing.
pub proof fn law_every_call_carries_the_store(store: Option<Seq<char>>, rest: Seq<Seq<char>>)
    ensures
        store matches Some(dir) ==> argv_of(store, rest).len() == rest.len() + 2 && argv_of(
            store,
            rest,
        )[0] == "--storage-path"@ && argv_of(store, rest)[1] == dir && argv_of(store, rest).skip(2)
            == rest,
        store is None ==> argv_of(store, rest) == rest,
{
    if let Some(dir) = store {
        assert(argv_of(store, rest).skip(2) =~= rest);
    }
}

// ---------------------------------------------------------------------------
// Stores
// ---------------------------------------------------------------------------

/// Whether a store directory is the shared fallback: it lies under
/// `.config/dex` and is no project's `.dex`.
pub open spec fn global_store(store_dir: Seq<char>) -> bool {
    let t = trim_end_of(store_dir, '/');
    after_last(t, '/') != ".dex"@ && occurs(t, ".config/dex"@)
}

/// What a store is called: the project directory that owns the `.dex` folder,
/// or "global" for the shared fallback store.
pub open spec fn label_of(store_dir: Seq<char>) -> Seq<char> {
    let t = trim_end_of(store_dir, '/');
    let name = after_last(t, '/');
    if name == ".dex"@ {
        let owner = after_last(trim_end_of(t.take(t.len() - 4), '/'), '/');
        if owner.len() == 0 {
            ".dex"@
        } else {
            owner
        }
    } else if global_store(store_dir) {
        "global"@
    } else {
        name
    }
}

/// Whether this is dex's shared fallback store rather than a project's own.
///
/// Outside a git repo dex writes to `~/.config/dex/local`, so the two are told
/// apart by the path alone -- never by the label, which is only a directory
/// name and would call a project literally named `global` the global store.
pub fn is_global_store(store_dir: &str) -> (r: bool)
    ensures
        r == global_store(store_dir@),
{
    let trimmed = trim_end_matches(store_dir, '/');
    !same(last_piece(trimmed, '/'), ".dex") && contains(trimmed, ".config/dex")
}

proof fn lemma_after_last_is_an_end(s: Seq<char>, c: char)
    ensures
        after_last(s, c).len() <= s.len(),
    decreases s.len(),
{
    if s.len() > 0 && s.last() != c {
        lemma_after_last_is_an_end(s.drop_last(), c);
    }
}

/// A human label for the store: either the project directory that owns the
/// `.dex` folder, or "global" for the shared fallback store.
pub fn store_label(store_dir: &str) -> (r: String)
    ensures
        r@ == label_of(store_dir@),
{
    let trimmed = trim_end_matches(store_dir, '/');
    let name = last_piece(trimmed, '/');
    if same(name, ".dex") {
        proof {
            reveal_strlit(".dex");
            lemma_after_last_is_an_end(trimmed@, '/');
        }
        let n: usize = trimmed.unicode_len();
        let above = trimmed.substring_char(0, n - 4);
        assert(above@ =~= trimmed@.take(trimmed@.len() - 4));
        let owner = last_piece(trim_end_matches(above, '/'), '/');
        if owner.unicode_len() == 0 {
            return ".dex".to_string();
        }
        return owner.to_owned();
    }
    if is_global_store(store_dir) {
        return "global".to_string();
    }
    name.to_owned()
}

/// Whether no two tasks of a list share an id.
pub open spec fn distinct_ids(tasks: Seq<TaskView>) -> bool {
    forall|i: int, j: int|
        #![trigger tasks[i], tasks[j]]
        0 <= i < j < tasks.len() ==> tasks[i].id != tasks[j].id
}

/// The index knows every id of the list and no other, and holds under each a
/// task of the list with that id: the task itself, where no two share an id.
pub proof fn law_the_index_holds_every_task(tasks: Seq<TaskView>, id: Seq<char>)
    ensures
        indexed(tasks).contains_key(id) <==> exists|i: int|
            0 <= i < tasks.len() && (#[trigger] tasks[i]).id == id,
        indexed(tasks).contains_key(id) ==> indexed(tasks)[id].id == id && tasks.contains(
            indexed(tasks)[id],
        ),
        distinct_ids(tasks) ==> forall|i: int|
            0 <= i < tasks.len() && (#[trigger] tasks[i]).id == id ==> indexed(tasks)[id] == tasks[i],
    decreases tasks.len(),
{
    if tasks.len() > 0 {
        let front = tasks.drop_last();
        law_the_index_holds_every_task(front, id);
        let n = tasks.len() - 1;
        assert(tasks[n] == tasks.last());
        if tasks.last().id == id {
            assert(tasks[n].id == id);
        } else {
            if indexed(front).contains_key(id) {
                let i = choose|i: int| 0 <= i < front.len() && (#[trigger] front[i]).id == id;
                assert(tasks[i].id == id);
                let j = choose|j: int| 0 <= j < front.len() && front[j] == indexed(front)[id];
                assert(tasks[j] == indexed(tasks)[id]);
            }
            if exists|i: int| 0 <= i < tasks.len() && (#[trigger] tasks[i]).id == id {
                let i = choose|i: int| 0 <= i < tasks.len() && (#[trigger] tasks[i]).id == id;
                assert(front[i].id == id);
            }
        }
        if distinct_ids(tasks) {
            assert(distinct_ids(front)) by {
                assert forall|i: int, j: int|
                    #![trigger front[i], front[j]]
                    0 <= i < j < front.len() implies front[i].id != front[j].id by {
                    assert(tasks[i].id != tasks[j].id);
                }
            }
            assert forall|i: int| 0 <= i < tasks.len() && (#[trigger] tasks[i]).id == id implies indexed(
                tasks,
            )[id] == tasks[i] by {
                if i < n {
                    assert(tasks[i].id != tasks[n].id);
                    assert(front[i].id == id);
                }
            }
        }
    }
}

/// What a task's status means: done wins over everything, begun over held up;
/// and a task is held up only by what is known and not yet done.
pub proof fn law_the_statuses_mean_what_they_say(t: TaskView, by_id: Map<Seq<char>, TaskView>)
    ensures
        (status_of(t, by_id) == Status::Completed) == t.completed,
        (status_of(t, by_id) == Status::InProgress) == (!t.completed && t.started_at is Some),
        (status_of(t, by_id) == Status::Blocked) == (!t.completed && t.started_at is None
            && exists|i: int|
            0 <= i < t.blocked_by.len() && by_id.contains_key(#[trigger] t.blocked_by[i])
                && !by_id[t.blocked_by[i]].completed),
        (status_of(t, by_id) == Status::Pending) == (!t.completed && t.started_at is None
            && forall|i: int|
            0 <= i < t.blocked_by.len() ==> !by_id.contains_key(#[trigger] t.blocked_by[i])
                || by_id[t.blocked_by[i]].completed),
{
    if blocked(t, by_id) {
        let i = choose|i: int| 0 <= i < t.blocked_by.len() && #[trigger] holds_up(t, by_id, i);
        assert(by_id.contains_key(t.blocked_by[i]));
    } else {
        assert forall|i: int| 0 <= i < t.blocked_by.len() implies !by_id.contains_key(
            #[trigger] t.blocked_by[i],
        ) || by_id[t.blocked_by[i]].completed by {
            assert(!holds_up(t, by_id, i));
        }
    }
}

// ---------------------------------------------------------------------------
// What dex is told
// ---------------------------------------------------------------------------

/// Whether a flag stands at the `k`th of the places where flags stand, which is
/// every other one behind the verb and what it is about.
pub open spec fn flag_at(args: Seq<Seq<char>>, k: int, flag: Seq<char>) -> bool {
    0 <= k && 2 * k + 2 < args.len() && args[2 * k + 2] == flag
}

/// Whether a flag stands there with a value right behind it.
pub open spec fn pair_at(args: Seq<Seq<char>>, k: int, flag: Seq<char>, value: Seq<char>) -> bool {
    flag_at(args, k, flag) && 2 * k + 3 < args.len() && args[2 * k + 3] == value
}

/// Whether a flag stands among the arguments with a value right behind it.
pub open spec fn flagged(args: Seq<Seq<char>>, flag: Seq<char>, value: Seq<char>) -> bool {
    exists|k: int| #[trigger] pair_at(args, k, flag, value)
}

/// Whether a flag stands anywhere among the arguments where flags stand.
pub open spec fn mentions(args: Seq<Seq<char>>, flag: Seq<char>) -> bool {
    exists|k: int| #[trigger] flag_at(args, k, flag)
}

proof fn lemma_flags_differ()
    ensures
        "--name"@ != "--description"@,
        "--name"@ != "--parent"@,
        "--description"@ != "--parent"@,
        "--force"@ != "--no-commit"@,
        "--result"@ != "--no-commit"@,
        "start"@ != "delete"@,
        "start"@ != "edit"@,
        "start"@ != "create"@,
        "start"@ != "complete"@,
        "delete"@ != "edit"@,
        "delete"@ != "create"@,
        "delete"@ != "complete"@,
        "edit"@ != "create"@,
        "edit"@ != "complete"@,
        "create"@ != "complete"@,
{
    reveal_strlit("--name");
    reveal_strlit("--description");
    reveal_strlit("--parent");
    reveal_strlit("--force");
    reveal_strlit("--result");
    reveal_strlit("--no-commit");
    reveal_strlit("start");
    reveal_strlit("delete");
    reveal_strlit("edit");
    reveal_strlit("create");
    reveal_strlit("complete");
    assert("delete"@[0] != "create"@[0]);
    assert("--name"@.len() == 6 && "--description"@.len() == 13 && "--parent"@.len() == 8);
    assert("--force"@.len() == 7 && "--no-commit"@.len() == 11 && "--result"@.len() == 8);
    assert("start"@.len() == 5 && "edit"@.len() == 4 && "complete"@.len() == 8);
    assert("delete"@.len() == 6 && "create"@.len() == 6);
}

/// An edit names the task, then changes what it was given and nothing else: the
/// name stands behind `--name` exactly where there is one, the description
/// behind `--description` exactly where there is one, and there is no more.
pub proof fn law_an_edit_changes_what_it_was_given(
    id: Seq<char>,
    name: Option<Seq<char>>,
    description: Option<Seq<char>>,
)
    ensures
        ({
            let args = edit_args(id, name, description);
            &&& args[0] == "edit"@ && args[1] == id
            &&& args.len() == 2 + (if name is Some {
                2int
            } else {
                0
            }) + (if description is Some {
                2int
            } else {
                0
            })
            &&& forall|v: Seq<char>| #[trigger] flagged(args, "--name"@, v) <==> name == Some(v)
            &&& forall|v: Seq<char>| #[trigger]
                flagged(args, "--description"@, v) <==> description == Some(v)
            &&& mentions(args, "--name"@) <==> name is Some
            &&& mentions(args, "--description"@) <==> description is Some
        }),
{
    lemma_flags_differ();
    let args = edit_args(id, name, description);
    if let Some(n) = name {
        assert(pair_at(args, 0, "--name"@, n) && flag_at(args, 0, "--name"@));
        if let Some(d) = description {
            assert(pair_at(args, 1, "--description"@, d) && flag_at(args, 1, "--description"@));
        }
    } else if let Some(d) = description {
        assert(pair_at(args, 0, "--description"@, d) && flag_at(args, 0, "--description"@));
    }
    assert forall|v: Seq<char>| #[trigger] flagged(args, "--name"@, v) <==> name == Some(v) by {
        if flagged(args, "--name"@, v) {
            let k = choose|k: int| #[trigger] pair_at(args, k, "--name"@, v);
            assert(k == 0 || k == 1);
        }
    }
    assert forall|v: Seq<char>| #[trigger]
        flagged(args, "--description"@, v) <==> description == Some(v) by {
        if flagged(args, "--description"@, v) {
            let k = choose|k: int| #[trigger] pair_at(args, k, "--description"@, v);
            assert(k == 0 || k == 1);
        }
    }
    if mentions(args, "--name"@) {
        let k = choose|k: int| #[trigger] flag_at(args, k, "--name"@);
        assert(k == 0 || k == 1);
    }
    if mentions(args, "--description"@) {
        let k = choose|k: int| #[trigger] flag_at(args, k, "--description"@);
        assert(k == 0 || k == 1);
    }
}

/// Two edits that differ in anything are told to dex differently.
pub proof fn law_edits_are_told_apart(
    a: Seq<char>,
    n: Option<Seq<char>>,
    d: Option<Seq<char>>,
    b: Seq<char>,
    m: Option<Seq<char>>,
    e: Option<Seq<char>>,
)
    requires
        edit_args(a, n, d) == edit_args(b, m, e),
    ensures
        a == b && n == m && d == e,
{
    law_an_edit_changes_what_it_was_given(a, n, d);
    law_an_edit_changes_what_it_was_given(b, m, e);
    let args = edit_args(a, n, d);
    if n is Some {
        assert(flagged(args, "--name"@, n->0));
    }
    if m is Some {
        assert(flagged(args, "--name"@, m->0));
    }
    if d is Some {
        assert(flagged(args, "--description"@, d->0));
    }
    if e is Some {
        assert(flagged(args, "--description"@, e->0));
    }
}

/// A new task goes by its name, under the parent it was given and no other, with
/// its description as it was typed, unless that is blank.
pub proof fn law_a_new_task_is_what_was_typed(
    name: Seq<char>,
    description: Seq<char>,
    parent: Option<Seq<char>>,
)
    ensures
        ({
            let args = create_args(name, description, parent);
            let blank = forall|i: int| 0 <= i < description.len() ==> is_space(#[trigger] description[i]);
            &&& args[0] == "create"@ && args[1] == name
            &&& args.len() == 2 + (if blank {
                0int
            } else {
                2
            }) + (if parent is Some {
                2int
            } else {
                0
            })
            &&& forall|v: Seq<char>| #[trigger]
                flagged(args, "--description"@, v) <==> !blank && v == description
            &&& forall|v: Seq<char>| #[trigger] flagged(args, "--parent"@, v) <==> parent == Some(v)
        }),
{
    lemma_flags_differ();
    let args = create_args(name, description, parent);
    let blank = forall|i: int| 0 <= i < description.len() ==> is_space(#[trigger] description[i]);
    assert(blank == (trimmed(description).len() == 0)) by {
        law_nothing_is_left_of_blank_text(description);
    }
    if !blank {
        assert(pair_at(args, 0, "--description"@, description) && flag_at(args, 0, "--description"@));
        if let Some(p) = parent {
            assert(pair_at(args, 1, "--parent"@, p) && flag_at(args, 1, "--parent"@));
        }
    } else if let Some(p) = parent {
        assert(pair_at(args, 0, "--parent"@, p) && flag_at(args, 0, "--parent"@));
    }
    assert forall|v: Seq<char>| #[trigger]
        flagged(args, "--description"@, v) <==> !blank && v == description by {
        if flagged(args, "--description"@, v) {
            let k = choose|k: int| #[trigger] pair_at(args, k, "--description"@, v);
            assert(k == 0 || k == 1);
        }
    }
    assert forall|v: Seq<char>| #[trigger] flagged(args, "--parent"@, v) <==> parent == Some(v) by {
        if flagged(args, "--parent"@, v) {
            let k = choose|k: int| #[trigger] pair_at(args, k, "--parent"@, v);
            assert(k == 0 || k == 1);
        }
    }
}

/// A completion names the task and carries the result as it was typed; it is
/// forced exactly when asked to be, and two completions that differ in anything
/// are told to dex differently.
pub proof fn law_a_completion_carries_its_result(
    id: Seq<char>,
    result: Seq<char>,
    force: bool,
    id2: Seq<char>,
    result2: Seq<char>,
    force2: bool,
)
    ensures
        complete_args(id, result, force)[0] == "complete"@,
        complete_args(id, result, force)[1] == id,
        flagged(complete_args(id, result, force), "--result"@, result),
        mentions(complete_args(id, result, force), "--no-commit"@),
        force <==> complete_args(id, result, force).last() == "--force"@,
        complete_args(id, result, force) == complete_args(id2, result2, force2) ==> id == id2
            && result == result2 && force == force2,
{
    lemma_flags_differ();
    let (a, b) = (complete_args(id, result, force), complete_args(id2, result2, force2));
    assert(pair_at(a, 0, "--result"@, result) && flag_at(a, 0, "--result"@));
    assert(flag_at(a, 1, "--no-commit"@));
    assert(b[1] == id2 && b[3] == result2);
}

/// Starting and deleting name the task they were given, and say which of the two
/// they are; and no verb can be taken for another.
pub proof fn law_the_verbs_are_told_apart(
    id: Seq<char>,
    name: Option<Seq<char>>,
    description: Option<Seq<char>>,
    text: Seq<char>,
    parent: Option<Seq<char>>,
    force: bool,
)
    ensures
        start_args(id) == seq!["start"@, id],
        delete_args(id)[0] == "delete"@ && delete_args(id)[1] == id && delete_args(id).last()
            == "--force"@ && delete_args(id).len() == 3,
        list_args()[0] == "list"@ && list_args().contains("--json"@) && list_args().contains(
            "--all"@,
        ),
        dir_args() == seq!["dir"@],
        ({
            let verbs = seq![
                start_args(id)[0],
                delete_args(id)[0],
                edit_args(id, name, description)[0],
                create_args(text, text, parent)[0],
                complete_args(id, text, force)[0],
            ];
            verbs.no_duplicates()
        }),
{
    lemma_flags_differ();
    law_an_edit_changes_what_it_was_given(id, name, description);
    law_a_new_task_is_what_was_typed(text, text, parent);
    assert(list_args()[1] == "--json"@ && list_args()[2] == "--all"@);
}

// ---------------------------------------------------------------------------
// What is said of times, outcomes and stores
// ---------------------------------------------------------------------------

/// An age is told in its largest whole unit, rounded down: so many minutes,
/// hours, days or weeks have passed, and not one more.
pub proof fn law_an_age_is_rounded_down(secs: int, n: nat)
    ensures
        secs < 60 ==> short_span(secs) == "now"@,
        1 <= n < 60 && n * 60 <= secs < (n + 1) * 60 ==> short_span(secs) == decimal_of(n) + "m"@,
        1 <= n < 24 && n * 3600 <= secs < (n + 1) * 3600 ==> short_span(secs) == decimal_of(n)
            + "h"@,
        1 <= n < 7 && n * 86400 <= secs < (n + 1) * 86400 ==> short_span(secs) == decimal_of(n)
            + "d"@,
        1 <= n && n * 604800 <= secs < (n + 1) * 604800 ==> short_span(secs) == decimal_of(n)
            + "w"@,
{
}

/// The two largest units of a duration, the second left out where it is none.
pub open spec fn in_units(a: nat, major: Seq<char>, b: nat, minor: Seq<char>) -> Seq<char> {
    if b == 0 {
        decimal_of(a) + major
    } else {
        decimal_of(a) + major + " "@ + decimal_of(b) + minor
    }
}

/// A duration is told in its two largest units, which add up to it but for less
/// than one of the smaller.
pub proof fn law_a_duration_adds_up(secs: int, a: nat, b: nat, rest: int)
    ensures
        secs <= 0 ==> long_span(secs) == "0s"@,
        1 <= secs < 60 ==> long_span(secs) == decimal_of(secs as nat) + "s"@,
        1 <= a < 60 && b < 60 && secs == a * 60 + b ==> long_span(secs) == in_units(
            a,
            "m"@,
            b,
            "s"@,
        ),
        1 <= a < 24 && b < 60 && 0 <= rest < 60 && secs == a * 3600 + b * 60 + rest ==> long_span(
            secs,
        ) == in_units(a, "h"@, b, "m"@),
        1 <= a < 7 && b < 24 && 0 <= rest < 3600 && secs == a * 86400 + b * 3600 + rest
            ==> long_span(secs) == in_units(a, "d"@, b, "h"@),
        1 <= a && b < 7 && 0 <= rest < 86400 && secs == a * 604800 + b * 86400 + rest ==> long_span(
            secs,
        ) == in_units(a, "w"@, b, "d"@),
{
    if 1 <= a < 60 && b < 60 && secs == a * 60 + b {
        assert(secs / 60 == a && (secs % 60) / 1 == b);
    }
    if 1 <= a < 24 && b < 60 && 0 <= rest < 60 && secs == a * 3600 + b * 60 + rest {
        assert(secs / 3600 == a && (secs % 3600) / 60 == b);
    }
    if 1 <= a < 7 && b < 24 && 0 <= rest < 3600 && secs == a * 86400 + b * 3600 + rest {
        assert(secs / 86400 == a && (secs % 86400) / 3600 == b);
    }
    if 1 <= a && b < 7 && 0 <= rest < 86400 && secs == a * 604800 + b * 86400 + rest {
        assert(secs / 604800 == a && (secs % 604800) / 86400 == b);
    }
}

/// A run succeeds exactly when it exits with zero, and then gives what it
/// printed. Else it says what was printed to stderr, or failing that to stdout,
/// or failing both how it exited; a run that could not be made says why.
pub proof fn law_a_failed_run_says_why(out: Output, label: Seq<char>, e: String)
    ensures
        settled(Ok(out), label) is Ok <==> out.code == 0,
        printed(Ok(out), label) is Ok <==> out.code == 0,
        out.code == 0 ==> printed(Ok(out), label) == Ok::<Seq<char>, Seq<char>>(out.stdout@),
        settled(Err(e), label) == Err::<(), Seq<char>>(e@),
        printed(Err(e), label) == Err::<Seq<char>, Seq<char>>(e@),
        out.code != 0 ==> settled(Ok(out), label)->Err_0 == printed(Ok(out), label)->Err_0,
        out.code != 0 && (exists|i: int| 0 <= i < out.stderr@.len() && !is_space(
            #[trigger] out.stderr@[i],
        )) ==> settled(Ok(out), label)->Err_0 == trimmed(out.stderr@),
        out.code != 0 && (forall|i: int|
            0 <= i < out.stderr@.len() ==> is_space(#[trigger] out.stderr@[i])) && (exists|i: int|
            0 <= i < out.stdout@.len() && !is_space(#[trigger] out.stdout@[i])) ==> settled(
            Ok(out),
            label,
        )->Err_0 == trimmed(out.stdout@),
        out.code > 0 && (forall|i: int|
            0 <= i < out.stderr@.len() ==> is_space(#[trigger] out.stderr@[i])) && (forall|i: int|
            0 <= i < out.stdout@.len() ==> is_space(#[trigger] out.stdout@[i])) ==> settled(
            Ok(out),
            label,
        )->Err_0 == label + " failed (exit "@ + decimal_of(out.code as nat) + ")"@,
{
    law_nothing_is_left_of_blank_text(out.stderr@);
    law_nothing_is_left_of_blank_text(out.stdout@);
}

/// A project's store is called after the directory that holds it, wherever that
/// is and however many slashes follow; a store path that names a file is
/// refused, and no other is.
pub proof fn law_a_store_is_called_after_its_project(
    place: Seq<char>,
    project: Seq<char>,
    dir: Seq<char>,
)
    requires
        project.len() > 0,
        !project.contains('/'),
    ensures
        label_of(place.push('/') + project + "/.dex"@) == project,
        label_of((place.push('/') + project + "/.dex"@).push('/')) == project,
        store_refused(dir) is Some <==> ends(dir, ".jsonl"@),
{
    reveal_strlit("/.dex");
    reveal_strlit(".dex");
    let root = place.push('/') + project;
    let t = root + "/.dex"@;
    assert(t =~= root.push('/') + ".dex"@);
    assert(!".dex"@.contains('/')) by {
        assert(".dex"@.len() == 4);
        assert(".dex"@[0] == '.' && ".dex"@[1] == 'd' && ".dex"@[2] == 'e' && ".dex"@[3] == 'x');
    }
    assert(t.last() == 'x');
    assert(t.push('/').drop_last() =~= t);
    law_the_last_piece_is_behind_the_last_separator(root, ".dex"@, '/');
    assert(t.take(t.len() - 4) =~= root.push('/'));
    assert(root.push('/').drop_last() =~= root);
    assert(root.last() == project.last());
    assert(project[project.len() - 1] == project.last());
    assert(project.last() != '/');
    assert(trim_end_of(root.push('/'), '/') == root) by {
        assert(trim_end_of(root, '/') == root);
    }
    law_the_last_piece_is_behind_the_last_separator(place, project, '/');
    assert(trim_end_of(t, '/') == t);
    assert(trim_end_of(t.push('/'), '/') == t);
}

/// A file under a directory is named with one slash between, whether the
/// directory ends in one or not; an absolute name stands for itself.
pub proof fn law_paths_join_with_one_slash(dir: Seq<char>, name: Seq<char>)
    requires
        name.len() > 0,
    ensures
        name[0] == '/' ==> path_under(dir, name) == name,
        name[0] != '/' && dir.len() > 0 && dir.last() != '/' ==> path_under(dir, name) == dir.push(
            '/',
        ) + name,
        name[0] != '/' && dir.len() > 0 && dir.last() != '/' ==> path_under(dir.push('/'), name)
            == path_under(dir, name),
        name[0] != '/' && dir.len() == 0 ==> path_under(dir, name) == name,
{
    reveal_strlit("/");
    assert(dir + "/"@ + name =~= dir.push('/') + name);
    assert(Seq::<char>::empty() + name =~= name);
    if dir.len() == 0 {
        assert(dir + name =~= name);
    }
}

/// An update is worth telling apart exactly when it is there and is none of the
/// other moments of the task.
pub proof fn law_an_update_is_told_only_when_it_is_news(t: TaskView)
    ensures
        update_is_distinct(t) ==> t.updated_at is Some,
        t.updated_at is Some && t.updated_at == t.created_at ==> !update_is_distinct(t),
        t.updated_at is Some && t.updated_at == t.started_at ==> !update_is_distinct(t),
        t.updated_at is Some && t.updated_at == t.completed_at ==> !update_is_distinct(t),
        t.updated_at is Some && t.created_at is None && t.started_at is None && t.completed_at
            is None ==> update_is_distinct(t),
        in_progress(t) <==> t.started_at is Some && !t.completed,
{
}

/// A name is looked for in every directory of the list that is named, in order,
/// and nowhere else.
pub proof fn law_every_named_place_is_looked_in(name: Seq<char>, dirs: Seq<Seq<char>>, d: Seq<char>)
    ensures
        places(name, dirs.push(d)) == (if d.len() == 0 {
            places(name, dirs)
        } else {
            places(name, dirs).push(path_under(d, name))
        }),
        places(name, Seq::empty()) == Seq::<Seq<char>>::empty(),
{
    assert(dirs.push(d).drop_last() =~= dirs);
}

/// The cause of a failure is the first line that calls itself an error, without
/// the space around it; failing that the first line that says anything; and
/// failing that all there is.
pub proof fn law_the_cause_is_the_first_error(err: Seq<char>, i: int)
    ensures
        ({
            let ls = lines_of(err);
            let is_error = |l: Seq<char>|
                starts(trimmed(l), "Error:"@) || starts(trimmed(l), "error:"@);
            &&& 0 <= i < ls.len() && is_error(ls[i]) && (forall|j: int|
                0 <= j < i ==> !is_error(#[trigger] ls[j])) ==> cause_of(err) == trimmed(ls[i])
            &&& (forall|j: int| 0 <= j < ls.len() ==> !is_error(#[trigger] ls[j])) && 0 <= i
                < ls.len() && trimmed(ls[i]).len() > 0 && (forall|j: int|
                0 <= j < i ==> trimmed(#[trigger] ls[j]).len() == 0) ==> cause_of(err) == trimmed(
                ls[i],
            )
            &&& (forall|j: int|
                0 <= j < ls.len() ==> !is_error(#[trigger] ls[j]) && trimmed(ls[j]).len() == 0)
                ==> cause_of(err) == err
        }),
{
    let ls = lines_of(err);
    lemma_first_error(ls, i);
    lemma_first_words(ls, i);
}

proof fn lemma_first_error(ls: Seq<Seq<char>>, i: int)
    ensures
        0 <= i < ls.len() && names_error(trimmed(ls[i])) && (forall|j: int|
            0 <= j < i ==> !names_error(trimmed(#[trigger] ls[j]))) ==> first_error(ls) == Some(
            trimmed(ls[i]),
        ),
        (forall|j: int| 0 <= j < ls.len() ==> !names_error(trimmed(#[trigger] ls[j])))
            ==> first_error(ls) is None,
    decreases ls.len(),
{
    if ls.len() > 0 {
        let t = ls.drop_first();
        lemma_first_error(t, i - 1);
        assert forall|j: int| 0 <= j < t.len() implies t[j] == #[trigger] ls[j + 1] by {}
        if forall|j: int| 0 <= j < ls.len() ==> !names_error(trimmed(#[trigger] ls[j])) {
            assert forall|j: int| 0 <= j < t.len() implies !names_error(trimmed(#[trigger] t[j])) by {
                assert(t[j] == ls[j + 1]);
            }
        }
        if 0 < i < ls.len() && names_error(trimmed(ls[i])) && (forall|j: int|
            0 <= j < i ==> !names_error(trimmed(#[trigger] ls[j]))) {
            assert forall|j: int| 0 <= j < i - 1 implies !names_error(trimmed(#[trigger] t[j])) by {
                assert(t[j] == ls[j + 1]);
            }
            assert(!names_error(trimmed(ls[0])));
        }
    }
}

proof fn lemma_first_words(ls: Seq<Seq<char>>, i: int)
    ensures
        0 <= i < ls.len() && trimmed(ls[i]).len() > 0 && (forall|j: int|
            0 <= j < i ==> trimmed(#[trigger] ls[j]).len() == 0) ==> first_words(ls) == Some(
            trimmed(ls[i]),
        ),
        (forall|j: int| 0 <= j < ls.len() ==> trimmed(#[trigger] ls[j]).len() == 0) ==> first_words(
            ls,
        ) is None,
    decreases ls.len(),
{
    if ls.len() > 0 {
        let t = ls.drop_first();
        lemma_first_words(t, i - 1);
        if forall|j: int| 0 <= j < ls.len() ==> trimmed(#[trigger] ls[j]).len() == 0 {
            assert forall|j: int| 0 <= j < t.len() implies trimmed(#[trigger] t[j]).len() == 0 by {
                assert(t[j] == ls[j + 1]);
            }
        }
        if 0 < i < ls.len() && trimmed(ls[i]).len() > 0 && (forall|j: int|
            0 <= j < i ==> trimmed(#[trigger] ls[j]).len() == 0) {
            assert forall|j: int| 0 <= j < i - 1 implies trimmed(#[trigger] t[j]).len() == 0 by {
                assert(t[j] == ls[j + 1]);
            }
            assert(trimmed(ls[0]).len() == 0);
        }
    }
}

/// A moment is shown as the clock here tells it, as it was written where it
/// cannot be read, and as a dash where there is none.
pub proof fn law_a_moment_is_shown_as_it_can_be(raw: Seq<char>, local: Seq<char>)
    ensures
        stamp_text(Some(raw), Some(local)) == local,
        stamp_text(Some(raw), None) == raw,
        stamp_text(None, None) == "-"@ && stamp_text(None, Some(local)) == "-"@,
{
}

/// The short form of a commit is its first seven characters, or all of it where
/// it has no more.
pub proof fn law_a_commit_is_shortened_to_seven(sha: Seq<char>, k: int)
    requires
        forall|i: int| 0 <= i < sha.len() ==> (#[trigger] sha[i] as int) < 128,
    ensures
        cuts_at(sha, short_width(sha), k) <==> k == if sha.len() < 7 {
            sha.len() as int
        } else {
            7
        },
{
    lemma_ascii_width(sha);
    if 0 <= k <= sha.len() {
        lemma_ascii_width(sha.take(k));
    }
}

proof fn lemma_ascii_width(s: Seq<char>)
    requires
        forall|i: int| 0 <= i < s.len() ==> (#[trigger] s[i] as int) < 128,
    ensures
        text_width(s) == s.len(),
    decreases s.len(),
{
    if s.len() > 0 {
        let t = s.drop_last();
        assert forall|i: int| 0 <= i < t.len() implies (#[trigger] t[i] as int) < 128 by {
            assert(t[i] == s[i]);
        }
        lemma_ascii_width(t);
        assert((s[s.len() - 1] as int) < 128);
    }
}

/// dex's own store in the config directory is the global one, and a store in a
/// project is not, wherever the project is.
pub proof fn law_the_global_store_is_the_config_directorys(place: Seq<char>, name: Seq<char>)
    requires
        name.len() > 0,
        !name.contains('/'),
        name != ".dex"@,
    ensures
        !global_store(place + "/.dex"@),
        global_store(place + "/.config/dex"@),
        label_of(place + "/.config/dex"@) == "global"@,
        global_store(place.push('/') + name) <==> occurs(place.push('/') + name, ".config/dex"@),
{
    reveal_strlit("/.dex");
    reveal_strlit(".dex");
    reveal_strlit("dex");
    reveal_strlit("/.config/dex");
    reveal_strlit(".config/dex");
    let a = place + "/.dex"@;
    assert(a =~= place.push('/') + ".dex"@);
    assert(a.last() == 'x');
    assert(trim_end_of(a, '/') == a);
    assert(!".dex"@.contains('/')) by {
        assert(".dex"@.len() == 4);
        assert(".dex"@[0] == '.' && ".dex"@[1] == 'd' && ".dex"@[2] == 'e' && ".dex"@[3] == 'x');
    }
    law_the_last_piece_is_behind_the_last_separator(place, ".dex"@, '/');
    let b = place + "/.config/dex"@;
    let front = place + "/.config/dex"@.take(8);
    assert(b =~= front.push('/') + "dex"@);
    assert(b.last() == 'x');
    assert(trim_end_of(b, '/') == b);
    assert(!"dex"@.contains('/')) by {
        assert("dex"@.len() == 3);
        assert("dex"@[0] == 'd' && "dex"@[1] == 'e' && "dex"@[2] == 'x');
    }
    law_the_last_piece_is_behind_the_last_separator(front, "dex"@, '/');
    assert("dex"@.len() != ".dex"@.len());
    let n = place.len() as int + 1;
    assert(b.subrange(n, n + 11) =~= ".config/dex"@);
    assert(crate::text::stands_at(b, ".config/dex"@, n));
    let c = place.push('/') + name;
    assert(c.last() == name.last() && name[name.len() - 1] == name.last());
    assert(name.last() != '/');
    assert(trim_end_of(c, '/') == c);
    law_the_last_piece_is_behind_the_last_separator(place, name, '/');
}

/// A task was worked on from when it was started to when it was done, where
/// both can be read, and for no known time where either cannot.
pub proof fn law_work_lasts_from_start_to_finish(start: Seq<char>, end: Seq<char>)
    ensures
        is_timestamp(start) && is_timestamp(end) && 0 < seconds_apart(start, end) < 60
            ==> span_text(start, end) == Some(
            decimal_of(seconds_apart(start, end) as nat) + "s"@,
        ),
        is_timestamp(start) && is_timestamp(end) && seconds_apart(start, end) <= 0 ==> span_text(
            start,
            end,
        ) == Some("0s"@),
        !is_timestamp(start) || !is_timestamp(end) ==> span_text(start, end) is None,
{
}

} // verus!
