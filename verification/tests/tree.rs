//! The task tree: nesting, ordering, search, rollups and rows.

use dextui::dex::Task;
use dextui::tree;
use dextui::tree::{flatten, subtree_progress, visible_rows, Filter, IdSet, Node, Progress, Sort};

fn task(id: &str, parent: Option<&str>) -> Task {
    Task {
        id: id.to_string(),
        parent_id: parent.map(str::to_string),
        name: id.to_string(),
        created_at: Some("2026-01-01T00:00:00Z".to_string()),
        ..Default::default()
    }
}

/// The default ordering, so existing tests keep asserting sibling order
/// under Sort::Priority without restating it everywhere.
fn build(tasks: &Vec<Task>, query: &str, filter: Filter) -> Vec<Node> {
    tree::build(tasks, query, filter, Sort::Priority, false)
}

fn named(id: &str, parent: Option<&str>, name: &str) -> Task {
    Task { name: name.to_string(), ..task(id, parent) }
}

#[test]
fn nests_children_under_their_parent() {
    let tasks = vec![
        task("root", None),
        task("child", Some("root")),
        task("grandchild", Some("child")),
    ];

    let roots = build(&tasks, "", Filter::All);

    assert_eq!(roots.len(), 1);
    assert_eq!(roots[0].id(), "root");
    assert_eq!(roots[0].children[0].id(), "child");
    assert_eq!(roots[0].children[0].children[0].id(), "grandchild");
}

#[test]
fn orders_siblings_by_priority_then_creation_time() {
    // dex returns tasks sorted by id, which is meaningless to a reader.
    let mut a = task("a", Some("r"));
    a.priority = 2;
    a.created_at = Some("2026-01-01T00:00:00Z".into());
    let mut b = task("b", Some("r"));
    b.created_at = Some("2026-01-01T00:00:50Z".into());
    let mut c = task("c", Some("r"));
    c.created_at = Some("2026-01-01T00:00:10Z".into());

    let tasks = vec![a, b, c, task("r", None)];
    let roots = build(&tasks, "", Filter::All);

    let ids: Vec<&str> = roots[0].children.iter().map(|n| n.id()).collect();
    assert_eq!(ids, vec!["c", "b", "a"]);
}

#[test]
fn promotes_orphans_to_roots_instead_of_dropping_them() {
    // Parent absent from the payload; the child must stay visible.
    let tasks = vec![task("orphan", Some("missing"))];
    let roots = build(&tasks, "", Filter::All);

    assert_eq!(roots.len(), 1);
    assert_eq!(roots[0].id(), "orphan");
}

#[test]
fn survives_a_parent_cycle() {
    // A malformed store must not take the whole TUI down.
    let tasks = vec![task("a", Some("b")), task("b", Some("a"))];
    let _ = build(&tasks, "", Filter::All);
}

#[test]
fn pending_filter_hides_completed_tasks() {
    let mut done = task("done", None);
    done.completed = true;
    let tasks = vec![done, task("todo", None)];

    let roots = build(&tasks, "", Filter::Pending);
    assert_eq!(roots.len(), 1);
    assert_eq!(roots[0].id(), "todo");
}

#[test]
fn in_progress_filter_shows_only_started_incomplete_tasks() {
    let mut started = task("started", None);
    started.started_at = Some("2026-01-01T00:00:00Z".into());
    let mut finished = task("finished", None);
    finished.started_at = Some("2026-01-01T00:00:00Z".into());
    finished.completed = true;

    let tasks = vec![started, task("not-started", None), finished];
    let roots = build(&tasks, "", Filter::InProgress);

    assert_eq!(roots.len(), 1);
    assert_eq!(roots[0].id(), "started");
}

#[test]
fn a_matching_child_keeps_its_non_matching_ancestors_as_scaffolding() {
    let tasks = vec![
        named("parent", None, "unrelated"),
        named("child", Some("parent"), "login bug"),
    ];

    let roots = build(&tasks, "login", Filter::All);

    assert_eq!(roots.len(), 1);
    // Kept only to lead to the match, so the UI can dim it.
    assert!(!roots[0].is_match);
    assert!(roots[0].children[0].is_match);
}

#[test]
fn query_matches_description_and_ignores_case() {
    let mut t = named("a", None, "nothing");
    t.description = Some("mentions LOGIN here".into());

    assert_eq!(build(&vec![t], "login", Filter::All).len(), 1);
}

#[test]
fn query_that_matches_nothing_yields_an_empty_tree() {
    let tasks = vec![named("a", None, "alpha"), named("b", None, "beta")];
    assert!(build(&tasks, "zzz", Filter::All).is_empty());
}

#[test]
fn visible_rows_honour_expansion() {
    let tasks = vec![task("r", None), task("kid", Some("r"))];
    let forest = build(&tasks, "", Filter::All);

    let collapsed = visible_rows(&forest, &IdSet::new());
    assert_eq!(collapsed.len(), 1, "children hidden while collapsed");

    let mut expanded = IdSet::new();
    expanded.insert("r".to_string());
    assert_eq!(visible_rows(&forest, &expanded).len(), 2);
}

#[test]
fn subtree_progress_counts_all_descendants_not_just_children() {
    let mut done = task("leaf", Some("mid"));
    done.completed = true;
    let tasks = vec![task("root", None), task("mid", Some("root")), done];

    let p = subtree_progress(&tasks);

    // root sees the grandchild too.
    assert_eq!(*p.get("root").unwrap(), Progress { done: 1, active: 0, total: 2 });
    assert_eq!(*p.get("mid").unwrap(), Progress { done: 1, active: 0, total: 1 });
}

#[test]
fn subtree_progress_separates_in_flight_from_done() {
    let mut started = task("b", Some("root"));
    started.started_at = Some("2026-01-01T00:00:00Z".into());
    let mut finished = task("c", Some("root"));
    finished.completed = true;

    let tasks = vec![task("root", None), task("a", Some("root")), started, finished];

    assert_eq!(
        *subtree_progress(&tasks).get("root").unwrap(),
        Progress { done: 1, active: 1, total: 3 }
    );
}

#[test]
fn leaves_get_no_rollup_at_all() {
    // A meter on a task with no children would be meaningless.
    let tasks = vec![task("solo", None)];
    assert!(subtree_progress(&tasks).is_empty());
}

#[test]
fn subtree_progress_survives_a_cycle() {
    let tasks = vec![task("a", Some("b")), task("b", Some("a"))];
    let _ = subtree_progress(&tasks);
}

fn stamped(id: &str, created: &str, updated: &str) -> Task {
    Task {
        created_at: Some(created.to_string()),
        updated_at: Some(updated.to_string()),
        ..task(id, None)
    }
}

fn ids(nodes: &[Node]) -> Vec<&str> {
    nodes.iter().map(|n| n.id()).collect()
}

fn sorted(tasks: &Vec<Task>, sort: Sort, reversed: bool) -> Vec<String> {
    tree::build(tasks, "", Filter::All, sort, reversed)
        .iter()
        .map(|n| n.id().to_string())
        .collect()
}

#[test]
fn updated_sort_puts_the_most_recent_first() {
    let tasks = vec![
        stamped("old", "2026-01-01T00:00:00Z", "2026-01-01T00:00:00Z"),
        stamped("new", "2026-01-01T00:00:00Z", "2026-03-01T00:00:00Z"),
        stamped("mid", "2026-01-01T00:00:00Z", "2026-02-01T00:00:00Z"),
    ];
    assert_eq!(sorted(&tasks, Sort::Updated, false), ["new", "mid", "old"]);
    assert_eq!(sorted(&tasks, Sort::Updated, true), ["old", "mid", "new"]);
}

#[test]
fn created_sort_is_newest_first_and_reverses_to_oldest() {
    let tasks = vec![
        stamped("first", "2026-01-01T00:00:00Z", "2026-01-01T00:00:00Z"),
        stamped("third", "2026-03-01T00:00:00Z", "2026-03-01T00:00:00Z"),
        stamped("second", "2026-02-01T00:00:00Z", "2026-02-01T00:00:00Z"),
    ];
    assert_eq!(sorted(&tasks, Sort::Created, false), ["third", "second", "first"]);
    assert_eq!(sorted(&tasks, Sort::Created, true), ["first", "second", "third"]);
}

#[test]
fn name_sort_ignores_case() {
    let tasks = vec![named("b", None, "beta"), named("a", None, "Alpha")];
    assert_eq!(sorted(&tasks, Sort::Name, false), ["a", "b"]);
    assert_eq!(sorted(&tasks, Sort::Name, true), ["b", "a"]);
}

#[test]
fn sorting_applies_at_every_level_not_just_the_roots() {
    let tasks = vec![
        task("root", None),
        Task { name: "zulu".into(), ..task("z", Some("root")) },
        Task { name: "alpha".into(), ..task("a", Some("root")) },
    ];
    let roots = tree::build(&tasks, "", Filter::All, Sort::Name, false);
    assert_eq!(ids(&roots[0].children), ["a", "z"]);
}

#[test]
fn tasks_without_a_timestamp_sort_last_in_both_directions() {
    // An absent date is unknown, not "oldest"; floating it to the top under
    // one direction would be actively misleading.
    let mut missing = task("missing", None);
    missing.updated_at = None;
    let tasks = vec![
        missing,
        stamped("has", "2026-01-01T00:00:00Z", "2026-01-01T00:00:00Z"),
    ];

    assert_eq!(sorted(&tasks, Sort::Updated, false), ["has", "missing"]);
    assert_eq!(sorted(&tasks, Sort::Updated, true).last().unwrap(), "has");
}

#[test]
fn ties_break_on_name_so_order_does_not_jitter_between_refreshes() {
    let tasks = vec![
        stamped("b", "2026-01-01T00:00:00Z", "2026-01-01T00:00:00Z"),
        stamped("a", "2026-01-01T00:00:00Z", "2026-01-01T00:00:00Z"),
    ];
    // Identical timestamps: name decides, and does so consistently.
    assert_eq!(sorted(&tasks, Sort::Updated, false), ["a", "b"]);
}

#[test]
fn the_sort_cycle_returns_to_where_it_started() {
    let mut s = Sort::Priority;
    for _ in 0..4 {
        s = s.next();
    }
    assert_eq!(s, Sort::Priority);
}

#[test]
fn every_sort_and_direction_has_a_distinct_label() {
    let mut labels = Vec::new();
    let mut s = Sort::Priority;
    for _ in 0..4 {
        labels.push(s.label(false));
        labels.push(s.label(true));
        s = s.next();
    }
    let count = labels.len();
    labels.sort_unstable();
    labels.dedup();
    assert_eq!(labels.len(), count, "two orders render the same label");
}

/// A search finds ids too, but only from their start.
#[test]
fn query_matches_an_id_from_its_start() {
    let tasks = vec![named("b4d5gfpl", None, "ship it"), named("other", None, "rest")];
    assert_eq!(sorted_ids(&build(&tasks, "B4D5", Filter::All)), ["b4d5gfpl"]);
    assert!(build(&tasks, "gfpl", Filter::All).is_empty());
    assert!(tree::matches_query(&tasks[0], "b4d"));
    assert!(!tree::matches_query(&tasks[1], "b4d"));
}

fn sorted_ids(nodes: &Vec<Node>) -> Vec<String> {
    nodes.iter().map(|n| n.id().to_string()).collect()
}

/// The prefix draws the branch, one level at a time.
#[test]
fn rows_are_drawn_with_their_branches() {
    let tasks = vec![
        task("a", None),
        task("b", Some("a")),
        task("c", Some("b")),
        task("d", Some("a")),
        task("e", None),
    ];
    let forest = build(&tasks, "", Filter::All);
    let mut open = IdSet::new();
    for n in flatten(&forest) {
        open.insert(n.id().to_string());
    }
    let rows = visible_rows(&forest, &open);
    let drawn: Vec<String> =
        rows.iter().map(|r| format!("{}{}", r.prefix, r.node.id())).collect();
    assert_eq!(drawn, ["├a", "│ ├b", "│ │ └c", "│ └d", "└e"]);
    assert!(rows[0].has_children && rows[0].is_open);
    assert!(!rows[2].has_children);
}

/// Nothing is lost to a filter that a match hangs under.
#[test]
fn a_deep_match_keeps_its_whole_path() {
    let tasks = vec![
        named("a", None, "one"),
        named("b", Some("a"), "two"),
        named("c", Some("b"), "needle"),
        named("d", Some("a"), "three"),
    ];
    let forest = build(&tasks, " needle ", Filter::All);
    let kept: Vec<&str> = flatten(&forest).iter().map(|n| n.id()).collect();
    assert_eq!(kept, ["a", "b", "c"]);
}

/// Parent links that form a cycle below a root end where they come round, and
/// are counted once.
#[test]
fn a_cycle_is_counted_once() {
    let tasks = vec![task("a", Some("b")), task("b", Some("a")), task("c", Some("a"))];
    assert!(build(&tasks, "", Filter::All).is_empty());
    assert_eq!(
        *subtree_progress(&tasks).get("a").unwrap(),
        Progress { done: 0, active: 0, total: 3 }
    );
}

#[test]
fn the_filter_cycle_goes_both_ways() {
    for f in [Filter::All, Filter::Pending, Filter::InProgress] {
        assert_eq!(f.next().prev(), f);
        assert_eq!(f.next().next().next(), f);
        assert_eq!(f.label().len(), Filter::All.label().len());
        assert!(f.label().contains(f.name()));
        assert_eq!(f.word(), f.name().to_lowercase());
    }
}

/// Tied tasks keep the order they came in; reversing flips everything.
#[test]
fn ties_keep_their_order() {
    let tasks = vec![named("x", None, "same"), named("y", None, "SAME"), named("z", None, "a")];
    assert_eq!(sorted(&tasks, Sort::Name, false), ["z", "x", "y"]);
    assert_eq!(sorted(&tasks, Sort::Name, true), ["y", "x", "z"]);
}

/// Reversing turns every level round, not just the roots.
#[test]
fn reversing_mirrors_every_level() {
    let tasks = vec![
        named("a", None, "a"),
        named("b", None, "b"),
        named("a1", Some("a"), "1"),
        named("a2", Some("a"), "2"),
        named("a2x", Some("a2"), "x"),
        named("a2y", Some("a2"), "y"),
    ];
    let ids = |reversed: bool| -> Vec<String> {
        let forest = tree::build(&tasks, "", Filter::All, Sort::Name, reversed);
        flatten(&forest).iter().map(|n| n.id().to_string()).collect()
    };
    assert_eq!(ids(false), ["a", "a1", "a2", "a2x", "a2y", "b"]);
    assert_eq!(ids(true), ["b", "a", "a2", "a2y", "a2x", "a1"]);
}

/// Only what has anything below it needs expanding for everything to show.
#[test]
fn expanding_the_branches_shows_everything() {
    let tasks = vec![task("a", None), task("b", Some("a")), task("c", Some("b"))];
    let forest = build(&tasks, "", Filter::All);
    let mut open = IdSet::new();
    open.insert("a".to_string());
    assert_eq!(visible_rows(&forest, &open).len(), 2);
    open.insert("b".to_string());
    assert_eq!(visible_rows(&forest, &open).len(), 3);
}

#[test]
fn case_does_not_matter_to_a_search_or_to_names() {
    let tasks = vec![named("AB1", None, "Ship The Thing"), named("ab2", None, "ship a thing")];
    for query in ["ship", "SHIP", "sHiP"] {
        assert_eq!(sorted_ids(&build(&tasks, query, Filter::All)).len(), 2, "{query}");
    }
    assert!(tree::matches_query(&tasks[0], "ab1"));
    assert!(tree::matches_query(&tasks[1], "AB2"));
    assert_eq!(sorted(&tasks, Sort::Name, false), ["ab2", "AB1"]);
    let greek = named("g", None, "ΩΜΕΓΑ");
    assert!(tree::matches_query(&greek, "ωμε"));
}
