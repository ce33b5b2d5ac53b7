//! The view state: selection, refreshes, panes, the sidebar.

use std::cell::{Cell, RefCell};

use dextui::app::{App, Divider, Focus, HeaderZone, Panes, TextInput};
use dextui::config::Config;
use dextui::dex::Task;
use dextui::registry::Registry;
use dextui::repos::{Repo, Row};
use dextui::tree::{Filter, Sort};
use dextui::worktree::Worktree;

/// A registry file that is not on any disk.
struct Disk {
    stored: RefCell<Registry>,
    broken: Cell<bool>,
}

impl Disk {
    fn new() -> Self {
        Disk { stored: RefCell::new(Registry::default()), broken: Cell::new(false) }
    }

    fn read(&self) -> Result<Registry, String> {
        if self.broken.get() {
            Err("repos.toml: Is a directory".to_string())
        } else {
            Ok(self.stored.borrow().clone())
        }
    }

    fn write(&self, r: &Registry) -> Result<(), String> {
        *self.stored.borrow_mut() = r.clone();
        Ok(())
    }
}

fn register(app: &mut App, disk: &Disk, path: &str) -> Result<bool, String> {
    app.register_repo_path(path, disk.read(), |r: &Registry| disk.write(r))
}

fn unregister(app: &mut App, disk: &Disk, path: &str) -> Result<bool, String> {
    app.unregister_repo_path(path, disk.read(), |r: &Registry| disk.write(r))
}

fn task(id: &str, parent: Option<&str>, children: &[&str]) -> Task {
    Task {
        id: id.to_string(),
        parent_id: parent.map(str::to_string),
        name: id.to_string(),
        created_at: Some("2026-01-01T00:00:00Z".to_string()),
        children: children.iter().map(|s| s.to_string()).collect(),
        ..Default::default()
    }
}

/// The ids that are expanded, and how many there are.
fn opened(app: &App) -> (Vec<String>, usize) {
    let ids = app.tasks.iter().map(|t| t.id.clone()).filter(|id| app.expanded.contains(id));
    (ids.collect(), app.expanded.len())
}

fn counted(tasks: Vec<Task>) -> App {
    App::new(tasks, "demo".into(), Config::default())
}

/// A filter that matches nothing leaves nothing to select; once rows are back,
/// so is a selection.
#[test]
fn passing_through_an_empty_filter_does_not_strand_the_selection() {
    let mut app = counted(vec![task("a", None, &[]), task("b", None, &[])]);
    app.filter = Filter::Pending;
    app.rebuild();
    assert!(app.selected.is_some(), "starts with something selected");

    // Nothing is started, so this matches no task at all.
    app.filter = Filter::InProgress;
    app.rebuild();
    assert_eq!(app.selected, None, "nothing to select is correct here");

    app.filter = Filter::Pending;
    app.rebuild();
    assert!(
        app.selected.is_some(),
        "rows are visible again, so something must be selected"
    );
}

/// A selection that is still on screen is never moved.
#[test]
fn rebuild_never_moves_a_selection_that_is_still_visible() {
    let mut app = counted(vec![task("a", None, &[]), task("b", None, &[])]);
    app.selected = Some("b".into());

    app.rebuild();
    assert_eq!(app.selected.as_deref(), Some("b"));

    app.sort_reversed = !app.sort_reversed;
    app.rebuild();
    assert_eq!(
        app.selected.as_deref(),
        Some("b"),
        "reordering is not moving"
    );
}

fn narrow(width: u16) -> App {
    let mut app = counted(vec![task("a", None, &["b"]), task("b", Some("a"), &[])]);
    app.single_pane_below = 80;
    app.terminal_width = width;
    app.rebuild();
    app
}

/// The first press must do the visible thing whichever way the width had
/// already decided -- toggling a stored flag instead would appear to do
/// nothing on a terminal that was zoomed automatically.
#[test]
fn the_zoom_key_always_flips_what_you_are_looking_at() {
    let mut wide = narrow(100);
    assert!(!wide.single_pane());
    wide.toggle_zoom();
    assert!(wide.single_pane(), "z on a wide terminal must zoom");
    wide.toggle_zoom();
    assert!(!wide.single_pane(), "z again must split");

    let mut small = narrow(60);
    assert!(small.single_pane(), "the width already zoomed this one");
    small.toggle_zoom();
    assert!(
        !small.single_pane(),
        "z must be able to force the split back"
    );
}

/// Pressing the key is an explicit decision, so it outranks the width until
/// pressed again. A layout that reverted on a resize would read as a fault.
#[test]
fn a_resize_does_not_undo_the_zoom_key() {
    let mut app = narrow(100);
    app.toggle_zoom();
    assert!(app.single_pane());

    for w in [40u16, 80, 120, 200] {
        app.terminal_width = w;
        assert!(app.single_pane(), "{w} columns undid the manual zoom");
    }
}

#[test]
fn the_split_gives_way_below_the_configured_width() {
    assert!(narrow(60).single_pane(), "60 columns should be one pane");
    assert!(
        !narrow(80).single_pane(),
        "the threshold itself still splits"
    );
    assert!(!narrow(100).single_pane());
}

/// The escape hatches at both ends of the setting, which is the reason it is
/// a width rather than a boolean.
#[test]
fn zero_always_splits_and_a_huge_value_never_does() {
    let mut app = narrow(20);
    app.single_pane_below = 0;
    assert!(!app.single_pane(), "0 must disable the behaviour entirely");

    let mut app = narrow(400);
    app.single_pane_below = 9999;
    assert!(app.single_pane(), "a huge value must always single-pane");
}

/// Widening the terminal may never take a pane away. This is the same rule
/// `the_header_never_brings_back_what_it_has_already_dropped` enforces, and for
/// the same reason: a two-stage size calculation once made an element reappear
/// as the terminal *narrowed*, and nothing about a bigger window should reveal
/// less.
#[test]
fn the_pane_ladder_is_monotone() {
    let mut app = counted(vec![task("a", None, &[])]);
    app.single_pane_below = 80;
    app.repos_pane_above = 110;
    app.repos_visible = true; // exercise all three rungs, not just two

    let count = |p: Panes| match p {
        Panes::One => 1,
        Panes::Two => 2,
        Panes::Three => 3,
    };

    let mut last = 0;
    for w in 40..=200u16 {
        app.terminal_width = w;
        let n = count(app.panes());
        assert!(n >= last, "widening to {w} dropped a pane: {last} -> {n}");
        last = n;
    }
}

#[test]
fn the_ladder_hits_each_rung_at_its_threshold() {
    let mut app = counted(vec![task("a", None, &[])]);
    app.single_pane_below = 80;
    app.repos_pane_above = 110;
    app.repos_visible = true; // shown throughout; only room_for_three moves

    app.terminal_width = 79;
    assert_eq!(app.panes(), Panes::One);
    app.terminal_width = 80;
    assert_eq!(app.panes(), Panes::Two);
    app.terminal_width = 109;
    assert_eq!(app.panes(), Panes::Two);
    app.terminal_width = 110;
    assert_eq!(app.panes(), Panes::Three);
}

/// `0` disables a rung, matching what `single_pane_below = 0` already means.
#[test]
fn zero_disables_a_rung() {
    let mut app = counted(vec![task("a", None, &[])]);
    app.single_pane_below = 0;
    app.repos_pane_above = 0;
    // Shown throughout, so `repos_pane_above = 0` is what is under test:
    // shown but never promoted to a third pane, not simply hidden.
    app.repos_visible = true;

    app.terminal_width = 200;
    assert_eq!(app.panes(), Panes::Two, "the repos rung is off");
    app.terminal_width = 20;
    assert_eq!(app.panes(), Panes::Two, "the single-pane rung is off");
}

/// Zoom still wins, at any width, as it does today.
#[test]
fn zoom_overrides_the_ladder() {
    let mut app = counted(vec![task("a", None, &[])]);
    app.repos_pane_above = 110;
    app.terminal_width = 200;
    app.zoom = Some(true);
    assert_eq!(app.panes(), Panes::One);
}

fn ladder(width: u16) -> App {
    let mut app = counted(vec![task("a", None, &[])]);
    app.single_pane_below = 80;
    app.repos_pane_above = 110;
    app.terminal_width = width;
    app
}

/// Two panes reserve no room for the sidebar, so focus that ends up there shows
/// it alone: a cursor nothing on screen shows must never be driven. Pressing `1`
/// records the request in `repos_visible` instead, which puts the sidebar beside
/// the tree.
#[test]
fn repos_focus_becomes_a_single_pane_when_the_ladder_has_no_room_for_it() {
    let mut app = ladder(90);
    app.focus = Focus::Tree;
    assert_eq!(
        app.panes(),
        Panes::Two,
        "fixture should land squarely in the gap"
    );

    app.focus = Focus::Repos;

    assert_eq!(app.panes(), Panes::One, "must actually become visible");
    assert_eq!(app.zoom, None, "must not reach for zoom to get there");

    // Asked for rather than stranded: now it shares the width with the
    // tree instead of taking all of it.
    app.show_repos();
    assert_eq!(app.drawn_panes(), vec![Focus::Repos, Focus::Tree]);
}

/// A sidebar that was asked for steps down to sharing the width with the tree
/// when a resize takes the room for three panes away. It does not vanish.
#[test]
fn narrowing_into_the_gap_while_already_repo_focused_keeps_it_visible() {
    let mut app = ladder(200);
    app.show_repos(); // asked for, not stranded -- see the test above
    assert_eq!(
        app.panes(),
        Panes::Three,
        "fixture should start with room to spare"
    );

    app.terminal_width = 90; // resize alone, no key event

    assert_eq!(
        app.panes(),
        Panes::Two,
        "must not vanish on a resize with no keypress"
    );
    assert_eq!(app.drawn_panes(), vec![Focus::Repos, Focus::Tree]);
}

/// Already has room: forcing a single pane here would take away the tree
/// and detail panes for no reason.
#[test]
fn repos_focus_does_not_override_the_ladder_once_there_is_room() {
    let mut app = ladder(200);
    app.show_repos(); // asked for, not stranded -- see the test above
    assert_eq!(app.panes(), Panes::Three);
}

/// `zoom` still outranks everything, including the new focus-based rule
/// -- pressing `z` remains the documented way to force the split away
/// from a repo-focused gap, exactly as it already does for the width
/// rule.
#[test]
fn z_still_forces_the_split_away_from_a_repos_focused_gap() {
    let mut app = ladder(90);
    app.focus = Focus::Repos;
    assert_eq!(app.panes(), Panes::One, "fixture should start single-pane");

    app.toggle_zoom();

    assert_eq!(app.zoom, Some(false));
    assert_eq!(
        app.panes(),
        Panes::Two,
        "z must be able to force the split back"
    );
}

/// The same monotonicity rule `the_pane_ladder_is_monotone` pins for the
/// default focus must also hold with the repo pane focused throughout --
/// nothing about a wider terminal should ever draw fewer panes. Distinct
/// coverage from that test: `single_pane`'s *other* clause is in play here
/// (focus on a pane the layout has no slot for), not just the width rungs.
#[test]
fn the_ladder_is_monotone_with_the_repo_pane_focused_too() {
    let mut app = counted(vec![task("a", None, &[])]);
    app.single_pane_below = 80;
    app.repos_pane_above = 110;
    app.show_repos(); // asked for; sets focus to Focus::Repos too

    let count = |p: Panes| match p {
        Panes::One => 1,
        Panes::Two => 2,
        Panes::Three => 3,
    };

    let mut last = 0;
    for w in 40..=200u16 {
        app.terminal_width = w;
        let n = count(app.panes());
        assert!(n >= last, "widening to {w} dropped a pane: {last} -> {n}");
        last = n;
    }
}

/// With one pane on screen, every column belongs to it. Otherwise the mouse
/// handlers compare against `divider_x`, which is 0 there, and every click
/// would land on the detail pane -- including while looking at the tree.
#[test]
fn one_pane_owns_every_column() {
    let mut app = narrow(60);
    app.divider_x = 0;

    app.show_tree();
    for col in [0, 5, 30, 59] {
        assert_eq!(app.pane_at(col), Focus::Tree, "column {col}");
    }

    app.show_detail();
    for col in [0, 5, 30, 59] {
        assert_eq!(app.pane_at(col), Focus::Detail, "column {col}");
    }
}

#[test]
fn two_panes_split_at_the_divider() {
    let mut app = narrow(100);
    app.divider_x = 45;
    assert_eq!(app.pane_at(44), Focus::Tree);
    assert_eq!(app.pane_at(45), Focus::Detail);
}

/// With three panes the sidebar's columns lie left of `divider_x`, and still
/// belong to the sidebar: a click or the wheel there is not for the tree.
#[test]
fn the_sidebar_owns_its_own_columns() {
    let mut app = ladder(200);
    app.divider_x = 90;
    app.repos_right = 26;

    for col in [0, 1, 25] {
        assert_eq!(app.pane_at(col), Focus::Repos, "column {col}");
    }
    for col in [26, 60, 89] {
        assert_eq!(app.pane_at(col), Focus::Tree, "column {col}");
    }
    for col in [90, 150, 199] {
        assert_eq!(app.pane_at(col), Focus::Detail, "column {col}");
    }
}

/// `repos_right` is only set where the sidebar is actually drawn, so the
/// two-pane layout keeps answering exactly as it did -- a stale width from
/// an earlier wide frame would be an invisible dead zone down the left of
/// the tree.
#[test]
fn without_a_sidebar_pane_no_column_belongs_to_it() {
    let mut app = narrow(100);
    app.divider_x = 45;
    app.repos_right = 0;
    for col in [0, 1, 44] {
        assert_eq!(app.pane_at(col), Focus::Tree, "column {col}");
    }
}

/// The sidebar always carries the store being read, so the cursor opens on
/// it rather than on whatever sorted first.
#[test]
fn the_sidebar_cursor_starts_on_the_store_being_read() {
    let mut app = app_with_repos();
    app.store_dir = "/x/two-feat/.dex".into();

    app.select_current_store_row();

    // By what it resolves to, not by index: the row's *position* moves
    // when the current repo is lifted into `here`, and an index would
    // pin the layout rather than the behaviour.
    assert_eq!(app.selected_worktree_path().as_deref(), Some("/x/two-feat"));
}

/// `store_for_path` is the single place that knows a row's store is not
/// always `<path>/.dex` -- the global row's path *is* its store, and
/// pointing dex at a directory that does not exist is silent.
#[test]
fn a_paths_store_is_resolved_through_the_row_that_owns_it() {
    let mut app = app_with_repos();
    assert_eq!(app.store_for_path("/x/one-feat"), "/x/one-feat/.dex");

    app.repos.push(Repo {
        name: "global".into(),
        path: "/cfg/dex/local".into(),
        worktrees: vec![],
        open: true,
        registered: false,
        is_global: true,
    });
    assert_eq!(app.store_for_path("/cfg/dex/local"), "/cfg/dex/local");

    // A path the sidebar has never heard of still gets the ordinary
    // derivation, which is what `selftest` and the older tests rely on.
    assert_eq!(app.store_for_path("/elsewhere"), "/elsewhere/.dex");
}

/// Unsaving the repo you launched in keeps its row: `here` renders it whether or
/// not it is saved, so `D` only moves it out of `saved`.
#[test]
fn unsaving_the_here_repo_keeps_its_row() {
    let disk = Disk::new();
    let mut app = app_with_repos();
    app.registry = Registry::default();
    register(&mut app, &disk, "/x/one").unwrap();
    register(&mut app, &disk, "/x/two").unwrap();

    assert!(unregister(&mut app, &disk, "/x/two").unwrap());

    assert!(
        app.repos.iter().any(|r| r.path == "/x/two"),
        "the repo you are in was dropped"
    );
    assert!(
        app.repo_rows()
            .contains(&Row::Repo { index: 1 })
    );
    assert_eq!(app.registry.repos, vec!["/x/one".to_string()]);
}

/// A saved repo you are *not* in loses its row entirely, since neither
/// section has anywhere to put it.
#[test]
fn unsaving_another_repo_drops_its_row() {
    let disk = Disk::new();
    let mut app = app_with_repos();
    app.registry = Registry::default();
    register(&mut app, &disk, "/x/one").unwrap();
    register(&mut app, &disk, "/x/two").unwrap();

    assert!(unregister(&mut app, &disk, "/x/one").unwrap());

    assert!(!app.repos.iter().any(|r| r.path == "/x/one"));
}

/// The typical session is one repo read from its own directory, where the
/// sidebar has nothing to add -- it must not appear just because the
/// terminal happens to be wide, unless `repos_open` in the config says so.
#[test]
fn a_fresh_app_hides_the_sidebar_even_when_wide_enough_for_it() {
    let mut app = App::new(vec![task("a", None, &[])], "t".into(), Config::default());
    app.repos_pane_above = 110;
    app.terminal_width = 200;
    assert_eq!(app.panes(), Panes::Two, "the sidebar must start hidden");
}

/// `repos_open = true` is the config's way of starting with the sidebar
/// shown -- as if `1` had already been pressed -- for anyone whose
/// workflow wants it every launch rather than pressed for each session.
#[test]
fn repos_open_in_the_config_shows_the_sidebar_from_the_first_frame() {
    let cfg = Config {
        repos_open: true,
        ..Config::default()
    };
    let mut app = App::new(vec![task("a", None, &[])], "t".into(), cfg);
    app.repos_pane_above = 110;
    app.terminal_width = 200;
    assert_eq!(app.panes(), Panes::Three, "repos_open = true must show it");
}

/// Reloading a config is the one moment file values are meant to replace
/// what the runtime toggles have done -- otherwise flipping `repos_open`
/// and pressing `,` would silently do nothing.
#[test]
fn reloading_config_applies_the_new_repos_open_value() {
    let mut app = App::new(vec![task("a", None, &[])], "t".into(), Config::default());
    app.repos_pane_above = 110;
    app.terminal_width = 200;
    assert_eq!(app.panes(), Panes::Two, "starts hidden");

    app.toggle_repos(); // simulate having pressed `b` mid-session
    assert_eq!(app.panes(), Panes::Three);

    let cfg = Config {
        repos_pane_above: 110,
        ..Config::default()
    };
    app.apply_config(cfg);
    assert_eq!(
        app.panes(),
        Panes::Two,
        "reload must restore the file's repos_open"
    );
}

/// `b` outranks the width rule, the way `z` does for zoom -- and toggles
/// the *effective* state, so the first press always does the visible thing
/// rather than appearing inert at a width that had already decided.
#[test]
fn b_shows_and_hides_the_sidebar_at_any_width() {
    let mut app = counted(vec![task("a", None, &[])]);
    app.repos_pane_above = 110;
    app.single_pane_below = 0;
    app.terminal_width = 140;
    app.repos_visible = true; // starts shown
    assert_eq!(app.panes(), Panes::Three, "wide enough for the sidebar");

    app.toggle_repos();
    assert_eq!(app.panes(), Panes::Two, "b did not hide it");

    app.toggle_repos();
    assert_eq!(app.panes(), Panes::Three, "b did not bring it back");

    // And the other direction, from a width that had already hidden it.
    // Still two panes -- that is all this width fits -- but the sidebar is
    // now one of them, which is what asking for it has to mean.
    app.repos_visible = false;
    app.terminal_width = 90;
    assert_eq!(app.drawn_panes(), vec![Focus::Tree, Focus::Detail]);
    app.toggle_repos();
    assert_eq!(
        app.drawn_panes(),
        vec![Focus::Repos, Focus::Tree],
        "the first press must do something, without cramming in a third pane"
    );
}

/// At a width that fits two panes, asking for the sidebar displaces one of them
/// rather than adding a third.
#[test]
fn showing_the_sidebar_where_only_two_fit_displaces_the_detail() {
    let mut app = counted(vec![task("a", None, &[])]);
    app.repos_pane_above = 110;
    app.single_pane_below = 80;
    app.terminal_width = 100; // wide enough to split, not for three

    assert_eq!(app.drawn_panes(), vec![Focus::Tree, Focus::Detail]);

    app.show_repos();

    assert_eq!(app.drawn_panes(), vec![Focus::Repos, Focus::Tree]);
    assert_eq!(app.panes(), Panes::Two, "still only two panes wide");
}

/// The detail yields rather than the tree, and is still reachable: focusing
/// a pane the layout has no slot for zooms it, which is the same rule that
/// already covered the sidebar in this width band.
#[test]
fn the_displaced_detail_pane_is_still_reachable() {
    let mut app = counted(vec![task("a", None, &[])]);
    app.repos_pane_above = 110;
    app.single_pane_below = 80;
    app.terminal_width = 100;
    app.show_repos();

    app.show_detail();

    assert_eq!(app.drawn_panes(), vec![Focus::Detail]);
    assert!(app.single_pane());
}

/// With room for three, asking for the sidebar still gets all three.
#[test]
fn a_wide_terminal_still_shows_every_pane() {
    let mut app = counted(vec![task("a", None, &[])]);
    app.repos_pane_above = 110;
    app.terminal_width = 140;
    app.show_repos();
    assert_eq!(
        app.drawn_panes(),
        vec![Focus::Repos, Focus::Tree, Focus::Detail]
    );
}

/// Hiding the pane you are standing in has to move you somewhere, or the
/// movement keys would drive a pane that is not drawn. `Tab` never lands
/// on the sidebar, so the tree is the only place to go back to.
#[test]
fn hiding_the_sidebar_while_it_has_focus_returns_to_the_tree() {
    let mut app = counted(vec![task("a", None, &[])]);
    app.repos_pane_above = 110;
    app.terminal_width = 140;
    app.repos_visible = true; // starts shown, so toggling is what hides it
    app.focus = Focus::Repos;

    app.toggle_repos();

    assert_eq!(app.focus, Focus::Tree);
    assert_eq!(app.panes(), Panes::Two);
}

/// `b` must not be a way to lose the sidebar for good: the key that
/// reaches it has to bring it back.
#[test]
fn focusing_the_sidebar_reveals_it_when_b_had_hidden_it() {
    let mut app = counted(vec![task("a", None, &[])]);
    app.repos_pane_above = 110;
    app.single_pane_below = 0;
    app.terminal_width = 140;
    app.repos_visible = true; // starts shown, so toggle_repos is the `b` that hides it
    app.toggle_repos();
    assert_eq!(app.panes(), Panes::Two);

    app.show_repos();

    assert_eq!(app.focus, Focus::Repos);
    assert_eq!(
        app.panes(),
        Panes::Three,
        "1 could not bring the sidebar back"
    );
}

/// Where you are in the filesystem does not change because you looked at
/// another project's tasks.
#[test]
fn here_stays_on_the_launch_repo_after_switching_stores() {
    let mut app = app_with_repos();
    let before = app.repo_rows();
    assert_eq!(before[0], Row::Heading("here"));
    assert_eq!(
        before[1],
        Row::Repo { index: 1 },
        "launched in two"
    );

    // Switch to the other repo's store, as `enter` on a saved row does.
    app.load_store(Vec::new(), "/x/one/.dex".into());

    let after = app.repo_rows();
    assert_eq!(after[0], Row::Heading("here"));
    assert_eq!(
        after[1],
        Row::Repo { index: 1 },
        "`here` followed the store instead of staying put: {after:?}"
    );
}

/// Launched somewhere with no `.dex`, `here` would be a heading over a
/// repo with nothing in it. Checked live rather than at startup, so
/// creating the first task makes the section appear without a relaunch.
#[test]
fn here_is_hidden_when_there_is_no_store_where_you_launched() {
    let mut app = app_with_repos();
    app.here_store_present = false;

    let rows = app.repo_rows();

    assert!(
        !rows.contains(&Row::Heading("here")),
        "`here` shown with no store behind it: {rows:?}"
    );
    assert!(
        !rows.contains(&Row::Repo { index: 1 }),
        "unsaved and no store: it has no section at all: {rows:?}"
    );

    // The store appearing is enough to bring it back -- no relaunch.
    app.here_store_present = true;
    assert!(
        app.repo_rows()
            .contains(&Row::Repo { index: 1 })
    );
}

/// Headings are labels, so the cursor passes over them rather than landing
/// on one -- `j` at the end of a section must not stick.
#[test]
fn the_sidebar_cursor_steps_over_section_headings() {
    let mut app = app_with_repos();
    let rows = app.repo_rows();
    assert!(
        rows.iter().any(|r| !r.selectable()),
        "fixture should have headings: {rows:?}"
    );

    // Walk the whole list in both directions; never rest on a label.
    for _ in 0..rows.len() + 2 {
        app.move_repo_row(1);
        assert!(app.repo_rows()[app.selected_repo_row].selectable());
    }
    for _ in 0..rows.len() + 2 {
        app.move_repo_row(-1);
        assert!(app.repo_rows()[app.selected_repo_row].selectable());
    }

    app.select_first_repo_row();
    assert!(
        app.repo_rows()[app.selected_repo_row].selectable(),
        "g landed on a label"
    );
    app.select_last_repo_row();
    assert!(
        app.repo_rows()[app.selected_repo_row].selectable(),
        "G landed on a label"
    );
}

/// Clicking a label should no more move the cursor than clicking below the
/// list does.
#[test]
fn clicking_a_section_heading_does_nothing() {
    let mut app = app_with_repos();
    let heading = app
        .repo_rows()
        .iter()
        .position(|r| !r.selectable())
        .expect("fixture should have a heading");

    let before = app.selected_repo_row;
    app.select_repo_at_row(app.body_top + 1 + heading as u16);

    assert_eq!(app.selected_repo_row, before);
}

/// A click in the sidebar selects the row under it, exactly as the tree
/// does -- and, crucially, leaves the task selection alone.
#[test]
fn clicking_a_sidebar_row_selects_it_and_leaves_the_tasks_alone() {
    let mut app = app_with_repos();
    let task_before = app.selected.clone();

    app.select_repo_at_row(app.body_top + 1 + 3); // fourth row: Repo(two)

    assert_eq!(app.selected_repo_row, 3);
    assert_eq!(
        app.selected, task_before,
        "a sidebar click moved the task selection"
    );
}

/// Dead space below the last row must do nothing -- not jump the cursor to
/// the end, which is what clamping would do. The same rule
/// `clicking_empty_header_space_changes_nothing` pins for the header.
#[test]
fn clicking_below_the_last_sidebar_row_changes_nothing() {
    let mut app = app_with_repos();
    app.selected_repo_row = 1;

    app.select_repo_at_row(app.body_top + 1 + 50);

    assert_eq!(app.selected_repo_row, 1);
}

/// Through the offset the renderer last published, so a click lands on the
/// row actually drawn rather than the one that would be there unscrolled.
#[test]
fn a_scrolled_sidebar_click_addresses_the_row_actually_drawn() {
    let mut app = app_with_repos();
    app.repos_offset = 2;

    app.select_repo_at_row(app.body_top + 1);

    assert_eq!(app.selected_repo_row, 2);
}

/// The wheel slides the sidebar's content and the cursor keeps its screen
/// row -- the same gesture `scroll_tree` gives the tree, so two panes an
/// inch apart cannot answer one drag in two directions.
#[test]
fn the_sidebar_wheel_moves_the_content_and_the_cursor_together() {
    let mut app = app_with_repos();

    let start = app.selected_repo_row;

    app.scroll_repos(2);
    assert_eq!(app.repos_offset, 2);
    assert!(
        app.selected_repo_row > start,
        "the cursor should travel with the content"
    );
    assert!(app.repo_rows()[app.selected_repo_row].selectable());

    app.scroll_repos(-2);
    assert_eq!(app.repos_offset, 0);
    assert!(app.repo_rows()[app.selected_repo_row].selectable());
}

/// An empty sidebar has nothing to slide, and must not underflow trying.
#[test]
fn scrolling_an_empty_sidebar_does_nothing() {
    let mut app = counted(vec![task("a", None, &[])]);
    app.scroll_repos(3);
    assert_eq!(app.repos_offset, 0);
    assert_eq!(app.selected_repo_row, 0);
}

/// There is no divider to grab when only one pane is drawn, and a stale one
/// would be an invisible drag target in the middle of the screen.
#[test]
fn there_is_nothing_to_drag_in_one_pane_mode() {
    let mut app = narrow(60);
    app.divider_x = 0;
    for col in [0, 1, 30, 59] {
        assert!(
            app.divider_at(col).is_none(),
            "column {col} looked like a divider"
        );
    }
}

/// `Right` opens what it can, and only falls through to the detail when
/// there was nothing to open -- which is what its return value is for.
#[test]
fn expanding_reports_whether_it_had_anything_to_do() {
    let mut app = narrow(60);

    app.selected = Some("a".into()); // has a child
    app.collapse_all();
    assert!(app.expand_selected(), "a parent has something to open");

    app.selected = Some("b".into()); // a leaf
    assert!(!app.expand_selected(), "a leaf has nothing to open");
}

/// Switching panes must not disturb what you were looking at -- the same
/// rule a background refresh follows.
#[test]
fn crossing_to_the_detail_and_back_keeps_the_selection_and_the_tree() {
    let mut app = narrow(60);
    app.selected = Some("b".into());
    app.expanded.insert("a".into());
    let before = (app.selected.clone(), opened(&app));

    app.show_detail();
    app.show_tree();

    assert_eq!((app.selected.clone(), opened(&app)), before);
}

fn clickable(zones: Vec<(u16, u16, HeaderZone)>) -> App {
    let mut app = counted(vec![task("a", None, &[])]);
    app.header_zones = zones;
    app
}

#[test]
fn clicking_a_filter_word_selects_that_filter() {
    let mut app = clickable(vec![(10, 12, HeaderZone::Filter(Filter::All))]);
    app.filter = Filter::Pending;

    assert!(app.click_header(11, false));
    assert_eq!(app.filter, Filter::All);
}

/// The collapsed label has nothing to pick from, so it advances instead.
#[test]
fn clicking_the_collapsed_filter_label_cycles() {
    let mut app = clickable(vec![(0, 6, HeaderZone::FilterCycle)]);
    app.filter = Filter::Pending;

    assert!(app.click_header(3, false));
    assert_eq!(app.filter, Filter::Pending.next());
}

/// Mirrors `o` and `O`: the two buttons are the two keys.
#[test]
fn the_sort_zone_cycles_on_left_and_reverses_on_right() {
    let mut app = clickable(vec![(4, 11, HeaderZone::SortCycle)]);
    let order = app.sort;

    assert!(app.click_header(5, false));
    assert_eq!(app.sort, order.next());
    assert!(!app.sort_reversed, "cycling must not also reverse");

    let after_cycle = app.sort;
    assert!(app.click_header(5, true));
    assert!(app.sort_reversed);
    assert_eq!(app.sort, after_cycle, "reversing must not also cycle");
}

#[test]
fn clicking_a_sort_word_selects_that_sort() {
    let mut app = clickable(vec![(4, 10, HeaderZone::Sort(Sort::Updated))]);
    app.sort = Sort::Priority;

    assert!(app.click_header(6, false));
    assert_eq!(app.sort, Sort::Updated);
}

/// Right-clicking a filter would be a surprise -- only the sort has a second
/// action -- so it does nothing rather than picking.
#[test]
fn the_right_button_does_nothing_outside_the_sort_zone() {
    let mut app = clickable(vec![(10, 12, HeaderZone::Filter(Filter::All))]);
    app.filter = Filter::Pending;

    assert!(!app.click_header(11, true));
    assert_eq!(app.filter, Filter::Pending);
}

/// Dead space in the header must stay dead: clicking it cannot steal focus
/// or disturb the selection, which is what the whole app is built around.
#[test]
fn clicking_empty_header_space_changes_nothing() {
    let mut app = clickable(vec![(40, 47, HeaderZone::SortCycle)]);
    let before = (
        app.filter,
        app.sort,
        app.sort_reversed,
        app.selected.clone(),
    );

    assert!(!app.click_header(3, false));
    assert!(!app.click_header(39, false));
    assert!(!app.click_header(48, false));

    assert_eq!(
        (
            app.filter,
            app.sort,
            app.sort_reversed,
            app.selected.clone()
        ),
        before
    );
}

#[test]
fn a_zone_covers_its_last_column() {
    let app = clickable(vec![(10, 12, HeaderZone::SortCycle)]);
    assert_eq!(app.header_zone_at(9), None);
    assert_eq!(app.header_zone_at(10), Some(HeaderZone::SortCycle));
    assert_eq!(app.header_zone_at(12), Some(HeaderZone::SortCycle));
    assert_eq!(app.header_zone_at(13), None);
}

/// The header mirrors the `dex list --ready` / `dex list --blocked` pair,
/// **not** `dex status`'s partition. dex disagrees with itself here:
/// `status.js` counts a parent with unfinished children as blocked, while
/// `list --blocked` counts only tasks with incomplete blockers. Measured
/// across four real stores, five of the six tasks `dex status` calls blocked
/// have no blocker at all -- two of those stores contain no blocking
/// relationship anywhere and it still reported 3 and 1 blocked.
///
/// So "blocked" here means what the row's own glyph means, what the detail
/// pane means, and what dex-report's red `[!]` means. One word, one
/// definition, everywhere.
#[test]
fn blocked_counts_only_tasks_with_an_incomplete_blocker() {
    let mut done = task("done", None, &[]);
    done.completed = true;

    let mut live_blocker = task("open", None, &[]);
    live_blocker.name = "open".into();

    let mut stale = task("stale", None, &[]);
    stale.blocked_by = vec!["done".into()]; // blocker finished -> not blocked
    let mut real = task("real", None, &[]);
    real.blocked_by = vec!["open".into()];
    let mut ghost = task("ghost", None, &[]);
    ghost.blocked_by = vec!["nonexistent".into()]; // dangling -> not blocked

    let app = counted(vec![done, live_blocker, stale, real, ghost]);
    assert_eq!(app.counts().blocked, 1, "only `real` is blocked");
}

/// A parent with unfinished children is neither ready nor blocked. You
/// cannot pick up an epic, so counting it ready would be a small lie; it has
/// no blocker, so calling it blocked would be a bigger one.
///
/// This is the deliberate cost of the rule: ready + blocked does NOT sum to
/// pending. Asserted rather than tolerated, so nobody "fixes" the gap by
/// quietly folding parents into one bucket or the other.
#[test]
fn a_parent_with_open_children_is_neither_ready_nor_blocked() {
    let parent = task("parent", None, &["kid"]);
    let kid = task("kid", Some("parent"), &[]);

    let app = counted(vec![parent, kid]);
    let c = app.counts();

    assert_eq!(c.pending, 2);
    assert_eq!(c.ready, 1, "only the child can be picked up");
    assert_eq!(c.blocked, 0, "nothing has a blocker");
    assert_ne!(c.ready + c.blocked, c.pending, "the gap is the parent");
}

#[test]
fn a_parent_whose_children_are_all_done_is_ready_again() {
    let parent = task("parent", None, &["kid"]);
    let mut kid = task("kid", Some("parent"), &[]);
    kid.completed = true;

    let app = counted(vec![parent, kid]);
    assert_eq!(
        app.counts().ready,
        1,
        "nothing is holding the parent up now"
    );
}

/// In progress is its own bucket and is never also counted ready or blocked,
/// matching how `status.js` partitions: it tests in-progress first.
#[test]
fn a_started_task_counts_as_active_and_nothing_else() {
    let mut started = task("started", None, &[]);
    started.started_at = Some("2026-01-01T00:00:00Z".into());
    started.blocked_by = vec!["open".into()];
    let open = task("open", None, &[]);

    let app = counted(vec![started, open]);
    let c = app.counts();

    assert_eq!(c.active, 1);
    assert_eq!(c.blocked, 0, "started wins over blocked");
    assert_eq!(c.ready, 1, "only `open` is ready");
}

/// The percentage is the one number `dex status` and `dex-report` agree on,
/// so it must not drift: completed over total, archived aside.
#[test]
fn the_percentage_is_completed_over_everything() {
    let mut a = task("a", None, &[]);
    a.completed = true;
    let b = task("b", None, &[]);
    let c = task("c", None, &[]);
    let d = task("d", None, &[]);

    let app = counted(vec![a, b, c, d]);
    assert_eq!(app.counts().percent, 25);
}

#[test]
fn an_empty_store_reports_zero_percent_rather_than_dividing_by_zero() {
    let app = counted(vec![]);
    assert_eq!(app.counts().percent, 0);
}

/// Counts come from the unfiltered list, like the progress rollups, so
/// changing what is on screen never changes what the header reports.
#[test]
fn the_counts_ignore_the_current_filter() {
    let mut done = task("done", None, &[]);
    done.completed = true;
    let open = task("open", None, &[]);

    let mut app = counted(vec![done, open]);
    let before = app.counts();

    app.filter = Filter::InProgress;
    app.rebuild();

    assert_eq!(app.counts().percent, before.percent);
    assert_eq!(app.counts().ready, before.ready);
}

fn app_with(tasks: Vec<Task>, selected: &str) -> App {
    let mut app = App::new(tasks, "test".into(), Config::default());
    app.selected = Some(selected.to_string());
    app
}

/// A completed task's id, pasted while the filter is `pending`, matches nothing
/// visible. The screen says what the query would find without the filter.
#[test]
fn a_query_hidden_by_the_filter_says_so_and_counts_it() {
    let mut done = task("b4d5gfpl", None, &[]);
    done.name = "Ship the release workflow".into();
    done.completed = true;
    let mut app = counted(vec![done, task("other", None, &[])]);

    app.filter = Filter::Pending;
    app.query.value = "b4d5gfpl".into();
    app.rebuild();

    let msg = app
        .empty_reason()
        .expect("the tree is empty, so there is a reason");
    assert!(
        msg.contains("1 task,"),
        "it should count the matches: {msg}"
    );
    assert!(msg.contains("pending"), "it should name the filter: {msg}");
    assert!(
        msg.contains("Press f"),
        "it should say which key fixes it: {msg}"
    );
    // Not "press f to show it": from `pending` one press lands on
    // `active`, which hides a completed task just as firmly.
    assert!(
        msg.contains("until the filter reads all"),
        "only `all` is guaranteed to show it, so that is what it must name: {msg}"
    );
}

/// The other half of the same question, and the reason it is worth
/// distinguishing: a query nothing answers must not claim the filter is
/// hiding anything, or the advice it gives is a wild goose chase.
#[test]
fn a_query_nothing_answers_does_not_blame_the_filter() {
    let mut app = counted(vec![task("a", None, &[])]);

    app.filter = Filter::Pending;
    app.query.value = "zzzznope".into();
    app.rebuild();

    let msg = app.empty_reason().expect("the tree is empty");
    assert!(msg.contains("Nothing matches"), "{msg}");
    assert!(
        !msg.contains("filter"),
        "there is nothing for the filter to hide: {msg}"
    );
}

/// Plural, because "matches 3 tasks, press f to show it" reads as a bug in
/// the message rather than as a message about a bug.
#[test]
fn the_hidden_count_is_pluralised() {
    let done = |id: &str| {
        let mut t = task(id, None, &[]);
        t.completed = true;
        t
    };
    let mut app = counted(vec![done("zz1"), done("zz2"), done("zz3")]);

    app.filter = Filter::Pending;
    app.query.value = "zz".into();
    app.rebuild();

    let msg = app.empty_reason().expect("the tree is empty");
    assert!(msg.contains("3 tasks,"), "{msg}");
}

/// A tree with rows in it has nothing to explain, and a message drawn over
/// one would be covering the thing it describes.
#[test]
fn a_tree_with_rows_has_no_empty_reason() {
    let app = counted(vec![task("a", None, &[])]);
    assert!(app.empty_reason().is_none());
}

#[test]
fn selection_survives_a_refresh_that_changes_nothing() {
    let tasks = vec![task("a", None, &[]), task("b", None, &[])];
    let mut app = app_with(tasks.clone(), "b");

    app.apply_tasks(tasks);

    assert_eq!(app.selected.as_deref(), Some("b"));
}

#[test]
fn selection_survives_when_unrelated_tasks_are_added() {
    // The exact scenario of an agent creating tasks while you are reading.
    let mut app = app_with(vec![task("a", None, &[]), task("b", None, &[])], "b");

    app.apply_tasks(vec![
        task("a", None, &[]),
        task("b", None, &[]),
        task("new1", None, &[]),
        task("new2", None, &[]),
    ]);

    assert_eq!(app.selected.as_deref(), Some("b"));
}

/// A task that shows up already having children was created together with
/// them -- an agent or a script that finished before dextui's next
/// refresh -- and collapsing it would hide the exact subtasks that make it
/// worth looking at. The cursor is never *on* a task that did not exist a
/// moment ago, so nothing under it moves.
#[test]
fn a_new_parent_arrives_expanded() {
    let mut app = app_with(vec![task("a", None, &[])], "a");

    app.apply_tasks(vec![
        task("a", None, &[]),
        task("newparent", None, &["kid"]),
        task("kid", Some("newparent"), &[]),
    ]);

    assert!(app.expanded.contains("newparent"));
}

/// A brand-new leaf has no children to reveal, so it must not spuriously
/// join `expanded` -- there would be nothing wrong with it doing so, but a
/// set that only ever grows for tasks that can actually use it is the
/// simpler invariant to keep believing.
#[test]
fn a_new_leaf_task_does_not_join_expanded() {
    let mut app = app_with(vec![task("a", None, &[])], "a");

    app.apply_tasks(vec![task("a", None, &[]), task("newleaf", None, &[])]);

    assert!(!app.expanded.contains("newleaf"));
}

#[test]
fn expansion_is_dropped_only_for_tasks_that_disappeared() {
    let mut app = app_with(
        vec![
            task("a", None, &["k"]),
            task("k", Some("a"), &[]),
            task("gone", None, &[]),
        ],
        "a",
    );
    app.expanded.insert("gone".to_string());

    app.apply_tasks(vec![task("a", None, &["k"]), task("k", Some("a"), &[])]);

    assert!(app.expanded.contains("a"));
    assert!(!app.expanded.contains("gone"));
}

/// The auto-expand above must not resurrect a parent the user deliberately
/// collapsed -- it only applies to a task that is *new*, and a parent that
/// merely gains one more child among ones it already had is not new.
#[test]
fn an_existing_parent_gaining_a_child_keeps_its_own_expand_state() {
    let mut app = app_with(
        vec![task("a", None, &["k1"]), task("k1", Some("a"), &[])],
        "a",
    );
    app.expanded.remove("a"); // deliberately collapsed by the user

    app.apply_tasks(vec![
        task("a", None, &["k1", "k2"]),
        task("k1", Some("a"), &[]),
        task("k2", Some("a"), &[]),
    ]);

    assert!(
        !app.expanded.contains("a"),
        "an existing parent must not be re-expanded"
    );
}

/// You cannot collapse a leaf -- it has no twisty -- so leaving it collapsed the
/// moment it sprouts children preserves nothing and hides the subtasks that are
/// the reason it changed.
#[test]
fn a_leaf_that_becomes_a_parent_arrives_expanded() {
    let mut app = app_with(vec![task("a", None, &[]), task("b", None, &[])], "b");
    assert!(
        !app.expanded.contains("a"),
        "a leaf is not in `expanded` to begin with"
    );

    // An agent adds subtasks to a task that had none.
    app.apply_tasks(vec![
        task("a", None, &["k1", "k2"]),
        task("k1", Some("a"), &[]),
        task("k2", Some("a"), &[]),
        task("b", None, &[]),
    ]);

    assert!(
        app.expanded.contains("a"),
        "a task that just gained its first children should show them"
    );
}

/// The other half, and the reason the rule is about the *first* children
/// rather than about having any: an explicit collapse is real intent and a
/// refresh must not overrule it. Distinct from the test above, where there
/// was no intent to overrule.
#[test]
fn a_collapsed_parent_gaining_more_children_stays_collapsed() {
    let mut app = app_with(
        vec![
            task("a", None, &["k1"]),
            task("k1", Some("a"), &[]),
            task("b", None, &[]),
        ],
        "b",
    );
    app.expanded.remove("a"); // the user collapsed it on purpose

    app.apply_tasks(vec![
        task("a", None, &["k1", "k2"]),
        task("k1", Some("a"), &[]),
        task("k2", Some("a"), &[]),
        task("b", None, &[]),
    ]);

    assert!(
        !app.expanded.contains("a"),
        "gaining a further child must not undo a deliberate collapse"
    );
}

#[test]
fn a_deleted_selection_falls_back_to_its_next_sibling() {
    let mut app = app_with(
        vec![
            task("parent", None, &["s1", "s2", "s3"]),
            task("s1", Some("parent"), &[]),
            task("s2", Some("parent"), &[]),
            task("s3", Some("parent"), &[]),
        ],
        "s2",
    );

    app.apply_tasks(vec![
        task("parent", None, &["s1", "s3"]),
        task("s1", Some("parent"), &[]),
        task("s3", Some("parent"), &[]),
    ]);

    // Stays where the cursor visually was, rather than jumping to the top.
    assert_eq!(app.selected.as_deref(), Some("s3"));
}

#[test]
fn a_deleted_last_sibling_falls_back_to_the_previous_one() {
    let mut app = app_with(
        vec![
            task("parent", None, &["s1", "s2"]),
            task("s1", Some("parent"), &[]),
            task("s2", Some("parent"), &[]),
        ],
        "s2",
    );

    app.apply_tasks(vec![
        task("parent", None, &["s1"]),
        task("s1", Some("parent"), &[]),
    ]);

    assert_eq!(app.selected.as_deref(), Some("s1"));
}

#[test]
fn when_the_whole_branch_is_gone_selection_climbs_to_a_surviving_ancestor() {
    let mut app = app_with(
        vec![
            task("root", None, &["mid"]),
            task("mid", Some("root"), &["leaf"]),
            task("leaf", Some("mid"), &[]),
        ],
        "leaf",
    );

    // Both mid and leaf removed; only root survives.
    app.apply_tasks(vec![task("root", None, &[])]);

    assert_eq!(app.selected.as_deref(), Some("root"));
}

#[test]
fn an_empty_store_yields_no_selection() {
    let mut app = app_with(vec![task("a", None, &[])], "a");
    app.apply_tasks(vec![]);

    assert_eq!(app.selected, None);
}

#[test]
fn a_selected_root_that_is_deleted_moves_to_another_root() {
    let mut app = app_with(vec![task("r1", None, &[]), task("r2", None, &[])], "r1");
    app.apply_tasks(vec![task("r2", None, &[])]);

    assert_eq!(app.selected.as_deref(), Some("r2"));
}

#[test]
fn first_load_expands_everything_so_the_tree_is_visible() {
    let app = App::new(
        vec![task("root", None, &["kid"]), task("kid", Some("root"), &[])],
        "test".into(),
        Config::default(),
    );

    assert!(app.expanded.contains("root"));
    assert_eq!(app.row_ids().len(), 2);
}

fn started(id: &str) -> Task {
    Task {
        started_at: Some("2026-01-01T00:00:00Z".to_string()),
        ..task(id, None, &[])
    }
}

/// The strongest form of the idle-cost guard, written as an exact repaint
/// count rather than a comment: a store with nothing running must never ask
/// for a frame, no matter how long it sits there.
#[test]
fn an_idle_store_never_repaints_itself() {
    let mut app = app_with(vec![task("a", None, &[]), task("b", None, &[])], "a");

    for ms in (0..5000).step_by(37) {
        assert!(
            !app.pulse_tick(ms, 10),
            "an idle store asked to repaint at {ms}ms"
        );
    }
}

/// The cost budget as an exact number: 80ms frames are 12.5 repaints a second,
/// and only while a task is running.
#[test]
fn a_running_store_repaints_once_per_frame() {
    let mut app = app_with(vec![started("a")], "a");

    let repaints = (0..2800)
        .filter(|ms| app.pulse_tick(*ms, 10))
        .count();

    // 2800ms / 80ms, less the tick at 0 which is already the resting frame.
    assert_eq!(repaints, 34, "12.5 repaints/sec is the whole budget");
}

/// `started_at` survives completion, so a naive `started_at.is_some()` would
/// animate a finished store forever.
#[test]
fn a_completed_task_does_not_keep_the_pulse_running() {
    let mut done = started("a");
    done.completed = true;
    let app = app_with(vec![done], "a");

    assert!(!app.is_animating());
}

/// The opt-out must reach the idle cost, not merely the colour.
#[test]
fn turning_animation_off_stops_the_tick_even_with_work_in_progress() {
    let mut app = app_with(vec![started("a")], "a");
    assert!(app.is_animating(), "fixture should animate to begin with");

    app.animate = false;

    assert!(!app.is_animating());
    for ms in (0..3000).step_by(50) {
        assert!(
            !app.pulse_tick(ms, 10),
            "{ms}ms"
        );
    }
}

/// Switching away and back must return the cursor to where it was, or the
/// pane is tedious for exactly the comparison it exists to serve.
#[test]
fn each_worktree_remembers_where_you_were() {
    let mut app = counted(vec![task("a", None, &[]), task("b", None, &[])]);
    app.selected_worktree = Some("/x/one".into());
    app.selected = Some("b".into());

    app.select_worktree("/x/two");
    assert_eq!(app.selected_worktree.as_deref(), Some("/x/two"));

    app.selected = Some("a".into());
    app.select_worktree("/x/one");
    assert_eq!(
        app.selected.as_deref(),
        Some("b"),
        "returning to a worktree lost the task selection"
    );
}

/// The refresh invariant, extended: a refresh may not move the worktree either.
#[test]
fn a_refresh_never_changes_the_selected_worktree() {
    let mut app = counted(vec![task("a", None, &[])]);
    app.selected_worktree = Some("/x/one".into());

    app.apply_tasks(vec![task("a", None, &[]), task("c", None, &[])]);

    assert_eq!(app.selected_worktree.as_deref(), Some("/x/one"));
}

#[test]
fn selecting_the_same_worktree_twice_is_harmless() {
    let mut app = counted(vec![task("a", None, &[])]);
    app.selected_worktree = Some("/x/one".into());
    app.selected = Some("a".into());

    app.select_worktree("/x/one");
    assert_eq!(app.selected.as_deref(), Some("a"));
}

/// Switching to a worktree with no remembered task moves the selection to
/// `None` -- a genuinely different task (or nothing) than whatever was on
/// screen before, so a scroll position left over from the old one would
/// hide the new pane's content rather than show it.
#[test]
fn switching_worktrees_resets_the_detail_scroll() {
    let mut app = counted(vec![task("a", None, &[])]);
    app.selected_worktree = Some("/x/one".into());
    app.selected = Some("a".into());
    app.detail_scroll = (12, 3);

    app.select_worktree("/x/two");

    assert_eq!(
        app.detail_scroll,
        (0, 0),
        "a stale scroll would hide the new content"
    );
}

#[test]
fn load_store_replaces_the_task_list_and_expands_everything() {
    let mut app = counted(vec![task("old", None, &[])]);
    app.selected = Some("old".into());
    app.tree_offset = 4;
    app.detail_scroll = (7, 2);

    app.load_store(
        vec![task("root", None, &["kid"]), task("kid", Some("root"), &[])],
        "other".into(),
    );

    assert!(
        app.expanded.contains("root"),
        "the new store opened collapsed"
    );
    assert_eq!(app.row_ids().len(), 2, "the child must be visible too");
    assert_eq!(app.store_label, "other");
    assert_eq!(
        app.selected.as_deref(),
        Some("root"),
        "old-store id must not linger"
    );
    assert_eq!(app.tree_offset, 0);
    assert_eq!(app.detail_scroll, (0, 0));
}

/// `load_store` must not confuse an id from the store being left with one
/// that merely looks the same by coincidence -- there is no cross-store id
/// comparison here at all, unlike `apply_tasks`, which is the whole reason
/// this is a separate method.
#[test]
fn load_store_does_not_carry_over_expansion_from_the_old_store() {
    let mut app = counted(vec![task("shared-name", None, &["kid"])]);
    app.expanded.insert("shared-name".into());

    // A different store that happens to reuse the same id -- ids are
    // short slugs and a real collision across independent stores is
    // exactly the coincidence `apply_tasks` cannot be trusted to notice.
    app.load_store(vec![task("shared-name", None, &[])], "other".into());

    assert!(
        !app.expanded.contains("shared-name"),
        "a leaf must not be recorded as expanded just because an old id matched"
    );
}

/// A switch is `select_worktree` followed at once by `load_store`; the cursor
/// has to survive both, in that order.
#[test]
fn switching_back_to_a_worktree_restores_the_remembered_task_through_the_real_flow() {
    let mut app = counted(vec![task("a", None, &[]), task("b", None, &[])]);
    app.selected_worktree = Some("/x/one".into());
    app.selected = Some("b".into());

    // Leave "/x/one" for "/x/two" -- select_worktree remembers "b" for
    // "/x/one" in task_memory before this pair of calls runs again below.
    app.select_worktree("/x/two");
    app.load_store(vec![task("c", None, &[])], "two".into());

    // Return to "/x/one": select_worktree restores "b" from task_memory
    // first, and load_store must not stomp over it afterward.
    app.select_worktree("/x/one");
    app.load_store(
        vec![task("a", None, &[]), task("b", None, &[])],
        "one".into(),
    );

    assert_eq!(
        app.selected.as_deref(),
        Some("b"),
        "task_memory's restore must survive load_store, not just select_worktree alone"
    );
}

fn wt(path: &str, branch: &str, main: bool) -> Worktree {
    Worktree {
        path: path.to_string(),
        branch: branch.to_string(),
        is_main: main,
        is_locked: false,
        is_detached: false,
    }
}

fn repo(name: &str) -> Repo {
    Repo {
        name: name.to_string(),
        path: format!("/x/{name}"),
        worktrees: vec![
            wt(&format!("/x/{name}"), "main", true),
            wt(&format!("/x/{name}-feat"), "feat", false),
        ],
        open: true,
        registered: true,
        is_global: false,
    }
}

fn app_with_repos() -> App {
    let mut app = counted(vec![task("a", None, &[])]);
    app.repos = vec![repo("one"), repo("two")];
    // The geometry a real frame publishes. Left at its `App::new` default
    // of 0/0 these tests could not tell a click on an item row from one on
    // the pane's bottom border.
    app.body_top = 1;
    app.body_bottom = 21;
    // `here` is the repo the run launched in. `here_store` has to be a
    // directory that really exists, since the section is hidden when there
    // is no store where you are -- a temp dir is the cheapest real one.
    //
    // Unsaved, because that is now what puts a repo under `here` at all:
    // saving one moves it into `saved`. This fixture exists to give the
    // sidebar two populated sections, so it has to be the state that
    // produces them.
    app.repos[1].registered = false;
    app.here_path = Some("/x/two".into());
    app.here_store_present = true;
    app
}

/// Puts the cursor on the first row matching `want`, so these say what
/// they mean rather than pinning a layout: sections move rows about, and
/// an index would be asserting the arrangement instead of the resolution.
fn cursor_on(app: &mut App, want: Row) {
    app.selected_repo_row = app
        .repo_rows()
        .iter()
        .position(|r| *r == want)
        .unwrap_or_else(|| panic!("no such row {want:?} in {:?}", app.repo_rows()));
}

#[test]
fn a_repo_row_resolves_to_its_own_main_worktree() {
    let mut app = app_with_repos();
    cursor_on(&mut app, Row::Repo { index: 0 });
    assert_eq!(app.selected_worktree_path().as_deref(), Some("/x/one"));
    assert_eq!(app.selected_repo().unwrap().name, "one");
}

#[test]
fn a_worktree_row_resolves_to_that_exact_worktree() {
    let mut app = app_with_repos();
    cursor_on(&mut app, Row::Worktree { repo: 0, index: 1 });
    assert_eq!(app.selected_worktree_path().as_deref(), Some("/x/one-feat"));
    // But the *repo* it belongs to is still "one", not a worktree-shaped
    // thing -- D forgets the entry, not one worktree inside it.
    assert_eq!(app.selected_repo().unwrap().name, "one");
}

#[test]
fn a_worktree_row_deep_in_the_second_repo_resolves_to_the_second_repo() {
    let mut app = app_with_repos();
    cursor_on(&mut app, Row::Worktree { repo: 1, index: 0 });
    assert_eq!(app.selected_repo().unwrap().name, "two");
}

#[test]
fn an_empty_repo_list_resolves_nothing_rather_than_panicking() {
    let app = counted(vec![task("a", None, &[])]);
    assert_eq!(app.selected_worktree_path(), None);
    assert!(app.selected_repo().is_none());
}

#[test]
fn repo_row_movement_clamps_at_both_ends() {
    let mut app = app_with_repos();
    let last = app.repo_rows().len() - 1;

    app.move_repo_row(-100);
    assert!(app.selected_repo_row <= last, "must not go negative");
    assert!(app.repo_rows()[app.selected_repo_row].selectable());

    app.move_repo_row(100);
    assert_eq!(
        app.selected_repo_row, last,
        "must not run past the last row"
    );
}

#[test]
fn repo_row_movement_on_an_empty_list_does_nothing() {
    let mut app = counted(vec![task("a", None, &[])]);
    app.selected_repo_row = 0;
    app.move_repo_row(5);
    assert_eq!(app.selected_repo_row, 0);
}

#[test]
fn g_and_shift_g_jump_to_the_first_and_last_repo_row() {
    let mut app = app_with_repos();
    let rows = app.repo_rows();
    let first = rows.iter().position(|r| r.selectable()).unwrap();
    let last = rows.iter().rposition(|r| r.selectable()).unwrap();

    app.select_last_repo_row();
    assert_eq!(app.selected_repo_row, last);

    app.select_first_repo_row();
    assert_eq!(
        app.selected_repo_row, first,
        "g must clear the `here` label"
    );
}

#[test]
fn registering_adds_the_repo_and_reports_the_change() {
    let disk = Disk::new();
    let mut app = counted(vec![task("a", None, &[])]);
    app.registry = Registry::default();

    assert!(register(&mut app, &disk, "/x/dextui").unwrap());
    assert_eq!(app.registry.repos, vec!["/x/dextui".to_string()]);
}

#[test]
fn registering_a_known_repo_is_reported_not_duplicated() {
    let disk = Disk::new();
    let mut app = counted(vec![task("a", None, &[])]);
    app.registry = Registry::default();
    register(&mut app, &disk, "/x/dextui").unwrap();

    assert!(
        !register(&mut app, &disk, "/x/dextui").unwrap(),
        "a duplicate must report that nothing changed"
    );
    assert_eq!(app.registry.repos.len(), 1);
}

/// Unregistering is a view operation. It must never touch the worktree,
/// the branch or the store -- only the entry and the row.
#[test]
fn unregistering_removes_only_the_entry() {
    let disk = Disk::new();
    let mut app = counted(vec![task("a", None, &[])]);
    app.registry = Registry::default();
    register(&mut app, &disk, "/x/one").unwrap();
    register(&mut app, &disk, "/x/two").unwrap();

    assert!(unregister(&mut app, &disk, "/x/one").unwrap());
    assert_eq!(app.registry.repos, vec!["/x/two".to_string()]);
}

/// Removing a repo that is actually loaded into `app.repos` must also
/// drop its row, and clamp the cursor rather than leave it pointing past
/// the end of a now-shorter list.
#[test]
fn unregistering_a_loaded_repo_drops_its_row_and_clamps_the_cursor() {
    let disk = Disk::new();
    let mut app = app_with_repos(); // "one" then "two", 6 rows total
    // Through `register_repo_path`, not a bare `registry.add`: the
    // latter only mutates the in-memory copy, and `unregister_repo_path`
    // goes by what is stored.
    register(&mut app, &disk, "/x/one").unwrap();
    register(&mut app, &disk, "/x/two").unwrap();
    app.selected_repo_row = app.repo_rows().len() - 1;

    // "one" is not the repo this run launched in, so nothing keeps it.
    assert!(unregister(&mut app, &disk, "/x/one").unwrap());

    assert_eq!(app.repos.len(), 1, "the repo's own row must be gone too");
    assert_eq!(app.repos[0].name, "two");
    assert!(
        app.selected_repo_row < app.repo_rows().len(),
        "cursor left pointing past the end: {} vs {} rows",
        app.selected_repo_row,
        app.repo_rows().len()
    );
}

/// A removal that never reached the file would come back at the next launch, so
/// it is reported and the row stays.
#[test]
fn a_failed_unregister_save_is_reported_and_the_row_is_kept() {
    let disk = Disk::new();
    let mut app = app_with_repos();
    register(&mut app, &disk, "/x/one").unwrap();

    // Break the file *after* the successful registration above, so
    // the failure is specific to this save, not to setup.
    disk.broken.set(true);

    let before = app.repos.len();
    let err = unregister(&mut app, &disk, "/x/one").unwrap_err();
    assert!(!err.is_empty());
    assert_eq!(
        app.repos.len(),
        before,
        "the row must survive a failed save"
    );
}

/// Otherwise `,`-reload would silently ignore the key, which is exactly the
/// moment a preference file is meant to win.
#[test]
fn reloading_the_config_carries_the_animate_setting() {
    let mut app = app_with(vec![started("a")], "a");
    assert!(app.animate);

    app.apply_config(Config {
        animate: false,
        ..Config::default()
    });

    assert!(!app.animate);
    assert!(!app.is_animating());
}

/// When the last in-progress task finishes, the spinner must settle rather
/// than freeze on whichever frame happened to be up.
#[test]
fn the_spinner_settles_when_the_last_task_stops() {
    let mut app = app_with(vec![started("a")], "a");
    app.pulse_tick(720, 10);
    assert_eq!(app.spin_frame, 9, "fixture should be mid-rotation");

    let mut done = started("a");
    done.completed = true;
    app.apply_tasks(vec![done]);

    assert!(
        app.pulse_tick(720, 10),
        "the settling frame is a repaint"
    );
    assert_eq!(app.spin_frame, 0, "must return to rest, not freeze");
}

#[test]
fn text_input_edits_by_character_not_byte() {
    // Multi-byte characters must not corrupt the buffer.
    let mut input = TextInput::new("héllo");
    input.backspace();
    assert_eq!(input.value, "héll");

    input.left();
    input.insert('X');
    assert_eq!(input.value, "hélXl");
}

/// With no sidebar on screen the cycle is the two panes it always was.
#[test]
fn tab_moves_focus_between_the_panes() {
    let mut app = App::new(vec![task("a", None, &[])], "t".into(), Config::default());
    app.repos_pane_above = 0;
    assert_eq!(app.focus, Focus::Tree);
    app.cycle_focus(true);
    assert_eq!(app.focus, Focus::Detail);
    app.cycle_focus(true);
    assert_eq!(app.focus, Focus::Tree);
}

/// Left to right, and wrapping -- the same order as the `[1] [2] [3]`
/// keys, because two ways of reaching the same three panes disagreeing
/// about their order would be worse than either alone.
#[test]
fn tab_walks_all_three_panes_when_the_sidebar_is_shown() {
    let mut app = App::new(vec![task("a", None, &[])], "t".into(), Config::default());
    app.repos_pane_above = 110;
    app.terminal_width = 140;
    app.repos_visible = true; // shown, not the hidden default

    let mut seen = vec![app.focus];
    for _ in 0..3 {
        app.cycle_focus(true);
        seen.push(app.focus);
    }
    assert_eq!(
        seen,
        vec![Focus::Tree, Focus::Detail, Focus::Repos, Focus::Tree],
        "tab should wrap through all three, in drawn order"
    );

    // And shift-tab is exactly the inverse.
    let mut back = vec![app.focus];
    for _ in 0..3 {
        app.cycle_focus(false);
        back.push(app.focus);
    }
    assert_eq!(
        back,
        vec![Focus::Tree, Focus::Repos, Focus::Detail, Focus::Tree]
    );
}

/// The cycle follows what is drawn, so hiding the sidebar with `b` takes
/// it out -- tab must never land on a pane that is not there.
#[test]
fn tab_skips_the_sidebar_once_it_is_hidden() {
    let mut app = App::new(vec![task("a", None, &[])], "t".into(), Config::default());
    app.repos_pane_above = 110;
    app.terminal_width = 140;
    app.repos_visible = true; // starts shown, so toggle_repos is the `b` that hides it
    app.toggle_repos();

    for _ in 0..4 {
        app.cycle_focus(true);
        assert_ne!(app.focus, Focus::Repos, "tab landed on a hidden sidebar");
    }
}

/// Focused on the sidebar when it leaves the cycle, tab has no position to
/// step from. It must still go somewhere sensible rather than computing an
/// offset from an index that does not exist.
#[test]
fn tab_from_a_pane_that_has_left_the_cycle_lands_on_the_first() {
    let mut app = App::new(vec![task("a", None, &[])], "t".into(), Config::default());
    app.repos_pane_above = 0;
    app.focus = Focus::Repos;

    app.cycle_focus(true);

    assert_eq!(app.focus, Focus::Tree);
}

#[test]
fn detail_scroll_is_clamped_to_the_content() {
    let mut app = App::new(vec![task("a", None, &[])], "t".into(), Config::default());
    app.detail_content_height = 30;
    app.detail_viewport_height = 10;

    app.scroll_detail(100, 0);
    assert_eq!(app.detail_scroll.0, 20, "cannot scroll past the last row");

    app.scroll_detail(-100, 0);
    assert_eq!(app.detail_scroll.0, 0, "cannot scroll above the first row");
}

#[test]
fn content_shorter_than_the_pane_does_not_scroll() {
    let mut app = App::new(vec![task("a", None, &[])], "t".into(), Config::default());
    app.detail_content_height = 4;
    app.detail_viewport_height = 20;

    app.scroll_detail(5, 0);
    assert_eq!(app.detail_scroll.0, 0);
}

#[test]
fn horizontal_scroll_is_ignored_while_wrapping() {
    // Wrapping removes the overflow there would be anything to scroll to,
    // so accepting an offset would just move content off-screen for nothing.
    let mut app = App::new(vec![task("a", None, &[])], "t".into(), Config::default());
    assert!(app.wrap);

    app.scroll_detail(0, 10);
    assert_eq!(app.detail_scroll.1, 0);

    app.toggle_wrap();
    app.scroll_detail(0, 10);
    assert_eq!(app.detail_scroll.1, 10);
}

#[test]
fn turning_wrap_back_on_resets_the_horizontal_offset() {
    let mut app = App::new(vec![task("a", None, &[])], "t".into(), Config::default());
    app.toggle_wrap();
    app.scroll_detail(0, 12);
    assert_eq!(app.detail_scroll.1, 12);

    app.toggle_wrap();
    assert_eq!(app.detail_scroll.1, 0, "a stale offset would hide content");
}

#[test]
fn selecting_a_different_task_resets_the_scroll() {
    // Otherwise you land halfway down a task you have not read yet.
    let mut app = App::new(
        vec![task("a", None, &[]), task("b", None, &[])],
        "t".into(),
        Config::default(),
    );
    app.detail_content_height = 50;
    app.detail_viewport_height = 10;
    app.scroll_detail(20, 0);
    assert_ne!(app.detail_scroll.0, 0);

    app.move_selection(1);
    assert_eq!(app.detail_scroll, (0, 0));
}

#[test]
fn re_selecting_the_same_task_keeps_your_place() {
    let mut app = App::new(vec![task("a", None, &[])], "t".into(), Config::default());
    app.detail_content_height = 50;
    app.detail_viewport_height = 10;
    app.scroll_detail(15, 0);

    app.select_first(); // already selected
    assert_eq!(app.detail_scroll.0, 15);
}

fn geo(app: &mut App) {
    // Stand-in for what the renderer publishes each frame.
    app.terminal_width = 100;
    app.divider_x = 45;
    app.body_top = 1;
    app.body_bottom = 21;
}

/// The layout is `[Length(repos_width), Percentage(p), Fill(1)]`, so the divider
/// lands where the pointer is only when the percentage is counted from where the
/// tree starts.
#[test]
fn dragging_the_split_puts_the_divider_where_the_pointer_is() {
    let mut app = App::new(vec![task("a", None, &[])], "t".into(), Config::default());
    geo(&mut app);
    app.repos_right = 26;

    app.set_split(60, 100);

    // Where the renderer will put it: the sidebar, then that share of what
    // is left over.
    let span = 100 - app.repos_right;
    let landed = app.repos_right + span * app.split_percent / 100;
    assert_eq!(
        landed,
        60,
        "the divider moved {} cells from the pointer",
        landed as i32 - 60
    );
}

/// Widening the sidebar must cost both panes, not one. The percentage is
/// of the region the two share, so their *ratio* survives the sidebar
/// changing size.
#[test]
fn widening_the_sidebar_costs_both_panes_proportionally() {
    let mut app = App::new(vec![task("a", None, &[])], "t".into(), Config::default());
    geo(&mut app);
    app.split_percent = 50;

    let widths = |repos: u16| {
        let span = 100 - repos;
        let tree = span * 50 / 100;
        (tree, span - tree)
    };

    let (tree_narrow, detail_narrow) = widths(20);
    let (tree_wide, detail_wide) = widths(50);

    assert!(
        tree_wide < tree_narrow,
        "the tree kept its width: {tree_wide}"
    );
    assert!(detail_wide < detail_narrow, "the detail should shrink too");
    assert_eq!(
        tree_narrow - tree_wide,
        detail_narrow - detail_wide,
        "an even split should lose evenly"
    );
}

/// And with no sidebar the arithmetic is unchanged, which is why this was
/// invisible until a third pane existed.
#[test]
fn dragging_the_split_is_unchanged_without_a_sidebar() {
    let mut app = App::new(vec![task("a", None, &[])], "t".into(), Config::default());
    geo(&mut app);
    app.repos_right = 0;

    app.set_split(60, 100);

    assert_eq!(app.split_percent, 60);
}

/// The sidebar boundary is its own draggable divider.
#[test]
fn the_sidebar_edge_is_grabbable_and_resizes_it() {
    let mut app = App::new(vec![task("a", None, &[])], "t".into(), Config::default());
    geo(&mut app);
    app.repos_right = 26;

    for col in [24, 25, 26] {
        assert_eq!(
            app.divider_at(col),
            Some(Divider::Repos),
            "column {col} should grab the sidebar edge"
        );
    }

    app.set_repos_width(40, 100);
    assert_eq!(app.repos_width, 40);
}

/// Neither end may be dragged away: too narrow and a branch name is
/// unreadable, too wide and the pane the sidebar exists to navigate *to*
/// is squeezed out by the one doing the navigating.
#[test]
fn the_sidebar_cannot_be_dragged_to_either_extreme() {
    let mut app = App::new(vec![task("a", None, &[])], "t".into(), Config::default());
    geo(&mut app);

    app.set_repos_width(0, 100);
    assert_eq!(app.repos_width, App::REPOS_WIDTH_MIN);

    app.set_repos_width(99, 100);
    assert_eq!(app.repos_width, 50, "never past half the terminal");
}

#[test]
fn the_divider_is_grabbable_without_pixel_precision() {
    let mut app = App::new(vec![task("a", None, &[])], "t".into(), Config::default());
    geo(&mut app);

    for col in [44, 45, 46] {
        assert_eq!(
            app.divider_at(col),
            Some(Divider::Split),
            "column {col} should grab the split"
        );
    }
    for col in [10, 43, 47, 90] {
        assert!(app.divider_at(col).is_none(), "column {col} should not");
    }
}

#[test]
fn dragging_cannot_collapse_either_pane() {
    let mut app = App::new(vec![task("a", None, &[])], "t".into(), Config::default());
    geo(&mut app);

    app.set_split(0, 100);
    assert_eq!(app.split_percent, 20, "tree pane collapsed");

    app.set_split(100, 100);
    assert_eq!(app.split_percent, 80, "detail pane collapsed");

    app.set_split(60, 100);
    assert_eq!(app.split_percent, 60);
}

#[test]
fn a_zero_width_terminal_does_not_divide_by_zero() {
    let mut app = App::new(vec![task("a", None, &[])], "t".into(), Config::default());
    let before = app.split_percent;
    app.set_split(10, 0);
    assert_eq!(app.split_percent, before);
}

#[test]
fn clicking_a_row_selects_the_task_drawn_there() {
    let mut app = App::new(
        vec![
            task("a", None, &[]),
            task("b", None, &[]),
            task("c", None, &[]),
        ],
        "t".into(),
        Config::default(),
    );
    geo(&mut app);

    // body_top is the border, so the first task is on the next row.
    app.select_at_row(app.body_top + 1);
    assert_eq!(app.selected.as_deref(), Some("a"));

    app.select_at_row(app.body_top + 3);
    assert_eq!(app.selected.as_deref(), Some("c"));
}

#[test]
fn clicking_past_the_last_row_changes_nothing() {
    let mut app = App::new(vec![task("a", None, &[])], "t".into(), Config::default());
    geo(&mut app);

    app.select_at_row(app.body_top + 15);
    assert_eq!(
        app.selected.as_deref(),
        Some("a"),
        "selection moved to nothing"
    );
}

#[test]
fn clicking_the_border_row_selects_nothing_rather_than_the_first_task() {
    let mut app = App::new(
        vec![task("a", None, &[]), task("b", None, &[])],
        "t".into(),
        Config::default(),
    );
    geo(&mut app);
    app.select(Some("b".into()));

    app.select_at_row(app.body_top);
    assert_eq!(
        app.selected.as_deref(),
        Some("b"),
        "border click moved selection"
    );
}

#[test]
fn a_scrolled_list_maps_clicks_through_the_offset() {
    // Without honouring the offset, every click would address the top of the
    // list rather than what is actually drawn.
    let mut app = App::new(
        vec![
            task("a", None, &[]),
            task("b", None, &[]),
            task("c", None, &[]),
        ],
        "t".into(),
        Config::default(),
    );
    geo(&mut app);
    app.tree_offset = 2;

    app.select_at_row(app.body_top + 1);
    assert_eq!(app.selected.as_deref(), Some("c"));
}

/// `p` -> `c` -> `g`, one chain, so every row is the last of its siblings
/// and the prefixes are `└`, `  └`, `    └`. With the border and the
/// two-cell gutter that puts the markers at columns 4, 6 and 8.
fn nested() -> App {
    let mut app = App::new(
        vec![
            task("p", None, &["c"]),
            task("c", Some("p"), &["g"]),
            task("g", Some("c"), &[]),
        ],
        "t".into(),
        Config::default(),
    );
    geo(&mut app);
    // `App::new` opens everything on first load, so this starts expanded.
    assert_eq!(app.row_ids(), vec!["p", "c", "g"], "fixture is not open");
    app
}

#[test]
fn clicking_the_marker_closes_the_row_and_clicking_it_again_reopens_it() {
    let mut app = nested();

    app.click_tree(4, app.body_top + 1);
    assert_eq!(app.row_ids(), vec!["p"], "the marker did not close the row");
    assert_eq!(app.selected.as_deref(), Some("p"), "and it must select too");

    app.click_tree(4, app.body_top + 1);
    assert_eq!(app.row_ids(), vec!["p", "c", "g"], "it did not reopen");
}

/// The pad space after the glyph is part of the marker's own span, so the
/// zone is two cells -- a one-cell pointer target is a poor thing to ask
/// for. The branch character before it is tree drawing and stays out.
#[test]
fn the_marker_zone_is_the_glyph_and_its_pad_space_and_nothing_else() {
    for (column, toggles) in [(3, false), (4, true), (5, true), (6, false)] {
        let mut app = nested();
        app.click_tree(column, app.body_top + 1);
        assert_eq!(
            app.row_ids().len() == 1,
            toggles,
            "column {column} should {} have toggled",
            if toggles { "" } else { "not" }
        );
    }
}

/// The zone is offset by the row's own indentation. Without that, column 4
/// would be "the marker" on every row, so clicking a nested row's twisty
/// would land in dead space while clicking its indent would open it.
#[test]
fn a_nested_rows_marker_moves_right_with_its_indent() {
    let mut app = nested();
    // `p`'s marker column, but on `c`'s row -- indentation, not a marker.
    app.click_tree(4, app.body_top + 2);
    assert_eq!(
        app.row_ids(),
        vec!["p", "c", "g"],
        "indent acted as a marker"
    );
    assert_eq!(app.selected.as_deref(), Some("c"), "it should still select");

    app.click_tree(6, app.body_top + 2);
    assert_eq!(app.row_ids(), vec!["p", "c"], "c's own marker did nothing");
}

/// A leaf has a glyph drawn in the marker column too, but nothing to open.
#[test]
fn clicking_a_leafs_marker_only_selects() {
    let mut app = nested();
    let before = opened(&app);

    app.click_tree(8, app.body_top + 3);
    assert_eq!(app.selected.as_deref(), Some("g"));
    assert_eq!(opened(&app), before, "a leaf was recorded as expanded");
}

/// The tree does not start at column 0 when the sidebar is drawn, and the
/// zone has to move with it -- otherwise the marker is unclickable in the
/// three-pane layout, which is the default on a wide terminal.
#[test]
fn the_marker_zone_follows_the_tree_past_the_sidebar() {
    let mut app = nested();
    app.divider_x = 90;
    app.repos_right = 26;

    app.click_tree(4, app.body_top + 1);
    assert_eq!(app.row_ids().len(), 3, "column 4 is inside the sidebar");

    app.click_tree(30, app.body_top + 1);
    assert_eq!(
        app.row_ids(),
        vec!["p"],
        "the zone did not shift with the pane"
    );
}

/// The same gesture has to do the same thing in both panes: content slides,
/// nothing about *what is selected* changes. `scroll_detail` never touched
/// a selection to begin with; this pins that `scroll_tree` doesn't either.
#[test]
fn a_drag_slides_both_panes_the_same_way() {
    let tasks: Vec<Task> = ('a'..='j')
        .map(|c| task(&c.to_string(), None, &[]))
        .collect();
    let mut app = App::new(tasks, "t".into(), Config::default());
    geo(&mut app);
    app.detail_content_height = 100;
    app.detail_viewport_height = 10;
    app.tree_offset = 3;
    app.select(Some("f".into()));
    app.detail_scroll = (3, 0);

    // The detail pane is measured on its own: moving the tree's selection
    // deliberately resets it, so driving both from one state would prove
    // nothing about direction.
    app.scroll_detail(2, 0);
    assert_eq!(app.detail_scroll.0, 5, "the detail's content did not move");
    app.scroll_detail(-2, 0);
    assert_eq!(app.detail_scroll.0, 3, "the detail did not come back");

    // Same sign, same direction: the offset grows, so later rows come into
    // view from the bottom, exactly as later lines do on the right.
    app.scroll_tree(2);
    assert_eq!(app.tree_offset, 5, "the tree's content did not move");
    assert_eq!(
        app.selected.as_deref(),
        Some("f"),
        "the wheel must not reselect"
    );

    app.scroll_tree(-2);
    assert_eq!(app.tree_offset, 3, "the tree did not come back");
    assert_eq!(app.selected.as_deref(), Some("f"));
}

/// The offset clamps at the ends of the list -- it has nothing to scroll
/// into past the first or last row -- but the selection set before
/// scrolling began is untouched throughout, including while the offset
/// has run past where that task is drawn.
#[test]
fn scrolling_past_the_ends_of_the_tree_stops() {
    let tasks: Vec<Task> = ('a'..='e')
        .map(|c| task(&c.to_string(), None, &[]))
        .collect();
    let mut app = App::new(tasks, "t".into(), Config::default());
    geo(&mut app);
    app.select(Some("a".into()));

    app.scroll_tree(50);
    assert_eq!(
        app.selected.as_deref(),
        Some("a"),
        "the wheel must not reselect"
    );
    assert!(
        app.tree_offset <= 4,
        "offset ran past the list: {}",
        app.tree_offset
    );

    app.scroll_tree(-50);
    assert_eq!(app.selected.as_deref(), Some("a"));
    assert_eq!(app.tree_offset, 0);
}

/// Scrolling must not ask for the selection to be revealed: drawing would pull
/// the offset straight back to it. See `App::needs_tree_reveal`.
#[test]
fn scroll_tree_does_not_ask_for_a_reveal() {
    let mut app = App::new(
        vec![task("a", None, &[]), task("b", None, &[])],
        "t".into(),
        Config::default(),
    );
    app.needs_tree_reveal = false; // as it would be on every frame after the first
    app.scroll_tree(1);
    assert!(
        !app.needs_tree_reveal,
        "a wheel scroll must not ask for a reveal"
    );
}

/// A real selection change is the one thing that must ask for a reveal --
/// otherwise pressing `j` onto a row currently below the fold would leave
/// the cursor drawn nowhere, since nothing else scrolls `tree_offset` to
/// follow it.
#[test]
fn a_real_selection_change_asks_for_a_reveal() {
    let mut app = App::new(
        vec![task("a", None, &[]), task("b", None, &[])],
        "t".into(),
        Config::default(),
    );
    app.needs_tree_reveal = false;
    app.move_selection(1);
    assert!(
        app.needs_tree_reveal,
        "a moved selection must ask for a reveal"
    );
}

#[test]
fn in_body_excludes_the_header_and_status_rows() {
    let mut app = App::new(vec![task("a", None, &[])], "t".into(), Config::default());
    geo(&mut app);

    assert!(!app.in_body(0), "header row");
    assert!(app.in_body(1));
    assert!(app.in_body(20));
    assert!(!app.in_body(21), "status row");
}

/// Every change of selection starts the new task at its top and asks for it to
/// be scrolled into view, stepping out to the parent included.
#[test]
fn stepping_out_to_the_parent_reads_it_from_the_top() {
    let mut app = App::new(
        vec![task("p", None, &["c"]), task("c", Some("p"), &[])],
        "t".into(),
        Config::default(),
    );
    app.selected = Some("c".into());
    app.detail_scroll = (5, 0);
    app.needs_tree_reveal = false;

    app.collapse_selected();

    assert_eq!(app.selected.as_deref(), Some("p"));
    assert_eq!(app.detail_scroll, (0, 0));
    assert!(app.needs_tree_reveal);
    assert!(app.expanded.contains("p"));
}

#[test]
fn a_refresh_that_moves_the_selection_starts_at_its_top() {
    let mut app = app_with(vec![task("a", None, &[]), task("b", None, &[])], "b");
    app.detail_scroll = (5, 0);
    app.needs_tree_reveal = false;

    app.apply_tasks(vec![task("a", None, &[]), task("b", None, &[])]);
    assert_eq!(app.detail_scroll, (5, 0), "nothing moved");
    assert!(!app.needs_tree_reveal);

    app.apply_tasks(vec![task("a", None, &[])]);
    assert_eq!(app.selected.as_deref(), Some("a"));
    assert_eq!(app.detail_scroll, (0, 0));
    assert!(app.needs_tree_reveal);
}

#[test]
fn a_filter_that_drops_the_selection_starts_the_next_at_its_top() {
    let mut done = task("b", None, &[]);
    done.completed = true;
    let mut app = app_with(vec![task("a", None, &[]), done], "a");
    app.filter = Filter::All;
    app.rebuild();
    app.selected = Some("b".into());
    app.detail_scroll = (5, 0);
    app.needs_tree_reveal = false;

    app.filter = Filter::Pending;
    app.rebuild();

    assert_eq!(app.selected.as_deref(), Some("a"));
    assert_eq!(app.detail_scroll, (0, 0));
    assert!(app.needs_tree_reveal);
}

#[test]
fn reloading_the_config_carries_the_single_pane_width() {
    let mut app = App::new(vec![], "t".into(), Config::default());
    app.terminal_width = 90;
    assert!(!app.single_pane());

    app.apply_config(Config { single_pane_below: 100, ..Config::default() });

    assert_eq!(app.single_pane_below, 100);
    assert!(app.single_pane());
}

/// A cursor past the end types at the end and rubs out nothing.
#[test]
fn a_cursor_past_the_end_is_no_fault() {
    let mut t = TextInput { value: "ab".into(), cursor: 5 };
    t.insert('c');
    assert_eq!((t.value.as_str(), t.cursor), ("abc", 6));
    t.backspace();
    assert_eq!((t.value.as_str(), t.cursor), ("abc", 5));
}
