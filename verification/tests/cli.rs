//! The command line, the keys, the messages and saving repos.

use std::cell::RefCell;

use dextui::app::{App, Focus, Mode, Pending, Prompt, TextInput};
use dextui::cli::{parse, requires_a_terminal, Command, USAGE};
use dextui::config::{Config, Scope};
use dextui::dex::Task;
use dextui::effects::Msg;
use dextui::keys::{action_for, bindings, KeyCode, KeyEvent, KeyModifiers};
use dextui::registry::Registry;
use dextui::repos::{Repo, Row};
use dextui::saving::{current_repo, typed_path, Place};
use dextui::tree::Filter;
use dextui::worktree::Worktree;

const NONE: KeyModifiers = KeyModifiers {
    shift: false,
    control: false,
    alt: false,
    super_key: false,
    hyper: false,
    meta: false,
};
const CONTROL: KeyModifiers = KeyModifiers { control: true, ..NONE };
const ALT: KeyModifiers = KeyModifiers { alt: true, ..NONE };
const SHIFT: KeyModifiers = KeyModifiers { shift: true, ..NONE };
const CONTROL_ALT: KeyModifiers = KeyModifiers { control: true, alt: true, ..NONE };

/// A registry file that is not on any disk.
struct Disk {
    stored: RefCell<Registry>,
}

impl Disk {
    fn new() -> Self {
        Disk { stored: RefCell::new(Registry::default()) }
    }

    fn read(&self) -> Result<Registry, String> {
        Ok(self.stored.borrow().clone())
    }

    fn write(&self, r: &Registry) -> Result<(), String> {
        *self.stored.borrow_mut() = r.clone();
        Ok(())
    }
}

fn register_repo(app: &mut App, disk: &Disk, worktrees: Vec<Worktree>) -> String {
    app.register_repo(worktrees, disk.read(), |r: &Registry| disk.write(r))
}

/// The message has to leave someone with something to do. `selftest` is the
/// answer for the case that produces this -- a script or CI job wanting the
/// data without a terminal -- so it must be named, and must stay a real
/// command: `every_command_in_the_usage_text_is_actually_accepted` covers
/// the usage text, not this string.
#[test]
fn the_no_terminal_message_offers_a_way_forward() {
    let m = requires_a_terminal();
    assert!(
        m.contains("real terminal"),
        "does not say what is wrong: {m}"
    );
    assert!(m.contains("dextui selftest"), "offers no alternative: {m}");
    assert!(
        matches!(
            parse(&vec!["selftest".to_string()]),
            Ok(Command::SelfTest)
        ),
        "the message names a command that is not accepted"
    );
}


fn parsed(args: &[&str]) -> Result<Command, String> {
    parse(&args.iter().map(|s| s.to_string()).collect::<Vec<_>>())
}

/// Sends `key` to a help dialog with room for 10 of its 30 rows, and
/// reports where it left things. No dex call can happen on this path --
/// `close_modal` only refreshes when a refresh arrived while the dialog was
/// open -- so the runner never runs and the channel is only ever a sink.
fn help_key(key: KeyCode) -> (Option<u16>, u16) {
    let mut app = App::new(vec![], "demo".into(), Config::default());
    app.open_help();
    app.help_content_height = 30;
    app.help_viewport_height = 10;
    app.help_scroll = 5;

    app.handle_key(KeyEvent::new(key, NONE));

    let still_open = matches!(app.mode, Mode::Help).then_some(app.help_scroll);
    (still_open, app.help_scroll)
}

/// The keys that move scroll, and every other key dismisses.
#[test]
fn the_help_scrolls_on_movement_keys_and_dismisses_on_everything_else() {
    for (key, want) in [
        (KeyCode::Char('j'), 6),
        (KeyCode::Down, 6),
        (KeyCode::Char('k'), 4),
        (KeyCode::Up, 4),
        (KeyCode::PageDown, 15),
        (KeyCode::PageUp, 0),
        (KeyCode::Char('g'), 0),
        (KeyCode::Home, 0),
        // Clamped to the last row, not run off the end.
        (KeyCode::Char('G'), 20),
        (KeyCode::End, 20),
    ] {
        let (open, scroll) = help_key(key);
        assert_eq!(open, Some(want), "{key:?} should have scrolled to {want}");
        assert_eq!(scroll, want);
    }

    for key in [
        KeyCode::Esc,
        KeyCode::Enter,
        KeyCode::Char('q'),
        KeyCode::Char('?'),
        KeyCode::Char(' '),
        KeyCode::Char('x'),
    ] {
        assert_eq!(
            help_key(key).0,
            None,
            "{key:?} should have dismissed the help"
        );
    }
}

/// What `A` does with a typed path: the outside says what is there.
fn save_repo_at(app: &mut App, disk: &Disk, typed: &str, place: Place) -> String {
    match typed_path(typed, Some("/home/u")) {
        Ok(Some(path)) => {
            app.save_repo_at(&path, place, disk.read(), |r: &Registry| disk.write(r))
        }
        Ok(None) => String::new(),
        Err(e) => e,
    }
}

/// `A` saves a repo you are not in, so the path is typed rather than
/// discovered -- and an unchecked one is worse than a rejected one. dex
/// reports a store that does not exist as an *empty project* rather than
/// an error, so a typo saved on faith becomes a permanent row that shows
/// no tasks and never explains why.
#[test]
fn saving_a_repo_by_path_rejects_what_is_not_a_git_repo() {
    let disk = Disk::new();
    let mut app = App::new(vec![], "demo".into(), Config::default());

    assert!(
        save_repo_at(&mut app, &disk, "  ", Place::NotADirectory).is_empty(),
        "blank is a no-op, not an error"
    );

    let missing =
        save_repo_at(&mut app, &disk, "/nonexistent-path-for-tests", Place::NotADirectory);
    assert!(missing.contains("not a directory"), "{missing}");

    // A real directory that is not a repo: reported, and nothing saved.
    let not_a_repo = save_repo_at(
        &mut app,
        &disk,
        "/tmp",
        Place::NotARepo("fatal: not a git repository\n".to_string()),
    );
    assert!(not_a_repo.contains("not a git repo"), "{not_a_repo}");
    assert!(app.repos.is_empty(), "a rejected path must not leave a row");
}

/// `~` is expanded here because nothing in this app goes through a shell,
/// so a pasted `~/thing` would otherwise be taken literally.
#[test]
fn saving_a_repo_by_path_expands_a_leading_tilde() {
    let disk = Disk::new();
    let mut app = App::new(vec![], "demo".into(), Config::default());
    let home = "/home/u";

    let msg =
        save_repo_at(&mut app, &disk, "~/definitely-not-here-xyz", Place::NotADirectory);

    assert!(msg.starts_with(home), "the tilde was not expanded: {msg}");
    assert_eq!(
        typed_path(" ~ ", None),
        Err("cannot expand ~: HOME is not set".to_string())
    );
}

/// Outside a git repo dex silently falls back to a global store, and the
/// sidebar is the only place on screen that has ever said so. It is a row,
/// not a repo: no worktrees, and its path *is* its store.
#[test]
fn a_store_outside_any_repo_becomes_the_global_row() {
    let mut problems = Vec::new();
    let r = current_repo("/home/u/.config/dex/local", Ok(vec![]), &mut problems).unwrap();

    assert!(r.is_global);
    assert!(!r.registered, "nothing registers the global store");
    assert_eq!(r.name, "global");
    assert!(r.worktrees.is_empty());
    assert_eq!(r.store(None), "/home/u/.config/dex/local");
    assert!(problems.is_empty());
}

/// A repo-shaped store is recognised by its `.dex` suffix -- dex's own
/// answer, from `dex dir` -- rather than by a fresh `is_dir` check here
/// that could disagree with it.
#[test]
fn a_dex_directory_is_treated_as_a_repo_not_the_global_store() {
    let mut problems = Vec::new();
    // Not a real repo, so `git worktree list` fails and this reports
    // rather than inventing a row -- but it must not be mistaken for the
    // global store on the way there.
    let r = current_repo(
        "/nonexistent-repo-for-tests/.dex",
        Err("fatal: cannot change to it\n".to_string()),
        &mut problems,
    );
    assert!(r.is_none());
    assert_eq!(
        problems.len(),
        1,
        "a git failure has to be reported: {problems:?}"
    );
    assert!(
        problems[0].starts_with("/nonexistent-repo-for-tests"),
        "the problem names the repo, not its store: {problems:?}"
    );
}

/// Ctrl-L must reach `force_redraw` rather than being eaten by the plain
/// `l` that means expand / cross to the detail.
///
/// Match arms are tried in order and the plain arm does not look at
/// modifiers, so the guarded one only works because it is written above
/// it. That is a property of the file's *layout*, which nothing else
/// checks -- the compiler happens to warn here (`unreachable pattern`),
/// but it cannot warn when the shadowing arm is merely reachable-but-wrong.
#[test]
fn ctrl_l_forces_a_redraw_and_is_not_swallowed_by_the_plain_l() {

    let mut app = App::new(vec![], "demo".into(), Config::default());
    app.focus = Focus::Tree;
    app.handle_key(KeyEvent::new(KeyCode::Char('l'), CONTROL));
    assert!(app.force_redraw, "ctrl-l was swallowed by the plain `l`");

    // And the plain `l` still means what it always did: it crosses to the
    // detail from a leaf, and does not ask for a repaint.
    let mut app = App::new(vec![], "demo".into(), Config::default());
    app.focus = Focus::Tree;
    app.handle_key(KeyEvent::new(KeyCode::Char('l'), NONE));
    assert!(!app.force_redraw, "the plain `l` should not force a redraw");
}

/// `Ctrl-D`, `Alt-D` and `Ctrl-Alt-D` are not `d`: a chord that is not bound does
/// nothing. SHIFT is let through, since `O`, `G`, `F`, `D`, `A` and `+` are
/// shifted keys with bindings of their own.
#[test]
fn a_modifier_chord_does_not_fire_the_plain_letter_binding() {

    let pressed = |code: KeyCode, mods: KeyModifiers| {
        let mut app = App::new(
            vec![a_task("t1")],
            "demo".into(),
            Config::default(),
        );
        app.focus = Focus::Tree;
        app.handle_key(KeyEvent::new(code, mods));
        app
    };

    // The plain key still means what it always did.
    assert!(
        matches!(
            pressed(KeyCode::Char('d'), NONE).mode,
            Mode::Confirm { .. }
        ),
        "the plain `d` no longer asks to delete"
    );

    // Nothing layered over it does.
    for mods in [
        CONTROL,
        ALT,
        CONTROL_ALT,
    ] {
        assert!(
            matches!(pressed(KeyCode::Char('d'), mods).mode, Mode::Normal),
            "{mods:?} + d opened the delete dialog"
        );
    }

    // The rest of the unguarded set went exactly the same way.
    assert!(
        !pressed(KeyCode::Char('q'), CONTROL).should_quit,
        "ctrl-q quit the app"
    );
    let wrap = Config::default().wrap;
    assert_eq!(
        pressed(KeyCode::Char('w'), CONTROL).wrap,
        wrap,
        "ctrl-w toggled wrapping"
    );
    assert!(
        matches!(
            pressed(KeyCode::Char('a'), ALT).mode,
            Mode::Normal
        ),
        "alt-a opened the new-subtask prompt"
    );

    // The three deliberate control keys are untouched, and so is SHIFT.
    assert!(
        pressed(KeyCode::Char('c'), CONTROL).should_quit,
        "ctrl-c no longer quits"
    );
    assert!(
        pressed(KeyCode::Char('l'), CONTROL).force_redraw,
        "ctrl-l no longer redraws"
    );
    assert_eq!(
        pressed(KeyCode::Char('F'), SHIFT).filter,
        Filter::All,
        "shift-F no longer walks the filter back"
    );
}

/// No two entries claim one key, and every entry resolves back to its own
/// action through `action_for`.
#[test]
fn the_keymap_is_unambiguous_and_every_entry_resolves_to_itself() {
    let table = bindings();
    for (i, b) in table.iter().enumerate() {
        assert!(
            table[..i]
                .iter()
                .all(|o| !(o.code == b.code && o.mods == b.mods)),
            "{:?} + {:?} is bound twice",
            b.mods,
            b.code
        );
        assert_eq!(
            action_for(&KeyEvent::new(b.code, b.mods)),
            Some(b.action),
            "{:?} + {:?} does not resolve to its own action",
            b.mods,
            b.code
        );
    }
}

/// `Ctrl-A` in the rename box is the reflex for "go to the start of the line".
/// It is not bound, so it does nothing -- rather than typing an `a`.
#[test]
fn a_chord_does_not_type_its_letter_into_a_text_field() {

    let mut app = App::new(vec![], "demo".into(), Config::default());
    app.mode = Mode::Search;
    for mods in [CONTROL, ALT] {
        app.handle_key(KeyEvent::new(KeyCode::Char('a'), mods));
    }
    assert_eq!(app.query.value, "", "a chord typed into the search box");

    // And the plain key still reaches it, so this has not simply muted
    // the field.
    app.handle_key(KeyEvent::new(KeyCode::Char('a'), NONE));
    assert_eq!(app.query.value, "a", "the search box stopped accepting text");

    let prompt = Prompt {
        title: "rename".into(),
        label: "name".into(),
        input: TextInput::default(),
        pending: Pending::EditName { id: "t1".into() },
    };
    let mut app = App::new(vec![], "demo".into(), Config::default());
    app.mode = Mode::Prompt(prompt);
    app.handle_key(KeyEvent::new(KeyCode::Char('a'), CONTROL));
    let Mode::Prompt(p) = &app.mode else {
        panic!("ctrl-a left the prompt: {:?}", app.mode);
    };
    assert_eq!(p.input.value, "", "ctrl-a typed an `a` into the rename box");
}

/// `f` and `F` should behave like the sort pair: one moves through the
/// choices in the normal direction, the shifted key walks back.
#[test]
fn filter_keys_cycle_forward_and_backward() {

    let mut app = App::new(vec![], "demo".into(), Config::default());
    app.handle_key(KeyEvent::new(KeyCode::Char('f'), NONE));
    assert_eq!(app.filter, Filter::InProgress);

    let mut app = App::new(vec![], "demo".into(), Config::default());
    app.handle_key(KeyEvent::new(KeyCode::Char('F'), SHIFT));
    assert_eq!(app.filter, Filter::All);
}

/// `?` is pressed by someone looking for a key, and resuming halfway down
/// the dialog would hide the first ten of them.
#[test]
fn reopening_the_help_starts_at_the_top() {
    let mut app = App::new(vec![], "demo".into(), Config::default());
    app.help_content_height = 30;
    app.help_viewport_height = 10;

    app.open_help();
    app.scroll_help(i32::MAX);
    assert_eq!(app.help_scroll, 20, "the test never scrolled anywhere");

    app.mode = Mode::Normal;
    app.open_help();
    assert_eq!(app.help_scroll, 0);
}

#[test]
fn no_arguments_runs_the_tui() {
    assert!(matches!(parsed(&[]), Ok(Command::Run)));
}

#[test]
fn an_unknown_command_or_option_is_an_error_not_a_silent_launch() {
    assert!(parsed(&["--nonsense"]).unwrap_err().contains("--nonsense"));
    assert!(parsed(&["wibble"]).unwrap_err().contains("wibble"));
    assert!(
        parsed(&["config", "wibble"])
            .unwrap_err()
            .contains("wibble")
    );
}

#[test]
fn help_and_version_have_short_forms() {
    assert!(matches!(parsed(&["-h"]), Ok(Command::Help)));
    assert!(matches!(parsed(&["--help"]), Ok(Command::Help)));
    assert!(matches!(parsed(&["-V"]), Ok(Command::Version)));
    assert!(matches!(parsed(&["--version"]), Ok(Command::Version)));
}

#[test]
fn help_wins_even_after_a_command() {
    // Asking for help should never run something instead.
    assert!(matches!(
        parsed(&["config", "init", "--help"]),
        Ok(Command::Help)
    ));
}

#[test]
fn config_subcommands_parse() {
    assert!(matches!(parsed(&["config"]), Ok(Command::ShowConfig)));
    assert!(matches!(
        parsed(&["config", "init"]),
        Ok(Command::InitConfig { .. })
    ));
    assert!(matches!(
        parsed(&["config", "edit"]),
        Ok(Command::EditConfig { .. })
    ));
}

#[test]
fn local_and_project_select_the_project_file() {
    // -l matches dex's own spelling; --project says what it means.
    for flag in ["-l", "--local", "--project"] {
        assert!(
            matches!(
                parsed(&["config", "edit", flag]),
                Ok(Command::EditConfig {
                    scope: Scope::Project
                })
            ),
            "{flag} did not select the project scope"
        );
    }
}

#[test]
fn global_is_the_default_and_can_be_stated_explicitly() {
    assert!(matches!(
        parsed(&["config", "edit"]),
        Ok(Command::EditConfig {
            scope: Scope::Global
        })
    ));
    for flag in ["-g", "--global"] {
        assert!(matches!(
            parsed(&["config", "edit", flag]),
            Ok(Command::EditConfig {
                scope: Scope::Global
            })
        ));
    }
}

#[test]
fn options_may_appear_before_the_command() {
    assert!(matches!(
        parsed(&["--local", "--force", "config", "init"]),
        Ok(Command::InitConfig {
            force: true,
            scope: Scope::Project
        })
    ));
}

#[test]
fn init_does_not_overwrite_unless_asked() {
    assert!(matches!(
        parsed(&["config", "init"]),
        Ok(Command::InitConfig { force: false, .. })
    ));
}

#[test]
fn every_command_in_the_usage_text_is_actually_accepted() {
    // The usage block is the only place these are advertised, so anything
    // listed but unparseable would be a silent lie.
    for line in USAGE.lines() {
        let line = line.trim_end();
        let Some(rest) = line.strip_prefix("    ") else {
            continue;
        };
        if rest.starts_with(' ') || rest.is_empty() {
            continue;
        }
        // "config init         Write a config template" -> ["config", "init"]
        let words: Vec<&str> = rest
            .split_whitespace()
            .take_while(|w| !w.starts_with('-') && w.chars().all(|c| c.is_ascii_lowercase()))
            .collect();
        if words.is_empty() || words[0] == "dextui" {
            continue;
        }
        assert!(
            parse(&words.iter().map(|w| w.to_string()).collect::<Vec<_>>()).is_ok(),
            "usage advertises {words:?} but the parser rejects it"
        );
    }
}

fn a_task(id: &str) -> Task {
    Task {
        id: id.to_string(),
        name: id.to_string(),
        ..Default::default()
    }
}

/// Hands the app a message that asks nothing of the outside.
fn apply(app: &mut App, msg: Msg) {
    let fx = app.handle_msg(msg);
    assert!(fx.is_empty(), "{fx:?}");
}

/// A refresh asked for just before a switch lands just after it. Its tasks must
/// not be painted under the other store's label.
#[test]
fn a_task_list_from_the_store_we_just_left_is_dropped() {
    let mut app = App::new(
        vec![a_task("new")],
        "/x/two/.dex".into(),
        Config::default(),
    );

    apply(
        &mut app,
        Msg::Tasks {
            store: "/x/one/.dex".into(),
            result: Ok(vec![a_task("old")]),
        },
    );

    let ids: Vec<&str> = app.tasks.iter().map(|t| t.id.as_str()).collect();
    assert_eq!(ids, vec!["new"], "the old store's tasks were painted");
    assert_eq!(
        app.store_label, "two",
        "and the header still says the new store"
    );
}

/// The ordinary case still applies, or the tag would have turned every
/// refresh into a no-op.
#[test]
fn a_task_list_from_the_current_store_is_applied() {
    let mut app = App::new(vec![], "/x/one/.dex".into(), Config::default());

    apply(
        &mut app,
        Msg::Tasks {
            store: "/x/one/.dex".into(),
            result: Ok(vec![a_task("fresh")]),
        },
    );

    assert_eq!(app.tasks.len(), 1);
    assert_eq!(app.tasks[0].id, "fresh");
}

/// A failure from a store nobody is on must not report itself either --
/// "refresh failed" about a store you have already left is noise about
/// something you cannot act on.
#[test]
fn a_failure_from_a_store_we_just_left_is_not_reported() {
    let mut app = App::new(vec![], "/x/two/.dex".into(), Config::default());

    apply(
        &mut app,
        Msg::Tasks {
            store: "/x/one/.dex".into(),
            result: Err("boom".into()),
        },
    );

    assert!(app.status.is_empty(), "status: {}", app.status);
}

fn worktrees_of(name: &str) -> Vec<Worktree> {
    vec![
        Worktree {
            path: format!("/x/{name}"),
            branch: "main".into(),
            is_main: true,
            is_locked: false,
            is_detached: false,
        },
        Worktree {
            path: format!("/x/{name}-feat"),
            branch: "feat".into(),
            is_main: false,
            is_locked: false,
            is_detached: false,
        },
    ]
}

/// Persisting and drawing are two separate things, and saving does both: the new
/// row is there without a restart.
#[test]
fn registering_a_repo_adds_its_sidebar_row_immediately() {
    let disk = Disk::new();
    let mut app = App::new(vec![], "t".into(), Config::default());
    assert!(app.repos.is_empty());

    let status = register_repo(&mut app, &disk, worktrees_of("one"));

    assert!(status.contains("saved"), "status: {status}");
    assert_eq!(app.repos.len(), 1, "the sidebar row was not added");
    assert_eq!(app.repos[0].path, "/x/one");
    assert_eq!(app.repos[0].name, "one");
    assert_eq!(
        app.repos[0].worktrees.len(),
        2,
        "the row must carry every worktree, not just the main one"
    );
    // The `saved` heading and three rows under it, so the sidebar
    // really does draw the worktrees too.
    assert_eq!(app.repo_rows().len(), 4);
}

/// Saving moves the row out of `here` and into `saved`, which is what
/// makes `a` visible -- and the cursor has to travel with it. It does not
/// address a repo, it addresses an *index*, so a row that moves past it
/// leaves it pointing at whichever repo slid into that slot. Since the
/// sidebar cursor is what chooses the store, that is not a cosmetic
/// slip: pressing `a` would swap the other two panes to a different
/// project.
///
/// Needs a second saved repo to catch. With one repo the `here` heading
/// leaves as the `saved` heading arrives, so every index below is
/// unchanged and a broken cursor still looks right.
#[test]
fn saving_carries_the_sidebar_cursor_along_with_the_row_it_moves() {
    let disk = Disk::new();
    let mut app = App::new(vec![], "/x/two/.dex".into(), Config::default());
    app.here_path = Some("/x/two".into());
    // `here` is hidden when the store behind it does not exist.
    app.here_store_present = true;
    app.repos = ["one", "two"]
        .iter()
        .map(|n| Repo {
            name: (*n).to_string(),
            path: format!("/x/{n}"),
            worktrees: worktrees_of(n),
            open: true,
            // "two" is where we are, and not saved yet.
            registered: *n == "one",
            is_global: false,
        })
        .collect();
    app.select_current_store_row();
    assert_eq!(
        app.repo_rows()[app.selected_repo_row],
        Row::Repo { index: 1 },
        "the cursor should start on the repo we are in"
    );

    register_repo(&mut app, &disk, worktrees_of("two"));

    let rows = app.repo_rows();
    assert_eq!(
        rows[app.selected_repo_row],
        Row::Repo { index: 1 },
        "the cursor stayed at its old index instead of following: {rows:?}"
    );
    assert!(
        !rows.contains(&Row::Heading("here")),
        "the saved repo should have left `here`: {rows:?}"
    );
}

/// Rows are kept in the order `Registry::add` writes them, so nothing
/// jumps around the first time the app is restarted -- and a repo already
/// registered adds no second row.
#[test]
fn registering_keeps_the_rows_sorted_and_never_duplicates_one() {
    let disk = Disk::new();
    let mut app = App::new(vec![], "t".into(), Config::default());

    register_repo(&mut app, &disk, worktrees_of("two"));
    register_repo(&mut app, &disk, worktrees_of("one"));

    let paths: Vec<&str> = app.repos.iter().map(|r| r.path.as_str()).collect();
    assert_eq!(
        paths,
        vec!["/x/one", "/x/two"],
        "rows are not in registry order"
    );

    let status = register_repo(&mut app, &disk, worktrees_of("one"));
    assert!(status.contains("already saved"), "status: {status}");
    assert_eq!(app.repos.len(), 2, "a duplicate row was added");
}

fn repo_app() -> App {
    let mut app = App::new(vec![], "t".into(), Config::default());
    app.repos = vec![Repo {
        name: "one".into(),
        path: "/x/one".into(),
        worktrees: vec![Worktree {
            path: "/x/one".into(),
            branch: "main".into(),
            is_main: true,
            is_locked: false,
            is_detached: false,
        }],
        open: true,
        registered: true,
        is_global: false,
    }];
    app.focus = Focus::Repos;
    app
}

/// This is the glue `enter` and `l` share in the repo pane: it has to pick
/// the worktree under the cursor, remember it as the current one, queue
/// the actual store swap for the main loop (which alone holds a mutable
/// `Arc<Dex>`), and hand focus back to the tree.
#[test]
fn select_worktree_under_cursor_queues_the_switch_and_returns_focus_to_the_tree() {
    let mut app = repo_app();
    // Row 0 is the `saved` heading; row 1 is the repo itself.
    app.selected_repo_row = 1;

    app.select_worktree_under_cursor();

    assert_eq!(app.pending_store.as_deref(), Some("/x/one"));
    assert_eq!(app.selected_worktree.as_deref(), Some("/x/one"));
    assert_eq!(app.focus, Focus::Tree);
}

/// An empty sidebar has no row to resolve, so this must not steal focus or
/// queue a switch to nowhere -- the same "dead space does nothing" rule
/// `clicking_empty_header_space_changes_nothing` pins for the header.
#[test]
fn select_worktree_under_cursor_on_an_empty_sidebar_does_nothing() {
    let mut app = App::new(vec![], "t".into(), Config::default());
    app.focus = Focus::Repos;

    app.select_worktree_under_cursor();

    assert_eq!(app.pending_store, None);
    assert_eq!(
        app.focus,
        Focus::Repos,
        "must not steal focus with nothing to select"
    );
}

/// `Mode::Confirm.id` is overloaded to carry either a task id or, with a
/// `repo:` prefix, a repo path to unregister. A real task id is a short
/// slug that can never itself start with that prefix, so the two can never
/// collide -- this pins the encoding the key handler and this match both
/// rely on.
#[test]
fn a_repo_confirm_id_is_distinguishable_from_a_task_id() {
    let repo_id = format!("repo:{}", "/x/one");
    assert!(repo_id.strip_prefix("repo:").is_some());

    let task_id = "b4d5gfpl";
    assert!(task_id.strip_prefix("repo:").is_none());
}

/// The focus and `zoom` are separate fields; whether the pane has anywhere to be
/// drawn is worked out from both.
#[test]
fn the_3_key_only_sets_focus() {
    let mut app = App::new(vec![], "t".into(), Config::default());
    assert_eq!(app.zoom, None);

    app.focus = Focus::Repos;

    assert_eq!(app.focus, Focus::Repos);
    assert_eq!(
        app.zoom, None,
        "must not reach for zoom"
    );
}
