//! From keys, clicks and messages to what the outside is asked to do.

use std::cell::Cell;
use std::sync::Mutex;

use dextui::app::{App, Divider, Focus, HeaderZone, Mode, Panes, Pending};
use dextui::cli::{parse, Command};
use dextui::config::Config;
use dextui::counts::{counts_for, Counts};
use dextui::dex::{Dex, Output, Runner, Status, Task};
use dextui::effects::{completed, flatten, list_line, written, Effect, Msg, Verb};
use dextui::events::{MouseButton, MouseEvent, MouseEventKind};
use dextui::keys::{action_for, confirms, typed_char, Action, KeyCode, KeyEvent, KeyModifiers};
use dextui::registry::Registry;
use dextui::repos::{Repo, Row};
use dextui::saving::{
    current_repo, opening_rows, opening_status, repo_name, repo_root, saved_row, typed_path,
    worktree_for_store, Here, Place,
};
use dextui::theme::{status_color, Color};
use dextui::tree::{Filter, IdSet, Sort};
use dextui::worktree::{parse_list, Worktree};

fn task(id: &str, parent: Option<&str>) -> Task {
    Task {
        id: id.to_string(),
        name: format!("name of {id}"),
        parent_id: parent.map(str::to_string),
        ..Default::default()
    }
}

fn app() -> App {
    App::new(
        vec![task("a", None), task("b", Some("a")), task("c", Some("a"))],
        "/x/one/.dex".into(),
        Config::default(),
    )
}

fn plain(code: KeyCode) -> KeyEvent {
    KeyEvent::new(code, KeyModifiers::none())
}

fn press(app: &mut App, c: char) -> Vec<Effect> {
    app.handle_key(plain(KeyCode::Char(c)))
}

fn type_in(app: &mut App, text: &str) {
    for c in text.chars() {
        assert!(press(app, c).is_empty());
    }
}

fn enter(app: &mut App) -> Vec<Effect> {
    app.handle_key(plain(KeyCode::Enter))
}

fn at(kind: MouseEventKind, column: u16, row: u16) -> MouseEvent {
    MouseEvent { kind, column, row }
}

fn worktree(path: &str, is_main: bool) -> Worktree {
    Worktree {
        path: path.to_string(),
        branch: "main".into(),
        is_main,
        is_locked: false,
        is_detached: false,
    }
}

fn repo(name: &str) -> Repo {
    Repo {
        name: name.to_string(),
        path: format!("/x/{name}"),
        worktrees: vec![
            worktree(&format!("/x/{name}"), true),
            worktree(&format!("/x/{name}-feat"), false),
        ],
        open: true,
        registered: true,
        is_global: false,
    }
}

#[test]
fn a_key_that_is_not_bound_changes_nothing() {
    let mut app = app();
    app.status = "kept".into();
    assert!(press(&mut app, '~').is_empty());
    assert_eq!(app.status, "kept");
    assert!(action_for(&plain(KeyCode::F(5))).is_none());
}

#[test]
fn a_bound_key_clears_the_status() {
    let mut app = app();
    app.status = "stale".into();
    assert!(press(&mut app, 'j').is_empty());
    assert_eq!(app.status, "");
    assert_eq!(app.selected.as_deref(), Some("b"));
}

#[test]
fn the_refresh_key_names_the_store_on_screen() {
    let mut app = app();
    let fx = app.handle_key(KeyEvent::new(KeyCode::Char('r'), KeyModifiers::ctrl()));
    assert!(matches!(&fx[..], [Effect::Refresh { store }] if store == "/x/one/.dex"));
}

#[test]
fn starting_a_task_asks_dex_and_says_so() {
    let mut app = app();
    let fx = press(&mut app, 's');
    assert_eq!(fx.len(), 1);
    assert!(matches!(
        &fx[0],
        Effect::Write { verb: Verb::Start { id }, success }
            if id == "a" && success == "started name of a"
    ));
}

#[test]
fn starting_with_nothing_selected_asks_nothing() {
    let mut app = App::new(vec![], "/x/one/.dex".into(), Config::default());
    assert!(press(&mut app, 's').is_empty());
    assert!(press(&mut app, 'd').is_empty());
    assert!(matches!(app.mode, Mode::Normal));
}

#[test]
fn deleting_counts_the_direct_subtasks_and_asks_first() {
    let mut app = app();
    assert!(press(&mut app, 'd').is_empty());
    match &app.mode {
        Mode::Confirm { id, message } => {
            assert_eq!(id, "a");
            assert_eq!(message, "\"name of a\" and its 2 subtask(s) will be deleted.");
        }
        other => panic!("{other:?}"),
    }
    let fx = press(&mut app, 'y');
    assert!(matches!(app.mode, Mode::Normal));
    assert!(matches!(
        &fx[0],
        Effect::Write { verb: Verb::Delete { id }, success }
            if id == "a" && success == "deleted name of a"
    ));

    app.selected = Some("c".into());
    press(&mut app, 'd');
    assert!(matches!(
        &app.mode,
        Mode::Confirm { message, .. } if message == "\"name of c\" will be deleted."
    ));
    assert!(press(&mut app, 'n').is_empty(), "anything but a yes is a no");
    assert!(matches!(app.mode, Mode::Normal));
}

#[test]
fn a_chorded_yes_does_not_confirm() {
    assert!(confirms(&plain(KeyCode::Char('y'))));
    assert!(confirms(&plain(KeyCode::Enter)));
    assert!(!confirms(&KeyEvent::new(KeyCode::Char('y'), KeyModifiers::ctrl())));
    assert_eq!(typed_char(&plain(KeyCode::Char('é'))), Some('é'));
    assert_eq!(typed_char(&plain(KeyCode::Tab)), None);
}

/// Two prompts, one after the other, and then one call.
#[test]
fn creating_a_subtask_takes_a_name_and_a_description() {
    let mut app = app();
    press(&mut app, 'a');
    match &app.mode {
        Mode::Prompt(p) => {
            assert_eq!(p.title, "New subtask of: name of a");
            assert!(matches!(&p.pending, Pending::CreateName { parent: Some(x) } if x == "a"));
        }
        other => panic!("{other:?}"),
    }
    type_in(&mut app, "kid");
    assert!(enter(&mut app).is_empty());
    assert!(matches!(
        &app.mode,
        Mode::Prompt(p) if p.label == "Description (may be left empty)" && p.input.value.is_empty()
    ));
    type_in(&mut app, "why");
    let fx = enter(&mut app);
    assert!(matches!(app.mode, Mode::Normal));
    assert_eq!(fx.len(), 1);
    assert!(matches!(
        &fx[0],
        Effect::Write { verb: Verb::Create { name, description, parent: Some(x) }, success }
            if name == "kid" && description == "why" && x == "a" && success == "created kid"
    ));
}

#[test]
fn a_blank_name_creates_nothing() {
    let mut app = app();
    press(&mut app, 'n');
    type_in(&mut app, "  ");
    assert!(enter(&mut app).is_empty());
    assert!(matches!(app.mode, Mode::Normal));
}

#[test]
fn renaming_starts_from_the_name() {
    let mut app = app();
    press(&mut app, 'r');
    type_in(&mut app, "!");
    let fx = enter(&mut app);
    assert!(matches!(
        &fx[0],
        Effect::Write { verb: Verb::Edit { id, name: Some(n), description: None }, success }
            if id == "a" && n == "name of a!" && success == "renamed to name of a!"
    ));
}

#[test]
fn typing_then_rubbing_out_leaves_the_field_as_it_was() {
    let mut app = app();
    press(&mut app, 'r');
    type_in(&mut app, "x");
    app.handle_key(plain(KeyCode::Backspace));
    assert!(matches!(
        &app.mode,
        Mode::Prompt(p) if p.input.value == "name of a" && p.input.cursor == 9
    ));
}

#[test]
fn completing_says_so_at_once_and_tries() {
    let mut app = app();
    press(&mut app, 'c');
    type_in(&mut app, "done it");
    let fx = enter(&mut app);
    assert!(matches!(
        &fx[0],
        Effect::TryComplete { id, result } if id == "a" && result == "done it"
    ));
    assert_eq!(app.status, "completing…");
}

/// dex's refusal is told apart from other failures, so the retry can be offered.
#[test]
fn a_refused_completion_offers_to_force_it() {
    let refused = completed("a".into(), "r".into(), Err("Has 2 incomplete SUBTASKS\n".into()));
    let mut app = app();
    assert!(app.handle_msg(refused).is_empty());
    assert!(matches!(
        &app.mode,
        Mode::ForceComplete { id, result, message }
            if id == "a" && result == "r" && message == "Has 2 incomplete SUBTASKS"
    ));
    let fx = press(&mut app, 'y');
    assert!(matches!(
        &fx[0],
        Effect::Write { verb: Verb::Complete { id, result, force: true }, success }
            if id == "a" && result == "r" && success == "completed"
    ));

    let failed = completed("a".into(), "r".into(), Err("no such\ntask".into()));
    assert!(app.handle_msg(failed).is_empty());
    assert!(matches!(&app.mode, Mode::Error(e) if e == "no such task"));
    assert!(matches!(
        completed("a".into(), "r".into(), Ok(())),
        Msg::Done(m) if m == "completed"
    ));
}

#[test]
fn a_change_that_went_through_asks_for_a_refresh() {
    let mut app = app();
    let fx = app.handle_msg(written(Ok(()), "started a".into()));
    assert_eq!(app.status, "started a");
    assert!(matches!(&fx[0], Effect::Refresh { store } if store == "/x/one/.dex"));
    assert!(matches!(written(Err("e".into()), "s".into()), Msg::Failed(e) if e == "e"));
}

#[test]
fn a_failed_refresh_keeps_the_last_good_model() {
    let mut app = app();
    app.handle_msg(Msg::Tasks {
        store: "/x/one/.dex".into(),
        result: Err("no\r\nstore ".into()),
    });
    assert_eq!(app.status, "refresh failed: no  store");
    assert_eq!(app.tasks.len(), 3);
}

/// A dialog is never disturbed: the tasks go to the cache, and the refresh is
/// asked for once when the dialog closes.
#[test]
fn a_store_read_behind_a_dialog_waits_for_it() {
    let mut app = app();
    press(&mut app, 'r');
    app.handle_msg(Msg::StoreLoaded {
        dir: "/x/one/.dex".into(),
        result: Ok(vec![task("z", None)]),
    });
    assert_eq!(app.tasks.len(), 3);
    assert!(app.pending_refresh);
    let fx = app.handle_key(plain(KeyCode::Esc));
    assert!(matches!(&fx[..], [Effect::Refresh { .. }]));
    assert!(!app.pending_refresh);
    press(&mut app, 'r');
    assert!(app.handle_key(plain(KeyCode::Esc)).is_empty());
}

#[test]
fn a_store_nobody_looks_at_only_fills_the_cache() {
    let mut app = app();
    let msg = Msg::StoreLoaded { dir: "/x/two/.dex".into(), result: Ok(vec![task("z", None)]) };
    assert!(!app.is_visible_msg(&msg));
    assert!(app.handle_msg(msg).is_empty());
    assert_eq!(app.tasks.len(), 3);
    assert_eq!(app.store_tasks.get("/x/two/.dex").unwrap().len(), 1);

    let bad = Msg::StoreLoaded { dir: "/x/two/.dex".into(), result: Err("gone".into()) };
    app.handle_msg(bad);
    assert_eq!(app.store_tasks.get("/x/two/.dex").unwrap().len(), 1, "left as it was");

    let mine = Msg::StoreLoaded { dir: "/x/one/.dex".into(), result: Ok(vec![task("q", None)]) };
    assert!(app.is_visible_msg(&mine));
    app.handle_msg(mine);
    assert_eq!(app.tasks[0].id, "q");
}

/// A switch shows the cached list, or an empty tree while the store is read --
/// never one store's tasks under another's name.
#[test]
fn a_switch_never_mixes_stores() {
    let mut app = app();
    app.repos = vec![repo("one"), repo("two")];
    app.cache_store("/x/two/.dex".into(), vec![task("t", None)]);

    let fx = app.switch_store("/x/two");
    assert!(matches!(&fx[..], [Effect::UseStore { dir }] if dir == "/x/two/.dex"));
    assert_eq!(app.tasks[0].id, "t");
    assert_eq!(app.store_label, "two");

    let fx = app.switch_store("/x/two-feat");
    assert!(matches!(
        &fx[..],
        [Effect::UseStore { dir }, Effect::ReadStore { dir: read }]
            if dir == "/x/two-feat/.dex" && read == dir
    ));
    assert!(app.tasks.is_empty());

    assert!(app.switch_store("/x/two-feat").is_empty(), "already there");
}

#[test]
fn only_unwatched_stores_are_asked_for() {
    let mut app = app();
    app.repos = vec![repo("one"), repo("two")];
    app.cache_store("/x/two/.dex".into(), vec![]);
    let mut watched = IdSet::new();
    watched.insert("/x/one/.dex".to_string());
    let new = app.new_stores(&watched);
    assert_eq!(
        new,
        vec![
            ("/x/one-feat/.dex".to_string(), true),
            ("/x/two/.dex".to_string(), false),
            ("/x/two-feat/.dex".to_string(), true),
        ]
    );
}

#[test]
fn the_sidebar_keys_change_what_they_mean() {
    let mut app = app();
    app.repos = vec![repo("one"), repo("two")];
    app.focus = Focus::Repos;
    assert!(matches!(&press(&mut app, 'a')[..], [Effect::SaveHere]));

    app.select_last_repo_row();
    press(&mut app, 'D');
    assert!(matches!(
        &app.mode,
        Mode::Confirm { id, message }
            if id == "repo:/x/two"
                && message == "\"two\" will be unregistered. Its worktrees are not touched."
    ));
    let fx = enter(&mut app);
    assert!(matches!(&fx[..], [Effect::Forget { path }] if path == "/x/two"));

    press(&mut app, 'A');
    type_in(&mut app, "~/r");
    let fx = enter(&mut app);
    assert!(matches!(&fx[..], [Effect::SaveAt { typed }] if typed == "~/r"));
}

#[test]
fn moving_the_sidebar_cursor_queues_the_store() {
    let mut app = app();
    app.repos = vec![repo("one"), repo("two")];
    app.focus = Focus::Repos;
    press(&mut app, 'G');
    assert_eq!(app.pending_store.as_deref(), Some("/x/two-feat"));
    press(&mut app, 'k');
    assert_eq!(app.pending_store.as_deref(), Some("/x/two"));
    assert_eq!(app.focus, Focus::Repos);
}

#[test]
fn editing_a_description_goes_through_the_editor() {
    let mut app = app();
    press(&mut app, 'e');
    assert_eq!(app.pending_editor.as_deref(), Some("a"));
    assert_eq!(app.description_of("a"), "");
    let fx = app.editor_finished("a", Ok(Some("text".into())));
    assert!(matches!(
        &fx[..],
        [Effect::Write { verb: Verb::Edit { id, name: None, description: Some(d) }, success }]
            if id == "a" && d == "text" && success == "description updated"
    ));
    assert!(app.editor_finished("a", Ok(None)).is_empty());
    assert_eq!(app.status, "description unchanged");
    assert!(app.editor_finished("a", Err("no\neditor".into())).is_empty());
    assert!(matches!(&app.mode, Mode::Error(e) if e == "no editor"));
}

#[test]
fn a_reloaded_config_says_what_was_wrong_with_it() {
    let mut app = app();
    app.config_reloaded(Config { sort: Sort::Name, ..Config::default() }, Some("bad".into()));
    assert_eq!(app.status, "config reloaded, but: bad");
    app.config_reloaded(Config::default(), None);
    assert_eq!(app.status, "config reloaded");
    app.config_unchanged();
    assert_eq!(app.status, "config unchanged");
    app.report_verbatim("a\nb".into());
    assert!(matches!(&app.mode, Mode::Error(e) if e == "a\nb"));
}

#[test]
fn searching_narrows_as_it_is_typed() {
    let mut app = app();
    press(&mut app, '/');
    type_in(&mut app, "of c");
    assert_eq!(app.row_ids(), ["a", "c"]);
    app.handle_key(plain(KeyCode::Backspace));
    assert_eq!(app.row_ids(), ["a", "b", "c"]);
    assert!(enter(&mut app).is_empty());
    assert!(matches!(app.mode, Mode::Normal));
    assert_eq!(app.query.value, "of ");
}

#[test]
fn clicks_land_on_what_is_drawn() {
    let mut app = app();
    app.terminal_width = 100;
    app.body_top = 1;
    app.body_bottom = 20;
    app.divider_x = 50;
    app.header_zones = vec![(0, 5, HeaderZone::Filter(Filter::InProgress))];

    app.handle_mouse(at(MouseEventKind::Down(MouseButton::Left), 2, 3));
    assert_eq!(app.selected.as_deref(), Some("b"));
    app.handle_mouse(at(MouseEventKind::Down(MouseButton::Left), 70, 3));
    assert_eq!(app.focus, Focus::Detail);
    app.handle_mouse(at(MouseEventKind::Down(MouseButton::Left), 50, 3));
    assert_eq!(app.dragging, Some(Divider::Split));
    app.handle_mouse(at(MouseEventKind::Drag(MouseButton::Left), 30, 3));
    assert_eq!(app.split_percent, 30);
    app.handle_mouse(at(MouseEventKind::Up(MouseButton::Left), 30, 3));
    assert_eq!(app.dragging, None);
    app.handle_mouse(at(MouseEventKind::Down(MouseButton::Left), 3, 0));
    assert_eq!(app.filter, Filter::InProgress);
}

#[test]
fn an_open_help_swallows_clicks() {
    let mut app = app();
    app.body_top = 1;
    app.body_bottom = 20;
    app.divider_x = 50;
    app.open_help();
    app.handle_mouse(at(MouseEventKind::Down(MouseButton::Left), 2, 3));
    assert_eq!(app.selected.as_deref(), Some("a"));
    app.help_content_height = 40;
    app.help_viewport_height = 10;
    app.handle_mouse(at(MouseEventKind::ScrollDown, 2, 3));
    assert_eq!(app.help_scroll, 1);
}

#[test]
fn texts_are_put_on_one_line() {
    assert_eq!(flatten(" a\r\nb\n"), "a  b");
    assert_eq!(
        list_line("/x/.dex", &Ok(vec![task("a", None)]), 173),
        "list /x/.dex - 1 tasks 173ms"
    );
    assert_eq!(
        list_line("/x/.dex", &Err("no\ngo".into()), 9),
        "list /x/.dex failed after 9ms: no go"
    );
}

struct Recorder {
    seen: Mutex<Vec<Vec<String>>>,
}

impl Runner for Recorder {
    fn run(&self, args: &[String]) -> Result<Output, String> {
        self.seen.lock().unwrap().push(args.to_vec());
        Ok(Output { code: 0, stdout: String::new(), stderr: String::new() })
    }
}

#[test]
fn every_change_is_made_in_the_store() {
    let runner = Box::new(Recorder { seen: Mutex::new(vec![]) });
    let dex = Dex::for_store_with("/x/one/.dex", runner).unwrap();
    for verb in [
        Verb::Start { id: "a".into() },
        Verb::Complete { id: "a".into(), result: "r".into(), force: true },
        Verb::Create { name: "n".into(), description: "d".into(), parent: Some("a".into()) },
        Verb::Edit { id: "a".into(), name: Some("n".into()), description: None },
        Verb::Delete { id: "a".into() },
    ] {
        assert_eq!(dex.perform(&verb), Ok(()));
    }
    let seen = dex.runner.seen.lock().unwrap();
    assert_eq!(seen.len(), 5);
    for call in seen.iter() {
        assert!(call.windows(2).any(|w| w[0] == "--storage-path" && w[1] == "/x/one/.dex"));
    }
    assert!(seen[0].contains(&"start".to_string()));
    assert!(seen[1].contains(&"--force".to_string()));
}

#[test]
fn worktrees_are_read_from_the_porcelain_listing() {
    let text = "worktree /x/one\nHEAD abc\nbranch refs/heads/main\n\n\
                worktree /x/one-feat\nHEAD def\nbranch refs/heads/team/feat\nlocked why\n\n\
                worktree /x/loose\nHEAD fff\ndetached\n\n";
    let ws = parse_list(text);
    assert_eq!(ws.len(), 3);
    assert_eq!(ws[0].path, "/x/one");
    assert_eq!(ws[0].branch, "main");
    assert!(ws[0].is_main && !ws[0].is_locked && !ws[0].is_detached);
    assert_eq!(ws[1].branch, "team/feat");
    assert!(!ws[1].is_main && ws[1].is_locked);
    assert!(ws[2].is_detached);
    assert!(parse_list("").is_empty());
}

#[test]
fn opening_rows_are_sorted_and_hold_the_launch_repo_once() {
    let saved = vec![repo("two"), repo("one")];
    let rows = opening_rows(saved, Some(Repo { registered: false, ..repo("one") }));
    let paths: Vec<&str> = rows.iter().map(|r| r.path.as_str()).collect();
    assert_eq!(paths, ["/x/one", "/x/two"]);
    assert!(rows[0].registered, "the saved row stands");
    assert_eq!(
        worktree_for_store(&rows, "/x/one-feat/.dex").as_deref(),
        Some("/x/one-feat")
    );
    assert_eq!(worktree_for_store(&rows, "/x/none/.dex"), None);

    let rows = opening_rows(vec![repo("two")], Some(repo("one")));
    assert_eq!(rows.len(), 2);
    assert_eq!(rows[0].path, "/x/one");
}

#[test]
fn problems_at_startup_are_joined() {
    assert_eq!(opening_status(None, None, &vec![]), "");
    assert_eq!(
        opening_status(Some("c".into()), Some("r".into()), &vec!["p".into(), "q".into()]),
        "config: c; repos: r; p; q"
    );
}

#[test]
fn a_saved_repo_that_cannot_be_read_is_explained() {
    assert_eq!(saved_row("/x/gone", None).unwrap_err(), "/x/gone no longer exists");
    assert_eq!(
        saved_row("/x/bad", Some(Err("fatal:\nno".into()))).unwrap_err(),
        "/x/bad: fatal: no"
    );
    let row = saved_row("/x/one", Some(Ok(vec![worktree("/x/one", true)]))).unwrap();
    assert_eq!((row.name.as_str(), row.registered, row.open), ("one", true, true));
}

#[test]
fn names_and_roots_come_from_paths() {
    assert_eq!(repo_name("/x/one"), "one");
    assert_eq!(repo_name("/x/one/"), "one");
    assert_eq!(repo_name("/"), "/");
    assert_eq!(repo_name(".."), "..");
    assert_eq!(repo_root("/x/one/.dex").as_deref(), Some("/x/one"));
    assert_eq!(repo_root("/home/u/.config/dex/local"), None);
    let mut problems = vec![];
    let row =
        current_repo("/x/one-feat/.dex", Ok(vec![worktree("/x/one", true)]), &mut problems)
            .unwrap();
    assert_eq!(row.path, "/x/one", "the main checkout names the repo");
    let row = current_repo("/x/bare/.dex", Ok(vec![]), &mut problems).unwrap();
    assert_eq!(row.path, "/x/bare");
    assert!(problems.is_empty());
}

#[test]
fn a_typed_path_is_trimmed_and_expanded() {
    assert_eq!(typed_path("  ", Some("/home/u")), Ok(None));
    assert_eq!(typed_path(" /x/one ", None), Ok(Some("/x/one".to_string())));
    assert_eq!(typed_path("~/r", Some("/home/u")), Ok(Some("/home/u/r".to_string())));
    assert_eq!(typed_path("~", Some("/home/u")), Ok(Some("/home/u".to_string())));
}

#[test]
fn a_failed_save_changes_no_row() {
    let mut app = app();
    app.repos = vec![repo("one")];
    let said = app.register_repo(
        vec![worktree("/x/two", true)],
        Ok(Registry::default()),
        |_: &Registry| Err("disk\nfull".to_string()),
    );
    assert_eq!(said, "could not save: disk full");
    assert_eq!(app.repos.len(), 1);
    assert!(!app.repos_changed);
    let said = app.register_repo(vec![], Ok(Registry::default()), |_: &Registry| Ok(()));
    assert_eq!(said, "no worktrees found");
}

#[test]
fn saving_at_a_path_writes_the_main_checkout() {
    let mut app = app();
    let calls = Cell::new(0);
    let said = app.save_repo_at(
        "/x/two-feat",
        Place::Repo(vec![worktree("/x/two", true), worktree("/x/two-feat", false)]),
        Ok(Registry::default()),
        |r: &Registry| {
            calls.set(calls.get() + 1);
            assert_eq!(r.repos, ["/x/two"]);
            Ok(())
        },
    );
    assert_eq!(said, "saved /x/two");
    assert_eq!(calls.get(), 1);
    assert!(app.repos_changed);
    assert_eq!(app.repo_rows().len(), 4);
}

#[test]
fn forgetting_reports_each_outcome() {
    let mut app = app();
    app.repos = vec![repo("one")];
    app.registry.add("/x/one");
    let stored = app.registry.clone();
    app.forget_repo("/x/one", Ok(stored.clone()), |_: &Registry| Err("no\nway".to_string()));
    assert_eq!(app.status, "could not forget /x/one: no way");
    app.forget_repo("/x/one", Ok(stored), |_: &Registry| Ok(()));
    assert_eq!(app.status, "forgot /x/one");
    app.forget_repo("/x/one", Ok(Registry::default()), |_: &Registry| Ok(()));
    assert_eq!(app.status, "/x/one was not saved");
}

#[test]
fn the_sidebar_cursor_rests_on_rows_only() {
    let mut app = app();
    app.repos = vec![repo("one"), repo("two")];
    let rows = app.repo_rows();
    assert_eq!(rows[0], Row::Heading("saved"));
    app.select_first_repo_row();
    for step in [1, 1, 1, 10, -1, -10, -1] {
        app.move_repo_row(step);
        assert!(rows[app.selected_repo_row].selectable());
    }
}

#[test]
fn the_sidebars_stores_are_listed_once() {
    let mut app = app();
    app.repos = vec![repo("one"), repo("one"), repo("two")];
    assert_eq!(
        app.sidebar_stores(),
        ["/x/one/.dex", "/x/one-feat/.dex", "/x/two/.dex", "/x/two-feat/.dex"]
    );
}

#[test]
fn narrowing_only_ever_sheds_panes() {
    let rank = |p: Panes| match p {
        Panes::One => 1,
        Panes::Two => 2,
        Panes::Three => 3,
    };
    let mut app = app();
    app.repos = vec![repo("one"), repo("two")];
    app.repos_visible = true;
    let mut last = 0;
    for width in [20, 60, 79, 80, 100, 110, 111, 160, 300] {
        app.terminal_width = width;
        let now = rank(app.panes());
        assert!(last <= now, "{width}");
        last = now;
    }
}

#[test]
fn wrapping_twice_is_no_change() {
    let mut app = app();
    let before = app.wrap;
    press(&mut app, 'w');
    assert_ne!(app.wrap, before);
    press(&mut app, 'w');
    assert_eq!(app.wrap, before);
}

#[test]
fn the_focus_cycle_closes() {
    let mut app = app();
    app.repos_visible = true;
    for start in [Focus::Repos, Focus::Tree, Focus::Detail] {
        app.focus = start;
        app.cycle_focus(true);
        assert_ne!(app.focus, start);
        app.cycle_focus(false);
        assert_eq!(app.focus, start);
    }
}

#[test]
fn states_have_colours_of_their_own() {
    assert_eq!(status_color(Status::Pending), Color::Yellow);
    let all = [Status::Pending, Status::InProgress, Status::Completed, Status::Blocked];
    for (i, a) in all.iter().enumerate() {
        for b in &all[..i] {
            assert_ne!(status_color(*a), status_color(*b));
        }
    }
}

#[test]
fn counts_partition_the_tasks() {
    let mut done = task("d", None);
    done.completed = true;
    let mut held = task("h", None);
    held.blocked_by = vec!["a".into()];
    let mut epic = task("a", None);
    epic.children = vec!["b".into()];
    let tasks = vec![epic, task("b", Some("a")), held, done];
    assert_eq!(
        counts_for(&tasks),
        Counts {
            total: 4,
            completed: 1,
            pending: 3,
            active: 0,
            blocked: 1,
            ready: 1,
            percent: 25,
        }
    );
}

#[test]
fn help_beats_what_follows_it() {
    let args = |a: &[&str]| a.iter().map(|s| s.to_string()).collect::<Vec<_>>();
    assert!(matches!(parse(&args(&["config", "--help", "--nope"])), Ok(Command::Help)));
    assert_eq!(parse(&args(&["--no\"pe"])).unwrap_err(), "unknown option \"--no\\\"pe\"");
    assert_eq!(
        parse(&args(&["config", "x"])).unwrap_err(),
        "unknown config command \"x\"; expected `init` or `edit`"
    );
    assert_eq!(parse(&args(&["a", "b"])).unwrap_err(), "unknown command \"a\"");
}

#[test]
fn quitting_is_recorded() {
    let mut app = app();
    assert_eq!(action_for(&plain(KeyCode::Char('q'))), Some(Action::Quit));
    press(&mut app, 'q');
    assert!(app.should_quit);
}

#[test]
fn saving_where_we_are_explains_what_stands_in_the_way() {
    let mut app = app();
    let keep = |_: &Registry| Ok(());
    let stored = || Ok(Registry::default());
    assert_eq!(
        app.register_current_repo(Here::Nowhere("gone".into()), stored(), keep),
        "could not resolve the current directory: gone"
    );
    assert_eq!(
        app.register_current_repo(Here::Unlisted("fatal:\nno".into()), stored(), keep),
        "could not list worktrees: fatal: no"
    );
    let here = Here::Repo(vec![worktree("/x/two", true)]);
    assert_eq!(app.register_current_repo(here, stored(), keep), "saved /x/two");
    assert_eq!(app.repos[0].name, "two");
}

#[test]
fn a_store_that_was_not_read_has_no_counts() {
    let mut app = app();
    assert_eq!(app.counts_for_store("/x/two/.dex"), None);
    app.cache_store("/x/two/.dex".into(), vec![task("t", None)]);
    assert_eq!(app.counts_for_store("/x/two/.dex").unwrap().ready, 1);
}

/// The wheel slides whatever is under the pointer and changes neither the task
/// nor the store being read.
#[test]
fn the_wheel_only_moves_the_view() {
    let mut app = app();
    app.repos = vec![repo("one"), repo("two")];
    app.terminal_width = 200;
    app.body_top = 1;
    app.body_bottom = 20;
    app.repos_right = 26;
    app.divider_x = 90;
    for column in [3, 40, 120] {
        app.handle_mouse(at(MouseEventKind::ScrollDown, column, 5));
        app.handle_mouse(at(MouseEventKind::ScrollRight, column, 5));
        assert_eq!(app.selected.as_deref(), Some("a"));
        assert_eq!(app.pending_store, None);
        assert_eq!(app.store_dir, "/x/one/.dex");
        assert_eq!(app.focus, Focus::Tree);
    }
    assert_eq!(app.tree_offset, 1);
    assert_eq!(app.repos_offset, 1);
}

/// Only a yes to the dialog that names it takes anything away.
#[test]
fn nothing_is_taken_away_unasked() {
    let keys = ['d', 'D', 'x', 'n', 'q', ' '];
    for c in keys {
        let mut app = app();
        press(&mut app, 'd');
        assert!(matches!(app.mode, Mode::Confirm { .. }));
        assert!(press(&mut app, c).is_empty(), "{c}");
        assert_eq!(app.tasks.len(), 3);
    }
}

#[test]
fn settings_are_never_written_back() {
    let mut app = app();
    for c in ['w', 'o', 'O', 'f', 'F'] {
        assert!(press(&mut app, c).is_empty(), "{c}");
        assert!(!app.pending_config_edit);
        assert_eq!(app.tasks.len(), 3);
        assert!(app.registry.repos.is_empty());
    }
}

/// Closing a task by its marker leaves the cursor on it, and it on screen.
#[test]
fn a_click_that_closes_a_task_keeps_the_cursor_on_it() {
    let mut app = app();
    app.body_top = 1;
    app.body_bottom = 20;
    app.selected = Some("c".into());
    let rows = app.row_ids();
    assert_eq!(rows, ["a", "b", "c"]);
    app.click_tree(4, 2);
    assert_eq!(app.selected.as_deref(), Some("a"));
    assert_eq!(app.row_ids(), ["a"]);
    app.click_tree(4, 2);
    assert_eq!(app.row_ids(), ["a", "b", "c"]);
}

#[test]
fn a_still_store_settles_once() {
    let mut app = app();
    app.spin_frame = 3;
    assert!(app.pulse_tick(900, 10), "one repaint to settle");
    assert_eq!(app.spin_frame, 0);
    assert!(!app.pulse_tick(1700, 10));
    assert!(!app.pulse_tick(2500, 10));
}
