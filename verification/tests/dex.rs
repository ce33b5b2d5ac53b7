//! The dex CLI seam: argv, messages, statuses, labels and times.

use std::sync::{Arc, Mutex};

use dextui::dex::{
    age, humanize_secs, humanize_span, index, is_blocked, is_global_store, local_time, lookup,
    requires_dex, shown_stamp, span_between, status, store_label, why_not_found, CommitMeta, Dex,
    Metadata, Output, Runner, Status, Task, TaskMap, HOME,
};
/// Records the argv it was handed and replays canned output.
#[derive(Clone)]
struct Fake {
    calls: Arc<Mutex<Vec<Vec<String>>>>,
    out: Output,
}

impl Fake {
    fn new(stdout: &str, stderr: &str, code: i32) -> Self {
        Self {
            calls: Arc::new(Mutex::new(Vec::new())),
            out: Output {
                code,
                stdout: stdout.to_string(),
                stderr: stderr.to_string(),
            },
        }
    }

    fn last(&self) -> Vec<String> {
        self.calls.lock().unwrap().last().cloned().unwrap_or_default()
    }
}

impl Runner for Fake {
    fn run(&self, args: &[String]) -> Result<Output, String> {
        self.calls.lock().unwrap().push(args.to_vec());
        Ok(self.out.clone())
    }
}

/// Turns a listing into tasks the way the app does: unknown keys are ignored,
/// and most keys may be left out.
fn decode(json: &str) -> Result<Vec<Task>, String> {
    let root: serde_json::Value = serde_json::from_str(json).map_err(|e| e.to_string())?;
    let items = root.as_array().ok_or("expected a list")?;
    let text = |v: &serde_json::Value, key: &str| {
        v.get(key).and_then(|x| x.as_str()).map(str::to_string)
    };
    let list = |v: &serde_json::Value, key: &str| -> Vec<String> {
        v.get(key)
            .and_then(|x| x.as_array())
            .map(|a| a.iter().filter_map(|x| x.as_str()).map(str::to_string).collect())
            .unwrap_or_default()
    };
    items
        .iter()
        .map(|v| {
            let metadata = v.get("metadata").filter(|m| !m.is_null()).map(|m| Metadata {
                commit: m.get("commit").map(|c| CommitMeta {
                    sha: text(c, "sha").unwrap_or_default(),
                    message: text(c, "message"),
                    branch: text(c, "branch"),
                }),
            });
            Ok(Task {
                id: text(v, "id").ok_or("missing id")?,
                parent_id: text(v, "parent_id"),
                name: text(v, "name").ok_or("missing name")?,
                description: text(v, "description"),
                priority: v.get("priority").and_then(|x| x.as_i64()).unwrap_or(1),
                completed: v.get("completed").and_then(|x| x.as_bool()).unwrap_or(false),
                result: text(v, "result"),
                metadata,
                created_at: text(v, "created_at"),
                updated_at: text(v, "updated_at"),
                started_at: text(v, "started_at"),
                completed_at: text(v, "completed_at"),
                blocked_by: list(v, "blockedBy"),
                blocks: list(v, "blocks"),
                children: list(v, "children"),
            })
        })
        .collect()
}

fn dex_with(fake: &Fake) -> Dex<Fake> {
    Dex::new(Box::new(fake.clone()))
}

/// Captured verbatim from a real `dex list --json --all`.
const REAL_JSON: &str = r#"[
  {
    "id": "s7rngopd",
    "parent_id": "b4d5gfpl",
    "name": "Handle \"quoted\" names & $pecial chars",
    "description": "Line one\nLine two with a  double space",
    "priority": 1,
    "completed": false,
    "result": null,
    "metadata": null,
    "created_at": "2026-07-27T01:47:19.253Z",
    "started_at": null,
    "completed_at": null,
    "blockedBy": [],
    "blocks": [],
    "children": []
  },
  {
    "id": "uqolu0wq",
    "parent_id": "b4d5gfpl",
    "name": "Pick a toolkit",
    "description": "Evaluate options",
    "priority": 2,
    "completed": true,
    "result": "Chose ratatui",
    "metadata": null,
    "created_at": "2026-07-27T01:47:19.093Z",
    "started_at": "2026-07-27T01:47:26.225Z",
    "completed_at": "2026-07-27T01:47:26.371Z",
    "blockedBy": ["s7rngopd"],
    "blocks": [],
    "children": []
  }
]"#;

#[test]
fn parses_the_mixed_case_wire_format() {
    let fake = Fake::new(REAL_JSON, "", 0);
    let tasks = dex_with(&fake).list(decode).unwrap();

    assert_eq!(tasks.len(), 2);
    // snake_case key...
    assert_eq!(tasks[0].parent_id.as_deref(), Some("b4d5gfpl"));
    // ...and a camelCase key in the very same payload.
    assert_eq!(tasks[1].blocked_by, vec!["s7rngopd"]);
}

#[test]
fn preserves_quotes_and_newlines_in_task_text() {
    let fake = Fake::new(REAL_JSON, "", 0);
    let tasks = dex_with(&fake).list(decode).unwrap();

    assert_eq!(tasks[0].name, "Handle \"quoted\" names & $pecial chars");
    assert_eq!(
        tasks[0].description.as_deref(),
        Some("Line one\nLine two with a  double space")
    );
}

#[test]
fn status_is_derived_from_completed_and_started_at() {
    let fake = Fake::new(REAL_JSON, "", 0);
    let tasks = dex_with(&fake).list(decode).unwrap();
    let all = set(tasks.clone());

    assert_eq!(status(&tasks[0], &all), Status::Pending);
    assert_eq!(status(&tasks[1], &all), Status::Completed);
}

/// Builds a set keyed by id, the way `App` holds it.
fn set(tasks: Vec<Task>) -> TaskMap {
    index(&tasks)
}

fn t(id: &str) -> Task {
    Task {
        id: id.into(),
        name: id.into(),
        ..Default::default()
    }
}

fn blocked_on(id: &str, blockers: &[&str]) -> Task {
    Task {
        blocked_by: blockers.iter().map(|s| s.to_string()).collect(),
        ..t(id)
    }
}

/// The rule is dex's own `isBlocked` (core/task-relationships.js): resolve
/// `blockedBy`, drop ids that are absent from the set, drop blockers that
/// are completed, and report blocked if any remain.
#[test]
fn an_incomplete_blocker_blocks() {
    let all = set(vec![t("blocker"), blocked_on("victim", &["blocker"])]);
    assert!(is_blocked(all.get("victim").unwrap(), &all));
}

/// The reason `blocked_by.is_empty()` was not good enough: dex never clears
/// `blockedBy` when a blocker finishes, so a task would read as blocked for
/// the rest of its life.
#[test]
fn a_completed_blocker_stops_blocking() {
    let mut blocker = t("blocker");
    blocker.completed = true;
    let all = set(vec![blocker, blocked_on("victim", &["blocker"])]);
    assert!(!is_blocked(all.get("victim").unwrap(), &all));
}

/// A dangling reference is not a blocker. dex filters these out with
/// `t !== undefined` for the same reason.
#[test]
fn a_blocker_missing_from_the_set_does_not_block() {
    let all = set(vec![blocked_on("victim", &["ghost"])]);
    assert!(!is_blocked(all.get("victim").unwrap(), &all));
}

#[test]
fn one_incomplete_blocker_is_enough_among_several() {
    let mut done = t("done");
    done.completed = true;
    let all = set(vec![done, t("open"), blocked_on("victim", &["done", "open"])]);
    assert!(is_blocked(all.get("victim").unwrap(), &all));
}

/// Precedence matches dex's own `status.js`, which tests in-progress first:
/// work is actually happening on the task, which is the more useful signal
/// than the fact that something else is nominally holding it up.
#[test]
fn a_started_task_reads_as_in_progress_even_when_blocked() {
    let mut victim = blocked_on("victim", &["blocker"]);
    victim.started_at = Some("2026-01-01T00:00:00Z".into());
    let all = set(vec![t("blocker"), victim]);
    assert_eq!(status(all.get("victim").unwrap(), &all), Status::InProgress);
}

#[test]
fn completed_wins_over_every_other_signal() {
    let mut victim = blocked_on("victim", &["blocker"]);
    victim.started_at = Some("2026-01-01T00:00:00Z".into());
    victim.completed = true;
    let all = set(vec![t("blocker"), victim]);
    assert_eq!(status(all.get("victim").unwrap(), &all), Status::Completed);
}

#[test]
fn an_unstarted_task_with_a_live_blocker_is_blocked() {
    let all = set(vec![t("blocker"), blocked_on("victim", &["blocker"])]);
    assert_eq!(status(all.get("victim").unwrap(), &all), Status::Blocked);
}

#[test]
fn a_task_with_nothing_holding_it_up_is_pending() {
    let all = set(vec![t("lonely")]);
    assert_eq!(status(all.get("lonely").unwrap(), &all), Status::Pending);
}

/// dex refuses to create blocking cycles, but a hand-edited store could
/// still contain one. The derivation looks only at direct blockers, so a
/// cycle cannot recurse -- this pins that down.
#[test]
fn a_blocking_cycle_terminates() {
    let all = set(vec![
        blocked_on("a", &["b"]),
        blocked_on("b", &["a"]),
    ]);
    assert_eq!(status(all.get("a").unwrap(), &all), Status::Blocked);
    assert_eq!(status(all.get("b").unwrap(), &all), Status::Blocked);
}

#[test]
fn list_always_requests_all_so_filtering_stays_client_side() {
    let fake = Fake::new("[]", "", 0);
    dex_with(&fake).list(decode).unwrap();

    assert_eq!(fake.last(), vec!["list", "--json", "--all"]);
}

#[test]
fn complete_passes_text_as_one_argv_entry() {
    let fake = Fake::new("", "", 0);
    let nasty = "done: \"quoted\" & $HOME\nsecond line";
    dex_with(&fake).complete("abc123", nasty, false).unwrap();

    // The dangerous text must arrive as a single unmangled argument.
    assert!(fake.last().contains(&nasty.to_string()));
    assert_eq!(
        fake.last(),
        vec!["complete", "abc123", "--result", nasty, "--no-commit"]
    );
}

#[test]
fn complete_adds_force_only_when_asked() {
    let fake = Fake::new("", "", 0);
    let dex = dex_with(&fake);

    dex.complete("abc", "done", false).unwrap();
    assert!(!fake.last().contains(&"--force".to_string()));

    dex.complete("abc", "done", true).unwrap();
    assert!(fake.last().contains(&"--force".to_string()));
}

#[test]
fn delete_always_forces_because_dex_would_otherwise_prompt() {
    let fake = Fake::new("", "", 0);
    dex_with(&fake).delete("abc123").unwrap();

    // An interactive prompt would hang a TUI with no way to answer it.
    assert_eq!(fake.last(), vec!["delete", "abc123", "--force"]);
}

#[test]
fn create_omits_optional_flags_when_not_supplied() {
    let fake = Fake::new("", "", 0);
    dex_with(&fake).create("Just a name", "", None).unwrap();

    assert_eq!(fake.last(), vec!["create", "Just a name"]);
}

#[test]
fn create_includes_parent_for_subtasks() {
    let fake = Fake::new("", "", 0);
    dex_with(&fake)
        .create("Child", "details", Some("parent1"))
        .unwrap();

    assert_eq!(
        fake.last(),
        vec!["create", "Child", "--description", "details", "--parent", "parent1"]
    );
}

#[test]
fn edit_sends_only_the_fields_supplied() {
    let fake = Fake::new("", "", 0);
    dex_with(&fake).edit("abc123", Some("New name"), None).unwrap();

    assert_eq!(fake.last(), vec!["edit", "abc123", "--name", "New name"]);
}

#[test]
fn failures_surface_stderr_rather_than_an_exit_code() {
    let fake = Fake::new("", "Task has 2 incomplete subtasks. Use --force.", 1);
    let err = dex_with(&fake).complete("abc", "done", false).unwrap_err();

    assert!(err.contains("incomplete subtasks"));
}

#[test]
fn malformed_json_is_reported_rather_than_panicking() {
    let fake = Fake::new("this is not json", "", 0);
    let err = dex_with(&fake).list(decode).unwrap_err();

    assert!(err.contains("could not parse"));
}

#[test]
fn store_dir_is_trimmed() {
    // Must be honoured rather than assuming ./.dex -- outside a git repo dex
    // uses a global store under ~/.config/dex.
    let fake = Fake::new("/Users/x/.config/dex/local\n", "", 0);
    assert_eq!(dex_with(&fake).store_dir().unwrap(), "/Users/x/.config/dex/local");
}

/// The whole point is that someone who has never heard of dex can act on
/// this, so the two facts that make it actionable are pinned.
#[test]
fn the_missing_dex_message_says_what_to_install_and_where_from() {
    let m = requires_dex("`dex` was not found on your PATH");
    assert!(m.contains(HOME), "no link to install from: {m}");
    assert!(m.contains("dex is required"), "does not say it is required: {m}");
    assert!(m.contains("not found on your PATH"), "loses the cause: {m}");
}

/// A dex that is installed but broken -- a node upgrade moving the runtime
/// out from under it, say -- prints a stack trace dozens of lines long, and
/// its **first** line is the least useful of them. This is the real stderr
/// from exactly that failure.
#[test]
fn a_stack_trace_is_reduced_to_the_line_that_names_the_cause() {
    let trace = "node:internal/modules/cjs/loader:1520\n  throw err;\n  ^\n\n\
                 Error: Cannot find module '/x/fnm/aliases/default/bin/dex'\n\
                 \x20   at Module._resolveFilename (node:internal/modules/cjs/loader:1517:15)\n\
                 \x20   at wrapResolveFilename (node:internal/modules/cjs/loader:1071:27)";
    let m = requires_dex(trace);

    assert!(m.contains("Cannot find module"), "lost the cause: {m}");
    assert!(
        !m.contains("cjs/loader:1520"),
        "led with the least useful line: {m}"
    );
    assert!(!m.contains("at Module._resolveFilename"), "kept the noise: {m}");
    assert!(m.contains(HOME));
}

/// It must not tell someone to check their PATH when the binary is on it.
/// That sends a broken install the wrong way.
#[test]
fn the_message_does_not_guess_at_the_cause() {
    let m = requires_dex("Error: Cannot find module '/x/y/bin/dex'");
    assert!(
        !m.to_lowercase().contains("path"),
        "guessed at PATH when the cause says otherwise: {m}"
    );
}

/// `ErrorKind::NotFound` from an exec cannot tell "no such binary" from
/// "binary present, interpreter missing" -- and dex is a Node script, so the
/// second is real. Resolving the name ourselves is what separates them.
#[test]
fn a_present_but_unstartable_dex_is_not_reported_as_missing() {
    let msg = why_not_found("/opt/none:/opt/here", |p: &str| p == "/opt/here/dex");
    assert!(
        msg.contains("could not be started"),
        "did not recognise a present dex: {msg}"
    );
    assert!(msg.contains("interpreter"), "no actionable cause: {msg}");
    assert!(
        !msg.contains("not found on your PATH"),
        "still claims it is missing: {msg}"
    );
    assert!(msg.contains("/opt/here/dex"), "does not say where: {msg}");
}

/// The genuinely-absent case must still say so plainly.
#[test]
fn an_absent_dex_is_reported_as_missing() {
    let msg = why_not_found("/nonexistent/a:/nonexistent/b", |_: &str| false);
    assert_eq!(msg, "`dex` was not found on your PATH");
}

/// An empty or unset PATH must not panic or claim to have found something.
#[test]
fn an_empty_path_is_not_a_match() {
    assert_eq!(lookup("dex", "", |_: &str| true), None);
    assert_eq!(lookup("dex", ":::", |_: &str| true), None);
}

#[test]
fn store_label_names_the_project_or_global() {
    assert_eq!(store_label("/Users/x/Developer/myproj/.dex"), "myproj");
    assert_eq!(store_label("/Users/x/.config/dex/local"), "global");
    assert!(is_global_store("/Users/x/.config/dex/local"));
    // A directory name is not evidence: this one is a project's own store.
    assert!(!is_global_store("/Users/x/Developer/global/.dex"));
    assert_eq!(store_label("/Users/x/Developer/global/.dex"), "global");
}

#[test]
fn humanize_secs_picks_a_sensible_unit() {
    assert_eq!(humanize_secs(0), "now");
    assert_eq!(humanize_secs(59), "now");
    assert_eq!(humanize_secs(60), "1m");
    assert_eq!(humanize_secs(59 * 60), "59m");
    assert_eq!(humanize_secs(60 * 60), "1h");
    assert_eq!(humanize_secs(23 * 3600), "23h");
    assert_eq!(humanize_secs(24 * 3600), "1d");
    assert_eq!(humanize_secs(6 * 86400), "6d");
    assert_eq!(humanize_secs(7 * 86400), "1w");
    assert_eq!(humanize_secs(30 * 86400), "4w");
}

#[test]
fn humanize_secs_never_renders_a_negative_age() {
    // Clock skew between machines writing the store must not print "-3h".
    assert_eq!(humanize_secs(-500), "now");
}

#[test]
fn age_of_an_unparseable_or_absent_stamp_is_none() {
    assert_eq!(age(&None), None);
    assert_eq!(age(&Some("not a date".into())), None);
}

/// Captured verbatim from a task completed with `dex complete --commit`.
const WITH_COMMIT: &str = r#"[{
    "id": "x62ncnp9",
    "parent_id": null,
    "name": "Task with a linked commit",
    "description": "probe",
    "priority": 1,
    "completed": true,
    "result": "Implemented it.",
    "metadata": {"commit": {
        "sha": "8f7c1015d414e18c5c071d3b1c0d856096e34f6c",
        "message": "Add the file",
        "branch": "main",
        "timestamp": "2026-07-28T14:28:16.044Z"
    }},
    "created_at": "2026-07-28T14:28:14.729Z",
    "updated_at": "2026-07-28T14:28:16.044Z",
    "started_at": "2026-07-28T14:28:14.858Z",
    "completed_at": "2026-07-28T14:28:16.044Z",
    "blockedBy": [],
    "blocks": ["abc123"],
    "children": []
}]"#;

#[test]
fn commit_metadata_is_parsed() {
    let fake = Fake::new(WITH_COMMIT, "", 0);
    let tasks = dex_with(&fake).list(decode).unwrap();
    let c = tasks[0].commit().expect("commit metadata");

    assert_eq!(c.sha, "8f7c1015d414e18c5c071d3b1c0d856096e34f6c");
    assert_eq!(c.short_sha(), "8f7c101");
    assert_eq!(c.message.as_deref(), Some("Add the file"));
    assert_eq!(c.branch.as_deref(), Some("main"));
}

#[test]
fn unknown_metadata_blocks_are_ignored_not_fatal() {
    // github/shortcut/beads appear once sync is configured. We do not model
    // them yet, and their presence must never break parsing.
    let json = r#"[{"id":"a","name":"n","created_at":"2026-01-01T00:00:00Z",
        "metadata":{"github":{"issueNumber":42,"issueUrl":"https://x/1","repo":"o/r"},
                    "commit":{"sha":"deadbeefcafe"}}}]"#;
    let fake = Fake::new(json, "", 0);
    let tasks = dex_with(&fake).list(decode).unwrap();

    assert_eq!(tasks[0].commit().unwrap().short_sha(), "deadbee");
}

#[test]
fn blocks_is_parsed_separately_from_blocked_by() {
    let fake = Fake::new(WITH_COMMIT, "", 0);
    let tasks = dex_with(&fake).list(decode).unwrap();

    assert_eq!(tasks[0].blocks, vec!["abc123"]);
    assert!(tasks[0].blocked_by.is_empty());
}

#[test]
fn worked_duration_is_start_to_completion() {
    let fake = Fake::new(WITH_COMMIT, "", 0);
    let tasks = dex_with(&fake).list(decode).unwrap();
    // 14:28:14.858 -> 14:28:16.044 is just over a second.
    assert_eq!(tasks[0].worked_duration().as_deref(), Some("1s"));
}

#[test]
fn worked_duration_needs_both_ends() {
    let mut t = Task {
        started_at: Some("2026-01-01T00:00:00Z".into()),
        ..Default::default()
    };
    assert_eq!(t.worked_duration(), None, "never completed");

    t.started_at = None;
    t.completed_at = Some("2026-01-01T01:00:00Z".into());
    assert_eq!(t.worked_duration(), None, "never started");
}

#[test]
fn updated_row_is_hidden_when_it_echoes_another_timestamp() {
    let untouched = Task {
        created_at: Some("2026-01-01T00:00:00Z".into()),
        updated_at: Some("2026-01-01T00:00:00Z".into()),
        ..Default::default()
    };
    assert!(!untouched.has_distinct_update(), "same as created");

    // Completing bumps updated_at, so the two match and the row is noise.
    let completed = Task {
        completed_at: Some("2026-01-02T00:00:00Z".into()),
        updated_at: Some("2026-01-02T00:00:00Z".into()),
        ..untouched.clone()
    };
    assert!(!completed.has_distinct_update(), "same as done");

    let started = Task {
        started_at: Some("2026-01-03T00:00:00Z".into()),
        updated_at: Some("2026-01-03T00:00:00Z".into()),
        ..untouched.clone()
    };
    assert!(!started.has_distinct_update(), "same as started");
}

#[test]
fn updated_row_shows_for_a_genuine_edit() {
    let edited = Task {
        created_at: Some("2026-01-01T00:00:00Z".into()),
        started_at: Some("2026-01-02T00:00:00Z".into()),
        updated_at: Some("2026-01-05T00:00:00Z".into()),
        ..Default::default()
    };
    assert!(edited.has_distinct_update());
}

#[test]
fn humanize_span_uses_up_to_two_units() {
    assert_eq!(humanize_span(0), "0s");
    assert_eq!(humanize_span(45), "45s");
    assert_eq!(humanize_span(60), "1m");
    assert_eq!(humanize_span(330), "5m 30s");
    assert_eq!(humanize_span(3600), "1h");
    assert_eq!(humanize_span(4 * 3600 + 12 * 60), "4h 12m");
    assert_eq!(humanize_span(86400), "1d");
    assert_eq!(humanize_span(3 * 86400 + 5 * 3600), "3d 5h");
    assert_eq!(humanize_span(7 * 86400), "1w");
    assert_eq!(humanize_span(17 * 86400), "2w 3d");
}

#[test]
fn humanize_span_never_goes_negative() {
    // Clock skew between machines writing the store must not print "-3h".
    assert_eq!(humanize_span(-9999), "0s");
}

#[test]
fn span_between_rejects_unparseable_stamps() {
    assert_eq!(span_between("nonsense", "2026-01-01T00:00:00Z"), None);
}

#[test]
fn short_sha_handles_an_already_short_value() {
    let c = CommitMeta {
        sha: "abc".into(),
        message: None,
        branch: None,
    };
    assert_eq!(c.short_sha(), "abc");
}

/// The whole point of `for_store`: a verb cannot forget the flag, because no
/// verb builds its own argv any more.
#[test]
fn every_verb_carries_the_storage_path() {
    let fake = Fake::new("[]", "", 0);
    let dex = Dex::for_store_with("/tmp/x/.dex", Box::new(fake.clone())).unwrap();

    let _ = dex.list(decode);
    assert_eq!(
        &fake.last()[..2],
        &["--storage-path".to_string(), "/tmp/x/.dex".to_string()],
        "list lost the store: {:?}",
        fake.last()
    );

    let _ = dex.start("abc");
    assert_eq!(
        &fake.last()[..2],
        &["--storage-path".to_string(), "/tmp/x/.dex".to_string()],
        "start lost the store: {:?}",
        fake.last()
    );
}

/// dex puts global options before the command, so the flag has to lead.
#[test]
fn the_storage_path_precedes_the_verb() {
    let fake = Fake::new("[]", "", 0);
    let dex = Dex::for_store_with("/tmp/x/.dex", Box::new(fake.clone())).unwrap();
    let _ = dex.list(decode);

    let argv = fake.last();
    assert_eq!(argv[0], "--storage-path");
    assert_eq!(argv[2], "list", "the verb must follow the global option");
}

/// `--storage-path` pointed at tasks.jsonl returns an empty list rather than an
/// error, so a wrong path here is silent. Reject it where it can still be seen.
#[test]
fn a_store_path_must_be_the_directory_not_the_file() {
    let err = Dex::for_store_with("/tmp/x/.dex/tasks.jsonl", Box::new(Fake::new("", "", 0)))
        .err()
        .unwrap();
    assert!(err.contains("directory"), "unhelpful message: {err}");
}

/// The cwd-resolving constructor must stay flagless, or every existing call
/// would start targeting a store it did not ask for.
#[test]
fn the_default_dex_passes_no_storage_path() {
    let fake = Fake::new("[]", "", 0);
    let dex = Dex::new(Box::new(fake.clone()));
    let _ = dex.list(decode);
    assert_eq!(fake.last()[0], "list", "unexpected flag: {:?}", fake.last());
}

#[test]
fn the_first_place_on_the_path_wins() {
    assert_eq!(
        lookup("dex", "/a::/b/:/c", |p: &str| p != "/a/dex"),
        Some("/b/dex".to_string())
    );
    assert_eq!(lookup("dex", "/a:/b", |_: &str| false), None);
    assert_eq!(lookup("/abs/dex", "/a", |_: &str| true), Some("/abs/dex".to_string()));
}

#[test]
fn the_message_prefers_stderr_then_stdout_then_the_exit_code() {
    let out = |code: i32, stdout: &str, stderr: &str| Output {
        code,
        stdout: stdout.to_string(),
        stderr: stderr.to_string(),
    };
    assert_eq!(out(1, "said", "  failed \n").message("dex x"), "failed");
    assert_eq!(out(1, " said\n", " \n").message("dex x"), "said");
    assert_eq!(out(-1, "", "").message("dex x"), "dex x failed (exit -1)");
    assert_eq!(out(127, "", "").message("dex x"), "dex x failed (exit 127)");
    assert!(out(0, "", "").ok());
    assert!(!out(2, "", "").ok());
}

#[test]
fn store_labels_survive_odd_paths() {
    assert_eq!(store_label("/x/proj/.dex/"), "proj");
    assert_eq!(store_label(".dex"), ".dex");
    assert_eq!(store_label("/.dex"), ".dex");
    assert_eq!(store_label("/x/stores/mine"), "mine");
    assert_eq!(store_label(""), "");
    assert!(!is_global_store("/x/.config/dex/.dex"));
}

#[test]
fn times_between_stamps_are_counted_by_the_calendar() {
    assert_eq!(
        span_between("2026-01-31T23:59:30Z", "2026-02-01T00:00:00Z").as_deref(),
        Some("30s")
    );
    assert_eq!(
        span_between("2026-01-01T00:00:00+02:00", "2026-01-01T00:00:00Z").as_deref(),
        Some("2h")
    );
    assert_eq!(
        span_between("2026-01-02T00:00:00Z", "2026-01-01T00:00:00Z").as_deref(),
        Some("0s"),
        "never negative"
    );
    assert_eq!(span_between("2026-01-01T00:00:00Z", "soon"), None);
}

#[test]
fn a_stamp_is_shown_in_local_time_or_as_it_stands() {
    assert_eq!(local_time(&None), "-");
    assert_eq!(local_time(&Some("not a date".to_string())), "not a date");
    let shown = local_time(&Some("2026-01-15T12:00:00Z".to_string()));
    assert_eq!(shown.len(), 16, "{shown}");
    assert!(shown.starts_with("2026-01-1"), "{shown}");
    assert_eq!(shown_stamp(&Some("raw".to_string()), Some("local".to_string())), "local");
    assert_eq!(shown_stamp(&Some("raw".to_string()), None), "raw");
}

#[test]
fn an_old_stamp_has_an_age() {
    let a = age(&Some("2020-01-01T00:00:00Z".to_string())).unwrap();
    assert!(a.ends_with('w'), "{a}");
    assert_eq!(age(&Some("2999-01-01T00:00:00Z".to_string())).as_deref(), Some("now"));
}

#[test]
fn an_abbreviation_is_seven_bytes() {
    let c = |sha: &str| CommitMeta { sha: sha.to_string(), message: None, branch: None };
    assert_eq!(c("0123456789").short_sha(), "0123456");
    assert_eq!(c("").short_sha(), "");
    assert_eq!(c("ééé1é").short_sha(), "ééé1");
}
