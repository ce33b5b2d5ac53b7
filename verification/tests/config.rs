//! Starting values: parsing, layering and templates.

use dextui::app::App;
use dextui::config::{
    apply, init, load, parse_bool, parse_filter, parse_icons, parse_sort, path, path_for_editing,
    project_path, target, Config, Layer, Raw, Scope, EXAMPLE, PROJECT_EXAMPLE,
};
use dextui::icons;
use dextui::tree::{Filter, Sort};

/// Reads a file's text the way the app does: unknown keys are an error.
fn decoded(text: &str) -> Result<Raw, String> {
    let table: toml::Table = toml::from_str(text).map_err(|e| e.to_string())?;
    let mut raw = Raw::default();
    for (key, value) in table {
        let wrong = |e: toml::de::Error| e.to_string();
        match key.as_str() {
            "sort" => raw.sort = Some(value.try_into().map_err(wrong)?),
            "sort_reversed" => raw.sort_reversed = Some(value.try_into().map_err(wrong)?),
            "filter" => raw.filter = Some(value.try_into().map_err(wrong)?),
            "wrap" => raw.wrap = Some(value.try_into().map_err(wrong)?),
            "icons" => raw.icons = Some(value.try_into().map_err(wrong)?),
            "animate" => raw.animate = Some(value.try_into().map_err(wrong)?),
            "single_pane_below" => raw.single_pane_below = Some(value.try_into().map_err(wrong)?),
            "split_percent" => raw.split_percent = Some(value.try_into().map_err(wrong)?),
            "repos_width" => raw.repos_width = Some(value.try_into().map_err(wrong)?),
            "repos_pane_above" => raw.repos_pane_above = Some(value.try_into().map_err(wrong)?),
            "repos_open" => raw.repos_open = Some(value.try_into().map_err(wrong)?),
            other => return Err(format!("unknown field `{other}`")),
        }
    }
    Ok(raw)
}

/// Applies `text` the way `load` layers a file, so these test the real
/// path rather than a parallel one.
fn applied(text: &str) -> (Config, Vec<String>) {
    let raw: Raw = decoded(text).expect("test config should parse");
    let mut cfg = Config::default();
    let mut problems = Vec::new();
    apply(&mut cfg, raw, &mut problems);
    (cfg, problems)
}

/// The template is the first thing anyone edits, so a key it advertises
/// that does not parse -- or one it forgets to mention -- is a
/// documentation bug with teeth.
#[test]
fn both_templates_parse_and_mention_the_layout_keys() {
    for text in [EXAMPLE, PROJECT_EXAMPLE] {
        let (cfg, problems) = applied(text);
        assert!(problems.is_empty(), "template complains: {problems:?}");
        assert!((20..=80).contains(&cfg.split_percent));
    }
    assert!(EXAMPLE.contains("split_percent"), "the global template omits split_percent");
    assert!(EXAMPLE.contains("repos_width"), "the global template omits repos_width");
    assert!(EXAMPLE.contains("repos_open"), "the global template omits repos_open");
}

/// Clamped rather than rejected, matching what a drag would have done --
/// `Config` is soft everywhere else, and refusing to start over a number
/// in a preferences file is the worse failure.
#[test]
fn out_of_range_layout_values_are_clamped_not_refused() {
    let (cfg, problems) = applied("split_percent = 5\nrepos_width = 2\n");
    assert!(problems.is_empty(), "a silly number must not stop the app");
    assert_eq!(cfg.split_percent, 20);
    assert_eq!(cfg.repos_width, App::REPOS_WIDTH_MIN);

    let (cfg, _) = applied("split_percent = 300\n");
    assert_eq!(cfg.split_percent, 80);
}

#[test]
fn defaults_match_the_behaviour_before_a_config_existed() {
    let c = Config::default();
    assert_eq!(c.sort, Sort::Priority);
    assert!(!c.sort_reversed);
    assert_eq!(c.filter, Filter::Pending);
    assert!(c.wrap);
    assert_eq!(c.icons.tier, icons::unicode().tier);
}

#[test]
fn every_documented_value_parses() {
    // The example file must not advertise anything the parser rejects.
    for v in ["priority", "updated", "created", "name"] {
        assert!(parse_sort(v).is_some(), "sort {v}");
    }
    for v in ["pending", "active", "all"] {
        assert!(parse_filter(v).is_some(), "filter {v}");
    }
    for v in ["nerd", "unicode", "ascii"] {
        assert!(parse_icons(v).is_some(), "icons {v}");
    }
}

#[test]
fn values_are_case_and_whitespace_insensitive() {
    assert_eq!(parse_sort("  Updated "), Some(Sort::Updated));
    assert_eq!(parse_filter("ALL"), Some(Filter::All));
}

#[test]
fn unknown_values_are_rejected_rather_than_guessed() {
    assert!(parse_sort("priorty").is_none());
    assert!(parse_filter("done").is_none());
    assert!(parse_icons("emoji").is_none());
}

#[test]
fn a_full_file_round_trips_through_the_parser() {
    let raw: Raw = decoded(
        r#"
        sort = "updated"
        sort_reversed = true
        filter = "all"
        wrap = false
        icons = "nerd"
        "#,
    )
    .expect("valid config should parse");

    assert_eq!(raw.sort.as_deref(), Some("updated"));
    assert_eq!(raw.sort_reversed, Some(true));
    assert_eq!(raw.wrap, Some(false));
}

#[test]
fn the_example_file_is_valid_and_uses_only_known_keys() {
    // deny_unknown_fields means a typo in the example would fail here.
    let raw: Raw = decoded(EXAMPLE).expect("EXAMPLE must parse");
    assert_eq!(raw.sort.as_deref(), Some("priority"));
    assert_eq!(raw.icons.as_deref(), Some("unicode"));
}

#[test]
fn an_unknown_key_is_an_error_not_a_silent_no_op() {
    // Better to say "I do not know that setting" than to ignore it and let
    // someone believe it took effect.
    assert!(decoded("colour_scheme = \"dark\"").is_err());
}

#[test]
fn a_partial_file_leaves_the_other_defaults_alone() {
    let raw: Raw = decoded("wrap = false").unwrap();
    assert_eq!(raw.wrap, Some(false));
    assert!(raw.sort.is_none());
}

fn raw(toml_src: &str) -> Raw {
    decoded(toml_src).expect("test fixture should parse")
}

#[test]
fn a_project_file_overrides_only_what_it_mentions() {
    // The point of layering: "in this repo, start unwrapped" without
    // restating every other preference.
    let mut cfg = Config::default();
    let mut problems = Vec::new();

    apply(&mut cfg, raw("sort = \"updated\"\nfilter = \"all\""), &mut problems);
    apply(&mut cfg, raw("wrap = false"), &mut problems);

    assert!(!cfg.wrap, "project value not applied");
    assert_eq!(cfg.sort, Sort::Updated, "global value was lost");
    assert_eq!(cfg.filter, Filter::All, "global value was lost");
    assert!(problems.is_empty());
}

#[test]
fn the_later_layer_wins_on_the_same_key() {
    let mut cfg = Config::default();
    let mut problems = Vec::new();

    apply(&mut cfg, raw("sort = \"name\""), &mut problems);
    apply(&mut cfg, raw("sort = \"created\""), &mut problems);

    assert_eq!(cfg.sort, Sort::Created);
}

#[test]
fn an_empty_layer_changes_nothing() {
    let mut cfg = Config::default();
    let mut problems = Vec::new();
    apply(&mut cfg, raw("sort = \"name\""), &mut problems);

    apply(&mut cfg, raw(""), &mut problems);

    assert_eq!(cfg.sort, Sort::Name);
}

#[test]
fn a_bad_value_is_reported_and_leaves_the_layer_beneath_intact() {
    let mut cfg = Config::default();
    let mut problems = Vec::new();

    apply(&mut cfg, raw("sort = \"updated\""), &mut problems);
    apply(&mut cfg, raw("sort = \"nonsense\""), &mut problems);

    assert_eq!(cfg.sort, Sort::Updated, "a typo should not reset to the default");
    assert_eq!(problems.len(), 1);
    assert!(problems[0].contains("nonsense"));
}

/// The pulse is the app's only motion, and it is calm by design, so it is on
/// unless someone asks otherwise.
#[test]
fn animation_is_on_by_default() {
    assert!(Config::default().animate);
}

/// The typical session is one repo, read from its own directory -- the
/// sidebar has nothing to add there, so it must not appear unasked.
#[test]
fn the_repo_sidebar_is_hidden_by_default() {
    assert!(!Config::default().repos_open);
}

#[test]
fn repos_open_can_be_turned_on_in_a_file() {
    let mut cfg = Config::default();
    let mut problems = Vec::new();

    apply(&mut cfg, raw("repos_open = true"), &mut problems);

    assert!(cfg.repos_open);
    assert!(problems.is_empty());
}

#[test]
fn animate_can_be_turned_off_in_a_file() {
    let mut cfg = Config::default();
    let mut problems = Vec::new();

    apply(&mut cfg, raw("animate = false"), &mut problems);

    assert!(!cfg.animate);
    assert!(problems.is_empty());
}

/// The opt-out has to be reachable per repository too: one noisy project is
/// exactly the case where you would turn it off without touching the global
/// file.
#[test]
fn a_project_file_can_override_animate() {
    let mut cfg = Config::default();
    let mut problems = Vec::new();

    apply(&mut cfg, raw("animate = true"), &mut problems);
    apply(&mut cfg, raw("animate = false"), &mut problems);

    assert!(!cfg.animate);
}

/// `deny_unknown_fields` means the template and the struct cannot drift
/// apart -- but only if the template actually mentions the key.
#[test]
fn the_example_file_documents_animate() {
    let raw: Raw = decoded(EXAMPLE).expect("EXAMPLE must parse");
    assert_eq!(raw.animate, Some(true));
}

/// `DEXTUI_ANIMATE` itself is deliberately not tested through `load()`: env
/// vars are process-global and `cargo test` runs threads in parallel, so
/// such a test would be flaky -- which is why `DEXTUI_ICONS` has none
/// either. Keeping `load()` a thin wiring line over a tested parser is what
/// makes that acceptable.
#[test]
fn parse_bool_accepts_the_usual_spellings() {
    for v in ["true", "1", "yes", "on", " TRUE ", "On"] {
        assert_eq!(parse_bool(v), Some(true), "{v:?}");
    }
    for v in ["false", "0", "no", "off", " FALSE ", "Off"] {
        assert_eq!(parse_bool(v), Some(false), "{v:?}");
    }
    for v in ["maybe", "", "2"] {
        assert_eq!(parse_bool(v), None, "{v:?}");
    }
}

#[test]
fn problems_from_several_layers_are_all_reported() {
    let mut cfg = Config::default();
    let mut problems = Vec::new();

    apply(&mut cfg, raw("sort = \"bogus\""), &mut problems);
    apply(&mut cfg, raw("filter = \"bogus\""), &mut problems);

    assert_eq!(problems.len(), 2);
}

#[test]
fn the_layers_are_laid_in_order_and_every_problem_is_reported() {
    let global = Layer {
        path: "/g.toml".to_string(),
        decoded: decoded("sort = \"name\"\nanimate = true\nicons = \"ascii\""),
    };
    let project = Layer {
        path: "/p.toml".to_string(),
        decoded: decoded("sort = \"bogus\"\nwrap = false"),
    };
    let (cfg, problem) = load(Some(global), Some(project), Some("nerd"), Some("off"));
    assert_eq!(cfg.sort, Sort::Name);
    assert!(!cfg.wrap);
    assert!(!cfg.animate, "the environment comes last");
    assert_eq!(cfg.icons.tier, icons::nerd().tier);
    assert_eq!(problem, Some("unknown sort \"bogus\"".to_string()));

    let broken = Layer {
        path: "/g.toml".to_string(),
        decoded: Err("  TOML parse error at line 1\n  |\n".to_string()),
    };
    let (cfg, problem) = load(Some(broken), None, Some("emoji"), Some("maybe"));
    assert_eq!(cfg.sort, Sort::Priority);
    assert_eq!(cfg.icons.tier, icons::unicode().tier);
    assert_eq!(problem, Some("/g.toml: TOML parse error at line 1".to_string()));

    let (_, problem) = load(None, None, None, None);
    assert_eq!(problem, None);
}

#[test]
fn the_project_file_is_at_the_git_root() {
    let there = |p: &str| p == "/a/b/.git";
    assert_eq!(project_path("/a/b/c/d", there), Some("/a/b/.dextui.toml".to_string()));
    assert_eq!(project_path("/a/b", there), Some("/a/b/.dextui.toml".to_string()));
    assert_eq!(project_path("/a", there), None);
    assert_eq!(project_path("/", |p: &str| p == "/.git"), Some("/.dextui.toml".to_string()));
}

#[test]
fn the_global_file_follows_xdg() {
    assert_eq!(path(Some("/x"), None), Some("/x/dextui/config.toml".to_string()));
    assert_eq!(path(None, Some("/h")), Some("/h/.config/dextui/config.toml".to_string()));
    assert_eq!(path(None, None), None);
}

#[test]
fn a_scope_without_a_file_says_why() {
    assert_eq!(
        target(Scope::Global, None, None),
        Err("could not resolve a config path (is HOME set?)".to_string())
    );
    assert_eq!(
        target(Scope::Project, Some("/g".to_string()), None),
        Err("not inside a git repository, so there is no project config".to_string())
    );
    assert_eq!(
        target(Scope::Project, None, Some("/p".to_string())),
        Ok("/p".to_string())
    );
}

#[test]
fn an_existing_file_is_not_overwritten_unless_forced() {
    assert_eq!(
        init(Scope::Global, "/g.toml", true, false),
        Err("/g.toml already exists; pass --force to overwrite it".to_string())
    );
    assert_eq!(init(Scope::Global, "/g.toml", true, true), Ok(EXAMPLE));
    assert_eq!(init(Scope::Project, "/p.toml", false, false), Ok(PROJECT_EXAMPLE));
    assert_eq!(path_for_editing(Scope::Global, true), None);
    assert_eq!(path_for_editing(Scope::Global, false), Some(EXAMPLE));
}
