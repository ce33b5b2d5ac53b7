//! The list of saved repos.

use dextui::registry::Registry;

#[test]
fn adding_a_repo_reports_that_it_changed() {
    let mut r = Registry::default();
    assert!(r.add("/x/one"));
    assert_eq!(r.repos, vec!["/x/one".to_string()]);
}

/// Pressing `a` twice is not a mistake worth an error, but the caller needs
/// to know so it can say "already registered" instead of nothing at all.
#[test]
fn adding_a_known_repo_changes_nothing_and_says_so() {
    let mut r = Registry::default();
    r.add("/x/one");
    assert!(!r.add("/x/one"));
    assert_eq!(r.repos.len(), 1, "duplicated: {:?}", r.repos);
}

#[test]
fn removing_reports_whether_it_was_there() {
    let mut r = Registry::default();
    r.add("/x/one");
    assert!(r.remove("/x/one"));
    assert!(!r.remove("/x/one"));
    assert!(r.repos.is_empty());
}

/// Reads the file the way the app does, through the toml crate.
fn decoded(text: &str) -> Result<Registry, String> {
    let table: toml::Table = toml::from_str(text).map_err(|e| e.to_string())?;
    let repos = match table.get("repos") {
        Some(v) => v.clone().try_into::<Vec<String>>().map_err(|e| e.to_string())?,
        None => Vec::new(),
    };
    Ok(Registry { repos })
}

fn parse(text: &str) -> (Registry, Option<String>) {
    Registry::parse(text, decoded(text))
}

#[test]
fn a_registry_round_trips_through_toml() {
    let mut r = Registry::default();
    r.add("/x/one");
    r.add("/x/two");

    let mut table = toml::Table::new();
    table.insert("repos".to_string(), toml::Value::from(r.repos.clone()));
    let text = toml::to_string(&table).unwrap();
    let back = decoded(&text).unwrap();
    assert_eq!(back, r);
}

/// A bad file must not stop the app starting -- the same rule config already
/// follows, for the same reason.
#[test]
fn a_malformed_file_is_reported_and_not_fatal() {
    let (reg, problem) = parse("repos = \"not a list\"");
    assert_eq!(reg, Registry::default());
    assert!(problem.is_some(), "a bad file must be reported");
}

#[test]
fn an_empty_file_is_normal_and_silent() {
    let (reg, problem) = parse("");
    assert_eq!(reg, Registry::default());
    assert!(problem.is_none(), "an empty registry is not a problem");
}

/// Adding keeps the file in order, and removing gives it back.
#[test]
fn the_list_is_sorted_and_removing_undoes_adding() {
    let mut r = Registry::default();
    r.add("/x/two");
    r.add("/x/one");
    assert_eq!(r.repos, vec!["/x/one".to_string(), "/x/two".to_string()]);
    r.add("/x/three");
    assert_eq!(r.repos[1], "/x/three");
    assert!(r.remove("/x/three"));
    assert_eq!(r.repos, vec!["/x/one".to_string(), "/x/two".to_string()]);
}

/// The file is read fresh, and nothing is written where it could not be.
#[test]
fn an_unreadable_file_is_never_overwritten() {
    let mut r = Registry::default();
    let e = r
        .add_and_save("/x/one", Err("repos.toml: broken".to_string()), |_: &Registry| {
            panic!("wrote over a file that could not be read")
        })
        .unwrap_err();
    assert_eq!(e, "repos.toml: broken");
    assert!(r.repos.is_empty());
}

/// What another run has saved in the meantime survives.
#[test]
fn saving_adds_to_what_is_on_disk_rather_than_to_a_stale_copy() {
    let mut r = Registry::default();
    let on_disk = Registry { repos: vec!["/x/other".to_string()] };
    let saved = r.add_and_save("/x/one", Ok(on_disk), |next: &Registry| {
        assert_eq!(next.repos, vec!["/x/one".to_string(), "/x/other".to_string()]);
        Ok(())
    });
    assert_eq!(saved, Ok(true));
    assert_eq!(r.repos.len(), 2);
}

/// A list that could not be written is not taken for saved.
#[test]
fn a_failed_write_leaves_the_registry_as_it_was() {
    let mut r = Registry::default();
    let outcome = r.add_and_save("/x/one", Ok(Registry::default()), |_: &Registry| {
        Err("disk full".to_string())
    });
    assert_eq!(outcome, Err("disk full".to_string()));
    assert!(r.repos.is_empty());
    assert_eq!(
        r.remove_and_save("/x/one", Ok(Registry::default()), |_: &Registry| Ok(())),
        Ok(false)
    );
}

#[test]
fn the_registry_lives_beside_the_config() {
    assert_eq!(
        dextui::registry::path(Some("/xdg"), Some("/home/u")),
        Some("/xdg/dextui/repos.toml".to_string())
    );
    assert_eq!(
        dextui::registry::path(Some(""), Some("/home/u")),
        Some("/home/u/.config/dextui/repos.toml".to_string())
    );
    assert_eq!(dextui::registry::path(None, None), None);
}
