//! The sidebar's rows.

use dextui::repos::{rows, store_dir, Repo, Row};
use dextui::worktree::Worktree;

fn wt(path: &str, branch: &str, main: bool) -> Worktree {
    Worktree {
        path: path.to_string(),
        branch: branch.to_string(),
        is_main: main,
        is_locked: false,
        is_detached: false,
    }
}

fn repo(name: &str, open: bool) -> Repo {
    Repo {
        name: name.to_string(),
        path: format!("/x/{name}"),
        worktrees: vec![
            wt(&format!("/x/{name}"), "main", true),
            wt(&format!("/x/{name}-feat"), "feat", false),
        ],
        open,
        registered: true,
        is_global: false,
    }
}

/// Both sections present, so both are labelled. `b` is where we are and
/// is not saved yet, so it leads under `here`.
#[test]
fn here_and_saved_are_labelled_when_both_have_something_in_them() {
    let mut rs = vec![repo("a", true), repo("b", true)];
    rs[1].registered = false;
    let r = rows(&rs, Some(1));
    assert_eq!(r[0], Row::Heading("here"));
    assert_eq!(r[1], Row::Repo { index: 1 }, "the current repo leads");
    assert_eq!(r[4], Row::Heading("saved"));
    assert_eq!(r[5], Row::Repo { index: 0 });
}

/// The whole point of the rule: `a` has to move the row, because moving it
/// is the only thing on screen that says the press did anything. Before,
/// the current repo stayed under `here` and the pane was byte-identical
/// either side of a successful registration.
#[test]
fn saving_the_repo_you_are_in_moves_it_from_here_to_saved() {
    let mut rs = vec![repo("a", true)];
    rs[0].registered = false;

    let before = rows(&rs, Some(0));
    assert_eq!(before[0], Row::Heading("here"));
    assert_eq!(before[1], Row::Repo { index: 0 });
    assert!(
        before.contains(&Row::Hint("nothing saved yet")),
        "the destination has to be on screen before the press: {before:?}"
    );

    rs[0].registered = true;
    let after = rows(&rs, Some(0));
    assert!(
        !after.contains(&Row::Heading("here")),
        "`here` should have emptied and gone: {after:?}"
    );
    assert_eq!(after[0], Row::Heading("saved"));
    assert_eq!(after[1], Row::Repo { index: 0 });
    assert_ne!(before, after, "registering must change what is drawn");
}

/// A lone `saved` section keeps its heading, so the repo that has just
/// arrived under it is visibly *under something*. `here` gets no such
/// treatment -- see `rows`.
#[test]
fn saved_keeps_its_heading_alone_but_here_does_not_appear_empty() {
    let rs = vec![repo("a", true)];
    let r = rows(&rs, Some(0));
    assert_eq!(r[0], Row::Heading("saved"));
    assert!(!r.contains(&Row::Heading("here")));
}

/// Nothing registered and nowhere to be: an empty pane, not a pair of
/// headings over a hint about a feature there is no repo to use it on.
#[test]
fn an_empty_sidebar_draws_nothing_at_all() {
    assert_eq!(rows(&vec![], None), vec![]);
    let mut rs = vec![repo("a", true)];
    rs[0].registered = false;
    assert_eq!(rows(&rs, None), vec![], "an unsaved repo you are not in");
}

/// Current *and* saved appears once, under `saved`.
#[test]
fn a_repo_that_is_both_current_and_saved_is_not_listed_twice() {
    let rs = vec![repo("a", true), repo("b", true)];
    let r = rows(&rs, Some(0));
    let firsts: Vec<_> = r.iter().filter(|x| matches!(x, Row::Repo { .. })).collect();
    assert_eq!(firsts.len(), 2, "each repo exactly once: {r:?}");
}

/// An unsaved repo you are not in has no section to be in, so it does not
/// appear at all -- `here` is the only thing that puts an unsaved repo on
/// screen.
#[test]
fn an_unsaved_repo_you_are_not_in_is_not_shown() {
    let mut rs = vec![repo("a", true), repo("b", true)];
    rs[1].registered = false;
    let r = rows(&rs, Some(0));
    assert!(
        !r.contains(&Row::Repo { index: 1 }),
        "an unsaved repo appeared without being current: {r:?}"
    );
}

#[test]
fn an_open_repo_lists_its_worktrees_beneath_it() {
    let rs = vec![repo("one", true)];
    assert_eq!(
        rows(&rs, None),
        vec![
            Row::Heading("saved"),
            Row::Repo { index: 0 },
            Row::Worktree { repo: 0, index: 0 },
            Row::Worktree { repo: 0, index: 1 },
        ]
    );
}

#[test]
fn a_closed_repo_hides_its_worktrees() {
    let rs = vec![repo("one", false)];
    assert_eq!(
        rows(&rs, None),
        vec![Row::Heading("saved"), Row::Repo { index: 0 }]
    );
}

#[test]
fn repos_keep_their_order_and_do_not_interleave() {
    let rs = vec![repo("a", true), repo("b", false), repo("c", true)];
    let r = rows(&rs, None);
    assert_eq!(r[1], Row::Repo { index: 0 });
    assert_eq!(r[4], Row::Repo { index: 1 });
    assert_eq!(r[5], Row::Repo { index: 2 });
}

/// dex stores live in `.dex` under the worktree, and this is the one place
/// that knows it -- `Dex::for_store` rejects anything else.
#[test]
fn a_store_is_the_dex_directory_under_the_worktree() {
    assert_eq!(store_dir("/x/one"), "/x/one/.dex");
    assert_eq!(store_dir("/x/one/"), "/x/one/.dex");
}

#[test]
fn a_repos_rows_resolve_to_the_dex_directory_under_each_worktree() {
    let r = repo("one", true);
    assert_eq!(r.store(None), "/x/one/.dex");
    assert_eq!(r.store(Some(&r.worktrees[1])), "/x/one-feat/.dex");
}

/// The global store is the exception the whole `Repo::store` indirection
/// exists for: dex's out-of-repo fallback is the store directory itself,
/// so deriving `<path>/.dex` from it points at nothing -- and dex reports
/// a store that does not exist as an *empty project*, never as an error.
#[test]
fn the_global_store_is_its_own_path_not_a_dex_directory_beneath_it() {
    let g = Repo {
        name: "global".into(),
        path: "/home/u/.config/dex/local".into(),
        worktrees: vec![],
        open: true,
        registered: false,
        is_global: true,
    };
    assert_eq!(g.store(None), "/home/u/.config/dex/local");
    let r = rows(&vec![g], Some(0));
    assert!(
        !r.iter().any(|x| matches!(x, Row::Worktree { .. })),
        "the global store has no worktrees: {r:?}"
    );
}
