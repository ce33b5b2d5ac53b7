//! The list of repositories the sidebar shows.
//!
//! **A separate file from `config.toml` on purpose.** That file is read-only to
//! the app -- persisting toggles would clobber a file someone hand-edited, and
//! silently change their defaults. This one is app-owned state that the app
//! writes. Two files, and neither rule needs qualifying.

use vstd::prelude::*;

use crate::config::{config_home, home_of};
use crate::dex::{join_path, path_under};
use crate::order::{
    is_order, is_sorted, law_sort_is_a_permutation, law_sort_sorts, lemma_placed_filtered,
    lemma_sorted_contains, lemma_sorted_map, lemma_sorted_stays, sorted_by, stable_sort,
};
use crate::text::{
    clone_texts, concat, law_text_order_is_total, law_text_order_is_transitive, less, opt_text,
    same, text_lt, texts, trim, trimmed,
};

verus! {

#[derive(Debug, PartialEq)]
pub struct Registry {
    pub repos: Vec<String>,
}

impl View for Registry {
    type V = Seq<Seq<char>>;

    open spec fn view(&self) -> Seq<Seq<char>> {
        texts(self.repos@)
    }
}

impl Clone for Registry {
    fn clone(&self) -> (r: Self)
        ensures
            r@ == self@,
    {
        Registry { repos: clone_texts(&self.repos) }
    }
}

impl Default for Registry {
    fn default() -> (r: Self)
        ensures
            r@ == Seq::<Seq<char>>::empty(),
    {
        let r = Registry { repos: Vec::new() };
        assert(r@ =~= Seq::empty());
        r
    }
}

/// The order of paths as a relation.
pub open spec fn by_text() -> spec_fn(Seq<char>, Seq<char>) -> bool {
    |a: Seq<char>, b: Seq<char>| text_lt(a, b)
}

/// The list with a path added: nothing changes when it is already there, and
/// the list is sorted when it is not.
pub open spec fn with_path(repos: Seq<Seq<char>>, path: Seq<char>) -> Seq<Seq<char>> {
    if repos.contains(path) {
        repos
    } else {
        sorted_by(repos.push(path), by_text())
    }
}

/// The list with a path taken out.
pub open spec fn without_path(repos: Seq<Seq<char>>, path: Seq<char>) -> Seq<Seq<char>> {
    repos.filter(|p: Seq<char>| p != path)
}

/// What reading the file comes to, given what its text decodes to. A blank file
/// is the normal first-run state, and silent.
pub open spec fn reads_as(
    text: Seq<char>,
    decoded: Result<Registry, String>,
) -> (Seq<Seq<char>>, Option<Seq<char>>) {
    if trimmed(text).len() == 0 {
        (Seq::empty(), None)
    } else {
        match decoded {
            Ok(r) => (r@, None),
            Err(e) => (Seq::empty(), Some("repos.toml: "@ + e@)),
        }
    }
}

impl Registry {
    /// Whether a path is in the list.
    pub fn contains(&self, path: &str) -> (r: bool)
        ensures
            r == self@.contains(path@),
    {
        for i in 0..self.repos.len()
            invariant
                forall|j: int| 0 <= j < i ==> #[trigger] self@[j] != path@,
        {
            assert(self@[i as int] == self.repos@[i as int]@);
            if same(self.repos[i].as_str(), path) {
                return true;
            }
        }
        false
    }

    /// Returns whether the list changed, so a duplicate `a` can be reported
    /// rather than looking like nothing happened.
    pub fn add(&mut self, path: &str) -> (r: bool)
        ensures
            final(self)@ == with_path(old(self)@, path@),
            r == !old(self)@.contains(path@),
    {
        if self.contains(path) {
            return false;
        }
        let mut next = clone_texts(&self.repos);
        next.push(path.to_owned());
        let ghost all = next@;
        assert(texts(all) =~= self@.push(path@));
        let ghost lt = |a: String, b: String| text_lt(a@, b@);
        let before = |a: &String, b: &String| -> (r: bool)
            ensures
                r == text_lt(a@, b@),
            {
                less(a.as_str(), b.as_str())
            };
        let sorted = stable_sort(next, before, Ghost(lt));
        proof {
            lemma_sorted_map(all, lt, |s: String| s@, by_text());
        }
        self.repos = sorted;
        true
    }

    /// Returns whether the path was there.
    pub fn remove(&mut self, path: &str) -> (r: bool)
        ensures
            final(self)@ == without_path(old(self)@, path@),
            r == old(self)@.contains(path@),
    {
        let ghost all = self@;
        let ghost keep = |p: Seq<char>| p != path@;
        let mut kept: Vec<String> = Vec::new();
        let mut found = false;
        proof {
            reveal(Seq::filter);
            assert(texts(kept@) =~= Seq::empty());
        }
        for i in 0..self.repos.len()
            invariant
                all == self@,
                keep == (|p: Seq<char>| p != path@),
                texts(kept@) == all.take(i as int).filter(keep),
                found == all.take(i as int).contains(path@),
        {
            proof {
                reveal(Seq::filter);
                let (a, b) = (all.take(i as int), all.take(i + 1));
                assert(b.drop_last() =~= a);
                assert(all[i as int] == self.repos@[i as int]@);
                if a.contains(path@) {
                    let k = choose|k: int| 0 <= k < a.len() && a[k] == path@;
                    assert(b[k] == path@);
                }
                if b.contains(path@) && all[i as int] != path@ {
                    let k = choose|k: int| 0 <= k < b.len() && b[k] == path@;
                    assert(a[k] == path@);
                }
                assert(b[i as int] == all[i as int]);
            }
            if same(self.repos[i].as_str(), path) {
                found = true;
            } else {
                let ghost so_far = kept@;
                kept.push(self.repos[i].clone());
                assert(texts(kept@) =~= texts(so_far).push(all[i as int]));
            }
        }
        assert(all.take(all.len() as int) =~= all);
        self.repos = kept;
        found
    }

    /// What the registry's text says, given what it decodes to: a problem is
    /// reported rather than fatal.
    pub fn parse(text: &str, decoded: Result<Registry, String>) -> (r: (Registry, Option<String>))
        ensures
            (r.0@, opt_text(r.1)) == reads_as(text@, decoded),
    {
        if trim(text).unicode_len() == 0 {
            return (Registry::default(), None);
        }
        match decoded {
            Ok(r) => (r, None),
            Err(e) => (Registry::default(), Some(concat("repos.toml: ", e.as_str()))),
        }
    }

    /// Adds a path to the list in the file, and takes the result for its own.
    ///
    /// `stored` is the file read fresh, so a possibly-stale copy cannot clobber
    /// what another run has written in the meantime; where it could not be read
    /// back honestly, nothing is written. `write` stores the new list, and is
    /// only asked to when there is something new.
    pub fn add_and_save<W: Fn(&Registry) -> Result<(), String>>(
        &mut self,
        path: &str,
        stored: Result<Registry, String>,
        write: W,
    ) -> (r: Result<bool, String>)
        requires
            forall|x: &Registry| call_requires(write, (x,)),
        ensures
            saved_as(
                *old(self),
                *final(self),
                stored,
                (match stored {
                    Ok(s) => with_path(s@, path@),
                    Err(_) => Seq::empty(),
                }),
                write,
                r,
            ),
    {
        match stored {
            Err(e) => Err(e),
            Ok(s) => {
                let mut next = s;
                let changed = next.add(path);
                proof {
                    if changed {
                        lemma_with_path_contains(s@, path@, path@);
                    }
                }
                self.settle(next, changed, write)
            },
        }
    }

    /// Takes a path out of the list in the file, the same way.
    pub fn remove_and_save<W: Fn(&Registry) -> Result<(), String>>(
        &mut self,
        path: &str,
        stored: Result<Registry, String>,
        write: W,
    ) -> (r: Result<bool, String>)
        requires
            forall|x: &Registry| call_requires(write, (x,)),
        ensures
            saved_as(
                *old(self),
                *final(self),
                stored,
                (match stored {
                    Ok(s) => without_path(s@, path@),
                    Err(_) => Seq::empty(),
                }),
                write,
                r,
            ),
    {
        match stored {
            Err(e) => Err(e),
            Ok(s) => {
                let mut next = s;
                let changed = next.remove(path);
                proof {
                    lemma_without_path(s@, path@);
                }
                self.settle(next, changed, write)
            },
        }
    }

    fn settle<W: Fn(&Registry) -> Result<(), String>>(
        &mut self,
        next: Registry,
        changed: bool,
        write: W,
    ) -> (r: Result<bool, String>)
        requires
            forall|x: &Registry| call_requires(write, (x,)),
        ensures
            !changed ==> r == Ok::<bool, String>(false) && final(self)@ == next@,
            changed ==> written(*old(self), *final(self), next@, write, r),
    {
        if changed {
            let stored = write(&next);
            let ghost seen = (next, stored);
            match stored {
                Ok(()) => {
                    *self = next;
                    assert(call_ensures(write, (&seen.0,), seen.1));
                    Ok(true)
                },
                Err(e) => {
                    assert(call_ensures(write, (&seen.0,), seen.1));
                    Err(e)
                },
            }
        } else {
            *self = next;
            Ok(false)
        }
    }
}

/// What storing a new list comes to: it was handed to `write`, and is this
/// registry's own only when that went well.
pub open spec fn written<W: Fn(&Registry) -> Result<(), String>>(
    before: Registry,
    after: Registry,
    next: Seq<Seq<char>>,
    write: W,
    r: Result<bool, String>,
) -> bool {
    exists|x: &Registry, stored: Result<(), String>|
        x@ == next && #[trigger] call_ensures(write, (x,), stored) && match stored {
            Ok(()) => r == Ok::<bool, String>(true) && after@ == next,
            Err(e) => r == Err::<bool, String>(e) && after == before,
        }
}

/// What saving comes to, given the list read from the file and the list wanted
/// in its place: a file that could not be read stops everything, and only a
/// change is written.
pub open spec fn saved_as<W: Fn(&Registry) -> Result<(), String>>(
    before: Registry,
    after: Registry,
    stored: Result<Registry, String>,
    next: Seq<Seq<char>>,
    write: W,
    r: Result<bool, String>,
) -> bool {
    match stored {
        Err(e) => r == Err::<bool, String>(e) && after == before,
        Ok(s) => if next == s@ {
            r == Ok::<bool, String>(false) && after@ == s@
        } else {
            written(before, after, next, write, r)
        },
    }
}

/// Where the registry lives: beside `config.toml`, so both follow XDG.
pub open spec fn registry_path(xdg: Option<Seq<char>>, home: Option<Seq<char>>) -> Option<
    Seq<char>,
> {
    match config_home(xdg, home) {
        Some(base) => Some(path_under(path_under(base, "dextui"@), "repos.toml"@)),
        None => None,
    }
}

/// Beside `config.toml`, resolved the same way so both follow XDG. Takes the
/// values of `XDG_CONFIG_HOME` and `HOME`.
pub fn path(xdg: Option<&str>, home: Option<&str>) -> (r: Option<String>)
    ensures
        opt_text(r) == registry_path(crate::text::opt_str(xdg), crate::text::opt_str(home)),
{
    match home_of(xdg, home) {
        Some(base) => Some(join_path(join_path(base.as_str(), "dextui").as_str(), "repos.toml")),
        None => None,
    }
}

// ---------------------------------------------------------------------------
// What the registry promises
// ---------------------------------------------------------------------------

proof fn lemma_text_order()
    ensures
        is_order(by_text()),
{
    let lt = by_text();
    assert forall|a: Seq<char>| !#[trigger] lt(a, a) by {
        law_text_order_is_total(a, a);
    }
    assert forall|a: Seq<char>, b: Seq<char>, c: Seq<char>|
        #![trigger lt(a, b), lt(b, c)]
        lt(a, b) && lt(b, c) implies lt(a, c) by {
        law_text_order_is_transitive(a, b, c);
    }
    assert forall|a: Seq<char>, b: Seq<char>, c: Seq<char>|
        #![trigger lt(a, b), lt(b, c)]
        !lt(a, b) && !lt(b, c) implies !lt(a, c) by {
        law_text_order_is_total(a, b);
        law_text_order_is_total(b, c);
        law_text_order_is_total(a, c);
        if lt(c, b) && lt(b, a) {
            law_text_order_is_transitive(c, b, a);
        }
    }
}

proof fn lemma_with_path_contains(repos: Seq<Seq<char>>, path: Seq<char>, x: Seq<char>)
    ensures
        with_path(repos, path).contains(x) <==> repos.contains(x) || x == path,
{
    let p = repos.push(path);
    lemma_sorted_contains(p, by_text(), x);
    if repos.contains(x) {
        let k = choose|k: int| 0 <= k < repos.len() && repos[k] == x;
        assert(p[k] == x);
    }
    if p.contains(x) && x != path {
        let k = choose|k: int| 0 <= k < p.len() && p[k] == x;
        assert(repos[k] == x);
    }
    if x == path {
        assert(p[repos.len() as int] == x);
    }
}

proof fn lemma_without_path(repos: Seq<Seq<char>>, path: Seq<char>)
    ensures
        !without_path(repos, path).contains(path),
        without_path(repos, path) == repos <==> !repos.contains(path),
        without_path(repos, path).len() <= repos.len(),
    decreases repos.len(),
{
    reveal(Seq::filter);
    if repos.len() > 0 {
        let front = repos.drop_last();
        lemma_without_path(front, path);
        let f = without_path(front, path);
        let w = without_path(repos, path);
        if w.contains(path) {
            let k = choose|k: int| 0 <= k < w.len() && w[k] == path;
            if k < f.len() {
                assert(f[k] == path);
            }
        }
        if repos.last() == path {
            assert(repos[repos.len() - 1] == path);
        } else {
            if front.contains(path) {
                let k = choose|k: int| 0 <= k < front.len() && front[k] == path;
                assert(repos[k] == path);
                if w == repos {
                    assert(w.drop_last() =~= f);
                }
            } else {
                assert(front.push(repos.last()) =~= repos);
                if repos.contains(path) {
                    let k = choose|k: int| 0 <= k < repos.len() && repos[k] == path;
                    assert(front[k] == path);
                }
            }
        }
    } else {
        assert(without_path(repos, path) =~= repos);
    }
}

/// A saved path is in the list once saved and nothing else comes or goes;
/// saving it again changes nothing.
pub proof fn law_adding_is_idempotent(repos: Seq<Seq<char>>, path: Seq<char>, x: Seq<char>)
    ensures
        with_path(repos, path).contains(x) <==> repos.contains(x) || x == path,
        with_path(with_path(repos, path), path) == with_path(repos, path),
{
    lemma_with_path_contains(repos, path, x);
    lemma_with_path_contains(repos, path, path);
}

/// The list stays sorted and free of duplicates, whatever is added.
pub proof fn law_the_list_stays_sorted_and_distinct(repos: Seq<Seq<char>>, path: Seq<char>)
    requires
        is_sorted(repos, by_text()),
        repos.no_duplicates(),
    ensures
        is_sorted(with_path(repos, path), by_text()),
        with_path(repos, path).no_duplicates(),
{
    if !repos.contains(path) {
        lemma_text_order();
        let p = repos.push(path);
        law_sort_sorts(p, by_text());
        law_sort_is_a_permutation(p, by_text());
        assert(p.no_duplicates()) by {
            assert forall|i: int, j: int| 0 <= i < j < p.len() implies p[i] != p[j] by {
                if j == repos.len() {
                    assert(repos.contains(repos[i]));
                }
            }
        }
        lemma_distinct_by_multiset(p, sorted_by(p, by_text()));
    }
}

proof fn lemma_distinct_by_multiset(a: Seq<Seq<char>>, b: Seq<Seq<char>>)
    requires
        a.no_duplicates(),
        a.to_multiset() == b.to_multiset(),
    ensures
        b.no_duplicates(),
{
    a.lemma_multiset_has_no_duplicates();
    b.lemma_multiset_has_no_duplicates_conv();
}

/// Removing what was just added gives the list back: the same paths, and, where
/// the list was sorted to begin with, the same list.
pub proof fn law_removing_undoes_adding(repos: Seq<Seq<char>>, path: Seq<char>, x: Seq<char>)
    requires
        !repos.contains(path),
    ensures
        without_path(with_path(repos, path), path).contains(x) <==> repos.contains(x),
        is_sorted(repos, by_text()) ==> without_path(with_path(repos, path), path) == repos,
{
    let w = with_path(repos, path);
    lemma_with_path_contains(repos, path, x);
    lemma_without_path(w, path);
    lemma_kept(w, path, x);
    if is_sorted(repos, by_text()) {
        lemma_sorted_stays(repos, by_text());
        assert(repos.push(path).drop_last() =~= repos);
        lemma_placed_filtered(repos, path, by_text());
    }
}

proof fn lemma_kept(repos: Seq<Seq<char>>, path: Seq<char>, x: Seq<char>)
    ensures
        without_path(repos, path).contains(x) <==> repos.contains(x) && x != path,
    decreases repos.len(),
{
    reveal(Seq::filter);
    if repos.len() > 0 {
        let front = repos.drop_last();
        lemma_kept(front, path, x);
        let f = without_path(front, path);
        let w = without_path(repos, path);
        if f.contains(x) {
            let k = choose|k: int| 0 <= k < f.len() && f[k] == x;
            assert(w[k] == x);
        }
        if front.contains(x) {
            let k = choose|k: int| 0 <= k < front.len() && front[k] == x;
            assert(repos[k] == x);
        }
        if repos.contains(x) && repos.last() != x {
            let k = choose|k: int| 0 <= k < repos.len() && repos[k] == x;
            assert(front[k] == x);
        }
        if repos.last() == x {
            assert(repos[repos.len() - 1] == x);
            if x != path {
                assert(w[w.len() - 1] == x);
            }
        }
        if w.contains(x) && !f.contains(x) {
            let k = choose|k: int| 0 <= k < w.len() && w[k] == x;
            if k < f.len() {
                assert(f[k] == x);
            }
        }
    }
}

/// Adding a path adds that path and no other, and taking one out takes out that
/// one and no other; only a change is a change.
pub proof fn law_only_the_path_named_comes_or_goes(
    repos: Seq<Seq<char>>,
    path: Seq<char>,
    x: Seq<char>,
)
    ensures
        with_path(repos, path).contains(x) <==> repos.contains(x) || x == path,
        without_path(repos, path).contains(x) <==> repos.contains(x) && x != path,
        repos.contains(path) ==> with_path(repos, path) == repos,
        !repos.contains(path) ==> with_path(repos, path).len() == repos.len() + 1,
{
    lemma_with_path_contains(repos, path, x);
    lemma_kept(repos, path, x);
    if !repos.contains(path) {
        law_sort_is_a_permutation(repos.push(path), by_text());
    }
}

/// What is stored is built on the file, not on what is in memory; a file that
/// could not be read is left alone, and what could not be stored is not taken
/// for stored.
pub proof fn law_nothing_is_taken_for_saved_that_is_not<W: Fn(&Registry) -> Result<(), String>>(
    before: Registry,
    after: Registry,
    stored: Result<Registry, String>,
    next: Seq<Seq<char>>,
    write: W,
    r: Result<bool, String>,
)
    requires
        saved_as(before, after, stored, next, write, r),
    ensures
        stored is Err ==> r is Err && after == before,
        r is Err ==> after == before,
        r == Ok::<bool, String>(true) ==> after@ == next && stored is Ok && next != stored->Ok_0@,
        r == Ok::<bool, String>(false) ==> stored is Ok && after@ == stored->Ok_0@ && next
            == stored->Ok_0@,
{
}

/// A blank file is an empty list and no problem; one that decodes is what it
/// decodes to; one that does not is an empty list, and a problem.
pub proof fn law_a_bad_file_is_a_problem(text: Seq<char>, decoded: Result<Registry, String>)
    ensures
        ({
            let blank = forall|i: int|
                0 <= i < text.len() ==> crate::text::is_space(#[trigger] text[i]);
            &&& blank ==> reads_as(text, decoded).0.len() == 0 && reads_as(text, decoded).1 is None
            &&& !blank && decoded is Ok ==> reads_as(text, decoded).0 == decoded->Ok_0@ && reads_as(
                text,
                decoded,
            ).1 is None
            &&& !blank && decoded is Err ==> reads_as(text, decoded).0.len() == 0 && reads_as(
                text,
                decoded,
            ).1 is Some
        }),
{
    crate::text::law_nothing_is_left_of_blank_text(text);
}

} // verus!
