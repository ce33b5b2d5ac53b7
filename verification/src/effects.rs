//! What the app asks the outside to do, and what the outside answers.

use vstd::prelude::*;

use crate::dex::{
    complete_args, create_args, delete_args, edit_args, law_a_new_task_is_what_was_typed,
    law_an_edit_changes_what_it_was_given, settled, start_args, unit_text, Dex, Runner, Task,
};
use crate::text::{
    concat, contains, decimal, decimal_of, is_space, law_trimming_takes_space_off_the_ends, lower,
    lowercase, occurs, opt_str, opt_text,
    to_chars, trim, trimmed,
};

verus! {

/// A change to the task list, made through dex.
#[derive(Debug)]
#[allow(inconsistent_fields)]
pub enum Verb {
    Start { id: String },
    Complete { id: String, result: String, force: bool },
    Create { name: String, description: String, parent: Option<String> },
    Edit { id: String, name: Option<String>, description: Option<String> },
    Delete { id: String },
}

/// What a change says.
#[allow(inconsistent_fields)]
pub ghost enum VerbView {
    Start { id: Seq<char> },
    Complete { id: Seq<char>, result: Seq<char>, force: bool },
    Create { name: Seq<char>, description: Seq<char>, parent: Option<Seq<char>> },
    Edit { id: Seq<char>, name: Option<Seq<char>>, description: Option<Seq<char>> },
    Delete { id: Seq<char> },
}

impl View for Verb {
    type V = VerbView;

    open spec fn view(&self) -> VerbView {
        match *self {
            Verb::Start { id } => VerbView::Start { id: id@ },
            Verb::Complete { id, result, force } => VerbView::Complete {
                id: id@,
                result: result@,
                force,
            },
            Verb::Create { name, description, parent } => VerbView::Create {
                name: name@,
                description: description@,
                parent: opt_text(parent),
            },
            Verb::Edit { id, name, description } => VerbView::Edit {
                id: id@,
                name: opt_text(name),
                description: opt_text(description),
            },
            Verb::Delete { id } => VerbView::Delete { id: id@ },
        }
    }
}

/// The arguments dex is given for a change.
pub open spec fn verb_args(v: VerbView) -> Seq<Seq<char>> {
    match v {
        VerbView::Start { id } => start_args(id),
        VerbView::Complete { id, result, force } => complete_args(id, result, force),
        VerbView::Create { name, description, parent } => create_args(name, description, parent),
        VerbView::Edit { id, name, description } => edit_args(id, name, description),
        VerbView::Delete { id } => delete_args(id),
    }
}

/// What a change is called when it fails without a word.
pub open spec fn verb_label(v: VerbView) -> Seq<char> {
    match v {
        VerbView::Start { .. } => "dex start"@,
        VerbView::Complete { .. } => "dex complete"@,
        VerbView::Create { .. } => "dex create"@,
        VerbView::Edit { .. } => "dex edit"@,
        VerbView::Delete { .. } => "dex delete"@,
    }
}

fn borrowed(s: &Option<String>) -> (r: Option<&str>)
    ensures
        opt_str(r) == opt_text(*s),
{
    match s {
        Some(t) => Some(t.as_str()),
        None => None,
    }
}

impl<R: Runner> Dex<R> {
    /// Makes a change.
    pub fn perform(&self, verb: &Verb) -> (r: Result<(), String>)
        ensures
            exists|out| #[trigger]
                self.asked(verb_args(verb@), out) && unit_text(r) == settled(out, verb_label(verb@)),
    {
        match verb {
            Verb::Start { id } => {
                assert(verb_args(verb@) == start_args(id@));
                self.start(id.as_str())
            },
            Verb::Complete { id, result, force } => {
                assert(verb_args(verb@) == complete_args(id@, result@, *force));
                self.complete(id.as_str(), result.as_str(), *force)
            },
            Verb::Create { name, description, parent } => {
                assert(verb_args(verb@) == create_args(name@, description@, opt_text(*parent)));
                self.create(name.as_str(), description.as_str(), borrowed(parent))
            },
            Verb::Edit { id, name, description } => {
                assert(verb_args(verb@) == edit_args(id@, opt_text(*name), opt_text(*description)));
                self.edit(id.as_str(), borrowed(name), borrowed(description))
            },
            Verb::Delete { id } => {
                assert(verb_args(verb@) == delete_args(id@));
                self.delete(id.as_str())
            },
        }
    }
}

/// Something for the outside to do once a key, a click or a message has been
/// handled.
#[derive(Debug)]
pub enum Effect {
    /// List the store on screen, and answer with [`Msg::Tasks`].
    Refresh { store: String },
    /// Make a change, and answer with what [`written`] makes of it.
    Write { verb: Verb, success: String },
    /// Complete a task, and answer with what [`completed`] makes of it.
    TryComplete { id: String, result: String },
    /// Point dex at another store.
    UseStore { dir: String },
    /// List a store, and answer with [`Msg::StoreLoaded`].
    ReadStore { dir: String },
    /// Save the repo dextui is running in.
    SaveHere,
    /// Save the repo at a typed path.
    SaveAt { typed: String },
    /// Forget a saved repo.
    Forget { path: String },
}

/// What an effect says.
pub ghost enum EffectView {
    Refresh { store: Seq<char> },
    Write { verb: VerbView, success: Seq<char> },
    TryComplete { id: Seq<char>, result: Seq<char> },
    UseStore { dir: Seq<char> },
    ReadStore { dir: Seq<char> },
    SaveHere,
    SaveAt { typed: Seq<char> },
    Forget { path: Seq<char> },
}

impl View for Effect {
    type V = EffectView;

    open spec fn view(&self) -> EffectView {
        match *self {
            Effect::Refresh { store } => EffectView::Refresh { store: store@ },
            Effect::Write { verb, success } => EffectView::Write {
                verb: verb@,
                success: success@,
            },
            Effect::TryComplete { id, result } => EffectView::TryComplete {
                id: id@,
                result: result@,
            },
            Effect::UseStore { dir } => EffectView::UseStore { dir: dir@ },
            Effect::ReadStore { dir } => EffectView::ReadStore { dir: dir@ },
            Effect::SaveHere => EffectView::SaveHere,
            Effect::SaveAt { typed } => EffectView::SaveAt { typed: typed@ },
            Effect::Forget { path } => EffectView::Forget { path: path@ },
        }
    }
}

/// What each effect of a list says.
pub open spec fn effect_views(fx: Seq<Effect>) -> Seq<EffectView> {
    fx.map_values(|e: Effect| e@)
}

/// Nothing to do.
pub fn nothing() -> (r: Vec<Effect>)
    ensures
        effect_views(r@) == Seq::<EffectView>::empty(),
{
    let r: Vec<Effect> = Vec::new();
    assert(effect_views(r@) =~= Seq::empty());
    r
}

/// One thing to do.
pub fn just(e: Effect) -> (r: Vec<Effect>)
    ensures
        effect_views(r@) == seq![e@],
{
    let mut r: Vec<Effect> = Vec::new();
    r.push(e);
    assert(effect_views(r@) =~= seq![e@]);
    r
}

/// One thing to do, and then others.
pub fn first_then(e: Effect, rest: Vec<Effect>) -> (r: Vec<Effect>)
    ensures
        effect_views(r@) == seq![e@] + effect_views(rest@),
{
    let mut r = rest;
    let ghost before = r@;
    r.insert(0, e);
    assert(effect_views(r@) =~= seq![e@] + effect_views(before));
    r
}

/// Everything the main loop reacts to besides the terminal.
#[derive(Debug)]
#[allow(inconsistent_fields)]
pub enum Msg {
    /// A task list, tagged with the store directory it was actually read
    /// from.
    ///
    /// The tag is load-bearing, not diagnostic. A refresh that was begun just
    /// before a switch lands just after it, and without a tag would paint the
    /// **old** store's tasks under the new store's label -- silently.
    Tasks { store: String, result: Result<Vec<Task>, String> },
    Done(String),
    Failed(String),
    /// `dex complete` was rejected; carries what is needed to retry with --force.
    CompleteRejected { id: String, result: String, error: String },
    /// A sidebar store was re-read. Carries its freshly listed tasks (or the
    /// failure), keyed by store directory.
    ///
    /// Every store gets this, the selected one included: the cache it fills is
    /// what makes moving the sidebar cursor change the panes immediately, so
    /// the store being read cannot be the one store missing from it.
    StoreLoaded { dir: String, result: Result<Vec<Task>, String> },
}

/// What a change that has been tried is answered with.
pub fn written(outcome: Result<(), String>, success: String) -> (r: Msg)
    ensures
        r == (match outcome {
            Ok(()) => Msg::Done(success),
            Err(e) => Msg::Failed(e),
        }),
{
    match outcome {
        Ok(()) => Msg::Done(success),
        Err(e) => Msg::Failed(e),
    }
}

/// Whether dex refused because of unfinished subtasks.
pub open spec fn names_subtasks(error: Seq<char>) -> bool {
    occurs(lower(error), "subtask"@)
}

/// What a completion that has been tried is answered with.
///
/// dex refuses to complete a task with unfinished subtasks unless forced. That
/// specific rejection is told apart, so the retry can be offered rather than
/// making the user retype the result.
pub fn completed(id: String, result: String, outcome: Result<(), String>) -> (r: Msg)
    ensures
        match outcome {
            Ok(()) => r is Done && r->Done_0@ == "completed"@,
            Err(error) => if names_subtasks(error@) {
                r == (Msg::CompleteRejected { id, result, error })
            } else {
                r == Msg::Failed(error)
            },
        },
{
    match outcome {
        Ok(()) => Msg::Done("completed".to_owned()),
        Err(error) => if contains(lowercase(error.as_str()).as_str(), "subtask") {
            Msg::CompleteRejected { id, result, error }
        } else {
            Msg::Failed(error)
        },
    }
}

/// A line break as a space.
pub open spec fn unbroken(c: char) -> char {
    if c == '\n' || c == '\r' {
        ' '
    } else {
        c
    }
}

/// A text on one line, without the space around it.
pub open spec fn on_one_line(s: Seq<char>) -> Seq<char> {
    trimmed(s.map_values(|c: char| unbroken(c)))
}

/// A text on one line, without the space around it.
pub fn flatten(s: &str) -> (r: String)
    ensures
        r@ == on_one_line(s@),
{
    let v = to_chars(s);
    let ghost want = s@.map_values(|c: char| unbroken(c));
    let mut out = String::new();
    assert(out@ =~= want.take(0));
    for i in 0..v.len()
        invariant
            v@ == s@,
            want == s@.map_values(|c: char| unbroken(c)),
            out@ == want.take(i as int),
    {
        let c = v[i];
        out.push(
            if c == '\n' || c == '\r' {
                ' '
            } else {
                c
            },
        );
        assert(want.take(i + 1) =~= want.take(i as int).push(want[i as int]));
    }
    assert(want.take(want.len() as int) =~= want);
    trim(out.as_str()).to_owned()
}

/// What the log says of a listing.
pub open spec fn listing_line(store: Seq<char>, result: Result<nat, Seq<char>>, ms: nat) -> Seq<
    char,
> {
    match result {
        Ok(n) => "list "@ + store + " - "@ + decimal_of(n) + " tasks "@ + decimal_of(ms) + "ms"@,
        Err(e) => "list "@ + store + " failed after "@ + decimal_of(ms) + "ms: "@ + on_one_line(e),
    }
}

/// One log line per listing, in the one format every call site shares -- so the
/// file stays greppable by store regardless of which path issued the call.
pub fn list_line(store: &str, result: &Result<Vec<Task>, String>, ms: u64) -> (r: String)
    ensures
        r@ == listing_line(
            store@,
            (match *result {
                Ok(tasks) => Ok(tasks@.len()),
                Err(e) => Err(e@),
            }),
            ms as nat,
        ),
{
    let mut out = concat("list ", store);
    match result {
        Ok(tasks) => {
            out.append(" - ");
            out.append(decimal(tasks.len() as u64).as_str());
            out.append(" tasks ");
            out.append(decimal(ms).as_str());
            out.append("ms");
        },
        Err(e) => {
            out.append(" failed after ");
            out.append(decimal(ms).as_str());
            out.append("ms: ");
            out.append(flatten(e.as_str()).as_str());
        },
    }
    out
}

/// A flattened text has no line break in it.
pub proof fn law_flattened_text_is_one_line(s: Seq<char>, i: int)
    requires
        0 <= i < on_one_line(s).len(),
    ensures
        on_one_line(s)[i] != '\n' && on_one_line(s)[i] != '\r',
{
    let m = s.map_values(|c: char| unbroken(c));
    lemma_trim_start_part(m);
    lemma_trim_end_part(crate::text::trim_start(m));
    let a = crate::text::trim_start(m);
    assert(on_one_line(s)[i] == a[i]);
    let k = m.len() - a.len();
    assert(a[i] == m[k + i]);
}

proof fn lemma_trim_start_part(s: Seq<char>)
    ensures
        crate::text::trim_start(s).len() <= s.len(),
        crate::text::trim_start(s) == s.skip(s.len() - crate::text::trim_start(s).len()),
    decreases s.len(),
{
    if s.len() > 0 && crate::text::is_space(s[0]) {
        let t = s.drop_first();
        lemma_trim_start_part(t);
        let n = t.len() - crate::text::trim_start(t).len();
        assert(t.skip(n) =~= s.skip(n + 1));
    } else {
        assert(s.skip(0) =~= s);
    }
}

proof fn lemma_trim_end_part(s: Seq<char>)
    ensures
        crate::text::trim_end(s).len() <= s.len(),
        crate::text::trim_end(s) == s.take(crate::text::trim_end(s).len() as int),
    decreases s.len(),
{
    if s.len() > 0 && crate::text::is_space(s.last()) {
        let t = s.drop_last();
        lemma_trim_end_part(t);
        let n = crate::text::trim_end(t).len() as int;
        assert(t.take(n) =~= s.take(n));
    } else {
        assert(s.take(s.len() as int) =~= s);
    }
}

/// Flattening changes line breaks into spaces and takes the space off both ends,
/// and touches nothing else: a text without breaks or space around it is itself.
pub proof fn law_flattening_only_mends_breaks(s: Seq<char>)
    ensures
        (forall|i: int| 0 <= i < s.len() ==> #[trigger] s[i] != '\n' && s[i] != '\r')
            ==> on_one_line(s) == trimmed(s),
        forall|i: int|
            0 <= i < on_one_line(s).len() ==> #[trigger] on_one_line(s)[i] != '\n' && on_one_line(
                s,
            )[i] != '\r',
        exists|a: int| #[trigger] kept_from(s, on_one_line(s), a),
{
    let m = s.map_values(|c: char| unbroken(c));
    law_trimming_takes_space_off_the_ends(m);
    let (a, b) = choose|a: int, b: int|
        #![trigger m.subrange(a, b)]
        {
            &&& 0 <= a <= b <= m.len()
            &&& trimmed(m) == m.subrange(a, b)
            &&& forall|i: int| 0 <= i < a || b <= i < m.len() ==> is_space(#[trigger] m[i])
        };
    assert(kept_from(s, on_one_line(s), a));
    if forall|i: int| 0 <= i < s.len() ==> #[trigger] s[i] != '\n' && s[i] != '\r' {
        assert(m =~= s);
    }
}

/// Whether a text is part of another from a place on, but for line breaks that
/// have become spaces.
pub open spec fn kept_from(s: Seq<char>, part: Seq<char>, a: int) -> bool {
    &&& 0 <= a
    &&& a + part.len() <= s.len()
    &&& forall|i: int|
        0 <= i < part.len() ==> #[trigger] part[i] == (if s[a + i] == '\n' || s[a + i] == '\r' {
            ' '
        } else {
            s[a + i]
        })
}

/// Each change is told to dex as what it is: the arguments are those of its own
/// verb, about its own task, and a failure is called after it.
pub proof fn law_each_change_is_told_as_itself(
    id: Seq<char>,
    name: Option<Seq<char>>,
    description: Option<Seq<char>>,
    text: Seq<char>,
    result: Seq<char>,
    parent: Option<Seq<char>>,
    force: bool,
)
    ensures
        verb_args(VerbView::Start { id }) == start_args(id),
        verb_args(VerbView::Delete { id }) == delete_args(id),
        verb_args(VerbView::Complete { id, result, force }) == complete_args(id, result, force),
        verb_args(VerbView::Edit { id, name, description }) == edit_args(id, name, description),
        verb_args(VerbView::Create { name: text, description: result, parent }) == create_args(
            text,
            result,
            parent,
        ),
        verb_label(VerbView::Start { id }) == "dex "@ + start_args(id)[0],
        verb_label(VerbView::Delete { id }) == "dex "@ + delete_args(id)[0],
        verb_label(VerbView::Complete { id, result, force }) == "dex "@ + complete_args(
            id,
            result,
            force,
        )[0],
        verb_label(VerbView::Edit { id, name, description }) == "dex "@ + edit_args(
            id,
            name,
            description,
        )[0],
        verb_label(VerbView::Create { name: text, description: result, parent }) == "dex "@
            + create_args(text, result, parent)[0],
{
    reveal_strlit("dex ");
    reveal_strlit("start");
    reveal_strlit("delete");
    reveal_strlit("complete");
    reveal_strlit("edit");
    reveal_strlit("create");
    reveal_strlit("dex start");
    reveal_strlit("dex delete");
    reveal_strlit("dex complete");
    reveal_strlit("dex edit");
    reveal_strlit("dex create");
    law_an_edit_changes_what_it_was_given(id, name, description);
    law_a_new_task_is_what_was_typed(text, result, parent);
    assert("dex start"@ =~= "dex "@ + "start"@);
    assert("dex delete"@ =~= "dex "@ + "delete"@);
    assert("dex complete"@ =~= "dex "@ + "complete"@);
    assert("dex edit"@ =~= "dex "@ + "edit"@);
    assert("dex create"@ =~= "dex "@ + "create"@);
}

/// A completion is offered by force exactly when dex's refusal speaks of a
/// subtask, in whatever case.
pub proof fn law_a_refusal_over_subtasks_is_told_apart(before: Seq<char>, after: Seq<char>)
    requires
        crate::text::all_ascii(before),
        crate::text::all_ascii(after),
    ensures
        names_subtasks(before + "subtask"@ + after),
        names_subtasks(before + "Subtask"@ + after),
        names_subtasks(before + "SUBTASK"@ + after),
{
    reveal_strlit("subtask");
    reveal_strlit("Subtask");
    reveal_strlit("SUBTASK");
    lemma_speaks_of_subtasks(before, "subtask"@, after);
    lemma_speaks_of_subtasks(before, "Subtask"@, after);
    lemma_speaks_of_subtasks(before, "SUBTASK"@, after);
}

proof fn lemma_speaks_of_subtasks(before: Seq<char>, word: Seq<char>, after: Seq<char>)
    requires
        crate::text::all_ascii(before),
        crate::text::all_ascii(after),
        word.len() == 7,
        forall|i: int| 0 <= i < 7 ==> (#[trigger] word[i] as u32) < 128,
        crate::text::ascii_lowercased(word) =~= "subtask"@,
    ensures
        names_subtasks(before + word + after),
{
    reveal_strlit("subtask");
    let s = before + word + after;
    assert(crate::text::all_ascii(s)) by {
        assert forall|i: int| 0 <= i < s.len() implies (#[trigger] s[i] as u32) < 128 by {
            if i < before.len() {
                assert(s[i] == before[i]);
            } else if i < before.len() + 7 {
                assert(s[i] == word[i - before.len()]);
            } else {
                assert(s[i] == after[i - before.len() - 7]);
            }
        }
    }
    let n = before.len() as int;
    assert(lower(s).subrange(n, n + 7) =~= crate::text::ascii_lowercased(word));
    assert(crate::text::stands_at(lower(s), "subtask"@, n));
}

/// The log says of each reading of a store how many tasks came and how long it
/// took, or what went wrong, on one line.
pub proof fn law_a_reading_is_logged_with_what_came(store: Seq<char>, n: nat, ms: nat, e: Seq<char>)
    ensures
        listing_line(store, Ok(n), ms) == "list "@ + store + " - "@ + decimal_of(n) + " tasks "@
            + decimal_of(ms) + "ms"@,
        crate::text::starts(listing_line(store, Err(e), ms), "list "@ + store),
        crate::text::ends(listing_line(store, Err(e), ms), on_one_line(e)),
{
    let head = "list "@ + store;
    let line = listing_line(store, Err(e), ms);
    assert(line.subrange(0, head.len() as int) =~= head);
    let tail = on_one_line(e);
    assert(line.subrange(line.len() - tail.len(), line.len() as int) =~= tail);
}

} // verus!
