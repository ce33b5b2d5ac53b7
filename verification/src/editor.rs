//! Hands a task description to `$EDITOR`.
//!
//! The in-app prompt is a single-line field, which cannot honestly edit a
//! multi-line description: it showed only the first line while the cursor sat at
//! the end of the last, so typing appended to text you could not see.

use vstd::prelude::*;

use crate::text::{
    concat, concat3, decimal, decimal_of, same, texts, trim, trim_end_matches, trim_end_of, trimmed,
    words, words_of,
};

verus! {

/// A variable's value, where it says anything.
pub open spec fn spoken(v: Option<&str>) -> bool {
    v is Some && trimmed(v->0@).len() > 0
}

/// The command line to run: `$VISUAL`, then `$EDITOR`, then `vi`. A value may
/// carry arguments, so it is split into words rather than executed whole.
pub open spec fn editor_words(visual: Option<&str>, editor: Option<&str>) -> Seq<Seq<char>> {
    if spoken(visual) {
        words_of(visual->0@)
    } else if spoken(editor) {
        words_of(editor->0@)
    } else {
        seq!["vi"@]
    }
}

proof fn lemma_blank_has_no_words(s: Seq<char>)
    ensures
        trimmed(s).len() > 0 ==> words_of(s).len() > 0,
    decreases s.len(),
{
    if s.len() > 0 {
        if crate::text::is_space(s[0]) {
            lemma_blank_has_no_words(s.drop_first());
        } else {
            lemma_first_word(s);
        }
    }
}

proof fn lemma_first_word(s: Seq<char>)
    requires
        s.len() > 0,
        !crate::text::is_space(s[0]),
    ensures
        0 < crate::text::find_space(s) <= s.len(),
    decreases s.len(),
{
    let t = s.drop_first();
    if t.len() > 0 && !crate::text::is_space(t[0]) {
        lemma_first_word(t);
    } else {
        assert(crate::text::find_space(t) == 0);
    }
}

/// `$VISUAL`, then `$EDITOR`, then `vi`, given the two values.
///
/// The value may carry arguments (`code -w`, `emacsclient -nw`), so it is split
/// rather than executed whole; running it through a shell would break on paths
/// containing spaces and invite quoting bugs.
pub fn editor_command(visual: Option<&str>, editor: Option<&str>) -> (r: (String, Vec<String>))
    ensures
        seq![r.0@] + texts(r.1@) == editor_words(visual, editor),
{
    let chosen: Option<&str> = match visual {
        Some(v) if trim(v).unicode_len() > 0 => Some(v),
        _ => match editor {
            Some(e) if trim(e).unicode_len() > 0 => Some(e),
            _ => None,
        },
    };
    match chosen {
        Some(line) => {
            let mut parts = words(line);
            proof {
                lemma_blank_has_no_words(line@);
                assert(texts(parts@).len() == parts@.len());
            }
            let ghost all = parts@;
            let program = parts.remove(0);
            assert(seq![program@] + texts(parts@) =~= texts(all));
            (program, parts)
        },
        None => {
            let r = ("vi".to_string(), Vec::new());
            assert(seq!["vi"@] + texts(r.1@) =~= seq!["vi"@]);
            r
        },
    }
}

/// The name of the file a description is edited in. `.md` so editors apply
/// markdown highlighting; descriptions usually are.
pub open spec fn scratch_name_of(process: nat, task_id: Seq<char>) -> Seq<char> {
    "dextui-"@ + decimal_of(process) + "-"@ + task_id + ".md"@
}

/// The name of the file a description is edited in, given this process's id.
pub fn scratch_path(process: u32, task_id: &str) -> (r: String)
    ensures
        r@ == scratch_name_of(process as nat, task_id@),
{
    let mut out = concat("dextui-", decimal(process as u64).as_str());
    out.append("-");
    out.append(task_id);
    out.append(".md");
    out
}

/// What an edit comes to: nothing where only trailing newlines differ.
pub open spec fn edit_of(initial: Seq<char>, edited: Seq<char>) -> Option<Seq<char>> {
    if trim_end_of(edited, '\n') == trim_end_of(initial, '\n') {
        None
    } else {
        Some(trim_end_of(edited, '\n'))
    }
}

/// What came back from the editor, or `None` when the text is unchanged, so the
/// caller can skip the write entirely rather than bumping `updated_at` for
/// nothing. Editors habitually add a trailing newline; that alone is not an
/// edit.
pub fn outcome(initial: &str, edited: &str) -> (r: Option<String>)
    ensures
        crate::text::opt_text(r) == edit_of(initial@, edited@),
{
    let text = trim_end_matches(edited, '\n');
    if same(text, trim_end_matches(initial, '\n')) {
        None
    } else {
        Some(text.to_owned())
    }
}

/// How a run of the editor ended.
#[derive(Debug)]
pub enum Ended {
    /// It succeeded, and this is what the file holds now.
    Saved(String),
    /// It exited with this status instead of succeeding.
    Exited(String),
    /// It could not be run at all.
    NotRun(String),
}

/// What a run of the editor comes to: the edit, if there was one. A description
/// is left alone unless the editor succeeded.
pub fn edited(program: &str, initial: &str, ended: Ended) -> (r: Result<Option<String>, String>)
    ensures
        match ended {
            Ended::Saved(text) => r is Ok && crate::text::opt_text(r->Ok_0) == edit_of(
                initial@,
                text@,
            ),
            Ended::Exited(status) => r is Err && r->Err_0@ == program@ + " exited with "@ + status@
                + "; description left unchanged"@,
            Ended::NotRun(e) => r is Err && r->Err_0@ == "could not run "@ + program@ + ": "@ + e@,
        },
{
    match ended {
        Ended::Saved(text) => Ok(outcome(initial, text.as_str())),
        Ended::Exited(status) => {
            let mut out = concat3(program, " exited with ", status.as_str());
            out.append("; description left unchanged");
            Err(out)
        },
        Ended::NotRun(e) => {
            let mut out = concat3("could not run ", program, ": ");
            out.append(e.as_str());
            Err(out)
        },
    }
}

/// An editor that only adds newlines at the end has edited nothing.
pub proof fn law_a_trailing_newline_is_no_edit(initial: Seq<char>)
    ensures
        edit_of(initial, initial) is None,
        edit_of(initial, initial.push('\n')) is None,
{
    assert(initial.push('\n').drop_last() =~= initial);
}

/// The first variable that says anything names the editor, and what follows its
/// first word are arguments; where neither does it is `vi`, alone.
pub proof fn law_the_editor_is_the_first_one_named(visual: Option<&str>, editor: Option<&str>)
    ensures
        ({
            let says = |v: Option<&str>|
                v is Some && exists|i: int|
                    0 <= i < v->0@.len() && !crate::text::is_space(#[trigger] v->0@[i]);
            &&& says(visual) ==> editor_words(visual, editor) == words_of(visual->0@)
            &&& !says(visual) && says(editor) ==> editor_words(visual, editor) == words_of(
                editor->0@,
            )
            &&& !says(visual) && !says(editor) ==> editor_words(visual, editor) == seq!["vi"@]
        }),
{
    if visual is Some {
        crate::text::law_nothing_is_left_of_blank_text(visual->0@);
    }
    if editor is Some {
        crate::text::law_nothing_is_left_of_blank_text(editor->0@);
    }
}

/// An edit is what the editor saved, but for newlines at the end; and there is
/// one whenever anything else differs.
pub proof fn law_an_edit_is_what_was_saved(initial: Seq<char>, edited: Seq<char>)
    ensures
        edit_of(initial, edited) matches Some(t) ==> {
            &&& t.len() <= edited.len() && t == edited.take(t.len() as int)
            &&& forall|i: int| t.len() <= i < edited.len() ==> #[trigger] edited[i] == '\n'
            &&& t.len() > 0 ==> t.last() != '\n'
        },
        edited.len() > 0 && edited.last() != '\n' && initial.len() > 0 && initial.last() != '\n'
            && edited != initial ==> edit_of(initial, edited) == Some(edited),
        edited == initial ==> edit_of(initial, edited) is None,
{
    crate::text::law_a_trailing_run_is_taken_off_whole(edited, '\n');
    crate::text::law_a_trailing_run_is_taken_off_whole(initial, '\n');
}

/// A scratch file is markdown, and one process never gives two tasks the same.
pub proof fn law_each_task_has_its_scratch_file(process: nat, a: Seq<char>, b: Seq<char>)
    ensures
        crate::text::ends(scratch_name_of(process, a), a + ".md"@),
        crate::text::starts(scratch_name_of(process, a), "dextui-"@ + decimal_of(process)),
        a != b ==> scratch_name_of(process, a) != scratch_name_of(process, b),
{
    reveal_strlit(".md");
    let head = "dextui-"@ + decimal_of(process) + "-"@;
    let (x, y) = (scratch_name_of(process, a), scratch_name_of(process, b));
    assert(x.subrange(x.len() - a.len() - 3, x.len() as int) =~= a + ".md"@);
    let front = "dextui-"@ + decimal_of(process);
    assert(x.subrange(0, front.len() as int) =~= front);
    if x == y {
        assert(a =~= x.subrange(head.len() as int, x.len() - 3));
        assert(b =~= y.subrange(head.len() as int, y.len() - 3));
    }
}

} // verus!
