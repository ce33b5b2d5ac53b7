//! Handing a description to an editor.

use dextui::editor::{edited, editor_command, outcome, scratch_path, Ended};

#[test]
fn visual_wins_over_editor() {
    let env = (Some("hx"), Some("vim"));
    assert_eq!(editor_command(env.0, env.1).0, "hx");
}

#[test]
fn editor_is_used_when_visual_is_unset() {
    let env = (None, Some("vim"));
    assert_eq!(editor_command(env.0, env.1).0, "vim");
}

#[test]
fn falls_back_to_vi_when_neither_is_set() {
    let env = (None, None);
    assert_eq!(editor_command(env.0, env.1).0, "vi");
}

#[test]
fn an_empty_or_blank_value_is_ignored() {
    // An exported-but-empty EDITOR is common and must not shadow the default.
    {
        let env = (Some("   "), Some(""));
        assert_eq!(editor_command(env.0, env.1).0, "vi");
    }
}

#[test]
fn arguments_are_split_rather_than_shelled_out() {
    // `code -w` must run code with -w, not a shell string.
    {
        let env = (None, Some("code -w --new-window"));
        let (program, args) = editor_command(env.0, env.1);
        assert_eq!(program, "code");
        assert_eq!(args, vec!["-w", "--new-window"]);
    }
}

#[test]
fn the_scratch_file_is_markdown_and_names_the_task() {
    let name = scratch_path(42, "abc123");
    assert!(name.ends_with(".md"), "{name}");
    assert!(name.contains("abc123"), "{name}");
}

#[test]
fn the_scratch_file_names_the_process_too() {
    assert_eq!(scratch_path(4294967295, "abc"), "dextui-4294967295-abc.md");
    assert_eq!(scratch_path(0, ""), "dextui-0-.md");
}

/// Editors habitually add a trailing newline; that alone is not an edit.
#[test]
fn only_a_real_edit_is_written_back() {
    assert_eq!(outcome("one\ntwo", "one\ntwo\n"), None);
    assert_eq!(outcome("one\ntwo\n\n", "one\ntwo"), None);
    assert_eq!(outcome("one", "one more\n\n"), Some("one more".to_string()));
    assert_eq!(outcome("one", ""), Some(String::new()));
}

#[test]
fn a_description_is_left_alone_unless_the_editor_succeeded() {
    assert_eq!(
        edited("vi", "a", Ended::Saved("b\n".into())),
        Ok(Some("b".to_string()))
    );
    assert_eq!(
        edited("vi", "a", Ended::Saved("a\n".into())),
        Ok(None)
    );
    assert_eq!(
        edited("vi", "a", Ended::Exited("exit status: 1".into())),
        Err("vi exited with exit status: 1; description left unchanged".to_string())
    );
    assert_eq!(
        edited("vi", "a", Ended::NotRun("no such file".into())),
        Err("could not run vi: no such file".to_string())
    );
}
