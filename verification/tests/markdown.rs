//! Descriptions as styled lines.

use ratatui::style::{Color, Modifier};
use tui_markdown::StyleSheet;

use dextui::markdown::{can_render, hard_break_soft_lines, render, Adaptive, Look, StyledLine};

#[test]
fn code_fences_are_never_touched() {
    // Trailing spaces inside code would be a real corruption.
    let src = "text\n```\nfn main() {\n    let x = 1;\n}\n```\nmore";
    let prepared = hard_break_soft_lines(src);

    assert!(prepared.contains("fn main() {\n"), "code line was modified");
    assert!(
        prepared.contains("    let x = 1;\n"),
        "indented code line was modified: {prepared:?}"
    );
    assert!(!prepared.contains("```  "), "fence delimiter was modified");
}

#[test]
fn blank_lines_are_left_alone() {
    let prepared = hard_break_soft_lines("a\n\nb");
    assert!(!prepared.contains("a  \n\n"), "break added before a blank line");
}

#[test]
fn a_line_already_ending_in_a_hard_break_is_not_doubled() {
    let prepared = hard_break_soft_lines("a  \nb");
    assert!(!prepared.contains("a    \n"), "break was applied twice");
}

#[test]
fn no_input_text_is_lost() {
    let src = "alpha\nbeta\n\n- item\n- another\n\n```\ncode\n```\ngamma";
    let prepared = hard_break_soft_lines(src);
    for word in ["alpha", "beta", "item", "another", "code", "gamma"] {
        assert!(prepared.contains(word), "{word} went missing");
    }
}

#[test]
fn line_count_is_preserved_by_the_preprocessing() {
    let src = "a\nb\n\nc\n```\nd\n```\ne";
    assert_eq!(
        hard_break_soft_lines(src).lines().count(),
        src.lines().count()
    );
}

#[test]
fn the_prepared_text_is_exact() {
    assert_eq!(hard_break_soft_lines("line one\nline two"), "line one  \nline two\n");
    assert_eq!(hard_break_soft_lines("a\n\nb"), "a\n\nb\n");
    assert_eq!(hard_break_soft_lines(""), "");
    assert_eq!(
        hard_break_soft_lines("a\r\nb\r\n  ```rust\nx\ny\n```\nc\nd"),
        "a  \nb  \n  ```rust\nx\ny\n```\nc  \nd\n"
    );
}

#[test]
fn headings_are_distinguished_without_relying_on_colour() {
    // Modifiers survive any terminal theme; a colour choice may not.
    let sheet = Adaptive;
    for level in 1..=3u8 {
        let s = sheet.heading(level);
        assert!(
            !s.add_modifier.is_empty(),
            "heading {level} has no modifier to distinguish it: {s:?}"
        );
        assert!(s.bg.is_none(), "heading {level} sets a background");
    }
}

#[test]
fn inline_code_has_no_fixed_black_block() {
    assert!(Adaptive.code().bg.is_none());
}

/// A style that sets a background but no foreground leaves the text in the
/// terminal's default colour, which is unreadable in one theme or the other.
#[test]
fn no_style_sets_a_background_without_a_foreground() {
    let sheet = Adaptive;
    for s in [
        sheet.heading(1),
        sheet.heading(2),
        sheet.heading(3),
        sheet.code(),
        sheet.link(),
        sheet.blockquote(),
        sheet.table_border(),
        sheet.table_header(),
    ] {
        assert!(s.bg.is_none() || s.fg.is_some(), "{s:?}");
    }
}

fn text_of(lines: &[StyledLine]) -> Vec<String> {
    lines.iter().map(|l| l.spans.iter().map(|s| s.content.as_str()).collect()).collect()
}

#[test]
fn consecutive_lines_stay_separate() {
    let out = text_of(&render("line one\nline two"));
    assert!(
        out.iter().any(|l| l.trim() == "line one"),
        "lines were joined: {out:?}"
    );
    assert!(out.iter().any(|l| l.trim() == "line two"), "{out:?}");
}

#[test]
fn tables_still_render_as_tables() {
    // The preprocessing must not disturb the construct it runs alongside.
    let out = text_of(&render("| a | b |\n|---|---|\n| 1 | 2 |"));
    let joined = out.join("\n");
    assert!(joined.contains('┌') && joined.contains('┼'), "{joined}");
}

/// A style that sets a background but no foreground leaves the text in the
/// terminal's default colour, which is unreadable against the background in
/// one theme or the other.
fn no_bare_background(style: ratatui::style::Style, what: &str) {
    if style.bg.is_some() {
        assert!(
            style.fg.is_some(),
            "{what} sets a background with no foreground: {style:?}"
        );
    }
}

#[test]
fn no_rendered_style_sets_a_background_without_a_foreground() {
    let src = "# H1\n\n## H2\n\n### H3\n\ntext with `code` in it\n\n\
               > a quote\n\n| a | b |\n|---|---|\n| 1 | 2 |\n\n\
               [link](https://example.com)\n";

    for line in render(src) {
        no_bare_background(line.style, "line");
        for span in &line.spans {
            no_bare_background(span.style, &format!("span {:?}", span.content));
        }
    }
}

/// The looks reach the renderer: depth by weight and decoration, code by colour.
#[test]
fn rendered_text_carries_the_looks() {
    let lines = render("# One\n\n### Three\n\nsome `code`\n\n> quoted");
    let find = |what: &str| {
        lines.iter().find(|l| l.spans.iter().any(|s| s.content.contains(what))).unwrap()
    };
    let one = find("One").style.add_modifier;
    assert_eq!(one, Modifier::BOLD | Modifier::UNDERLINED);
    assert_eq!(find("Three").style.add_modifier, Modifier::BOLD | Modifier::ITALIC);
    let code = find("code").spans.iter().find(|s| s.content == "code").unwrap();
    assert_eq!(code.style.fg, Some(Color::Cyan));
    assert_eq!(code.style.bg, None);
    let quote = find("quoted").style;
    assert_eq!((quote.fg, quote.add_modifier), (Some(Color::DarkGray), Modifier::ITALIC));
}

/// Fenced code keeps to the terminal's own colours, whatever the language.
#[test]
fn fenced_code_has_no_fixed_colours() {
    for line in render("```rust\nfn main() {}\n```") {
        let styles = line.spans.iter().map(|s| s.style).chain([line.style]);
        for style in styles {
            assert!(!matches!(style.fg, Some(Color::Rgb(..) | Color::Indexed(_))), "{style:?}");
            assert_eq!(style.bg, None);
        }
    }
}

/// The style sheet says what the looks say.
#[test]
fn the_sheet_wears_the_looks() {
    let bold = Look::table_header();
    assert!(bold.bold && bold.fg.is_none());
    assert_eq!(Adaptive.table_header().add_modifier, Modifier::BOLD);
    assert_eq!(Adaptive.table_border().fg, Some(Color::DarkGray));
    assert_eq!(Adaptive.link().add_modifier, Modifier::UNDERLINED);
    assert_eq!(Adaptive.link().fg, None);
    assert_eq!(Adaptive.code().fg, Some(Color::Cyan));
    assert_eq!(Look::heading(2).style().add_modifier, Modifier::BOLD);
}

/// Long texts and long lines are fine; thousands of list levels are not.
#[test]
fn only_absurdly_deep_lists_cannot_be_rendered() {
    assert!(can_render(""));
    assert!(can_render(&"- one\n".repeat(20000)));
    assert!(can_render(&"x".repeat(100000)));
    assert!(can_render(&".".repeat(16400)), "no list opens here");
    assert!(can_render(&"and - so on. ".repeat(10000)));
    assert!(can_render(&"word ".repeat(100000)));
    assert!(!can_render(&"- ".repeat(16385)));
    assert!(!can_render(&" ".repeat(32765)));
    let deep = format!("{}1. x", "- ".repeat(500));
    assert!(can_render(&deep));
    assert!(text_of(&render(&deep)).iter().any(|l| l.contains("1. ")));
    let stops = render(&".".repeat(16400));
    assert_eq!(text_of(&stops)[0].len(), 16400);
}

/// As deep as can be: every list an ordered one.
#[test]
fn the_deepest_list_that_is_let_through_is_rendered() {
    let levels = 2000;
    let text = "1. ".repeat(levels) + "x";
    assert!(can_render(&text));
    let lines = text_of(&render(&text));
    assert!(lines.last().unwrap().ends_with('x'));
}

/// Text that is nothing but words comes out line by line, as it was typed.
#[test]
fn words_come_out_line_by_line() {
    for text in ["", "hello", "one\ntwo words\nand  three\nA", "x\r\ny\r\n"] {
        let want: Vec<&str> = text.lines().collect();
        assert_eq!(text_of(&render(text)), want, "{text:?}");
    }
}
