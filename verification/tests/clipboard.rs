//! Copying to the clipboard.

use dextui::clipboard::{base64, copy_line, native_tool_from, osc52, Handed, Tool};

/// RFC 4648 section 10 test vectors, which cover every padding case.
#[test]
fn base64_matches_the_rfc_vectors() {
    let cases = [
        ("", ""),
        ("f", "Zg=="),
        ("fo", "Zm8="),
        ("foo", "Zm9v"),
        ("foob", "Zm9vYg=="),
        ("fooba", "Zm9vYmE="),
        ("foobar", "Zm9vYmFy"),
    ];
    for (input, want) in cases {
        assert_eq!(base64(input.as_bytes()), want, "input {input:?}");
    }
}

#[test]
fn base64_handles_high_bytes_and_multiline_text() {
    // "é\n" -- non-ASCII and a newline, both routine in a description.
    assert_eq!(base64("é\n".as_bytes()), "w6kK");
    assert_eq!(base64(&[0xff, 0xfe, 0xfd]), "//79");
}

/// The exact bytes, because a terminal that receives a malformed OSC 52
/// does nothing at all rather than complaining.
#[test]
fn osc52_is_esc_bracket_52_c_base64_bel() {
    assert_eq!(osc52("hi"), b"\x1b]52;c;aGk=\x07");
    assert_eq!(osc52(""), b"\x1b]52;c;\x07");
}

#[test]
fn the_first_native_tool_on_path_wins_and_none_means_none() {
    let candidates: Vec<Tool> = vec![
        Tool { name: "wl-copy", args: &[] },
        Tool { name: "xclip", args: &["-selection", "clipboard"] },
    ];
    let cmd = native_tool_from(&candidates, |name: &str| name == "xclip").unwrap();
    assert_eq!(cmd.name, "xclip");
    assert_eq!(cmd.args, ["-selection", "clipboard"]);

    let cmd = native_tool_from(&candidates, |_: &str| true).unwrap();
    assert_eq!(cmd.name, "wl-copy");

    assert!(native_tool_from(&candidates, |_: &str| false).is_none());
}

#[test]
fn the_candidates_follow_the_platform() {
    let mac = dextui::clipboard::candidates(true);
    assert_eq!(mac.len(), 1);
    assert_eq!(mac[0].name, "pbcopy");
    let linux = dextui::clipboard::candidates(false);
    let names: Vec<&str> = linux.iter().map(|t| t.name).collect();
    assert_eq!(names, ["wl-copy", "xclip", "xsel"]);
    assert_eq!(linux[2].args, ["--clipboard", "--input"]);
}

#[test]
fn each_way_a_copy_can_go_is_logged() {
    assert_eq!(copy_line(&Handed::NoTool, 12), "osc52 only, 12 bytes");
    assert_eq!(copy_line(&Handed::Took("xclip".into()), 3), "osc52 + xclip, 3 bytes");
    assert_eq!(
        copy_line(&Handed::Exited("xclip".into(), "exit status: 1".into()), 3),
        "xclip exited exit status: 1"
    );
    assert_eq!(
        copy_line(&Handed::Failed("xclip".into(), "gone".into()), 3),
        "xclip failed to run: gone"
    );
}
