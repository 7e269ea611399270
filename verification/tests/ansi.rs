use zj_prompt_jumper::ansi::strip_ansi;

#[test]
fn strips_sgr_color_codes() {
    let input = "\x1b[31mred\x1b[0m \x1b[1;32mgreen\x1b[0m";
    assert_eq!(strip_ansi(input), "red green");
}

#[test]
fn strips_csi_cursor_moves() {
    let input = "\x1b[2J\x1b[H\x1b[?25lhidden";
    assert_eq!(strip_ansi(input), "hidden");
}

#[test]
fn strips_osc_bel_terminated() {
    let input = "\x1b]0;window-title\x07visible";
    assert_eq!(strip_ansi(input), "visible");
}

#[test]
fn strips_osc_st_terminated() {
    let input = "\x1b]133;A\x1b\\\x1b[32m❯\x1b[0m prompt";
    assert_eq!(strip_ansi(input), "❯ prompt");
}

#[test]
fn strips_charset_designation() {
    // `ESC ( B` selects the US-ASCII charset; the final `B` must not
    // leak into the output ahead of the prompt prefix.
    assert_eq!(strip_ansi("\x1b(B❯ ls"), "❯ ls");
}

#[test]
fn strips_charset_designation_variants() {
    assert_eq!(strip_ansi("\x1b)0line"), "line");
    assert_eq!(strip_ansi("a\x1b(Bb\x1b)Ac"), "abc");
}

#[test]
fn truncated_charset_designation_does_not_leak() {
    assert_eq!(strip_ansi("abc\x1b("), "abc");
}

#[test]
fn preserves_unicode() {
    let input = "\x1b[34m❯\x1b[0m  some thing";
    assert_eq!(strip_ansi(input), "❯  some thing");
}

#[test]
fn preserves_tabs_and_newlines() {
    let input = "a\tb\nc";
    assert_eq!(strip_ansi(input), "a\tb\nc");
}

#[test]
fn empty_input() {
    assert_eq!(strip_ansi(""), "");
}

#[test]
fn no_escapes_passes_through() {
    assert_eq!(strip_ansi("plain text"), "plain text");
}

#[test]
fn truncated_csi_does_not_panic() {
    let input = "abc\x1b[";
    assert_eq!(strip_ansi(input), "abc");
}

#[test]
fn truncated_osc_does_not_panic() {
    let input = "abc\x1b]133;A";
    assert_eq!(strip_ansi(input), "abc");
}

#[test]
fn lone_escape_at_end() {
    let input = "abc\x1b";
    assert_eq!(strip_ansi(input), "abc\x1b");
}

#[test]
fn strip_is_idempotent_on_samples() {
    for input in [
        "\x1b[31mred\x1b[0m",
        "abc\x1b",
        "\x1b\x1bx",
        "\x1b]0;t\x07v\x1b(Bw",
        "a\x1b[",
    ] {
        let once = strip_ansi(input);
        assert_eq!(strip_ansi(&once), once);
    }
}

#[test]
fn generic_two_char_escape_is_dropped() {
    assert_eq!(strip_ansi("a\x1bMb"), "ab");
    assert_eq!(strip_ansi("\x1b\x1bx"), "x");
}

#[test]
fn csi_runs_to_first_final_byte() {
    // `@` (0x40) and `~` (0x7e) are the bounds of the final-byte range.
    assert_eq!(strip_ansi("\x1b[1@x"), "x");
    assert_eq!(strip_ansi("\x1b[3~y"), "y");
    assert_eq!(strip_ansi("\x1b[1;2;3?z"), "");
}

#[test]
fn osc_escape_without_backslash_does_not_end_it() {
    assert_eq!(strip_ansi("\x1b]x\x1bqy\x07z"), "z");
}

#[test]
fn stripped_text_is_never_longer() {
    let input = "\x1b[1mbold\x1b[0m and \x1b]0;t\x07plain";
    assert!(strip_ansi(input).chars().count() <= input.chars().count());
    assert_eq!(strip_ansi(input), "bold and plain");
}
