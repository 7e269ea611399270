use zj_prompt_jumper::scan::{pick_target, JumpDir, PromptMatcher};

fn s(v: &[&str]) -> Vec<String> {
    v.iter().map(|x| x.to_string()).collect()
}

#[test]
fn default_matcher_uses_p10k_chars() {
    let m = PromptMatcher::default_p10k();
    assert!(m.is_prompt_line("❯ ls -la"));
    assert!(m.is_prompt_line("❮ git status"));
    assert!(!m.is_prompt_line("$ ls"));
    assert!(!m.is_prompt_line("ls -la"));
}

#[test]
fn matcher_strips_sgr_before_check() {
    let m = PromptMatcher::default_p10k();
    assert!(m.is_prompt_line("\x1b[32m❯\x1b[0m hello"));
    assert!(m.is_prompt_line("\x1b[31m❯\x1b[0m \x1b[1mhello\x1b[0m"));
}

#[test]
fn matcher_with_custom_prefixes() {
    let m = PromptMatcher::new(vec!["$ ".into(), "% ".into()]);
    assert!(m.is_prompt_line("$ ls"));
    assert!(m.is_prompt_line("% pwd"));
    assert!(!m.is_prompt_line("❯ ls"));
}

#[test]
fn empty_prefix_list_falls_back_to_default() {
    let m = PromptMatcher::new(Vec::new());
    assert!(m.is_prompt_line("❯ ls"));
}

#[test]
fn matcher_does_not_match_substring() {
    let m = PromptMatcher::default_p10k();
    assert!(!m.is_prompt_line("see ❯ here"));
}

#[test]
fn prompt_rows_finds_all_hits() {
    let lines = s(&["❯ ls", "file1", "file2", "❯ cat file1", "contents", "❮ vim"]);
    let m = PromptMatcher::default_p10k();
    assert_eq!(m.prompt_rows(&lines), vec![0, 3, 5]);
}

#[test]
fn prompt_rows_ignores_substring_hits() {
    let lines = s(&["foo ❯ bar", "❯ real prompt"]);
    let m = PromptMatcher::default_p10k();
    assert_eq!(m.prompt_rows(&lines), vec![1]);
}

#[test]
fn prompt_rows_with_ansi_colored_prompt_char() {
    let lines = s(&["\x1b[32m❯\x1b[0m ls", "output", "\x1b[31m❯\x1b[0m grep foo"]);
    let m = PromptMatcher::default_p10k();
    assert_eq!(m.prompt_rows(&lines), vec![0, 2]);
}

#[test]
fn jumpdir_parses_aliases() {
    assert_eq!(JumpDir::from_payload("prev"), Some(JumpDir::Prev));
    assert_eq!(JumpDir::from_payload("PREV"), Some(JumpDir::Prev));
    assert_eq!(JumpDir::from_payload(" up "), Some(JumpDir::Prev));
    assert_eq!(JumpDir::from_payload("previous"), Some(JumpDir::Prev));
    assert_eq!(JumpDir::from_payload("next"), Some(JumpDir::Next));
    assert_eq!(JumpDir::from_payload("DOWN"), Some(JumpDir::Next));
    assert_eq!(JumpDir::from_payload("forward"), Some(JumpDir::Next));
    assert_eq!(JumpDir::from_payload("nope"), None);
    assert_eq!(JumpDir::from_payload(""), None);
}

#[test]
fn pick_target_prev_picks_closest_below() {
    let prompts = vec![2, 5, 12, 30];
    assert_eq!(pick_target(&prompts, 13, JumpDir::Prev), Some(12));
    assert_eq!(pick_target(&prompts, 30, JumpDir::Prev), Some(12));
    assert_eq!(pick_target(&prompts, 100, JumpDir::Prev), Some(30));
}

#[test]
fn pick_target_next_picks_closest_above() {
    let prompts = vec![2, 5, 12, 30];
    assert_eq!(pick_target(&prompts, 0, JumpDir::Next), Some(2));
    assert_eq!(pick_target(&prompts, 5, JumpDir::Next), Some(12));
    assert_eq!(pick_target(&prompts, 12, JumpDir::Next), Some(30));
}

#[test]
fn pick_target_prev_no_candidate_returns_none() {
    let prompts = vec![5, 10];
    assert_eq!(pick_target(&prompts, 5, JumpDir::Prev), None);
    assert_eq!(pick_target(&prompts, 0, JumpDir::Prev), None);
}

#[test]
fn pick_target_next_no_candidate_returns_none() {
    let prompts = vec![5, 10];
    assert_eq!(pick_target(&prompts, 10, JumpDir::Next), None);
    assert_eq!(pick_target(&prompts, 20, JumpDir::Next), None);
}

#[test]
fn pick_target_empty_prompts_returns_none() {
    let prompts: Vec<usize> = Vec::new();
    assert_eq!(pick_target(&prompts, 5, JumpDir::Prev), None);
    assert_eq!(pick_target(&prompts, 5, JumpDir::Next), None);
}

#[test]
fn pick_target_skips_prompt_at_current_top() {
    let prompts = vec![5, 10, 15];
    assert_eq!(pick_target(&prompts, 10, JumpDir::Prev), Some(5));
    assert_eq!(pick_target(&prompts, 10, JumpDir::Next), Some(15));
}

#[test]
fn jumpdir_remaining_aliases_and_padding() {
    assert_eq!(JumpDir::from_payload("back"), Some(JumpDir::Prev));
    assert_eq!(JumpDir::from_payload("Older"), Some(JumpDir::Prev));
    assert_eq!(JumpDir::from_payload("newer"), Some(JumpDir::Next));
    assert_eq!(JumpDir::from_payload("\t next\n"), Some(JumpDir::Next));
    // Unicode whitespace is trimmed as `str::trim` does.
    assert_eq!(JumpDir::from_payload("\u{3000}up\u{a0}"), Some(JumpDir::Prev));
    // Only ASCII letters are lower-cased; inner spaces are kept.
    assert_eq!(JumpDir::from_payload("n ext"), None);
    assert_eq!(JumpDir::from_payload("prevx"), None);
}

#[test]
fn default_trait_matches_p10k() {
    let m = PromptMatcher::default();
    assert!(m.is_prompt_line("❮ x"));
    assert!(!m.is_prompt_line("❯x"));
}

#[test]
fn empty_line_is_not_a_prompt() {
    let m = PromptMatcher::default_p10k();
    assert!(!m.is_prompt_line(""));
    assert!(!m.is_prompt_line("❯"));
}

#[test]
fn jump_over_scanned_rows_lands_on_nearest_prompt() {
    let lines = s(&["❯ a", "out", "❯ b", "out", "out", "❯ c", "out"]);
    let m = PromptMatcher::default_p10k();
    let rows = m.prompt_rows(&lines);
    assert_eq!(rows, vec![0, 2, 5]);
    assert_eq!(pick_target(&rows, 4, JumpDir::Prev), Some(2));
    assert_eq!(pick_target(&rows, 2, JumpDir::Prev), Some(0));
    assert_eq!(pick_target(&rows, 2, JumpDir::Next), Some(5));
    assert_eq!(pick_target(&rows, 5, JumpDir::Next), None);
}

#[test]
fn pick_target_on_unsorted_list_scans_from_the_end_for_prev() {
    // Prev takes the last listed row before the top, Next the first after it.
    let prompts = vec![3, 1, 9, 7];
    assert_eq!(pick_target(&prompts, 5, JumpDir::Prev), Some(1));
    assert_eq!(pick_target(&prompts, 5, JumpDir::Next), Some(9));
}
