use std::collections::BTreeMap;

use zj_prompt_jumper::config::{
    build_matcher, direction_from_msg, matcher_from_prefix_list, parse_prompt_prefixes,
    PipeMessage,
};
use zj_prompt_jumper::scan::JumpDir;

fn cfg(pairs: &[(&str, &str)]) -> BTreeMap<String, String> {
    pairs
        .iter()
        .map(|(k, v)| ((*k).to_string(), (*v).to_string()))
        .collect()
}

fn pipe(name: &str, payload: Option<&str>) -> PipeMessage {
    PipeMessage {
        name: name.to_string(),
        payload: payload.map(String::from),
    }
}

#[test]
fn build_matcher_defaults_when_empty() {
    let m = build_matcher(&BTreeMap::new());
    assert!(m.is_prompt_line("❯ ls"));
    assert!(!m.is_prompt_line("$ ls"));
}

#[test]
fn build_matcher_parses_comma_list() {
    let m = build_matcher(&cfg(&[("prompt_prefixes", "$ , % , > ")]));
    assert!(m.is_prompt_line("$ ls"));
    assert!(m.is_prompt_line("% pwd"));
    assert!(m.is_prompt_line("> hi"));
    assert!(!m.is_prompt_line("❯ ls"));
}

#[test]
fn build_matcher_preserves_trailing_space_in_entry() {
    let m = build_matcher(&cfg(&[("prompt_prefixes", "❯ ")]));
    assert!(m.is_prompt_line("❯ ls"));
    assert!(!m.is_prompt_line("❯ls"));
}

#[test]
fn build_matcher_drops_empty_entries() {
    let m = build_matcher(&cfg(&[("prompt_prefixes", ",$ ,,% ,")]));
    assert!(m.is_prompt_line("$ ls"));
    assert!(m.is_prompt_line("% pwd"));
    assert!(!m.is_prompt_line("plain text"));
}

#[test]
fn build_matcher_missing_key_uses_default() {
    let m = build_matcher(&cfg(&[("unrelated", "x")]));
    assert!(m.is_prompt_line("❯ ls"));
}

#[test]
fn direction_from_payload_wins() {
    assert_eq!(
        direction_from_msg(&pipe("jump", Some("prev"))),
        Some(JumpDir::Prev)
    );
    assert_eq!(
        direction_from_msg(&pipe("jump", Some("NEXT"))),
        Some(JumpDir::Next)
    );
}

#[test]
fn direction_falls_back_to_name() {
    assert_eq!(direction_from_msg(&pipe("prev", None)), Some(JumpDir::Prev));
    assert_eq!(direction_from_msg(&pipe("next", None)), Some(JumpDir::Next));
}

#[test]
fn direction_name_is_used_when_payload_is_garbage() {
    assert_eq!(
        direction_from_msg(&pipe("next", Some("blarg"))),
        Some(JumpDir::Next)
    );
}

#[test]
fn direction_none_when_unrecognized() {
    assert_eq!(
        direction_from_msg(&pipe("anything", Some("sideways"))),
        None
    );
}

#[test]
fn parse_prompt_prefixes_splits_and_cleans() {
    assert_eq!(
        parse_prompt_prefixes("$ , % , > "),
        vec!["$ ".to_string(), "% ".to_string(), "> ".to_string()]
    );
    assert_eq!(
        parse_prompt_prefixes(",$ ,,% ,"),
        vec!["$ ".to_string(), "% ".to_string()]
    );
    assert_eq!(parse_prompt_prefixes(""), Vec::<String>::new());
    assert_eq!(parse_prompt_prefixes(" , ,\t,"), Vec::<String>::new());
    assert_eq!(parse_prompt_prefixes("a b "), vec!["a b ".to_string()]);
}

#[test]
fn only_commas_fall_back_to_default() {
    let m = matcher_from_prefix_list(",,,");
    assert!(m.is_prompt_line("❯ ls"));
    assert!(!m.is_prompt_line("plain"));
}

#[test]
fn payload_wins_over_name_when_both_valid() {
    assert_eq!(
        direction_from_msg(&pipe("next", Some("up"))),
        Some(JumpDir::Prev)
    );
}
