use zj_prompt_jumper::plugin::{
    plan_jump, scroll_plan, PermissionState, PipeGate, ScrollDir, ScrollPlan, MAX_PENDING_PIPES,
    MAX_SCROLL_STEPS,
};
use zj_prompt_jumper::scan::{JumpDir, PromptMatcher};

fn s(v: &[&str]) -> Vec<String> {
    v.iter().map(|x| x.to_string()).collect()
}

#[test]
fn gate_buffers_then_releases_in_order() {
    let mut g: PipeGate<u32> = PipeGate::new();
    assert_eq!(g.permissions(), PermissionState::Pending);
    assert_eq!(g.on_pipe(1), None);
    assert_eq!(g.on_pipe(2), None);
    assert_eq!(g.on_permission_result(true), vec![1, 2]);
    assert_eq!(g.permissions(), PermissionState::Granted);
    assert_eq!(g.on_pipe(3), Some(3));
}

#[test]
fn gate_keeps_most_recent_while_pending() {
    let mut g: PipeGate<usize> = PipeGate::new();
    for i in 0..(MAX_PENDING_PIPES + 3) {
        assert_eq!(g.on_pipe(i), None);
    }
    let released = g.on_permission_result(true);
    assert_eq!(released, (3..(MAX_PENDING_PIPES + 3)).collect::<Vec<_>>());
}

#[test]
fn gate_denial_drops_everything() {
    let mut g: PipeGate<u32> = PipeGate::new();
    assert_eq!(g.on_pipe(1), None);
    assert_eq!(g.on_permission_result(false), Vec::<u32>::new());
    assert_eq!(g.permissions(), PermissionState::Denied);
    assert_eq!(g.on_pipe(2), None);
    assert_eq!(g.on_pipe(3), None);
}

#[test]
fn scroll_plan_directions_and_cap() {
    assert_eq!(scroll_plan(10, 4), ScrollPlan { dir: ScrollDir::Up, steps: 6 });
    assert_eq!(scroll_plan(4, 10), ScrollPlan { dir: ScrollDir::Down, steps: 6 });
    assert_eq!(scroll_plan(7, 7), ScrollPlan { dir: ScrollDir::Down, steps: 0 });
    assert_eq!(
        scroll_plan(0, MAX_SCROLL_STEPS + 10),
        ScrollPlan { dir: ScrollDir::Down, steps: MAX_SCROLL_STEPS }
    );
    assert_eq!(
        scroll_plan(MAX_SCROLL_STEPS + 10, 0),
        ScrollPlan { dir: ScrollDir::Up, steps: MAX_SCROLL_STEPS }
    );
}

#[test]
fn plan_jump_over_scrollback() {
    let m = PromptMatcher::default_p10k();
    let above = s(&["❯ one", "out", "❯ two", "out"]);
    let viewport = s(&["out", "❯ three"]);
    let below = s(&["out", "❯ four"]);
    // The viewport top is row 4.
    assert_eq!(
        plan_jump(&m, above.clone(), viewport.clone(), below.clone(), JumpDir::Prev),
        Some(ScrollPlan { dir: ScrollDir::Up, steps: 2 })
    );
    assert_eq!(
        plan_jump(&m, above, viewport, below, JumpDir::Next),
        Some(ScrollPlan { dir: ScrollDir::Down, steps: 1 })
    );
}

#[test]
fn plan_jump_without_candidate_is_none() {
    let m = PromptMatcher::default_p10k();
    assert_eq!(
        plan_jump(&m, Vec::new(), s(&["out", "❯ x"]), Vec::new(), JumpDir::Prev),
        None
    );
    assert_eq!(
        plan_jump(&m, s(&["❯ x"]), s(&["out"]), Vec::new(), JumpDir::Next),
        None
    );
}

#[test]
fn gate_denial_is_terminal() {
    let mut g: PipeGate<u32> = PipeGate::new();
    assert_eq!(g.on_permission_result(false), Vec::<u32>::new());
    assert_eq!(g.on_pipe(1), None);
    assert_eq!(g.on_permission_result(true), Vec::<u32>::new());
    assert_eq!(g.permissions(), PermissionState::Denied);
    assert_eq!(g.on_pipe(2), None);
}

#[test]
fn gate_grant_then_denial_drops_later_messages() {
    let mut g: PipeGate<u32> = PipeGate::new();
    assert_eq!(g.on_permission_result(true), Vec::<u32>::new());
    assert_eq!(g.on_pipe(1), Some(1));
    assert_eq!(g.on_permission_result(false), Vec::<u32>::new());
    assert_eq!(g.permissions(), PermissionState::Denied);
    assert_eq!(g.on_pipe(2), None);
}
