//! The plugin's decisions, apart from the host calls that carry them out.
//!
//! * [`PipeGate`] is the permission lifecycle: while the permission request
//!   is pending, pipe messages are buffered (at most [`MAX_PENDING_PIPES`],
//!   keeping the most recent); a grant releases them in arrival order and
//!   lets later messages through at once; a denial is terminal and drops
//!   everything.
//! * [`plan_jump`] turns a pane's scrollback and a direction into the scroll
//!   the host has to perform, and [`scroll_plan`] caps a single jump at
//!   [`MAX_SCROLL_STEPS`] single-line scrolls.
use vstd::prelude::*;
use crate::scan::{
    is_prompt, jump_target, pick_target, prompt_rows_of, string_views, JumpDir, PromptMatcher,
};

verus! {

/// Upper bound on pipe messages buffered while the permission grant is
/// pending.
pub const MAX_PENDING_PIPES: usize = 8;

/// Hard cap on how many single-line scroll calls one jump issues.
pub const MAX_SCROLL_STEPS: usize = 50_000;

/// Lifecycle of the plugin's permission request.
#[derive(Debug, Clone, Copy, PartialEq, Eq, Structural)]
pub enum PermissionState {
    /// The request is out; no answer yet.
    Pending,
    /// The permissions were granted.
    Granted,
    /// The permissions were denied; this is terminal.
    Denied,
}

/// The last [`MAX_PENDING_PIPES`] entries of `s` (all of them when there are
/// no more).
pub open spec fn keep_most_recent<T>(s: Seq<T>) -> Seq<T> {
    if s.len() > MAX_PENDING_PIPES {
        s.skip(s.len() - MAX_PENDING_PIPES)
    } else {
        s
    }
}

/// Routes pipe messages according to the permission lifecycle.
pub struct PipeGate<T> {
    permissions: PermissionState,
    pending: Vec<T>,
}

impl<T> PipeGate<T> {
    /// The current permission state.
    pub closed spec fn state(&self) -> PermissionState {
        self.permissions
    }

    /// The buffered messages, oldest first.
    pub closed spec fn buffered(&self) -> Seq<T> {
        self.pending@
    }

    /// The buffer holds at most [`MAX_PENDING_PIPES`] messages, and only while
    /// the request is pending.
    #[verifier::type_invariant]
    spec fn bounded(self) -> bool {
        &&& self.pending@.len() <= MAX_PENDING_PIPES
        &&& self.permissions != PermissionState::Pending ==> self.pending@.len() == 0
    }

    /// The buffer holds at most [`MAX_PENDING_PIPES`] messages, and none once
    /// the request has been answered. Every gate keeps this.
    pub open spec fn is_bounded(&self) -> bool {
        &&& self.buffered().len() <= MAX_PENDING_PIPES
        &&& self.state() != PermissionState::Pending ==> self.buffered().len() == 0
    }

    /// A gate whose permission request is pending, with nothing buffered.
    pub fn new() -> (g: Self)
        ensures
            g.is_bounded(),
            g.state() == PermissionState::Pending,
            g.buffered() == Seq::<T>::empty(),
    {
        PipeGate { permissions: PermissionState::Pending, pending: Vec::new() }
    }

    /// The current permission state.
    pub fn permissions(&self) -> (p: PermissionState)
        ensures
            p == self.state(),
            self.is_bounded(),
    {
        proof {
            use_type_invariant(self);
        }
        self.permissions
    }

    /// An inbound pipe message. Returns the message when it is to be handled
    /// now (permissions granted); buffers it while the request is pending,
    /// dropping the oldest buffered message when the buffer is full; drops it
    /// once permissions were denied.
    pub fn on_pipe(&mut self, msg: T) -> (ready: Option<T>)
        ensures
            old(self).is_bounded(),
            final(self).is_bounded(),
            final(self).state() == old(self).state(),
            old(self).state() == PermissionState::Pending ==> {
                &&& ready == Option::<T>::None
                &&& final(self).buffered() == keep_most_recent(old(self).buffered().push(msg))
            },
            old(self).state() == PermissionState::Granted ==> {
                &&& ready == Some(msg)
                &&& final(self).buffered() == old(self).buffered()
            },
            old(self).state() == PermissionState::Denied ==> {
                &&& ready == Option::<T>::None
                &&& final(self).buffered() == old(self).buffered()
            },
    {
        proof {
            use_type_invariant(&*self);
        }
        match self.permissions {
            PermissionState::Pending => {
                let ghost before = self.pending@;
                let mut buf: Vec<T> = Vec::new();
                std::mem::swap(&mut buf, &mut self.pending);
                if buf.len() >= MAX_PENDING_PIPES {
                    buf.remove(0);
                }
                buf.push(msg);
                std::mem::swap(&mut buf, &mut self.pending);
                proof {
                    let full = before.push(msg);
                    if before.len() >= MAX_PENDING_PIPES {
                        assert(self.pending@ == full.skip(full.len() - MAX_PENDING_PIPES));
                    } else {
                        assert(self.pending@ == full);
                    }
                }
                None
            },
            PermissionState::Granted => Some(msg),
            PermissionState::Denied => None,
        }
    }

    /// The answer to the permission request. A grant returns the buffered
    /// messages, oldest first, for handling; a denial drops them. Once denied,
    /// it stays denied whatever answer comes next, and releases nothing.
    pub fn on_permission_result(&mut self, granted: bool) -> (ready: Vec<T>)
        ensures
            old(self).is_bounded(),
            final(self).is_bounded(),
            final(self).buffered() == Seq::<T>::empty(),
            old(self).state() == PermissionState::Denied ==> {
                &&& final(self).state() == PermissionState::Denied
                &&& ready@ == Seq::<T>::empty()
            },
            old(self).state() != PermissionState::Denied && granted ==> {
                &&& final(self).state() == PermissionState::Granted
                &&& ready@ == old(self).buffered()
            },
            old(self).state() != PermissionState::Denied && !granted ==> {
                &&& final(self).state() == PermissionState::Denied
                &&& ready@ == Seq::<T>::empty()
            },
    {
        proof {
            use_type_invariant(&*self);
        }
        if self.permissions == PermissionState::Denied {
            return Vec::new();
        }
        let mut taken: Vec<T> = Vec::new();
        std::mem::swap(&mut taken, &mut self.pending);
        if granted {
            self.permissions = PermissionState::Granted;
            taken
        } else {
            self.permissions = PermissionState::Denied;
            Vec::new()
        }
    }
}

/// Which way the viewport scrolls.
#[derive(Debug, Clone, Copy, PartialEq, Eq, Structural)]
pub enum ScrollDir {
    /// Toward older content: the row at the top gets a smaller index.
    Up,
    /// Toward newer content: the row at the top gets a larger index.
    Down,
}

/// A number of single-line scrolls in one direction.
#[derive(Debug, Clone, Copy, PartialEq, Eq, Structural)]
pub struct ScrollPlan {
    /// The direction of every step.
    pub dir: ScrollDir,
    /// How many single-line scrolls to issue.
    pub steps: usize,
}

/// `n`, capped at [`MAX_SCROLL_STEPS`].
pub open spec fn capped_steps(n: int) -> usize {
    if n <= MAX_SCROLL_STEPS {
        n as usize
    } else {
        MAX_SCROLL_STEPS
    }
}

/// The scrolls that bring row `target` to the top of a viewport whose top
/// row is `current_top`.
pub open spec fn plan_for(current_top: usize, target: usize) -> ScrollPlan {
    if target >= current_top {
        ScrollPlan { dir: ScrollDir::Down, steps: capped_steps(target - current_top) }
    } else {
        ScrollPlan { dir: ScrollDir::Up, steps: capped_steps(current_top - target) }
    }
}

/// The row at the top after carrying out `plan` from `current_top`.
pub open spec fn top_after(current_top: usize, plan: ScrollPlan) -> int {
    match plan.dir {
        ScrollDir::Down => current_top + plan.steps,
        ScrollDir::Up => current_top - plan.steps,
    }
}

/// Issue the right number of single-line scrolls to land `target` at the
/// top of the viewport: downward when the target lies below the current top,
/// upward otherwise, at most [`MAX_SCROLL_STEPS`] of them.
pub fn scroll_plan(current_top: usize, target: usize) -> (p: ScrollPlan)
    ensures
        p == plan_for(current_top, target),
{
    if target >= current_top {
        let n = target - current_top;
        ScrollPlan {
            dir: ScrollDir::Down,
            steps: if n < MAX_SCROLL_STEPS {
                n
            } else {
                MAX_SCROLL_STEPS
            },
        }
    } else {
        let n = current_top - target;
        ScrollPlan {
            dir: ScrollDir::Up,
            steps: if n < MAX_SCROLL_STEPS {
                n
            } else {
                MAX_SCROLL_STEPS
            },
        }
    }
}

/// A plan never overshoots: it moves toward the target by the distance, or
/// by [`MAX_SCROLL_STEPS`] when the target is farther away; within that
/// distance it lands exactly on the target.
pub proof fn lemma_plan_reaches_target(current_top: usize, target: usize)
    ensures
        ({
            let p = plan_for(current_top, target);
            let d = if target >= current_top {
                target - current_top
            } else {
                current_top - target
            };
            &&& p.steps <= MAX_SCROLL_STEPS
            &&& p.steps <= d
            &&& d <= MAX_SCROLL_STEPS ==> top_after(current_top, p) == target
            &&& target != current_top ==> p.steps > 0
        }),
{
}

/// The rows of a pane's scrollback: the lines above the viewport, the
/// viewport, then the lines below it.
pub open spec fn scrollback_rows(above: Seq<String>, viewport: Seq<String>, below: Seq<String>) -> Seq<
    Seq<char>,
> {
    string_views(above + viewport + below)
}

/// The scroll that a jump in direction `dir` needs, given the scrollback of
/// the focused pane; `None` when there is no prompt in that direction.
pub open spec fn jump_plan(
    prefixes: Seq<Seq<char>>,
    above: Seq<String>,
    viewport: Seq<String>,
    below: Seq<String>,
    dir: JumpDir,
) -> Option<ScrollPlan> {
    let top = above.len() as usize;
    match jump_target(prompt_rows_of(prefixes, scrollback_rows(above, viewport, below)), top, dir) {
        Some(t) => Some(plan_for(top, t)),
        None => None,
    }
}

/// Plan the jump in direction `dir` over a pane's scrollback: the viewport
/// top is the first viewport row, the prompts are scanned over all rows,
/// and the target is picked as [`pick_target`] does.
pub fn plan_jump(
    matcher: &PromptMatcher,
    above: Vec<String>,
    viewport: Vec<String>,
    below: Vec<String>,
    dir: JumpDir,
) -> (p: Option<ScrollPlan>)
    ensures
        p == jump_plan(matcher@, above@, viewport@, below@, dir),
{
    let current_top = above.len();
    let ghost all = above@ + viewport@ + below@;
    let mut lines = above;
    let mut middle = viewport;
    let mut tail = below;
    lines.append(&mut middle);
    lines.append(&mut tail);
    assert(lines@ == all);
    let prompts = matcher.prompt_rows(lines.as_slice());
    match pick_target(prompts.as_slice(), current_top, dir) {
        Some(target) => Some(scroll_plan(current_top, target)),
        None => None,
    }
}

/// A jump never stays in place: whenever a jump is planned, it scrolls at
/// least one line.
pub proof fn lemma_jump_moves(
    prefixes: Seq<Seq<char>>,
    above: Seq<String>,
    viewport: Seq<String>,
    below: Seq<String>,
    dir: JumpDir,
)
    requires
        above.len() <= usize::MAX,
    ensures
        jump_plan(prefixes, above, viewport, below, dir) matches Some(p) ==> p.steps > 0 && (
        dir == JumpDir::Prev ==> p.dir == ScrollDir::Up) && (dir == JumpDir::Next ==> p.dir
            == ScrollDir::Down),
{
    let top = above.len() as usize;
    let rows = prompt_rows_of(prefixes, scrollback_rows(above, viewport, below));
    crate::scan::lemma_jump_target_moves(rows, top, dir);
}

/// A jump is taken over every row of the scrollback, `above`, then
/// `viewport`, then `below`, with the viewport top at row `above.len()`.
/// `Next` is planned exactly when some row after the top is a prompt line,
/// and then scrolls down to the first such row; `Prev` is planned exactly
/// when some row before the top is a prompt line, and then scrolls up to the
/// last such row (each capped at [`MAX_SCROLL_STEPS`] steps).
pub proof fn lemma_jump_covers_whole_scrollback(
    prefixes: Seq<Seq<char>>,
    above: Seq<String>,
    viewport: Seq<String>,
    below: Seq<String>,
)
    requires
        (above + viewport + below).len() <= usize::MAX,
    ensures
        ({
            let all = above + viewport + below;
            let top = above.len() as int;
            &&& (exists|j: int| top < j < all.len() && is_prompt(prefixes, #[trigger] all[j]@))
                <==> jump_plan(prefixes, above, viewport, below, JumpDir::Next) is Some
            &&& jump_plan(prefixes, above, viewport, below, JumpDir::Next) matches Some(p)
                ==> exists|j: int|
                top < j < all.len() && is_prompt(prefixes, #[trigger] all[j]@) && (forall|i: int|
                    top < i < j ==> !is_prompt(prefixes, #[trigger] all[i]@)) && p.dir
                    == ScrollDir::Down && p.steps == (if j - top <= MAX_SCROLL_STEPS {
                    j - top
                } else {
                    MAX_SCROLL_STEPS as int
                })
            &&& (exists|j: int| 0 <= j < top && is_prompt(prefixes, #[trigger] all[j]@))
                <==> jump_plan(prefixes, above, viewport, below, JumpDir::Prev) is Some
            &&& jump_plan(prefixes, above, viewport, below, JumpDir::Prev) matches Some(p)
                ==> exists|j: int|
                0 <= j < top && is_prompt(prefixes, #[trigger] all[j]@) && (forall|i: int|
                    j < i < top ==> !is_prompt(prefixes, #[trigger] all[i]@)) && p.dir
                    == ScrollDir::Up && p.steps == (if top - j <= MAX_SCROLL_STEPS {
                    top - j
                } else {
                    MAX_SCROLL_STEPS as int
                })
        }),
{
    let all = above + viewport + below;
    let lines = scrollback_rows(above, viewport, below);
    let top = above.len() as usize;
    assert(lines.len() == all.len());
    assert forall|j: int| 0 <= j < all.len() implies #[trigger] lines[j] == all[j]@ by {}
    crate::scan::lemma_jump_lands_on_nearest_prompt(prefixes, lines, top, JumpDir::Next);
    crate::scan::lemma_jump_lands_on_nearest_prompt(prefixes, lines, top, JumpDir::Prev);
    let tn = jump_target(prompt_rows_of(prefixes, lines), top, JumpDir::Next);
    let tp = jump_target(prompt_rows_of(prefixes, lines), top, JumpDir::Prev);
    if let Some(r) = tn {
        assert(lines[r as int] == all[r as int]@);
        assert forall|i: int| top < i < r implies !is_prompt(prefixes, #[trigger] all[i]@) by {
            assert(lines[i] == all[i]@);
        }
    } else {
        assert forall|j: int| top < j < all.len() implies !is_prompt(
            prefixes,
            #[trigger] all[j]@,
        ) by {
            assert(lines[j] == all[j]@);
        }
    }
    if let Some(r) = tp {
        assert(lines[r as int] == all[r as int]@);
        assert forall|i: int| r < i < top implies !is_prompt(prefixes, #[trigger] all[i]@) by {
            assert(lines[i] == all[i]@);
        }
    } else {
        assert forall|j: int| 0 <= j < top implies !is_prompt(prefixes, #[trigger] all[j]@) by {
            assert(lines[j] == all[j]@);
        }
    }
}

} // verus!
