//! Scrollback scanning: find which rows are prompt lines, and pick the row a
//! jump lands on.
//!
//! A row is a prompt if, after its ANSI escapes are stripped, it starts with
//! one of a configurable list of prefix strings. The default prefixes are
//! Powerlevel10k's VIINS/VICMD prompt characters (`❯ ` / `❮ `), which sit at
//! column 0 when past prompts collapse to a single line.
use vstd::prelude::*;
use crate::ansi::{stripped, strip_ansi_chars};
use crate::text::{
    all_whitespace, ascii_lower, ascii_upper, lemma_upper_case_is_invisible, chars_equal, chars_of, has_prefix, lemma_trim_ignores_padding,
    lemma_trim_lower, starts_with_chars, string_from_chars, to_ascii_lower_chars, trim, trim_chars,
};

verus! {

/// The default prefix list: `❯ ` and `❮ `.
pub open spec fn default_prefixes() -> Seq<Seq<char>> {
    seq![seq!['\u{276F}', ' '], seq!['\u{276E}', ' ']]
}

/// The views of a list of strings.
pub open spec fn string_views(v: Seq<String>) -> Seq<Seq<char>> {
    v.map_values(|s: String| s@)
}

/// A row is a prompt line when its visible text starts with one of `prefixes`.
pub open spec fn is_prompt(prefixes: Seq<Seq<char>>, line: Seq<char>) -> bool {
    exists|k: int| 0 <= k < prefixes.len() && has_prefix(stripped(line), #[trigger] prefixes[k])
}

/// The indices, in increasing order, of the prompt lines among the first `n`
/// rows of `lines`.
pub open spec fn prompt_rows_upto(prefixes: Seq<Seq<char>>, lines: Seq<Seq<char>>, n: int) -> Seq<
    usize,
>
    decreases n,
{
    if n <= 0 {
        Seq::empty()
    } else if is_prompt(prefixes, lines[n - 1]) {
        prompt_rows_upto(prefixes, lines, n - 1).push((n - 1) as usize)
    } else {
        prompt_rows_upto(prefixes, lines, n - 1)
    }
}

/// The indices, in increasing order, of the prompt lines of `lines`.
pub open spec fn prompt_rows_of(prefixes: Seq<Seq<char>>, lines: Seq<Seq<char>>) -> Seq<usize> {
    prompt_rows_upto(prefixes, lines, lines.len() as int)
}

/// The default prefix list as strings.
pub fn default_prompt_prefixes() -> (v: Vec<String>)
    ensures
        string_views(v@) == default_prefixes(),
{
    let mut v: Vec<String> = Vec::new();
    v.push(string_from_chars(&['\u{276F}', ' ']));
    v.push(string_from_chars(&['\u{276E}', ' ']));
    assert(string_views(v@) =~= default_prefixes());
    v
}

/// Matcher that decides whether a single scrollback row is a prompt line.
#[derive(Debug, Clone)]
pub struct PromptMatcher {
    prefixes: Vec<String>,
}

impl View for PromptMatcher {
    type V = Seq<Seq<char>>;

    /// The prefix list.
    closed spec fn view(&self) -> Seq<Seq<char>> {
        string_views(self.prefixes@)
    }
}

impl PromptMatcher {
    /// Build a matcher from an explicit prefix list. An empty `prefixes`
    /// falls back to the default list.
    pub fn new(prefixes: Vec<String>) -> (m: Self)
        ensures
            m@ == (if prefixes@.len() == 0 {
                default_prefixes()
            } else {
                string_views(prefixes@)
            }),
            m@.len() > 0,
    {
        let prefixes = if prefixes.len() == 0 {
            default_prompt_prefixes()
        } else {
            prefixes
        };
        PromptMatcher { prefixes }
    }

    /// Default matcher: `❯ ` / `❮ `.
    pub fn default_p10k() -> (m: Self)
        ensures
            m@ == default_prefixes(),
    {
        Self::new(Vec::new())
    }

    /// True if the ANSI-stripped `line` starts with any configured prefix.
    pub fn is_prompt_line(&self, line: &str) -> (b: bool)
        ensures
            b == is_prompt(self@, line@),
    {
        let chars = chars_of(line);
        let visible = strip_ansi_chars(&chars);
        let n = self.prefixes.len();
        for k in 0..n
            invariant
                n == self@.len(),
                visible@ == stripped(line@),
                forall|j: int| 0 <= j < k ==> !has_prefix(stripped(line@), #[trigger] self@[j]),
        {
            let p = chars_of(self.prefixes[k].as_str());
            if starts_with_chars(&visible, &p) {
                assert(has_prefix(stripped(line@), self@[k as int]));
                return true;
            }
        }
        false
    }

    /// Scan `lines` and return the indices that match, in increasing order.
    pub fn prompt_rows(&self, lines: &[String]) -> (rows: Vec<usize>)
        ensures
            rows@ == prompt_rows_of(self@, string_views(lines@)),
    {
        let ghost views = string_views(lines@);
        let n = lines.len();
        let mut rows: Vec<usize> = Vec::new();
        for i in 0..n
            invariant
                n == lines@.len(),
                views == string_views(lines@),
                rows@ == prompt_rows_upto(self@, views, i as int),
        {
            let hit = self.is_prompt_line(lines[i].as_str());
            assert(views[i as int] == lines@[i as int]@);
            if hit {
                rows.push(i);
            }
        }
        rows
    }
}

impl Default for PromptMatcher {
    /// The default matcher, [`PromptMatcher::default_p10k`].
    fn default() -> (m: Self)
        ensures
            m@ == default_prefixes(),
    {
        Self::default_p10k()
    }
}

/// Direction of a prompt jump.
#[derive(Debug, Clone, Copy, PartialEq, Eq, Structural)]
pub enum JumpDir {
    /// Older prompt — smaller row index.
    Prev,
    /// Newer prompt — larger row index.
    Next,
}

/// The words that name the backward direction.
pub open spec fn is_prev_word(w: Seq<char>) -> bool {
    ||| w == seq!['p', 'r', 'e', 'v']
    ||| w == seq!['p', 'r', 'e', 'v', 'i', 'o', 'u', 's']
    ||| w == seq!['u', 'p']
    ||| w == seq!['b', 'a', 'c', 'k']
    ||| w == seq!['o', 'l', 'd', 'e', 'r']
}

/// The words that name the forward direction.
pub open spec fn is_next_word(w: Seq<char>) -> bool {
    ||| w == seq!['n', 'e', 'x', 't']
    ||| w == seq!['d', 'o', 'w', 'n']
    ||| w == seq!['f', 'o', 'r', 'w', 'a', 'r', 'd']
    ||| w == seq!['n', 'e', 'w', 'e', 'r']
}

/// The direction a word names, if any.
pub open spec fn word_direction(w: Seq<char>) -> Option<JumpDir> {
    if is_prev_word(w) {
        Some(JumpDir::Prev)
    } else if is_next_word(w) {
        Some(JumpDir::Next)
    } else {
        None
    }
}

/// The direction a payload names: the word left after trimming surrounding
/// whitespace and lower-casing ASCII letters.
pub open spec fn payload_direction(s: Seq<char>) -> Option<JumpDir> {
    word_direction(ascii_lower(trim(s)))
}

impl JumpDir {
    /// Parse a direction word, ignoring surrounding whitespace and ASCII case.
    pub fn from_payload(s: &str) -> (d: Option<Self>)
        ensures
            d == payload_direction(s@),
    {
        let raw = chars_of(s);
        let trimmed = trim_chars(&raw);
        let w = to_ascii_lower_chars(&trimmed);
        if chars_equal(&w, &['p', 'r', 'e', 'v']) || chars_equal(
            &w,
            &['p', 'r', 'e', 'v', 'i', 'o', 'u', 's'],
        ) || chars_equal(&w, &['u', 'p']) || chars_equal(&w, &['b', 'a', 'c', 'k'])
            || chars_equal(&w, &['o', 'l', 'd', 'e', 'r']) {
            Some(JumpDir::Prev)
        } else if chars_equal(&w, &['n', 'e', 'x', 't']) || chars_equal(&w, &['d', 'o', 'w', 'n'])
            || chars_equal(&w, &['f', 'o', 'r', 'w', 'a', 'r', 'd']) || chars_equal(
            &w,
            &['n', 'e', 'w', 'e', 'r'],
        ) {
            Some(JumpDir::Next)
        } else {
            None
        }
    }
}

/// The last entry of `prompts[..n]` that lies strictly before `top`.
pub open spec fn last_before(prompts: Seq<usize>, top: usize, n: int) -> Option<usize>
    decreases n,
{
    if n <= 0 {
        None
    } else if prompts[n - 1] < top {
        Some(prompts[n - 1])
    } else {
        last_before(prompts, top, n - 1)
    }
}

/// The first entry of `prompts[i..]` that lies strictly after `top`.
pub open spec fn first_after(prompts: Seq<usize>, top: usize, i: int) -> Option<usize>
    decreases prompts.len() - i,
{
    if i < 0 || i >= prompts.len() {
        None
    } else if prompts[i] > top {
        Some(prompts[i])
    } else {
        first_after(prompts, top, i + 1)
    }
}

/// The row a jump from viewport top `top` lands on.
pub open spec fn jump_target(prompts: Seq<usize>, top: usize, dir: JumpDir) -> Option<usize> {
    match dir {
        JumpDir::Prev => last_before(prompts, top, prompts.len() as int),
        JumpDir::Next => first_after(prompts, top, 0),
    }
}

/// Pick a target row from a sorted list of prompt rows.
///
/// `current_top` is the row index currently at the top of the viewport.
/// `Prev` picks the last listed row strictly before `current_top`; `Next` the
/// first listed row strictly after it. `None` when there is no such row.
pub fn pick_target(prompts: &[usize], current_top: usize, dir: JumpDir) -> (t: Option<usize>)
    ensures
        t == jump_target(prompts@, current_top, dir),
{
    if prompts.len() == 0 {
        return None;
    }
    match dir {
        JumpDir::Prev => {
            let mut n = prompts.len();
            while n > 0
                invariant
                    dir == JumpDir::Prev,
                    n <= prompts@.len(),
                    last_before(prompts@, current_top, prompts@.len() as int) == last_before(
                        prompts@,
                        current_top,
                        n as int,
                    ),
                decreases n,
            {
                if prompts[n - 1] < current_top {
                    assert(last_before(prompts@, current_top, n as int) == Some(prompts@[n - 1]));
                    return Some(prompts[n - 1]);
                }
                n = n - 1;
            }
            None
        },
        JumpDir::Next => {
            let len = prompts.len();
            let mut i: usize = 0;
            while i < len
                invariant
                    dir == JumpDir::Next,
                    len == prompts@.len(),
                    i <= len,
                    first_after(prompts@, current_top, 0) == first_after(
                        prompts@,
                        current_top,
                        i as int,
                    ),
                decreases len - i,
            {
                if prompts[i] > current_top {
                    assert(first_after(prompts@, current_top, i as int) == Some(prompts@[i as int]));
                    return Some(prompts[i]);
                }
                i = i + 1;
            }
            None
        },
    }
}

/// The entries of `p` never decrease.
pub open spec fn is_sorted(p: Seq<usize>) -> bool {
    forall|i: int, j: int| 0 <= i <= j < p.len() ==> p[i] <= p[j]
}

proof fn lemma_prompt_rows_upto(prefixes: Seq<Seq<char>>, lines: Seq<Seq<char>>, n: int)
    requires
        0 <= n <= lines.len(),
        lines.len() <= usize::MAX,
    ensures
        ({
            let r = prompt_rows_upto(prefixes, lines, n);
            &&& forall|i: int, j: int| 0 <= i < j < r.len() ==> r[i] < r[j]
            &&& forall|i: int|
                0 <= i < r.len() ==> r[i] < n && is_prompt(prefixes, lines[#[trigger] r[i] as int])
            &&& forall|row: int|
                0 <= row < n && is_prompt(prefixes, #[trigger] lines[row]) ==> r.contains(
                    row as usize,
                )
        }),
    decreases n,
{
    if n > 0 {
        lemma_prompt_rows_upto(prefixes, lines, n - 1);
        let prev = prompt_rows_upto(prefixes, lines, n - 1);
        let r = prompt_rows_upto(prefixes, lines, n);
        if is_prompt(prefixes, lines[n - 1]) {
            assert(r == prev.push((n - 1) as usize));
            assert forall|row: int|
                0 <= row < n && is_prompt(prefixes, #[trigger] lines[row]) implies r.contains(
                row as usize,
            ) by {
                if row == n - 1 {
                    assert(r[r.len() - 1] == row as usize);
                } else {
                    let k = choose|k: int| 0 <= k < prev.len() && prev[k] == row as usize;
                    assert(r[k] == row as usize);
                }
            }
        }
    }
}

/// The scan lists exactly the prompt lines, each once, in increasing order.
pub proof fn lemma_prompt_rows_are_the_prompt_lines(prefixes: Seq<Seq<char>>, lines: Seq<Seq<char>>)
    requires
        lines.len() <= usize::MAX,
    ensures
        ({
            let r = prompt_rows_of(prefixes, lines);
            &&& forall|i: int, j: int| 0 <= i < j < r.len() ==> r[i] < r[j]
            &&& forall|i: int|
                0 <= i < r.len() ==> r[i] < lines.len() && is_prompt(
                    prefixes,
                    lines[#[trigger] r[i] as int],
                )
            &&& forall|row: int|
                0 <= row < lines.len() && is_prompt(prefixes, #[trigger] lines[row])
                    ==> r.contains(row as usize)
        }),
{
    lemma_prompt_rows_upto(prefixes, lines, lines.len() as int);
}

proof fn lemma_last_before(p: Seq<usize>, top: usize, n: int)
    requires
        0 <= n <= p.len(),
    ensures
        match last_before(p, top, n) {
            Some(r) => exists|m: int|
                0 <= m < n && p[m] == r && r < top && forall|k: int|
                    m < k < n ==> p[k] >= top,
            None => forall|k: int| 0 <= k < n ==> p[k] >= top,
        },
    decreases n,
{
    if n > 0 {
        lemma_last_before(p, top, n - 1);
        if p[n - 1] < top {
            assert(p[n - 1] == p[n - 1] && forall|k: int| n - 1 < k < n ==> p[k] >= top);
        } else {
            match last_before(p, top, n - 1) {
                Some(r) => {
                    let m = choose|m: int|
                        0 <= m < n - 1 && p[m] == r && r < top && forall|k: int|
                            m < k < n - 1 ==> p[k] >= top;
                    assert(forall|k: int| m < k < n ==> p[k] >= top);
                },
                None => {},
            }
        }
    }
}

proof fn lemma_first_after(p: Seq<usize>, top: usize, i: int)
    requires
        0 <= i <= p.len(),
    ensures
        match first_after(p, top, i) {
            Some(r) => exists|m: int|
                i <= m < p.len() && p[m] == r && r > top && forall|k: int|
                    i <= k < m ==> p[k] <= top,
            None => forall|k: int| i <= k < p.len() ==> p[k] <= top,
        },
    decreases p.len() - i,
{
    if i < p.len() {
        lemma_first_after(p, top, i + 1);
        if p[i] > top {
            assert(forall|k: int| i <= k < i ==> p[k] <= top);
        } else {
            match first_after(p, top, i + 1) {
                Some(r) => {
                    let m = choose|m: int|
                        i + 1 <= m < p.len() && p[m] == r && r > top && forall|k: int|
                            i + 1 <= k < m ==> p[k] <= top;
                    assert(forall|k: int| i <= k < m ==> p[k] <= top);
                },
                None => {},
            }
        }
    }
}

/// A jump lands on one of the listed rows, and never on the current top:
/// `Prev` strictly before it, `Next` strictly after it.
pub proof fn lemma_jump_target_moves(prompts: Seq<usize>, top: usize, dir: JumpDir)
    ensures
        jump_target(prompts, top, dir) matches Some(r) ==> {
            &&& prompts.contains(r)
            &&& dir == JumpDir::Prev ==> r < top
            &&& dir == JumpDir::Next ==> r > top
        },
{
    lemma_last_before(prompts, top, prompts.len() as int);
    lemma_first_after(prompts, top, 0);
}

/// On a sorted list, `Prev` picks the largest row strictly before the top and
/// `Next` the smallest row strictly after it; `None` means there is no row on
/// that side.
pub proof fn lemma_jump_target_nearest(prompts: Seq<usize>, top: usize, dir: JumpDir)
    requires
        is_sorted(prompts),
    ensures
        dir == JumpDir::Prev ==> match jump_target(prompts, top, dir) {
            Some(r) => r < top && prompts.contains(r) && forall|k: int|
                0 <= k < prompts.len() && prompts[k] < top ==> prompts[k] <= r,
            None => forall|k: int| 0 <= k < prompts.len() ==> prompts[k] >= top,
        },
        dir == JumpDir::Next ==> match jump_target(prompts, top, dir) {
            Some(r) => r > top && prompts.contains(r) && forall|k: int|
                0 <= k < prompts.len() && prompts[k] > top ==> prompts[k] >= r,
            None => forall|k: int| 0 <= k < prompts.len() ==> prompts[k] <= top,
        },
{
    lemma_last_before(prompts, top, prompts.len() as int);
    lemma_first_after(prompts, top, 0);
}

/// A jump over a scanned scrollback lands on the nearest prompt line in the
/// requested direction: `Prev` on the last prompt line above the viewport
/// top, `Next` on the first prompt line below it. `None` means there is no
/// prompt line on that side.
pub proof fn lemma_jump_lands_on_nearest_prompt(
    prefixes: Seq<Seq<char>>,
    lines: Seq<Seq<char>>,
    top: usize,
    dir: JumpDir,
)
    requires
        lines.len() <= usize::MAX,
    ensures
        ({
            let t = jump_target(prompt_rows_of(prefixes, lines), top, dir);
            &&& t matches Some(r) ==> r < lines.len() && is_prompt(prefixes, lines[r as int])
            &&& dir == JumpDir::Prev ==> match t {
                Some(r) => r < top && forall|j: int|
                    r < j < top && j < lines.len() ==> !is_prompt(prefixes, #[trigger] lines[j]),
                None => forall|j: int|
                    0 <= j < top && j < lines.len() ==> !is_prompt(prefixes, #[trigger] lines[j]),
            }
            &&& dir == JumpDir::Next ==> match t {
                Some(r) => r > top && forall|j: int|
                    top < j < r ==> !is_prompt(prefixes, #[trigger] lines[j]),
                None => forall|j: int|
                    top < j < lines.len() ==> !is_prompt(prefixes, #[trigger] lines[j]),
            }
        }),
{
    let rows = prompt_rows_of(prefixes, lines);
    lemma_prompt_rows_are_the_prompt_lines(prefixes, lines);
    assert(is_sorted(rows)) by {
        assert forall|i: int, j: int| 0 <= i <= j < rows.len() implies rows[i] <= rows[j] by {
            if i < j {
                assert(rows[i] < rows[j]);
            }
        }
    }
    lemma_jump_target_nearest(rows, top, dir);
    let t = jump_target(rows, top, dir);
    if let Some(r) = t {
        let m = choose|m: int| 0 <= m < rows.len() && rows[m] == r;
        assert(r < lines.len() && is_prompt(prefixes, lines[rows[m] as int]));
    }
    assert forall|j: int|
        0 <= j < lines.len() && is_prompt(prefixes, #[trigger] lines[j]) implies exists|k: int|
        0 <= k < rows.len() && rows[k] as int == j by {
        assert(rows.contains(j as usize));
    }
}

/// Direction words are read regardless of ASCII case and of whitespace
/// around them.
pub proof fn lemma_payload_ignores_case_and_padding(w1: Seq<char>, s: Seq<char>, w2: Seq<char>)
    requires
        all_whitespace(w1),
        all_whitespace(w2),
    ensures
        payload_direction(ascii_lower(s)) == payload_direction(s),
        payload_direction(w1 + s + w2) == payload_direction(s),
{
    lemma_trim_lower(s);
    lemma_trim_lower(trim(s));
    lemma_trim_ignores_padding(w1, s, w2);
}

/// Prompt matching is plain starts-with on the visible text: a row is a
/// prompt line exactly when its stripped text is some configured prefix
/// followed by anything, the empty rest included.
pub proof fn lemma_prompt_is_prefix_then_rest(prefixes: Seq<Seq<char>>, line: Seq<char>)
    ensures
        is_prompt(prefixes, line) <==> exists|k: int, rest: Seq<char>|
            0 <= k < prefixes.len() && stripped(line) == #[trigger] (prefixes[k] + rest),
{
    let v = stripped(line);
    if is_prompt(prefixes, line) {
        let k = choose|k: int|
            0 <= k < prefixes.len() && has_prefix(stripped(line), #[trigger] prefixes[k]);
        let p = prefixes[k];
        let rest = v.skip(p.len() as int);
        assert(v == p + rest) by {
            assert(v =~= v.subrange(0, p.len() as int) + rest);
        }
    }
    if exists|k: int, rest: Seq<char>|
        0 <= k < prefixes.len() && stripped(line) == #[trigger] (prefixes[k] + rest) {
        let (k, rest) = choose|k: int, rest: Seq<char>|
            0 <= k < prefixes.len() && stripped(line) == #[trigger] (prefixes[k] + rest);
        let p = prefixes[k];
        assert(v.subrange(0, p.len() as int) =~= p);
        assert(has_prefix(v, prefixes[k]));
    }
}

/// Direction words are ASCII case-insensitive: upper-casing any ASCII
/// letters of a payload does not change the direction it names (so `NEXT`,
/// `FORWARD`, `BACK` name what `next`, `forward`, `back` name).
pub proof fn lemma_payload_ignores_upper_case(s: Seq<char>)
    ensures
        payload_direction(ascii_upper(s)) == payload_direction(s),
{
    lemma_upper_case_is_invisible(s);
}

} // verus!
