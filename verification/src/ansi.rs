//! Minimal ANSI-escape stripper.
//!
//! Scrollback rows are mostly plain text, but rendered SGR/CSI sequences and
//! stray ESC-prefixed sequences still occur. The stripper removes them so the
//! prompt-prefix match in [`crate::scan`] sees the visible characters alone.
//!
//! Recognised sequences:
//! * CSI sequences (`ESC [ … <final>`), whose final character lies in
//!   `0x40..=0x7e`; an unterminated one runs to the end of the text.
//! * OSC sequences (`ESC ] … BEL` or `ESC ] … ESC \`); an unterminated one runs
//!   to the end of the text.
//! * Charset designations (`ESC <intermediate> <final>`, the intermediate one
//!   of `( ) * + - . /`), three characters wide, or two when the text ends
//!   after the intermediate.
//! * Any other `ESC <char>` pair.
//!
//! A lone ESC as the very last character is kept. Every other character,
//! including other control characters such as `\t` and `\n`, passes through.
use vstd::prelude::*;
use crate::text::{chars_of, string_from_chars};

verus! {

/// The escape character, `ESC` (0x1b).
pub open spec fn is_esc(c: char) -> bool {
    c == '\x1b'
}

/// A character that ends a CSI sequence: `0x40..=0x7e`.
pub open spec fn is_csi_final(c: char) -> bool {
    0x40 <= (c as u32) && (c as u32) <= 0x7e
}

/// An intermediate character of a charset designation: one of `( ) * + - . /`.
pub open spec fn is_charset_intermediate(c: char) -> bool {
    c == '(' || c == ')' || c == '*' || c == '+' || c == '-' || c == '.' || c == '/'
}

/// Index just past the first CSI final character at or after `j`, or the
/// length of `s` when there is none.
pub open spec fn csi_end(s: Seq<char>, j: int) -> int
    decreases s.len() - j,
{
    if j >= s.len() {
        s.len() as int
    } else if is_csi_final(s[j]) {
        j + 1
    } else {
        csi_end(s, j + 1)
    }
}

/// Index just past the first OSC terminator (`BEL`, or `ESC \`) at or after
/// `j`, or the length of `s` when there is none.
pub open spec fn osc_end(s: Seq<char>, j: int) -> int
    decreases s.len() - j,
{
    if j >= s.len() {
        s.len() as int
    } else if s[j] == '\x07' {
        j + 1
    } else if is_esc(s[j]) && j + 1 < s.len() && s[j + 1] == '\\' {
        j + 2
    } else {
        osc_end(s, j + 1)
    }
}

/// Index just past the escape sequence that starts with the `ESC` at `i`
/// (which is followed by at least one character).
pub open spec fn escape_end(s: Seq<char>, i: int) -> int {
    let next = s[i + 1];
    if next == '[' {
        csi_end(s, i + 2)
    } else if next == ']' {
        osc_end(s, i + 2)
    } else if is_charset_intermediate(next) {
        if i + 2 < s.len() {
            i + 3
        } else {
            i + 2
        }
    } else {
        i + 2
    }
}

/// A CSI sequence ends within the text, past its start unless the text
/// ends there.
pub proof fn lemma_csi_end_bounds(s: Seq<char>, j: int)
    requires
        0 <= j <= s.len(),
    ensures
        j <= csi_end(s, j) <= s.len(),
        csi_end(s, j) > j || j == s.len(),
    decreases s.len() - j,
{
    if j < s.len() && !is_csi_final(s[j]) {
        lemma_csi_end_bounds(s, j + 1);
    }
}

/// An OSC sequence ends within the text, past its start unless the text
/// ends there.
pub proof fn lemma_osc_end_bounds(s: Seq<char>, j: int)
    requires
        0 <= j <= s.len(),
    ensures
        j <= osc_end(s, j) <= s.len(),
        osc_end(s, j) > j || j == s.len(),
    decreases s.len() - j,
{
    if j < s.len() && s[j] != '\x07' && !(is_esc(s[j]) && j + 1 < s.len() && s[j + 1] == '\\') {
        lemma_osc_end_bounds(s, j + 1);
    }
}

/// An escape sequence covers at least the `ESC` and the character after it,
/// and ends within the text.
pub proof fn lemma_escape_end_bounds(s: Seq<char>, i: int)
    requires
        0 <= i,
        i + 1 < s.len(),
    ensures
        i + 2 <= escape_end(s, i) <= s.len(),
{
    lemma_csi_end_bounds(s, i + 2);
    lemma_osc_end_bounds(s, i + 2);
}

/// The visible text of `s` from index `i` on: escape sequences removed, every
/// other character kept in order.
pub open spec fn strip_from(s: Seq<char>, i: int) -> Seq<char>
    decreases s.len() - i,
{
    if i < 0 || i >= s.len() {
        Seq::empty()
    } else if is_esc(s[i]) && i + 1 < s.len() {
        proof {
            lemma_escape_end_bounds(s, i);
        }
        strip_from(s, escape_end(s, i))
    } else {
        seq![s[i]] + strip_from(s, i + 1)
    }
}

/// The visible text of `s`.
pub open spec fn stripped(s: Seq<char>) -> Seq<char> {
    strip_from(s, 0)
}

/// No `ESC` stands anywhere in `t` but possibly in its last position.
pub open spec fn escape_free_but_last(t: Seq<char>) -> bool {
    forall|k: int| 0 <= k < t.len() - 1 ==> !is_esc(#[trigger] t[k])
}

proof fn lemma_strip_from_plain(s: Seq<char>, i: int)
    requires
        0 <= i <= s.len(),
        escape_free_but_last(s),
    ensures
        strip_from(s, i) == s.skip(i),
    decreases s.len() - i,
{
    if i < s.len() {
        lemma_strip_from_plain(s, i + 1);
        assert(s.skip(i) == seq![s[i]] + s.skip(i + 1));
    } else {
        assert(s.skip(i) =~= Seq::<char>::empty());
    }
}

proof fn lemma_strip_from_shape(s: Seq<char>, i: int)
    requires
        0 <= i <= s.len(),
    ensures
        escape_free_but_last(strip_from(s, i)),
        strip_from(s, i).len() <= s.len() - i,
        strip_from(s, i).len() > 0 && is_esc(strip_from(s, i).last()) ==> is_esc(s.last()),
    decreases s.len() - i,
{
    if i < s.len() {
        if is_esc(s[i]) && i + 1 < s.len() {
            lemma_escape_end_bounds(s, i);
            lemma_strip_from_shape(s, escape_end(s, i));
        } else {
            lemma_strip_from_shape(s, i + 1);
            let r = strip_from(s, i + 1);
            let t = seq![s[i]] + r;
            assert(t == strip_from(s, i));
            assert forall|k: int| 0 <= k < t.len() - 1 implies !is_esc(#[trigger] t[k]) by {
                if k > 0 {
                    assert(t[k] == r[k - 1]);
                }
            }
            if r.len() > 0 {
                assert(t.last() == r.last());
            }
        }
    }
}

/// Text with no escape character, or one only as its last character, passes
/// through unchanged.
pub proof fn lemma_plain_text_passes_through(s: Seq<char>)
    requires
        escape_free_but_last(s),
    ensures
        stripped(s) == s,
{
    lemma_strip_from_plain(s, 0);
    assert(s.skip(0) == s);
}

/// The stripped text is never longer than the input; an escape character
/// survives only as its last character, and only where the input ends with
/// one (the lone `ESC` at the end).
pub proof fn lemma_stripped_shape(s: Seq<char>)
    ensures
        stripped(s).len() <= s.len(),
        escape_free_but_last(stripped(s)),
        stripped(s).len() > 0 && is_esc(stripped(s).last()) ==> is_esc(s.last()),
{
    lemma_strip_from_shape(s, 0);
}

/// Stripping is idempotent: stripping already stripped text changes nothing.
pub proof fn lemma_strip_idempotent(s: Seq<char>)
    ensures
        stripped(stripped(s)) == stripped(s),
{
    lemma_strip_from_shape(s, 0);
    lemma_plain_text_passes_through(stripped(s));
}

proof fn lemma_csi_end_shift(a: Seq<char>, t: Seq<char>, j: int)
    requires
        a.len() <= j,
    ensures
        csi_end(a + t, j) == csi_end(t, j - a.len()) + a.len(),
    decreases (a + t).len() - j,
{
    let s = a + t;
    if j < s.len() {
        assert(s[j] == t[j - a.len()]);
        lemma_csi_end_shift(a, t, j + 1);
    }
}

proof fn lemma_osc_end_shift(a: Seq<char>, t: Seq<char>, j: int)
    requires
        a.len() <= j,
    ensures
        osc_end(a + t, j) == osc_end(t, j - a.len()) + a.len(),
    decreases (a + t).len() - j,
{
    let s = a + t;
    if j < s.len() {
        assert(s[j] == t[j - a.len()]);
        if j + 1 < s.len() {
            assert(s[j + 1] == t[j + 1 - a.len()]);
        }
        lemma_osc_end_shift(a, t, j + 1);
    }
}

/// What lies before position `a.len()` does not change how the rest of the
/// text is stripped.
proof fn lemma_strip_from_shift(a: Seq<char>, t: Seq<char>, i: int)
    requires
        a.len() <= i,
    ensures
        strip_from(a + t, i) == strip_from(t, i - a.len()),
    decreases (a + t).len() - i,
{
    let s = a + t;
    let k = i - a.len();
    if i < s.len() {
        assert(s[i] == t[k]);
        if is_esc(s[i]) && i + 1 < s.len() {
            assert(s[i + 1] == t[k + 1]);
            lemma_escape_end_bounds(s, i);
            lemma_csi_end_shift(a, t, i + 2);
            lemma_osc_end_shift(a, t, i + 2);
            assert(escape_end(s, i) == escape_end(t, k) + a.len());
            lemma_strip_from_shift(a, t, escape_end(s, i));
        } else {
            lemma_strip_from_shift(a, t, i + 1);
        }
    }
}

/// Stripping `head + t`, where the escape sequence `head` ends at its last
/// character, is stripping `t`.
proof fn lemma_strip_after(head: Seq<char>, t: Seq<char>)
    requires
        head.len() >= 2,
        is_esc(head[0]),
        escape_end(head + t, 0) == head.len(),
    ensures
        stripped(head + t) == stripped(t),
{
    let s = head + t;
    assert(s[0] == head[0] && s[1] == head[1]);
    lemma_strip_from_shift(head, t, head.len() as int);
}

/// A character other than `ESC` is kept, in front of what the rest strips to.
pub proof fn lemma_strip_keeps_plain_char(c: char, t: Seq<char>)
    requires
        c != '\x1b',
    ensures
        stripped(seq![c] + t) == seq![c] + stripped(t),
{
    let s = seq![c] + t;
    assert(s[0] == c);
    lemma_strip_from_shift(seq![c], t, 1);
}

/// A complete CSI sequence, `ESC [`, parameters with no character in
/// `0x40..=0x7e`, then a final character in `0x40..=0x7e`, is removed
/// exactly: up to and including its final character, and nothing after it.
pub proof fn lemma_strip_removes_csi(params: Seq<char>, fin: char, t: Seq<char>)
    requires
        forall|k: int|
            0 <= k < params.len() ==> !(0x40 <= (#[trigger] params[k] as u32) && (params[k] as u32)
                <= 0x7e),
        0x40 <= (fin as u32) && (fin as u32) <= 0x7e,
    ensures
        stripped(seq!['\x1b', '['] + params + seq![fin] + t) == stripped(t),
{
    let head = seq!['\x1b', '['] + params + seq![fin];
    let s = head + t;
    assert(seq!['\x1b', '['] + params + seq![fin] + t == s);
    let n: int = params.len() as int + 2;
    assert(s[n] == fin);
    assert forall|j: int| 2 <= j <= n implies csi_end(s, j) == n + 1 by {
        lemma_csi_tail(s, j, n);
    }
    lemma_strip_after(head, t);
}

proof fn lemma_csi_tail(s: Seq<char>, j: int, n: int)
    requires
        2 <= j <= n < s.len(),
        is_csi_final(s[n]),
        forall|k: int| 2 <= k < n ==> !is_csi_final(#[trigger] s[k]),
    ensures
        csi_end(s, j) == n + 1,
    decreases n - j,
{
    if j < n {
        lemma_csi_tail(s, j + 1, n);
    }
}

proof fn lemma_osc_tail(s: Seq<char>, j: int, n: int)
    requires
        2 <= j <= n < s.len(),
        s[n] == '\x07' || (s[n] == '\x1b' && n + 1 < s.len() && s[n + 1] == '\\'),
        forall|k: int| 2 <= k < n ==> #[trigger] s[k] != '\x07' && s[k] != '\x1b',
    ensures
        osc_end(s, j) == if s[n] == '\x07' {
            n + 1
        } else {
            n + 2
        },
    decreases n - j,
{
    if j < n {
        lemma_osc_tail(s, j + 1, n);
    }
}

/// A complete OSC sequence, `ESC ]`, a body with neither `BEL` nor `ESC`, then
/// the terminator `BEL` or `ESC \`, is removed exactly, and nothing after it.
pub proof fn lemma_strip_removes_osc(body: Seq<char>, t: Seq<char>)
    requires
        forall|k: int| 0 <= k < body.len() ==> #[trigger] body[k] != '\x07' && body[k] != '\x1b',
    ensures
        stripped(seq!['\x1b', ']'] + body + seq!['\x07'] + t) == stripped(t),
        stripped(seq!['\x1b', ']'] + body + seq!['\x1b', '\\'] + t) == stripped(t),
{
    let n: int = body.len() as int + 2;
    let head1 = seq!['\x1b', ']'] + body + seq!['\x07'];
    let s1 = head1 + t;
    assert(seq!['\x1b', ']'] + body + seq!['\x07'] + t == s1);
    assert(s1[n] == '\x07');
    assert forall|k: int| 2 <= k < n implies #[trigger] s1[k] != '\x07' && s1[k] != '\x1b' by {
        assert(s1[k] == body[k - 2]);
    }
    lemma_osc_tail(s1, 2, n);
    lemma_strip_after(head1, t);
    let head2 = seq!['\x1b', ']'] + body + seq!['\x1b', '\\'];
    let s2 = head2 + t;
    assert(seq!['\x1b', ']'] + body + seq!['\x1b', '\\'] + t == s2);
    assert(s2[n] == '\x1b' && s2[n + 1] == '\\');
    assert forall|k: int| 2 <= k < n implies #[trigger] s2[k] != '\x07' && s2[k] != '\x1b' by {
        assert(s2[k] == body[k - 2]);
    }
    lemma_osc_tail(s2, 2, n);
    lemma_strip_after(head2, t);
}

/// A charset designation, `ESC`, one of `( ) * + - . /`, then one more
/// character, is removed exactly, and nothing after it.
pub proof fn lemma_strip_removes_charset_designation(mid: char, fin: char, t: Seq<char>)
    requires
        mid == '(' || mid == ')' || mid == '*' || mid == '+' || mid == '-' || mid == '.' || mid
            == '/',
    ensures
        stripped(seq!['\x1b', mid, fin] + t) == stripped(t),
{
    lemma_strip_after(seq!['\x1b', mid, fin], t);
}

/// `ESC` followed by any other character than `[`, `]` or a charset
/// intermediate is a two-character sequence, removed exactly.
pub proof fn lemma_strip_removes_escape_pair(x: char, t: Seq<char>)
    requires
        x != '[' && x != ']',
        !(x == '(' || x == ')' || x == '*' || x == '+' || x == '-' || x == '.' || x == '/'),
    ensures
        stripped(seq!['\x1b', x] + t) == stripped(t),
{
    lemma_strip_after(seq!['\x1b', x], t);
}

/// The characters of `v` with ANSI escape sequences removed.
pub fn strip_ansi_chars(v: &Vec<char>) -> (out: Vec<char>)
    ensures
        out@ == stripped(v@),
{
    let ghost s = v@;
    let len = v.len();
    let mut out: Vec<char> = Vec::new();
    let mut i: usize = 0;
    while i < len
        invariant
            s == v@,
            len == s.len(),
            0 <= i <= len,
            out@ + strip_from(s, i as int) == stripped(s),
        decreases len - i,
    {
        let c = v[i];
        if c == '\x1b' && i + 1 < len {
            proof {
                lemma_escape_end_bounds(s, i as int);
            }
            let ghost start = i as int;
            let next = v[i + 1];
            if next == '[' {
                i = i + 2;
                while i < len
                    invariant_except_break
                        csi_end(s, start + 2) == csi_end(s, i as int),
                    invariant
                        s == v@,
                        len == s.len(),
                        start + 2 <= i <= len,
                        s[start + 1] == '[',
                    ensures
                        i as int == csi_end(s, start + 2),
                    decreases len - i,
                {
                    let ch = v[i];
                    i = i + 1;
                    let cp = ch as u32;
                    if 0x40 <= cp && cp <= 0x7e {
                        break;
                    }
                }
            } else if next == ']' {
                i = i + 2;
                while i < len
                    invariant_except_break
                        osc_end(s, start + 2) == osc_end(s, i as int),
                    invariant
                        s == v@,
                        len == s.len(),
                        start + 2 <= i <= len,
                        s[start + 1] == ']',
                    ensures
                        i as int == osc_end(s, start + 2),
                    decreases len - i,
                {
                    let ch = v[i];
                    if ch == '\x07' {
                        i = i + 1;
                        break;
                    }
                    if ch == '\x1b' && i + 1 < len && v[i + 1] == '\\' {
                        i = i + 2;
                        break;
                    }
                    i = i + 1;
                }
            } else if next == '(' || next == ')' || next == '*' || next == '+' || next == '-'
                || next == '.' || next == '/' {
                i = i + if i + 2 < len {
                    3
                } else {
                    2
                };
            } else {
                i = i + 2;
            }
            assert(i as int == escape_end(s, start));
        } else {
            out.push(c);
            assert(strip_from(s, i as int) == seq![c] + strip_from(s, i + 1));
            i = i + 1;
        }
    }
    out
}

/// Return `s` with ANSI escape sequences removed.
pub fn strip_ansi(s: &str) -> (out: String)
    ensures
        out@ == stripped(s@),
{
    let chars = chars_of(s);
    let visible = strip_ansi_chars(&chars);
    string_from_chars(visible.as_slice())
}

} // verus!
