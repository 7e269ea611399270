//! Configuration parsing and pipe-message routing.
use vstd::prelude::*;
use std::collections::BTreeMap;
use crate::scan::{default_prefixes, payload_direction, string_views, JumpDir, PromptMatcher};
use crate::text::{
    chars_of, is_unicode_whitespace, lemma_trim_start_head, lemma_trim_start_suffix,
    string_from_chars, trim_start, trim_start_chars,
};

verus! {

/// Index of the first `,` in `s` at or after `i`, or the length of `s`.
pub open spec fn comma_from(s: Seq<char>, i: int) -> int
    decreases s.len() - i,
{
    if i < 0 || i >= s.len() {
        s.len() as int
    } else if s[i] == ',' {
        i
    } else {
        comma_from(s, i + 1)
    }
}

/// The next comma lies within the text, and no comma comes before it.
pub proof fn lemma_comma_from_bounds(s: Seq<char>, i: int)
    requires
        0 <= i <= s.len(),
    ensures
        i <= comma_from(s, i) <= s.len(),
        comma_from(s, i) < s.len() ==> s[comma_from(s, i)] == ',',
        forall|k: int| i <= k < comma_from(s, i) ==> s[k] != ',',
    decreases s.len() - i,
{
    if i < s.len() && s[i] != ',' {
        lemma_comma_from_bounds(s, i + 1);
    }
}

/// The prefix entries of the comma-separated list `s`, from the entry that
/// starts at index `i` on: each entry loses its leading whitespace, and the
/// entries left empty are dropped.
pub open spec fn entries_from(s: Seq<char>, i: int) -> Seq<Seq<char>>
    decreases s.len() - i,
{
    if i < 0 || i > s.len() {
        Seq::empty()
    } else {
        let j = comma_from(s, i);
        proof {
            lemma_comma_from_bounds(s, i);
        }
        let head = trim_start(s.subrange(i, j));
        let rest = if j >= s.len() {
            Seq::empty()
        } else {
            entries_from(s, j + 1)
        };
        if head.len() == 0 {
            rest
        } else {
            seq![head] + rest
        }
    }
}

/// The prefix entries of the comma-separated list `s`.
pub open spec fn prefix_entries(s: Seq<char>) -> Seq<Seq<char>> {
    entries_from(s, 0)
}

/// The prefixes a matcher uses for the configured list `s`: its entries, or
/// the default list when it has none.
pub open spec fn configured_prefixes(s: Seq<char>) -> Seq<Seq<char>> {
    if prefix_entries(s).len() == 0 {
        default_prefixes()
    } else {
        prefix_entries(s)
    }
}

/// The configuration key that holds the prefix list: `prompt_prefixes`.
pub open spec fn prefixes_key() -> Seq<char> {
    seq!['p', 'r', 'o', 'm', 'p', 't', '_', 'p', 'r', 'e', 'f', 'i', 'x', 'e', 's']
}

/// Split the comma-separated prefix list `raw` into its entries. Whitespace
/// at the start of an entry is split noise and is dropped; whitespace inside
/// or at the end of an entry is kept. Empty entries are dropped.
pub fn parse_prompt_prefixes(raw: &str) -> (prefixes: Vec<String>)
    ensures
        string_views(prefixes@) == prefix_entries(raw@),
{
    let s = chars_of(raw);
    let len = s.len();
    let mut out: Vec<String> = Vec::new();
    let mut i: usize = 0;
    loop
        invariant
            len == s@.len(),
            s@ == raw@,
            0 <= i <= len,
            string_views(out@) + entries_from(s@, i as int) == entries_from(s@, 0),
        decreases len - i,
    {
        let mut j = i;
        while j < len && s[j] != ','
            invariant
                len == s@.len(),
                i <= j <= len,
                comma_from(s@, i as int) == comma_from(s@, j as int),
            decreases len - j,
        {
            j = j + 1;
        }
        proof {
            lemma_comma_from_bounds(s@, i as int);
        }
        let mut piece: Vec<char> = Vec::new();
        let mut k = i;
        while k < j
            invariant
                len == s@.len(),
                i <= k <= j <= len,
                piece@ == s@.subrange(i as int, k as int),
            decreases j - k,
        {
            piece.push(s[k]);
            assert(s@.subrange(i as int, k + 1) == s@.subrange(i as int, k as int).push(
                s@[k as int],
            ));
            k = k + 1;
        }
        let entry = trim_start_chars(&piece);
        let ghost before = string_views(out@);
        if entry.len() > 0 {
            let e = string_from_chars(entry.as_slice());
            out.push(e);
            assert(string_views(out@) == before.push(entry@));
        }
        if j == len {
            assert(entries_from(s@, j + 1) == Seq::<Seq<char>>::empty());
            return out;
        }
        i = j + 1;
    }
}

/// Build the prompt matcher from the prefix list `raw`: its entries, or the
/// default prefixes when it has none.
pub fn matcher_from_prefix_list(raw: &str) -> (m: PromptMatcher)
    ensures
        m@ == configured_prefixes(raw@),
{
    let prefixes = parse_prompt_prefixes(raw);
    PromptMatcher::new(prefixes)
}

/// The value that `config` stores under a key equal to `key`
/// (`BTreeMap::get`).
///
/// Claimed of the outside code: a value comes back exactly when the map holds
/// a key with the characters of `key`, and it is the value stored under every
/// such key (a map holds at most one key equal to `key`, as `String` and
/// `str` compare by their text).
#[verifier::external_body]
fn lookup<'a>(config: &'a BTreeMap<String, String>, key: &str) -> (v: Option<&'a String>)
    ensures
        match v {
            Some(v) => {
                &&& exists|k: String|
                    #![trigger config@.contains_key(k)]
                    config@.contains_key(k) && k@ == key@ && config@[k] == *v
                &&& forall|k: String|
                    #![trigger config@.contains_key(k)]
                    config@.contains_key(k) && k@ == key@ ==> config@[k] == *v
            },
            None => forall|k: String| #[trigger] config@.contains_key(k) ==> k@ != key@,
        },
{
    config.get(key)
}

/// Build the prompt matcher from plugin configuration.
///
/// `prompt_prefixes` is a comma-separated list of literal prefix strings.
/// Whitespace after a comma is stripped (split noise), but whitespace inside
/// an entry is preserved. An empty list (`""`, only commas, or the key
/// missing entirely) falls back to the default prefixes.
pub fn build_matcher(config: &BTreeMap<String, String>) -> (m: PromptMatcher)
    ensures
        // No `prompt_prefixes` key: the default prefixes.
        (forall|k: String| #[trigger] config@.contains_key(k) ==> k@ != prefixes_key())
            ==> m@ == default_prefixes(),
        // Otherwise: the prefixes that the stored list configures.
        forall|k: String|
            #![trigger config@.contains_key(k)]
            config@.contains_key(k) && k@ == prefixes_key() ==> m@ == configured_prefixes(
                config@[k]@,
            ),
{
    let key = "prompt_prefixes";
    proof {
        reveal_strlit("prompt_prefixes");
    }
    assert(key@ == prefixes_key());
    match lookup(config, key) {
        Some(raw) => matcher_from_prefix_list(raw.as_str()),
        None => {
            let m = matcher_from_prefix_list("");
            proof {
                reveal_strlit("");
                assert(prefix_entries(""@) == Seq::<Seq<char>>::empty());
            }
            m
        },
    }
}

/// The parts of an inbound pipe message that routing reads.
pub struct PipeMessage {
    /// The message name.
    pub name: String,
    /// The optional payload.
    pub payload: Option<String>,
}

/// The direction a pipe message asks for: the payload's when the payload
/// names one, else the name's.
pub open spec fn message_direction(name: Seq<char>, payload: Option<Seq<char>>) -> Option<
    JumpDir,
> {
    match payload {
        Some(p) if payload_direction(p) is Some => payload_direction(p),
        _ => payload_direction(name),
    }
}

/// Translate the inbound pipe message into a jump direction.
///
/// Two encodings are accepted: `name = "jump"` with a direction payload, or a
/// direction as the name. The payload wins when both look valid.
pub fn direction_from_msg(msg: &PipeMessage) -> (d: Option<JumpDir>)
    ensures
        d == message_direction(
            msg.name@,
            match msg.payload {
                Some(p) => Some(p@),
                None => None,
            },
        ),
{
    if let Some(payload) = &msg.payload {
        if let Some(dir) = JumpDir::from_payload(payload.as_str()) {
            return Some(dir);
        }
    }
    JumpDir::from_payload(msg.name.as_str())
}

/// A clean prefix entry: non-empty, free of commas, and not starting with
/// whitespace.
pub open spec fn is_clean_entry(e: Seq<char>) -> bool {
    &&& e.len() > 0
    &&& !is_unicode_whitespace(e[0])
    &&& forall|k: int| 0 <= k < e.len() ==> #[trigger] e[k] != ','
}

proof fn lemma_entries_from_clean(s: Seq<char>, i: int)
    requires
        0 <= i <= s.len(),
    ensures
        forall|k: int|
            0 <= k < entries_from(s, i).len() ==> is_clean_entry(#[trigger] entries_from(s, i)[k]),
    decreases s.len() - i,
{
    let j = comma_from(s, i);
    lemma_comma_from_bounds(s, i);
    let piece = s.subrange(i, j);
    let head = trim_start(piece);
    lemma_trim_start_head(piece);
    lemma_trim_start_suffix(piece);
    let n = choose|n: int| 0 <= n <= piece.len() && head == #[trigger] piece.skip(n);
    assert forall|k: int| 0 <= k < head.len() implies #[trigger] head[k] != ',' by {
        assert(head[k] == s[i + n + k]);
    }
    if j < s.len() {
        lemma_entries_from_clean(s, j + 1);
    }
    let rest = if j >= s.len() {
        Seq::<Seq<char>>::empty()
    } else {
        entries_from(s, j + 1)
    };
    if head.len() > 0 {
        let e = seq![head] + rest;
        assert(e == entries_from(s, i));
        assert forall|k: int| 0 <= k < e.len() implies is_clean_entry(#[trigger] e[k]) by {
            if k > 0 {
                assert(e[k] == rest[k - 1]);
            }
        }
    } else {
        assert(rest == entries_from(s, i));
    }
}

/// Every prefix read from a configured list is non-empty, free of commas and
/// does not start with whitespace, so stray commas never add a prefix that
/// matches every line; and a matcher built from any list has at least one
/// prefix.
pub proof fn lemma_configured_prefixes_clean(s: Seq<char>)
    ensures
        forall|k: int|
            0 <= k < prefix_entries(s).len() ==> is_clean_entry(#[trigger] prefix_entries(s)[k]),
        configured_prefixes(s).len() > 0,
{
    lemma_entries_from_clean(s, 0);
}

proof fn lemma_comma_from_shift(pre: Seq<char>, b: Seq<char>, j: int)
    requires
        0 <= j <= b.len(),
    ensures
        comma_from(pre + b, pre.len() + j) == comma_from(b, j) + pre.len(),
    decreases b.len() - j,
{
    if j < b.len() {
        assert((pre + b)[pre.len() + j] == b[j]);
        lemma_comma_from_shift(pre, b, j + 1);
    }
}

proof fn lemma_entries_from_shift(pre: Seq<char>, b: Seq<char>, j: int)
    requires
        0 <= j <= b.len(),
    ensures
        entries_from(pre + b, pre.len() + j) == entries_from(b, j),
    decreases b.len() - j,
{
    let s = pre + b;
    let i = pre.len() + j;
    lemma_comma_from_shift(pre, b, j);
    lemma_comma_from_bounds(b, j);
    let jb = comma_from(b, j);
    assert(s.subrange(i, jb + pre.len()) =~= b.subrange(j, jb));
    if jb < b.len() {
        lemma_entries_from_shift(pre, b, jb + 1);
    }
}

proof fn lemma_comma_from_before_separator(a: Seq<char>, b: Seq<char>, i: int)
    requires
        0 <= i <= a.len(),
    ensures
        comma_from(a + seq![','] + b, i) == comma_from(a, i),
    decreases a.len() - i,
{
    let s = a + seq![','] + b;
    if i < a.len() {
        assert(s[i] == a[i]);
        lemma_comma_from_before_separator(a, b, i + 1);
    } else {
        assert(s[i] == ',');
    }
}

proof fn lemma_entries_from_joined(a: Seq<char>, b: Seq<char>, i: int)
    requires
        0 <= i <= a.len(),
    ensures
        entries_from(a + seq![','] + b, i) == entries_from(a, i) + entries_from(b, 0),
    decreases a.len() - i,
{
    let s = a + seq![','] + b;
    lemma_comma_from_before_separator(a, b, i);
    lemma_comma_from_bounds(a, i);
    let j = comma_from(a, i);
    assert(s.subrange(i, j) =~= a.subrange(i, j));
    let head = trim_start(a.subrange(i, j));
    if j < a.len() {
        lemma_entries_from_joined(a, b, j + 1);
        if head.len() != 0 {
            assert(seq![head] + (entries_from(a, j + 1) + entries_from(b, 0)) == (seq![head]
                + entries_from(a, j + 1)) + entries_from(b, 0));
        }
    } else {
        let pre = a + seq![','];
        assert(s == pre + b);
        lemma_entries_from_shift(pre, b, 0);
        assert(entries_from(a, i) == (if head.len() == 0 {
            Seq::<Seq<char>>::empty()
        } else {
            seq![head] + Seq::<Seq<char>>::empty()
        }));
        if head.len() != 0 {
            assert(seq![head] + Seq::<Seq<char>>::empty() == seq![head]);
        } else {
            assert(Seq::<Seq<char>>::empty() + entries_from(b, 0) == entries_from(b, 0));
        }
    }
}

/// Joining two lists with a comma joins their entries: the entries of
/// `a,b` are those of `a` followed by those of `b`.
pub proof fn lemma_entries_of_joined_lists(a: Seq<char>, b: Seq<char>)
    ensures
        prefix_entries(a + seq![','] + b) == prefix_entries(a) + prefix_entries(b),
{
    lemma_entries_from_joined(a, b, 0);
}

/// A single entry that is non-empty, has no comma and does not start with
/// whitespace is read as itself, and a matcher built from it uses exactly it.
pub proof fn lemma_single_entry(e: Seq<char>)
    requires
        e.len() > 0,
        !is_unicode_whitespace(e[0]),
        forall|k: int| 0 <= k < e.len() ==> #[trigger] e[k] != ',',
    ensures
        prefix_entries(e) == seq![e],
        configured_prefixes(e) == seq![e],
{
    lemma_comma_from_bounds(e, 0);
    if comma_from(e, 0) < e.len() {
        assert(e[comma_from(e, 0)] == ',');
    }
    assert(e.subrange(0, e.len() as int) == e);
    assert(seq![e] + Seq::<Seq<char>>::empty() == seq![e]);
}

/// A configured list with at least one entry is used as is, every entry in
/// order; only a list with no entry falls back to the defaults `❯ ` and `❮ `.
pub proof fn lemma_configured_list_used_as_is(s: Seq<char>)
    ensures
        prefix_entries(s).len() > 0 ==> configured_prefixes(s) == prefix_entries(s),
        prefix_entries(s).len() == 0 ==> configured_prefixes(s) == seq![
            seq!['\u{276F}', ' '],
            seq!['\u{276E}', ' '],
        ],
{
}

} // verus!
