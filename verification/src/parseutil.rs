//! Small string utilities the line parser is built from: prefix tests,
//! whitespace trimming, and `key: value` splitting.

use vstd::prelude::*;
use vstd::string::StrSliceExecFns;

verus! {

/// A character the parser treats as whitespace.
pub open spec fn is_white(c: char) -> bool {
    c == ' ' || c == '\t' || c == '\r' || c == '\n'
}

/// All characters of `s` are whitespace.
pub open spec fn all_white(s: Seq<char>) -> bool {
    forall|i: int| 0 <= i < s.len() ==> is_white(#[trigger] s[i])
}

/// Number of leading whitespace characters of `s`.
pub open spec fn white_prefix_len(s: Seq<char>) -> int
    decreases s.len(),
{
    if s.len() == 0 || !is_white(s[0]) {
        0
    } else {
        1 + white_prefix_len(s.subrange(1, s.len() as int))
    }
}

/// Number of trailing whitespace characters of `s`.
pub open spec fn white_suffix_len(s: Seq<char>) -> int
    decreases s.len(),
{
    if s.len() == 0 || !is_white(s[s.len() - 1]) {
        0
    } else {
        1 + white_suffix_len(s.subrange(0, s.len() - 1))
    }
}

/// `s` with leading and trailing whitespace removed.
pub open spec fn trimmed(s: Seq<char>) -> Seq<char> {
    let lead = white_prefix_len(s);
    if lead == s.len() {
        Seq::empty()
    } else {
        s.subrange(lead, s.len() - white_suffix_len(s))
    }
}

/// `lead` counts the leading whitespace of `s` exactly when everything
/// before it is whitespace and it does not point at whitespace itself.
proof fn lemma_prefix_len_determined(s: Seq<char>, lead: int)
    requires
        0 <= lead <= s.len(),
        forall|j: int| 0 <= j < lead ==> is_white(#[trigger] s[j]),
        lead < s.len() ==> !is_white(s[lead]),
    ensures
        lead == white_prefix_len(s),
    decreases s.len(),
{
    if s.len() == 0 || !is_white(s[0]) {
    } else {
        let s1 = s.subrange(1, s.len() as int);
        assert forall|j: int| 0 <= j < lead - 1 implies is_white(#[trigger] s1[j]) by {
            assert(s1[j] == s[j + 1]);
        }
        assert(lead - 1 < s1.len() ==> !is_white(s1[lead - 1]));
        lemma_prefix_len_determined(s1, lead - 1);
    }
}

/// The counterpart of `lemma_prefix_len_determined` for the trailing
/// whitespace of `s`.
proof fn lemma_suffix_len_determined(s: Seq<char>, tail: int)
    requires
        0 <= tail <= s.len(),
        forall|j: int| tail <= j < s.len() ==> is_white(#[trigger] s[j]),
        tail > 0 ==> !is_white(s[tail - 1]),
    ensures
        s.len() - tail == white_suffix_len(s),
    decreases s.len(),
{
    if s.len() == 0 || !is_white(s[s.len() - 1]) {
    } else {
        assert(tail < s.len());
        let s1 = s.subrange(0, s.len() - 1);
        assert forall|j: int| tail <= j < s1.len() implies is_white(#[trigger] s1[j]) by {
            assert(s1[j] == s[j]);
        }
        lemma_suffix_len_determined(s1, tail);
    }
}

/// The leading whitespace of `s` lies within `s`, is whitespace, and
/// stops at the first non-whitespace character.
pub proof fn lemma_white_prefix_facts(s: Seq<char>)
    ensures
        0 <= white_prefix_len(s) <= s.len(),
        forall|i: int| 0 <= i < white_prefix_len(s) ==> is_white(#[trigger] s[i]),
        white_prefix_len(s) < s.len() ==> !is_white(s[white_prefix_len(s)]),
    decreases s.len(),
{
    if s.len() == 0 || !is_white(s[0]) {
    } else {
        let s1 = s.subrange(1, s.len() as int);
        lemma_white_prefix_facts(s1);
        assert forall|i: int| 0 <= i < white_prefix_len(s) implies is_white(#[trigger] s[i]) by {
            if i >= 1 {
                assert(s1[i - 1] == s[i]);
            }
        }
        assert(white_prefix_len(s) < s.len() ==> s[white_prefix_len(s)] == s1[white_prefix_len(
            s1,
        )]);
    }
}

/// Does `s` start with `start`, character for character?
pub fn string_matches_start(s: &str, start: &str) -> (r: bool)
    ensures
        r == (s@.len() >= start@.len() && s@.subrange(0, start@.len() as int) == start@),
{
    let n = start.unicode_len();
    if s.unicode_len() < n {
        return false;
    }
    let mut i: usize = 0;
    while i < n
        invariant
            0 <= i <= n,
            n == start@.len(),
            s@.len() >= n,
            forall|j: int| 0 <= j < i ==> s@[j] == start@[j],
        decreases n - i,
    {
        if s.get_char(i) != start.get_char(i) {
            assert(s@.subrange(0, n as int) != start@);
            return false;
        }
        i = i + 1;
    }
    assert(s@.subrange(0, n as int) =~= start@);
    true
}

/// The rest of `s` after the prefix `start`, or `None` when `s` does not
/// start with it.
pub fn string_remove_start<'a>(s: &'a str, start: &str) -> (r: Option<&'a str>)
    ensures
        match r {
            Some(rest) => s@.len() >= start@.len() && s@.subrange(0, start@.len() as int)
                == start@ && rest@ == s@.subrange(start@.len() as int, s@.len() as int),
            None => !(s@.len() >= start@.len() && s@.subrange(0, start@.len() as int)
                == start@),
        },
{
    if string_matches_start(s, start) {
        Some(s.substring_char(start.unicode_len(), s.unicode_len()))
    } else {
        None
    }
}

/// Are the two strings equal, character for character?
pub fn str_eq(a: &str, b: &str) -> (r: bool)
    ensures
        r == (a@ == b@),
{
    let n = a.unicode_len();
    if b.unicode_len() != n {
        return false;
    }
    let mut i: usize = 0;
    while i < n
        invariant
            0 <= i <= n,
            n == a@.len() == b@.len(),
            forall|j: int| 0 <= j < i ==> a@[j] == b@[j],
        decreases n - i,
    {
        if a.get_char(i) != b.get_char(i) {
            return false;
        }
        i = i + 1;
    }
    assert(a@ =~= b@);
    true
}

/// Is every character of `s` whitespace?
pub fn is_all_white(s: &str) -> (r: bool)
    ensures
        r == all_white(s@),
{
    let n = s.unicode_len();
    let mut i: usize = 0;
    while i < n
        invariant
            0 <= i <= n,
            n == s@.len(),
            forall|j: int| 0 <= j < i ==> is_white(#[trigger] s@[j]),
        decreases n - i,
    {
        let c = s.get_char(i);
        if !(c == ' ' || c == '\t' || c == '\r' || c == '\n') {
            return false;
        }
        i = i + 1;
    }
    true
}

/// `s` with leading and trailing whitespace removed.
pub fn cleanwhite(s: &str) -> (r: &str)
    ensures
        r@ == trimmed(s@),
{
    let n = s.unicode_len();
    let mut lead: usize = 0;
    while lead < n
        invariant
            0 <= lead <= n,
            n == s@.len(),
            forall|j: int| 0 <= j < lead ==> is_white(#[trigger] s@[j]),
        ensures
            0 <= lead <= n,
            n == s@.len(),
            forall|j: int| 0 <= j < lead ==> is_white(#[trigger] s@[j]),
            lead < n ==> !is_white(s@[lead as int]),
        decreases n - lead,
    {
        let c = s.get_char(lead);
        if !(c == ' ' || c == '\t' || c == '\r' || c == '\n') {
            break;
        }
        lead = lead + 1;
    }
    proof {
        lemma_prefix_len_determined(s@, lead as int);
    }
    if lead == n {
        let r = s.substring_char(n, n);
        assert(r@ =~= trimmed(s@));
        return r;
    }
    let mut tail: usize = n;
    while tail > lead
        invariant
            lead <= tail <= n,
            n == s@.len(),
            lead < n,
            !is_white(s@[lead as int]),
            forall|j: int| tail <= j < n ==> is_white(#[trigger] s@[j]),
        ensures
            lead < tail <= n,
            !is_white(s@[tail - 1]),
            forall|j: int| tail <= j < n ==> is_white(#[trigger] s@[j]),
        decreases tail,
    {
        let c = s.get_char(tail - 1);
        if !(c == ' ' || c == '\t' || c == '\r' || c == '\n') {
            break;
        }
        tail = tail - 1;
    }
    proof {
        lemma_suffix_len_determined(s@, tail as int);
    }
    let r = s.substring_char(lead, tail);
    assert(r@ =~= trimmed(s@));
    r
}

/// Index of the first occurrence of `c` in `s`, or the length of `s`
/// when there is none.
pub open spec fn char_index(s: Seq<char>, c: char) -> int
    decreases s.len(),
{
    if s.len() == 0 {
        0
    } else if s[0] == c {
        0
    } else {
        1 + char_index(s.subrange(1, s.len() as int), c)
    }
}

/// `k` is the index of the first `c` of `s` exactly when no `c` stands
/// before it and it points at a `c` or at the end of `s`.
pub proof fn lemma_char_index_determined(s: Seq<char>, c: char, k: int)
    requires
        0 <= k <= s.len(),
        forall|i: int| 0 <= i < k ==> s[i] != c,
        k < s.len() ==> s[k] == c,
    ensures
        k == char_index(s, c),
    decreases s.len(),
{
    if s.len() == 0 || s[0] == c {
    } else {
        let s1 = s.subrange(1, s.len() as int);
        assert forall|i: int| 0 <= i < k - 1 implies s1[i] != c by {
            assert(s1[i] == s[i + 1]);
        }
        assert(k - 1 < s1.len() ==> s1[k - 1] == c);
        lemma_char_index_determined(s1, c, k - 1);
    }
}

/// Basic facts about `char_index`: it lies within the string, nothing
/// before it is `c`, and it points at `c` unless `c` does not occur.
pub proof fn lemma_char_index(s: Seq<char>, c: char)
    ensures
        0 <= char_index(s, c) <= s.len(),
        forall|i: int| 0 <= i < char_index(s, c) ==> s[i] != c,
        char_index(s, c) < s.len() ==> s[char_index(s, c)] == c,
    decreases s.len(),
{
    if s.len() == 0 || s[0] == c {
    } else {
        let s1 = s.subrange(1, s.len() as int);
        lemma_char_index(s1, c);
        assert forall|i: int| 0 <= i < char_index(s, c) implies s[i] != c by {
            if i >= 1 {
                assert(s1[i - 1] == s[i]);
            }
        }
        assert(char_index(s, c) < s.len() ==> s[char_index(s, c)] == s1[char_index(s1, c)]);
    }
}

/// Index of the first occurrence of `c` in `s`, or `None` when `c` does
/// not occur.
pub fn find_char(s: &str, c: char) -> (r: Option<usize>)
    ensures
        match r {
            Some(i) => i == char_index(s@, c) && i < s@.len(),
            None => char_index(s@, c) == s@.len(),
        },
{
    let n = s.unicode_len();
    let mut i: usize = 0;
    while i < n
        invariant
            0 <= i <= n,
            n == s@.len(),
            forall|j: int| 0 <= j < i ==> s@[j] != c,
        decreases n - i,
    {
        if s.get_char(i) == c {
            proof {
                lemma_char_index_determined(s@, c, i as int);
            }
            return Some(i);
        }
        i = i + 1;
    }
    proof {
        lemma_char_index_determined(s@, c, n as int);
    }
    None
}

/// Split `s` at its first `:` into the text before and after it; `None`
/// when `s` holds no `:`.
pub fn key_val<'a>(s: &'a str) -> (r: Option<(&'a str, &'a str)>)
    ensures
        match r {
            Some((key, val)) => {
                let k = char_index(s@, ':');
                &&& k < s@.len()
                &&& key@ == s@.subrange(0, k)
                &&& val@ == s@.subrange(k + 1, s@.len() as int)
            },
            None => char_index(s@, ':') == s@.len(),
        },
{
    let n = s.unicode_len();
    let mut i: usize = 0;
    while i < n
        invariant
            0 <= i <= n,
            n == s@.len(),
            forall|j: int| 0 <= j < i ==> s@[j] != ':',
        decreases n - i,
    {
        if s.get_char(i) == ':' {
            proof {
                lemma_char_index_determined(s@, ':', i as int);
            }
            let key = s.substring_char(0, i);
            let val = s.substring_char(i + 1, n);
            return Some((key, val));
        }
        i = i + 1;
    }
    proof {
        lemma_char_index_determined(s@, ':', n as int);
    }
    None
}

/// The rest of `s` after its leading whitespace, provided there is some
/// leading whitespace; `None` when `s` is empty or starts with a
/// non-whitespace character.
pub fn after_white<'a>(s: &'a str) -> (r: Option<&'a str>)
    ensures
        match r {
            Some(rest) => s@.len() > 0 && is_white(s@[0]) && rest@ == s@.subrange(
                white_prefix_len(s@),
                s@.len() as int,
            ),
            None => s@.len() == 0 || !is_white(s@[0]),
        },
{
    let n = s.unicode_len();
    if n == 0 {
        return None;
    }
    let c0 = s.get_char(0);
    if !(c0 == ' ' || c0 == '\t' || c0 == '\r' || c0 == '\n') {
        return None;
    }
    let mut lead: usize = 1;
    while lead < n
        invariant
            1 <= lead <= n,
            n == s@.len(),
            forall|j: int| 0 <= j < lead ==> is_white(#[trigger] s@[j]),
        ensures
            1 <= lead <= n,
            forall|j: int| 0 <= j < lead ==> is_white(#[trigger] s@[j]),
            lead < n ==> !is_white(s@[lead as int]),
        decreases n - lead,
    {
        let c = s.get_char(lead);
        if !(c == ' ' || c == '\t' || c == '\r' || c == '\n') {
            break;
        }
        lead = lead + 1;
    }
    proof {
        lemma_prefix_len_determined(s@, lead as int);
    }
    Some(s.substring_char(lead, n))
}

} // verus!
