//! Character-level scanning primitives: trimming, first-occurrence search,
//! and the two delimiter-based field extractors that the header parser uses.

use vstd::prelude::*;

verus! {

/// The full-width colon that separates a task's name from its notes on a
/// header line. The ASCII colon is deliberately not recognized there.
pub const FULL_COLON: char = '\u{FF1A}';

/// The characters stripped from both ends of a field value.
pub open spec fn is_space_char(c: char) -> bool {
    c == ' ' || c == '\t' || c == '\r' || c == '\n'
}

fn is_space(c: char) -> (r: bool)
    ensures
        r == is_space_char(c),
{
    c == ' ' || c == '\t' || c == '\r' || c == '\n'
}

/// `s` with its leading whitespace removed.
pub open spec fn trim_left_spec(s: Seq<char>) -> Seq<char>
    decreases s.len(),
{
    if s.len() == 0 {
        s
    } else if is_space_char(s[0]) {
        trim_left_spec(s.drop_first())
    } else {
        s
    }
}

/// `s` with its trailing whitespace removed.
pub open spec fn trim_right_spec(s: Seq<char>) -> Seq<char>
    decreases s.len(),
{
    if s.len() == 0 {
        s
    } else if is_space_char(s.last()) {
        trim_right_spec(s.drop_last())
    } else {
        s
    }
}

/// `s` with whitespace removed from both ends.
pub open spec fn trim_spec(s: Seq<char>) -> Seq<char> {
    trim_right_spec(trim_left_spec(s))
}

/// If the first `i` characters of `s` are spaces and position `i` (when it
/// exists) is not a space, trimming on the left drops exactly those `i`.
pub proof fn lemma_trim_left_from(s: Seq<char>, i: int)
    requires
        0 <= i <= s.len(),
        forall|j: int| 0 <= j < i ==> is_space_char(s[j]),
        i == s.len() || !is_space_char(s[i]),
    ensures
        trim_left_spec(s) == s.subrange(i, s.len() as int),
    decreases i,
{
    if i == 0 {
        assert(s.subrange(0, s.len() as int) =~= s);
    } else {
        let t = s.drop_first();
        lemma_trim_left_from(t, i - 1);
        assert(t.subrange(i - 1, t.len() as int) =~= s.subrange(i, s.len() as int));
    }
}

/// If every character from position `m` on is a space and position `m - 1`
/// (when it exists) is not, trimming on the right keeps exactly `m` characters.
pub proof fn lemma_trim_right_to(s: Seq<char>, m: int)
    requires
        0 <= m <= s.len(),
        forall|k: int| m <= k < s.len() ==> is_space_char(s[k]),
        m == 0 || !is_space_char(s[m - 1]),
    ensures
        trim_right_spec(s) == s.subrange(0, m),
    decreases s.len() - m,
{
    if m == s.len() {
        assert(s.subrange(0, m) =~= s);
    } else {
        let t = s.drop_last();
        lemma_trim_right_to(t, m);
        assert(t.subrange(0, m) =~= s.subrange(0, m));
    }
}

pub proof fn lemma_trim_left_len(s: Seq<char>)
    ensures
        trim_left_spec(s).len() <= s.len(),
    decreases s.len(),
{
    if s.len() > 0 && is_space_char(s[0]) {
        lemma_trim_left_len(s.drop_first());
    }
}

pub proof fn lemma_trim_right_len(s: Seq<char>)
    ensures
        trim_right_spec(s).len() <= s.len(),
    decreases s.len(),
{
    if s.len() > 0 && is_space_char(s.last()) {
        lemma_trim_right_len(s.drop_last());
    }
}

/// A nonempty value that trimming leaves unchanged has no space at either
/// end.
pub proof fn lemma_trimmed_ends(s: Seq<char>)
    requires
        trim_spec(s) == s,
        s.len() > 0,
    ensures
        !is_space_char(s[0]),
        !is_space_char(s[s.len() - 1]),
{
    if is_space_char(s[0]) {
        lemma_trim_left_len(s.drop_first());
        lemma_trim_right_len(trim_left_spec(s));
        assert(trim_spec(s).len() < s.len());
    }
    assert(trim_left_spec(s) == s);
    if is_space_char(s[s.len() - 1]) {
        lemma_trim_right_len(s.drop_last());
        assert(trim_spec(s).len() < s.len());
    }
}

/// A value with no surrounding whitespace is unchanged by trimming.
pub proof fn lemma_trim_id(s: Seq<char>)
    requires
        s.len() == 0 || (!is_space_char(s[0]) && !is_space_char(s[s.len() - 1])),
    ensures
        trim_spec(s) == s,
{
    lemma_trim_left_from(s, 0);
    assert(s.subrange(0, s.len() as int) =~= s);
    lemma_trim_right_to(s, s.len() as int);
}

/// Trimming strips exactly the whitespace padding around an already-trimmed
/// value.
pub proof fn lemma_trim_space_around(v: Seq<char>, lead: Seq<char>, trail: Seq<char>)
    requires
        trim_spec(v) == v,
        forall|j: int| 0 <= j < lead.len() ==> is_space_char(#[trigger] lead[j]),
        forall|j: int| 0 <= j < trail.len() ==> is_space_char(#[trigger] trail[j]),
    ensures
        trim_spec(lead + v + trail) == v,
{
    let s = lead + v + trail;
    if v.len() == 0 {
        assert forall|j: int| 0 <= j < s.len() implies is_space_char(s[j]) by {
            if j < lead.len() {
                assert(s[j] == lead[j]);
            } else {
                assert(s[j] == trail[j - lead.len() - v.len()]);
            }
        }
        lemma_trim_left_from(s, s.len() as int);
        assert(s.subrange(s.len() as int, s.len() as int) =~= Seq::<char>::empty());
        assert(trim_right_spec(Seq::<char>::empty()) =~= Seq::<char>::empty());
        assert(trim_spec(s) =~= v);
    } else {
        lemma_trimmed_ends(v);
        assert forall|j: int| 0 <= j < lead.len() implies is_space_char(s[j]) by {
            assert(s[j] == lead[j]);
        }
        assert(s[lead.len() as int] == v[0]);
        lemma_trim_left_from(s, lead.len() as int);
        let s2 = s.subrange(lead.len() as int, s.len() as int);
        assert(s2 =~= v + trail);
        assert forall|k: int| v.len() <= k < s2.len() implies is_space_char(s2[k]) by {
            assert(s2[k] == trail[k - v.len()]);
        }
        assert(s2[v.len() - 1] == v[v.len() - 1]);
        lemma_trim_right_to(s2, v.len() as int);
        assert(s2.subrange(0, v.len() as int) =~= v);
    }
}

/// The trimmed slice of `s`.
pub fn trim_of<'a>(s: &'a str) -> (r: &'a str)
    ensures
        r@ == trim_spec(s@),
{
    let n = s.unicode_len();
    let mut i: usize = 0;
    while i < n && is_space(s.get_char(i))
        invariant
            n == s@.len(),
            0 <= i <= n,
            forall|j: int| 0 <= j < i ==> is_space_char(s@[j]),
        decreases n - i,
    {
        i = i + 1;
    }
    let mut j: usize = n;
    while j > i && is_space(s.get_char(j - 1))
        invariant
            n == s@.len(),
            i <= j <= n,
            forall|k: int| j <= k < n ==> is_space_char(s@[k]),
        decreases j,
    {
        j = j - 1;
    }
    proof {
        lemma_trim_left_from(s@, i as int);
        let t = s@.subrange(i as int, s@.len() as int);
        lemma_trim_right_to(t, j - i);
        assert(t.subrange(0, j - i) =~= s@.subrange(i as int, j as int));
    }
    s.substring_char(i, j)
}

/// The position of the first occurrence of `c` in `s`, when there is one.
pub open spec fn find_char(s: Seq<char>, c: char) -> Option<int>
    decreases s.len(),
{
    if s.len() == 0 {
        None
    } else if s[0] == c {
        Some(0int)
    } else {
        match find_char(s.drop_first(), c) {
            Some(i) => Some(i + 1),
            None => None,
        }
    }
}

/// What `find_char` returns: the first position holding `c`, or the absence
/// of `c` altogether.
pub proof fn lemma_find_char(s: Seq<char>, c: char)
    ensures
        match find_char(s, c) {
            Some(i) => 0 <= i < s.len() && s[i] == c && (forall|j: int| 0 <= j < i ==> s[j] != c),
            None => forall|j: int| 0 <= j < s.len() ==> s[j] != c,
        },
    decreases s.len(),
{
    if s.len() == 0 {
    } else if s[0] == c {
    } else {
        let t = s.drop_first();
        lemma_find_char(t, c);
        match find_char(t, c) {
            Some(i) => {
                assert(s[i + 1] == t[i]);
                assert forall|j: int| 0 <= j < i + 1 implies s[j] != c by {
                    if j >= 1 {
                        assert(t[j - 1] != c);
                    }
                }
            },
            None => {
                assert forall|j: int| 0 <= j < s.len() implies s[j] != c by {
                    if j >= 1 {
                        assert(t[j - 1] != c);
                    }
                }
            },
        }
    }
}

/// A position holding `c` with nothing but other characters ahead of it is
/// the one the search returns.
pub proof fn lemma_find_char_at(s: Seq<char>, c: char, p: int)
    requires
        0 <= p < s.len(),
        s[p] == c,
        forall|j: int| 0 <= j < p ==> s[j] != c,
    ensures
        find_char(s, c) == Some(p),
{
    lemma_find_char(s, c);
}

/// Scan `s` for the first occurrence of `c`.
pub fn find_char_in(s: &str, c: char) -> (r: Option<usize>)
    ensures
        match r {
            Some(i) => find_char(s@, c) == Some(i as int),
            None => find_char(s@, c) is None,
        },
{
    let n = s.unicode_len();
    let mut i: usize = 0;
    while i < n
        invariant
            n == s@.len(),
            0 <= i <= n,
            forall|j: int| 0 <= j < i ==> s@[j] != c,
        decreases n - i,
    {
        if s.get_char(i) == c {
            proof {
                lemma_find_char(s@, c);
            }
            return Some(i);
        }
        i = i + 1;
    }
    proof {
        lemma_find_char(s@, c);
    }
    None
}

/// The trimmed text strictly between the first occurrence of `left` and the
/// first occurrence of `right`. A missing `left` falls back to position 0 (the
/// scan starts right after it, at position 1), a missing `right` to the end of
/// the line; a crossed pair yields the empty value.
pub open spec fn text_between_spec(s: Seq<char>, left: char, right: char) -> Seq<char> {
    let start = match find_char(s, left) {
        Some(i) => i + 1,
        None => 1int,
    };
    let end = match find_char(s, right) {
        Some(i) => i,
        None => s.len() as int,
    };
    if start <= end {
        trim_spec(s.subrange(start, end))
    } else {
        Seq::empty()
    }
}

/// The trimmed remainder of the line after the first occurrence of `sep`,
/// or the empty value when `sep` does not occur.
pub open spec fn text_after_spec(s: Seq<char>, sep: char) -> Seq<char> {
    match find_char(s, sep) {
        Some(i) => trim_spec(s.subrange(i + 1, s.len() as int)),
        None => Seq::empty(),
    }
}

/// Extract the trimmed text between the first `left` and the first `right`.
pub fn get_text_between(s: &str, left: char, right: char) -> (r: String)
    ensures
        r@ == text_between_spec(s@, left, right),
{
    let n = s.unicode_len();
    let start: usize = match find_char_in(s, left) {
        Some(i) => {
            proof {
                lemma_find_char(s@, left);
            }
            i + 1
        },
        None => 1,
    };
    let end: usize = match find_char_in(s, right) {
        Some(i) => {
            proof {
                lemma_find_char(s@, right);
            }
            i
        },
        None => n,
    };
    if start <= end {
        let sub = s.substring_char(start, end);
        let t = trim_of(sub);
        String::from_str(t)
    } else {
        String::new()
    }
}

/// Extract the trimmed remainder of the line after the first `sep`.
pub fn get_text_after(s: &str, sep: char) -> (r: String)
    ensures
        r@ == text_after_spec(s@, sep),
{
    let n = s.unicode_len();
    match find_char_in(s, sep) {
        Some(i) => {
            proof {
                lemma_find_char(s@, sep);
            }
            let sub = s.substring_char(i + 1, n);
            let t = trim_of(sub);
            String::from_str(t)
        },
        None => String::new(),
    }
}

} // verus!
