//! Verified character-level text helpers: substring search, prefix tests,
//! whitespace trimming and single-character pushes, used by the cache
//! parser and the source adapters.

use vstd::prelude::*;

verus! {

use vstd::string::*;

/// `pat` occurs in `text` at character position `i`.
pub open spec fn occurs_at(text: Seq<char>, pat: Seq<char>, i: int) -> bool {
    &&& 0 <= i
    &&& i + pat.len() <= text.len()
    &&& text.subrange(i, i + pat.len() as int) == pat
}

/// `text` starts with `pat`.
pub open spec fn starts_with_spec(text: Seq<char>, pat: Seq<char>) -> bool {
    occurs_at(text, pat, 0)
}

/// The character position of the first occurrence of `pat` in `text`,
/// if there is one.
pub open spec fn first_match(text: Seq<char>, pat: Seq<char>) -> Option<int>
    decreases text.len(),
{
    if pat.len() > text.len() {
        None
    } else if text.subrange(0, pat.len() as int) =~= pat {
        Some(0)
    } else {
        match first_match(text.drop_first(), pat) {
            Some(i) => Some(i + 1),
            None => None,
        }
    }
}

proof fn lemma_occurs_shift(text: Seq<char>, pat: Seq<char>, i: int)
    requires
        1 <= i,
        text.len() >= 1,
    ensures
        occurs_at(text, pat, i) == occurs_at(text.drop_first(), pat, i - 1),
{
    if i - 1 + pat.len() <= text.drop_first().len() {
        assert(text.drop_first().subrange(i - 1, i - 1 + pat.len() as int) =~= text.subrange(
            i,
            i + pat.len() as int,
        ));
    }
}

/// If `pat` occurs at `i` and nowhere earlier, then `i` is the first match.
pub proof fn lemma_first_match_found(text: Seq<char>, pat: Seq<char>, i: int)
    requires
        occurs_at(text, pat, i),
        forall|j: int| 0 <= j < i ==> !occurs_at(text, pat, j),
    ensures
        first_match(text, pat) == Some(i),
    decreases i,
{
    if i == 0 {
        assert(text.subrange(0, pat.len() as int) == pat);
    } else {
        assert(!occurs_at(text, pat, 0));
        assert(text.subrange(0, pat.len() as int) != pat);
        lemma_occurs_shift(text, pat, i);
        assert forall|j: int| 0 <= j < i - 1 implies !occurs_at(text.drop_first(), pat, j) by {
            lemma_occurs_shift(text, pat, j + 1);
        }
        lemma_first_match_found(text.drop_first(), pat, i - 1);
    }
}

/// If `pat` occurs nowhere in `text`, there is no first match.
pub proof fn lemma_first_match_none(text: Seq<char>, pat: Seq<char>)
    requires
        forall|j: int| !occurs_at(text, pat, j),
    ensures
        first_match(text, pat) is None,
    decreases text.len(),
{
    assert(pat.len() > 0) by {
        if pat.len() == 0 {
            assert(text.subrange(0, 0) =~= pat);
            assert(occurs_at(text, pat, 0));
        }
    }
    if pat.len() <= text.len() {
        assert(!occurs_at(text, pat, 0));
        assert(text.subrange(0, pat.len() as int) != pat);
        assert forall|j: int| !occurs_at(text.drop_first(), pat, j) by {
            if 0 <= j {
                lemma_occurs_shift(text, pat, j + 1);
                assert(!occurs_at(text, pat, j + 1));
            }
        }
        lemma_first_match_none(text.drop_first(), pat);
    }
}

/// Whether `pat` occurs in `text` starting at character position `i`.
pub fn contains_at(text: &str, pat: &str, i: usize) -> (b: bool)
    requires
        i + pat@.len() <= text@.len(),
        text@.len() <= usize::MAX,
    ensures
        b == occurs_at(text@, pat@, i as int),
{
    let m: usize = pat.unicode_len();
    let mut j: usize = 0;
    while j < m
        invariant
            m == pat@.len(),
            0 <= j <= m,
            i + m <= text@.len(),
            text@.len() <= usize::MAX,
            forall|k: int| 0 <= k < j ==> text@[i + k] == pat@[k],
        decreases m - j,
    {
        if text.get_char(i + j) != pat.get_char(j) {
            assert(text@.subrange(i as int, i + m) != pat@) by {
                if text@.subrange(i as int, i + m) == pat@ {
                    assert(text@.subrange(i as int, i + m)[j as int] == pat@[j as int]);
                }
            }
            return false;
        }
        j += 1;
    }
    assert(text@.subrange(i as int, i + m) =~= pat@);
    true
}

/// The first occurrence of `pat` in `text`, as a character position.
pub fn find_sub(text: &str, pat: &str) -> (r: Option<usize>)
    ensures
        match r {
            Some(i) => i + pat@.len() <= text@.len() && first_match(text@, pat@) == Some(i as int),
            None => first_match(text@, pat@) is None,
        },
{
    let n: usize = text.unicode_len();
    let m: usize = pat.unicode_len();
    if m > n {
        proof {
            assert(forall|j: int| !occurs_at(text@, pat@, j));
            lemma_first_match_none(text@, pat@);
        }
        return None;
    }
    if m == 0 {
        proof {
            assert(text@.subrange(0, 0) =~= pat@);
            assert(occurs_at(text@, pat@, 0));
            lemma_first_match_found(text@, pat@, 0);
        }
        return Some(0);
    }
    let limit: usize = n - m;
    let mut i: usize = 0;
    while i <= limit
        invariant
            n == text@.len(),
            m == pat@.len(),
            1 <= m <= n,
            limit == n - m,
            0 <= i <= limit + 1,
            forall|j: int| 0 <= j < i ==> !occurs_at(text@, pat@, j),
        decreases limit + 1 - i,
    {
        if contains_at(text, pat, i) {
            proof {
                lemma_first_match_found(text@, pat@, i as int);
            }
            return Some(i);
        }
        i += 1;
    }
    proof {
        assert(forall|j: int| !occurs_at(text@, pat@, j));
        lemma_first_match_none(text@, pat@);
    }
    None
}

/// A first match lies within `text`.
pub proof fn lemma_first_match_bounds(text: Seq<char>, pat: Seq<char>)
    ensures
        first_match(text, pat) matches Some(i) ==> 0 <= i && i + pat.len() <= text.len(),
    decreases text.len(),
{
    if pat.len() > text.len() {
    } else if text.subrange(0, pat.len() as int) =~= pat {
    } else {
        lemma_first_match_bounds(text.drop_first(), pat);
    }
}

/// A single character occurs at `i` exactly when it stands at `i`.
pub proof fn lemma_occurs_single(text: Seq<char>, c: char, i: int)
    requires
        0 <= i < text.len(),
    ensures
        occurs_at(text, seq![c], i) <==> text[i] == c,
{
    if text[i] == c {
        assert(text.subrange(i, i + 1) =~= seq![c]);
    }
    if occurs_at(text, seq![c], i) {
        assert(text.subrange(i, i + 1)[0] == text[i]);
    }
}

/// Whether the two strings hold the same characters.
pub fn str_eq(a: &str, b: &str) -> (r: bool)
    ensures
        r == (a@ == b@),
{
    let n: usize = a.unicode_len();
    let m: usize = b.unicode_len();
    if n != m {
        return false;
    }
    let r = contains_at(a, b, 0);
    proof {
        if occurs_at(a@, b@, 0) {
            assert(a@.subrange(0, n as int) =~= a@);
        }
        if a@ == b@ {
            assert(a@.subrange(0, n as int) =~= b@);
        }
    }
    r
}

/// Strict lexicographic order on character sequences, by code point,
/// with a proper prefix ordered before its extensions.
pub open spec fn seq_lex_lt(a: Seq<char>, b: Seq<char>) -> bool
    decreases a.len(),
{
    if b.len() == 0 {
        false
    } else if a.len() == 0 {
        true
    } else if a[0] != b[0] {
        a[0] < b[0]
    } else {
        seq_lex_lt(a.drop_first(), b.drop_first())
    }
}

/// Lexicographic order relates every pair: two sequences are equal or
/// one is strictly below the other.
pub proof fn lemma_lex_connex(a: Seq<char>, b: Seq<char>)
    ensures
        a =~= b || seq_lex_lt(a, b) || seq_lex_lt(b, a),
    decreases a.len(),
{
    if a.len() > 0 && b.len() > 0 && a[0] == b[0] {
        lemma_lex_connex(a.drop_first(), b.drop_first());
        if a.drop_first() =~= b.drop_first() {
            assert forall|i: int| 0 <= i < a.len() implies a[i] == b[i] by {
                if i >= 1 {
                    assert(a.drop_first()[i - 1] == b.drop_first()[i - 1]);
                }
            }
            assert(a =~= b);
        }
    }
}

/// At most one of `seq_lex_lt(a, b)` and `seq_lex_lt(b, a)` holds.
pub proof fn lemma_lex_asymmetric(a: Seq<char>, b: Seq<char>)
    ensures
        !(seq_lex_lt(a, b) && seq_lex_lt(b, a)),
    decreases a.len(),
{
    if a.len() > 0 && b.len() > 0 && a[0] == b[0] {
        lemma_lex_asymmetric(a.drop_first(), b.drop_first());
    }
}

/// Lexicographic order is transitive.
pub proof fn lemma_lex_transitive(a: Seq<char>, b: Seq<char>, c: Seq<char>)
    requires
        seq_lex_lt(a, b),
        seq_lex_lt(b, c),
    ensures
        seq_lex_lt(a, c),
    decreases a.len(),
{
    if a.len() > 0 && b.len() > 0 && c.len() > 0 && a[0] == b[0] && b[0] == c[0] {
        lemma_lex_transitive(a.drop_first(), b.drop_first(), c.drop_first());
    }
}

/// Whether `a` is strictly below `b` in lexicographic order.
pub fn str_lex_lt(a: &str, b: &str) -> (r: bool)
    ensures
        r == seq_lex_lt(a@, b@),
{
    let n: usize = a.unicode_len();
    let m: usize = b.unicode_len();
    proof {
        assert(a@.subrange(0, n as int) =~= a@);
        assert(b@.subrange(0, m as int) =~= b@);
    }
    let mut i: usize = 0;
    while i < n && i < m
        invariant
            n == a@.len(),
            m == b@.len(),
            0 <= i <= n,
            i <= m,
            seq_lex_lt(a@, b@) == seq_lex_lt(
                a@.subrange(i as int, n as int),
                b@.subrange(i as int, m as int),
            ),
            forall|k: int| 0 <= k < i ==> a@[k] == b@[k],
        decreases n - i,
    {
        let ca = a.get_char(i);
        let cb = b.get_char(i);
        proof {
            let ra = a@.subrange(i as int, n as int);
            let rb = b@.subrange(i as int, m as int);
            assert(ra[0] == a@[i as int]);
            assert(rb[0] == b@[i as int]);
            assert(ra.drop_first() =~= a@.subrange(i + 1, n as int));
            assert(rb.drop_first() =~= b@.subrange(i + 1, m as int));
        }
        if ca != cb {
            return ca < cb;
        }
        i += 1;
    }
    proof {
        let ra = a@.subrange(i as int, n as int);
        let rb = b@.subrange(i as int, m as int);
        if i >= m {
            assert(rb.len() == 0);
        } else {
            assert(ra.len() == 0);
            assert(rb.len() > 0);
        }
    }
    n < m
}

/// Whether `text` starts with `prefix`.
pub fn starts_with_str(text: &str, prefix: &str) -> (b: bool)
    ensures
        b == starts_with_spec(text@, prefix@),
{
    let n: usize = text.unicode_len();
    let m: usize = prefix.unicode_len();
    if m > n {
        return false;
    }
    contains_at(text, prefix, 0)
}

/// The character position just after the last occurrence of `c`, if any.
pub open spec fn last_index_of(text: Seq<char>, c: char) -> Option<int>
    decreases text.len(),
{
    if text.len() == 0 {
        None
    } else if text.last() == c {
        Some(text.len() - 1)
    } else {
        last_index_of(text.drop_last(), c)
    }
}

proof fn lemma_last_index_found(text: Seq<char>, c: char, i: int)
    requires
        0 <= i < text.len(),
        text[i] == c,
        forall|j: int| i < j < text.len() ==> text[j] != c,
    ensures
        last_index_of(text, c) == Some(i),
    decreases text.len(),
{
    if i == text.len() - 1 {
    } else {
        assert(text.last() != c);
        assert(text.drop_last()[i] == c);
        lemma_last_index_found(text.drop_last(), c, i);
    }
}

/// A character that occurs nowhere has no last occurrence.
pub proof fn lemma_last_index_none(text: Seq<char>, c: char)
    requires
        forall|j: int| 0 <= j < text.len() ==> text[j] != c,
    ensures
        last_index_of(text, c) is None,
    decreases text.len(),
{
    if text.len() > 0 {
        lemma_last_index_none(text.drop_last(), c);
    }
}

/// The position of the last occurrence of `c` in `text`.
pub fn rfind_char(text: &str, c: char) -> (r: Option<usize>)
    ensures
        match r {
            Some(i) => i < text@.len() && last_index_of(text@, c) == Some(i as int),
            None => last_index_of(text@, c) is None,
        },
{
    let n: usize = text.unicode_len();
    let mut i: usize = n;
    while i > 0
        invariant
            n == text@.len(),
            0 <= i <= n,
            forall|j: int| i <= j < n ==> text@[j] != c,
        decreases i,
    {
        i -= 1;
        if text.get_char(i) == c {
            proof {
                lemma_last_index_found(text@, c, i as int);
            }
            return Some(i);
        }
    }
    proof {
        lemma_last_index_none(text@, c);
    }
    None
}

/// The whitespace characters stripped by [`trim_spaces`].
pub open spec fn is_space(c: char) -> bool {
    c == ' ' || c == '\t' || c == '\r' || c == '\n'
}

/// `text` with leading whitespace removed.
pub open spec fn ltrim(text: Seq<char>) -> Seq<char>
    decreases text.len(),
{
    if text.len() > 0 && is_space(text[0]) {
        ltrim(text.drop_first())
    } else {
        text
    }
}

/// `text` with trailing whitespace removed.
pub open spec fn rtrim(text: Seq<char>) -> Seq<char>
    decreases text.len(),
{
    if text.len() > 0 && is_space(text.last()) {
        rtrim(text.drop_last())
    } else {
        text
    }
}

/// `text` with leading and trailing whitespace removed.
pub open spec fn trim_spec(text: Seq<char>) -> Seq<char> {
    rtrim(ltrim(text))
}

/// Trimming a text whose ends are not whitespace leaves it unchanged.
pub proof fn lemma_trim_clean(s: Seq<char>)
    requires
        s.len() > 0,
        !is_space(s[0]),
        !is_space(s.last()),
    ensures
        trim_spec(s) == s,
{
    assert(ltrim(s) == s);
    assert(rtrim(s) == s);
}

/// `text` with leading and trailing whitespace (spaces, tabs, carriage
/// returns, newlines) removed.
pub fn trim_spaces<'a>(text: &'a str) -> (r: &'a str)
    ensures
        r@ == trim_spec(text@),
{
    let n: usize = text.unicode_len();
    proof {
        assert(text@.subrange(0, n as int) =~= text@);
    }
    let mut lo: usize = 0;
    while lo < n && is_space_char(text.get_char(lo))
        invariant
            n == text@.len(),
            0 <= lo <= n,
            ltrim(text@) == ltrim(text@.subrange(lo as int, n as int)),
        decreases n - lo,
    {
        proof {
            let rest = text@.subrange(lo as int, n as int);
            assert(rest.drop_first() =~= text@.subrange(lo + 1, n as int));
        }
        lo += 1;
    }
    proof {
        let rest = text@.subrange(lo as int, n as int);
        if lo < n {
            assert(rest[0] == text@[lo as int]);
        }
        assert(ltrim(rest) == rest);
    }
    let mut hi: usize = n;
    while hi > lo && is_space_char(text.get_char(hi - 1))
        invariant
            n == text@.len(),
            lo <= hi <= n,
            ltrim(text@) == text@.subrange(lo as int, n as int),
            rtrim(text@.subrange(lo as int, n as int)) == rtrim(
                text@.subrange(lo as int, hi as int),
            ),
        decreases hi,
    {
        proof {
            let part = text@.subrange(lo as int, hi as int);
            assert(part.last() == text@[hi - 1]);
            assert(part.drop_last() =~= text@.subrange(lo as int, hi - 1));
        }
        hi -= 1;
    }
    proof {
        let part = text@.subrange(lo as int, hi as int);
        if hi > lo {
            assert(part.last() == text@[hi - 1]);
        }
        assert(rtrim(part) == part);
    }
    text.substring_char(lo, hi)
}

/// Whether `c` is one of the whitespace characters of [`is_space`].
pub fn is_space_char(c: char) -> (b: bool)
    ensures
        b == is_space(c),
{
    c == ' ' || c == '\t' || c == '\r' || c == '\n'
}

/// Appends one character to a string.
///
/// Relies on `String::push`: it appends exactly the given character.
#[verifier::external_body]
pub fn push_char(s: &mut String, c: char)
    ensures
        final(s)@ == old(s)@.push(c),
{
    s.push(c);
}

/// A string holding the single character `c`.
pub fn char_to_string(c: char) -> (r: String)
    ensures
        r@ =~= seq![c],
{
    let mut s = String::new();
    push_char(&mut s, c);
    s
}

} // verus!
