//! The URL cache: a persisted mapping from dates to image URLs, stored
//! as text rows `YYYY-MM-DD url`, with URLs minified against a known
//! base prefix.  Parsing, lookup, row formatting and normalization.

use vstd::prelude::*;

verus! {

use vstd::multiset::Multiset;
use vstd::string::*;
use crate::dates::{Date, date_from_filename, date_from_filename_spec, date_token, format_date};
use crate::digits::{dec_str, dec_str_pad2, dec_str_pad4, is_digit, lemma_dec_str_digits};
use crate::strings::is_space;
use crate::strings::{
    find_sub,
    first_match,
    lemma_first_match_bounds,
    ltrim,
    rtrim,
    seq_lex_lt,
    starts_with_spec,
    starts_with_str,
    trim_spaces,
    trim_spec,
};

/// The base prefix stripped from cached image URLs.
pub const IMAGE_URL_BASE: &'static str = "https://assets.amuniversal.com/";

/// Whether a cache source names a remote resource rather than a local
/// file: it starts with an `http://` or `https://` scheme.
pub open spec fn is_remote_url_spec(url: Seq<char>) -> bool {
    starts_with_spec(url, "http://"@) || starts_with_spec(url, "https://"@)
}

/// Whether a cache source names a remote resource.
pub fn is_remote_url(url: &str) -> (b: bool)
    ensures
        b == is_remote_url_spec(url@),
{
    starts_with_str(url, "http://") || starts_with_str(url, "https://")
}

/// Splits at the first space: the part before it, and the part from it
/// on (the space included).  Nothing when there is no space.
pub open spec fn split_first_word_spec(s: Seq<char>) -> Option<(Seq<char>, Seq<char>)> {
    match first_match(s, seq![' ']) {
        None => None,
        Some(i) => Some((s.subrange(0, i), s.subrange(i, s.len() as int))),
    }
}

/// Splits at the first space, keeping the space with the second part.
pub fn split_first_word<'a>(string: &'a str) -> (r: Option<(&'a str, &'a str)>)
    ensures
        match split_first_word_spec(string@) {
            Some(p) => r matches Some(q) && q.0@ == p.0 && q.1@ == p.1,
            None => r is None,
        },
{
    proof {
        reveal_strlit(" ");
        assert(" "@ =~= seq![' ']);
    }
    match find_sub(string, " ") {
        None => None,
        Some(i) => {
            let n: usize = string.unicode_len();
            Some((string.substring_char(0, i), string.substring_char(i, n)))
        },
    }
}

/// The minified form of an image URL: the known base prefix stripped,
/// the URL itself when it does not carry that prefix.
pub open spec fn minify_spec(url: Seq<char>) -> Seq<char> {
    if starts_with_spec(url, IMAGE_URL_BASE@) {
        url.subrange(IMAGE_URL_BASE@.len() as int, url.len() as int)
    } else {
        url
    }
}

/// Strips the known base prefix from an image URL, if it carries it.
pub fn minify_image_url<'a>(url: &'a str) -> (r: &'a str)
    ensures
        r@ == minify_spec(url@),
{
    let base_len: usize = IMAGE_URL_BASE.unicode_len();
    if starts_with_str(url, IMAGE_URL_BASE) {
        url.substring_char(base_len, url.unicode_len())
    } else {
        url
    }
}

/// The expanded form of a stored image URL token: a token already
/// carrying an `http(s)://` scheme is a full URL and is kept
/// unchanged; only a scheme-less (minified) token gets the base
/// prefix put back.
pub open spec fn expand_spec(minified: Seq<char>) -> Seq<char> {
    if is_remote_url_spec(minified) {
        minified
    } else {
        IMAGE_URL_BASE@ + minified
    }
}

/// Puts the known base prefix back onto a minified image URL token;
/// a token that is already a full URL is kept unchanged.
pub fn expand_image_url(minified: &str) -> (r: String)
    ensures
        r@ == expand_spec(minified@),
{
    if is_remote_url(minified) {
        minified.to_owned()
    } else {
        let base = IMAGE_URL_BASE.to_owned();
        base.concat(minified)
    }
}

/// The URL recorded for `d`: that of the latest entry bearing `d`.
pub open spec fn lookup_in(entries: Seq<(Date, Seq<char>)>, d: Date) -> Option<Seq<char>>
    decreases entries.len(),
{
    if entries.len() == 0 {
        None
    } else if entries.last().0 == d {
        Some(entries.last().1)
    } else {
        lookup_in(entries.drop_last(), d)
    }
}

proof fn lemma_lookup_found(entries: Seq<(Date, Seq<char>)>, d: Date, i: int)
    requires
        0 <= i < entries.len(),
        entries[i].0 == d,
        forall|j: int| i < j < entries.len() ==> (#[trigger] entries[j]).0 != d,
    ensures
        lookup_in(entries, d) == Some(entries[i].1),
    decreases entries.len(),
{
    if i == entries.len() - 1 {
    } else {
        assert(entries.last().0 != d);
        assert(entries.drop_last()[i] == entries[i]);
        lemma_lookup_found(entries.drop_last(), d, i);
    }
}

proof fn lemma_lookup_none(entries: Seq<(Date, Seq<char>)>, d: Date)
    requires
        forall|j: int| 0 <= j < entries.len() ==> (#[trigger] entries[j]).0 != d,
    ensures
        lookup_in(entries, d) is None,
    decreases entries.len(),
{
    if entries.len() > 0 {
        lemma_lookup_none(entries.drop_last(), d);
    }
}

/// An in-memory date-to-URL mapping, reconciled last-write-wins: a
/// lookup answers with the most recently recorded URL for the date.
pub struct UrlCache {
    entries: Vec<(Date, String)>,
}

impl UrlCache {
    /// The recorded entries, oldest first.
    pub closed spec fn contents(self) -> Seq<(Date, Seq<char>)> {
        Seq::new(self.entries@.len(), |i: int| (self.entries@[i].0, self.entries@[i].1@))
    }

    /// The URL the cache holds for `d`, if any.
    pub open spec fn spec_get(self, d: Date) -> Option<Seq<char>> {
        lookup_in(self.contents(), d)
    }

    /// An empty cache.
    pub fn new() -> (r: UrlCache)
        ensures
            r.contents() =~= Seq::<(Date, Seq<char>)>::empty(),
    {
        UrlCache { entries: Vec::new() }
    }

    /// Records `url` for `date`; a later lookup for `date` answers
    /// `url`, and no other date is affected.
    pub fn insert(&mut self, date: Date, url: String)
        ensures
            final(self).contents() =~= old(self).contents().push((date, url@)),
            final(self).spec_get(date) == Some(url@),
            forall|d: Date| d != date ==> final(self).spec_get(d) == old(self).spec_get(d),
    {
        self.entries.push((date, url));
        proof {
            let c = self.contents();
            let oc = old(self).contents();
            assert(c =~= oc.push((date, url@)));
            assert(c.last() == (date, url@));
            assert(c.drop_last() =~= oc);
        }
    }

    /// The URL recorded for `date`, if any.
    pub fn get(&self, date: Date) -> (r: Option<String>)
        ensures
            match r {
                Some(u) => self.spec_get(date) == Some(u@),
                None => self.spec_get(date) is None,
            },
    {
        let n = self.entries.len();
        let mut i: usize = n;
        while i > 0
            invariant
                n == self.entries@.len(),
                0 <= i <= n,
                forall|j: int| i <= j < n ==> (#[trigger] self.contents()[j]).0 != date,
            decreases i,
        {
            i -= 1;
            if self.entries[i].0 == date {
                let u = self.entries[i].1.clone();
                proof {
                    assert(self.contents()[i as int].0 == date);
                    lemma_lookup_found(self.contents(), date, i as int);
                }
                return Some(u);
            }
            proof {
                assert(self.contents()[i as int].0 != date);
            }
        }
        proof {
            lemma_lookup_none(self.contents(), date);
        }
        None
    }
}

/// What one trimmed cache line contributes: an error (`None`), nothing
/// for a blank line, or one date-URL entry with the URL expanded.
pub open spec fn parse_line_spec(line: Seq<char>) -> Option<Option<(Date, Seq<char>)>> {
    let t = trim_spec(line);
    if t.len() == 0 {
        Some(None)
    } else {
        match split_first_word_spec(t) {
            None => None,
            Some(p) => {
                let date_tok = trim_spec(p.0);
                let url_tok = trim_spec(p.1);
                match date_from_filename_spec(date_tok) {
                    None => None,
                    Some(d) => Some(Some((d, expand_spec(url_tok)))),
                }
            },
        }
    }
}

/// The entries of a cache file, line by line, or `None` if any
/// non-blank line lacks a space or a parseable date.
pub open spec fn parse_lines_spec(lines: Seq<Seq<char>>) -> Option<Seq<(Date, Seq<char>)>>
    decreases lines.len(),
{
    if lines.len() == 0 {
        Some(Seq::empty())
    } else {
        match parse_lines_spec(lines.drop_last()) {
            None => None,
            Some(acc) => match parse_line_spec(lines.last()) {
                None => None,
                Some(None) => Some(acc),
                Some(Some(e)) => Some(acc.push(e)),
            },
        }
    }
}

proof fn lemma_parse_lines_error(lines: Seq<Seq<char>>, i: int)
    requires
        0 <= i < lines.len(),
        parse_line_spec(lines[i]) is None,
    ensures
        parse_lines_spec(lines) is None,
    decreases lines.len(),
{
    if i == lines.len() - 1 {
    } else {
        assert(lines.drop_last()[i] == lines[i]);
        lemma_parse_lines_error(lines.drop_last(), i);
    }
}

/// The lines of `s`, split at every newline character.
pub open spec fn split_lines_spec(s: Seq<char>) -> Seq<Seq<char>>
    decreases s.len(),
    via split_lines_spec_decreases
{
    match first_match(s, seq!['\n']) {
        None => seq![s],
        Some(i) => seq![s.subrange(0, i)] + split_lines_spec(s.subrange(i + 1, s.len() as int)),
    }
}

#[via_fn]
proof fn split_lines_spec_decreases(s: Seq<char>) {
    lemma_first_match_bounds(s, seq!['\n']);
}

/// Splits `text` at every newline character.
pub fn split_lines(text: &str) -> (r: Vec<String>)
    ensures
        r.deep_view() == split_lines_spec(text@),
{
    proof {
        reveal_strlit("\n");
        assert("\n"@ =~= seq!['\n']);
    }
    let mut out: Vec<String> = Vec::new();
    let mut rest: &str = text;
    loop
        invariant
            split_lines_spec(text@) =~= out.deep_view() + split_lines_spec(rest@),
        decreases rest@.len(),
    {
        proof {
            reveal_strlit("\n");
            assert("\n"@ =~= seq!['\n']);
        }
        let ghost prev = out.deep_view();
        match find_sub(rest, "\n") {
            None => {
                out.push(rest.to_owned());
                proof {
                    assert(out.deep_view() =~= prev.push(rest@));
                    assert(out.deep_view() + Seq::<Seq<char>>::empty() =~= out.deep_view());
                    assert(split_lines_spec(text@) =~= out.deep_view());
                }
                return out;
            },
            Some(i) => {
                let n: usize = rest.unicode_len();
                let line = rest.substring_char(0, i);
                let new_rest = rest.substring_char(i + 1, n);
                out.push(line.to_owned());
                proof {
                    assert(out.deep_view() =~= prev.push(line@));
                    assert(split_lines_spec(rest@) =~= seq![line@] + split_lines_spec(new_rest@));
                    assert(out.deep_view() + split_lines_spec(new_rest@) =~= prev + (seq![line@]
                        + split_lines_spec(new_rest@)));
                }
                rest = new_rest;
            },
        }
    }
}

/// Parses the text of a cache file.  Succeeds exactly when every
/// non-blank line holds a space-separated date token and URL token;
/// the cache then answers each date with its latest recorded URL,
/// expanded against the base prefix.
pub fn parse_cached_urls(file: &str) -> (r: Result<UrlCache, ()>)
    ensures
        match parse_lines_spec(split_lines_spec(file@)) {
            Some(entries) => r matches Ok(c) && c.contents() =~= entries,
            None => r is Err,
        },
{
    let lines = split_lines(file);
    let ghost all = lines.deep_view();
    let mut cache = UrlCache::new();
    let n = lines.len();
    let mut i: usize = 0;
    while i < n
        invariant
            n == lines@.len(),
            0 <= i <= n,
            all == lines.deep_view(),
            all == split_lines_spec(file@),
            all.len() == n,
            parse_lines_spec(all.subrange(0, i as int)) == Some(cache.contents()),
        decreases n - i,
    {
        proof {
            assert(all.subrange(0, i + 1).drop_last() =~= all.subrange(0, i as int));
            assert(all.subrange(0, i + 1).last() == all[i as int]);
            assert(all[i as int] == lines@[i as int]@);
        }
        let ghost before = cache.contents();
        let line = trim_spaces(lines[i].as_str());
        if line.unicode_len() == 0 {
            // blank line: skipped
        } else {
            match split_first_word(line) {
                None => {
                    proof {
                        lemma_parse_lines_error(all, i as int);
                    }
                    return Err(());
                },
                Some((date_str, url_str)) => {
                    let date_tok = trim_spaces(date_str);
                    let url_tok = trim_spaces(url_str);
                    match date_from_filename(date_tok) {
                        None => {
                            proof {
                                lemma_parse_lines_error(all, i as int);
                            }
                            return Err(());
                        },
                        Some(date) => {
                            let url = expand_image_url(url_tok);
                            cache.insert(date, url);
                        },
                    }
                },
            }
        }
        i += 1;
    }
    proof {
        assert(all.subrange(0, n as int) =~= all);
    }
    Ok(cache)
}

/// The text of one cache row: the date token, one space, the minified
/// image URL.  A newline is appended when the row is written.
pub open spec fn cache_row_spec(date: Date, image_url: Seq<char>) -> Seq<char> {
    date_token(date) + seq![' '] + minify_spec(image_url)
}

/// The key a cache line is reconciled under: its date token, the part
/// before its first space, or the whole line when it has none.
pub open spec fn key_of(line: Seq<char>) -> Seq<char> {
    match first_match(line, seq![' ']) {
        None => line,
        Some(i) => line.subrange(0, i),
    }
}

/// The key of a cache line.
pub fn key_of_line<'a>(line: &'a str) -> (r: &'a str)
    ensures
        r@ == key_of(line@),
{
    proof {
        reveal_strlit(" ");
        assert(" "@ =~= seq![' ']);
    }
    match find_sub(line, " ") {
        Some(i) => line.substring_char(0, i),
        None => line,
    }
}

/// The lines that survive a rewrite: each trimmed, blank ones dropped.
pub open spec fn effective_lines(lines: Seq<Seq<char>>) -> Seq<Seq<char>>
    decreases lines.len(),
{
    if lines.len() == 0 {
        Seq::empty()
    } else {
        let rest = effective_lines(lines.drop_last());
        let t = trim_spec(lines.last());
        if t.len() == 0 {
            rest
        } else {
            rest.push(t)
        }
    }
}

/// The latest line of `lines` whose key is `k`; the empty sequence
/// when none bears it.
pub open spec fn last_with_key(lines: Seq<Seq<char>>, k: Seq<char>) -> Seq<char>
    decreases lines.len(),
{
    if lines.len() == 0 {
        Seq::empty()
    } else if key_of(lines.last()) == k {
        lines.last()
    } else {
        last_with_key(lines.drop_last(), k)
    }
}

/// Whether some line of `lines` bears the key `k`.
pub open spec fn has_key(lines: Seq<Seq<char>>, k: Seq<char>) -> bool {
    exists|i: int| 0 <= i < lines.len() && key_of(#[trigger] lines[i]) == k
}

proof fn lemma_last_with_key_found(lines: Seq<Seq<char>>, i: int)
    requires
        0 <= i < lines.len(),
        forall|j: int| i < j < lines.len() ==> key_of(#[trigger] lines[j]) != key_of(lines[i]),
    ensures
        last_with_key(lines, key_of(lines[i])) == lines[i],
    decreases lines.len(),
{
    if i == lines.len() - 1 {
    } else {
        assert(key_of(lines.last()) != key_of(lines[i]));
        assert(lines.drop_last()[i] == lines[i]);
        lemma_last_with_key_found(lines.drop_last(), i);
    }
}

/// What normalization leaves behind, given the raw file text: every
/// output line is the latest input line bearing its key, every input
/// key is still represented, and the output is strictly ascending by
/// key — so exactly one line per distinct key.
pub open spec fn normalize_post(text: Seq<char>, out: Seq<Seq<char>>) -> bool {
    let lines = effective_lines(split_lines_spec(text));
    &&& forall|i: int|
        0 <= i < out.len() ==> lines.contains(#[trigger] out[i]) && out[i] == last_with_key(
            lines,
            key_of(out[i]),
        )
    &&& forall|i: int| 0 <= i < lines.len() ==> has_key(out, key_of(#[trigger] lines[i]))
    &&& forall|i: int, j: int|
        0 <= i < j < out.len() ==> seq_lex_lt(key_of(out[i]), key_of(out[j]))
}

/// Trims every line and drops the blank ones.
fn trim_nonblank(lines: &Vec<String>) -> (r: Vec<String>)
    ensures
        r.deep_view() == effective_lines(lines.deep_view()),
{
    let ghost all = lines.deep_view();
    let mut out: Vec<String> = Vec::new();
    let n = lines.len();
    let mut i: usize = 0;
    while i < n
        invariant
            n == lines@.len(),
            0 <= i <= n,
            all == lines.deep_view(),
            all.len() == n,
            out.deep_view() == effective_lines(all.subrange(0, i as int)),
        decreases n - i,
    {
        proof {
            assert(all.subrange(0, i + 1).drop_last() =~= all.subrange(0, i as int));
            assert(all.subrange(0, i + 1).last() == all[i as int]);
            assert(all[i as int] == lines@[i as int]@);
        }
        let ghost prev = out.deep_view();
        let t = trim_spaces(lines[i].as_str());
        if t.unicode_len() > 0 {
            out.push(t.to_owned());
            proof {
                assert(out.deep_view() =~= prev.push(t@));
            }
        }
        i += 1;
    }
    proof {
        assert(all.subrange(0, n as int) =~= all);
    }
    out
}

/// Whether some line of `v` bears the key `key`.
fn contains_key(v: &Vec<String>, key: &str) -> (b: bool)
    ensures
        b == has_key(v.deep_view(), key@),
{
    let n = v.len();
    let mut j: usize = 0;
    while j < n
        invariant
            n == v@.len(),
            0 <= j <= n,
            forall|k: int| 0 <= k < j ==> key_of(#[trigger] v.deep_view()[k]) != key@,
        decreases n - j,
    {
        let vk = key_of_line(v[j].as_str());
        if crate::strings::str_eq(vk, key) {
            proof {
                assert(key_of(v.deep_view()[j as int]) == key@);
            }
            return true;
        }
        proof {
            assert(v.deep_view()[j as int] == v@[j as int]@);
        }
        j += 1;
    }
    false
}

/// Keeps, for each distinct key, the latest line bearing it.
fn dedup_keep_last(lines: &Vec<String>) -> (r: Vec<String>)
    ensures
        ({
            let ldv = lines.deep_view();
            let rdv = r.deep_view();
            &&& forall|i: int|
                0 <= i < rdv.len() ==> ldv.contains(#[trigger] rdv[i]) && rdv[i] == last_with_key(
                    ldv,
                    key_of(rdv[i]),
                )
            &&& forall|i: int| 0 <= i < ldv.len() ==> has_key(rdv, key_of(#[trigger] ldv[i]))
            &&& forall|i: int, j: int|
                0 <= i < j < rdv.len() ==> key_of(rdv[i]) != key_of(rdv[j])
        }),
{
    let ghost ldv = lines.deep_view();
    let mut out: Vec<String> = Vec::new();
    let n = lines.len();
    let mut i: usize = n;
    while i > 0
        invariant
            n == lines@.len(),
            0 <= i <= n,
            ldv == lines.deep_view(),
            ldv.len() == n,
            forall|a: int|
                0 <= a < out.deep_view().len() ==> ldv.contains(#[trigger] out.deep_view()[a])
                    && out.deep_view()[a] == last_with_key(ldv, key_of(out.deep_view()[a])),
            forall|j: int| i <= j < n ==> has_key(out.deep_view(), key_of(#[trigger] ldv[j])),
            forall|a: int, b: int|
                0 <= a < b < out.deep_view().len() ==> key_of(out.deep_view()[a]) != key_of(
                    out.deep_view()[b],
                ),
            forall|a: int|
                0 <= a < out.deep_view().len() ==> exists|j: int|
                    i <= j < n && key_of(#[trigger] out.deep_view()[a]) == key_of(ldv[j]),
        decreases i,
    {
        i -= 1;
        proof {
            assert(ldv[i as int] == lines@[i as int]@);
        }
        let key = key_of_line(lines[i].as_str());
        let ghost prev = out.deep_view();
        if !contains_key(&out, key) {
            proof {
                assert forall|j: int| i < j < n implies key_of(#[trigger] ldv[j]) != key_of(
                    ldv[i as int],
                ) by {
                    if key_of(ldv[j]) == key_of(ldv[i as int]) {
                        assert(has_key(prev, key_of(ldv[j])));
                        let a = choose|a: int|
                            0 <= a < prev.len() && key_of(#[trigger] prev[a]) == key_of(ldv[j]);
                        assert(key_of(prev[a]) == key@);
                    }
                }
                lemma_last_with_key_found(ldv, i as int);
            }
            out.push(lines[i].clone());
            proof {
                assert(out.deep_view() =~= prev.push(ldv[i as int]));
                assert(ldv.contains(ldv[i as int]));
            }
        }
        proof {
            let cur = out.deep_view();
            assert forall|j: int| i <= j < n implies has_key(cur, key_of(#[trigger] ldv[j])) by {
                if j == i {
                    if prev.len() < cur.len() {
                        assert(key_of(cur[cur.len() - 1]) == key_of(ldv[i as int]));
                    } else {
                        let a = choose|a: int|
                            0 <= a < prev.len() && key_of(#[trigger] prev[a]) == key@;
                        assert(key_of(cur[a]) == key_of(ldv[i as int]));
                    }
                } else {
                    let a = choose|a: int|
                        0 <= a < prev.len() && key_of(#[trigger] prev[a]) == key_of(ldv[j]);
                    assert(cur[a] == prev[a]);
                    assert(key_of(cur[a]) == key_of(ldv[j]));
                }
            }
        }
    }
    out
}

/// Sorts lines with pairwise distinct keys into strictly ascending
/// key order, keeping exactly the same lines.
fn sort_lines_by_key(input: Vec<String>) -> (r: Vec<String>)
    requires
        forall|i: int, j: int|
            0 <= i < j < input.deep_view().len() ==> key_of(#[trigger] input.deep_view()[i])
                != key_of(#[trigger] input.deep_view()[j]),
    ensures
        ({
            let idv = input.deep_view();
            let rdv = r.deep_view();
            &&& forall|e: Seq<char>| rdv.contains(e) <==> idv.contains(e)
            &&& forall|i: int, j: int|
                0 <= i < j < rdv.len() ==> seq_lex_lt(key_of(rdv[i]), key_of(rdv[j]))
        }),
{
    broadcast use vstd::seq_lib::group_to_multiset_ensures;

    let ghost idv = input.deep_view();
    let mut rest = input;
    let mut out: Vec<String> = Vec::new();
    while rest.len() > 0
        invariant
            out.deep_view().to_multiset().add(rest.deep_view().to_multiset())
                =~= idv.to_multiset(),
            forall|i: int, j: int|
                0 <= i < j < rest.deep_view().len() ==> key_of(#[trigger] rest.deep_view()[i])
                    != key_of(#[trigger] rest.deep_view()[j]),
            forall|a: int, b: int|
                0 <= a < out.deep_view().len() && 0 <= b < rest.deep_view().len() ==> seq_lex_lt(
                    key_of(#[trigger] out.deep_view()[a]),
                    key_of(#[trigger] rest.deep_view()[b]),
                ),
            forall|i: int, j: int|
                0 <= i < j < out.deep_view().len() ==> seq_lex_lt(
                    key_of(#[trigger] out.deep_view()[i]),
                    key_of(#[trigger] out.deep_view()[j]),
                ),
        decreases rest@.len(),
    {
        broadcast use vstd::seq_lib::group_to_multiset_ensures;

        let ghost rdv0 = rest.deep_view();
        let n = rest.len();
        let mut m: usize = 0;
        let mut k: usize = 1;
        while k < n
            invariant
                n == rest@.len(),
                rdv0 == rest.deep_view(),
                rdv0.len() == n,
                0 <= m < n,
                m < k <= n || (m == 0 && k <= n),
                1 <= k <= n,
                forall|j: int|
                    0 <= j < k && j != m ==> !seq_lex_lt(
                        key_of(#[trigger] rdv0[j]),
                        key_of(rdv0[m as int]),
                    ),
                m < k || m == 0,
            decreases n - k,
        {
            proof {
                assert(rdv0[k as int] == rest@[k as int]@);
                assert(rdv0[m as int] == rest@[m as int]@);
            }
            let ck = key_of_line(rest[k].as_str());
            let cm = key_of_line(rest[m].as_str());
            if crate::strings::str_lex_lt(ck, cm) {
                proof {
                    assert forall|j: int|
                        0 <= j < k + 1 && j != k implies !seq_lex_lt(
                        key_of(#[trigger] rdv0[j]),
                        key_of(rdv0[k as int]),
                    ) by {
                        if seq_lex_lt(key_of(rdv0[j]), key_of(rdv0[k as int])) {
                            if j == m {
                                crate::strings::lemma_lex_asymmetric(
                                    key_of(rdv0[j]),
                                    key_of(rdv0[k as int]),
                                );
                            } else {
                                crate::strings::lemma_lex_transitive(
                                    key_of(rdv0[j]),
                                    key_of(rdv0[k as int]),
                                    key_of(rdv0[m as int]),
                                );
                            }
                        }
                    }
                }
                m = k;
            }
            k += 1;
        }
        proof {
            assert forall|j: int| 0 <= j < n && j != m implies seq_lex_lt(
                key_of(rdv0[m as int]),
                key_of(#[trigger] rdv0[j]),
            ) by {
                crate::strings::lemma_lex_connex(key_of(rdv0[m as int]), key_of(rdv0[j]));
                if key_of(rdv0[m as int]) =~= key_of(rdv0[j]) {
                    if (m as int) < j {
                        assert(key_of(rdv0[m as int]) != key_of(rdv0[j]));
                    } else {
                        assert(key_of(rdv0[j]) != key_of(rdv0[m as int]));
                    }
                }
            }
        }
        let ghost odv0 = out.deep_view();
        let x = rest.remove(m);
        proof {
            assert(x@ == rdv0[m as int]);
        }
        out.push(x);
        proof {
            let rdv1 = rest.deep_view();
            assert(rdv1 =~= rdv0.remove(m as int));
            let odv = out.deep_view();
            assert(odv =~= odv0.push(rdv0[m as int]));
            assert(odv0.push(rdv0[m as int]).to_multiset() =~= odv0.to_multiset().insert(
                rdv0[m as int],
            ));
            assert(rdv0.remove(m as int).to_multiset() =~= rdv0.to_multiset().remove(
                rdv0[m as int],
            ));
            assert(rdv0.to_multiset().contains(rdv0[m as int]));
            assert(odv.to_multiset().add(rdv1.to_multiset()) =~= idv.to_multiset());
            assert forall|i: int, j: int|
                0 <= i < j < rdv1.len() implies key_of(#[trigger] rdv1[i]) != key_of(
                #[trigger] rdv1[j],
            ) by {
                let i0 = if i < m as int {
                    i
                } else {
                    i + 1
                };
                let j0 = if j < m as int {
                    j
                } else {
                    j + 1
                };
                assert(rdv1[i] == rdv0[i0]);
                assert(rdv1[j] == rdv0[j0]);
            }
            assert forall|a: int, b: int|
                0 <= a < odv.len() && 0 <= b < rdv1.len() implies seq_lex_lt(
                key_of(#[trigger] odv[a]),
                key_of(#[trigger] rdv1[b]),
            ) by {
                let b0 = if b < m as int {
                    b
                } else {
                    b + 1
                };
                assert(rdv1[b] == rdv0[b0]);
                if a < odv.len() - 1 {
                    assert(odv[a] == odv0[a]);
                } else {
                    assert(odv[a] == rdv0[m as int]);
                }
            }
        }
    }
    proof {
        let rdv = rest.deep_view();
        assert(rdv =~= Seq::<Seq<char>>::empty());
        assert(rdv.to_multiset() =~= Multiset::<Seq<char>>::empty());
        let odv = out.deep_view();
        assert(odv.to_multiset() =~= idv.to_multiset());
        assert forall|e: Seq<char>| odv.contains(e) <==> idv.contains(e) by {
            assert(odv.contains(e) <==> odv.to_multiset().count(e) > 0);
            assert(idv.contains(e) <==> idv.to_multiset().count(e) > 0);
        }
    }
    out
}

/// Rewrites cache lines in normalized form: one line per distinct
/// date key — the latest line for that key — sorted ascending by key.
pub fn normalize_cache_lines(text: &str) -> (r: Vec<String>)
    ensures
        normalize_post(text@, r.deep_view()),
{
    let raw = split_lines(text);
    let eff = trim_nonblank(&raw);
    let ded = dedup_keep_last(&eff);
    let sorted = sort_lines_by_key(ded);
    proof {
        let lines = effective_lines(split_lines_spec(text@));
        let sdv = sorted.deep_view();
        assert forall|i: int| 0 <= i < sdv.len() implies lines.contains(#[trigger] sdv[i])
            && sdv[i] == last_with_key(lines, key_of(sdv[i])) by {
            assert(ded.deep_view().contains(sdv[i]));
            let a = choose|a: int|
                0 <= a < ded.deep_view().len() && ded.deep_view()[a] == sdv[i];
            assert(lines.contains(ded.deep_view()[a]));
        }
        assert forall|i: int| 0 <= i < lines.len() implies has_key(sdv, key_of(#[trigger] lines[i]))
            by {
            assert(has_key(ded.deep_view(), key_of(lines[i])));
            let a = choose|a: int|
                0 <= a < ded.deep_view().len() && key_of(#[trigger] ded.deep_view()[a]) == key_of(
                    lines[i],
                );
            assert(sdv.contains(ded.deep_view()[a]));
            let b = choose|b: int| 0 <= b < sdv.len() && sdv[b] == ded.deep_view()[a];
            assert(key_of(sdv[b]) == key_of(lines[i]));
        }
    }
    sorted
}

/// The lines joined back into file text, one line per row, each
/// followed by a newline.
pub open spec fn join_lines_spec(lines: Seq<Seq<char>>) -> Seq<char>
    decreases lines.len(),
{
    if lines.len() == 0 {
        Seq::empty()
    } else {
        join_lines_spec(lines.drop_last()) + lines.last() + seq!['\n']
    }
}

/// Joins lines into file text, a newline after each.
pub fn join_lines(lines: &Vec<String>) -> (r: String)
    ensures
        r@ == join_lines_spec(lines.deep_view()),
{
    let ghost all = lines.deep_view();
    let mut s = String::new();
    let n = lines.len();
    let mut i: usize = 0;
    while i < n
        invariant
            n == lines@.len(),
            0 <= i <= n,
            all == lines.deep_view(),
            all.len() == n,
            s@ == join_lines_spec(all.subrange(0, i as int)),
        decreases n - i,
    {
        proof {
            assert(all.subrange(0, i + 1).drop_last() =~= all.subrange(0, i as int));
            assert(all.subrange(0, i + 1).last() == all[i as int]);
            assert(all[i as int] == lines@[i as int]@);
        }
        let ghost prev = s@;
        s.append(lines[i].as_str());
        crate::strings::push_char(&mut s, '\n');
        proof {
            assert(s@ =~= join_lines_spec(all.subrange(0, i + 1)));
        }
        i += 1;
    }
    proof {
        assert(all.subrange(0, n as int) =~= all);
    }
    s
}

/// The normalized text of a cache file.
pub fn normalize_cache_text(text: &str) -> (r: String)
    ensures
        exists|out: Seq<Seq<char>>| #[trigger]
            normalize_post(text@, out) && r@ == join_lines_spec(out),
{
    let lines = normalize_cache_lines(text);
    let r = join_lines(&lines);
    proof {
        assert(normalize_post(text@, lines.deep_view()) && r@ == join_lines_spec(
            lines.deep_view(),
        ));
    }
    r
}

/// Renders the cache row recorded for a freshly resolved URL.
pub fn cache_row(date: Date, image_url: &str) -> (r: String)
    ensures
        r@ == cache_row_spec(date, image_url@),
{
    let mut s = format_date(date);
    crate::strings::push_char(&mut s, ' ');
    let minified = minify_image_url(image_url);
    let r = s.concat(minified);
    proof {
        assert(r@ =~= cache_row_spec(date, image_url@));
    }
    r
}

/// Every character of a date token is a digit or a dash.
spec fn token_clean(s: Seq<char>) -> bool {
    forall|i: int| 0 <= i < s.len() ==> is_digit(#[trigger] s[i]) || s[i] == '-'
}

proof fn lemma_pad2_clean(n: nat)
    ensures
        token_clean(dec_str_pad2(n)),
        dec_str_pad2(n).len() >= 1,
{
    lemma_dec_str_digits(n);
    if n < 10 {
        assert forall|i: int| 0 <= i < dec_str_pad2(n).len() implies is_digit(
            #[trigger] dec_str_pad2(n)[i],
        ) || dec_str_pad2(n)[i] == '-' by {
            if i >= 1 {
                assert(dec_str_pad2(n)[i] == dec_str(n)[i - 1]);
            }
        }
    }
}

proof fn lemma_pad4_clean(n: nat)
    ensures
        token_clean(dec_str_pad4(n)),
        dec_str_pad4(n).len() >= 1,
{
    lemma_dec_str_digits(n);
    let pad = if n < 10 {
        3int
    } else if n < 100 {
        2int
    } else if n < 1000 {
        1int
    } else {
        0int
    };
    assert forall|i: int| 0 <= i < dec_str_pad4(n).len() implies is_digit(
        #[trigger] dec_str_pad4(n)[i],
    ) || dec_str_pad4(n)[i] == '-' by {
        if i >= pad {
            assert(dec_str_pad4(n)[i] == dec_str(n)[i - pad]);
        }
    }
}

proof fn lemma_date_token_clean(d: Date)
    ensures
        token_clean(date_token(d)),
        date_token(d).len() >= 1,
        forall|i: int| 0 <= i < date_token(d).len() ==> !is_space(#[trigger] date_token(d)[i]),
        is_digit(date_token(d)[0]),
{
    let p4 = dec_str_pad4(d.year as nat);
    let p2m = dec_str_pad2(d.month as nat);
    let p2d = dec_str_pad2(d.day as nat);
    lemma_pad4_clean(d.year as nat);
    lemma_pad2_clean(d.month as nat);
    lemma_pad2_clean(d.day as nat);
    let tok = date_token(d);
    assert forall|i: int| 0 <= i < tok.len() implies is_digit(#[trigger] tok[i]) || tok[i] == '-'
        by {
        let a = p4.len() as int;
        let b = a + 1;
        let c = b + p2m.len() as int;
        let e = c + 1;
        if i < a {
            assert(tok[i] == p4[i]);
        } else if i == a {
            assert(tok[i] == '-');
        } else if i < c {
            assert(tok[i] == p2m[i - b]);
        } else if i == c {
            assert(tok[i] == '-');
        } else {
            assert(tok[i] == p2d[i - e]);
        }
    }
    assert(tok[0] == p4[0]);
    assert(is_digit(p4[0])) by {
        if d.year < 10 {
            assert(p4[0] == '0');
        } else if d.year < 100 {
            assert(p4[0] == '0');
        } else if d.year < 1000 {
            assert(p4[0] == '0');
        } else {
            assert(p4[0] == dec_str(d.year as nat)[0]);
            lemma_dec_str_digits(d.year as nat);
        }
    }
    assert forall|i: int| 0 <= i < tok.len() implies !is_space(#[trigger] tok[i]) by {
        assert(is_digit(tok[i]) || tok[i] == '-');
    }
}

/// A cache row is keyed by its date token, whatever its URL holds:
/// the row's first space stands right after the token.
proof fn lemma_key_of_row(date: Date, url: Seq<char>)
    ensures
        key_of(cache_row_spec(date, url)) =~= date_token(date),
        first_match(cache_row_spec(date, url), seq![' ']) == Some(date_token(date).len() as int),
{
    let tok = date_token(date);
    let row = cache_row_spec(date, url);
    lemma_date_token_clean(date);
    let p = tok.len() as int;
    assert(row[p] == ' ');
    crate::strings::lemma_occurs_single(row, ' ', p);
    assert forall|j: int| 0 <= j < p implies !crate::strings::occurs_at(row, seq![' '], j) by {
        assert(row[j] == tok[j]);
        assert(!is_space(tok[j]));
        crate::strings::lemma_occurs_single(row, ' ', j);
    }
    crate::strings::lemma_first_match_found(row, seq![' '], p);
    assert(row.subrange(0, p) =~= tok);
}

proof fn lemma_row_chars(date: Date, url: Seq<char>)
    requires
        forall|i: int| 0 <= i < url.len() ==> !is_space(#[trigger] url[i]),
    ensures
        forall|i: int|
            0 <= i < cache_row_spec(date, url).len() ==> (#[trigger] cache_row_spec(date, url)[i])
                != '\n',
{
    let tok = date_token(date);
    let row = cache_row_spec(date, url);
    let min = minify_spec(url);
    lemma_date_token_clean(date);
    assert forall|i: int| 0 <= i < row.len() implies (#[trigger] row[i]) != '\n' by {
        let a = tok.len() as int;
        if i < a {
            assert(row[i] == tok[i]);
            assert(!is_space(tok[i]));
        } else if i == a {
            assert(row[i] == ' ');
        } else {
            assert(row[i] == min[i - a - 1]);
            if starts_with_spec(url, IMAGE_URL_BASE@) {
                assert(min[i - a - 1] == url[i - a - 1 + IMAGE_URL_BASE@.len()]);
            }
            assert(!is_space(min[i - a - 1]));
        }
    }
}

/// Splitting text at newlines peels off a newline-free first line.
proof fn lemma_split_lines_step(a: Seq<char>, b: Seq<char>)
    requires
        forall|i: int| 0 <= i < a.len() ==> (#[trigger] a[i]) != '\n',
    ensures
        split_lines_spec(a + seq!['\n'] + b) =~= seq![a] + split_lines_spec(b),
{
    let text = a + seq!['\n'] + b;
    let p = a.len() as int;
    assert(text[p] == '\n');
    crate::strings::lemma_occurs_single(text, '\n', p);
    assert forall|j: int| 0 <= j < p implies !crate::strings::occurs_at(text, seq!['\n'], j) by {
        assert(text[j] == a[j]);
        crate::strings::lemma_occurs_single(text, '\n', j);
    }
    crate::strings::lemma_first_match_found(text, seq!['\n'], p);
    assert(text.subrange(0, p) =~= a);
    assert(text.subrange(p + 1, text.len() as int) =~= b);
}

/// Minify-then-expand is the identity on a full URL, as long as a
/// base-prefixed URL does not hide a second scheme behind the prefix.
pub proof fn lemma_minify_expand_round_trip(u: Seq<char>)
    requires
        is_remote_url_spec(u),
        starts_with_spec(u, IMAGE_URL_BASE@) ==> !is_remote_url_spec(minify_spec(u)),
    ensures
        expand_spec(minify_spec(u)) == u,
{
    if starts_with_spec(u, IMAGE_URL_BASE@) {
        assert(IMAGE_URL_BASE@ + minify_spec(u) =~= u);
    }
}

/// Last write wins: appending two rows for one date and normalizing
/// leaves exactly one row for that date, holding the later URL.  The
/// URLs must be whitespace-free and not minify to nothing.
pub proof fn lemma_cache_round_trip(d: Date, u1: Seq<char>, u2: Seq<char>, out: Seq<Seq<char>>)
    requires
        forall|i: int| 0 <= i < u1.len() ==> !is_space(#[trigger] u1[i]),
        forall|i: int| 0 <= i < u2.len() ==> !is_space(#[trigger] u2[i]),
        minify_spec(u1).len() > 0,
        minify_spec(u2).len() > 0,
        normalize_post(
            cache_row_spec(d, u1) + seq!['\n'] + cache_row_spec(d, u2) + seq!['\n'],
            out,
        ),
    ensures
        out =~= seq![cache_row_spec(d, u2)],
{
    let r1 = cache_row_spec(d, u1);
    let r2 = cache_row_spec(d, u2);
    let text = r1 + seq!['\n'] + r2 + seq!['\n'];
    let tok = date_token(d);
    lemma_date_token_clean(d);
    lemma_key_of_row(d, u1);
    lemma_key_of_row(d, u2);
    lemma_row_chars(d, u1);
    lemma_row_chars(d, u2);

    // The raw lines are [r1, r2, ""].
    assert(text =~= r1 + seq!['\n'] + (r2 + seq!['\n'] + Seq::<char>::empty()));
    lemma_split_lines_step(r1, r2 + seq!['\n'] + Seq::<char>::empty());
    lemma_split_lines_step(r2, Seq::<char>::empty());
    let empty = Seq::<char>::empty();
    assert(split_lines_spec(empty) =~= seq![empty]);
    let raw = split_lines_spec(text);
    assert(raw =~= seq![r1, r2, empty]);

    // Trimming keeps both rows and drops the blank line.
    assert(trim_spec(r1) == r1) by {
        assert(r1[0] == tok[0]);
        assert(!is_space(r1[0]));
        assert(r1.last() == minify_spec(u1).last());
        assert(!is_space(r1.last()));
        crate::strings::lemma_trim_clean(r1);
    }
    assert(trim_spec(r2) == r2) by {
        assert(r2[0] == tok[0]);
        assert(!is_space(r2[0]));
        assert(r2.last() == minify_spec(u2).last());
        assert(!is_space(r2.last()));
        crate::strings::lemma_trim_clean(r2);
    }
    let lines = effective_lines(raw);
    assert(lines =~= seq![r1, r2]) by {
        let l3 = seq![r1, r2, empty];
        let l2 = seq![r1, r2];
        let l1 = seq![r1];
        let l0 = Seq::<Seq<char>>::empty();
        assert(raw == l3);
        assert(l3.drop_last() =~= l2);
        assert(l3.last() == empty);
        assert(trim_spec(empty) =~= empty);
        assert(effective_lines(l3) == effective_lines(l2));
        assert(l2.drop_last() =~= l1);
        assert(l2.last() == r2);
        assert(effective_lines(l2) == effective_lines(l1).push(r2));
        assert(l1.drop_last() =~= l0);
        assert(l1.last() == r1);
        assert(effective_lines(l1) == effective_lines(l0).push(r1));
        assert(effective_lines(l0) =~= l0);
        assert(effective_lines(l3) =~= seq![r1, r2]);
    }

    // Both lines bear the key of the date token; the later one wins.
    assert(key_of(r1) == tok);
    assert(key_of(r2) == tok);
    assert(last_with_key(lines, tok) == r2) by {
        assert(lines.last() == r2);
    }

    // Every surviving line is r2.
    assert forall|i: int| 0 <= i < out.len() implies out[i] == r2 by {
        assert(lines.contains(out[i]));
        let a = choose|a: int| 0 <= a < lines.len() && lines[a] == out[i];
        assert(out[i] == r1 || out[i] == r2);
        assert(out[i] == last_with_key(lines, key_of(out[i])));
    }

    // The date token's key is still represented, so one line survives.
    assert(has_key(out, key_of(lines[0])));
    let w = choose|w: int| 0 <= w < out.len() && key_of(out[w]) == key_of(lines[0]);
    assert(out.len() >= 1);

    // Strict key order admits no second line with the same key.
    assert(out.len() < 2) by {
        if out.len() >= 2 {
            assert(seq_lex_lt(key_of(out[0]), key_of(out[1])));
            assert(out[0] == r2 && out[1] == r2);
            crate::strings::lemma_lex_asymmetric(key_of(r2), key_of(r2));
        }
    }
    assert(out =~= seq![r2]);
}

/// The date and expanded URL a cache line contributes, if it is a
/// well-formed row.
pub open spec fn parsed_entry(line: Seq<char>) -> Option<(Date, Seq<char>)> {
    match parse_line_spec(line) {
        Some(Some(e)) => Some(e),
        _ => None,
    }
}

/// What a reload of `lines` answers for `dd`: the expanded URL of the
/// latest line whose row bears that date.
pub open spec fn last_entry_for(lines: Seq<Seq<char>>, dd: Date) -> Option<Seq<char>>
    decreases lines.len(),
{
    if lines.len() == 0 {
        None
    } else {
        match parsed_entry(lines.last()) {
            Some(e) => if e.0 == dd {
                Some(e.1)
            } else {
                last_entry_for(lines.drop_last(), dd)
            },
            None => last_entry_for(lines.drop_last(), dd),
        }
    }
}

/// Parsing a line list and looking a date up answers exactly what the
/// latest row bearing that date holds.
pub proof fn lemma_parse_lines_lookup(lines: Seq<Seq<char>>, dd: Date)
    ensures
        parse_lines_spec(lines) matches Some(entries) ==> lookup_in(entries, dd)
            == last_entry_for(lines, dd),
    decreases lines.len(),
{
    if lines.len() == 0 {
    } else {
        lemma_parse_lines_lookup(lines.drop_last(), dd);
        match parse_lines_spec(lines.drop_last()) {
            None => {},
            Some(acc) => {
                match parse_line_spec(lines.last()) {
                    None => {},
                    Some(None) => {},
                    Some(Some(e)) => {
                        assert(acc.push(e).last() == e);
                        assert(acc.push(e).drop_last() =~= acc);
                    },
                }
            },
        }
    }
}

/// A parsed row's date is a valid calendar date.
proof fn lemma_parse_line_valid(line: Seq<char>)
    ensures
        parsed_entry(line) matches Some(e) ==> e.0.valid(),
{
}

proof fn lemma_last_entry_none(lines: Seq<Seq<char>>, dd: Date)
    requires
        forall|i: int|
            0 <= i < lines.len() ==> !(parsed_entry(#[trigger] lines[i]) matches Some(e) && e.0
                == dd),
    ensures
        last_entry_for(lines, dd) is None,
    decreases lines.len(),
{
    if lines.len() > 0 {
        assert(!(parsed_entry(lines[lines.len() - 1]) matches Some(e) && e.0 == dd));
        assert(forall|i: int|
            0 <= i < lines.len() - 1 ==> lines.drop_last()[i] == #[trigger] lines[i]);
        lemma_last_entry_none(lines.drop_last(), dd);
    }
}

proof fn lemma_last_entry_found(lines: Seq<Seq<char>>, dd: Date, i: int)
    requires
        0 <= i < lines.len(),
        parsed_entry(lines[i]) matches Some(e) && e.0 == dd,
        forall|j: int|
            i < j < lines.len() ==> !(parsed_entry(#[trigger] lines[j]) matches Some(e) && e.0
                == dd),
    ensures
        parsed_entry(lines[i]) matches Some(e) && last_entry_for(lines, dd) == Some(e.1),
    decreases lines.len(),
{
    if i == lines.len() - 1 {
    } else {
        assert(!(parsed_entry(lines[lines.len() - 1]) matches Some(e) && e.0 == dd));
        assert(lines.drop_last()[i] == lines[i]);
        assert(forall|j: int|
            0 <= j < lines.len() - 1 ==> lines.drop_last()[j] == #[trigger] lines[j]);
        lemma_last_entry_found(lines.drop_last(), dd, i);
    }
}

/// The latest line with key `k` stands at an index after which the key
/// never recurs.
proof fn lemma_last_with_key_props(lines: Seq<Seq<char>>, k: Seq<char>)
    requires
        has_key(lines, k),
    ensures
        exists|i: int|
            {
                &&& 0 <= i < lines.len()
                &&& #[trigger] lines[i] == last_with_key(lines, k)
                &&& key_of(lines[i]) == k
                &&& forall|j: int| i < j < lines.len() ==> key_of(#[trigger] lines[j]) != k
            },
    decreases lines.len(),
{
    if key_of(lines.last()) == k {
        assert(lines[lines.len() - 1] == last_with_key(lines, k));
    } else {
        assert(has_key(lines.drop_last(), k)) by {
            let a = choose|a: int| 0 <= a < lines.len() && key_of(#[trigger] lines[a]) == k;
            assert(lines.drop_last()[a] == lines[a]);
        }
        lemma_last_with_key_props(lines.drop_last(), k);
        let i = choose|i: int|
            {
                &&& 0 <= i < lines.drop_last().len()
                &&& #[trigger] lines.drop_last()[i] == last_with_key(lines.drop_last(), k)
                &&& key_of(lines.drop_last()[i]) == k
                &&& forall|j: int|
                    i < j < lines.drop_last().len() ==> key_of(
                        #[trigger] lines.drop_last()[j],
                    ) != k
            };
        assert(lines[i] == lines.drop_last()[i]);
        assert forall|j: int| i < j < lines.len() implies key_of(#[trigger] lines[j]) != k by {
            if j < lines.len() - 1 {
                assert(lines.drop_last()[j] == lines[j]);
            }
        }
    }
}

/// Every line parses as a row and is keyed by the canonical token of
/// the date it bears.  Rows this library writes are of this form.
pub open spec fn canonical_lines(lines: Seq<Seq<char>>) -> bool {
    forall|i: int|
        0 <= i < lines.len() ==> (parsed_entry(#[trigger] lines[i]) matches Some(e) && key_of(
            lines[i],
        ) == date_token(e.0))
}

/// Normalization preserves the reconciled mapping: for every date, a
/// reload of the normalized lines answers exactly what a reload of
/// the input's surviving lines answers — the URL of that date's
/// latest row.  Holds when every line is keyed by the canonical token
/// of its date; two spellings of one date (such as a month token
/// without its leading zero) defeat token-level reconciliation.
pub proof fn lemma_normalize_preserves_entries(text: Seq<char>, out: Seq<Seq<char>>, dd: Date)
    requires
        normalize_post(text, out),
        canonical_lines(effective_lines(split_lines_spec(text))),
    ensures
        last_entry_for(out, dd) == last_entry_for(effective_lines(split_lines_spec(text)), dd),
{
    let lines = effective_lines(split_lines_spec(text));
    let k = date_token(dd);

    if !dd.valid() {
        // Every parsed row bears a valid date, so neither side holds
        // an entry for an invalid one.
        assert forall|j: int|
            0 <= j < lines.len() implies !(parsed_entry(#[trigger] lines[j]) matches Some(e)
            && e.0 == dd) by {
            lemma_parse_line_valid(lines[j]);
        }
        lemma_last_entry_none(lines, dd);
        assert forall|v: int|
            0 <= v < out.len() implies !(parsed_entry(#[trigger] out[v]) matches Some(e) && e.0
            == dd) by {
            let a = choose|a: int| 0 <= a < lines.len() && #[trigger] lines[a] == out[v];
            lemma_parse_line_valid(lines[a]);
        }
        lemma_last_entry_none(out, dd);
    } else {
        lemma_preserves_valid_date(text, out, dd);
    }
}

proof fn lemma_preserves_valid_date(text: Seq<char>, out: Seq<Seq<char>>, dd: Date)
    requires
        normalize_post(text, out),
        canonical_lines(effective_lines(split_lines_spec(text))),
        dd.valid(),
    ensures
        last_entry_for(out, dd) == last_entry_for(effective_lines(split_lines_spec(text)), dd),
{
    let lines = effective_lines(split_lines_spec(text));
    let k = date_token(dd);

    // Key equality and date equality coincide on canonical lines.
    assert forall|j: int|
        0 <= j < lines.len() implies ((key_of(#[trigger] lines[j]) == k) <==> (parsed_entry(
        lines[j],
    ) matches Some(e) && e.0 == dd)) by {
        lemma_parse_line_valid(lines[j]);
        if key_of(lines[j]) == k {
            let e = parsed_entry(lines[j])->0;
            if e.0 != dd {
                crate::dates::lemma_date_token_injective(e.0, dd);
            }
        }
    }

    if has_key(lines, k) {
        lemma_last_with_key_props(lines, k);
        let i = choose|i: int|
            {
                &&& 0 <= i < lines.len()
                &&& #[trigger] lines[i] == last_with_key(lines, k)
                &&& key_of(lines[i]) == k
                &&& forall|j: int| i < j < lines.len() ==> key_of(#[trigger] lines[j]) != k
            };
        lemma_last_entry_found(lines, dd, i);
        let e = parsed_entry(lines[i])->0;

        // The one output line with this key is that same latest line.
        assert(has_key(out, k)) by {
            assert(key_of(lines[i]) == k);
        }
        let w = choose|w: int| 0 <= w < out.len() && key_of(#[trigger] out[w]) == k;
        assert(out[w] == last_with_key(lines, key_of(out[w])));
        assert(out[w] == lines[i]);
        assert forall|v: int| w < v < out.len() implies !(parsed_entry(#[trigger] out[v])
            matches Some(f) && f.0 == dd) by {
            crate::strings::lemma_lex_asymmetric(key_of(out[w]), key_of(out[v]));
            assert(key_of(out[v]) != k);
            let a = choose|a: int| 0 <= a < lines.len() && #[trigger] lines[a] == out[v];
        }
        lemma_last_entry_found(out, dd, w);
    } else {
        assert forall|j: int|
            0 <= j < lines.len() implies !(parsed_entry(#[trigger] lines[j]) matches Some(e)
            && e.0 == dd) by {
            assert(key_of(lines[j]) != k);
        }
        lemma_last_entry_none(lines, dd);
        assert forall|v: int|
            0 <= v < out.len() implies !(parsed_entry(#[trigger] out[v]) matches Some(e) && e.0
            == dd) by {
            let a = choose|a: int| 0 <= a < lines.len() && #[trigger] lines[a] == out[v];
            assert(key_of(lines[a]) != k);
        }
        lemma_last_entry_none(out, dd);
    }
}

/// The full cache round trip: after two appends for one date and the
/// end-of-run normalization, reloading the rewritten file parses back
/// a single entry, mapping the date to the later URL.
pub proof fn lemma_cache_reload_round_trip(
    d: Date,
    u1: Seq<char>,
    u2: Seq<char>,
    out: Seq<Seq<char>>,
)
    requires
        d.valid(),
        forall|i: int| 0 <= i < u1.len() ==> !is_space(#[trigger] u1[i]),
        forall|i: int| 0 <= i < u2.len() ==> !is_space(#[trigger] u2[i]),
        minify_spec(u1).len() > 0,
        minify_spec(u2).len() > 0,
        is_remote_url_spec(u2),
        starts_with_spec(u2, IMAGE_URL_BASE@) ==> !is_remote_url_spec(minify_spec(u2)),
        normalize_post(
            cache_row_spec(d, u1) + seq!['\n'] + cache_row_spec(d, u2) + seq!['\n'],
            out,
        ),
    ensures
        parse_lines_spec(split_lines_spec(join_lines_spec(out))) matches Some(entries)
            && lookup_in(entries, d) == Some(u2),
{
    lemma_cache_round_trip(d, u1, u2, out);
    let row2 = cache_row_spec(d, u2);
    let tok = date_token(d);
    let min2 = minify_spec(u2);
    lemma_date_token_clean(d);
    lemma_key_of_row(d, u2);
    lemma_row_chars(d, u2);

    // The stored token's characters come from the URL: no whitespace.
    assert forall|i: int| 0 <= i < min2.len() implies !is_space(#[trigger] min2[i]) by {
        if starts_with_spec(u2, IMAGE_URL_BASE@) {
            assert(min2[i] == u2[i + IMAGE_URL_BASE@.len()]);
        }
    }

    // The text written back is the single surviving row and a newline.
    let text = join_lines_spec(out);
    assert(out.drop_last() =~= Seq::<Seq<char>>::empty());
    assert(join_lines_spec(Seq::<Seq<char>>::empty()) =~= Seq::<char>::empty());
    assert(text =~= row2 + seq!['\n']);

    // Splitting it again yields the row and one trailing blank line.
    let empty = Seq::<char>::empty();
    assert(row2 + seq!['\n'] =~= row2 + seq!['\n'] + empty);
    lemma_split_lines_step(row2, empty);
    assert(split_lines_spec(empty) =~= seq![empty]);
    let ls = split_lines_spec(text);
    assert(ls =~= seq![row2, empty]);

    // The row parses back to the date and the expanded URL.
    let p = tok.len() as int;
    assert(trim_spec(row2) == row2) by {
        assert(row2[0] == tok[0]);
        assert(!is_space(row2[0]));
        assert(row2.last() == min2.last());
        assert(!is_space(row2.last()));
        crate::strings::lemma_trim_clean(row2);
    }
    assert(row2.subrange(0, p) =~= tok);
    let after = row2.subrange(p, row2.len() as int);
    assert(after =~= seq![' '] + min2);
    assert(split_first_word_spec(row2) == Some((row2.subrange(0, p), after)));
    assert(trim_spec(tok) == tok) by {
        assert(!is_space(tok[0]));
        assert(!is_space(tok.last()));
        crate::strings::lemma_trim_clean(tok);
    }
    assert(trim_spec(after) == min2) by {
        assert(after[0] == ' ');
        assert(after.drop_first() =~= min2);
        assert(ltrim(after) == ltrim(min2));
        assert(!is_space(min2[0]));
        assert(ltrim(min2) == min2);
        assert(!is_space(min2.last()));
        assert(rtrim(min2) == min2);
    }
    crate::dates::lemma_date_token_round_trip(d);
    lemma_minify_expand_round_trip(u2);
    assert(parse_line_spec(row2) == Some(Some((d, u2))));
    assert(parse_line_spec(empty) == Some(None::<(Date, Seq<char>)>)) by {
        assert(trim_spec(empty) =~= empty);
    }

    // Folding the two lines gives exactly the one entry.
    assert(ls.drop_last() =~= seq![row2]);
    assert(seq![row2].drop_last() =~= Seq::<Seq<char>>::empty());
    assert(parse_lines_spec(Seq::<Seq<char>>::empty()) == Some(
        Seq::<(Date, Seq<char>)>::empty(),
    ));
    let entries = Seq::<(Date, Seq<char>)>::empty().push((d, u2));
    assert(parse_lines_spec(seq![row2]) == Some(entries));
    assert(parse_lines_spec(ls) == Some(entries));
    assert(entries.last() == (d, u2));
    assert(lookup_in(entries, d) == Some(u2));
}

} // verus!
