//! Search: documents built from pages, queries turned into a plan of fuzzy
//! terms and filters, and the snippets shown with results.

use vstd::prelude::*;
use crate::error::WikiError;
use crate::frontmatter::{extract_tags, page_tags};
use crate::page::views;
use crate::text::{chars_of, is_ws, push_char, string_of_range};

verus! {

broadcast use vstd::string::group_string_axioms;

/// The start of the day that `s` names as `YYYY-MM-DD`, in milliseconds
/// since the Unix epoch (UTC); `None` when `s` is no such date.
pub uninterp spec fn day_start_millis(s: Seq<char>) -> Option<int>;

/// Relies on `chrono`: `NaiveDate::from_str` parses the date, and
/// `and_hms_opt(0, 0, 0)`, `and_utc` and `timestamp_millis` give the
/// millisecond timestamp of its midnight, UTC.
#[verifier::external_body]
fn parse_day_start(s: &str) -> (r: Option<i64>)
    ensures
        match r {
            Some(ms) => day_start_millis(s@) == Some(ms as int),
            None => day_start_millis(s@) is None,
        },
{
    let date = s.parse::<chrono::NaiveDate>().ok()?;
    Some(date.and_hms_opt(0, 0, 0)?.and_utc().timestamp_millis())
}

/// Milliseconds from the start of a day to its last second, `23:59:59`.
pub const LAST_SECOND_MS: i64 = 86_399_000;

/// An inclusive range of modification times, in epoch milliseconds.
pub struct DateRange {
    pub from_ms: i64,
    pub to_ms: i64,
}

impl DateRange {
    pub open spec fn holds(&self, ms: u64) -> bool {
        self.from_ms <= ms && ms <= self.to_ms
    }

    /// Whether a page last modified at `ms` falls in the range.
    pub fn contains(&self, ms: u64) -> (r: bool)
        ensures
            r == self.holds(ms),
    {
        if self.to_ms < 0 {
            false
        } else if self.from_ms > 0 && ms < self.from_ms as u64 {
            false
        } else {
            ms <= self.to_ms as u64
        }
    }
}

/// The end of the range that ends on the day starting at `start`: its last
/// second, or the largest time when that does not fit.
pub open spec fn day_end(start: int) -> int {
    if start + LAST_SECOND_MS <= i64::MAX {
        start + LAST_SECOND_MS
    } else {
        i64::MAX as int
    }
}

/// What a search asks of the index: documents whose content fuzzily matches
/// one of `terms`, and that pass every filter given.
pub struct SearchPlan {
    pub terms: Vec<String>,
    pub tag: Option<String>,
    pub directory: Option<String>,
    pub dates: Option<DateRange>,
}

pub open spec fn opt_view(o: Option<&str>) -> Option<Seq<char>> {
    match o {
        Some(s) => Some(s@),
        None => None,
    }
}

pub open spec fn opt_string_view(o: Option<String>) -> Option<Seq<char>> {
    match o {
        Some(s) => Some(s@),
        None => None,
    }
}

/// The number of characters from `i` up to the next whitespace or the end.
pub open spec fn word_len(s: Seq<char>, i: int) -> nat
    decreases s.len() - i,
{
    if i < 0 || i >= s.len() || is_ws(s[i]) {
        0
    } else {
        1 + word_len(s, i + 1)
    }
}

/// The whitespace-separated words of `s` from `i` on.
pub open spec fn words_from(s: Seq<char>, i: int) -> Seq<Seq<char>>
    decreases s.len() - i,
{
    if i < 0 || i >= s.len() {
        Seq::empty()
    } else if is_ws(s[i]) {
        words_from(s, i + 1)
    } else {
        let j = i + 1 + word_len(s, i + 1);
        if j >= s.len() {
            seq![s.subrange(i, s.len() as int)]
        } else {
            seq![s.subrange(i, j)] + words_from(s, j)
        }
    }
}

pub open spec fn words(s: Seq<char>) -> Seq<Seq<char>> {
    words_from(s, 0)
}

/// The words of `s`, split at whitespace; runs of whitespace give no empty word.
pub fn split_words(s: &str) -> (r: Vec<String>)
    ensures
        views(r@) == words(s@),
{
    let v = chars_of(s);
    let mut out: Vec<String> = Vec::new();
    let mut i: usize = 0;
    while i < v.len()
        invariant
            v@ == s@,
            i <= v@.len(),
            views(out@) + words_from(s@, i as int) == words(s@),
        decreases v@.len() - i,
    {
        if v[i] == ' ' || v[i] == '\t' || v[i] == '\n' || v[i] == '\r' || v[i] == '\x0C' {
            i = i + 1;
        } else {
            let mut j: usize = i;
            while j < v.len() && !(v[j] == ' ' || v[j] == '\t' || v[j] == '\n' || v[j] == '\r'
                || v[j] == '\x0C')
                invariant
                    v@ == s@,
                    i <= j <= v@.len(),
                    word_len(s@, i as int) == (j - i) + word_len(s@, j as int),
                decreases v@.len() - j,
            {
                j = j + 1;
            }
            let w = string_of_range(v.as_slice(), i, j);
            let ghost pre = out@;
            out.push(w);
            assert(views(out@) =~= views(pre) + seq![w@]);
            i = j;
        }
    }
    out
}

/// The date range of a search: when both ends are given, from the start of
/// the first day to the last second of the second; `Err` holds a token that
/// is no date.
pub open spec fn plan_dates(
    date_from: Option<Seq<char>>,
    date_to: Option<Seq<char>>,
) -> Result<Option<(int, int)>, Seq<char>> {
    match (date_from, date_to) {
        (Some(f), Some(t)) => match (day_start_millis(f), day_start_millis(t)) {
            (None, _) => Err(f),
            (Some(_), None) => Err(t),
            (Some(a), Some(b)) => Ok(Some((a, day_end(b)))),
        },
        _ => Ok(None),
    }
}

pub open spec fn dates_view(d: Option<DateRange>) -> Option<(int, int)> {
    match d {
        Some(r) => Some((r.from_ms as int, r.to_ms as int)),
        None => None,
    }
}

fn copy_opt(o: Option<&str>) -> (r: Option<String>)
    ensures
        opt_string_view(r) == opt_view(o),
{
    match o {
        Some(s) => Some(String::from_str(s)),
        None => None,
    }
}

/// Turns a search request into its plan: the query's words become fuzzy
/// terms; the tag and directory filters are kept; a date range is made only
/// when both ends are given, and a malformed end fails with `ParseError`
/// naming it.
pub fn plan_search(
    query: &str,
    tag: Option<&str>,
    directory: Option<&str>,
    date_from: Option<&str>,
    date_to: Option<&str>,
) -> (r: Result<SearchPlan, WikiError>)
    ensures
        match plan_dates(opt_view(date_from), opt_view(date_to)) {
            Err(bad) => match r {
                Err(WikiError::ParseError(tok)) => tok@ == bad,
                _ => false,
            },
            Ok(d) => match r {
                Ok(p) => views(p.terms@) == words(query@) && opt_string_view(p.tag) == opt_view(tag)
                    && opt_string_view(p.directory) == opt_view(directory) && dates_view(p.dates)
                    == d,
                Err(_) => false,
            },
        },
{
    let dates = match (date_from, date_to) {
        (Some(f), Some(t)) => {
            let a = match parse_day_start(f) {
                Some(ms) => ms,
                None => {
                    return Err(WikiError::ParseError(String::from_str(f)));
                },
            };
            let b = match parse_day_start(t) {
                Some(ms) => ms,
                None => {
                    return Err(WikiError::ParseError(String::from_str(t)));
                },
            };
            let end = if b <= i64::MAX - LAST_SECOND_MS {
                b + LAST_SECOND_MS
            } else {
                i64::MAX
            };
            Some(DateRange { from_ms: a, to_ms: end })
        },
        _ => None,
    };
    Ok(SearchPlan {
        terms: split_words(query),
        tag: copy_opt(tag),
        directory: copy_opt(directory),
        dates,
    })
}

pub open spec fn ellipsis() -> Seq<char> {
    seq![' ', '.', '.', '.']
}

/// The snippet of `content` for at most `n` characters: the first `n`, with
/// ` ...` after them when the content is longer.
pub open spec fn snippet_of(content: Seq<char>, n: nat) -> Seq<char> {
    if content.len() > n {
        content.subrange(0, n as int) + ellipsis()
    } else {
        content
    }
}

/// The snippet shown with a search result: the first `snippet_length`
/// characters of `content`, marked with ` ...` when it goes on.
pub fn get_snippet(content: &str, snippet_length: usize) -> (r: Result<String, WikiError>)
    ensures
        match r {
            Ok(t) => t@ == snippet_of(content@, snippet_length as nat),
            Err(_) => false,
        },
{
    let v = chars_of(content);
    if v.len() > snippet_length {
        let mut out = string_of_range(v.as_slice(), 0, snippet_length);
        push_char(&mut out, ' ');
        push_char(&mut out, '.');
        push_char(&mut out, '.');
        push_char(&mut out, '.');
        assert(out@ =~= snippet_of(content@, snippet_length as nat));
        Ok(out)
    } else {
        Ok(String::from_str(content))
    }
}

/// The tags joined by single spaces.
pub open spec fn joined(tags: Seq<Seq<char>>) -> Seq<char>
    decreases tags.len(),
{
    if tags.len() == 0 {
        Seq::empty()
    } else if tags.len() == 1 {
        tags[0]
    } else {
        joined(tags.drop_last()) + seq![' '] + tags.last()
    }
}

/// The length of the directory part of a page name: everything before its
/// last `/`, none when it has none.
pub open spec fn dir_len(name: Seq<char>) -> nat
    decreases name.len(),
{
    if name.len() == 0 {
        0
    } else if name.last() == '/' {
        (name.len() - 1) as nat
    } else {
        dir_len(name.drop_last())
    }
}

/// The directory of a page, relative to the wiki root.
pub open spec fn parent_dir(name: Seq<char>) -> Seq<char> {
    name.subrange(0, dir_len(name) as int)
}

/// What the search index holds of one page.
pub struct SearchDocument {
    pub name: String,
    pub content: String,
    pub tags: String,
    pub directory: String,
    pub last_modified: u64,
}

/// `tags` joined by single spaces.
pub fn join_tags(tags: &Vec<String>) -> (r: String)
    ensures
        r@ == joined(views(tags@)),
{
    let mut out = String::new();
    let mut i: usize = 0;
    while i < tags.len()
        invariant
            i <= tags@.len(),
            out@ == joined(views(tags@).subrange(0, i as int)),
        decreases tags@.len() - i,
    {
        let ghost t = views(tags@).subrange(0, i + 1);
        assert(t.drop_last() =~= views(tags@).subrange(0, i as int));
        if i > 0 {
            push_char(&mut out, ' ');
        }
        out.append(tags[i].as_str());
        i = i + 1;
        proof {
            if i == 1 {
                assert(out@ =~= t[0]);
            }
        }
    }
    assert(views(tags@).subrange(0, tags@.len() as int) =~= views(tags@));
    out
}

/// The directory of the page `name`, relative to the wiki root: what stands
/// before its last `/`.
pub fn directory_of(name: &str) -> (r: String)
    ensures
        r@ == parent_dir(name@),
{
    let v = chars_of(name);
    let mut k: usize = v.len();
    assert(name@.subrange(0, k as int) =~= name@);
    while k > 0 && v[k - 1] != '/'
        invariant
            v@ == name@,
            k <= v@.len(),
            dir_len(name@) == dir_len(name@.subrange(0, k as int)),
        decreases k,
    {
        assert(name@.subrange(0, k as int).drop_last() =~= name@.subrange(0, k - 1));
        k = k - 1;
    }
    let n = if k > 0 {
        assert(name@.subrange(0, k as int).last() == '/');
        k - 1
    } else {
        0
    };
    string_of_range(v.as_slice(), 0, n)
}

impl SearchDocument {
    /// The document of the page `name` with text `content`, last modified at
    /// `last_modified` (epoch milliseconds): its tags joined by spaces, its
    /// directory relative to the wiki root.
    pub fn for_page(name: &str, content: &str, last_modified: u64) -> (r: SearchDocument)
        ensures
            r.name@ == name@,
            r.content@ == content@,
            r.tags@ == joined(page_tags(content@)),
            r.directory@ == parent_dir(name@),
            r.last_modified == last_modified,
    {
        let tags = extract_tags(content);
        SearchDocument {
            name: String::from_str(name),
            content: String::from_str(content),
            tags: join_tags(&tags),
            directory: directory_of(name),
            last_modified,
        }
    }
}

/// How many results a search returns, best first.
pub const RESULT_LIMIT: usize = 10;

/// The largest edit distance at which a query word matches a content word.
pub const FUZZY_DISTANCE: u8 = 2;

impl DateRange {
    /// The range as bounds on unsigned times: `None` when no time can fall
    /// in it, else the bounds of exactly the times that do.
    pub fn u64_bounds(&self) -> (r: Option<(u64, u64)>)
        ensures
            match r {
                None => forall|ms: u64| !#[trigger] self.holds(ms),
                Some((lo, hi)) => lo <= hi && forall|ms: u64|
                    (lo <= ms && ms <= hi) <==> #[trigger] self.holds(ms),
            },
    {
        if self.to_ms < 0 || self.from_ms > self.to_ms {
            None
        } else if self.from_ms < 0 {
            Some((0, self.to_ms as u64))
        } else {
            Some((self.from_ms as u64, self.to_ms as u64))
        }
    }
}

impl SearchPlan {
    /// Whether the plan can find no page: a query without words matches
    /// nothing, and neither does a date range that no time falls in.
    pub fn finds_nothing(&self) -> (r: bool)
        ensures
            r == (self.terms@.len() == 0 || match self.dates {
                Some(d) => forall|ms: u64| !#[trigger] d.holds(ms),
                None => false,
            }),
    {
        if self.terms.len() == 0 {
            return true;
        }
        match &self.dates {
            Some(d) => match d.u64_bounds() {
                Some((lo, _)) => {
                    assert(d.holds(lo));
                    false
                },
                None => true,
            },
            None => false,
        }
    }
}

/// A page that a search found, with its snippet.
pub struct SearchResult {
    pub page_name: String,
    pub snippet: String,
}

/// The results of the pages `hits` (name and content, best first), each with
/// the snippet of its content.
pub fn search_results(hits: &Vec<(String, String)>, snippet_length: usize) -> (r: Vec<SearchResult>)
    ensures
        r@.len() == hits@.len(),
        forall|i: int|
            0 <= i < r@.len() ==> (#[trigger] r@[i]).page_name@ == hits@[i].0@ && r@[i].snippet@
                == snippet_of(hits@[i].1@, snippet_length as nat),
{
    let mut out: Vec<SearchResult> = Vec::new();
    let mut i: usize = 0;
    while i < hits.len()
        invariant
            i <= hits@.len(),
            out@.len() == i,
            forall|j: int|
                0 <= j < i ==> (#[trigger] out@[j]).page_name@ == hits@[j].0@ && out@[j].snippet@
                    == snippet_of(hits@[j].1@, snippet_length as nat),
        decreases hits@.len() - i,
    {
        let snippet = match get_snippet(hits[i].1.as_str(), snippet_length) {
            Ok(t) => t,
            Err(_) => String::new(),
        };
        out.push(SearchResult { page_name: hits[i].0.clone(), snippet });
        i = i + 1;
    }
    out
}

} // verus!
