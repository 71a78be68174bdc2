//! Wikilinks: `[[Page]]` and `[[Wiki:Page]]` references in page text, the
//! backlink graph they induce, and their rendering as markdown links.

use vstd::prelude::*;
use crate::keyed::KeyedList;
use crate::page::views;
use crate::text::{chars_of, push_char, string_of_range};

verus! {

broadcast use vstd::string::group_string_axioms;

/// A wikilink as the text holds it: it spans `start..end` (brackets
/// included); `wiki` is the wiki-name prefix of an inter-wiki link.
pub struct LinkSpec {
    pub start: int,
    pub end: int,
    pub wiki: Option<Seq<char>>,
    pub page: Seq<char>,
}

/// A wikilink found in a page's text.
pub struct WikiLink {
    pub start: usize,
    pub end: usize,
    pub wiki: Option<String>,
    pub page: String,
}

impl View for WikiLink {
    type V = LinkSpec;

    open spec fn view(&self) -> LinkSpec {
        LinkSpec {
            start: self.start as int,
            end: self.end as int,
            wiki: match self.wiki {
                Some(w) => Some(w@),
                None => None,
            },
            page: self.page@,
        }
    }
}

pub open spec fn is_bracket(c: char) -> bool {
    c == '[' || c == ']'
}

/// The number of characters from `k` up to the next bracket or the end.
pub open spec fn bracket_gap(s: Seq<char>, k: int) -> nat
    decreases s.len() - k,
{
    if k < 0 || k >= s.len() || is_bracket(s[k]) {
        0
    } else {
        1 + bracket_gap(s, k + 1)
    }
}

/// Where the link opened by `[[` at `i` closes: the first bracket after the
/// opening, when it starts a `]]` and at least one character stands between.
pub open spec fn close_of(s: Seq<char>, i: int) -> Option<int> {
    let j = i + 2 + bracket_gap(s, i + 2);
    if j > i + 2 && j + 1 < s.len() && s[j] == ']' && s[j + 1] == ']' {
        Some(j)
    } else {
        None
    }
}

pub open spec fn opens_at(s: Seq<char>, i: int) -> bool {
    0 <= i && i + 1 < s.len() && s[i] == '[' && s[i + 1] == '['
}

/// The index of the first `:` in `t`, or its length when there is none.
pub open spec fn colon_at(t: Seq<char>, k: int) -> nat
    decreases t.len() - k,
{
    if k < 0 || k >= t.len() || t[k] == ':' {
        0
    } else {
        1 + colon_at(t, k + 1)
    }
}

/// The link whose inner text is `t`: an inter-wiki link when a `:` with text
/// on both sides splits it at its first `:`, an intra-wiki link otherwise.
pub open spec fn link_of(start: int, end: int, t: Seq<char>) -> LinkSpec {
    let k = colon_at(t, 0) as int;
    if 0 < k && k + 1 < t.len() {
        LinkSpec {
            start,
            end,
            wiki: Some(t.subrange(0, k)),
            page: t.subrange(k + 1, t.len() as int),
        }
    } else {
        LinkSpec { start, end, wiki: None, page: t }
    }
}

/// The links of `s` from `i` on, leftmost first, none overlapping.
pub open spec fn scan_links(s: Seq<char>, i: int) -> Seq<LinkSpec>
    decreases s.len() - i,
{
    if i < 0 || i + 1 >= s.len() {
        Seq::empty()
    } else if opens_at(s, i) && close_of(s, i) is Some {
        let j = close_of(s, i)->0;
        seq![link_of(i, j + 2, s.subrange(i + 2, j))] + scan_links(s, j + 2)
    } else {
        scan_links(s, i + 1)
    }
}

/// The wikilinks of a page's text, in order.
pub open spec fn links_of(s: Seq<char>) -> Seq<LinkSpec> {
    scan_links(s, 0)
}

/// Links stand in order inside a text of length `n`, none overlapping.
pub open spec fn ordered(links: Seq<LinkSpec>, n: int) -> bool {
    &&& forall|i: int| 0 <= i < links.len() ==> 0 <= #[trigger] links[i].start < links[i].end <= n
    &&& forall|i: int| 0 < i < links.len() ==> links[i - 1].end <= #[trigger] links[i].start
}

fn make_link(v: &Vec<char>, start: usize, close: usize) -> (r: WikiLink)
    requires
        start + 2 <= close,
        close + 1 < v@.len(),
    ensures
        r@ == link_of(start as int, close + 2, v@.subrange(start + 2, close as int)),
{
    let ghost t = v@.subrange(start + 2, close as int);
    let n = v.len();
    let mut k: usize = start + 2;
    while k < close && v[k] != ':'
        invariant
            start + 2 <= k <= close,
            close + 1 < v@.len(),
            n == v@.len(),
            t == v@.subrange(start + 2, close as int),
            colon_at(t, 0) == (k - start - 2) + colon_at(t, k - start - 2),
        decreases close - k,
    {
        k = k + 1;
    }
    if k > start + 2 && close - k > 1 {
        let wiki = string_of_range(v.as_slice(), start + 2, k);
        let page = string_of_range(v.as_slice(), k + 1, close);
        assert(t.subrange(0, k - start - 2) =~= v@.subrange(start + 2, k as int));
        assert(t.subrange(k - start - 1, t.len() as int) =~= v@.subrange(k + 1, close as int));
        WikiLink { start, end: close + 2, wiki: Some(wiki), page }
    } else {
        let page = string_of_range(v.as_slice(), start + 2, close);
        WikiLink { start, end: close + 2, wiki: None, page }
    }
}

/// The wikilinks of `content`, in order: `[[` followed by text without
/// brackets, then `]]`.
pub fn parse_links(content: &str) -> (r: Vec<WikiLink>)
    ensures
        r@.map_values(|l: WikiLink| l@) == links_of(content@),
        ordered(r@.map_values(|l: WikiLink| l@), content@.len() as int),
{
    let v = chars_of(content);
    let ghost s = content@;
    let mut out: Vec<WikiLink> = Vec::new();
    let mut i: usize = 0;
    while v.len() - i > 1
        invariant
            v@ == s,
            i <= v@.len(),
            out@.map_values(|l: WikiLink| l@) + scan_links(s, i as int) == links_of(s),
            ordered(out@.map_values(|l: WikiLink| l@), s.len() as int),
            forall|a: int| 0 <= a < out@.len() ==> #[trigger] out@[a].end <= i,
        decreases v@.len() - i,
    {
        let mut found: Option<usize> = None;
        if v[i] == '[' && v[i + 1] == '[' {
            let mut j: usize = i + 2;
            while j < v.len() && v[j] != '[' && v[j] != ']'
                invariant
                    v@ == s,
                    i + 2 <= j <= v@.len(),
                    bracket_gap(s, i + 2) == (j - i - 2) + bracket_gap(s, j as int),
                decreases v@.len() - j,
            {
                j = j + 1;
            }
            if j > i + 2 && v.len() - j > 1 && v[j] == ']' && v[j + 1] == ']' {
                found = Some(j);
            }
        }
        match found {
            Some(j) => {
                let link = make_link(&v, i, j);
                let ghost pre = out@;
                out.push(link);
                proof {
                    assert(out@.map_values(|l: WikiLink| l@) =~= pre.map_values(|l: WikiLink| l@).push(
                        link@,
                    ));
                    let o = out@.map_values(|l: WikiLink| l@);
                    assert forall|a: int| 0 < a < o.len() implies o[a - 1].end <= #[trigger] o[a].start by {
                        if a == o.len() - 1 {
                            assert(out@[a - 1].end <= i);
                        }
                    }
                }
                i = j + 2;
            },
            None => {
                i = i + 1;
            },
        }
    }
    proof {
        assert(scan_links(s, i as int) == Seq::<LinkSpec>::empty());
        assert(out@.map_values(|l: WikiLink| l@) =~= out@.map_values(|l: WikiLink| l@) + scan_links(s, i as int));
    }
    out
}

} // verus!

verus! {

/// `s` without any occurrence of `x`.
pub open spec fn remove_all(s: Seq<Seq<char>>, x: Seq<char>) -> Seq<Seq<char>>
    decreases s.len(),
{
    if s.len() == 0 {
        s
    } else if s.last() == x {
        remove_all(s.drop_last(), x)
    } else {
        remove_all(s.drop_last(), x).push(s.last())
    }
}

/// The graph `m` with every edge whose source is `source` taken out.
pub open spec fn without_source(m: Map<Seq<char>, Seq<Seq<char>>>, source: Seq<char>) -> Map<
    Seq<char>,
    Seq<Seq<char>>,
> {
    m.map_values(|v: Seq<Seq<char>>| remove_all(v, source))
}

/// The sources recorded for `target` in `m`, none when it has no entry.
pub open spec fn sources_of(m: Map<Seq<char>, Seq<Seq<char>>>, target: Seq<char>) -> Seq<
    Seq<char>,
> {
    if m.contains_key(target) {
        m[target]
    } else {
        Seq::empty()
    }
}

/// `m` with the edge `source -> target` added at the end of `target`'s list.
pub open spec fn with_edge(
    m: Map<Seq<char>, Seq<Seq<char>>>,
    target: Seq<char>,
    source: Seq<char>,
) -> Map<Seq<char>, Seq<Seq<char>>> {
    m.insert(target, sources_of(m, target).push(source))
}

/// `m` with one edge from `source` for each intra-wiki link of `links`, in
/// order; inter-wiki links add nothing.
pub open spec fn with_links(
    m: Map<Seq<char>, Seq<Seq<char>>>,
    links: Seq<LinkSpec>,
    source: Seq<char>,
) -> Map<Seq<char>, Seq<Seq<char>>>
    decreases links.len(),
{
    if links.len() == 0 {
        m
    } else {
        let before = with_links(m, links.drop_last(), source);
        match links.last().wiki {
            None => with_edge(before, links.last().page, source),
            Some(_) => before,
        }
    }
}

/// The graph after the page `source` with text `s` has been processed: its
/// earlier edges cleared, then one edge per intra-wiki link of `s`.
pub open spec fn recorded(m: Map<Seq<char>, Seq<Seq<char>>>, source: Seq<char>, s: Seq<char>) -> Map<
    Seq<char>,
    Seq<Seq<char>>,
> {
    with_links(without_source(m, source), links_of(s), source)
}

/// An inter-wiki link contributes no edge, whatever links come before it.
pub proof fn lemma_interwiki_link_adds_no_edge(
    m: Map<Seq<char>, Seq<Seq<char>>>,
    links: Seq<LinkSpec>,
    link: LinkSpec,
    source: Seq<char>,
)
    requires
        link.wiki is Some,
    ensures
        with_links(m, links.push(link), source) == with_links(m, links, source),
{
    assert(links.push(link).drop_last() =~= links);
}

/// Whether `r` holds the edge `(s, t)`, as (source, target).
pub open spec fn has_edge(r: Seq<(String, String)>, t: Seq<char>, s: Seq<char>) -> bool {
    exists|k: int| 0 <= k < r.len() && r[k].1@ == t && r[k].0@ == s
}

/// Each intra-wiki link of a page's text leaves an edge from the page to the
/// link's target once the page is processed.
pub proof fn lemma_link_gives_backlink(
    m: Map<Seq<char>, Seq<Seq<char>>>,
    links: Seq<LinkSpec>,
    source: Seq<char>,
    k: int,
)
    requires
        0 <= k < links.len(),
        links[k].wiki is None,
    ensures
        sources_of(with_links(m, links, source), links[k].page).contains(source),
    decreases links.len(),
{
    let before = with_links(m, links.drop_last(), source);
    if k == links.len() - 1 {
        let l = sources_of(before, links[k].page);
        assert(l.push(source)[l.len() as int] == source);
    } else {
        assert(links.drop_last()[k] == links[k]);
        lemma_link_gives_backlink(m, links.drop_last(), source, k);
        let t = links[k].page;
        if links.last().wiki is None && links.last().page == t {
            let l = sources_of(before, t);
            let j = choose|j: int| 0 <= j < l.len() && l[j] == source;
            assert(l.push(source)[j] == source);
        }
    }
}

/// The number of intra-wiki links to `t` among `links`.
pub open spec fn count_links(links: Seq<LinkSpec>, t: Seq<char>) -> nat
    decreases links.len(),
{
    if links.len() == 0 {
        0
    } else if links.last().wiki is None && links.last().page == t {
        count_links(links.drop_last(), t) + 1
    } else {
        count_links(links.drop_last(), t)
    }
}

/// `n` copies of `x`.
pub open spec fn repeated(x: Seq<char>, n: nat) -> Seq<Seq<char>> {
    Seq::new(n, |_i: int| x)
}

proof fn lemma_sources_with_links(
    m: Map<Seq<char>, Seq<Seq<char>>>,
    links: Seq<LinkSpec>,
    source: Seq<char>,
    t: Seq<char>,
)
    ensures
        sources_of(with_links(m, links, source), t) == sources_of(m, t) + repeated(
            source,
            count_links(links, t),
        ),
    decreases links.len(),
{
    if links.len() == 0 {
        assert(sources_of(m, t) + repeated(source, 0) =~= sources_of(m, t));
    } else {
        lemma_sources_with_links(m, links.drop_last(), source, t);
        let n = count_links(links.drop_last(), t);
        if links.last().wiki is None && links.last().page == t {
            assert((sources_of(m, t) + repeated(source, n)).push(source) =~= sources_of(m, t)
                + repeated(source, n + 1));
        }
    }
}

proof fn lemma_remove_all_repeated(a: Seq<Seq<char>>, x: Seq<char>, n: nat)
    ensures
        remove_all(a + repeated(x, n), x) == remove_all(a, x),
    decreases n,
{
    if n == 0 {
        assert(a + repeated(x, 0) =~= a);
    } else {
        assert((a + repeated(x, n)).drop_last() =~= a + repeated(x, (n - 1) as nat));
        lemma_remove_all_repeated(a, x, (n - 1) as nat);
    }
}

proof fn lemma_remove_all_twice(a: Seq<Seq<char>>, x: Seq<char>)
    ensures
        remove_all(remove_all(a, x), x) == remove_all(a, x),
    decreases a.len(),
{
    if a.len() > 0 {
        lemma_remove_all_twice(a.drop_last(), x);
        if a.last() != x {
            let r = remove_all(a.drop_last(), x);
            assert(r.push(a.last()).drop_last() =~= r);
        }
    }
}

/// Reading a page again records the same backlinks: its earlier edges are
/// cleared first, so none is counted twice.
pub proof fn lemma_rerecord_same_backlinks(
    m: Map<Seq<char>, Seq<Seq<char>>>,
    source: Seq<char>,
    s: Seq<char>,
    t: Seq<char>,
)
    ensures
        sources_of(recorded(recorded(m, source, s), source, s), t) == sources_of(
            recorded(m, source, s),
            t,
        ),
{
    let ls = links_of(s);
    let n = count_links(ls, t);
    let w = without_source(m, source);
    let r1 = recorded(m, source, s);
    let w2 = without_source(r1, source);
    lemma_sources_with_links(w, ls, source, t);
    lemma_sources_with_links(w2, ls, source, t);
    assert(sources_of(w, t) == remove_all(sources_of(m, t), source)) by {
        if !m.contains_key(t) {
            assert(remove_all(Seq::<Seq<char>>::empty(), source) == Seq::<Seq<char>>::empty());
        }
    }
    assert(sources_of(w2, t) == remove_all(sources_of(r1, t), source)) by {
        if !r1.contains_key(t) {
            assert(remove_all(Seq::<Seq<char>>::empty(), source) == Seq::<Seq<char>>::empty());
        }
    }
    lemma_remove_all_repeated(sources_of(w, t), source, n);
    lemma_remove_all_twice(sources_of(m, t), source);
}

/// The backlink graph: for each target page, the pages that link to it, one
/// entry per link occurrence.
pub struct Backlinks {
    backlinks: KeyedList<Vec<String>>,
}

impl Backlinks {
    pub closed spec fn wf(&self) -> bool {
        self.backlinks.wf()
    }

    pub closed spec fn view(&self) -> Map<Seq<char>, Seq<Seq<char>>> {
        self.backlinks.view().map_values(|v: Vec<String>| views(v@))
    }

    pub fn new() -> (r: Backlinks)
        ensures
            r.wf(),
            r.view() == Map::<Seq<char>, Seq<Seq<char>>>::empty(),
    {
        let r = Backlinks { backlinks: KeyedList::new() };
        assert(r.view() =~= Map::<Seq<char>, Seq<Seq<char>>>::empty());
        r
    }

    /// The pages recorded as linking to `page_name`; empty when none is.
    pub fn get_backlinks(&self, page_name: &str) -> (r: Vec<String>)
        requires
            self.wf(),
        ensures
            views(r@) == sources_of(self.view(), page_name@),
    {
        let page = String::from_str(page_name);
        match self.backlinks.get(&page) {
            Some(v) => crate::tags::copy_strings(v),
            None => {
                let r: Vec<String> = Vec::new();
                assert(views(r@) =~= Seq::<Seq<char>>::empty());
                r
            },
        }
    }

    /// Drops the entry of the target `page_name`.
    pub fn remove_backlinks(&mut self, page_name: &str)
        requires
            old(self).wf(),
        ensures
            final(self).wf(),
            final(self).view() == old(self).view().remove(page_name@),
    {
        let page = String::from_str(page_name);
        let ghost pre = self.view();
        let _ = self.backlinks.remove(&page);
        assert(self.view() =~= pre.remove(page_name@));
    }

    /// Records the edge `source -> target`.
    fn add_edge(&mut self, target: &String, source: &String)
        requires
            old(self).wf(),
        ensures
            final(self).wf(),
            final(self).view() == with_edge(old(self).view(), target@, source@),
    {
        let ghost pre = self.view();
        let mut list = match self.backlinks.get(target) {
            Some(v) => crate::tags::copy_strings(v),
            None => Vec::new(),
        };
        let ghost before = list@;
        assert(views(before) =~= sources_of(pre, target@));
        list.push(source.clone());
        assert(views(list@) =~= views(before).push(source@));
        self.backlinks.insert(target.clone(), list);
        assert(self.view() =~= with_edge(pre, target@, source@));
    }

    /// Takes out every edge whose source is `source`.
    pub fn forget_source(&mut self, source: &str)
        requires
            old(self).wf(),
        ensures
            final(self).wf(),
            final(self).view() == without_source(old(self).view(), source@),
    {
        let src = String::from_str(source);
        let ghost orig = self.backlinks;
        let ghost keys = self.backlinks.keys@;
        let ghost vals = self.backlinks.vals@;
        let ghost pre = self.view();
        let mut i: usize = 0;
        while i < self.backlinks.len()
            invariant
                self.wf(),
                src@ == source@,
                self.backlinks.keys@ == keys,
                self.backlinks.vals@.len() == vals.len(),
                i <= keys.len(),
                forall|j: int|
                    0 <= j < i ==> views(#[trigger] self.backlinks.vals@[j]@) == remove_all(
                        views(vals[j]@),
                        source@,
                    ),
                forall|j: int| i <= j < keys.len() ==> #[trigger] self.backlinks.vals@[j] == vals[j],
            decreases keys.len() - i,
        {
            let kept = without(self.backlinks.val_at(i), &src);
            self.backlinks.set_at(i, kept);
            i = i + 1;
        }
        proof {
            let old_list = orig;
            assert forall|k: Seq<char>| #[trigger] self.view().contains_key(k) == without_source(pre, source@).contains_key(k) by {
                if self.backlinks.has_key(k) {
                    let j = self.backlinks.index_of(k);
                    assert(keys[j]@ == k);
                }
                if pre.contains_key(k) {
                    let j = old_list.index_of(k);
                    assert(self.backlinks.keys@[j]@ == k);
                }
            }
            assert forall|k: Seq<char>| #[trigger] self.view().contains_key(k) implies self.view()[k] == without_source(pre, source@)[k] by {
                let j = self.backlinks.index_of(k);
                self.backlinks.lemma_at(j);
                old_list.lemma_at(j);
            }
            assert(self.view() =~= without_source(pre, source@));
        }
    }

    /// Every edge of the graph as `(source, target)`, once per recorded link.
    pub fn edges(&self) -> (r: Vec<(String, String)>)
        requires
            self.wf(),
        ensures
            forall|k: int|
                0 <= k < r@.len() ==> self.view().contains_key((#[trigger] r@[k]).1@)
                    && self.view()[r@[k].1@].contains(r@[k].0@),
            forall|t: Seq<char>, s: Seq<char>|
                self.view().contains_key(t) && #[trigger] self.view()[t].contains(s) ==> has_edge(
                    r@,
                    t,
                    s,
                ),
    {
        let mut out: Vec<(String, String)> = Vec::new();
        let mut i: usize = 0;
        while i < self.backlinks.len()
            invariant
                self.wf(),
                i <= self.backlinks.keys@.len(),
                forall|k: int|
                    0 <= k < out@.len() ==> self.view().contains_key((#[trigger] out@[k]).1@)
                        && self.view()[out@[k].1@].contains(out@[k].0@),
                forall|a: int, b: int|
                    0 <= a < i && 0 <= b < self.backlinks.vals@[a]@.len() ==> #[trigger] has_edge(
                        out@,
                        self.backlinks.keys@[a]@,
                        self.backlinks.vals@[a]@[b]@,
                    ),
            decreases self.backlinks.keys@.len() - i,
        {
            let target = self.backlinks.key_at(i);
            let sources = self.backlinks.val_at(i);
            proof {
                self.backlinks.lemma_at(i as int);
            }
            let mut j: usize = 0;
            while j < sources.len()
                invariant
                    self.wf(),
                    i < self.backlinks.keys@.len(),
                    *target == self.backlinks.keys@[i as int],
                    *sources == self.backlinks.vals@[i as int],
                    self.view().contains_key(target@),
                    self.view()[target@] == views(sources@),
                    j <= sources@.len(),
                    forall|k: int|
                        0 <= k < out@.len() ==> self.view().contains_key((#[trigger] out@[k]).1@)
                            && self.view()[out@[k].1@].contains(out@[k].0@),
                    forall|a: int, b: int|
                        0 <= a < i && 0 <= b < self.backlinks.vals@[a]@.len() ==> #[trigger] has_edge(
                            out@,
                            self.backlinks.keys@[a]@,
                            self.backlinks.vals@[a]@[b]@,
                        ),
                    forall|b: int| 0 <= b < j ==> #[trigger] has_edge(out@, target@, sources@[b]@),
                decreases sources@.len() - j,
            {
                let ghost pre = out@;
                let e = (sources[j].clone(), target.clone());
                out.push(e);
                proof {
                    assert(views(sources@)[j as int] == sources@[j as int]@);
                    assert forall|k: int|
                        0 <= k < out@.len() implies self.view().contains_key((#[trigger] out@[k]).1@)
                            && self.view()[out@[k].1@].contains(out@[k].0@) by {
                        if k < pre.len() {
                            assert(out@[k] == pre[k]);
                        }
                    }
                    assert forall|t: Seq<char>, x: Seq<char>| has_edge(pre, t, x) implies #[trigger] has_edge(
                        out@,
                        t,
                        x,
                    ) by {
                        let k = choose|k: int| 0 <= k < pre.len() && pre[k].1@ == t && pre[k].0@ == x;
                        assert(out@[k] == pre[k]);
                    }
                    assert(out@[pre.len() as int] == e);
                    assert(has_edge(out@, target@, sources@[j as int]@));
                }
                j = j + 1;
            }
            i = i + 1;
        }
        proof {
            assert forall|t: Seq<char>, x: Seq<char>|
                self.view().contains_key(t) && #[trigger] self.view()[t].contains(x) implies has_edge(
                    out@,
                    t,
                    x,
                ) by {
                let a = self.backlinks.index_of(t);
                self.backlinks.lemma_at(a);
                let b = choose|b: int|
                    0 <= b < views(self.backlinks.vals@[a]@).len() && views(self.backlinks.vals@[a]@)[b] == x;
                assert(self.backlinks.vals@[a]@[b]@ == x);
                assert(has_edge(out@, self.backlinks.keys@[a]@, self.backlinks.vals@[a]@[b]@));
            }
        }
        out
    }

    /// Processes the page `page_name` with text `content`: clears the edges
    /// it recorded before, then records one edge per intra-wiki link. Returns
    /// the links found, in order.
    pub fn record_links(&mut self, page_name: &str, content: &str) -> (r: Vec<WikiLink>)
        requires
            old(self).wf(),
        ensures
            final(self).wf(),
            final(self).view() == recorded(old(self).view(), page_name@, content@),
            r@.map_values(|l: WikiLink| l@) == links_of(content@),
            ordered(r@.map_values(|l: WikiLink| l@), content@.len() as int),
    {
        self.forget_source(page_name);
        let ghost base = self.view();
        let links = parse_links(content);
        let ghost ls = links@.map_values(|l: WikiLink| l@);
        let source = String::from_str(page_name);
        let mut i: usize = 0;
        while i < links.len()
            invariant
                self.wf(),
                source@ == page_name@,
                ls == links@.map_values(|l: WikiLink| l@),
                i <= links@.len(),
                self.view() == with_links(base, ls.subrange(0, i as int), page_name@),
            decreases links@.len() - i,
        {
            assert(ls.subrange(0, i + 1).drop_last() =~= ls.subrange(0, i as int));
            match &links[i].wiki {
                None => {
                    self.add_edge(&links[i].page, &source);
                },
                Some(_) => {},
            }
            i = i + 1;
        }
        assert(ls.subrange(0, links@.len() as int) =~= ls);
        links
    }
}

/// The strings of `v` other than `x`, in order.
fn without(v: &Vec<String>, x: &String) -> (r: Vec<String>)
    ensures
        views(r@) == remove_all(views(v@), x@),
{
    let mut out: Vec<String> = Vec::new();
    let mut i: usize = 0;
    while i < v.len()
        invariant
            i <= v@.len(),
            views(out@) == remove_all(views(v@).subrange(0, i as int), x@),
        decreases v@.len() - i,
    {
        let ghost pre = out@;
        assert(views(v@).subrange(0, i + 1).drop_last() =~= views(v@).subrange(0, i as int));
        if !(v[i] == *x) {
            out.push(v[i].clone());
            assert(views(out@) =~= views(pre).push(v@[i as int]@));
        }
        i = i + 1;
    }
    assert(views(v@).subrange(0, v@.len() as int) =~= views(v@));
    out
}

} // verus!

verus! {

/// Where a link points, as the caller resolved it.
pub enum LinkTarget {
    /// The page's file path, and whether that file exists.
    Page { path: String, exists: bool },
    /// An inter-wiki link whose wiki name is not configured.
    UnknownWiki,
}

pub open spec fn not_created_note() -> Seq<char> {
    seq![
        ' ', '(', 'n', 'o', 't', ' ', 'c', 'r', 'e', 'a', 't', 'e', 'd', ' ', 'y', 'e', 't', ')'
    ]
}

pub open spec fn wiki_not_found_note() -> Seq<char> {
    seq![' ', '(', 'w', 'i', 'k', 'i', ' ', 'n', 'o', 't', ' ', 'f', 'o', 'u', 'n', 'd', ')']
}

/// The markdown that replaces the link `l` resolved to `t`:
/// `[Page](path)`, `[Page (not created yet)](path)` for a missing file, and
/// `[[Wiki:Page (wiki not found)]]` for an unknown wiki.
pub open spec fn link_text(l: LinkSpec, t: LinkTarget) -> Seq<char> {
    match t {
        LinkTarget::Page { path, exists } => seq!['['] + l.page + (if exists {
            Seq::empty()
        } else {
            not_created_note()
        }) + seq![']', '('] + path@ + seq![')'],
        LinkTarget::UnknownWiki => seq!['[', '['] + (match l.wiki {
            Some(w) => w,
            None => Seq::empty(),
        }) + seq![':'] + l.page + wiki_not_found_note() + seq![']', ']'],
    }
}

/// Where the text after the first `k` links resumes.
pub open spec fn resume_at(links: Seq<LinkSpec>, k: int) -> int {
    if k <= 0 {
        0
    } else {
        links[k - 1].end
    }
}

/// The rendering of `s` up to the end of its `k`-th link.
pub open spec fn rendered_upto(
    s: Seq<char>,
    links: Seq<LinkSpec>,
    targets: Seq<LinkTarget>,
    k: int,
) -> Seq<char>
    decreases k,
{
    if k <= 0 {
        Seq::empty()
    } else {
        rendered_upto(s, links, targets, k - 1) + s.subrange(resume_at(links, k - 1), links[k - 1].start)
            + link_text(links[k - 1], targets[k - 1])
    }
}

/// `s` with each link replaced by its markdown.
pub open spec fn rendered(s: Seq<char>, links: Seq<LinkSpec>, targets: Seq<LinkTarget>) -> Seq<char> {
    rendered_upto(s, links, targets, links.len() as int) + s.subrange(
        resume_at(links, links.len() as int),
        s.len() as int,
    )
}

fn append_chars(out: &mut String, lit: &Vec<char>)
    ensures
        final(out)@ == old(out)@ + lit@,
{
    out.append(crate::text::string_of(lit.as_slice()).as_str());
}

/// The markdown for the link `l` resolved to `t`.
pub fn render_link(l: &WikiLink, t: &LinkTarget) -> (r: String)
    ensures
        r@ == link_text(l@, *t),
{
    let mut out = String::new();
    match t {
        LinkTarget::Page { path, exists } => {
            push_char(&mut out, '[');
            out.append(l.page.as_str());
            if !*exists {
                let note: Vec<char> = vec![
                    ' ', '(', 'n', 'o', 't', ' ', 'c', 'r', 'e', 'a', 't', 'e', 'd', ' ', 'y', 'e', 't', ')'
                ];
                append_chars(&mut out, &note);
                assert(note@ =~= not_created_note());
            }
            push_char(&mut out, ']');
            push_char(&mut out, '(');
            out.append(path.as_str());
            push_char(&mut out, ')');
            assert(out@ =~= link_text(l@, *t));
        },
        LinkTarget::UnknownWiki => {
            push_char(&mut out, '[');
            push_char(&mut out, '[');
            match &l.wiki {
                Some(w) => out.append(w.as_str()),
                None => {},
            }
            push_char(&mut out, ':');
            out.append(l.page.as_str());
            let note: Vec<char> = vec![
                ' ', '(', 'w', 'i', 'k', 'i', ' ', 'n', 'o', 't', ' ', 'f', 'o', 'u', 'n', 'd', ')'
            ];
            append_chars(&mut out, &note);
            assert(note@ =~= wiki_not_found_note());
            push_char(&mut out, ']');
            push_char(&mut out, ']');
            assert(out@ =~= link_text(l@, *t));
        },
    }
    out
}

/// `content` with each of its links replaced by the markdown for the target
/// the caller resolved it to.
pub fn render_links(content: &str, links: &Vec<WikiLink>, targets: &Vec<LinkTarget>) -> (r: String)
    requires
        links@.len() == targets@.len(),
        ordered(links@.map_values(|l: WikiLink| l@), content@.len() as int),
    ensures
        r@ == rendered(content@, links@.map_values(|l: WikiLink| l@), targets@),
{
    let v = chars_of(content);
    let ghost ls = links@.map_values(|l: WikiLink| l@);
    let mut out = String::new();
    let mut pos: usize = 0;
    let mut i: usize = 0;
    while i < links.len()
        invariant
            v@ == content@,
            ls == links@.map_values(|l: WikiLink| l@),
            links@.len() == targets@.len(),
            ordered(ls, content@.len() as int),
            i <= links@.len(),
            pos == resume_at(ls, i as int),
            out@ == rendered_upto(content@, ls, targets@, i as int),
        decreases links@.len() - i,
    {
        let l = &links[i];
        assert(ls[i as int] == l@);
        assert(0 <= ls[i as int].start < ls[i as int].end <= content@.len());
        if i > 0 {
            assert(ls[i - 1].end <= ls[i as int].start);
        }
        out.append(string_of_range(v.as_slice(), pos, l.start).as_str());
        out.append(render_link(l, &targets[i]).as_str());
        pos = l.end;
        i = i + 1;
    }
    out.append(string_of_range(v.as_slice(), pos, v.len()).as_str());
    out
}

} // verus!
