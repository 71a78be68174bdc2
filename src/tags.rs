//! The tag index (tag to the pages bearing it) and the cache of tags
//! extracted per file, valid while the file's modification time is unchanged.

use vstd::prelude::*;
use crate::frontmatter::{contains_string, extract_tags, page_tags};
use crate::keyed::KeyedList;
use crate::page::views;

verus! {

broadcast use vstd::string::group_string_axioms;

/// The strings of `v` as a set.
pub open spec fn set_of(v: Seq<String>) -> Set<Seq<char>> {
    Set::new(|x: Seq<char>| views(v).contains(x))
}

/// `m` with `page` added to the pages of `tag`.
pub open spec fn with_tag(m: Map<Seq<char>, Set<Seq<char>>>, tag: Seq<char>, page: Seq<char>) -> Map<
    Seq<char>,
    Set<Seq<char>>,
> {
    if m.contains_key(tag) {
        m.insert(tag, m[tag].insert(page))
    } else {
        m.insert(tag, Set::empty().insert(page))
    }
}

/// `m` with `page` added to the pages of each tag of `tags`, in order.
pub open spec fn with_tags(
    m: Map<Seq<char>, Set<Seq<char>>>,
    page: Seq<char>,
    tags: Seq<Seq<char>>,
) -> Map<Seq<char>, Set<Seq<char>>>
    decreases tags.len(),
{
    if tags.len() == 0 {
        m
    } else {
        with_tag(with_tags(m, page, tags.drop_last()), tags.last(), page)
    }
}

/// What a sequence holds after a push.
pub proof fn lemma_push_contains(s: Seq<Seq<char>>, y: Seq<char>, x: Seq<char>)
    ensures
        s.push(y).contains(x) <==> (s.contains(x) || x == y),
{
    if s.contains(x) {
        let j = choose|j: int| 0 <= j < s.len() && s[j] == x;
        assert(s.push(y)[j] == x);
    }
    if x == y {
        assert(s.push(y)[s.len() as int] == x);
    }
    if s.push(y).contains(x) {
        let j = choose|j: int| 0 <= j < s.push(y).len() && s.push(y)[j] == x;
        if j < s.len() {
            assert(s[j] == x);
        }
    }
}

/// For each tag, the pages that bear it.
pub struct Tags {
    tags: KeyedList<Vec<String>>,
}

impl Tags {
    pub closed spec fn wf(&self) -> bool {
        &&& self.tags.wf()
        &&& forall|t: Seq<char>| #[trigger]
            self.tags.view().contains_key(t) ==> views(self.tags.view()[t]@).no_duplicates()
    }

    pub closed spec fn view(&self) -> Map<Seq<char>, Set<Seq<char>>> {
        self.tags.view().map_values(|v: Vec<String>| set_of(v@))
    }

    pub fn new() -> (r: Tags)
        ensures
            r.wf(),
            r.view() == Map::<Seq<char>, Set<Seq<char>>>::empty(),
    {
        let r = Tags { tags: KeyedList::new() };
        assert(r.view() =~= Map::<Seq<char>, Set<Seq<char>>>::empty());
        r
    }

    /// Records that `page_name` bears `tag_name`.
    pub fn add_tag(&mut self, page_name: &str, tag_name: &str)
        requires
            old(self).wf(),
        ensures
            final(self).wf(),
            final(self).view() == with_tag(old(self).view(), tag_name@, page_name@),
    {
        let tag = String::from_str(tag_name);
        let page = String::from_str(page_name);
        let ghost pre = self.view();
        let mut pages: Vec<String> = match self.tags.get(&tag) {
            Some(p) => copy_strings(p),
            None => Vec::new(),
        };
        let ghost before = pages@;
        let ghost base = if pre.contains_key(tag_name@) {
            pre[tag_name@]
        } else {
            Set::empty()
        };
        assert(set_of(before) =~= base);
        if !contains_string(&pages, &page) {
            pages.push(page);
            proof {
                assert(views(pages@) =~= views(before).push(page_name@));
                assert forall|i: int, j: int|
                    0 <= i < views(pages@).len() && 0 <= j < views(pages@).len() && i != j
                    implies views(pages@)[i] != views(pages@)[j] by {
                    if i == before.len() {
                        assert(views(before)[j] == views(pages@)[j]);
                    } else if j == before.len() {
                        assert(views(before)[i] == views(pages@)[i]);
                    }
                }
            }
        }
        proof {
            assert(set_of(pages@) =~= (if pre.contains_key(tag_name@) {
                pre[tag_name@]
            } else {
                Set::empty()
            }).insert(page_name@)) by {
                assert forall|x: Seq<char>| #[trigger] set_of(pages@).contains(x)
                    implies set_of(before).contains(x) || x == page_name@ by {
                    let i = choose|i: int| 0 <= i < views(pages@).len() && views(pages@)[i] == x;
                    if i < before.len() {
                        assert(views(before)[i] == x);
                    }
                }
                assert forall|x: Seq<char>| set_of(before).contains(x) implies #[trigger] set_of(
                    pages@,
                ).contains(x) by {
                    let i = choose|i: int| 0 <= i < views(before).len() && views(before)[i] == x;
                    assert(views(pages@)[i] == x);
                }
                if pages@.len() > before.len() {
                    assert(views(pages@)[before.len() as int] == page_name@);
                }
            }
        }
        self.tags.insert(tag, pages);
        proof {
            assert(self.view() =~= with_tag(pre, tag_name@, page_name@));
        }
    }

    /// Records that `page_name` no longer bears `tag_name`; a tag that is not
    /// indexed is left alone.
    pub fn remove_tag(&mut self, page_name: &str, tag_name: &str)
        requires
            old(self).wf(),
        ensures
            final(self).wf(),
            old(self).view().contains_key(tag_name@) ==> final(self).view() == old(
                self,
            ).view().insert(tag_name@, old(self).view()[tag_name@].remove(page_name@)),
            !old(self).view().contains_key(tag_name@) ==> final(self).view() == old(self).view(),
    {
        let tag = String::from_str(tag_name);
        let page = String::from_str(page_name);
        let ghost pre = self.view();
        let pages: &Vec<String> = match self.tags.get(&tag) {
            Some(p) => p,
            None => {
                return;
            },
        };
        let ghost old_pages = pages@;
        let mut kept: Vec<String> = Vec::new();
        let mut i: usize = 0;
        while i < pages.len()
            invariant
                pages@ == old_pages,
                page@ == page_name@,
                views(old_pages).no_duplicates(),
                i <= old_pages.len(),
                views(kept@).no_duplicates(),
                forall|x: Seq<char>|
                    views(kept@).contains(x) <==> (views(old_pages).subrange(0, i as int).contains(
                        x,
                    ) && x != page_name@),
            decreases old_pages.len() - i,
        {
            let ghost k = kept@;
            let ghost pre_i = views(old_pages).subrange(0, i as int);
            assert(views(old_pages).subrange(0, i + 1) =~= pre_i.push(old_pages[i as int]@));
            let same = pages[i] == page;
            if !same {
                kept.push(pages[i].clone());
                proof {
                    assert(views(kept@) =~= views(k).push(old_pages[i as int]@));
                    assert(!pre_i.contains(old_pages[i as int]@)) by {
                        if pre_i.contains(old_pages[i as int]@) {
                            let j = choose|j: int|
                                0 <= j < pre_i.len() && pre_i[j] == old_pages[i as int]@;
                            assert(views(old_pages)[j] == views(old_pages)[i as int]);
                        }
                    }
                    assert forall|a: int, b: int|
                        0 <= a < views(kept@).len() && 0 <= b < views(kept@).len() && a != b
                        implies views(kept@)[a] != views(kept@)[b] by {
                        if a == k.len() {
                            assert(views(k).contains(views(kept@)[b]));
                        } else if b == k.len() {
                            assert(views(k).contains(views(kept@)[a]));
                        }
                    }
                }
            }
            proof {
                assert forall|x: Seq<char>|
                    views(kept@).contains(x) <==> (views(old_pages).subrange(0, i + 1).contains(x)
                        && x != page_name@) by {
                    lemma_push_contains(pre_i, old_pages[i as int]@, x);
                    lemma_push_contains(views(k), old_pages[i as int]@, x);
                    assert(views(k).contains(x) <==> (pre_i.contains(x) && x != page_name@));
                    if same {
                        assert(old_pages[i as int]@ == page_name@);
                    } else {
                        assert(views(kept@) == views(k).push(old_pages[i as int]@));
                    }
                }
            }
            i = i + 1;
        }
        assert(views(old_pages).subrange(0, old_pages.len() as int) =~= views(old_pages));
        assert(set_of(kept@) =~= pre[tag_name@].remove(page_name@));
        self.tags.insert(tag, kept);
        assert(self.view() =~= pre.insert(tag_name@, pre[tag_name@].remove(page_name@)));
    }

    /// Every indexed tag, once each.
    pub fn list_tags(&self) -> (r: Vec<String>)
        requires
            self.wf(),
        ensures
            views(r@).no_duplicates(),
            set_of(r@) == self.view().dom(),
    {
        let mut out: Vec<String> = Vec::new();
        let mut i: usize = 0;
        while i < self.tags.len()
            invariant
                self.wf(),
                i <= self.tags.keys@.len(),
                out@ == self.tags.keys@.subrange(0, i as int),
            decreases self.tags.keys@.len() - i,
        {
            out.push(self.tags.key_at(i).clone());
            i = i + 1;
            assert(out@ =~= self.tags.keys@.subrange(0, i as int));
        }
        proof {
            assert(out@ =~= self.tags.keys@);
            assert forall|x: Seq<char>| #[trigger] set_of(out@).contains(x) <==> self.view().dom().contains(x) by {
                if set_of(out@).contains(x) {
                    let j = choose|j: int| 0 <= j < views(out@).len() && views(out@)[j] == x;
                    self.tags.lemma_at(j);
                }
                if self.view().dom().contains(x) {
                    let j = self.tags.index_of(x);
                    assert(views(out@)[j] == x);
                }
            }
            assert(set_of(out@) =~= self.view().dom());
        }
        out
    }

    /// The tags that `page_name` bears, once each.
    pub fn list_tags_for_page(&self, page_name: &str) -> (r: Vec<String>)
        requires
            self.wf(),
        ensures
            views(r@).no_duplicates(),
            forall|t: Seq<char>|
                #[trigger] set_of(r@).contains(t) <==> (self.view().contains_key(t) && self.view()[t].contains(
                    page_name@,
                )),
    {
        let page = String::from_str(page_name);
        let mut out: Vec<String> = Vec::new();
        let mut i: usize = 0;
        while i < self.tags.len()
            invariant
                self.wf(),
                page@ == page_name@,
                i <= self.tags.keys@.len(),
                views(out@).no_duplicates(),
                forall|x: Seq<char>| #[trigger] views(out@).contains(x) ==> exists|j: int|
                    0 <= j < i && self.tags.keys@[j]@ == x,
                forall|j: int| 0 <= j < i ==> (#[trigger] views(out@).contains(self.tags.keys@[j]@)
                    <==> views(self.tags.vals@[j]@).contains(page_name@)),
            decreases self.tags.keys@.len() - i,
        {
            let ghost k = out@;
            if contains_string(self.tags.val_at(i), &page) {
                out.push(self.tags.key_at(i).clone());
                proof {
                    assert(views(out@) =~= views(k).push(self.tags.keys@[i as int]@));
                    assert(!views(k).contains(self.tags.keys@[i as int]@)) by {
                        if views(k).contains(self.tags.keys@[i as int]@) {
                            let j = choose|j: int|
                                0 <= j < i && self.tags.keys@[j]@ == self.tags.keys@[i as int]@;
                        }
                    }
                    assert forall|a: int, b: int|
                        0 <= a < views(out@).len() && 0 <= b < views(out@).len() && a != b
                        implies views(out@)[a] != views(out@)[b] by {
                        if a == k.len() {
                            assert(views(k).contains(views(out@)[b]));
                        } else if b == k.len() {
                            assert(views(k).contains(views(out@)[a]));
                        }
                    }
                    assert forall|x: Seq<char>| #[trigger] views(out@).contains(x) implies exists|j: int|
                        0 <= j < i + 1 && self.tags.keys@[j]@ == x by {
                        lemma_push_contains(views(k), self.tags.keys@[i as int]@, x);
                        if views(k).contains(x) {
                            let j = choose|j: int| 0 <= j < i && self.tags.keys@[j]@ == x;
                            assert(0 <= j < i + 1 && self.tags.keys@[j]@ == x);
                        } else {
                            assert(self.tags.keys@[i as int]@ == x);
                        }
                    }
                    assert forall|j: int| 0 <= j < i + 1 implies (#[trigger] views(out@).contains(
                        self.tags.keys@[j]@,
                    ) <==> views(self.tags.vals@[j]@).contains(page_name@)) by {
                        if j < i {
                            if views(out@).contains(self.tags.keys@[j]@) {
                                let a = choose|a: int|
                                    0 <= a < views(out@).len() && views(out@)[a] == self.tags.keys@[j]@;
                                if a < k.len() {
                                    assert(views(k)[a] == self.tags.keys@[j]@);
                                }
                            }
                            if views(k).contains(self.tags.keys@[j]@) {
                                let a = choose|a: int|
                                    0 <= a < views(k).len() && views(k)[a] == self.tags.keys@[j]@;
                                assert(views(out@)[a] == self.tags.keys@[j]@);
                            }
                        } else {
                            assert(views(out@)[k.len() as int] == self.tags.keys@[j]@);
                        }
                    }
                }
            } else {
                proof {
                    assert(!views(out@).contains(self.tags.keys@[i as int]@)) by {
                        if views(out@).contains(self.tags.keys@[i as int]@) {
                            let j = choose|j: int|
                                0 <= j < i && self.tags.keys@[j]@ == self.tags.keys@[i as int]@;
                        }
                    }
                }
            }
            i = i + 1;
        }
        proof {
            assert forall|t: Seq<char>|
                #[trigger] set_of(out@).contains(t) <==> (self.view().contains_key(t) && self.view()[t].contains(
                    page_name@,
                )) by {
                if set_of(out@).contains(t) {
                    let j = choose|j: int| 0 <= j < i && self.tags.keys@[j]@ == t;
                    self.tags.lemma_at(j);
                }
                if self.view().contains_key(t) {
                    let j = self.tags.index_of(t);
                    self.tags.lemma_at(j);
                }
            }
        }
        out
    }

    /// The pages that bear `tag_name`, once each; none when it is not indexed.
    pub fn list_pages_with_tag(&self, tag_name: &str) -> (r: Vec<String>)
        requires
            self.wf(),
        ensures
            views(r@).no_duplicates(),
            set_of(r@) == (if self.view().contains_key(tag_name@) {
                self.view()[tag_name@]
            } else {
                Set::empty()
            }),
    {
        let tag = String::from_str(tag_name);
        match self.tags.get(&tag) {
            Some(p) => copy_strings(p),
            None => {
                let r: Vec<String> = Vec::new();
                assert(set_of(r@) =~= Set::empty());
                r
            },
        }
    }

    /// Records that `page_name` bears each tag of `tags`.
    pub fn add_page_tags(&mut self, page_name: &str, tags: &Vec<String>)
        requires
            old(self).wf(),
        ensures
            final(self).wf(),
            final(self).view() == with_tags(old(self).view(), page_name@, views(tags@)),
    {
        let mut i: usize = 0;
        while i < tags.len()
            invariant
                self.wf(),
                i <= tags@.len(),
                self.view() == with_tags(old(self).view(), page_name@, views(tags@).subrange(0, i as int)),
            decreases tags@.len() - i,
        {
            self.add_tag(page_name, tags[i].as_str());
            proof {
                let t = views(tags@).subrange(0, i + 1);
                assert(t.drop_last() =~= views(tags@).subrange(0, i as int));
            }
            i = i + 1;
        }
        assert(views(tags@).subrange(0, tags@.len() as int) =~= views(tags@));
    }
}

/// A copy of a list of strings.
pub fn copy_strings(v: &Vec<String>) -> (r: Vec<String>)
    ensures
        r@ == v@,
{
    let mut out: Vec<String> = Vec::new();
    let mut i: usize = 0;
    while i < v.len()
        invariant
            i <= v@.len(),
            out@ == v@.subrange(0, i as int),
        decreases v@.len() - i,
    {
        out.push(v[i].clone());
        i = i + 1;
        assert(out@ =~= v@.subrange(0, i as int));
    }
    assert(out@ =~= v@);
    out
}

/// The tags extracted from one file, and the file's modification time when
/// they were extracted.
pub struct CachedTags {
    pub mtime: u64,
    pub tags: Vec<String>,
}

/// The tags that the cache `m` may hand out for the file `path` last modified
/// at `mtime`: the recorded ones, only while the time is the recorded one.
pub open spec fn cache_hit(
    m: Map<Seq<char>, (u64, Seq<Seq<char>>)>,
    path: Seq<char>,
    mtime: u64,
) -> Option<Seq<Seq<char>>> {
    if m.contains_key(path) && m[path].0 == mtime {
        Some(m[path].1)
    } else {
        None
    }
}

/// Tags extracted per file path, so that unchanged files need not be read.
pub struct TagCache {
    entries: KeyedList<CachedTags>,
}

impl TagCache {
    pub closed spec fn wf(&self) -> bool {
        self.entries.wf()
    }

    pub closed spec fn view(&self) -> Map<Seq<char>, (u64, Seq<Seq<char>>)> {
        self.entries.view().map_values(|e: CachedTags| (e.mtime, views(e.tags@)))
    }

    pub fn new() -> (r: TagCache)
        ensures
            r.wf(),
            r.view() == Map::<Seq<char>, (u64, Seq<Seq<char>>)>::empty(),
    {
        let r = TagCache { entries: KeyedList::new() };
        assert(r.view() =~= Map::<Seq<char>, (u64, Seq<Seq<char>>)>::empty());
        r
    }

    /// The cached tags of `path` when it was last extracted at `mtime`;
    /// `None` when the file is unknown or has changed since.
    pub fn lookup(&self, path: &String, mtime: u64) -> (r: Option<Vec<String>>)
        requires
            self.wf(),
        ensures
            match r {
                Some(t) => cache_hit(self.view(), path@, mtime) == Some(views(t@)),
                None => cache_hit(self.view(), path@, mtime) is None,
            },
    {
        match self.entries.get(path) {
            Some(e) => {
                if e.mtime == mtime {
                    Some(copy_strings(&e.tags))
                } else {
                    None
                }
            },
            None => None,
        }
    }

    /// Extracts the tags of `content`, the text of `path` last modified at
    /// `mtime`, and records them for that time.
    pub fn record(&mut self, path: String, mtime: u64, content: &str) -> (r: Vec<String>)
        requires
            old(self).wf(),
        ensures
            final(self).wf(),
            views(r@) == page_tags(content@),
            final(self).view() == old(self).view().insert(path@, (mtime, page_tags(content@))),
    {
        let tags = extract_tags(content);
        let copy = copy_strings(&tags);
        let ghost pre = self.view();
        self.entries.insert(path, CachedTags { mtime, tags: copy });
        assert(self.view() =~= pre.insert(path@, (mtime, page_tags(content@))));
        tags
    }
}

/// Once the tags of a file are recorded at some modification time, the cache
/// hands them out for that time, and for no other.
pub proof fn lemma_cache_hit_after_record(
    m: Map<Seq<char>, (u64, Seq<Seq<char>>)>,
    path: Seq<char>,
    mtime: u64,
    tags: Seq<Seq<char>>,
    later: u64,
)
    ensures
        cache_hit(m.insert(path, (mtime, tags)), path, mtime) == Some(tags),
        later != mtime ==> cache_hit(m.insert(path, (mtime, tags)), path, later) is None,
{
}

/// A markdown file found under the wiki root: the page it holds, its path,
/// and its modification time.
pub struct FileStamp {
    pub page: String,
    pub path: String,
    pub mtime: u64,
}

/// The tags of the file `f` when the cache is `c`: the cached ones while
/// they are current, else those of its freshly read `content` (none when it
/// was not read).
pub open spec fn file_tags(
    c: Map<Seq<char>, (u64, Seq<Seq<char>>)>,
    f: FileStamp,
    content: Option<String>,
) -> Seq<Seq<char>> {
    match cache_hit(c, f.path@, f.mtime) {
        Some(t) => t,
        None => match content {
            Some(s) => page_tags(s@),
            None => Seq::empty(),
        },
    }
}

/// The cache after the file `f` is indexed: a fresh read is recorded.
pub open spec fn cache_after(
    c: Map<Seq<char>, (u64, Seq<Seq<char>>)>,
    f: FileStamp,
    content: Option<String>,
) -> Map<Seq<char>, (u64, Seq<Seq<char>>)> {
    match cache_hit(c, f.path@, f.mtime) {
        Some(_) => c,
        None => match content {
            Some(s) => c.insert(f.path@, (f.mtime, page_tags(s@))),
            None => c,
        },
    }
}

/// The cache after the files `files` are indexed in order.
pub open spec fn build_cache(
    c: Map<Seq<char>, (u64, Seq<Seq<char>>)>,
    files: Seq<FileStamp>,
    contents: Seq<Option<String>>,
) -> Map<Seq<char>, (u64, Seq<Seq<char>>)>
    decreases files.len(),
{
    if files.len() == 0 || contents.len() == 0 {
        c
    } else {
        cache_after(
            build_cache(c, files.drop_last(), contents.drop_last()),
            files.last(),
            contents.last(),
        )
    }
}

/// The tag index of the files `files`, indexed in order from the cache `c`.
pub open spec fn build_tags(
    c: Map<Seq<char>, (u64, Seq<Seq<char>>)>,
    files: Seq<FileStamp>,
    contents: Seq<Option<String>>,
) -> Map<Seq<char>, Set<Seq<char>>>
    decreases files.len(),
{
    if files.len() == 0 || contents.len() == 0 {
        Map::empty()
    } else {
        with_tags(
            build_tags(c, files.drop_last(), contents.drop_last()),
            files.last().page@,
            file_tags(
                build_cache(c, files.drop_last(), contents.drop_last()),
                files.last(),
                contents.last(),
            ),
        )
    }
}

impl TagCache {
    /// Which files must be read: those whose tags the cache does not hold
    /// for their current modification time.
    pub fn stale(&self, files: &Vec<FileStamp>) -> (r: Vec<bool>)
        requires
            self.wf(),
        ensures
            r@.len() == files@.len(),
            forall|i: int|
                0 <= i < r@.len() ==> #[trigger] r@[i] == (cache_hit(
                    self.view(),
                    files@[i].path@,
                    files@[i].mtime,
                ) is None),
    {
        let mut out: Vec<bool> = Vec::new();
        let mut i: usize = 0;
        while i < files.len()
            invariant
                self.wf(),
                i <= files@.len(),
                out@.len() == i,
                forall|j: int|
                    0 <= j < i ==> #[trigger] out@[j] == (cache_hit(
                        self.view(),
                        files@[j].path@,
                        files@[j].mtime,
                    ) is None),
            decreases files@.len() - i,
        {
            out.push(self.lookup(&files[i].path, files[i].mtime).is_none());
            i = i + 1;
        }
        out
    }

    /// The tag index of `files`: each file's tags come from the cache while
    /// they are current, else from `contents[i]`, its text read just now,
    /// which the cache then records.
    pub fn build_index(&mut self, files: &Vec<FileStamp>, contents: &Vec<Option<String>>) -> (r: Tags)
        requires
            old(self).wf(),
            files@.len() == contents@.len(),
        ensures
            final(self).wf(),
            r.wf(),
            final(self).view() == build_cache(old(self).view(), files@, contents@),
            r.view() == build_tags(old(self).view(), files@, contents@),
    {
        let ghost c0 = self.view();
        let mut index = Tags::new();
        let mut i: usize = 0;
        while i < files.len()
            invariant
                self.wf(),
                index.wf(),
                files@.len() == contents@.len(),
                i <= files@.len(),
                self.view() == build_cache(c0, files@.take(i as int), contents@.take(i as int)),
                index.view() == build_tags(c0, files@.take(i as int), contents@.take(i as int)),
            decreases files@.len() - i,
        {
            let ghost fs = files@.take(i + 1);
            let ghost cs = contents@.take(i + 1);
            assert(fs.drop_last() =~= files@.take(i as int));
            assert(cs.drop_last() =~= contents@.take(i as int));
            let f = &files[i];
            let tags = match self.lookup(&f.path, f.mtime) {
                Some(t) => t,
                None => match &contents[i] {
                    Some(text) => self.record(f.path.clone(), f.mtime, text.as_str()),
                    None => Vec::new(),
                },
            };
            proof {
                if views(tags@).len() == 0 {
                    assert(views(tags@) =~= Seq::<Seq<char>>::empty());
                }
            }
            index.add_page_tags(f.page.as_str(), &tags);
            i = i + 1;
        }
        assert(files@.take(files@.len() as int) =~= files@);
        assert(contents@.take(contents@.len() as int) =~= contents@);
        index
    }
}

/// Indexing leaves the cache as it was at every path it was not given.
proof fn lemma_build_cache_elsewhere(
    c: Map<Seq<char>, (u64, Seq<Seq<char>>)>,
    files: Seq<FileStamp>,
    contents: Seq<Option<String>>,
    p: Seq<char>,
)
    requires
        forall|i: int| 0 <= i < files.len() ==> (#[trigger] files[i]).path@ != p,
    ensures
        build_cache(c, files, contents).contains_key(p) == c.contains_key(p),
        c.contains_key(p) ==> build_cache(c, files, contents)[p] == c[p],
    decreases files.len(),
{
    if files.len() > 0 && contents.len() > 0 {
        assert forall|i: int| 0 <= i < files.drop_last().len() implies (
        #[trigger] files.drop_last()[i]).path@ != p by {
            assert(files.drop_last()[i] == files[i]);
        }
        lemma_build_cache_elsewhere(c, files.drop_last(), contents.drop_last(), p);
        assert(files.last() == files[files.len() - 1]);
    }
}

/// Once every file that was stale has been read, indexing the same files
/// again finds all of their tags in the cache: nothing is read twice.
pub proof fn lemma_second_build_reads_nothing(
    c: Map<Seq<char>, (u64, Seq<Seq<char>>)>,
    files: Seq<FileStamp>,
    contents: Seq<Option<String>>,
)
    requires
        files.len() == contents.len(),
        forall|i: int, j: int|
            0 <= i < files.len() && 0 <= j < files.len() && i != j ==> (#[trigger] files[i]).path@
                != (#[trigger] files[j]).path@,
        forall|i: int|
            0 <= i < files.len() && #[trigger] cache_hit(c, files[i].path@, files[i].mtime) is None
                ==> contents[i] is Some,
    ensures
        forall|i: int|
            0 <= i < files.len() ==> #[trigger] cache_hit(
                build_cache(c, files, contents),
                files[i].path@,
                files[i].mtime,
            ) is Some,
    decreases files.len(),
{
    if files.len() > 0 {
        let n = files.len() - 1;
        let fs = files.drop_last();
        let cs = contents.drop_last();
        assert forall|i: int, j: int|
            0 <= i < fs.len() && 0 <= j < fs.len() && i != j implies (#[trigger] fs[i]).path@
                != (#[trigger] fs[j]).path@ by {
            assert(fs[i] == files[i] && fs[j] == files[j]);
        }
        assert forall|i: int|
            0 <= i < fs.len() && #[trigger] cache_hit(c, fs[i].path@, fs[i].mtime) is None
            implies cs[i] is Some by {
            assert(fs[i] == files[i] && cs[i] == contents[i]);
        }
        lemma_second_build_reads_nothing(c, fs, cs);
        let b = build_cache(c, fs, cs);
        let last = files[n];
        assert(files.last() == last);
        assert(contents.last() == contents[n]);
        assert forall|i: int| 0 <= i < fs.len() implies (#[trigger] fs[i]).path@ != last.path@ by {
            assert(fs[i] == files[i]);
        }
        lemma_build_cache_elsewhere(c, fs, cs, last.path@);
        assert forall|i: int| 0 <= i < files.len() implies #[trigger] cache_hit(
            build_cache(c, files, contents),
            files[i].path@,
            files[i].mtime,
        ) is Some by {
            if i < n {
                assert(fs[i] == files[i]);
                assert(cache_hit(b, fs[i].path@, fs[i].mtime) is Some);
            } else {
                if cache_hit(b, last.path@, last.mtime) is None {
                    assert(cache_hit(c, last.path@, last.mtime) is None);
                    assert(contents[n] is Some);
                }
            }
        }
    }
}

} // verus!
