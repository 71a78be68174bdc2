//! The page store: pages keyed by a sanitized name, one file each.

use vstd::prelude::*;
use crate::error::WikiError;
use crate::keyed::KeyedList;
use crate::text::{push_char, string_of, string_of_range};

verus! {

broadcast use vstd::string::group_string_axioms;

/// Letters, digits, `_` and `-` stand for themselves in a file name.
pub open spec fn is_name_char(c: char) -> bool {
    ('a' <= c && c <= 'z') || ('A' <= c && c <= 'Z') || ('0' <= c && c <= '9') || c == '_'
        || c == '-'
}

pub open spec fn sanitize_char(c: char) -> char {
    if is_name_char(c) {
        c
    } else {
        '_'
    }
}

/// Every character that is not a letter, a digit, `_` or `-` becomes `_`.
pub open spec fn sanitized(name: Seq<char>) -> Seq<char> {
    name.map_values(|c: char| sanitize_char(c))
}

pub open spec fn md_suffix() -> Seq<char> {
    seq!['.', 'm', 'd']
}

/// The file, relative to the wiki root, that holds the page `name`.
pub open spec fn page_file(name: Seq<char>) -> Seq<char> {
    sanitized(name) + md_suffix()
}

/// The views of a list of strings.
pub open spec fn views(v: Seq<String>) -> Seq<Seq<char>> {
    v.map_values(|s: String| s@)
}

pub open spec fn fence_line() -> Seq<char> {
    seq!['-', '-', '-', '\n']
}

pub open spec fn tags_line() -> Seq<char> {
    seq!['t', 'a', 'g', 's', ':', '\n']
}

pub open spec fn item_prefix() -> Seq<char> {
    seq![' ', ' ', '-', ' ']
}

/// One `  - tag` line for each tag, in order.
pub open spec fn tag_lines(tags: Seq<Seq<char>>) -> Seq<char>
    decreases tags.len(),
{
    if tags.len() == 0 {
        Seq::empty()
    } else {
        tag_lines(tags.drop_last()) + item_prefix() + tags.last() + seq!['\n']
    }
}

/// The frontmatter block that lists `tags`.
pub open spec fn tag_block(tags: Seq<Seq<char>>) -> Seq<char> {
    fence_line() + tags_line() + tag_lines(tags) + fence_line()
}

/// What `create` writes: the tag block when tags are given, then the content.
pub open spec fn page_text(content: Seq<char>, tags: Option<Seq<Seq<char>>>) -> Seq<char> {
    match tags {
        Some(t) => tag_block(t) + content,
        None => content,
    }
}

/// Sanitizing twice changes nothing more, and a name and its sanitized form
/// are kept in the same file: `path_for` is idempotent on names.
pub proof fn lemma_path_for_idempotent(name: Seq<char>)
    ensures
        sanitized(sanitized(name)) == sanitized(name),
        page_file(sanitized(name)) == page_file(name),
{
    assert(sanitized(sanitized(name)) =~= sanitized(name));
}

/// The name with each character outside `[A-Za-z0-9_-]` replaced by `_`.
pub fn sanitize(name: &str) -> (r: String)
    ensures
        r@ == sanitized(name@),
{
    let chars = crate::text::chars_of(name);
    let mut out = String::new();
    let mut i: usize = 0;
    while i < chars.len()
        invariant
            chars@ == name@,
            i <= chars@.len(),
            out@ == sanitized(name@).subrange(0, i as int),
        decreases chars@.len() - i,
    {
        let c = chars[i];
        let keep = ('a' <= c && c <= 'z') || ('A' <= c && c <= 'Z') || ('0' <= c && c <= '9')
            || c == '_' || c == '-';
        if keep {
            push_char(&mut out, c);
        } else {
            push_char(&mut out, '_');
        }
        i = i + 1;
        assert(out@ =~= sanitized(name@).subrange(0, i as int));
    }
    assert(out@ =~= sanitized(name@));
    out
}

/// The file name, relative to the wiki root, of the page `name`.
pub fn path_for(name: &str) -> (r: String)
    ensures
        r@ == page_file(name@),
{
    let mut r = sanitize(name);
    push_char(&mut r, '.');
    push_char(&mut r, 'm');
    push_char(&mut r, 'd');
    assert(r@ =~= page_file(name@));
    r
}

/// The frontmatter block listing `tags`.
pub fn render_tag_block(tags: &Vec<String>) -> (r: String)
    ensures
        r@ == tag_block(views(tags@)),
{
    let mut out = String::new();
    push_fence(&mut out);
    let v: Vec<char> = vec!['t', 'a', 'g', 's', ':', '\n'];
    out.append(string_of(v.as_slice()).as_str());
    let ghost head = out@;
    assert(head =~= fence_line() + tags_line());
    let mut i: usize = 0;
    while i < tags.len()
        invariant
            i <= tags@.len(),
            out@ == head + tag_lines(views(tags@.subrange(0, i as int))),
        decreases tags@.len() - i,
    {
        push_char(&mut out, ' ');
        push_char(&mut out, ' ');
        push_char(&mut out, '-');
        push_char(&mut out, ' ');
        out.append(tags[i].as_str());
        push_char(&mut out, '\n');
        proof {
            let pre = views(tags@.subrange(0, i as int));
            let post = views(tags@.subrange(0, i + 1));
            assert(post.drop_last() =~= pre);
            assert(post.last() == tags@[i as int]@);
        }
        i = i + 1;
        assert(out@ =~= head + tag_lines(views(tags@.subrange(0, i as int))));
    }
    assert(tags@.subrange(0, tags@.len() as int) =~= tags@);
    push_fence(&mut out);
    assert(out@ =~= tag_block(views(tags@)));
    out
}

fn push_fence(s: &mut String)
    ensures
        final(s)@ == old(s)@ + fence_line(),
{
    push_char(s, '-');
    push_char(s, '-');
    push_char(s, '-');
    push_char(s, '\n');
    assert(s@ =~= old(s)@ + fence_line());
}

} // verus!

verus! {

/// The pages of one wiki: each file name (relative to the root) with the text
/// that the file holds.
pub struct PageStore {
    files: KeyedList<String>,
}

/// The page names of a set of files: each file name with `.md` taken off.
pub open spec fn strip_md(file: Seq<char>) -> Seq<char> {
    if file.len() >= 3 && file.subrange(file.len() - 3, file.len() as int) == md_suffix() {
        file.subrange(0, file.len() - 3)
    } else {
        file
    }
}

/// What reading the page `name` gives on the files `m`.
pub open spec fn read_outcome(m: Map<Seq<char>, String>, name: Seq<char>) -> Result<
    Seq<char>,
    WikiError,
> {
    if m.contains_key(page_file(name)) {
        Ok(m[page_file(name)]@)
    } else {
        Err(WikiError::NotFound)
    }
}

impl PageStore {
    pub closed spec fn view(&self) -> Map<Seq<char>, String> {
        self.files.view()
    }

    /// The texts of the files, as character sequences.
    pub open spec fn texts(&self) -> Map<Seq<char>, Seq<char>> {
        self.view().map_values(|t: String| t@)
    }

    pub closed spec fn wf(&self) -> bool {
        self.files.wf()
    }

    /// The file names, in the order they were recorded.
    pub closed spec fn file_names(&self) -> Seq<Seq<char>> {
        views(self.files.keys@)
    }

    /// A wiki with no pages.
    pub fn new() -> (r: Self)
        ensures
            r.wf(),
            r.view() == Map::<Seq<char>, String>::empty(),
    {
        PageStore { files: KeyedList::new() }
    }

    /// Records that the file `file` (relative to the root) holds `text`, as it
    /// was found on disk.
    pub fn load_file(&mut self, file: String, text: String)
        requires
            old(self).wf(),
        ensures
            final(self).wf(),
            final(self).view() == old(self).view().insert(file@, text),
    {
        self.files.insert(file, text);
    }

    /// The text held by the file `file`, if there is one.
    pub fn file_text(&self, file: &String) -> (r: Option<String>)
        requires
            self.wf(),
        ensures
            match r {
                Some(t) => self.view().contains_key(file@) && t@ == self.view()[file@]@,
                None => !self.view().contains_key(file@),
            },
    {
        match self.files.get(file) {
            Some(t) => Some(t.clone()),
            None => None,
        }
    }

    /// Whether the page `name` exists.
    pub fn has_page(&self, name: &str) -> (r: bool)
        requires
            self.wf(),
        ensures
            r == self.view().contains_key(page_file(name@)),
    {
        let file = path_for(name);
        self.files.find(&file).is_some()
    }

    /// Creates the page `name`: its file gets the tag block when `tags` is
    /// given, then `content`. Fails with `AlreadyExists`, changing nothing,
    /// when the page's file is already there.
    pub fn create(&mut self, name: &str, content: &str, tags: Option<Vec<String>>) -> (r: Result<
        (),
        WikiError,
    >)
        requires
            old(self).wf(),
        ensures
            final(self).wf(),
            old(self).view().contains_key(page_file(name@)) ==> r == Err::<(), WikiError>(
                WikiError::AlreadyExists,
            ) && final(self).view() == old(self).view(),
            !old(self).view().contains_key(page_file(name@)) ==> r is Ok && final(self).view().dom()
                == old(self).view().dom().insert(page_file(name@)) && final(self).texts() == old(
                self,
            ).texts().insert(
                page_file(name@),
                page_text(
                    content@,
                    match tags {
                        Some(t) => Some(views(t@)),
                        None => None,
                    },
                ),
            ),
    {
        let file = path_for(name);
        if self.files.find(&file).is_some() {
            return Err(WikiError::AlreadyExists);
        }
        let mut text = match &tags {
            Some(t) => render_tag_block(t),
            None => String::new(),
        };
        text.append(content);
        let ghost pre = self.view();
        self.files.insert(file, text);
        proof {
            assert(self.view().dom() =~= pre.dom().insert(page_file(name@)));
            assert(self.texts() =~= pre.map_values(|t: String| t@).insert(
                page_file(name@),
                text@,
            ));
        }
        Ok(())
    }

    /// The raw text of the page `name`; `NotFound` when it has no file.
    pub fn read(&self, name: &str) -> (r: Result<String, WikiError>)
        requires
            self.wf(),
        ensures
            match r {
                Ok(t) => read_outcome(self.view(), name@) == Ok::<Seq<char>, WikiError>(t@),
                Err(e) => read_outcome(self.view(), name@) == Err::<Seq<char>, WikiError>(e),
            },
    {
        let file = path_for(name);
        match self.files.get(&file) {
            Some(t) => Ok(t.clone()),
            None => Err(WikiError::NotFound),
        }
    }

    /// Replaces the text of the page `name` by `content`; `NotFound`, changing
    /// nothing, when it has no file.
    pub fn update(&mut self, name: &str, content: &str) -> (r: Result<(), WikiError>)
        requires
            old(self).wf(),
        ensures
            final(self).wf(),
            !old(self).view().contains_key(page_file(name@)) ==> r == Err::<(), WikiError>(
                WikiError::NotFound,
            ) && final(self).view() == old(self).view(),
            old(self).view().contains_key(page_file(name@)) ==> r is Ok && final(self).view().dom()
                == old(self).view().dom() && final(self).texts() == old(self).texts().insert(
                page_file(name@),
                content@,
            ),
    {
        let file = path_for(name);
        if self.files.find(&file).is_none() {
            return Err(WikiError::NotFound);
        }
        let text = String::from_str(content);
        let ghost pre = self.view();
        self.files.insert(file, text);
        proof {
            assert(self.view().dom() =~= pre.dom());
            assert(self.texts() =~= pre.map_values(|t: String| t@).insert(
                page_file(name@),
                content@,
            ));
        }
        Ok(())
    }

    /// Removes the page `name`: `true` when its file was there, `false` (and
    /// nothing changes) when it was not.
    pub fn delete(&mut self, name: &str) -> (r: bool)
        requires
            old(self).wf(),
        ensures
            final(self).wf(),
            r == old(self).view().contains_key(page_file(name@)),
            final(self).view() == old(self).view().remove(page_file(name@)),
    {
        let file = path_for(name);
        self.files.remove(&file).is_some()
    }

    /// The number of files.
    pub fn file_count(&self) -> (n: usize)
        requires
            self.wf(),
        ensures
            n == self.file_names().len(),
    {
        self.files.len()
    }

    /// The name and the text of the `i`-th file.
    pub fn file_at(&self, i: usize) -> (r: (&String, &String))
        requires
            self.wf(),
            i < self.file_names().len(),
        ensures
            r.0@ == self.file_names()[i as int],
            self.texts().contains_key(r.0@),
            r.1@ == self.texts()[r.0@],
    {
        proof {
            self.files.lemma_at(i as int);
        }
        (self.files.key_at(i), self.files.val_at(i))
    }

    /// The names of all pages, one per file, in the order the files were
    /// recorded.
    pub fn list_pages(&self) -> (r: Vec<String>)
        requires
            self.wf(),
        ensures
            r@.len() == self.file_names().len(),
            forall|i: int|
                0 <= i < r@.len() ==> #[trigger] r@[i]@ == strip_md(self.file_names()[i]),
            forall|f: Seq<char>| #[trigger]
                self.view().contains_key(f) <==> self.file_names().contains(f),
    {
        let mut out: Vec<String> = Vec::new();
        let mut i: usize = 0;
        while i < self.files.len()
            invariant
                self.wf(),
                i <= self.files.keys@.len(),
                out@.len() == i,
                forall|j: int| 0 <= j < i ==> #[trigger] out@[j]@ == strip_md(self.file_names()[j]),
            decreases self.files.keys@.len() - i,
        {
            out.push(page_name_of(self.files.key_at(i)));
            i = i + 1;
        }
        proof {
            assert forall|f: Seq<char>| #[trigger] self.view().contains_key(f)
                implies self.file_names().contains(f) by {
                let j = self.files.index_of(f);
                assert(self.file_names()[j] == f);
            }
            assert forall|f: Seq<char>| self.file_names().contains(f)
                implies #[trigger] self.view().contains_key(f) by {
                let i = choose|i: int| 0 <= i < self.file_names().len() && self.file_names()[i] == f;
                self.files.lemma_at(i);
            }
        }
        out
    }
}

/// The page name that a file name (relative to the root) stands for: the file
/// name without its `.md` suffix.
pub fn page_name_of(file: &str) -> (r: String)
    ensures
        r@ == strip_md(file@),
{
    let chars = crate::text::chars_of(file);
    let n = chars.len();
    if n >= 3 && chars[n - 3] == '.' && chars[n - 2] == 'm' && chars[n - 1] == 'd' {
        assert(chars@.subrange(n - 3, n as int) =~= md_suffix());
        let r = string_of_range(chars.as_slice(), 0, n - 3);
        r
    } else {
        proof {
            if n >= 3 {
                let t = chars@.subrange(n - 3, n as int);
                assert(t[0] == chars@[n - 3]);
                assert(t[1] == chars@[n - 2]);
                assert(t[2] == chars@[n - 1]);
                assert(t != md_suffix());
            }
        }
        String::from_str(file)
    }
}

/// Deleting a page that is absent changes nothing; after deleting a page,
/// reading it fails with `NotFound`.
pub proof fn lemma_read_after_delete(m: Map<Seq<char>, String>, name: Seq<char>)
    ensures
        !m.contains_key(page_file(name)) ==> m.remove(page_file(name)) == m,
        read_outcome(m.remove(page_file(name)), name) == Err::<Seq<char>, WikiError>(
            WikiError::NotFound,
        ),
{
    assert(!m.contains_key(page_file(name)) ==> m.remove(page_file(name)) =~= m);
}

} // verus!
