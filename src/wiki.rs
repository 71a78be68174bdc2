//! One wiki bound to its root directory: the page store and the backlink
//! graph behind one object, with the tag index derived from the pages.

use vstd::prelude::*;
use crate::config::Config;
use crate::error::WikiError;
use crate::frontmatter::{extract_tags, modified_text, modify_tags, page_tags};
use crate::links::{recorded, Backlinks, LinkTarget, LinkSpec, WikiLink, links_of, ordered, sources_of};
use crate::page::{page_file, read_outcome, views, PageStore};
use crate::tags::{Tags, with_tags};
use crate::text::push_char;

verus! {

broadcast use vstd::string::group_string_axioms;

/// `root` and `file` joined by a `/`.
pub open spec fn joined_path(root: Seq<char>, file: Seq<char>) -> Seq<char> {
    root + seq!['/'] + file
}

pub fn join_path(root: &str, file: &str) -> (r: String)
    ensures
        r@ == joined_path(root@, file@),
{
    let mut r = String::from_str(root);
    push_char(&mut r, '/');
    r.append(file);
    r
}

/// Where a link of a page of the wiki rooted at `root` points: an intra-wiki
/// link to its page's file in this wiki, an inter-wiki link to `Page.md` in
/// the named wiki's root, or nowhere when that wiki is not configured.
pub open spec fn link_path(
    root: Seq<char>,
    wikis: Map<Seq<char>, Seq<char>>,
    l: LinkSpec,
) -> Option<Seq<char>> {
    match l.wiki {
        None => Some(joined_path(root, page_file(l.page))),
        Some(w) => if wikis.contains_key(w) {
            Some(joined_path(wikis[w], l.page + crate::page::md_suffix()))
        } else {
            None
        },
    }
}

/// The tag index of the files `files` (in order) with texts `texts`, added
/// to `m`: each page bears the tags of its frontmatter.
pub open spec fn index_files(
    m: Map<Seq<char>, Set<Seq<char>>>,
    files: Seq<Seq<char>>,
    texts: Map<Seq<char>, Seq<char>>,
) -> Map<Seq<char>, Set<Seq<char>>>
    decreases files.len(),
{
    if files.len() == 0 {
        m
    } else {
        with_tags(
            index_files(m, files.drop_last(), texts),
            crate::page::strip_md(files.last()),
            page_tags(texts[files.last()]),
        )
    }
}

pub struct Wiki {
    pub root_dir: String,
    pub templates_dir: String,
    pub pages: PageStore,
    pub backlinks: Backlinks,
}

impl Wiki {
    pub open spec fn wf(&self) -> bool {
        self.pages.wf() && self.backlinks.wf()
    }

    /// A wiki rooted at `root_dir` whose pages the caller loads into `pages`.
    pub fn new(root_dir: String, templates_dir: String) -> (r: Wiki)
        ensures
            r.wf(),
            r.root_dir == root_dir,
            r.templates_dir == templates_dir,
            r.pages.view() == Map::<Seq<char>, String>::empty(),
            r.backlinks.view() == Map::<Seq<char>, Seq<Seq<char>>>::empty(),
    {
        Wiki { root_dir, templates_dir, pages: PageStore::new(), backlinks: Backlinks::new() }
    }

    /// Reads the page `name` for display: its raw text and its links, after
    /// the backlinks it recorded earlier are replaced by those of this text.
    /// `NotFound`, changing nothing, when it has no file.
    pub fn read_page(&mut self, name: &str) -> (r: Result<(String, Vec<WikiLink>), WikiError>)
        requires
            old(self).wf(),
        ensures
            final(self).wf(),
            final(self).pages == old(self).pages,
            match r {
                Ok((text, links)) => read_outcome(old(self).pages.view(), name@) == Ok::<
                    Seq<char>,
                    WikiError,
                >(text@) && final(self).backlinks.view() == recorded(
                    old(self).backlinks.view(),
                    name@,
                    text@,
                ) && links@.map_values(|l: WikiLink| l@) == links_of(text@) && ordered(
                    links@.map_values(|l: WikiLink| l@),
                    text@.len() as int,
                ),
                Err(e) => read_outcome(old(self).pages.view(), name@) == Err::<Seq<char>, WikiError>(e)
                    && final(self).backlinks.view() == old(self).backlinks.view(),
            },
    {
        let text = match self.pages.read(name) {
            Ok(t) => t,
            Err(e) => {
                return Err(e);
            },
        };
        let links = self.backlinks.record_links(name, text.as_str());
        Ok((text, links))
    }

    /// The target of the link `l` of one of this wiki's pages.
    /// `foreign_exists` tells whether the file of an inter-wiki link exists.
    pub fn resolve(&self, config: &Config, l: &WikiLink, foreign_exists: bool) -> (r: LinkTarget)
        requires
            self.wf(),
            config.wf(),
        ensures
            match link_path(self.root_dir@, config.wiki_paths(), l@) {
                None => r == LinkTarget::UnknownWiki,
                Some(p) => match r {
                    LinkTarget::Page { path, exists } => path@ == p && exists == (match l@.wiki {
                        None => self.pages.view().contains_key(page_file(l@.page)),
                        Some(_) => foreign_exists,
                    }),
                    LinkTarget::UnknownWiki => false,
                },
            },
    {
        match &l.wiki {
            None => {
                let file = crate::page::path_for(l.page.as_str());
                LinkTarget::Page {
                    path: join_path(self.root_dir.as_str(), file.as_str()),
                    exists: self.pages.has_page(l.page.as_str()),
                }
            },
            Some(w) => match config.wiki_path(w.as_str()) {
                Some(root) => {
                    let mut file = l.page.clone();
                    push_char(&mut file, '.');
                    push_char(&mut file, 'm');
                    push_char(&mut file, 'd');
                    assert(file@ =~= l@.page + crate::page::md_suffix());
                    LinkTarget::Page {
                        path: join_path(root.as_str(), file.as_str()),
                        exists: foreign_exists,
                    }
                },
                None => LinkTarget::UnknownWiki,
            },
        }
    }

    /// The pages recorded so far as linking to `name`.
    pub fn get_backlinks(&self, name: &str) -> (r: Vec<String>)
        requires
            self.wf(),
        ensures
            views(r@) == sources_of(self.backlinks.view(), name@),
    {
        self.backlinks.get_backlinks(name)
    }

    /// Adds `add` to and takes `remove` from the tags of the page `name`.
    /// `NotFound` when the page is missing, `InvalidFrontmatter` when it has
    /// no `---` ... `---` block; either way nothing changes.
    pub fn modify_tags(&mut self, name: &str, add: &Vec<String>, remove: &Vec<String>) -> (r: Result<
        (),
        WikiError,
    >)
        requires
            old(self).wf(),
        ensures
            final(self).wf(),
            final(self).backlinks == old(self).backlinks,
            match read_outcome(old(self).pages.view(), name@) {
                Err(e) => r == Err::<(), WikiError>(e) && final(self).pages.view() == old(
                    self,
                ).pages.view(),
                Ok(text) => match modified_text(text, views(add@), views(remove@)) {
                    Err(e) => r == Err::<(), WikiError>(e) && final(self).pages.view() == old(
                        self,
                    ).pages.view(),
                    Ok(t) => r is Ok && final(self).pages.view().dom() == old(
                        self,
                    ).pages.view().dom() && final(self).pages.texts() == old(
                        self,
                    ).pages.texts().insert(page_file(name@), t),
                },
            },
    {
        let text = match self.pages.read(name) {
            Ok(t) => t,
            Err(e) => {
                return Err(e);
            },
        };
        let updated = match modify_tags(text.as_str(), add, remove) {
            Ok(t) => t,
            Err(e) => {
                return Err(e);
            },
        };
        let _ = self.pages.update(name, updated.as_str());
        Ok(())
    }

    /// The tag index of all pages: for each tag, the pages whose frontmatter
    /// lists it.
    pub fn tag_index(&self) -> (r: Tags)
        requires
            self.wf(),
        ensures
            r.wf(),
            r.view() == index_files(
                Map::<Seq<char>, Set<Seq<char>>>::empty(),
                self.pages.file_names(),
                self.pages.texts(),
            ),
    {
        let mut index = Tags::new();
        let ghost files = self.pages.file_names();
        let mut i: usize = 0;
        while i < self.pages.file_count()
            invariant
                self.wf(),
                files == self.pages.file_names(),
                i <= files.len(),
                index.wf(),
                index.view() == index_files(
                    Map::<Seq<char>, Set<Seq<char>>>::empty(),
                    files.subrange(0, i as int),
                    self.pages.texts(),
                ),
            decreases files.len() - i,
        {
            let (file, text) = self.pages.file_at(i);
            let page = crate::page::page_name_of(file.as_str());
            let tags = extract_tags(text.as_str());
            index.add_page_tags(page.as_str(), &tags);
            assert(files.subrange(0, i + 1).drop_last() =~= files.subrange(0, i as int));
            i = i + 1;
        }
        assert(files.subrange(0, files.len() as int) =~= files);
        index
    }
}

} // verus!
