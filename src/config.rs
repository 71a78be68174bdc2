//! The settings a wiki runs with: the other wikis it links to, where
//! templates and the search index live, and the snippet length.

use vstd::prelude::*;
use crate::keyed::KeyedList;

verus! {

broadcast use vstd::string::group_string_axioms;

pub struct Config {
    pub wikis: KeyedList<String>,
    pub templates_dir: String,
    pub index_dir: String,
    pub snippet_length: usize,
    pub editor: Option<String>,
}

impl Config {
    pub closed spec fn wf(&self) -> bool {
        self.wikis.wf()
    }

    /// The root directory of each configured wiki, by name.
    pub closed spec fn wiki_paths(&self) -> Map<Seq<char>, Seq<char>> {
        self.wikis.view().map_values(|p: String| p@)
    }

    /// Settings with no wiki configured.
    pub fn new(templates_dir: String, index_dir: String, snippet_length: usize) -> (r: Config)
        ensures
            r.wf(),
            r.wiki_paths() == Map::<Seq<char>, Seq<char>>::empty(),
            r.templates_dir == templates_dir,
            r.index_dir == index_dir,
            r.snippet_length == snippet_length,
            r.editor is None,
    {
        let r = Config { wikis: KeyedList::new(), templates_dir, index_dir, snippet_length, editor: None };
        assert(r.wiki_paths() =~= Map::<Seq<char>, Seq<char>>::empty());
        r
    }

    /// Names the wiki rooted at `path` `name`, replacing an earlier entry.
    pub fn add_wiki(&mut self, name: String, path: String)
        requires
            old(self).wf(),
        ensures
            final(self).wf(),
            final(self).wiki_paths() == old(self).wiki_paths().insert(name@, path@),
            final(self).templates_dir == old(self).templates_dir,
            final(self).index_dir == old(self).index_dir,
            final(self).snippet_length == old(self).snippet_length,
    {
        let ghost pre = self.wiki_paths();
        let ghost p = path@;
        self.wikis.insert(name, path);
        assert(self.wiki_paths() =~= pre.insert(name@, p));
    }

    /// The root directory of the wiki named `name`, if it is configured.
    pub fn wiki_path(&self, name: &str) -> (r: Option<String>)
        requires
            self.wf(),
        ensures
            match r {
                Some(p) => self.wiki_paths().contains_key(name@) && p@ == self.wiki_paths()[name@],
                None => !self.wiki_paths().contains_key(name@),
            },
    {
        let key = String::from_str(name);
        match self.wikis.get(&key) {
            Some(p) => Some(p.clone()),
            None => None,
        }
    }
}

} // verus!
