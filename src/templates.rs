//! Page templates: new pages made from a template file.

use vstd::prelude::*;
use crate::config::Config;
use crate::page::{md_suffix, strip_md, views};
use crate::text::{replace_all, replaced};

verus! {

broadcast use vstd::string::group_string_axioms;

pub open spec fn name_placeholder() -> Seq<char> {
    seq!['{', '{', 'p', 'a', 'g', 'e', '_', 'n', 'a', 'm', 'e', '}', '}']
}

pub open spec fn is_md_file(f: Seq<char>) -> bool {
    f.len() >= 3 && f.subrange(f.len() - 3, f.len() as int) == md_suffix()
}

/// The templates named by the files `files`: each `.md` file, without the
/// suffix, in order.
pub open spec fn template_names_of(files: Seq<Seq<char>>) -> Seq<Seq<char>>
    decreases files.len(),
{
    if files.len() == 0 {
        Seq::empty()
    } else if is_md_file(files.last()) {
        template_names_of(files.drop_last()).push(strip_md(files.last()))
    } else {
        template_names_of(files.drop_last())
    }
}

pub struct Templates {
    pub templates_dir: String,
}

impl Templates {
    pub fn new(config: &Config) -> (r: Templates)
        ensures
            r.templates_dir@ == config.templates_dir@,
    {
        Templates { templates_dir: config.templates_dir.clone() }
    }

    /// The text of a page made from `template`: each `{{page_name}}` replaced
    /// by the page's name.
    pub fn fill(template: &str, page_name: &str) -> (r: String)
        ensures
            r@ == replaced(template@, name_placeholder(), page_name@),
    {
        let v: Vec<char> = vec!['{', '{', 'p', 'a', 'g', 'e', '_', 'n', 'a', 'm', 'e', '}', '}'];
        let pat = crate::text::string_of(v.as_slice());
        assert(pat@ =~= name_placeholder());
        replace_all(template, pat.as_str(), page_name)
    }

    /// The names of the templates among the files of the templates directory.
    pub fn template_names(files: &Vec<String>) -> (r: Vec<String>)
        ensures
            views(r@) == template_names_of(views(files@)),
    {
        let mut out: Vec<String> = Vec::new();
        let mut i: usize = 0;
        while i < files.len()
            invariant
                i <= files@.len(),
                views(out@) == template_names_of(views(files@).subrange(0, i as int)),
            decreases files@.len() - i,
        {
            let ghost t = views(files@).subrange(0, i + 1);
            assert(t.drop_last() =~= views(files@).subrange(0, i as int));
            let v = crate::text::chars_of(files[i].as_str());
            let n = v.len();
            if n >= 3 && v[n - 3] == '.' && v[n - 2] == 'm' && v[n - 1] == 'd' {
                assert(v@.subrange(n - 3, n as int) =~= md_suffix());
                let ghost pre = out@;
                out.push(crate::page::page_name_of(files[i].as_str()));
                assert(views(out@) =~= views(pre).push(strip_md(files@[i as int]@)));
            } else {
                proof {
                    if n >= 3 {
                        let e = v@.subrange(n - 3, n as int);
                        assert(e[0] == v@[n - 3] && e[1] == v@[n - 2] && e[2] == v@[n - 1]);
                        assert(e != md_suffix());
                    }
                }
            }
            i = i + 1;
        }
        assert(views(files@).subrange(0, files@.len() as int) =~= views(files@));
        out
    }
}

} // verus!
