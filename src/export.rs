//! Pages exported as HTML and plain text, and pages imported from files and
//! URLs.

use vstd::prelude::*;
use crate::page::strip_md;
use crate::text::{chars_of, replace_all, replaced, string_of_range};

verus! {

broadcast use vstd::string::group_string_axioms;

/// The HTML that `pulldown_cmark` renders for the markdown `s`, with every
/// extension option on.
pub uninterp spec fn html_of(s: Seq<char>) -> Seq<char>;

/// Relies on `pulldown_cmark::Parser::new_ext` with `Options::all()` and
/// `pulldown_cmark::html::push_html`: the HTML rendering of a markdown text,
/// which depends on the text alone.
#[verifier::external_body]
fn markdown_to_html(s: &str) -> (r: String)
    ensures
        r@ == html_of(s@),
{
    let parser = pulldown_cmark::Parser::new_ext(s, pulldown_cmark::Options::all());
    let mut out = String::new();
    pulldown_cmark::html::push_html(&mut out, parser);
    out
}

pub struct Export {
    pub root_dir: String,
}

impl Export {
    pub fn new(root_dir: &str) -> (r: Export)
        ensures
            r.root_dir@ == root_dir@,
    {
        Export { root_dir: String::from_str(root_dir) }
    }

    /// The HTML export of a page with text `content`.
    pub fn page_html(content: &str) -> (r: String)
        ensures
            r@ == html_of(content@),
    {
        markdown_to_html(content)
    }
}

/// Where the last `/`-separated segment of `s` starts.
pub open spec fn segment_start(s: Seq<char>) -> nat
    decreases s.len(),
{
    if s.len() == 0 {
        0
    } else if s.last() == '/' {
        s.len()
    } else {
        segment_start(s.drop_last())
    }
}

pub open spec fn txt_suffix() -> Seq<char> {
    seq!['.', 't', 'x', 't']
}

/// The page a URL is imported into: its last segment, with every `.md` and
/// `.txt` taken out.
pub open spec fn url_page_name(url: Seq<char>) -> Seq<char> {
    replaced(
        replaced(
            url.subrange(segment_start(url) as int, url.len() as int),
            crate::page::md_suffix(),
            Seq::empty(),
        ),
        txt_suffix(),
        Seq::empty(),
    )
}

pub struct Import {
    pub root_dir: String,
}

impl Import {
    pub fn new(root_dir: &str) -> (r: Import)
        ensures
            r.root_dir@ == root_dir@,
    {
        Import { root_dir: String::from_str(root_dir) }
    }

    /// The page a file is imported into: its name without the `.md` suffix.
    pub fn page_name_for_file(file_name: &str) -> (r: String)
        ensures
            r@ == strip_md(file_name@),
    {
        crate::page::page_name_of(file_name)
    }

    /// The page a URL is imported into.
    pub fn page_name_for_url(url: &str) -> (r: String)
        ensures
            r@ == url_page_name(url@),
    {
        let v = chars_of(url);
        let mut k: usize = v.len();
        assert(url@.subrange(0, k as int) =~= url@);
        while k > 0 && v[k - 1] != '/'
            invariant
                v@ == url@,
                k <= v@.len(),
                segment_start(url@) == segment_start(url@.subrange(0, k as int)),
            decreases k,
        {
            assert(url@.subrange(0, k as int).drop_last() =~= url@.subrange(0, k - 1));
            k = k - 1;
        }
        let seg = string_of_range(v.as_slice(), k, v.len());
        let md: Vec<char> = vec!['.', 'm', 'd'];
        let txt: Vec<char> = vec!['.', 't', 'x', 't'];
        let md_s = crate::text::string_of(md.as_slice());
        let txt_s = crate::text::string_of(txt.as_slice());
        assert(md_s@ =~= crate::page::md_suffix());
        assert(txt_s@ =~= txt_suffix());
        let empty = String::new();
        let a = replace_all(seg.as_str(), md_s.as_str(), empty.as_str());
        replace_all(a.as_str(), txt_s.as_str(), empty.as_str())
    }
}

} // verus!
