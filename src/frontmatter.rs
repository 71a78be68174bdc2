//! The frontmatter block of a page: reading its tag list and rewriting it.

use vstd::prelude::*;
use crate::error::WikiError;
use crate::page::{item_prefix, render_tag_block, tag_block, views};
use crate::text::{
    chars_of, line_at, line_end, line_text_end, next_line, string_of_range, trim,
    trim_bounds,
};

verus! {

broadcast use vstd::string::group_string_axioms;

pub open spec fn is_fence(l: Seq<char>) -> bool {
    l == seq!['-', '-', '-']
}

/// The tag that a line inside the frontmatter gives: the text after `"  - "`,
/// trimmed.
pub open spec fn tag_of_line(l: Seq<char>) -> Option<Seq<char>> {
    if l.len() >= 4 && l.subrange(0, 4) == item_prefix() {
        Some(trim(l.subrange(4, l.len() as int)))
    } else {
        None
    }
}

/// The tags found from the line that starts at `i` on: a `---` line opens the
/// frontmatter (`open`), the next one closes it and ends the scan, and each
/// tag line while it is open gives a tag.
pub open spec fn scan_tags(s: Seq<char>, i: int, open: bool) -> Seq<Seq<char>>
    decreases s.len() - i,
{
    if i < 0 || i >= s.len() {
        Seq::empty()
    } else if is_fence(line_at(s, i)) {
        if open {
            Seq::empty()
        } else {
            scan_tags(s, next_line(s, i), true)
        }
    } else if open && tag_of_line(line_at(s, i)) is Some {
        seq![tag_of_line(line_at(s, i))->0] + scan_tags(s, next_line(s, i), open)
    } else {
        scan_tags(s, next_line(s, i), open)
    }
}

/// The tags of a page's text, in the order they are listed.
pub open spec fn page_tags(s: Seq<char>) -> Seq<Seq<char>> {
    scan_tags(s, 0, false)
}

/// The start of the first `---` line at or after the line that starts at `i`.
pub open spec fn fence_from(s: Seq<char>, i: int) -> Option<int>
    decreases s.len() - i,
{
    if i < 0 || i >= s.len() {
        None
    } else if is_fence(line_at(s, i)) {
        Some(i)
    } else {
        fence_from(s, next_line(s, i))
    }
}

/// `(existing ++ add)` with repeats dropped (the first stays) and every tag of
/// `remove` left out.
pub open spec fn merge_tags(all: Seq<Seq<char>>, remove: Seq<Seq<char>>) -> Seq<Seq<char>>
    decreases all.len(),
{
    if all.len() == 0 {
        Seq::empty()
    } else {
        let kept = merge_tags(all.drop_last(), remove);
        if remove.contains(all.last()) || kept.contains(all.last()) {
            kept
        } else {
            kept.push(all.last())
        }
    }
}

/// What `modify_tags` makes of the text `s`: the frontmatter block replaced by
/// one listing `(tags ∪ add) \ remove`, what stands before and after it kept.
pub open spec fn modified_text(s: Seq<char>, add: Seq<Seq<char>>, remove: Seq<Seq<char>>) -> Result<
    Seq<char>,
    WikiError,
> {
    match fence_from(s, 0) {
        None => Err(WikiError::InvalidFrontmatter),
        Some(open) => match fence_from(s, next_line(s, open)) {
            None => Err(WikiError::InvalidFrontmatter),
            Some(close) => {
                Ok(
                    s.subrange(0, open) + tag_block(merge_tags(page_tags(s) + add, remove))
                        + s.subrange(next_line(s, close), s.len() as int),
                )
            },
        },
    }
}

/// The tags listed in the frontmatter of `content`: each `"  - tag"` line
/// between the first two `---` lines, with the prefix taken off and trimmed.
pub fn extract_tags(content: &str) -> (r: Vec<String>)
    ensures
        views(r@) == page_tags(content@),
{
    let v = chars_of(content);
    let ghost s = content@;
    let mut out: Vec<String> = Vec::new();
    let mut i: usize = 0;
    let mut open = false;
    while i < v.len()
        invariant
            v@ == s,
            i <= v@.len(),
            views(out@) + scan_tags(s, i as int, open) == page_tags(s),
        ensures
            views(out@) == page_tags(s),
        decreases v@.len() - i,
    {
        let e = line_end(v.as_slice(), i);
        let t = line_text_end(v.as_slice(), i, e);
        let fence = t - i == 3 && v[i] == '-' && v[i + 1] == '-' && v[i + 2] == '-';
        proof {
            let l = line_at(s, i as int);
            assert(l.len() == t - i);
            if t - i == 3 {
                assert(l[0] == v@[i as int] && l[1] == v@[i + 1] && l[2] == v@[i + 2]);
                if fence {
                    assert(l =~= seq!['-', '-', '-']);
                }
            }
        }
        if fence {
            if open {
                assert(scan_tags(s, i as int, open) == Seq::<Seq<char>>::empty());
                assert(views(out@) =~= page_tags(s));
                break;
            }
            open = true;
        } else if open && t - i >= 4 && v[i] == ' ' && v[i + 1] == ' ' && v[i + 2] == '-' && v[i
            + 3] == ' ' {
            let (a, b) = trim_bounds(v.as_slice(), i + 4, t);
            let tag = string_of_range(v.as_slice(), a, b);
            proof {
                let l = line_at(s, i as int);
                assert(l.subrange(0, 4) =~= item_prefix());
                assert(l.subrange(4, l.len() as int) =~= v@.subrange(i + 4, t as int));
            }
            let ghost pre = out@;
            out.push(tag);
            assert(views(out@) =~= views(pre) + seq![tag@]);
        } else {
            proof {
                let l = line_at(s, i as int);
                if open && t - i >= 4 {
                    assert(l[0] == v@[i as int] && l[1] == v@[i + 1] && l[2] == v@[i + 2] && l[3]
                        == v@[i + 3]);
                    if l.subrange(0, 4) == item_prefix() {
                        assert(l.subrange(0, 4)[0] == ' ');
                        assert(l.subrange(0, 4)[1] == ' ');
                        assert(l.subrange(0, 4)[2] == '-');
                        assert(l.subrange(0, 4)[3] == ' ');
                    }
                }
            }
        }
        if e < v.len() {
            i = e + 1;
        } else {
            i = v.len();
        }
    }
    out
}

/// The start of the first `---` line at or after the line that starts at `i`.
fn find_fence(v: &[char], from: usize) -> (r: Option<usize>)
    requires
        from <= v@.len(),
    ensures
        match r {
            Some(k) => fence_from(v@, from as int) == Some(k as int) && k < v@.len(),
            None => fence_from(v@, from as int) is None,
        },
{
    let mut i: usize = from;
    while i < v.len()
        invariant
            from <= i <= v@.len(),
            fence_from(v@, from as int) == fence_from(v@, i as int),
        decreases v@.len() - i,
    {
        let e = line_end(v, i);
        let t = line_text_end(v, i, e);
        let fence = t - i == 3 && v[i] == '-' && v[i + 1] == '-' && v[i + 2] == '-';
        proof {
            let l = line_at(v@, i as int);
            assert(l.len() == t - i);
            if t - i == 3 {
                assert(l[0] == v@[i as int] && l[1] == v@[i + 1] && l[2] == v@[i + 2]);
                if fence {
                    assert(l =~= seq!['-', '-', '-']);
                }
            }
        }
        if fence {
            return Some(i);
        }
        if e < v.len() {
            i = e + 1;
        } else {
            i = v.len();
        }
    }
    None
}

/// Whether `v` holds a string equal to `s`.
pub fn contains_string(v: &Vec<String>, s: &String) -> (r: bool)
    ensures
        r == views(v@).contains(s@),
{
    let mut i: usize = 0;
    while i < v.len()
        invariant
            i <= v@.len(),
            forall|j: int| 0 <= j < i ==> v@[j]@ != s@,
        decreases v@.len() - i,
    {
        if v[i] == *s {
            assert(views(v@)[i as int] == s@);
            return true;
        }
        i = i + 1;
    }
    proof {
        if views(v@).contains(s@) {
            let j = choose|j: int| 0 <= j < views(v@).len() && views(v@)[j] == s@;
            assert(v@[j]@ == s@);
        }
    }
    false
}

/// `all` with repeats dropped (the first stays) and every tag of `remove` left out.
pub fn merge_tag_lists(all: &Vec<String>, remove: &Vec<String>) -> (r: Vec<String>)
    ensures
        views(r@) == merge_tags(views(all@), views(remove@)),
{
    let mut kept: Vec<String> = Vec::new();
    let mut i: usize = 0;
    while i < all.len()
        invariant
            i <= all@.len(),
            views(kept@) == merge_tags(views(all@).subrange(0, i as int), views(remove@)),
        decreases all@.len() - i,
    {
        let ghost pre = views(all@).subrange(0, i as int);
        let ghost next = views(all@).subrange(0, i + 1);
        assert(next.drop_last() =~= pre);
        assert(next.last() == all@[i as int]@);
        if !contains_string(remove, &all[i]) && !contains_string(&kept, &all[i]) {
            let ghost k = kept@;
            kept.push(all[i].clone());
            assert(views(kept@) =~= views(k).push(all@[i as int]@));
        }
        i = i + 1;
    }
    assert(views(all@).subrange(0, all@.len() as int) =~= views(all@));
    kept
}

/// Rewrites the frontmatter of `content` so that it lists
/// `(tags ∪ add) \ remove`, keeping the text before and after the block.
/// Fails with `InvalidFrontmatter` when either `---` line is missing.
pub fn modify_tags(content: &str, add: &Vec<String>, remove: &Vec<String>) -> (r: Result<
    String,
    WikiError,
>)
    ensures
        match r {
            Ok(t) => modified_text(content@, views(add@), views(remove@)) == Ok::<
                Seq<char>,
                WikiError,
            >(t@),
            Err(e) => modified_text(content@, views(add@), views(remove@)) == Err::<
                Seq<char>,
                WikiError,
            >(e),
        },
{
    let v = chars_of(content);
    let open = match find_fence(v.as_slice(), 0) {
        Some(k) => k,
        None => {
            return Err(WikiError::InvalidFrontmatter);
        },
    };
    let e = line_end(v.as_slice(), open);
    let after_open = if e < v.len() {
        e + 1
    } else {
        v.len()
    };
    let close = match find_fence(v.as_slice(), after_open) {
        Some(k) => k,
        None => {
            return Err(WikiError::InvalidFrontmatter);
        },
    };
    let ce = line_end(v.as_slice(), close);
    let rest = if ce < v.len() {
        ce + 1
    } else {
        v.len()
    };
    let mut all = extract_tags(content);
    let ghost existing = views(all@);
    let mut j: usize = 0;
    while j < add.len()
        invariant
            j <= add@.len(),
            views(all@) == existing + views(add@).subrange(0, j as int),
        decreases add@.len() - j,
    {
        let ghost pre = all@;
        all.push(add[j].clone());
        assert(views(all@) =~= views(pre).push(add@[j as int]@));
        assert(views(add@).subrange(0, j + 1) =~= views(add@).subrange(0, j as int).push(
            add@[j as int]@,
        ));
        j = j + 1;
    }
    assert(views(add@).subrange(0, add@.len() as int) =~= views(add@));
    let merged = merge_tag_lists(&all, remove);
    let mut out = string_of_range(v.as_slice(), 0, open);
    out.append(render_tag_block(&merged).as_str());
    out.append(string_of_range(v.as_slice(), rest, v.len()).as_str());
    Ok(out)
}

} // verus!
