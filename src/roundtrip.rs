//! After a tag change, the page's frontmatter lists exactly the new tags.

use vstd::prelude::*;
use crate::frontmatter::{fence_from, is_fence, merge_tags, modified_text, page_tags, scan_tags, tag_of_line};
use crate::page::{fence_line, item_prefix, tag_block, tag_lines, tags_line};
use crate::text::{is_ws, line_at, line_len, next_line, trim, trim_end, trim_start};

verus! {

/// A tag that is written back as it is read: no newline, no whitespace at
/// either end.
pub open spec fn clean_tag(t: Seq<char>) -> bool {
    trim(t) == t && !t.contains('\n')
}

proof fn lemma_line_len(t: Seq<char>, i: int, k: int)
    requires
        0 <= i,
        0 <= k,
        i + k <= t.len(),
        forall|m: int| i <= m < i + k ==> t[m] != '\n',
        i + k == t.len() || t[i + k] == '\n',
    ensures
        line_len(t, i) == k,
    decreases k,
{
    if k > 0 {
        lemma_line_len(t, i + 1, k - 1);
    }
}

proof fn lemma_line_len_props(s: Seq<char>, i: int)
    requires
        0 <= i <= s.len(),
    ensures
        i + line_len(s, i) <= s.len(),
        forall|m: int| i <= m < i + line_len(s, i) ==> s[m] != '\n',
        i + line_len(s, i) < s.len() ==> s[i + line_len(s, i)] == '\n',
    decreases s.len() - i,
{
    if i < s.len() && s[i] != '\n' {
        lemma_line_len_props(s, i + 1);
    }
}

proof fn lemma_fence_from_range(s: Seq<char>, i: int)
    requires
        fence_from(s, i) is Some,
    ensures
        0 <= i <= fence_from(s, i)->0 < s.len(),
    decreases s.len() - i,
{
    if i < 0 || i >= s.len() {
    } else if is_fence(line_at(s, i)) {
    } else {
        lemma_fence_from_range(s, next_line(s, i));
    }
}

/// The lines before the first `---` line contribute nothing, in any text
/// that starts like `s` up to that line.
proof fn lemma_scan_prefix(s: Seq<char>, t: Seq<char>, i: int, o: int)
    requires
        fence_from(s, i) == Some(o),
        o <= t.len(),
        forall|m: int| 0 <= m < o ==> s[m] == t[m],
    ensures
        scan_tags(t, i, false) == scan_tags(t, o, false),
    decreases o - i,
{
    lemma_fence_from_range(s, i);
    if i < o {
        let n = next_line(s, i);
        lemma_fence_from_range(s, n);
        lemma_line_len_props(s, i);
        let k = line_len(s, i) as int;
        assert forall|m: int| i <= m < i + k implies t[m] != '\n' by {
            assert(s[m] == t[m]);
        }
        assert(t[i + k] == s[i + k]);
        lemma_line_len(t, i, k);
        assert(t.subrange(i, i + k) =~= s.subrange(i, i + k));
        assert(line_at(t, i) == line_at(s, i));
        assert(next_line(t, i) == n);
        lemma_scan_prefix(s, t, n, o);
    }
}

proof fn lemma_trim_start_len(x: Seq<char>)
    ensures
        trim_start(x).len() <= x.len(),
        x.len() > 0 && is_ws(x[0]) ==> trim_start(x).len() < x.len(),
    decreases x.len(),
{
    if x.len() > 0 && is_ws(x[0]) {
        lemma_trim_start_len(x.drop_first());
    }
}

proof fn lemma_trim_end_len(x: Seq<char>)
    ensures
        trim_end(x).len() <= x.len(),
        x.len() > 0 && is_ws(x.last()) ==> trim_end(x).len() < x.len(),
    decreases x.len(),
{
    if x.len() > 0 && is_ws(x.last()) {
        lemma_trim_end_len(x.drop_last());
    }
}

/// A clean tag neither starts nor ends with whitespace.
proof fn lemma_clean_ends(t: Seq<char>)
    requires
        trim(t) == t,
        t.len() > 0,
    ensures
        !is_ws(t[0]),
        !is_ws(t.last()),
{
    lemma_trim_start_len(t);
    lemma_trim_end_len(trim_start(t));
    if is_ws(t.last()) {
        if trim_start(t).len() == t.len() {
            assert(trim_start(t) == t);
            lemma_trim_end_len(t);
        }
    }
}

/// `tag_lines` of a shorter prefix of the tags is a prefix of it.
proof fn lemma_tag_lines_prefix(tags: Seq<Seq<char>>, k: int, j: int)
    requires
        0 <= k <= j <= tags.len(),
    ensures
        tag_lines(tags.take(k)).len() <= tag_lines(tags.take(j)).len(),
        tag_lines(tags.take(j)).subrange(0, tag_lines(tags.take(k)).len() as int) == tag_lines(
            tags.take(k),
        ),
    decreases j - k,
{
    if k < j {
        lemma_tag_lines_prefix(tags, k, j - 1);
        assert(tags.take(j).drop_last() =~= tags.take(j - 1));
        let a = tag_lines(tags.take(k));
        let b = tag_lines(tags.take(j - 1));
        let c = tag_lines(tags.take(j));
        assert(c.subrange(0, b.len() as int) =~= b);
        assert(c.subrange(0, a.len() as int) =~= b.subrange(0, a.len() as int));
    } else {
        assert(tag_lines(tags.take(j)).subrange(0, tag_lines(tags.take(k)).len() as int) =~= tag_lines(tags.take(j)));
    }
}

/// Scanning the tag lines of `tags` (written at `q` of `t`, the closing
/// `---` line after them) from the `k`-th on gives the tags from the
/// `k`-th on.
proof fn lemma_scan_tag_lines(t: Seq<char>, q: int, tags: Seq<Seq<char>>, k: int)
    requires
        0 <= q,
        0 <= k <= tags.len(),
        q + tag_lines(tags).len() + 4 <= t.len(),
        t.subrange(q, q + tag_lines(tags).len() + 4) == tag_lines(tags) + fence_line(),
        forall|i: int| 0 <= i < tags.len() ==> clean_tag(#[trigger] tags[i]),
    ensures
        scan_tags(t, q + tag_lines(tags.take(k)).len(), true) == tags.subrange(k, tags.len() as int),
    decreases tags.len() - k,
{
    let n = tags.len() as int;
    let all = tag_lines(tags);
    assert(tags.take(n) =~= tags);
    lemma_tag_lines_prefix(tags, k, n);
    let p = q + tag_lines(tags.take(k)).len();
    let block = tag_lines(tags) + fence_line();
    assert forall|m: int| 0 <= m < block.len() implies t[q + m] == block[m] by {
        assert(t.subrange(q, q + block.len())[m] == t[q + m]);
    }
    if k == n {
        let l = all.len() as int;
        assert(t[p] == '-' && t[p + 1] == '-' && t[p + 2] == '-' && t[p + 3] == '\n') by {
            assert(block[l] == '-' && block[l + 1] == '-' && block[l + 2] == '-' && block[l + 3] == '\n');
        }
        lemma_line_len(t, p, 3);
        assert(line_at(t, p) =~= seq!['-', '-', '-']);
        assert(tags.subrange(k, n) =~= Seq::<Seq<char>>::empty());
    } else {
        let tag = tags[k];
        assert(tags.take(k + 1).drop_last() =~= tags.take(k));
        assert(tags.take(k + 1).last() == tag);
        lemma_tag_lines_prefix(tags, k + 1, n);
        let before = tag_lines(tags.take(k));
        let line = item_prefix() + tag + seq!['\n'];
        assert(tag_lines(tags.take(k + 1)) == before + line);
        let len = line.len() as int;
        assert forall|m: int| 0 <= m < len implies t[p + m] == line[m] by {
            let c = tag_lines(tags.take(k + 1));
            assert(c[before.len() + m] == line[m]);
            assert(all.subrange(0, c.len() as int)[before.len() + m] == c[before.len() + m]);
            assert(block[before.len() + m] == all[before.len() + m]);
        }
        assert(clean_tag(tag));
        assert forall|m: int| p <= m < p + 4 + tag.len() implies t[m] != '\n' by {
            assert(t[m] == line[m - p]);
            if m - p >= 4 {
                assert(line[m - p] == tag[m - p - 4]);
                if tag[m - p - 4] == '\n' {
                    assert(tag.contains('\n'));
                }
            }
        }
        assert(t[p + 4 + tag.len()] == '\n') by {
            assert(line[4 + tag.len() as int] == '\n');
        }
        lemma_line_len(t, p, 4 + tag.len() as int);
        let raw = t.subrange(p, p + 4 + tag.len());
        assert forall|m: int| 0 <= m < raw.len() implies raw[m] == (item_prefix() + tag)[m] by {
            assert(t[p + m] == line[m]);
        }
        assert(raw =~= item_prefix() + tag);
        if tag.len() > 0 {
            lemma_clean_ends(tag);
            assert(raw.last() == tag.last());
        } else {
            assert(raw.last() == ' ');
        }
        assert(line_at(t, p) == raw);
        assert(!is_fence(raw));
        assert(raw.subrange(0, 4) =~= item_prefix());
        assert(raw.subrange(4, raw.len() as int) =~= tag);
        assert(tag_of_line(raw) == Some(tag));
        assert(next_line(t, p) == q + tag_lines(tags.take(k + 1)).len());
        lemma_scan_tag_lines(t, q, tags, k + 1);
        assert(tags.subrange(k, n) =~= seq![tag] + tags.subrange(k + 1, n));
    }
}

/// Scanning a text that holds the block listing `tags` at `o` gives `tags`.
proof fn lemma_scan_block(t: Seq<char>, o: int, tags: Seq<Seq<char>>)
    requires
        0 <= o,
        o + tag_block(tags).len() <= t.len(),
        t.subrange(o, o + tag_block(tags).len()) == tag_block(tags),
        forall|i: int| 0 <= i < tags.len() ==> clean_tag(#[trigger] tags[i]),
    ensures
        scan_tags(t, o, false) == tags,
{
    let b = tag_block(tags);
    assert forall|m: int| 0 <= m < b.len() implies t[o + m] == b[m] by {
        assert(t.subrange(o, o + b.len())[m] == t[o + m]);
    }
    assert(t[o] == '-' && t[o + 1] == '-' && t[o + 2] == '-' && t[o + 3] == '\n') by {
        assert(b[0] == '-' && b[1] == '-' && b[2] == '-' && b[3] == '\n');
    }
    lemma_line_len(t, o, 3);
    assert(line_at(t, o) =~= seq!['-', '-', '-']);
    assert(next_line(t, o) == o + 4);
    assert forall|m: int| 0 <= m < 6 implies t[o + 4 + m] == tags_line()[m] by {
        assert(b[4 + m] == tags_line()[m]);
    }
    lemma_line_len(t, o + 4, 5);
    let l = t.subrange(o + 4, o + 9);
    assert(l[0] == 't');
    assert(line_at(t, o + 4) == l);
    assert(!is_fence(l));
    assert(l.subrange(0, 4) != item_prefix()) by {
        assert(l.subrange(0, 4)[0] == 't');
    }
    assert(next_line(t, o + 4) == o + 10);
    let q = o + 10;
    let rest = tag_lines(tags) + fence_line();
    assert(t.subrange(q, q + rest.len()) =~= rest) by {
        assert forall|m: int| 0 <= m < rest.len() implies t.subrange(q, q + rest.len())[m] == rest[m] by {
            assert(b[10 + m] == rest[m]);
        }
    }
    assert(tags.take(0) =~= Seq::<Seq<char>>::empty());
    assert(tag_lines(tags.take(0)).len() == 0);
    assert(l.last() == ':') by {
        assert(b[8] == ':');
    }
    assert(tag_of_line(l) is None);
    assert(scan_tags(t, o, false) == scan_tags(t, o + 4, true));
    assert(scan_tags(t, o + 4, true) == scan_tags(t, q, true));
    lemma_scan_tag_lines(t, q, tags, 0);
    assert(tags.subrange(0, tags.len() as int) =~= tags);
}

proof fn lemma_trim_start_sub(x: Seq<char>) -> (a: int)
    ensures
        0 <= a <= x.len(),
        trim_start(x) == x.subrange(a, x.len() as int),
        trim_start(x).len() > 0 ==> !is_ws(trim_start(x)[0]),
    decreases x.len(),
{
    if x.len() > 0 && is_ws(x[0]) {
        let a = lemma_trim_start_sub(x.drop_first());
        assert(x.drop_first().subrange(a, x.len() - 1) =~= x.subrange(a + 1, x.len() as int));
        a + 1
    } else {
        assert(x.subrange(0, x.len() as int) =~= x);
        0
    }
}

proof fn lemma_trim_end_sub(x: Seq<char>) -> (b: int)
    ensures
        0 <= b <= x.len(),
        trim_end(x) == x.subrange(0, b),
        trim_end(x).len() > 0 ==> !is_ws(trim_end(x).last()),
    decreases x.len(),
{
    if x.len() > 0 && is_ws(x.last()) {
        let b = lemma_trim_end_sub(x.drop_last());
        assert(x.drop_last().subrange(0, b) =~= x.subrange(0, b));
        b
    } else {
        assert(x.subrange(0, x.len() as int) =~= x);
        x.len() as int
    }
}

/// Trimming text without a newline gives a clean tag.
proof fn lemma_trim_clean(x: Seq<char>)
    requires
        !x.contains('\n'),
    ensures
        clean_tag(trim(x)),
{
    let a = lemma_trim_start_sub(x);
    let y = trim_start(x);
    let b = lemma_trim_end_sub(y);
    let z = trim(x);
    assert(z =~= x.subrange(a, a + b));
    if z.contains('\n') {
        let m = choose|m: int| 0 <= m < z.len() && z[m] == '\n';
        assert(x[a + m] == '\n');
        assert(x.contains('\n'));
    }
    if z.len() > 0 {
        assert(z[0] == y[0]);
        assert(trim_start(z) == z);
    } else {
        assert(trim_start(z) == z);
    }
}

/// Every tag that a scan gives is clean.
proof fn lemma_scan_clean(s: Seq<char>, i: int, open: bool)
    ensures
        forall|k: int|
            0 <= k < scan_tags(s, i, open).len() ==> clean_tag(#[trigger] scan_tags(s, i, open)[k]),
    decreases s.len() - i,
{
    if i < 0 || i >= s.len() {
    } else if is_fence(line_at(s, i)) {
        if !open {
            lemma_scan_clean(s, next_line(s, i), true);
            assert(scan_tags(s, i, open) == scan_tags(s, next_line(s, i), true));
        }
    } else if open && tag_of_line(line_at(s, i)) is Some {
        lemma_scan_clean(s, next_line(s, i), open);
        lemma_line_len_props(s, i);
        let l = line_at(s, i);
        let x = l.subrange(4, l.len() as int);
        let full = s.subrange(i, i + line_len(s, i));
        assert(l.len() <= full.len());
        assert forall|j: int| 0 <= j < l.len() implies l[j] == full[j] && full[j] == s[i + j] by {}
        if x.contains('\n') {
            let m = choose|m: int| 0 <= m < x.len() && x[m] == '\n';
            assert(x[m] == l[4 + m]);
            assert(s[i + 4 + m] == '\n');
        }
        lemma_trim_clean(x);
        let r = scan_tags(s, i, open);
        let rest = scan_tags(s, next_line(s, i), open);
        assert(tag_of_line(l) == Some(trim(x)));
        assert(r == seq![trim(x)] + rest);
        assert(r[0] == trim(x));
        assert forall|k: int| 0 <= k < r.len() implies clean_tag(#[trigger] r[k]) by {
            if k > 0 {
                assert(r[k] == rest[k - 1]);
            }
        }
    } else {
        lemma_scan_clean(s, next_line(s, i), open);
        assert(scan_tags(s, i, open) == scan_tags(s, next_line(s, i), open));
    }
}

/// Merging keeps only tags that were there to merge.
proof fn lemma_merge_from(all: Seq<Seq<char>>, remove: Seq<Seq<char>>, x: Seq<char>)
    requires
        merge_tags(all, remove).contains(x),
    ensures
        all.contains(x),
    decreases all.len(),
{
    if all.len() > 0 {
        let kept = merge_tags(all.drop_last(), remove);
        if kept.contains(x) {
            lemma_merge_from(all.drop_last(), remove, x);
            let j = choose|j: int| 0 <= j < all.drop_last().len() && all.drop_last()[j] == x;
            assert(all[j] == x);
        } else {
            assert(x == all.last());
            assert(all[all.len() - 1] == x);
        }
    }
}

/// After `modify_tags` succeeds, the page lists exactly the merged tags
/// `(tags ∪ add) \ remove`, when the added tags are clean.
pub proof fn lemma_tags_after_modify(s: Seq<char>, add: Seq<Seq<char>>, remove: Seq<Seq<char>>)
    requires
        forall|i: int| 0 <= i < add.len() ==> clean_tag(#[trigger] add[i]),
    ensures
        match modified_text(s, add, remove) {
            Ok(t) => page_tags(t) == merge_tags(page_tags(s) + add, remove),
            Err(_) => true,
        },
{
    if let Ok(t) = modified_text(s, add, remove) {
        let o = fence_from(s, 0)->0;
        let n1 = next_line(s, o);
        let c = fence_from(s, n1)->0;
        let r = next_line(s, c);
        lemma_fence_from_range(s, 0);
        lemma_fence_from_range(s, n1);
        lemma_line_len_props(s, c);
        let all = page_tags(s) + add;
        let merged = merge_tags(all, remove);
        let b = tag_block(merged);
        assert(t == s.subrange(0, o) + b + s.subrange(r, s.len() as int));
        assert forall|m: int| 0 <= m < o implies s[m] == t[m] by {
            assert(t[m] == s.subrange(0, o)[m]);
        }
        lemma_scan_prefix(s, t, 0, o);
        assert(t.subrange(o, o + b.len()) =~= b);
        lemma_scan_clean(s, 0, false);
        assert forall|i: int| 0 <= i < merged.len() implies clean_tag(#[trigger] merged[i]) by {
            lemma_merge_from(all, remove, merged[i]);
            let j = choose|j: int| 0 <= j < all.len() && all[j] == merged[i];
            if j < page_tags(s).len() {
                assert(all[j] == page_tags(s)[j]);
            } else {
                assert(all[j] == add[j - page_tags(s).len()]);
            }
        }
        lemma_scan_block(t, o, merged);
    }
}

} // verus!
