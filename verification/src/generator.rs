//! Building the site: which content files become pages, the URL of each
//! page, which view renders which page, and the pages of each custom loop,
//! newest first.

use vstd::prelude::*;
use crate::glob::{glob_is_match, glob_matcher_builds, glob_matcher_valid, glob_matches};
use crate::outside::{
    file_name_of, file_stem_of, markdown_html, parent_of, path_extension, path_file_name,
    path_file_stem, path_parent, plain_parent, plain_relative,
};
use crate::parser::{page, split_page, ParseError};
use crate::strmap::{pair_views, StrMap};
use crate::text::{
    chars_of, lemma_replace_absent, lemma_replace_prefix, occurs_at, push_all, replace_all,
    replace_chars, same_chars, string_of,
};
use crate::utils::{
    is_hidden_file, is_hidden_name, is_markdown_extension, is_markdown_file, is_page_extension,
    is_valid_file_format, relative_ok, relative_path,
};

verus! {

/// The stem of the page that is served at the root of the site.
pub const INDEX_STEM: &'static str = "index";

/// A page of the site: its frontmatter entries, its (HTML) content, its URL
/// and its date.
pub struct Page {
    pub fm: StrMap,
    pub content: String,
    pub url: String,
    pub timestamp: Option<i64>,
}

// ------------------------------------------------------------------
// URLs
// ------------------------------------------------------------------

/// The URL of a content file with parent directory `parent` and stem `stem`.
pub open spec fn url_of(parent: Seq<char>, stem: Seq<char>) -> Seq<char> {
    if parent.len() == 0 && stem == INDEX_STEM@ {
        seq!['/']
    } else if parent.len() == 0 {
        seq!['/'] + stem
    } else {
        seq!['/'] + parent + seq!['/'] + stem
    }
}

/// A page's URL keeps its whole parent directory and its whole stem: a page
/// with a parent directory `p` is served at `/` + `p` + `/` + its stem, a
/// page at the top at `/` + its stem (`/` itself for the stem `index`); in
/// every case but the root page the URL ends with the whole stem.
pub proof fn lemma_url_shape(p: Seq<char>, s: Seq<char>)
    ensures
        p.len() > 0 ==> url_of(p, s) == seq!['/'] + p + seq!['/'] + s,
        p.len() == 0 && s != INDEX_STEM@ ==> url_of(p, s) == seq!['/'] + s,
        p.len() == 0 && s == INDEX_STEM@ ==> url_of(p, s) == seq!['/'],
        p.len() > 0 || s != INDEX_STEM@ ==> url_of(p, s).len() >= s.len() + 1 && url_of(p, s).skip(
            url_of(p, s).len() - s.len(),
        ) == s,
{
    let u = url_of(p, s);
    if p.len() > 0 || s != INDEX_STEM@ {
        assert(u.skip(u.len() - s.len()) =~= s);
    }
}

/// The URL of the content file at the relative path `path_str`: its parent
/// directory and stem below the root, the stem `index` at the top standing
/// for the root itself.
pub fn get_url(path_str: &str) -> (r: String)
    requires
        path_parent(path_str@) is Some,
        path_file_stem(path_str@) is Some,
    ensures
        r@ == url_of(path_parent(path_str@).unwrap(), path_file_stem(path_str@).unwrap()),
        r@.len() > 0 && r@[0] == '/',
        plain_relative(path_str@) ==> r@ == url_of(
            plain_parent(path_str@),
            path_file_stem(path_str@).unwrap(),
        ),
        path_str@.len() > 0 && !path_str@.contains('/') ==> r@ == (if path_file_stem(
            path_str@,
        ).unwrap() == INDEX_STEM@ {
            seq!['/']
        } else {
            seq!['/'] + path_file_stem(path_str@).unwrap()
        }),
{
    let parent = match parent_of(path_str) {
        Some(p) => chars_of(p.as_str()),
        None => Vec::new(),
    };
    let stem = match file_stem_of(path_str) {
        Some(s) => chars_of(s.as_str()),
        None => Vec::new(),
    };
    let index = chars_of(INDEX_STEM);
    let mut url: Vec<char> = Vec::new();
    url.push('/');
    if parent.len() == 0 && same_chars(&stem, &index) {
    } else if parent.len() == 0 {
        push_all(&mut url, &stem);
    } else {
        push_all(&mut url, &parent);
        url.push('/');
        push_all(&mut url, &stem);
    }
    assert(url@ =~= url_of(parent@, stem@));
    string_of(&url)
}

// ------------------------------------------------------------------
// Content files
// ------------------------------------------------------------------

/// What becomes of a file found under the content directory.
pub enum ContentEntry {
    /// It is not a page source (hidden, or of another format).
    Skip,
    /// It is a page source, keyed by its path below the content directory.
    Page { key: String, markdown: bool },
}

/// What becomes of the file at `path` under the content directory
/// `content_path`: skipped, or read as a page under its relative path.
/// `None` where the file has no name, or where its relative path cannot be
/// cut from the path.
pub fn content_entry(path: &str, content_path: &str) -> (r: Option<ContentEntry>)
    requires
        content_path@.len() <= path@.len(),
        path@.take(content_path@.len() as int) == content_path@,
    ensures
        path_file_name(path@) is None ==> r is None,
        path_file_name(path@) matches Some(name) ==> {
            let page_source = !is_hidden_name(name) && (path_extension(path@) matches Some(ext)
                && is_page_extension(ext));
            &&& !page_source ==> r == Some(ContentEntry::Skip)
            &&& page_source && !relative_ok(path@, content_path@) ==> r is None
            &&& page_source && relative_ok(path@, content_path@) ==> (r matches Some(
                ContentEntry::Page { key, markdown },
            ) && key@ == path@.skip(content_path@.len() as int + 1) && markdown
                == is_markdown_extension(path_extension(path@).unwrap()))
        },
{
    match file_name_of(path) {
        Some(_) => {},
        None => {
            return None;
        },
    }
    if is_hidden_file(path) || !is_valid_file_format(path) {
        return Some(ContentEntry::Skip);
    }
    match relative_path(path, content_path) {
        Some(key) => {
            let markdown = is_markdown_file(path);
            Some(ContentEntry::Page { key, markdown })
        },
        None => None,
    }
}

/// The page read from the source `source` of the content file with relative
/// path `key`: `Some(Err(..))` where the source cannot be read as a page,
/// `None` where the page has no URL (the path has no parent or no stem).
pub fn make_page(key: &str, source: String, is_markdown: bool, utc_offset: &str) -> (r: Option<
    Result<Page, ParseError>,
>)
    ensures
        match split_page(source@, utc_offset@) {
            Err(_) => r == Some(Err::<Page, ParseError>(ParseError::PageFailed)),
            Ok((m, t, c)) => {
                if path_parent(key@) is Some && path_file_stem(key@) is Some {
                    &&& r matches Some(Ok(p))
                    &&& p.fm@ == m
                    &&& p.timestamp == t
                    &&& p.content@ == (if is_markdown {
                        markdown_html(c)
                    } else {
                        c
                    })
                    &&& p.url@ == url_of(
                        path_parent(key@).unwrap(),
                        path_file_stem(key@).unwrap(),
                    )
                } else {
                    r is None
                }
            },
        },
        split_page(source@, utc_offset@) is Ok && plain_relative(key@) && path_file_stem(key@) is Some
            ==> (r matches Some(Ok(p)) && p.url@ == url_of(
            plain_parent(key@),
            path_file_stem(key@).unwrap(),
        )),
{
    match page(source, is_markdown, utc_offset) {
        Ok((fm, timestamp, content)) => {
            match (parent_of(key), file_stem_of(key)) {
                (Some(_), Some(_)) => {
                    let url = get_url(key);
                    Some(Ok(Page { fm, content, url, timestamp }))
                },
                _ => None,
            }
        },
        Err(e) => Some(Err(e)),
    }
}

// ------------------------------------------------------------------
// Custom loops
// ------------------------------------------------------------------

/// A page dated `a` may come before a page dated `b` in a custom loop: newer
/// pages first, undated pages last.
pub open spec fn comes_before(a: Option<i64>, b: Option<i64>) -> bool {
    match (a, b) {
        (Some(x), Some(y)) => x >= y,
        (Some(_), None) => true,
        (None, None) => true,
        (None, Some(_)) => false,
    }
}

/// Of two dated pages, the one with the later date comes first, and pages
/// with the same date may come in either order: `Some(x)` comes before
/// `Some(y)` exactly when `x >= y`. A dated page comes before an undated
/// one, never after it.
pub proof fn lemma_dated_order(x: i64, y: i64)
    ensures
        comes_before(Some(x), Some(y)) <==> x >= y,
        comes_before(Some(x), None),
        !comes_before(None, Some(x)),
{
}

/// The pages `sel` (indices into pages dated `ts`) are in custom loop order.
pub open spec fn newest_first(sel: Seq<usize>, ts: Seq<Option<i64>>) -> bool {
    forall|i: int, j: int|
        0 <= i < j < sel.len() ==> comes_before(#[trigger] ts[sel[i] as int], #[trigger] ts[sel[j] as int])
}

/// In a custom loop, no page is followed by a newer one: of two dated pages,
/// the earlier in the loop has the later or equal date; an undated page is
/// followed only by undated pages.
pub proof fn lemma_loop_newest_first(sel: Seq<usize>, ts: Seq<Option<i64>>, i: int, j: int)
    requires
        newest_first(sel, ts),
        0 <= i < j < sel.len(),
    ensures
        ts[sel[i] as int] is Some && ts[sel[j] as int] is Some ==> ts[sel[i] as int].unwrap()
            >= ts[sel[j] as int].unwrap(),
        ts[sel[i] as int] is None ==> ts[sel[j] as int] is None,
{
    assert(comes_before(ts[sel[i] as int], ts[sel[j] as int]));
    match (ts[sel[i] as int], ts[sel[j] as int]) {
        (Some(x), Some(y)) => {
            lemma_dated_order(x, y);
        },
        (None, Some(y)) => {
            lemma_dated_order(y, y);
        },
        _ => {},
    }
}

/// The keys of the pages.
pub open spec fn page_keys(pages: Seq<(String, Page)>) -> Seq<Seq<char>> {
    pages.map_values(|p: (String, Page)| p.0@)
}

/// The dates of the pages.
pub open spec fn page_times(pages: Seq<(String, Page)>) -> Seq<Option<i64>> {
    pages.map_values(|p: (String, Page)| p.1.timestamp)
}

/// `sel` lists, without repeats and newest first, the indices of the pages
/// whose keys the glob `glob` matches.
pub open spec fn loop_selection(sel: Seq<usize>, glob: Seq<char>, pages: Seq<(String, Page)>) -> bool {
    &&& sel.no_duplicates()
    &&& forall|k: usize|
        #![trigger sel.contains(k)]
        sel.contains(k) <==> (k < pages.len() && glob_matches(glob, page_keys(pages)[k as int]))
    &&& newest_first(sel, page_times(pages))
}

/// `comes_before` is a total preorder.
proof fn lemma_comes_before(a: Option<i64>, b: Option<i64>, c: Option<i64>)
    ensures
        comes_before(a, a),
        comes_before(a, b) || comes_before(b, a),
        comes_before(a, b) && comes_before(b, c) ==> comes_before(a, c),
{
}

/// Whether a page dated `a` may come before a page dated `b`.
fn comes_before_exec(a: Option<i64>, b: Option<i64>) -> (r: bool)
    ensures
        r == comes_before(a, b),
{
    match (a, b) {
        (Some(x), Some(y)) => x >= y,
        (Some(_), None) => true,
        (None, None) => true,
        (None, Some(_)) => false,
    }
}

/// Inserts the page index `x` into the custom loop order `sel`, after every
/// page that may come before it.
fn insert_by_time(sel: &mut Vec<usize>, x: usize, pages: &Vec<(String, Page)>)
    requires
        x < pages@.len(),
        newest_first(old(sel)@, page_times(pages@)),
        forall|i: int| 0 <= i < old(sel)@.len() ==> old(sel)@[i] < x,
        old(sel)@.no_duplicates(),
    ensures
        newest_first(final(sel)@, page_times(pages@)),
        final(sel)@.no_duplicates(),
        forall|i: int| 0 <= i < final(sel)@.len() ==> final(sel)@[i] <= x,
        forall|k: usize| final(sel)@.contains(k) <==> (old(sel)@.contains(k) || k == x),
{
    let ghost ts = page_times(pages@);
    let ghost s = sel@;
    let tx = pages[x].1.timestamp;
    assert(tx == ts[x as int]);
    let mut p: usize = 0;
    while p < sel.len() && comes_before_exec(pages[sel[p]].1.timestamp, tx)
        invariant
            sel@ == s,
            0 <= p <= s.len(),
            forall|i: int| 0 <= i < s.len() ==> s[i] < x,
            forall|i: int| 0 <= i < p ==> comes_before(#[trigger] ts[s[i] as int], tx),
            ts == page_times(pages@),
            tx == ts[x as int],
            x < pages@.len(),
        decreases s.len() - p,
    {
        assert(pages@[s[p as int] as int].1.timestamp == ts[s[p as int] as int]);
        p = p + 1;
    }
    if p < sel.len() {
        assert(pages@[s[p as int] as int].1.timestamp == ts[s[p as int] as int]);
        assert(!comes_before(ts[s[p as int] as int], tx));
    }
    sel.insert(p, x);
    let ghost s2 = sel@;
    assert(s2 == s.insert(p as int, x));
    assert forall|i: int, j: int| 0 <= i < j < s2.len() implies comes_before(
        #[trigger] ts[s2[i] as int],
        #[trigger] ts[s2[j] as int],
    ) by {
        if j < p {
            assert(s2[i] == s[i] && s2[j] == s[j]);
        } else if j == p {
            assert(s2[i] == s[i]);
        } else if i == p {
            assert(s2[j] == s[j - 1]);
            lemma_comes_before(ts[s[p as int] as int], tx, tx);
            lemma_comes_before(tx, ts[s[p as int] as int], ts[s[j - 1] as int]);
        } else if i < p {
            assert(s2[i] == s[i] && s2[j] == s[j - 1]);
        } else {
            assert(s2[i] == s[i - 1] && s2[j] == s[j - 1]);
        }
    }
    assert forall|k: usize| s2.contains(k) <==> (s.contains(k) || k == x) by {
        if s2.contains(k) {
            let i = choose|i: int| 0 <= i < s2.len() && s2[i] == k;
            if i < p {
                assert(s[i] == k);
            } else if i > p {
                assert(s[i - 1] == k);
            }
        }
        if s.contains(k) {
            let i = choose|i: int| 0 <= i < s.len() && s[i] == k;
            if i < p {
                assert(s2[i] == k);
            } else {
                assert(s2[i + 1] == k);
            }
        }
        if k == x {
            assert(s2[p as int] == x);
        }
    }
    assert forall|i: int, j: int| 0 <= i < s2.len() && 0 <= j < s2.len() && i != j implies s2[i]
        != s2[j] by {
        if i == p {
            assert(s2[j] == if j < p {
                s[j]
            } else {
                s[j - 1]
            });
        } else if j == p {
            assert(s2[i] == if i < p {
                s[i]
            } else {
                s[i - 1]
            });
        } else {
            let ii = if i < p {
                i
            } else {
                i - 1
            };
            let jj = if j < p {
                j
            } else {
                j - 1
            };
            assert(s2[i] == s[ii] && s2[j] == s[jj]);
        }
    }
}

/// The pages of the custom loop with glob `glob`: the indices of the pages
/// whose keys the glob matches, newest first, undated pages last.
pub fn loop_pages(glob: &str, pages: &Vec<(String, Page)>) -> (r: Vec<usize>)
    requires
        glob_matcher_builds(glob@),
    ensures
        loop_selection(r@, glob@, pages@),
        forall|i: int, j: int|
            0 <= i < j < r@.len() ==> {
                let a = #[trigger] page_times(pages@)[r@[i] as int];
                let b = #[trigger] page_times(pages@)[r@[j] as int];
                &&& a is Some && b is Some ==> a.unwrap() >= b.unwrap()
                &&& a is None ==> b is None
            },
{
    let mut sel: Vec<usize> = Vec::new();
    let mut k: usize = 0;
    while k < pages.len()
        invariant
            0 <= k <= pages@.len(),
            glob_matcher_builds(glob@),
            newest_first(sel@, page_times(pages@)),
            sel@.no_duplicates(),
            forall|i: int| 0 <= i < sel@.len() ==> sel@[i] < k,
            forall|m: usize|
                #![trigger sel@.contains(m)]
                sel@.contains(m) <==> (m < k && glob_matches(glob@, page_keys(pages@)[m as int])),
        decreases pages@.len() - k,
    {
        assert(page_keys(pages@)[k as int] == pages@[k as int].0@);
        if glob_is_match(glob, pages[k].0.as_str()) {
            insert_by_time(&mut sel, k, pages);
        }
        k = k + 1;
    }
    assert forall|i: int, j: int| 0 <= i < j < sel@.len() implies {
        let a = #[trigger] page_times(pages@)[sel@[i] as int];
        let b = #[trigger] page_times(pages@)[sel@[j] as int];
        &&& a is Some && b is Some ==> a.unwrap() >= b.unwrap()
        &&& a is None ==> b is None
    } by {
        lemma_loop_newest_first(sel@, page_times(pages@), i, j);
    }
    sel
}

// ------------------------------------------------------------------
// Rendering plan
// ------------------------------------------------------------------

/// The pages of one custom loop of a rendering: the loop's name in the
/// template and the indices of its pages, in order.
pub struct LoopData {
    pub id: String,
    pub pages: Vec<usize>,
}

/// One rendering: the view (an index into the views) renders the page (an
/// index into the pages), with the data of each of the view's custom loops.
pub struct RenderJob {
    pub view: usize,
    pub page: usize,
    pub loops: Vec<LoopData>,
}

/// The targets of the views.
pub open spec fn view_targets(views: Seq<(String, crate::parser::View)>) -> Seq<Seq<char>> {
    views.map_values(|v: (String, crate::parser::View)| v.1.target_spec())
}

/// The custom loops (glob, name) of the view with index `vi`.
pub open spec fn view_loops(views: Seq<(String, crate::parser::View)>, vi: int) -> Seq<
    (Seq<char>, Seq<char>),
> {
    views[vi].1.loops_spec().entry_seq()
}

/// The pairs (view `vi`, page) for the first `m` pages, in page order, where
/// the view's target matches the page's key.
pub open spec fn row_pairs(target: Seq<char>, keys: Seq<Seq<char>>, vi: int, m: int) -> Seq<
    (int, int),
>
    decreases m,
{
    if m <= 0 {
        Seq::empty()
    } else {
        row_pairs(target, keys, vi, m - 1) + if glob_matches(target, keys[m - 1]) {
            seq![(vi, m - 1)]
        } else {
            Seq::empty()
        }
    }
}

/// The pairs (view, page) of the first `n` views where the view's target
/// matches the page's key: by view, then by page.
pub open spec fn render_pairs(targets: Seq<Seq<char>>, keys: Seq<Seq<char>>, n: int) -> Seq<
    (int, int),
>
    decreases n,
{
    if n <= 0 {
        Seq::empty()
    } else {
        render_pairs(targets, keys, n - 1) + row_pairs(targets[n - 1], keys, n - 1, keys.len() as int)
    }
}

/// The pairs of one view's row are that view's, in increasing page order,
/// and are exactly the pages below `m` that its target matches.
proof fn lemma_row_pairs(target: Seq<char>, keys: Seq<Seq<char>>, vi: int, m: int)
    requires
        0 <= m <= keys.len(),
    ensures
        forall|k: int|
            0 <= k < row_pairs(target, keys, vi, m).len() ==> (#[trigger] row_pairs(
                target,
                keys,
                vi,
                m,
            )[k]).0 == vi && 0 <= row_pairs(target, keys, vi, m)[k].1 < m,
        forall|k: int, l: int|
            0 <= k < l < row_pairs(target, keys, vi, m).len() ==> (#[trigger] row_pairs(
                target,
                keys,
                vi,
                m,
            )[k]).1 < (#[trigger] row_pairs(target, keys, vi, m)[l]).1,
        forall|b: int|
            #![trigger row_pairs(target, keys, vi, m).contains((vi, b))]
            row_pairs(target, keys, vi, m).contains((vi, b)) <==> (0 <= b < m && glob_matches(
                target,
                keys[b],
            )),
    decreases m,
{
    if m > 0 {
        lemma_row_pairs(target, keys, vi, m - 1);
        let prev = row_pairs(target, keys, vi, m - 1);
        let row = row_pairs(target, keys, vi, m);
        assert forall|b: int| row.contains((vi, b)) <==> (0 <= b < m && glob_matches(
            target,
            keys[b],
        )) by {
            if row.contains((vi, b)) {
                let k = choose|k: int| 0 <= k < row.len() && row[k] == (vi, b);
                if k < prev.len() {
                    assert(prev[k] == (vi, b));
                    assert(prev.contains((vi, b)));
                }
            }
            if 0 <= b < m && glob_matches(target, keys[b]) {
                if b < m - 1 {
                    assert(prev.contains((vi, b)));
                    let k = choose|k: int| 0 <= k < prev.len() && prev[k] == (vi, b);
                    assert(row[k] == (vi, b));
                } else {
                    assert(row[row.len() - 1] == (vi, b));
                }
            }
        }
        assert forall|k: int, l: int| 0 <= k < l < row.len() implies (#[trigger] row[k]).1 < (
        #[trigger] row[l]).1 by {
            if l < prev.len() {
                assert(row[k] == prev[k] && row[l] == prev[l]);
            } else {
                assert(row[k] == prev[k]);
            }
        }
        assert forall|k: int| 0 <= k < row.len() implies (#[trigger] row[k]).0 == vi && 0
            <= row[k].1 < m by {
            if k < prev.len() {
                assert(row[k] == prev[k]);
            }
        }
    }
}

/// Each view renders each page that its target matches exactly once: the
/// pairs of the rendering plan have no repeats, and a pair (view, page) is
/// among them exactly when the view's target matches the page's key.
pub proof fn lemma_render_pairs(targets: Seq<Seq<char>>, keys: Seq<Seq<char>>, n: int)
    requires
        0 <= n <= targets.len(),
    ensures
        render_pairs(targets, keys, n).no_duplicates(),
        forall|k: int|
            0 <= k < render_pairs(targets, keys, n).len() ==> 0 <= (#[trigger] render_pairs(
                targets,
                keys,
                n,
            )[k]).0 < n,
        forall|vi: int, pi: int|
            #![trigger render_pairs(targets, keys, n).contains((vi, pi))]
            render_pairs(targets, keys, n).contains((vi, pi)) <==> (0 <= vi < n && 0 <= pi
                < keys.len() && glob_matches(targets[vi], keys[pi])),
    decreases n,
{
    if n > 0 {
        lemma_render_pairs(targets, keys, n - 1);
        let prev = render_pairs(targets, keys, n - 1);
        let row = row_pairs(targets[n - 1], keys, n - 1, keys.len() as int);
        lemma_row_pairs(targets[n - 1], keys, n - 1, keys.len() as int);
        let all = render_pairs(targets, keys, n);
        assert(all == prev + row);
        assert forall|k: int| 0 <= k < all.len() implies 0 <= (#[trigger] all[k]).0 < n by {
            if k < prev.len() {
                assert(all[k] == prev[k]);
            } else {
                assert(all[k] == row[k - prev.len()]);
            }
        }
        assert forall|i: int, j: int| 0 <= i < all.len() && 0 <= j < all.len() && i != j implies all[i]
            != all[j] by {
            if i < prev.len() && j < prev.len() {
                assert(all[i] == prev[i] && all[j] == prev[j]);
            } else if i >= prev.len() && j >= prev.len() {
                assert(all[i] == row[i - prev.len()] && all[j] == row[j - prev.len()]);
                if i < j {
                    assert(row[i - prev.len()].1 < row[j - prev.len()].1);
                } else {
                    assert(row[j - prev.len()].1 < row[i - prev.len()].1);
                }
            } else if i < prev.len() {
                assert(all[i] == prev[i] && all[j] == row[j - prev.len()]);
                assert(prev[i].0 < n - 1);
            } else {
                assert(all[j] == prev[j] && all[i] == row[i - prev.len()]);
                assert(prev[j].0 < n - 1);
            }
        }
        assert forall|vi: int, pi: int| all.contains((vi, pi)) <==> (0 <= vi < n && 0 <= pi
            < keys.len() && glob_matches(targets[vi], keys[pi])) by {
            if all.contains((vi, pi)) {
                let k = choose|k: int| 0 <= k < all.len() && all[k] == (vi, pi);
                if k < prev.len() {
                    assert(prev[k] == (vi, pi));
                    assert(prev.contains((vi, pi)));
                } else {
                    assert(row[k - prev.len()] == (vi, pi));
                    assert(row.contains((n - 1, pi)));
                }
            }
            if 0 <= vi < n && 0 <= pi < keys.len() && glob_matches(targets[vi], keys[pi]) {
                if vi < n - 1 {
                    assert(prev.contains((vi, pi)));
                    let k = choose|k: int| 0 <= k < prev.len() && prev[k] == (vi, pi);
                    assert(all[k] == (vi, pi));
                } else {
                    assert(row.contains((n - 1, pi)));
                    let k = choose|k: int| 0 <= k < row.len() && row[k] == (n - 1, pi);
                    assert(all[prev.len() + k] == (vi, pi));
                }
            }
        }
    }
}

/// The rendering `job` is that of the pair `pair`: each custom loop of the
/// view has its name and its pages.
pub open spec fn job_ok(
    job: RenderJob,
    pair: (int, int),
    views: Seq<(String, crate::parser::View)>,
    pages: Seq<(String, Page)>,
) -> bool {
    let loops = view_loops(views, pair.0);
    &&& job.view == pair.0
    &&& job.page == pair.1
    &&& job.loops@.len() == loops.len()
    &&& forall|e: int|
        #![trigger job.loops@[e]]
        0 <= e < loops.len() ==> job.loops@[e].id@ == loops[e].1 && loop_selection(
            job.loops@[e].pages@,
            loops[e].0,
            pages,
        )
}

/// `jobs` are the renderings of the site: one for each view and page that
/// the view's target matches, by view and then by page.
pub open spec fn plan_ok(
    jobs: Seq<RenderJob>,
    views: Seq<(String, crate::parser::View)>,
    pages: Seq<(String, Page)>,
) -> bool {
    let pairs = render_pairs(view_targets(views), page_keys(pages), views.len() as int);
    &&& jobs.len() == pairs.len()
    &&& forall|k: int| #![trigger jobs[k]] 0 <= k < jobs.len() ==> job_ok(jobs[k], pairs[k], views, pages)
}

/// Every custom loop glob of a view that renders some page has a matcher
/// that can be built.
pub open spec fn loops_compile(
    views: Seq<(String, crate::parser::View)>,
    pages: Seq<(String, Page)>,
) -> bool {
    forall|vi: int, pi: int|
        0 <= vi < views.len() && 0 <= pi < pages.len() && #[trigger] glob_matches(
            view_targets(views)[vi],
            #[trigger] page_keys(pages)[pi],
        ) ==> forall|e: int|
            0 <= e < view_loops(views, vi).len() ==> glob_matcher_builds(#[trigger] view_loops(views, vi)[e].0)
}

/// The data of the custom loops `entries` of a view.
fn loops_data(entries: &Vec<(String, String)>, pages: &Vec<(String, Page)>) -> (r: Vec<LoopData>)
    requires
        forall|e: int|
            0 <= e < entries@.len() ==> glob_matcher_builds(#[trigger] pair_views(entries@)[e].0),
    ensures
        r@.len() == entries@.len(),
        forall|e: int|
            #![trigger r@[e]]
            0 <= e < entries@.len() ==> r@[e].id@ == pair_views(entries@)[e].1 && loop_selection(
                r@[e].pages@,
                pair_views(entries@)[e].0,
                pages@,
            ),
{
    let mut r: Vec<LoopData> = Vec::new();
    let mut e: usize = 0;
    while e < entries.len()
        invariant
            0 <= e <= entries@.len(),
            r@.len() == e,
            forall|f: int|
                0 <= f < entries@.len() ==> glob_matcher_builds(#[trigger] pair_views(entries@)[f].0),
            forall|f: int|
                #![trigger r@[f]]
                0 <= f < e ==> r@[f].id@ == pair_views(entries@)[f].1 && loop_selection(
                    r@[f].pages@,
                    pair_views(entries@)[f].0,
                    pages@,
                ),
        decreases entries@.len() - e,
    {
        assert(pair_views(entries@)[e as int] == (entries@[e as int].0@, entries@[e as int].1@));
        assert(glob_matcher_builds(pair_views(entries@)[e as int].0));
        let sel = loop_pages(entries[e].0.as_str(), pages);
        let id = entries[e].1.clone();
        r.push(LoopData { id, pages: sel });
        e = e + 1;
    }
    r
}

/// The renderings of the site: each view renders each page whose key its
/// target matches, with the pages of each of its custom loops.
pub fn generate(pages: &Vec<(String, Page)>, views: &Vec<(String, crate::parser::View)>) -> (r: Vec<
    RenderJob,
>)
    requires
        loops_compile(views@, pages@),
    ensures
        plan_ok(r@, views@, pages@),
{
    let ghost targets = view_targets(views@);
    let ghost keys = page_keys(pages@);
    let mut jobs: Vec<RenderJob> = Vec::new();
    let mut vi: usize = 0;
    while vi < views.len()
        invariant
            0 <= vi <= views@.len(),
            targets == view_targets(views@),
            keys == page_keys(pages@),
            loops_compile(views@, pages@),
            jobs@.len() == render_pairs(targets, keys, vi as int).len(),
            forall|k: int|
                #![trigger jobs@[k]]
                0 <= k < jobs@.len() ==> job_ok(
                    jobs@[k],
                    render_pairs(targets, keys, vi as int)[k],
                    views@,
                    pages@,
                ),
        decreases views@.len() - vi,
    {
        let ghost before = jobs@;
        let ghost done = render_pairs(targets, keys, vi as int);
        let v = &views[vi].1;
        let target = v.target();
        assert(targets[vi as int] == target@);
        let mut pi: usize = 0;
        while pi < pages.len()
            invariant
                0 <= vi < views@.len(),
                0 <= pi <= pages@.len(),
                targets == view_targets(views@),
                keys == page_keys(pages@),
                loops_compile(views@, pages@),
                v == views@[vi as int].1,
                target@ == targets[vi as int],
                glob_matcher_builds(target@),
                before.len() == done.len(),
                done == render_pairs(targets, keys, vi as int),
                jobs@.len() == done.len() + row_pairs(target@, keys, vi as int, pi as int).len(),
                forall|k: int|
                    #![trigger jobs@[k]]
                    0 <= k < jobs@.len() ==> job_ok(
                        jobs@[k],
                        (done + row_pairs(target@, keys, vi as int, pi as int))[k],
                        views@,
                        pages@,
                    ),
            decreases pages@.len() - pi,
        {
            let ghost row = row_pairs(target@, keys, vi as int, pi as int);
            assert(keys[pi as int] == pages@[pi as int].0@);
            if glob_is_match(target.as_str(), pages[pi].0.as_str()) {
                let entries = v.custom_loops().entries();
                assert forall|e: int| 0 <= e < entries@.len() implies glob_matcher_builds(
                    #[trigger] pair_views(entries@)[e].0,
                ) by {
                    assert(view_loops(views@, vi as int)[e] == pair_views(entries@)[e]);
                }
                let loops = loops_data(entries, pages);
                let job = RenderJob { view: vi, page: pi, loops };
                assert(job_ok(job, (vi as int, pi as int), views@, pages@));
                jobs.push(job);
                assert(done + row_pairs(target@, keys, vi as int, pi + 1) =~= (done + row).push(
                    (vi as int, pi as int),
                ));
            } else {
                assert(done + row_pairs(target@, keys, vi as int, pi + 1) =~= done + row);
            }
            pi = pi + 1;
        }
        assert(render_pairs(targets, keys, vi + 1) =~= done + row_pairs(
            target@,
            keys,
            vi as int,
            pages@.len() as int,
        ));
        vi = vi + 1;
    }
    jobs
}

/// The renderings of the site (see `generate`), or `None` where a view that
/// renders some page has a custom loop whose glob has no matcher.
pub fn plan_site(pages: &Vec<(String, Page)>, views: &Vec<(String, crate::parser::View)>) -> (r:
    Option<Vec<RenderJob>>)
    ensures
        loops_compile(views@, pages@) ==> (r matches Some(jobs) && plan_ok(jobs@, views@, pages@)),
        !loops_compile(views@, pages@) ==> r is None,
{
    let mut vi: usize = 0;
    while vi < views.len()
        invariant
            0 <= vi <= views@.len(),
            forall|wi: int, pi: int|
                0 <= wi < vi && 0 <= pi < pages@.len() && #[trigger] glob_matches(
                    view_targets(views@)[wi],
                    #[trigger] page_keys(pages@)[pi],
                ) ==> forall|e: int|
                    0 <= e < view_loops(views@, wi).len() ==> glob_matcher_builds(
                        #[trigger] view_loops(views@, wi)[e].0,
                    ),
        decreases views@.len() - vi,
    {
        let v = &views[vi].1;
        let target = v.target();
        assert(view_targets(views@)[vi as int] == target@);
        let mut used = false;
        let mut pi: usize = 0;
        while pi < pages.len()
            invariant
                0 <= pi <= pages@.len(),
                glob_matcher_builds(target@),
                used == exists|qi: int|
                    0 <= qi < pi && #[trigger] glob_matches(target@, page_keys(pages@)[qi]),
            decreases pages@.len() - pi,
        {
            assert(page_keys(pages@)[pi as int] == pages@[pi as int].0@);
            if glob_is_match(target.as_str(), pages[pi].0.as_str()) {
                used = true;
            }
            pi = pi + 1;
        }
        if used {
            let entries = v.custom_loops().entries();
            let mut e: usize = 0;
            while e < entries.len()
                invariant
                    0 <= e <= entries@.len(),
                    0 <= vi < views@.len(),
                    target@ == view_targets(views@)[vi as int],
                    exists|qi: int|
                        0 <= qi < pages@.len() && #[trigger] glob_matches(
                            target@,
                            page_keys(pages@)[qi],
                        ),
                    pair_views(entries@) == view_loops(views@, vi as int),
                    forall|f: int|
                        0 <= f < e ==> glob_matcher_builds(#[trigger] view_loops(views@, vi as int)[f].0),
                decreases entries@.len() - e,
            {
                assert(pair_views(entries@)[e as int].0 == entries@[e as int].0@);
                if !glob_matcher_valid(entries[e].0.as_str()) {
                    let ghost qi = choose|qi: int|
                        0 <= qi < pages@.len() && #[trigger] glob_matches(
                            target@,
                            page_keys(pages@)[qi],
                        );
                    assert(!glob_matcher_builds(view_loops(views@, vi as int)[e as int].0));
                    assert(glob_matches(view_targets(views@)[vi as int], page_keys(pages@)[qi]));
                    assert(!loops_compile(views@, pages@));
                    return None;
                }
                e = e + 1;
            }
        }
        vi = vi + 1;
    }
    Some(generate(pages, views))
}

// ------------------------------------------------------------------
// Build directory
// ------------------------------------------------------------------

/// Where a built file at `path` in the temporary build directory `tmp_path`
/// goes in the build directory `build_path`: every occurrence of the
/// temporary directory in the path replaced by the build directory.
pub fn relocated_path(path: &str, tmp_path: &str, build_path: &str) -> (r: String)
    ensures
        r@ == replace_all(path@, tmp_path@, build_path@),
{
    let p = chars_of(path);
    let t = chars_of(tmp_path);
    let b = chars_of(build_path);
    string_of(&replace_chars(&p, &t, &b))
}

/// A file built in the temporary build directory moves to the same place in
/// the build directory: the entry `TMP/NAME` becomes `BUILD/NAME`, where the
/// name does not contain the temporary directory's path.
pub proof fn lemma_relocated_entry(tmp: Seq<char>, name: Seq<char>, build: Seq<char>)
    requires
        tmp.len() > 0,
        forall|i: int| !occurs_at(seq!['/'] + name, tmp, i),
    ensures
        replace_all(tmp + seq!['/'] + name, tmp, build) == build + seq!['/'] + name,
{
    let rest = seq!['/'] + name;
    assert(tmp + seq!['/'] + name =~= tmp + rest);
    lemma_replace_prefix(tmp, rest, build);
    lemma_replace_absent(rest, tmp, build);
    assert(build + rest =~= build + seq!['/'] + name);
}

} // verus!
