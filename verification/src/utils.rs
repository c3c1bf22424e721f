//! Which files take part in a build, judged by their names.

use vstd::prelude::*;
use crate::outside::{extension_of, file_name_of, path_extension, path_file_name};
use crate::text::{chars_of, copy_range, same_chars, string_of};

verus! {

/// A file name that starts with a dot: a hidden file.
pub open spec fn is_hidden_name(name: Seq<char>) -> bool {
    name.len() > 0 && name[0] == '.'
}

/// The extensions of page sources: Markdown and HTML.
pub open spec fn is_page_extension(ext: Seq<char>) -> bool {
    ext == "markdown"@ || ext == "html"@ || ext == "md"@
}

/// The extensions of Markdown sources.
pub open spec fn is_markdown_extension(ext: Seq<char>) -> bool {
    ext == "markdown"@ || ext == "md"@
}

/// The extension of HTML files.
pub open spec fn is_html_extension(ext: Seq<char>) -> bool {
    ext == "html"@
}

/// Every Markdown or HTML file is a page source.
pub proof fn lemma_page_formats(ext: Seq<char>)
    ensures
        is_markdown_extension(ext) ==> is_page_extension(ext),
        is_html_extension(ext) ==> is_page_extension(ext),
{
}

/// Whether the string `s` has the characters of `lit`.
fn same_text(s: &str, lit: &str) -> (r: bool)
    ensures
        r == (s@ == lit@),
{
    let a = chars_of(s);
    let b = chars_of(lit);
    same_chars(&a, &b)
}

/// Whether the file at `path` is hidden: its name starts with a dot.
pub fn is_hidden_file(path: &str) -> (r: bool)
    requires
        path_file_name(path@) is Some,
    ensures
        r == is_hidden_name(path_file_name(path@).unwrap()),
{
    match file_name_of(path) {
        Some(name) => {
            let c = chars_of(name.as_str());
            c.len() > 0 && c[0] == '.'
        },
        None => false,
    }
}

/// Whether the file at `path` is a page source: its extension is
/// `markdown`, `html` or `md`.
pub fn is_valid_file_format(path: &str) -> (r: bool)
    ensures
        r == (path_extension(path@) matches Some(ext) && is_page_extension(ext)),
        r ==> path_file_name(path@) is Some,
{
    match extension_of(path) {
        Some(ext) => same_text(ext.as_str(), "markdown") || same_text(ext.as_str(), "html")
            || same_text(ext.as_str(), "md"),
        None => false,
    }
}

/// Whether the file at `path` is a Markdown source: its extension is
/// `markdown` or `md`.
pub fn is_markdown_file(path: &str) -> (r: bool)
    requires
        path_extension(path@) is Some,
    ensures
        r == is_markdown_extension(path_extension(path@).unwrap()),
{
    match extension_of(path) {
        Some(ext) => same_text(ext.as_str(), "markdown") || same_text(ext.as_str(), "md"),
        None => false,
    }
}

/// Whether the file at `path` is an HTML file: its extension is `html`.
pub fn is_html_file(path: &str) -> (r: bool)
    ensures
        r == (path_extension(path@) matches Some(ext) && is_html_extension(ext)),
        r ==> path_file_name(path@) is Some,
{
    match extension_of(path) {
        Some(ext) => same_text(ext.as_str(), "html"),
        None => false,
    }
}

/// A path under a root can be made relative to it: the path goes on after
/// the root, and what follows the root is a single-byte character (the
/// separator).
pub open spec fn relative_ok(path: Seq<char>, root: Seq<char>) -> bool {
    path.len() > root.len() && (path[root.len() as int] as u32) < 128
}

/// The path `path` relative to the root `root` under which it lies: what
/// follows the root and the separator after it. `None` where the path does
/// not go on after the root (or goes on with a multi-byte character), where
/// cutting the path after the root's bytes and one more byte fails.
pub fn relative_path(path: &str, root: &str) -> (r: Option<String>)
    requires
        root@.len() <= path@.len(),
        path@.take(root@.len() as int) == root@,
    ensures
        relative_ok(path@, root@) ==> (r matches Some(rel) && rel@ == path@.skip(root@.len() as int + 1)),
        !relative_ok(path@, root@) ==> r is None,
{
    let p = chars_of(path);
    let n = chars_of(root).len();
    if n < p.len() && (p[n] as u32) < 128 {
        let m = p.len();
        Some(string_of(&copy_range(&p, n + 1, m)))
    } else {
        None
    }
}

/// Whether `s` starts with `prefix`.
pub fn starts_with(s: &str, prefix: &str) -> (r: bool)
    ensures
        r == (prefix@.len() <= s@.len() && s@.take(prefix@.len() as int) == prefix@),
{
    let a = chars_of(s);
    let b = chars_of(prefix);
    if b.len() > a.len() {
        return false;
    }
    let head = copy_range(&a, 0, b.len());
    same_chars(&head, &b)
}

} // verus!
