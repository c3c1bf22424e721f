//! The calls that the library's logic makes into other crates and into
//! `std::path`, each behind a small function whose contract is trusted.
//!
//! Where a result takes more than a few lines to state, it is given a name
//! (an uninterpreted spec function of the call's arguments), and the
//! library's contracts speak of that name.

use vstd::prelude::*;
use crate::text::split_char;

verus! {

/// The views of a sequence of strings.
pub open spec fn string_views(v: Seq<String>) -> Seq<Seq<char>> {
    v.map_values(|s: String| s@)
}

/// The view of an optional string.
pub open spec fn opt_view(o: Option<String>) -> Option<Seq<char>> {
    match o {
        Some(s) => Some(s@),
        None => None,
    }
}

/// The views of a sequence of optional strings.
pub open spec fn opt_views(v: Seq<Option<String>>) -> Seq<Option<Seq<char>>> {
    v.map_values(|o: Option<String>| opt_view(o))
}

// ------------------------------------------------------------------
// std::path (the statements below hold of Unix paths, where `/` is the
// only separator)
// ------------------------------------------------------------------

/// The normal components of the Unix path `p`: its pieces between
/// separators, without empty pieces and `.` pieces.
pub open spec fn path_components(p: Seq<char>) -> Seq<Seq<char>> {
    split_char(p, '/').filter(|c: Seq<char>| c.len() > 0 && c != seq!['.'])
}

/// What `Path::file_name` gives for the path `p`, as its documentation
/// describes it: the final component, none where the path has no component
/// (it is empty, the root or `.`) or ends in `..`.
pub open spec fn path_file_name(p: Seq<char>) -> Option<Seq<char>> {
    let comps = path_components(p);
    if comps.len() == 0 || comps.last() == seq!['.', '.'] {
        None
    } else {
        Some(comps.last())
    }
}

/// The index of the last `c` in `s`.
pub open spec fn last_index_of(s: Seq<char>, c: char) -> Option<int>
    decreases s.len(),
{
    if s.len() == 0 {
        None
    } else if s.last() == c {
        Some(s.len() - 1)
    } else {
        last_index_of(s.drop_last(), c)
    }
}

/// The stem and the extension of a file name, as `Path::file_stem` and
/// `Path::extension` document them: split at the last dot, unless there is
/// none or the only one starts the name, in which case the whole name is the
/// stem and there is no extension.
pub open spec fn stem_and_extension(name: Seq<char>) -> (Seq<char>, Option<Seq<char>>) {
    match last_index_of(name, '.') {
        Some(i) => if i > 0 {
            (name.take(i), Some(name.skip(i + 1)))
        } else {
            (name, None)
        },
        None => (name, None),
    }
}

/// What `Path::extension` gives for the path `p`: no extension without a
/// file name.
pub open spec fn path_extension(p: Seq<char>) -> Option<Seq<char>> {
    match path_file_name(p) {
        Some(name) => stem_and_extension(name).1,
        None => None,
    }
}

/// What `Path::file_stem` gives for the path `p`: no stem without a file
/// name.
pub open spec fn path_file_stem(p: Seq<char>) -> Option<Seq<char>> {
    match path_file_name(p) {
        Some(name) => Some(stem_and_extension(name).0),
        None => None,
    }
}

/// What `Path::parent` gives for the path `p`.
pub uninterp spec fn path_parent(p: Seq<char>) -> Option<Seq<char>>;

/// A plain relative path: not empty, not starting with a separator, and
/// every piece between separators a non-empty name other than `.` (so that
/// its components are exactly those pieces).
pub open spec fn plain_relative(p: Seq<char>) -> bool {
    &&& p.len() > 0
    &&& p[0] != '/'
    &&& forall|k: int|
        0 <= k < split_char(p, '/').len() ==> #[trigger] split_char(p, '/')[k].len() > 0
            && split_char(p, '/')[k] != seq!['.']
}

/// The path `p` without its final component, for a plain relative path:
/// what comes before its last separator, the empty path where it has none.
pub open spec fn plain_parent(p: Seq<char>) -> Seq<char> {
    match last_index_of(p, '/') {
        Some(i) => p.take(i),
        None => Seq::<char>::empty(),
    }
}

/// What `Path::join` gives on Unix for the paths `base` and `p`: `p` alone
/// where it is absolute, else `p` after `base` and a separator, the separator
/// left out where `base` is empty or already ends with one.
pub open spec fn path_join(base: Seq<char>, p: Seq<char>) -> Seq<char> {
    if p.len() > 0 && p[0] == '/' {
        p
    } else if base.len() == 0 || base.last() == '/' {
        base + p
    } else {
        base + seq!['/'] + p
    }
}

/// `std::path::Path::file_name`: the final component of `path`, if it is a
/// normal one, as the documentation describes it (see `path_file_name`; a
/// path made from a `str` converts back to a `str` unchanged).
#[verifier::external_body]
pub(crate) fn file_name_of(path: &str) -> (r: Option<String>)
    ensures
        opt_view(r) == path_file_name(path@),
{
    std::path::Path::new(path).file_name().map(|s| s.to_string_lossy().into_owned())
}

/// `std::path::Path::extension`: the part of the file name after its last
/// dot, as the documentation describes it (see `stem_and_extension`).
#[verifier::external_body]
pub(crate) fn extension_of(path: &str) -> (r: Option<String>)
    ensures
        opt_view(r) == path_extension(path@),
{
    std::path::Path::new(path).extension().map(|s| s.to_string_lossy().into_owned())
}

/// `std::path::Path::file_stem`: the file name without its extension, as
/// the documentation describes it (see `stem_and_extension`).
#[verifier::external_body]
pub(crate) fn file_stem_of(path: &str) -> (r: Option<String>)
    ensures
        opt_view(r) == path_file_stem(path@),
{
    std::path::Path::new(path).file_stem().map(|s| s.to_string_lossy().into_owned())
}

/// `std::path::Path::parent`: the path without its final component. The
/// contract claims that the result is a function of the path and, as the
/// documentation says, that a relative path with one component (a non-empty
/// path without a separator) has the empty path as its parent, and that a
/// plain relative path (see `plain_relative`) has as its parent the path
/// without its final component (see `plain_parent`). What it gives for other
/// paths (absolute ones, or ones with `.` or empty pieces, which it
/// normalises) is left unsaid.
#[verifier::external_body]
pub(crate) fn parent_of(path: &str) -> (r: Option<String>)
    ensures
        opt_view(r) == path_parent(path@),
        path@.len() > 0 && !path@.contains('/') ==> opt_view(r) == Some(Seq::<char>::empty()),
        plain_relative(path@) ==> opt_view(r) == Some(plain_parent(path@)),
{
    std::path::Path::new(path).parent().map(|p| p.to_string_lossy().into_owned())
}

/// `std::path::Path::join`: `p` appended to `base` (or `p` alone where it is
/// absolute), as the documentation of `PathBuf::push` describes it for Unix
/// (see `path_join`).
#[verifier::external_body]
pub(crate) fn join_paths(base: &str, p: &str) -> (r: String)
    ensures
        r@ == path_join(base@, p@),
{
    std::path::Path::new(base).join(p).to_string_lossy().into_owned()
}

// ------------------------------------------------------------------
// globset
// ------------------------------------------------------------------

/// Whether `globset::Glob::new` accepts the pattern.
pub uninterp spec fn glob_compiles(pattern: Seq<char>) -> bool;

/// The regular expression that globset translates the glob `pattern` into.
pub uninterp spec fn glob_regex_of(pattern: Seq<char>) -> Seq<char>;

/// `globset::Glob::new(pattern)` and, where it accepts the pattern,
/// `Glob::regex`: the regular expression that the glob stands for, to be
/// matched on the bytes of a path. The contract claims that there is a
/// regular expression exactly where the glob is accepted, and that it is a
/// function of the pattern.
#[verifier::external_body]
pub(crate) fn glob_regex(pattern: &str) -> (r: Option<String>)
    ensures
        r is Some <==> glob_compiles(pattern@),
        r matches Some(re) ==> re@ == glob_regex_of(pattern@),
{
    globset::Glob::new(pattern).ok().map(|g| g.regex().to_string())
}

// ------------------------------------------------------------------
// regex
// ------------------------------------------------------------------

/// Whether `regex::bytes::RegexBuilder` builds the regular expression `re`
/// (with `.` matching a line break, as globset builds the regular expressions
/// of its globs) within the crate's default size limit.
pub uninterp spec fn byte_regex_builds(re: Seq<char>) -> bool;

/// Whether the regular expression `re`, built as in `byte_regex_builds`,
/// matches somewhere in the UTF-8 bytes of `text`.
pub uninterp spec fn byte_regex_matches(re: Seq<char>, text: Seq<char>) -> bool;

/// `regex::bytes::RegexBuilder::new(re).dot_matches_new_line(true).build()`
/// and, where it builds, `regex::bytes::Regex::is_match` on the bytes of
/// `text`. Neither call panics: a regular expression that does not build
/// (one that does not parse, or whose automaton passes the size limit) gives
/// `None`. The contract claims only that whether it builds is a function of
/// `re`, and what it answers a function of `re` and `text`.
#[verifier::external_body]
pub(crate) fn byte_regex_match(re: &str, text: &str) -> (r: Option<bool>)
    ensures
        r is Some <==> byte_regex_builds(re@),
        r matches Some(b) ==> b == byte_regex_matches(re@, text@),
{
    match regex::bytes::RegexBuilder::new(re).dot_matches_new_line(true).build() {
        Ok(m) => Some(m.is_match(text.as_bytes())),
        Err(_) => None,
    }
}

/// Whether `regex::Regex::new` accepts the pattern.
pub uninterp spec fn regex_compiles(pattern: Seq<char>) -> bool;

/// The parts of `text` between the matches of the regex `pattern`.
pub uninterp spec fn regex_split_pieces(pattern: Seq<char>, text: Seq<char>) -> Seq<Seq<char>>;

/// For each match of the regex `pattern` in `text`, in order, the text of
/// each of its capture groups after the whole match (`None` where a group
/// did not take part).
pub uninterp spec fn regex_capture_groups(pattern: Seq<char>, text: Seq<char>) -> Seq<
    Seq<Option<Seq<char>>>,
>;

/// `regex::Regex::new(pattern).is_ok()`. The contract claims only that the
/// outcome is a function of the pattern.
#[verifier::external_body]
pub(crate) fn regex_is_valid(pattern: &str) -> (r: bool)
    ensures
        r == regex_compiles(pattern@),
{
    regex::Regex::new(pattern).is_ok()
}

/// `regex::Regex::split`: the parts of `text` that lie between the matches
/// of `pattern`. The contract claims that the result is a function of the
/// pattern and the text and, as the documentation and source show, that the
/// pieces lie before, between and after the successive matches (those that
/// `captures_iter` yields), so that there is one more piece than matches and
/// a text without a match is a single piece.
#[verifier::external_body]
pub(crate) fn regex_split(pattern: &str, text: &str) -> (r: Vec<String>)
    requires
        regex_compiles(pattern@),
    ensures
        string_views(r@) == regex_split_pieces(pattern@, text@),
        r@.len() == regex_capture_groups(pattern@, text@).len() + 1,
        regex_capture_groups(pattern@, text@).len() == 0 ==> string_views(r@) == seq![text@],
{
    match regex::Regex::new(pattern) {
        Ok(re) => re.split(text).map(|s| s.to_string()).collect(),
        Err(_) => Vec::new(),
    }
}

/// `regex::Regex::captures_iter`: for each match of `pattern` in `text`, the
/// texts of the capture groups 1, 2, ... (`None` for a group that did not
/// take part). The contract claims only that the result is a function of the
/// pattern and the text.
#[verifier::external_body]
pub(crate) fn regex_captures(pattern: &str, text: &str) -> (r: Vec<Vec<Option<String>>>)
    requires
        regex_compiles(pattern@),
    ensures
        r@.map_values(|c: Vec<Option<String>>| opt_views(c@)) == regex_capture_groups(
            pattern@,
            text@,
        ),
{
    match regex::Regex::new(pattern) {
        Ok(re) => re.captures_iter(text).map(|c| {
            c.iter().skip(1).map(|m| m.map(|m| m.as_str().to_string())).collect()
        }).collect(),
        Err(_) => Vec::new(),
    }
}

// ------------------------------------------------------------------
// pulldown-cmark
// ------------------------------------------------------------------

/// The HTML that pulldown-cmark renders from the Markdown text `md`.
pub uninterp spec fn markdown_html(md: Seq<char>) -> Seq<char>;

/// `pulldown_cmark::Parser::new(md)` rendered by `pulldown_cmark::html::push_html`
/// into an empty string. The contract claims only that the result is a
/// function of the Markdown text.
#[verifier::external_body]
pub(crate) fn render_markdown(md: &str) -> (r: String)
    ensures
        r@ == markdown_html(md@),
{
    let mut html = String::new();
    pulldown_cmark::html::push_html(&mut html, pulldown_cmark::Parser::new(md));
    html
}

// ------------------------------------------------------------------
// chrono
// ------------------------------------------------------------------

/// The Unix timestamp of the date and time that chrono reads from `text`
/// with the format `format`, if it can read one.
pub uninterp spec fn datetime_timestamp(text: Seq<char>, format: Seq<char>) -> Option<i64>;

/// `chrono::DateTime::parse_from_str(text, format)` and, on success,
/// `DateTime::timestamp`. The contract claims only that the result is a
/// function of the text and the format (the offset is read from the text,
/// not from the machine).
#[verifier::external_body]
pub(crate) fn parse_timestamp(text: &str, format: &str) -> (r: Option<i64>)
    ensures
        r == datetime_timestamp(text@, format@),
{
    chrono::DateTime::parse_from_str(text, format).ok().map(|d| d.timestamp())
}

} // verus!
