//! The theme: where its views are, which of its files are templates, and how
//! a view file becomes a view that the renderer can load.

use vstd::prelude::*;
use crate::glob::{glob_matcher_builds, glob_matcher_valid};
use crate::outside::{
    file_name_of, file_stem_of, last_index_of, path_components, path_extension,
    path_file_name, path_file_stem,
    regex_capture_groups, regex_compiles, regex_is_valid, regex_split_pieces,
};
use crate::parser::{
    loops_of, rewritten_template, separate_target, target_end, target_glob, target_pattern,
    view, view_target_valid, GLOB_FOR_LOOP_PATTERN,
};
use crate::text::{
    chars_of, copy_range, lemma_split_char_absent, lemma_split_char_concat,
    lemma_split_char_pieces, push_all, split_char, string_of,
};
use crate::utils::{
    is_hidden_file, is_hidden_name, is_html_extension, is_html_file, relative_ok, relative_path,
    starts_with,
};

verus! {

/// The directory of the views, below the theme.
pub const VIEWS_DIR: &'static str = "/views";

/// The directory that the rewritten views are written to, below the theme.
pub const TMP_VIEWS_DIR: &'static str = "/__tmp__";

/// The extension of the rewritten views.
pub const HTML_SUFFIX: &'static str = ".html";

/// The theme files below this directory are views, not templates.
pub const VIEWS_PREFIX: &'static str = "views/";

/// `theme` followed by `suffix`.
fn joined(theme: &str, suffix: &str) -> (r: Vec<char>)
    ensures
        r@ == theme@ + suffix@,
{
    let mut r = chars_of(theme);
    let s = chars_of(suffix);
    push_all(&mut r, &s);
    r
}

/// The directory of the theme's views.
pub fn get_path(theme_path: &str) -> (r: String)
    ensures
        r@ == theme_path@ + VIEWS_DIR@,
{
    string_of(&joined(theme_path, VIEWS_DIR))
}

/// The directory that the rewritten views of the theme are written to.
pub fn get_tmp_path(theme_path: &str) -> (r: String)
    ensures
        r@ == theme_path@ + TMP_VIEWS_DIR@,
{
    string_of(&joined(theme_path, TMP_VIEWS_DIR))
}

/// The theme file at `path` is no template: it is hidden, not HTML, or a
/// view (its path `rel` below the theme starts with `views/`).
pub open spec fn skipped_template(path: Seq<char>, rel: Seq<char>) -> bool {
    is_hidden_name(path_file_name(path).unwrap()) || !(path_extension(path) matches Some(ext)
        && is_html_extension(ext)) || (VIEWS_PREFIX@.len() <= rel.len() && rel.take(
        VIEWS_PREFIX@.len() as int,
    ) == VIEWS_PREFIX@)
}

/// The name under which the theme file at `path` (of the theme at `theme`)
/// is loaded as a template: `None` where that name cannot be cut from the
/// path or the file has no name, `Some(None)` where the file is no template.
pub open spec fn template_name_of(path: Seq<char>, theme: Seq<char>) -> Option<Option<Seq<char>>> {
    if !relative_ok(path, theme) || path_file_name(path) is None {
        None
    } else {
        let rel = path.skip(theme.len() as int + 1);
        if skipped_template(path, rel) {
            Some(None)
        } else {
            Some(Some(rel))
        }
    }
}

/// The name under which the theme file at `path` is loaded as a template,
/// `None` where that name cannot be cut from the path or the file has no
/// name, `Some(None)` where the file is no template: a hidden file, a file
/// that is not HTML, or a view.
pub fn template_name(path: &str, theme_path: &str) -> (r: Option<Option<String>>)
    requires
        theme_path@.len() <= path@.len(),
        path@.take(theme_path@.len() as int) == theme_path@,
    ensures
        match template_name_of(path@, theme_path@) {
            None => r is None,
            Some(None) => r == Some(None::<String>),
            Some(Some(name)) => r matches Some(Some(n)) && n@ == name,
        },
{
    let rel = match relative_path(path, theme_path) {
        Some(rel) => rel,
        None => {
            return None;
        },
    };
    match file_name_of(path) {
        Some(_) => {},
        None => {
            return None;
        },
    }
    if is_hidden_file(path) || !is_html_file(path) || starts_with(rel.as_str(), VIEWS_PREFIX) {
        Some(None)
    } else {
        Some(Some(rel))
    }
}

/// Whether the theme file at `path` is read as a view (it is neither hidden
/// nor other than HTML), `None` where the file has no name.
pub fn is_view_file(path: &str) -> (r: Option<bool>)
    ensures
        path_file_name(path@) is None ==> r is None,
        path_file_name(path@) matches Some(name) ==> r == Some(
            !is_hidden_name(name) && (path_extension(path@) matches Some(ext) && is_html_extension(
                ext,
            )),
        ),
{
    match file_name_of(path) {
        Some(_) => Some(!(is_hidden_file(path) || !is_html_file(path))),
        None => None,
    }
}

/// A view read from a view file: the name under which the renderer loads it,
/// the path its template is written to, and the view.
pub struct ViewEntry {
    pub tera_path: String,
    pub tmp_path: String,
    pub view: crate::parser::View,
}

/// The name under which the rewritten view with stem `stem` is loaded: the
/// temporary directory relative to the theme, then the file.
pub open spec fn view_tera_path(theme_path: Seq<char>, stem: Seq<char>) -> Seq<char> {
    (theme_path + TMP_VIEWS_DIR@).skip(theme_path.len() as int + 1) + seq!['/'] + stem + HTML_SUFFIX@
}

/// The path that the rewritten view with stem `stem` is written to.
pub open spec fn view_tmp_path(theme_path: Seq<char>, stem: Seq<char>) -> Seq<char> {
    theme_path + TMP_VIEWS_DIR@ + seq!['/'] + stem + HTML_SUFFIX@
}

/// A view file can be loaded: the loop tag pattern compiles, the file has a
/// target line with a glob whose matcher can be built, and the file has a
/// stem.
pub open spec fn view_loadable(path: Seq<char>, contents: Seq<char>) -> bool {
    &&& regex_compiles(GLOB_FOR_LOOP_PATTERN@)
    &&& target_end(contents) is Some
    &&& glob_matcher_builds(target_pattern(contents.take(target_end(contents).unwrap())))
    &&& path_file_stem(path) is Some
}

/// Reads the view file at `path` (of the theme at `theme_path`) with the
/// given contents. `None` where it cannot be loaded (see `view_loadable`).
pub fn load_view(theme_path: &str, path: &str, contents: String) -> (r: Option<ViewEntry>)
    ensures
        !view_loadable(path@, contents@) ==> r is None,
        view_loadable(path@, contents@) ==> ({
            let i = target_end(contents@).unwrap();
            let html = contents@.skip(i + 1);
            let stem = path_file_stem(path@).unwrap();
            &&& r matches Some(e)
            &&& e.tera_path@ == view_tera_path(theme_path@, stem)
            &&& e.tmp_path@ == view_tmp_path(theme_path@, stem)
            &&& e.view.target_spec() == target_pattern(contents@.take(i))
            &&& e.view.html_spec() == rewritten_template(
                regex_split_pieces(GLOB_FOR_LOOP_PATTERN@, html),
                regex_capture_groups(GLOB_FOR_LOOP_PATTERN@, html),
            )
            &&& e.view.loops_spec()@ == loops_of(
                regex_capture_groups(GLOB_FOR_LOOP_PATTERN@, html),
            )
        }),
{
    if !regex_is_valid(GLOB_FOR_LOOP_PATTERN) {
        return None;
    }
    match separate_target(contents.as_str()) {
        Ok((target, _)) => {
            let glob = target_glob(target.as_str());
            if !glob_matcher_valid(glob.as_str()) {
                return None;
            }
        },
        Err(_) => {
            return None;
        },
    }
    assert(view_target_valid(contents@));
    let v = match view(contents) {
        Ok(v) => v,
        Err(_) => {
            return None;
        },
    };
    let stem = match file_stem_of(path) {
        Some(stem) => stem,
        None => {
            return None;
        },
    };
    let tmp = chars_of(get_tmp_path(theme_path).as_str());
    let theme_len = chars_of(theme_path).len();
    let tmp_len = tmp.len();
    proof {
        reveal_strlit("/__tmp__");
    }
    let mut tera = copy_range(&tmp, theme_len + 1, tmp_len);
    tera.push('/');
    let stem_chars = chars_of(stem.as_str());
    push_all(&mut tera, &stem_chars);
    let suffix = chars_of(HTML_SUFFIX);
    push_all(&mut tera, &suffix);
    let mut file = copy_range(&tmp, 0, tmp_len);
    file.push('/');
    push_all(&mut file, &stem_chars);
    push_all(&mut file, &suffix);
    assert(tera@ =~= view_tera_path(theme_path@, stem@));
    assert(file@ =~= view_tmp_path(theme_path@, stem@));
    Some(ViewEntry { tera_path: string_of(&tera), tmp_path: string_of(&file), view: v })
}

/// The name under which a rewritten view is loaded does not depend on where
/// the theme is: it is `__tmp__/STEM.html`.
pub proof fn lemma_view_tera_path(theme_path: Seq<char>, stem: Seq<char>)
    ensures
        view_tera_path(theme_path, stem) == TMP_VIEWS_DIR@.skip(1) + seq!['/'] + stem + HTML_SUFFIX@,
{
    reveal_strlit("/__tmp__");
    assert((theme_path + TMP_VIEWS_DIR@).skip(theme_path.len() as int + 1) =~= TMP_VIEWS_DIR@.skip(1));
}

/// The last `c` of `s + [c] + t`, where `t` has none, is the one between.
proof fn lemma_last_index_after(s: Seq<char>, t: Seq<char>, c: char)
    requires
        !t.contains(c),
    ensures
        last_index_of(s + seq![c] + t, c) == Some(s.len() as int),
    decreases t.len(),
{
    let w = s + seq![c] + t;
    if t.len() == 0 {
        assert(w.last() == c);
    } else {
        let t2 = t.drop_last();
        assert(!t2.contains(c)) by {
            if t2.contains(c) {
                let i = choose|i: int| 0 <= i < t2.len() && t2[i] == c;
                assert(t[i] == c);
            }
        }
        assert(w.last() == t[t.len() - 1]);
        assert(w.drop_last() =~= s + seq![c] + t2);
        lemma_last_index_after(s, t2, c);
    }
}

/// Where `last_index_of` finds `c`.
proof fn lemma_last_index_of(s: Seq<char>, c: char)
    ensures
        last_index_of(s, c) matches Some(i) ==> 0 <= i < s.len() && s[i] == c,
    decreases s.len(),
{
    if s.len() > 0 && s.last() != c {
        lemma_last_index_of(s.drop_last(), c);
    }
}

/// The file that a view with stem `stem` is rewritten to is loaded by the
/// renderer under the view's load name: `template_name` of that file is the
/// name that `load_view` gives the view. The stem is that of a visible file:
/// non-empty, not starting with a dot, without a separator.
pub proof fn lemma_rewritten_view_template_name(theme_path: Seq<char>, stem: Seq<char>)
    requires
        stem.len() > 0,
        stem[0] != '.',
        !stem.contains('/'),
    ensures
        theme_path.len() <= view_tmp_path(theme_path, stem).len(),
        view_tmp_path(theme_path, stem).take(theme_path.len() as int) == theme_path,
        template_name_of(view_tmp_path(theme_path, stem), theme_path) == Some(
            Some(view_tera_path(theme_path, stem)),
        ),
{
    reveal_strlit("/__tmp__");
    reveal_strlit(".html");
    reveal_strlit("html");
    reveal_strlit("views/");
    let p = view_tmp_path(theme_path, stem);
    let a = theme_path + TMP_VIEWS_DIR@;
    let b = stem + HTML_SUFFIX@;
    let ext = seq!['h', 't', 'm', 'l'];
    assert(p =~= a + seq!['/'] + b);
    assert(p.take(theme_path.len() as int) =~= theme_path);
    assert(p[theme_path.len() as int] == '/');
    assert(relative_ok(p, theme_path));
    // the file name of the rewritten view
    assert(!b.contains('/')) by {
        if b.contains('/') {
            let i = choose|i: int| 0 <= i < b.len() && b[i] == '/';
            if i < stem.len() {
                assert(stem[i] == '/');
            }
        }
    }
    lemma_split_char_concat(a, b, '/');
    lemma_split_char_absent(b, '/');
    let pred = |c: Seq<char>| c.len() > 0 && c != seq!['.'];
    Seq::filter_distributes_over_add(split_char(a, '/'), seq![b], pred);
    assert(pred(b)) by {
        assert(b.len() > 1);
        if b == seq!['.'] {
            assert(b.len() == 1);
        }
    }
    reveal_with_fuel(Seq::<_>::filter, 2);
    assert(seq![b].drop_last() =~= Seq::<Seq<char>>::empty());
    assert(seq![b].filter(pred) =~= seq![b]);
    let comps = path_components(p);
    assert(comps == split_char(a, '/').filter(pred) + seq![b]);
    assert(comps.last() == b);
    assert(b != seq!['.', '.']) by {
        assert(b.len() == stem.len() + 5);
        if b == seq!['.', '.'] {
            assert(b.len() == 2);
        }
    }
    assert(path_file_name(p) == Some(b));
    // its extension is `html` and it is not hidden
    assert(b =~= stem + seq!['.'] + ext);
    assert(!ext.contains('.')) by {
        if ext.contains('.') {
            let i = choose|i: int| 0 <= i < ext.len() && ext[i] == '.';
            assert(0 <= i < 4);
        }
    }
    lemma_last_index_after(stem, ext, '.');
    assert(b.skip(stem.len() as int + 1) =~= ext);
    assert(path_extension(p) == Some(ext));
    assert(ext =~= "html"@);
    assert(b[0] == stem[0]);
    assert(!is_hidden_name(b));
    // its path below the theme is the load name, not under `views/`
    let rel = p.skip(theme_path.len() as int + 1);
    assert(rel =~= view_tera_path(theme_path, stem));
    assert(rel[0] == '_');
    if VIEWS_PREFIX@.len() <= rel.len() && rel.take(VIEWS_PREFIX@.len() as int) == VIEWS_PREFIX@ {
        assert(rel.take(VIEWS_PREFIX@.len() as int)[0] == 'v');
    }
    assert(!skipped_template(p, rel));
}

/// A view file's stem is that of a visible file: the renderer loads the view
/// file's rewritten template under the name `load_view` gives the view.
pub proof fn lemma_view_file_template_name(theme_path: Seq<char>, path: Seq<char>)
    requires
        path_file_name(path) matches Some(name) && !is_hidden_name(name),
        path_extension(path) matches Some(ext) && is_html_extension(ext),
    ensures
        template_name_of(view_tmp_path(theme_path, path_file_stem(path).unwrap()), theme_path)
            == Some(Some(view_tera_path(theme_path, path_file_stem(path).unwrap()))),
{
    let name = path_file_name(path).unwrap();
    let comps = path_components(path);
    let pred = |c: Seq<char>| c.len() > 0 && c != seq!['.'];
    broadcast use vstd::seq_lib::group_filter_ensures;

    assert(comps.len() > 0);
    assert(comps.contains(comps[comps.len() - 1]));
    assert(comps == split_char(path, '/').filter(pred));
    split_char(path, '/').lemma_filter_contains_rev(pred, name);
    assert(split_char(path, '/').contains(name));
    lemma_split_char_pieces(path, '/');
    let k = choose|k: int| 0 <= k < split_char(path, '/').len() && split_char(path, '/')[k] == name;
    assert(!name.contains('/'));
    assert(name.len() > 0);
    lemma_last_index_of(name, '.');
    let i = last_index_of(name, '.').unwrap();
    assert(i > 0);
    let stem = name.take(i);
    assert(path_file_stem(path) == Some(stem));
    assert(stem[0] == name[0]);
    assert(!stem.contains('/')) by {
        if stem.contains('/') {
            let j = choose|j: int| 0 <= j < stem.len() && stem[j] == '/';
            assert(name[j] == '/');
        }
    }
    lemma_rewritten_view_template_name(theme_path, stem);
}

} // verus!
