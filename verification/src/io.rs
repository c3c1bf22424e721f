//! Where a rendered page is written.

use vstd::prelude::*;
use crate::text::{chars_of, push_all, same_chars, string_of};

verus! {

/// The file that a page's HTML is written to, inside its URL's directory.
pub const INDEX_FILE: &'static str = "index.html";

/// The file that the page with URL `url` is written to under the build
/// directory `build_path`.
pub open spec fn page_file(build_path: Seq<char>, url: Seq<char>) -> Seq<char> {
    if url == seq!['/'] {
        build_path + url + INDEX_FILE@
    } else {
        build_path + url + seq!['/'] + INDEX_FILE@
    }
}

/// The directory and the file that the page with URL `url` is written to
/// under the build directory `tmp_build_path`: the directory is the build
/// directory followed by the URL, the file `index.html` in it.
pub fn page_file_path(tmp_build_path: &str, url: &str) -> (r: (String, String))
    ensures
        r.0@ == tmp_build_path@ + url@,
        url@ == seq!['/'] ==> r.1@ == r.0@ + INDEX_FILE@,
        url@ != seq!['/'] ==> r.1@ == r.0@ + seq!['/'] + INDEX_FILE@,
        r.1@ == page_file(tmp_build_path@, url@),
        r.1@.len() >= INDEX_FILE@.len(),
        r.1@.skip(r.1@.len() - INDEX_FILE@.len()) == INDEX_FILE@,
{
    let mut dir = chars_of(tmp_build_path);
    let u = chars_of(url);
    push_all(&mut dir, &u);
    let mut file = chars_of(string_of(&dir).as_str());
    let root = vec!['/'];
    assert(root@ =~= seq!['/']);
    if !same_chars(&u, &root) {
        file.push('/');
    }
    let index = chars_of(INDEX_FILE);
    push_all(&mut file, &index);
    assert(file@.skip(file@.len() - INDEX_FILE@.len()) =~= INDEX_FILE@);
    (string_of(&dir), string_of(&file))
}

} // verus!
