//! What the preview server answers to a request: the decisions of its
//! handler, between the file system's answers.

use vstd::prelude::*;
use crate::outside::{join_paths, path_join};
use crate::io::{page_file, INDEX_FILE};
use crate::text::{
    chars_of, copy_range, lemma_replace_absent, lemma_replace_prefix, occurs_at, replace_all,
    string_of,
};

verus! {

/// The body of the answer to a request whose target is not a path.
pub const BAD_REQUEST_BODY: &'static str = "<h1>400: Bad request</h1>";

/// The body of the answer to a request for a missing page.
pub const NOT_FOUND_BODY: &'static str = "<h1>404: Page not found</h1>";

/// The file served for a directory.
pub const DIRECTORY_INDEX: &'static str = "index.html";

/// The target of a request.
pub enum RequestUri {
    /// A path such as `/blog/post`.
    AbsolutePath(String),
    /// Any other form of target.
    Other,
}

/// The first step of answering a request.
pub enum RequestTarget {
    /// Answer 400.
    BadRequest,
    /// Look up this path in the build directory.
    Path(String),
}

/// The answer to a request.
pub enum Response {
    /// 400, with `BAD_REQUEST_BODY`.
    BadRequest,
    /// 200, with the contents of this file.
    File(String),
    /// 404, with `NOT_FOUND_BODY`.
    NotFound,
}

/// The path that a request for `uri` looks up in the build directory
/// `build_path`: the request path without its first character, joined to
/// the build directory; a target that is not a path is a bad request.
/// `None` where the request path is empty or starts with a multi-byte
/// character, so that its first byte cannot be cut off.
pub fn requested_path(build_path: &str, uri: RequestUri) -> (r: Option<RequestTarget>)
    ensures
        uri is Other ==> r == Some(RequestTarget::BadRequest),
        uri matches RequestUri::AbsolutePath(p) ==> {
            if p@.len() > 0 && (p@[0] as u32) < 128 {
                r matches Some(RequestTarget::Path(q)) && q@ == path_join(build_path@, p@.skip(1))
            } else {
                r is None
            }
        },
{
    match uri {
        RequestUri::AbsolutePath(p) => {
            let c = chars_of(p.as_str());
            if c.len() > 0 && (c[0] as u32) < 128 {
                let n = c.len();
                let rest = string_of(&copy_range(&c, 1, n));
                Some(RequestTarget::Path(join_paths(build_path, rest.as_str())))
            } else {
                None
            }
        },
        RequestUri::Other => Some(RequestTarget::BadRequest),
    }
}

/// The file served for the looked-up path `path`: the path itself where it
/// is a file, else the `index.html` in it.
pub fn serve_path(path: &str, is_file: bool) -> (r: String)
    ensures
        is_file ==> r@ == path@,
        !is_file ==> r@ == path_join(path@, DIRECTORY_INDEX@),
{
    if is_file {
        string_of(&chars_of(path))
    } else {
        join_paths(path, DIRECTORY_INDEX)
    }
}

/// The answer for the served path `path`: its contents where it exists,
/// else 404.
pub fn respond(path: String, exists: bool) -> (r: Response)
    ensures
        exists ==> r == Response::File(path),
        !exists ==> r == Response::NotFound,
{
    if exists {
        Response::File(path)
    } else {
        Response::NotFound
    }
}

/// The file written for a page is the file served for its URL: a page with
/// URL `url` written under the temporary build directory `tmp_path`, moved
/// to the build directory `build_path`, lands where a request for `url`
/// (served from the directory made for the page) finds it. The URL is `/` or
/// a path that starts with a single `/` and does not end with one, the build
/// directory does not end with a separator, and the temporary directory's
/// path does not occur in the URL part of the written file's path.
pub proof fn lemma_written_page_is_served(tmp_path: Seq<char>, build_path: Seq<char>, url: Seq<char>)
    requires
        tmp_path.len() > 0,
        build_path.len() > 0,
        build_path.last() != '/',
        url.len() > 0,
        url[0] == '/',
        url == seq!['/'] || (url.len() > 1 && url[1] != '/' && url.last() != '/'),
        forall|i: int| !occurs_at(page_file(tmp_path, url).skip(tmp_path.len() as int), tmp_path, i),
    ensures
        replace_all(page_file(tmp_path, url), tmp_path, build_path) == path_join(
            path_join(build_path, url.skip(1)),
            DIRECTORY_INDEX@,
        ),
{
    reveal_strlit("index.html");
    let written = page_file(tmp_path, url);
    let rest = written.skip(tmp_path.len() as int);
    assert(written =~= tmp_path + rest);
    lemma_replace_prefix(tmp_path, rest, build_path);
    lemma_replace_absent(rest, tmp_path, build_path);
    assert(DIRECTORY_INDEX@ == INDEX_FILE@);
    if url == seq!['/'] {
        assert(url.skip(1) =~= Seq::<char>::empty());
        assert(path_join(build_path, url.skip(1)) =~= build_path + seq!['/']);
        assert(rest =~= url + INDEX_FILE@);
        assert(build_path + rest =~= build_path + seq!['/'] + DIRECTORY_INDEX@);
    } else {
        assert(path_join(build_path, url.skip(1)) =~= build_path + url);
        assert(rest =~= url + seq!['/'] + INDEX_FILE@);
        let dir = build_path + url;
        assert(dir.last() == url.last());
        assert(build_path + rest =~= dir + seq!['/'] + DIRECTORY_INDEX@);
    }
}

} // verus!
