use flyingv::generator::{get_url, relocated_path};
use flyingv::io::page_file_path;
use flyingv::server::serve_path;
use flyingv::server::{requested_path, RequestTarget, RequestUri};
use flyingv::utils::{is_hidden_file, is_markdown_file, is_valid_file_format};
use flyingv::views::{is_view_file, load_view, template_name};

fn looked_up(build: &str, path: &str) -> String {
    match requested_path(build, RequestUri::AbsolutePath(path.to_string())) {
        Some(RequestTarget::Path(p)) => p,
        _ => panic!("expected a path"),
    }
}

#[test]
fn stems_and_extensions_split_at_last_dot() {
    assert_eq!(get_url("x/a.tar.gz"), "/x/a.tar");
    assert_eq!(get_url(".profile"), "/.profile");
    assert!(is_valid_file_format("notes.tar.md"));
    assert!(is_markdown_file("a.b.markdown"));
    assert!(!is_valid_file_format(".md"));
    assert!(!is_valid_file_format("a.md/.."));
}

#[test]
fn joins_follow_path_push() {
    assert_eq!(looked_up("build", "/"), "build/");
    assert_eq!(looked_up("build/", "/x"), "build/x");
    assert_eq!(looked_up("build", "//etc"), "/etc");
    assert_eq!(looked_up("", "/a"), "a");
}

#[test]
fn view_name_does_not_depend_on_theme_place() {
    let a = load_view("t", "t/views/a.b.html", "\"x\"\n".to_string()).unwrap();
    let b = load_view("/srv/themes/dark", "/srv/themes/dark/views/a.b.html", "\"x\"\n".to_string()).unwrap();
    assert_eq!(a.tera_path, "__tmp__/a.b.html");
    assert_eq!(b.tera_path, "__tmp__/a.b.html");
    assert_eq!(b.tmp_path, "/srv/themes/dark/__tmp__/a.b.html");
}

#[test]
fn file_names_follow_path_components() {
    assert!(is_hidden_file("a/.b/"));
    assert!(is_hidden_file("./.x"));
    assert!(is_hidden_file("..."));
    assert!(!is_hidden_file("a/.//b"));
    assert!(is_valid_file_format("foo.md/."));
    assert!(is_valid_file_format("foo.md//"));
    assert_eq!(is_view_file("."), None);
    assert_eq!(is_view_file("/"), None);
    assert_eq!(is_view_file(""), None);
    assert_eq!(is_view_file("x/.."), None);
    assert_eq!(is_view_file("v/x.html/."), Some(true));
}

#[test]
fn written_page_is_the_served_page() {
    for url in ["/", "/about", "/blog/post"].iter() {
        let (_, written) = page_file_path("/tmp/flyingv_site1", url);
        let moved = relocated_path(&written, "/tmp/flyingv_site1", "build");
        let served = serve_path(&looked_up("build", url), false);
        assert_eq!(moved, served);
    }
}

#[test]
fn rewritten_view_loads_under_its_name() {
    let e = load_view("theme", "theme/views/post.html", "\"blog/*\"\n<p/>".to_string()).unwrap();
    assert_eq!(template_name(&e.tmp_path, "theme"), Some(Some(e.tera_path.clone())));
}
