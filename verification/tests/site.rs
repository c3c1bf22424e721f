use flyingv::generator::{
    content_entry, get_url, loop_pages, make_page, plan_site, relocated_path, ContentEntry, Page,
};
use flyingv::io::page_file_path;
use flyingv::parser::view;
use flyingv::server::{requested_path, respond, serve_path, RequestTarget, RequestUri, Response};
use flyingv::strmap::StrMap;
use flyingv::utils::{is_hidden_file, is_html_file, is_markdown_file, is_valid_file_format};
use flyingv::views::{get_path, get_tmp_path, is_view_file, load_view, template_name};
use flyingv::watcher::{changed_path, on_content_change, WatchEvent};

fn dated(key: &str, ts: Option<i64>) -> (String, Page) {
    (
        key.to_string(),
        Page { fm: StrMap::new(), content: String::new(), url: String::new(), timestamp: ts },
    )
}

#[test]
fn file_kinds() {
    assert!(is_hidden_file("content/.draft.md"));
    assert!(!is_hidden_file("content/.git/post.md"));
    assert!(is_valid_file_format("a/b.md"));
    assert!(is_valid_file_format("a/b.markdown"));
    assert!(is_valid_file_format("a/b.html"));
    assert!(!is_valid_file_format("a/b.txt"));
    assert!(!is_valid_file_format("a/b"));
    assert!(!is_valid_file_format("a/.md"));
    assert!(is_markdown_file("b.md"));
    assert!(is_markdown_file("b.markdown"));
    assert!(!is_markdown_file("b.html"));
    assert!(is_html_file("x/y.html"));
    assert!(!is_html_file("x/y.htm"));
}

#[test]
fn urls() {
    assert_eq!(get_url("blog/post.md"), "/blog/post");
    assert_eq!(get_url("index.md"), "/");
    assert_eq!(get_url("about.html"), "/about");
    assert_eq!(get_url("blog/index.md"), "/blog/index");
    assert_eq!(get_url("a/b/c.markdown"), "/a/b/c");
}

#[test]
fn content_entries() {
    match content_entry("content/blog/post.md", "content") {
        Some(ContentEntry::Page { key, markdown }) => {
            assert_eq!(key, "blog/post.md");
            assert!(markdown);
        }
        _ => panic!("expected a page"),
    }
    match content_entry("content/about.html", "content") {
        Some(ContentEntry::Page { key, markdown }) => {
            assert_eq!(key, "about.html");
            assert!(!markdown);
        }
        _ => panic!("expected a page"),
    }
    assert!(matches!(content_entry("content/.hidden.md", "content"), Some(ContentEntry::Skip)));
    assert!(matches!(content_entry("content/img.png", "content"), Some(ContentEntry::Skip)));
    assert!(matches!(content_entry("content", "content"), Some(ContentEntry::Skip)));
    assert!(content_entry("..", "..").is_none());
}

#[test]
fn pages_from_sources() {
    match make_page("blog/post.md", "title: T\ndatetime: 2018-01-02 03:04:05\n\n*x*".to_string(), true, "+0000") {
        Some(Ok(p)) => {
            assert_eq!(p.url, "/blog/post");
            assert_eq!(p.timestamp, Some(1514862245));
            assert_eq!(p.content, "<p><em>x</em></p>\n");
            assert_eq!(p.fm.get("title").map(|s| s.as_str()), Some("T"));
        }
        _ => panic!("expected a page"),
    }
    assert!(matches!(make_page("a.md", "no frontmatter".to_string(), true, "+0000"), Some(Err(_))));
}

#[test]
fn loop_pages_newest_first_undated_last() {
    let pages = vec![
        dated("blog/a.md", Some(10)),
        dated("blog/b.md", Some(20)),
        dated("blog/c.md", None),
        dated("about.md", None),
        dated("blog/d.md", Some(10)),
        dated("blog/e.md", Some(15)),
    ];
    assert_eq!(loop_pages("blog/*", &pages), vec![1, 5, 0, 4, 2]);
    assert_eq!(loop_pages("nothing/*", &pages), Vec::<usize>::new());
}

#[test]
fn site_plan_pairs_views_with_pages() {
    let pages = vec![
        dated("blog/a.md", Some(10)),
        dated("blog/b.md", Some(20)),
        dated("about.md", None),
    ];
    let post = view("\"blog/*\"\n<article/>".to_string()).ok().unwrap();
    let about = view("\"about.md\"\n{% for p in \"blog/*\" %}{% endfor %}".to_string()).ok().unwrap();
    let views = vec![("post.html".to_string(), post), ("about.html".to_string(), about)];
    let jobs = plan_site(&pages, &views).unwrap();
    let pairs: Vec<(usize, usize)> = jobs.iter().map(|j| (j.view, j.page)).collect();
    assert_eq!(pairs, vec![(0, 0), (0, 1), (1, 2)]);
    assert!(jobs[0].loops.is_empty());
    assert_eq!(jobs[2].loops.len(), 1);
    assert_eq!(jobs[2].loops[0].id, "__CUSTOM_LOOP_0__");
    assert_eq!(jobs[2].loops[0].pages, vec![1, 0]);
}

#[test]
fn site_plan_refuses_bad_loop_glob() {
    let pages = vec![dated("about.md", None)];
    let about = view("\"about.md\"\n{% for p in \"[\" %}{% endfor %}".to_string()).ok().unwrap();
    let views = vec![("about.html".to_string(), about)];
    assert!(plan_site(&pages, &views).is_none());
    let unused = vec![dated("other.md", None)];
    assert!(plan_site(&unused, &views).unwrap().is_empty());
}

#[test]
fn built_files_move_to_build_dir() {
    assert_eq!(relocated_path("/tmp/site/blog/index.html", "/tmp/site", "build"), "build/blog/index.html");
    assert_eq!(relocated_path("/other/x", "/tmp/site", "build"), "/other/x");
}

#[test]
fn page_files() {
    assert_eq!(page_file_path("/tmp/b", "/"), ("/tmp/b/".to_string(), "/tmp/b/index.html".to_string()));
    assert_eq!(
        page_file_path("/tmp/b", "/blog/post"),
        ("/tmp/b/blog/post".to_string(), "/tmp/b/blog/post/index.html".to_string())
    );
}

#[test]
fn theme_paths() {
    assert_eq!(get_path("theme"), "theme/views");
    assert_eq!(get_tmp_path("theme"), "theme/__tmp__");
    assert_eq!(template_name("theme/base.html", "theme"), Some(Some("base.html".to_string())));
    assert_eq!(template_name("theme/partials/nav.html", "theme"), Some(Some("partials/nav.html".to_string())));
    assert_eq!(template_name("theme/views/post.html", "theme"), Some(None));
    assert_eq!(template_name("theme/.hidden.html", "theme"), Some(None));
    assert_eq!(template_name("theme/style.css", "theme"), Some(None));
    assert_eq!(template_name("theme", "theme"), None);
    assert_eq!(is_view_file("theme/views/post.html"), Some(true));
    assert_eq!(is_view_file("theme/views/.post.html"), Some(false));
    assert_eq!(is_view_file("theme/views/notes.txt"), Some(false));
    assert_eq!(is_view_file(".."), None);
}

#[test]
fn view_files_load() {
    let e = load_view("theme", "theme/views/post.html", "\"blog/*\"\n<p/>".to_string()).unwrap();
    assert_eq!(e.tera_path, "__tmp__/post.html");
    assert_eq!(e.tmp_path, "theme/__tmp__/post.html");
    assert_eq!(e.view.target(), "blog/*");
    assert_eq!(e.view.html(), "<p/>");
    assert!(load_view("theme", "theme/views/post.html", "no target".to_string()).is_none());
    assert!(load_view("theme", "theme/views/post.html", "\"[\"\n<p/>".to_string()).is_none());
}

#[test]
fn server_decisions() {
    match requested_path("build", RequestUri::AbsolutePath("/blog/post".to_string())) {
        Some(RequestTarget::Path(p)) => assert_eq!(p, "build/blog/post"),
        _ => panic!("expected a path"),
    }
    assert!(matches!(requested_path("build", RequestUri::Other), Some(RequestTarget::BadRequest)));
    assert!(requested_path("build", RequestUri::AbsolutePath(String::new())).is_none());
    assert_eq!(serve_path("build/blog", false), "build/blog/index.html");
    assert_eq!(serve_path("build/a.css", true), "build/a.css");
    assert!(matches!(respond("x".to_string(), true), Response::File(ref p) if p == "x"));
    assert!(matches!(respond("x".to_string(), false), Response::NotFound));
}

#[test]
fn watch_events() {
    assert_eq!(changed_path(WatchEvent::Write("a".to_string())), Some("a".to_string()));
    assert_eq!(changed_path(WatchEvent::Rename("a".to_string(), "b".to_string())), Some("b".to_string()));
    assert_eq!(changed_path(WatchEvent::Chmod("c".to_string())), Some("c".to_string()));
    assert_eq!(changed_path(WatchEvent::Create("d".to_string())), Some("d".to_string()));
    assert_eq!(changed_path(WatchEvent::Remove("e".to_string())), Some("e".to_string()));
    assert_eq!(changed_path(WatchEvent::Other), None);
    on_content_change("a".to_string());
}
