use flyingv::generator::{get_url, loop_pages, plan_site, Page};
use flyingv::glob::{glob_is_match, glob_match, glob_matcher_valid};
use flyingv::parser::view;
use flyingv::strmap::StrMap;
use flyingv::views::load_view;

fn page_at(key: &str) -> (String, Page) {
    let page = Page { fm: StrMap::new(), content: String::new(), url: String::new(), timestamp: None };
    (key.to_string(), page)
}

fn huge_literal() -> String {
    "a".repeat(2_000_000)
}

#[test]
fn glob_match_answers_where_a_matcher_builds() {
    assert_eq!(glob_match("blog/*", "blog/a.md"), Some(true));
    assert_eq!(glob_match("blog/*", "about.md"), Some(false));
    assert_eq!(glob_match("*.{md,html}", "x.html"), Some(true));
    assert_eq!(glob_match("[", "["), None);
    assert!(glob_is_match("**/*.md", "a/b/c.md"));
    assert!(!glob_is_match("**/*.md", "a/b/c.html"));
}

#[test]
fn glob_matcher_of_huge_glob_is_refused() {
    let huge = huge_literal();
    assert!(globset::Glob::new(&huge).is_ok());
    assert!(!glob_matcher_valid(&huge));
    assert_eq!(glob_match(&huge, "a"), None);
    assert!(glob_matcher_valid("blog/**"));
    assert!(!glob_matcher_valid("["));
}

#[test]
fn view_with_huge_target_is_not_loaded() {
    let contents = format!("\"{}\"\n<p/>", huge_literal());
    assert!(load_view("theme", "theme/views/x.html", contents).is_none());
}

#[test]
fn site_plan_refuses_huge_loop_glob() {
    let pages = vec![page_at("about.md")];
    let source = format!("\"about.md\"\n{{% for p in \"{}\" %}}{{% endfor %}}", huge_literal());
    let about = view(source).ok().unwrap();
    let views = vec![("about.html".to_string(), about)];
    assert!(plan_site(&pages, &views).is_none());
    assert_eq!(loop_pages("about.*", &pages), vec![0]);
}

#[test]
fn nested_page_urls_keep_their_directories() {
    assert_eq!(get_url("a/b/index.md"), "/a/b/index");
    assert_eq!(get_url("notes/2018/x.md"), "/notes/2018/x");
}
