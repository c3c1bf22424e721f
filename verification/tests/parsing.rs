use flyingv::parser::{
    extract_custom_loops, needs_utc_offset, page, parse_frontmatter, parse_target,
    separate_frontmatter, separate_target, target_glob, view, ParseError,
};

#[test]
fn frontmatter_entries_are_trimmed_and_dated() {
    let parsed = parse_frontmatter("title: Hello world \n datetime: x\ndatetime: 2018-01-02 03:04:05\nurl: http://a:b", "+0000");
    assert_eq!(parsed.fm.get("title").map(|s| s.as_str()), Some("Hello world"));
    assert_eq!(parsed.fm.get("datetime").map(|s| s.as_str()), Some("2018-01-02 03:04:05"));
    assert_eq!(parsed.fm.get("url").map(|s| s.as_str()), Some("http://a:b"));
    assert_eq!(parsed.fm.len(), 3);
    assert_eq!(parsed.timestamp, Some(1514862245));
}

#[test]
fn frontmatter_date_uses_the_offset() {
    let parsed = parse_frontmatter("datetime: 2018-01-02 03:04:05", "+0100");
    assert_eq!(parsed.timestamp, Some(1514862245 - 3600));
}

#[test]
fn unreadable_date_leaves_page_undated() {
    let parsed = parse_frontmatter("datetime: yesterday", "+0000");
    assert_eq!(parsed.timestamp, None);
    assert_eq!(parsed.fm.get("datetime").map(|s| s.as_str()), Some("yesterday"));
}

#[test]
fn line_without_colon_is_a_key_with_empty_value() {
    let parsed = parse_frontmatter("draft\n", "+0000");
    assert_eq!(parsed.fm.get("draft").map(|s| s.as_str()), Some(""));
}

#[test]
fn page_splits_at_first_blank_line() {
    match separate_frontmatter("title: A\n\nBody\n\nMore", "+0000") {
        Ok((fm, content)) => {
            assert_eq!(fm.fm.get("title").map(|s| s.as_str()), Some("A"));
            assert_eq!(content, "\n\nBody\n\nMore");
        }
        Err(_) => panic!("expected a page"),
    }
}

#[test]
fn page_without_blank_line_has_no_frontmatter() {
    assert!(matches!(separate_frontmatter("title: A\nBody", "+0000"), Err(ParseError::MissingFrontmatter)));
    assert!(matches!(separate_frontmatter("\n\nBody", "+0000"), Err(ParseError::MissingFrontmatter)));
}

#[test]
fn markdown_page_is_rendered() {
    match page("title: A\n\n# Hi".to_string(), true, "+0000") {
        Ok((fm, ts, content)) => {
            assert_eq!(fm.get("title").map(|s| s.as_str()), Some("A"));
            assert_eq!(ts, None);
            assert_eq!(content, "<h1>Hi</h1>\n");
        }
        Err(_) => panic!("expected a page"),
    }
    match page("title: A\n\n# Hi".to_string(), false, "+0000") {
        Ok((_, _, content)) => assert_eq!(content, "\n\n# Hi"),
        Err(_) => panic!("expected a page"),
    }
    assert!(matches!(page("no frontmatter".to_string(), true, "+0000"), Err(ParseError::PageFailed)));
}

#[test]
fn view_splits_at_first_line_break() {
    match separate_target("{{ \"blog/*\" }}\n<p>\n</p>") {
        Ok((t, h)) => {
            assert_eq!(t, "{{ \"blog/*\" }}");
            assert_eq!(h, "<p>\n</p>");
        }
        Err(_) => panic!("expected a view"),
    }
    assert!(matches!(separate_target("no line break"), Err(ParseError::MissingFrontmatter)));
}

#[test]
fn target_is_the_quoted_glob() {
    assert_eq!(parse_target("{{ target \"blog/*.md\" }}").ok(), Some("blog/*.md".to_string()));
    assert_eq!(parse_target("blog/*").ok(), Some("blog/*".to_string()));
    assert_eq!(parse_target("\"a/**").ok(), Some("a/**".to_string()));
    assert!(matches!(parse_target("\"[\""), Err(ParseError::InvalidGlob)));
}

#[test]
fn custom_loops_are_named_in_order() {
    let (html, loops) = extract_custom_loops(
        "<ul>{% for post in \"blog/*\" %}{{ post.url }}{% endfor %}{% for p in \"news/*\" %}{% endfor %}</ul>",
    );
    assert_eq!(
        html,
        "<ul>{% for post in __CUSTOM_LOOP_0__ %}{{ post.url }}{% endfor %}{% for p in __CUSTOM_LOOP_1__ %}{% endfor %}</ul>"
    );
    assert_eq!(loops.get("blog/*").map(|s| s.as_str()), Some("__CUSTOM_LOOP_0__"));
    assert_eq!(loops.get("news/*").map(|s| s.as_str()), Some("__CUSTOM_LOOP_1__"));
    assert_eq!(loops.len(), 2);
}

#[test]
fn template_without_loops_is_unchanged() {
    let (html, loops) = extract_custom_loops("{% for x in items %}{% endfor %}");
    assert_eq!(html, "{% for x in items %}{% endfor %}");
    assert!(loops.is_empty());
}

#[test]
fn repeated_loop_glob_keeps_last_name() {
    let (html, loops) = extract_custom_loops("{% for a in \"g\" %}{% for b in \"g\" %}");
    assert_eq!(html, "{% for a __CUSTOM_LOOP_0__ %}{% for b __CUSTOM_LOOP_1__ %}".replace("a __", "a in __").replace("b __", "b in __"));
    assert_eq!(loops.get("g").map(|s| s.as_str()), Some("__CUSTOM_LOOP_1__"));
    assert_eq!(loops.len(), 1);
}

#[test]
fn view_reads_target_and_template() {
    match view("\"blog/*\"\n{% for p in \"blog/*\" %}{% endfor %}".to_string()) {
        Ok(v) => {
            assert_eq!(v.target(), "blog/*");
            assert_eq!(v.html(), "{% for p in __CUSTOM_LOOP_0__ %}{% endfor %}");
            assert_eq!(v.custom_loops().get("blog/*").map(|s| s.as_str()), Some("__CUSTOM_LOOP_0__"));
        }
        Err(_) => panic!("expected a view"),
    }
    assert!(matches!(view("no line break".to_string()), Err(ParseError::ViewFailed)));
}

#[test]
fn utc_offset_is_needed_only_for_dated_pages() {
    assert!(needs_utc_offset("title: a\ndatetime: 2018-01-02 03:04:05\n\nbody"));
    assert!(!needs_utc_offset("title: a\n\nbody\ndatetime: x"));
    assert!(!needs_utc_offset("datetime: x"));
    assert!(!needs_utc_offset(" datetime: x\n\nbody"));
    let a = page("title: a\n\nbody".to_string(), false, "+0000").ok().unwrap();
    let b = page("title: a\n\nbody".to_string(), false, "").ok().unwrap();
    assert_eq!(a.1, b.1);
    assert_eq!(a.2, b.2);
    assert_eq!(a.0.get("title"), b.0.get("title"));
}

#[test]
fn target_glob_is_cut_between_quotes() {
    assert_eq!(target_glob("\"blog/*\" trailing"), "blog/*");
    assert_eq!(target_glob("x \"open"), "open");
    assert_eq!(target_glob("bare"), "bare");
}

#[test]
fn loop_tags_outnumber_loops() {
    let (_, loops) = extract_custom_loops("{% for a in \"g\" %}{% for b in \"h\" %}{% for c in \"g\" %}");
    assert_eq!(loops.len(), 2);
    assert_eq!(loops.get("g").map(|s| s.as_str()), Some("__CUSTOM_LOOP_2__"));
    assert_eq!(loops.get("h").map(|s| s.as_str()), Some("__CUSTOM_LOOP_1__"));
}
