use mdox::local::{extract_links, extract_title, fallback_title, link_is_external, resolve_link};
use mdox::markdown::{destinations_from_events, title_from_events, HeadingRule, MarkdownEvent};
use mdox::paths::{base_directory_of, is_markdown_path, resolve_relative_path};
use mdox::remote::{
    extract_remote_links, extract_title_from_content, fallback_title_from_url, link_is_followed,
    resolve_remote_link, resolve_url,
};

fn text(s: &str) -> MarkdownEvent<String> {
    MarkdownEvent::Text(s.to_string())
}

#[test]
fn title_is_the_trimmed_text_of_the_first_heading() {
    let events = vec![
        MarkdownEvent::Other,
        MarkdownEvent::HeadingStart(2),
        text("  Get"),
        MarkdownEvent::Other,
        text("ting started "),
        MarkdownEvent::HeadingEnd,
        MarkdownEvent::HeadingStart(1),
        text("Later"),
        MarkdownEvent::HeadingEnd,
    ];
    assert_eq!(title_from_events(&events, HeadingRule::AnyLevel), Some("Getting started".to_string()));
    assert_eq!(title_from_events(&events, HeadingRule::TopLevel), Some("Later".to_string()));
}

#[test]
fn a_heading_without_text_gives_no_title() {
    let events = vec![MarkdownEvent::HeadingStart(1), text("   "), MarkdownEvent::HeadingEnd];
    assert_eq!(title_from_events(&events, HeadingRule::AnyLevel), None);
    let none: Vec<MarkdownEvent<String>> = vec![text("no heading here")];
    assert_eq!(title_from_events(&none, HeadingRule::AnyLevel), None);
    assert_eq!(title_from_events(&Vec::new(), HeadingRule::TopLevel), None);
}

#[test]
fn text_outside_the_heading_is_not_part_of_the_title() {
    let events = vec![
        text("before"),
        MarkdownEvent::HeadingStart(1),
        text("Title"),
        MarkdownEvent::HeadingEnd,
        text("after"),
    ];
    assert_eq!(title_from_events(&events, HeadingRule::TopLevel), Some("Title".to_string()));
}

#[test]
fn destinations_come_in_document_order() {
    let events = vec![
        MarkdownEvent::LinkStart("b.md".to_string()),
        text("b"),
        MarkdownEvent::Other,
        MarkdownEvent::LinkStart("a.md".to_string()),
        MarkdownEvent::LinkStart("b.md".to_string()),
    ];
    assert_eq!(destinations_from_events(&events), vec!["b.md", "a.md", "b.md"]);
    assert_eq!(destinations_from_events(&Vec::new()), Vec::<String>::new());
}

#[test]
fn local_title_comes_from_the_first_heading_of_any_level() {
    assert_eq!(extract_title("intro\n\n## Beta *two*\n\n# Alpha\n"), Some("Beta two".to_string()));
    assert_eq!(extract_title("# Beta\n"), Some("Beta".to_string()));
    assert_eq!(extract_title("just text\n"), None);
    assert_eq!(extract_title(""), None);
}

#[test]
fn remote_title_comes_from_the_first_top_level_heading() {
    assert_eq!(
        extract_title_from_content("## Sub\n\n# Top\n\n# Second\n"),
        Some("Top".to_string())
    );
    assert_eq!(extract_title_from_content("## Only sub\n"), None);
}

#[test]
fn a_heading_inside_a_code_block_is_no_heading() {
    assert_eq!(extract_title("```\n# not a heading\n```\n"), None);
}

#[test]
fn external_links_are_told_by_their_scheme() {
    assert!(link_is_external("http://example.com/a.md"));
    assert!(link_is_external("https://example.com"));
    assert!(!link_is_external("ftp://example.com/a.md"));
    assert!(!link_is_external("docs/https://x"));
    assert!(!link_is_external(""));
}

#[test]
fn local_links_drop_external_anchor_and_empty_links() {
    assert_eq!(resolve_link("https://example.com/a.md", "/docs"), None);
    assert_eq!(resolve_link("http://example.com/a.md", "/docs"), None);
    assert_eq!(resolve_link("#section", "/docs"), None);
    assert_eq!(resolve_link("", "/docs"), None);
}

#[test]
fn local_links_lose_their_fragment_and_join_the_directory() {
    let expected = std::path::Path::new("/docs").join("B.md").to_string_lossy().into_owned();
    assert_eq!(resolve_link("B.md#part", "/docs"), Some(expected.clone()));
    assert_eq!(resolve_link("B.md", "/docs"), Some(expected));
    let nested = std::path::Path::new("/docs").join("sub/C.md").to_string_lossy().into_owned();
    assert_eq!(resolve_link("sub/C.md", "/docs"), Some(nested));
}

#[test]
fn local_links_of_a_document_are_extracted_in_order() {
    let content = "[b](B.md) and [site](https://example.com/x.md)\n\n[n](notes.txt) [top](#top) [again](B.md#x)\n";
    let join = |name: &str| std::path::Path::new("/docs").join(name).to_string_lossy().into_owned();
    assert_eq!(
        extract_links(content, &join("A.md")),
        vec![join("B.md"), join("notes.txt"), join("B.md")]
    );
}

#[test]
fn links_in_code_are_ignored() {
    let content = "```\n[b](B.md)\n```\n\n`[c](C.md)` \\[d](D.md)\n";
    assert_eq!(extract_links(content, "/docs/A.md"), Vec::<String>::new());
    assert_eq!(extract_remote_links(content, "https://h/A.md"), Vec::<String>::new());
}

#[test]
fn the_base_directory_is_the_parent_or_the_current_directory() {
    let expected = std::path::Path::new("/docs/A.md").parent().unwrap().to_string_lossy().into_owned();
    assert_eq!(base_directory_of("/docs/A.md"), expected);
    assert_eq!(base_directory_of("A.md"), "");
    assert_eq!(base_directory_of(""), ".");
}

#[test]
fn markdown_paths_are_told_by_their_extension() {
    assert!(is_markdown_path("/docs/B.md"));
    assert!(is_markdown_path("/docs/B.markdown"));
    assert!(!is_markdown_path("/docs/notes.txt"));
    assert!(!is_markdown_path("/docs/B.MD"));
    assert!(!is_markdown_path("/docs/md"));
    assert!(!is_markdown_path("/docs/.md"));
    assert!(!is_markdown_path("/docs.md/readme"));
}

#[test]
fn local_fallback_title_is_the_file_name() {
    assert_eq!(fallback_title("/docs/B.md"), "B.md");
    assert_eq!(fallback_title("B.md"), "B.md");
    assert_eq!(fallback_title("/"), "Untitled");
    assert_eq!(fallback_title(""), "Untitled");
}

#[test]
fn relative_paths_resolve_against_the_directory_of_the_base() {
    let expected = std::path::Path::new("/docs").join("img/a.png").to_string_lossy().into_owned();
    assert_eq!(resolve_relative_path("/docs/A.md", "img/a.png"), Ok(expected));
    assert_eq!(
        resolve_relative_path("", "a.png"),
        Err("Failed to get base directory".to_string())
    );
    assert_eq!(
        resolve_relative_path("/", "a.png"),
        Err("Failed to get base directory".to_string())
    );
}

#[test]
fn absolute_links_resolve_to_themselves() {
    assert_eq!(
        resolve_url("https://h/a/b.md", "http://other/c.md"),
        Some("http://other/c.md".to_string())
    );
    assert_eq!(resolve_url("not a url", "https://other/c.md"), Some("https://other/c.md".to_string()));
}

#[test]
fn relative_links_resolve_against_the_base_url() {
    assert_eq!(resolve_url("https://h/a/b.md", "c.md"), Some("https://h/a/c.md".to_string()));
    assert_eq!(resolve_url("https://h/a/b.md", "../c.md"), Some("https://h/c.md".to_string()));
    assert_eq!(resolve_url("https://h/a/b/", "c.md"), Some("https://h/a/b/c.md".to_string()));
    assert_eq!(resolve_url("https://h/a/b.md", "/root.md"), Some("https://h/root.md".to_string()));
    assert_eq!(resolve_url("not a url", "c.md"), None);
}

#[test]
fn remote_links_are_followed_by_extension_or_for_want_of_one() {
    assert!(link_is_followed("guide.md"));
    assert!(link_is_followed("https://h/guide.markdown"));
    assert!(link_is_followed("guide"));
    assert!(link_is_followed("../guide"));
    assert!(link_is_followed("v1.2/guide"));
    assert!(!link_is_followed("https://h/guide"));
    assert!(!link_is_followed("logo.png"));
    assert!(!link_is_followed("https://h/page.html"));
}

#[test]
fn remote_links_lose_their_fragment_before_they_are_resolved() {
    assert_eq!(
        resolve_remote_link("guide.md#install", "https://h/docs/index.md"),
        Some("https://h/docs/guide.md".to_string())
    );
    assert_eq!(resolve_remote_link("#install", "https://h/docs/index.md"), None);
    assert_eq!(resolve_remote_link("", "https://h/docs/index.md"), None);
    assert_eq!(resolve_remote_link("logo.png", "https://h/docs/index.md"), None);
    assert_eq!(resolve_remote_link("guide.md", "no base"), None);
}

#[test]
fn remote_links_of_a_document_are_extracted_in_order() {
    let content = "[a](a.md) [ext](https://other/x.md) [img](pic.png) [b](sub/b#frag) [top](#top)\n";
    assert_eq!(
        extract_remote_links(content, "https://h/docs/index.md"),
        vec!["https://h/docs/a.md", "https://other/x.md", "https://h/docs/sub/b"]
    );
}

#[test]
fn remote_fallback_title_is_the_last_segment_of_the_url() {
    assert_eq!(fallback_title_from_url("https://h/docs/a.md"), "a.md");
    assert_eq!(fallback_title_from_url("https://h/docs/"), "");
    assert_eq!(fallback_title_from_url("plain"), "plain");
}

#[test]
fn the_extension_is_what_follows_the_last_dot_of_the_file_name() {
    let by_rule = |name: &str| match name.rfind('.') {
        None | Some(0) => None,
        Some(dot) => Some(name[dot + 1..].to_string()),
    };
    for name in ["a.md", ".md", "a.", "a.b.c", "noext", "a..", "...", ".a.b", "a.markdown", "\u{e9}.md"] {
        let by_std = std::path::Path::new(name)
            .extension()
            .map(|extension| extension.to_string_lossy().into_owned());
        assert_eq!(by_std, by_rule(name), "{name:?}");
        let expected = matches!(by_rule(name).as_deref(), Some("md") | Some("markdown"));
        assert_eq!(is_markdown_path(name), expected, "{name:?}");
        let nested = std::path::Path::new("/docs").join(name).to_string_lossy().into_owned();
        assert_eq!(is_markdown_path(&nested), expected, "{nested:?}");
    }
    assert!(!is_markdown_path("/docs/.."));
    assert!(!is_markdown_path(""));
}
