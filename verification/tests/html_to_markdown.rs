use parse_message::html_to_markdown::frontmatter::serialize_yaml_string;
use parse_message::html_to_markdown::{convert, extract_title};

#[test]
fn serializes_frontmatter_values_as_quoted_yaml_strings() {
    let markdown = convert(
        "https://example.com/a:b#fragment",
        r#"<html><head><title>Mapping: #1 &quot;draft&quot; \ path</title></head><body>Content</body></html>"#,
        &["title", "source"],
    )
    .unwrap();

    assert_eq!(
        markdown,
        "---\ntitle: \"Mapping: #1 \\\"draft\\\" \\\\ path\"\nsource: \"https://example.com/a:b#fragment\"\n---\n\nContent"
    );
}

#[test]
fn escapes_line_breaks_in_frontmatter_values() {
    let markdown = convert(
        "https://example.com/first\nsecond\rthird\tfourth",
        "<html><body>Content</body></html>",
        &["source"],
    )
    .unwrap();

    assert_eq!(
        markdown,
        "---\nsource: \"https://example.com/first\\u000Asecond\\u000Dthird\\u0009fourth\"\n---\n\nContent"
    );
}

#[test]
fn extracts_title_without_rendering_the_body() {
    let title = extract_title(
        "https://example.com",
        "<html><head><title>Page Title</title></head><body><p>Content</p></body></html>",
    )
    .unwrap();

    assert_eq!(title, Some("Page Title".to_string()));
    assert_eq!(extract_title("https://example.com", "<p>No title</p>").unwrap(), None);
}

#[test]
fn converts_with_a_title_front_matter() {
    let url = "https://example.com";
    let html = "<h1>Title</h1><p>Content</p>";
    let keys = ["title"];
    let markdown = convert(url, html, &keys);
    assert!(markdown.is_ok());
    assert!(markdown.unwrap().contains("---\ntitle: \"Title\"\n---\n\n# Title\n\nContent"));
}

#[test]
fn converts_without_front_matter_when_no_keys_are_given() {
    let keys: Vec<&str> = vec![];
    let markdown = convert("https://example.com", "<h1>Title</h1><p>Content</p>", &keys).unwrap();
    assert_eq!(markdown, "# Title\n\nContent");
}

#[test]
fn title_falls_back_from_meta_to_ogp_to_twitter_to_heading() {
    let url = "https://example.com";
    assert_eq!(
        extract_title(url, r#"<head><meta name="title" content=" Meta  Title "></head>"#).unwrap(),
        Some("Meta Title".to_string())
    );
    assert_eq!(
        extract_title(url, r#"<head><meta property="og:title" content="OGP"></head><h1>H</h1>"#).unwrap(),
        Some("OGP".to_string())
    );
    assert_eq!(
        extract_title(url, r#"<head><meta name="twitter:title" content="Tweet"></head>"#).unwrap(),
        Some("Tweet".to_string())
    );
    assert_eq!(
        extract_title(url, "<body><p>x</p><h2>Second\n level</h2><h1>First</h1></body>").unwrap(),
        Some("Second level".to_string())
    );
    assert_eq!(
        extract_title(url, "<title>  </title><h3>Heading</h3>").unwrap(),
        Some("Heading".to_string())
    );
}

#[test]
fn unknown_front_matter_keys_are_left_out() {
    let markdown = convert("https://e.x", "<p>Body</p>", &["author", "source"]).unwrap();
    assert_eq!(markdown, "---\nsource: \"https://e.x\"\n---\n\nBody");
}

#[test]
fn renders_links_lists_code_and_rules() {
    let html = r#"<body><p>See <a href="https://a.b/c">the   docs</a> and <a>plain</a>.</p>
        <ul><li>One</li><li> Two <b>bold</b></li></ul><pre>let x = 1;
x</pre><hr><p>Line<br>break <img src="i.png" alt="pic"></p><script>ignored()</script></body>"#;
    let markdown = convert("https://example.com", html, &[]).unwrap();
    assert_eq!(
        markdown,
        "See [the docs](https://a.b/c) and plain.\n\n- One\n\n- Two bold\n\n```\nlet x = 1;\nx\n```\n\n---\n\nLine\nbreak ![pic](i.png)"
    );
}

#[test]
fn renders_the_article_instead_of_the_whole_body() {
    let html = "<body><nav>Menu</nav><article><h2>Story</h2>Text</article><footer>Foot</footer></body>";
    assert_eq!(convert("u", html, &[]).unwrap(), "## Story\n\nText");
}

#[test]
fn empty_documents_render_empty() {
    assert_eq!(convert("u", "", &[]).unwrap(), "");
    assert_eq!(convert("u", "<html><body>   </body></html>", &["title"]).unwrap(), "");
}

#[test]
fn yaml_string_of_control_characters_stays_on_one_line() {
    let mut raw = String::new();
    for code in 0u32..0x20 {
        raw.push(char::from_u32(code).unwrap());
    }
    raw.push_str("\"\\x");
    let quoted = serialize_yaml_string(&raw);
    assert!(quoted.starts_with('"') && quoted.ends_with('"'));
    assert!(quoted.chars().all(|c| (c as u32) >= 0x20));
    assert!(quoted.contains("\\u001F"));
    assert!(quoted.ends_with("\\\"\\\\x\""));
}

#[test]
fn title_entry_matches_extracted_title() {
    let url = "https://example.com";
    let html = r#"<head><meta property="og:title" content="Shared &quot;Page&quot;"></head><p>Body</p>"#;
    let title = extract_title(url, html).unwrap().unwrap();
    assert_eq!(title, "Shared \"Page\"");
    let markdown = convert(url, html, &["title"]).unwrap();
    assert_eq!(markdown, format!("---\ntitle: {}\n---\n\nBody", serialize_yaml_string(&title)));

    let untitled = "<p>Only body</p>";
    assert_eq!(extract_title(url, untitled).unwrap(), None);
    assert_eq!(convert(url, untitled, &["title"]).unwrap(), "Only body");
}

#[test]
fn date_and_tags_come_from_meta_tags() {
    let html = r#"<head>
        <meta name="date" content="2020-01-01">
        <meta property="article:published_time" content=" 2024-05-06T07:08:09Z ">
        <meta name="keywords" content="rust,  wasm">
        </head><body><p>Body</p></body>"#;
    let markdown = convert("https://e.x", html, &["date", "tags"]).unwrap();
    assert_eq!(
        markdown,
        "---\ndate: \"2024-05-06T07:08:09Z\"\ntags: \"rust, wasm\"\n---\n\nBody"
    );
    let fallback = convert("https://e.x", r#"<head><meta name="date" content="2020-01-01"></head><p>B</p>"#, &["date", "tags"]).unwrap();
    assert_eq!(fallback, "---\ndate: \"2020-01-01\"\n---\n\nB");
    assert_eq!(convert("https://e.x", "<p>B</p>", &["date", "tags"]).unwrap(), "B");
}
