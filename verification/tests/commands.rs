//! The commands around the broker: article files, templates, exports,
//! the editor command line, configuration, credentials and errors.

use noet::article::{generate_filename, parse_markdown, parse_status, parse_tags, Frontmatter};
use noet::auth::{mask_cookie, mask_token, Credentials};
use noet::config::{default_base_url, Config};
use noet::editor::parse_editor_command;
use noet::errors::NoetError;
use noet::export::{generate_markdown, sanitize_filename};
use noet::html_to_md::convert_html_to_markdown;
use noet::models::{Article, ArticleStatus, Hashtag};
use noet::rate_limiter::RateLimiter;
use noet::template::{list_template_names, render_template};

#[test]
fn test_parse_markdown_with_frontmatter() {
    let content = r#"---
title: Test Article
status: published
tags: rust, cli
---

# Test Article

This is the body."#;

    let (frontmatter, body) = parse_markdown(content).unwrap();

    assert_eq!(frontmatter.get("title"), Some("Test Article".to_string()));
    assert_eq!(frontmatter.get("status"), Some("published".to_string()));
    assert_eq!(frontmatter.get("tags"), Some("rust, cli".to_string()));
    assert!(body.contains("# Test Article"));
    assert!(body.contains("This is the body."));
}

#[test]
fn test_parse_markdown_without_frontmatter() {
    let content = "# Just Content\n\nNo frontmatter here.";

    let (frontmatter, body) = parse_markdown(content).unwrap();

    assert!(frontmatter.is_empty());
    assert_eq!(body, content);
}

#[test]
fn test_parse_markdown_with_quotes() {
    let content = r#"---
title: "Article with Quotes"
status: 'draft'
---

Body content"#;

    let (frontmatter, body) = parse_markdown(content).unwrap();

    assert_eq!(
        frontmatter.get("title"),
        Some("Article with Quotes".to_string())
    );
    assert_eq!(frontmatter.get("status"), Some("draft".to_string()));
    assert_eq!(body, "Body content");
}

#[test]
fn test_parse_markdown_empty_body() {
    let content = r#"---
title: Empty Body
---
"#;

    let (frontmatter, body) = parse_markdown(content).unwrap();

    assert_eq!(frontmatter.get("title"), Some("Empty Body".to_string()));
    assert_eq!(body, "");
}

#[test]
fn test_parse_markdown_malformed_frontmatter() {
    let content = "---\ninvalid frontmatter\n---\n\nBody";

    let (frontmatter, body) = parse_markdown(content).unwrap();

    // Should handle malformed frontmatter gracefully
    assert!(frontmatter.is_empty());
    assert_eq!(body, "Body");
}

#[test]
fn test_parse_status_published() {
    let mut map = Frontmatter::new();
    map.insert("status".to_string(), "published".to_string());
    assert_eq!(parse_status(&map), Some(ArticleStatus::Published));
}

#[test]
fn test_parse_status_draft() {
    let mut map = Frontmatter::new();
    map.insert("status".to_string(), "draft".to_string());
    assert_eq!(parse_status(&map), Some(ArticleStatus::Draft));
}

#[test]
fn test_parse_status_invalid() {
    let mut map = Frontmatter::new();
    map.insert("status".to_string(), "invalid".to_string());
    assert_eq!(parse_status(&map), None);
}

#[test]
fn test_parse_status_missing() {
    let map = Frontmatter::new();
    assert_eq!(parse_status(&map), None);
}

#[test]
fn test_parse_tags_single() {
    let mut map = Frontmatter::new();
    map.insert("tags".to_string(), "rust".to_string());
    assert_eq!(parse_tags(&map), Some(vec!["rust".to_string()]));
}

#[test]
fn test_parse_tags_multiple() {
    let mut map = Frontmatter::new();
    map.insert("tags".to_string(), "rust, cli, note".to_string());
    assert_eq!(
        parse_tags(&map),
        Some(vec![
            "rust".to_string(),
            "cli".to_string(),
            "note".to_string()
        ])
    );
}

#[test]
fn test_parse_tags_with_spaces() {
    let mut map = Frontmatter::new();
    map.insert("tags".to_string(), "  rust  ,  cli  ,  note  ".to_string());
    assert_eq!(
        parse_tags(&map),
        Some(vec![
            "rust".to_string(),
            "cli".to_string(),
            "note".to_string()
        ])
    );
}

#[test]
fn test_parse_tags_empty() {
    let mut map = Frontmatter::new();
    map.insert("tags".to_string(), "".to_string());
    assert_eq!(parse_tags(&map), None);
}

#[test]
fn test_parse_tags_missing() {
    let map = Frontmatter::new();
    assert_eq!(parse_tags(&map), None);
}

#[test]
fn test_generate_filename_simple() {
    assert_eq!(generate_filename("My Article"), "my-article");
}

#[test]
fn test_generate_filename_with_special_chars() {
    assert_eq!(
        generate_filename("Hello! World? (Test)"),
        "hello-world-test"
    );
}

#[test]
fn test_generate_filename_with_numbers() {
    assert_eq!(generate_filename("Article 123"), "article-123");
}

#[test]
fn test_generate_filename_multiple_spaces() {
    assert_eq!(generate_filename("Multiple   Spaces"), "multiple---spaces");
}

#[test]
fn test_generate_filename_japanese() {
    // Japanese characters are kept as-is (unicode alphanumeric)
    assert_eq!(generate_filename("日本語テスト"), "日本語テスト");
}

#[test]
fn test_generate_filename_mixed() {
    // Mix of alphanumeric and special chars
    assert_eq!(
        generate_filename("Test 123 & Article!"),
        "test-123--article"
    );
}

#[test]
fn test_sanitize_filename() {
    assert_eq!(sanitize_filename("Hello World"), "Hello World");
    assert_eq!(sanitize_filename("Test/File:Name*"), "Test-File-Name-");
    assert_eq!(
        sanitize_filename("Windows\\Path<>File"),
        "Windows-Path--File"
    );
}

#[test]
fn test_generate_markdown_basic() {
    let article = Article {
        id: Some("123".to_string()),
        key: Some("test-article".to_string()),
        name: "Test Article".to_string(),
        body: "This is the body.".to_string(),
        status: Some(ArticleStatus::Published),
        hashtag_notes: None,
        publish_at: None,
        like_count: Some(10),
        comment_count: Some(5),
        read_count: Some(100),
    };

    let markdown = generate_markdown(&article);

    assert!(markdown.contains("title: Test Article"));
    assert!(markdown.contains("status: published"));
    assert!(markdown.contains("article_id: 123"));
    assert!(markdown.contains("article_key: test-article"));
    assert!(markdown.contains("like_count: 10"));
    assert!(markdown.contains("This is the body."));
}

#[test]
fn generate_markdown_joins_tags() {
    let article = Article {
        id: None,
        key: None,
        name: "T".to_string(),
        body: "B".to_string(),
        status: None,
        hashtag_notes: Some(vec![
            Hashtag { name: "rust".to_string(), note_count: None },
            Hashtag { name: "cli".to_string(), note_count: None },
        ]),
        publish_at: Some("2024-01-02T03:04:05+00:00".to_string()),
        like_count: None,
        comment_count: None,
        read_count: None,
    };
    let markdown = generate_markdown(&article);
    assert_eq!(
        markdown,
        "---\ntitle: T\ntags: rust, cli\npublished_at: 2024-01-02T03:04:05+00:00\n---\n\nB"
    );
}

#[test]
fn test_load_template_with_title() {
    let template_content = r#"---
title: {{TITLE}}
status: draft
---

# {{TITLE}}

Content here"#;

    let result = render_template(template_content, "Test Article");

    assert!(result.contains("title: Test Article"));
    assert!(result.contains("# Test Article"));
    assert!(!result.contains("{{TITLE}}"));
}

#[test]
fn template_test_load_template_with_title() {
    let template_content = r#"---
title: {{TITLE}}
status: draft
---

# {{TITLE}}

Content here"#;

    let result = render_template(template_content, "Test Article");

    assert!(result.contains("title: Test Article"));
    assert!(result.contains("# Test Article"));
    assert!(!result.contains("{{TITLE}}"));
}

#[test]
fn template_names_are_filtered_and_sorted() {
    let files = vec![
        "zebra.md".to_string(),
        "not_markdown.txt".to_string(),
        "apple.md".to_string(),
        "banana.md".to_string(),
    ];
    let names = list_template_names(&files);
    assert_eq!(
        names,
        vec!["apple".to_string(), "banana".to_string(), "zebra".to_string()]
    );
}

#[test]
fn test_parse_editor_command_simple() {
    let cmd = "vim";
    let parts = parse_editor_command(cmd);
    assert_eq!(parts, vec!["vim"]);
}

#[test]
fn test_parse_editor_command_with_args() {
    let cmd = "code -w -n";
    let parts = parse_editor_command(cmd);
    assert_eq!(parts, vec!["code", "-w", "-n"]);
}

#[test]
fn test_parse_editor_command_with_double_quotes() {
    let cmd = r#"code -w "/path/with spaces/file.txt""#;
    let parts = parse_editor_command(cmd);
    assert_eq!(parts, vec!["code", "-w", "/path/with spaces/file.txt"]);
}

#[test]
fn test_parse_editor_command_with_single_quotes() {
    let cmd = r#"vim '+set number' -c 'echo hello'"#;
    let parts = parse_editor_command(cmd);
    assert_eq!(parts, vec!["vim", "+set number", "-c", "echo hello"]);
}

#[test]
fn test_parse_editor_command_empty() {
    let cmd = "";
    let parts = parse_editor_command(cmd);
    assert_eq!(parts, Vec::<String>::new());
}

#[test]
fn test_parse_editor_command_multiple_spaces() {
    let cmd = "code  -w   -n";
    let parts = parse_editor_command(cmd);
    assert_eq!(parts, vec!["code", "-w", "-n"]);
}

#[test]
fn test_default_config() {
    let config = Config::default();
    assert_eq!(config.base_url, "https://note.com");
    assert_eq!(config.default_status, Some("draft".to_string()));
    assert_eq!(default_base_url(), "https://note.com");
}

#[test]
fn test_config_merge_workspace_takes_precedence() {
    let global = Config {
        default_status: Some("draft".to_string()),
        default_tags: Some(vec!["global".to_string()]),
        editor: Some("vim".to_string()),
        username: Some("global-user".to_string()),
        base_url: "https://note.com".to_string(),
    };

    let workspace = Config {
        default_status: Some("published".to_string()),
        default_tags: None,
        editor: None,
        username: Some("workspace-user".to_string()),
        base_url: "https://note.com".to_string(),
    };

    let merged = global.merge(workspace);

    assert_eq!(merged.default_status, Some("published".to_string()));
    assert_eq!(merged.default_tags, Some(vec!["global".to_string()]));
    assert_eq!(merged.editor, Some("vim".to_string()));
    assert_eq!(merged.username, Some("workspace-user".to_string()));
}

#[test]
fn test_config_merge_preserves_global_when_workspace_empty() {
    let global = Config {
        default_status: Some("draft".to_string()),
        default_tags: Some(vec!["tag1".to_string()]),
        editor: Some("code".to_string()),
        username: Some("user".to_string()),
        base_url: "https://note.com".to_string(),
    };

    let workspace = Config {
        default_status: None,
        default_tags: None,
        editor: None,
        username: None,
        base_url: "https://note.com".to_string(),
    };

    let merged = global.merge(workspace);

    assert_eq!(merged.default_status, Some("draft".to_string()));
    assert_eq!(merged.default_tags, Some(vec!["tag1".to_string()]));
    assert_eq!(merged.editor, Some("code".to_string()));
    assert_eq!(merged.username, Some("user".to_string()));
}

#[test]
fn test_credentials_creation() {
    let creds = Credentials::new(
        "_note_session_v5=test_session".to_string(),
        Some("test_csrf_token".to_string()),
    );

    assert_eq!(creds.session_cookie, "_note_session_v5=test_session");
    assert_eq!(creds.csrf_token, Some("test_csrf_token".to_string()));
}

#[test]
fn test_rate_limiter_default() {
    let limiter = RateLimiter::default();
    assert_eq!(limiter.delay_ms, 500);
}

#[test]
fn rate_limiter_plans_the_remaining_delay() {
    let mut limiter = RateLimiter::new(100);
    // a first request goes at once
    assert_eq!(limiter.plan_wait(1000), None);
    // a second one right after waits out the remainder
    assert_eq!(limiter.plan_wait(1030), Some(70));
    limiter.record(1130);
    // once the delay has passed, no wait
    assert_eq!(limiter.plan_wait(1300), None);
}

#[test]
fn test_hashtag_creation() {
    let hashtag = Hashtag {
        name: "rust".to_string(),
        note_count: Some(42),
    };

    assert_eq!(hashtag.name, "rust");
    assert_eq!(hashtag.note_count, Some(42));
}

#[test]
fn test_article_creation() {
    let article = Article {
        id: Some("123".to_string()),
        key: Some("test-key".to_string()),
        name: "Test Article".to_string(),
        body: "Test body".to_string(),
        status: Some(ArticleStatus::Draft),
        hashtag_notes: None,
        publish_at: None,
        like_count: Some(10),
        comment_count: Some(5),
        read_count: Some(100),
    };

    assert_eq!(article.id, Some("123".to_string()));
    assert_eq!(article.name, "Test Article");
    assert_eq!(article.status, Some(ArticleStatus::Draft));
    assert_eq!(article.like_count, Some(10));
}

#[test]
fn test_auth_error_display() {
    let error = NoetError::AuthError("Test auth error".to_string());
    assert_eq!(error.message(), "Authentication failed: Test auth error");
}

#[test]
fn test_config_error_display() {
    let error = NoetError::ConfigError("Config file missing".to_string());
    assert_eq!(
        error.message(),
        "Configuration error: Config file missing"
    );
}

#[test]
fn error_test_config_error_display() {
    let error = NoetError::ConfigError("Config file missing".to_string());
    assert_eq!(
        error.message(),
        "Configuration error: Config file missing"
    );
}

#[test]
fn test_file_not_found_error_display() {
    let error = NoetError::FileNotFound("/path/to/file.md".to_string());
    assert_eq!(error.message(), "File not found: /path/to/file.md");
}

#[test]
fn error_test_file_not_found_error_display() {
    let error = NoetError::FileNotFound("/path/to/file.md".to_string());
    assert_eq!(error.message(), "File not found: /path/to/file.md");
}

#[test]
fn test_article_not_found_error_display() {
    let error = NoetError::ArticleNotFound("article-123".to_string());
    assert_eq!(error.message(), "Article not found: article-123");
}

#[test]
fn test_missing_field_error_display() {
    let error = NoetError::MissingField("title".to_string());
    assert_eq!(error.message(), "Missing required field: title");
}

#[test]
fn test_extension_error_display() {
    let error = NoetError::Extension("No data in response".to_string());
    assert_eq!(error.message(), "Extension error: No data in response");
}

#[test]
fn masks_show_only_the_ends() {
    assert_eq!(
        mask_cookie("abcdefghijKLMNOPQRSTuvwxyz012345"),
        "abcdefghij...wxyz012345"
    );
    assert_eq!(mask_cookie("short"), "***");
    assert_eq!(mask_token("abcdefgh12345678XYZ"), "abcdefgh...45678XYZ");
    assert_eq!(mask_token("tiny"), "***");
}

#[test]
fn test_extract_image_references() {
    let markdown = r#"
# Test Article

This is a test.

![A nice cat](./images/cat.jpg)

Some text.

![Another image](../photos/dog.png)

![No caption](image.gif)
        "#;

    let refs = noet::image::extract_image_references(markdown);

    assert_eq!(refs.len(), 3);
    assert_eq!(refs[0].caption, "A nice cat");
    assert_eq!(refs[0].path, "./images/cat.jpg");
    assert_eq!(refs[1].caption, "Another image");
    assert_eq!(refs[1].path, "../photos/dog.png");
    assert_eq!(refs[2].caption, "No caption");
    assert_eq!(refs[2].path, "image.gif");
}

#[test]
fn test_skip_urls() {
    let markdown = r#"
![Remote](https://example.com/image.jpg)
![Already uploaded](https://assets.st-note.com/img/123.webp)
![Local](./local.jpg)
        "#;

    let refs = noet::image::extract_image_references(markdown);
    assert_eq!(refs.len(), 3);

    // the upload step leaves remote and already-uploaded references alone
    assert!(!noet::image::is_local_reference(&refs[0].path));
    assert!(!noet::image::is_local_reference(&refs[1].path));
    assert!(noet::image::is_local_reference(&refs[2].path));
}

#[test]
fn mime_types_follow_the_extension() {
    assert_eq!(noet::image::mime_of_extension("jpg"), Some("image/jpeg"));
    assert_eq!(noet::image::mime_of_extension("jpeg"), Some("image/jpeg"));
    assert_eq!(noet::image::mime_of_extension("png"), Some("image/png"));
    assert_eq!(noet::image::mime_of_extension("gif"), Some("image/gif"));
    assert_eq!(noet::image::mime_of_extension("webp"), Some("image/webp"));
    assert_eq!(noet::image::mime_of_extension("bmp"), None);
}

#[test]
fn test_simple_paragraph() {
    let html = r#"<p name="uuid" id="uuid">Hello world</p>"#;
    let md = convert_html_to_markdown(html).unwrap();
    assert!(md.contains("Hello world"));
}

#[test]
fn test_heading() {
    let html = r#"<h2 name="uuid" id="uuid">My Heading</h2>"#;
    let md = convert_html_to_markdown(html).unwrap();
    assert!(md.contains("## My Heading") || md.contains("My Heading"));
}

#[test]
fn test_image() {
    let html = r#"<img src="https://example.com/image.png" alt="Test Image" width="620" height="224">"#;
    let md = convert_html_to_markdown(html).unwrap();
    assert!(md.contains("![Test Image]") || md.contains("https://example.com/image.png"));
}

#[test]
fn test_line_breaks() {
    let html = r#"<p>Line 1<br>Line 2</p>"#;
    let md = convert_html_to_markdown(html).unwrap();
    assert!(md.contains("Line 1"));
    assert!(md.contains("Line 2"));
}

#[test]
fn test_bold() {
    let html = r#"<p>This is <b>bold</b> text</p>"#;
    let md = convert_html_to_markdown(html).unwrap();
    assert!(md.contains("**bold**") || md.contains("bold"));
}
