use website_mirror::{HtmlParser, ResourceLink, ResourceType};

#[test]
fn test_resource_link_clone() {
    let resource = ResourceLink {
        original_url: "/test.css".to_string(),
        local_path: "/local/test.css".to_string(),
        resource_type: ResourceType::CSS,
    };

    let cloned = resource.clone();
    assert_eq!(cloned.original_url, resource.original_url);
    assert_eq!(cloned.local_path, resource.local_path);
    assert_eq!(cloned.resource_type, resource.resource_type);
}

#[test]
fn test_resource_type_debug() {
    assert_eq!(format!("{:?}", ResourceType::CSS), "CSS");
    assert_eq!(format!("{:?}", ResourceType::JavaScript), "JavaScript");
    assert_eq!(format!("{:?}", ResourceType::Image), "Image");
    assert_eq!(format!("{:?}", ResourceType::Link), "Link");
    assert_eq!(format!("{:?}", ResourceType::Other), "Other");
}

#[test]
fn test_resource_type_clone() {
    let css_type = ResourceType::CSS;
    let cloned = css_type.clone();
    assert_eq!(cloned, css_type);
}

#[test]
fn test_new_html_parser_invalid_url() {
    let result = HtmlParser::new("not-a-url");
    assert!(result.is_err());
}

#[test]
fn test_html_parser_integration() {
    let html_content = r#"
        <html>
            <head>
                <link rel="stylesheet" href="/style.css">
                <script src="/script.js"></script>
            </head>
            <body>
                <img src="/image.jpg" alt="test">
                <a href="/page">Link</a>
            </body>
        </html>
    "#;

    let parser = HtmlParser::new("https://example.com").unwrap();
    let resources = parser.extract_resources(html_content).unwrap();

    assert_eq!(resources.len(), 4);

    let css_count = resources
        .iter()
        .filter(|r| r.resource_type == ResourceType::CSS)
        .count();
    let js_count = resources
        .iter()
        .filter(|r| r.resource_type == ResourceType::JavaScript)
        .count();
    let img_count = resources
        .iter()
        .filter(|r| r.resource_type == ResourceType::Image)
        .count();
    let link_count = resources
        .iter()
        .filter(|r| r.resource_type == ResourceType::Link)
        .count();

    assert_eq!(css_count, 1);
    assert_eq!(js_count, 1);
    assert_eq!(img_count, 1);
    assert_eq!(link_count, 1);
}

#[test]
fn test_extract_resources_with_absolute_urls() {
    let html_content = r#"
        <html>
            <head>
                <link rel="stylesheet" href="https://cdn.example.com/style.css">
                <script src="https://cdn.example.com/script.js"></script>
            </head>
            <body>
                <img src="https://cdn.example.com/image.jpg" alt="test">
            </body>
        </html>
    "#;

    let parser = HtmlParser::new("https://example.com").unwrap();
    let resources = parser.extract_resources(html_content).unwrap();

    assert_eq!(resources.len(), 3);

    let css_resource = resources
        .iter()
        .find(|r| r.resource_type == ResourceType::CSS)
        .unwrap();
    assert_eq!(css_resource.original_url, "https://cdn.example.com/style.css");
}

#[test]
fn test_extract_resources_with_relative_urls() {
    let html_content = r#"
        <html>
            <head>
                <link rel="stylesheet" href="../style.css">
                <script src="./script.js"></script>
            </head>
            <body>
                <img src="images/photo.jpg" alt="test">
            </body>
        </html>
    "#;

    let parser = HtmlParser::new("https://example.com/subdir/").unwrap();
    let resources = parser.extract_resources(html_content).unwrap();

    assert_eq!(resources.len(), 3);
}

#[test]
fn test_extract_resources_with_data_urls() {
    let html_content = r#"
        <html>
            <body>
                <img src="data:image/png;base64,iVBORw0KGgoAAAANSUhEUgAAAAEAAAABCAYAAAAfFcSJAAAADUlEQVR42mNkYPhfDwAChwGA60e6kgAAAABJRU5ErkJggg==" alt="test">
            </body>
        </html>
    "#;

    let parser = HtmlParser::new("https://example.com").unwrap();
    let resources = parser.extract_resources(html_content).unwrap();

    assert_eq!(resources.len(), 0);
}

#[test]
fn test_extract_resources_with_malformed_html() {
    let html_content = r#"
        <html>
            <head>
                <link rel="stylesheet" href="/static/style.css
                <script src="/static/script.js
            </head>
            <body>
                <img src="/static/image.jpg alt="test">
            </body>
        </html>
    "#;

    let parser = HtmlParser::new("https://example.com").unwrap();
    let resources = parser.extract_resources(html_content).unwrap();

    assert!(resources.len() > 0);
}

#[test]
fn test_url_to_local_path_string_absolute() {
    let parser = HtmlParser::new("https://example.com").unwrap();
    let result = parser
        .url_to_local_path_string("https://example.com/image.jpg")
        .unwrap();
    assert_eq!(result, "image.jpg");
}

#[test]
fn test_url_to_local_path_string_relative() {
    let parser = HtmlParser::new("https://example.com").unwrap();
    let result = parser.url_to_local_path_string("/image.jpg").unwrap();
    assert_eq!(result, "image.jpg");
}

#[test]
fn test_url_to_local_path_string_root() {
    let parser = HtmlParser::new("https://example.com").unwrap();
    let result = parser
        .url_to_local_path_string("https://example.com/")
        .unwrap();
    assert_eq!(result, "index.html");
}

#[test]
fn test_url_to_local_path_string_directory() {
    let parser = HtmlParser::new("https://example.com").unwrap();
    let result = parser
        .url_to_local_path_string("https://example.com/dir/")
        .unwrap();
    assert_eq!(result, "dir/index.html");
}

#[test]
fn test_url_to_local_path_string_no_extension() {
    let parser = HtmlParser::new("https://example.com").unwrap();
    let result = parser
        .url_to_local_path_string("https://example.com/page")
        .unwrap();
    assert_eq!(result, "page/index.html");
}

#[test]
fn test_sanitize_path() {
    let parser = HtmlParser::new("https://example.com").unwrap();

    assert_eq!(parser.sanitize_path("normal/path"), "normal/path");
    assert_eq!(parser.sanitize_path("path with spaces"), "path_with_spaces");
    assert_eq!(parser.sanitize_path("path?with=query"), "path_with_query");
    assert_eq!(parser.sanitize_path("path#fragment"), "path_fragment");
    assert_eq!(
        parser.sanitize_path("path&with&ampersands"),
        "path_with_ampersands"
    );
}

#[test]
fn test_path_sanitization() {
    let parser = HtmlParser::new("https://example.com").unwrap();

    let test_cases = vec![
        ("normal/path", "normal/path"),
        ("path with spaces", "path_with_spaces"),
        ("path?with=query", "path_with_query"),
        ("path#fragment", "path_fragment"),
        ("path&with&ampersands", "path_with_ampersands"),
        ("path=with=equals", "path_with_equals"),
    ];

    for (input, expected) in test_cases {
        let result = parser.sanitize_path(input);
        assert_eq!(result, expected, "Failed for input: {}", input);
    }
}

#[test]
fn test_resolve_url_absolute() {
    let parser = HtmlParser::new("https://example.com").unwrap();
    let result = parser.resolve_url("https://cdn.example.com/style.css").unwrap();
    assert_eq!(result.as_str(), "https://cdn.example.com/style.css");
}

#[test]
fn test_resolve_url_relative() {
    let parser = HtmlParser::new("https://example.com/subdir/").unwrap();
    let result = parser.resolve_url("../style.css").unwrap();
    assert_eq!(result.as_str(), "https://example.com/style.css");
}

#[test]
fn test_resolve_url_protocol_relative() {
    let parser = HtmlParser::new("https://example.com").unwrap();
    let result = parser.resolve_url("//cdn.example.com/style.css").unwrap();
    assert_eq!(result.as_str(), "https://cdn.example.com/style.css");
}

#[test]
fn test_url_resolution() {
    let parser = HtmlParser::new("https://example.com/subdir/").unwrap();

    let test_cases = vec![
        ("../style.css", "https://example.com/style.css"),
        ("./script.js", "https://example.com/subdir/script.js"),
        ("images/photo.jpg", "https://example.com/subdir/images/photo.jpg"),
        ("https://cdn.example.com/style.css", "https://cdn.example.com/style.css"),
        ("//cdn.example.com/script.js", "https://cdn.example.com/script.js"),
    ];

    for (input, expected) in test_cases {
        let result = parser.resolve_url(input).unwrap();
        assert_eq!(result.as_str(), expected, "Failed for input: {}", input);
    }
}

#[test]
fn test_resolve_url_normalizes_authority_form() {
    let parser = HtmlParser::new("https://example.com/subdir/").unwrap();
    let result = parser.resolve_url("https://example.com").unwrap();
    assert_eq!(result, "https://example.com/");
}

#[test]
fn test_create_resource_link_with_data_url() {
    let parser = HtmlParser::new("https://example.com").unwrap();
    let result = parser.create_resource_link("data:image/png;base64,data", ResourceType::Image);
    assert!(result.is_err());
}

#[test]
fn test_create_resource_link_with_fragment() {
    let parser = HtmlParser::new("https://example.com").unwrap();
    let result = parser.create_resource_link("#fragment", ResourceType::Link);
    assert!(result.is_err());
}

#[test]
fn test_create_resource_link_with_mailto() {
    let parser = HtmlParser::new("https://example.com").unwrap();
    let result = parser.create_resource_link("mailto:test@example.com", ResourceType::Link);
    assert!(result.is_err());
}

#[test]
fn test_create_resource_link_with_tel() {
    let parser = HtmlParser::new("https://example.com").unwrap();
    let result = parser.create_resource_link("tel:+1234567890", ResourceType::Link);
    assert!(result.is_err());
}

#[test]
fn test_create_resource_link_with_javascript() {
    let parser = HtmlParser::new("https://example.com").unwrap();
    let result = parser.create_resource_link("javascript:alert('test')", ResourceType::Link);
    assert!(result.is_err());
}

#[test]
fn test_three_reference_extraction() {
    let html = r#"<link rel="stylesheet" href="/a.css"><img src="/b.jpg"><a href="/c">x</a>"#;
    let parser = HtmlParser::new("https://ex.com").unwrap();
    let resources = parser.extract_resources(html).unwrap();

    assert_eq!(resources.len(), 3);
    assert_eq!(resources[0].resource_type, ResourceType::CSS);
    assert_eq!(resources[0].original_url, "https://ex.com/a.css");
    assert_eq!(resources[1].resource_type, ResourceType::Image);
    assert_eq!(resources[1].original_url, "https://ex.com/b.jpg");
    assert_eq!(resources[2].resource_type, ResourceType::Link);
    assert_eq!(resources[2].original_url, "https://ex.com/c");
}

#[test]
fn test_directory_and_query_local_paths() {
    let parser = HtmlParser::new("https://ex.com").unwrap();
    assert_eq!(
        parser.url_to_local_path_string("https://ex.com/dir/").unwrap(),
        "dir/index.html"
    );
    assert_eq!(
        parser.url_to_local_path_string("https://ex.com/page?x=1").unwrap(),
        "page/index.html?x_1"
    );
}

#[test]
fn test_local_path_computed_twice_is_identical() {
    let parser = HtmlParser::new("https://example.com").unwrap();
    let first = parser
        .url_to_local_path_string("https://example.com/dir/page?x=1&y=2")
        .unwrap();
    let second = parser
        .url_to_local_path_string("https://example.com/dir/page?x=1&y=2")
        .unwrap();
    assert_eq!(first, second);
}

#[test]
fn test_css_background_extraction_absolute_urls() {
    let css_content = r#"
        .bg1 { background-image: url('/images/bg1.jpg'); }
        .bg2 { background: url("/images/bg2.jpg"); }
        .bg3 { background-image: url(/images/bg3.jpg); }
        .bg4 { background-color: red; }
    "#;

    let parser = HtmlParser::new("https://example.com").unwrap();
    let mut resources: Vec<ResourceLink> = Vec::new();
    parser.extract_background_images_from_css(css_content, &mut resources);

    assert_eq!(resources.len(), 3);
    let urls: Vec<String> = resources.iter().map(|r| r.original_url.clone()).collect();
    assert!(urls.contains(&"https://example.com/images/bg1.jpg".to_string()));
    assert!(urls.contains(&"https://example.com/images/bg2.jpg".to_string()));
    assert!(urls.contains(&"https://example.com/images/bg3.jpg".to_string()));
    for r in &resources {
        assert_eq!(r.resource_type, ResourceType::Image);
    }
}

#[test]
fn test_style_block_background_images_extracted() {
    let html = r#"
        <html>
        <head>
        <style>
            .hero { background-image: url('/img/hero.jpg'); }
            .side { background: url(/img/side.png); }
        </style>
        </head>
        <body><p>text</p></body>
        </html>
    "#;
    let parser = HtmlParser::new("https://example.com").unwrap();
    let resources = parser.extract_resources(html).unwrap();

    assert_eq!(resources.len(), 2);
    let urls: Vec<String> = resources.iter().map(|r| r.original_url.clone()).collect();
    assert!(urls.contains(&"https://example.com/img/hero.jpg".to_string()));
    assert!(urls.contains(&"https://example.com/img/side.png".to_string()));
    for r in &resources {
        assert_eq!(r.resource_type, ResourceType::Image);
    }
}

#[test]
fn test_inline_style_attribute_background_extracted() {
    let html = r#"<div style="background-image: url('/img/banner.jpg')">x</div>"#;
    let parser = HtmlParser::new("https://example.com").unwrap();
    let resources = parser.extract_resources(html).unwrap();

    assert_eq!(resources.len(), 1);
    assert_eq!(resources[0].original_url, "https://example.com/img/banner.jpg");
    assert_eq!(resources[0].resource_type, ResourceType::Image);
}

#[test]
fn test_convert_html_links_rewrites_attributes() {
    let html = r#"<link rel="stylesheet" href="/a.css"><a href="/about">about</a>"#;
    let parser = HtmlParser::new("https://example.com").unwrap();
    let converted = parser.convert_html_links(html).unwrap();
    assert!(converted.contains(r#"href="./a.css""#));
    assert!(converted.contains(r#"href="./about/index.html""#));
}

#[test]
fn test_sanitized_path_has_no_reserved_characters() {
    let parser = HtmlParser::new("https://example.com").unwrap();
    let sanitized = parser.sanitize_path("a b?c&d=e#f%g\u{00e9}h");
    for c in sanitized.chars() {
        assert!(c != '?' && c != '&' && c != '=' && c != '#' && c != ' ');
    }
}

#[test]
fn test_empty_document_yields_nothing() {
    let parser = HtmlParser::new("https://example.com").unwrap();
    let resources = parser.extract_resources("").unwrap();
    assert_eq!(resources.len(), 0);

    let mut css_resources: Vec<ResourceLink> = Vec::new();
    parser.extract_background_images_from_css("", &mut css_resources);
    assert_eq!(css_resources.len(), 0);
}

#[test]
fn test_sanitize_empty_path() {
    let parser = HtmlParser::new("https://example.com").unwrap();
    assert_eq!(parser.sanitize_path(""), "");
}
