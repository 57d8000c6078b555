//! The text utilities around the engine: escaping, slugs, excerpts, search
//! text, redirects, shortcode arguments and path keys.

use bamboo_ssg::dates::strip_md_chars;
use bamboo_ssg::escapes::{build_error_overlay, escape_glob_path, escape_toml_string, html_escape_url};
use bamboo_ssg::excerpt::{extract_excerpt, strip_markdown_syntax};
use bamboo_ssg::minify::{minify_css, minify_js};
use bamboo_ssg::paths::build_data_key;
use bamboo_ssg::redirect::{build_redirect_html, has_reserved_component, is_safe_redirect_path};
use bamboo_ssg::search_text::{search_content, strip_html_tags, truncate_content};
use bamboo_ssg::shortcode::{parse_shortcode_args, ShortcodeArgError};
use bamboo_ssg::text::{reading_time, slugify, word_count};
use bamboo_ssg::types::default_posts_per_page;
use bamboo_ssg::xml::{decode_numeric_entities, escape, unescape};

#[test]
fn test_escape_special_chars() {
    assert_eq!(escape("&"), "&amp;");
    assert_eq!(escape("<"), "&lt;");
    assert_eq!(escape(">"), "&gt;");
    assert_eq!(escape("\""), "&quot;");
    assert_eq!(escape("'"), "&apos;");
}

#[test]
fn test_escape_combined() {
    assert_eq!(
        escape("<a href=\"test\">foo & bar</a>"),
        "&lt;a href=&quot;test&quot;&gt;foo &amp; bar&lt;/a&gt;"
    );
}

#[test]
fn test_escape_plain_text() {
    assert_eq!(escape("hello world"), "hello world");
}

#[test]
fn test_unescape_named_entities() {
    assert_eq!(unescape("&amp;"), "&");
    assert_eq!(unescape("&lt;"), "<");
    assert_eq!(unescape("&gt;"), ">");
    assert_eq!(unescape("&quot;"), "\"");
    assert_eq!(unescape("&apos;"), "'");
}

#[test]
fn test_unescape_numeric_decimal() {
    assert_eq!(unescape("&#65;"), "A");
    assert_eq!(unescape("&#97;"), "a");
}

#[test]
fn test_unescape_numeric_hex() {
    assert_eq!(unescape("&#x41;"), "A");
    assert_eq!(unescape("&#X61;"), "a");
}

#[test]
fn test_roundtrip() {
    let original = "Hello <world> & \"friends\" 'always'";
    assert_eq!(unescape(&escape(original)), original);
}

#[test]
fn test_unescape_invalid_numeric() {
    assert_eq!(unescape("&#xZZZ;"), "&#xZZZ;");
    assert_eq!(unescape("&#abc;"), "&#abc;");
}

#[test]
fn test_decode_numeric_out_of_range() {
    // A surrogate code point is not a scalar value and stays literal.
    assert_eq!(decode_numeric_entities("&#xD800;"), "&#xD800;");
    assert_eq!(decode_numeric_entities("&#1114112;"), "&#1114112;");
}

#[test]
fn test_escape_toml_string_plain() {
    assert_eq!(escape_toml_string("hello world"), "hello world");
}

#[test]
fn test_escape_toml_string_backslash() {
    assert_eq!(escape_toml_string("path\\to\\file"), "path\\\\to\\\\file");
}

#[test]
fn test_escape_toml_string_quotes() {
    assert_eq!(escape_toml_string("say \"hello\""), "say \\\"hello\\\"");
}

#[test]
fn test_escape_toml_string_newline() {
    assert_eq!(escape_toml_string("line1\nline2"), "line1\\nline2");
}

#[test]
fn test_escape_toml_string_tab() {
    assert_eq!(escape_toml_string("col1\tcol2"), "col1\\tcol2");
}

#[test]
fn test_escape_toml_string_carriage_return() {
    assert_eq!(escape_toml_string("line\r"), "line\\r");
}

#[test]
fn test_escape_toml_string_backspace() {
    assert_eq!(escape_toml_string("back\u{0008}space"), "back\\bspace");
}

#[test]
fn test_escape_toml_string_form_feed() {
    assert_eq!(escape_toml_string("form\u{000C}feed"), "form\\ffeed");
}

#[test]
fn test_escape_toml_string_control_char() {
    assert_eq!(escape_toml_string("null\u{0000}byte"), "null\\u0000byte");
}

#[test]
fn test_escape_toml_string_bell() {
    assert_eq!(escape_toml_string("bell\u{0007}char"), "bell\\u0007char");
}

#[test]
fn test_escape_glob_path_no_special() {
    assert_eq!(escape_glob_path("/home/user/templates"), "/home/user/templates");
}

#[test]
fn test_escape_glob_path_with_brackets() {
    assert_eq!(escape_glob_path("path/[test]"), "path/[[]test[]]");
}

#[test]
fn test_escape_glob_path_with_braces() {
    assert_eq!(escape_glob_path("path/{test}"), "path/[{]test[}]");
}

#[test]
fn test_escape_glob_path_with_wildcards() {
    assert_eq!(escape_glob_path("path/*.html"), "path/[*].html");
}

#[test]
fn test_html_escape_url() {
    assert_eq!(html_escape_url("https://x/y"), "https:&#x2F;&#x2F;x&#x2F;y");
}

#[test]
fn test_build_error_overlay_escapes_message() {
    let page = build_error_overlay("<oops> & \"bad\"");
    assert!(page.contains("&lt;oops&gt; &amp; &quot;bad&quot;"));
    assert!(page.contains("Build Error"));
    assert!(page.starts_with("<!DOCTYPE html>"));
}

#[test]
fn test_slugify() {
    assert_eq!(slugify("Hello World"), "hello-world");
    assert_eq!(slugify("  Multiple   Spaces  "), "multiple-spaces");
    assert_eq!(slugify("Special!@#Characters"), "special-characters");
}

#[test]
fn test_word_count_and_reading_time() {
    let text = "one two three four five";
    assert_eq!(word_count(text), 5);
    assert_eq!(reading_time(5), 1);
    assert_eq!(reading_time(400), 2);
    assert_eq!(reading_time(0), 0);
}

#[test]
fn test_extract_excerpt() {
    let content = "This is the first paragraph.\n\nThis is the second.";
    let excerpt = extract_excerpt(content, 100);
    assert_eq!(excerpt, Some("This is the first paragraph.".to_string()));
}

#[test]
fn test_extract_excerpt_truncation() {
    let content = "This is a very long paragraph that should be truncated at some point.";
    let excerpt = extract_excerpt(content, 30);
    assert!(excerpt.unwrap().ends_with("..."));
}

#[test]
fn test_extract_excerpt_strips_links() {
    let content = "Check out [my site](https://example.com) for more.\n\nSecond paragraph.";
    let excerpt = extract_excerpt(content, 200);
    assert_eq!(excerpt, Some("Check out my site for more.".to_string()));
}

#[test]
fn test_extract_excerpt_strips_images() {
    let content = "Here is ![alt text](https://example.com/img.png) inline.\n\nSecond.";
    let excerpt = extract_excerpt(content, 200);
    assert_eq!(excerpt, Some("Here is alt text inline.".to_string()));
}

#[test]
fn test_extract_excerpt_empty() {
    assert_eq!(extract_excerpt("   \n\n  ", 50), None);
}

#[test]
fn test_strip_markdown_heading_and_emphasis() {
    assert_eq!(strip_markdown_syntax("# Title\nplain"), "Title\nplain");
    assert_eq!(strip_markdown_syntax("**bold** and snake_case"), "bold and snake_case");
    assert_eq!(strip_markdown_syntax("`code`"), "code");
}

#[test]
fn test_strip_html_tags_basic() {
    assert_eq!(strip_html_tags("<p>hello</p>"), "hello");
    assert_eq!(strip_html_tags("<b>bold</b> text"), "bold text");
}

#[test]
fn test_strip_html_tags_script_and_style() {
    assert_eq!(
        strip_html_tags("<p>before</p><script>alert('x')</script><p>after</p>"),
        "beforeafter"
    );
    assert_eq!(
        strip_html_tags("<style>.foo { color: red; }</style><p>visible</p>"),
        "visible"
    );
}

#[test]
fn test_strip_html_tags_entities() {
    assert_eq!(strip_html_tags("&lt;tag&gt;"), "<tag>");
    assert_eq!(strip_html_tags("&amp;"), "&");
    assert_eq!(strip_html_tags("&quot;quoted&quot;"), "\"quoted\"");
}

#[test]
fn test_strip_html_tags_numeric_entities() {
    assert_eq!(strip_html_tags("&#65;"), "A");
    assert_eq!(strip_html_tags("&#x41;"), "A");
}

#[test]
fn test_strip_html_tags_whitespace_normalization() {
    assert_eq!(strip_html_tags("hello   world"), "hello world");
    assert_eq!(strip_html_tags("  leading  trailing  "), "leading trailing");
}

#[test]
fn test_truncate_content_short() {
    assert_eq!(truncate_content("hello", 10), "hello");
}

#[test]
fn test_truncate_content_long() {
    let result = truncate_content("hello world", 5);
    assert_eq!(result, "hello");
}

#[test]
fn test_search_content_strips_and_caps() {
    let html = "<h1>Title</h1>\n<p>Body text</p>";
    assert_eq!(search_content(html), "Title Body text");
}

#[test]
fn test_parse_shortcode_args_simple() {
    let (name, args) = parse_shortcode_args("youtube id=\"abc123\"").unwrap();
    assert_eq!(name, "youtube");
    assert_eq!(args, vec![("id".to_string(), "abc123".to_string())]);
}

#[test]
fn test_parse_shortcode_args_multiple() {
    let (name, args) = parse_shortcode_args("figure src=\"img.png\" alt=\"test\"").unwrap();
    assert_eq!(name, "figure");
    assert!(args.contains(&("src".to_string(), "img.png".to_string())));
    assert!(args.contains(&("alt".to_string(), "test".to_string())));
}

#[test]
fn test_parse_shortcode_args_escape_sequences() {
    let (_, args) = parse_shortcode_args("test key=\"value with \\\"quotes\\\"\"").unwrap();
    assert!(args.contains(&("key".to_string(), "value with \"quotes\"".to_string())));
}

#[test]
fn test_parse_shortcode_args_positional() {
    let (name, args) = parse_shortcode_args(r#"ref "about.md""#).unwrap();
    assert_eq!(name, "ref");
    assert!(args.contains(&("_positional".to_string(), "about.md".to_string())));
}

#[test]
fn test_parse_shortcode_args_empty_name() {
    assert!(parse_shortcode_args("").is_err());
    assert_eq!(parse_shortcode_args(""), Err(ShortcodeArgError::EmptyName));
}

#[test]
fn test_shortcode_args_missing_equals() {
    let result = parse_shortcode_args("test key");
    assert_eq!(result, Err(ShortcodeArgError::ExpectedEquals));
}

#[test]
fn test_shortcode_args_missing_quote() {
    let result = parse_shortcode_args("test key=value");
    assert_eq!(result, Err(ShortcodeArgError::ExpectedQuote));
}

#[test]
fn test_shortcode_args_unclosed_string() {
    let result = parse_shortcode_args("test key=\"unclosed");
    assert_eq!(result, Err(ShortcodeArgError::UnclosedValue));
}

#[test]
fn test_shortcode_args_unclosed_positional() {
    let result = parse_shortcode_args("ref \"half");
    assert_eq!(result, Err(ShortcodeArgError::UnclosedPositional));
}

#[test]
fn test_shortcode_args_expected_key() {
    let result = parse_shortcode_args("name =\"x\"");
    assert_eq!(result, Err(ShortcodeArgError::ExpectedKey));
}

#[test]
fn test_unsafe_path_rejection() {
    assert!(!is_safe_redirect_path("../etc/passwd"));
    assert!(!is_safe_redirect_path("foo:bar"));
    assert!(!is_safe_redirect_path(""));
    assert!(!is_safe_redirect_path("nul"));
    assert!(!is_safe_redirect_path("con/test"));
}

#[test]
fn test_safe_paths() {
    assert!(is_safe_redirect_path("old-post"));
    assert!(is_safe_redirect_path("blog/old-post"));
}

#[test]
fn test_reserved_components() {
    assert!(has_reserved_component("a/LPT1.txt/b"));
    assert!(!has_reserved_component("a/normal/b"));
}

#[test]
fn test_build_redirect_html_escapes_target() {
    let page = build_redirect_html("https://example.com/x?a=1&b=2");
    assert!(page.contains("url=https://example.com/x?a=1&amp;b=2"));
    assert!(page.contains("meta http-equiv=\"refresh\""));
    assert!(page.contains("<link rel=\"canonical\""));
}

#[test]
fn test_build_data_key_nested() {
    assert_eq!(
        build_data_key("settings/site.yaml"),
        vec!["settings".to_string(), "site".to_string()]
    );
    assert_eq!(build_data_key("nav.toml"), vec!["nav".to_string()]);
    assert_eq!(build_data_key(""), Vec::<String>::new());
}

#[test]
fn test_strip_md_suffix() {
    let chars: Vec<char> = "post.md".chars().collect();
    let stripped = strip_md_chars(&chars);
    let back: String = stripped.into_iter().collect();
    assert_eq!(back, "post");
}

#[test]
fn test_default_posts_per_page() {
    assert_eq!(default_posts_per_page(), 10);
}

#[test]
fn test_minify_css_collapses_and_strips() {
    assert_eq!(minify_css("body {\n  color : red ;\n}\n"), "body{color :red}");
    assert_eq!(minify_css("/* note */ a { b: c }"), "a{b:c}");
    assert_eq!(minify_css("x;  }"), "x}");
}

#[test]
fn test_minify_css_keeps_strings() {
    assert_eq!(minify_css("a '  quoted  ' b"), "a '  quoted  ' b");
}

#[test]
fn test_minify_js_comments_and_whitespace() {
    assert_eq!(
        minify_js("let a = 1;  // note\nlet b = 2;"),
        "let a = 1; \nlet b = 2;"
    );
    assert_eq!(minify_js("var s = \"a  b\"; /* gone */ x"), "var s = \"a  b\"; x");
}

#[test]
fn test_minify_js_division_vs_regex() {
    assert_eq!(minify_js("a = b / c / d;"), "a = b / c / d;");
    assert_eq!(minify_js("return /ab[c/]+/g;"), "return /ab[c/]+/g;");
}

#[test]
fn test_minify_js_template_literals() {
    assert_eq!(minify_js("f(`tpl ${x + 1} end`)  ;"), "f(`tpl ${x + 1} end`) ;");
}

use bamboo_ssg::frontmatter::find_closing_delimiter;
use bamboo_ssg::shortcode::{find_closing_code_fence, find_matching_closing_tag, find_next_code_fence};

#[test]
fn test_find_next_code_fence_line_start_only() {
    assert_eq!(find_next_code_fence("```\nx\n```\n"), Some(0));
    assert_eq!(find_next_code_fence("text\n```rust\n"), Some(5));
    assert_eq!(find_next_code_fence("a```"), None);
    assert_eq!(find_next_code_fence("~~~\n"), Some(0));
}

#[test]
fn test_find_closing_code_fence() {
    assert_eq!(find_closing_code_fence("x\n```\nafter", "```"), Some(2));
    assert_eq!(find_closing_code_fence("x``` \n", "```"), None);
    assert_eq!(find_closing_code_fence("```rust\n", "```"), None);
}

#[test]
fn test_find_matching_closing_tag_nested() {
    assert_eq!(
        find_matching_closing_tag("inner{{% /note %}}", "{{% note ", "{{% note %}}", "{{% /note %}}"),
        Some(5)
    );
    assert_eq!(
        find_matching_closing_tag(
            "{{% note %}}a{{% /note %}}b{{% /note %}}",
            "{{% note ",
            "{{% note %}}",
            "{{% /note %}}"
        ),
        Some(27)
    );
    assert_eq!(
        find_matching_closing_tag("never closed", "{{% note ", "{{% note %}}", "{{% /note %}}"),
        None
    );
}

#[test]
fn test_find_closing_delimiter() {
    assert_eq!(find_closing_delimiter("title: x\n---\nbody", "---"), Some(9));
    assert_eq!(find_closing_delimiter("---", "---"), Some(0));
    assert_eq!(find_closing_delimiter("no end", "---"), None);
    assert_eq!(find_closing_delimiter("a\n---   \nb", "---"), Some(2));
}

#[test]
fn test_strip_html_tags_uppercase_script() {
    assert_eq!(strip_html_tags("<SCRIPT>alert(1)</SCRIPT>ok"), "ok");
    assert_eq!(strip_html_tags("<Style>.x{}</Style>shown"), "shown");
}

use bamboo_ssg::assets::{fingerprinted_name, rewrite_asset_references};

#[test]
fn test_fingerprinted_name() {
    assert_eq!(
        fingerprinted_name("style", "e3b0c44298fc1c14", "css"),
        "style.e3b0c442.css"
    );
}

#[test]
fn test_rewrite_asset_references() {
    let mappings = vec![("style.css".to_string(), "style.abcd1234.css".to_string())];
    let html = "<link href=\"/style.css\"><a href=\"https://ex.com/style.css\">";
    let out = rewrite_asset_references(html, &mappings, "https://ex.com/");
    assert_eq!(
        out,
        "<link href=\"/style.abcd1234.css\"><a href=\"https://ex.com/style.abcd1234.css\">"
    );
    let untouched = rewrite_asset_references("<p>style.css mentioned</p>", &mappings, "https://ex.com");
    assert_eq!(untouched, "<p>style.css mentioned</p>");
}
