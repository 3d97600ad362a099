use vesper::markdown::{can_render_markdown, escape_html, is_allowed_link_scheme, render_markdown};

#[test]
fn escapes_html() {
    assert_eq!(render_markdown("<b>&</b>"), "&lt;b&gt;&amp;&lt;/b&gt;");
}

#[test]
fn renders_bold_italic_code() {
    assert_eq!(render_markdown("**b**"), "<strong>b</strong>");
    assert_eq!(render_markdown("*i*"), "<em>i</em>");
    assert_eq!(render_markdown("`c`"), "<code>c</code>");
}

#[test]
fn renders_allowed_links() {
    assert_eq!(
        render_markdown("[site](https://example.com)"),
        r#"<a href="https://example.com" target="_blank" rel="noopener">site</a>"#
    );
    assert_eq!(
        render_markdown("[site](http://example.com)"),
        r#"<a href="http://example.com" target="_blank" rel="noopener">site</a>"#
    );
    assert_eq!(
        render_markdown("[mail](mailto:a@b.c)"),
        r#"<a href="mailto:a@b.c" target="_blank" rel="noopener">mail</a>"#
    );
    assert_eq!(
        render_markdown("[room](matrix:r/a:b)"),
        r#"<a href="matrix:r/a:b" target="_blank" rel="noopener">room</a>"#
    );
}

#[test]
fn renders_relative_links() {
    assert_eq!(
        render_markdown("[room](/room/!abc:server)"),
        r#"<a href="/room/!abc:server" target="_blank" rel="noopener">room</a>"#
    );
    assert_eq!(
        render_markdown("[here](#section)"),
        r##"<a href="#section" target="_blank" rel="noopener">here</a>"##
    );
}

#[test]
fn blocks_obfuscated_dangerous_schemes() {
    assert!(!render_markdown("[x](\u{1}javascript:alert(1))").contains("<a "));
    assert!(!render_markdown("[x](java\tscript:alert(1))").contains("<a "));
    assert!(!render_markdown("[x](java\nscript:alert(1))").contains("<a "));
    assert!(!render_markdown("[x]( JavaScript:alert(1))").contains("<a "));
}

#[test]
fn blocks_javascript_urls() {
    assert_eq!(render_markdown("[x](javascript:alert(1))"), "[x](javascript:alert(1))");
    assert!(!render_markdown("[x](JAVASCRIPT:alert(1))").contains("<a "));
}

#[test]
fn neutralizes_attribute_injection() {
    let out = render_markdown(r#"[x](" onmouseover="alert(document.domain) a=")"#);
    assert!(!out.contains("<a "), "got: {out}");
    assert!(!out.contains('"'), "got: {out}");
    assert_eq!(out, r#"[x](&quot; onmouseover=&quot;alert(document.domain) a=&quot;)"#);
}

#[test]
fn escapes_quotes_in_link_text() {
    assert_eq!(
        render_markdown(r#"[a"b'c](https://example.com)"#),
        r#"<a href="https://example.com" target="_blank" rel="noopener">a&quot;b&#39;c</a>"#
    );
}

#[test]
fn spans_close_at_the_earliest_delimiter_on_the_same_line() {
    assert_eq!(render_markdown("**a** and **b**"), "<strong>a</strong> and <strong>b</strong>");
    assert_eq!(render_markdown("**a\nb**"), "**a\nb**");
    assert_eq!(render_markdown("***"), "<em>*</em>");
    assert_eq!(render_markdown("**"), "**");
    assert_eq!(render_markdown("`x` *y*"), "<code>x</code> <em>y</em>");
}

#[test]
fn escape_html_covers_five_characters() {
    assert_eq!(escape_html(r#"&<>"'x"#), "&amp;&lt;&gt;&quot;&#39;x");
}

#[test]
fn scheme_check_cases() {
    assert!(is_allowed_link_scheme("HTTPS://EXAMPLE.COM"));
    assert!(is_allowed_link_scheme("page.html"));
    assert!(!is_allowed_link_scheme("page one.html"));
    assert!(!is_allowed_link_scheme("ftp://example.com"));
    assert!(is_allowed_link_scheme("  https://x"));
}

#[test]
fn rendering_is_defined_on_ordinary_text() {
    assert!(can_render_markdown("[site](https://example.com) **b**"));
    assert!(!can_render_markdown("[x](ab:\u{e9}\u{e9}\u{e9})"));
}

fn every_lt_opens_a_generated_tag(html: &str) -> bool {
    let tags = ["<strong>", "</strong>", "<em>", "</em>", "<code>", "</code>", "<a href=\"", "</a>"];
    html.char_indices().filter(|(_, c)| *c == '<').all(|(i, _)| tags.iter().any(|t| html[i..].starts_with(t)))
}

#[test]
fn user_text_opens_no_tag_and_adds_no_attribute() {
    let text = "**<img src=x>** *\"q\"* `</code><script>` [a <b>](https://ex.org/?q=\"x\" onmouseover=1)";
    let html = render_markdown(text);
    assert!(every_lt_opens_a_generated_tag(&html), "{html}");
    let quotes = html.matches('"').count();
    let links = html.matches("<a href=\"").count();
    assert_eq!(quotes, 6 * links, "{html}");
}
