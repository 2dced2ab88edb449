use snipdesk::decimal::format_thousands;
use snipdesk::highlight::{highlight_matches, mark_matches};
use snipdesk::html::{escape_html, render};
use snipdesk::paths::{normalize_path, path_ancestors};
use snipdesk::preview::render_body_with_vars;
use snipdesk::validate::{
    validate_body, validate_folder, validate_snippet, validate_tags, validate_title, BODY_MAX_CHARS, MAX_TAGS,
    TAG_MAX_CHARS, TITLE_MAX_CHARS,
};

#[test]
fn normalize_path_strips_whitespace_and_collapses_slashes() {
    assert_eq!(normalize_path("Billing/Refunds"), "Billing/Refunds");
    assert_eq!(normalize_path("  Billing // Refunds / "), "Billing/Refunds");
    assert_eq!(normalize_path("/leading/and/trailing/"), "leading/and/trailing");
    assert_eq!(normalize_path(""), "");
    assert_eq!(normalize_path("///"), "");
    assert_eq!(normalize_path(" Solo "), "Solo");
}

#[test]
fn path_ancestors_yields_each_prefix_in_order() {
    assert_eq!(
        path_ancestors("Billing/Refunds/Late"),
        vec!["Billing", "Billing/Refunds", "Billing/Refunds/Late"]
    );
    assert_eq!(path_ancestors("Solo"), vec!["Solo".to_string()]);
    let empty: Vec<String> = vec![];
    assert_eq!(path_ancestors(""), empty);
}

#[test]
fn render_preserves_utf8_content() {
    let tpl = "<p>{{CONTENT}}</p><span>{{MISSING}}</span>";
    let body =
        "caf\u{e9} cr\u{e8}me \u{b7} \u{2019}quote\u{2019} \u{2014} 100\u{a5} \u{4e2d}\u{6587}";
    let out = render(tpl, &[("CONTENT", body)]);
    assert_eq!(out, format!("<p>{body}</p><span></span>"));
}

#[test]
fn render_strips_unfilled_and_keeps_unterminated() {
    assert_eq!(render("a{{GONE}}b", &[]), "ab");
    assert_eq!(render("a{{dangling", &[]), "a{{dangling");
}

#[test]
fn thousands_separator() {
    assert_eq!(format_thousands(1234567), "1,234,567");
    assert_eq!(format_thousands(-1000), "-1,000");
    assert_eq!(format_thousands(999), "999");
}

#[test]
fn empty_query_is_plain_escape() {
    assert_eq!(highlight_matches("a < b", ""), "a &lt; b");
    assert_eq!(highlight_matches("a < b", "   "), "a &lt; b");
}

#[test]
fn case_insensitive_match_wraps_original_casing() {
    assert_eq!(
        highlight_matches("Refund the ORDER", "order"),
        "Refund the <strong class=\"search-match\">ORDER</strong>"
    );
}

#[test]
fn multiple_matches_and_escaping() {
    assert_eq!(
        highlight_matches("<x> ab AB", "ab"),
        "&lt;x&gt; <strong class=\"search-match\">ab</strong> \
         <strong class=\"search-match\">AB</strong>"
    );
    // Query content is escaped too, never injected as markup.
    assert_eq!(
        highlight_matches("a <b> c", "<b>"),
        "a <strong class=\"search-match\">&lt;b&gt;</strong> c"
    );
}

#[test]
fn multibyte_text_does_not_panic_or_misalign() {
    let s = "Grusse aus Munchen \u{1F600} caffe";
    assert_eq!(highlight_matches(s, "zzz"), escape_html(s));
    assert!(highlight_matches("\u{00C9}clair eclair", "eclair")
        .contains("<strong class=\"search-match\">eclair</strong>"));
}

#[test]
fn body_vars_and_highlight_compose() {
    let html = render_body_with_vars("Hi {name}, your order shipped", "order");
    assert!(html.contains("<span class=\"preview-var\">{name}</span>"));
    assert!(html.contains("<strong class=\"search-match\">order</strong>"));
}

#[test]
fn newlines_collapse_to_a_single_separator() {
    let sep = "<span class=\"lib-sep\">|</span>";
    // A blank-line paragraph break and the spaces around it collapse to
    // one separator, with none dangling at either end.
    let html = render_body_with_vars("\n\nHi,\n\n  Thanks.\n\n", "");
    assert_eq!(html, format!("Hi,{sep}Thanks."));
    // No line breaks -> no separators at all.
    assert!(!render_body_with_vars("one line", "").contains(sep));
}

#[test]
fn blanks_before_a_line_break_go_with_it() {
    let sep = "<span class=\"lib-sep\">|</span>";
    assert_eq!(render_body_with_vars("Hi  \n \t Bob", ""), format!("Hi{sep}Bob"));
    assert_eq!(render_body_with_vars("  \nHi \r\n", ""), "Hi");
    assert_eq!(render_body_with_vars("a  b ", ""), "a  b ");
}

#[test]
fn matches_are_marked_where_the_needle_stands() {
    let needle: Vec<char> = "b".chars().collect();
    let low: Vec<char> = "a<b".chars().collect();
    assert_eq!(
        mark_matches("A<B", &low, &vec![0, 1, 2, 3], &needle),
        "A&lt;<strong class=\"search-match\">B</strong>"
    );
    assert_eq!(mark_matches("A<B", &low, &vec![0, 1, 2, 3], &vec![]), "A&lt;B");
}

#[test]
fn accepts_ordinary_snippets() {
    assert!(validate_snippet(
        "Greeting",
        "Hello!\r\n\tHow can I help?",
        &["billing".to_string()],
        Some("Replies/English"),
    )
    .is_ok());
}

#[test]
fn accepts_multibyte_text_up_to_the_char_limit() {
    let title = "\u{305b}".repeat(TITLE_MAX_CHARS);
    assert!(validate_title(&title).is_ok());
    let over = "\u{305b}".repeat(TITLE_MAX_CHARS + 1);
    assert!(validate_title(&over).is_err());
}

#[test]
fn rejects_oversized_body() {
    let body = "a".repeat(BODY_MAX_CHARS + 1);
    assert!(validate_body(&body).is_err());
    let ok = "a".repeat(BODY_MAX_CHARS);
    assert!(validate_body(&ok).is_ok());
}

#[test]
fn rejects_control_characters() {
    assert!(validate_title("null\u{0}byte").is_err());
    assert!(validate_title("two\nlines").is_err());
    assert!(validate_body("escape\u{1b}[31m sequence").is_err());
    assert!(validate_body("but newlines\nand tabs\tare fine").is_ok());
    assert!(validate_tags(&["bad\ttag".to_string()]).is_err());
    assert!(validate_folder(Some("a\u{0}b")).is_err());
}

#[test]
fn rejects_empty_and_whitespace_titles() {
    assert!(validate_title("").is_err());
    assert!(validate_title("   ").is_err());
}

#[test]
fn rejects_tag_overflow() {
    let many: Vec<String> = (0..MAX_TAGS + 1).map(|i| format!("t{i}")).collect();
    assert!(validate_tags(&many).is_err());
    let long = "x".repeat(TAG_MAX_CHARS + 1);
    assert!(validate_tags(&[long]).is_err());
}
