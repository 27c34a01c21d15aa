use exile_harness::html::{clean_snippet, html_to_text};

#[test]
fn template_generated_table_data_survives() {
    let html = r#"<div class="mw-parser-output"><table class="wikitable"><tr><th>Boss</th><th>Penalty</th></tr><tr><td>Act 5</td><td>-30%</td></tr><tr><td>Act 10</td><td>-30%</td></tr></table></div>"#;
    let text = html_to_text(html);
    assert!(text.contains("| Boss | Penalty"));
    assert!(text.contains("| Act 5 | -30%"));
    assert!(text.contains("| Act 10 | -30%"));
}

#[test]
fn block_elements_become_lines_and_scripts_vanish() {
    let html = "<p>First.</p><script>evil()</script><style>.x{}</style><h2>Heading</h2><ul><li>one</li><li>two</li></ul>";
    let text = html_to_text(html);
    assert_eq!(text, "First.\n\nHeading\n\none\n\ntwo");
    assert!(!text.contains("evil"));
}

#[test]
fn comments_and_entities_are_handled() {
    let html = "a<!-- hidden limit report -->b &amp; &quot;c&quot;&#160;d";
    assert_eq!(html_to_text(html), "ab & \"c\" d");
}

#[test]
fn comment_marker_inside_script_cannot_swallow_content() {
    let html = "<p>a</p><script>var s = \"<!--\";</script><p>REAL CONTENT</p>";
    let text = html_to_text(html);
    assert!(text.contains("REAL CONTENT"));
    assert!(!text.contains("var s"));
}

#[test]
fn bare_less_than_is_preserved_as_text() {
    assert_eq!(
        html_to_text("damage < 50 <b>and</b> more"),
        "damage < 50 and more"
    );
    assert_eq!(clean_snippet("a < b"), "a < b");
}

#[test]
fn escaped_entities_stay_literal_not_double_decoded() {
    assert_eq!(html_to_text("a &amp;#x2212; b"), "a &#x2212; b");
    assert_eq!(html_to_text("a &amp;lt;b&amp;gt; c"), "a &lt;b&gt; c");
}

#[test]
fn numeric_entities_decode() {
    assert_eq!(
        html_to_text("x &#91;1&#93; is &#x2212;5"),
        "x [1] is \u{2212}5"
    );
    // Invalid references stay literal instead of corrupting text.
    assert_eq!(
        html_to_text("a &#zz; b &#123456789; c"),
        "a &#zz; b &#123456789; c"
    );
}

#[test]
fn snippet_cleaning_strips_match_markers() {
    let snippet = r#"the <span class="searchmatch">league</span> mechanic &quot;x&quot;"#;
    assert_eq!(clean_snippet(snippet), "the league mechanic \"x\"");
}

#[test]
fn malformed_html_does_not_panic() {
    let _ = html_to_text("<p unclosed");
    let _ = html_to_text("<script>never closed");
    let _ = html_to_text("<!-- never closed");
    let _ = html_to_text("plain < bare");
}

#[test]
fn references_outside_unicode_stay_literal() {
    assert_eq!(html_to_text("&#xD800; &#x110000; &#+65; &#X41;"), "&#xD800; &#x110000; A A");
    assert_eq!(html_to_text("&#; &#x;"), "&#; &#x;");
    assert_eq!(html_to_text("é&#12345;ü"), "é\u{3039}ü");
}

#[test]
fn unclosed_markup_drops_the_rest() {
    assert_eq!(html_to_text("kept<p unclosed"), "kept");
    assert_eq!(html_to_text("kept<!-- never"), "kept");
    assert_eq!(html_to_text("kept<style>x"), "kept");
    assert_eq!(html_to_text("kept<script>x</script"), "kept");
    assert_eq!(html_to_text("<!-->shown"), "shown");
    assert_eq!(clean_snippet("kept<b"), "kept");
}

#[test]
fn runs_of_blank_lines_collapse() {
    assert_eq!(
        html_to_text("a\n\n\n\n  b  \n \t \n\n c\r\nd"),
        "a\n\nb\n\nc\nd"
    );
    assert_eq!(html_to_text("<p><p><p>x</p></p></p>"), "x");
    assert!(!html_to_text("a<br><br><br><br>b").contains("\n\n\n"));
}

#[test]
fn slashes_and_attributes_in_tags() {
    assert_eq!(html_to_text("a<br/>b<//p>c<TD>d<td class='x'>e"), "a\nb\ncd | e");
}
