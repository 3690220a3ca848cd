//! End-to-end renderings of whole documents.

use nexa_frontend::render::render;
use nexa_frontend::render::render_markdown_to_html;

#[test]
fn empty_input_renders_empty() {
    assert_eq!(render("", true), "");
    assert_eq!(render("", false), "");
}

#[test]
fn streaming_flag_does_not_change_output() {
    let doc = "# T\n\nHello **world** `x` $a$\n\n- one\n- two";
    assert_eq!(render(doc, true), render(doc, false));
    assert_eq!(render(doc, false), render_markdown_to_html(doc));
}

#[test]
fn plain_bold_paragraph() {
    let out = render("Hello **world**", false);
    assert_eq!(out, "<p>Hello <strong>world</strong></p>");
}

#[test]
fn fenced_code_block_with_language() {
    let out = render("```py\nprint(1)\n```", false);
    assert!(out.contains("class=\"language-py\""));
    assert!(out.contains(">print(1)</code>"));
    assert!(out.contains("<span class=\"code-lang\">py</span>"));
    assert!(out.starts_with("<div class=\"code-block\">"));
    assert!(out.ends_with("</code></pre></div>"));
}

#[test]
fn fenced_code_block_without_language() {
    let out = render("```\na\nb\n```", false);
    assert!(out.contains("<span class=\"code-lang\">code</span>"));
    assert!(out.contains("<pre><code>a\nb</code></pre>"));
}

#[test]
fn unterminated_fence_consumes_to_end_and_stays_well_formed() {
    let out = render("```py\nprint(1)", false);
    assert!(out.contains("class=\"language-py\""));
    assert!(out.contains(">print(1)</code>"));
    assert!(out.ends_with("</code></pre></div>"));
}

#[test]
fn fence_language_tag_is_escaped_in_class_attribute() {
    let out = render("```a\"b\nx\n```", false);
    assert!(out.contains("class=\"language-a&quot;b\""));
    assert!(!out.contains("class=\"language-a\"b\""));
}

#[test]
fn simple_table() {
    let out = render("| a | b |\n|---|---|\n| 1 | 2 |", false);
    assert_eq!(
        out,
        "<div class=\"table-wrapper\"><table><thead><tr><th>a</th><th>b</th></tr></thead>\
         <tbody><tr><td>1</td><td>2</td></tr></tbody></table></div>"
    );
}

#[test]
fn table_with_header_and_no_body_has_empty_tbody() {
    let out = render("| a | b |", false);
    assert!(out.contains("<th>a</th><th>b</th>"));
    assert!(out.contains("<tbody></tbody>"));
}

#[test]
fn line_after_table_header_is_always_the_separator() {
    let out = render("| a |\n| b |", false);
    assert!(out.contains("<th>a</th>"));
    assert!(out.contains("<tbody></tbody>"));
    assert!(!out.contains("<td>b</td>"));
}

#[test]
fn task_list_checked_and_unchecked_in_order() {
    let out = render("- [x] done\n- [ ] todo", false);
    assert_eq!(
        out,
        "<ul class=\"task-list\">\
         <li class=\"task-list-item task-list-item--checked\">\
         <span class=\"task-checkbox task-checkbox--checked\">&#9745;</span> done</li>\
         <li class=\"task-list-item\"><span class=\"task-checkbox\">&#9744;</span> todo</li>\
         </ul>"
    );
    let checked = out.find("task-list-item--checked").unwrap();
    let unchecked = out.find("todo").unwrap();
    assert!(checked < unchecked);
}

#[test]
fn script_tag_is_escaped_not_executed() {
    let out = render("<script>alert(1)</script>", false);
    assert_eq!(out, "<p>&lt;script&gt;alert(1)&lt;/script&gt;</p>");
    assert!(!out.contains("<script"));
}

#[test]
fn inline_math_dollar_form() {
    let out = render("$x^2$", false);
    assert_eq!(
        out,
        "<p><span class=\"katex-inline\" data-latex=\"x^2\">x^2</span></p>"
    );
}

#[test]
fn nesting_order_follows_marker_order() {
    assert_eq!(
        render("**_x_**", false),
        "<p><strong><em>x</em></strong></p>"
    );
    assert_eq!(
        render("_**x**_", false),
        "<p><em><strong>x</strong></em></p>"
    );
}

#[test]
fn list_interrupted_by_blank_line_renders_two_lists() {
    let out = render("- a\n\n- b", false);
    assert_eq!(out, "<ul><li>a</li></ul><ul><li>b</li></ul>");
}

#[test]
fn list_kind_switch_closes_open_list() {
    let out = render("- a\n1. b", false);
    assert_eq!(out, "<ul><li>a</li></ul><ol><li>b</li></ol>");
}

#[test]
fn ordered_list() {
    let out = render("1. one\n2. two", false);
    assert_eq!(out, "<ol><li>one</li><li>two</li></ol>");
}

#[test]
fn unordered_list_left_open_is_closed_at_end_of_input() {
    let out = render("- a\n- b", false);
    assert_eq!(out, "<ul><li>a</li><li>b</li></ul>");
}

#[test]
fn headings_levels_and_non_headings() {
    assert_eq!(render("# Title", false), "<h1>Title</h1>");
    assert_eq!(render("### Three", false), "<h3>Three</h3>");
    assert_eq!(render("###### Six", false), "<h6>Six</h6>");
    // seven markers, no marker space, or an empty remainder: not a heading
    assert_eq!(render("####### x", false), "<p>####### x</p>");
    assert_eq!(render("#x", false), "<p>#x</p>");
    assert_eq!(render("# ", false), "<p># </p>");
    assert_eq!(render("#", false), "<p>#</p>");
}

#[test]
fn blockquote_lines_become_paragraphs() {
    let out = render("> a\n> b", false);
    assert_eq!(out, "<blockquote><p>a</p><p>b</p></blockquote>");
    assert_eq!(render(">", false), "<blockquote><p></p></blockquote>");
}

#[test]
fn thematic_breaks() {
    assert_eq!(render("---", false), "<hr>");
    assert_eq!(render("***", false), "<hr>");
    assert_eq!(render("___", false), "<hr>");
    assert_eq!(render("----", false), "<p>----</p>");
}

#[test]
fn display_math_multi_line() {
    let out = render("$$\nx+y\n$$", false);
    assert_eq!(out, "<div class=\"katex-block\" data-latex=\"x+y\">x+y</div>");
}

#[test]
fn display_math_single_line() {
    let out = render("$$e=mc^2$$", false);
    assert_eq!(
        out,
        "<div class=\"katex-block\" data-latex=\"e=mc^2\">e=mc^2</div>"
    );
}

#[test]
fn display_math_bracket_forms() {
    assert_eq!(
        render("\\[\na\n\\]", false),
        "<div class=\"katex-block\" data-latex=\"a\">a</div>"
    );
    assert_eq!(
        render("\\[x\\]", false),
        "<div class=\"katex-block\" data-latex=\"x\">x</div>"
    );
}

#[test]
fn display_math_attribute_is_escaped() {
    let out = render("$$a\"b<c$$", false);
    assert!(out.contains("data-latex=\"a&quot;b&lt;c\""));
    assert!(out.contains(">a&quot;b&lt;c</div>"));
}

#[test]
fn raw_html_passthrough_for_allowlisted_tags() {
    let line = "<div class=\"x\">hi</div>";
    assert_eq!(render(line, false), line);
    let table = "<table><tr><td>1</td></tr></table>";
    assert_eq!(render(table, false), table);
}

#[test]
fn paragraph_line_joins() {
    assert_eq!(render("a\nb", false), "<p>a b</p>");
    assert_eq!(render("a\\\nb", false), "<p>a<br>b</p>");
    assert_eq!(render("a  \nb", false), "<p>a<br>b</p>");
}

#[test]
fn blank_lines_split_paragraphs() {
    assert_eq!(render("a\n\nb", false), "<p>a</p><p>b</p>");
}

#[test]
fn escaping_in_plain_text() {
    let out = render("a & b < c > d \" e", false);
    assert_eq!(out, "<p>a &amp; b &lt; c &gt; d &quot; e</p>");
}

#[test]
fn every_prefix_renders_safely() {
    let doc = "Hello <script>alert(1)</script> **bold** `code`\n\n| a |\n|---|\n| \"q\" |\n$x<y$";
    for cut in 0..=doc.len() {
        if !doc.is_char_boundary(cut) {
            continue;
        }
        let p = &doc[..cut];
        let streamed = render(p, true);
        assert!(!streamed.contains("<script"));
        assert_eq!(streamed, render(p, false));
    }
}

#[test]
fn line_endings_with_carriage_returns() {
    assert_eq!(render("a\r\nb", false), "<p>a b</p>");
    assert_eq!(render("a\n", false), "<p>a</p>");
    assert_eq!(render("\n", false), "");
}
