//! The inline processor and the line-level helpers, called directly.

use nexa_frontend::blocks::is_list_item;
use nexa_frontend::blocks::is_task_list_item;
use nexa_frontend::blocks::parse_header;
use nexa_frontend::blocks::parse_ordered_list_item;
use nexa_frontend::blocks::parse_table;
use nexa_frontend::blocks::parse_table_row;
use nexa_frontend::blocks::parse_task_item;
use nexa_frontend::chartext::chars_vec;
use nexa_frontend::escape::escape_html;
use nexa_frontend::escape::escape_html_attr;
use nexa_frontend::escape::escape_html_char;
use nexa_frontend::inline::find_closing;
use nexa_frontend::inline::find_double_closing;
use nexa_frontend::inline::find_triple_closing;
use nexa_frontend::inline::parse_link_or_image;
use nexa_frontend::inline::process_inline;
use nexa_frontend::render::render;

#[test]
fn escape_html_maps_the_four_characters() {
    assert_eq!(escape_html("a&b<c>d\"e'f"), "a&amp;b&lt;c&gt;d&quot;e'f");
    assert_eq!(escape_html(""), "");
}

#[test]
fn escape_html_attr_also_maps_single_quotes() {
    assert_eq!(escape_html_attr("a'b\"c"), "a&#39;b&quot;c");
}

#[test]
fn escape_html_char_single() {
    assert_eq!(escape_html_char('&'), "&amp;");
    assert_eq!(escape_html_char('<'), "&lt;");
    assert_eq!(escape_html_char('>'), "&gt;");
    assert_eq!(escape_html_char('"'), "&quot;");
    assert_eq!(escape_html_char('x'), "x");
}

#[test]
fn inline_code_is_escaped_not_recursed() {
    assert_eq!(
        process_inline("`**a<b**`"),
        "<code>**a&lt;b**</code>"
    );
}

#[test]
fn inline_math_paren_form() {
    assert_eq!(
        process_inline("\\(x_1\\)"),
        "<span class=\"katex-inline\" data-latex=\"x_1\">x_1</span>"
    );
}

#[test]
fn inline_math_rejects_a_doubled_dollar_opener() {
    // the first dollar is rejected (a second follows) and rendered
    // literally; the second opens a span closed by the nearest dollar
    assert_eq!(
        process_inline("$$x$$"),
        "$<span class=\"katex-inline\" data-latex=\"x\">x</span>$"
    );
    assert_eq!(process_inline("$$"), "$$");
}

#[test]
fn bold_italic_triple_markers() {
    assert_eq!(
        process_inline("***x***"),
        "<strong><em>x</em></strong>"
    );
}

#[test]
fn bold_with_underscores() {
    assert_eq!(process_inline("__x__"), "<strong>x</strong>");
}

#[test]
fn italic_opener_rejected_before_space() {
    assert_eq!(process_inline("* x*"), "* x*");
    assert_eq!(process_inline("*x*"), "<em>x</em>");
    assert_eq!(process_inline("_x_"), "<em>x</em>");
}

#[test]
fn unmatched_delimiters_render_literally() {
    assert_eq!(process_inline("**x"), "**x");
    assert_eq!(process_inline("*x"), "*x");
    assert_eq!(process_inline("~~x"), "~~x");
    assert_eq!(process_inline("`x"), "`x");
    assert_eq!(process_inline("^x"), "^x");
}

#[test]
fn greedy_nearest_closer_wins() {
    // the first closing dollar ends the span, whatever follows
    assert_eq!(
        process_inline("$5 and $6"),
        "<span class=\"katex-inline\" data-latex=\"5 and \">5 and </span>6"
    );
}

#[test]
fn link_and_image() {
    assert_eq!(
        process_inline("[t](u)"),
        "<a href=\"u\" target=\"_blank\" rel=\"noopener\">t</a>"
    );
    assert_eq!(
        process_inline("![alt](u)"),
        "<img src=\"u\" alt=\"alt\" class=\"chat-image\" loading=\"lazy\">"
    );
}

#[test]
fn link_text_is_recursed_and_url_escaped() {
    assert_eq!(
        process_inline("[**b**](http://e/?q=\"1\")"),
        "<a href=\"http://e/?q=&quot;1&quot;\" target=\"_blank\" rel=\"noopener\"><strong>b</strong></a>"
    );
}

#[test]
fn malformed_link_falls_through_to_literal_text() {
    assert_eq!(process_inline("[t](u"), "[t](u");
    assert_eq!(process_inline("[t] (u)"), "[t] (u)");
    assert_eq!(process_inline("![t"), "![t");
}

#[test]
fn strikethrough_and_superscript() {
    assert_eq!(process_inline("~~x~~"), "<del>x</del>");
    assert_eq!(process_inline("a^2^"), "a<sup>2</sup>");
    assert_eq!(process_inline("^ x^"), "^ x^");
    assert_eq!(process_inline("x^a<b^"), "x<sup>a&lt;b</sup>");
}

#[test]
fn br_literal_passthrough() {
    assert_eq!(process_inline("a<br>b"), "a<br>b");
    assert_eq!(process_inline("a<b>c"), "a&lt;b&gt;c");
}

#[test]
fn find_closing_functions() {
    let v = chars_vec("a*b**c***d");
    assert_eq!(find_closing(&v, 0, '*'), Some(1));
    assert_eq!(find_closing(&v, 2, '*'), Some(3));
    assert_eq!(find_closing(&v, 0, 'z'), None);
    assert_eq!(find_double_closing(&v, 0, '*'), Some(3));
    assert_eq!(find_triple_closing(&v, 0, '*'), Some(6));
    assert_eq!(find_triple_closing(&v, 7, '*'), None);
}

#[test]
fn parse_link_or_image_positions() {
    let v = chars_vec("[t](u)x");
    let (text, url, end) = parse_link_or_image(&v, 0).unwrap();
    assert_eq!(text, "t");
    assert_eq!(url, "u");
    assert_eq!(end, 6);
    let w = chars_vec("[t](u");
    assert!(parse_link_or_image(&w, 0).is_none());
}

#[test]
fn task_item_helpers() {
    assert!(is_task_list_item("- [x] done"));
    assert!(is_task_list_item("* [ ] open"));
    assert!(is_task_list_item("  - [X] caps"));
    assert!(!is_task_list_item("- [y] no"));
    let (checked, text) = parse_task_item("- [x] done");
    assert!(checked);
    assert_eq!(text, "done");
    let (unchecked, text2) = parse_task_item("- [ ] todo");
    assert!(!unchecked);
    assert_eq!(text2, "todo");
    let (no, whole) = parse_task_item("plain");
    assert!(!no);
    assert_eq!(whole, "plain");
}

#[test]
fn list_item_helpers() {
    assert!(is_list_item("- a"));
    assert!(is_list_item("* a"));
    assert!(is_list_item("+ a"));
    assert!(is_list_item("12. a"));
    assert!(!is_list_item("1234. a"));
    assert!(!is_list_item("-a"));
    assert_eq!(parse_ordered_list_item("1. one"), Some("one".to_string()));
    assert_eq!(parse_ordered_list_item("999. x"), Some("x".to_string()));
    assert_eq!(parse_ordered_list_item("a. x"), None);
    assert_eq!(parse_ordered_list_item("1.x"), None);
}

#[test]
fn header_helper() {
    assert_eq!(parse_header("## Hi"), Some("<h2>Hi</h2>".to_string()));
    assert_eq!(parse_header("# **b**"), Some("<h1><strong>b</strong></h1>".to_string()));
    assert_eq!(parse_header("x"), None);
    assert_eq!(parse_header("####### x"), None);
}

#[test]
fn table_row_and_table_helpers() {
    let cells = parse_table_row(&chars_vec("| a | b |"));
    let texts: Vec<String> = cells.iter().map(|c| c.iter().collect()).collect();
    assert_eq!(texts, vec!["a".to_string(), "b".to_string()]);

    let lines = vec![
        chars_vec("| h |"),
        chars_vec("|---|"),
        chars_vec("| 1 |"),
        chars_vec("done"),
    ];
    let (html, next) = parse_table(&lines, 0);
    assert!(html.contains("<th>h</th>"));
    assert!(html.contains("<td>1</td>"));
    assert_eq!(next, 3);
}

#[test]
fn render_is_reentrant_over_a_growing_stream() {
    let doc = "# T\n\ntok1 tok2 **tok3**";
    let mut shown = String::new();
    for cut in 1..=doc.len() {
        if doc.is_char_boundary(cut) {
            shown = render(&doc[..cut], true);
        }
    }
    assert_eq!(shown, render(doc, false));
}
