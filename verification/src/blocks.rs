//! The block segmenter: walks the input line by line, classifies each line
//! into a block kind in a fixed precedence order (fenced code, display math,
//! table, thematic break, heading, blockquote, task item, unordered and
//! ordered list items, blank line, raw HTML passthrough, paragraph), and
//! emits the block's HTML, handing prose content to the inline processor.
//! A list left open is closed before any non-item block and at end of input.

use vstd::prelude::*;
use crate::chartext::spec_find;
use crate::chartext::trim_start_of;
use crate::chartext::trim_start_idx;
use crate::chartext::trim_bounds;
use crate::chartext::trim_end_of;
use crate::chartext::trim_of;
use crate::chartext::ws_end;
use crate::escape::spec_escape;
use crate::escape::spec_escape_attr;
use crate::inline::spec_find2;
use crate::lines::lines_view;
use crate::inline::spec_inline;

verus! {

/// Which list element is currently open while walking the lines.
#[derive(Clone, Copy, PartialEq, Eq, Structural)]
pub enum ListKind {
    Off,
    Ul,
    Ol,
}

/// The closing tag owed to the currently open list, if any.
pub open spec fn close_tag(k: ListKind) -> Seq<char> {
    match k {
        ListKind::Off => Seq::empty(),
        ListKind::Ul => "</ul>"@,
        ListKind::Ol => "</ol>"@,
    }
}

/// First index `j >= i` whose character is not `c`, or `s.len()`.
pub open spec fn run_end(s: Seq<char>, c: char, i: int) -> int
    decreases s.len() - i,
{
    if i < 0 || i >= s.len() {
        s.len() as int
    } else if s[i] == c {
        run_end(s, c, i + 1)
    } else {
        i
    }
}

pub proof fn lemma_run_end(s: Seq<char>, c: char, i: int)
    requires
        0 <= i <= s.len(),
    ensures
        i <= run_end(s, c, i) <= s.len(),
        run_end(s, c, i) < s.len() ==> s[run_end(s, c, i)] != c,
        forall|k: int| i <= k < run_end(s, c, i) ==> s[k] == c,
    decreases s.len() - i,
{
    if i < s.len() && s[i] == c {
        lemma_run_end(s, c, i + 1);
    }
}

/// An ASCII decimal digit.
pub open spec fn is_digit_char(c: char) -> bool {
    0x30 <= (c as u32) && (c as u32) <= 0x39
}

// ----- line classification -------------------------------------------------

/// A line whose left-trimmed content starts with three backticks.
pub open spec fn is_fence_line(l: Seq<char>) -> bool {
    let t = trim_start_of(l);
    t.len() >= 3 && t[0] == '`' && t[1] == '`' && t[2] == '`'
}

/// The language tag of a fence line: what follows the leading backticks,
/// trimmed.
pub open spec fn fence_lang(l: Seq<char>) -> Seq<char> {
    let t = trim_start_of(l);
    trim_of(t.subrange(run_end(t, '`', 0), t.len() as int))
}

/// A line that is exactly `$$` after trimming: the display-math delimiter.
pub open spec fn is_dollar_open(l: Seq<char>) -> bool {
    let t = trim_of(l);
    t.len() == 2 && t[0] == '$' && t[1] == '$'
}

/// A one-line display-math block: `$$ .. $$` with both delimiters.
pub open spec fn is_dollar_single(l: Seq<char>) -> bool {
    let t = trim_of(l);
    t.len() >= 4 && t[0] == '$' && t[1] == '$' && t[t.len() - 2] == '$' && t[t.len() - 1] == '$'
}

/// The math source of a one-line `$$ .. $$` block.
pub open spec fn dollar_single_content(l: Seq<char>) -> Seq<char> {
    let t = trim_of(l);
    t.subrange(2, t.len() - 2)
}

/// A line that is exactly `\[` after trimming.
pub open spec fn is_bracket_open(l: Seq<char>) -> bool {
    let t = trim_of(l);
    t.len() == 2 && t[0] == '\\' && t[1] == '['
}

/// A line that is exactly `\]` after trimming.
pub open spec fn is_bracket_close(l: Seq<char>) -> bool {
    let t = trim_of(l);
    t.len() == 2 && t[0] == '\\' && t[1] == ']'
}

/// A one-line `\[ .. ` display-math block (with or without the closer).
pub open spec fn is_bracket_single(l: Seq<char>) -> bool {
    let t = trim_of(l);
    t.len() > 2 && t[0] == '\\' && t[1] == '['
}

/// The math source of a one-line `\[ .. \]` block: both delimiters
/// stripped, then trimmed.
pub open spec fn bracket_single_content(l: Seq<char>) -> Seq<char> {
    let t = trim_of(l);
    let e = if t.len() >= 4 && t[t.len() - 2] == '\\' && t[t.len() - 1] == ']' {
        t.len() - 2
    } else {
        t.len() as int
    };
    trim_of(t.subrange(2, e))
}

/// A table line: after trimming it both starts and ends with a pipe.
pub open spec fn is_table_line(l: Seq<char>) -> bool {
    let t = trim_of(l);
    t.len() >= 1 && t[0] == '|' && t[t.len() - 1] == '|'
}

/// A thematic break: exactly `---`, `***` or `___` after trimming.
pub open spec fn is_hr_line(l: Seq<char>) -> bool {
    let t = trim_of(l);
    t.len() == 3 && ((t[0] == '-' && t[1] == '-' && t[2] == '-') || (t[0] == '*' && t[1] == '*'
        && t[2] == '*') || (t[0] == '_' && t[1] == '_' && t[2] == '_'))
}

/// The number of leading `#` characters of the left-trimmed line.
pub open spec fn header_level(l: Seq<char>) -> int {
    run_end(trim_start_of(l), '#', 0)
}

/// A heading: one to six `#`, a space, and a non-empty remainder.
pub open spec fn is_header_line(l: Seq<char>) -> bool {
    let t = trim_start_of(l);
    let h = header_level(l);
    1 <= h <= 6 && h + 1 < t.len() && t[h] == ' '
}

/// The heading text after the marker and its space.
pub open spec fn header_content(l: Seq<char>) -> Seq<char> {
    let t = trim_start_of(l);
    t.subrange(header_level(l) + 1, t.len() as int)
}

/// A blockquote line: `> ` or a lone `>` after left-trimming.
pub open spec fn is_quote_line(l: Seq<char>) -> bool {
    let t = trim_start_of(l);
    (t.len() >= 2 && t[0] == '>' && t[1] == ' ') || (t.len() == 1 && t[0] == '>')
}

/// The quoted text of one blockquote line.
pub open spec fn quote_content(l: Seq<char>) -> Seq<char> {
    let t = trim_start_of(l);
    if t.len() >= 2 && t[1] == ' ' {
        t.subrange(2, t.len() as int)
    } else {
        t.subrange(1, t.len() as int)
    }
}

/// A task list item: `- [ ] `, `- [x] ` or `- [X] `, with `*` also accepted
/// in place of `-`.
pub open spec fn is_task_line(l: Seq<char>) -> bool {
    let t = trim_start_of(l);
    t.len() >= 6 && (t[0] == '-' || t[0] == '*') && t[1] == ' ' && t[2] == '[' && (t[3] == ' '
        || t[3] == 'x' || t[3] == 'X') && t[4] == ']' && t[5] == ' '
}

/// Whether the task item is checked.
pub open spec fn task_checked(l: Seq<char>) -> bool {
    let t = trim_start_of(l);
    t[3] == 'x' || t[3] == 'X'
}

/// The item text after the task marker.
pub open spec fn task_content(l: Seq<char>) -> Seq<char> {
    let t = trim_start_of(l);
    t.subrange(6, t.len() as int)
}

/// An unordered list item: `- `, `* ` or `+ ` after left-trimming.
pub open spec fn is_ul_line(l: Seq<char>) -> bool {
    let t = trim_start_of(l);
    t.len() >= 2 && (t[0] == '-' || t[0] == '*' || t[0] == '+') && t[1] == ' '
}

/// The item text after the unordered marker.
pub open spec fn ul_content(l: Seq<char>) -> Seq<char> {
    let t = trim_start_of(l);
    t.subrange(2, t.len() as int)
}

/// Position of the first `. ` of the left-trimmed line.
pub open spec fn ol_dot(l: Seq<char>) -> int {
    spec_find2(trim_start_of(l), '.', ' ', 0)
}

/// An ordered list item: one to three ASCII digits, a dot and a space.
pub open spec fn is_ol_line(l: Seq<char>) -> bool {
    let t = trim_start_of(l);
    let d = ol_dot(l);
    d < t.len() && 1 <= d <= 3 && (forall|k: int| 0 <= k < d ==> is_digit_char(t[k]))
}

/// The item text after the ordered marker.
pub open spec fn ol_content(l: Seq<char>) -> Seq<char> {
    let t = trim_start_of(l);
    t.subrange(ol_dot(l) + 2, t.len() as int)
}

/// A line of whitespace only.
pub open spec fn is_blank_line(l: Seq<char>) -> bool {
    ws_end(l, 0) == l.len()
}

/// One of the allow-listed block-level tag fragments sits at `k`.
pub open spec fn frag_at(l: Seq<char>, k: int) -> bool {
    (k + 6 <= l.len() && l[k] == '<' && l[k + 1] == 't' && l[k + 2] == 'a' && l[k + 3] == 'b' && l[k
        + 4] == 'l' && l[k + 5] == 'e') || (k + 4 <= l.len() && l[k] == '<' && l[k + 1] == 'd' && l[
        k + 2] == 'i' && l[k + 3] == 'v') || (k + 4 <= l.len() && l[k] == '<' && l[k + 1] == 'i'
        && l[k + 2] == 'm' && l[k + 3] == 'g') || (k + 3 <= l.len() && l[k] == '<' && l[k + 1]
        == 'b' && l[k + 2] == 'r') || (k + 3 <= l.len() && l[k] == '<' && l[k + 1] == 'h' && l[k
        + 2] == 'r')
}

/// A raw HTML passthrough line: it starts with `<` after left-trimming and
/// contains one of the fixed block-level tag fragments.
pub open spec fn is_html_line(l: Seq<char>) -> bool {
    let t = trim_start_of(l);
    t.len() >= 1 && t[0] == '<' && (exists|k: int| 0 <= k && frag_at(l, k))
}

/// A line that ends the greedy paragraph accumulation.
pub open spec fn is_para_break(l: Seq<char>) -> bool {
    ||| is_blank_line(l)
    ||| (trim_start_of(l).len() >= 1 && trim_start_of(l)[0] == '#')
    ||| is_fence_line(l)
    ||| (trim_start_of(l).len() >= 2 && trim_start_of(l)[0] == '>' && trim_start_of(l)[1] == ' ')
    ||| is_ul_line(l)
    ||| (trim_of(l).len() >= 2 && trim_of(l)[0] == '$' && trim_of(l)[1] == '$')
    ||| (trim_of(l).len() >= 2 && trim_of(l)[0] == '\\' && trim_of(l)[1] == '[')
    ||| is_task_line(l)
    ||| is_table_line(l)
    ||| is_hr_line(l)
    ||| is_ol_line(l)
}

/// A line that continues an open list.
pub open spec fn is_list_item_line(l: Seq<char>) -> bool {
    is_ul_line(l) || is_task_line(l) || is_ol_line(l)
}

// ----- scans over the line sequence ----------------------------------------

/// First line index `k >= j` closing a fence, or `ls.len()`.
pub open spec fn fence_end(ls: Seq<Seq<char>>, j: int) -> int
    decreases ls.len() - j,
{
    if j < 0 || j >= ls.len() {
        ls.len() as int
    } else if is_fence_line(ls[j]) {
        j
    } else {
        fence_end(ls, j + 1)
    }
}

pub proof fn lemma_fence_end(ls: Seq<Seq<char>>, j: int)
    requires
        0 <= j <= ls.len(),
    ensures
        j <= fence_end(ls, j) <= ls.len(),
        fence_end(ls, j) < ls.len() ==> is_fence_line(ls[fence_end(ls, j)]),
        forall|k: int| j <= k < fence_end(ls, j) ==> !is_fence_line(ls[k]),
    decreases ls.len() - j,
{
    if j < ls.len() && !is_fence_line(ls[j]) {
        lemma_fence_end(ls, j + 1);
    }
}

/// First line index `k >= j` that is exactly `$$`, or `ls.len()`.
pub open spec fn dollar_end(ls: Seq<Seq<char>>, j: int) -> int
    decreases ls.len() - j,
{
    if j < 0 || j >= ls.len() {
        ls.len() as int
    } else if is_dollar_open(ls[j]) {
        j
    } else {
        dollar_end(ls, j + 1)
    }
}

pub proof fn lemma_dollar_end(ls: Seq<Seq<char>>, j: int)
    requires
        0 <= j <= ls.len(),
    ensures
        j <= dollar_end(ls, j) <= ls.len(),
        dollar_end(ls, j) < ls.len() ==> is_dollar_open(ls[dollar_end(ls, j)]),
        forall|k: int| j <= k < dollar_end(ls, j) ==> !is_dollar_open(ls[k]),
    decreases ls.len() - j,
{
    if j < ls.len() && !is_dollar_open(ls[j]) {
        lemma_dollar_end(ls, j + 1);
    }
}

/// First line index `k >= j` that is exactly `\]`, or `ls.len()`.
pub open spec fn bracket_end(ls: Seq<Seq<char>>, j: int) -> int
    decreases ls.len() - j,
{
    if j < 0 || j >= ls.len() {
        ls.len() as int
    } else if is_bracket_close(ls[j]) {
        j
    } else {
        bracket_end(ls, j + 1)
    }
}

pub proof fn lemma_bracket_end(ls: Seq<Seq<char>>, j: int)
    requires
        0 <= j <= ls.len(),
    ensures
        j <= bracket_end(ls, j) <= ls.len(),
        bracket_end(ls, j) < ls.len() ==> is_bracket_close(ls[bracket_end(ls, j)]),
        forall|k: int| j <= k < bracket_end(ls, j) ==> !is_bracket_close(ls[k]),
    decreases ls.len() - j,
{
    if j < ls.len() && !is_bracket_close(ls[j]) {
        lemma_bracket_end(ls, j + 1);
    }
}

/// First line index `k >= j` that is not a table line, or `ls.len()`.
pub open spec fn table_end(ls: Seq<Seq<char>>, j: int) -> int
    decreases ls.len() - j,
{
    if j < 0 || j >= ls.len() {
        ls.len() as int
    } else if !is_table_line(ls[j]) {
        j
    } else {
        table_end(ls, j + 1)
    }
}

pub proof fn lemma_table_end(ls: Seq<Seq<char>>, j: int)
    requires
        0 <= j <= ls.len(),
    ensures
        j <= table_end(ls, j) <= ls.len(),
        table_end(ls, j) < ls.len() ==> !is_table_line(ls[table_end(ls, j)]),
        forall|k: int| j <= k < table_end(ls, j) ==> is_table_line(ls[k]),
    decreases ls.len() - j,
{
    if j < ls.len() && is_table_line(ls[j]) {
        lemma_table_end(ls, j + 1);
    }
}

/// First line index `k >= j` that is not a blockquote line, or `ls.len()`.
pub open spec fn quote_end(ls: Seq<Seq<char>>, j: int) -> int
    decreases ls.len() - j,
{
    if j < 0 || j >= ls.len() {
        ls.len() as int
    } else if !is_quote_line(ls[j]) {
        j
    } else {
        quote_end(ls, j + 1)
    }
}

pub proof fn lemma_quote_end(ls: Seq<Seq<char>>, j: int)
    requires
        0 <= j <= ls.len(),
    ensures
        j <= quote_end(ls, j) <= ls.len(),
        quote_end(ls, j) < ls.len() ==> !is_quote_line(ls[quote_end(ls, j)]),
        forall|k: int| j <= k < quote_end(ls, j) ==> is_quote_line(ls[k]),
    decreases ls.len() - j,
{
    if j < ls.len() && is_quote_line(ls[j]) {
        lemma_quote_end(ls, j + 1);
    }
}

/// First line index `k >= j` on which a paragraph breaks, or `ls.len()`.
pub open spec fn para_end(ls: Seq<Seq<char>>, j: int) -> int
    decreases ls.len() - j,
{
    if j < 0 || j >= ls.len() {
        ls.len() as int
    } else if is_para_break(ls[j]) {
        j
    } else {
        para_end(ls, j + 1)
    }
}

pub proof fn lemma_para_end(ls: Seq<Seq<char>>, j: int)
    requires
        0 <= j <= ls.len(),
    ensures
        j <= para_end(ls, j) <= ls.len(),
        para_end(ls, j) < ls.len() ==> is_para_break(ls[para_end(ls, j)]),
        forall|k: int| j <= k < para_end(ls, j) ==> !is_para_break(ls[k]),
    decreases ls.len() - j,
{
    if j < ls.len() && !is_para_break(ls[j]) {
        lemma_para_end(ls, j + 1);
    }
}

// ----- block chunks ---------------------------------------------------------

/// The code block's header row: the escaped language label (or the generic
/// `code` caption) and the copy-trigger affordance.
pub open spec fn code_header(lang: Seq<char>) -> Seq<char> {
    "<div class=\"code-block-header\"><span class=\"code-lang\">"@ + (if lang.len() == 0 {
        "code"@
    } else {
        spec_escape(lang)
    })
        + "</span><button class=\"code-copy-btn\" onclick=\"navigator.clipboard.writeText(this.parentElement.nextElementSibling.textContent)\">Copy</button></div>"@
}

/// The `language-..` class attribute on the inner code element.
pub open spec fn code_attr(lang: Seq<char>) -> Seq<char> {
    if lang.len() == 0 {
        Seq::empty()
    } else {
        " class=\"language-"@ + spec_escape_attr(lang) + "\""@
    }
}

/// Fence body lines after the first, each preceded by a newline.
pub open spec fn fence_rest(ls: Seq<Seq<char>>, k: int, e: int) -> Seq<char>
    decreases e - k,
{
    if k < 0 || k >= e {
        Seq::empty()
    } else {
        "\n"@ + spec_escape(ls[k]) + fence_rest(ls, k + 1, e)
    }
}

/// The escaped, newline-joined body of a fenced code block.
pub open spec fn fence_body(ls: Seq<Seq<char>>, j: int, e: int) -> Seq<char> {
    if j < 0 || j >= e {
        Seq::empty()
    } else {
        spec_escape(ls[j]) + fence_rest(ls, j + 1, e)
    }
}

/// Where the walk resumes after a fence opened at `i`: past the closing
/// fence line, or the end of input for an unterminated fence.
pub open spec fn fence_next(ls: Seq<Seq<char>>, i: int) -> int {
    let e = fence_end(ls, i + 1);
    if e < ls.len() {
        e + 1
    } else {
        ls.len() as int
    }
}

/// The fenced code block opened at line `i`.
pub open spec fn fence_chunk(ls: Seq<Seq<char>>, i: int) -> Seq<char> {
    let lang = fence_lang(ls[i]);
    "<div class=\"code-block\">"@ + code_header(lang) + "<pre><code"@ + code_attr(lang) + ">"@
        + fence_body(ls, i + 1, fence_end(ls, i + 1)) + "</code></pre></div>"@
}

/// A display math block over its raw source.
pub open spec fn math_block(latex: Seq<char>) -> Seq<char> {
    "<div class=\"katex-block\" data-latex=\""@ + spec_escape_attr(latex) + "\">"@ + spec_escape(
        latex,
    ) + "</div>"@
}

/// The newline-joined source of a multi-line math block; a separator is
/// written only once some text has accumulated.
pub open spec fn math_body(ls: Seq<Seq<char>>, k: int, e: int, nonempty: bool) -> Seq<char>
    decreases e - k,
{
    if k < 0 || k >= e {
        Seq::empty()
    } else {
        (if nonempty {
            "\n"@
        } else {
            Seq::empty()
        }) + ls[k] + math_body(ls, k + 1, e, nonempty || ls[k].len() > 0)
    }
}

/// Where the walk resumes after a multi-line math block opened at `i`.
pub open spec fn math_next(ls: Seq<Seq<char>>, e: int) -> int {
    if e < ls.len() {
        e + 1
    } else {
        ls.len() as int
    }
}

/// The cells of a table row, split on pipes, each cell trimmed.
pub open spec fn cells_from(inner: Seq<char>, k: int) -> Seq<Seq<char>>
    decreases inner.len() - k,
        via cells_from_dec
{
    if k < 0 || k > inner.len() {
        seq![]
    } else {
        let j = spec_find(inner, '|', k);
        if j < inner.len() {
            seq![trim_of(inner.subrange(k, j))] + cells_from(inner, j + 1)
        } else {
            seq![trim_of(inner.subrange(k, inner.len() as int))]
        }
    }
}

#[via_fn]
proof fn cells_from_dec(inner: Seq<char>, k: int) {
    if 0 <= k <= inner.len() {
        crate::chartext::lemma_find(inner, '|', k);
    }
}

/// The cells of one table row: one leading and one trailing pipe removed,
/// the rest split on pipes and trimmed.
pub open spec fn row_cells(l: Seq<char>) -> Seq<Seq<char>> {
    let t = trim_of(l);
    let inner = if t.len() >= 2 {
        t.subrange(1, t.len() - 1)
    } else {
        Seq::<char>::empty()
    };
    cells_from(inner, 0)
}

/// A run of table cells, each inline-processed inside its cell element.
pub open spec fn cells_html(cs: Seq<Seq<char>>, k: int, open: Seq<char>, close: Seq<char>) -> Seq<
    char,
>
    decreases cs.len() - k,
{
    if k < 0 || k >= cs.len() {
        Seq::empty()
    } else {
        open + spec_inline(cs[k]) + close + cells_html(cs, k + 1, open, close)
    }
}

/// The body rows of a table.
pub open spec fn table_rows(ls: Seq<Seq<char>>, j: int, e: int) -> Seq<char>
    decreases e - j,
{
    if j < 0 || j >= e {
        Seq::empty()
    } else {
        "<tr>"@ + cells_html(row_cells(ls[j]), 0, "<td>"@, "</td>"@) + "</tr>"@ + table_rows(
            ls,
            j + 1,
            e,
        )
    }
}

/// Where the walk resumes after a table with its header at `i`: the header
/// row and the separator line are consumed, then every contiguous body row.
pub open spec fn table_next(ls: Seq<Seq<char>>, i: int) -> int {
    table_end(ls, i + 2)
}

/// The table whose header row is line `i`: the line after it is skipped as
/// the separator, whatever it holds, and the contiguous pipe-bounded lines
/// after that are the body rows.
pub open spec fn table_chunk(ls: Seq<Seq<char>>, i: int) -> Seq<char> {
    "<div class=\"table-wrapper\"><table><thead><tr>"@ + cells_html(
        row_cells(ls[i]),
        0,
        "<th>"@,
        "</th>"@,
    ) + "</tr></thead><tbody>"@ + table_rows(ls, i + 2, table_end(ls, i + 2))
        + "</tbody></table></div>"@
}

/// The opening tag of a heading of the given level.
pub open spec fn header_open(h: int) -> Seq<char> {
    if h == 1 {
        "<h1>"@
    } else if h == 2 {
        "<h2>"@
    } else if h == 3 {
        "<h3>"@
    } else if h == 4 {
        "<h4>"@
    } else if h == 5 {
        "<h5>"@
    } else {
        "<h6>"@
    }
}

/// The closing tag of a heading of the given level.
pub open spec fn header_close(h: int) -> Seq<char> {
    if h == 1 {
        "</h1>"@
    } else if h == 2 {
        "</h2>"@
    } else if h == 3 {
        "</h3>"@
    } else if h == 4 {
        "</h4>"@
    } else if h == 5 {
        "</h5>"@
    } else {
        "</h6>"@
    }
}

/// The heading element for a heading line.
pub open spec fn header_chunk(l: Seq<char>) -> Seq<char> {
    header_open(header_level(l)) + spec_inline(header_content(l)) + header_close(header_level(l))
}

/// The paragraphs inside one blockquote, one per quoted line.
pub open spec fn quote_body(ls: Seq<Seq<char>>, j: int, e: int) -> Seq<char>
    decreases e - j,
{
    if j < 0 || j >= e {
        Seq::empty()
    } else {
        "<p>"@ + spec_inline(quote_content(ls[j])) + "</p>"@ + quote_body(ls, j + 1, e)
    }
}

/// The blockquote whose first line is `i`.
pub open spec fn quote_chunk(ls: Seq<Seq<char>>, i: int) -> Seq<char> {
    "<blockquote>"@ + quote_body(ls, i, quote_end(ls, i + 1)) + "</blockquote>"@
}

/// One task list item, with its marker glyph and modifier class.
pub open spec fn task_item(l: Seq<char>) -> Seq<char> {
    (if task_checked(l) {
        "<li class=\"task-list-item task-list-item--checked\"><span class=\"task-checkbox task-checkbox--checked\">&#9745;</span> "@
    } else {
        "<li class=\"task-list-item\"><span class=\"task-checkbox\">&#9744;</span> "@
    }) + spec_inline(task_content(l)) + "</li>"@
}

/// How one paragraph line is joined to the text that follows it: a trailing
/// backslash or a trailing double space becomes a hard line break, anything
/// else a single space.
pub open spec fn joined_form(l: Seq<char>) -> Seq<char> {
    if l.len() > 0 && l[l.len() - 1] == '\\' {
        l.subrange(0, l.len() - 1) + "<br>"@
    } else if l.len() >= 2 && l[l.len() - 1] == ' ' && l[l.len() - 2] == ' ' {
        trim_end_of(l) + "<br>"@
    } else {
        l + " "@
    }
}

/// The accumulated text of a paragraph spanning lines `k..e`.
pub open spec fn para_text(ls: Seq<Seq<char>>, k: int, e: int) -> Seq<char>
    decreases e - k,
{
    if k < 0 || k >= e {
        Seq::empty()
    } else if k + 1 >= e {
        ls[k]
    } else {
        joined_form(ls[k]) + para_text(ls, k + 1, e)
    }
}

/// The paragraph that starts at line `i`: the line itself and every
/// following line up to the next break, joined and inline-processed.
pub open spec fn para_chunk(ls: Seq<Seq<char>>, i: int) -> Seq<char> {
    "<p>"@ + spec_inline(para_text(ls, i, para_end(ls, i + 1))) + "</p>"@
}

// ----- the walk -------------------------------------------------------------

/// The HTML of all blocks from line `i` on, with `lk` the list element
/// currently open.  The first matching rule wins; the fall-through is the
/// greedy paragraph.
pub open spec fn spec_blocks(ls: Seq<Seq<char>>, i: int, lk: ListKind) -> Seq<char>
    decreases ls.len() - i,
        via spec_blocks_dec
{
    if i < 0 || i >= ls.len() {
        close_tag(lk)
    } else {
        let l = ls[i];
        if is_fence_line(l) {
            close_tag(lk) + fence_chunk(ls, i) + spec_blocks(ls, fence_next(ls, i), ListKind::Off)
        } else if is_dollar_open(l) {
            close_tag(lk) + math_block(math_body(ls, i + 1, dollar_end(ls, i + 1), false))
                + spec_blocks(ls, math_next(ls, dollar_end(ls, i + 1)), ListKind::Off)
        } else if is_dollar_single(l) {
            close_tag(lk) + math_block(dollar_single_content(l)) + spec_blocks(
                ls,
                i + 1,
                ListKind::Off,
            )
        } else if is_bracket_open(l) {
            close_tag(lk) + math_block(math_body(ls, i + 1, bracket_end(ls, i + 1), false))
                + spec_blocks(ls, math_next(ls, bracket_end(ls, i + 1)), ListKind::Off)
        } else if is_bracket_single(l) {
            close_tag(lk) + math_block(bracket_single_content(l)) + spec_blocks(
                ls,
                i + 1,
                ListKind::Off,
            )
        } else if is_table_line(l) {
            close_tag(lk) + table_chunk(ls, i) + spec_blocks(ls, table_next(ls, i), ListKind::Off)
        } else if is_hr_line(l) {
            close_tag(lk) + "<hr>"@ + spec_blocks(ls, i + 1, ListKind::Off)
        } else if is_header_line(l) {
            close_tag(lk) + header_chunk(l) + spec_blocks(ls, i + 1, ListKind::Off)
        } else if is_quote_line(l) {
            close_tag(lk) + quote_chunk(ls, i) + spec_blocks(ls, quote_end(ls, i + 1), ListKind::Off)
        } else if is_task_line(l) {
            (if lk == ListKind::Ul {
                Seq::<char>::empty()
            } else {
                close_tag(lk) + "<ul class=\"task-list\">"@
            }) + task_item(l) + spec_blocks(ls, i + 1, ListKind::Ul)
        } else if is_ul_line(l) {
            (if lk == ListKind::Ul {
                Seq::<char>::empty()
            } else {
                close_tag(lk) + "<ul>"@
            }) + "<li>"@ + spec_inline(ul_content(l)) + "</li>"@ + spec_blocks(
                ls,
                i + 1,
                ListKind::Ul,
            )
        } else if is_ol_line(l) {
            (if lk == ListKind::Ol {
                Seq::<char>::empty()
            } else {
                close_tag(lk) + "<ol>"@
            }) + "<li>"@ + spec_inline(ol_content(l)) + "</li>"@ + spec_blocks(
                ls,
                i + 1,
                ListKind::Ol,
            )
        } else if is_blank_line(l) {
            close_tag(lk) + spec_blocks(ls, i + 1, ListKind::Off)
        } else if is_html_line(l) {
            close_tag(lk) + l + spec_blocks(ls, i + 1, ListKind::Off)
        } else {
            close_tag(lk) + para_chunk(ls, i) + spec_blocks(ls, para_end(ls, i + 1), ListKind::Off)
        }
    }
}

#[via_fn]
proof fn spec_blocks_dec(ls: Seq<Seq<char>>, i: int, lk: ListKind) {
    if 0 <= i < ls.len() {
        lemma_fence_end(ls, i + 1);
        lemma_dollar_end(ls, i + 1);
        lemma_bracket_end(ls, i + 1);
        lemma_quote_end(ls, i + 1);
        lemma_para_end(ls, i + 1);
        if i + 2 <= ls.len() {
            lemma_table_end(ls, i + 2);
        } else {
            assert(table_end(ls, i + 2) == ls.len());
        }
    }
}

/// The rendering of a whole sequence of lines.
pub open spec fn spec_render_lines(ls: Seq<Seq<char>>) -> Seq<char> {
    spec_blocks(ls, 0, ListKind::Off)
}


// ----- executable line classification ---------------------------------------

/// Scans the run of `c` markers opening the left-trimmed line.
pub fn marker_scan(l: &Vec<char>, a: usize, c: char) -> (h: usize)
    requires
        a == ws_end(l@, 0),
    ensures
        a <= h <= l@.len(),
        h - a == run_end(trim_start_of(l@), c, 0),
{
    let ghost t = trim_start_of(l@);
    let n = l.len();
    let mut h: usize = a;
    proof {
        crate::chartext::lemma_ws_end(l@, 0);
    }
    while h < n && l[h] == c
        invariant
            a <= h <= n == l@.len(),
            a == ws_end(l@, 0),
            run_end(t, c, 0) == run_end(t, c, h - a),
            t == trim_start_of(l@),
        decreases n - h,
    {
        proof {
            assert(t[h - a] == l@[h as int]);
        }
        h = h + 1;
    }
    proof {
        if h < n {
            assert(t[h - a] == l@[h as int]);
        }
    }
    h
}

/// Whether the line opens or closes a fenced code block.
pub fn fence_line(l: &Vec<char>) -> (r: bool)
    ensures
        r == is_fence_line(l@),
{
    let a = trim_start_idx(l);
    let n = l.len();
    proof {
        crate::chartext::lemma_ws_end(l@, 0);
        if n - a >= 3 {
            assert(trim_start_of(l@)[0] == l@[a as int]);
            assert(trim_start_of(l@)[1] == l@[a as int + 1]);
            assert(trim_start_of(l@)[2] == l@[a as int + 2]);
        }
    }
    n - a >= 3 && l[a] == '`' && l[a + 1] == '`' && l[a + 2] == '`'
}

/// Whether the line is exactly the `$$` delimiter.
pub fn dollar_open_line(l: &Vec<char>) -> (r: bool)
    ensures
        r == is_dollar_open(l@),
{
    let b = trim_bounds(l);
    if b.0 >= l.len() {
        return false;
    }
    proof {
        assert(trim_of(l@)[0] == l@[b.0 as int]);
        if b.1 - b.0 == 2 {
            assert(trim_of(l@)[1] == l@[b.0 as int + 1]);
        }
    }
    b.1 - b.0 == 2 && l[b.0] == '$' && l[b.0 + 1] == '$'
}

/// Whether the line is a one-line `$$ .. $$` block.
pub fn dollar_single_line(l: &Vec<char>) -> (r: bool)
    ensures
        r == is_dollar_single(l@),
{
    let b = trim_bounds(l);
    if b.0 >= l.len() {
        return false;
    }
    if b.1 - b.0 < 4 {
        return false;
    }
    proof {
        assert(trim_of(l@)[0] == l@[b.0 as int]);
        assert(trim_of(l@)[1] == l@[b.0 as int + 1]);
        assert(trim_of(l@)[trim_of(l@).len() - 2] == l@[b.1 as int - 2]);
        assert(trim_of(l@)[trim_of(l@).len() - 1] == l@[b.1 as int - 1]);
    }
    l[b.0] == '$' && l[b.0 + 1] == '$' && l[b.1 - 2] == '$' && l[b.1 - 1] == '$'
}

/// Whether the line is exactly `\[`, exactly `\]`, or a longer line that
/// starts with `\[` after trimming; the three bracket-math shapes.
pub fn bracket_shape(l: &Vec<char>) -> (r: (bool, bool, bool))
    ensures
        r.0 == is_bracket_open(l@),
        r.1 == is_bracket_close(l@),
        r.2 == is_bracket_single(l@),
{
    let b = trim_bounds(l);
    if b.0 >= l.len() {
        return (false, false, false);
    }
    proof {
        assert(trim_of(l@)[0] == l@[b.0 as int]);
        if b.1 - b.0 >= 2 {
            assert(trim_of(l@)[1] == l@[b.0 as int + 1]);
        }
    }
    let w = b.1 - b.0;
    if w < 2 || l[b.0] != '\\' {
        return (false, false, false);
    }
    let open = w == 2 && l[b.0 + 1] == '[';
    let close = w == 2 && l[b.0 + 1] == ']';
    let single = w > 2 && l[b.0 + 1] == '[';
    (open, close, single)
}

/// Whether the line has the pipe-bounded table shape.
pub fn table_line(l: &Vec<char>) -> (r: bool)
    ensures
        r == is_table_line(l@),
{
    let b = trim_bounds(l);
    if b.0 >= l.len() {
        return false;
    }
    proof {
        assert(trim_of(l@)[0] == l@[b.0 as int]);
        assert(trim_of(l@)[trim_of(l@).len() - 1] == l@[b.1 as int - 1]);
    }
    l[b.0] == '|' && l[b.1 - 1] == '|'
}

/// Whether the line is a thematic break.
pub fn hr_line(l: &Vec<char>) -> (r: bool)
    ensures
        r == is_hr_line(l@),
{
    let b = trim_bounds(l);
    if b.0 >= l.len() {
        return false;
    }
    if b.1 - b.0 != 3 {
        return false;
    }
    proof {
        assert(trim_of(l@)[0] == l@[b.0 as int]);
        assert(trim_of(l@)[1] == l@[b.0 as int + 1]);
        assert(trim_of(l@)[2] == l@[b.0 as int + 2]);
    }
    let c0 = l[b.0];
    let c1 = l[b.0 + 1];
    let c2 = l[b.0 + 2];
    (c0 == '-' && c1 == '-' && c2 == '-') || (c0 == '*' && c1 == '*' && c2 == '*') || (c0 == '_'
        && c1 == '_' && c2 == '_')
}

/// Whether the line is a heading.
pub fn header_line(l: &Vec<char>) -> (r: bool)
    ensures
        r == is_header_line(l@),
{
    let a = trim_start_idx(l);
    let n = l.len();
    proof {
        crate::chartext::lemma_ws_end(l@, 0);
    }
    let h = marker_scan(l, a, '#');
    proof {
        if h < n {
            assert(trim_start_of(l@)[h - a] == l@[h as int]);
        }
    }
    h - a >= 1 && h - a <= 6 && n - h > 1 && l[h] == ' '
}

/// Whether the line belongs to a blockquote.
pub fn quote_line(l: &Vec<char>) -> (r: bool)
    ensures
        r == is_quote_line(l@),
{
    let a = trim_start_idx(l);
    let n = l.len();
    proof {
        crate::chartext::lemma_ws_end(l@, 0);
        if a < n {
            assert(trim_start_of(l@)[0] == l@[a as int]);
        }
        if n - a >= 2 {
            assert(trim_start_of(l@)[1] == l@[a as int + 1]);
        }
    }
    (n - a >= 2 && l[a] == '>' && l[a + 1] == ' ') || (n - a == 1 && l[a] == '>')
}

/// Whether the line is a task list item.
pub fn task_line(l: &Vec<char>) -> (r: bool)
    ensures
        r == is_task_line(l@),
{
    let a = trim_start_idx(l);
    let n = l.len();
    proof {
        crate::chartext::lemma_ws_end(l@, 0);
    }
    if n - a < 6 {
        return false;
    }
    proof {
        assert(trim_start_of(l@)[0] == l@[a as int]);
        assert(trim_start_of(l@)[1] == l@[a as int + 1]);
        assert(trim_start_of(l@)[2] == l@[a as int + 2]);
        assert(trim_start_of(l@)[3] == l@[a as int + 3]);
        assert(trim_start_of(l@)[4] == l@[a as int + 4]);
        assert(trim_start_of(l@)[5] == l@[a as int + 5]);
    }
    (l[a] == '-' || l[a] == '*') && l[a + 1] == ' ' && l[a + 2] == '[' && (l[a + 3] == ' ' || l[a
        + 3] == 'x' || l[a + 3] == 'X') && l[a + 4] == ']' && l[a + 5] == ' '
}

/// Whether the line is an unordered list item.
pub fn ul_line(l: &Vec<char>) -> (r: bool)
    ensures
        r == is_ul_line(l@),
{
    let a = trim_start_idx(l);
    let n = l.len();
    proof {
        crate::chartext::lemma_ws_end(l@, 0);
    }
    if n - a < 2 {
        return false;
    }
    proof {
        assert(trim_start_of(l@)[0] == l@[a as int]);
        assert(trim_start_of(l@)[1] == l@[a as int + 1]);
    }
    (l[a] == '-' || l[a] == '*' || l[a] == '+') && l[a + 1] == ' '
}

/// Whether the line is an ordered list item; also hands back the left-trim
/// index and the dot position for the emitters.
pub fn ol_scan(l: &Vec<char>) -> (r: (bool, usize, usize))
    ensures
        r.0 == is_ol_line(l@),
        r.1 == ws_end(l@, 0),
        r.0 ==> r.1 <= r.2 && r.2 - r.1 == ol_dot(l@) && r.2 + 1 < l@.len(),
{
    let ghost t = trim_start_of(l@);
    let a = trim_start_idx(l);
    let n = l.len();
    proof {
        crate::chartext::lemma_ws_end(l@, 0);
    }
    let d = crate::inline::find2_in(l, a, n, a, '.', ' ');
    proof {
        assert(t =~= l@.subrange(a as int, n as int));
    }
    if d >= n {
        return (false, a, d);
    }
    if d - a < 1 || d - a > 3 {
        return (false, a, d);
    }
    let mut k: usize = a;
    while k < d && (l[k] as u32) >= 0x30 && (l[k] as u32) <= 0x39
        invariant
            a <= k <= d,
            d < n == l@.len(),
            forall|m: int| a <= m < k ==> is_digit_char(l@[m]),
        decreases d - k,
    {
        k = k + 1;
    }
    if k < d {
        proof {
            assert(!is_digit_char(l@[k as int]));
            assert(t[k - a] == l@[k as int]);
        }
        return (false, a, d);
    }
    proof {
        assert forall|m: int| 0 <= m < d - a implies is_digit_char(t[m]) by {
            assert(t[m] == l@[a + m]);
        }
    }
    (true, a, d)
}

/// Whether the line is blank.
pub fn blank_line(l: &Vec<char>) -> (r: bool)
    ensures
        r == is_blank_line(l@),
{
    let a = trim_start_idx(l);
    proof {
        crate::chartext::lemma_ws_end(l@, 0);
    }
    a >= l.len()
}

/// Whether one of the allow-listed tag fragments sits at `k`.
fn frag_at_ex(l: &Vec<char>, k: usize) -> (r: bool)
    requires
        k < l@.len(),
    ensures
        r == frag_at(l@, k as int),
{
    let n = l.len();
    if l[k] != '<' {
        return false;
    }
    if n - k >= 6 && l[k + 1] == 't' && l[k + 2] == 'a' && l[k + 3] == 'b' && l[k + 4] == 'l' && l[k
        + 5] == 'e' {
        return true;
    }
    if n - k >= 4 && l[k + 1] == 'd' && l[k + 2] == 'i' && l[k + 3] == 'v' {
        return true;
    }
    if n - k >= 4 && l[k + 1] == 'i' && l[k + 2] == 'm' && l[k + 3] == 'g' {
        return true;
    }
    if n - k >= 3 && l[k + 1] == 'b' && l[k + 2] == 'r' {
        return true;
    }
    if n - k >= 3 && l[k + 1] == 'h' && l[k + 2] == 'r' {
        return true;
    }
    false
}

/// Whether the line is passed through as raw block-level HTML.
pub fn html_line(l: &Vec<char>) -> (r: bool)
    ensures
        r == is_html_line(l@),
{
    let a = trim_start_idx(l);
    let n = l.len();
    proof {
        crate::chartext::lemma_ws_end(l@, 0);
    }
    if a >= n {
        return false;
    }
    proof {
        assert(trim_start_of(l@)[0] == l@[a as int]);
    }
    if l[a] != '<' {
        return false;
    }
    let mut k: usize = 0;
    while k < n
        invariant
            k <= n == l@.len(),
            a == ws_end(l@, 0),
            a < n,
            l@[a as int] == '<',
            forall|m: int| 0 <= m < k ==> !frag_at(l@, m),
        decreases n - k,
    {
        if frag_at_ex(l, k) {
            proof {
                assert(trim_start_of(l@)[0] == l@[a as int]);
                assert(is_html_line(l@)) by {
                    assert(frag_at(l@, k as int));
                }
            }
            return true;
        }
        k = k + 1;
    }
    proof {
        assert forall|m: int| 0 <= m implies !frag_at(l@, m) by {
            if m >= n {
                assert(!frag_at(l@, m));
            }
        }
    }
    false
}

/// Whether the line ends the greedy paragraph accumulation.
pub fn para_break_line(l: &Vec<char>) -> (r: bool)
    ensures
        r == is_para_break(l@),
{
    let a = trim_start_idx(l);
    let n = l.len();
    proof {
        crate::chartext::lemma_ws_end(l@, 0);
    }
    if a >= n {
        return true;
    }
    proof {
        assert(trim_start_of(l@)[0] == l@[a as int]);
        if n - a >= 2 {
            assert(trim_start_of(l@)[1] == l@[a as int + 1]);
        }
    }
    if l[a] == '#' {
        return true;
    }
    if fence_line(l) {
        return true;
    }
    if n - a >= 2 && l[a] == '>' && l[a + 1] == ' ' {
        return true;
    }
    if ul_line(l) {
        return true;
    }
    let b = trim_bounds(l);
    proof {
        assert(trim_of(l@)[0] == l@[b.0 as int]);
        if b.1 - b.0 >= 2 {
            assert(trim_of(l@)[1] == l@[b.0 as int + 1]);
        }
    }
    if b.1 - b.0 >= 2 && l[b.0] == '$' && l[b.0 + 1] == '$' {
        return true;
    }
    if b.1 - b.0 >= 2 && l[b.0] == '\\' && l[b.0 + 1] == '[' {
        return true;
    }
    if task_line(l) {
        return true;
    }
    if table_line(l) {
        return true;
    }
    if hr_line(l) {
        return true;
    }
    let o = ol_scan(l);
    if o.0 {
        return true;
    }
    proof {
        assert(!is_blank_line(l@));
    }
    false
}

/// Whether the line continues an open list.
pub fn list_item_line(l: &Vec<char>) -> (r: bool)
    ensures
        r == is_list_item_line(l@),
{
    if ul_line(l) {
        return true;
    }
    if task_line(l) {
        return true;
    }
    let o = ol_scan(l);
    o.0
}


// ----- emitters --------------------------------------------------------------

/// The step equation of the block walk: handling the block at line `i`
/// appended exactly what `spec_blocks` prescribes up to line `ni`.
pub open spec fn blocks_eq(
    ls: Seq<Seq<char>>,
    i: int,
    lk: ListKind,
    ni: int,
    nlk: ListKind,
    before: Seq<char>,
    after: Seq<char>,
) -> bool {
    after + spec_blocks(ls, ni, nlk) == before + spec_blocks(ls, i, lk)
}

/// Emits the closing tag of the open list, if any.
pub fn close_list(out: &mut String, lk: ListKind)
    ensures
        final(out)@ == old(out)@ + close_tag(lk),
{
    match lk {
        ListKind::Off => {
            proof {
                assert(out@ + close_tag(lk) =~= out@);
            }
        },
        ListKind::Ul => {
            out.append("</ul>");
        },
        ListKind::Ol => {
            out.append("</ol>");
        },
    }
}

/// Scans for the line closing a fence.
fn scan_fence_end(lines: &Vec<Vec<char>>, j0: usize) -> (e: usize)
    requires
        j0 <= lines@.len(),
    ensures
        j0 <= e <= lines@.len(),
        e == fence_end(lines_view(lines@), j0 as int),
{
    let ghost ls = lines_view(lines@);
    let nl = lines.len();
    let mut e: usize = j0;
    while e < nl && !fence_line(&lines[e])
        invariant
            j0 <= e <= nl == lines@.len(),
            ls == lines_view(lines@),
            fence_end(ls, j0 as int) == fence_end(ls, e as int),
        decreases nl - e,
    {
        proof {
            assert(ls[e as int] == lines@[e as int]@);
        }
        e = e + 1;
    }
    proof {
        if e < nl {
            assert(ls[e as int] == lines@[e as int]@);
        }
    }
    e
}

/// Scans for the `$$` line closing a display math block.
fn scan_dollar_end(lines: &Vec<Vec<char>>, j0: usize) -> (e: usize)
    requires
        j0 <= lines@.len(),
    ensures
        j0 <= e <= lines@.len(),
        e == dollar_end(lines_view(lines@), j0 as int),
{
    let ghost ls = lines_view(lines@);
    let nl = lines.len();
    let mut e: usize = j0;
    while e < nl && !dollar_open_line(&lines[e])
        invariant
            j0 <= e <= nl == lines@.len(),
            ls == lines_view(lines@),
            dollar_end(ls, j0 as int) == dollar_end(ls, e as int),
        decreases nl - e,
    {
        proof {
            assert(ls[e as int] == lines@[e as int]@);
        }
        e = e + 1;
    }
    proof {
        if e < nl {
            assert(ls[e as int] == lines@[e as int]@);
        }
    }
    e
}

/// Scans for the `\]` line closing a display math block.
fn scan_bracket_end(lines: &Vec<Vec<char>>, j0: usize) -> (e: usize)
    requires
        j0 <= lines@.len(),
    ensures
        j0 <= e <= lines@.len(),
        e == bracket_end(lines_view(lines@), j0 as int),
{
    let ghost ls = lines_view(lines@);
    let nl = lines.len();
    let mut e: usize = j0;
    while e < nl && !bracket_close_line(&lines[e])
        invariant
            j0 <= e <= nl == lines@.len(),
            ls == lines_view(lines@),
            bracket_end(ls, j0 as int) == bracket_end(ls, e as int),
        decreases nl - e,
    {
        proof {
            assert(ls[e as int] == lines@[e as int]@);
        }
        e = e + 1;
    }
    proof {
        if e < nl {
            assert(ls[e as int] == lines@[e as int]@);
        }
    }
    e
}

/// Whether the line is exactly the `\\]` closer.
pub fn bracket_close_line(l: &Vec<char>) -> (r: bool)
    ensures
        r == is_bracket_close(l@),
{
    let sh = bracket_shape(l);
    sh.1
}

/// Collects the newline-joined source of a multi-line math block.
fn collect_math_body(lines: &Vec<Vec<char>>, j0: usize, e: usize) -> (v: Vec<char>)
    requires
        j0 <= e <= lines@.len(),
    ensures
        v@ == math_body(lines_view(lines@), j0 as int, e as int, false),
{
    let ghost ls = lines_view(lines@);
    let mut v: Vec<char> = Vec::new();
    let mut k: usize = j0;
    proof {
        assert(v@ + math_body(ls, j0 as int, e as int, false) =~= math_body(
            ls,
            j0 as int,
            e as int,
            false,
        ));
    }
    while k < e
        invariant
            j0 <= k <= e <= lines@.len(),
            ls == lines_view(lines@),
            v@ + math_body(ls, k as int, e as int, v@.len() > 0) == math_body(
                ls,
                j0 as int,
                e as int,
                false,
            ),
        decreases e - k,
    {
        let ghost pre = v@;
        let ghost ne = pre.len() > 0;
        let line = &lines[k];
        proof {
            assert(ls[k as int] == line@);
        }
        if v.len() > 0 {
            v.push('\n');
            proof {
                reveal_strlit("\n");
                assert(v@ =~= pre + "\n"@);
            }
        }
        crate::chartext::push_range(&mut v, line, 0, line.len());
        proof {
            assert(line@.subrange(0, line@.len() as int) =~= line@);
            assert(v@ =~= pre + (if ne {
                "\n"@
            } else {
                Seq::<char>::empty()
            }) + ls[k as int]);
            assert(math_body(ls, k as int, e as int, ne) == (if ne {
                "\n"@
            } else {
                Seq::<char>::empty()
            }) + ls[k as int] + math_body(ls, k + 1, e as int, ne || ls[k as int].len() > 0));
            assert((v@.len() > 0) == (ne || ls[k as int].len() > 0));
            assert(v@ + math_body(ls, k + 1, e as int, v@.len() > 0) =~= pre + math_body(
                ls,
                k as int,
                e as int,
                ne,
            ));
        }
        k = k + 1;
    }
    proof {
        assert(v@ + math_body(ls, e as int, e as int, v@.len() > 0) =~= v@);
    }
    v
}

/// Emits a display math block over the collected source.
fn emit_math_block(out: &mut String, v: &Vec<char>)
    ensures
        final(out)@ == old(out)@ + math_block(v@),
{
    let ghost pre = out@;
    out.append("<div class=\"katex-block\" data-latex=\"");
    crate::escape::escape_attr_append(out, v, 0, v.len());
    out.append("\">");
    crate::escape::escape_append(out, v, 0, v.len());
    out.append("</div>");
    proof {
        assert(v@.subrange(0, v@.len() as int) =~= v@);
        assert(out@ =~= pre + math_block(v@));
    }
}

/// Emits the opening of a fenced code block: wrapper, header row with the
/// language label, and the opening of the code element.
fn emit_fence_head(out: &mut String, line: &Vec<char>)
    ensures
        final(out)@ == old(out)@ + ("<div class=\"code-block\">"@ + code_header(fence_lang(line@))
            + "<pre><code"@ + code_attr(fence_lang(line@)) + ">"@),
{
    let ghost pre = out@;
    let a = trim_start_idx(line);
    proof {
        crate::chartext::lemma_ws_end(line@, 0);
    }
    let bq = marker_scan(line, a, '`');
    let n = line.len();
    let mut langv: Vec<char> = Vec::new();
    crate::chartext::push_range(&mut langv, line, bq, n);
    proof {
        let t = trim_start_of(line@);
        assert(langv@ =~= t.subrange(run_end(t, '`', 0), t.len() as int));
    }
    let lb = trim_bounds(&langv);
    let ghost lang = fence_lang(line@);
    proof {
        assert(lang == trim_of(langv@));
    }
    let lang_empty = lb.0 >= langv.len();
    out.append("<div class=\"code-block\">");
    out.append("<div class=\"code-block-header\"><span class=\"code-lang\">");
    if lang_empty {
        out.append("code");
    } else {
        crate::escape::escape_append(out, &langv, lb.0, lb.1);
        proof {
            assert(langv@.subrange(lb.0 as int, lb.1 as int) == lang);
        }
    }
    out.append(
        "</span><button class=\"code-copy-btn\" onclick=\"navigator.clipboard.writeText(this.parentElement.nextElementSibling.textContent)\">Copy</button></div>",
    );
    out.append("<pre><code");
    if !lang_empty {
        out.append(" class=\"language-");
        crate::escape::escape_attr_append(out, &langv, lb.0, lb.1);
        out.append("\"");
    }
    out.append(">");
    proof {
        assert(out@ =~= pre + ("<div class=\"code-block\">"@ + code_header(lang) + "<pre><code"@
            + code_attr(lang) + ">"@));
    }
}

/// Emits the escaped, newline-joined body lines of a fenced code block.
fn emit_fence_body(out: &mut String, lines: &Vec<Vec<char>>, j0: usize, e: usize)
    requires
        j0 <= e <= lines@.len(),
    ensures
        final(out)@ == old(out)@ + fence_body(lines_view(lines@), j0 as int, e as int),
{
    let ghost ls = lines_view(lines@);
    let ghost mid = out@;
    if j0 < e {
        let first = &lines[j0];
        proof {
            assert(ls[j0 as int] == first@);
        }
        crate::escape::escape_append(out, first, 0, first.len());
        proof {
            assert(first@.subrange(0, first@.len() as int) =~= first@);
        }
        let mut k: usize = j0 + 1;
        proof {
            assert(fence_body(ls, j0 as int, e as int) == spec_escape(ls[j0 as int]) + fence_rest(
                ls,
                j0 as int + 1,
                e as int,
            ));
            assert(out@ + fence_rest(ls, k as int, e as int) =~= mid + fence_body(
                ls,
                j0 as int,
                e as int,
            ));
        }
        while k < e
            invariant
                j0 + 1 <= k <= e <= lines@.len(),
                ls == lines_view(lines@),
                out@ + fence_rest(ls, k as int, e as int) == mid + fence_body(
                    ls,
                    j0 as int,
                    e as int,
                ),
            decreases e - k,
        {
            let ghost pk = out@;
            out.append("\n");
            let lnk = &lines[k];
            proof {
                assert(ls[k as int] == lnk@);
            }
            crate::escape::escape_append(out, lnk, 0, lnk.len());
            proof {
                assert(lnk@.subrange(0, lnk@.len() as int) =~= lnk@);
                assert(fence_rest(ls, k as int, e as int) == "\n"@ + spec_escape(ls[k as int])
                    + fence_rest(ls, k + 1, e as int));
                assert(out@ + fence_rest(ls, k + 1, e as int) =~= pk + fence_rest(
                    ls,
                    k as int,
                    e as int,
                ));
            }
            k = k + 1;
        }
        proof {
            assert(out@ + fence_rest(ls, e as int, e as int) =~= out@);
        }
    } else {
        proof {
            assert(fence_body(ls, j0 as int, e as int) =~= Seq::<char>::empty());
            assert(out@ + fence_body(ls, j0 as int, e as int) =~= out@);
        }
    }
}

/// Handles a fenced code block at line `i`.
fn step_fence(out: &mut String, lines: &Vec<Vec<char>>, i: usize, lk: ListKind) -> (ni: usize)
    requires
        i < lines@.len(),
        is_fence_line(lines_view(lines@)[i as int]),
    ensures
        i < ni <= lines@.len(),
        blocks_eq(
            lines_view(lines@),
            i as int,
            lk,
            ni as int,
            ListKind::Off,
            old(out)@,
            final(out)@,
        ),
{
    let ghost ls = lines_view(lines@);
    let ghost pre = out@;
    let nl = lines.len();
    let line = &lines[i];
    proof {
        assert(ls[i as int] == line@);
    }
    close_list(out, lk);
    emit_fence_head(out, line);
    let e = scan_fence_end(lines, i + 1);
    emit_fence_body(out, lines, i + 1, e);
    out.append("</code></pre></div>");
    let ni: usize = if e < nl {
        e + 1
    } else {
        nl
    };
    proof {
        assert(out@ =~= pre + close_tag(lk) + fence_chunk(ls, i as int));
        assert(spec_blocks(ls, i as int, lk) == close_tag(lk) + fence_chunk(ls, i as int)
            + spec_blocks(ls, ni as int, ListKind::Off));
        assert(out@ + spec_blocks(ls, ni as int, ListKind::Off) =~= pre + spec_blocks(
            ls,
            i as int,
            lk,
        ));
    }
    ni
}

/// Handles a multi-line `$$ .. $$` display math block at line `i`.
fn step_dollar_multi(out: &mut String, lines: &Vec<Vec<char>>, i: usize, lk: ListKind) -> (ni:
    usize)
    requires
        i < lines@.len(),
        !is_fence_line(lines_view(lines@)[i as int]),
        is_dollar_open(lines_view(lines@)[i as int]),
    ensures
        i < ni <= lines@.len(),
        blocks_eq(
            lines_view(lines@),
            i as int,
            lk,
            ni as int,
            ListKind::Off,
            old(out)@,
            final(out)@,
        ),
{
    let ghost ls = lines_view(lines@);
    let ghost pre = out@;
    let nl = lines.len();
    close_list(out, lk);
    let e = scan_dollar_end(lines, i + 1);
    let v = collect_math_body(lines, i + 1, e);
    emit_math_block(out, &v);
    let ni: usize = if e < nl {
        e + 1
    } else {
        nl
    };
    proof {
        assert(spec_blocks(ls, i as int, lk) == close_tag(lk) + math_block(
            math_body(ls, i as int + 1, e as int, false),
        ) + spec_blocks(ls, ni as int, ListKind::Off));
        assert(out@ + spec_blocks(ls, ni as int, ListKind::Off) =~= pre + spec_blocks(
            ls,
            i as int,
            lk,
        ));
    }
    ni
}

/// Handles a one-line `$$ .. $$` display math block at line `i`.
fn step_dollar_single(out: &mut String, lines: &Vec<Vec<char>>, i: usize, lk: ListKind) -> (ni:
    usize)
    requires
        i < lines@.len(),
        !is_fence_line(lines_view(lines@)[i as int]),
        !is_dollar_open(lines_view(lines@)[i as int]),
        is_dollar_single(lines_view(lines@)[i as int]),
    ensures
        i < ni <= lines@.len(),
        blocks_eq(
            lines_view(lines@),
            i as int,
            lk,
            ni as int,
            ListKind::Off,
            old(out)@,
            final(out)@,
        ),
{
    let ghost ls = lines_view(lines@);
    let ghost pre = out@;
    let nl = lines.len();
    let line = &lines[i];
    proof {
        assert(ls[i as int] == line@);
    }
    close_list(out, lk);
    let b = trim_bounds(line);
    let mut v: Vec<char> = Vec::new();
    crate::chartext::push_range(&mut v, line, b.0 + 2, b.1 - 2);
    proof {
        assert(v@ =~= dollar_single_content(line@));
    }
    emit_math_block(out, &v);
    proof {
        assert(spec_blocks(ls, i as int, lk) == close_tag(lk) + math_block(
            dollar_single_content(ls[i as int]),
        ) + spec_blocks(ls, i as int + 1, ListKind::Off));
        assert(out@ + spec_blocks(ls, i as int + 1, ListKind::Off) =~= pre + spec_blocks(
            ls,
            i as int,
            lk,
        ));
    }
    i + 1
}

/// Handles a multi-line `\[ .. \]` display math block at line `i`.
fn step_bracket_multi(out: &mut String, lines: &Vec<Vec<char>>, i: usize, lk: ListKind) -> (ni:
    usize)
    requires
        i < lines@.len(),
        !is_fence_line(lines_view(lines@)[i as int]),
        !is_dollar_open(lines_view(lines@)[i as int]),
        !is_dollar_single(lines_view(lines@)[i as int]),
        is_bracket_open(lines_view(lines@)[i as int]),
    ensures
        i < ni <= lines@.len(),
        blocks_eq(
            lines_view(lines@),
            i as int,
            lk,
            ni as int,
            ListKind::Off,
            old(out)@,
            final(out)@,
        ),
{
    let ghost ls = lines_view(lines@);
    let ghost pre = out@;
    let nl = lines.len();
    close_list(out, lk);
    let e = scan_bracket_end(lines, i + 1);
    let v = collect_math_body(lines, i + 1, e);
    emit_math_block(out, &v);
    let ni: usize = if e < nl {
        e + 1
    } else {
        nl
    };
    proof {
        assert(spec_blocks(ls, i as int, lk) == close_tag(lk) + math_block(
            math_body(ls, i as int + 1, e as int, false),
        ) + spec_blocks(ls, ni as int, ListKind::Off));
        assert(out@ + spec_blocks(ls, ni as int, ListKind::Off) =~= pre + spec_blocks(
            ls,
            i as int,
            lk,
        ));
    }
    ni
}

/// Handles a one-line `\[ .. \]` display math block at line `i`.
fn step_bracket_single(out: &mut String, lines: &Vec<Vec<char>>, i: usize, lk: ListKind) -> (ni:
    usize)
    requires
        i < lines@.len(),
        !is_fence_line(lines_view(lines@)[i as int]),
        !is_dollar_open(lines_view(lines@)[i as int]),
        !is_dollar_single(lines_view(lines@)[i as int]),
        !is_bracket_open(lines_view(lines@)[i as int]),
        is_bracket_single(lines_view(lines@)[i as int]),
    ensures
        i < ni <= lines@.len(),
        blocks_eq(
            lines_view(lines@),
            i as int,
            lk,
            ni as int,
            ListKind::Off,
            old(out)@,
            final(out)@,
        ),
{
    let ghost ls = lines_view(lines@);
    let ghost pre = out@;
    let nl = lines.len();
    let line = &lines[i];
    proof {
        assert(ls[i as int] == line@);
    }
    close_list(out, lk);
    let b = trim_bounds(line);
    let es: usize = if b.1 - b.0 >= 4 && line[b.1 - 2] == '\\' && line[b.1 - 1] == ']' {
        b.1 - 2
    } else {
        b.1
    };
    proof {
        let t = trim_of(line@);
        assert(t[t.len() - 2] == line@[b.1 as int - 2] && t[t.len() - 1] == line@[b.1 as int - 1]);
    }
    let mut midv: Vec<char> = Vec::new();
    crate::chartext::push_range(&mut midv, line, b.0 + 2, es);
    proof {
        let t = trim_of(line@);
        let e2 = if t.len() >= 4 && t[t.len() - 2] == '\\' && t[t.len() - 1] == ']' {
            t.len() - 2
        } else {
            t.len() as int
        };
        assert(midv@ =~= t.subrange(2, e2));
    }
    let mb = trim_bounds(&midv);
    let mut v: Vec<char> = Vec::new();
    if mb.0 < midv.len() {
        crate::chartext::push_range(&mut v, &midv, mb.0, mb.1);
    }
    proof {
        assert(v@ =~= bracket_single_content(line@));
    }
    emit_math_block(out, &v);
    proof {
        assert(spec_blocks(ls, i as int, lk) == close_tag(lk) + math_block(
            bracket_single_content(ls[i as int]),
        ) + spec_blocks(ls, i as int + 1, ListKind::Off));
        assert(out@ + spec_blocks(ls, i as int + 1, ListKind::Off) =~= pre + spec_blocks(
            ls,
            i as int,
            lk,
        ));
    }
    i + 1
}


/// The cells of a table row, split on pipes and trimmed.
pub fn parse_table_row(l: &Vec<char>) -> (cells: Vec<Vec<char>>)
    ensures
        lines_view(cells@) == row_cells(l@),
{
    let b = trim_bounds(l);
    let n = l.len();
    let (ia, ib): (usize, usize) = if b.0 < n && b.1 - b.0 >= 2 {
        (b.0 + 1, b.1 - 1)
    } else {
        (0, 0)
    };
    let ghost inner = l@.subrange(ia as int, ib as int);
    proof {
        let t = trim_of(l@);
        if b.0 < n && b.1 - b.0 >= 2 {
            assert(inner =~= t.subrange(1, t.len() - 1));
        } else {
            assert(inner =~= Seq::<char>::empty());
            if t.len() >= 2 {
                assert(false);
            }
        }
    }
    let mut cells: Vec<Vec<char>> = Vec::new();
    let mut k: usize = ia;
    proof {
        assert(lines_view(cells@) + cells_from(inner, 0) =~= cells_from(inner, 0));
    }
    while k <= ib
        invariant
            ia <= k <= ib + 1,
            ib <= l@.len(),
            ib < n || ib == 0,
            n == l@.len(),
            inner == l@.subrange(ia as int, ib as int),
            lines_view(cells@) + cells_from(inner, k - ia) == cells_from(inner, 0),
        decreases ib + 1 - k,
    {
        let ghost pre = lines_view(cells@);
        let j = crate::inline::find_in(l, ia, ib, k, '|');
        let mut pv: Vec<char> = Vec::new();
        crate::chartext::push_range(&mut pv, l, k, j);
        proof {
            assert(pv@ =~= inner.subrange(k - ia, j - ia));
        }
        let pb = trim_bounds(&pv);
        let mut cell: Vec<char> = Vec::new();
        if pb.0 < pv.len() {
            crate::chartext::push_range(&mut cell, &pv, pb.0, pb.1);
        }
        proof {
            assert(cell@ =~= trim_of(pv@));
        }
        cells.push(cell);
        proof {
            assert(lines_view(cells@) =~= pre + seq![trim_of(inner.subrange(k - ia, j - ia))]);
            if j < ib {
                assert(cells_from(inner, k - ia) == seq![
                    trim_of(inner.subrange(k - ia, j - ia)),
                ] + cells_from(inner, j - ia + 1));
            } else {
                assert(inner.subrange(k - ia, j - ia) =~= inner.subrange(
                    k - ia,
                    inner.len() as int,
                ));
                assert(cells_from(inner, k - ia) == seq![
                    trim_of(inner.subrange(k - ia, inner.len() as int)),
                ]);
                assert(cells_from(inner, j - ia + 1) =~= Seq::<Seq<char>>::empty());
            }
            assert(lines_view(cells@) + cells_from(inner, j - ia + 1) =~= pre + cells_from(
                inner,
                k - ia,
            ));
        }
        k = j + 1;
    }
    proof {
        assert(lines_view(cells@) + cells_from(inner, k - ia) =~= lines_view(cells@));
    }
    cells
}

/// Emits a run of table cells, as header or as body cells.
fn emit_cells(out: &mut String, cells: &Vec<Vec<char>>, header: bool)
    ensures
        final(out)@ == old(out)@ + (if header {
            cells_html(lines_view(cells@), 0, "<th>"@, "</th>"@)
        } else {
            cells_html(lines_view(cells@), 0, "<td>"@, "</td>"@)
        }),
{
    let ghost cv = lines_view(cells@);
    let ghost open: Seq<char> = if header {
        "<th>"@
    } else {
        "<td>"@
    };
    let ghost close: Seq<char> = if header {
        "</th>"@
    } else {
        "</td>"@
    };
    let mut k: usize = 0;
    proof {
        assert(out@ + cells_html(cv, 0, open, close) =~= old(out)@ + cells_html(
            cv,
            0,
            open,
            close,
        ));
    }
    while k < cells.len()
        invariant
            k <= cells@.len(),
            cv == lines_view(cells@),
            open == (if header {
                "<th>"@
            } else {
                "<td>"@
            }),
            close == (if header {
                "</th>"@
            } else {
                "</td>"@
            }),
            out@ + cells_html(cv, k as int, open, close) == old(out)@ + cells_html(
                cv,
                0,
                open,
                close,
            ),
        decreases cells@.len() - k,
    {
        let ghost pre = out@;
        if header {
            out.append("<th>");
        } else {
            out.append("<td>");
        }
        let cell = &cells[k];
        proof {
            assert(cv[k as int] == cell@);
        }
        let inner = crate::inline::process_inline_range(cell, 0, cell.len());
        out.append(inner.as_str());
        if header {
            out.append("</th>");
        } else {
            out.append("</td>");
        }
        proof {
            assert(cell@.subrange(0, cell@.len() as int) =~= cell@);
            assert(cells_html(cv, k as int, open, close) == open + spec_inline(cv[k as int])
                + close + cells_html(cv, k + 1, open, close));
            assert(out@ + cells_html(cv, k + 1, open, close) =~= pre + cells_html(
                cv,
                k as int,
                open,
                close,
            ));
        }
        k = k + 1;
    }
    proof {
        assert(out@ + cells_html(cv, cells@.len() as int, open, close) =~= out@);
    }
}

/// Emits a whole table whose header row is line `i` and returns the index
/// of the first line after its body rows.
#[verifier::rlimit(100)]
fn emit_table(out: &mut String, lines: &Vec<Vec<char>>, i: usize) -> (e: usize)
    requires
        i < lines@.len(),
    ensures
        i < e <= lines@.len(),
        e == table_end(lines_view(lines@), i as int + 2),
        final(out)@ == old(out)@ + table_chunk(lines_view(lines@), i as int),
{
    let ghost ls = lines_view(lines@);
    let ghost pre = out@;
    let nl = lines.len();
    out.append("<div class=\"table-wrapper\"><table><thead><tr>");
    let line = &lines[i];
    proof {
        assert(ls[i as int] == line@);
    }
    let hcells = parse_table_row(line);
    emit_cells(out, &hcells, true);
    out.append("</tr></thead><tbody>");
    let ghost mid = out@;
    // the line after the header is the separator and is skipped unread;
    // body rows are the contiguous pipe-bounded lines after it
    let start: usize = if nl - i > 2 {
        i + 2
    } else {
        nl
    };
    let mut e: usize = start;
    proof {
        if nl - i <= 2 {
            assert(table_end(ls, i + 2) == nl as int);
        }
        assert(table_end(ls, i + 2) == table_end(ls, start as int));
    }
    while e < nl && table_line(&lines[e])
        invariant
            start <= e <= nl == lines@.len(),
            ls == lines_view(lines@),
            table_end(ls, i as int + 2) == table_end(ls, e as int),
        decreases nl - e,
    {
        proof {
            assert(ls[e as int] == lines@[e as int]@);
        }
        e = e + 1;
    }
    proof {
        if e < nl {
            assert(ls[e as int] == lines@[e as int]@);
        }
        assert(e == table_end(ls, i as int + 2));
    }
    let mut j: usize = start;
    proof {
        if start > e {
            assert(false);
        }
        assert(table_rows(ls, start as int, e as int) == table_rows(ls, i as int + 2, e as int));
        assert(out@ + table_rows(ls, j as int, e as int) =~= mid + table_rows(
            ls,
            i as int + 2,
            e as int,
        ));
    }
    while j < e
        invariant
            start <= j <= e <= lines@.len(),
            ls == lines_view(lines@),
            out@ + table_rows(ls, j as int, e as int) == mid + table_rows(
                ls,
                i as int + 2,
                e as int,
            ),
        decreases e - j,
    {
        let ghost pj = out@;
        out.append("<tr>");
        let row = &lines[j];
        proof {
            assert(ls[j as int] == row@);
        }
        let cells = parse_table_row(row);
        emit_cells(out, &cells, false);
        out.append("</tr>");
        proof {
            assert(table_rows(ls, j as int, e as int) == "<tr>"@ + cells_html(
                row_cells(ls[j as int]),
                0,
                "<td>"@,
                "</td>"@,
            ) + "</tr>"@ + table_rows(ls, j + 1, e as int));
            assert(out@ + table_rows(ls, j + 1, e as int) =~= pj + table_rows(
                ls,
                j as int,
                e as int,
            ));
        }
        j = j + 1;
    }
    proof {
        assert(out@ + table_rows(ls, e as int, e as int) =~= out@);
    }
    out.append("</tbody></table></div>");
    proof {
        assert(out@ =~= pre + table_chunk(ls, i as int));
    }
    e
}

/// Renders the table whose header row is line `i` and returns its HTML and
/// the index of the line the walk resumes at.
pub fn parse_table(lines: &Vec<Vec<char>>, i: usize) -> (r: (String, usize))
    requires
        i < lines@.len(),
    ensures
        i < r.1 <= lines@.len(),
        r.1 == table_next(lines_view(lines@), i as int),
        r.0@ == table_chunk(lines_view(lines@), i as int),
{
    let mut out = String::new();
    let e = emit_table(&mut out, lines, i);
    proof {
        assert(Seq::<char>::empty() + table_chunk(lines_view(lines@), i as int) =~= table_chunk(
            lines_view(lines@),
            i as int,
        ));
    }
    (out, e)
}

/// Handles a table whose header row is line `i`.
fn step_table(out: &mut String, lines: &Vec<Vec<char>>, i: usize, lk: ListKind) -> (ni: usize)
    requires
        i < lines@.len(),
        !is_fence_line(lines_view(lines@)[i as int]),
        !is_dollar_open(lines_view(lines@)[i as int]),
        !is_dollar_single(lines_view(lines@)[i as int]),
        !is_bracket_open(lines_view(lines@)[i as int]),
        !is_bracket_single(lines_view(lines@)[i as int]),
        is_table_line(lines_view(lines@)[i as int]),
    ensures
        i < ni <= lines@.len(),
        blocks_eq(
            lines_view(lines@),
            i as int,
            lk,
            ni as int,
            ListKind::Off,
            old(out)@,
            final(out)@,
        ),
{
    let ghost ls = lines_view(lines@);
    let ghost pre = out@;
    close_list(out, lk);
    let e = emit_table(out, lines, i);
    proof {
        assert(out@ =~= pre + close_tag(lk) + table_chunk(ls, i as int));
        assert(spec_blocks(ls, i as int, lk) == close_tag(lk) + table_chunk(ls, i as int)
            + spec_blocks(ls, e as int, ListKind::Off));
        assert(out@ + spec_blocks(ls, e as int, ListKind::Off) =~= pre + spec_blocks(
            ls,
            i as int,
            lk,
        ));
    }
    e
}

/// None of the block rules that precede the thematic break applies.
pub open spec fn no_early_block(l: Seq<char>) -> bool {
    !is_fence_line(l) && !is_dollar_open(l) && !is_dollar_single(l) && !is_bracket_open(l)
        && !is_bracket_single(l) && !is_table_line(l)
}

/// Handles a thematic break at line `i`.
fn step_hr(out: &mut String, lines: &Vec<Vec<char>>, i: usize, lk: ListKind) -> (ni: usize)
    requires
        i < lines@.len(),
        no_early_block(lines_view(lines@)[i as int]),
        is_hr_line(lines_view(lines@)[i as int]),
    ensures
        i < ni <= lines@.len(),
        blocks_eq(
            lines_view(lines@),
            i as int,
            lk,
            ni as int,
            ListKind::Off,
            old(out)@,
            final(out)@,
        ),
{
    let ghost ls = lines_view(lines@);
    let ghost pre = out@;
    let nl = lines.len();
    close_list(out, lk);
    out.append("<hr>");
    proof {
        assert(spec_blocks(ls, i as int, lk) == close_tag(lk) + "<hr>"@ + spec_blocks(
            ls,
            i as int + 1,
            ListKind::Off,
        ));
        assert(out@ + spec_blocks(ls, i as int + 1, ListKind::Off) =~= pre + spec_blocks(
            ls,
            i as int,
            lk,
        ));
    }
    i + 1
}

/// Handles a heading at line `i`.
fn step_header(out: &mut String, lines: &Vec<Vec<char>>, i: usize, lk: ListKind) -> (ni: usize)
    requires
        i < lines@.len(),
        no_early_block(lines_view(lines@)[i as int]),
        !is_hr_line(lines_view(lines@)[i as int]),
        is_header_line(lines_view(lines@)[i as int]),
    ensures
        i < ni <= lines@.len(),
        blocks_eq(
            lines_view(lines@),
            i as int,
            lk,
            ni as int,
            ListKind::Off,
            old(out)@,
            final(out)@,
        ),
{
    let ghost ls = lines_view(lines@);
    let ghost pre = out@;
    let nl = lines.len();
    let line = &lines[i];
    proof {
        assert(ls[i as int] == line@);
    }
    close_list(out, lk);
    let a = trim_start_idx(line);
    proof {
        crate::chartext::lemma_ws_end(line@, 0);
    }
    let h = marker_scan(line, a, '#');
    let n = line.len();
    let lvl = h - a;
    if lvl == 1 {
        out.append("<h1>");
    } else if lvl == 2 {
        out.append("<h2>");
    } else if lvl == 3 {
        out.append("<h3>");
    } else if lvl == 4 {
        out.append("<h4>");
    } else if lvl == 5 {
        out.append("<h5>");
    } else {
        out.append("<h6>");
    }
    let inner = crate::inline::process_inline_range(line, h + 1, n);
    out.append(inner.as_str());
    if lvl == 1 {
        out.append("</h1>");
    } else if lvl == 2 {
        out.append("</h2>");
    } else if lvl == 3 {
        out.append("</h3>");
    } else if lvl == 4 {
        out.append("</h4>");
    } else if lvl == 5 {
        out.append("</h5>");
    } else {
        out.append("</h6>");
    }
    proof {
        assert(header_content(line@) =~= line@.subrange(h as int + 1, n as int));
        assert(out@ =~= pre + close_tag(lk) + header_chunk(ls[i as int]));
        assert(spec_blocks(ls, i as int, lk) == close_tag(lk) + header_chunk(ls[i as int])
            + spec_blocks(ls, i as int + 1, ListKind::Off));
        assert(out@ + spec_blocks(ls, i as int + 1, ListKind::Off) =~= pre + spec_blocks(
            ls,
            i as int,
            lk,
        ));
    }
    i + 1
}

/// Handles a blockquote opening at line `i`.
fn step_quote(out: &mut String, lines: &Vec<Vec<char>>, i: usize, lk: ListKind) -> (ni: usize)
    requires
        i < lines@.len(),
        no_early_block(lines_view(lines@)[i as int]),
        !is_hr_line(lines_view(lines@)[i as int]),
        !is_header_line(lines_view(lines@)[i as int]),
        is_quote_line(lines_view(lines@)[i as int]),
    ensures
        i < ni <= lines@.len(),
        blocks_eq(
            lines_view(lines@),
            i as int,
            lk,
            ni as int,
            ListKind::Off,
            old(out)@,
            final(out)@,
        ),
{
    let ghost ls = lines_view(lines@);
    let ghost pre = out@;
    let nl = lines.len();
    close_list(out, lk);
    out.append("<blockquote>");
    let ghost mid = out@;
    let mut e: usize = i + 1;
    while e < nl && quote_line(&lines[e])
        invariant
            i + 1 <= e <= nl == lines@.len(),
            ls == lines_view(lines@),
            quote_end(ls, i as int + 1) == quote_end(ls, e as int),
        decreases nl - e,
    {
        proof {
            assert(ls[e as int] == lines@[e as int]@);
        }
        e = e + 1;
    }
    proof {
        if e < nl {
            assert(ls[e as int] == lines@[e as int]@);
        }
        assert(e == quote_end(ls, i as int + 1));
        lemma_quote_end(ls, i as int + 1);
    }
    let mut j: usize = i;
    proof {
        assert(out@ + quote_body(ls, j as int, e as int) =~= mid + quote_body(
            ls,
            i as int,
            e as int,
        ));
    }
    while j < e
        invariant
            i <= j <= e <= nl == lines@.len(),
            ls == lines_view(lines@),
            is_quote_line(ls[i as int]),
            forall|m: int| i + 1 <= m < e ==> is_quote_line(ls[m]),
            out@ + quote_body(ls, j as int, e as int) == mid + quote_body(ls, i as int, e as int),
        decreases e - j,
    {
        let ghost pj = out@;
        out.append("<p>");
        let row = &lines[j];
        proof {
            assert(ls[j as int] == row@);
            assert(is_quote_line(row@));
        }
        let a = trim_start_idx(row);
        let n = row.len();
        proof {
            crate::chartext::lemma_ws_end(row@, 0);
            assert(trim_start_of(row@)[0] == row@[a as int]);
            if n - a >= 2 {
                assert(trim_start_of(row@)[1] == row@[a as int + 1]);
            }
        }
        let start: usize = if n - a >= 2 && row[a + 1] == ' ' {
            a + 2
        } else {
            a + 1
        };
        let inner = crate::inline::process_inline_range(row, start, n);
        out.append(inner.as_str());
        out.append("</p>");
        proof {
            assert(quote_content(row@) =~= row@.subrange(start as int, n as int));
            assert(quote_body(ls, j as int, e as int) == "<p>"@ + spec_inline(
                quote_content(ls[j as int]),
            ) + "</p>"@ + quote_body(ls, j + 1, e as int));
            assert(out@ + quote_body(ls, j + 1, e as int) =~= pj + quote_body(
                ls,
                j as int,
                e as int,
            ));
        }
        j = j + 1;
    }
    proof {
        assert(out@ + quote_body(ls, e as int, e as int) =~= out@);
    }
    out.append("</blockquote>");
    proof {
        assert(out@ =~= pre + close_tag(lk) + quote_chunk(ls, i as int));
        assert(spec_blocks(ls, i as int, lk) == close_tag(lk) + quote_chunk(ls, i as int)
            + spec_blocks(ls, e as int, ListKind::Off));
        assert(out@ + spec_blocks(ls, e as int, ListKind::Off) =~= pre + spec_blocks(
            ls,
            i as int,
            lk,
        ));
    }
    e
}

/// Handles a task list item at line `i`.
#[verifier::rlimit(100)]
fn step_task(out: &mut String, lines: &Vec<Vec<char>>, i: usize, lk: ListKind) -> (ni: usize)
    requires
        i < lines@.len(),
        no_early_block(lines_view(lines@)[i as int]),
        !is_hr_line(lines_view(lines@)[i as int]),
        !is_header_line(lines_view(lines@)[i as int]),
        !is_quote_line(lines_view(lines@)[i as int]),
        is_task_line(lines_view(lines@)[i as int]),
    ensures
        i < ni <= lines@.len(),
        blocks_eq(
            lines_view(lines@),
            i as int,
            lk,
            ni as int,
            ListKind::Ul,
            old(out)@,
            final(out)@,
        ),
{
    let ghost ls = lines_view(lines@);
    let ghost pre = out@;
    let nl = lines.len();
    let line = &lines[i];
    proof {
        assert(ls[i as int] == line@);
    }
    if !(lk == ListKind::Ul) {
        close_list(out, lk);
        out.append("<ul class=\"task-list\">");
    }
    let a = trim_start_idx(line);
    let n = line.len();
    proof {
        crate::chartext::lemma_ws_end(line@, 0);
        assert(trim_start_of(line@)[3] == line@[a as int + 3]);
    }
    let checked = line[a + 3] == 'x' || line[a + 3] == 'X';
    if checked {
        out.append(
            "<li class=\"task-list-item task-list-item--checked\"><span class=\"task-checkbox task-checkbox--checked\">&#9745;</span> ",
        );
    } else {
        out.append("<li class=\"task-list-item\"><span class=\"task-checkbox\">&#9744;</span> ");
    }
    let inner = crate::inline::process_inline_range(line, a + 6, n);
    out.append(inner.as_str());
    out.append("</li>");
    proof {
        assert(task_content(line@) =~= line@.subrange(a as int + 6, n as int));
        assert(out@ =~= pre + (if lk == ListKind::Ul {
            Seq::<char>::empty()
        } else {
            close_tag(lk) + "<ul class=\"task-list\">"@
        }) + task_item(ls[i as int]));
        assert(spec_blocks(ls, i as int, lk) == (if lk == ListKind::Ul {
            Seq::<char>::empty()
        } else {
            close_tag(lk) + "<ul class=\"task-list\">"@
        }) + task_item(ls[i as int]) + spec_blocks(ls, i as int + 1, ListKind::Ul));
        assert(out@ + spec_blocks(ls, i as int + 1, ListKind::Ul) =~= pre + spec_blocks(
            ls,
            i as int,
            lk,
        ));
    }
    i + 1
}

/// Handles an unordered list item at line `i`.
fn step_ul(out: &mut String, lines: &Vec<Vec<char>>, i: usize, lk: ListKind) -> (ni: usize)
    requires
        i < lines@.len(),
        no_early_block(lines_view(lines@)[i as int]),
        !is_hr_line(lines_view(lines@)[i as int]),
        !is_header_line(lines_view(lines@)[i as int]),
        !is_quote_line(lines_view(lines@)[i as int]),
        !is_task_line(lines_view(lines@)[i as int]),
        is_ul_line(lines_view(lines@)[i as int]),
    ensures
        i < ni <= lines@.len(),
        blocks_eq(
            lines_view(lines@),
            i as int,
            lk,
            ni as int,
            ListKind::Ul,
            old(out)@,
            final(out)@,
        ),
{
    let ghost ls = lines_view(lines@);
    let ghost pre = out@;
    let nl = lines.len();
    let line = &lines[i];
    proof {
        assert(ls[i as int] == line@);
    }
    if !(lk == ListKind::Ul) {
        close_list(out, lk);
        out.append("<ul>");
    }
    let a = trim_start_idx(line);
    let n = line.len();
    proof {
        crate::chartext::lemma_ws_end(line@, 0);
    }
    out.append("<li>");
    let inner = crate::inline::process_inline_range(line, a + 2, n);
    out.append(inner.as_str());
    out.append("</li>");
    proof {
        assert(ul_content(line@) =~= line@.subrange(a as int + 2, n as int));
        assert(out@ =~= pre + (if lk == ListKind::Ul {
            Seq::<char>::empty()
        } else {
            close_tag(lk) + "<ul>"@
        }) + ("<li>"@ + spec_inline(ul_content(ls[i as int])) + "</li>"@));
        assert(spec_blocks(ls, i as int, lk) == (if lk == ListKind::Ul {
            Seq::<char>::empty()
        } else {
            close_tag(lk) + "<ul>"@
        }) + "<li>"@ + spec_inline(ul_content(ls[i as int])) + "</li>"@ + spec_blocks(
            ls,
            i as int + 1,
            ListKind::Ul,
        ));
        assert(out@ + spec_blocks(ls, i as int + 1, ListKind::Ul) =~= pre + spec_blocks(
            ls,
            i as int,
            lk,
        ));
    }
    i + 1
}

/// Handles an ordered list item at line `i`.
fn step_ol(out: &mut String, lines: &Vec<Vec<char>>, i: usize, lk: ListKind) -> (ni: usize)
    requires
        i < lines@.len(),
        no_early_block(lines_view(lines@)[i as int]),
        !is_hr_line(lines_view(lines@)[i as int]),
        !is_header_line(lines_view(lines@)[i as int]),
        !is_quote_line(lines_view(lines@)[i as int]),
        !is_task_line(lines_view(lines@)[i as int]),
        !is_ul_line(lines_view(lines@)[i as int]),
        is_ol_line(lines_view(lines@)[i as int]),
    ensures
        i < ni <= lines@.len(),
        blocks_eq(
            lines_view(lines@),
            i as int,
            lk,
            ni as int,
            ListKind::Ol,
            old(out)@,
            final(out)@,
        ),
{
    let ghost ls = lines_view(lines@);
    let ghost pre = out@;
    let nl = lines.len();
    let line = &lines[i];
    proof {
        assert(ls[i as int] == line@);
    }
    if !(lk == ListKind::Ol) {
        close_list(out, lk);
        out.append("<ol>");
    }
    let o = ol_scan(line);
    let n = line.len();
    out.append("<li>");
    let inner = crate::inline::process_inline_range(line, o.2 + 2, n);
    out.append(inner.as_str());
    out.append("</li>");
    proof {
        assert(ol_content(line@) =~= line@.subrange(o.2 as int + 2, n as int));
        assert(out@ =~= pre + (if lk == ListKind::Ol {
            Seq::<char>::empty()
        } else {
            close_tag(lk) + "<ol>"@
        }) + ("<li>"@ + spec_inline(ol_content(ls[i as int])) + "</li>"@));
        assert(spec_blocks(ls, i as int, lk) == (if lk == ListKind::Ol {
            Seq::<char>::empty()
        } else {
            close_tag(lk) + "<ol>"@
        }) + "<li>"@ + spec_inline(ol_content(ls[i as int])) + "</li>"@ + spec_blocks(
            ls,
            i as int + 1,
            ListKind::Ol,
        ));
        assert(out@ + spec_blocks(ls, i as int + 1, ListKind::Ol) =~= pre + spec_blocks(
            ls,
            i as int,
            lk,
        ));
    }
    i + 1
}

/// Handles a blank line at line `i`: it only closes an open list.
fn step_blank(out: &mut String, lines: &Vec<Vec<char>>, i: usize, lk: ListKind) -> (ni: usize)
    requires
        i < lines@.len(),
        no_early_block(lines_view(lines@)[i as int]),
        !is_hr_line(lines_view(lines@)[i as int]),
        !is_header_line(lines_view(lines@)[i as int]),
        !is_quote_line(lines_view(lines@)[i as int]),
        !is_task_line(lines_view(lines@)[i as int]),
        !is_ul_line(lines_view(lines@)[i as int]),
        !is_ol_line(lines_view(lines@)[i as int]),
        is_blank_line(lines_view(lines@)[i as int]),
    ensures
        i < ni <= lines@.len(),
        blocks_eq(
            lines_view(lines@),
            i as int,
            lk,
            ni as int,
            ListKind::Off,
            old(out)@,
            final(out)@,
        ),
{
    let ghost ls = lines_view(lines@);
    let ghost pre = out@;
    let nl = lines.len();
    close_list(out, lk);
    proof {
        assert(spec_blocks(ls, i as int, lk) == close_tag(lk) + spec_blocks(
            ls,
            i as int + 1,
            ListKind::Off,
        ));
        assert(out@ + spec_blocks(ls, i as int + 1, ListKind::Off) =~= pre + spec_blocks(
            ls,
            i as int,
            lk,
        ));
    }
    i + 1
}

/// Handles a raw HTML passthrough line at line `i`: the line is emitted
/// verbatim, unescaped, as the allow-list prescribes.
fn step_html(out: &mut String, lines: &Vec<Vec<char>>, i: usize, lk: ListKind) -> (ni: usize)
    requires
        i < lines@.len(),
        no_early_block(lines_view(lines@)[i as int]),
        !is_hr_line(lines_view(lines@)[i as int]),
        !is_header_line(lines_view(lines@)[i as int]),
        !is_quote_line(lines_view(lines@)[i as int]),
        !is_task_line(lines_view(lines@)[i as int]),
        !is_ul_line(lines_view(lines@)[i as int]),
        !is_ol_line(lines_view(lines@)[i as int]),
        !is_blank_line(lines_view(lines@)[i as int]),
        is_html_line(lines_view(lines@)[i as int]),
    ensures
        i < ni <= lines@.len(),
        blocks_eq(
            lines_view(lines@),
            i as int,
            lk,
            ni as int,
            ListKind::Off,
            old(out)@,
            final(out)@,
        ),
{
    let ghost ls = lines_view(lines@);
    let ghost pre = out@;
    let nl = lines.len();
    let line = &lines[i];
    proof {
        assert(ls[i as int] == line@);
    }
    close_list(out, lk);
    let sline = crate::chartext::string_of_range(line, 0, line.len());
    out.append(sline.as_str());
    proof {
        assert(line@.subrange(0, line@.len() as int) =~= line@);
        assert(spec_blocks(ls, i as int, lk) == close_tag(lk) + ls[i as int] + spec_blocks(
            ls,
            i as int + 1,
            ListKind::Off,
        ));
        assert(out@ + spec_blocks(ls, i as int + 1, ListKind::Off) =~= pre + spec_blocks(
            ls,
            i as int,
            lk,
        ));
    }
    i + 1
}

/// Handles the paragraph fallback at line `i`: the line and every following
/// line up to a break are joined and rendered inside one `<p>` element.
#[verifier::rlimit(100)]
fn step_para(out: &mut String, lines: &Vec<Vec<char>>, i: usize, lk: ListKind) -> (ni: usize)
    requires
        i < lines@.len(),
        no_early_block(lines_view(lines@)[i as int]),
        !is_hr_line(lines_view(lines@)[i as int]),
        !is_header_line(lines_view(lines@)[i as int]),
        !is_quote_line(lines_view(lines@)[i as int]),
        !is_task_line(lines_view(lines@)[i as int]),
        !is_ul_line(lines_view(lines@)[i as int]),
        !is_ol_line(lines_view(lines@)[i as int]),
        !is_blank_line(lines_view(lines@)[i as int]),
        !is_html_line(lines_view(lines@)[i as int]),
    ensures
        i < ni <= lines@.len(),
        blocks_eq(
            lines_view(lines@),
            i as int,
            lk,
            ni as int,
            ListKind::Off,
            old(out)@,
            final(out)@,
        ),
{
    let ghost ls = lines_view(lines@);
    let ghost pre = out@;
    let nl = lines.len();
    close_list(out, lk);
    let mut e: usize = i + 1;
    while e < nl && !para_break_line(&lines[e])
        invariant
            i + 1 <= e <= nl == lines@.len(),
            ls == lines_view(lines@),
            para_end(ls, i as int + 1) == para_end(ls, e as int),
        decreases nl - e,
    {
        proof {
            assert(ls[e as int] == lines@[e as int]@);
        }
        e = e + 1;
    }
    proof {
        if e < nl {
            assert(ls[e as int] == lines@[e as int]@);
        }
        assert(e == para_end(ls, i as int + 1));
    }
    let mut parav: Vec<char> = Vec::new();
    let mut k: usize = i;
    proof {
        assert(parav@ + para_text(ls, k as int, e as int) =~= para_text(ls, i as int, e as int));
    }
    while k < e
        invariant
            i <= k <= e <= nl == lines@.len(),
            ls == lines_view(lines@),
            parav@ + para_text(ls, k as int, e as int) == para_text(ls, i as int, e as int),
        decreases e - k,
    {
        let ghost pk = parav@;
        let row = &lines[k];
        proof {
            assert(ls[k as int] == row@);
        }
        let n = row.len();
        if k + 1 < e {
            if n > 0 && row[n - 1] == '\\' {
                crate::chartext::push_range(&mut parav, row, 0, n - 1);
                parav.push('<');
                parav.push('b');
                parav.push('r');
                parav.push('>');
                proof {
                    reveal_strlit("<br>");
                    assert(parav@ =~= pk + joined_form(ls[k as int]));
                }
            } else if n >= 2 && row[n - 1] == ' ' && row[n - 2] == ' ' {
                let te = crate::chartext::trim_end_idx(row);
                proof {
                    crate::chartext::lemma_ws_start(row@, n as int);
                }
                crate::chartext::push_range(&mut parav, row, 0, te);
                parav.push('<');
                parav.push('b');
                parav.push('r');
                parav.push('>');
                proof {
                    reveal_strlit("<br>");
                    assert(parav@ =~= pk + joined_form(ls[k as int]));
                }
            } else {
                crate::chartext::push_range(&mut parav, row, 0, n);
                parav.push(' ');
                proof {
                    reveal_strlit(" ");
                    assert(row@.subrange(0, n as int) =~= row@);
                    assert(parav@ =~= pk + joined_form(ls[k as int]));
                }
            }
            proof {
                assert(para_text(ls, k as int, e as int) == joined_form(ls[k as int]) + para_text(
                    ls,
                    k + 1,
                    e as int,
                ));
                assert(parav@ + para_text(ls, k + 1, e as int) =~= pk + para_text(
                    ls,
                    k as int,
                    e as int,
                ));
            }
        } else {
            crate::chartext::push_range(&mut parav, row, 0, n);
            proof {
                assert(row@.subrange(0, n as int) =~= row@);
                assert(para_text(ls, k as int, e as int) == ls[k as int]);
                assert(parav@ + para_text(ls, k + 1, e as int) =~= pk + para_text(
                    ls,
                    k as int,
                    e as int,
                ));
            }
        }
        k = k + 1;
    }
    out.append("<p>");
    let inner = crate::inline::process_inline_range(&parav, 0, parav.len());
    out.append(inner.as_str());
    out.append("</p>");
    proof {
        assert(parav@ + para_text(ls, e as int, e as int) =~= parav@);
        assert(parav@.subrange(0, parav@.len() as int) =~= parav@);
        assert(out@ =~= pre + close_tag(lk) + para_chunk(ls, i as int));
        assert(spec_blocks(ls, i as int, lk) == close_tag(lk) + para_chunk(ls, i as int)
            + spec_blocks(ls, e as int, ListKind::Off));
        assert(out@ + spec_blocks(ls, e as int, ListKind::Off) =~= pre + spec_blocks(
            ls,
            i as int,
            lk,
        ));
    }
    e
}

/// Walks all lines and emits every block, closing any list left open at the
/// end of the pass.
pub fn render_lines(lines: &Vec<Vec<char>>) -> (out: String)
    ensures
        out@ == spec_render_lines(lines_view(lines@)),
{
    let ghost ls = lines_view(lines@);
    let nl = lines.len();
    let mut out = String::new();
    let mut lk = ListKind::Off;
    let mut i: usize = 0;
    proof {
        assert(out@ + spec_blocks(ls, 0, ListKind::Off) =~= spec_blocks(ls, 0, ListKind::Off));
    }
    while i < nl
        invariant
            i <= nl == lines@.len(),
            ls == lines_view(lines@),
            out@ + spec_blocks(ls, i as int, lk) == spec_blocks(ls, 0, ListKind::Off),
        decreases nl - i,
    {
        let line = &lines[i];
        proof {
            assert(ls[i as int] == line@);
        }
        if fence_line(line) {
            let ni = step_fence(&mut out, lines, i, lk);
            i = ni;
            lk = ListKind::Off;
            continue ;
        }
        if dollar_open_line(line) {
            let ni = step_dollar_multi(&mut out, lines, i, lk);
            i = ni;
            lk = ListKind::Off;
            continue ;
        }
        if dollar_single_line(line) {
            let ni = step_dollar_single(&mut out, lines, i, lk);
            i = ni;
            lk = ListKind::Off;
            continue ;
        }
        let sh = bracket_shape(line);
        if sh.0 {
            let ni = step_bracket_multi(&mut out, lines, i, lk);
            i = ni;
            lk = ListKind::Off;
            continue ;
        }
        if sh.2 {
            let ni = step_bracket_single(&mut out, lines, i, lk);
            i = ni;
            lk = ListKind::Off;
            continue ;
        }
        if table_line(line) {
            let ni = step_table(&mut out, lines, i, lk);
            i = ni;
            lk = ListKind::Off;
            continue ;
        }
        if hr_line(line) {
            let ni = step_hr(&mut out, lines, i, lk);
            i = ni;
            lk = ListKind::Off;
            continue ;
        }
        if header_line(line) {
            let ni = step_header(&mut out, lines, i, lk);
            i = ni;
            lk = ListKind::Off;
            continue ;
        }
        if quote_line(line) {
            let ni = step_quote(&mut out, lines, i, lk);
            i = ni;
            lk = ListKind::Off;
            continue ;
        }
        if task_line(line) {
            let ni = step_task(&mut out, lines, i, lk);
            i = ni;
            lk = ListKind::Ul;
            continue ;
        }
        if ul_line(line) {
            let ni = step_ul(&mut out, lines, i, lk);
            i = ni;
            lk = ListKind::Ul;
            continue ;
        }
        let o = ol_scan(line);
        if o.0 {
            let ni = step_ol(&mut out, lines, i, lk);
            i = ni;
            lk = ListKind::Ol;
            continue ;
        }
        if blank_line(line) {
            let ni = step_blank(&mut out, lines, i, lk);
            i = ni;
            lk = ListKind::Off;
            continue ;
        }
        if html_line(line) {
            let ni = step_html(&mut out, lines, i, lk);
            i = ni;
            lk = ListKind::Off;
            continue ;
        }
        let ni = step_para(&mut out, lines, i, lk);
        i = ni;
        lk = ListKind::Off;
    }
    close_list(&mut out, lk);
    proof {
        assert(spec_blocks(ls, i as int, lk) == close_tag(lk));
        assert(out@ =~= spec_blocks(ls, 0, ListKind::Off));
    }
    out
}


// ----- string-level helpers ---------------------------------------------------

/// The raw task marker: the six characters opening a task list item.
pub open spec fn task_marker(s: Seq<char>) -> bool {
    s.len() >= 6 && (s[0] == '-' || s[0] == '*') && s[1] == ' ' && s[2] == '[' && (s[3] == ' '
        || s[3] == 'x' || s[3] == 'X') && s[4] == ']' && s[5] == ' '
}

/// Whether a line is a task list item.
pub fn is_task_list_item(line: &str) -> (r: bool)
    ensures
        r == is_task_line(line@),
{
    let v = crate::chartext::chars_vec(line);
    task_line(&v)
}

/// Splits an already-trimmed task item into its checked state and its item
/// text; text without the task marker is handed back whole, unchecked.
pub fn parse_task_item(trimmed: &str) -> (r: (bool, String))
    ensures
        r.0 == (task_marker(trimmed@) && (trimmed@[3] == 'x' || trimmed@[3] == 'X')),
        r.1@ == if task_marker(trimmed@) {
            trimmed@.subrange(6, trimmed@.len() as int)
        } else {
            trimmed@
        },
{
    let v = crate::chartext::chars_vec(trimmed);
    let n = v.len();
    if n >= 6 && (v[0] == '-' || v[0] == '*') && v[1] == ' ' && v[2] == '[' && (v[3] == ' ' || v[3]
        == 'x' || v[3] == 'X') && v[4] == ']' && v[5] == ' ' {
        let checked = v[3] == 'x' || v[3] == 'X';
        (checked, crate::chartext::string_of_range(&v, 6, n))
    } else {
        proof {
            assert(v@.subrange(0, n as int) =~= trimmed@);
        }
        (false, crate::chartext::string_of_range(&v, 0, n))
    }
}

/// Whether a line continues an open list.
pub fn is_list_item(line: &str) -> (r: bool)
    ensures
        r == is_list_item_line(line@),
{
    let v = crate::chartext::chars_vec(line);
    list_item_line(&v)
}

/// The item text of an ordered list item, if the line is one.
pub fn parse_ordered_list_item(line: &str) -> (r: Option<String>)
    ensures
        r is Some <==> is_ol_line(line@),
        match r {
            Some(c) => c@ == ol_content(line@),
            None => true,
        },
{
    let v = crate::chartext::chars_vec(line);
    let o = ol_scan(&v);
    if o.0 {
        let n = v.len();
        let c = crate::chartext::string_of_range(&v, o.2 + 2, n);
        proof {
            assert(ol_content(line@) =~= v@.subrange(o.2 as int + 2, n as int));
        }
        Some(c)
    } else {
        None
    }
}

/// The heading element for a heading line, if the line is one.
pub fn parse_header(line: &str) -> (r: Option<String>)
    ensures
        r is Some <==> is_header_line(line@),
        match r {
            Some(h) => h@ == header_chunk(line@),
            None => true,
        },
{
    let v = crate::chartext::chars_vec(line);
    if !header_line(&v) {
        return None;
    }
    let a = trim_start_idx(&v);
    proof {
        crate::chartext::lemma_ws_end(v@, 0);
    }
    let h = marker_scan(&v, a, '#');
    let n = v.len();
    let lvl = h - a;
    let mut out = String::new();
    if lvl == 1 {
        out.append("<h1>");
    } else if lvl == 2 {
        out.append("<h2>");
    } else if lvl == 3 {
        out.append("<h3>");
    } else if lvl == 4 {
        out.append("<h4>");
    } else if lvl == 5 {
        out.append("<h5>");
    } else {
        out.append("<h6>");
    }
    let inner = crate::inline::process_inline_range(&v, h + 1, n);
    out.append(inner.as_str());
    if lvl == 1 {
        out.append("</h1>");
    } else if lvl == 2 {
        out.append("</h2>");
    } else if lvl == 3 {
        out.append("</h3>");
    } else if lvl == 4 {
        out.append("</h4>");
    } else if lvl == 5 {
        out.append("</h5>");
    } else {
        out.append("</h6>");
    }
    proof {
        assert(header_content(line@) =~= v@.subrange(h as int + 1, n as int));
        assert(out@ =~= header_chunk(line@));
    }
    Some(out)
}

} // verus!
