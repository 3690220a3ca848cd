//! The engine's entry point, and the laws that hold of whole renderings.
//!
//! `render` and `render_markdown_to_html` terminate on every input and
//! cannot panic: every function of the engine is verified, every loop and
//! recursion carries a termination measure, and the contracts admit every
//! input string.

use vstd::prelude::*;
use crate::chartext::chars_vec;
use crate::chartext::trim_start_of;
use crate::chartext::trim_of;
use crate::chartext::lemma_ws_end;
use crate::chartext::lemma_trim_of;
use crate::chartext::ws_end;
use crate::chartext::ws_start;
use crate::chartext::lemma_ws_start;
use crate::lines::split_lines;
use crate::lines::spec_lines;
use crate::blocks::render_lines;
use crate::blocks::spec_render_lines;
use crate::blocks::spec_blocks;
use crate::blocks::ListKind;
use crate::blocks::close_tag;
use crate::blocks::fence_chunk;
use crate::blocks::fence_end;
use crate::blocks::lemma_fence_end;
use crate::blocks::is_fence_line;
use crate::blocks::is_table_line;
use crate::blocks::is_ul_line;
use crate::blocks::is_task_line;
use crate::blocks::is_blank_line;
use crate::blocks::is_dollar_open;
use crate::blocks::is_dollar_single;
use crate::blocks::is_bracket_open;
use crate::blocks::is_bracket_single;
use crate::blocks::is_hr_line;
use crate::blocks::is_header_line;
use crate::blocks::is_quote_line;
use crate::blocks::is_ol_line;
use crate::blocks::header_level;
use crate::blocks::lemma_run_end;
use crate::blocks::table_chunk;
use crate::blocks::table_end;
use crate::blocks::table_rows;
use crate::blocks::cells_html;
use crate::blocks::row_cells;
use crate::blocks::ul_content;
use crate::inline::spec_inline;

verus! {

/// The rendering of a whole input text: its lines, walked by the block
/// segmenter.
pub open spec fn spec_render(s: Seq<char>) -> Seq<char> {
    spec_render_lines(spec_lines(s))
}

/// Converts assistant-authored text into an HTML fragment safe to inject
/// into a container element.  The empty input renders to the empty output.
pub fn render_markdown_to_html(input: &str) -> (r: String)
    ensures
        r@ == spec_render(input@),
        input@.len() == 0 ==> r@.len() == 0,
{
    let cs = chars_vec(input);
    let lines = split_lines(&cs);
    let r = render_lines(&lines);
    proof {
        if input@.len() == 0 {
            assert(spec_lines(input@) =~= Seq::<Seq<char>>::empty());
            assert(spec_render(input@) =~= Seq::<char>::empty());
        }
    }
    r
}

/// The single entry point.  The `streaming` flag is a presentation hint for
/// the caller's own wrapper element: the result is pinned to the input
/// alone, so the flag cannot change what is parsed or emitted.
pub fn render(input: &str, streaming: bool) -> (r: String)
    ensures
        r@ == spec_render(input@),
        input@.len() == 0 ==> r@.len() == 0,
{
    render_markdown_to_html(input)
}

/// A fence opened on the first line and never closed consumes the entire
/// input: the rendering is exactly one code block, and it still carries all
/// of its closing tags.
pub proof fn law_unterminated_fence(s: Seq<char>)
    requires
        spec_lines(s).len() > 0,
        is_fence_line(spec_lines(s)[0]),
        forall|k: int| 1 <= k < spec_lines(s).len() ==> !is_fence_line(spec_lines(s)[k]),
    ensures
        spec_render(s) == fence_chunk(spec_lines(s), 0),
{
    let ls = spec_lines(s);
    lemma_fence_end(ls, 1);
    let e = fence_end(ls, 1);
    if e < ls.len() {
        assert(is_fence_line(ls[e]));
        assert(false);
    }
    assert(spec_blocks(ls, ls.len() as int, ListKind::Off) == close_tag(ListKind::Off));
    assert(spec_render(s) =~= fence_chunk(ls, 0));
}

/// A table with a header row and no body rows renders an empty `tbody`
/// element.
pub proof fn law_table_no_body(ls: Seq<Seq<char>>, i: int)
    requires
        0 <= i < ls.len(),
        table_end(ls, i + 2) == i + 2,
    ensures
        table_chunk(ls, i) == "<div class=\"table-wrapper\"><table><thead><tr>"@ + cells_html(
            row_cells(ls[i]),
            0,
            "<th>"@,
            "</th>"@,
        ) + "</tr></thead><tbody>"@ + "</tbody></table></div>"@,
{
    assert(table_rows(ls, i + 2, i + 2) == Seq::<char>::empty());
    assert(table_chunk(ls, i) =~= "<div class=\"table-wrapper\"><table><thead><tr>"@ + cells_html(
        row_cells(ls[i]),
        0,
        "<th>"@,
        "</th>"@,
    ) + "</tr></thead><tbody>"@ + "</tbody></table></div>"@);
}

/// A plain unordered item (not a task item) matches none of the block rules
/// that precede the unordered-list rule.
proof fn lemma_ul_not_earlier(l: Seq<char>)
    requires
        is_ul_line(l),
        !is_task_line(l),
    ensures
        crate::blocks::no_early_block(l),
        !is_hr_line(l),
        !is_header_line(l),
        !is_quote_line(l),
        !is_blank_line(l),
{
    let ts = trim_start_of(l);
    let a = ws_end(l, 0);
    lemma_ws_end(l, 0);
    lemma_trim_of(l);
    lemma_ws_start(l, l.len() as int);
    assert(ts[0] == l[a]);
    assert(ts.len() >= 2);
    let t0 = trim_of(l);
    assert(a < l.len());
    let b = ws_start(l, l.len() as int);
    assert(a < b <= l.len());
    assert(t0 == l.subrange(a, b));
    assert(t0.len() == b - a >= 1);
    assert(t0[0] == l[a]);
    if t0.len() >= 2 {
        assert(t0[1] == l[a + 1]);
    }
    assert(!is_dollar_open(l) && !is_dollar_single(l) && !is_bracket_open(l) && !is_bracket_single(
        l,
    ) && !is_table_line(l));
    assert(!is_hr_line(l)) by {
        if is_hr_line(l) {
            assert(t0[1] == l[a + 1] && ts[1] == l[a + 1]);
        }
    }
    assert(!is_header_line(l)) by {
        lemma_run_end(ts, '#', 0);
        if header_level(l) >= 1 {
            assert(ts[0] == '#');
        }
    }
}

/// A list interrupted by a blank line and resumed by the same marker type
/// renders as two separate list elements, not one.
pub proof fn law_list_blank_split(ls: Seq<Seq<char>>, i: int)
    requires
        0 <= i,
        i + 2 < ls.len(),
        is_ul_line(ls[i]) && !is_task_line(ls[i]),
        is_blank_line(ls[i + 1]),
        is_ul_line(ls[i + 2]) && !is_task_line(ls[i + 2]),
    ensures
        spec_blocks(ls, i, ListKind::Off) == "<ul>"@ + ("<li>"@ + spec_inline(ul_content(ls[i]))
            + "</li>"@) + "</ul>"@ + ("<ul>"@ + ("<li>"@ + spec_inline(ul_content(ls[i + 2]))
            + "</li>"@)) + spec_blocks(ls, i + 3, ListKind::Ul),
{
    lemma_ul_not_earlier(ls[i]);
    lemma_ul_not_earlier(ls[i + 2]);
    lemma_blank_not_earlier(ls[i + 1]);
    assert(spec_blocks(ls, i, ListKind::Off) == Seq::<char>::empty() + "<ul>"@ + "<li>"@
        + spec_inline(ul_content(ls[i])) + "</li>"@ + spec_blocks(ls, i + 1, ListKind::Ul));
    assert(spec_blocks(ls, i + 1, ListKind::Ul) == close_tag(ListKind::Ul) + spec_blocks(
        ls,
        i + 2,
        ListKind::Off,
    ));
    assert(spec_blocks(ls, i + 2, ListKind::Off) == Seq::<char>::empty() + "<ul>"@ + "<li>"@
        + spec_inline(ul_content(ls[i + 2])) + "</li>"@ + spec_blocks(ls, i + 3, ListKind::Ul));
    assert(spec_blocks(ls, i, ListKind::Off) =~= "<ul>"@ + ("<li>"@ + spec_inline(
        ul_content(ls[i]),
    ) + "</li>"@) + "</ul>"@ + ("<ul>"@ + ("<li>"@ + spec_inline(ul_content(ls[i + 2])) + "</li>"@))
        + spec_blocks(ls, i + 3, ListKind::Ul));
}

/// A blank line matches none of the block rules that precede the blank-line
/// rule.
proof fn lemma_blank_not_earlier(l: Seq<char>)
    requires
        is_blank_line(l),
    ensures
        crate::blocks::no_early_block(l),
        !is_hr_line(l),
        !is_header_line(l),
        !is_quote_line(l),
        !is_task_line(l),
        !is_ul_line(l),
        !is_ol_line(l),
{
    lemma_ws_end(l, 0);
    let ts = trim_start_of(l);
    let t0 = trim_of(l);
    assert(ts.len() == 0);
    assert(t0.len() == 0);
    assert(!is_header_line(l)) by {
        lemma_run_end(ts, '#', 0);
    }
    assert(!is_ol_line(l)) by {
        crate::inline::lemma_find2(ts, '.', ' ', 0);
    }
}

} // verus!
