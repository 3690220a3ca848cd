//! The inline processor: resolves code, math, emphasis, links, images,
//! strikethrough and superscript spans inside one logical line, escaping all
//! literal text.  At each cursor position the span openers are tried in a
//! fixed priority order; an opener whose closer is missing falls through,
//! ultimately to literal escaping of the single character, so malformed
//! markup degrades to visible text instead of broken structure.

use vstd::prelude::*;
use vstd::string::StringExecFns;
use crate::chartext::chars_vec;
use crate::chartext::string_of_range;
use crate::chartext::spec_find;
use crate::chartext::lemma_find;
use crate::escape::spec_escape;
use crate::escape::spec_escape_at;
use crate::escape::spec_escape_attr;
use crate::escape::spec_escape_char;
use crate::escape::escape_append;
use crate::escape::escape_attr_append;

verus! {

/// First index `j >= i` with `s[j] == c0` and `s[j+1] == c1` (both in
/// bounds), or `s.len()` if there is no such adjacent pair.
pub open spec fn spec_find2(s: Seq<char>, c0: char, c1: char, i: int) -> int
    decreases s.len() - i,
{
    if i < 0 || i + 1 >= s.len() {
        s.len() as int
    } else if s[i] == c0 && s[i + 1] == c1 {
        i
    } else {
        spec_find2(s, c0, c1, i + 1)
    }
}

pub proof fn lemma_find2(s: Seq<char>, c0: char, c1: char, i: int)
    requires
        0 <= i <= s.len(),
    ensures
        i <= spec_find2(s, c0, c1, i) <= s.len(),
        spec_find2(s, c0, c1, i) < s.len() ==> spec_find2(s, c0, c1, i) + 1 < s.len() && s[spec_find2(s, c0, c1, i)] == c0
            && s[spec_find2(s, c0, c1, i) + 1] == c1,
        forall|k: int|
            i <= k < spec_find2(s, c0, c1, i) && k + 1 < s.len() ==> !(#[trigger] s[k] == c0
                && s[k + 1] == c1),
    decreases s.len() - i,
{
    if !(i + 1 >= s.len()) && !(s[i] == c0 && s[i + 1] == c1) {
        lemma_find2(s, c0, c1, i + 1);
    }
}

/// First index `j >= i` opening a run of three `c` characters, or `s.len()`.
pub open spec fn spec_find3(s: Seq<char>, c: char, i: int) -> int
    decreases s.len() - i,
{
    if i < 0 || i + 2 >= s.len() {
        s.len() as int
    } else if s[i] == c && s[i + 1] == c && s[i + 2] == c {
        i
    } else {
        spec_find3(s, c, i + 1)
    }
}

pub proof fn lemma_find3(s: Seq<char>, c: char, i: int)
    requires
        0 <= i <= s.len(),
    ensures
        i <= spec_find3(s, c, i) <= s.len(),
        spec_find3(s, c, i) < s.len() ==> spec_find3(s, c, i) + 2 < s.len() && s[spec_find3(s, c, i)] == c && s[spec_find3(
            s,
            c,
            i,
        ) + 1] == c && s[spec_find3(s, c, i) + 2] == c,
        forall|k: int|
            i <= k < spec_find3(s, c, i) && k + 2 < s.len() ==> !(#[trigger] s[k] == c && s[k
                + 1] == c && s[k + 2] == c),
    decreases s.len() - i,
{
    if !(i + 2 >= s.len()) && !(s[i] == c && s[i + 1] == c && s[i + 2] == c) {
        lemma_find3(s, c, i + 1);
    }
}

pub proof fn lemma_find_is(s: Seq<char>, c: char, i: int, j: int)
    requires
        0 <= i <= s.len(),
        i <= j <= s.len(),
        j < s.len() ==> s[j] == c,
        forall|k: int| i <= k < j ==> s[k] != c,
    ensures
        spec_find(s, c, i) == j,
    decreases s.len() - i,
{
    if i < s.len() && s[i] != c {
        lemma_find_is(s, c, i + 1, j);
    }
}

pub proof fn lemma_find2_is(s: Seq<char>, c0: char, c1: char, i: int, j: int)
    requires
        0 <= i <= s.len(),
        i <= j <= s.len(),
        j < s.len() ==> j + 1 < s.len() && s[j] == c0 && s[j + 1] == c1,
        forall|k: int| i <= k < j && k + 1 < s.len() ==> !(#[trigger] s[k] == c0 && s[k + 1] == c1),
    ensures
        spec_find2(s, c0, c1, i) == j,
    decreases s.len() - i,
{
    if i + 1 >= s.len() {
        if j < s.len() {
            assert(false);
        }
    } else if s[i] == c0 && s[i + 1] == c1 {
        if j != i {
            assert(!(s[i] == c0 && s[i + 1] == c1));
        }
    } else {
        lemma_find2_is(s, c0, c1, i + 1, j);
    }
}

pub proof fn lemma_find3_is(s: Seq<char>, c: char, i: int, j: int)
    requires
        0 <= i <= s.len(),
        i <= j <= s.len(),
        j < s.len() ==> j + 2 < s.len() && s[j] == c && s[j + 1] == c && s[j + 2] == c,
        forall|k: int| i <= k < j && k + 2 < s.len() ==> !(#[trigger] s[k] == c && s[k + 1] == c && s[k + 2] == c),
    ensures
        spec_find3(s, c, i) == j,
    decreases s.len() - i,
{
    if i + 2 >= s.len() {
        if j < s.len() {
            assert(false);
        }
    } else if s[i] == c && s[i + 1] == c && s[i + 2] == c {
        if j != i {
            assert(!(s[i] == c && s[i + 1] == c && s[i + 2] == c));
        }
    } else {
        lemma_find3_is(s, c, i + 1, j);
    }
}

/// A well-formed link body `[text](url)` starting at `start`.
pub open spec fn link_ok(s: Seq<char>, start: int) -> bool {
    0 <= start < s.len() && s[start] == '[' && {
        let cb = spec_find(s, ']', start + 1);
        cb < s.len() && cb + 1 < s.len() && s[cb + 1] == '(' && spec_find(s, ')', cb + 2) < s.len()
    }
}

/// Index of the `]` closing the link text.
pub open spec fn link_cb(s: Seq<char>, start: int) -> int {
    spec_find(s, ']', start + 1)
}

/// Index of the `)` closing the link target.
pub open spec fn link_cp(s: Seq<char>, start: int) -> int {
    spec_find(s, ')', link_cb(s, start) + 2)
}

/// The link text `[..]`, exclusive of the brackets.
pub open spec fn link_text(s: Seq<char>, start: int) -> Seq<char> {
    s.subrange(start + 1, link_cb(s, start))
}

/// The link target `(..)`, exclusive of the parentheses.
pub open spec fn link_url(s: Seq<char>, start: int) -> Seq<char> {
    s.subrange(link_cb(s, start) + 2, link_cp(s, start))
}

/// The `<br>` literal passthrough applies at `i`.
pub open spec fn cond_br(s: Seq<char>, i: int) -> bool {
    i + 3 < s.len() && s[i] == '<' && s[i + 1] == 'b' && s[i + 2] == 'r' && s[i + 3] == '>'
}

/// An inline code span opens at `i` and has a closing backtick.
pub open spec fn cond_code(s: Seq<char>, i: int) -> bool {
    s[i] == '`' && spec_find(s, '`', i + 1) < s.len()
}

/// Inline math in `\( .. \)` form opens at `i` and has a closer.
pub open spec fn cond_math_paren(s: Seq<char>, i: int) -> bool {
    s[i] == '\\' && i + 1 < s.len() && s[i + 1] == '(' && spec_find2(s, '\\', ')', i + 2) < s.len()
}

/// Inline math in `$ .. $` form opens at `i`: not immediately followed by a
/// second `$`, and a closing `$` exists beyond the very next position.
pub open spec fn cond_math_dollar(s: Seq<char>, i: int) -> bool {
    s[i] == '$' && i + 1 < s.len() && s[i + 1] != '$' && spec_find(s, '$', i + 1) < s.len()
        && spec_find(s, '$', i + 1) > i + 1
}

/// Bold plus italic `*** .. ***` opens at `i` and has a triple closer.
pub open spec fn cond_tri(s: Seq<char>, i: int) -> bool {
    i + 2 < s.len() && s[i] == '*' && s[i + 1] == '*' && s[i + 2] == '*' && spec_find3(
        s,
        '*',
        i + 3,
    ) < s.len()
}

/// Bold `** .. **` or `__ .. __` opens at `i` and has a double closer.
pub open spec fn cond_bold(s: Seq<char>, i: int, c: char) -> bool {
    i + 1 < s.len() && s[i] == c && s[i + 1] == c && spec_find2(s, c, c, i + 2) < s.len()
}

/// Italic `* .. *` or `_ .. _` opens at `i`: the next character is neither
/// the delimiter nor a space, and a closer with non-empty content exists.
pub open spec fn cond_em(s: Seq<char>, i: int, c: char) -> bool {
    s[i] == c && i + 1 < s.len() && s[i + 1] != c && s[i + 1] != ' ' && spec_find(s, c, i + 1)
        < s.len() && spec_find(s, c, i + 1) > i + 1
}

/// An image `![alt](url)` opens at `i`.
pub open spec fn cond_img(s: Seq<char>, i: int) -> bool {
    s[i] == '!' && i + 1 < s.len() && s[i + 1] == '[' && link_ok(s, i + 1)
}

/// A link `[text](url)` opens at `i`.
pub open spec fn cond_link(s: Seq<char>, i: int) -> bool {
    s[i] == '[' && link_ok(s, i)
}

/// Strikethrough `~~ .. ~~` opens at `i` and has a double closer.
pub open spec fn cond_del(s: Seq<char>, i: int) -> bool {
    i + 1 < s.len() && s[i] == '~' && s[i + 1] == '~' && spec_find2(s, '~', '~', i + 2) < s.len()
}

/// Superscript `^ .. ^` opens at `i`: not followed by a space, and a closer
/// with non-empty content exists.
pub open spec fn cond_sup(s: Seq<char>, i: int) -> bool {
    s[i] == '^' && i + 1 < s.len() && s[i + 1] != ' ' && spec_find(s, '^', i + 1) < s.len()
        && spec_find(s, '^', i + 1) > i + 1
}

/// The HTML for an inline math span over the raw math source.
pub open spec fn math_span(latex: Seq<char>) -> Seq<char> {
    "<span class=\"katex-inline\" data-latex=\""@ + spec_escape_attr(latex) + "\">"@ + spec_escape(
        latex,
    ) + "</span>"@
}

/// The inline-processed rendering of `s[i..]`: the first applicable span
/// opener wins, and a position where none applies is escaped literally.
pub open spec fn spec_inline_at(s: Seq<char>, i: int) -> Seq<char>
    decreases s.len(), s.len() - i,
        via spec_inline_at_dec
{
    if i < 0 || i >= s.len() {
        Seq::empty()
    } else if cond_br(s, i) {
        "<br>"@ + spec_inline_at(s, i + 4)
    } else if cond_code(s, i) {
        let e = spec_find(s, '`', i + 1);
        "<code>"@ + spec_escape(s.subrange(i + 1, e)) + "</code>"@ + spec_inline_at(s, e + 1)
    } else if cond_math_paren(s, i) {
        let e = spec_find2(s, '\\', ')', i + 2);
        math_span(s.subrange(i + 2, e)) + spec_inline_at(s, e + 2)
    } else if cond_math_dollar(s, i) {
        let e = spec_find(s, '$', i + 1);
        math_span(s.subrange(i + 1, e)) + spec_inline_at(s, e + 1)
    } else if cond_tri(s, i) {
        let e = spec_find3(s, '*', i + 3);
        "<strong><em>"@ + spec_inline(s.subrange(i + 3, e)) + "</em></strong>"@ + spec_inline_at(
            s,
            e + 3,
        )
    } else if cond_bold(s, i, '*') {
        let e = spec_find2(s, '*', '*', i + 2);
        "<strong>"@ + spec_inline(s.subrange(i + 2, e)) + "</strong>"@ + spec_inline_at(s, e + 2)
    } else if cond_bold(s, i, '_') {
        let e = spec_find2(s, '_', '_', i + 2);
        "<strong>"@ + spec_inline(s.subrange(i + 2, e)) + "</strong>"@ + spec_inline_at(s, e + 2)
    } else if cond_em(s, i, '*') {
        let e = spec_find(s, '*', i + 1);
        "<em>"@ + spec_inline(s.subrange(i + 1, e)) + "</em>"@ + spec_inline_at(s, e + 1)
    } else if cond_em(s, i, '_') {
        let e = spec_find(s, '_', i + 1);
        "<em>"@ + spec_inline(s.subrange(i + 1, e)) + "</em>"@ + spec_inline_at(s, e + 1)
    } else if cond_img(s, i) {
        "<img src=\""@ + spec_escape_attr(link_url(s, i + 1)) + "\" alt=\""@ + spec_escape_attr(
            link_text(s, i + 1),
        ) + "\" class=\"chat-image\" loading=\"lazy\">"@ + spec_inline_at(s, link_cp(s, i + 1) + 1)
    } else if cond_link(s, i) {
        "<a href=\""@ + spec_escape_attr(link_url(s, i)) + "\" target=\"_blank\" rel=\"noopener\">"@
            + spec_inline(link_text(s, i)) + "</a>"@ + spec_inline_at(s, link_cp(s, i) + 1)
    } else if cond_del(s, i) {
        let e = spec_find2(s, '~', '~', i + 2);
        "<del>"@ + spec_inline(s.subrange(i + 2, e)) + "</del>"@ + spec_inline_at(s, e + 2)
    } else if cond_sup(s, i) {
        let e = spec_find(s, '^', i + 1);
        "<sup>"@ + spec_escape(s.subrange(i + 1, e)) + "</sup>"@ + spec_inline_at(s, e + 1)
    } else {
        spec_escape_char(s[i]) + spec_inline_at(s, i + 1)
    }
}

/// The inline-processed rendering of a whole sequence.
pub open spec fn spec_inline(s: Seq<char>) -> Seq<char>
    decreases s.len(), s.len() + 1,
{
    spec_inline_at(s, 0)
}

#[via_fn]
proof fn spec_inline_at_dec(s: Seq<char>, i: int) {
    if 0 <= i < s.len() {
        lemma_find(s, '`', i + 1);
        lemma_find(s, '$', i + 1);
        lemma_find(s, '*', i + 1);
        lemma_find(s, '_', i + 1);
        lemma_find(s, '^', i + 1);
        if i + 2 <= s.len() {
            lemma_find2(s, '\\', ')', i + 2);
            lemma_find2(s, '*', '*', i + 2);
            lemma_find2(s, '_', '_', i + 2);
            lemma_find2(s, '~', '~', i + 2);
        }
        if i + 3 <= s.len() {
            lemma_find3(s, '*', i + 3);
        }
        if link_ok(s, i) {
            lemma_find(s, ']', i + 1);
            lemma_find(s, ')', link_cb(s, i) + 2);
        }
        if i + 1 < s.len() && link_ok(s, i + 1) {
            lemma_find(s, ']', i + 2);
            lemma_find(s, ')', link_cb(s, i + 1) + 2);
        }
    }
}

/// Index of the next `delim` in `t[start..to)`, as an index into `t`, with
/// `to` standing for "not found"; mirrors `spec_find` over `t[from..to]`.
pub fn find_in(t: &Vec<char>, from: usize, to: usize, start: usize, delim: char) -> (j: usize)
    requires
        from <= start <= to <= t@.len(),
    ensures
        start <= j <= to,
        j - from == spec_find(t@.subrange(from as int, to as int), delim, start - from),
{
    let ghost s = t@.subrange(from as int, to as int);
    let mut j: usize = start;
    while j < to && t[j] != delim
        invariant
            start <= j <= to <= t@.len(),
            forall|k: int| start <= k < j ==> t@[k] != delim,
        decreases to - j,
    {
        j = j + 1;
    }
    proof {
        assert forall|k2: int| start - from <= k2 < j - from implies s[k2] != delim by {
            assert(s[k2] == t@[from + k2]);
        }
        if j < to {
            assert(s[j - from] == delim);
        }
        lemma_find_is(s, delim, start - from, j - from);
    }
    j
}

/// Index of the next adjacent pair `c0 c1` in `t[start..to)`, with `to` for
/// "not found"; mirrors `spec_find2` over `t[from..to]`.
pub fn find2_in(t: &Vec<char>, from: usize, to: usize, start: usize, c0: char, c1: char) -> (j:
    usize)
    requires
        from <= start <= to <= t@.len(),
    ensures
        start <= j <= to,
        j < to ==> j + 1 < to,
        j - from == spec_find2(t@.subrange(from as int, to as int), c0, c1, start - from),
{
    let ghost s = t@.subrange(from as int, to as int);
    let mut j: usize = start;
    while to - j > 1 && !(t[j] == c0 && t[j + 1] == c1)
        invariant
            start <= j <= to <= t@.len(),
            forall|k: int|
                start <= k < j && k + 1 < to ==> !(#[trigger] t@[k] == c0 && t@[k + 1] == c1),
        decreases to - j,
    {
        j = j + 1;
    }
    let r: usize = if to - j > 1 {
        j
    } else {
        to
    };
    proof {
        assert forall|k2: int|
            start - from <= k2 < r - from && k2 + 1 < s.len() implies !(#[trigger] s[k2] == c0
            && s[k2 + 1] == c1) by {
            assert(s[k2] == t@[from + k2]);
            assert(s[k2 + 1] == t@[from + k2 + 1]);
        }
        if r < to {
            assert(s[r - from] == c0 && s[r - from + 1] == c1);
        }
        lemma_find2_is(s, c0, c1, start - from, r - from);
    }
    r
}

/// Index of the next run of three `c` in `t[start..to)`, with `to` for "not
/// found"; mirrors `spec_find3` over `t[from..to]`.
pub fn find3_in(t: &Vec<char>, from: usize, to: usize, start: usize, c: char) -> (j: usize)
    requires
        from <= start <= to <= t@.len(),
    ensures
        start <= j <= to,
        j < to ==> j + 2 < to,
        j - from == spec_find3(t@.subrange(from as int, to as int), c, start - from),
{
    let ghost s = t@.subrange(from as int, to as int);
    let mut j: usize = start;
    while to - j > 2 && !(t[j] == c && t[j + 1] == c && t[j + 2] == c)
        invariant
            start <= j <= to <= t@.len(),
            forall|k: int|
                start <= k < j && k + 2 < to ==> !(#[trigger] t@[k] == c && t@[k + 1] == c && t@[k
                    + 2] == c),
        decreases to - j,
    {
        j = j + 1;
    }
    let r: usize = if to - j > 2 {
        j
    } else {
        to
    };
    proof {
        assert forall|k2: int|
            start - from <= k2 < r - from && k2 + 2 < s.len() implies !(#[trigger] s[k2] == c
            && s[k2 + 1] == c && s[k2 + 2] == c) by {
            assert(s[k2] == t@[from + k2]);
            assert(s[k2 + 1] == t@[from + k2 + 1]);
            assert(s[k2 + 2] == t@[from + k2 + 2]);
        }
        if r < to {
            assert(s[r - from] == c && s[r - from + 1] == c && s[r - from + 2] == c);
        }
        lemma_find3_is(s, c, start - from, r - from);
    }
    r
}

/// Index of the next `delim` at or after `start`, or `None`; the closer
/// search used by inline spans.
pub fn find_closing(chars: &Vec<char>, start: usize, delim: char) -> (r: Option<usize>)
    requires
        start <= chars@.len(),
    ensures
        match r {
            Some(j) => j == spec_find(chars@, delim, start as int) && j < chars@.len(),
            None => spec_find(chars@, delim, start as int) == chars@.len(),
        },
{
    let n = chars.len();
    let j = find_in(chars, 0, n, start, delim);
    proof {
        assert(chars@.subrange(0, n as int) =~= chars@);
    }
    if j < n {
        Some(j)
    } else {
        None
    }
}

/// Index of the next doubled `delim` at or after `start`, or `None`.
pub fn find_double_closing(chars: &Vec<char>, start: usize, delim: char) -> (r: Option<usize>)
    requires
        start <= chars@.len(),
    ensures
        match r {
            Some(j) => j == spec_find2(chars@, delim, delim, start as int) && j < chars@.len(),
            None => spec_find2(chars@, delim, delim, start as int) == chars@.len(),
        },
{
    let n = chars.len();
    let j = find2_in(chars, 0, n, start, delim, delim);
    proof {
        assert(chars@.subrange(0, n as int) =~= chars@);
    }
    if j < n {
        Some(j)
    } else {
        None
    }
}

/// Index of the next tripled `delim` at or after `start`, or `None`.
pub fn find_triple_closing(chars: &Vec<char>, start: usize, delim: char) -> (r: Option<usize>)
    requires
        start <= chars@.len(),
    ensures
        match r {
            Some(j) => j == spec_find3(chars@, delim, start as int) && j < chars@.len(),
            None => spec_find3(chars@, delim, start as int) == chars@.len(),
        },
{
    let n = chars.len();
    let j = find3_in(chars, 0, n, start, delim);
    proof {
        assert(chars@.subrange(0, n as int) =~= chars@);
    }
    if j < n {
        Some(j)
    } else {
        None
    }
}



/// The invariant-preserving step equation: a matched rule at position `k`
/// appended exactly the spans that `spec_inline_at` prescribes up to `nk`.
pub open spec fn step_eq(
    s: Seq<char>,
    k: int,
    nk: int,
    before: Seq<char>,
    after: Seq<char>,
) -> bool {
    after + spec_inline_at(s, nk) == before + spec_inline_at(s, k)
}

/// The raw `<br>` passthrough rule.
fn step_br(out: &mut String, t: &Vec<char>, from: usize, to: usize, i: usize) -> (r: Option<usize>)
    requires
        from <= i < to <= t@.len(),
    ensures
        ({
            let s = t@.subrange(from as int, to as int);
            let k = i - from;
            match r {
                Some(ni) => i < ni <= to && step_eq(s, k, ni - from, old(out)@, final(out)@),
                None => final(out)@ == old(out)@ && !cond_br(s, k),
            }
        }),
{
    let ghost s = t@.subrange(from as int, to as int);
    let ghost k = i - from;
    proof {
        assert(s[k] == t@[i as int]);
        if k + 3 < s.len() {
            assert(s[k + 1] == t@[i as int + 1]);
            assert(s[k + 2] == t@[i as int + 2]);
            assert(s[k + 3] == t@[i as int + 3]);
        }
    }
    if !(to - i > 3 && t[i] == '<' && t[i + 1] == 'b' && t[i + 2] == 'r' && t[i + 3] == '>') {
        return None;
    }
    let ghost pre = out@;
    out.append("<br>");
    proof {
        assert(cond_br(s, k));
        assert(out@ + spec_inline_at(s, k + 4) =~= pre + spec_inline_at(s, k));
    }
    Some(i + 4)
}

/// The inline-code rule.
fn step_code(out: &mut String, t: &Vec<char>, from: usize, to: usize, i: usize) -> (r: Option<
    usize,
>)
    requires
        from <= i < to <= t@.len(),
        !cond_br(t@.subrange(from as int, to as int), i - from),
    ensures
        ({
            let s = t@.subrange(from as int, to as int);
            let k = i - from;
            match r {
                Some(ni) => i < ni <= to && step_eq(s, k, ni - from, old(out)@, final(out)@),
                None => final(out)@ == old(out)@ && !cond_code(s, k),
            }
        }),
{
    let ghost s = t@.subrange(from as int, to as int);
    let ghost k = i - from;
    proof {
        assert(s[k] == t@[i as int]);
    }
    if t[i] != '`' {
        return None;
    }
    let e = find_in(t, from, to, i + 1, '`');
    if e >= to {
        return None;
    }
    let ghost pre = out@;
    out.append("<code>");
    escape_append(out, t, i + 1, e);
    out.append("</code>");
    proof {
        assert(cond_code(s, k));
        assert(t@.subrange(i as int + 1, e as int) =~= s.subrange(k + 1, e - from));
        assert(out@ + spec_inline_at(s, e - from + 1) =~= pre + spec_inline_at(s, k));
    }
    Some(e + 1)
}

/// The two inline-math rules share this span emitter over `t[a..b]`.
fn emit_math_span(out: &mut String, t: &Vec<char>, a: usize, b: usize)
    requires
        a <= b <= t@.len(),
    ensures
        final(out)@ == old(out)@ + math_span(t@.subrange(a as int, b as int)),
{
    let ghost pre = out@;
    out.append("<span class=\"katex-inline\" data-latex=\"");
    escape_attr_append(out, t, a, b);
    out.append("\">");
    escape_append(out, t, a, b);
    out.append("</span>");
    proof {
        assert(out@ =~= pre + math_span(t@.subrange(a as int, b as int)));
    }
}

/// The backslash-parenthesis inline-math rule.
fn step_math_paren(out: &mut String, t: &Vec<char>, from: usize, to: usize, i: usize) -> (r: Option<
    usize,
>)
    requires
        from <= i < to <= t@.len(),
        !cond_br(t@.subrange(from as int, to as int), i - from),
        !cond_code(t@.subrange(from as int, to as int), i - from),
    ensures
        ({
            let s = t@.subrange(from as int, to as int);
            let k = i - from;
            match r {
                Some(ni) => i < ni <= to && step_eq(s, k, ni - from, old(out)@, final(out)@),
                None => final(out)@ == old(out)@ && !cond_math_paren(s, k),
            }
        }),
{
    let ghost s = t@.subrange(from as int, to as int);
    let ghost k = i - from;
    proof {
        assert(s[k] == t@[i as int]);
        if k + 1 < s.len() {
            assert(s[k + 1] == t@[i as int + 1]);
        }
    }
    if !(t[i] == '\\' && to - i > 1 && t[i + 1] == '(') {
        return None;
    }
    let e = find2_in(t, from, to, i + 2, '\\', ')');
    if e >= to {
        return None;
    }
    let ghost pre = out@;
    emit_math_span(out, t, i + 2, e);
    proof {
        assert(cond_math_paren(s, k));
        assert(t@.subrange(i as int + 2, e as int) =~= s.subrange(k + 2, e - from));
        assert(out@ + spec_inline_at(s, e - from + 2) =~= pre + spec_inline_at(s, k));
    }
    Some(e + 2)
}

/// The dollar inline-math rule.
fn step_math_dollar(out: &mut String, t: &Vec<char>, from: usize, to: usize, i: usize) -> (r:
    Option<usize>)
    requires
        from <= i < to <= t@.len(),
        !cond_br(t@.subrange(from as int, to as int), i - from),
        !cond_code(t@.subrange(from as int, to as int), i - from),
        !cond_math_paren(t@.subrange(from as int, to as int), i - from),
    ensures
        ({
            let s = t@.subrange(from as int, to as int);
            let k = i - from;
            match r {
                Some(ni) => i < ni <= to && step_eq(s, k, ni - from, old(out)@, final(out)@),
                None => final(out)@ == old(out)@ && !cond_math_dollar(s, k),
            }
        }),
{
    let ghost s = t@.subrange(from as int, to as int);
    let ghost k = i - from;
    proof {
        assert(s[k] == t@[i as int]);
        if k + 1 < s.len() {
            assert(s[k + 1] == t@[i as int + 1]);
        }
    }
    if !(t[i] == '$' && to - i > 1 && t[i + 1] != '$') {
        return None;
    }
    let e = find_in(t, from, to, i + 1, '$');
    if !(e < to && e > i + 1) {
        return None;
    }
    let ghost pre = out@;
    emit_math_span(out, t, i + 1, e);
    proof {
        assert(cond_math_dollar(s, k));
        assert(t@.subrange(i as int + 1, e as int) =~= s.subrange(k + 1, e - from));
        assert(out@ + spec_inline_at(s, e - from + 1) =~= pre + spec_inline_at(s, k));
    }
    Some(e + 1)
}

/// The bold-plus-italic rule.
fn step_tri(out: &mut String, t: &Vec<char>, from: usize, to: usize, i: usize) -> (r: Option<usize>)
    requires
        from <= i < to <= t@.len(),
        !cond_br(t@.subrange(from as int, to as int), i - from),
        !cond_code(t@.subrange(from as int, to as int), i - from),
        !cond_math_paren(t@.subrange(from as int, to as int), i - from),
        !cond_math_dollar(t@.subrange(from as int, to as int), i - from),
    ensures
        ({
            let s = t@.subrange(from as int, to as int);
            let k = i - from;
            match r {
                Some(ni) => i < ni <= to && step_eq(s, k, ni - from, old(out)@, final(out)@),
                None => final(out)@ == old(out)@ && !cond_tri(s, k),
            }
        }),
    decreases to - from, 0int,
{
    let ghost s = t@.subrange(from as int, to as int);
    let ghost k = i - from;
    proof {
        assert(s[k] == t@[i as int]);
        if k + 2 < s.len() {
            assert(s[k + 1] == t@[i as int + 1]);
            assert(s[k + 2] == t@[i as int + 2]);
        }
    }
    if !(to - i > 2 && t[i] == '*' && t[i + 1] == '*' && t[i + 2] == '*') {
        return None;
    }
    let e = find3_in(t, from, to, i + 3, '*');
    if e >= to {
        return None;
    }
    let ghost pre = out@;
    out.append("<strong><em>");
    let inner = process_inline_range(t, i + 3, e);
    out.append(inner.as_str());
    out.append("</em></strong>");
    proof {
        assert(cond_tri(s, k));
        assert(t@.subrange(i as int + 3, e as int) =~= s.subrange(k + 3, e - from));
        assert(out@ + spec_inline_at(s, e - from + 3) =~= pre + spec_inline_at(s, k));
    }
    Some(e + 3)
}

/// The bold rule, for either of its two delimiters.
fn step_bold(out: &mut String, t: &Vec<char>, from: usize, to: usize, i: usize, c: char) -> (r:
    Option<usize>)
    requires
        from <= i < to <= t@.len(),
        c == '*' || c == '_',
        !cond_br(t@.subrange(from as int, to as int), i - from),
        !cond_code(t@.subrange(from as int, to as int), i - from),
        !cond_math_paren(t@.subrange(from as int, to as int), i - from),
        !cond_math_dollar(t@.subrange(from as int, to as int), i - from),
        !cond_tri(t@.subrange(from as int, to as int), i - from),
        c == '_' ==> !cond_bold(t@.subrange(from as int, to as int), i - from, '*'),
    ensures
        ({
            let s = t@.subrange(from as int, to as int);
            let k = i - from;
            match r {
                Some(ni) => i < ni <= to && step_eq(s, k, ni - from, old(out)@, final(out)@),
                None => final(out)@ == old(out)@ && !cond_bold(s, k, c),
            }
        }),
    decreases to - from, 0int,
{
    let ghost s = t@.subrange(from as int, to as int);
    let ghost k = i - from;
    proof {
        assert(s[k] == t@[i as int]);
        if k + 1 < s.len() {
            assert(s[k + 1] == t@[i as int + 1]);
        }
    }
    if !(to - i > 1 && t[i] == c && t[i + 1] == c) {
        return None;
    }
    let e = find2_in(t, from, to, i + 2, c, c);
    if e >= to {
        return None;
    }
    let ghost pre = out@;
    out.append("<strong>");
    let inner = process_inline_range(t, i + 2, e);
    out.append(inner.as_str());
    out.append("</strong>");
    proof {
        assert(cond_bold(s, k, c));
        assert(t@.subrange(i as int + 2, e as int) =~= s.subrange(k + 2, e - from));
        assert(out@ + spec_inline_at(s, e - from + 2) =~= pre + spec_inline_at(s, k));
    }
    Some(e + 2)
}

/// The italic rule, for either of its two delimiters.
fn step_em(out: &mut String, t: &Vec<char>, from: usize, to: usize, i: usize, c: char) -> (r:
    Option<usize>)
    requires
        from <= i < to <= t@.len(),
        c == '*' || c == '_',
        !cond_br(t@.subrange(from as int, to as int), i - from),
        !cond_code(t@.subrange(from as int, to as int), i - from),
        !cond_math_paren(t@.subrange(from as int, to as int), i - from),
        !cond_math_dollar(t@.subrange(from as int, to as int), i - from),
        !cond_tri(t@.subrange(from as int, to as int), i - from),
        !cond_bold(t@.subrange(from as int, to as int), i - from, '*'),
        !cond_bold(t@.subrange(from as int, to as int), i - from, '_'),
        c == '_' ==> !cond_em(t@.subrange(from as int, to as int), i - from, '*'),
    ensures
        ({
            let s = t@.subrange(from as int, to as int);
            let k = i - from;
            match r {
                Some(ni) => i < ni <= to && step_eq(s, k, ni - from, old(out)@, final(out)@),
                None => final(out)@ == old(out)@ && !cond_em(s, k, c),
            }
        }),
    decreases to - from, 0int,
{
    let ghost s = t@.subrange(from as int, to as int);
    let ghost k = i - from;
    proof {
        assert(s[k] == t@[i as int]);
        if k + 1 < s.len() {
            assert(s[k + 1] == t@[i as int + 1]);
        }
    }
    if !(t[i] == c && to - i > 1 && t[i + 1] != c && t[i + 1] != ' ') {
        return None;
    }
    let e = find_in(t, from, to, i + 1, c);
    if !(e < to && e > i + 1) {
        return None;
    }
    let ghost pre = out@;
    out.append("<em>");
    let inner = process_inline_range(t, i + 1, e);
    out.append(inner.as_str());
    out.append("</em>");
    proof {
        assert(cond_em(s, k, c));
        assert(t@.subrange(i as int + 1, e as int) =~= s.subrange(k + 1, e - from));
        assert(out@ + spec_inline_at(s, e - from + 1) =~= pre + spec_inline_at(s, k));
    }
    Some(e + 1)
}

/// The image rule.
fn step_img(out: &mut String, t: &Vec<char>, from: usize, to: usize, i: usize) -> (r: Option<usize>)
    requires
        from <= i < to <= t@.len(),
        !cond_br(t@.subrange(from as int, to as int), i - from),
        !cond_code(t@.subrange(from as int, to as int), i - from),
        !cond_math_paren(t@.subrange(from as int, to as int), i - from),
        !cond_math_dollar(t@.subrange(from as int, to as int), i - from),
        !cond_tri(t@.subrange(from as int, to as int), i - from),
        !cond_bold(t@.subrange(from as int, to as int), i - from, '*'),
        !cond_bold(t@.subrange(from as int, to as int), i - from, '_'),
        !cond_em(t@.subrange(from as int, to as int), i - from, '*'),
        !cond_em(t@.subrange(from as int, to as int), i - from, '_'),
    ensures
        ({
            let s = t@.subrange(from as int, to as int);
            let k = i - from;
            match r {
                Some(ni) => i < ni <= to && step_eq(s, k, ni - from, old(out)@, final(out)@),
                None => final(out)@ == old(out)@ && !cond_img(s, k),
            }
        }),
{
    let ghost s = t@.subrange(from as int, to as int);
    let ghost k = i - from;
    proof {
        assert(s[k] == t@[i as int]);
        if k + 1 < s.len() {
            assert(s[k + 1] == t@[i as int + 1]);
        }
    }
    if !(t[i] == '!' && to - i > 1 && t[i + 1] == '[') {
        return None;
    }
    let cb = find_in(t, from, to, i + 2, ']');
    if cb >= to {
        return None;
    }
    proof {
        assert(s[cb - from] == t@[cb as int]);
        if cb - from + 1 < s.len() {
            assert(s[cb - from + 1] == t@[cb as int + 1]);
        }
    }
    if !(to - cb > 1 && t[cb + 1] == '(') {
        return None;
    }
    let cp = find_in(t, from, to, cb + 2, ')');
    if cp >= to {
        return None;
    }
    let ghost pre = out@;
    out.append("<img src=\"");
    escape_attr_append(out, t, cb + 2, cp);
    out.append("\" alt=\"");
    escape_attr_append(out, t, i + 2, cb);
    out.append("\" class=\"chat-image\" loading=\"lazy\">");
    proof {
        assert(link_ok(s, k + 1));
        assert(cond_img(s, k));
        assert(t@.subrange(cb as int + 2, cp as int) =~= link_url(s, k + 1));
        assert(t@.subrange(i as int + 2, cb as int) =~= link_text(s, k + 1));
        assert(out@ + spec_inline_at(s, cp - from + 1) =~= pre + spec_inline_at(s, k));
    }
    Some(cp + 1)
}

/// The link rule.
fn step_link(out: &mut String, t: &Vec<char>, from: usize, to: usize, i: usize) -> (r: Option<
    usize,
>)
    requires
        from <= i < to <= t@.len(),
        !cond_br(t@.subrange(from as int, to as int), i - from),
        !cond_code(t@.subrange(from as int, to as int), i - from),
        !cond_math_paren(t@.subrange(from as int, to as int), i - from),
        !cond_math_dollar(t@.subrange(from as int, to as int), i - from),
        !cond_tri(t@.subrange(from as int, to as int), i - from),
        !cond_bold(t@.subrange(from as int, to as int), i - from, '*'),
        !cond_bold(t@.subrange(from as int, to as int), i - from, '_'),
        !cond_em(t@.subrange(from as int, to as int), i - from, '*'),
        !cond_em(t@.subrange(from as int, to as int), i - from, '_'),
        !cond_img(t@.subrange(from as int, to as int), i - from),
    ensures
        ({
            let s = t@.subrange(from as int, to as int);
            let k = i - from;
            match r {
                Some(ni) => i < ni <= to && step_eq(s, k, ni - from, old(out)@, final(out)@),
                None => final(out)@ == old(out)@ && !cond_link(s, k),
            }
        }),
    decreases to - from, 0int,
{
    let ghost s = t@.subrange(from as int, to as int);
    let ghost k = i - from;
    proof {
        assert(s[k] == t@[i as int]);
    }
    if t[i] != '[' {
        return None;
    }
    let cb = find_in(t, from, to, i + 1, ']');
    if cb >= to {
        return None;
    }
    proof {
        assert(s[cb - from] == t@[cb as int]);
        if cb - from + 1 < s.len() {
            assert(s[cb - from + 1] == t@[cb as int + 1]);
        }
    }
    if !(to - cb > 1 && t[cb + 1] == '(') {
        return None;
    }
    let cp = find_in(t, from, to, cb + 2, ')');
    if cp >= to {
        return None;
    }
    let ghost pre = out@;
    out.append("<a href=\"");
    escape_attr_append(out, t, cb + 2, cp);
    out.append("\" target=\"_blank\" rel=\"noopener\">");
    let inner = process_inline_range(t, i + 1, cb);
    out.append(inner.as_str());
    out.append("</a>");
    proof {
        assert(link_ok(s, k));
        assert(cond_link(s, k));
        assert(t@.subrange(cb as int + 2, cp as int) =~= link_url(s, k));
        assert(t@.subrange(i as int + 1, cb as int) =~= link_text(s, k));
        assert(out@ + spec_inline_at(s, cp - from + 1) =~= pre + spec_inline_at(s, k));
    }
    Some(cp + 1)
}

/// The strikethrough rule.
fn step_del(out: &mut String, t: &Vec<char>, from: usize, to: usize, i: usize) -> (r: Option<usize>)
    requires
        from <= i < to <= t@.len(),
        !cond_br(t@.subrange(from as int, to as int), i - from),
        !cond_code(t@.subrange(from as int, to as int), i - from),
        !cond_math_paren(t@.subrange(from as int, to as int), i - from),
        !cond_math_dollar(t@.subrange(from as int, to as int), i - from),
        !cond_tri(t@.subrange(from as int, to as int), i - from),
        !cond_bold(t@.subrange(from as int, to as int), i - from, '*'),
        !cond_bold(t@.subrange(from as int, to as int), i - from, '_'),
        !cond_em(t@.subrange(from as int, to as int), i - from, '*'),
        !cond_em(t@.subrange(from as int, to as int), i - from, '_'),
        !cond_img(t@.subrange(from as int, to as int), i - from),
        !cond_link(t@.subrange(from as int, to as int), i - from),
    ensures
        ({
            let s = t@.subrange(from as int, to as int);
            let k = i - from;
            match r {
                Some(ni) => i < ni <= to && step_eq(s, k, ni - from, old(out)@, final(out)@),
                None => final(out)@ == old(out)@ && !cond_del(s, k),
            }
        }),
    decreases to - from, 0int,
{
    let ghost s = t@.subrange(from as int, to as int);
    let ghost k = i - from;
    proof {
        assert(s[k] == t@[i as int]);
        if k + 1 < s.len() {
            assert(s[k + 1] == t@[i as int + 1]);
        }
    }
    if !(to - i > 1 && t[i] == '~' && t[i + 1] == '~') {
        return None;
    }
    let e = find2_in(t, from, to, i + 2, '~', '~');
    if e >= to {
        return None;
    }
    let ghost pre = out@;
    out.append("<del>");
    let inner = process_inline_range(t, i + 2, e);
    out.append(inner.as_str());
    out.append("</del>");
    proof {
        assert(cond_del(s, k));
        assert(t@.subrange(i as int + 2, e as int) =~= s.subrange(k + 2, e - from));
        assert(out@ + spec_inline_at(s, e - from + 2) =~= pre + spec_inline_at(s, k));
    }
    Some(e + 2)
}

/// The superscript rule.
fn step_sup(out: &mut String, t: &Vec<char>, from: usize, to: usize, i: usize) -> (r: Option<usize>)
    requires
        from <= i < to <= t@.len(),
        !cond_br(t@.subrange(from as int, to as int), i - from),
        !cond_code(t@.subrange(from as int, to as int), i - from),
        !cond_math_paren(t@.subrange(from as int, to as int), i - from),
        !cond_math_dollar(t@.subrange(from as int, to as int), i - from),
        !cond_tri(t@.subrange(from as int, to as int), i - from),
        !cond_bold(t@.subrange(from as int, to as int), i - from, '*'),
        !cond_bold(t@.subrange(from as int, to as int), i - from, '_'),
        !cond_em(t@.subrange(from as int, to as int), i - from, '*'),
        !cond_em(t@.subrange(from as int, to as int), i - from, '_'),
        !cond_img(t@.subrange(from as int, to as int), i - from),
        !cond_link(t@.subrange(from as int, to as int), i - from),
        !cond_del(t@.subrange(from as int, to as int), i - from),
    ensures
        ({
            let s = t@.subrange(from as int, to as int);
            let k = i - from;
            match r {
                Some(ni) => i < ni <= to && step_eq(s, k, ni - from, old(out)@, final(out)@),
                None => final(out)@ == old(out)@ && !cond_sup(s, k),
            }
        }),
{
    let ghost s = t@.subrange(from as int, to as int);
    let ghost k = i - from;
    proof {
        assert(s[k] == t@[i as int]);
        if k + 1 < s.len() {
            assert(s[k + 1] == t@[i as int + 1]);
        }
    }
    if !(t[i] == '^' && to - i > 1 && t[i + 1] != ' ') {
        return None;
    }
    let e = find_in(t, from, to, i + 1, '^');
    if !(e < to && e > i + 1) {
        return None;
    }
    let ghost pre = out@;
    out.append("<sup>");
    escape_append(out, t, i + 1, e);
    out.append("</sup>");
    proof {
        assert(cond_sup(s, k));
        assert(t@.subrange(i as int + 1, e as int) =~= s.subrange(k + 1, e - from));
        assert(out@ + spec_inline_at(s, e - from + 1) =~= pre + spec_inline_at(s, k));
    }
    Some(e + 1)
}

/// Renders `t[from..to]` with every inline span resolved and every literal
/// character escaped, exactly as `spec_inline` describes.
#[verifier::rlimit(100)]
pub fn process_inline_range(t: &Vec<char>, from: usize, to: usize) -> (r: String)
    requires
        from <= to <= t@.len(),
    ensures
        r@ == spec_inline(t@.subrange(from as int, to as int)),
    decreases to - from, 1int,
{
    let ghost s = t@.subrange(from as int, to as int);
    let mut out = String::new();
    let mut i: usize = from;
    proof {
        assert(out@ + spec_inline_at(s, 0) =~= spec_inline_at(s, 0));
    }
    while i < to
        invariant
            from <= i <= to <= t@.len(),
            s == t@.subrange(from as int, to as int),
            out@ + spec_inline_at(s, i - from) == spec_inline_at(s, 0),
        decreases to - i,
    {
        let ghost k = i - from;
        if let Some(ni) = step_br(&mut out, t, from, to, i) {
            i = ni;
            continue ;
        }
        if let Some(ni) = step_code(&mut out, t, from, to, i) {
            i = ni;
            continue ;
        }
        if let Some(ni) = step_math_paren(&mut out, t, from, to, i) {
            i = ni;
            continue ;
        }
        if let Some(ni) = step_math_dollar(&mut out, t, from, to, i) {
            i = ni;
            continue ;
        }
        if let Some(ni) = step_tri(&mut out, t, from, to, i) {
            i = ni;
            continue ;
        }
        if let Some(ni) = step_bold(&mut out, t, from, to, i, '*') {
            i = ni;
            continue ;
        }
        if let Some(ni) = step_bold(&mut out, t, from, to, i, '_') {
            i = ni;
            continue ;
        }
        if let Some(ni) = step_em(&mut out, t, from, to, i, '*') {
            i = ni;
            continue ;
        }
        if let Some(ni) = step_em(&mut out, t, from, to, i, '_') {
            i = ni;
            continue ;
        }
        if let Some(ni) = step_img(&mut out, t, from, to, i) {
            i = ni;
            continue ;
        }
        if let Some(ni) = step_link(&mut out, t, from, to, i) {
            i = ni;
            continue ;
        }
        if let Some(ni) = step_del(&mut out, t, from, to, i) {
            i = ni;
            continue ;
        }
        if let Some(ni) = step_sup(&mut out, t, from, to, i) {
            i = ni;
            continue ;
        }
        // no rule applies: the character itself, escaped
        let ghost pre = out@;
        escape_append(&mut out, t, i, i + 1);
        proof {
            let sub = t@.subrange(i as int, i as int + 1);
            assert(sub.len() == 1 && sub[0] == s[k]);
            assert(spec_escape_at(sub, 1) =~= Seq::<char>::empty());
            assert(spec_escape(sub) =~= spec_escape_char(s[k]));
            assert(out@ + spec_inline_at(s, k + 1) =~= pre + spec_inline_at(s, k));
        }
        i = i + 1;
    }
    proof {
        assert(spec_inline_at(s, to - from) == Seq::<char>::empty());
        assert(out@ + spec_inline_at(s, i - from) =~= out@);
    }
    out
}

/// Renders a slice of text with all inline spans resolved and all literal
/// text escaped.
pub fn process_inline(text: &str) -> (r: String)
    ensures
        r@ == spec_inline(text@),
{
    let v = chars_vec(text);
    let n = v.len();
    let r = process_inline_range(&v, 0, n);
    proof {
        assert(v@.subrange(0, n as int) =~= text@);
    }
    r
}

/// Matches `[text](url)` at `start`: the bracketed text, the parenthesised
/// target, and the index just past the closing parenthesis.
pub fn parse_link_or_image(chars: &Vec<char>, start: usize) -> (r: Option<(String, String, usize)>)
    requires
        start < chars@.len(),
    ensures
        r is Some <==> link_ok(chars@, start as int),
        match r {
            Some(p) => p.0@ == link_text(chars@, start as int) && p.1@ == link_url(
                chars@,
                start as int,
            ) && p.2 == link_cp(chars@, start as int) + 1,
            None => true,
        },
{
    let n = chars.len();
    proof {
        assert(chars@.subrange(0, n as int) =~= chars@);
    }
    if chars[start] != '[' {
        return None;
    }
    let cb = find_in(chars, 0, n, start + 1, ']');
    if cb >= n {
        return None;
    }
    if n - cb <= 1 || chars[cb + 1] != '(' {
        return None;
    }
    let cp = find_in(chars, 0, n, cb + 2, ')');
    if cp >= n {
        return None;
    }
    let text = string_of_range(chars, start + 1, cb);
    let url = string_of_range(chars, cb + 2, cp);
    Some((text, url, cp + 1))
}


/// A character that opens no inline span and is not the start of the `<br>`
/// passthrough.
pub open spec fn plain_char(c: char) -> bool {
    c != '<' && c != '`' && c != '\\' && c != '$' && c != '*' && c != '_' && c != '!' && c != '['
        && c != '~' && c != '^'
}

/// Text made only of plain characters passes through the inline processor
/// as exactly its element-text escaping: nothing else is ever emitted for
/// it.  With the escaping laws this pins down what plain prose can put into
/// the output.
pub proof fn law_plain_inline_is_escaped(s: Seq<char>)
    requires
        forall|k: int| 0 <= k < s.len() ==> plain_char(s[k]),
    ensures
        spec_inline(s) == spec_escape(s),
{
    law_plain_inline_at(s, 0);
}

proof fn law_plain_inline_at(s: Seq<char>, i: int)
    requires
        forall|k: int| 0 <= k < s.len() ==> plain_char(s[k]),
    ensures
        spec_inline_at(s, i) == spec_escape_at(s, i),
    decreases s.len() - i,
{
    if 0 <= i < s.len() {
        assert(plain_char(s[i]));
        law_plain_inline_at(s, i + 1);
    }
}


/// Position `j` of `h` begins one of the tags the inline processor emits.
pub open spec fn inline_tag_at(h: Seq<char>, j: int) -> bool {
    ||| crate::escape::occurs_at(h, j, "<br>"@)
    ||| crate::escape::occurs_at(h, j, "<code>"@)
    ||| crate::escape::occurs_at(h, j, "</code>"@)
    ||| crate::escape::occurs_at(h, j, "<span class=\"katex-inline\" data-latex=\""@)
    ||| crate::escape::occurs_at(h, j, "</span>"@)
    ||| crate::escape::occurs_at(h, j, "<strong>"@)
    ||| crate::escape::occurs_at(h, j, "</strong>"@)
    ||| crate::escape::occurs_at(h, j, "<em>"@)
    ||| crate::escape::occurs_at(h, j, "</em>"@)
    ||| crate::escape::occurs_at(h, j, "<img src=\""@)
    ||| crate::escape::occurs_at(h, j, "<a href=\""@)
    ||| crate::escape::occurs_at(h, j, "</a>"@)
    ||| crate::escape::occurs_at(h, j, "<del>"@)
    ||| crate::escape::occurs_at(h, j, "</del>"@)
    ||| crate::escape::occurs_at(h, j, "<sup>"@)
    ||| crate::escape::occurs_at(h, j, "</sup>"@)
}

/// Every `<` of `h` begins a known inline tag.
pub open spec fn inline_tags_only(h: Seq<char>) -> bool {
    forall|j: int| 0 <= j < h.len() && h[j] == '<' ==> inline_tag_at(h, j)
}

proof fn lemma_tag_shift_left(a: Seq<char>, b: Seq<char>, j: int)
    requires
        0 <= j < a.len(),
        inline_tag_at(a, j),
    ensures
        inline_tag_at(a + b, j),
{
    let h = a + b;
    if crate::escape::occurs_at(a, j, "<br>"@) {
        assert(h.subrange(j, j + "<br>"@.len()) =~= "<br>"@);
    } else if crate::escape::occurs_at(a, j, "<code>"@) {
        assert(h.subrange(j, j + "<code>"@.len()) =~= "<code>"@);
    } else if crate::escape::occurs_at(a, j, "</code>"@) {
        assert(h.subrange(j, j + "</code>"@.len()) =~= "</code>"@);
    } else if crate::escape::occurs_at(a, j, "<span class=\"katex-inline\" data-latex=\""@) {
        assert(h.subrange(j, j + "<span class=\"katex-inline\" data-latex=\""@.len())
            =~= "<span class=\"katex-inline\" data-latex=\""@);
    } else if crate::escape::occurs_at(a, j, "</span>"@) {
        assert(h.subrange(j, j + "</span>"@.len()) =~= "</span>"@);
    } else if crate::escape::occurs_at(a, j, "<strong>"@) {
        assert(h.subrange(j, j + "<strong>"@.len()) =~= "<strong>"@);
    } else if crate::escape::occurs_at(a, j, "</strong>"@) {
        assert(h.subrange(j, j + "</strong>"@.len()) =~= "</strong>"@);
    } else if crate::escape::occurs_at(a, j, "<em>"@) {
        assert(h.subrange(j, j + "<em>"@.len()) =~= "<em>"@);
    } else if crate::escape::occurs_at(a, j, "</em>"@) {
        assert(h.subrange(j, j + "</em>"@.len()) =~= "</em>"@);
    } else if crate::escape::occurs_at(a, j, "<img src=\""@) {
        assert(h.subrange(j, j + "<img src=\""@.len()) =~= "<img src=\""@);
    } else if crate::escape::occurs_at(a, j, "<a href=\""@) {
        assert(h.subrange(j, j + "<a href=\""@.len()) =~= "<a href=\""@);
    } else if crate::escape::occurs_at(a, j, "</a>"@) {
        assert(h.subrange(j, j + "</a>"@.len()) =~= "</a>"@);
    } else if crate::escape::occurs_at(a, j, "<del>"@) {
        assert(h.subrange(j, j + "<del>"@.len()) =~= "<del>"@);
    } else if crate::escape::occurs_at(a, j, "</del>"@) {
        assert(h.subrange(j, j + "</del>"@.len()) =~= "</del>"@);
    } else if crate::escape::occurs_at(a, j, "<sup>"@) {
        assert(h.subrange(j, j + "<sup>"@.len()) =~= "<sup>"@);
    } else {
        assert(h.subrange(j, j + "</sup>"@.len()) =~= "</sup>"@);
    }
}

proof fn lemma_tag_shift_right(a: Seq<char>, b: Seq<char>, j: int)
    requires
        0 <= j < b.len(),
        inline_tag_at(b, j),
    ensures
        inline_tag_at(a + b, a.len() + j),
{
    let h = a + b;
    if crate::escape::occurs_at(b, j, "<br>"@) {
        assert(h.subrange(a.len() + j, a.len() + j + "<br>"@.len()) =~= "<br>"@);
    } else if crate::escape::occurs_at(b, j, "<code>"@) {
        assert(h.subrange(a.len() + j, a.len() + j + "<code>"@.len()) =~= "<code>"@);
    } else if crate::escape::occurs_at(b, j, "</code>"@) {
        assert(h.subrange(a.len() + j, a.len() + j + "</code>"@.len()) =~= "</code>"@);
    } else if crate::escape::occurs_at(b, j, "<span class=\"katex-inline\" data-latex=\""@) {
        assert(h.subrange(
            a.len() + j,
            a.len() + j + "<span class=\"katex-inline\" data-latex=\""@.len(),
        ) =~= "<span class=\"katex-inline\" data-latex=\""@);
    } else if crate::escape::occurs_at(b, j, "</span>"@) {
        assert(h.subrange(a.len() + j, a.len() + j + "</span>"@.len()) =~= "</span>"@);
    } else if crate::escape::occurs_at(b, j, "<strong>"@) {
        assert(h.subrange(a.len() + j, a.len() + j + "<strong>"@.len()) =~= "<strong>"@);
    } else if crate::escape::occurs_at(b, j, "</strong>"@) {
        assert(h.subrange(a.len() + j, a.len() + j + "</strong>"@.len()) =~= "</strong>"@);
    } else if crate::escape::occurs_at(b, j, "<em>"@) {
        assert(h.subrange(a.len() + j, a.len() + j + "<em>"@.len()) =~= "<em>"@);
    } else if crate::escape::occurs_at(b, j, "</em>"@) {
        assert(h.subrange(a.len() + j, a.len() + j + "</em>"@.len()) =~= "</em>"@);
    } else if crate::escape::occurs_at(b, j, "<img src=\""@) {
        assert(h.subrange(a.len() + j, a.len() + j + "<img src=\""@.len()) =~= "<img src=\""@);
    } else if crate::escape::occurs_at(b, j, "<a href=\""@) {
        assert(h.subrange(a.len() + j, a.len() + j + "<a href=\""@.len()) =~= "<a href=\""@);
    } else if crate::escape::occurs_at(b, j, "</a>"@) {
        assert(h.subrange(a.len() + j, a.len() + j + "</a>"@.len()) =~= "</a>"@);
    } else if crate::escape::occurs_at(b, j, "<del>"@) {
        assert(h.subrange(a.len() + j, a.len() + j + "<del>"@.len()) =~= "<del>"@);
    } else if crate::escape::occurs_at(b, j, "</del>"@) {
        assert(h.subrange(a.len() + j, a.len() + j + "</del>"@.len()) =~= "</del>"@);
    } else if crate::escape::occurs_at(b, j, "<sup>"@) {
        assert(h.subrange(a.len() + j, a.len() + j + "<sup>"@.len()) =~= "<sup>"@);
    } else {
        assert(h.subrange(a.len() + j, a.len() + j + "</sup>"@.len()) =~= "</sup>"@);
    }
}

proof fn lemma_tags_concat(a: Seq<char>, b: Seq<char>)
    requires
        inline_tags_only(a),
        inline_tags_only(b),
    ensures
        inline_tags_only(a + b),
{
    let h = a + b;
    assert forall|j: int| 0 <= j < h.len() && h[j] == '<' implies inline_tag_at(h, j) by {
        if j < a.len() {
            assert(a[j] == '<');
            lemma_tag_shift_left(a, b, j);
        } else {
            assert(b[j - a.len()] == '<');
            lemma_tag_shift_right(a, b, j - a.len());
        }
    }
}

proof fn lemma_tags_escaped(s: Seq<char>)
    ensures
        inline_tags_only(spec_escape(s)),
        inline_tags_only(spec_escape_attr(s)),
{
    crate::escape::law_escape_html_safe(s);
    crate::escape::law_escape_attr_safe(s);
}

proof fn lemma_tags_literal(p: Seq<char>)
    requires
        p == "<br>"@ || p == "<code>"@ || p == "</code>"@ || p
            == "<span class=\"katex-inline\" data-latex=\""@ || p == "\">"@ || p == "</span>"@
            || p == "<strong><em>"@ || p == "</em></strong>"@ || p == "<strong>"@ || p
            == "</strong>"@ || p == "<em>"@ || p == "</em>"@ || p == "<img src=\""@ || p
            == "\" alt=\""@ || p == "\" class=\"chat-image\" loading=\"lazy\">"@ || p
            == "<a href=\""@ || p == "\" target=\"_blank\" rel=\"noopener\">"@ || p == "</a>"@
            || p == "<del>"@ || p == "</del>"@ || p == "<sup>"@ || p == "</sup>"@,
    ensures
        inline_tags_only(p),
{
    reveal_strlit("<br>");
    reveal_strlit("<code>");
    reveal_strlit("</code>");
    reveal_strlit("<span class=\"katex-inline\" data-latex=\"");
    reveal_strlit("\">");
    reveal_strlit("</span>");
    reveal_strlit("<strong><em>");
    reveal_strlit("</em></strong>");
    reveal_strlit("<strong>");
    reveal_strlit("</strong>");
    reveal_strlit("<em>");
    reveal_strlit("</em>");
    reveal_strlit("<img src=\"");
    reveal_strlit("\" alt=\"");
    reveal_strlit("\" class=\"chat-image\" loading=\"lazy\">");
    reveal_strlit("<a href=\"");
    reveal_strlit("\" target=\"_blank\" rel=\"noopener\">");
    reveal_strlit("</a>");
    reveal_strlit("<del>");
    reveal_strlit("</del>");
    reveal_strlit("<sup>");
    reveal_strlit("</sup>");
    assert forall|j: int| 0 <= j < p.len() && p[j] == '<' implies inline_tag_at(p, j) by {
        if p == "<strong><em>"@ {
            if j == 0 {
                assert(p.subrange(0, "<strong>"@.len() as int) =~= "<strong>"@);
            } else {
                assert(j == 8);
                assert(p.subrange(8, 8 + "<em>"@.len() as int) =~= "<em>"@);
            }
        } else if p == "</em></strong>"@ {
            if j == 0 {
                assert(p.subrange(0, "</em>"@.len() as int) =~= "</em>"@);
            } else {
                assert(j == 5);
                assert(p.subrange(5, 5 + "</strong>"@.len() as int) =~= "</strong>"@);
            }
        } else {
            assert(j == 0);
            assert(p.subrange(0, p.len() as int) =~= p);
        }
    }
}

proof fn lemma_tags_math_span(latex: Seq<char>)
    ensures
        inline_tags_only(math_span(latex)),
{
    lemma_tags_literal("<span class=\"katex-inline\" data-latex=\""@);
    lemma_tags_literal("\">"@);
    lemma_tags_literal("</span>"@);
    lemma_tags_escaped(latex);
    lemma_tags_concat("<span class=\"katex-inline\" data-latex=\""@, spec_escape_attr(latex));
    lemma_tags_concat(
        "<span class=\"katex-inline\" data-latex=\""@ + spec_escape_attr(latex),
        "\">"@,
    );
    lemma_tags_concat(
        "<span class=\"katex-inline\" data-latex=\""@ + spec_escape_attr(latex) + "\">"@,
        spec_escape(latex),
    );
    lemma_tags_concat(
        "<span class=\"katex-inline\" data-latex=\""@ + spec_escape_attr(latex) + "\">"@
            + spec_escape(latex),
        "</span>"@,
    );
}

/// Every `<` of the inline processor's output begins one of the fixed tags
/// it emits: user text cannot open any other element through it.
pub proof fn law_inline_tags_only(s: Seq<char>)
    ensures
        inline_tags_only(spec_inline(s)),
    decreases s.len(), s.len() + 1,
{
    law_inline_tags_at(s, 0);
}

#[verifier::rlimit(100)]
proof fn law_inline_tags_at(s: Seq<char>, i: int)
    ensures
        inline_tags_only(spec_inline_at(s, i)),
    decreases s.len(), s.len() - i,
{
    if 0 <= i < s.len() {
        lemma_find(s, '`', i + 1);
        lemma_find(s, '$', i + 1);
        lemma_find(s, '*', i + 1);
        lemma_find(s, '_', i + 1);
        lemma_find(s, '^', i + 1);
        if i + 2 <= s.len() {
            lemma_find2(s, '\\', ')', i + 2);
            lemma_find2(s, '*', '*', i + 2);
            lemma_find2(s, '_', '_', i + 2);
            lemma_find2(s, '~', '~', i + 2);
        }
        if i + 3 <= s.len() {
            lemma_find3(s, '*', i + 3);
        }
        if link_ok(s, i) {
            lemma_find(s, ']', i + 1);
            lemma_find(s, ')', link_cb(s, i) + 2);
        }
        if i + 1 < s.len() && link_ok(s, i + 1) {
            lemma_find(s, ']', i + 2);
            lemma_find(s, ')', link_cb(s, i + 1) + 2);
        }
    }
    if i < 0 || i >= s.len() {
        assert(inline_tags_only(spec_inline_at(s, i)));
    } else if cond_br(s, i) {
        law_inline_tags_at(s, i + 4);
        lemma_tags_literal("<br>"@);
        lemma_tags_concat("<br>"@, spec_inline_at(s, i + 4));
    } else if cond_code(s, i) {
        let e = spec_find(s, '`', i + 1);
        law_inline_tags_at(s, e + 1);
        lemma_tags_literal("<code>"@);
        lemma_tags_literal("</code>"@);
        lemma_tags_escaped(s.subrange(i + 1, e));
        lemma_tags_concat("<code>"@, spec_escape(s.subrange(i + 1, e)));
        lemma_tags_concat("<code>"@ + spec_escape(s.subrange(i + 1, e)), "</code>"@);
        lemma_tags_concat(
            "<code>"@ + spec_escape(s.subrange(i + 1, e)) + "</code>"@,
            spec_inline_at(s, e + 1),
        );
    } else if cond_math_paren(s, i) {
        let e = spec_find2(s, '\\', ')', i + 2);
        law_inline_tags_at(s, e + 2);
        lemma_tags_math_span(s.subrange(i + 2, e));
        lemma_tags_concat(math_span(s.subrange(i + 2, e)), spec_inline_at(s, e + 2));
    } else if cond_math_dollar(s, i) {
        let e = spec_find(s, '$', i + 1);
        law_inline_tags_at(s, e + 1);
        lemma_tags_math_span(s.subrange(i + 1, e));
        lemma_tags_concat(math_span(s.subrange(i + 1, e)), spec_inline_at(s, e + 1));
    } else if cond_tri(s, i) {
        let e = spec_find3(s, '*', i + 3);
        law_inline_tags_only(s.subrange(i + 3, e));
        law_inline_tags_at(s, e + 3);
        lemma_tags_literal("<strong><em>"@);
        lemma_tags_literal("</em></strong>"@);
        lemma_tags_concat("<strong><em>"@, spec_inline(s.subrange(i + 3, e)));
        lemma_tags_concat(
            "<strong><em>"@ + spec_inline(s.subrange(i + 3, e)),
            "</em></strong>"@,
        );
        lemma_tags_concat(
            "<strong><em>"@ + spec_inline(s.subrange(i + 3, e)) + "</em></strong>"@,
            spec_inline_at(s, e + 3),
        );
    } else if cond_bold(s, i, '*') {
        let e = spec_find2(s, '*', '*', i + 2);
        law_inline_tags_only(s.subrange(i + 2, e));
        law_inline_tags_at(s, e + 2);
        lemma_tags_literal("<strong>"@);
        lemma_tags_literal("</strong>"@);
        lemma_tags_concat("<strong>"@, spec_inline(s.subrange(i + 2, e)));
        lemma_tags_concat("<strong>"@ + spec_inline(s.subrange(i + 2, e)), "</strong>"@);
        lemma_tags_concat(
            "<strong>"@ + spec_inline(s.subrange(i + 2, e)) + "</strong>"@,
            spec_inline_at(s, e + 2),
        );
    } else if cond_bold(s, i, '_') {
        let e = spec_find2(s, '_', '_', i + 2);
        law_inline_tags_only(s.subrange(i + 2, e));
        law_inline_tags_at(s, e + 2);
        lemma_tags_literal("<strong>"@);
        lemma_tags_literal("</strong>"@);
        lemma_tags_concat("<strong>"@, spec_inline(s.subrange(i + 2, e)));
        lemma_tags_concat("<strong>"@ + spec_inline(s.subrange(i + 2, e)), "</strong>"@);
        lemma_tags_concat(
            "<strong>"@ + spec_inline(s.subrange(i + 2, e)) + "</strong>"@,
            spec_inline_at(s, e + 2),
        );
    } else if cond_em(s, i, '*') {
        let e = spec_find(s, '*', i + 1);
        law_inline_tags_only(s.subrange(i + 1, e));
        law_inline_tags_at(s, e + 1);
        lemma_tags_literal("<em>"@);
        lemma_tags_literal("</em>"@);
        lemma_tags_concat("<em>"@, spec_inline(s.subrange(i + 1, e)));
        lemma_tags_concat("<em>"@ + spec_inline(s.subrange(i + 1, e)), "</em>"@);
        lemma_tags_concat(
            "<em>"@ + spec_inline(s.subrange(i + 1, e)) + "</em>"@,
            spec_inline_at(s, e + 1),
        );
    } else if cond_em(s, i, '_') {
        let e = spec_find(s, '_', i + 1);
        law_inline_tags_only(s.subrange(i + 1, e));
        law_inline_tags_at(s, e + 1);
        lemma_tags_literal("<em>"@);
        lemma_tags_literal("</em>"@);
        lemma_tags_concat("<em>"@, spec_inline(s.subrange(i + 1, e)));
        lemma_tags_concat("<em>"@ + spec_inline(s.subrange(i + 1, e)), "</em>"@);
        lemma_tags_concat(
            "<em>"@ + spec_inline(s.subrange(i + 1, e)) + "</em>"@,
            spec_inline_at(s, e + 1),
        );
    } else if cond_img(s, i) {
        law_inline_tags_at(s, link_cp(s, i + 1) + 1);
        lemma_tags_literal("<img src=\""@);
        lemma_tags_literal("\" alt=\""@);
        lemma_tags_literal("\" class=\"chat-image\" loading=\"lazy\">"@);
        lemma_tags_escaped(link_url(s, i + 1));
        lemma_tags_escaped(link_text(s, i + 1));
        lemma_tags_concat("<img src=\""@, spec_escape_attr(link_url(s, i + 1)));
        lemma_tags_concat("<img src=\""@ + spec_escape_attr(link_url(s, i + 1)), "\" alt=\""@);
        lemma_tags_concat(
            "<img src=\""@ + spec_escape_attr(link_url(s, i + 1)) + "\" alt=\""@,
            spec_escape_attr(link_text(s, i + 1)),
        );
        lemma_tags_concat(
            "<img src=\""@ + spec_escape_attr(link_url(s, i + 1)) + "\" alt=\""@
                + spec_escape_attr(link_text(s, i + 1)),
            "\" class=\"chat-image\" loading=\"lazy\">"@,
        );
        lemma_tags_concat(
            "<img src=\""@ + spec_escape_attr(link_url(s, i + 1)) + "\" alt=\""@
                + spec_escape_attr(link_text(s, i + 1))
                + "\" class=\"chat-image\" loading=\"lazy\">"@,
            spec_inline_at(s, link_cp(s, i + 1) + 1),
        );
    } else if cond_link(s, i) {
        law_inline_tags_only(link_text(s, i));
        law_inline_tags_at(s, link_cp(s, i) + 1);
        lemma_tags_literal("<a href=\""@);
        lemma_tags_literal("\" target=\"_blank\" rel=\"noopener\">"@);
        lemma_tags_literal("</a>"@);
        lemma_tags_escaped(link_url(s, i));
        lemma_tags_concat("<a href=\""@, spec_escape_attr(link_url(s, i)));
        lemma_tags_concat(
            "<a href=\""@ + spec_escape_attr(link_url(s, i)),
            "\" target=\"_blank\" rel=\"noopener\">"@,
        );
        lemma_tags_concat(
            "<a href=\""@ + spec_escape_attr(link_url(s, i))
                + "\" target=\"_blank\" rel=\"noopener\">"@,
            spec_inline(link_text(s, i)),
        );
        lemma_tags_concat(
            "<a href=\""@ + spec_escape_attr(link_url(s, i))
                + "\" target=\"_blank\" rel=\"noopener\">"@ + spec_inline(link_text(s, i)),
            "</a>"@,
        );
        lemma_tags_concat(
            "<a href=\""@ + spec_escape_attr(link_url(s, i))
                + "\" target=\"_blank\" rel=\"noopener\">"@ + spec_inline(link_text(s, i))
                + "</a>"@,
            spec_inline_at(s, link_cp(s, i) + 1),
        );
    } else if cond_del(s, i) {
        let e = spec_find2(s, '~', '~', i + 2);
        law_inline_tags_only(s.subrange(i + 2, e));
        law_inline_tags_at(s, e + 2);
        lemma_tags_literal("<del>"@);
        lemma_tags_literal("</del>"@);
        lemma_tags_concat("<del>"@, spec_inline(s.subrange(i + 2, e)));
        lemma_tags_concat("<del>"@ + spec_inline(s.subrange(i + 2, e)), "</del>"@);
        lemma_tags_concat(
            "<del>"@ + spec_inline(s.subrange(i + 2, e)) + "</del>"@,
            spec_inline_at(s, e + 2),
        );
    } else if cond_sup(s, i) {
        let e = spec_find(s, '^', i + 1);
        law_inline_tags_at(s, e + 1);
        lemma_tags_literal("<sup>"@);
        lemma_tags_literal("</sup>"@);
        lemma_tags_escaped(s.subrange(i + 1, e));
        lemma_tags_concat("<sup>"@, spec_escape(s.subrange(i + 1, e)));
        lemma_tags_concat("<sup>"@ + spec_escape(s.subrange(i + 1, e)), "</sup>"@);
        lemma_tags_concat(
            "<sup>"@ + spec_escape(s.subrange(i + 1, e)) + "</sup>"@,
            spec_inline_at(s, e + 1),
        );
    } else {
        law_inline_tags_at(s, i + 1);
        assert(inline_tags_only(spec_escape_char(s[i]))) by {
            let one = seq![s[i]];
            crate::escape::law_escape_html_safe(one);
            assert(spec_escape_at(one, 1) == Seq::<char>::empty());
            assert(spec_escape(one) == spec_escape_char(one[0]) + spec_escape_at(one, 1));
            assert(spec_escape_char(s[i]) + Seq::<char>::empty() =~= spec_escape_char(s[i]));
        }
        lemma_tags_concat(spec_escape_char(s[i]), spec_inline_at(s, i + 1));
    }
}

} // verus!
