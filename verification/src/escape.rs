//! HTML escaping: the single invariant the whole engine rests on.  Element
//! text is escaped with `escape_html` (`&`, `<`, `>`, `"` become entities),
//! attribute values with `escape_html_attr` (additionally `'`).  The laws at
//! the bottom show that escaped text can neither open a tag nor break out of
//! a double- or single-quoted attribute value.

use vstd::prelude::*;
use vstd::string::StringExecFns;
use crate::chartext::chars_vec;
use crate::chartext::push_char;

verus! {

/// How one character of element text is rendered.
pub open spec fn spec_escape_char(c: char) -> Seq<char> {
    if c == '&' {
        "&amp;"@
    } else if c == '<' {
        "&lt;"@
    } else if c == '>' {
        "&gt;"@
    } else if c == '"' {
        "&quot;"@
    } else {
        seq![c]
    }
}

/// How one character of an attribute value is rendered.
pub open spec fn spec_escape_attr_char(c: char) -> Seq<char> {
    if c == '\'' {
        "&#39;"@
    } else {
        spec_escape_char(c)
    }
}

/// Element-text escaping of `s[i..]`.
pub open spec fn spec_escape_at(s: Seq<char>, i: int) -> Seq<char>
    decreases s.len() - i,
{
    if i < 0 || i >= s.len() {
        Seq::empty()
    } else {
        spec_escape_char(s[i]) + spec_escape_at(s, i + 1)
    }
}

/// Element-text escaping of a whole sequence.
pub open spec fn spec_escape(s: Seq<char>) -> Seq<char> {
    spec_escape_at(s, 0)
}

/// Attribute-value escaping of `s[i..]`.
pub open spec fn spec_escape_attr_at(s: Seq<char>, i: int) -> Seq<char>
    decreases s.len() - i,
{
    if i < 0 || i >= s.len() {
        Seq::empty()
    } else {
        spec_escape_attr_char(s[i]) + spec_escape_attr_at(s, i + 1)
    }
}

/// Attribute-value escaping of a whole sequence.
pub open spec fn spec_escape_attr(s: Seq<char>) -> Seq<char> {
    spec_escape_attr_at(s, 0)
}

/// Appends the element-text escaping of `t[from..to]` to `out`.
pub fn escape_append(out: &mut String, t: &Vec<char>, from: usize, to: usize)
    requires
        from <= to <= t@.len(),
    ensures
        final(out)@ == old(out)@ + spec_escape(t@.subrange(from as int, to as int)),
{
    let ghost s = t@.subrange(from as int, to as int);
    let mut k: usize = from;
    while k < to
        invariant
            from <= k <= to <= t@.len(),
            s == t@.subrange(from as int, to as int),
            out@ + spec_escape_at(s, k - from) == old(out)@ + spec_escape_at(s, 0),
        decreases to - k,
    {
        let ghost pre = out@;
        let c = t[k];
        proof {
            assert(s[k - from] == c);
        }
        if c == '&' {
            out.append("&amp;");
        } else if c == '<' {
            out.append("&lt;");
        } else if c == '>' {
            out.append("&gt;");
        } else if c == '"' {
            out.append("&quot;");
        } else {
            push_char(out, c);
            proof {
                assert(out@ =~= pre + seq![c]);
            }
        }
        proof {
            assert(out@ == pre + spec_escape_char(c));
            assert(out@ + spec_escape_at(s, k - from + 1) =~= pre + spec_escape_at(s, k - from));
        }
        k = k + 1;
    }
    proof {
        assert(out@ + spec_escape_at(s, to - from) =~= out@);
    }
}

/// Appends the attribute-value escaping of `t[from..to]` to `out`.
pub fn escape_attr_append(out: &mut String, t: &Vec<char>, from: usize, to: usize)
    requires
        from <= to <= t@.len(),
    ensures
        final(out)@ == old(out)@ + spec_escape_attr(t@.subrange(from as int, to as int)),
{
    let ghost s = t@.subrange(from as int, to as int);
    let mut k: usize = from;
    while k < to
        invariant
            from <= k <= to <= t@.len(),
            s == t@.subrange(from as int, to as int),
            out@ + spec_escape_attr_at(s, k - from) == old(out)@ + spec_escape_attr_at(s, 0),
        decreases to - k,
    {
        let ghost pre = out@;
        let c = t[k];
        proof {
            assert(s[k - from] == c);
        }
        if c == '&' {
            out.append("&amp;");
        } else if c == '<' {
            out.append("&lt;");
        } else if c == '>' {
            out.append("&gt;");
        } else if c == '"' {
            out.append("&quot;");
        } else if c == '\'' {
            out.append("&#39;");
        } else {
            push_char(out, c);
            proof {
                assert(out@ =~= pre + seq![c]);
            }
        }
        proof {
            assert(out@ == pre + spec_escape_attr_char(c));
            assert(out@ + spec_escape_attr_at(s, k - from + 1) =~= pre + spec_escape_attr_at(
                s,
                k - from,
            ));
        }
        k = k + 1;
    }
    proof {
        assert(out@ + spec_escape_attr_at(s, to - from) =~= out@);
    }
}

/// Escapes `&`, `<`, `>` and `"` for element-text position.
pub fn escape_html(s: &str) -> (r: String)
    ensures
        r@ == spec_escape(s@),
{
    let v = chars_vec(s);
    let mut r = String::new();
    escape_append(&mut r, &v, 0, v.len());
    proof {
        assert(v@.subrange(0, v@.len() as int) =~= s@);
        assert(Seq::<char>::empty() + spec_escape(s@) =~= spec_escape(s@));
    }
    r
}

/// Escapes for attribute-value position: `escape_html` plus single quotes.
pub fn escape_html_attr(s: &str) -> (r: String)
    ensures
        r@ == spec_escape_attr(s@),
{
    let v = chars_vec(s);
    let mut r = String::new();
    escape_attr_append(&mut r, &v, 0, v.len());
    proof {
        assert(v@.subrange(0, v@.len() as int) =~= s@);
        assert(Seq::<char>::empty() + spec_escape_attr(s@) =~= spec_escape_attr(s@));
    }
    r
}

/// The element-text escaping of a single character.
pub fn escape_html_char(c: char) -> (r: String)
    ensures
        r@ == spec_escape_char(c),
{
    let mut r = String::new();
    if c == '&' {
        r.append("&amp;");
    } else if c == '<' {
        r.append("&lt;");
    } else if c == '>' {
        r.append("&gt;");
    } else if c == '"' {
        r.append("&quot;");
    } else {
        push_char(&mut r, c);
        proof {
            assert(r@ =~= Seq::<char>::empty() + seq![c]);
        }
    }
    proof {
        assert(Seq::<char>::empty() + spec_escape_char(c) =~= spec_escape_char(c));
    }
    r
}

/// No escaped element text contains a raw `<`, `>` or `"`: user text can
/// neither open a tag nor terminate a quoted attribute value.
pub proof fn law_escape_html_safe(s: Seq<char>)
    ensures
        forall|j: int|
            0 <= j < spec_escape(s).len() ==> spec_escape(s)[j] != '<' && spec_escape(s)[j] != '>'
                && spec_escape(s)[j] != '"',
{
    law_escape_at_safe(s, 0);
}

proof fn law_escape_at_safe(s: Seq<char>, i: int)
    ensures
        forall|j: int|
            0 <= j < spec_escape_at(s, i).len() ==> spec_escape_at(s, i)[j] != '<'
                && spec_escape_at(s, i)[j] != '>' && spec_escape_at(s, i)[j] != '"',
    decreases s.len() - i,
{
    if 0 <= i < s.len() {
        law_escape_at_safe(s, i + 1);
        reveal_strlit("&amp;");
        reveal_strlit("&lt;");
        reveal_strlit("&gt;");
        reveal_strlit("&quot;");
        assert forall|j: int| 0 <= j < spec_escape_at(s, i).len() implies spec_escape_at(s, i)[j]
            != '<' && spec_escape_at(s, i)[j] != '>' && spec_escape_at(s, i)[j] != '"' by {
            let chunk = spec_escape_char(s[i]);
            if j < chunk.len() {
                assert(spec_escape_at(s, i)[j] == chunk[j]);
            } else {
                assert(spec_escape_at(s, i)[j] == spec_escape_at(s, i + 1)[j - chunk.len()]);
            }
        }
    }
}

/// No escaped attribute value contains a raw `<`, `>`, `"` or `'`: a value
/// placed between quotes cannot break out of the attribute.
pub proof fn law_escape_attr_safe(s: Seq<char>)
    ensures
        forall|j: int|
            0 <= j < spec_escape_attr(s).len() ==> spec_escape_attr(s)[j] != '<'
                && spec_escape_attr(s)[j] != '>' && spec_escape_attr(s)[j] != '"'
                && spec_escape_attr(s)[j] != '\'',
{
    law_escape_attr_at_safe(s, 0);
}

proof fn law_escape_attr_at_safe(s: Seq<char>, i: int)
    ensures
        forall|j: int|
            0 <= j < spec_escape_attr_at(s, i).len() ==> spec_escape_attr_at(s, i)[j] != '<'
                && spec_escape_attr_at(s, i)[j] != '>' && spec_escape_attr_at(s, i)[j] != '"'
                && spec_escape_attr_at(s, i)[j] != '\'',
    decreases s.len() - i,
{
    if 0 <= i < s.len() {
        law_escape_attr_at_safe(s, i + 1);
        reveal_strlit("&amp;");
        reveal_strlit("&lt;");
        reveal_strlit("&gt;");
        reveal_strlit("&quot;");
        reveal_strlit("&#39;");
        assert forall|j: int| 0 <= j < spec_escape_attr_at(s, i).len() implies spec_escape_attr_at(
            s,
            i,
        )[j] != '<' && spec_escape_attr_at(s, i)[j] != '>' && spec_escape_attr_at(s, i)[j] != '"'
            && spec_escape_attr_at(s, i)[j] != '\'' by {
            let chunk = spec_escape_attr_char(s[i]);
            if j < chunk.len() {
                assert(spec_escape_attr_at(s, i)[j] == chunk[j]);
            } else {
                assert(spec_escape_attr_at(s, i)[j] == spec_escape_attr_at(s, i + 1)[j
                    - chunk.len()]);
            }
        }
    }
}


/// The sequence `p` occurs in `h` at position `j`.
pub open spec fn occurs_at(h: Seq<char>, j: int, p: Seq<char>) -> bool {
    0 <= j && j + p.len() <= h.len() && h.subrange(j, j + p.len()) == p
}

/// Position `j` of `h` begins one of the four element-text entities.
pub open spec fn entity_at(h: Seq<char>, j: int) -> bool {
    occurs_at(h, j, "&amp;"@) || occurs_at(h, j, "&lt;"@) || occurs_at(h, j, "&gt;"@) || occurs_at(
        h,
        j,
        "&quot;"@,
    ) || occurs_at(h, j, "&#39;"@)
}

/// Every ampersand of escaped element text begins an entity: together with
/// the absence of raw `<`, `>` and `"`, a literal character of the input
/// appears in the output only as itself or as its own entity, never as new
/// markup.
pub proof fn law_escape_amp_entity(s: Seq<char>)
    ensures
        forall|j: int|
            0 <= j < spec_escape(s).len() && spec_escape(s)[j] == '&' ==> entity_at(
                spec_escape(s),
                j,
            ),
{
    law_escape_amp_at(s, 0);
}

/// Every ampersand of an escaped attribute value begins an entity.
pub proof fn law_escape_attr_amp_entity(s: Seq<char>)
    ensures
        forall|j: int|
            0 <= j < spec_escape_attr(s).len() && spec_escape_attr(s)[j] == '&' ==> entity_at(
                spec_escape_attr(s),
                j,
            ),
{
    law_escape_attr_amp_at(s, 0);
}

proof fn lemma_entity_shift(chunk: Seq<char>, rest: Seq<char>, j: int)
    requires
        0 <= j < rest.len(),
        entity_at(rest, j),
    ensures
        entity_at(chunk + rest, chunk.len() + j),
{
    reveal_strlit("&amp;");
    reveal_strlit("&lt;");
    reveal_strlit("&gt;");
    reveal_strlit("&quot;");
    reveal_strlit("&#39;");
    let h = chunk + rest;
    if occurs_at(rest, j, "&amp;"@) {
        assert(h.subrange(chunk.len() + j, chunk.len() + j + 5) =~= "&amp;"@);
    } else if occurs_at(rest, j, "&lt;"@) {
        assert(h.subrange(chunk.len() + j, chunk.len() + j + 4) =~= "&lt;"@);
    } else if occurs_at(rest, j, "&gt;"@) {
        assert(h.subrange(chunk.len() + j, chunk.len() + j + 4) =~= "&gt;"@);
    } else if occurs_at(rest, j, "&quot;"@) {
        assert(h.subrange(chunk.len() + j, chunk.len() + j + 6) =~= "&quot;"@);
    } else {
        assert(h.subrange(chunk.len() + j, chunk.len() + j + 5) =~= "&#39;"@);
    }
}

proof fn lemma_entity_chunk(chunk: Seq<char>, rest: Seq<char>)
    requires
        chunk == "&amp;"@ || chunk == "&lt;"@ || chunk == "&gt;"@ || chunk == "&quot;"@ || chunk
            == "&#39;"@,
    ensures
        entity_at(chunk + rest, 0),
        forall|j: int| 0 < j < chunk.len() ==> (chunk + rest)[j] != '&',
{
    reveal_strlit("&amp;");
    reveal_strlit("&lt;");
    reveal_strlit("&gt;");
    reveal_strlit("&quot;");
    reveal_strlit("&#39;");
    let h = chunk + rest;
    assert(h.subrange(0, chunk.len() as int) =~= chunk);
}

proof fn law_escape_amp_at(s: Seq<char>, i: int)
    ensures
        forall|j: int|
            0 <= j < spec_escape_at(s, i).len() && spec_escape_at(s, i)[j] == '&' ==> entity_at(
                spec_escape_at(s, i),
                j,
            ),
    decreases s.len() - i,
{
    reveal_strlit("&amp;");
    reveal_strlit("&lt;");
    reveal_strlit("&gt;");
    reveal_strlit("&quot;");
    if 0 <= i < s.len() {
        law_escape_amp_at(s, i + 1);
        let chunk = spec_escape_char(s[i]);
        let rest = spec_escape_at(s, i + 1);
        let h = spec_escape_at(s, i);
        assert(h == chunk + rest);
        assert forall|j: int| 0 <= j < h.len() && h[j] == '&' implies entity_at(h, j) by {
            if s[i] == '&' || s[i] == '<' || s[i] == '>' || s[i] == '"' {
                lemma_entity_chunk(chunk, rest);
                if j >= chunk.len() {
                    assert(rest[j - chunk.len()] == '&');
                    lemma_entity_shift(chunk, rest, j - chunk.len());
                }
            } else {
                assert(chunk =~= seq![s[i]]);
                if j == 0 {
                    assert(h[0] == s[i]);
                    assert(s[i] == '&');
                    assert(false);
                } else {
                    assert(rest[j - 1] == '&');
                    lemma_entity_shift(chunk, rest, j - 1);
                }
            }
        }
    }
}

proof fn law_escape_attr_amp_at(s: Seq<char>, i: int)
    ensures
        forall|j: int|
            0 <= j < spec_escape_attr_at(s, i).len() && spec_escape_attr_at(s, i)[j] == '&'
                ==> entity_at(spec_escape_attr_at(s, i), j),
    decreases s.len() - i,
{
    reveal_strlit("&amp;");
    reveal_strlit("&lt;");
    reveal_strlit("&gt;");
    reveal_strlit("&quot;");
    reveal_strlit("&#39;");
    if 0 <= i < s.len() {
        law_escape_attr_amp_at(s, i + 1);
        let chunk = spec_escape_attr_char(s[i]);
        let rest = spec_escape_attr_at(s, i + 1);
        let h = spec_escape_attr_at(s, i);
        assert(h == chunk + rest);
        assert forall|j: int| 0 <= j < h.len() && h[j] == '&' implies entity_at(h, j) by {
            if s[i] == '&' || s[i] == '<' || s[i] == '>' || s[i] == '"' || s[i] == '\'' {
                lemma_entity_chunk(chunk, rest);
                if j >= chunk.len() {
                    assert(rest[j - chunk.len()] == '&');
                    lemma_entity_shift(chunk, rest, j - chunk.len());
                }
            } else {
                assert(chunk =~= seq![s[i]]);
                if j == 0 {
                    assert(h[0] == s[i]);
                    assert(s[i] == '&');
                    assert(false);
                } else {
                    assert(rest[j - 1] == '&');
                    lemma_entity_shift(chunk, rest, j - 1);
                }
            }
        }
    }
}

} // verus!
