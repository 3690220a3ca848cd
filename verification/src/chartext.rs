//! Character-sequence utilities shared by the whole engine: whitespace
//! classification, trimming, delimiter search, and the conversions between
//! `str`/`String` and `Vec<char>` that let the engine work at Unicode
//! scalar granularity.

use vstd::prelude::*;
use vstd::std_specs::iter::IteratorSpec;

verus! {

broadcast use vstd::string::group_string_axioms;

/// The Unicode scalar values with the `White_Space` property, exactly the
/// set accepted by `char::is_whitespace`.
pub open spec fn is_ws_char(c: char) -> bool {
    (c as u32) == 0x09 || (c as u32) == 0x0A || (c as u32) == 0x0B || (c as u32) == 0x0C
        || (c as u32) == 0x0D || (c as u32) == 0x20 || (c as u32) == 0x85 || (c as u32) == 0xA0
        || (c as u32) == 0x1680 || (0x2000 <= (c as u32) && (c as u32) <= 0x200A)
        || (c as u32) == 0x2028 || (c as u32) == 0x2029 || (c as u32) == 0x202F
        || (c as u32) == 0x205F || (c as u32) == 0x3000
}

pub fn is_whitespace_char(c: char) -> (r: bool)
    ensures
        r == is_ws_char(c),
{
    let u = c as u32;
    u == 0x09 || u == 0x0A || u == 0x0B || u == 0x0C || u == 0x0D || u == 0x20 || u == 0x85
        || u == 0xA0 || u == 0x1680 || (0x2000 <= u && u <= 0x200A) || u == 0x2028 || u == 0x2029
        || u == 0x202F || u == 0x205F || u == 0x3000
}

/// First index `j >= i` with `s[j] == c`, or `s.len()` if there is none.
pub open spec fn spec_find(s: Seq<char>, c: char, i: int) -> int
    decreases s.len() - i,
{
    if i < 0 || i >= s.len() {
        s.len() as int
    } else if s[i] == c {
        i
    } else {
        spec_find(s, c, i + 1)
    }
}

pub proof fn lemma_find(s: Seq<char>, c: char, i: int)
    requires
        0 <= i <= s.len(),
    ensures
        i <= spec_find(s, c, i) <= s.len(),
        spec_find(s, c, i) < s.len() ==> s[spec_find(s, c, i)] == c,
        forall|k: int| i <= k < spec_find(s, c, i) ==> s[k] != c,
    decreases s.len() - i,
{
    if i < s.len() && s[i] != c {
        lemma_find(s, c, i + 1);
    }
}

/// First index `j >= i` whose character is not whitespace, or `s.len()`.
pub open spec fn ws_end(s: Seq<char>, i: int) -> int
    decreases s.len() - i,
{
    if i < 0 || i >= s.len() {
        s.len() as int
    } else if is_ws_char(s[i]) {
        ws_end(s, i + 1)
    } else {
        i
    }
}

pub proof fn lemma_ws_end(s: Seq<char>, i: int)
    requires
        0 <= i <= s.len(),
    ensures
        i <= ws_end(s, i) <= s.len(),
        ws_end(s, i) < s.len() ==> !is_ws_char(s[ws_end(s, i)]),
        forall|k: int| i <= k < ws_end(s, i) ==> is_ws_char(s[k]),
    decreases s.len() - i,
{
    if i < s.len() && is_ws_char(s[i]) {
        lemma_ws_end(s, i + 1);
    }
}

/// Scanning down from `j`: the lowest bound `b` such that every character of
/// `s[b..j]` is whitespace and either `b == 0` or `s[b-1]` is not whitespace.
pub open spec fn ws_start(s: Seq<char>, j: int) -> int
    decreases j,
{
    if j <= 0 {
        0
    } else if is_ws_char(s[j - 1]) {
        ws_start(s, j - 1)
    } else {
        j
    }
}

pub proof fn lemma_ws_start(s: Seq<char>, j: int)
    requires
        0 <= j <= s.len(),
    ensures
        0 <= ws_start(s, j) <= j,
        ws_start(s, j) > 0 ==> !is_ws_char(s[ws_start(s, j) - 1]),
        forall|k: int| ws_start(s, j) <= k < j ==> is_ws_char(s[k]),
    decreases j,
{
    if j > 0 && is_ws_char(s[j - 1]) {
        lemma_ws_start(s, j - 1);
    }
}

/// Whenever a non-whitespace character sits at index `a < j`, the trailing
/// whitespace run of `s[..j]` cannot reach down to `a`.
pub proof fn lemma_ws_start_above(s: Seq<char>, j: int, a: int)
    requires
        0 <= a < j <= s.len(),
        !is_ws_char(s[a]),
    ensures
        ws_start(s, j) > a,
    decreases j,
{
    if j - 1 > a && is_ws_char(s[j - 1]) {
        lemma_ws_start_above(s, j - 1, a);
    }
}

/// The line with leading whitespace removed, as `str::trim_start` does.
pub open spec fn trim_start_of(l: Seq<char>) -> Seq<char> {
    l.subrange(ws_end(l, 0), l.len() as int)
}

/// The line with trailing whitespace removed, as `str::trim_end` does.
pub open spec fn trim_end_of(l: Seq<char>) -> Seq<char> {
    l.subrange(0, ws_start(l, l.len() as int))
}

/// The line with whitespace removed on both sides, as `str::trim` does.
pub open spec fn trim_of(l: Seq<char>) -> Seq<char> {
    let a = ws_end(l, 0);
    if a == l.len() {
        Seq::empty()
    } else {
        l.subrange(a, ws_start(l, l.len() as int))
    }
}

pub proof fn lemma_trim_of(l: Seq<char>)
    ensures
        ws_end(l, 0) < l.len() ==> ws_end(l, 0) < ws_start(l, l.len() as int),
        trim_of(l).len() <= l.len(),
{
    lemma_ws_end(l, 0);
    lemma_ws_start(l, l.len() as int);
    if ws_end(l, 0) < l.len() {
        lemma_ws_start_above(l, l.len() as int, ws_end(l, 0));
    }
}

/// Index where the leading whitespace of `l` ends.
pub fn trim_start_idx(l: &Vec<char>) -> (r: usize)
    ensures
        r == ws_end(l@, 0),
{
    let mut k: usize = 0;
    while k < l.len() && is_whitespace_char(l[k])
        invariant
            0 <= k <= l@.len(),
            ws_end(l@, 0) == ws_end(l@, k as int),
        decreases l@.len() - k,
    {
        k = k + 1;
    }
    k
}

/// Index where the trailing whitespace of `l` begins.
pub fn trim_end_idx(l: &Vec<char>) -> (r: usize)
    ensures
        r == ws_start(l@, l@.len() as int),
{
    let mut b: usize = l.len();
    while b > 0 && is_whitespace_char(l[b - 1])
        invariant
            0 <= b <= l@.len(),
            ws_start(l@, l@.len() as int) == ws_start(l@, b as int),
        decreases b,
    {
        b = b - 1;
    }
    b
}

/// The characters of a string, in order, as a vector of Unicode scalars.
pub fn chars_vec(s: &str) -> (r: Vec<char>)
    ensures
        r@ == s@,
{
    let mut it = s.chars();
    let mut r: Vec<char> = Vec::new();
    loop
        invariant
            it.obeys_prophetic_iter_laws(),
            r@ + it.remaining() == s@,
            r@.len() <= s@.len(),
        ensures
            r@ == s@,
        decreases s@.len() - r@.len(),
    {
        match it.next() {
            Some(c) => {
                r.push(c);
            },
            None => {
                proof {
                    assert(r@ + it.remaining() =~= r@);
                }
                break ;
            },
        }
    }
    r
}

/// Relies on `String::push`: appends the given character to the end of the
/// string.
#[verifier::external_body]
pub fn push_char(s: &mut String, c: char)
    ensures
        final(s)@ == old(s)@.push(c),
{
    s.push(c);
}

/// Appends the characters `t[from..to]` to `out`.
pub fn append_range(out: &mut String, t: &Vec<char>, from: usize, to: usize)
    requires
        from <= to <= t@.len(),
    ensures
        final(out)@ == old(out)@ + t@.subrange(from as int, to as int),
{
    let mut k: usize = from;
    while k < to
        invariant
            from <= k <= to <= t@.len(),
            out@ == old(out)@ + t@.subrange(from as int, k as int),
        decreases to - k,
    {
        push_char(out, t[k]);
        proof {
            assert(old(out)@ + t@.subrange(from as int, k as int + 1) =~= (old(out)@
                + t@.subrange(from as int, k as int)).push(t@[k as int]));
        }
        k = k + 1;
    }
    proof {
        if from == to {
            assert(old(out)@ + t@.subrange(from as int, to as int) =~= old(out)@);
        }
    }
}

/// Builds a string from the characters `t[from..to]`.
pub fn string_of_range(t: &Vec<char>, from: usize, to: usize) -> (r: String)
    requires
        from <= to <= t@.len(),
    ensures
        r@ == t@.subrange(from as int, to as int),
{
    let mut r = String::new();
    append_range(&mut r, t, from, to);
    proof {
        assert(Seq::<char>::empty() + t@.subrange(from as int, to as int) =~= t@.subrange(
            from as int,
            to as int,
        ));
    }
    r
}

/// Pushes the characters `t[from..to]` onto the vector `out`.
pub fn push_range(out: &mut Vec<char>, t: &Vec<char>, from: usize, to: usize)
    requires
        from <= to <= t@.len(),
    ensures
        final(out)@ == old(out)@ + t@.subrange(from as int, to as int),
{
    let mut k: usize = from;
    while k < to
        invariant
            from <= k <= to <= t@.len(),
            out@ == old(out)@ + t@.subrange(from as int, k as int),
        decreases to - k,
    {
        out.push(t[k]);
        proof {
            assert(old(out)@ + t@.subrange(from as int, k as int + 1) =~= (old(out)@
                + t@.subrange(from as int, k as int)).push(t@[k as int]));
        }
        k = k + 1;
    }
    proof {
        if from == to {
            assert(old(out)@ + t@.subrange(from as int, to as int) =~= old(out)@);
        }
    }
}


/// Both trim indices of a line: where leading whitespace ends and where
/// trailing whitespace begins.
pub fn trim_bounds(l: &Vec<char>) -> (r: (usize, usize))
    ensures
        r.0 == ws_end(l@, 0),
        r.1 == ws_start(l@, l@.len() as int),
        r.0 <= l@.len(),
        r.1 <= l@.len(),
        r.0 < l@.len() ==> r.0 < r.1 && trim_of(l@) == l@.subrange(r.0 as int, r.1 as int),
        r.0 == l@.len() ==> trim_of(l@) == Seq::<char>::empty(),
{
    let a = trim_start_idx(l);
    let b = trim_end_idx(l);
    proof {
        lemma_trim_of(l@);
        lemma_ws_end(l@, 0);
        lemma_ws_start(l@, l@.len() as int);
    }
    (a, b)
}

} // verus!
