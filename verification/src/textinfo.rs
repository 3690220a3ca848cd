//! Small text rules around the chat: deriving a session title from the
//! first user message, classifying a file name by its extension, and
//! checking an upload's extension against the allow-list.

use vstd::prelude::*;
use vstd::utf8::encode_utf8;
use vstd::string::StringExecFns;
use crate::chartext::chars_vec;
use crate::chartext::string_of_range;
use crate::models::ChatMessage;
use crate::models::Role;

verus! {

/// Index of the first user-authored message at or after `k`, or the length.
pub open spec fn first_user(ms: Seq<ChatMessage>, k: int) -> int
    decreases ms.len() - k,
{
    if k < 0 || k >= ms.len() {
        ms.len() as int
    } else if ms[k].role == Role::User {
        k
    } else {
        first_user(ms, k + 1)
    }
}

/// A short title drawn from one message text: its first forty characters,
/// with a trailing ellipsis when the text is longer than forty bytes.
pub open spec fn spec_title_of(text: Seq<char>) -> Seq<char> {
    let head = if text.len() <= 40 {
        text
    } else {
        text.subrange(0, 40)
    };
    if encode_utf8(text).len() > 40 {
        head + "..."@
    } else {
        head
    }
}

/// The session title: drawn from the first user message, or the fixed
/// caption for a session without one.
pub open spec fn spec_title_from(ms: Seq<ChatMessage>) -> Seq<char> {
    let k = first_user(ms, 0);
    if k >= ms.len() {
        "New Chat"@
    } else {
        spec_title_of(ms[k].text@)
    }
}

/// Derives a short session title from the first user message.
pub fn title_from_messages(messages: &Vec<ChatMessage>) -> (r: String)
    ensures
        r@ == spec_title_from(messages@),
{
    let n = messages.len();
    let mut k: usize = 0;
    while k < n && !(messages[k].role == Role::User)
        invariant
            k <= n == messages@.len(),
            first_user(messages@, 0) == first_user(messages@, k as int),
        decreases n - k,
    {
        k = k + 1;
    }
    if k >= n {
        let mut r = String::new();
        r.append("New Chat");
        proof {
            assert(r@ =~= "New Chat"@);
        }
        return r;
    }
    let text = &messages[k].text;
    let v = chars_vec(text.as_str());
    let lim: usize = if v.len() <= 40 {
        v.len()
    } else {
        40
    };
    let mut r = string_of_range(&v, 0, lim);
    let bs = text.as_str().as_bytes();
    proof {
        assert(bs@ == encode_utf8(messages@[k as int].text@));
    }
    if bs.len() > 40 {
        r.append("...");
    }
    proof {
        let tx = messages@[k as int].text@;
        if tx.len() <= 40 {
            assert(v@.subrange(0, lim as int) =~= tx);
        }
        assert(r@ =~= spec_title_of(tx));
    }
    r
}

/// The codepoint of a character with an ASCII capital folded to lower case.
pub open spec fn lower_u(c: char) -> u32 {
    if 0x41 <= (c as u32) && (c as u32) <= 0x5A {
        (c as u32 + 0x20) as u32
    } else {
        c as u32
    }
}

/// Executable ASCII case folding to a codepoint.
pub fn lower_code(c: char) -> (r: u32)
    ensures
        r == lower_u(c),
{
    let u = c as u32;
    if 0x41 <= u && u <= 0x5A {
        u + 0x20
    } else {
        u
    }
}

/// Index of the last dot strictly below `j`, or `-1`.
pub open spec fn last_dot(s: Seq<char>, j: int) -> int
    decreases j,
{
    if j <= 0 {
        -1
    } else if s[j - 1] == '.' {
        j - 1
    } else {
        last_dot(s, j - 1)
    }
}

/// The file name's extension: everything after the last dot, or the whole
/// name when there is none.
pub open spec fn ext_of(s: Seq<char>) -> Seq<char> {
    let d = last_dot(s, s.len() as int);
    if d >= 0 {
        s.subrange(d + 1, s.len() as int)
    } else {
        s
    }
}

/// Case-insensitive match of a two-character extension.
pub open spec fn ext2(e: Seq<char>, c0: char, c1: char) -> bool {
    e.len() == 2 && lower_u(e[0]) == c0 as u32 && lower_u(e[1]) == c1 as u32
}

/// Case-insensitive match of a three-character extension.
pub open spec fn ext3(e: Seq<char>, c0: char, c1: char, c2: char) -> bool {
    e.len() == 3 && lower_u(e[0]) == c0 as u32 && lower_u(e[1]) == c1 as u32 && lower_u(e[2]) == c2
        as u32
}

/// Case-insensitive match of a four-character extension.
pub open spec fn ext4(e: Seq<char>, c0: char, c1: char, c2: char, c3: char) -> bool {
    e.len() == 4 && lower_u(e[0]) == c0 as u32 && lower_u(e[1]) == c1 as u32 && lower_u(e[2]) == c2
        as u32 && lower_u(e[3]) == c3 as u32
}

/// The icon class of a file name, decided by its extension.
pub open spec fn spec_file_type_class(s: Seq<char>) -> Seq<char> {
    let e = ext_of(s);
    if ext3(e, 'p', 'd', 'f') {
        "doc-icon--pdf"@
    } else if ext2(e, 'm', 'd') || ext3(e, 'r', 's', 't') {
        "doc-icon--md"@
    } else if ext2(e, 'p', 'y') || ext2(e, 'r', 's') || ext2(e, 'j', 's') || ext2(e, 't', 's')
        || ext4(e, 'h', 't', 'm', 'l') || ext3(e, 'c', 's', 's') || ext4(e, 'j', 's', 'o', 'n')
        || ext3(e, 'x', 'm', 'l') || ext4(e, 'y', 'a', 'm', 'l') || ext3(e, 'y', 'm', 'l') {
        "doc-icon--code"@
    } else if ext3(e, 'c', 's', 'v') || ext4(e, 'x', 'l', 's', 'x') || ext3(e, 'x', 'l', 's') {
        "doc-icon--data"@
    } else {
        "doc-icon--text"@
    }
}

/// Executable two-character extension match.
fn ext2_ex(e: &Vec<char>, c0: char, c1: char) -> (r: bool)
    ensures
        r == ext2(e@, c0, c1),
{
    e.len() == 2 && lower_code(e[0]) == c0 as u32 && lower_code(e[1]) == c1 as u32
}

/// Executable three-character extension match.
fn ext3_ex(e: &Vec<char>, c0: char, c1: char, c2: char) -> (r: bool)
    ensures
        r == ext3(e@, c0, c1, c2),
{
    e.len() == 3 && lower_code(e[0]) == c0 as u32 && lower_code(e[1]) == c1 as u32 && lower_code(
        e[2],
    ) == c2 as u32
}

/// Executable four-character extension match.
fn ext4_ex(e: &Vec<char>, c0: char, c1: char, c2: char, c3: char) -> (r: bool)
    ensures
        r == ext4(e@, c0, c1, c2, c3),
{
    e.len() == 4 && lower_code(e[0]) == c0 as u32 && lower_code(e[1]) == c1 as u32 && lower_code(
        e[2],
    ) == c2 as u32 && lower_code(e[3]) == c3 as u32
}

/// Picks the icon class for a file name by its extension.
pub fn file_type_class(name: &str) -> (r: &'static str)
    ensures
        r@ == spec_file_type_class(name@),
{
    let v = chars_vec(name);
    let n = v.len();
    let mut d: usize = n;
    while d > 0 && v[d - 1] != '.'
        invariant
            d <= n == v@.len(),
            last_dot(v@, n as int) == last_dot(v@, d as int),
        decreases d,
    {
        d = d - 1;
    }
    // d == 0 with no dot found means the whole name is the extension
    let start: usize = if d > 0 {
        d
    } else {
        0
    };
    let mut e: Vec<char> = Vec::new();
    crate::chartext::push_range(&mut e, &v, start, n);
    proof {
        assert(e@ =~= ext_of(name@));
    }
    if ext3_ex(&e, 'p', 'd', 'f') {
        "doc-icon--pdf"
    } else if ext2_ex(&e, 'm', 'd') || ext3_ex(&e, 'r', 's', 't') {
        "doc-icon--md"
    } else if ext2_ex(&e, 'p', 'y') || ext2_ex(&e, 'r', 's') || ext2_ex(&e, 'j', 's') || ext2_ex(
        &e,
        't',
        's',
    ) || ext4_ex(&e, 'h', 't', 'm', 'l') || ext3_ex(&e, 'c', 's', 's') || ext4_ex(
        &e,
        'j',
        's',
        'o',
        'n',
    ) || ext3_ex(&e, 'x', 'm', 'l') || ext4_ex(&e, 'y', 'a', 'm', 'l') || ext3_ex(&e, 'y', 'm', 'l')
     {
        "doc-icon--code"
    } else if ext3_ex(&e, 'c', 's', 'v') || ext4_ex(&e, 'x', 'l', 's', 'x') || ext3_ex(
        &e,
        'x',
        'l',
        's',
    ) {
        "doc-icon--data"
    } else {
        "doc-icon--text"
    }
}

/// Case-insensitive match of a suffix of three characters.
pub open spec fn sfx3(s: Seq<char>, c0: char, c1: char, c2: char) -> bool {
    s.len() >= 3 && lower_u(s[s.len() - 3]) == c0 as u32 && lower_u(s[s.len() - 2]) == c1 as u32
        && lower_u(s[s.len() - 1]) == c2 as u32
}

/// Case-insensitive match of a suffix of four characters.
pub open spec fn sfx4(s: Seq<char>, c0: char, c1: char, c2: char, c3: char) -> bool {
    s.len() >= 4 && lower_u(s[s.len() - 4]) == c0 as u32 && lower_u(s[s.len() - 3]) == c1 as u32
        && lower_u(s[s.len() - 2]) == c2 as u32 && lower_u(s[s.len() - 1]) == c3 as u32
}

/// Case-insensitive match of a suffix of five characters.
pub open spec fn sfx5(s: Seq<char>, c0: char, c1: char, c2: char, c3: char, c4: char) -> bool {
    s.len() >= 5 && lower_u(s[s.len() - 5]) == c0 as u32 && lower_u(s[s.len() - 4]) == c1 as u32
        && lower_u(s[s.len() - 3]) == c2 as u32 && lower_u(s[s.len() - 2]) == c3 as u32 && lower_u(
        s[s.len() - 1],
    ) == c4 as u32
}

/// The upload allow-list: a file name ends in one of the accepted document
/// extensions, case-insensitively.
pub open spec fn spec_valid_extension(s: Seq<char>) -> bool {
    ||| sfx4(s, '.', 'p', 'd', 'f')
    ||| sfx4(s, '.', 't', 'x', 't')
    ||| sfx3(s, '.', 'm', 'd')
    ||| sfx4(s, '.', 'd', 'o', 'c')
    ||| sfx5(s, '.', 'd', 'o', 'c', 'x')
    ||| sfx5(s, '.', 'h', 't', 'm', 'l')
    ||| sfx4(s, '.', 'h', 't', 'm')
    ||| sfx5(s, '.', 'j', 's', 'o', 'n')
    ||| sfx4(s, '.', 'x', 'm', 'l')
    ||| sfx4(s, '.', 'c', 's', 'v')
    ||| sfx4(s, '.', 'r', 's', 't')
}

/// Executable suffix matches.
fn sfx3_ex(v: &Vec<char>, c0: char, c1: char, c2: char) -> (r: bool)
    ensures
        r == sfx3(v@, c0, c1, c2),
{
    let n = v.len();
    n >= 3 && lower_code(v[n - 3]) == c0 as u32 && lower_code(v[n - 2]) == c1 as u32 && lower_code(
        v[n - 1],
    ) == c2 as u32
}

fn sfx4_ex(v: &Vec<char>, c0: char, c1: char, c2: char, c3: char) -> (r: bool)
    ensures
        r == sfx4(v@, c0, c1, c2, c3),
{
    let n = v.len();
    n >= 4 && lower_code(v[n - 4]) == c0 as u32 && lower_code(v[n - 3]) == c1 as u32 && lower_code(
        v[n - 2],
    ) == c2 as u32 && lower_code(v[n - 1]) == c3 as u32
}

fn sfx5_ex(v: &Vec<char>, c0: char, c1: char, c2: char, c3: char, c4: char) -> (r: bool)
    ensures
        r == sfx5(v@, c0, c1, c2, c3, c4),
{
    let n = v.len();
    n >= 5 && lower_code(v[n - 5]) == c0 as u32 && lower_code(v[n - 4]) == c1 as u32 && lower_code(
        v[n - 3],
    ) == c2 as u32 && lower_code(v[n - 2]) == c3 as u32 && lower_code(v[n - 1]) == c4 as u32
}

/// Checks a file name against the upload allow-list.
pub fn is_valid_extension(name: &str) -> (r: bool)
    ensures
        r == spec_valid_extension(name@),
{
    let v = chars_vec(name);
    sfx4_ex(&v, '.', 'p', 'd', 'f') || sfx4_ex(&v, '.', 't', 'x', 't') || sfx3_ex(&v, '.', 'm', 'd')
        || sfx4_ex(&v, '.', 'd', 'o', 'c') || sfx5_ex(&v, '.', 'd', 'o', 'c', 'x') || sfx5_ex(
        &v,
        '.',
        'h',
        't',
        'm',
        'l',
    ) || sfx4_ex(&v, '.', 'h', 't', 'm') || sfx5_ex(&v, '.', 'j', 's', 'o', 'n') || sfx4_ex(
        &v,
        '.',
        'x',
        'm',
        'l',
    ) || sfx4_ex(&v, '.', 'c', 's', 'v') || sfx4_ex(&v, '.', 'r', 's', 't')
}

} // verus!
