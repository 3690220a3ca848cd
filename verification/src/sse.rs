//! Framing of server-sent events.  A complete event is everything up to the
//! first blank-line separator; its `event: ` and `data: ` header lines give
//! the event's declared type (trimmed) and its raw payload, the last
//! occurrence of each winning.  Decoding the payload is the caller's
//! business: this module only cuts the byte stream into frames.

use vstd::prelude::*;
use crate::chartext::chars_vec;
use crate::chartext::string_of_range;
use crate::chartext::push_range;
use crate::chartext::trim_bounds;
use crate::chartext::trim_of;
use crate::inline::spec_find2;
use crate::inline::find2_in;
use crate::lines::spec_lines;
use crate::lines::split_lines;
use crate::lines::lines_view;

verus! {

/// One framed server-sent event.
pub struct SseFrame {
    /// The declared event type, trimmed.
    pub event: String,
    /// The raw data payload, untrimmed.
    pub data: String,
}

/// A line carrying the event-type header.
pub open spec fn sse_event_header(l: Seq<char>) -> bool {
    l.len() >= 7 && l[0] == 'e' && l[1] == 'v' && l[2] == 'e' && l[3] == 'n' && l[4] == 't' && l[5]
        == ':' && l[6] == ' '
}

/// A line carrying the data header.
pub open spec fn sse_data_header(l: Seq<char>) -> bool {
    l.len() >= 6 && l[0] == 'd' && l[1] == 'a' && l[2] == 't' && l[3] == 'a' && l[4] == ':' && l[5]
        == ' '
}

/// Folds the header lines of one event text into its type and payload: the
/// last `event: ` line (trimmed) and the last `data: ` line (raw) win.
pub open spec fn sse_fields(
    lines: Seq<Seq<char>>,
    k: int,
    ev: Seq<char>,
    da: Seq<char>,
) -> (Seq<char>, Seq<char>)
    decreases lines.len() - k,
{
    if k < 0 || k >= lines.len() {
        (ev, da)
    } else {
        let l = lines[k];
        if sse_event_header(l) {
            sse_fields(lines, k + 1, trim_of(l.subrange(7, l.len() as int)), da)
        } else if sse_data_header(l) {
            sse_fields(lines, k + 1, ev, l.subrange(6, l.len() as int))
        } else {
            sse_fields(lines, k + 1, ev, da)
        }
    }
}

/// The fields of the event whose text is `s` (separator included).
pub open spec fn spec_sse_frame(s: Seq<char>) -> (Seq<char>, Seq<char>) {
    sse_fields(spec_lines(s), 0, Seq::empty(), Seq::empty())
}

/// Cuts the next complete event off the front of the buffer.  An event ends
/// at the first empty line; without one the buffer is left untouched.
pub fn parse_next_sse_event(buffer: &mut String) -> (r: Option<SseFrame>)
    ensures
        ({
            let s = old(buffer)@;
            let nn = spec_find2(s, '\n', '\n', 0);
            &&& (r is Some <==> nn < s.len())
            &&& match r {
                Some(f) => final(buffer)@ == s.subrange(nn + 2, s.len() as int) && f.event@
                    == spec_sse_frame(s.subrange(0, nn + 2)).0 && f.data@ == spec_sse_frame(
                    s.subrange(0, nn + 2),
                ).1,
                None => final(buffer)@ == old(buffer)@,
            }
        }),
{
    let ghost s = buffer@;
    let v = chars_vec(buffer.as_str());
    let n = v.len();
    let nn = find2_in(&v, 0, n, 0, '\n', '\n');
    proof {
        assert(v@.subrange(0, n as int) =~= s);
    }
    if nn >= n {
        return None;
    }
    let mut evv: Vec<char> = Vec::new();
    push_range(&mut evv, &v, 0, nn + 2);
    proof {
        assert(evv@ =~= s.subrange(0, nn as int + 2));
    }
    let lines = split_lines(&evv);
    let ghost ll = spec_lines(evv@);
    let mut ev = String::new();
    let mut da = String::new();
    let mut k: usize = 0;
    let m = lines.len();
    proof {
        assert(lines_view(lines@).len() == m);
    }
    while k < m
        invariant
            k <= m == lines@.len(),
            ll == lines_view(lines@),
            sse_fields(ll, k as int, ev@, da@) == sse_fields(ll, 0, Seq::empty(), Seq::empty()),
        decreases m - k,
    {
        let line = &lines[k];
        proof {
            assert(ll[k as int] == line@);
        }
        let nk = line.len();
        if nk >= 7 && line[0] == 'e' && line[1] == 'v' && line[2] == 'e' && line[3] == 'n'
            && line[4] == 't' && line[5] == ':' && line[6] == ' ' {
            let mut rest: Vec<char> = Vec::new();
            push_range(&mut rest, line, 7, nk);
            let tb = trim_bounds(&rest);
            if tb.0 >= rest.len() {
                ev = String::new();
            } else {
                ev = string_of_range(&rest, tb.0, tb.1);
            }
            proof {
                assert(rest@ =~= line@.subrange(7, nk as int));
                assert(ev@ == trim_of(rest@));
            }
        } else if nk >= 6 && line[0] == 'd' && line[1] == 'a' && line[2] == 't' && line[3] == 'a'
            && line[4] == ':' && line[5] == ' ' {
            da = string_of_range(line, 6, nk);
        }
        k = k + 1;
    }
    let nb = string_of_range(&v, nn + 2, n);
    let ghost frame = spec_sse_frame(s.subrange(0, nn as int + 2));
    proof {
        assert(sse_fields(ll, m as int, ev@, da@) == (ev@, da@));
        assert(frame == (ev@, da@));
    }
    *buffer = nb;
    Some(SseFrame { event: ev, data: da })
}

} // verus!
