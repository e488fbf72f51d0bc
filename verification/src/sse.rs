//! Server-sent-events framing: rendering one event frame, and picking
//! the event type back out of a received frame block.

use vstd::prelude::*;

use crate::text::{
    chomp_cr, first_nl, lemma_first_nl, lemma_first_nl_is, lines_of, seq_starts_with, trim_of,
};
use crate::workflows::{find_newline, str_chars, trim_bounds};
use vstd::string::StrSliceExecFns;

verus! {

/// One SSE frame: `event: <name>` then `data: <payload>`, closed by a
/// blank line.
pub open spec fn sse_frame_chars(name: Seq<char>, data: Seq<char>) -> Seq<char> {
    "event: "@ + name + "\n"@ + "data: "@ + data + "\n\n"@
}

/// Renders one SSE frame.
pub fn sse_frame(event_name: &str, data: &str) -> (r: String)
    ensures
        r@ == sse_frame_chars(event_name@, data@),
{
    let mut s = String::from_str("event: ");
    s.append(event_name);
    s.append("\n");
    s.append("data: ");
    s.append(data);
    s.append("\n\n");
    proof {
        assert(s@ =~= sse_frame_chars(event_name@, data@));
    }
    s
}

/// The event type named by a frame block: the trimmed remainder of the
/// first line that starts with `event:`, if any.
pub open spec fn sse_event_type_of(block: Seq<char>) -> Option<Seq<char>> {
    find_event_line(lines_of(block))
}

pub open spec fn find_event_line(ls: Seq<Seq<char>>) -> Option<Seq<char>>
    decreases ls.len(),
{
    if ls.len() == 0 {
        Option::None
    } else if seq_starts_with(ls[0], "event:"@) {
        Option::Some(trim_of(ls[0].skip(6)))
    } else {
        find_event_line(ls.drop_first())
    }
}

/// Whether the range starts with the pattern, character for character.
#[verifier::loop_isolation(false)]
fn prefix_matches(cs: &Vec<char>, lo: usize, hi: usize, pat: &str) -> (r: bool)
    requires
        lo <= hi <= cs@.len(),
    ensures
        r == seq_starts_with(cs@.subrange(lo as int, hi as int), pat@),
{
    let ghost t = cs@.subrange(lo as int, hi as int);
    let plen = pat.unicode_len();
    if hi - lo < plen {
        return false;
    }
    let mut i: usize = 0;
    while i < plen
        invariant
            i <= plen,
            plen <= hi - lo,
            forall|j: int| 0 <= j < i ==> t[j] == pat@[j],
        decreases plen - i,
    {
        let c = cs[lo + i];
        let pc = pat.get_char(i);
        if c != pc {
            proof {
                assert(t[i as int] == cs@[lo + i]);
                if seq_starts_with(t, pat@) {
                    assert(t.subrange(0, pat@.len() as int)[i as int] == pat@[i as int]);
                    assert(false);
                }
            }
            return false;
        }
        proof {
            assert(t[i as int] == cs@[lo + i]);
        }
        i = i + 1;
    }
    proof {
        assert(t.subrange(0, plen as int) =~= pat@);
    }
    true
}

/// Picks the event type out of one received SSE frame block: the
/// trimmed remainder of its first `event:` line.
#[verifier::loop_isolation(false)]
pub fn sse_event_type<'a>(event_block: &'a str) -> (r: Option<&'a str>)
    ensures
        match r {
            Option::Some(name) => sse_event_type_of(event_block@) == Option::Some(name@),
            Option::None => sse_event_type_of(event_block@) is None,
        },
{
    let cs = str_chars(event_block);
    let n = cs.len();
    let mut p: usize = 0;
    proof {
        assert(cs@.skip(0) =~= cs@);
    }
    while p < n
        invariant
            p <= n,
            n == cs@.len(),
            cs@ == event_block@,
            sse_event_type_of(event_block@) == find_event_line(lines_of(cs@.skip(p as int))),
        decreases n - p,
    {
        let j = find_newline(&cs, p, n);
        let ghost tail = cs@.skip(p as int);
        let le: usize = if j < n {
            if j > p && cs[j - 1] == '\r' {
                j - 1
            } else {
                j
            }
        } else {
            j
        };
        proof {
            if j < n {
                assert(tail[j - p] == cs@[j as int]);
                assert forall|i: int| 0 <= i < j - p implies tail[i] != '\n' by {
                    assert(tail[i] == cs@[p + i]);
                }
                lemma_first_nl_is(tail, j - p);
                assert(lines_of(tail) == seq![chomp_cr(tail.subrange(0, j - p))] + lines_of(
                    tail.subrange(j - p + 1, tail.len() as int),
                ));
                assert(tail.subrange(0, j - p) =~= cs@.subrange(p as int, j as int));
                assert(tail.subrange(j - p + 1, tail.len() as int) =~= cs@.skip(j + 1));
                if j > p && cs@[j - 1] == '\r' {
                    assert(cs@.subrange(p as int, j as int).last() == cs@[j - 1]);
                    assert(chomp_cr(cs@.subrange(p as int, j as int)) =~= cs@.subrange(
                        p as int,
                        j - 1,
                    ));
                } else {
                    if j > p {
                        assert(cs@.subrange(p as int, j as int).last() == cs@[j - 1]);
                    }
                    assert(chomp_cr(cs@.subrange(p as int, j as int)) =~= cs@.subrange(
                        p as int,
                        j as int,
                    ));
                }
            } else {
                lemma_first_nl(tail);
                assert forall|i: int| 0 <= i < tail.len() implies tail[i] != '\n' by {
                    assert(tail[i] == cs@[p + i]);
                }
                if first_nl(tail) < tail.len() {
                    assert(tail[first_nl(tail) as int] == '\n');
                    assert(false);
                }
                assert(lines_of(tail) == seq![tail]);
                assert(tail =~= cs@.subrange(p as int, n as int));
            }
            assert(lines_of(tail)[0] == cs@.subrange(p as int, le as int));
        }
        if prefix_matches(&cs, p, le, "event:") {
            proof {
                reveal_strlit("event:");
                assert(cs@.subrange(p as int, le as int).len() >= 6);
            }
            let bounds = trim_bounds(&cs, p + 6, le);
            let name = event_block.substring_char(bounds.0, bounds.1);
            proof {
                reveal_strlit("event:");
                let line = cs@.subrange(p as int, le as int);
                assert(line.skip(6) =~= cs@.subrange(p + 6, le as int));
                assert(find_event_line(lines_of(tail)) == Option::Some(trim_of(line.skip(6))));
            }
            return Option::Some(name);
        }
        proof {
            reveal_strlit("event:");
            assert(find_event_line(lines_of(tail)) == find_event_line(
                lines_of(tail).drop_first(),
            ));
        }
        if j < n {
            p = j + 1;
            proof {
                assert(lines_of(tail).drop_first() =~= lines_of(cs@.skip(p as int)));
            }
        } else {
            p = n;
            proof {
                assert(cs@.skip(n as int) =~= Seq::<char>::empty());
                assert(lines_of(cs@.skip(p as int)) =~= Seq::<Seq<char>>::empty());
                assert(lines_of(tail).drop_first() =~= lines_of(cs@.skip(p as int)));
            }
        }
    }
    proof {
        assert(cs@.skip(n as int) =~= Seq::<char>::empty());
    }
    Option::None
}

} // verus!
