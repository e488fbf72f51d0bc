//! The built-in workflow capabilities: the echo workflow and the
//! meeting-minutes to-do extractor. Each is a pure function from the
//! captured input to a `WorkflowOutput`; the engine stays ignorant of
//! them and callers dispatch by registered name.

use vstd::prelude::*;

use crate::json::{obj1, obj_get, Json, JsonValue};
use crate::outside::{now_ms, uuid_string};
use crate::text::{
    is_ws_char, lemma_first_nl, lemma_first_nl_is, lemma_strip_dots_take, lemma_trim_end_take,
    lemma_trim_start_skip, lines_of, seq_starts_with, strip_dots_end, trim_of,
    ws_char, chomp_cr, first_nl,
};
use crate::types::{Artifact, ArtifactType};
use vstd::string::StrSliceExecFns;

verus! {

/// What a capability hands back on success: the output document and the
/// artifacts to store, in production order.
pub struct WorkflowOutput {
    pub output: JsonValue,
    pub artifacts: Vec<Artifact>,
}

/// The characters of a string slice as a vector.
#[verifier::loop_isolation(false)]
pub fn str_chars(s: &str) -> (v: Vec<char>)
    ensures
        v@ == s@,
{
    let n = s.unicode_len();
    let mut v: Vec<char> = Vec::new();
    let mut i: usize = 0;
    while i < n
        invariant
            n == s@.len(),
            i <= n,
            v@ == s@.subrange(0, i as int),
        decreases n - i,
    {
        let c = s.get_char(i);
        v.push(c);
        i = i + 1;
        proof {
            assert(v@ =~= s@.subrange(0, i as int));
        }
    }
    proof {
        assert(s@.subrange(0, s@.len() as int) =~= s@);
    }
    v
}

/// A fresh artifact identifier: `art_` followed by a drawn identifier.
fn fresh_artifact_id() -> (r: String)
    ensures
        r@.len() == 40,
        r@.subrange(0, 4) == "art_"@,
{
    let tail = uuid_string();
    let mut id = String::from_str("art_");
    id.append(tail.as_str());
    proof {
        reveal_strlit("art_");
        assert(id@.subrange(0, 4) =~= "art_"@);
    }
    id
}

/// A record artifact wrapping a JSON document, as the built-in
/// workflows produce it.
fn record_artifact(name: &str, data: JsonValue) -> (r: Artifact)
    ensures
        r@.artifact_id.len() == 40,
        r@.artifact_id.subrange(0, 4) == "art_"@,
        r@.artifact_type == ArtifactType::Record,
        r@.name == Option::Some(name@),
        r@.mime_type == Option::Some("application/json"@),
        r@.data == Option::Some(data@),
        r@.file is None,
{
    let ts = now_ms();
    Artifact {
        artifact_id: fresh_artifact_id(),
        artifact_type: ArtifactType::Record,
        name: Option::Some(name.to_owned()),
        created_at: ts,
        mime_type: Option::Some(String::from_str("application/json")),
        data: Option::Some(data),
        file: Option::None,
    }
}

/// The workflow that echoes its input.
pub struct EchoWorkflow;

/// The output document of the echo workflow: the input wrapped under the
/// key `echo`.
pub open spec fn echo_output(input: Json) -> Json {
    Json::Obj(seq![("echo"@, input)])
}

impl EchoWorkflow {
    pub fn name(&self) -> (r: String)
        ensures
            r@ == "echo"@,
    {
        String::from_str("echo")
    }

    pub fn version(&self) -> (r: Option<String>)
        ensures
            match r {
                Option::Some(v) => v@ == "0.1.0"@,
                Option::None => false,
            },
    {
        Option::Some(String::from_str("0.1.0"))
    }

    /// Echoes the input: the output wraps it under `echo`, and a single
    /// record artifact named `echo` carries the same document.
    pub fn run(&self, input: &JsonValue) -> (r: WorkflowOutput)
        ensures
            r.output@ == echo_output(input@),
            r.artifacts@.len() == 1,
            ({
                let a = r.artifacts@[0]@;
                &&& a.artifact_type == ArtifactType::Record
                &&& a.name == Option::Some("echo"@)
                &&& a.mime_type == Option::Some("application/json"@)
                &&& a.data == Option::Some(echo_output(input@))
                &&& a.file is None
                &&& a.artifact_id.len() == 40
                &&& a.artifact_id.subrange(0, 4) == "art_"@
            }),
    {
        let payload = obj1("echo", input.duplicate());
        let artifact = record_artifact("echo", payload.duplicate());
        let mut artifacts: Vec<Artifact> = Vec::new();
        artifacts.push(artifact);
        WorkflowOutput { output: payload, artifacts }
    }
}

/// ASCII lowercasing of one character: the uppercase letters map down,
/// everything else stays.
pub open spec fn ascii_lower(c: char) -> char {
    if c == 'A' {
        'a'
    } else if c == 'B' {
        'b'
    } else if c == 'C' {
        'c'
    } else if c == 'D' {
        'd'
    } else if c == 'E' {
        'e'
    } else if c == 'F' {
        'f'
    } else if c == 'G' {
        'g'
    } else if c == 'H' {
        'h'
    } else if c == 'I' {
        'i'
    } else if c == 'J' {
        'j'
    } else if c == 'K' {
        'k'
    } else if c == 'L' {
        'l'
    } else if c == 'M' {
        'm'
    } else if c == 'N' {
        'n'
    } else if c == 'O' {
        'o'
    } else if c == 'P' {
        'p'
    } else if c == 'Q' {
        'q'
    } else if c == 'R' {
        'r'
    } else if c == 'S' {
        's'
    } else if c == 'T' {
        't'
    } else if c == 'U' {
        'u'
    } else if c == 'V' {
        'v'
    } else if c == 'W' {
        'w'
    } else if c == 'X' {
        'x'
    } else if c == 'Y' {
        'y'
    } else if c == 'Z' {
        'z'
    } else {
        c
    }
}

/// ASCII lowercasing, character for character.
pub open spec fn lower_seq(s: Seq<char>) -> Seq<char> {
    Seq::new(s.len(), |i: int| ascii_lower(s[i]))
}

fn ascii_lower_char(c: char) -> (r: char)
    ensures
        r == ascii_lower(c),
{
    match c {
        'A' => 'a',
        'B' => 'b',
        'C' => 'c',
        'D' => 'd',
        'E' => 'e',
        'F' => 'f',
        'G' => 'g',
        'H' => 'h',
        'I' => 'i',
        'J' => 'j',
        'K' => 'k',
        'L' => 'l',
        'M' => 'm',
        'N' => 'n',
        'O' => 'o',
        'P' => 'p',
        'Q' => 'q',
        'R' => 'r',
        'S' => 's',
        'T' => 't',
        'U' => 'u',
        'V' => 'v',
        'W' => 'w',
        'X' => 'x',
        'Y' => 'y',
        'Z' => 'z',
        _ => c,
    }
}

/// The to-do text a line of minutes contributes, if any: after trimming,
/// a line marked `todo:`, `action:` or `action item:` in any case, or a
/// `- ` / `* ` bullet, yields what follows the marker, trimmed and with
/// trailing dots removed — unless that leaves nothing.
pub open spec fn line_action(l: Seq<char>) -> Option<Seq<char>> {
    let t = trim_of(l);
    if t.len() == 0 {
        Option::None
    } else {
        let low = lower_seq(t);
        if seq_starts_with(low, "todo:"@) {
            action_from(t.skip(5))
        } else if seq_starts_with(low, "action:"@) {
            action_from(t.skip(7))
        } else if seq_starts_with(low, "action item:"@) {
            action_from(t.skip(12))
        } else if seq_starts_with(t, "- "@) || seq_starts_with(t, "* "@) {
            action_from(t.skip(2))
        } else {
            Option::None
        }
    }
}

/// The marker's remainder, trimmed, with trailing dots stripped; none
/// when empty.
pub open spec fn action_from(text: Seq<char>) -> Option<Seq<char>> {
    let a = strip_dots_end(trim_of(text));
    if a.len() == 0 {
        Option::None
    } else {
        Option::Some(a)
    }
}

/// The actions contributed by a list of lines, in order.
pub open spec fn actions_of_lines(ls: Seq<Seq<char>>) -> Seq<Seq<char>>
    decreases ls.len(),
{
    if ls.len() == 0 {
        Seq::empty()
    } else {
        (match line_action(ls[0]) {
            Option::Some(a) => seq![a],
            Option::None => Seq::empty(),
        }) + actions_of_lines(ls.drop_first())
    }
}

/// Every to-do action found in a text of meeting minutes.
pub open spec fn extract_todos_actions(s: Seq<char>) -> Seq<Seq<char>> {
    actions_of_lines(lines_of(s))
}

/// Whether the lowercased range matches the pattern as a prefix.
#[verifier::loop_isolation(false)]
fn lower_prefix_matches(cs: &Vec<char>, lo: usize, hi: usize, pat: &str) -> (r: bool)
    requires
        lo <= hi <= cs@.len(),
    ensures
        r == seq_starts_with(lower_seq(cs@.subrange(lo as int, hi as int)), pat@),
{
    let ghost t = cs@.subrange(lo as int, hi as int);
    let plen = pat.unicode_len();
    if hi - lo < plen {
        return false;
    }
    let mut i: usize = 0;
    while i < plen
        invariant
            i <= plen,
            plen <= hi - lo,
            forall|j: int| 0 <= j < i ==> lower_seq(t)[j] == pat@[j],
        decreases plen - i,
    {
        let c = ascii_lower_char(cs[lo + i]);
        let pc = pat.get_char(i);
        if c != pc {
            proof {
                assert(lower_seq(t)[i as int] == ascii_lower(t[i as int]));
                assert(t[i as int] == cs@[lo + i]);
                assert(lower_seq(t)[i as int] != pat@[i as int]);
                if seq_starts_with(lower_seq(t), pat@) {
                    assert(lower_seq(t).subrange(0, pat@.len() as int)[i as int] == pat@[i as int]);
                    assert(false);
                }
            }
            return false;
        }
        proof {
            assert(t[i as int] == cs@[lo + i]);
            assert(lower_seq(t)[i as int] == pat@[i as int]);
        }
        i = i + 1;
    }
    proof {
        assert(lower_seq(t).subrange(0, plen as int) =~= pat@);
    }
    true
}

/// The first newline at or after `from`, or `n` when there is none.
#[verifier::loop_isolation(false)]
pub(crate) fn find_newline(cs: &Vec<char>, from: usize, n: usize) -> (r: usize)
    requires
        from <= n <= cs@.len(),
    ensures
        from <= r <= n,
        forall|i: int| from <= i < r ==> cs@[i] != '\n',
        r < n ==> cs@[r as int] == '\n',
{
    let mut i: usize = from;
    while i < n
        invariant
            from <= i <= n,
            forall|j: int| from <= j < i ==> cs@[j] != '\n',
        decreases n - i,
    {
        if cs[i] == '\n' {
            return i;
        }
        i = i + 1;
    }
    n
}

/// Trim bounds of the range `[lo, hi)`: the subrange they delimit is the
/// trimmed subrange.
#[verifier::loop_isolation(false)]
pub(crate) fn trim_bounds(cs: &Vec<char>, lo: usize, hi: usize) -> (r: (usize, usize))
    requires
        lo <= hi <= cs@.len(),
    ensures
        lo <= r.0 <= r.1 <= hi,
        cs@.subrange(r.0 as int, r.1 as int) == trim_of(cs@.subrange(lo as int, hi as int)),
{
    let ghost l = cs@.subrange(lo as int, hi as int);
    let mut a: usize = lo;
    while a < hi && ws_char(cs[a])
        invariant
            lo <= a <= hi,
            forall|i: int| lo <= i < a ==> is_ws_char(#[trigger] cs@[i]),
        decreases hi - a,
    {
        a = a + 1;
    }
    let mut b: usize = hi;
    while b > a && ws_char(cs[b - 1])
        invariant
            a <= b <= hi,
            forall|i: int| b <= i < hi ==> is_ws_char(#[trigger] cs@[i]),
        decreases b,
    {
        b = b - 1;
    }
    proof {
        assert forall|i: int| 0 <= i < a - lo implies is_ws_char(#[trigger] l[i]) by {
            assert(l[i] == cs@[lo + i]);
        }
        if a < hi {
            assert(l[a - lo] == cs@[a as int]);
        }
        lemma_trim_start_skip(l, a - lo);
        let m = l.skip(a - lo);
        assert forall|i: int| b - a <= i < m.len() implies is_ws_char(#[trigger] m[i]) by {
            assert(m[i] == cs@[a + i]);
        }
        if b > a {
            assert(m[b - a - 1] == cs@[b - 1]);
        }
        lemma_trim_end_take(m, b - a);
        assert(m.take(b - a) =~= cs@.subrange(a as int, b as int));
    }
    (a, b)
}

/// The action bounds the marker's remainder `[lo, hi)` yields: trimmed,
/// trailing dots stripped.
#[verifier::loop_isolation(false)]
fn action_bounds(cs: &Vec<char>, lo: usize, hi: usize) -> (r: Option<(usize, usize)>)
    requires
        lo <= hi <= cs@.len(),
    ensures
        match r {
            Option::Some(bounds) => lo <= bounds.0 <= bounds.1 <= hi && bounds.0 < bounds.1
                && action_from(cs@.subrange(lo as int, hi as int)) == Option::Some(
                cs@.subrange(bounds.0 as int, bounds.1 as int),
            ),
            Option::None => action_from(cs@.subrange(lo as int, hi as int)) is None,
        },
{
    let bounds = trim_bounds(cs, lo, hi);
    let t0 = bounds.0;
    let t1 = bounds.1;
    let ghost trimmed = trim_of(cs@.subrange(lo as int, hi as int));
    let mut b: usize = t1;
    while b > t0 && cs[b - 1] == '.'
        invariant
            t0 <= b <= t1,
            forall|i: int| b <= i < t1 ==> #[trigger] cs@[i] == '.',
        decreases b,
    {
        b = b - 1;
    }
    proof {
        assert forall|i: int| b - t0 <= i < trimmed.len() implies #[trigger] trimmed[i] == '.' by {
            assert(trimmed[i] == cs@[t0 + i]);
        }
        if b > t0 {
            assert(trimmed[b - t0 - 1] == cs@[b - 1]);
        }
        lemma_strip_dots_take(trimmed, b - t0);
        assert(trimmed.take(b - t0) =~= cs@.subrange(t0 as int, b as int));
    }
    if t0 == b {
        Option::None
    } else {
        Option::Some((t0, b))
    }
}

/// The action of the line `[ls, le)`, as bounds into the text.
#[verifier::loop_isolation(false)]
fn line_action_bounds(cs: &Vec<char>, ls: usize, le: usize) -> (r: Option<(usize, usize)>)
    requires
        ls <= le <= cs@.len(),
    ensures
        match r {
            Option::Some(bounds) => bounds.0 <= bounds.1 <= cs@.len() && line_action(
                cs@.subrange(ls as int, le as int),
            ) == Option::Some(cs@.subrange(bounds.0 as int, bounds.1 as int)),
            Option::None => line_action(cs@.subrange(ls as int, le as int)) is None,
        },
{
    let ghost line = cs@.subrange(ls as int, le as int);
    let tb = trim_bounds(cs, ls, le);
    let t0 = tb.0;
    let t1 = tb.1;
    let ghost t = trim_of(line);
    if t0 == t1 {
        return Option::None;
    }
    proof {
        reveal_strlit("todo:");
        reveal_strlit("action:");
        reveal_strlit("action item:");
        assert(t.len() == t1 - t0);
        assert(t.len() > 0);
    }
    if lower_prefix_matches(cs, t0, t1, "todo:") {
        proof {
            assert(t.skip(5) =~= cs@.subrange(t0 + 5, t1 as int));
        }
        action_bounds(cs, t0 + 5, t1)
    } else if lower_prefix_matches(cs, t0, t1, "action:") {
        proof {
            assert(t.skip(7) =~= cs@.subrange(t0 + 7, t1 as int));
        }
        action_bounds(cs, t0 + 7, t1)
    } else if lower_prefix_matches(cs, t0, t1, "action item:") {
        proof {
            assert(t.skip(12) =~= cs@.subrange(t0 + 12, t1 as int));
        }
        action_bounds(cs, t0 + 12, t1)
    } else {
        let bullet = t1 - t0 >= 2 && (cs[t0] == '-' || cs[t0] == '*') && cs[t0 + 1] == ' ';
        proof {
            reveal_strlit("- ");
            reveal_strlit("* ");
            assert(t[0] == cs@[t0 as int]);
            if t.len() >= 2 {
                assert(t[1] == cs@[t0 + 1]);
            }
            if bullet {
                if cs@[t0 as int] == '-' {
                    assert(t.subrange(0, 2) =~= "- "@);
                } else {
                    assert(t.subrange(0, 2) =~= "* "@);
                }
            } else {
                if seq_starts_with(t, "- "@) {
                    assert(t.subrange(0, 2)[0] == '-' && t.subrange(0, 2)[1] == ' ');
                    assert(false);
                }
                if seq_starts_with(t, "* "@) {
                    assert(t.subrange(0, 2)[0] == '*' && t.subrange(0, 2)[1] == ' ');
                    assert(false);
                }
            }
        }
        if bullet {
            proof {
                assert(t.skip(2) =~= cs@.subrange(t0 + 2, t1 as int));
            }
            action_bounds(cs, t0 + 2, t1)
        } else {
            Option::None
        }
    }
}

/// The first `k` actions of `total`.
pub open spec fn actions_prefix(k: int, total: Seq<Seq<char>>) -> Seq<Seq<char>> {
    total.subrange(
        0,
        if 0 <= k <= total.len() {
            k
        } else {
            0
        },
    )
}

/// Processing a line that contributes an action advances the prefix by
/// one.
proof fn lemma_actions_prefix_step(
    k: int,
    total: Seq<Seq<char>>,
    ls: Seq<Seq<char>>,
    a: Seq<char>,
)
    requires
        0 <= k <= total.len(),
        total =~= actions_prefix(k, total) + actions_of_lines(ls),
        ls.len() > 0,
        line_action(ls[0]) == Option::Some(a),
    ensures
        k + 1 <= total.len(),
        total[k] == a,
        total =~= actions_prefix(k + 1, total) + actions_of_lines(ls.drop_first()),
{
    assert(actions_of_lines(ls) == seq![a] + actions_of_lines(ls.drop_first()));
    assert(total.len() == k + 1 + actions_of_lines(ls.drop_first()).len());
    assert(total[k] == (actions_prefix(k, total) + actions_of_lines(ls))[k]);
}

/// Processing a line that contributes nothing leaves the prefix as it
/// is.
proof fn lemma_actions_prefix_skip(k: int, total: Seq<Seq<char>>, ls: Seq<Seq<char>>)
    requires
        0 <= k <= total.len(),
        total =~= actions_prefix(k, total) + actions_of_lines(ls),
        ls.len() > 0,
        line_action(ls[0]) is None,
    ensures
        total =~= actions_prefix(k, total) + actions_of_lines(ls.drop_first()),
{
    assert(actions_of_lines(ls) == actions_of_lines(ls.drop_first()));
}

/// Extracts the to-do items from a text of meeting minutes: one
/// `{"action": ...}` object per marked or bulleted line that leaves a
/// non-empty action after trimming and dropping trailing dots.
#[verifier::loop_isolation(false)]
pub fn extract_todos(minutes: &str) -> (r: Vec<JsonValue>)
    ensures
        ({
            let acts = extract_todos_actions(minutes@);
            &&& r@.len() == acts.len()
            &&& forall|i: int|
                0 <= i < acts.len() ==> (#[trigger] r@[i])@ == Json::Obj(
                    seq![("action"@, Json::Str(acts[i]))],
                )
        }),
{
    let cs = str_chars(minutes);
    let n = cs.len();
    let mut todos: Vec<JsonValue> = Vec::new();
    let ghost total = extract_todos_actions(minutes@);
    let mut p: usize = 0;
    proof {
        assert(cs@.skip(0) =~= cs@);
    }
    while p < n
        invariant
            p <= n,
            n == cs@.len(),
            cs@ == minutes@,
            todos@.len() <= total.len(),
            total =~= actions_prefix(todos@.len() as int, total) + actions_of_lines(
                lines_of(cs@.skip(p as int)),
            ),
            forall|i: int|
                0 <= i < todos@.len() ==> (#[trigger] todos@[i])@ == Json::Obj(
                    seq![("action"@, Json::Str(total[i]))],
                ),
        decreases n - p,
    {
        let j = find_newline(&cs, p, n);
        let ghost tail = cs@.skip(p as int);
        let le: usize = if j < n {
            if j > p && cs[j - 1] == '\r' {
                j - 1
            } else {
                j
            }
        } else {
            j
        };
        proof {
            if j < n {
                assert(tail[j - p] == cs@[j as int]);
                assert forall|i: int| 0 <= i < j - p implies tail[i] != '\n' by {
                    assert(tail[i] == cs@[p + i]);
                }
                lemma_first_nl_is(tail, j - p);
                assert(lines_of(tail) == seq![chomp_cr(tail.subrange(0, j - p))] + lines_of(
                    tail.subrange(j - p + 1, tail.len() as int),
                ));
                assert(tail.subrange(0, j - p) =~= cs@.subrange(p as int, j as int));
                assert(tail.subrange(j - p + 1, tail.len() as int) =~= cs@.skip(j + 1));
                if j > p && cs@[j - 1] == '\r' {
                    assert(cs@.subrange(p as int, j as int).last() == cs@[j - 1]);
                    assert(chomp_cr(cs@.subrange(p as int, j as int)) =~= cs@.subrange(
                        p as int,
                        j - 1,
                    ));
                } else {
                    if j > p {
                        assert(cs@.subrange(p as int, j as int).last() == cs@[j - 1]);
                    }
                    assert(chomp_cr(cs@.subrange(p as int, j as int)) =~= cs@.subrange(
                        p as int,
                        j as int,
                    ));
                }
            } else {
                lemma_first_nl(tail);
                assert forall|i: int| 0 <= i < tail.len() implies tail[i] != '\n' by {
                    assert(tail[i] == cs@[p + i]);
                }
                if first_nl(tail) < tail.len() {
                    assert(tail[first_nl(tail) as int] == '\n');
                    assert(false);
                }
                assert(lines_of(tail) == seq![tail]);
                assert(tail =~= cs@.subrange(p as int, n as int));
            }
            assert(lines_of(tail)[0] == cs@.subrange(p as int, le as int));
        }
        let act = line_action_bounds(&cs, p, le);
        match act {
            Option::Some(bounds) => {
                let text = minutes.substring_char(bounds.0, bounds.1);
                let item = obj1("action", JsonValue::Str(text.to_owned()));
                proof {
                    lemma_actions_prefix_step(
                        todos@.len() as int,
                        total,
                        lines_of(cs@.skip(p as int)),
                        cs@.subrange(bounds.0 as int, bounds.1 as int),
                    );
                }
                todos.push(item);
            },
            Option::None => {
                proof {
                    lemma_actions_prefix_skip(
                        todos@.len() as int,
                        total,
                        lines_of(cs@.skip(p as int)),
                    );
                }
            },
        }
        if j < n {
            p = j + 1;
            proof {
                assert(lines_of(tail).drop_first() =~= lines_of(cs@.skip(p as int)));
            }
        } else {
            p = n;
            proof {
                assert(cs@.skip(n as int) =~= Seq::<char>::empty());
                assert(lines_of(cs@.skip(p as int)) =~= Seq::<Seq<char>>::empty());
                assert(lines_of(tail).drop_first() =~= lines_of(cs@.skip(p as int)));
            }
        }
    }
    proof {
        assert(cs@.skip(n as int) =~= Seq::<char>::empty());
        assert(actions_of_lines(lines_of(Seq::<char>::empty())) =~= Seq::<Seq<char>>::empty());
        assert(total =~= actions_prefix(todos@.len() as int, total));
        assert(todos@.len() == total.len());
    }
    todos
}

/// The minutes text inside a submission input: the string under the key
/// `minutes`, or empty when absent or not a string.
pub open spec fn minutes_of(input: Json) -> Seq<char> {
    match obj_get(input, "minutes"@) {
        Option::Some(m) => match m {
            Json::Str(s) => s,
            _ => Seq::empty(),
        },
        Option::None => Seq::empty(),
    }
}

/// The to-do list as JSON: one `{"action": ...}` object per action.
pub open spec fn todos_json(acts: Seq<Seq<char>>) -> Seq<Json> {
    Seq::new(acts.len(), |i: int| Json::Obj(seq![("action"@, Json::Str(acts[i]))]))
}

/// The output document of the meeting to-do workflow.
pub open spec fn meeting_todo_output(input: Json) -> Json {
    Json::Obj(seq![("todos"@, Json::Arr(todos_json(extract_todos_actions(minutes_of(input)))))])
}

/// The workflow that turns meeting minutes into a to-do list.
pub struct MeetingTodoWorkflow;

impl MeetingTodoWorkflow {
    pub fn name(&self) -> (r: String)
        ensures
            r@ == "meeting-todo"@,
    {
        String::from_str("meeting-todo")
    }

    pub fn version(&self) -> (r: Option<String>)
        ensures
            match r {
                Option::Some(v) => v@ == "0.1.0"@,
                Option::None => false,
            },
    {
        Option::Some(String::from_str("0.1.0"))
    }

    /// Extracts the to-dos from the `minutes` field of the input; the
    /// output carries them under `todos`, and a single record artifact
    /// named `meeting-todo` carries the same document.
    pub fn run(&self, input: &JsonValue) -> (r: WorkflowOutput)
        ensures
            r.output@ == meeting_todo_output(input@),
            r.artifacts@.len() == 1,
            ({
                let a = r.artifacts@[0]@;
                &&& a.artifact_type == ArtifactType::Record
                &&& a.name == Option::Some("meeting-todo"@)
                &&& a.mime_type == Option::Some("application/json"@)
                &&& a.data == Option::Some(meeting_todo_output(input@))
                &&& a.file is None
                &&& a.artifact_id.len() == 40
                &&& a.artifact_id.subrange(0, 4) == "art_"@
            }),
    {
        broadcast use crate::json::lemma_view_json_seq;

        let minutes_string: String = match input.get("minutes") {
            Option::Some(v) => match v.as_str() {
                Option::Some(s) => s.clone(),
                Option::None => String::new(),
            },
            Option::None => String::new(),
        };
        proof {
            assert(minutes_string@ == minutes_of(input@));
        }
        let todo_items = extract_todos(minutes_string.as_str());
        let ghost acts = extract_todos_actions(minutes_of(input@));
        proof {
            assert forall|i: int|
                0 <= i < acts.len() implies crate::json::view_json_seq(todo_items@)[i]
                == todos_json(acts)[i] by {
                assert(crate::json::view_json_seq(todo_items@)[i] == crate::json::view_json(
                    todo_items@[i],
                ));
            }
            assert(crate::json::view_json_seq(todo_items@) =~= todos_json(acts));
        }
        let output = obj1("todos", JsonValue::Arr(todo_items));
        let artifact = record_artifact("meeting-todo", output.duplicate());
        let mut artifacts: Vec<Artifact> = Vec::new();
        artifacts.push(artifact);
        WorkflowOutput { output, artifacts }
    }
}

} // verus!


