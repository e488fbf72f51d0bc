//! Versioned workflow description files: the fields a description names,
//! the paths of the documents beside it, and the semantic version parsed
//! from a release folder's name.

use vstd::prelude::*;

use vstd::string::StrSliceExecFns;

verus! {

/// A semantic version triple, ordered lexicographically.
#[derive(Clone, Copy, Debug, PartialEq, Eq, PartialOrd, Ord, Hash)]
pub struct SemVer(pub u32, pub u32, pub u32);

/// The numeric value of a decimal digit character, or none.
pub open spec fn digit_value(c: char) -> Option<int> {
    if c == '0' {
        Option::Some(0int)
    } else if c == '1' {
        Option::Some(1int)
    } else if c == '2' {
        Option::Some(2int)
    } else if c == '3' {
        Option::Some(3int)
    } else if c == '4' {
        Option::Some(4int)
    } else if c == '5' {
        Option::Some(5int)
    } else if c == '6' {
        Option::Some(6int)
    } else if c == '7' {
        Option::Some(7int)
    } else if c == '8' {
        Option::Some(8int)
    } else if c == '9' {
        Option::Some(9int)
    } else {
        Option::None
    }
}

/// The numeric value of a non-empty all-digit sequence, most significant
/// first; none when a character is no digit, the sequence is empty, or
/// the value overflows a u32.
pub open spec fn parse_u32(s: Seq<char>) -> Option<u32>
    decreases s.len(),
{
    if s.len() == 0 {
        Option::None
    } else if s.len() == 1 {
        match digit_value(s[0]) {
            Option::Some(d) => Option::Some(d as u32),
            Option::None => Option::None,
        }
    } else {
        match (parse_u32(s.drop_last()), digit_value(s.last())) {
            (Option::Some(hi), Option::Some(d)) => if hi as int * 10 + d <= u32::MAX as int {
                Option::Some((hi as int * 10 + d) as u32)
            } else {
                Option::None
            },
            _ => Option::None,
        }
    }
}

/// Index of the first `.`, or the length when there is none.
pub open spec fn first_dot(s: Seq<char>) -> nat
    decreases s.len(),
{
    if s.len() == 0 {
        0
    } else if s[0] == '.' {
        0
    } else {
        1 + first_dot(s.drop_first())
    }
}

pub proof fn lemma_first_dot(s: Seq<char>)
    ensures
        first_dot(s) <= s.len(),
        forall|i: int| 0 <= i < first_dot(s) ==> s[i] != '.',
        first_dot(s) < s.len() ==> s[first_dot(s) as int] == '.',
    decreases s.len(),
{
    if s.len() > 0 && s[0] != '.' {
        lemma_first_dot(s.drop_first());
        assert forall|i: int| 0 <= i < first_dot(s) implies s[i] != '.' by {
            if i > 0 {
                assert(s.drop_first()[i - 1] != '.');
            }
        }
        if first_dot(s) < s.len() {
            assert(s.drop_first()[first_dot(s) - 1] == '.');
        }
    }
}

/// Where the first dot sits, given a witness position.
pub proof fn lemma_first_dot_is(s: Seq<char>, j: int)
    requires
        0 <= j < s.len(),
        s[j] == '.',
        forall|i: int| 0 <= i < j ==> s[i] != '.',
    ensures
        first_dot(s) == j,
    decreases j,
{
    if j > 0 {
        let rest = s.drop_first();
        assert(rest[j - 1] == '.');
        assert forall|i: int| 0 <= i < j - 1 implies rest[i] != '.' by {
            assert(rest[i] == s[i + 1]);
        }
        lemma_first_dot_is(rest, j - 1);
    }
}

/// The dot-separated fields of a version string, split on every `.`.
pub open spec fn dot_fields(s: Seq<char>) -> Seq<Seq<char>>
    decreases s.len(),
{
    let j = first_dot(s) as int;
    if 0 <= j < s.len() {
        seq![s.subrange(0, j)] + dot_fields(s.subrange(j + 1, s.len() as int))
    } else {
        seq![s]
    }
}

/// With no dot, the string is its own single field.
proof fn lemma_dot_fields_none(s: Seq<char>)
    requires
        forall|i: int| 0 <= i < s.len() ==> s[i] != '.',
    ensures
        dot_fields(s) == seq![s],
{
    lemma_first_dot(s);
    if first_dot(s) < s.len() {
        assert(s[first_dot(s) as int] == '.');
        assert(false);
    }
}

/// With a first dot at `p0` and none after it, there are two fields.
proof fn lemma_dot_fields_two(s: Seq<char>, p0: int)
    requires
        0 <= p0 < s.len(),
        s[p0] == '.',
        forall|i: int| 0 <= i < s.len() && i != p0 ==> s[i] != '.',
    ensures
        dot_fields(s).len() == 2,
{
    lemma_first_dot_is(s, p0);
    let rest = s.subrange(p0 + 1, s.len() as int);
    assert forall|i: int| 0 <= i < rest.len() implies rest[i] != '.' by {
        assert(rest[i] == s[p0 + 1 + i]);
    }
    lemma_dot_fields_none(rest);
}

/// With dots at `p0 < p1` and the third field ending at `p2` — the next
/// dot, or the end — the first three fields are the ranges between them.
proof fn lemma_dot_fields_three(s: Seq<char>, p0: int, p1: int, p2: int)
    requires
        0 <= p0 < p1 < p2 <= s.len(),
        p1 < s.len(),
        s[p0] == '.',
        s[p1] == '.',
        p2 < s.len() ==> s[p2] == '.',
        forall|i: int| 0 <= i < p0 ==> s[i] != '.',
        forall|i: int| p0 < i < p1 ==> s[i] != '.',
        forall|i: int| p1 < i < p2 ==> s[i] != '.',
    ensures
        dot_fields(s).len() >= 3,
        dot_fields(s)[0] == s.subrange(0, p0),
        dot_fields(s)[1] == s.subrange(p0 + 1, p1),
        dot_fields(s)[2] == s.subrange(p1 + 1, p2),
{
    lemma_first_dot_is(s, p0);
    let rest = s.subrange(p0 + 1, s.len() as int);
    let q1 = p1 - (p0 + 1);
    assert(rest[q1] == '.');
    assert forall|i: int| 0 <= i < q1 implies rest[i] != '.' by {
        assert(rest[i] == s[p0 + 1 + i]);
    }
    lemma_first_dot_is(rest, q1);
    let rest2 = rest.subrange(q1 + 1, rest.len() as int);
    assert(rest2 =~= s.subrange(p1 + 1, s.len() as int));
    let q2 = p2 - (p1 + 1);
    assert(dot_fields(s) == seq![s.subrange(0, p0)] + dot_fields(rest));
    assert(dot_fields(rest) == seq![rest.subrange(0, q1)] + dot_fields(rest2));
    assert(rest.subrange(0, q1) =~= s.subrange(p0 + 1, p1));
    if p2 == s.len() {
        assert forall|i: int| 0 <= i < rest2.len() implies rest2[i] != '.' by {
            assert(rest2[i] == s[p1 + 1 + i]);
        }
        lemma_dot_fields_none(rest2);
        assert(dot_fields(rest2)[0] == rest2);
        assert(rest2 =~= s.subrange(p1 + 1, p2));
    } else {
        assert(rest2[q2] == s[p2]);
        assert forall|i: int| 0 <= i < q2 implies rest2[i] != '.' by {
            assert(rest2[i] == s[p1 + 1 + i]);
        }
        lemma_first_dot_is(rest2, q2);
        assert(dot_fields(rest2)[0] == rest2.subrange(0, q2));
        assert(rest2.subrange(0, q2) =~= s.subrange(p1 + 1, p2));
    }
    assert(dot_fields(s)[0] == s.subrange(0, p0));
    assert(dot_fields(s)[1] == dot_fields(rest)[0]);
    assert(dot_fields(s)[2] == dot_fields(rest)[1]);
    assert(dot_fields(rest)[1] == dot_fields(rest2)[0]);
}

/// What `SemVer::parse` accepts: a leading `v` is dropped; then the first
/// three dot-separated fields must parse as u32 — fields past the third
/// are ignored, as taking three items off an iterator ignores the rest.
pub open spec fn semver_of(s: Seq<char>) -> Option<SemVer> {
    let body = if s.len() >= 1 && s[0] == 'v' {
        s.subrange(1, s.len() as int)
    } else {
        s
    };
    let fields = dot_fields(body);
    if fields.len() < 3 {
        Option::None
    } else {
        match (parse_u32(fields[0]), parse_u32(fields[1]), parse_u32(fields[2])) {
            (Option::Some(a), Option::Some(b), Option::Some(c)) => Option::Some(SemVer(a, b, c)),
            _ => Option::None,
        }
    }
}

/// Parses one non-empty all-digit character range as a u32, watching for
/// overflow.
#[verifier::loop_isolation(false)]
fn parse_u32_chars(cs: &Vec<char>, lo: usize, hi: usize) -> (r: Option<u32>)
    requires
        lo <= hi <= cs@.len(),
    ensures
        r == parse_u32(cs@.subrange(lo as int, hi as int)),
{
    if lo == hi {
        return Option::None;
    }
    let mut acc: u32 = 0;
    let mut i: usize = lo;
    while i < hi
        invariant
            lo <= i <= hi,
            i > lo ==> parse_u32(cs@.subrange(lo as int, i as int)) == Option::Some(acc),
            i == lo ==> acc == 0,
        decreases hi - i,
    {
        let c = cs[i];
        let d: u32 = match c {
            '0' => 0,
            '1' => 1,
            '2' => 2,
            '3' => 3,
            '4' => 4,
            '5' => 5,
            '6' => 6,
            '7' => 7,
            '8' => 8,
            '9' => 9,
            _ => {
                proof {
                    assert(digit_value(cs@[i as int]) is None);
                    assert(cs@.subrange(lo as int, hi as int)[i - lo] == cs@[i as int]);
                    lemma_parse_u32_bad_digit(cs@.subrange(lo as int, hi as int), i - lo);
                }
                return Option::None;
            },
        };
        proof {
            assert(digit_value(cs@[i as int]) == Option::Some(d as int));
        }
        if acc > (u32::MAX - d) / 10 {
            proof {
                let pre = cs@.subrange(lo as int, i + 1);
                assert(pre.drop_last() =~= cs@.subrange(lo as int, i as int));
                assert(pre.last() == cs@[i as int]);
                if i == lo {
                    assert(parse_u32(pre) is None || parse_u32(pre) == Option::Some(
                        d as u32,
                    ));
                    assert(acc == 0);
                    assert(false);
                }
                assert(acc as int * 10 + d > u32::MAX as int) by (nonlinear_arith)
                    requires
                        acc > vstd::math::sub(u32::MAX as int, d as int) / 10,
                        0 <= d <= 9,
                        acc <= u32::MAX,
                ;
                assert(parse_u32(pre) is None);
                assert(cs@.subrange(lo as int, hi as int).subrange(0, i + 1 - lo) =~= pre);
                lemma_parse_u32_none_extends(cs@.subrange(lo as int, hi as int), i + 1 - lo);
            }
            return Option::None;
        }
        let next = acc * 10 + d;
        proof {
            assert(acc as int * 10 + d <= u32::MAX as int) by (nonlinear_arith)
                requires
                    acc <= vstd::math::sub(u32::MAX as int, d as int) / 10,
                    0 <= d <= 9,
            ;
            let pre = cs@.subrange(lo as int, i + 1);
            assert(pre.drop_last() =~= cs@.subrange(lo as int, i as int));
            assert(pre.last() == cs@[i as int]);
            if i == lo {
                assert(pre.len() == 1);
                assert(pre[0] == cs@[i as int]);
                assert(parse_u32(pre) == Option::Some(d as u32));
            } else {
                assert(parse_u32(pre) == Option::Some((acc as int * 10 + d) as u32));
            }
        }
        acc = next;
        i = i + 1;
    }
    Option::Some(acc)
}

/// A sequence with a non-digit inside does not parse.
proof fn lemma_parse_u32_bad_digit(s: Seq<char>, i: int)
    requires
        0 <= i < s.len(),
        digit_value(s[i]) is None,
    ensures
        parse_u32(s) is None,
    decreases s.len(),
{
    if s.len() > 1 {
        if i < s.len() - 1 {
            lemma_parse_u32_bad_digit(s.drop_last(), i);
        }
    }
}

/// A prefix that does not parse poisons the whole sequence.
proof fn lemma_parse_u32_none_extends(s: Seq<char>, k: int)
    requires
        0 < k <= s.len(),
        parse_u32(s.subrange(0, k)) is None,
    ensures
        parse_u32(s) is None,
    decreases s.len() - k,
{
    if k == s.len() {
        assert(s.subrange(0, k) =~= s);
    } else {
        assert(s.subrange(0, k + 1).drop_last() =~= s.subrange(0, k));
        lemma_parse_u32_none_extends(s, k + 1);
    }
}

impl SemVer {
    /// Parses `major.minor.patch`, with an optional leading `v`; fields
    /// past the third are ignored.
    #[verifier::loop_isolation(false)]
    pub fn parse(text: &str) -> (r: Option<SemVer>)
        ensures
            r == semver_of(text@),
    {
        let cs = crate::workflows::str_chars(text);
        let n = cs.len();
        let start: usize = if n >= 1 && cs[0] == 'v' {
            1
        } else {
            0
        };
        let ghost body: Seq<char> = cs@.subrange(start as int, n as int);
        proof {
            if start == 0 {
                assert(body =~= cs@);
            }
            assert(semver_of(text@) == {
                let fields = dot_fields(body);
                if fields.len() < 3 {
                    Option::<SemVer>::None
                } else {
                    match (parse_u32(fields[0]), parse_u32(fields[1]), parse_u32(fields[2])) {
                        (Option::Some(a), Option::Some(b), Option::Some(c)) => Option::Some(
                            SemVer(a, b, c),
                        ),
                        _ => Option::None,
                    }
                }
            });
        }
        let f0 = Self::field_end(&cs, start, n);
        if f0.1 {
            proof {
                assert forall|i: int| 0 <= i < body.len() implies body[i] != '.' by {
                    assert(body[i] == cs@[start + i]);
                }
                lemma_dot_fields_none(body);
            }
            return Option::None;
        }
        let s1: usize = f0.0 + 1;
        let f1 = Self::field_end(&cs, s1, n);
        if f1.1 {
            proof {
                let p0 = f0.0 - start;
                assert(body[p0] == cs@[f0.0 as int]);
                assert forall|i: int| 0 <= i < body.len() && i != p0 implies body[i] != '.' by {
                    assert(body[i] == cs@[start + i]);
                }
                lemma_dot_fields_two(body, p0);
            }
            return Option::None;
        }
        let s2: usize = f1.0 + 1;
        let f2 = Self::field_end(&cs, s2, n);
        proof {
            let p0 = f0.0 - start;
            let p1 = f1.0 - start;
            let p2 = f2.0 - start;
            assert(body[p0] == cs@[f0.0 as int]);
            assert(body[p1] == cs@[f1.0 as int]);
            if !f2.1 {
                assert(body[p2] == cs@[f2.0 as int]);
            }
            assert forall|i: int| 0 <= i < p0 implies body[i] != '.' by {
                assert(body[i] == cs@[start + i]);
            }
            assert forall|i: int| p0 < i < p1 implies body[i] != '.' by {
                assert(body[i] == cs@[start + i]);
            }
            assert forall|i: int| p1 < i < p2 implies body[i] != '.' by {
                assert(body[i] == cs@[start + i]);
            }
            lemma_dot_fields_three(body, p0, p1, p2);
            assert(dot_fields(body)[0] == body.subrange(0, p0));
            assert(body.subrange(0, p0) =~= cs@.subrange(start as int, f0.0 as int));
            assert(dot_fields(body)[1] == body.subrange(p0 + 1, p1));
            assert(body.subrange(p0 + 1, p1) =~= cs@.subrange(s1 as int, f1.0 as int));
            assert(dot_fields(body)[2] == body.subrange(p1 + 1, p2));
            assert(body.subrange(p1 + 1, p2) =~= cs@.subrange(s2 as int, f2.0 as int));
        }
        let a = parse_u32_chars(&cs, start, f0.0);
        let b = parse_u32_chars(&cs, s1, f1.0);
        let c = parse_u32_chars(&cs, s2, f2.0);
        match (a, b, c) {
            (Option::Some(x), Option::Some(y), Option::Some(z)) => Option::Some(SemVer(x, y, z)),
            _ => Option::None,
        }
    }

    /// The position of the first dot at or after `from`, and whether
    /// there was none before `n`.
    #[verifier::loop_isolation(false)]
    fn field_end(cs: &Vec<char>, from: usize, n: usize) -> (r: (usize, bool))
        requires
            from <= n <= cs@.len(),
        ensures
            from <= r.0 <= n,
            forall|i: int| from <= i < r.0 ==> cs@[i] != '.',
            r.1 ==> r.0 == n,
            !r.1 ==> r.0 < n && cs@[r.0 as int] == '.',
    {
        let mut i: usize = from;
        while i < n
            invariant
                from <= i <= n,
                forall|j: int| from <= j < i ==> cs@[j] != '.',
            decreases n - i,
        {
            if cs[i] == '.' {
                return (i, false);
            }
            i = i + 1;
        }
        (n, true)
    }
}

/// Strict lexicographic order on version triples.
pub open spec fn semver_lt(a: SemVer, b: SemVer) -> bool {
    a.0 < b.0 || (a.0 == b.0 && (a.1 < b.1 || (a.1 == b.1 && a.2 < b.2)))
}

/// Decides the strict lexicographic order.
pub fn semver_less(a: &SemVer, b: &SemVer) -> (r: bool)
    ensures
        r == semver_lt(*a, *b),
{
    a.0 < b.0 || (a.0 == b.0 && (a.1 < b.1 || (a.1 == b.1 && a.2 < b.2)))
}

/// Picks the release to serve from a list of discovered versions, each
/// flagged active or not: the first occurrence of the highest active
/// version, or none when no candidate is active. Walking the release
/// directory and reading each description's status happens outside the
/// verified core; this is the decision it feeds.
#[verifier::loop_isolation(false)]
pub fn latest_active(candidates: &Vec<(SemVer, bool)>) -> (r: Option<usize>)
    ensures
        match r {
            Option::Some(i) => {
                &&& i < candidates@.len()
                &&& candidates@[i as int].1
                &&& forall|j: int|
                    0 <= j < candidates@.len() && (#[trigger] candidates@[j]).1 ==> !semver_lt(
                        candidates@[i as int].0,
                        candidates@[j].0,
                    )
                &&& forall|j: int|
                    0 <= j < i && (#[trigger] candidates@[j]).1 ==> semver_lt(
                        candidates@[j].0,
                        candidates@[i as int].0,
                    )
            },
            Option::None => forall|j: int|
                0 <= j < candidates@.len() ==> !(#[trigger] candidates@[j]).1,
        },
{
    let n = candidates.len();
    let mut best: Option<usize> = Option::None;
    let mut i: usize = 0;
    while i < n
        invariant
            i <= n,
            n == candidates@.len(),
            match best {
                Option::Some(b) => {
                    &&& b < i
                    &&& candidates@[b as int].1
                    &&& forall|j: int|
                        0 <= j < i && (#[trigger] candidates@[j]).1 ==> !semver_lt(
                            candidates@[b as int].0,
                            candidates@[j].0,
                        )
                    &&& forall|j: int|
                        0 <= j < b && (#[trigger] candidates@[j]).1 ==> semver_lt(
                            candidates@[j].0,
                            candidates@[b as int].0,
                        )
                },
                Option::None => forall|j: int| 0 <= j < i ==> !(#[trigger] candidates@[j]).1,
            },
        decreases n - i,
    {
        if candidates[i].1 {
            let replace = match best {
                Option::Some(b) => semver_less(&candidates[b].0, &candidates[i].0),
                Option::None => true,
            };
            if replace {
                best = Option::Some(i);
            }
        }
        i = i + 1;
    }
    best
}

/// A workflow description: identity, schema document names, optional
/// thresholds and rules documents, and the directory the description was
/// loaded from. Paths are slash-joined strings; reading the documents
/// themselves happens outside the verified core.
pub struct WorkflowSpec {
    pub workflow_id: String,
    pub version: String,
    pub input_schema: String,
    pub output_schema: String,
    pub thresholds: Option<String>,
    pub rules: Option<String>,
    pub status: Option<String>,
    pub base_dir: String,
}

/// A relative name joined under a base directory with a single slash.
pub open spec fn joined_path(base: Seq<char>, name: Seq<char>) -> Seq<char> {
    base + "/"@ + name
}

/// Joins a relative name under a base directory.
pub fn join_path(base: &str, name: &str) -> (r: String)
    ensures
        r@ == joined_path(base@, name@),
{
    let mut s = base.to_owned();
    s.append("/");
    s.append(name);
    s
}

impl WorkflowSpec {
    /// Path of the input schema document, beside the description.
    pub fn input_schema_path(&self) -> (r: String)
        ensures
            r@ == joined_path(self.base_dir@, self.input_schema@),
    {
        join_path(self.base_dir.as_str(), self.input_schema.as_str())
    }

    /// Path of the output schema document, beside the description.
    pub fn output_schema_path(&self) -> (r: String)
        ensures
            r@ == joined_path(self.base_dir@, self.output_schema@),
    {
        join_path(self.base_dir.as_str(), self.output_schema.as_str())
    }

    /// Path of the thresholds document, when the description names one.
    pub fn thresholds_path(&self) -> (r: Option<String>)
        ensures
            match r {
                Option::Some(p) => self.thresholds is Some && p@ == joined_path(
                    self.base_dir@,
                    self.thresholds->0@,
                ),
                Option::None => self.thresholds is None,
            },
    {
        match &self.thresholds {
            Option::Some(name) => Option::Some(
                join_path(self.base_dir.as_str(), name.as_str()),
            ),
            Option::None => Option::None,
        }
    }

    /// Path of the rules document, when the description names one.
    pub fn rules_path(&self) -> (r: Option<String>)
        ensures
            match r {
                Option::Some(p) => self.rules is Some && p@ == joined_path(
                    self.base_dir@,
                    self.rules->0@,
                ),
                Option::None => self.rules is None,
            },
    {
        match &self.rules {
            Option::Some(name) => Option::Some(join_path(self.base_dir.as_str(), name.as_str())),
            Option::None => Option::None,
        }
    }
}

} // verus!
