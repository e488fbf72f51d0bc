//! The crate's own JSON document type.
//!
//! Run inputs, outputs, event payloads and schema documents are JSON
//! values. The orchestrator mostly carries them verbatim, but the schema
//! hash needs a deterministic byte encoding, so the type comes with a
//! canonical encoder: object keys are emitted in stored order, strings are
//! escaped the way serde_json escapes them, and numbers are integers.
//! Conversion from and to wire formats lives outside the verified core.

use vstd::prelude::*;

use crate::text::{dec_bytes, append_u64_bytes};
use vstd::utf8::encode_utf8;

verus! {

/// The mathematical model of a JSON document.
pub ghost enum Json {
    Null,
    Bool(bool),
    Int(int),
    Str(Seq<char>),
    Arr(Seq<Json>),
    Obj(Seq<(Seq<char>, Json)>),
}

/// A JSON document, with integer numbers.
#[derive(Debug)]
pub enum JsonValue {
    Null,
    Bool(bool),
    Int(i64),
    Str(String),
    Arr(Vec<JsonValue>),
    Obj(Vec<(String, JsonValue)>),
}

/// The model of a JSON document value.
pub open spec fn view_json(v: JsonValue) -> Json
    decreases v,
{
    match v {
        JsonValue::Null => Json::Null,
        JsonValue::Bool(b) => Json::Bool(b),
        JsonValue::Int(i) => Json::Int(i as int),
        JsonValue::Str(s) => Json::Str(s@),
        JsonValue::Arr(a) => Json::Arr(view_json_seq(a@)),
        JsonValue::Obj(o) => Json::Obj(view_json_entries(o@)),
    }
}

/// The models of a sequence of JSON documents, element for element.
pub open spec fn view_json_seq(s: Seq<JsonValue>) -> Seq<Json>
    decreases s,
{
    if s.len() == 0 {
        Seq::empty()
    } else {
        view_json_seq(s.drop_last()).push(view_json(s.last()))
    }
}

/// The models of a sequence of keyed JSON documents, entry for entry.
pub open spec fn view_json_entries(s: Seq<(String, JsonValue)>) -> Seq<(Seq<char>, Json)>
    decreases s,
{
    if s.len() == 0 {
        Seq::empty()
    } else {
        view_json_entries(s.drop_last()).push((s.last().0@, view_json(s.last().1)))
    }
}

pub broadcast proof fn lemma_view_json_seq(s: Seq<JsonValue>)
    ensures
        (#[trigger] view_json_seq(s)).len() == s.len(),
        forall|i: int| 0 <= i < s.len() ==> view_json_seq(s)[i] == view_json(#[trigger] s[i]),
    decreases s.len(),
{
    if s.len() > 0 {
        lemma_view_json_seq(s.drop_last());
        assert forall|i: int| 0 <= i < s.len() implies view_json_seq(s)[i] == view_json(
            #[trigger] s[i],
        ) by {
            if i < s.len() - 1 {
                assert(view_json_seq(s.drop_last())[i] == view_json(s.drop_last()[i]));
                assert(s.drop_last()[i] == s[i]);
            } else {
                assert(view_json_seq(s)[i] == view_json(s.last()));
            }
        }
    }
}

pub broadcast proof fn lemma_view_json_entries(s: Seq<(String, JsonValue)>)
    ensures
        (#[trigger] view_json_entries(s)).len() == s.len(),
        forall|i: int|
            0 <= i < s.len() ==> view_json_entries(s)[i] == ((#[trigger] s[i]).0@, view_json(
                s[i].1,
            )),
    decreases s.len(),
{
    if s.len() > 0 {
        lemma_view_json_entries(s.drop_last());
        assert forall|i: int| 0 <= i < s.len() implies view_json_entries(s)[i] == ((
        #[trigger] s[i]).0@, view_json(s[i].1)) by {
            if i < s.len() - 1 {
                assert(view_json_entries(s.drop_last())[i] == (s.drop_last()[i].0@, view_json(
                    s.drop_last()[i].1,
                )));
                assert(s.drop_last()[i] == s[i]);
            } else {
                assert(view_json_entries(s)[i] == (s.last().0@, view_json(s.last().1)));
            }
        }
    }
}

impl View for JsonValue {
    type V = Json;

    open spec fn view(&self) -> Json {
        view_json(*self)
    }
}

impl JsonValue {
    /// Deep structural equality, decided in terms of the models.
    #[verifier::loop_isolation(false)]
    pub fn equals(&self, other: &JsonValue) -> (r: bool)
        ensures
            r == (view_json(*self) == view_json(*other)),
        decreases *self,
    {
        broadcast use lemma_view_json_seq, lemma_view_json_entries;

        proof {
            match other {
                JsonValue::Null => assert(other@ is Null),
                JsonValue::Bool(b) => assert(other@ == Json::Bool(*b)),
                JsonValue::Int(i) => assert(other@ == Json::Int(*i as int)),
                JsonValue::Str(s) => assert(other@ == Json::Str(s@)),
                JsonValue::Arr(a) => assert(other@ == Json::Arr(view_json_seq(a@))),
                JsonValue::Obj(o) => assert(other@ == Json::Obj(view_json_entries(o@))),
            }
        }
        match self {
            JsonValue::Null => {
                proof {
                    assert(*self is Null);
                    assert(self@ is Null);
                }
                match other {
                    JsonValue::Null => {
                        proof {
                            assert(other@ is Null);
                            assert(self@ == other@);
                        }
                        true
                    },
                    _ => {
                        proof {
                            assert(!(other@ is Null));
                            assert(self@ != other@);
                        }
                        false
                    },
                }
            },
            JsonValue::Bool(a) => {
                proof {
                    assert(self@ == Json::Bool(*a));
                }
                match other {
                    JsonValue::Bool(b) => *a == *b,
                    _ => false,
                }
            },
            JsonValue::Int(a) => {
                proof {
                    assert(self@ == Json::Int(*a as int));
                }
                match other {
                    JsonValue::Int(b) => *a == *b,
                    _ => false,
                }
            },
            JsonValue::Str(a) => {
                proof {
                    assert(self@ == Json::Str(a@));
                }
                match other {
                    JsonValue::Str(b) => str_eq(a.as_str(), b.as_str()),
                    _ => false,
                }
            },
            JsonValue::Arr(a) => {
                proof {
                    assert(self@ == Json::Arr(view_json_seq(a@)));
                }
                match other {
                    JsonValue::Arr(b) => {
                        if a.len() != b.len() {
                            false
                        } else {
                            let n = a.len();
                            let mut i: usize = 0;
                            let mut same = true;
                            while i < n
                                invariant
                                    n == a@.len(),
                                    a@.len() == b@.len(),
                                    i <= n,
                                    same <==> forall|j: int|
                                        0 <= j < i ==> view_json(#[trigger] a@[j]) == view_json(
                                            b@[j],
                                        ),
                                decreases n - i,
                            {
                                proof {
                                    assert(decreases_to!(*self => (*self)->Arr_0));
                                    assert((*self)->Arr_0 == *a);
                                    assert(decreases_to!(*a => a@));
                                    assert(decreases_to!(a@ => a@[i as int]));
                                }
                                if !a[i].equals(&b[i]) {
                                    same = false;
                                }
                                i = i + 1;
                            }
                            proof {
                                if same {
                                    assert forall|j: int|
                                        0 <= j < a@.len() implies view_json_seq(a@)[j]
                                        == view_json_seq(b@)[j] by {
                                        assert(view_json_seq(a@)[j] == view_json(a@[j]));
                                        assert(view_json_seq(b@)[j] == view_json(b@[j]));
                                    }
                                    assert(view_json_seq(a@) =~= view_json_seq(b@));
                                } else {
                                    let j = choose|j: int|
                                        0 <= j < a@.len() && view_json(#[trigger] a@[j])
                                            != view_json(b@[j]);
                                    assert(view_json_seq(a@)[j] != view_json_seq(b@)[j]);
                                }
                            }
                            same
                        }
                    },
                    _ => false,
                }
            },
            JsonValue::Obj(a) => {
                proof {
                    assert(self@ == Json::Obj(view_json_entries(a@)));
                }
                match other {
                    JsonValue::Obj(b) => {
                        if a.len() != b.len() {
                            false
                        } else {
                            let n = a.len();
                            let mut i: usize = 0;
                            let mut same = true;
                            while i < n
                                invariant
                                    n == a@.len(),
                                    a@.len() == b@.len(),
                                    i <= n,
                                    same <==> forall|j: int|
                                        0 <= j < i ==> (#[trigger] a@[j]).0@ == b@[j].0@
                                            && view_json(a@[j].1) == view_json(b@[j].1),
                                decreases n - i,
                            {
                                proof {
                                    assert(decreases_to!(*self => (*self)->Obj_0));
                                    assert((*self)->Obj_0 == *a);
                                    assert(decreases_to!(*a => a@));
                                    assert(decreases_to!(a@ => a@[i as int]));
                                    assert(decreases_to!(a@[i as int] => a@[i as int].1));
                                }
                                let keys_equal = a[i].0 == b[i].0;
                                if !keys_equal {
                                    same = false;
                                } else if !a[i].1.equals(&b[i].1) {
                                    same = false;
                                }
                                i = i + 1;
                            }
                            proof {
                                if same {
                                    assert forall|j: int|
                                        0 <= j < a@.len() implies view_json_entries(a@)[j]
                                        == view_json_entries(b@)[j] by {
                                        assert(view_json_entries(a@)[j] == (
                                            a@[j].0@,
                                            view_json(a@[j].1),
                                        ));
                                        assert(view_json_entries(b@)[j] == (
                                            b@[j].0@,
                                            view_json(b@[j].1),
                                        ));
                                    }
                                    assert(view_json_entries(a@) =~= view_json_entries(b@));
                                } else {
                                    let j = choose|j: int|
                                        0 <= j < a@.len() && !((#[trigger] a@[j]).0@ == b@[j].0@
                                            && view_json(a@[j].1) == view_json(b@[j].1));
                                    assert(view_json_entries(a@)[j] != view_json_entries(b@)[j]);
                                }
                            }
                            same
                        }
                    },
                    _ => false,
                }
            },
        }
    }

    /// A fresh deep copy with the same model.
    #[verifier::loop_isolation(false)]
    pub fn duplicate(&self) -> (r: JsonValue)
        ensures
            r@ == self@,
        decreases *self,
    {
        broadcast use lemma_view_json_seq, lemma_view_json_entries;

        match self {
            JsonValue::Null => JsonValue::Null,
            JsonValue::Bool(b) => JsonValue::Bool(*b),
            JsonValue::Int(i) => JsonValue::Int(*i),
            JsonValue::Str(s) => JsonValue::Str(s.clone()),
            JsonValue::Arr(a) => {
                let n = a.len();
                let mut out: Vec<JsonValue> = Vec::new();
                let mut i: usize = 0;
                while i < n
                    invariant
                        n == a@.len(),
                        i <= n,
                        out@.len() == i,
                        forall|j: int| 0 <= j < i ==> (#[trigger] out@[j])@ == a@[j]@,
                    decreases n - i,
                {
                    proof {
                        assert(decreases_to!(*self => (*self)->Arr_0));
                        assert((*self)->Arr_0 == *a);
                        assert(decreases_to!(*a => a@));
                        assert(decreases_to!(a@ => a@[i as int]));
                    }
                    let copied = a[i].duplicate();
                    out.push(copied);
                    i = i + 1;
                }
                proof {
                    assert forall|j: int|
                        0 <= j < n implies view_json_seq(out@)[j] == view_json_seq(a@)[j] by {
                        assert(view_json_seq(out@)[j] == view_json(out@[j]));
                        assert(view_json_seq(a@)[j] == view_json(a@[j]));
                    }
                    assert(view_json_seq(out@) =~= view_json_seq(a@));
                    assert(self@ == Json::Arr(view_json_seq(a@)));
                }
                JsonValue::Arr(out)
            },
            JsonValue::Obj(o) => {
                let n = o.len();
                let mut out: Vec<(String, JsonValue)> = Vec::new();
                let mut i: usize = 0;
                while i < n
                    invariant
                        n == o@.len(),
                        i <= n,
                        out@.len() == i,
                        forall|j: int|
                            0 <= j < i ==> (#[trigger] out@[j]).0@ == o@[j].0@ && out@[j].1@
                                == o@[j].1@,
                    decreases n - i,
                {
                    proof {
                        assert(decreases_to!(*self => (*self)->Obj_0));
                        assert((*self)->Obj_0 == *o);
                        assert(decreases_to!(*o => o@));
                        assert(decreases_to!(o@ => o@[i as int]));
                        assert(decreases_to!(o@[i as int] => o@[i as int].1));
                    }
                    let key = o[i].0.clone();
                    let copied = o[i].1.duplicate();
                    out.push((key, copied));
                    i = i + 1;
                }
                proof {
                    assert forall|j: int|
                        0 <= j < n implies view_json_entries(out@)[j] == view_json_entries(
                        o@,
                    )[j] by {
                        assert(view_json_entries(out@)[j] == (out@[j].0@, view_json(out@[j].1)));
                        assert(view_json_entries(o@)[j] == (o@[j].0@, view_json(o@[j].1)));
                    }
                    assert(view_json_entries(out@) =~= view_json_entries(o@));
                    assert(self@ == Json::Obj(view_json_entries(o@)));
                }
                JsonValue::Obj(out)
            },
        }
    }

    /// Looks a key up in an object: the first entry with that key, in
    /// stored order; `None` on any other variant or when the key is
    /// absent.
    #[verifier::loop_isolation(false)]
    pub fn get<'a>(&'a self, key: &str) -> (r: Option<&'a JsonValue>)
        ensures
            match r {
                Option::Some(v) => obj_get(self@, key@) == Option::Some(v@),
                Option::None => obj_get(self@, key@) is None,
            },
    {
        broadcast use lemma_view_json_entries;

        match self {
            JsonValue::Obj(entries) => {
                let n = entries.len();
                let mut i: usize = 0;
                while i < n
                    invariant
                        n == entries@.len(),
                        i <= n,
                        self@ == Json::Obj(view_json_entries(entries@)),
                        forall|j: int| 0 <= j < i ==> (#[trigger] entries@[j]).0@ != key@,
                    decreases n - i,
                {
                    if str_eq(entries[i].0.as_str(), key) {
                        proof {
                            assert forall|j: int|
                                0 <= j < i implies (#[trigger] obj_entries(self@)[j]).0
                                != key@ by {
                                assert(view_json_entries(entries@)[j] == (
                                    entries@[j].0@,
                                    view_json(entries@[j].1),
                                ));
                            }
                            assert(view_json_entries(entries@)[i as int] == (
                                entries@[i as int].0@,
                                view_json(entries@[i as int].1),
                            ));
                            lemma_obj_get_at(obj_entries(self@), key@, i as int);
                        }
                        return Option::Some(&entries[i].1);
                    }
                    i = i + 1;
                }
                proof {
                    assert forall|j: int|
                        0 <= j < obj_entries(self@).len() implies (
                    #[trigger] obj_entries(self@)[j]).0 != key@ by {
                        assert(view_json_entries(entries@)[j] == (
                            entries@[j].0@,
                            view_json(entries@[j].1),
                        ));
                    }
                    lemma_obj_get_absent(obj_entries(self@), key@);
                }
                Option::None
            },
            _ => {
                proof {
                    assert(!(self@ is Obj));
                }
                Option::None
            },
        }
    }

    /// The string content when this is a string value.
    pub fn as_str<'a>(&'a self) -> (r: Option<&'a String>)
        ensures
            match r {
                Some(s) => self@ == Json::Str(s@),
                None => !(self@ is Str),
            },
    {
        match self {
            JsonValue::Str(s) => Some(s),
            _ => None,
        }
    }
}

/// The entries of an object model; empty for every other variant.
pub open spec fn obj_entries(v: Json) -> Seq<(Seq<char>, Json)> {
    match v {
        Json::Obj(entries) => entries,
        _ => Seq::empty(),
    }
}

/// The value under `key` in the object `v`: the first entry with that
/// key in stored order, or none.
pub open spec fn obj_get(v: Json, key: Seq<char>) -> Option<Json> {
    obj_get_entries(obj_entries(v), key)
}

pub open spec fn obj_get_entries(entries: Seq<(Seq<char>, Json)>, key: Seq<char>) -> Option<Json>
    decreases entries.len(),
{
    if entries.len() == 0 {
        Option::None
    } else if entries[0].0 == key {
        Option::Some(entries[0].1)
    } else {
        obj_get_entries(entries.drop_first(), key)
    }
}

/// When the first match sits at position `i`, that is what the lookup
/// yields.
pub proof fn lemma_obj_get_at(entries: Seq<(Seq<char>, Json)>, key: Seq<char>, i: int)
    requires
        0 <= i < entries.len(),
        entries[i].0 == key,
        forall|j: int| 0 <= j < i ==> (#[trigger] entries[j]).0 != key,
    ensures
        obj_get_entries(entries, key) == Option::Some(entries[i].1),
    decreases i,
{
    if i > 0 {
        let rest = entries.drop_first();
        assert(rest[i - 1] == entries[i]);
        assert forall|j: int| 0 <= j < i - 1 implies (#[trigger] rest[j]).0 != key by {
            assert(rest[j] == entries[j + 1]);
        }
        lemma_obj_get_at(rest, key, i - 1);
    }
}

/// With no entry under the key, the lookup yields nothing.
pub proof fn lemma_obj_get_absent(entries: Seq<(Seq<char>, Json)>, key: Seq<char>)
    requires
        forall|j: int| 0 <= j < entries.len() ==> (#[trigger] entries[j]).0 != key,
    ensures
        obj_get_entries(entries, key) is None,
    decreases entries.len(),
{
    if entries.len() > 0 {
        let rest = entries.drop_first();
        assert forall|j: int| 0 <= j < rest.len() implies (#[trigger] rest[j]).0 != key by {
            assert(rest[j] == entries[j + 1]);
        }
        lemma_obj_get_absent(rest, key);
    }
}

/// Character-for-character comparison of two string slices.
pub fn str_eq(a: &str, b: &str) -> (r: bool)
    ensures
        r == (a@ == b@),
{
    let sa = a.to_owned();
    let sb = b.to_owned();
    sa == sb
}

/// The escaping of one byte of a string's UTF-8 encoding, as serde_json
/// writes it: quote and backslash get a backslash escape, the control
/// bytes get their short escapes or a `\u00XX` form, everything else
/// passes through.
pub open spec fn escape_byte(b: u8) -> Seq<u8> {
    if b == 0x22 {
        seq![0x5c, 0x22]
    } else if b == 0x5c {
        seq![0x5c, 0x5c]
    } else if b == 0x08 {
        seq![0x5c, 0x62]
    } else if b == 0x09 {
        seq![0x5c, 0x74]
    } else if b == 0x0a {
        seq![0x5c, 0x6e]
    } else if b == 0x0c {
        seq![0x5c, 0x66]
    } else if b == 0x0d {
        seq![0x5c, 0x72]
    } else if b < 0x20 {
        seq![0x5c, 0x75, 0x30, 0x30, hex_digit_byte(b as int / 16), hex_digit_byte(b as int % 16)]
    } else {
        seq![b]
    }
}

/// Lowercase hexadecimal digit, as a byte.
pub open spec fn hex_digit_byte(d: int) -> u8 {
    if d < 10 {
        (48 + d) as u8
    } else {
        (87 + d) as u8
    }
}

/// The escaped form of a whole byte sequence.
pub open spec fn escape_bytes(s: Seq<u8>) -> Seq<u8>
    decreases s.len(),
{
    if s.len() == 0 {
        Seq::empty()
    } else {
        escape_bytes(s.drop_last()) + escape_byte(s.last())
    }
}

/// The canonical encoding of a JSON model: integers in decimal, strings
/// escaped as above, arrays and objects with no whitespace, object keys
/// in stored order.
pub open spec fn encode_json(v: Json) -> Seq<u8>
    decreases v,
{
    match v {
        Json::Null => seq![0x6e, 0x75, 0x6c, 0x6c],
        Json::Bool(b) => if b {
            seq![0x74, 0x72, 0x75, 0x65]
        } else {
            seq![0x66, 0x61, 0x6c, 0x73, 0x65]
        },
        Json::Int(i) => if i < 0 {
            seq![0x2d] + dec_bytes((-i) as nat)
        } else {
            dec_bytes(i as nat)
        },
        Json::Str(s) => seq![0x22] + escape_bytes(encode_utf8(s)) + seq![0x22],
        Json::Arr(items) => seq![0x5b] + encode_items(items) + seq![0x5d],
        Json::Obj(entries) => seq![0x7b] + encode_entries(entries) + seq![0x7d],
    }
}

/// Comma-separated encodings of array items.
pub open spec fn encode_items(items: Seq<Json>) -> Seq<u8>
    decreases items,
{
    if items.len() == 0 {
        Seq::empty()
    } else if items.len() == 1 {
        encode_json(items.last())
    } else {
        encode_items(items.drop_last()) + seq![0x2c] + encode_json(items.last())
    }
}

/// Comma-separated `"key":value` encodings of object entries.
pub open spec fn encode_entries(entries: Seq<(Seq<char>, Json)>) -> Seq<u8>
    decreases entries,
{
    if entries.len() == 0 {
        Seq::empty()
    } else if entries.len() == 1 {
        encode_entry(entries.last())
    } else {
        encode_entries(entries.drop_last()) + seq![0x2c] + encode_entry(entries.last())
    }
}

pub open spec fn encode_entry(entry: (Seq<char>, Json)) -> Seq<u8>
    decreases entry,
{
    seq![0x22] + escape_bytes(encode_utf8(entry.0)) + seq![0x22, 0x3a] + encode_json(entry.1)
}

/// Appends the escaped form of `src` to `out`.
#[verifier::loop_isolation(false)]
fn append_escaped(out: &mut Vec<u8>, src: &Vec<u8>)
    ensures
        final(out)@ == old(out)@ + escape_bytes(src@),
{
    let mut i: usize = 0;
    while i < src.len()
        invariant
            i <= src@.len(),
            out@ == old(out)@ + escape_bytes(src@.subrange(0, i as int)),
        decreases src@.len() - i,
    {
        let b = src[i];
        if b == 0x22 {
            out.push(0x5c);
            out.push(0x22);
        } else if b == 0x5c {
            out.push(0x5c);
            out.push(0x5c);
        } else if b == 0x08 {
            out.push(0x5c);
            out.push(0x62);
        } else if b == 0x09 {
            out.push(0x5c);
            out.push(0x74);
        } else if b == 0x0a {
            out.push(0x5c);
            out.push(0x6e);
        } else if b == 0x0c {
            out.push(0x5c);
            out.push(0x66);
        } else if b == 0x0d {
            out.push(0x5c);
            out.push(0x72);
        } else if b < 0x20 {
            out.push(0x5c);
            out.push(0x75);
            out.push(0x30);
            out.push(0x30);
            let hi = b / 16;
            let lo = b % 16;
            out.push(if hi < 10 { 48 + hi } else { 87 + hi });
            out.push(if lo < 10 { 48 + lo } else { 87 + lo });
        } else {
            out.push(b);
        }
        i = i + 1;
        proof {
            let pre = src@.subrange(0, i as int);
            assert(pre.drop_last() =~= src@.subrange(0, i - 1));
            assert(pre.last() == b);
            assert(out@ =~= old(out)@ + escape_bytes(pre));
        }
    }
    proof {
        assert(src@.subrange(0, src@.len() as int) =~= src@);
    }
}

/// Appends `"` escaped-content `"` for the string slice `s`.
fn append_json_string(out: &mut Vec<u8>, s: &str)
    ensures
        final(out)@ == old(out)@ + seq![0x22u8] + escape_bytes(encode_utf8(s@)) + seq![0x22u8],
{
    out.push(0x22);
    let bytes = s.as_bytes_vec();
    append_escaped(out, &bytes);
    out.push(0x22);
    proof {
        assert(out@ =~= old(out)@ + seq![0x22u8] + escape_bytes(encode_utf8(s@)) + seq![0x22u8]);
    }
}

/// Appends the canonical encoding of `v` to `out`.
#[verifier::loop_isolation(false)]
pub fn append_json(out: &mut Vec<u8>, v: &JsonValue)
    ensures
        final(out)@ == old(out)@ + encode_json(v@),
    decreases *v,
{
    broadcast use lemma_view_json_seq, lemma_view_json_entries;

    match v {
        JsonValue::Null => {
            out.push(0x6e);
            out.push(0x75);
            out.push(0x6c);
            out.push(0x6c);
            proof {
                assert(out@ =~= old(out)@ + encode_json(v@));
            }
        },
        JsonValue::Bool(b) => {
            if *b {
                out.push(0x74);
                out.push(0x72);
                out.push(0x75);
                out.push(0x65);
            } else {
                out.push(0x66);
                out.push(0x61);
                out.push(0x6c);
                out.push(0x73);
                out.push(0x65);
            }
            proof {
                assert(out@ =~= old(out)@ + encode_json(v@));
            }
        },
        JsonValue::Int(i) => {
            let n = *i;
            if n < 0 {
                out.push(0x2d);
                let mag: u64 = if n == i64::MIN {
                    9223372036854775808u64
                } else {
                    (-n) as u64
                };
                append_u64_bytes(out, mag);
                proof {
                    assert(out@ =~= old(out)@ + encode_json(v@));
                }
            } else {
                append_u64_bytes(out, n as u64);
                proof {
                    assert(out@ =~= old(out)@ + encode_json(v@));
                }
            }
        },
        JsonValue::Str(s) => {
            append_json_string(out, s.as_str());
            proof {
                assert(out@ =~= old(out)@ + encode_json(v@));
            }
        },
        JsonValue::Arr(items) => {
            let ghost model: Seq<Json> = view_json_seq(items@);
            out.push(0x5b);
            let n = items.len();
            let mut i: usize = 0;
            while i < n
                invariant
                    n == items@.len(),
                    i <= n,
                    v@ == Json::Arr(view_json_seq(items@)),
                    model == view_json_seq(items@),
                    model.len() == n,
                    forall|j: int| 0 <= j < n ==> model[j] == view_json(#[trigger] items@[j]),
                    out@ == old(out)@ + seq![0x5bu8] + encode_items(model.subrange(0, i as int)),
                decreases n - i,
            {
                if i > 0 {
                    out.push(0x2c);
                }
                proof {
                    assert(decreases_to!(*v => (*v)->Arr_0));
                    assert((*v)->Arr_0 == *items);
                    assert(decreases_to!(*items => items@));
                    assert(decreases_to!(items@ => items@[i as int]));
                }
                append_json(out, &items[i]);
                i = i + 1;
                proof {
                    let pre = model.subrange(0, i as int);
                    assert(pre.drop_last() =~= model.subrange(0, i - 1));
                    assert(pre.last() == model[i - 1]);
                    assert(out@ =~= old(out)@ + seq![0x5bu8] + encode_items(pre));
                }
            }
            out.push(0x5d);
            proof {
                assert(model.subrange(0, model.len() as int) =~= model);
                assert(out@ =~= old(out)@ + encode_json(v@));
            }
        },
        JsonValue::Obj(entries) => {
            let ghost model: Seq<(Seq<char>, Json)> = view_json_entries(entries@);
            out.push(0x7b);
            let n = entries.len();
            let mut i: usize = 0;
            while i < n
                invariant
                    n == entries@.len(),
                    i <= n,
                    v@ == Json::Obj(view_json_entries(entries@)),
                    model == view_json_entries(entries@),
                    model.len() == n,
                    forall|j: int|
                        0 <= j < n ==> model[j] == ((#[trigger] entries@[j]).0@, view_json(
                            entries@[j].1,
                        )),
                    out@ == old(out)@ + seq![0x7bu8] + encode_entries(model.subrange(0, i as int)),
                decreases n - i,
            {
                if i > 0 {
                    out.push(0x2c);
                }
                append_json_string(out, entries[i].0.as_str());
                out.push(0x3a);
                proof {
                    assert(decreases_to!(*v => (*v)->Obj_0));
                    assert((*v)->Obj_0 == *entries);
                    assert(decreases_to!(*entries => entries@));
                    assert(decreases_to!(entries@ => entries@[i as int]));
                    assert(decreases_to!(entries@[i as int] => entries@[i as int].1));
                }
                append_json(out, &entries[i].1);
                i = i + 1;
                proof {
                    let pre = model.subrange(0, i as int);
                    assert(pre.drop_last() =~= model.subrange(0, i - 1));
                    assert(pre.last() == model[i - 1]);
                    assert(encode_entry(model[i - 1]) == seq![0x22u8] + escape_bytes(
                        encode_utf8(entries@[i - 1].0@),
                    ) + seq![0x22u8, 0x3au8] + encode_json(entries@[i - 1].1@));
                    assert(out@ =~= old(out)@ + seq![0x7bu8] + encode_entries(pre));
                }
            }
            out.push(0x7d);
            proof {
                assert(model.subrange(0, model.len() as int) =~= model);
                assert(out@ =~= old(out)@ + encode_json(v@));
            }
        },
    }
}

/// An empty JSON object.
pub fn obj0() -> (r: JsonValue)
    ensures
        r@ == Json::Obj(Seq::empty()),
{
    let entries: Vec<(String, JsonValue)> = Vec::new();
    JsonValue::Obj(entries)
}

/// A JSON object of one entry.
pub fn obj1(k: &str, v: JsonValue) -> (r: JsonValue)
    ensures
        r@ == Json::Obj(seq![(k@, v@)]),
{
    broadcast use lemma_view_json_entries;

    let ghost gv = v@;
    let mut entries: Vec<(String, JsonValue)> = Vec::new();
    entries.push((k.to_owned(), v));
    proof {
        assert(view_json_entries(entries@)[0] == (entries@[0].0@, view_json(entries@[0].1)));
        assert(view_json_entries(entries@) =~= seq![(k@, gv)]);
    }
    JsonValue::Obj(entries)
}

/// A JSON object of two entries, in the given order.
pub fn obj2(k1: &str, v1: JsonValue, k2: &str, v2: JsonValue) -> (r: JsonValue)
    ensures
        r@ == Json::Obj(seq![(k1@, v1@), (k2@, v2@)]),
{
    broadcast use lemma_view_json_entries;

    let ghost g1 = v1@;
    let ghost g2 = v2@;
    let mut entries: Vec<(String, JsonValue)> = Vec::new();
    entries.push((k1.to_owned(), v1));
    entries.push((k2.to_owned(), v2));
    proof {
        assert(view_json_entries(entries@)[0] == (entries@[0].0@, view_json(entries@[0].1)));
        assert(view_json_entries(entries@)[1] == (entries@[1].0@, view_json(entries@[1].1)));
        assert(view_json_entries(entries@) =~= seq![(k1@, g1), (k2@, g2)]);
    }
    JsonValue::Obj(entries)
}

/// The canonical encoding of `v` as a fresh byte vector.
pub fn canonical_bytes(v: &JsonValue) -> (r: Vec<u8>)
    ensures
        r@ == encode_json(v@),
{
    let mut out: Vec<u8> = Vec::new();
    append_json(&mut out, v);
    proof {
        assert(out@ =~= encode_json(v@));
    }
    out
}

} // verus!
