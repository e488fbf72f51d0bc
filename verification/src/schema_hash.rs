//! The schema fingerprint of a registered workflow.
//!
//! The hash is the SHA-256 digest, in lowercase hex, of the concatenated
//! (name, canonical-bytes) pairs of whichever of the input and output
//! schemas are present, the input schema always first — the names are
//! ordered, so identical schema content yields the identical digest input
//! no matter in which order the schemas were supplied.

use vstd::prelude::*;

use crate::json::{encode_json, append_json, Json, JsonValue};
use crate::outside::{sha256_of, sha256_digest};
use crate::types::view_opt_json;

verus! {

/// Lowercase hexadecimal digit character.
pub open spec fn hex_char(d: int) -> char {
    if d == 0 {
        '0'
    } else if d == 1 {
        '1'
    } else if d == 2 {
        '2'
    } else if d == 3 {
        '3'
    } else if d == 4 {
        '4'
    } else if d == 5 {
        '5'
    } else if d == 6 {
        '6'
    } else if d == 7 {
        '7'
    } else if d == 8 {
        '8'
    } else if d == 9 {
        '9'
    } else if d == 10 {
        'a'
    } else if d == 11 {
        'b'
    } else if d == 12 {
        'c'
    } else if d == 13 {
        'd'
    } else if d == 14 {
        'e'
    } else {
        'f'
    }
}

/// The lowercase hex rendering of a byte sequence, two characters per
/// byte.
pub open spec fn hex_of_bytes(s: Seq<u8>) -> Seq<char>
    decreases s.len(),
{
    if s.len() == 0 {
        Seq::empty()
    } else {
        hex_of_bytes(s.drop_last()) + seq![
            hex_char(s.last() as int / 16),
            hex_char(s.last() as int % 16),
        ]
    }
}

/// The bytes fed to the digest: for each present schema, its fixed name
/// followed by its canonical encoding, input before output.
pub open spec fn schema_digest_input(input: Option<Json>, output: Option<Json>) -> Seq<u8> {
    (match input {
        Option::Some(v) => seq![0x69u8, 0x6e, 0x70, 0x75, 0x74] + encode_json(v),
        Option::None => Seq::empty(),
    }) + (match output {
        Option::Some(v) => seq![0x6fu8, 0x75, 0x74, 0x70, 0x75, 0x74] + encode_json(v),
        Option::None => Seq::empty(),
    })
}

/// The schema fingerprint as a character sequence.
pub open spec fn schema_hash_chars(input: Option<Json>, output: Option<Json>) -> Seq<char> {
    hex_of_bytes(sha256_of(schema_digest_input(input, output)))
}

/// Appends the hex digit character of one value below 16.
fn push_hex_char(s: &mut String, d: u8)
    requires
        d < 16,
    ensures
        final(s)@ == old(s)@ + seq![hex_char(d as int)],
{
    proof {
        reveal_strlit("0");
        reveal_strlit("1");
        reveal_strlit("2");
        reveal_strlit("3");
        reveal_strlit("4");
        reveal_strlit("5");
        reveal_strlit("6");
        reveal_strlit("7");
        reveal_strlit("8");
        reveal_strlit("9");
        reveal_strlit("a");
        reveal_strlit("b");
        reveal_strlit("c");
        reveal_strlit("d");
        reveal_strlit("e");
        reveal_strlit("f");
    }
    if d == 0 {
        s.append("0");
    } else if d == 1 {
        s.append("1");
    } else if d == 2 {
        s.append("2");
    } else if d == 3 {
        s.append("3");
    } else if d == 4 {
        s.append("4");
    } else if d == 5 {
        s.append("5");
    } else if d == 6 {
        s.append("6");
    } else if d == 7 {
        s.append("7");
    } else if d == 8 {
        s.append("8");
    } else if d == 9 {
        s.append("9");
    } else if d == 10 {
        s.append("a");
    } else if d == 11 {
        s.append("b");
    } else if d == 12 {
        s.append("c");
    } else if d == 13 {
        s.append("d");
    } else if d == 14 {
        s.append("e");
    } else {
        s.append("f");
    }
    proof {
        assert(s@ =~= old(s)@ + seq![hex_char(d as int)]);
    }
}

/// The lowercase hex rendering of a byte vector.
#[verifier::loop_isolation(false)]
pub fn bytes_to_hex(bytes: &Vec<u8>) -> (r: String)
    ensures
        r@ == hex_of_bytes(bytes@),
{
    let mut s = String::new();
    let n = bytes.len();
    let mut i: usize = 0;
    while i < n
        invariant
            n == bytes@.len(),
            i <= n,
            s@ == hex_of_bytes(bytes@.subrange(0, i as int)),
        decreases n - i,
    {
        let b = bytes[i];
        push_hex_char(&mut s, b / 16);
        push_hex_char(&mut s, b % 16);
        i = i + 1;
        proof {
            let pre = bytes@.subrange(0, i as int);
            assert(pre.drop_last() =~= bytes@.subrange(0, i - 1));
            assert(pre.last() == b);
            assert(s@ =~= hex_of_bytes(pre));
        }
    }
    proof {
        assert(bytes@.subrange(0, bytes@.len() as int) =~= bytes@);
    }
    s
}

/// Computes the schema fingerprint of the given optional schemas.
pub fn schema_hash(input: &Option<JsonValue>, output: &Option<JsonValue>) -> (r: String)
    ensures
        r@ == schema_hash_chars(view_opt_json(*input), view_opt_json(*output)),
{
    let mut bytes: Vec<u8> = Vec::new();
    match input {
        Option::Some(v) => {
            bytes.push(0x69);
            bytes.push(0x6e);
            bytes.push(0x70);
            bytes.push(0x75);
            bytes.push(0x74);
            append_json(&mut bytes, v);
        },
        Option::None => {},
    }
    match output {
        Option::Some(v) => {
            bytes.push(0x6f);
            bytes.push(0x75);
            bytes.push(0x74);
            bytes.push(0x70);
            bytes.push(0x75);
            bytes.push(0x74);
            append_json(&mut bytes, v);
        },
        Option::None => {},
    }
    proof {
        assert(bytes@ =~= schema_digest_input(view_opt_json(*input), view_opt_json(*output)));
    }
    let digest = sha256_digest(&bytes);
    bytes_to_hex(&digest)
}

} // verus!
