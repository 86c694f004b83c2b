//! Text handling at the wire boundary: checked UTF-8 decoding and the
//! ASCII-case-insensitive comparison used for command and option names.
use vstd::prelude::*;
use vstd::string::StrSliceExecFns;
use vstd::utf8::{decode_utf8, encode_utf8, valid_utf8};

verus! {

/// Decodes `v` as UTF-8 text.
///
/// Relies on std's `String::from_utf8`, which succeeds exactly on valid
/// UTF-8 input and decodes it; `vstd::utf8` defines validity and decoding.
#[verifier::external_body]
pub fn string_from_utf8(v: &Vec<u8>) -> (r: Option<String>)
    ensures
        match r {
            Some(s) => valid_utf8(v@) && s@ == decode_utf8(v@),
            None => !valid_utf8(v@),
        },
{
    match std::str::from_utf8(v.as_slice()) {
        Ok(s) => Some(s.to_string()),
        Err(_) => None,
    }
}

/// `b` with an ASCII upper-case letter folded to lower case.
pub open spec fn lower_byte(b: u8) -> u8 {
    if 65 <= b <= 90 {
        (b + 32) as u8
    } else {
        b
    }
}

/// `s` with every ASCII upper-case letter folded to lower case.
pub open spec fn lower_bytes(s: Seq<u8>) -> Seq<u8> {
    s.map_values(|b: u8| lower_byte(b))
}

/// True when `name` and `lower` are the same text up to ASCII case.
pub open spec fn eq_ignore_ascii_case(name: Seq<char>, lower: Seq<char>) -> bool {
    lower_bytes(encode_utf8(name)) == lower_bytes(encode_utf8(lower))
}

/// Folds every ASCII upper-case letter of `v` to lower case.
pub fn to_lower_bytes(v: &Vec<u8>) -> (r: Vec<u8>)
    ensures
        r@ == lower_bytes(v@),
{
    let mut out: Vec<u8> = Vec::new();
    let mut i: usize = 0;
    while i < v.len()
        invariant
            i <= v@.len(),
            out@ == lower_bytes(v@.subrange(0, i as int)),
        decreases v@.len() - i,
    {
        let b = v[i];
        let low = if b >= 65 && b <= 90 {
            b + 32
        } else {
            b
        };
        out.push(low);
        proof {
            assert(lower_bytes(v@.subrange(0, i + 1)) =~= lower_bytes(
                v@.subrange(0, i as int),
            ).push(lower_byte(v@[i as int])));
        }
        i = i + 1;
    }
    proof {
        assert(v@.subrange(0, v@.len() as int) =~= v@);
    }
    out
}

/// Byte-for-byte equality of two byte strings.
pub fn bytes_eq(a: &Vec<u8>, b: &Vec<u8>) -> (r: bool)
    ensures
        r == (a@ == b@),
{
    if a.len() != b.len() {
        return false;
    }
    let mut i: usize = 0;
    while i < a.len()
        invariant
            a@.len() == b@.len(),
            i <= a@.len(),
            forall|j: int| 0 <= j < i ==> a@[j] == b@[j],
        decreases a@.len() - i,
    {
        if a[i] != b[i] {
            return false;
        }
        i = i + 1;
    }
    proof {
        assert(a@ =~= b@);
    }
    true
}

/// A copy of one string.
pub fn clone_string(s: &String) -> (r: String)
    ensures
        r@ == s@,
{
    s.clone()
}

/// True when two strings hold the same text.
pub fn str_eq(a: &str, b: &str) -> (r: bool)
    ensures
        r == (a@ == b@),
{
    let av = a.as_bytes_vec();
    let bv = b.as_bytes_vec();
    let r = bytes_eq(&av, &bv);
    proof {
        if av@ == bv@ {
            vstd::utf8::encode_utf8_decode_utf8(a@);
            vstd::utf8::encode_utf8_decode_utf8(b@);
        }
    }
    r
}

/// True when the string `name` equals the (all-lower-case) string `lower` up
/// to ASCII case.
pub fn str_eq_ignore_ascii_case(name: &str, lower: &str) -> (r: bool)
    ensures
        r == eq_ignore_ascii_case(name@, lower@),
{
    let nb = name.as_bytes_vec();
    let lb = lower.as_bytes_vec();
    let nl = to_lower_bytes(&nb);
    let ll = to_lower_bytes(&lb);
    bytes_eq(&nl, &ll)
}

} // verus!
