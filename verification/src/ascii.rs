//! Bridging ASCII strings and their bytes, both ways, so wallet addresses
//! and hostnames can travel through the byte-level wire format.

use vstd::prelude::*;

verus! {

use vstd::string::StrSliceExecFns;
use vstd::utf8::is_ascii_chars;

/// The bytes of an ASCII character sequence, one byte per character.
pub open spec fn ascii_bytes(s: Seq<char>) -> Seq<u8> {
    Seq::new(s.len(), |i: int| s[i] as u8)
}

/// The characters spelled by a byte sequence, one character per byte.
pub open spec fn bytes_chars(v: Seq<u8>) -> Seq<char> {
    Seq::new(v.len(), |i: int| v[i] as char)
}

/// All bytes below 128.
pub open spec fn is_ascii_bytes(v: Seq<u8>) -> bool {
    forall|i: int| 0 <= i < v.len() ==> v[i] < 128
}

/// Character-to-byte-to-character is the identity on ASCII text.
pub proof fn lemma_ascii_round_trip(s: Seq<char>)
    requires
        is_ascii_chars(s),
    ensures
        bytes_chars(ascii_bytes(s)) == s,
        is_ascii_bytes(ascii_bytes(s)),
{
    assert forall|i: int| 0 <= i < s.len() implies ascii_bytes(s)[i] < 128 && bytes_chars(
        ascii_bytes(s),
    )[i] == s[i] by {
        assert('\0' <= s[i] <= '\u{7f}');
    }
    assert(bytes_chars(ascii_bytes(s)) =~= s);
}

/// The bytes of a concatenation are the concatenated bytes.
pub proof fn lemma_ascii_bytes_concat(x: Seq<char>, y: Seq<char>)
    ensures
        ascii_bytes(x + y) == ascii_bytes(x) + ascii_bytes(y),
{
    assert forall|i: int| 0 <= i < x.len() + y.len() implies #[trigger] ascii_bytes(x + y)[i] == (
    ascii_bytes(x) + ascii_bytes(y))[i] by {
        if i < x.len() {
            assert((x + y)[i] == x[i]);
        } else {
            assert((x + y)[i] == y[i - x.len()]);
        }
    }
    assert(ascii_bytes(x + y) =~= ascii_bytes(x) + ascii_bytes(y));
}

/// Byte-to-character-to-byte is the identity on ASCII bytes.
pub proof fn lemma_ascii_bytes_round_trip(v: Seq<u8>)
    requires
        is_ascii_bytes(v),
    ensures
        ascii_bytes(bytes_chars(v)) == v,
        is_ascii_chars(bytes_chars(v)),
{
    assert forall|i: int| 0 <= i < v.len() implies ascii_bytes(bytes_chars(v))[i] == v[i] && '\0'
        <= bytes_chars(v)[i] <= '\u{7f}' by {}
    assert(ascii_bytes(bytes_chars(v)) =~= v);
}

/// The bytes of `s`, or `None` when `s` is not ASCII.
pub fn str_to_ascii_bytes(s: &str) -> (r: Option<Vec<u8>>)
    ensures
        r matches Some(v) ==> is_ascii_chars(s@) && v@ == ascii_bytes(s@),
        r is None ==> !is_ascii_chars(s@),
{
    if !s.is_ascii() {
        return None;
    }
    let v = s.as_bytes_vec();
    proof {
        broadcast use vstd::string::is_ascii_spec_bytes;

        assert(v@ =~= ascii_bytes(s@));
    }
    Some(v)
}

/// Relies on `String::from_utf8`: a vector of ASCII bytes is valid UTF-8 and
/// decodes to exactly one character per byte.
#[verifier::external_body]
pub fn ascii_bytes_to_string(v: Vec<u8>) -> (s: String)
    requires
        is_ascii_bytes(v@),
    ensures
        s@ == bytes_chars(v@),
{
    String::from_utf8(v).unwrap()
}

/// Are all bytes of `v` below 128?
pub fn check_ascii_bytes(v: &Vec<u8>) -> (r: bool)
    ensures
        r == is_ascii_bytes(v@),
{
    let mut i: usize = 0;
    while i < v.len()
        invariant
            i <= v@.len(),
            forall|j: int| 0 <= j < i ==> v@[j] < 128,
        decreases v@.len() - i,
    {
        if v[i] >= 128 {
            return false;
        }
        i = i + 1;
    }
    true
}

} // verus!
