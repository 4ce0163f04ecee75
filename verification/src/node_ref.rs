//! The printable form of a node's identity: its key in base64, then its
//! address and ports, colon-separated. Rendering is pinned exactly to a
//! spec-level character sequence; parsing re-renders what it read and
//! accepts only what round-trips, so whatever it returns provably prints
//! back to the input.

use vstd::prelude::*;

use crate::ascii::{
    ascii_bytes, ascii_bytes_to_string, bytes_chars, is_ascii_bytes, lemma_ascii_bytes_round_trip,
    str_to_ascii_bytes,
};
use crate::cryptde::PublicKey;
use crate::fmt::{
    append_str, dec_chars, digit_val, digits_value, ip_chars, lemma_dec_chars_digits,
    lemma_digits_prefix_le, lemma_digits_value_dec, u64_to_dec,
};
use crate::node_addr::{IpAddress, NodeAddr};

verus! {


/// The base64 alphabet's character for one 6-bit value.
pub open spec fn b64_char(v: int) -> char {
    if v < 26 {
        ((65 + v) as u8) as char
    } else if v < 52 {
        ((97 + (v - 26)) as u8) as char
    } else if v < 62 {
        ((48 + (v - 52)) as u8) as char
    } else if v == 62 {
        43u8 as char
    } else {
        47u8 as char
    }
}

/// Standard base64 with padding, three bytes to four characters.
pub open spec fn b64_chars(b: Seq<u8>) -> Seq<char>
    decreases b.len(),
{
    if b.len() == 0 {
        Seq::empty()
    } else if b.len() == 1 {
        seq![
            b64_char((b[0] >> 2) as int),
            b64_char(((b[0] & 3) << 4) as int),
            '=',
            '=',
        ]
    } else if b.len() == 2 {
        seq![
            b64_char((b[0] >> 2) as int),
            b64_char((((b[0] & 3) << 4) | (b[1] >> 4)) as int),
            b64_char(((b[1] & 15) << 2) as int),
            '=',
        ]
    } else {
        seq![
            b64_char((b[0] >> 2) as int),
            b64_char((((b[0] & 3) << 4) | (b[1] >> 4)) as int),
            b64_char((((b[1] & 15) << 2) | (b[2] >> 6)) as int),
            b64_char((b[2] & 63) as int),
        ] + b64_chars(b.skip(3))
    }
}

fn b64_byte(v: u8) -> (r: u8)
    requires
        v < 64,
    ensures
        r as char == b64_char(v as int),
        r < 128,
{
    if v < 26 {
        65 + v
    } else if v < 52 {
        97 + (v - 26)
    } else if v < 62 {
        48 + (v - 52)
    } else if v == 62 {
        43
    } else {
        47
    }
}

/// Every alphabet character is ASCII, is not a separator the printed
/// reference uses, and round-trips through its byte.
pub proof fn lemma_b64_char_props(v: int)
    requires
        0 <= v < 64,
    ensures
        '\u{0}' <= b64_char(v) <= '\u{7f}',
        b64_char(v) != ':',
        b64_char(v) != '=',
        b64_char(v) as u8 as int == b64_char(v) as int,
{
    if v < 26 {
        assert(b64_char(v) as int == 65 + v);
    } else if v < 52 {
        assert(b64_char(v) as int == 97 + (v - 26));
    } else if v < 62 {
        assert(b64_char(v) as int == 48 + (v - 52));
    } else if v == 62 {
        assert(b64_char(v) as int == 43);
    } else {
        assert(b64_char(v) as int == 47);
    }
}

/// A base64 rendering is ASCII, holds no colon, and comes in fours.
pub proof fn lemma_b64_chars_props(b: Seq<u8>)
    ensures
        vstd::utf8::is_ascii_chars(b64_chars(b)),
        forall|j: int| 0 <= j < b64_chars(b).len() ==> #[trigger] b64_chars(b)[j] != ':',
        b64_chars(b).len() % 4 == 0,
        b.len() > 0 ==> b64_chars(b).len() >= 4,
    decreases b.len(),
{
    let s = b64_chars(b);
    if b.len() == 0 {
    } else if b.len() == 1 {
        let x0 = b[0];
        assert((x0 >> 2) < 64 && ((x0 & 3) << 4) < 64) by (bit_vector);
        lemma_b64_char_props((b[0] >> 2) as int);
        lemma_b64_char_props(((b[0] & 3) << 4) as int);
        assert forall|j: int| 0 <= j < s.len() implies '\u{0}' <= #[trigger] s[j] <= '\u{7f}'
            && s[j] != ':' by {}
    } else if b.len() == 2 {
        let x0 = b[0];
        let x1 = b[1];
        assert((x0 >> 2) < 64 && (((x0 & 3) << 4) | (x1 >> 4)) < 64 && ((x1 & 15) << 2) < 64)
            by (bit_vector);
        lemma_b64_char_props((b[0] >> 2) as int);
        lemma_b64_char_props(((((b[0] & 3) << 4) | (b[1] >> 4))) as int);
        lemma_b64_char_props(((b[1] & 15) << 2) as int);
        assert forall|j: int| 0 <= j < s.len() implies '\u{0}' <= #[trigger] s[j] <= '\u{7f}'
            && s[j] != ':' by {}
    } else {
        let x0 = b[0];
        let x1 = b[1];
        let x2 = b[2];
        assert((x0 >> 2) < 64 && (((x0 & 3) << 4) | (x1 >> 4)) < 64 && (((x1 & 15) << 2) | (x2
            >> 6)) < 64 && (x2 & 63) < 64) by (bit_vector);
        lemma_b64_char_props((b[0] >> 2) as int);
        lemma_b64_char_props(((((b[0] & 3) << 4) | (b[1] >> 4))) as int);
        lemma_b64_char_props(((((b[1] & 15) << 2) | (b[2] >> 6))) as int);
        lemma_b64_char_props((b[2] & 63) as int);
        lemma_b64_chars_props(b.skip(3));
        assert forall|j: int| 0 <= j < s.len() implies '\u{0}' <= #[trigger] s[j] <= '\u{7f}'
            && s[j] != ':' by {
            if j >= 4 {
                assert(s[j] == b64_chars(b.skip(3))[j - 4]);
            }
        }
    }
}

/// Render `data` in base64, as the ASCII bytes of the encoding.

/// Render `data` in base64, as the ASCII bytes of the encoding.
fn b64_encode_bytes(data: &Vec<u8>) -> (r: Vec<u8>)
    ensures
        is_ascii_bytes(r@),
        bytes_chars(r@) == b64_chars(data@),
{
    let mut out: Vec<u8> = Vec::new();
    let mut i: usize = 0;
    proof {
        assert(data@.skip(0) =~= data@);
        assert(bytes_chars(out@) =~= Seq::<char>::empty());
        assert(b64_chars(data@) =~= bytes_chars(out@) + b64_chars(data@.skip(0)));
    }
    while data.len() - i >= 3
        invariant
            i <= data@.len(),
            is_ascii_bytes(out@),
            b64_chars(data@) == bytes_chars(out@) + b64_chars(data@.skip(i as int)),
        decreases data@.len() - i,
    {
        let b0 = data[i];
        let b1 = data[i + 1];
        let b2 = data[i + 2];
        let ghost old_out = out@;
        proof {
            let x0 = b0;
            let x1 = b1;
            let x2 = b2;
            assert((x0 >> 2) < 64 && (((x0 & 3) << 4) | (x1 >> 4)) < 64 && (((x1 & 15) << 2) | (
            x2 >> 6)) < 64 && (x2 & 63) < 64) by (bit_vector);
        }
        out.push(b64_byte(b0 >> 2));
        out.push(b64_byte(((b0 & 3) << 4) | (b1 >> 4)));
        out.push(b64_byte(((b1 & 15) << 2) | (b2 >> 6)));
        out.push(b64_byte(b2 & 63));
        i = i + 3;
        proof {
            let rest = data@.skip(i - 3);
            assert(rest[0] == data@[i - 3]);
            assert(rest[1] == data@[i - 2]);
            assert(rest[2] == data@[i - 1]);
            assert(rest.skip(3) =~= data@.skip(i as int));
            assert(bytes_chars(out@) =~= bytes_chars(old_out) + seq![
                b64_char((data@[i - 3] >> 2) as int),
                b64_char((((data@[i - 3] & 3) << 4) | (data@[i - 2] >> 4)) as int),
                b64_char((((data@[i - 2] & 15) << 2) | (data@[i - 1] >> 6)) as int),
                b64_char((data@[i - 1] & 63) as int),
            ]);
            assert(b64_chars(data@) =~= bytes_chars(out@) + b64_chars(data@.skip(i as int)));
        }
    }
    let rem = data.len() - i;
    if rem == 1 {
        let b0 = data[i];
        let ghost old_out = out@;
        proof {
            let x0 = b0;
            assert((x0 >> 2) < 64 && ((x0 & 3) << 4) < 64) by (bit_vector);
        }
        out.push(b64_byte(b0 >> 2));
        out.push(b64_byte((b0 & 3) << 4));
        out.push(61);
        out.push(61);
        proof {
            let rest = data@.skip(i as int);
            assert(rest.len() == 1);
            assert(rest[0] == data@[i as int]);
            assert(61u8 as char == '=');
            assert(bytes_chars(out@) =~= bytes_chars(old_out) + b64_chars(rest));
            assert(bytes_chars(out@) =~= b64_chars(data@));
        }
    } else if rem == 2 {
        let b0 = data[i];
        let b1 = data[i + 1];
        let ghost old_out = out@;
        proof {
            let x0 = b0;
            let x1 = b1;
            assert((x0 >> 2) < 64 && (((x0 & 3) << 4) | (x1 >> 4)) < 64 && ((x1 & 15) << 2) < 64)
                by (bit_vector);
        }
        out.push(b64_byte(b0 >> 2));
        out.push(b64_byte(((b0 & 3) << 4) | (b1 >> 4)));
        out.push(b64_byte((b1 & 15) << 2));
        out.push(61);
        proof {
            let rest = data@.skip(i as int);
            assert(rest.len() == 2);
            assert(rest[0] == data@[i as int]);
            assert(rest[1] == data@[i + 1]);
            assert(61u8 as char == '=');
            assert(bytes_chars(out@) =~= bytes_chars(old_out) + b64_chars(rest));
            assert(bytes_chars(out@) =~= b64_chars(data@));
        }
    } else {
        proof {
            assert(data@.skip(i as int) =~= Seq::<u8>::empty());
            assert(bytes_chars(out@) + b64_chars(data@.skip(i as int)) =~= bytes_chars(out@));
        }
    }
    out
}

/// Render `data` in base64.
pub fn b64_encode(data: &Vec<u8>) -> (s: String)
    ensures
        s@ == b64_chars(data@),
{
    let bytes = b64_encode_bytes(data);
    let ghost bv = bytes@;
    let s = ascii_bytes_to_string(bytes);
    s
}

fn b64_value(c: u8) -> (r: Option<u8>)
    ensures
        r matches Some(v) ==> v < 64,
        forall|v: u8| v < 64 && c == b64_char(v as int) as u8 ==> r == Some(v),
{
    proof {
        assert forall|v: u8| v < 64 && c == b64_char(v as int) as u8 implies (if 65 <= c && c
            <= 90 {
            c - 65 == v
        } else if 97 <= c && c <= 122 {
            c - 97 + 26 == v
        } else if 48 <= c && c <= 57 {
            c - 48 + 52 == v
        } else if c == 43 {
            v == 62
        } else {
            c == 47 && v == 63
        }) by {
            lemma_b64_char_props(v as int);
        }
    }
    if 65 <= c && c <= 90 {
        Some(c - 65)
    } else if 97 <= c && c <= 122 {
        Some(c - 97 + 26)
    } else if 48 <= c && c <= 57 {
        Some(c - 48 + 52)
    } else if c == 43 {
        Some(62)
    } else if c == 47 {
        Some(63)
    } else {
        None
    }
}

/// How the bytes of a rendering lay out, group by group.
proof fn lemma_b64_wire(b: Seq<u8>)
    requires
        b.len() > 0,
    ensures
        ({
            let w = ascii_bytes(b64_chars(b));
            &&& w.len() % 4 == 0
            &&& w.len() >= 4
            &&& (b.len() == 1 ==> w.len() == 4 && w[0] == b64_char((b[0] >> 2) as int) as u8
                && w[1] == b64_char(((b[0] & 3) << 4) as int) as u8 && w[2] == 61 && w[3] == 61
                && w[0] != 61 && w[1] != 61)
            &&& (b.len() == 2 ==> w.len() == 4 && w[0] == b64_char((b[0] >> 2) as int) as u8
                && w[1] == b64_char((((b[0] & 3) << 4) | (b[1] >> 4)) as int) as u8 && w[2]
                == b64_char(((b[1] & 15) << 2) as int) as u8 && w[3] == 61 && w[0] != 61 && w[1]
                != 61 && w[2] != 61)
            &&& (b.len() >= 3 ==> w[0] == b64_char((b[0] >> 2) as int) as u8 && w[1] == b64_char(
                (((b[0] & 3) << 4) | (b[1] >> 4)) as int,
            ) as u8 && w[2] == b64_char((((b[1] & 15) << 2) | (b[2] >> 6)) as int) as u8 && w[3]
                == b64_char((b[2] & 63) as int) as u8 && w[0] != 61 && w[1] != 61 && w[2] != 61
                && w[3] != 61 && w.skip(4) == ascii_bytes(b64_chars(b.skip(3))))
        }),
{
    lemma_b64_chars_props(b);
    let w = ascii_bytes(b64_chars(b));
    assert(w.len() == b64_chars(b).len());
    if b.len() == 1 {
        let x0 = b[0];
        assert((x0 >> 2) < 64 && ((x0 & 3) << 4) < 64) by (bit_vector);
        lemma_b64_char_props((b[0] >> 2) as int);
        lemma_b64_char_props(((b[0] & 3) << 4) as int);
        assert(w[2] == '=' as u8);
        assert(w[3] == '=' as u8);
    } else if b.len() == 2 {
        let x0 = b[0];
        let x1 = b[1];
        assert((x0 >> 2) < 64 && (((x0 & 3) << 4) | (x1 >> 4)) < 64 && ((x1 & 15) << 2) < 64)
            by (bit_vector);
        lemma_b64_char_props((b[0] >> 2) as int);
        lemma_b64_char_props(((((b[0] & 3) << 4) | (b[1] >> 4))) as int);
        lemma_b64_char_props(((b[1] & 15) << 2) as int);
        assert(w[3] == '=' as u8);
    } else {
        let x0 = b[0];
        let x1 = b[1];
        let x2 = b[2];
        assert((x0 >> 2) < 64 && (((x0 & 3) << 4) | (x1 >> 4)) < 64 && (((x1 & 15) << 2) | (x2
            >> 6)) < 64 && (x2 & 63) < 64) by (bit_vector);
        lemma_b64_char_props((b[0] >> 2) as int);
        lemma_b64_char_props(((((b[0] & 3) << 4) | (b[1] >> 4))) as int);
        lemma_b64_char_props(((((b[1] & 15) << 2) | (b[2] >> 6))) as int);
        lemma_b64_char_props((b[2] & 63) as int);
        let head = seq![
            b64_char((b[0] >> 2) as int),
            b64_char((((b[0] & 3) << 4) | (b[1] >> 4)) as int),
            b64_char((((b[1] & 15) << 2) | (b[2] >> 6)) as int),
            b64_char((b[2] & 63) as int),
        ];
        assert(b64_chars(b) == head + b64_chars(b.skip(3)));
        crate::ascii::lemma_ascii_bytes_concat(head, b64_chars(b.skip(3)));
        assert(w.skip(4) =~= ascii_bytes(b64_chars(b.skip(3))));
        assert(w[0] == (head + b64_chars(b.skip(3)))[0] as u8);
    }
}

/// One decoding step's view of the wire: the next four bytes are the next
/// group's characters.
proof fn lemma_b64_step(bytes: Seq<u8>, i: int, b: Seq<u8>, m: int)
    requires
        0 <= m <= b.len(),
        0 <= i,
        i + 4 <= bytes.len(),
        bytes.subrange(i, bytes.len() as int) == ascii_bytes(
            b64_chars(b.subrange(m, b.len() as int)),
        ),
    ensures
        ({
            let rest = b.subrange(m, b.len() as int);
            let w = ascii_bytes(b64_chars(rest));
            &&& rest.len() > 0
            &&& w.len() >= 4
            &&& bytes[i] == w[0]
            &&& bytes[i + 1] == w[1]
            &&& bytes[i + 2] == w[2]
            &&& bytes[i + 3] == w[3]
        }),
{
    let rest = b.subrange(m, b.len() as int);
    let w = ascii_bytes(b64_chars(rest));
    assert(w.len() == b64_chars(rest).len());
    assert(bytes.subrange(i, bytes.len() as int).len() >= 4);
    if rest.len() == 0 {
        assert(b64_chars(rest).len() == 0);
    }
    lemma_b64_chars_props(rest);
    assert(bytes.subrange(i, bytes.len() as int)[0] == bytes[i]);
    assert(bytes.subrange(i, bytes.len() as int)[1] == bytes[i + 1]);
    assert(bytes.subrange(i, bytes.len() as int)[2] == bytes[i + 2]);
    assert(bytes.subrange(i, bytes.len() as int)[3] == bytes[i + 3]);
}

/// Raw group decoding; whenever the input is exactly a rendering, the
/// rendered bytes come back.
#[verifier::rlimit(100)]
fn b64_decode_raw(bytes: &Vec<u8>) -> (r: Option<Vec<u8>>)
    ensures
        forall|b: Seq<u8>|
            bytes@ == #[trigger] ascii_bytes(b64_chars(b)) ==> (r matches Some(c) && c@ == b),
{
    let mut out: Vec<u8> = Vec::new();
    let mut i: usize = 0;
    if bytes.len() % 4 != 0 {
        proof {
            assert forall|b: Seq<u8>| bytes@ == #[trigger] ascii_bytes(b64_chars(b)) implies false by {
                lemma_b64_chars_props(b);
                assert(ascii_bytes(b64_chars(b)).len() == b64_chars(b).len());
            }
        }
        return None;
    }
    proof {
        assert forall|b: Seq<u8>|
            bytes@ == #[trigger] ascii_bytes(b64_chars(b)) implies out@.len() <= b.len() && out@
            == b.subrange(0, out@.len() as int) && bytes@.subrange(i as int, bytes@.len() as int)
            == ascii_bytes(b64_chars(b.subrange(out@.len() as int, b.len() as int))) by {
            assert(out@ =~= b.subrange(0, 0));
            assert(b.subrange(0, b.len() as int) =~= b);
            assert(bytes@.subrange(0, bytes@.len() as int) =~= bytes@);
        }
    }
    while bytes.len() - i >= 4
        invariant
            i <= bytes@.len(),
            forall|b: Seq<u8>|
                bytes@ == #[trigger] ascii_bytes(b64_chars(b)) ==> out@.len() <= b.len() && out@
                    == b.subrange(0, out@.len() as int) && bytes@.subrange(
                    i as int,
                    bytes@.len() as int,
                ) == ascii_bytes(b64_chars(b.subrange(out@.len() as int, b.len() as int))),
        decreases bytes@.len() - i,
    {
        let ghost old_out = out@;
        let ghost old_i = i as int;
        let c0 = match b64_value(bytes[i]) {
            Some(v) => v,
            None => {
                proof {
                    assert forall|b: Seq<u8>|
                        bytes@ == #[trigger] ascii_bytes(b64_chars(b)) implies false by {
                        lemma_b64_step(bytes@, old_i, b, old_out.len() as int);
                        let rest = b.subrange(old_out.len() as int, b.len() as int);
                        lemma_b64_wire(rest);
                        let x0 = rest[0];
                        assert((x0 >> 2) < 64) by (bit_vector);
                    }
                }
                return None;
            },
        };
        let c1 = match b64_value(bytes[i + 1]) {
            Some(v) => v,
            None => {
                proof {
                    assert forall|b: Seq<u8>|
                        bytes@ == #[trigger] ascii_bytes(b64_chars(b)) implies false by {
                        lemma_b64_step(bytes@, old_i, b, old_out.len() as int);
                        let rest = b.subrange(old_out.len() as int, b.len() as int);
                        lemma_b64_wire(rest);
                        let x0 = rest[0];
                        if rest.len() == 1 {
                            assert(((x0 & 3) << 4) < 64) by (bit_vector);
                        } else {
                            let x1 = rest[1];
                            assert((((x0 & 3) << 4) | (x1 >> 4)) < 64) by (bit_vector);
                        }
                    }
                }
                return None;
            },
        };
        out.push((c0 << 2) | (c1 >> 4));
        if bytes[i + 2] == 61 {
            if bytes[i + 3] != 61 || i + 4 != bytes.len() {
                proof {
                    assert forall|b: Seq<u8>|
                        bytes@ == #[trigger] ascii_bytes(b64_chars(b)) implies false by {
                        lemma_b64_step(bytes@, old_i, b, old_out.len() as int);
                        let rest = b.subrange(old_out.len() as int, b.len() as int);
                        lemma_b64_wire(rest);
                        assert(rest.len() == 1);
                        assert(ascii_bytes(b64_chars(rest)).len() == 4);
                        assert(bytes@.subrange(old_i, bytes@.len() as int).len() == 4);
                    }
                }
                return None;
            }
            proof {
                assert forall|b: Seq<u8>|
                    bytes@ == #[trigger] ascii_bytes(b64_chars(b)) implies out@.len() <= b.len()
                    && out@ == b.subrange(0, out@.len() as int) && bytes@.subrange(
                    old_i + 4,
                    bytes@.len() as int,
                ) == ascii_bytes(b64_chars(b.subrange(out@.len() as int, b.len() as int))) by {
                    lemma_b64_step(bytes@, old_i, b, old_out.len() as int);
                    let rest = b.subrange(old_out.len() as int, b.len() as int);
                    lemma_b64_wire(rest);
                    assert(rest.len() == 1);
                    let x0 = rest[0];
                    assert((x0 >> 2) < 64 && ((x0 & 3) << 4) < 64) by (bit_vector);
                    lemma_b64_char_props((x0 >> 2) as int);
                    lemma_b64_char_props(((x0 & 3) << 4) as int);
                    assert(c0 == x0 >> 2 && c1 == (x0 & 3) << 4);
                    assert(c0 == (x0 >> 2) && c1 == ((x0 & 3) << 4) ==> ((c0 << 2) | (c1 >> 4))
                        == x0) by (bit_vector);
                    assert(rest[0] == b[old_out.len() as int]);
                    assert(out@ =~= b.subrange(0, old_out.len() + 1 as int));
                    assert(b.subrange(out@.len() as int, b.len() as int) =~= Seq::<u8>::empty());
                    assert(bytes@.subrange(old_i + 4, bytes@.len() as int) =~= Seq::<u8>::empty());
                    assert(ascii_bytes(b64_chars(Seq::<u8>::empty())) =~= Seq::<u8>::empty());
                }
            }
        } else {
            let c2 = match b64_value(bytes[i + 2]) {
                Some(v) => v,
                None => {
                    proof {
                        assert forall|b: Seq<u8>|
                            bytes@ == #[trigger] ascii_bytes(b64_chars(b)) implies false by {
                            lemma_b64_step(bytes@, old_i, b, old_out.len() as int);
                            let rest = b.subrange(old_out.len() as int, b.len() as int);
                            lemma_b64_wire(rest);
                            assert(rest.len() != 1);
                            if rest.len() == 2 {
                                let x1 = rest[1];
                                assert(((x1 & 15) << 2) < 64) by (bit_vector);
                            } else {
                                let x1 = rest[1];
                                let x2 = rest[2];
                                assert((((x1 & 15) << 2) | (x2 >> 6)) < 64) by (bit_vector);
                            }
                        }
                    }
                    return None;
                },
            };
            out.push((c1 << 4) | (c2 >> 2));
            if bytes[i + 3] == 61 {
                if i + 4 != bytes.len() {
                    proof {
                        assert forall|b: Seq<u8>|
                            bytes@ == #[trigger] ascii_bytes(b64_chars(b)) implies false by {
                            lemma_b64_step(bytes@, old_i, b, old_out.len() as int);
                            let rest = b.subrange(old_out.len() as int, b.len() as int);
                            lemma_b64_wire(rest);
                            assert(rest.len() == 2);
                            assert(ascii_bytes(b64_chars(rest)).len() == 4);
                            assert(bytes@.subrange(old_i, bytes@.len() as int).len() == 4);
                        }
                    }
                    return None;
                }
                proof {
                    assert forall|b: Seq<u8>|
                        bytes@ == #[trigger] ascii_bytes(b64_chars(b)) implies out@.len()
                        <= b.len() && out@ == b.subrange(0, out@.len() as int) && bytes@.subrange(
                        old_i + 4,
                        bytes@.len() as int,
                    ) == ascii_bytes(b64_chars(b.subrange(out@.len() as int, b.len() as int))) by {
                        lemma_b64_step(bytes@, old_i, b, old_out.len() as int);
                        let rest = b.subrange(old_out.len() as int, b.len() as int);
                        lemma_b64_wire(rest);
                        assert(rest.len() == 2);
                        let x0 = rest[0];
                        let x1 = rest[1];
                        assert((x0 >> 2) < 64 && (((x0 & 3) << 4) | (x1 >> 4)) < 64 && ((x1 & 15)
                            << 2) < 64) by (bit_vector);
                        lemma_b64_char_props((x0 >> 2) as int);
                        lemma_b64_char_props(((((x0 & 3) << 4) | (x1 >> 4))) as int);
                        lemma_b64_char_props(((x1 & 15) << 2) as int);
                        assert(c0 == x0 >> 2 && c1 == (((x0 & 3) << 4) | (x1 >> 4)) && c2 == ((x1
                            & 15) << 2));
                        assert(c0 == (x0 >> 2) && c1 == (((x0 & 3) << 4) | (x1 >> 4)) && c2 == ((
                        x1 & 15) << 2) ==> ((c0 << 2) | (c1 >> 4)) == x0 && ((c1 << 4) | (c2
                            >> 2)) == x1) by (bit_vector);
                        assert(rest[0] == b[old_out.len() as int]);
                        assert(rest[1] == b[old_out.len() + 1 as int]);
                        assert(out@ =~= b.subrange(0, old_out.len() + 2 as int));
                        assert(b.subrange(out@.len() as int, b.len() as int)
                            =~= Seq::<u8>::empty());
                        assert(bytes@.subrange(old_i + 4, bytes@.len() as int)
                            =~= Seq::<u8>::empty());
                        assert(ascii_bytes(b64_chars(Seq::<u8>::empty())) =~= Seq::<u8>::empty());
                    }
                }
            } else {
                let c3 = match b64_value(bytes[i + 3]) {
                    Some(v) => v,
                    None => {
                        proof {
                            assert forall|b: Seq<u8>|
                                bytes@ == #[trigger] ascii_bytes(b64_chars(b)) implies false by {
                                lemma_b64_step(bytes@, old_i, b, old_out.len() as int);
                                let rest = b.subrange(old_out.len() as int, b.len() as int);
                                lemma_b64_wire(rest);
                                assert(rest.len() >= 3);
                                let x2 = rest[2];
                                assert((x2 & 63) < 64) by (bit_vector);
                            }
                        }
                        return None;
                    },
                };
                out.push((c2 << 6) | c3);
                proof {
                    assert forall|b: Seq<u8>|
                        bytes@ == #[trigger] ascii_bytes(b64_chars(b)) implies out@.len()
                        <= b.len() && out@ == b.subrange(0, out@.len() as int) && bytes@.subrange(
                        old_i + 4,
                        bytes@.len() as int,
                    ) == ascii_bytes(b64_chars(b.subrange(out@.len() as int, b.len() as int))) by {
                        lemma_b64_step(bytes@, old_i, b, old_out.len() as int);
                        let rest = b.subrange(old_out.len() as int, b.len() as int);
                        lemma_b64_wire(rest);
                        assert(rest.len() >= 3);
                        let x0 = rest[0];
                        let x1 = rest[1];
                        let x2 = rest[2];
                        assert((x0 >> 2) < 64 && (((x0 & 3) << 4) | (x1 >> 4)) < 64 && (((x1 & 15)
                            << 2) | (x2 >> 6)) < 64 && (x2 & 63) < 64) by (bit_vector);
                        lemma_b64_char_props((x0 >> 2) as int);
                        lemma_b64_char_props(((((x0 & 3) << 4) | (x1 >> 4))) as int);
                        lemma_b64_char_props(((((x1 & 15) << 2) | (x2 >> 6))) as int);
                        lemma_b64_char_props((x2 & 63) as int);
                        assert(c0 == x0 >> 2 && c1 == (((x0 & 3) << 4) | (x1 >> 4)) && c2 == (((x1
                            & 15) << 2) | (x2 >> 6)) && c3 == (x2 & 63));
                        assert(c0 == (x0 >> 2) && c1 == (((x0 & 3) << 4) | (x1 >> 4)) && c2 == (((
                        x1 & 15) << 2) | (x2 >> 6)) && c3 == (x2 & 63) ==> ((c0 << 2) | (c1 >> 4))
                            == x0 && ((c1 << 4) | (c2 >> 2)) == x1 && ((c2 << 6) | c3) == x2)
                            by (bit_vector);
                        assert(rest[0] == b[old_out.len() as int]);
                        assert(rest[1] == b[old_out.len() + 1 as int]);
                        assert(rest[2] == b[old_out.len() + 2 as int]);
                        assert(out@ =~= b.subrange(0, old_out.len() + 3 as int));
                        assert(b.subrange(out@.len() as int, b.len() as int) =~= rest.skip(3));
                        assert(bytes@.subrange(old_i + 4, bytes@.len() as int) =~= ascii_bytes(
                            b64_chars(rest),
                        ).skip(4));
                    }
                }
            }
        }
        i = i + 4;
    }
    proof {
        assert forall|b: Seq<u8>|
            bytes@ == #[trigger] ascii_bytes(b64_chars(b)) implies out@ == b by {
            let rest = b.subrange(out@.len() as int, b.len() as int);
            if rest.len() > 0 {
                lemma_b64_chars_props(rest);
                assert(ascii_bytes(b64_chars(rest)).len() == b64_chars(rest).len());
                assert(bytes@.subrange(i as int, bytes@.len() as int).len() < 4);
            }
            assert(rest.len() == 0);
            assert(out@ =~= b);
        }
    }
    Some(out)
}

/// Read base64 text back to bytes. Exactly the renderings are accepted:
/// whatever comes back provably renders to the given text, and the
/// rendering of any byte string is owed to decode back to it.
pub fn b64_decode(s: &str) -> (r: Option<Vec<u8>>)
    ensures
        r matches Some(b) ==> s@ == b64_chars(b@),
        forall|b: Seq<u8>| s@ == b64_chars(b) ==> (r matches Some(c) && c@ == b),
{
    let in_bytes = match str_to_ascii_bytes(s) {
        Some(b) => b,
        None => {
            proof {
                assert forall|b: Seq<u8>| s@ == b64_chars(b) implies false by {
                    lemma_b64_chars_props(b);
                }
            }
            return None;
        },
    };
    let candidate = match b64_decode_raw(&in_bytes) {
        Some(c) => c,
        None => {
            proof {
                assert forall|b: Seq<u8>| s@ == b64_chars(b) implies false by {}
            }
            return None;
        },
    };
    let re_encoded = b64_encode_bytes(&candidate);
    if crate::bytes_util::bytes_eq(&re_encoded, &in_bytes) {
        proof {
            lemma_ascii_bytes_round_trip(in_bytes@);
        }
        Some(candidate)
    } else {
        proof {
            assert forall|b: Seq<u8>| s@ == b64_chars(b) implies false by {
                lemma_b64_chars_props(b);
                crate::ascii::lemma_ascii_round_trip(b64_chars(b));
                assert(bytes_chars(re_encoded@) == b64_chars(b));
                assert(re_encoded@ =~= in_bytes@);
            }
        }
        None
    }
}

/// The printable reference to a node: key, address, ports.
#[derive(Debug, PartialEq)]
pub struct NodeReference {
    pub public_key: PublicKey,
    pub node_addr: Option<NodeAddr>,
}

impl Clone for NodeReference {
    fn clone(&self) -> (r: Self)
        ensures
            r.public_key@ == self.public_key@,
            crate::gossip::addr_opt_view(r.node_addr) == crate::gossip::addr_opt_view(
                self.node_addr,
            ),
    {
        NodeReference {
            public_key: self.public_key.clone(),
            node_addr: match &self.node_addr {
                Some(a) => Some(a.clone()),
                None => None,
            },
        }
    }
}

/// Ports joined with commas.
pub open spec fn ports_csv(ps: Seq<u16>) -> Seq<char>
    decreases ps.len(),
{
    if ps.len() == 0 {
        Seq::empty()
    } else if ps.len() == 1 {
        dec_chars(ps[0] as nat)
    } else {
        dec_chars(ps[0] as nat) + seq![','] + ports_csv(ps.skip(1))
    }
}

/// Render a comma-separated port list.
pub fn ports_to_csv(ps: &Vec<u16>) -> (s: String)
    ensures
        s@ == ports_csv(ps@),
{
    let mut s = String::new();
    if ps.len() == 0 {
        proof {
            assert(s@ =~= ports_csv(ps@));
        }
        return s;
    }
    let first = u64_to_dec(ps[0] as u64);
    append_str(&mut s, first.as_str());
    let mut i: usize = 1;
    while i < ps.len()
        invariant
            1 <= i <= ps@.len(),
            ps@.len() >= 1,
            ports_csv(ps@) == (if i < ps@.len() {
                s@ + seq![','] + ports_csv(ps@.skip(i as int))
            } else {
                s@
            }),
        decreases ps@.len() - i,
    {
        let comma = ",";
        proof {
            reveal_strlit(",");
            assert(comma@ =~= seq![',']);
        }
        append_str(&mut s, comma);
        let d = u64_to_dec(ps[i] as u64);
        append_str(&mut s, d.as_str());
        i = i + 1;
        proof {
            let rest_prev = ps@.skip(i - 1);
            assert(rest_prev[0] == ps@[i - 1]);
            assert(rest_prev.skip(1) =~= ps@.skip(i as int));
            if i < ps@.len() {
                assert(rest_prev.len() >= 2);
                assert(ports_csv(rest_prev) =~= dec_chars(ps@[i - 1] as nat) + seq![',']
                    + ports_csv(ps@.skip(i as int)));
            } else {
                assert(rest_prev.len() == 1);
                assert(ports_csv(rest_prev) =~= dec_chars(ps@[i - 1] as nat));
            }
        }
    }
    s
}

/// The printed form of a node reference.
pub open spec fn node_ref_chars(key: Seq<u8>, addr: Option<(Seq<u8>, Seq<u16>)>) -> Seq<char> {
    b64_chars(key) + seq![':'] + (match addr {
        Some((ip, ports)) => crate::fmt::ip_chars(ip[0], ip[1], ip[2], ip[3]) + seq![':']
            + ports_csv(ports),
        None => seq![':'],
    })
}

impl NodeReference {
    pub fn new(public_key: PublicKey, ip_addr: IpAddress, ports: Vec<u16>) -> (r: NodeReference)
        ensures
            r.public_key@ == public_key@,
            r.node_addr matches Some(a) && a.ip_addr == ip_addr && a.ports@ == ports@,
    {
        NodeReference { public_key, node_addr: Some(NodeAddr { ip_addr, ports }) }
    }

    /// Render `<key-base64>:<ip-or-empty>:<ports-or-empty>`.
    pub fn to_string(&self) -> (s: String)
        ensures
            s@ == node_ref_chars(self.public_key@, crate::gossip::addr_opt_view(self.node_addr)),
    {
        let mut s = b64_encode(&self.public_key.data);
        let colon = ":";
        proof {
            reveal_strlit(":");
            assert(colon@ =~= seq![':']);
        }
        append_str(&mut s, colon);
        match &self.node_addr {
            Some(a) => {
                let ip = a.ip_addr.to_string();
                append_str(&mut s, ip.as_str());
                append_str(&mut s, colon);
                let ports = ports_to_csv(&a.ports);
                append_str(&mut s, ports.as_str());
                proof {
                    assert(s@ =~= node_ref_chars(
                        self.public_key@,
                        crate::gossip::addr_opt_view(self.node_addr),
                    ));
                }
            },
            None => {
                append_str(&mut s, colon);
                proof {
                    assert(s@ =~= node_ref_chars(
                        self.public_key@,
                        crate::gossip::addr_opt_view(self.node_addr),
                    ));
                }
            },
        }
        s
    }

    /// Parse a printed reference. Exactly the renderings are accepted:
    /// whatever comes back provably prints to the given text, and the
    /// rendering of any reference is owed to parse back to it.
    pub fn from_str(s: &str) -> (r: Option<NodeReference>)
        ensures
            r matches Some(nr) ==> s@ == node_ref_chars(
                nr.public_key@,
                crate::gossip::addr_opt_view(nr.node_addr),
            ),
            forall|key: Seq<u8>, addr: Option<(Seq<u8>, Seq<u16>)>|
                (addr matches Some(a) ==> a.0.len() == 4) && s@ == #[trigger] node_ref_chars(
                    key,
                    addr,
                ) ==> (r matches Some(nr) && nr.public_key@ == key && crate::gossip::addr_opt_view(
                    nr.node_addr,
                ) == addr),
    {
        let candidate = match Self::parse_raw(s) {
            Some(c) => c,
            None => {
                return None;
            },
        };
        let rendered = candidate.to_string();
        let owned: String = s.to_owned();
        if rendered == owned {
            Some(candidate)
        } else {
            proof {
                assert forall|key: Seq<u8>, addr: Option<(Seq<u8>, Seq<u16>)>|
                    (addr matches Some(a) ==> a.0.len() == 4) && s@ == #[trigger] node_ref_chars(
                        key,
                        addr,
                    ) implies false by {}
            }
            None
        }
    }

    /// Split and read the three fields, without judging the result; the
    /// caller re-renders and compares.
    #[verifier::rlimit(100)]
    fn parse_raw(s: &str) -> (r: Option<NodeReference>)
        ensures
            forall|key: Seq<u8>, addr: Option<(Seq<u8>, Seq<u16>)>|
                (addr matches Some(a) ==> a.0.len() == 4) && s@ == #[trigger] node_ref_chars(
                    key,
                    addr,
                ) ==> (r matches Some(nr) && nr.public_key@ == key && crate::gossip::addr_opt_view(
                    nr.node_addr,
                ) == addr),
    {
        let bytes = match str_to_ascii_bytes(s) {
            Some(b) => b,
            None => {
                proof {
                    assert forall|key: Seq<u8>, addr: Option<(Seq<u8>, Seq<u16>)>|
                        (addr matches Some(a) ==> a.0.len() == 4) && s@
                            == #[trigger] node_ref_chars(key, addr) implies false by {
                        lemma_node_ref_layout(s@, key, addr);
                    }
                }
                return None;
            },
        };
        let first_colon = match find_byte(&bytes, 0, bytes.len(), 58) {
            Some(j) => j,
            None => {
                proof {
                    assert forall|key: Seq<u8>, addr: Option<(Seq<u8>, Seq<u16>)>|
                        (addr matches Some(a) ==> a.0.len() == 4) && s@
                            == #[trigger] node_ref_chars(key, addr) implies false by {
                        lemma_node_ref_layout(s@, key, addr);
                    }
                }
                return None;
            },
        };
        proof {
            assert forall|key: Seq<u8>, addr: Option<(Seq<u8>, Seq<u16>)>|
                (addr matches Some(a) ==> a.0.len() == 4) && s@ == #[trigger] node_ref_chars(
                    key,
                    addr,
                ) implies first_colon == ascii_bytes(b64_chars(key)).len() by {
                lemma_node_ref_layout(s@, key, addr);
            }
        }
        let key_part = crate::bytes_util::copy_range(&bytes, 0, first_colon);
        if !crate::ascii::check_ascii_bytes(&key_part) {
            proof {
                assert forall|key: Seq<u8>, addr: Option<(Seq<u8>, Seq<u16>)>|
                    (addr matches Some(a) ==> a.0.len() == 4) && s@ == #[trigger] node_ref_chars(
                        key,
                        addr,
                    ) implies false by {
                    lemma_node_ref_layout(s@, key, addr);
                    lemma_b64_chars_props(key);
                    crate::ascii::lemma_ascii_round_trip(b64_chars(key));
                    assert(key_part@ =~= ascii_bytes(b64_chars(key)));
                }
            }
            return None;
        }
        let key_str = ascii_bytes_to_string(key_part);
        let key_bytes = match b64_decode(key_str.as_str()) {
            Some(b) => b,
            None => {
                proof {
                    assert forall|key: Seq<u8>, addr: Option<(Seq<u8>, Seq<u16>)>|
                        (addr matches Some(a) ==> a.0.len() == 4) && s@
                            == #[trigger] node_ref_chars(key, addr) implies false by {
                        lemma_node_ref_layout(s@, key, addr);
                        lemma_b64_chars_props(key);
                        crate::ascii::lemma_ascii_round_trip(b64_chars(key));
                        assert(key_str@ == bytes_chars(ascii_bytes(b64_chars(key))));
                    }
                }
                return None;
            },
        };
        let ip_start = first_colon + 1;
        let second_colon = match find_byte(&bytes, ip_start, bytes.len(), 58) {
            Some(j) => j,
            None => {
                proof {
                    assert forall|key: Seq<u8>, addr: Option<(Seq<u8>, Seq<u16>)>|
                        (addr matches Some(a) ==> a.0.len() == 4) && s@
                            == #[trigger] node_ref_chars(key, addr) implies false by {
                        lemma_node_ref_layout(s@, key, addr);
                    }
                }
                return None;
            },
        };
        let ports_start = second_colon + 1;
        proof {
            assert forall|key: Seq<u8>, addr: Option<(Seq<u8>, Seq<u16>)>|
                (addr matches Some(a) ==> a.0.len() == 4) && s@ == #[trigger] node_ref_chars(
                    key,
                    addr,
                ) implies (match addr {
                Some(a) => second_colon == first_colon + 1 + ascii_bytes(
                    ip_chars(a.0[0], a.0[1], a.0[2], a.0[3]),
                ).len(),
                None => second_colon == first_colon + 1,
            }) by {
                lemma_node_ref_layout(s@, key, addr);
            }
        }
        if ip_start == second_colon && ports_start == bytes.len() {
            let nr = NodeReference { public_key: PublicKey { data: key_bytes }, node_addr: None };
            proof {
                assert forall|key: Seq<u8>, addr: Option<(Seq<u8>, Seq<u16>)>|
                    (addr matches Some(a) ==> a.0.len() == 4) && s@ == #[trigger] node_ref_chars(
                        key,
                        addr,
                    ) implies nr.public_key@ == key && crate::gossip::addr_opt_view(nr.node_addr)
                    == addr by {
                    lemma_node_ref_layout(s@, key, addr);
                    let kb = ascii_bytes(b64_chars(key));
                    let w = ascii_bytes(s@);
                    assert(bytes@ == w);
                    assert(first_colon == kb.len());
                    assert(key_part@ =~= kb);
                    lemma_b64_chars_props(key);
                    crate::ascii::lemma_ascii_round_trip(b64_chars(key));
                    assert(key_str@ == b64_chars(key));
                    assert(key_bytes@ == key);
                    if addr is Some {
                        let a = addr->Some_0;
                        let ib = ascii_bytes(ip_chars(a.0[0], a.0[1], a.0[2], a.0[3]));
                        assert(w[kb.len() + 1 + ib.len() as int] == 58);
                        assert(second_colon == kb.len() + 1 + ib.len());
                        assert(ip_start != second_colon);
                    }
                }
            }
            return Some(nr);
        }
        let ip = match parse_ip_bytes(&bytes, ip_start, second_colon) {
            Some(ip) => ip,
            None => {
                proof {
                    assert forall|key: Seq<u8>, addr: Option<(Seq<u8>, Seq<u16>)>|
                        (addr matches Some(a) ==> a.0.len() == 4) && s@
                            == #[trigger] node_ref_chars(key, addr) implies false by {
                        lemma_node_ref_layout(s@, key, addr);
                    }
                }
                return None;
            },
        };
        let ports = match parse_ports_bytes(&bytes, ports_start, bytes.len()) {
            Some(ps) => ps,
            None => {
                proof {
                    assert forall|key: Seq<u8>, addr: Option<(Seq<u8>, Seq<u16>)>|
                        (addr matches Some(a) ==> a.0.len() == 4) && s@
                            == #[trigger] node_ref_chars(key, addr) implies false by {
                        lemma_node_ref_layout(s@, key, addr);
                    }
                }
                return None;
            },
        };
        let nr = NodeReference {
            public_key: PublicKey { data: key_bytes },
            node_addr: Some(NodeAddr { ip_addr: ip, ports }),
        };
        proof {
            assert forall|key: Seq<u8>, addr: Option<(Seq<u8>, Seq<u16>)>|
                (addr matches Some(a) ==> a.0.len() == 4) && s@ == #[trigger] node_ref_chars(
                    key,
                    addr,
                ) implies nr.public_key@ == key && crate::gossip::addr_opt_view(nr.node_addr)
                == addr by {
                lemma_node_ref_layout(s@, key, addr);
                let kb = ascii_bytes(b64_chars(key));
                let w = ascii_bytes(s@);
                assert(bytes@ == w);
                assert(first_colon == kb.len());
                assert(key_part@ =~= kb);
                lemma_b64_chars_props(key);
                crate::ascii::lemma_ascii_round_trip(b64_chars(key));
                assert(key_str@ == b64_chars(key));
                assert(key_bytes@ == key);
                if addr is None {
                    assert(w.len() == kb.len() + 2);
                    assert(second_colon == kb.len() + 1);
                    assert(ip_start == second_colon && ports_start == bytes@.len());
                } else {
                    let a = addr->Some_0;
                    let ib = ascii_bytes(ip_chars(a.0[0], a.0[1], a.0[2], a.0[3]));
                    let pb = ascii_bytes(ports_csv(a.1));
                    assert(w[kb.len() + 1 + ib.len() as int] == 58);
                    assert(second_colon == kb.len() + 1 + ib.len());
                    assert(bytes@.subrange(ip_start as int, second_colon as int) =~= ib);
                    assert(ip.o0 == a.0[0] && ip.o1 == a.0[1] && ip.o2 == a.0[2] && ip.o3
                        == a.0[3]);
                    assert(bytes@.subrange(ports_start as int, bytes@.len() as int) =~= pb);
                    assert(ports@ == a.1);
                    assert(nr.node_addr matches Some(na) && na.ip_addr@ =~= a.0);
                }
            }
        }
        Some(nr)
    }
}

/// How a printed reference lays out: the base64 key, a colon, then either
/// the address fields or a bare colon.
#[verifier::rlimit(100)]
proof fn lemma_node_ref_layout(s: Seq<char>, key: Seq<u8>, addr: Option<(Seq<u8>, Seq<u16>)>)
    requires
        s == node_ref_chars(key, addr),
        addr matches Some(a) ==> a.0.len() == 4,
    ensures
        ({
            let kb = ascii_bytes(b64_chars(key));
            let w = ascii_bytes(s);
            &&& vstd::utf8::is_ascii_chars(s)
            &&& w.len() == s.len()
            &&& w.subrange(0, kb.len() as int) == kb
            &&& kb.len() < w.len()
            &&& w[kb.len() as int] == 58
            &&& (forall|q: int| 0 <= q < kb.len() ==> w[q] != 58)
            &&& (addr is None ==> w.len() == kb.len() + 2 && w[kb.len() + 1 as int] == 58)
            &&& (addr matches Some(a) ==> ({
                let ib = ascii_bytes(ip_chars(a.0[0], a.0[1], a.0[2], a.0[3]));
                let pb = ascii_bytes(ports_csv(a.1));
                &&& ib.len() >= 1
                &&& w.len() == kb.len() + 1 + ib.len() + 1 + pb.len()
                &&& w.subrange(kb.len() + 1 as int, kb.len() + 1 + ib.len() as int) == ib
                &&& (forall|q: int| kb.len() + 1 <= q < kb.len() + 1 + ib.len() ==> w[q] != 58)
                &&& w[kb.len() + 1 + ib.len() as int] == 58
                &&& w.subrange(kb.len() + 1 + ib.len() + 1 as int, w.len() as int) == pb
            }))
        }),
{
    let kc = b64_chars(key);
    let kb = ascii_bytes(kc);
    let col = seq![':'];
    lemma_b64_chars_props(key);
    let w = ascii_bytes(s);
    assert(w.len() == s.len());
    match addr {
        None => {
            assert(s == kc + col + col);
            crate::ascii::lemma_ascii_bytes_concat(kc, col);
            crate::ascii::lemma_ascii_bytes_concat(kc + col, col);
            assert(ascii_bytes(col) =~= seq![58u8]);
            assert(w == kb + seq![58u8] + seq![58u8]);
            assert forall|j: int| 0 <= j < s.len() implies '\u{0}' <= #[trigger] s[j]
                <= '\u{7f}' by {
                if j < kc.len() {
                    assert(s[j] == kc[j]);
                } else {
                    assert(s[j] == ':');
                }
            }
            assert(w.subrange(0, kb.len() as int) =~= kb);
            assert forall|q: int| 0 <= q < kb.len() implies #[trigger] w[q] != 58 by {
                assert(w[q] == kb[q]);
                assert(kb[q] == kc[q] as u8);
                assert(kc[q] != ':');
                assert('\u{0}' <= kc[q] <= '\u{7f}');
            }
        },
        Some(a) => {
            let ic = ip_chars(a.0[0], a.0[1], a.0[2], a.0[3]);
            let pc = ports_csv(a.1);
            let ib = ascii_bytes(ic);
            let pb = ascii_bytes(pc);
            assert(s == kc + col + (ic + col + pc));
            crate::ascii::lemma_ascii_bytes_concat(kc, col);
            crate::ascii::lemma_ascii_bytes_concat(ic, col);
            crate::ascii::lemma_ascii_bytes_concat(ic + col, pc);
            crate::ascii::lemma_ascii_bytes_concat(kc + col, ic + col + pc);
            assert(ascii_bytes(col) =~= seq![58u8]);
            assert(w == (kb + seq![58u8]) + (ib + seq![58u8] + pb));
            lemma_dec_chars_digits(a.0[0] as nat);
            lemma_dec_chars_digits(a.0[1] as nat);
            lemma_dec_chars_digits(a.0[2] as nat);
            lemma_dec_chars_digits(a.0[3] as nat);
            lemma_ports_chars_ascii(a.1);
            assert forall|j: int| 0 <= j < ic.len() implies ('\u{0}' <= #[trigger] ic[j]
                <= '\u{7f}') && ic[j] != ':' by {
                lemma_ip_chars_ascii(a.0[0], a.0[1], a.0[2], a.0[3], j);
            }
            assert forall|j: int| 0 <= j < s.len() implies '\u{0}' <= #[trigger] s[j]
                <= '\u{7f}' by {
                if j < kc.len() {
                    assert(s[j] == kc[j]);
                } else if j == kc.len() {
                    assert(s[j] == ':');
                } else if j < kc.len() + 1 + ic.len() {
                    assert(s[j] == ic[j - kc.len() - 1]);
                } else if j == kc.len() + 1 + ic.len() {
                    assert(s[j] == ':');
                } else {
                    assert(s[j] == pc[j - kc.len() - 1 - ic.len() - 1]);
                }
            }
            assert(w.subrange(0, kb.len() as int) =~= kb);
            assert forall|q: int| 0 <= q < kb.len() implies #[trigger] w[q] != 58 by {
                assert(w[q] == kb[q]);
                assert(kb[q] == kc[q] as u8);
                assert(kc[q] != ':');
                assert('\u{0}' <= kc[q] <= '\u{7f}');
            }
            assert(w.subrange(kb.len() + 1 as int, kb.len() + 1 + ib.len() as int) =~= ib);
            assert forall|q: int|
                kb.len() + 1 <= q < kb.len() + 1 + ib.len() implies #[trigger] w[q] != 58 by {
                assert(w[q] == ib[q - kb.len() - 1]);
                assert(ib[q - kb.len() - 1] == ic[q - kb.len() - 1] as u8);
            }
            assert(w[kb.len() + 1 + ib.len() as int] == 58);
            assert(w.subrange(kb.len() + 1 + ib.len() + 1 as int, w.len() as int) =~= pb);
        },
    }
}

/// Every character of a rendered address is ASCII and is not a colon.
proof fn lemma_ip_chars_ascii(o0: u8, o1: u8, o2: u8, o3: u8, j: int)
    requires
        0 <= j < ip_chars(o0, o1, o2, o3).len(),
    ensures
        '\u{0}' <= ip_chars(o0, o1, o2, o3)[j] <= '\u{7f}',
        ip_chars(o0, o1, o2, o3)[j] != ':',
{
    lemma_dec_chars_digits(o0 as nat);
    lemma_dec_chars_digits(o1 as nat);
    lemma_dec_chars_digits(o2 as nat);
    lemma_dec_chars_digits(o3 as nat);
    let s0 = dec_chars(o0 as nat);
    let s1 = dec_chars(o1 as nat);
    let s2 = dec_chars(o2 as nat);
    let s3 = dec_chars(o3 as nat);
    let c = ip_chars(o0, o1, o2, o3)[j];
    if j < s0.len() {
        assert(c == s0[j]);
    } else if j == s0.len() {
        assert(c == '.');
    } else if j < s0.len() + 1 + s1.len() {
        assert(c == s1[j - s0.len() - 1]);
    } else if j == s0.len() + 1 + s1.len() {
        assert(c == '.');
    } else if j < s0.len() + 1 + s1.len() + 1 + s2.len() {
        assert(c == s2[j - s0.len() - 1 - s1.len() - 1]);
    } else if j == s0.len() + 1 + s1.len() + 1 + s2.len() {
        assert(c == '.');
    } else {
        assert(c == s3[j - s0.len() - 1 - s1.len() - 1 - s2.len() - 1]);
    }
}

/// Every character of a rendered port list is ASCII and is not a colon.
proof fn lemma_ports_chars_ascii(ps: Seq<u16>)
    ensures
        forall|j: int|
            0 <= j < ports_csv(ps).len() ==> ('\u{0}' <= #[trigger] ports_csv(ps)[j]
                <= '\u{7f}') && ports_csv(ps)[j] != ':',
    decreases ps.len(),
{
    if ps.len() == 0 {
    } else if ps.len() == 1 {
        lemma_dec_chars_digits(ps[0] as nat);
    } else {
        lemma_dec_chars_digits(ps[0] as nat);
        lemma_ports_chars_ascii(ps.skip(1));
        let s0 = dec_chars(ps[0] as nat);
        assert forall|j: int| 0 <= j < ports_csv(ps).len() implies ('\u{0}'
            <= #[trigger] ports_csv(ps)[j] <= '\u{7f}') && ports_csv(ps)[j] != ':' by {
            if j < s0.len() {
                assert(ports_csv(ps)[j] == s0[j]);
            } else if j == s0.len() {
                assert(ports_csv(ps)[j] == ',');
            } else {
                assert(ports_csv(ps)[j] == ports_csv(ps.skip(1))[j - s0.len() - 1]);
            }
        }
    }
}

/// Find the first `sep` in `bytes[from..to]`.
fn find_byte(bytes: &Vec<u8>, from: usize, to: usize, sep: u8) -> (r: Option<usize>)
    requires
        from <= to <= bytes@.len(),
    ensures
        r matches Some(j) ==> from <= j < to && bytes@[j as int] == sep && (forall|q: int|
            from <= q < j ==> bytes@[q] != sep),
        r is None ==> forall|q: int| from <= q < to ==> bytes@[q] != sep,
{
    let mut i: usize = from;
    while i < to
        invariant
            from <= i <= to <= bytes@.len(),
            forall|q: int| from <= q < i ==> bytes@[q] != sep,
        decreases to - i,
    {
        if bytes[i] == sep {
            return Some(i);
        }
        i = i + 1;
    }
    None
}

/// Read a decimal number. Whenever the region is exactly the rendering of
/// a number up to 65535, that number comes back.
fn parse_dec_u32(bytes: &Vec<u8>, from: usize, to: usize) -> (r: Option<u32>)
    requires
        from <= to <= bytes@.len(),
    ensures
        forall|n: u32|
            n <= 65535 && bytes@.subrange(from as int, to as int) == ascii_bytes(
                dec_chars(n as nat),
            ) ==> r == Some(n),
{
    if from == to {
        proof {
            assert forall|n: u32|
                n <= 65535 && bytes@.subrange(from as int, to as int) == ascii_bytes(
                    dec_chars(n as nat),
                ) implies false by {
                lemma_dec_chars_digits(n as nat);
                let s = dec_chars(n as nat);
                assert(ascii_bytes(s).len() == s.len());
                assert(bytes@.subrange(from as int, to as int).len() == 0);
                assert(ascii_bytes(s).len() == 0);
            }
        }
        return None;
    }
    let mut v: u32 = 0;
    let mut i: usize = from;
    proof {
        assert forall|n: u32|
            n <= 65535 && bytes@.subrange(from as int, to as int) == ascii_bytes(
                dec_chars(n as nat),
            ) implies v as int == digits_value(dec_chars(n as nat).subrange(0, 0)) && v <= n by {
            assert(dec_chars(n as nat).subrange(0, 0) =~= Seq::<char>::empty());
        }
    }
    while i < to
        invariant
            from <= i <= to <= bytes@.len(),
            forall|n: u32|
                n <= 65535 && bytes@.subrange(from as int, to as int) == ascii_bytes(
                    dec_chars(n as nat),
                ) ==> v as int == digits_value(
                    dec_chars(n as nat).subrange(0, i - from),
                ) && v <= n,
        decreases to - i,
    {
        let c = bytes[i];
        if c < 48 || c > 57 {
            proof {
                assert forall|n: u32|
                    n <= 65535 && bytes@.subrange(from as int, to as int) == ascii_bytes(
                        dec_chars(n as nat),
                    ) implies false by {
                    let s = dec_chars(n as nat);
                    lemma_dec_chars_digits(n as nat);
                    assert(ascii_bytes(s).len() == s.len());
                    assert(s.len() == to - from);
                    assert(bytes@.subrange(from as int, to as int)[i - from] == ascii_bytes(s)[i
                        - from]);
                    assert(ascii_bytes(s)[i - from] == s[i - from] as u8);
                    assert('0' <= s[i - from] <= '9');
                }
            }
            return None;
        }
        if v > 429496728 {
            proof {
                assert forall|n: u32|
                    n <= 65535 && bytes@.subrange(from as int, to as int) == ascii_bytes(
                        dec_chars(n as nat),
                    ) implies false by {}
            }
            return None;
        }
        let d = (c - 48) as u32;
        v = v * 10 + d;
        i = i + 1;
        proof {
            assert forall|n: u32|
                n <= 65535 && bytes@.subrange(from as int, to as int) == ascii_bytes(
                    dec_chars(n as nat),
                ) implies v as int == digits_value(dec_chars(n as nat).subrange(0, i - from)) && v
                <= n by {
                let s = dec_chars(n as nat);
                lemma_dec_chars_digits(n as nat);
                lemma_digits_value_dec(n as nat);
                assert(ascii_bytes(s).len() == s.len());
                assert(s.len() == to - from);
                assert(bytes@.subrange(from as int, to as int)[i - 1 - from] == ascii_bytes(s)[i - 1
                    - from]);
                assert(ascii_bytes(s)[i - 1 - from] == s[i - 1 - from] as u8);
                assert('0' <= s[i - 1 - from] <= '9');
                assert(s[i - 1 - from] as int == (s[i - 1 - from] as u8) as int);
                assert(s.subrange(0, i - from).drop_last() =~= s.subrange(0, i - 1 - from));
                assert(s.subrange(0, i - from).last() == s[i - 1 - from]);
                assert(digits_value(s.subrange(0, i - from)) == digits_value(
                    s.subrange(0, i - 1 - from),
                ) * 10 + digit_val(s[i - 1 - from]));
                lemma_digits_prefix_le(s, i - from);
                assert(digits_value(s.subrange(0, i - from)) <= n);
            }
        }
    }
    proof {
        assert forall|n: u32|
            n <= 65535 && bytes@.subrange(from as int, to as int) == ascii_bytes(
                dec_chars(n as nat),
            ) implies v == n by {
            let s = dec_chars(n as nat);
            assert(ascii_bytes(s).len() == s.len());
            assert(s.len() == to - from);
            assert(s.subrange(0, to - from) =~= s);
            lemma_digits_value_dec(n as nat);
        }
    }
    Some(v)
}

/// How a rendered dotted quad lays out: four digit runs, three dots.
proof fn lemma_ip_layout(b: Seq<u8>, from: int, to: int, o0: u8, o1: u8, o2: u8, o3: u8)
    requires
        0 <= from <= to <= b.len(),
        b.subrange(from, to) == ascii_bytes(ip_chars(o0, o1, o2, o3)),
    ensures
        ({
            let a0 = ascii_bytes(dec_chars(o0 as nat));
            let a1 = ascii_bytes(dec_chars(o1 as nat));
            let a2 = ascii_bytes(dec_chars(o2 as nat));
            let a3 = ascii_bytes(dec_chars(o3 as nat));
            let p1 = from + a0.len() + 1;
            let p2 = p1 + a1.len() + 1;
            let p3 = p2 + a2.len() + 1;
            &&& a0.len() >= 1 && a1.len() >= 1 && a2.len() >= 1 && a3.len() >= 1
            &&& to == p3 + a3.len()
            &&& b.subrange(from, from + a0.len() as int) == a0
            &&& b[from + a0.len()] == 46
            &&& (forall|q: int| from <= q < from + a0.len() ==> b[q] != 46)
            &&& b.subrange(p1, p1 + a1.len() as int) == a1
            &&& b[p1 + a1.len()] == 46
            &&& (forall|q: int| p1 <= q < p1 + a1.len() ==> b[q] != 46)
            &&& b.subrange(p2, p2 + a2.len() as int) == a2
            &&& b[p2 + a2.len()] == 46
            &&& (forall|q: int| p2 <= q < p2 + a2.len() ==> b[q] != 46)
            &&& b.subrange(p3, to) == a3
            &&& (forall|q: int| p3 <= q < to ==> b[q] != 46)
        }),
{
    let s0 = dec_chars(o0 as nat);
    let s1 = dec_chars(o1 as nat);
    let s2 = dec_chars(o2 as nat);
    let s3 = dec_chars(o3 as nat);
    lemma_dec_chars_digits(o0 as nat);
    lemma_dec_chars_digits(o1 as nat);
    lemma_dec_chars_digits(o2 as nat);
    lemma_dec_chars_digits(o3 as nat);
    let dot = seq!['.'];
    crate::ascii::lemma_ascii_bytes_concat(s0, dot);
    crate::ascii::lemma_ascii_bytes_concat(s0 + dot, s1);
    crate::ascii::lemma_ascii_bytes_concat(s0 + dot + s1, dot);
    crate::ascii::lemma_ascii_bytes_concat(s0 + dot + s1 + dot, s2);
    crate::ascii::lemma_ascii_bytes_concat(s0 + dot + s1 + dot + s2, dot);
    crate::ascii::lemma_ascii_bytes_concat(s0 + dot + s1 + dot + s2 + dot, s3);
    let a0 = ascii_bytes(s0);
    let a1 = ascii_bytes(s1);
    let a2 = ascii_bytes(s2);
    let a3 = ascii_bytes(s3);
    let d = ascii_bytes(dot);
    assert(d =~= seq![46u8]);
    let w = ascii_bytes(ip_chars(o0, o1, o2, o3));
    assert(w == a0 + d + a1 + d + a2 + d + a3);
    assert(a0.len() == s0.len() && a1.len() == s1.len() && a2.len() == s2.len() && a3.len()
        == s3.len());
    assert forall|q: int| from <= q < to implies #[trigger] b[q] == w[q - from] by {
        assert(b.subrange(from, to)[q - from] == w[q - from]);
    }
    assert forall|j: int| 0 <= j < a0.len() implies a0[j] != 46 by {
        assert(a0[j] == s0[j] as u8);
        assert('0' <= s0[j] <= '9');
    }
    assert forall|j: int| 0 <= j < a1.len() implies a1[j] != 46 by {
        assert(a1[j] == s1[j] as u8);
        assert('0' <= s1[j] <= '9');
    }
    assert forall|j: int| 0 <= j < a2.len() implies a2[j] != 46 by {
        assert(a2[j] == s2[j] as u8);
        assert('0' <= s2[j] <= '9');
    }
    assert forall|j: int| 0 <= j < a3.len() implies a3[j] != 46 by {
        assert(a3[j] == s3[j] as u8);
        assert('0' <= s3[j] <= '9');
    }
    let w01 = a0 + d;
    let w02 = w01 + a1;
    let w03 = w02 + d;
    let w04 = w03 + a2;
    let w05 = w04 + d;
    assert(w == w05 + a3);
    let p1 = from + a0.len() + 1;
    let p2 = p1 + a1.len() + 1;
    let p3 = p2 + a2.len() + 1;
    assert forall|j: int| 0 <= j < a0.len() implies b.subrange(from, from + a0.len() as int)[j]
        == a0[j] by {
        assert(b[from + j] == w[j]);
        assert(w[j] == a0[j]);
    }
    assert(b.subrange(from, from + a0.len() as int) =~= a0);
    assert(b[from + a0.len()] == w[a0.len() as int]);
    assert(w[a0.len() as int] == d[0]);
    assert forall|j: int| 0 <= j < a1.len() implies b.subrange(p1, p1 + a1.len() as int)[j]
        == a1[j] by {
        assert(b[p1 + j] == w[p1 + j - from]);
        assert(w[w01.len() + j] == w02[w01.len() + j]);
        assert(w02[w01.len() + j] == a1[j]);
    }
    assert(b.subrange(p1, p1 + a1.len() as int) =~= a1);
    assert(b[p1 + a1.len()] == w[w02.len() as int]);
    assert(w[w02.len() as int] == d[0]);
    assert forall|j: int| 0 <= j < a2.len() implies b.subrange(p2, p2 + a2.len() as int)[j]
        == a2[j] by {
        assert(b[p2 + j] == w[p2 + j - from]);
        assert(w[w03.len() + j] == w04[w03.len() + j]);
        assert(w04[w03.len() + j] == a2[j]);
    }
    assert(b.subrange(p2, p2 + a2.len() as int) =~= a2);
    assert(b[p2 + a2.len()] == w[w04.len() as int]);
    assert(w[w04.len() as int] == d[0]);
    assert forall|j: int| 0 <= j < a3.len() implies b.subrange(p3, to)[j] == a3[j] by {
        assert(b[p3 + j] == w[p3 + j - from]);
        assert(w[w05.len() + j] == a3[j]);
    }
    assert(b.subrange(p3, to) =~= a3);
}

/// Read a dotted quad. Whenever the region is exactly the rendering of
/// four octets, those octets come back.
#[verifier::rlimit(100)]
fn parse_ip_bytes(bytes: &Vec<u8>, from: usize, to: usize) -> (r: Option<IpAddress>)
    requires
        from <= to <= bytes@.len(),
    ensures
        forall|o0: u8, o1: u8, o2: u8, o3: u8|
            bytes@.subrange(from as int, to as int) == #[trigger] ascii_bytes(
                ip_chars(o0, o1, o2, o3),
            ) ==> (r matches Some(ip) && ip.o0 == o0 && ip.o1 == o1 && ip.o2 == o2 && ip.o3 == o3),
{
    let d1 = match find_byte(bytes, from, to, 46) {
        Some(j) => j,
        None => {
            proof {
                assert forall|o0: u8, o1: u8, o2: u8, o3: u8|
                    bytes@.subrange(from as int, to as int) == #[trigger] ascii_bytes(
                        ip_chars(o0, o1, o2, o3),
                    ) implies false by {
                    lemma_ip_layout(bytes@, from as int, to as int, o0, o1, o2, o3);
                }
            }
            return None;
        },
    };
    let d2 = match find_byte(bytes, d1 + 1, to, 46) {
        Some(j) => j,
        None => {
            proof {
                assert forall|o0: u8, o1: u8, o2: u8, o3: u8|
                    bytes@.subrange(from as int, to as int) == #[trigger] ascii_bytes(
                        ip_chars(o0, o1, o2, o3),
                    ) implies false by {
                    lemma_ip_layout(bytes@, from as int, to as int, o0, o1, o2, o3);
                    assert(d1 == from + ascii_bytes(dec_chars(o0 as nat)).len());
                }
            }
            return None;
        },
    };
    let d3 = match find_byte(bytes, d2 + 1, to, 46) {
        Some(j) => j,
        None => {
            proof {
                assert forall|o0: u8, o1: u8, o2: u8, o3: u8|
                    bytes@.subrange(from as int, to as int) == #[trigger] ascii_bytes(
                        ip_chars(o0, o1, o2, o3),
                    ) implies false by {
                    lemma_ip_layout(bytes@, from as int, to as int, o0, o1, o2, o3);
                    assert(d1 == from + ascii_bytes(dec_chars(o0 as nat)).len());
                    assert(d2 == d1 + 1 + ascii_bytes(dec_chars(o1 as nat)).len());
                }
            }
            return None;
        },
    };
    let v0 = match parse_dec_u32(bytes, from, d1) {
        Some(v) => v,
        None => {
            proof {
                assert forall|o0: u8, o1: u8, o2: u8, o3: u8|
                    bytes@.subrange(from as int, to as int) == #[trigger] ascii_bytes(
                        ip_chars(o0, o1, o2, o3),
                    ) implies false by {
                    lemma_ip_layout(bytes@, from as int, to as int, o0, o1, o2, o3);
                    assert(d1 == from + ascii_bytes(dec_chars(o0 as nat)).len());
                }
            }
            return None;
        },
    };
    let v1 = match parse_dec_u32(bytes, d1 + 1, d2) {
        Some(v) => v,
        None => {
            proof {
                assert forall|o0: u8, o1: u8, o2: u8, o3: u8|
                    bytes@.subrange(from as int, to as int) == #[trigger] ascii_bytes(
                        ip_chars(o0, o1, o2, o3),
                    ) implies false by {
                    lemma_ip_layout(bytes@, from as int, to as int, o0, o1, o2, o3);
                    assert(d1 == from + ascii_bytes(dec_chars(o0 as nat)).len());
                    assert(d2 == d1 + 1 + ascii_bytes(dec_chars(o1 as nat)).len());
                }
            }
            return None;
        },
    };
    let v2 = match parse_dec_u32(bytes, d2 + 1, d3) {
        Some(v) => v,
        None => {
            proof {
                assert forall|o0: u8, o1: u8, o2: u8, o3: u8|
                    bytes@.subrange(from as int, to as int) == #[trigger] ascii_bytes(
                        ip_chars(o0, o1, o2, o3),
                    ) implies false by {
                    lemma_ip_layout(bytes@, from as int, to as int, o0, o1, o2, o3);
                    assert(d1 == from + ascii_bytes(dec_chars(o0 as nat)).len());
                    assert(d2 == d1 + 1 + ascii_bytes(dec_chars(o1 as nat)).len());
                    assert(d3 == d2 + 1 + ascii_bytes(dec_chars(o2 as nat)).len());
                }
            }
            return None;
        },
    };
    let v3 = match parse_dec_u32(bytes, d3 + 1, to) {
        Some(v) => v,
        None => {
            proof {
                assert forall|o0: u8, o1: u8, o2: u8, o3: u8|
                    bytes@.subrange(from as int, to as int) == #[trigger] ascii_bytes(
                        ip_chars(o0, o1, o2, o3),
                    ) implies false by {
                    lemma_ip_layout(bytes@, from as int, to as int, o0, o1, o2, o3);
                    assert(d1 == from + ascii_bytes(dec_chars(o0 as nat)).len());
                    assert(d2 == d1 + 1 + ascii_bytes(dec_chars(o1 as nat)).len());
                    assert(d3 == d2 + 1 + ascii_bytes(dec_chars(o2 as nat)).len());
                }
            }
            return None;
        },
    };
    if v0 > 255 || v1 > 255 || v2 > 255 || v3 > 255 {
        proof {
            assert forall|o0: u8, o1: u8, o2: u8, o3: u8|
                bytes@.subrange(from as int, to as int) == #[trigger] ascii_bytes(
                    ip_chars(o0, o1, o2, o3),
                ) implies false by {
                lemma_ip_layout(bytes@, from as int, to as int, o0, o1, o2, o3);
                assert(d1 == from + ascii_bytes(dec_chars(o0 as nat)).len());
                assert(d2 == d1 + 1 + ascii_bytes(dec_chars(o1 as nat)).len());
                assert(d3 == d2 + 1 + ascii_bytes(dec_chars(o2 as nat)).len());
            }
        }
        return None;
    }
    let ip = IpAddress { o0: v0 as u8, o1: v1 as u8, o2: v2 as u8, o3: v3 as u8 };
    proof {
        assert forall|o0: u8, o1: u8, o2: u8, o3: u8|
            bytes@.subrange(from as int, to as int) == #[trigger] ascii_bytes(
                ip_chars(o0, o1, o2, o3),
            ) implies ip.o0 == o0 && ip.o1 == o1 && ip.o2 == o2 && ip.o3 == o3 by {
            lemma_ip_layout(bytes@, from as int, to as int, o0, o1, o2, o3);
            assert(d1 == from + ascii_bytes(dec_chars(o0 as nat)).len());
            assert(d2 == d1 + 1 + ascii_bytes(dec_chars(o1 as nat)).len());
            assert(d3 == d2 + 1 + ascii_bytes(dec_chars(o2 as nat)).len());
        }
    }
    Some(ip)
}

/// Read a comma-separated port list. Whenever the region is exactly the
/// rendering of a list, that list comes back.
#[verifier::rlimit(100)]
fn parse_ports_bytes(bytes: &Vec<u8>, from: usize, to: usize) -> (r: Option<Vec<u16>>)
    requires
        from <= to <= bytes@.len(),
    ensures
        forall|ps: Seq<u16>|
            bytes@.subrange(from as int, to as int) == #[trigger] ascii_bytes(ports_csv(ps)) ==> (
            r matches Some(v) && v@ == ps),
    decreases to - from,
{
    if from == to {
        let empty: Vec<u16> = Vec::new();
        proof {
            assert forall|ps: Seq<u16>|
                bytes@.subrange(from as int, to as int) == #[trigger] ascii_bytes(
                    ports_csv(ps),
                ) implies empty@ == ps by {
                if ps.len() > 0 {
                    lemma_dec_chars_digits(ps[0] as nat);
                    assert(ascii_bytes(ports_csv(ps)).len() == ports_csv(ps).len());
                }
                assert(empty@ =~= ps);
            }
        }
        return Some(empty);
    }
    match find_byte(bytes, from, to, 44) {
        None => {
            let v = match parse_dec_u32(bytes, from, to) {
                Some(v) => v,
                None => {
                    proof {
                        assert forall|ps: Seq<u16>|
                            bytes@.subrange(from as int, to as int) == #[trigger] ascii_bytes(
                                ports_csv(ps),
                            ) implies false by {
                            lemma_ports_layout(bytes@, from as int, to as int, ps);
                        }
                    }
                    return None;
                },
            };
            if v > 65535 {
                proof {
                    assert forall|ps: Seq<u16>|
                        bytes@.subrange(from as int, to as int) == #[trigger] ascii_bytes(
                            ports_csv(ps),
                        ) implies false by {
                        lemma_ports_layout(bytes@, from as int, to as int, ps);
                    }
                }
                return None;
            }
            let result = vec![v as u16];
            proof {
                assert forall|ps: Seq<u16>|
                    bytes@.subrange(from as int, to as int) == #[trigger] ascii_bytes(
                        ports_csv(ps),
                    ) implies result@ == ps by {
                    lemma_ports_layout(bytes@, from as int, to as int, ps);
                    assert(result@ =~= ps);
                }
            }
            Some(result)
        },
        Some(com) => {
            let v = match parse_dec_u32(bytes, from, com) {
                Some(v) => v,
                None => {
                    proof {
                        assert forall|ps: Seq<u16>|
                            bytes@.subrange(from as int, to as int) == #[trigger] ascii_bytes(
                                ports_csv(ps),
                            ) implies false by {
                            lemma_ports_layout(bytes@, from as int, to as int, ps);
                            assert(com == from + ascii_bytes(dec_chars(ps[0] as nat)).len());
                        }
                    }
                    return None;
                },
            };
            if v > 65535 {
                proof {
                    assert forall|ps: Seq<u16>|
                        bytes@.subrange(from as int, to as int) == #[trigger] ascii_bytes(
                            ports_csv(ps),
                        ) implies false by {
                        lemma_ports_layout(bytes@, from as int, to as int, ps);
                        assert(com == from + ascii_bytes(dec_chars(ps[0] as nat)).len());
                    }
                }
                return None;
            }
            let rest = match parse_ports_bytes(bytes, com + 1, to) {
                Some(v) => v,
                None => {
                    proof {
                        assert forall|ps: Seq<u16>|
                            bytes@.subrange(from as int, to as int) == #[trigger] ascii_bytes(
                                ports_csv(ps),
                            ) implies false by {
                            lemma_ports_layout(bytes@, from as int, to as int, ps);
                            assert(com == from + ascii_bytes(dec_chars(ps[0] as nat)).len());
                        }
                    }
                    return None;
                },
            };
            let mut result = vec![v as u16];
            let mut tail = rest;
            result.append(&mut tail);
            proof {
                assert forall|ps: Seq<u16>|
                    bytes@.subrange(from as int, to as int) == #[trigger] ascii_bytes(
                        ports_csv(ps),
                    ) implies result@ == ps by {
                    lemma_ports_layout(bytes@, from as int, to as int, ps);
                    assert(com == from + ascii_bytes(dec_chars(ps[0] as nat)).len());
                    assert(result@ =~= ps);
                }
            }
            Some(result)
        },
    }
}

/// How a rendered port list lays out: a digit run, then, if more ports
/// follow, a comma and the rest.
proof fn lemma_ports_layout(b: Seq<u8>, from: int, to: int, ps: Seq<u16>)
    requires
        0 <= from <= to <= b.len(),
        from < to,
        b.subrange(from, to) == ascii_bytes(ports_csv(ps)),
    ensures
        ({
            let a0 = ascii_bytes(dec_chars(ps[0] as nat));
            &&& ps.len() >= 1
            &&& a0.len() >= 1
            &&& b.subrange(from, from + a0.len() as int) == a0
            &&& (forall|q: int| from <= q < from + a0.len() ==> b[q] != 44)
            &&& (ps.len() == 1 ==> to == from + a0.len() && (forall|q: int|
                from <= q < to ==> b[q] != 44))
            &&& (ps.len() >= 2 ==> to > from + a0.len() && b[from + a0.len()] == 44
                && b.subrange(from + a0.len() + 1, to) == ascii_bytes(ports_csv(ps.skip(1))))
        }),
{
    if ps.len() == 0 {
        assert(ascii_bytes(ports_csv(ps)).len() == 0);
    }
    let s0 = dec_chars(ps[0] as nat);
    lemma_dec_chars_digits(ps[0] as nat);
    let a0 = ascii_bytes(s0);
    assert(a0.len() == s0.len());
    assert forall|j: int| 0 <= j < a0.len() implies a0[j] != 44 by {
        assert(a0[j] == s0[j] as u8);
        assert('0' <= s0[j] <= '9');
    }
    if ps.len() == 1 {
        assert(ports_csv(ps) == s0);
        assert forall|j: int| 0 <= j < a0.len() implies b.subrange(
            from,
            from + a0.len() as int,
        )[j] == a0[j] by {
            assert(b.subrange(from, to)[j] == a0[j]);
        }
        assert(b.subrange(from, from + a0.len() as int) =~= a0);
        assert forall|q: int| from <= q < to implies #[trigger] b[q] != 44 by {
            assert(b.subrange(from, to)[q - from] == a0[q - from]);
        }
    } else {
        let comma = seq![','];
        let rest_chars = ports_csv(ps.skip(1));
        assert(ports_csv(ps) == s0 + comma + rest_chars);
        crate::ascii::lemma_ascii_bytes_concat(s0, comma);
        crate::ascii::lemma_ascii_bytes_concat(s0 + comma, rest_chars);
        let w = ascii_bytes(ports_csv(ps));
        let w01 = a0 + ascii_bytes(comma);
        assert(w == w01 + ascii_bytes(rest_chars));
        assert(ascii_bytes(comma) =~= seq![44u8]);
        assert forall|q: int| from <= q < to implies #[trigger] b[q] == w[q - from] by {
            assert(b.subrange(from, to)[q - from] == w[q - from]);
        }
        assert forall|j: int| 0 <= j < a0.len() implies b.subrange(
            from,
            from + a0.len() as int,
        )[j] == a0[j] by {
            assert(b[from + j] == w[j]);
            assert(w[j] == a0[j]);
        }
        assert(b.subrange(from, from + a0.len() as int) =~= a0);
        assert(b[from + a0.len()] == w[a0.len() as int]);
        assert(w[a0.len() as int] == ascii_bytes(comma)[0]);
        assert forall|j: int| 0 <= j < ascii_bytes(rest_chars).len() implies b.subrange(
            from + a0.len() + 1,
            to,
        )[j] == ascii_bytes(rest_chars)[j] by {
            assert(b[from + a0.len() + 1 + j] == w[a0.len() + 1 + j]);
            assert(w[w01.len() + j] == ascii_bytes(rest_chars)[j]);
        }
        assert(b.subrange(from + a0.len() + 1, to) =~= ascii_bytes(rest_chars));
    }
}

/// What the console scan for a node's printed reference yields: the text
/// between the announcement and the line's end.
pub uninterp spec fn descriptor_capture(s: Seq<char>) -> Option<Seq<char>>;

/// Relies on `regex::Regex::captures`: finds the first announcement of a
/// node's descriptor in console output and returns the captured reference
/// text, a function of the text alone.
#[verifier::external_body]
fn capture_descriptor(console: &str) -> (r: Option<String>)
    ensures
        (match descriptor_capture(console@) {
            Some(t) => r matches Some(s) && s@ == t,
            None => r is None,
        }),
{
    let re = regex::Regex::new(r"node local descriptor: ([^:]+:[\d.]+:[\d,]*)").unwrap();
    match re.captures(console) {
        Some(caps) => Some(String::from(caps.get(1).unwrap().as_str())),
        None => None,
    }
}

/// Scan one console capture for a node's printed reference and parse it.
/// Anything returned provably prints back to what the console announced,
/// and a capture that is a rendering is owed to parse.
pub fn extract_node_reference(console: &str) -> (r: Option<NodeReference>)
    ensures
        r matches Some(nr) ==> (descriptor_capture(console@) matches Some(t) && t
            == node_ref_chars(nr.public_key@, crate::gossip::addr_opt_view(nr.node_addr))),
        descriptor_capture(console@) is None ==> r is None,
        forall|key: Seq<u8>, addr: Option<(Seq<u8>, Seq<u16>)>|
            (addr matches Some(a) ==> a.0.len() == 4) && (descriptor_capture(console@) matches
            Some(t) && t == #[trigger] node_ref_chars(key, addr)) ==> (r matches Some(nr)
                && nr.public_key@ == key && crate::gossip::addr_opt_view(nr.node_addr) == addr),
{
    let captured = match capture_descriptor(console) {
        Some(s) => s,
        None => {
            return None;
        },
    };
    NodeReference::from_str(captured.as_str())
}

} // verus!
