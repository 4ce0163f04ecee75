//! The stable byte layout shared by every envelope and record: little-endian
//! integers and length-prefixed chunks. Each encoder's output is pinned to a
//! spec-level layout function, and each reader proves that what it consumed
//! is exactly the encoding of what it returned.

use vstd::prelude::*;

use crate::bytes_util::copy_range;

verus! {

/// Little-endian layout of a `u16`.
pub open spec fn enc_u16(n: u16) -> Seq<u8> {
    seq![(n & 0xff) as u8, ((n >> 8) & 0xff) as u8]
}

/// Little-endian layout of a `u32`.
pub open spec fn enc_u32(n: u32) -> Seq<u8> {
    seq![
        (n & 0xff) as u8,
        ((n >> 8) & 0xff) as u8,
        ((n >> 16) & 0xff) as u8,
        ((n >> 24) & 0xff) as u8,
    ]
}

/// Little-endian layout of a `u64`.
pub open spec fn enc_u64(n: u64) -> Seq<u8> {
    seq![
        (n & 0xff) as u8,
        ((n >> 8) & 0xff) as u8,
        ((n >> 16) & 0xff) as u8,
        ((n >> 24) & 0xff) as u8,
        ((n >> 32) & 0xff) as u8,
        ((n >> 40) & 0xff) as u8,
        ((n >> 48) & 0xff) as u8,
        ((n >> 56) & 0xff) as u8,
    ]
}

/// One byte for a flag.
pub open spec fn enc_bool(b: bool) -> Seq<u8> {
    if b {
        seq![1u8]
    } else {
        seq![0u8]
    }
}

/// The `u16` that two little-endian bytes spell.
pub open spec fn le_u16(b0: u8, b1: u8) -> u16 {
    (b0 as u16) | ((b1 as u16) << 8)
}

/// Reading back the two bytes of an encoded `u16` gives the number.
pub proof fn lemma_le_enc_u16(n: u16)
    ensures
        le_u16(enc_u16(n)[0], enc_u16(n)[1]) == n,
{
    assert(((n & 0xff) as u8 as u16) | ((((n >> 8) & 0xff) as u8 as u16) << 8) == n)
        by (bit_vector);
}

/// The `u32` that four little-endian bytes spell.
pub open spec fn le_u32(b0: u8, b1: u8, b2: u8, b3: u8) -> u32 {
    (b0 as u32) | ((b1 as u32) << 8) | ((b2 as u32) << 16) | ((b3 as u32) << 24)
}

/// Reading back the four bytes of an encoded `u32` gives the number.
pub proof fn lemma_le_enc_u32(n: u32)
    ensures
        le_u32(enc_u32(n)[0], enc_u32(n)[1], enc_u32(n)[2], enc_u32(n)[3]) == n,
{
    assert(((n & 0xff) as u8 as u32) | ((((n >> 8) & 0xff) as u8 as u32) << 8) | ((((n >> 16)
        & 0xff) as u8 as u32) << 16) | ((((n >> 24) & 0xff) as u8 as u32) << 24) == n)
        by (bit_vector);
}

/// Two bytes are the encoding of the `u16` they spell.
pub proof fn lemma_enc_le_u16(b0: u8, b1: u8)
    ensures
        enc_u16(le_u16(b0, b1)) == seq![b0, b1],
{
    let m: u16 = (b0 as u16) | ((b1 as u16) << 8);
    assert(m == ((b0 as u16) | ((b1 as u16) << 8)) ==> (m & 0xff) as u8 == b0 && ((m >> 8) & 0xff)
        as u8 == b1) by (bit_vector);
    assert(enc_u16(le_u16(b0, b1)) =~= seq![b0, b1]);
}

/// Four bytes are the encoding of the `u32` they spell.
pub proof fn lemma_enc_le_u32(b0: u8, b1: u8, b2: u8, b3: u8)
    ensures
        enc_u32(le_u32(b0, b1, b2, b3)) == seq![b0, b1, b2, b3],
{
    let m: u32 = (b0 as u32) | ((b1 as u32) << 8) | ((b2 as u32) << 16) | ((b3 as u32) << 24);
    assert(m == ((b0 as u32) | ((b1 as u32) << 8) | ((b2 as u32) << 16) | ((b3 as u32) << 24))
        ==> (m & 0xff) as u8 == b0 && ((m >> 8) & 0xff) as u8 == b1 && ((m >> 16) & 0xff) as u8
        == b2 && ((m >> 24) & 0xff) as u8 == b3) by (bit_vector);
    assert(enc_u32(le_u32(b0, b1, b2, b3)) =~= seq![b0, b1, b2, b3]);
}

/// The `u64` that eight little-endian bytes spell.
pub open spec fn le_u64(b0: u8, b1: u8, b2: u8, b3: u8, b4: u8, b5: u8, b6: u8, b7: u8) -> u64 {
    (b0 as u64) | ((b1 as u64) << 8) | ((b2 as u64) << 16) | ((b3 as u64) << 24) | ((b4
        as u64) << 32) | ((b5 as u64) << 40) | ((b6 as u64) << 48) | ((b7 as u64) << 56)
}

/// A length-prefixed chunk: the length as `u32`, then the bytes themselves.
pub open spec fn enc_chunk(b: Seq<u8>) -> Seq<u8> {
    enc_u32(b.len() as u32) + b
}

/// A run of chunks, one after the other.
pub open spec fn enc_chunks(bs: Seq<Seq<u8>>) -> Seq<u8>
    decreases bs.len(),
{
    if bs.len() == 0 {
        Seq::empty()
    } else {
        enc_chunk(bs[0]) + enc_chunks(bs.skip(1))
    }
}

pub proof fn lemma_enc_chunks_push(bs: Seq<Seq<u8>>, b: Seq<u8>)
    ensures
        enc_chunks(bs.push(b)) == enc_chunks(bs) + enc_chunk(b),
    decreases bs.len(),
{
    if bs.len() == 0 {
        assert(bs.push(b)[0] == b);
        assert(bs.push(b).skip(1) =~= Seq::<Seq<u8>>::empty());
        assert(enc_chunks(bs.push(b)) == enc_chunk(b) + enc_chunks(Seq::<Seq<u8>>::empty()));
        assert(enc_chunks(bs.push(b)) =~= enc_chunks(bs) + enc_chunk(b));
    } else {
        assert(bs.push(b).skip(1) =~= bs.skip(1).push(b));
        lemma_enc_chunks_push(bs.skip(1), b);
        assert(enc_chunks(bs.push(b)) =~= enc_chunks(bs) + enc_chunk(b));
    }
}

pub fn push_u16(dst: &mut Vec<u8>, n: u16)
    ensures
        final(dst)@ == old(dst)@ + enc_u16(n),
{
    dst.push((n & 0xff) as u8);
    dst.push(((n >> 8) & 0xff) as u8);
    proof {
        assert(dst@ =~= old(dst)@ + enc_u16(n));
    }
}

pub fn push_u32(dst: &mut Vec<u8>, n: u32)
    ensures
        final(dst)@ == old(dst)@ + enc_u32(n),
{
    dst.push((n & 0xff) as u8);
    dst.push(((n >> 8) & 0xff) as u8);
    dst.push(((n >> 16) & 0xff) as u8);
    dst.push(((n >> 24) & 0xff) as u8);
    proof {
        assert(dst@ =~= old(dst)@ + enc_u32(n));
    }
}

pub fn push_u64(dst: &mut Vec<u8>, n: u64)
    ensures
        final(dst)@ == old(dst)@ + enc_u64(n),
{
    dst.push((n & 0xff) as u8);
    dst.push(((n >> 8) & 0xff) as u8);
    dst.push(((n >> 16) & 0xff) as u8);
    dst.push(((n >> 24) & 0xff) as u8);
    dst.push(((n >> 32) & 0xff) as u8);
    dst.push(((n >> 40) & 0xff) as u8);
    dst.push(((n >> 48) & 0xff) as u8);
    dst.push(((n >> 56) & 0xff) as u8);
    proof {
        assert(dst@ =~= old(dst)@ + enc_u64(n));
    }
}

pub fn push_bool(dst: &mut Vec<u8>, b: bool)
    ensures
        final(dst)@ == old(dst)@ + enc_bool(b),
{
    if b {
        dst.push(1u8);
    } else {
        dst.push(0u8);
    }
    proof {
        assert(dst@ =~= old(dst)@ + enc_bool(b));
    }
}

pub fn push_chunk(dst: &mut Vec<u8>, b: &[u8])
    requires
        b@.len() <= u32::MAX,
    ensures
        final(dst)@ == old(dst)@ + enc_chunk(b@),
{
    push_u32(dst, b.len() as u32);
    crate::bytes_util::push_all(dst, b);
    proof {
        assert(dst@ =~= old(dst)@ + enc_chunk(b@));
    }
}

/// Only one `u16` encodes any given two bytes.
pub proof fn lemma_enc_u16_injective(a: u16, b: u16)
    requires
        enc_u16(a) == enc_u16(b),
    ensures
        a == b,
{
    assert((a & 0xff) as u8 == (b & 0xff) as u8 && ((a >> 8) & 0xff) as u8 == ((b >> 8) & 0xff)
        as u8 ==> a == b) by (bit_vector);
    assert(enc_u16(a)[0] == enc_u16(b)[0]);
    assert(enc_u16(a)[1] == enc_u16(b)[1]);
}

/// Only one `u32` encodes any given four bytes.
pub proof fn lemma_enc_u32_injective(a: u32, b: u32)
    requires
        enc_u32(a) == enc_u32(b),
    ensures
        a == b,
{
    assert((a & 0xff) as u8 == (b & 0xff) as u8 && ((a >> 8) & 0xff) as u8 == ((b >> 8) & 0xff)
        as u8 && ((a >> 16) & 0xff) as u8 == ((b >> 16) & 0xff) as u8 && ((a >> 24) & 0xff) as u8
        == ((b >> 24) & 0xff) as u8 ==> a == b) by (bit_vector);
    assert(enc_u32(a)[0] == enc_u32(b)[0]);
    assert(enc_u32(a)[1] == enc_u32(b)[1]);
    assert(enc_u32(a)[2] == enc_u32(b)[2]);
    assert(enc_u32(a)[3] == enc_u32(b)[3]);
}

/// Only one `u64` encodes any given eight bytes.
pub proof fn lemma_enc_u64_injective(a: u64, b: u64)
    requires
        enc_u64(a) == enc_u64(b),
    ensures
        a == b,
{
    assert((a & 0xff) as u8 == (b & 0xff) as u8 && ((a >> 8) & 0xff) as u8 == ((b >> 8) & 0xff)
        as u8 && ((a >> 16) & 0xff) as u8 == ((b >> 16) & 0xff) as u8 && ((a >> 24) & 0xff) as u8
        == ((b >> 24) & 0xff) as u8 && ((a >> 32) & 0xff) as u8 == ((b >> 32) & 0xff) as u8 && ((a
        >> 40) & 0xff) as u8 == ((b >> 40) & 0xff) as u8 && ((a >> 48) & 0xff) as u8 == ((b >> 48)
        & 0xff) as u8 && ((a >> 56) & 0xff) as u8 == ((b >> 56) & 0xff) as u8 ==> a == b)
        by (bit_vector);
    assert(enc_u64(a)[0] == enc_u64(b)[0]);
    assert(enc_u64(a)[1] == enc_u64(b)[1]);
    assert(enc_u64(a)[2] == enc_u64(b)[2]);
    assert(enc_u64(a)[3] == enc_u64(b)[3]);
    assert(enc_u64(a)[4] == enc_u64(b)[4]);
    assert(enc_u64(a)[5] == enc_u64(b)[5]);
    assert(enc_u64(a)[6] == enc_u64(b)[6]);
    assert(enc_u64(a)[7] == enc_u64(b)[7]);
}

/// Two chunks laid down at the same position of the same buffer hold the
/// same bytes.
pub proof fn lemma_chunk_at(buf: Seq<u8>, pos: int, a: Seq<u8>, b: Seq<u8>)
    requires
        a.len() <= u32::MAX,
        b.len() <= u32::MAX,
        0 <= pos,
        pos + 4 + a.len() <= buf.len(),
        pos + 4 + b.len() <= buf.len(),
        buf.subrange(pos, pos + 4 + a.len()) == enc_chunk(a),
        buf.subrange(pos, pos + 4 + b.len()) == enc_chunk(b),
    ensures
        a == b,
{
    let ca = buf.subrange(pos, pos + 4 + a.len());
    let cb = buf.subrange(pos, pos + 4 + b.len());
    assert(ca.subrange(0, 4) =~= buf.subrange(pos, pos + 4));
    assert(cb.subrange(0, 4) =~= buf.subrange(pos, pos + 4));
    assert(enc_chunk(a).subrange(0, 4) =~= enc_u32(a.len() as u32));
    assert(enc_chunk(b).subrange(0, 4) =~= enc_u32(b.len() as u32));
    lemma_enc_u32_injective(a.len() as u32, b.len() as u32);
    assert(a.len() == b.len());
    assert(a =~= ca.subrange(4, ca.len() as int));
    assert(b =~= cb.subrange(4, cb.len() as int));
}

/// Read a `u16` at `pos`. Succeeds exactly when two bytes remain, and what it
/// consumed is the encoding of what it returned.
pub fn read_u16(buf: &Vec<u8>, pos: usize) -> (r: Option<(u16, usize)>)
    ensures
        (r is Some) == (pos + 2 <= buf@.len()),
        r matches Some((n, p)) ==> p == pos + 2 && buf@.subrange(pos as int, p as int) == enc_u16(
            n,
        ) && n == le_u16(buf@[pos as int], buf@[pos + 1 as int]),
{
    if pos >= buf.len() || buf.len() - pos < 2 {
        return None;
    }
    let b0 = buf[pos];
    let b1 = buf[pos + 1];
    let n: u16 = (b0 as u16) | ((b1 as u16) << 8);
    proof {
        let bb0 = b0;
        let bb1 = b1;
        assert((((bb0 as u16) | ((bb1 as u16) << 8)) & 0xff) as u8 == bb0) by (bit_vector);
        assert(((((bb0 as u16) | ((bb1 as u16) << 8)) >> 8) & 0xff) as u8 == bb1) by (bit_vector);
        assert(buf@.subrange(pos as int, pos + 2 as int) =~= enc_u16(n));
    }
    Some((n, pos + 2))
}

/// Read a `u32` at `pos`, with the same exactness as `read_u16`.
pub fn read_u32(buf: &Vec<u8>, pos: usize) -> (r: Option<(u32, usize)>)
    ensures
        (r is Some) == (pos + 4 <= buf@.len()),
        r matches Some((n, p)) ==> p == pos + 4 && buf@.subrange(pos as int, p as int) == enc_u32(
            n,
        ) && n == le_u32(
            buf@[pos as int],
            buf@[pos + 1 as int],
            buf@[pos + 2 as int],
            buf@[pos + 3 as int],
        ),
{
    if pos >= buf.len() || buf.len() - pos < 4 {
        return None;
    }
    let b0 = buf[pos];
    let b1 = buf[pos + 1];
    let b2 = buf[pos + 2];
    let b3 = buf[pos + 3];
    let n: u32 = (b0 as u32) | ((b1 as u32) << 8) | ((b2 as u32) << 16) | ((b3 as u32) << 24);
    proof {
        let bb0 = b0;
        let bb1 = b1;
        let bb2 = b2;
        let bb3 = b3;
        let m: u32 = (bb0 as u32) | ((bb1 as u32) << 8) | ((bb2 as u32) << 16) | ((bb3
            as u32) << 24);
        assert(m == ((bb0 as u32) | ((bb1 as u32) << 8) | ((bb2 as u32) << 16) | ((bb3
            as u32) << 24)) ==> (m & 0xff) as u8 == bb0 && ((m >> 8) & 0xff) as u8 == bb1 && ((m
            >> 16) & 0xff) as u8 == bb2 && ((m >> 24) & 0xff) as u8 == bb3) by (bit_vector);
        assert(buf@.subrange(pos as int, pos + 4 as int) =~= enc_u32(n));
    }
    Some((n, pos + 4))
}

/// Read a `u64` at `pos`, with the same exactness as `read_u16`.
pub fn read_u64(buf: &Vec<u8>, pos: usize) -> (r: Option<(u64, usize)>)
    ensures
        (r is Some) == (pos + 8 <= buf@.len()),
        r matches Some((n, p)) ==> p == pos + 8 && buf@.subrange(pos as int, p as int) == enc_u64(
            n,
        ) && n == le_u64(
            buf@[pos as int],
            buf@[pos + 1 as int],
            buf@[pos + 2 as int],
            buf@[pos + 3 as int],
            buf@[pos + 4 as int],
            buf@[pos + 5 as int],
            buf@[pos + 6 as int],
            buf@[pos + 7 as int],
        ),
{
    if pos >= buf.len() || buf.len() - pos < 8 {
        return None;
    }
    let b0 = buf[pos];
    let b1 = buf[pos + 1];
    let b2 = buf[pos + 2];
    let b3 = buf[pos + 3];
    let b4 = buf[pos + 4];
    let b5 = buf[pos + 5];
    let b6 = buf[pos + 6];
    let b7 = buf[pos + 7];
    let n: u64 = (b0 as u64) | ((b1 as u64) << 8) | ((b2 as u64) << 16) | ((b3 as u64) << 24) | ((
    b4 as u64) << 32) | ((b5 as u64) << 40) | ((b6 as u64) << 48) | ((b7 as u64) << 56);
    proof {
        let bb0 = b0;
        let bb1 = b1;
        let bb2 = b2;
        let bb3 = b3;
        let bb4 = b4;
        let bb5 = b5;
        let bb6 = b6;
        let bb7 = b7;
        let m: u64 = (bb0 as u64) | ((bb1 as u64) << 8) | ((bb2 as u64) << 16) | ((bb3
            as u64) << 24) | ((bb4 as u64) << 32) | ((bb5 as u64) << 40) | ((bb6 as u64) << 48) | ((
        bb7 as u64) << 56);
        assert(m == ((bb0 as u64) | ((bb1 as u64) << 8) | ((bb2 as u64) << 16) | ((bb3
            as u64) << 24) | ((bb4 as u64) << 32) | ((bb5 as u64) << 40) | ((bb6 as u64) << 48) | ((
        bb7 as u64) << 56)) ==> (m & 0xff) as u8 == bb0 && ((m >> 8) & 0xff) as u8 == bb1 && ((m
            >> 16) & 0xff) as u8 == bb2 && ((m >> 24) & 0xff) as u8 == bb3 && ((m >> 32) & 0xff)
            as u8 == bb4 && ((m >> 40) & 0xff) as u8 == bb5 && ((m >> 48) & 0xff) as u8 == bb6 && ((
        m >> 56) & 0xff) as u8 == bb7) by (bit_vector);
        assert(buf@.subrange(pos as int, pos + 8 as int) =~= enc_u64(n));
    }
    Some((n, pos + 8))
}

/// Read a flag byte at `pos`; any byte other than 0 or 1 is refused.
pub fn read_bool(buf: &Vec<u8>, pos: usize) -> (r: Option<(bool, usize)>)
    ensures
        (r is Some) == (pos + 1 <= buf@.len() && (buf@[pos as int] == 0 || buf@[pos as int] == 1)),
        r matches Some((b, p)) ==> p == pos + 1 && buf@.subrange(pos as int, p as int) == enc_bool(
            b,
        ),
{
    if pos >= buf.len() {
        return None;
    }
    let byte = buf[pos];
    if byte == 0 {
        proof {
            assert(buf@.subrange(pos as int, pos + 1 as int) =~= enc_bool(false));
        }
        Some((false, pos + 1))
    } else if byte == 1 {
        proof {
            assert(buf@.subrange(pos as int, pos + 1 as int) =~= enc_bool(true));
        }
        Some((true, pos + 1))
    } else {
        None
    }
}

/// Read a length-prefixed chunk at `pos`. Succeeds exactly when the length
/// field and that many bytes fit in the buffer.
pub fn read_chunk(buf: &Vec<u8>, pos: usize) -> (r: Option<(Vec<u8>, usize)>)
    ensures
        r matches Some((v, p)) ==> pos <= p <= buf@.len() && buf@.subrange(pos as int, p as int)
            == enc_chunk(v@) && p == pos + 4 + v@.len() && v@.len() <= u32::MAX && v@
            == buf@.subrange(pos + 4 as int, p as int),
        (r is Some) == (pos + 4 <= buf@.len() && pos + 4 + le_u32(
            buf@[pos as int],
            buf@[pos + 1 as int],
            buf@[pos + 2 as int],
            buf@[pos + 3 as int],
        ) <= buf@.len()),
        forall|b: Seq<u8>|
            pos + 4 + b.len() <= buf@.len() && buf@.subrange(
                pos as int,
                pos + 4 + b.len() as int,
            ) == enc_chunk(b) ==> r is Some,
{
    let lp = match read_u32(buf, pos) {
        Some(x) => x,
        None => {
            proof {
                assert forall|b: Seq<u8>|
                    pos + 4 + b.len() <= buf@.len() && buf@.subrange(
                        pos as int,
                        pos + 4 + b.len() as int,
                    ) == enc_chunk(b) implies false by {}
            }
            return None;
        },
    };
    let len = lp.0;
    let body_start = lp.1;
    if (buf.len() - body_start) < (len as usize) {
        proof {
            assert forall|b: Seq<u8>|
                pos + 4 + b.len() <= buf@.len() && buf@.subrange(
                    pos as int,
                    pos + 4 + b.len() as int,
                ) == enc_chunk(b) implies false by {
                let whole = buf@.subrange(pos as int, pos + 4 + b.len() as int);
                assert(whole.subrange(0, 4) =~= buf@.subrange(pos as int, pos + 4 as int));
                assert(enc_chunk(b).subrange(0, 4) =~= enc_u32(b.len() as u32));
                lemma_enc_u32_injective(len, b.len() as u32);
            }
        }
        return None;
    }
    let body_end = body_start + (len as usize);
    let body = copy_range(buf, body_start, body_end);
    proof {
        assert(buf@.subrange(pos as int, body_end as int) =~= enc_chunk(body@));
    }
    Some((body, body_end))
}

} // verus!
