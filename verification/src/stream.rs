//! Stream plumbing shared by origin and exit: the key that correlates an
//! origin stream with its exit-side upstream connection, and the reassembly
//! unit that keeps byte order across reordered packages.

use vstd::prelude::*;

use crate::cryptde::clone_bytes;
use crate::wire::{
    enc_bool, enc_chunk, enc_u64, lemma_chunk_at, lemma_enc_u64_injective, push_bool, push_chunk,
    push_u64, read_bool, read_chunk, read_u64,
};

verus! {

/// The stable identifier tying an origin stream to its exit upstream.
#[derive(Debug, PartialEq, Eq, Hash)]
pub struct StreamKey {
    pub contents: Vec<u8>,
}

impl View for StreamKey {
    type V = Seq<u8>;

    open spec fn view(&self) -> Seq<u8> {
        self.contents@
    }
}

impl Clone for StreamKey {
    fn clone(&self) -> (r: Self)
        ensures
            r@ == self@,
    {
        StreamKey { contents: clone_bytes(&self.contents) }
    }
}

impl StreamKey {
    pub fn new(contents: &[u8]) -> (r: StreamKey)
        ensures
            r@ == contents@,
    {
        StreamKey { contents: vstd::slice::slice_to_vec(contents) }
    }
}

/// One reassembly unit: payload bytes, where they sit in the stream, and
/// whether the stream ends with them.
#[derive(Debug, PartialEq, Eq)]
pub struct SequencedPacket {
    pub data: Vec<u8>,
    pub sequence_number: u64,
    pub last_data: bool,
}

impl Clone for SequencedPacket {
    fn clone(&self) -> (r: Self)
        ensures
            r.data@ == self.data@,
            r.sequence_number == self.sequence_number,
            r.last_data == self.last_data,
    {
        SequencedPacket {
            data: clone_bytes(&self.data),
            sequence_number: self.sequence_number,
            last_data: self.last_data,
        }
    }
}

/// The byte layout of a sequenced packet.
pub open spec fn enc_sp(data: Seq<u8>, sequence_number: u64, last_data: bool) -> Seq<u8> {
    enc_chunk(data) + enc_u64(sequence_number) + enc_bool(last_data)
}

/// A data size the layout can carry.
pub open spec fn sp_sizes_ok(data: Seq<u8>) -> bool {
    data.len() <= u32::MAX
}

/// Two sequenced packets laid down at the same spot of the same buffer are
/// the same packet.
pub proof fn lemma_sp_at(
    buf: Seq<u8>,
    pos: int,
    d1: Seq<u8>,
    s1: u64,
    l1: bool,
    d2: Seq<u8>,
    s2: u64,
    l2: bool,
)
    requires
        sp_sizes_ok(d1),
        sp_sizes_ok(d2),
        0 <= pos,
        pos + enc_sp(d1, s1, l1).len() <= buf.len(),
        pos + enc_sp(d2, s2, l2).len() <= buf.len(),
        buf.subrange(pos, pos + enc_sp(d1, s1, l1).len()) == enc_sp(d1, s1, l1),
        buf.subrange(pos, pos + enc_sp(d2, s2, l2).len()) == enc_sp(d2, s2, l2),
    ensures
        d1 == d2,
        s1 == s2,
        l1 == l2,
{
    let e1 = enc_sp(d1, s1, l1);
    let e2 = enc_sp(d2, s2, l2);
    assert forall|j: int| 0 <= j < e1.len() implies buf[pos + j] == e1[j] by {
        assert(buf.subrange(pos, pos + e1.len())[j] == e1[j]);
    }
    assert forall|j: int| 0 <= j < e2.len() implies buf[pos + j] == e2[j] by {
        assert(buf.subrange(pos, pos + e2.len())[j] == e2[j]);
    }
    assert(buf.subrange(pos, pos + 4 + d1.len()) =~= enc_chunk(d1));
    assert(buf.subrange(pos, pos + 4 + d2.len()) =~= enc_chunk(d2));
    lemma_chunk_at(buf, pos, d1, d2);
    let q = pos + 4 + d1.len() as int;
    assert(enc_u64(s1) =~= enc_u64(s2)) by {
        assert forall|j: int| 0 <= j < 8 implies enc_u64(s1)[j] == enc_u64(s2)[j] by {
            assert(buf[q + j] == e1[4 + d1.len() + j]);
            assert(e1[4 + d1.len() + j] == enc_u64(s1)[j]);
            assert(buf[q + j] == e2[4 + d2.len() + j]);
            assert(e2[4 + d2.len() + j] == enc_u64(s2)[j]);
        }
    }
    lemma_enc_u64_injective(s1, s2);
    assert(e1[4 + d1.len() + 8 as int] == enc_bool(l1)[0]);
    assert(e2[4 + d2.len() + 8 as int] == enc_bool(l2)[0]);
    assert(enc_bool(l1)[0] == enc_bool(l2)[0]);
}

impl SequencedPacket {
    pub fn new(data: Vec<u8>, sequence_number: u64, last_data: bool) -> (r: SequencedPacket)
        ensures
            r.data@ == data@,
            r.sequence_number == sequence_number,
            r.last_data == last_data,
    {
        SequencedPacket { data, sequence_number, last_data }
    }

    /// Append this packet's layout to `out`.
    pub fn encode_onto(&self, out: &mut Vec<u8>)
        requires
            sp_sizes_ok(self.data@),
        ensures
            final(out)@ == old(out)@ + enc_sp(self.data@, self.sequence_number, self.last_data),
    {
        push_chunk(out, self.data.as_slice());
        push_u64(out, self.sequence_number);
        push_bool(out, self.last_data);
        proof {
            assert(out@ =~= old(out)@ + enc_sp(self.data@, self.sequence_number, self.last_data));
        }
    }

    /// Read one packet at `pos`. Succeeds exactly where a packet layout
    /// lies, and what it consumed is the layout of what it returned.
    pub fn read_at(buf: &Vec<u8>, pos: usize) -> (r: Option<(SequencedPacket, usize)>)
        ensures
            r matches Some((sp, p)) ==> pos <= p <= buf@.len() && sp_sizes_ok(sp.data@)
                && buf@.subrange(pos as int, p as int) == enc_sp(
                sp.data@,
                sp.sequence_number,
                sp.last_data,
            ) && p == pos + enc_sp(sp.data@, sp.sequence_number, sp.last_data).len(),
            forall|d: Seq<u8>, sq: u64, l: bool|
                sp_sizes_ok(d) && pos + enc_sp(d, sq, l).len() <= buf@.len() && buf@.subrange(
                    pos as int,
                    pos + enc_sp(d, sq, l).len() as int,
                ) == enc_sp(d, sq, l) ==> r is Some,
    {
        let chunk = match read_chunk(buf, pos) {
            Some(x) => x,
            None => {
                proof {
                    assert forall|d: Seq<u8>, sq: u64, l: bool|
                        sp_sizes_ok(d) && pos + enc_sp(d, sq, l).len() <= buf@.len()
                            && buf@.subrange(pos as int, pos + enc_sp(d, sq, l).len() as int)
                            == enc_sp(d, sq, l) implies false by {
                        lemma_sp_layout(buf@, pos as int, d, sq, l);
                    }
                }
                return None;
            },
        };
        let (data, p1) = chunk;
        proof {
            assert forall|d: Seq<u8>, sq: u64, l: bool|
                sp_sizes_ok(d) && pos + enc_sp(d, sq, l).len() <= buf@.len() && buf@.subrange(
                    pos as int,
                    pos + enc_sp(d, sq, l).len() as int,
                ) == enc_sp(d, sq, l) implies d == data@ by {
                lemma_sp_layout(buf@, pos as int, d, sq, l);
                lemma_chunk_at(buf@, pos as int, d, data@);
            }
        }
        let sq = match read_u64(buf, p1) {
            Some(x) => x,
            None => {
                proof {
                    assert forall|d: Seq<u8>, sq: u64, l: bool|
                        sp_sizes_ok(d) && pos + enc_sp(d, sq, l).len() <= buf@.len()
                            && buf@.subrange(pos as int, pos + enc_sp(d, sq, l).len() as int)
                            == enc_sp(d, sq, l) implies false by {
                        lemma_sp_layout(buf@, pos as int, d, sq, l);
                        lemma_chunk_at(buf@, pos as int, d, data@);
                    }
                }
                return None;
            },
        };
        let (seqno, p2) = sq;
        let lb = match read_bool(buf, p2) {
            Some(x) => x,
            None => {
                proof {
                    assert forall|d: Seq<u8>, sq: u64, l: bool|
                        sp_sizes_ok(d) && pos + enc_sp(d, sq, l).len() <= buf@.len()
                            && buf@.subrange(pos as int, pos + enc_sp(d, sq, l).len() as int)
                            == enc_sp(d, sq, l) implies false by {
                        lemma_sp_layout(buf@, pos as int, d, sq, l);
                        lemma_chunk_at(buf@, pos as int, d, data@);
                    }
                }
                return None;
            },
        };
        let (last, p3) = lb;
        let sp = SequencedPacket { data, sequence_number: seqno, last_data: last };
        proof {
            assert(buf@.subrange(pos as int, p3 as int) =~= enc_sp(
                sp.data@,
                sp.sequence_number,
                sp.last_data,
            ));
        }
        Some((sp, p3))
    }
}

/// How a buffer that holds a packet layout at `pos` is laid out.
pub proof fn lemma_sp_layout(buf: Seq<u8>, pos: int, d: Seq<u8>, sq: u64, l: bool)
    requires
        sp_sizes_ok(d),
        0 <= pos,
        pos + enc_sp(d, sq, l).len() <= buf.len(),
        buf.subrange(pos, pos + enc_sp(d, sq, l).len()) == enc_sp(d, sq, l),
    ensures
        buf.subrange(pos, pos + 4 + d.len()) == enc_chunk(d),
        buf.subrange(pos + 4 + d.len(), pos + 4 + d.len() + 8) == enc_u64(sq),
        buf.subrange(pos + 4 + d.len() + 8, pos + 4 + d.len() + 9) == enc_bool(l),
        buf[pos + 4 + d.len() + 8] == enc_bool(l)[0],
{
    let e = enc_sp(d, sq, l);
    assert forall|j: int| 0 <= j < e.len() implies buf[pos + j] == e[j] by {
        assert(buf.subrange(pos, pos + e.len())[j] == e[j]);
    }
    assert(buf.subrange(pos, pos + 4 + d.len()) =~= enc_chunk(d));
    let q = pos + 4 + d.len() as int;
    assert forall|i: int| 0 <= i < 8 implies #[trigger] buf.subrange(q, q + 8)[i] == enc_u64(
        sq,
    )[i] by {
        assert(buf[q + i] == e[4 + d.len() + i]);
        assert(e[4 + d.len() + i] == enc_u64(sq)[i]);
    }
    assert(buf.subrange(pos + 4 + d.len(), pos + 4 + d.len() + 8) =~= enc_u64(sq));
    assert(buf[q + 8] == e[4 + d.len() + 8 as int]);
    assert(e[4 + d.len() + 8 as int] == enc_bool(l)[0]);
    assert(buf.subrange(pos + 4 + d.len() + 8, pos + 4 + d.len() + 9) =~= enc_bool(l));
}

} // verus!
