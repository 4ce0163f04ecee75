//! Reordering reassembly: packets arrive in any order, and leave strictly
//! by sequence number, each exactly as it arrived. Draining a buffer that
//! holds every number therefore writes the bytes in their original order.

use vstd::prelude::*;

use crate::stream::SequencedPacket;

verus! {

/// No sequence number appears twice.
pub open spec fn sb_wf(s: Seq<SequencedPacket>) -> bool {
    forall|i: int, j: int|
        0 <= i < j < s.len() ==> (#[trigger] s[i]).sequence_number != (
        #[trigger] s[j]).sequence_number
}

/// Does the buffer hold number `n`?
pub open spec fn sb_has(s: Seq<SequencedPacket>, n: u64) -> bool {
    exists|i: int| 0 <= i < s.len() && (#[trigger] s[i]).sequence_number == n
}

/// Where number `n` sits.
pub open spec fn sb_index(s: Seq<SequencedPacket>, n: u64) -> int {
    choose|i: int| 0 <= i < s.len() && (#[trigger] s[i]).sequence_number == n
}

/// The packet holding number `n`.
pub open spec fn sb_at(s: Seq<SequencedPacket>, n: u64) -> SequencedPacket {
    s[sb_index(s, n)]
}

/// Holds out-of-order packets until their turn comes.
#[derive(Debug)]
pub struct SequenceBuffer {
    pub buffer: Vec<SequencedPacket>,
    pub next_expected: u64,
}

impl SequenceBuffer {
    pub open spec fn wf(&self) -> bool {
        sb_wf(self.buffer@)
    }

    pub fn new() -> (r: SequenceBuffer)
        ensures
            r.wf(),
            r.buffer@.len() == 0,
            r.next_expected == 0,
    {
        SequenceBuffer { buffer: Vec::new(), next_expected: 0 }
    }

    fn find(&self, n: u64) -> (r: Option<usize>)
        requires
            self.wf(),
        ensures
            (r is Some) == sb_has(self.buffer@, n),
            r matches Some(i) ==> i < self.buffer@.len()
                && self.buffer@[i as int].sequence_number == n && i == sb_index(self.buffer@, n),
    {
        let mut i: usize = 0;
        while i < self.buffer.len()
            invariant
                i <= self.buffer@.len(),
                self.wf(),
                forall|j: int| 0 <= j < i ==> (#[trigger] self.buffer@[j]).sequence_number != n,
            decreases self.buffer@.len() - i,
        {
            if self.buffer[i].sequence_number == n {
                proof {
                    let j = sb_index(self.buffer@, n);
                    assert(0 <= j < self.buffer@.len() && self.buffer@[j].sequence_number == n);
                    if j != i {
                        assert(self.buffer@[j].sequence_number
                            != self.buffer@[i as int].sequence_number || j == i);
                    }
                }
                return Some(i);
            }
            i = i + 1;
        }
        proof {
            if sb_has(self.buffer@, n) {
                let j = sb_index(self.buffer@, n);
                assert(self.buffer@[j].sequence_number != n);
            }
        }
        None
    }

    /// Take one packet in: a number already seen, or already delivered, is
    /// dropped; anything else waits its turn.
    pub fn push(&mut self, packet: SequencedPacket)
        requires
            old(self).wf(),
        ensures
            final(self).wf(),
            final(self).next_expected == old(self).next_expected,
            (packet.sequence_number < old(self).next_expected || sb_has(
                old(self).buffer@,
                packet.sequence_number,
            )) ==> final(self).buffer@ == old(self).buffer@,
            !(packet.sequence_number < old(self).next_expected || sb_has(
                old(self).buffer@,
                packet.sequence_number,
            )) ==> final(self).buffer@ == old(self).buffer@.push(packet),
    {
        if packet.sequence_number < self.next_expected {
            return ;
        }
        if self.find(packet.sequence_number).is_some() {
            return ;
        }
        self.buffer.push(packet);
    }

    /// Hand out the next packet in order, exactly as it arrived, or nothing
    /// if its turn has not come.
    pub fn poll(&mut self) -> (r: Option<SequencedPacket>)
        requires
            old(self).wf(),
        ensures
            final(self).wf(),
            !sb_has(old(self).buffer@, old(self).next_expected) ==> r is None
                && final(self).buffer@ == old(self).buffer@ && final(self).next_expected == old(
                self,
            ).next_expected,
            sb_has(old(self).buffer@, old(self).next_expected) ==> (r matches Some(p) && p == sb_at(
                old(self).buffer@,
                old(self).next_expected,
            ) && final(self).buffer@ == old(self).buffer@.remove(
                sb_index(old(self).buffer@, old(self).next_expected),
            ) && final(self).next_expected == (if old(self).next_expected < u64::MAX {
                old(self).next_expected + 1
            } else {
                old(self).next_expected as int
            })),
    {
        let at = match self.find(self.next_expected) {
            Some(i) => i,
            None => {
                return None;
            },
        };
        let packet = self.buffer.remove(at);
        if self.next_expected < u64::MAX {
            self.next_expected = self.next_expected + 1;
        }
        proof {
            assert forall|i: int, j: int|
                0 <= i < j < self.buffer@.len() implies (#[trigger] self.buffer@[i]).sequence_number
                != (#[trigger] self.buffer@[j]).sequence_number by {
                assert(self.buffer@ == old(self).buffer@.remove(at as int));
            }
        }
        Some(packet)
    }
}

/// Once a buffer holds a packet for its next number, that packet, and no
/// other, is what leaves next: delivery order is sequence order, and each
/// packet leaves exactly as it arrived.
pub proof fn lemma_next_out_is_next_number(s: Seq<SequencedPacket>, n: u64)
    requires
        sb_wf(s),
        sb_has(s, n),
    ensures
        sb_at(s, n).sequence_number == n,
        forall|i: int|
            0 <= i < s.len() && (#[trigger] s[i]).sequence_number == n ==> s[i] == sb_at(s, n),
{
    let j = sb_index(s, n);
    assert forall|i: int|
        0 <= i < s.len() && (#[trigger] s[i]).sequence_number == n implies s[i] == sb_at(s, n) by {
        if i != j {
            assert(s[i].sequence_number != s[j].sequence_number || i == j);
        }
    }
}

} // verus!
