//! The onion envelope engine's data: CORES packages in their three states
//! (incipient at the originator, live on the wire, expired at a consumer),
//! the live package's wire layout with its round-trip laws, and the per-hop
//! peel decision.

use vstd::prelude::*;

use crate::cryptde::{null_ciphertext, null_plaintext, CryptDENull, CryptData, CryptdeError, PublicKey};
use crate::node_addr::IpAddress;
use crate::route::{
    elem_sizes_ok, elem_wallet_ok, enc_elem, lemma_enc_elem_injective, wallet_opt_view, Component,
    Route, RouteElement,
};
use crate::wallet::Wallet;
use crate::wire::{
    enc_chunk, enc_chunks, enc_u16, le_u16, le_u32, lemma_le_enc_u16, lemma_le_enc_u32,
    lemma_enc_chunks_push, push_chunk, push_u16, read_chunk, read_u16,
};

verus! {

/// A package prepared at the originator: a route, and the payload already
/// sealed to its final destination.
#[derive(Debug, PartialEq, Eq)]
pub struct IncipientCoresPackage {
    pub route: Route,
    pub payload: CryptData,
}

impl Clone for IncipientCoresPackage {
    fn clone(&self) -> (r: Self)
        ensures
            r.route@ == self.route@,
            r.payload@ == self.payload@,
    {
        IncipientCoresPackage { route: self.route.clone(), payload: self.payload.clone() }
    }
}

impl IncipientCoresPackage {
    /// Seal `payload` to `payload_destination_key` and wrap it with `route`.
    /// Refused exactly when the destination key is empty.
    pub fn new(
        cryptde: &CryptDENull,
        route: Route,
        payload: &[u8],
        payload_destination_key: &PublicKey,
    ) -> (r: Result<IncipientCoresPackage, CryptdeError>)
        ensures
            payload_destination_key@.len() == 0 ==> r == Err::<
                IncipientCoresPackage,
                CryptdeError,
            >(CryptdeError::EmptyKey),
            payload_destination_key@.len() > 0 ==> (r matches Ok(icp) && icp.route@ == route@
                && icp.payload@ == null_ciphertext(payload_destination_key@, payload@)),
    {
        match cryptde.encode(payload_destination_key, payload) {
            Ok(ct) => Ok(IncipientCoresPackage { route, payload: ct }),
            Err(e) => Err(e),
        }
    }
}

/// A package on the wire: the remaining route and the sealed payload.
#[derive(Debug, PartialEq, Eq)]
pub struct LiveCoresPackage {
    pub route: Route,
    pub payload: CryptData,
}

impl Clone for LiveCoresPackage {
    fn clone(&self) -> (r: Self)
        ensures
            r.route@ == self.route@,
            r.payload@ == self.payload@,
    {
        LiveCoresPackage { route: self.route.clone(), payload: self.payload.clone() }
    }
}

/// The wire layout of a live package: a hop count, the hop ciphertexts as
/// chunks, then the sealed payload as a chunk.
pub open spec fn enc_lcp(hops: Seq<Seq<u8>>, payload: Seq<u8>) -> Seq<u8> {
    enc_u16(hops.len() as u16) + enc_chunks(hops) + enc_chunk(payload)
}

/// Sizes the layout can carry.
pub open spec fn lcp_sizes_ok(hops: Seq<Seq<u8>>, payload: Seq<u8>) -> bool {
    &&& hops.len() <= u16::MAX
    &&& payload.len() <= u32::MAX
    &&& forall|i: int| 0 <= i < hops.len() ==> (#[trigger] hops[i]).len() <= u32::MAX
}

/// What parsing one chunk at `pos` yields.
pub open spec fn dec_chunk_spec(buf: Seq<u8>, pos: int) -> Option<(Seq<u8>, int)> {
    if 0 <= pos && pos + 4 <= buf.len() {
        let n = le_u32(buf[pos], buf[pos + 1], buf[pos + 2], buf[pos + 3]) as int;
        if pos + 4 + n <= buf.len() {
            Some((buf.subrange(pos + 4, pos + 4 + n), pos + 4 + n))
        } else {
            None
        }
    } else {
        None
    }
}

/// What parsing `count` chunks in a row at `pos` yields.
pub open spec fn dec_chunks_spec(buf: Seq<u8>, pos: int, count: int) -> Option<(Seq<Seq<u8>>, int)>
    decreases count,
{
    if count <= 0 {
        Some((Seq::empty(), pos))
    } else {
        match dec_chunk_spec(buf, pos) {
            None => None,
            Some((c, p)) => match dec_chunks_spec(buf, p, count - 1) {
                None => None,
                Some((rest, p2)) => Some((seq![c] + rest, p2)),
            },
        }
    }
}

/// What parsing a whole buffer as a live package yields.
pub open spec fn dec_lcp_spec(buf: Seq<u8>) -> Option<(Seq<Seq<u8>>, Seq<u8>)> {
    if 2 <= buf.len() {
        let count = le_u16(buf[0], buf[1]) as int;
        match dec_chunks_spec(buf, 2, count) {
            None => None,
            Some((hops, p)) => match dec_chunk_spec(buf, p) {
                None => None,
                Some((payload, p2)) => if p2 == buf.len() {
                    Some((hops, payload))
                } else {
                    None
                },
            },
        }
    } else {
        None
    }
}

proof fn lemma_dec_chunks_of_enc(buf: Seq<u8>, pos: int, hs: Seq<Seq<u8>>)
    requires
        forall|i: int| 0 <= i < hs.len() ==> (#[trigger] hs[i]).len() <= u32::MAX,
        0 <= pos,
        pos + enc_chunks(hs).len() <= buf.len(),
        buf.subrange(pos, pos + enc_chunks(hs).len()) == enc_chunks(hs),
    ensures
        dec_chunks_spec(buf, pos, hs.len() as int) == Some((hs, pos + enc_chunks(hs).len() as int)),
    decreases hs.len(),
{
    let all = enc_chunks(hs);
    if hs.len() == 0 {
        assert(dec_chunks_spec(buf, pos, 0) == Some((Seq::<Seq<u8>>::empty(), pos)));
        assert(hs =~= Seq::<Seq<u8>>::empty());
    } else {
        let h0 = hs[0];
        let c0 = enc_chunk(h0);
        let tail = enc_chunks(hs.skip(1));
        assert(all == c0 + tail);
        assert forall|j: int| 0 <= j < all.len() implies buf[pos + j] == all[j] by {
            assert(buf.subrange(pos, pos + all.len())[j] == all[j]);
        }
        assert(buf.subrange(pos, pos + 4) =~= crate::wire::enc_u32(h0.len() as u32));
        lemma_le_enc_u32(h0.len() as u32);
        assert(le_u32(buf[pos], buf[pos + 1], buf[pos + 2], buf[pos + 3]) == h0.len() as u32);
        let p1 = pos + 4 + h0.len() as int;
        assert(dec_chunk_spec(buf, pos) == Some((buf.subrange(pos + 4, p1), p1)));
        assert forall|i: int| 0 <= i < h0.len() implies buf.subrange(pos + 4, p1)[i] == h0[i] by {
            assert(buf.subrange(pos, pos + all.len())[4 + i] == all[4 + i]);
            assert(all[4 + i] == c0[4 + i]);
            assert(c0[4 + i] == h0[i]);
        }
        assert(buf.subrange(pos + 4, p1) =~= h0);
        assert forall|i: int| 0 <= i < tail.len() implies buf.subrange(p1, p1 + tail.len())[i]
            == tail[i] by {
            assert(buf.subrange(pos, pos + all.len())[4 + h0.len() + i] == all[4 + h0.len() + i]);
            assert(all[4 + h0.len() + i] == tail[i]);
        }
        assert(buf.subrange(p1, p1 + tail.len()) =~= tail);
        assert(forall|i: int|
            0 <= i < hs.skip(1).len() ==> (#[trigger] hs.skip(1)[i]).len() <= u32::MAX);
        lemma_dec_chunks_of_enc(buf, p1, hs.skip(1));
        assert(seq![h0] + hs.skip(1) =~= hs);
        assert(dec_chunks_spec(buf, pos, hs.len() as int) == Some(
            (hs, pos + enc_chunks(hs).len() as int),
        ));
    }
}

proof fn lemma_dec_chunks_sound(buf: Seq<u8>, pos: int, count: int)
    requires
        dec_chunks_spec(buf, pos, count) is Some,
        count >= 0,
        0 <= pos <= buf.len(),
    ensures
        ({
            let (hs, p) = dec_chunks_spec(buf, pos, count)->Some_0;
            &&& hs.len() == count
            &&& pos <= p <= buf.len()
            &&& p == pos + enc_chunks(hs).len()
            &&& buf.subrange(pos, p) == enc_chunks(hs)
            &&& forall|i: int| 0 <= i < hs.len() ==> (#[trigger] hs[i]).len() <= u32::MAX
        }),
    decreases count,
{
    let (hs, p) = dec_chunks_spec(buf, pos, count)->Some_0;
    if count == 0 {
        assert(enc_chunks(hs).len() == 0);
        assert(buf.subrange(pos, pos) =~= enc_chunks(hs));
    } else {
        let (c0, p1) = dec_chunk_spec(buf, pos)->Some_0;
        let (rest, p2) = dec_chunks_spec(buf, p1, count - 1)->Some_0;
        lemma_dec_chunks_sound(buf, p1, count - 1);
        assert(hs == seq![c0] + rest);
        assert(hs[0] == c0);
        assert(hs.skip(1) =~= rest);
        let n = le_u32(buf[pos], buf[pos + 1], buf[pos + 2], buf[pos + 3]);
        assert(c0 == buf.subrange(pos + 4, pos + 4 + n as int));
        assert(c0.len() == n);
        crate::wire::lemma_enc_le_u32(buf[pos], buf[pos + 1], buf[pos + 2], buf[pos + 3]);
        assert(crate::wire::enc_u32(c0.len() as u32) == seq![
            buf[pos],
            buf[pos + 1],
            buf[pos + 2],
            buf[pos + 3],
        ]);
        assert(enc_chunks(hs) == enc_chunk(c0) + enc_chunks(rest));
        assert forall|j: int| 0 <= j < p - pos implies buf.subrange(pos, p)[j] == enc_chunks(
            hs,
        )[j] by {
            if j < 4 {
                assert(enc_chunk(c0)[j] == crate::wire::enc_u32(c0.len() as u32)[j]);
            } else if j < 4 + c0.len() {
                assert(enc_chunk(c0)[j] == c0[j - 4]);
                assert(c0[j - 4] == buf[pos + j]);
            } else {
                assert(enc_chunks(hs)[j] == enc_chunks(rest)[j - 4 - c0.len()]);
                assert(buf.subrange(p1, p2)[j - 4 - c0.len()] == enc_chunks(rest)[j - 4
                    - c0.len()]);
            }
        }
        assert(buf.subrange(pos, p) =~= enc_chunks(hs));
    }
}

proof fn lemma_enc_lcp_layout(hops: Seq<Seq<u8>>, payload: Seq<u8>)
    ensures
        ({
            let buf = enc_lcp(hops, payload);
            let p = 2 + enc_chunks(hops).len() as int;
            &&& buf.len() == 2 + enc_chunks(hops).len() + 4 + payload.len()
            &&& buf.subrange(0, 2) == enc_u16(hops.len() as u16)
            &&& buf.subrange(2, p) == enc_chunks(hops)
            &&& buf.subrange(p, p + 4) == crate::wire::enc_u32(payload.len() as u32)
            &&& buf.subrange(p + 4, buf.len() as int) == payload
        }),
{
    let buf = enc_lcp(hops, payload);
    let a = enc_u16(hops.len() as u16);
    let b = enc_chunks(hops);
    let c = enc_chunk(payload);
    let p = 2 + b.len() as int;
    assert(buf == a + b + c);
    assert forall|i: int| 0 <= i < 2 implies buf.subrange(0, 2)[i] == a[i] by {
        assert(buf[i] == (a + b + c)[i]);
    }
    assert(buf.subrange(0, 2) =~= a);
    assert forall|i: int| 0 <= i < b.len() implies buf.subrange(2, p)[i] == b[i] by {
        assert(buf[2 + i] == (a + b + c)[2 + i]);
    }
    assert(buf.subrange(2, p) =~= b);
    assert(c == crate::wire::enc_u32(payload.len() as u32) + payload);
    assert forall|i: int| 0 <= i < 4 implies #[trigger] buf.subrange(p, p + 4)[i]
        == crate::wire::enc_u32(payload.len() as u32)[i] by {
        assert(buf[p + i] == (a + b + c)[p + i]);
        assert((a + b + c)[p + i] == c[i]);
    }
    assert(buf.subrange(p, p + 4) =~= crate::wire::enc_u32(payload.len() as u32));
    assert forall|i: int| 0 <= i < payload.len() implies buf.subrange(p + 4, buf.len() as int)[i]
        == payload[i] by {
        assert(buf[p + 4 + i] == (a + b + c)[p + 4 + i]);
        assert((a + b + c)[p + 4 + i] == c[4 + i]);
        assert(c[4 + i] == payload[i]);
    }
    assert(buf.subrange(p + 4, buf.len() as int) =~= payload);
}

/// Parsing the encoding of a live package yields exactly its hops and
/// payload: decode after encode is the identity.
#[verifier::rlimit(80)]
pub proof fn lemma_lcp_round_trip(hops: Seq<Seq<u8>>, payload: Seq<u8>)
    requires
        lcp_sizes_ok(hops, payload),
    ensures
        dec_lcp_spec(enc_lcp(hops, payload)) == Some((hops, payload)),
{
    let buf = enc_lcp(hops, payload);
    let p = 2 + enc_chunks(hops).len() as int;
    lemma_enc_lcp_layout(hops, payload);
    assert(buf[0] == buf.subrange(0, 2)[0]);
    assert(buf[1] == buf.subrange(0, 2)[1]);
    lemma_le_enc_u16(hops.len() as u16);
    assert(le_u16(buf[0], buf[1]) == hops.len() as u16);
    lemma_dec_chunks_of_enc(buf, 2, hops);
    assert(dec_chunks_spec(buf, 2, hops.len() as int) == Some((hops, p)));
    assert(buf[p] == buf.subrange(p, p + 4)[0]);
    assert(buf[p + 1] == buf.subrange(p, p + 4)[1]);
    assert(buf[p + 2] == buf.subrange(p, p + 4)[2]);
    assert(buf[p + 3] == buf.subrange(p, p + 4)[3]);
    lemma_le_enc_u32(payload.len() as u32);
    assert(le_u32(buf[p], buf[p + 1], buf[p + 2], buf[p + 3]) == payload.len() as u32);
    assert(dec_chunk_spec(buf, p) == Some((buf.subrange(p + 4, buf.len() as int), buf.len() as int)));
    assert(dec_lcp_spec(buf) == Some((hops, payload)));
}

/// A buffer that parses as a live package is exactly that package's
/// encoding: encode after decode is the identity.
pub proof fn lemma_lcp_sound(buf: Seq<u8>)
    requires
        dec_lcp_spec(buf) is Some,
    ensures
        ({
            let (hops, payload) = dec_lcp_spec(buf)->Some_0;
            buf == enc_lcp(hops, payload) && lcp_sizes_ok(hops, payload)
        }),
{
    let (hops, payload) = dec_lcp_spec(buf)->Some_0;
    let count = le_u16(buf[0], buf[1]) as int;
    lemma_dec_chunks_sound(buf, 2, count);
    let (hs, p) = dec_chunks_spec(buf, 2, count)->Some_0;
    let n = le_u32(buf[p], buf[p + 1], buf[p + 2], buf[p + 3]);
    assert(payload == buf.subrange(p + 4, p + 4 + n as int));
    assert(payload.len() == n);
    crate::wire::lemma_enc_le_u16(buf[0], buf[1]);
    assert(crate::wire::enc_u16(count as u16) == seq![buf[0], buf[1]]);
    crate::wire::lemma_enc_le_u32(buf[p], buf[p + 1], buf[p + 2], buf[p + 3]);
    assert(crate::wire::enc_u32(payload.len() as u32) == seq![
        buf[p],
        buf[p + 1],
        buf[p + 2],
        buf[p + 3],
    ]);
    let mid = enc_chunks(hs);
    assert forall|j: int| 0 <= j < buf.len() implies buf[j] == enc_lcp(hops, payload)[j] by {
        if j < 2 {
        } else if j < p {
            assert(buf.subrange(2, p)[j - 2] == mid[j - 2]);
        } else if j < p + 4 {
        } else {
            assert(payload[j - p - 4] == buf[j]);
        }
    }
    assert(buf =~= enc_lcp(hops, payload));
}

impl LiveCoresPackage {
    pub fn new(route: Route, payload: CryptData) -> (r: LiveCoresPackage)
        ensures
            r.route@ == route@,
            r.payload@ == payload@,
    {
        LiveCoresPackage { route, payload }
    }

    /// An incipient package goes on the wire unchanged: the originator's own
    /// hop is peeled by its own hopper, like everyone else's.
    pub fn from_incipient(icp: IncipientCoresPackage) -> (r: LiveCoresPackage)
        ensures
            r.route@ == icp.route@,
            r.payload@ == icp.payload@,
    {
        LiveCoresPackage { route: icp.route, payload: icp.payload }
    }

    /// Serialize for the wire.
    pub fn encode(&self) -> (r: Vec<u8>)
        requires
            lcp_sizes_ok(self.route@, self.payload@),
        ensures
            r@ == enc_lcp(self.route@, self.payload@),
    {
        let mut out: Vec<u8> = Vec::new();
        push_u16(&mut out, self.route.hops.len() as u16);
        let mut i: usize = 0;
        proof {
            assert(self.route@.subrange(0, 0) =~= Seq::<Seq<u8>>::empty());
            assert(out@ =~= enc_u16(self.route@.len() as u16) + enc_chunks(
                self.route@.subrange(0, 0),
            ));
        }
        while i < self.route.hops.len()
            invariant
                i <= self.route@.len(),
                lcp_sizes_ok(self.route@, self.payload@),
                out@ == enc_u16(self.route@.len() as u16) + enc_chunks(
                    self.route@.subrange(0, i as int),
                ),
            decreases self.route@.len() - i,
        {
            proof {
                assert(self.route@[i as int].len() <= u32::MAX);
            }
            push_chunk(&mut out, self.route.hops[i].data.as_slice());
            i = i + 1;
            proof {
                lemma_enc_chunks_push(self.route@.subrange(0, i - 1 as int), self.route@[i - 1]);
                assert(self.route@.subrange(0, i as int) =~= self.route@.subrange(
                    0,
                    i - 1 as int,
                ).push(self.route@[i - 1]));
                assert(out@ =~= enc_u16(self.route@.len() as u16) + enc_chunks(
                    self.route@.subrange(0, i as int),
                ));
            }
        }
        push_chunk(&mut out, self.payload.data.as_slice());
        proof {
            assert(self.route@.subrange(0, self.route@.len() as int) =~= self.route@);
            assert(out@ =~= enc_lcp(self.route@, self.payload@));
        }
        out
    }

    /// Parse a whole buffer as a live package: exactly the spec-level parse.
    pub fn decode(buf: &Vec<u8>) -> (r: Option<LiveCoresPackage>)
        ensures
            (match dec_lcp_spec(buf@) {
                None => r is None,
                Some((hops, payload)) => r matches Some(lcp) && lcp.route@ == hops && lcp.payload@
                    == payload,
            }),
    {
        let cp = match read_u16(buf, 0) {
            Some(x) => x,
            None => {
                return None;
            },
        };
        let count = cp.0;
        let mut pos: usize = cp.1;
        let mut hops: Vec<CryptData> = Vec::new();
        let ghost hops_total = count as int;
        let mut k: usize = 0;
        proof {
            assert(Seq::new(hops@.len(), |i: int| hops@[i]@) =~= Seq::<Seq<u8>>::empty());
        }
        while k < count as usize
            invariant
                k <= count,
                hops@.len() == k,
                pos <= buf@.len(),
                2 <= buf@.len(),
                count == le_u16(buf@[0], buf@[1]),
                (match dec_chunks_spec(buf@, pos as int, count - k) {
                    None => dec_chunks_spec(buf@, 2, count as int) is None,
                    Some((rest, end)) => dec_chunks_spec(buf@, 2, count as int) == Some(
                        (Seq::new(hops@.len(), |i: int| hops@[i]@) + rest, end),
                    ),
                }),
            decreases count - k,
        {
            let ghost old_hops = hops@;
            let ghost old_pos = pos as int;
            let chunk = match read_chunk(buf, pos) {
                Some(x) => x,
                None => {
                    proof {
                        lemma_le_enc_u32(0);
                        assert(dec_chunk_spec(buf@, old_pos) is None);
                        assert(dec_chunks_spec(buf@, old_pos, count - k) is None);
                    }
                    return None;
                },
            };
            proof {
                let (v, p) = (chunk.0@, chunk.1 as int);
                assert(buf@.subrange(old_pos, old_pos + 4) =~= crate::wire::enc_u32(
                    v.len() as u32,
                ));
                lemma_le_enc_u32(v.len() as u32);
                assert(dec_chunk_spec(buf@, old_pos) == Some((v, p)));
            }
            hops.push(CryptData { data: chunk.0 });
            pos = chunk.1;
            k = k + 1;
            proof {
                let hv = Seq::new(hops@.len(), |i: int| hops@[i]@);
                let hv_old = Seq::new(old_hops.len(), |i: int| old_hops[i]@);
                match dec_chunks_spec(buf@, pos as int, count - k) {
                    None => {},
                    Some((rest, end)) => {
                        assert(hv + rest =~= hv_old + (seq![hops@[k - 1]@] + rest));
                    },
                }
            }
        }
        let pl = match read_chunk(buf, pos) {
            Some(x) => x,
            None => {
                proof {
                    lemma_le_enc_u32(0);
                    assert(dec_chunk_spec(buf@, pos as int) is None);
                }
                return None;
            },
        };
        proof {
            assert(buf@.subrange(pos as int, pos + 4 as int) =~= crate::wire::enc_u32(
                pl.0@.len() as u32,
            ));
            lemma_le_enc_u32(pl.0@.len() as u32);
            assert(dec_chunk_spec(buf@, pos as int) == Some((pl.0@, pl.1 as int)));
        }
        if pl.1 != buf.len() {
            return None;
        }
        let lcp = LiveCoresPackage { route: Route { hops }, payload: CryptData { data: pl.0 } };
        proof {
            assert(lcp.route@ =~= dec_lcp_spec(buf@)->Some_0.0);
        }
        Some(lcp)
    }
}

/// A package that arrived at its consumer: who handed it over, whom to bill,
/// the route that remains (the return path), and the still-sealed payload.
#[derive(Debug, PartialEq, Eq)]
pub struct ExpiredCoresPackage {
    pub immediate_neighbor_ip: IpAddress,
    pub consuming_wallet: Option<Wallet>,
    pub remaining_route: Route,
    pub payload: CryptData,
}

impl ExpiredCoresPackage {
    pub fn new(
        immediate_neighbor_ip: IpAddress,
        consuming_wallet: Option<Wallet>,
        remaining_route: Route,
        payload: CryptData,
    ) -> (r: ExpiredCoresPackage)
        ensures
            r.immediate_neighbor_ip == immediate_neighbor_ip,
            wallet_opt_view(r.consuming_wallet) == wallet_opt_view(consuming_wallet),
            r.remaining_route@ == remaining_route@,
            r.payload@ == payload@,
    {
        ExpiredCoresPackage { immediate_neighbor_ip, consuming_wallet, remaining_route, payload }
    }

    /// The sealed payload bytes, for logging a package that went wrong.
    pub fn payload_data(&self) -> (r: &CryptData)
        ensures
            r@ == self.payload@,
    {
        &self.payload
    }
}

/// What a hop's plaintext parses to, if it parses as a route element.
pub open spec fn parse_elem(pt: Seq<u8>) -> Option<(Seq<u8>, Component, Option<Seq<char>>)> {
    if exists|k: Seq<u8>, c: Component, w: Option<Seq<char>>|
        elem_sizes_ok(k, w) && elem_wallet_ok(w) && pt == enc_elem(k, c, w) {
        Some(
            choose|k: Seq<u8>, c: Component, w: Option<Seq<char>>|
                elem_sizes_ok(k, w) && elem_wallet_ok(w) && pt == enc_elem(k, c, w),
        )
    } else {
        None
    }
}

/// What the hopper decided about one inbound package.
#[derive(Debug)]
pub enum PeelOutcome {
    /// Send the shortened package on to the holder of `next_key`, and bill
    /// `consuming_wallet` for the relay work.
    Forward { next_key: PublicKey, package: LiveCoresPackage, consuming_wallet: Option<Wallet> },
    /// Hand the payload to a local component.
    Deliver { component: Component, package: ExpiredCoresPackage },
    /// Drop the package; it was junk or not ours.
    Discard { reason: DiscardReason },
}

/// Why a package was dropped rather than routed.
#[derive(Clone, Copy, Debug, PartialEq, Eq, Structural)]
pub enum DiscardReason {
    EmptyRoute,
    UndecryptableHop,
    MalformedHop,
}

/// Peel one hop: decrypt the outermost route element with the local key and
/// decide whether to forward, deliver locally, or drop. Never panics; every
/// malformed package becomes a `Discard`.
pub fn peel(cryptde: &CryptDENull, package: LiveCoresPackage, immediate_neighbor_ip: IpAddress) -> (r:
    PeelOutcome)
    ensures
        package.route@.len() == 0 ==> (r matches PeelOutcome::Discard { reason } && reason
            == DiscardReason::EmptyRoute),
        package.route@.len() > 0 ==> (match null_plaintext(cryptde.spec_key(), package.route@[0]) {
            Err(_) => (r matches PeelOutcome::Discard { reason } && reason
                == DiscardReason::UndecryptableHop),
            Ok(pt) => (match parse_elem(pt) {
                None => (r matches PeelOutcome::Discard { reason } && reason
                    == DiscardReason::MalformedHop),
                Some((k, c, w)) => if c == Component::Routing {
                    r matches PeelOutcome::Forward { next_key, package: fwd, consuming_wallet }
                        && next_key@ == k && wallet_opt_view(consuming_wallet) == w && fwd.route@
                        == package.route@.skip(1) && fwd.payload@ == package.payload@
                } else {
                    r matches PeelOutcome::Deliver { component, package: del } && component == c
                        && del.immediate_neighbor_ip == immediate_neighbor_ip && wallet_opt_view(
                        del.consuming_wallet,
                    ) == w && del.remaining_route@ == package.route@.skip(1) && del.payload@
                        == package.payload@
                },
            }),
        }),
{
    let LiveCoresPackage { route, payload } = package;
    let mut hops = route.hops;
    if hops.len() == 0 {
        return PeelOutcome::Discard { reason: DiscardReason::EmptyRoute };
    }
    let first = hops.remove(0);
    let ghost rest_views = Seq::new(hops@.len(), |i: int| hops@[i]@);
    let pt = match cryptde.decode(&first) {
        Ok(p) => p,
        Err(_) => {
            return PeelOutcome::Discard { reason: DiscardReason::UndecryptableHop };
        },
    };
    let elem = match RouteElement::decode(&pt) {
        Some(e) => e,
        None => {
            proof {
                if parse_elem(pt@) is Some {
                    assert(false);
                }
            }
            return PeelOutcome::Discard { reason: DiscardReason::MalformedHop };
        },
    };
    proof {
        assert(parse_elem(pt@) is Some);
        let (k, c, w) = parse_elem(pt@)->Some_0;
        lemma_enc_elem_injective(
            k,
            c,
            w,
            elem.public_key@,
            elem.component,
            wallet_opt_view(elem.consuming_wallet),
        );
        assert(rest_views =~= package.route@.skip(1));
    }
    let shortened = Route { hops };
    match elem.component {
        Component::Routing => PeelOutcome::Forward {
            next_key: elem.public_key,
            package: LiveCoresPackage { route: shortened, payload },
            consuming_wallet: elem.consuming_wallet,
        },
        _ => PeelOutcome::Deliver {
            component: elem.component,
            package: ExpiredCoresPackage {
                immediate_neighbor_ip,
                consuming_wallet: elem.consuming_wallet,
                remaining_route: shortened,
                payload,
            },
        },
    }
}

} // verus!
