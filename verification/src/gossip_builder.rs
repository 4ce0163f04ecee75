//! Assembling gossip by hand: collect record bodies, wire up who counts
//! whom as a neighbor, sign every record with its own key's envelope, and
//! optionally seal the lot into a CORES package for a neighborhood.

use vstd::prelude::*;

use crate::cryptde::{null_ciphertext, CryptDENull, PublicKey};
use crate::gossip::{
    addr_opt_view, chunks_len, enc_inner, inner_enc_len, inner_ok, inner_sizes_fit,
    lemma_enc_inner_len, record_signed, Gossip, GossipNodeRecord, NodeRecordInner, NodeSignatures,
};
use crate::hopper::IncipientCoresPackage;
use crate::neighborhood::NodeDescriptor;
use crate::route::{
    elem_sizes_ok, elem_wallet_ok, keys_view, route_hops, wallet_opt_view, Component, Route,
    RouteSegment,
};
use crate::wallet::Wallet;
use crate::wire::{enc_chunk, enc_u32, push_chunk, push_u32};

verus! {

use vstd::utf8::is_ascii_chars;

/// One signed record on the wire: the body's canonical bytes, then the two
/// signatures, each as a chunk.
pub open spec fn enc_record(g: GossipNodeRecord) -> Seq<u8> {
    enc_chunk(enc_inner(g.inner, true)) + enc_chunk(g.signatures.complete@) + enc_chunk(
        g.signatures.obscured@,
    )
}

/// A run of signed records.
pub open spec fn enc_records(gs: Seq<GossipNodeRecord>) -> Seq<u8>
    decreases gs.len(),
{
    if gs.len() == 0 {
        Seq::empty()
    } else {
        enc_record(gs[0]) + enc_records(gs.skip(1))
    }
}

pub proof fn lemma_enc_records_push(gs: Seq<GossipNodeRecord>, g: GossipNodeRecord)
    ensures
        enc_records(gs.push(g)) == enc_records(gs) + enc_record(g),
    decreases gs.len(),
{
    if gs.len() == 0 {
        assert(gs.push(g)[0] == g);
        assert(gs.push(g).skip(1) =~= Seq::<GossipNodeRecord>::empty());
        assert(enc_records(gs.push(g)) == enc_record(g) + enc_records(
            Seq::<GossipNodeRecord>::empty(),
        ));
        assert(enc_records(gs.push(g)) =~= enc_records(gs) + enc_record(g));
    } else {
        assert(gs.push(g).skip(1) =~= gs.skip(1).push(g));
        lemma_enc_records_push(gs.skip(1), g);
        assert(enc_records(gs.push(g)) =~= enc_records(gs) + enc_record(g));
    }
}

/// The wire form of a whole gossip: a record count, then the records.
pub open spec fn enc_gossip(gs: Seq<GossipNodeRecord>) -> Seq<u8> {
    enc_u32(gs.len() as u32) + enc_records(gs)
}

/// Sizes the wire form can carry, with every record body valid enough to
/// re-encode.
pub open spec fn gossip_sizes_ok(gs: Seq<GossipNodeRecord>) -> bool {
    &&& gs.len() <= u32::MAX
    &&& forall|i: int|
        0 <= i < gs.len() ==> inner_sizes_fit((#[trigger] gs[i]).inner) && crate::gossip::inner_ok(
            gs[i].inner,
        ) && enc_inner(gs[i].inner, true).len() <= u32::MAX && gs[i].signatures.complete@.len()
            <= u32::MAX && gs[i].signatures.obscured@.len() <= u32::MAX
}

impl Gossip {
    /// Serialize for the wire.
    #[verifier::rlimit(100)]
    pub fn encode(&self) -> (r: Vec<u8>)
        requires
            gossip_sizes_ok(self.node_records@),
        ensures
            r@ == enc_gossip(self.node_records@),
    {
        let mut out: Vec<u8> = Vec::new();
        push_u32(&mut out, self.node_records.len() as u32);
        let ghost head = out@;
        let mut i: usize = 0;
        proof {
            assert(enc_records(self.node_records@.subrange(0, 0)) =~= Seq::<u8>::empty());
            assert(out@ =~= head + enc_records(self.node_records@.subrange(0, 0)));
        }
        while i < self.node_records.len()
            invariant
                i <= self.node_records@.len(),
                gossip_sizes_ok(self.node_records@),
                out@ == head + enc_records(self.node_records@.subrange(0, i as int)),
            decreases self.node_records@.len() - i,
        {
            let g = &self.node_records[i];
            let inner_bytes = match g.inner.canonical_bytes(true) {
                Some(b) => b,
                None => {
                    proof {
                        assert(false);
                    }
                    return Vec::new();
                },
            };
            push_chunk(&mut out, inner_bytes.as_slice());
            push_chunk(&mut out, g.signatures.complete.data.as_slice());
            push_chunk(&mut out, g.signatures.obscured.data.as_slice());
            i = i + 1;
            proof {
                lemma_enc_records_push(
                    self.node_records@.subrange(0, i - 1 as int),
                    self.node_records@[i - 1],
                );
                assert(self.node_records@.subrange(0, i as int) =~= self.node_records@.subrange(
                    0,
                    i - 1 as int,
                ).push(self.node_records@[i - 1]));
                assert(out@ =~= head + enc_records(self.node_records@.subrange(0, i as int)));
            }
        }
        proof {
            assert(self.node_records@.subrange(0, self.node_records@.len() as int)
                =~= self.node_records@);
            assert(out@ =~= enc_gossip(self.node_records@));
        }
        out
    }
}

/// The neighbor keys that the pairs direct out of `k`, in order.
pub open spec fn matching_targets(pairs: Seq<(PublicKey, PublicKey)>, k: Seq<u8>) -> Seq<Seq<u8>>
    decreases pairs.len(),
{
    if pairs.len() == 0 {
        Seq::empty()
    } else {
        matching_targets(pairs.drop_last(), k) + (if pairs.last().0@ == k {
            seq![pairs.last().1@]
        } else {
            Seq::empty()
        })
    }
}

pub proof fn lemma_matching_targets_len(pairs: Seq<(PublicKey, PublicKey)>, k: Seq<u8>)
    ensures
        matching_targets(pairs, k).len() <= pairs.len(),
    decreases pairs.len(),
{
    if pairs.len() > 0 {
        lemma_matching_targets_len(pairs.drop_last(), k);
    }
}

/// Every wired-in neighbor key is one of the pairs' target keys.
pub proof fn lemma_matching_targets_elems(pairs: Seq<(PublicKey, PublicKey)>, k: Seq<u8>)
    requires
        forall|p: int| 0 <= p < pairs.len() ==> (#[trigger] pairs[p]).1@.len() <= u32::MAX,
    ensures
        forall|j: int|
            0 <= j < matching_targets(pairs, k).len() ==> (#[trigger] matching_targets(
                pairs,
                k,
            )[j]).len() <= u32::MAX,
    decreases pairs.len(),
{
    if pairs.len() > 0 {
        lemma_matching_targets_elems(pairs.drop_last(), k);
        assert(forall|p: int|
            0 <= p < pairs.drop_last().len() ==> (#[trigger] pairs.drop_last()[p]).1@.len()
                <= u32::MAX);
        let m = matching_targets(pairs, k);
        let m0 = matching_targets(pairs.drop_last(), k);
        assert forall|j: int| 0 <= j < m.len() implies (#[trigger] m[j]).len() <= u32::MAX by {
            if j < m0.len() {
                assert(m[j] == m0[j]);
            } else {
                assert(m[j] == pairs.last().1@);
            }
        }
    }
}

proof fn lemma_chunks_len_bounds(bs: Seq<Seq<u8>>)
    ensures
        chunks_len(bs) >= 4 * bs.len(),
        forall|j: int| 0 <= j < bs.len() ==> (#[trigger] bs[j]).len() <= chunks_len(bs),
    decreases bs.len(),
{
    crate::gossip::lemma_enc_chunks_len(bs);
    if bs.len() > 0 {
        lemma_chunks_len_bounds(bs.skip(1));
        assert forall|j: int| 0 <= j < bs.len() implies (#[trigger] bs[j]).len() <= chunks_len(
            bs,
        ) by {
            if j > 0 {
                assert(bs.skip(1)[j - 1] == bs[j]);
            }
        }
    }
}

/// The neighbor keys a built record ends up with: the body's own, then the
/// targets the connections direct at it.
pub open spec fn built_neighbors(inner: NodeRecordInner, pairs: Seq<(PublicKey, PublicKey)>) -> Seq<
    Seq<u8>,
> {
    keys_view(inner.neighbors@) + matching_targets(pairs, inner.public_key@)
}

/// Every connection's from-key names an added body: the one input the
/// builder refuses to work from.
pub open spec fn pairs_keys_added(
    info: Seq<NodeRecordInner>,
    pairs: Seq<(PublicKey, PublicKey)>,
) -> bool {
    forall|p: int|
        0 <= p < pairs.len() ==> exists|i: int|
            0 <= i < info.len() && (#[trigger] pairs[p]).0@ == info[i].public_key@
}

/// The record `build` owes for one added body: the body's plain values,
/// neighbors wired in from the connections, signed by the body's own key.
pub open spec fn built_record_ok(
    g: GossipNodeRecord,
    inner: NodeRecordInner,
    pairs: Seq<(PublicKey, PublicKey)>,
) -> bool {
    &&& record_signed(g)
    &&& g.inner.public_key@ == inner.public_key@
    &&& addr_opt_view(g.inner.node_addr_opt) == addr_opt_view(inner.node_addr_opt)
    &&& g.inner.is_bootstrap_node == inner.is_bootstrap_node
    &&& g.inner.earning_wallet@ == inner.earning_wallet@
    &&& wallet_opt_view(g.inner.consuming_wallet) == wallet_opt_view(inner.consuming_wallet)
    &&& g.inner.version == inner.version
    &&& keys_view(g.inner.neighbors@) == built_neighbors(inner, pairs)
}

/// Bodies whose built records the wire form can carry whole: each valid,
/// and each record's canonical bytes and signatures within the length
/// fields.
pub open spec fn builder_encodable(
    info: Seq<NodeRecordInner>,
    pairs: Seq<(PublicKey, PublicKey)>,
) -> bool {
    &&& info.len() <= u32::MAX
    &&& forall|i: int|
        0 <= i < info.len() ==> inner_ok(#[trigger] info[i]) && info[i].public_key@.len()
            + inner_enc_len(
            info[i].public_key@,
            addr_opt_view(info[i].node_addr_opt),
            info[i].earning_wallet@,
            wallet_opt_view(info[i].consuming_wallet),
            built_neighbors(info[i], pairs),
        ) <= u32::MAX
}

/// Records built from encodable bodies fit the wire form.
#[verifier::rlimit(100)]
proof fn lemma_builder_records_encodable(
    gs: Seq<GossipNodeRecord>,
    info: Seq<NodeRecordInner>,
    pairs: Seq<(PublicKey, PublicKey)>,
)
    requires
        builder_encodable(info, pairs),
        gs.len() == info.len(),
        forall|i: int| 0 <= i < gs.len() ==> built_record_ok(#[trigger] gs[i], info[i], pairs),
    ensures
        gossip_sizes_ok(gs),
{
    assert forall|i: int| 0 <= i < gs.len() implies inner_sizes_fit(
        (#[trigger] gs[i]).inner,
    ) && inner_ok(gs[i].inner) && enc_inner(gs[i].inner, true).len() <= u32::MAX && gs[
        i
    ].signatures.complete@.len() <= u32::MAX && gs[i].signatures.obscured@.len() <= u32::MAX by {
        let g = gs[i];
        let inf = info[i];
        let built = built_neighbors(inf, pairs);
        let full = inner_enc_len(
            inf.public_key@,
            addr_opt_view(inf.node_addr_opt),
            inf.earning_wallet@,
            wallet_opt_view(inf.consuming_wallet),
            built,
        );
        lemma_chunks_len_bounds(built);
        assert(chunks_len(built) <= full);
        assert(keys_view(g.inner.neighbors@).len() == built.len());
        assert(g.inner.neighbors@.len() == built.len());
        assert(4 * built.len() <= chunks_len(built));
        assert(g.inner.neighbors@.len() <= u32::MAX);
        assert forall|j: int| 0 <= j < g.inner.neighbors@.len() implies (
        #[trigger] g.inner.neighbors@[j])@.len() <= u32::MAX by {
            assert(keys_view(g.inner.neighbors@)[j] == g.inner.neighbors@[j]@);
            assert(built[j].len() <= chunks_len(built));
        }
        assert(inner_sizes_fit(g.inner));
        assert(inner_ok(g.inner));
        lemma_enc_inner_len(g.inner, true);
        assert(inner_enc_len(
            g.inner.public_key@,
            addr_opt_view(g.inner.node_addr_opt),
            g.inner.earning_wallet@,
            wallet_opt_view(g.inner.consuming_wallet),
            keys_view(g.inner.neighbors@),
        ) == full);
        assert(enc_inner(g.inner, true).len() <= u32::MAX);
        assert(g.signatures.complete@.len() == g.inner.public_key@.len() + enc_inner(
            g.inner,
            true,
        ).len());
        lemma_enc_inner_len(g.inner, false);
        assert(enc_inner(g.inner, false).len() <= enc_inner(g.inner, true).len());
        assert(g.signatures.obscured@.len() <= u32::MAX);
    }
}

/// Builds a gossip one node at a time; a record's neighbors come from the
/// connections directed at it, and every record is signed by its own key.
#[derive(Debug)]
pub struct GossipBuilder {
    pub consuming_wallet: Option<Wallet>,
    pub node_info: Vec<NodeRecordInner>,
    pub connection_pairs: Vec<(PublicKey, PublicKey)>,
}

impl GossipBuilder {
    pub fn new(consuming_wallet: Option<Wallet>) -> (r: GossipBuilder)
        ensures
            wallet_opt_view(r.consuming_wallet) == wallet_opt_view(consuming_wallet),
            r.node_info@.len() == 0,
            r.connection_pairs@.len() == 0,
    {
        GossipBuilder { consuming_wallet, node_info: Vec::new(), connection_pairs: Vec::new() }
    }

    /// Add a node's record body, with or without its address, from what a
    /// node hands out about itself.
    pub fn add_node(
        self,
        node: &NodeDescriptor,
        is_bootstrap: bool,
        include_ip: bool,
        earning_wallet: &Wallet,
        consuming_wallet: &Option<Wallet>,
    ) -> (r: GossipBuilder)
        ensures
            r.node_info@.len() == self.node_info@.len() + 1,
            r.node_info@.last().public_key@ == node.public_key@,
            r.node_info@.last().is_bootstrap_node == is_bootstrap,
            r.node_info@.last().version == 0,
            r.node_info@.last().neighbors@.len() == 0,
            !include_ip ==> r.node_info@.last().node_addr_opt is None,
            include_ip ==> addr_opt_view(r.node_info@.last().node_addr_opt) == addr_opt_view(
                node.node_addr_opt,
            ),
            r.node_info@.last().earning_wallet@ == earning_wallet@,
            wallet_opt_view(r.node_info@.last().consuming_wallet) == wallet_opt_view(
                *consuming_wallet,
            ),
            r.connection_pairs@ == self.connection_pairs@,
            wallet_opt_view(r.consuming_wallet) == wallet_opt_view(self.consuming_wallet),
            forall|j: int|
                0 <= j < self.node_info@.len() ==> r.node_info@[j] == #[trigger] self.node_info@[j],
    {
        let mut b = self;
        let node_addr_opt = if include_ip {
            match &node.node_addr_opt {
                Some(a) => Some(a.clone()),
                None => None,
            }
        } else {
            None
        };
        b.node_info.push(
            NodeRecordInner {
                public_key: node.public_key.clone(),
                node_addr_opt,
                is_bootstrap_node: is_bootstrap,
                earning_wallet: earning_wallet.clone(),
                consuming_wallet: match consuming_wallet {
                    Some(w) => Some(w.clone()),
                    None => None,
                },
                neighbors: Vec::new(),
                version: 0,
            },
        );
        b
    }

    /// Add a record body copied from a gossip record, neighbors cleared.
    pub fn add_gnr(self, gnr: &GossipNodeRecord) -> (r: GossipBuilder)
        ensures
            r.node_info@.len() == self.node_info@.len() + 1,
            r.node_info@.last().public_key@ == gnr.inner.public_key@,
            addr_opt_view(r.node_info@.last().node_addr_opt) == addr_opt_view(
                gnr.inner.node_addr_opt,
            ),
            r.node_info@.last().is_bootstrap_node == gnr.inner.is_bootstrap_node,
            r.node_info@.last().earning_wallet@ == gnr.inner.earning_wallet@,
            wallet_opt_view(r.node_info@.last().consuming_wallet) == wallet_opt_view(
                gnr.inner.consuming_wallet,
            ),
            r.node_info@.last().version == gnr.inner.version,
            r.node_info@.last().neighbors@.len() == 0,
            r.connection_pairs@ == self.connection_pairs@,
            wallet_opt_view(r.consuming_wallet) == wallet_opt_view(self.consuming_wallet),
    {
        let mut b = self;
        let inner = gnr.inner.clone();
        b.node_info.push(
            NodeRecordInner {
                public_key: inner.public_key,
                node_addr_opt: inner.node_addr_opt,
                is_bootstrap_node: inner.is_bootstrap_node,
                earning_wallet: inner.earning_wallet,
                consuming_wallet: inner.consuming_wallet,
                neighbors: Vec::new(),
                version: inner.version,
            },
        );
        b
    }

    /// Add a record body made up whole, neighbors and all.
    pub fn add_fictional_node(self, node_record: NodeRecordInner) -> (r: GossipBuilder)
        ensures
            r.node_info@.len() == self.node_info@.len() + 1,
            r.node_info@.last() == node_record,
            r.connection_pairs@ == self.connection_pairs@,
            wallet_opt_view(r.consuming_wallet) == wallet_opt_view(self.consuming_wallet),
    {
        let mut b = self;
        b.node_info.push(node_record);
        b
    }

    /// Direct that `from_key`'s record should name `to_key` a neighbor.
    pub fn add_connection(self, from_key: &PublicKey, to_key: &PublicKey) -> (r: GossipBuilder)
        ensures
            r.connection_pairs@.len() == self.connection_pairs@.len() + 1,
            r.connection_pairs@.last().0@ == from_key@,
            r.connection_pairs@.last().1@ == to_key@,
            r.node_info@ == self.node_info@,
            wallet_opt_view(r.consuming_wallet) == wallet_opt_view(self.consuming_wallet),
    {
        let mut b = self;
        b.connection_pairs.push((from_key.clone(), to_key.clone()));
        b
    }

    /// Wire the connections into the bodies and sign each record with its
    /// own key: record `i` holds body `i`'s plain values with the directed
    /// targets appended to its neighbors. Refused only for wallet text the
    /// encoding cannot carry, and owed whenever every body is valid.
    #[verifier::rlimit(100)]
    pub fn build(self) -> (r: Option<Gossip>)
        requires
            forall|i: int| 0 <= i < self.node_info@.len() ==> inner_sizes_fit(#[trigger] self.node_info@[i]),
            forall|i: int|
                0 <= i < self.node_info@.len() ==> (#[trigger] self.node_info@[i]).neighbors@.len()
                    + self.connection_pairs@.len() <= u32::MAX,
            forall|i: int|
                0 <= i < self.connection_pairs@.len() ==> (
                #[trigger] self.connection_pairs@[i]).1@.len() <= u32::MAX,
            pairs_keys_added(self.node_info@, self.connection_pairs@),
        ensures
            r matches Some(g) ==> g.node_records@.len() == self.node_info@.len() && (forall|i: int|
                0 <= i < g.node_records@.len() ==> built_record_ok(
                    #[trigger] g.node_records@[i],
                    self.node_info@[i],
                    self.connection_pairs@,
                )),
            (forall|i: int|
                0 <= i < self.node_info@.len() ==> inner_ok(#[trigger] self.node_info@[i])) ==> r
                is Some,
    {
        let mut records: Vec<GossipNodeRecord> = Vec::new();
        let mut i: usize = 0;
        while i < self.node_info.len()
            invariant
                i <= self.node_info@.len(),
                records@.len() == i,
                forall|j: int|
                    0 <= j < self.node_info@.len() ==> inner_sizes_fit(#[trigger] self.node_info@[j]),
                forall|j: int|
                    0 <= j < self.node_info@.len() ==> (#[trigger] self.node_info@[j]).neighbors@.len()
                        + self.connection_pairs@.len() <= u32::MAX,
                forall|j: int|
                    0 <= j < self.connection_pairs@.len() ==> (#[trigger] self.connection_pairs@[j]).1@.len()
                        <= u32::MAX,
                forall|j: int|
                    0 <= j < i ==> built_record_ok(
                        #[trigger] records@[j],
                        self.node_info@[j],
                        self.connection_pairs@,
                    ),
            decreases self.node_info@.len() - i,
        {
            let base = self.node_info[i].clone();
            proof {
                crate::neighborhood_db::lemma_inner_view(base, self.node_info@[i as int]);
            }
            let NodeRecordInner {
                public_key,
                node_addr_opt,
                is_bootstrap_node,
                earning_wallet,
                consuming_wallet: record_wallet,
                neighbors: mut neighbors,
                version,
            } = base;
            let ghost base_key = public_key@;
            proof {
                assert(inner_sizes_fit(self.node_info@[i as int]));
                assert(self.connection_pairs@.subrange(0, 0) =~= Seq::<(PublicKey, PublicKey)>::empty());
                assert(keys_view(neighbors@) =~= keys_view(self.node_info@[i as int].neighbors@)
                    + matching_targets(self.connection_pairs@.subrange(0, 0), base_key));
            }
            let mut p: usize = 0;
            while p < self.connection_pairs.len()
                invariant
                    p <= self.connection_pairs@.len(),
                    neighbors@.len() <= self.node_info@[i as int].neighbors@.len() + p,
                    i < self.node_info@.len(),
                    public_key@ == self.node_info@[i as int].public_key@,
                    base_key == public_key@,
                    keys_view(neighbors@) == keys_view(self.node_info@[i as int].neighbors@)
                        + matching_targets(self.connection_pairs@.subrange(0, p as int), base_key),
                    forall|j: int|
                        0 <= j < self.node_info@.len() ==> inner_sizes_fit(#[trigger] self.node_info@[j]),
                    forall|j: int|
                        0 <= j < self.node_info@.len() ==> (#[trigger] self.node_info@[j]).neighbors@.len()
                            + self.connection_pairs@.len() <= u32::MAX,
                    forall|j: int|
                        0 <= j < self.connection_pairs@.len() ==> (
                        #[trigger] self.connection_pairs@[j]).1@.len() <= u32::MAX,
                    forall|j: int|
                        0 <= j < neighbors@.len() ==> (#[trigger] neighbors@[j])@.len()
                            <= u32::MAX,
                decreases self.connection_pairs@.len() - p,
            {
                let ghost prev = neighbors@;
                if crate::bytes_util::bytes_eq(&self.connection_pairs[p].0.data, &public_key.data) {
                    neighbors.push(self.connection_pairs[p].1.clone());
                    proof {
                        assert(keys_view(neighbors@) =~= keys_view(prev) + seq![
                            self.connection_pairs@[p as int].1@,
                        ]);
                    }
                }
                p = p + 1;
                proof {
                    let taken = self.connection_pairs@.subrange(0, p as int);
                    assert(taken.drop_last() =~= self.connection_pairs@.subrange(0, p - 1));
                    assert(taken.last() == self.connection_pairs@[p - 1]);
                    assert(matching_targets(taken, base_key) == matching_targets(
                        taken.drop_last(),
                        base_key,
                    ) + (if taken.last().0@ == base_key {
                        seq![taken.last().1@]
                    } else {
                        Seq::<Seq<u8>>::empty()
                    }));
                    assert(keys_view(neighbors@) =~= keys_view(self.node_info@[i as int].neighbors@)
                        + matching_targets(taken, base_key));
                }
            }
            proof {
                assert(self.connection_pairs@.subrange(0, self.connection_pairs@.len() as int)
                    =~= self.connection_pairs@);
            }
            let inner = NodeRecordInner {
                public_key,
                node_addr_opt,
                is_bootstrap_node,
                earning_wallet,
                consuming_wallet: record_wallet,
                neighbors,
                version,
            };
            let signer = CryptDENull::from(&inner.public_key);
            let signatures = match NodeSignatures::from(&signer, &inner) {
                Some(s) => s,
                None => {
                    proof {
                        let target = self.node_info@[i as int];
                        if inner_ok(target) {
                            assert(inner.public_key@.len() <= u32::MAX);
                            assert(is_ascii_chars(inner.earning_wallet@));
                            assert(inner.earning_wallet@.len() <= u32::MAX);
                            assert(match wallet_opt_view(inner.consuming_wallet) {
                                Some(w) => w.len() <= u32::MAX && is_ascii_chars(w),
                                None => true,
                            });
                            assert(inner.neighbors@.len() <= u32::MAX);
                            assert(forall|j: int|
                                0 <= j < inner.neighbors@.len() ==> (
                                #[trigger] inner.neighbors@[j])@.len() <= u32::MAX);
                            assert(match addr_opt_view(inner.node_addr_opt) {
                                Some((_, ports)) => ports.len() <= u32::MAX,
                                None => true,
                            });
                            assert(inner_ok(inner));
                            assert(false);
                        }
                        assert(!inner_ok(self.node_info@[i as int]));
                    }
                    return None;
                },
            };
            records.push(GossipNodeRecord { inner, signatures });
            i = i + 1;
        }
        Some(Gossip { node_records: records })
    }

    /// Build the gossip and seal it into a package addressed through `from`
    /// to `to`, for `to`'s neighborhood to consume: the payload is exactly
    /// this builder's records, sealed to `to`. Owed whenever the bodies are
    /// valid, their built records fit the wire form, and the wallet can be
    /// carried.
    #[verifier::rlimit(100)]
    pub fn build_cores_package(self, from: &PublicKey, to: &PublicKey) -> (r: Option<
        IncipientCoresPackage,
    >)
        requires
            forall|i: int| 0 <= i < self.node_info@.len() ==> inner_sizes_fit(#[trigger] self.node_info@[i]),
            forall|i: int|
                0 <= i < self.node_info@.len() ==> (#[trigger] self.node_info@[i]).neighbors@.len()
                    + self.connection_pairs@.len() <= u32::MAX,
            forall|i: int|
                0 <= i < self.connection_pairs@.len() ==> (
                #[trigger] self.connection_pairs@[i]).1@.len() <= u32::MAX,
            pairs_keys_added(self.node_info@, self.connection_pairs@),
            from@.len() > 0,
            from@.len() <= u32::MAX,
            to@.len() > 0,
            to@.len() <= u32::MAX,
            elem_sizes_ok(Seq::<u8>::empty(), wallet_opt_view(self.consuming_wallet)),
        ensures
            r matches Some(icp) ==> icp.route@ == route_hops(
                seq![from@, to@],
                Component::Neighborhood,
                wallet_opt_view(self.consuming_wallet),
            ) && (exists|gs: Seq<GossipNodeRecord>|
                gs.len() == self.node_info@.len() && (forall|i: int|
                    0 <= i < gs.len() ==> built_record_ok(
                        #[trigger] gs[i],
                        self.node_info@[i],
                        self.connection_pairs@,
                    )) && icp.payload@ == null_ciphertext(to@, enc_gossip(gs))),
            builder_encodable(self.node_info@, self.connection_pairs@) && elem_wallet_ok(
                wallet_opt_view(self.consuming_wallet),
            ) ==> r is Some,
    {
        let consuming_wallet = match &self.consuming_wallet {
            Some(w) => Some(w.clone()),
            None => None,
        };
        let ghost wv = wallet_opt_view(self.consuming_wallet);
        let ghost g_info = self.node_info@;
        let ghost g_pairs = self.connection_pairs@;
        let gossip = match self.build() {
            Some(g) => g,
            None => {
                proof {
                    if builder_encodable(g_info, g_pairs) {
                        assert(forall|i: int|
                            0 <= i < g_info.len() ==> inner_ok(#[trigger] g_info[i]));
                        assert(false);
                    }
                }
                return None;
            },
        };
        if !Self::gossip_fits(&gossip) {
            proof {
                if builder_encodable(g_info, g_pairs) {
                    lemma_builder_records_encodable(gossip.node_records@, g_info, g_pairs);
                    assert(false);
                }
            }
            return None;
        }
        let payload = gossip.encode();
        let keys = vec![from.clone(), to.clone()];
        let segment = RouteSegment::new(keys, Component::Neighborhood);
        proof {
            assert(keys_view(segment.keys@) =~= seq![from@, to@]);
        }
        let route = match Route::one_way(&segment, &CryptDENull::new(), &consuming_wallet) {
            Ok(rt) => rt,
            Err(_) => {
                proof {
                    if elem_wallet_ok(wv) {
                        assert(false);
                    }
                }
                return None;
            },
        };
        match IncipientCoresPackage::new(&CryptDENull::new(), route, payload.as_slice(), to) {
            Ok(icp) => {
                proof {
                    assert(icp.payload@ == null_ciphertext(to@, enc_gossip(gossip.node_records@)));
                }
                Some(icp)
            },
            Err(_) => {
                proof {
                    assert(false);
                }
                None
            },
        }
    }

    /// Do the signed records fit the wire form's size fields?
    fn gossip_fits(gossip: &Gossip) -> (r: bool)
        ensures
            r == gossip_sizes_ok(gossip.node_records@),
    {
        if gossip.node_records.len() > (u32::MAX as usize) {
            return false;
        }
        let mut i: usize = 0;
        while i < gossip.node_records.len()
            invariant
                i <= gossip.node_records@.len(),
                forall|j: int|
                    0 <= j < i ==> inner_sizes_fit((#[trigger] gossip.node_records@[j]).inner)
                        && crate::gossip::inner_ok(gossip.node_records@[j].inner) && enc_inner(
                        gossip.node_records@[j].inner,
                        true,
                    ).len() <= u32::MAX && gossip.node_records@[j].signatures.complete@.len()
                        <= u32::MAX && gossip.node_records@[j].signatures.obscured@.len()
                        <= u32::MAX,
            decreases gossip.node_records@.len() - i,
        {
            let g = &gossip.node_records[i];
            if !g.inner.fits() {
                return false;
            }
            let fits = match g.inner.canonical_bytes(true) {
                Some(b) => b.len() <= (u32::MAX as usize) && g.signatures.complete.data.len() <= (
                u32::MAX as usize) && g.signatures.obscured.data.len() <= (u32::MAX as usize),
                None => false,
            };
            if !fits {
                return false;
            }
            i = i + 1;
        }
        true
    }
}

} // verus!
