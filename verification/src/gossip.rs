//! Signed neighbor records and the gossip that carries them. A record's two
//! signatures cover its canonical byte encodings, one with the address and
//! one without, so a node can prove its existence without giving its
//! address away. The builder assembles gossip whose records verify.

use vstd::prelude::*;

use crate::ascii::{ascii_bytes, str_to_ascii_bytes};
use crate::cryptde::{null_ciphertext, CryptDENull, CryptData, PublicKey};
use crate::node_addr::NodeAddr;
use crate::route::{keys_view, wallet_opt_view};
use crate::wallet::Wallet;
use crate::wire::{
    enc_bool, enc_chunk, enc_chunks, enc_u16, enc_u32, lemma_enc_chunks_push, push_bool,
    push_chunk, push_u16, push_u32,
};

verus! {

use vstd::string::StrSliceExecFns;
use vstd::utf8::is_ascii_chars;

/// The ports of a node address, two bytes each, in order.
pub open spec fn enc_ports(ps: Seq<u16>) -> Seq<u8>
    decreases ps.len(),
{
    if ps.len() == 0 {
        Seq::empty()
    } else {
        enc_u16(ps[0]) + enc_ports(ps.skip(1))
    }
}

pub proof fn lemma_enc_ports_push(ps: Seq<u16>, p: u16)
    ensures
        enc_ports(ps.push(p)) == enc_ports(ps) + enc_u16(p),
    decreases ps.len(),
{
    if ps.len() == 0 {
        assert(ps.push(p)[0] == p);
        assert(ps.push(p).skip(1) =~= Seq::<u16>::empty());
        assert(enc_ports(ps.push(p)) == enc_u16(p) + enc_ports(Seq::<u16>::empty()));
        assert(enc_ports(ps.push(p)) =~= enc_ports(ps) + enc_u16(p));
    } else {
        assert(ps.push(p).skip(1) =~= ps.skip(1).push(p));
        lemma_enc_ports_push(ps.skip(1), p);
        assert(enc_ports(ps.push(p)) =~= enc_ports(ps) + enc_u16(p));
    }
}

/// The length of a run of chunks.
pub open spec fn chunks_len(bs: Seq<Seq<u8>>) -> int
    decreases bs.len(),
{
    if bs.len() == 0 {
        0
    } else {
        4 + bs[0].len() + chunks_len(bs.skip(1))
    }
}

pub proof fn lemma_enc_chunks_len(bs: Seq<Seq<u8>>)
    ensures
        enc_chunks(bs).len() == chunks_len(bs),
        chunks_len(bs) >= 0,
    decreases bs.len(),
{
    if bs.len() > 0 {
        lemma_enc_chunks_len(bs.skip(1));
    }
}

pub proof fn lemma_enc_ports_len(ps: Seq<u16>)
    ensures
        enc_ports(ps).len() == 2 * ps.len(),
    decreases ps.len(),
{
    if ps.len() > 0 {
        lemma_enc_ports_len(ps.skip(1));
    }
}

/// The canonical encoding's length, as a function of the plain values.
pub open spec fn inner_enc_len(
    key: Seq<u8>,
    addr: Option<(Seq<u8>, Seq<u16>)>,
    ew: Seq<char>,
    cw: Option<Seq<char>>,
    neighbors: Seq<Seq<u8>>,
) -> int {
    (4 + key.len()) + (match addr {
        Some((ip, ports)) => 1 + ip.len() + 4 + 2 * ports.len(),
        None => 1,
    }) + 1 + (4 + ew.len()) + (match cw {
        Some(w) => 1 + 4 + w.len(),
        None => 1,
    }) + 4 + chunks_len(neighbors) + 4
}

/// The encoding is exactly as long as the formula says; leaving the address
/// out encodes as if there were none.
pub proof fn lemma_enc_inner_len(r: NodeRecordInner, with_addr: bool)
    ensures
        enc_inner(r, with_addr).len() == inner_enc_len(
            r.public_key@,
            (if with_addr {
                addr_opt_view(r.node_addr_opt)
            } else {
                None
            }),
            r.earning_wallet@,
            wallet_opt_view(r.consuming_wallet),
            crate::route::keys_view(r.neighbors@),
        ),
{
    lemma_enc_chunks_len(crate::route::keys_view(r.neighbors@));
    match addr_opt_view(r.node_addr_opt) {
        Some((_, ports)) => {
            lemma_enc_ports_len(ports);
        },
        None => {},
    }
}

/// The signable body of a node's record.
#[derive(Debug, PartialEq)]
pub struct NodeRecordInner {
    pub public_key: PublicKey,
    pub node_addr_opt: Option<NodeAddr>,
    pub is_bootstrap_node: bool,
    pub earning_wallet: Wallet,
    pub consuming_wallet: Option<Wallet>,
    pub neighbors: Vec<PublicKey>,
    pub version: u32,
}

fn clone_node_addr_opt(a: &Option<NodeAddr>) -> (r: Option<NodeAddr>)
    ensures
        addr_opt_view(r) == addr_opt_view(*a),
{
    match a {
        Some(x) => Some(x.clone()),
        None => None,
    }
}

fn clone_wallet_opt(w: &Option<Wallet>) -> (r: Option<Wallet>)
    ensures
        wallet_opt_view(r) == wallet_opt_view(*w),
{
    match w {
        Some(x) => Some(x.clone()),
        None => None,
    }
}

fn clone_keys(ks: &Vec<PublicKey>) -> (r: Vec<PublicKey>)
    ensures
        keys_view(r@) == keys_view(ks@),
{
    let mut out: Vec<PublicKey> = Vec::new();
    let mut i: usize = 0;
    while i < ks.len()
        invariant
            i <= ks@.len(),
            out@.len() == i,
            forall|j: int| 0 <= j < i ==> (#[trigger] out@[j])@ == ks@[j]@,
        decreases ks@.len() - i,
    {
        out.push(ks[i].clone());
        i = i + 1;
    }
    proof {
        assert(keys_view(out@) =~= keys_view(ks@));
    }
    out
}

/// The plain values of an optional node address.
pub open spec fn addr_opt_view(a: Option<NodeAddr>) -> Option<(Seq<u8>, Seq<u16>)> {
    match a {
        Some(na) => Some((na.ip_addr@, na.ports@)),
        None => None,
    }
}

impl Clone for NodeRecordInner {
    fn clone(&self) -> (r: Self)
        ensures
            inner_view_eq(r, *self),
    {
        NodeRecordInner {
            public_key: self.public_key.clone(),
            node_addr_opt: clone_node_addr_opt(&self.node_addr_opt),
            is_bootstrap_node: self.is_bootstrap_node,
            earning_wallet: self.earning_wallet.clone(),
            consuming_wallet: clone_wallet_opt(&self.consuming_wallet),
            neighbors: clone_keys(&self.neighbors),
            version: self.version,
        }
    }
}

/// Two record bodies that hold the same plain values.
pub open spec fn inner_view_eq(a: NodeRecordInner, b: NodeRecordInner) -> bool {
    &&& a.public_key@ == b.public_key@
    &&& addr_opt_view(a.node_addr_opt) == addr_opt_view(b.node_addr_opt)
    &&& a.is_bootstrap_node == b.is_bootstrap_node
    &&& a.earning_wallet@ == b.earning_wallet@
    &&& wallet_opt_view(a.consuming_wallet) == wallet_opt_view(b.consuming_wallet)
    &&& keys_view(a.neighbors@) == keys_view(b.neighbors@)
    &&& a.version == b.version
}

/// Sizes and texts the canonical encoding can carry.
pub open spec fn inner_ok(r: NodeRecordInner) -> bool {
    &&& r.public_key@.len() <= u32::MAX
    &&& r.earning_wallet@.len() <= u32::MAX
    &&& is_ascii_chars(r.earning_wallet@)
    &&& (match wallet_opt_view(r.consuming_wallet) {
        Some(w) => w.len() <= u32::MAX && is_ascii_chars(w),
        None => true,
    })
    &&& r.neighbors@.len() <= u32::MAX
    &&& (forall|i: int|
        0 <= i < r.neighbors@.len() ==> (#[trigger] r.neighbors@[i])@.len() <= u32::MAX)
    &&& (match addr_opt_view(r.node_addr_opt) {
        Some((_, ports)) => ports.len() <= u32::MAX,
        None => true,
    })
}

/// The canonical encoding of a record body. With `with_addr` false the
/// address is left out, exactly as for the obscured signature.
pub open spec fn enc_inner(r: NodeRecordInner, with_addr: bool) -> Seq<u8> {
    enc_chunk(r.public_key@) + (match addr_opt_view(r.node_addr_opt) {
        Some((ip, ports)) => if with_addr {
            seq![1u8] + ip + enc_u32(ports.len() as u32) + enc_ports(ports)
        } else {
            seq![0u8]
        },
        None => seq![0u8],
    }) + enc_bool(r.is_bootstrap_node) + enc_chunk(ascii_bytes(r.earning_wallet@)) + (
    match wallet_opt_view(r.consuming_wallet) {
        Some(w) => seq![1u8] + enc_chunk(ascii_bytes(w)),
        None => seq![0u8],
    }) + enc_u32(r.neighbors@.len() as u32) + enc_chunks(keys_view(r.neighbors@)) + enc_u32(
        r.version,
    )
}

impl NodeRecordInner {
    /// The canonical bytes that a signature covers. Refused only for wallet
    /// text the encoding cannot carry.
    #[verifier::rlimit(100)]
    pub fn canonical_bytes(&self, with_addr: bool) -> (r: Option<Vec<u8>>)
        requires
            self.public_key@.len() <= u32::MAX,
            self.earning_wallet@.len() <= u32::MAX,
            (match wallet_opt_view(self.consuming_wallet) {
                Some(w) => w.len() <= u32::MAX,
                None => true,
            }),
            self.neighbors@.len() <= u32::MAX,
            forall|i: int|
                0 <= i < self.neighbors@.len() ==> (#[trigger] self.neighbors@[i])@.len()
                    <= u32::MAX,
            (match addr_opt_view(self.node_addr_opt) {
                Some((_, ports)) => ports.len() <= u32::MAX,
                None => true,
            }),
        ensures
            r matches Some(v) ==> inner_ok(*self) && v@ == enc_inner(*self, with_addr),
            r is None ==> !inner_ok(*self),
    {
        let mut out: Vec<u8> = Vec::new();
        push_chunk(&mut out, self.public_key.data.as_slice());
        match &self.node_addr_opt {
            Some(na) => {
                if with_addr {
                    out.push(1u8);
                    out.push(na.ip_addr.o0);
                    out.push(na.ip_addr.o1);
                    out.push(na.ip_addr.o2);
                    out.push(na.ip_addr.o3);
                    push_u32(&mut out, na.ports.len() as u32);
                    let ghost mid = out@;
                    let mut i: usize = 0;
                    proof {
                        assert(enc_ports(na.ports@.subrange(0, 0)) =~= Seq::<u8>::empty());
                        assert(out@ =~= mid + enc_ports(na.ports@.subrange(0, 0)));
                    }
                    while i < na.ports.len()
                        invariant
                            i <= na.ports@.len(),
                            out@ == mid + enc_ports(na.ports@.subrange(0, i as int)),
                        decreases na.ports@.len() - i,
                    {
                        push_u16(&mut out, na.ports[i]);
                        i = i + 1;
                        proof {
                            lemma_enc_ports_push(
                                na.ports@.subrange(0, i - 1 as int),
                                na.ports@[i - 1],
                            );
                            assert(na.ports@.subrange(0, i as int) =~= na.ports@.subrange(
                                0,
                                i - 1 as int,
                            ).push(na.ports@[i - 1]));
                            assert(out@ =~= mid + enc_ports(na.ports@.subrange(0, i as int)));
                        }
                    }
                    proof {
                        assert(na.ports@.subrange(0, na.ports@.len() as int) =~= na.ports@);
                    }
                } else {
                    out.push(0u8);
                }
            },
            None => {
                out.push(0u8);
            },
        }
        push_bool(&mut out, self.is_bootstrap_node);
        let ewb = match str_to_ascii_bytes(self.earning_wallet.address.as_str()) {
            Some(b) => b,
            None => {
                return None;
            },
        };
        push_chunk(&mut out, ewb.as_slice());
        match &self.consuming_wallet {
            Some(w) => {
                let cwb = match str_to_ascii_bytes(w.address.as_str()) {
                    Some(b) => b,
                    None => {
                        return None;
                    },
                };
                out.push(1u8);
                push_chunk(&mut out, cwb.as_slice());
            },
            None => {
                out.push(0u8);
            },
        }
        push_u32(&mut out, self.neighbors.len() as u32);
        let ghost mid2 = out@;
        let mut i: usize = 0;
        proof {
            assert(enc_chunks(keys_view(self.neighbors@).subrange(0, 0)) =~= Seq::<u8>::empty());
            assert(out@ =~= mid2 + enc_chunks(keys_view(self.neighbors@).subrange(0, 0)));
        }
        while i < self.neighbors.len()
            invariant
                i <= self.neighbors@.len(),
                forall|j: int|
                    0 <= j < self.neighbors@.len() ==> (#[trigger] self.neighbors@[j])@.len()
                        <= u32::MAX,
                out@ == mid2 + enc_chunks(keys_view(self.neighbors@).subrange(0, i as int)),
            decreases self.neighbors@.len() - i,
        {
            proof {
                assert(keys_view(self.neighbors@)[i as int].len() <= u32::MAX);
            }
            push_chunk(&mut out, self.neighbors[i].data.as_slice());
            i = i + 1;
            proof {
                lemma_enc_chunks_push(
                    keys_view(self.neighbors@).subrange(0, i - 1 as int),
                    keys_view(self.neighbors@)[i - 1],
                );
                assert(keys_view(self.neighbors@).subrange(0, i as int) =~= keys_view(
                    self.neighbors@,
                ).subrange(0, i - 1 as int).push(keys_view(self.neighbors@)[i - 1]));
                assert(out@ =~= mid2 + enc_chunks(
                    keys_view(self.neighbors@).subrange(0, i as int),
                ));
            }
        }
        push_u32(&mut out, self.version);
        proof {
            assert(keys_view(self.neighbors@).subrange(
                0,
                keys_view(self.neighbors@).len() as int,
            ) =~= keys_view(self.neighbors@));
            assert(out@ =~= enc_inner(*self, with_addr));
        }
        Some(out)
    }
}

/// A record body's two signatures: over the encoding with the address, and
/// over the encoding without it.
#[derive(Debug, PartialEq)]
pub struct NodeSignatures {
    pub complete: CryptData,
    pub obscured: CryptData,
}

impl Clone for NodeSignatures {
    fn clone(&self) -> (r: Self)
        ensures
            r.complete@ == self.complete@,
            r.obscured@ == self.obscured@,
    {
        NodeSignatures { complete: self.complete.clone(), obscured: self.obscured.clone() }
    }
}

impl NodeSignatures {
    /// Sign both canonical forms of `inner` with `cryptde`.
    pub fn from(cryptde: &CryptDENull, inner: &NodeRecordInner) -> (r: Option<NodeSignatures>)
        requires
            inner.public_key@.len() <= u32::MAX,
            inner.earning_wallet@.len() <= u32::MAX,
            (match wallet_opt_view(inner.consuming_wallet) {
                Some(w) => w.len() <= u32::MAX,
                None => true,
            }),
            inner.neighbors@.len() <= u32::MAX,
            forall|i: int|
                0 <= i < inner.neighbors@.len() ==> (#[trigger] inner.neighbors@[i])@.len()
                    <= u32::MAX,
            (match addr_opt_view(inner.node_addr_opt) {
                Some((_, ports)) => ports.len() <= u32::MAX,
                None => true,
            }),
        ensures
            r matches Some(s) ==> inner_ok(*inner) && s.complete@ == null_ciphertext(
                cryptde.spec_key(),
                enc_inner(*inner, true),
            ) && s.obscured@ == null_ciphertext(cryptde.spec_key(), enc_inner(*inner, false)),
            r is None ==> !inner_ok(*inner),
    {
        let complete_bytes = match inner.canonical_bytes(true) {
            Some(b) => b,
            None => {
                return None;
            },
        };
        let obscured_bytes = match inner.canonical_bytes(false) {
            Some(b) => b,
            None => {
                return None;
            },
        };
        let complete = cryptde.sign(complete_bytes.as_slice());
        let obscured = cryptde.sign(obscured_bytes.as_slice());
        Some(NodeSignatures { complete, obscured })
    }
}

impl NodeRecordInner {
    /// Do this body's fields fit the canonical encoding's size fields?
    pub fn fits(&self) -> (r: bool)
        ensures
            r == inner_sizes_fit(*self),
    {
        if self.public_key.data.len() > (u32::MAX as usize) {
            return false;
        }
        if self.earning_wallet.address.as_str().unicode_len() > (u32::MAX as usize) {
            return false;
        }
        match &self.consuming_wallet {
            Some(w) => {
                if w.address.as_str().unicode_len() > (u32::MAX as usize) {
                    return false;
                }
            },
            None => {},
        }
        if self.neighbors.len() > (u32::MAX as usize) {
            return false;
        }
        let mut i: usize = 0;
        while i < self.neighbors.len()
            invariant
                i <= self.neighbors@.len(),
                forall|j: int| 0 <= j < i ==> (#[trigger] self.neighbors@[j])@.len() <= u32::MAX,
            decreases self.neighbors@.len() - i,
        {
            if self.neighbors[i].data.len() > (u32::MAX as usize) {
                return false;
            }
            i = i + 1;
        }
        match &self.node_addr_opt {
            Some(na) => {
                if na.ports.len() > (u32::MAX as usize) {
                    return false;
                }
            },
            None => {},
        }
        true
    }
}

/// A record body and its signatures: what gossip carries for one node.
#[derive(Debug, PartialEq)]
pub struct GossipNodeRecord {
    pub inner: NodeRecordInner,
    pub signatures: NodeSignatures,
}

impl Clone for GossipNodeRecord {
    fn clone(&self) -> (r: Self)
        ensures
            inner_view_eq(r.inner, self.inner),
            r.signatures.complete@ == self.signatures.complete@,
            r.signatures.obscured@ == self.signatures.obscured@,
    {
        GossipNodeRecord { inner: self.inner.clone(), signatures: self.signatures.clone() }
    }
}

/// A record whose signatures are the named key's signatures over its own
/// canonical encodings.
pub open spec fn record_signed(g: GossipNodeRecord) -> bool {
    &&& g.signatures.complete@ == null_ciphertext(g.inner.public_key@, enc_inner(g.inner, true))
    &&& g.signatures.obscured@ == null_ciphertext(g.inner.public_key@, enc_inner(g.inner, false))
}

impl GossipNodeRecord {
    pub fn public_key(&self) -> (r: PublicKey)
        ensures
            r@ == self.inner.public_key@,
    {
        self.inner.public_key.clone()
    }

    /// Check both signatures against the record's own claimed key.
    pub fn verify_signatures(&self) -> (r: bool)
        requires
            inner_sizes_fit(self.inner),
        ensures
            r == (inner_ok(self.inner) && record_signed(*self)),
    {
        let verifier = CryptDENull::from(&self.inner.public_key);
        let complete_bytes = match self.inner.canonical_bytes(true) {
            Some(b) => b,
            None => {
                return false;
            },
        };
        let obscured_bytes = match self.inner.canonical_bytes(false) {
            Some(b) => b,
            None => {
                return false;
            },
        };
        let ok_complete = verifier.verify(
            &self.inner.public_key,
            complete_bytes.as_slice(),
            &self.signatures.complete,
        );
        let ok_obscured = verifier.verify(
            &self.inner.public_key,
            obscured_bytes.as_slice(),
            &self.signatures.obscured,
        );
        ok_complete && ok_obscured
    }
}

/// The machine-limit half of `inner_ok`: what `requires` must carry.
pub open spec fn inner_sizes_fit(r: NodeRecordInner) -> bool {
    &&& r.public_key@.len() <= u32::MAX
    &&& r.earning_wallet@.len() <= u32::MAX
    &&& (match wallet_opt_view(r.consuming_wallet) {
        Some(w) => w.len() <= u32::MAX,
        None => true,
    })
    &&& r.neighbors@.len() <= u32::MAX
    &&& (forall|i: int|
        0 <= i < r.neighbors@.len() ==> (#[trigger] r.neighbors@[i])@.len() <= u32::MAX)
    &&& (match addr_opt_view(r.node_addr_opt) {
        Some((_, ports)) => ports.len() <= u32::MAX,
        None => true,
    })
}

/// An ordered list of signed records: one gossip message.
#[derive(Debug, PartialEq)]
pub struct Gossip {
    pub node_records: Vec<GossipNodeRecord>,
}

} // verus!
