//! The signed node database. Its standing invariant: every record it holds
//! verifies against its own key's signatures over its canonical bytes, and
//! no key appears twice. Gossip only ever moves it forward: unknown records
//! enter, known ones are replaced only by a strictly newer version.

use vstd::prelude::*;

use crate::cryptde::{CryptDENull, PublicKey};
use crate::gossip::{
    enc_inner, inner_ok, inner_sizes_fit, inner_view_eq, record_signed, Gossip, GossipNodeRecord,
    NodeSignatures,
};

verus! {

use vstd::pervasive::VecAdditionalExecFns;
use vstd::string::StrSliceExecFns;

/// Is `k` a key of the record list?
pub open spec fn db_contains(s: Seq<GossipNodeRecord>, k: Seq<u8>) -> bool {
    exists|i: int| 0 <= i < s.len() && (#[trigger] s[i]).inner.public_key@ == k
}

/// Where `k` sits in the record list.
pub open spec fn db_index(s: Seq<GossipNodeRecord>, k: Seq<u8>) -> int {
    choose|i: int| 0 <= i < s.len() && (#[trigger] s[i]).inner.public_key@ == k
}

/// The record stored under `k`.
pub open spec fn db_record(s: Seq<GossipNodeRecord>, k: Seq<u8>) -> GossipNodeRecord {
    s[db_index(s, k)]
}

/// Every record verifies, keys are unique and never empty.
pub open spec fn records_wf(s: Seq<GossipNodeRecord>) -> bool {
    &&& (forall|i: int, j: int|
        0 <= i < j < s.len() ==> (#[trigger] s[i]).inner.public_key@ != (
        #[trigger] s[j]).inner.public_key@)
    &&& (forall|i: int|
        0 <= i < s.len() ==> inner_ok((#[trigger] s[i]).inner) && record_signed(s[i]) && s[
            i
        ].inner.public_key@.len() > 0 && s[i].inner.public_key@.len() <= u32::MAX)
}

/// A gossip record the database would take: it verifies, is not our own,
/// and is either unknown or strictly newer than what we hold.
pub open spec fn acceptable(s: Seq<GossipNodeRecord>, this: Seq<u8>, g: GossipNodeRecord) -> bool {
    &&& inner_ok(g.inner)
    &&& record_signed(g)
    &&& g.inner.public_key@.len() > 0
    &&& g.inner.public_key@ != this
    &&& (!db_contains(s, g.inner.public_key@) || db_record(
        s,
        g.inner.public_key@,
    ).inner.version < g.inner.version)
}

/// A gossip record the database already reflects: known, at this version or
/// later.
pub open spec fn covered(s: Seq<GossipNodeRecord>, g: GossipNodeRecord) -> bool {
    db_contains(s, g.inner.public_key@) && db_record(s, g.inner.public_key@).inner.version
        >= g.inner.version
}

/// A record the database reflects is not acceptable, so a gossip wholly
/// reflected by the database is handled without any change: gossip settles
/// in steady state.
pub proof fn lemma_covered_not_acceptable(
    s: Seq<GossipNodeRecord>,
    this: Seq<u8>,
    g: GossipNodeRecord,
)
    requires
        covered(s, g),
    ensures
        !acceptable(s, this, g),
{
}

/// The canonical encodings, validity, and machine fit of a record body
/// depend only on its plain values.
pub proof fn lemma_inner_view(a: crate::gossip::NodeRecordInner, b: crate::gossip::NodeRecordInner)
    requires
        inner_view_eq(a, b),
    ensures
        enc_inner(a, true) == enc_inner(b, true),
        enc_inner(a, false) == enc_inner(b, false),
        inner_ok(a) == inner_ok(b),
        inner_sizes_fit(a) == inner_sizes_fit(b),
{
    assert(enc_inner(a, true) =~= enc_inner(b, true));
    assert(enc_inner(a, false) =~= enc_inner(b, false));
    assert(crate::route::keys_view(a.neighbors@) == crate::route::keys_view(b.neighbors@));
    assert forall|i: int| 0 <= i < a.neighbors@.len() implies (#[trigger] a.neighbors@[i])@
        == b.neighbors@[i]@ by {
        assert(crate::route::keys_view(a.neighbors@)[i] == a.neighbors@[i]@);
        assert(crate::route::keys_view(b.neighbors@)[i] == b.neighbors@[i]@);
    }
    assert forall|i: int| 0 <= i < b.neighbors@.len() implies (#[trigger] b.neighbors@[i])@
        == a.neighbors@[i]@ by {
        assert(crate::route::keys_view(a.neighbors@)[i] == a.neighbors@[i]@);
        assert(crate::route::keys_view(b.neighbors@)[i] == b.neighbors@[i]@);
    }
    assert(inner_ok(a) == inner_ok(b));
    assert(inner_sizes_fit(a) == inner_sizes_fit(b));
}

/// The signed node database of one node.
#[derive(Debug)]
pub struct NeighborhoodDatabase {
    /// The local node's key: its record is always present.
    pub this_node: PublicKey,
    /// The local envelope, which re-signs our own record.
    pub cryptde: CryptDENull,
    pub records: Vec<GossipNodeRecord>,
}

impl NeighborhoodDatabase {
    /// Records verified and unique, our own record present and ours to
    /// re-sign.
    pub open spec fn wf(&self) -> bool {
        &&& records_wf(self.records@)
        &&& db_contains(self.records@, self.this_node@)
        &&& self.cryptde.spec_key() == self.this_node@
        &&& self.this_node@.len() > 0
        &&& self.this_node@.len() <= u32::MAX
    }

    /// Start a database from the local node's own record body.
    pub fn new(cryptde: &CryptDENull, inner: crate::gossip::NodeRecordInner) -> (r: Option<
        NeighborhoodDatabase,
    >)
        requires
            inner_sizes_fit(inner),
            inner.public_key@ == cryptde.spec_key(),
            inner.public_key@.len() > 0,
        ensures
            r matches Some(db) ==> db.wf() && db.this_node@ == inner.public_key@
                && db.records@.len() == 1,
            r is None ==> !inner_ok(inner),
    {
        let signatures = match NodeSignatures::from(cryptde, &inner) {
            Some(s) => s,
            None => {
                return None;
            },
        };
        let this_node = inner.public_key.clone();
        let record = GossipNodeRecord { inner, signatures };
        let records = vec![record];
        proof {
            assert(records@[0].inner.public_key@ == this_node@);
        }
        Some(NeighborhoodDatabase { this_node, cryptde: cryptde.clone(), records })
    }

    /// Find `key`'s record.
    pub fn node_by_key(&self, key: &PublicKey) -> (r: Option<&GossipNodeRecord>)
        requires
            self.wf(),
        ensures
            (r is Some) == db_contains(self.records@, key@),
            r matches Some(g) ==> *g == db_record(self.records@, key@),
    {
        match self.find(key) {
            Some(i) => Some(&self.records[i]),
            None => None,
        }
    }

    fn find(&self, key: &PublicKey) -> (r: Option<usize>)
        requires
            records_wf(self.records@),
        ensures
            (r is Some) == db_contains(self.records@, key@),
            r matches Some(i) ==> i < self.records@.len()
                && self.records@[i as int].inner.public_key@ == key@ && i == db_index(
                self.records@,
                key@,
            ),
    {
        let mut i: usize = 0;
        while i < self.records.len()
            invariant
                i <= self.records@.len(),
                records_wf(self.records@),
                forall|j: int|
                    0 <= j < i ==> (#[trigger] self.records@[j]).inner.public_key@ != key@,
            decreases self.records@.len() - i,
        {
            if crate::bytes_util::bytes_eq(&self.records[i].inner.public_key.data, &key.data) {
                proof {
                    let j = db_index(self.records@, key@);
                    assert(0 <= j < self.records@.len() && self.records@[j].inner.public_key@
                        == key@);
                    if j != i {
                        assert(self.records@[j].inner.public_key@
                            != self.records@[i as int].inner.public_key@ || j == i);
                    }
                }
                return Some(i);
            }
            i = i + 1;
        }
        proof {
            if db_contains(self.records@, key@) {
                let j = db_index(self.records@, key@);
                assert(self.records@[j].inner.public_key@ != key@);
            }
        }
        None
    }

    /// Take one gossip: verify each record, insert the unknown, replace the
    /// strictly newer, drop the rest; then, if anything changed, trim our
    /// own neighbor list to known keys, bump our version and re-sign.
    #[verifier::rlimit(100)]
    pub fn handle_gossip(&mut self, gossip: &Gossip) -> (changed: bool)
        requires
            old(self).wf(),
        ensures
            final(self).wf(),
            final(self).this_node@ == old(self).this_node@,
            final(self).cryptde.spec_key() == old(self).cryptde.spec_key(),
            !changed ==> final(self).records@ == old(self).records@,
            (forall|i: int|
                0 <= i < gossip.node_records@.len() ==> !acceptable(
                    old(self).records@,
                    old(self).this_node@,
                    #[trigger] gossip.node_records@[i],
                )) ==> !changed,
            forall|i: int|
                0 <= i < gossip.node_records@.len() && inner_ok(
                    (#[trigger] gossip.node_records@[i]).inner,
                ) && record_signed(gossip.node_records@[i])
                    && gossip.node_records@[i].inner.public_key@.len() > 0
                    && gossip.node_records@[i].inner.public_key@ != old(self).this_node@
                    ==> covered(final(self).records@, gossip.node_records@[i]),
            forall|k: Seq<u8>|
                #[trigger] db_contains(old(self).records@, k) ==> db_contains(
                    final(self).records@,
                    k,
                ) && db_record(final(self).records@, k).inner.version >= db_record(
                    old(self).records@,
                    k,
                ).inner.version,
    {
        let ghost old_records = self.records@;
        let ghost this = self.this_node@;
        let mut changed = false;
        let mut i: usize = 0;
        while i < gossip.node_records.len()
            invariant
                i <= gossip.node_records@.len(),
                records_wf(self.records@),
                db_contains(self.records@, this),
                self.this_node@ == this,
                self.this_node@.len() > 0,
                self.this_node@.len() <= u32::MAX,
                self.cryptde.spec_key() == this,
                !changed ==> self.records@ == old_records,
                changed ==> exists|j: int|
                    0 <= j < i && acceptable(
                        old_records,
                        this,
                        #[trigger] gossip.node_records@[j],
                    ),
                forall|j: int|
                    0 <= j < i && inner_ok((#[trigger] gossip.node_records@[j]).inner)
                        && record_signed(gossip.node_records@[j])
                        && gossip.node_records@[j].inner.public_key@.len() > 0
                        && gossip.node_records@[j].inner.public_key@ != this ==> covered(
                        self.records@,
                        gossip.node_records@[j],
                    ),
                forall|k: Seq<u8>|
                    #[trigger] db_contains(old_records, k) ==> db_contains(self.records@, k)
                        && db_record(self.records@, k).inner.version >= db_record(
                        old_records,
                        k,
                    ).inner.version,
            decreases gossip.node_records@.len() - i,
        {
            let ghost before = self.records@;
            let g = &gossip.node_records[i];
            let key_nonempty = g.inner.public_key.data.len() > 0;
            let sizes_ok = Self::sizes_fit(g);
            let verified = key_nonempty && sizes_ok && g.verify_signatures();
            let own = crate::bytes_util::bytes_eq(&g.inner.public_key.data, &self.this_node.data);
            if verified && !own {
                match self.find(&g.inner.public_key) {
                    None => {
                        let c = g.clone();
                        proof {
                            lemma_inner_view(c.inner, g.inner);
                        }
                        proof {
                            assert(!db_contains(before, g.inner.public_key@));
                            if db_contains(old_records, g.inner.public_key@) {
                                assert(db_contains(before, g.inner.public_key@));
                            }
                            assert(acceptable(old_records, this, gossip.node_records@[i as int]));
                        }
                        self.records.push(c);
                        changed = true;
                        proof {
                            let n = before.len() as int;
                            assert(self.records@[n].inner.public_key@ == g.inner.public_key@);
                            assert(forall|j: int|
                                0 <= j < n ==> self.records@[j] == #[trigger] before[j]);
                            assert forall|k: Seq<u8>| #[trigger]
                                db_contains(before, k) implies db_contains(self.records@, k)
                                && db_record(self.records@, k).inner.version >= db_record(
                                before,
                                k,
                            ).inner.version by {
                                let j = db_index(before, k);
                                assert(self.records@[j].inner.public_key@ == k);
                                let j2 = db_index(self.records@, k);
                                if j2 != j {
                                    assert(self.records@[j2].inner.public_key@
                                        != self.records@[j].inner.public_key@ || j2 == j);
                                }
                            }
                            assert(covered(self.records@, gossip.node_records@[i as int])) by {
                                let j2 = db_index(self.records@, g.inner.public_key@);
                                if j2 != n {
                                    assert(self.records@[j2].inner.public_key@
                                        != self.records@[n].inner.public_key@ || j2 == n);
                                }
                            }
                        }
                    },
                    Some(at) => {
                        if self.records[at].inner.version < g.inner.version {
                            let c = g.clone();
                            proof {
                                lemma_inner_view(c.inner, g.inner);
                            }
                            proof {
                                assert(db_contains(old_records, g.inner.public_key@) ==> db_record(
                                    old_records,
                                    g.inner.public_key@,
                                ).inner.version <= before[at as int].inner.version);
                                assert(acceptable(
                                    old_records,
                                    this,
                                    gossip.node_records@[i as int],
                                ));
                            }
                            self.records.set(at, c);
                            changed = true;
                            proof {
                                assert(self.records@[at as int].inner.public_key@
                                    == g.inner.public_key@);
                                assert forall|k: Seq<u8>| #[trigger]
                                    db_contains(before, k) implies db_contains(self.records@, k)
                                    && db_record(self.records@, k).inner.version >= db_record(
                                    before,
                                    k,
                                ).inner.version by {
                                    let j = db_index(before, k);
                                    if j == at {
                                        assert(self.records@[j].inner.public_key@ == k);
                                    } else {
                                        assert(self.records@[j].inner.public_key@ == k);
                                    }
                                    let j2 = db_index(self.records@, k);
                                    if j2 != j {
                                        assert(self.records@[j2].inner.public_key@
                                            != self.records@[j].inner.public_key@ || j2 == j);
                                    }
                                }
                            }
                        }
                    },
                }
            }
            i = i + 1;
            proof {
                if !changed {
                    assert(self.records@ == old_records);
                }
            }
        }
        if changed {
            self.refresh_own_record();
        }
        changed
    }

    /// The machine limits the canonical encoding asks for.
    fn sizes_fit(g: &GossipNodeRecord) -> (r: bool)
        ensures
            r == inner_sizes_fit(g.inner),
    {
        if g.inner.public_key.data.len() > (u32::MAX as usize) {
            return false;
        }
        if g.inner.earning_wallet.address.as_str().unicode_len() > (u32::MAX as usize) {
            return false;
        }
        match &g.inner.consuming_wallet {
            Some(w) => {
                if w.address.as_str().unicode_len() > (u32::MAX as usize) {
                    return false;
                }
            },
            None => {},
        }
        if g.inner.neighbors.len() > (u32::MAX as usize) {
            return false;
        }
        let mut i: usize = 0;
        while i < g.inner.neighbors.len()
            invariant
                i <= g.inner.neighbors@.len(),
                forall|j: int| 0 <= j < i ==> (#[trigger] g.inner.neighbors@[j])@.len() <= u32::MAX,
            decreases g.inner.neighbors@.len() - i,
        {
            if g.inner.neighbors[i].data.len() > (u32::MAX as usize) {
                return false;
            }
            i = i + 1;
        }
        match &g.inner.node_addr_opt {
            Some(na) => {
                if na.ports.len() > (u32::MAX as usize) {
                    return false;
                }
            },
            None => {},
        }
        true
    }

    /// Trim our neighbor list to keys the database knows, bump our version
    /// and re-sign our record.
    #[verifier::rlimit(100)]
    fn refresh_own_record(&mut self)
        requires
            records_wf(old(self).records@),
            db_contains(old(self).records@, old(self).this_node@),
            old(self).cryptde.spec_key() == old(self).this_node@,
            old(self).this_node@.len() > 0,
            old(self).this_node@.len() <= u32::MAX,
        ensures
            final(self).wf(),
            final(self).this_node@ == old(self).this_node@,
            final(self).cryptde.spec_key() == old(self).cryptde.spec_key(),
            forall|k: Seq<u8>|
                #[trigger] db_contains(old(self).records@, k) ==> db_contains(
                    final(self).records@,
                    k,
                ) && db_record(final(self).records@, k).inner.version >= db_record(
                    old(self).records@,
                    k,
                ).inner.version,
            forall|g: GossipNodeRecord|
                g.inner.public_key@ != old(self).this_node@ && #[trigger] covered(
                    old(self).records@,
                    g,
                ) ==> covered(final(self).records@, g),
    {
        let this_key = self.this_node.clone();
        let at = match self.find(&this_key) {
            Some(i) => i,
            None => {
                proof {
                    assert(false);
                }
                return ;
            },
        };
        let old_inner = self.records[at].inner.clone();
        proof {
            lemma_inner_view(old_inner, self.records@[at as int].inner);
        }
        let mut kept: Vec<PublicKey> = Vec::new();
        let mut i: usize = 0;
        while i < old_inner.neighbors.len()
            invariant
                i <= old_inner.neighbors@.len(),
                records_wf(self.records@),
                kept@.len() <= i,
                forall|j: int| 0 <= j < kept@.len() ==> (#[trigger] kept@[j])@.len() <= u32::MAX,
                forall|j: int|
                    0 <= j < old_inner.neighbors@.len() ==> (
                    #[trigger] old_inner.neighbors@[j])@.len() <= u32::MAX,
                self.records@ == old(self).records@,
                self.this_node@ == old(self).this_node@,
                self.cryptde.spec_key() == old(self).cryptde.spec_key(),
            decreases old_inner.neighbors@.len() - i,
        {
            if self.find(&old_inner.neighbors[i]).is_some() {
                kept.push(old_inner.neighbors[i].clone());
            }
            i = i + 1;
        }
        let new_version = if old_inner.version < u32::MAX {
            old_inner.version + 1
        } else {
            old_inner.version
        };
        let ghost old_version = self.records@[at as int].inner.version;
        let new_inner = crate::gossip::NodeRecordInner {
            public_key: old_inner.public_key,
            node_addr_opt: old_inner.node_addr_opt,
            is_bootstrap_node: old_inner.is_bootstrap_node,
            earning_wallet: old_inner.earning_wallet,
            consuming_wallet: old_inner.consuming_wallet,
            neighbors: kept,
            version: new_version,
        };
        let signatures = match NodeSignatures::from(&self.cryptde, &new_inner) {
            Some(s) => s,
            None => {
                proof {
                    assert(false);
                }
                return ;
            },
        };
        let new_record = GossipNodeRecord { inner: new_inner, signatures };
        let ghost before = self.records@;
        self.records.set(at, new_record);
        proof {
            assert(self.records@[at as int].inner.public_key@ == old(self).this_node@);
            assert(self.records@[at as int].inner.version >= old_version);
            assert forall|k: Seq<u8>| #[trigger]
                db_contains(before, k) implies db_contains(self.records@, k) && db_record(
                self.records@,
                k,
            ).inner.version >= db_record(before, k).inner.version by {
                let j = db_index(before, k);
                assert(self.records@[j].inner.public_key@ == k);
                let j2 = db_index(self.records@, k);
                if j2 != j {
                    assert(self.records@[j2].inner.public_key@
                        != self.records@[j].inner.public_key@ || j2 == j);
                }
            }
        }
    }
}

} // verus!
