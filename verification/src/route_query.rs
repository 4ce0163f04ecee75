//! Answering route queries from the signed node database: a constrained
//! search for a path, and a checked assembly of the response. Whatever path
//! the search proposes, the assembly admits only routes in which no
//! intermediate hop is the originator or a bootstrap node, the services
//! list is one entry per hop, `Nothing` at the head and one `Exit` at the
//! tail.

use vstd::prelude::*;

use crate::bytes_util::bytes_eq;
use crate::cryptde::PublicKey;
use crate::neighborhood::{ExpectedService, ExpectedServices, RouteQueryMessage, RouteQueryResponse};
use crate::neighborhood_db::{db_contains, db_record, NeighborhoodDatabase};
use crate::route::{
    elem_sizes_ok, elem_wallet_ok, keys_view, wallet_opt_view, Route, RouteSegment,
};
use crate::wallet::Wallet;

verus! {

/// The shape every returned service list has: one entry per hop, `Nothing`
/// first, one `Exit` last, and between them only `Routing` entries naming
/// known, standard nodes other than the originator.
pub open spec fn services_shape(
    records: Seq<crate::gossip::GossipNodeRecord>,
    this: Seq<u8>,
    s: Seq<ExpectedService>,
) -> bool {
    &&& s.len() >= 2
    &&& s[0] is Nothing
    &&& (s[s.len() - 1] matches ExpectedService::Exit(_, _))
    &&& (forall|i: int|
        0 < i < s.len() - 1 ==> (#[trigger] s[i] matches ExpectedService::Routing(k, _) && k@
            != this && db_contains(records, k@) && !db_record(records, k@).inner.is_bootstrap_node))
}

/// A key run read backwards: the return path of a round trip.
pub open spec fn seq_reversed(pk: Seq<Seq<u8>>) -> Seq<Seq<u8>> {
    Seq::new(pk.len(), |i: int| pk[pk.len() - 1 - i])
}

/// The services name exactly the keys of the path, position by position.
pub open spec fn services_named(s: Seq<ExpectedService>, pk: Seq<Seq<u8>>) -> bool {
    &&& s.len() == pk.len()
    &&& (forall|i: int|
        0 < i < s.len() - 1 ==> (#[trigger] s[i] matches ExpectedService::Routing(k, _) && k@
            == pk[i]))
    &&& (s.len() >= 1 ==> (s[s.len() - 1] matches ExpectedService::Exit(k, _) && k@ == pk[s.len()
        - 1]))
}

/// What the tail entry's node must be: the asked-for key, or, when none
/// was asked for, a known standard node with an address, other than the
/// originator.
pub open spec fn exit_named(
    records: Seq<crate::gossip::GossipNodeRecord>,
    this: Seq<u8>,
    s: Seq<ExpectedService>,
    target_key_opt: Option<crate::cryptde::PublicKey>,
) -> bool {
    s.len() >= 1 && (s[s.len() - 1] matches ExpectedService::Exit(k, _) && (match target_key_opt {
        Some(tk) => k@ == tk@,
        None => k@ == this || (db_contains(records, k@) && !db_record(
            records,
            k@,
        ).inner.is_bootstrap_node && db_record(records, k@).inner.node_addr_opt is Some),
    }))
}

/// What any successful response satisfies: the services have the required
/// shape, the exit meets the query's demand, and the route's hop
/// ciphertexts are exactly the hops over the named keys (out, and for a
/// round trip back again over the same keys reversed).
pub open spec fn response_ok(
    records: Seq<crate::gossip::GossipNodeRecord>,
    this: Seq<u8>,
    msg: RouteQueryMessage,
    wv: Option<Seq<char>>,
    resp: RouteQueryResponse,
) -> bool {
    match resp.expected_services {
        ExpectedServices::OneWay(s) => services_shape(records, this, s@) && resp.route@.len()
            == s@.len() && s@.len() > msg.minimum_hop_count && exit_named(
            records,
            this,
            s@,
            msg.target_key_opt,
        ) && (exists|pk: Seq<Seq<u8>>|
            #[trigger] services_named(s@, pk) && resp.route@ == crate::route::route_hops(
                pk,
                msg.target_component,
                wv,
            )),
        ExpectedServices::RoundTrip(s1, s2, _) => services_shape(records, this, s1@) && s1@.len()
            > msg.minimum_hop_count && s2@.len() == s1@.len() && resp.route@.len() == s1@.len()
            + s2@.len() && exit_named(records, this, s1@, msg.target_key_opt) && (
        msg.return_component_opt matches Some(rc) && (exists|pk: Seq<Seq<u8>>|
            #[trigger] services_named(s1@, pk) && resp.route@ == crate::route::route_hops(
                pk,
                msg.target_component,
                wv,
            ) + crate::route::route_hops(seq_reversed(pk), rc, wv))),
    }
}

fn copy_keys(ks: &Vec<PublicKey>) -> (r: Vec<PublicKey>)
    ensures
        keys_view(r@) == keys_view(ks@),
        r@.len() == ks@.len(),
        forall|j: int| 0 <= j < ks@.len() ==> (#[trigger] r@[j])@ == ks@[j]@,
{
    let mut out: Vec<PublicKey> = Vec::new();
    let mut i: usize = 0;
    while i < ks.len()
        invariant
            i <= ks@.len(),
            out@.len() == i,
            forall|j: int| 0 <= j < i ==> (#[trigger] out@[j])@ == ks@[j]@,
        decreases ks@.len() - i,
    {
        out.push(ks[i].clone());
        i = i + 1;
    }
    proof {
        assert(keys_view(out@) =~= keys_view(ks@));
    }
    out
}

fn reverse_keys(ks: &Vec<PublicKey>) -> (r: Vec<PublicKey>)
    ensures
        r@.len() == ks@.len(),
        forall|j: int| 0 <= j < ks@.len() ==> (#[trigger] r@[j])@ == ks@[ks@.len() - 1 - j]@,
{
    let mut out: Vec<PublicKey> = Vec::new();
    let mut i: usize = ks.len();
    while i > 0
        invariant
            i <= ks@.len(),
            out@.len() == ks@.len() - i,
            forall|j: int| 0 <= j < out@.len() ==> (#[trigger] out@[j])@ == ks@[ks@.len() - 1 - j]@,
        decreases i,
    {
        i = i - 1;
        out.push(ks[i].clone());
    }
    out
}

fn path_contains(path: &Vec<PublicKey>, key: &PublicKey) -> (r: bool)
    ensures
        r == exists|j: int| 0 <= j < path@.len() && (#[trigger] path@[j])@ == key@,
{
    let mut i: usize = 0;
    while i < path.len()
        invariant
            i <= path@.len(),
            forall|j: int| 0 <= j < i ==> (#[trigger] path@[j])@ != key@,
        decreases path@.len() - i,
    {
        if bytes_eq(&path[i].data, &key.data) {
            return true;
        }
        i = i + 1;
    }
    false
}

/// Is `key` fit to end the route that `msg` asks for?
fn exit_ok(db: &NeighborhoodDatabase, msg: &RouteQueryMessage, key: &PublicKey) -> bool
    requires
        db.wf(),
{
    match &msg.target_key_opt {
        Some(tk) => bytes_eq(&key.data, &tk.data),
        None => {
            match db.node_by_key(key) {
                Some(rec) => !rec.inner.is_bootstrap_node && rec.inner.node_addr_opt.is_some()
                    && !bytes_eq(&key.data, &db.this_node.data),
                None => false,
            }
        },
    }
}

/// Depth-first search for a candidate path; what it returns is vetted by
/// `build_response` before anything is promised of it.
fn dfs(
    db: &NeighborhoodDatabase,
    msg: &RouteQueryMessage,
    path: Vec<PublicKey>,
    fuel: usize,
) -> Option<Vec<PublicKey>>
    requires
        db.wf(),
        path@.len() >= 1,
    decreases fuel,
{
    if path.len() > msg.minimum_hop_count && path.len() >= 2 && exit_ok(
        db,
        msg,
        &path[path.len() - 1],
    ) {
        return Some(path);
    }
    if fuel == 0 {
        return None;
    }
    let last = path[path.len() - 1].clone();
    let rec = match db.node_by_key(&last) {
        Some(r) => r,
        None => {
            return None;
        },
    };
    let neighbors = copy_keys(&rec.inner.neighbors);
    let mut i: usize = 0;
    while i < neighbors.len()
        invariant
            db.wf(),
            path@.len() >= 1,
            fuel >= 1,
        decreases neighbors@.len() - i,
    {
        let nk = &neighbors[i];
        let known = db.node_by_key(nk).is_some();
        if known && !path_contains(&path, nk) {
            let candidate_exit = exit_ok(db, msg, nk);
            let usable_middle = match db.node_by_key(nk) {
                Some(r) => !r.inner.is_bootstrap_node && !bytes_eq(&nk.data, &db.this_node.data),
                None => false,
            };
            if candidate_exit || usable_middle {
                let mut extended = copy_keys(&path);
                extended.push(nk.clone());
                match dfs(db, msg, extended, fuel - 1) {
                    Some(found) => {
                        return Some(found);
                    },
                    None => {},
                }
            }
        }
        i = i + 1;
    }
    None
}

/// Vet a candidate path and assemble the response: the route's hop
/// ciphertexts and the services owed along them.
#[verifier::rlimit(100)]
fn build_response(
    db: &NeighborhoodDatabase,
    consuming_wallet: &Option<Wallet>,
    msg: &RouteQueryMessage,
    path: &Vec<PublicKey>,
) -> (r: Option<RouteQueryResponse>)
    requires
        db.wf(),
        elem_sizes_ok(Seq::<u8>::empty(), wallet_opt_view(*consuming_wallet)),
    ensures
        r matches Some(resp) ==> response_ok(
            db.records@,
            db.this_node@,
            *msg,
            wallet_opt_view(*consuming_wallet),
            resp,
        ),
{
    if path.len() < 2 {
        return None;
    }
    if !bytes_eq(&path[0].data, &db.this_node.data) {
        return None;
    }
    if path.len() <= msg.minimum_hop_count {
        return None;
    }
    let mut svcs: Vec<ExpectedService> = Vec::new();
    svcs.push(ExpectedService::Nothing);
    let mut i: usize = 1;
    while i < path.len() - 1
        invariant
            db.wf(),
            1 <= i <= path@.len() - 1,
            path@.len() >= 2,
            svcs@.len() == i,
            svcs@[0] is Nothing,
            path@[0]@ == db.this_node@,
            forall|j: int| 1 <= j < i ==> db_contains(db.records@, (#[trigger] path@[j])@),
            forall|j: int|
                0 < j < i ==> (#[trigger] svcs@[j] matches ExpectedService::Routing(k, _) && k@
                    == path@[j]@ && k@ != db.this_node@ && db_contains(db.records@, k@)
                    && !db_record(db.records@, k@).inner.is_bootstrap_node),
        decreases path@.len() - i,
    {
        let rec = match db.node_by_key(&path[i]) {
            Some(r) => r,
            None => {
                return None;
            },
        };
        if rec.inner.is_bootstrap_node {
            return None;
        }
        if bytes_eq(&path[i].data, &db.this_node.data) {
            return None;
        }
        let wallet = rec.inner.earning_wallet.clone();
        svcs.push(ExpectedService::Routing(path[i].clone(), wallet));
        i = i + 1;
    }
    let exit_i = path.len() - 1;
    let exit_rec = match db.node_by_key(&path[exit_i]) {
        Some(r) => r,
        None => {
            return None;
        },
    };
    match &msg.target_key_opt {
        Some(tk) => {
            if !bytes_eq(&path[exit_i].data, &tk.data) {
                return None;
            }
        },
        None => {
            if exit_rec.inner.is_bootstrap_node || exit_rec.inner.node_addr_opt.is_none()
                || bytes_eq(&path[exit_i].data, &db.this_node.data) {
                return None;
            }
        },
    }
    let exit_wallet = exit_rec.inner.earning_wallet.clone();
    proof {
        assert(db_contains(db.records@, path@[exit_i as int]@));
    }
    svcs.push(ExpectedService::Exit(path[exit_i].clone(), exit_wallet));
    let ghost pk = Seq::new(path@.len(), |i: int| path@[i]@);
    proof {
        assert(svcs@.len() == path@.len());
        assert(svcs@[svcs@.len() - 1] matches ExpectedService::Exit(k, _) && k@ == pk[pk.len()
            - 1]);
        assert(services_named(svcs@, pk));
        assert(exit_named(db.records@, db.this_node@, svcs@, msg.target_key_opt));
    }
    let over_keys = copy_keys(path);
    proof {
        assert forall|j: int| 0 <= j < keys_view(over_keys@).len() implies (#[trigger] keys_view(
            over_keys@,
        )[j]).len() > 0 && keys_view(over_keys@)[j].len() <= u32::MAX by {
            assert(keys_view(over_keys@)[j] == over_keys@[j]@);
            if j == 0 {
                assert(db_contains(db.records@, path@[0]@));
            } else if j == path@.len() - 1 {
                assert(db_contains(db.records@, path@[j]@));
            } else {
                assert(db_contains(db.records@, path@[j]@));
            }
            let at = crate::neighborhood_db::db_index(db.records@, path@[j]@);
            assert(db.records@[at].inner.public_key@ == path@[j]@);
        }
    }
    let over_seg = RouteSegment::new(over_keys, msg.target_component);
    match &msg.return_component_opt {
        None => {
            let route = match Route::one_way(&over_seg, &db.cryptde, consuming_wallet) {
                Ok(rt) => rt,
                Err(_) => {
                    return None;
                },
            };
            proof {
                assert(keys_view(over_seg.keys@) =~= pk);
                assert(route@ == crate::route::route_hops(
                    pk,
                    msg.target_component,
                    wallet_opt_view(*consuming_wallet),
                ));
            }
            Some(RouteQueryResponse { route, expected_services: ExpectedServices::OneWay(svcs) })
        },
        Some(rc) => {
            let back_keys = reverse_keys(path);
            proof {
                assert forall|j: int| 0 <= j < keys_view(back_keys@).len() implies (
                #[trigger] keys_view(back_keys@)[j]).len() > 0 && keys_view(back_keys@)[j].len()
                    <= u32::MAX by {
                    assert(keys_view(back_keys@)[j] == back_keys@[j]@);
                    let j2 = path@.len() - 1 - j;
                    if j2 == 0 {
                        assert(db_contains(db.records@, path@[0]@));
                    } else {
                        assert(db_contains(db.records@, path@[j2]@));
                    }
                    let at = crate::neighborhood_db::db_index(db.records@, path@[j2]@);
                    assert(db.records@[at].inner.public_key@ == path@[j2]@);
                }
            }
            let back_seg = RouteSegment::new(back_keys, *rc);
            let route = match Route::round_trip(&over_seg, &back_seg, &db.cryptde, consuming_wallet)
                {
                Ok(rt) => rt,
                Err(_) => {
                    return None;
                },
            };
            let mut back_svcs: Vec<ExpectedService> = Vec::new();
            let mut j: usize = 0;
            while j < svcs.len()
                invariant
                    j <= svcs@.len(),
                    back_svcs@.len() == j,
                decreases svcs@.len() - j,
            {
                back_svcs.push(ExpectedService::Nothing);
                j = j + 1;
            }
            proof {
                assert(keys_view(over_seg.keys@) =~= pk);
                assert(keys_view(back_seg.keys@) =~= seq_reversed(pk));
                assert(route@ == crate::route::route_hops(
                    pk,
                    msg.target_component,
                    wallet_opt_view(*consuming_wallet),
                ) + crate::route::route_hops(
                    seq_reversed(pk),
                    *rc,
                    wallet_opt_view(*consuming_wallet),
                ));
                assert(crate::route::route_hops(
                    pk,
                    msg.target_component,
                    wallet_opt_view(*consuming_wallet),
                ).len() == pk.len());
            }
            Some(
                RouteQueryResponse {
                    route,
                    expected_services: ExpectedServices::RoundTrip(svcs, back_svcs, 0),
                },
            )
        },
    }
}

/// The degenerate loopback route a node uses to serve its own traffic: it
/// is its own exit, with two hops sealed to itself in each direction.
fn zero_hop_response(
    db: &NeighborhoodDatabase,
    consuming_wallet: &Option<Wallet>,
    msg: &RouteQueryMessage,
) -> (r: Option<RouteQueryResponse>)
    requires
        db.wf(),
        elem_sizes_ok(Seq::<u8>::empty(), wallet_opt_view(*consuming_wallet)),
        msg.minimum_hop_count == 0,
        msg.target_key_opt matches Some(tk) ==> tk@ == db.this_node@,
    ensures
        r matches Some(resp) ==> response_ok(
            db.records@,
            db.this_node@,
            *msg,
            wallet_opt_view(*consuming_wallet),
            resp,
        ),
        elem_wallet_ok(wallet_opt_view(*consuming_wallet)) ==> r is Some,
{
    let this_rec = match db.node_by_key(&db.this_node) {
        Some(rec) => rec,
        None => {
            proof {
                assert(false);
            }
            return None;
        },
    };
    let own_wallet = this_rec.inner.earning_wallet.clone();
    let keys = vec![db.this_node.clone(), db.this_node.clone()];
    proof {
        assert(keys@[0]@ == db.this_node@);
        assert(keys@[1]@ == db.this_node@);
        assert forall|j: int| 0 <= j < keys_view(keys@).len() implies (#[trigger] keys_view(
            keys@,
        )[j]).len() > 0 && keys_view(keys@)[j].len() <= u32::MAX by {
            assert(keys_view(keys@)[j] == keys@[j]@);
        }
    }
    let over_seg = RouteSegment::new(keys, msg.target_component);
    let mut svcs: Vec<ExpectedService> = Vec::new();
    svcs.push(ExpectedService::Nothing);
    svcs.push(ExpectedService::Exit(db.this_node.clone(), own_wallet));
    match &msg.return_component_opt {
        None => {
            let route = match Route::one_way(&over_seg, &db.cryptde, consuming_wallet) {
                Ok(rt) => rt,
                Err(_) => {
                    return None;
                },
            };
            proof {
                let pk = seq![db.this_node@, db.this_node@];
                assert(svcs@[1] matches ExpectedService::Exit(k, _) && k@ == pk[1]);
                assert(services_named(svcs@, pk));
                assert(exit_named(db.records@, db.this_node@, svcs@, msg.target_key_opt));
                assert(keys_view(over_seg.keys@) =~= pk);
                assert(route@ == crate::route::route_hops(
                    pk,
                    msg.target_component,
                    wallet_opt_view(*consuming_wallet),
                ));
            }
            Some(RouteQueryResponse { route, expected_services: ExpectedServices::OneWay(svcs) })
        },
        Some(rc) => {
            let back_keys = vec![db.this_node.clone(), db.this_node.clone()];
            proof {
                assert forall|j: int| 0 <= j < keys_view(back_keys@).len() implies (
                #[trigger] keys_view(back_keys@)[j]).len() > 0 && keys_view(back_keys@)[j].len()
                    <= u32::MAX by {
                    assert(keys_view(back_keys@)[j] == back_keys@[j]@);
                }
            }
            let back_seg = RouteSegment::new(back_keys, *rc);
            let route = match Route::round_trip(&over_seg, &back_seg, &db.cryptde, consuming_wallet)
                {
                Ok(rt) => rt,
                Err(_) => {
                    return None;
                },
            };
            let back_svcs = vec![ExpectedService::Nothing, ExpectedService::Nothing];
            proof {
                let pk = seq![db.this_node@, db.this_node@];
                assert(svcs@[1] matches ExpectedService::Exit(k, _) && k@ == pk[1]);
                assert(services_named(svcs@, pk));
                assert(exit_named(db.records@, db.this_node@, svcs@, msg.target_key_opt));
                assert(keys_view(over_seg.keys@) =~= pk);
                assert(keys_view(back_seg.keys@) =~= seq_reversed(pk));
                assert(route@ == crate::route::route_hops(
                    pk,
                    msg.target_component,
                    wallet_opt_view(*consuming_wallet),
                ) + crate::route::route_hops(
                    seq_reversed(pk),
                    *rc,
                    wallet_opt_view(*consuming_wallet),
                ));
                assert(crate::route::route_hops(
                    pk,
                    msg.target_component,
                    wallet_opt_view(*consuming_wallet),
                ).len() == pk.len());
            }
            Some(
                RouteQueryResponse {
                    route,
                    expected_services: ExpectedServices::RoundTrip(svcs, back_svcs, 0),
                },
            )
        },
    }
}

/// Answer one route query. Without a working overlay only the degenerate
/// loopback is on offer; with one, a path search runs, and whatever it
/// found is vetted before it is returned. A query that cannot be satisfied
/// gets `None`, never a panic.
pub fn route_query(
    db: &NeighborhoodDatabase,
    decentralized: bool,
    consuming_wallet: &Option<Wallet>,
    msg: &RouteQueryMessage,
) -> (r: Option<RouteQueryResponse>)
    requires
        db.wf(),
        elem_sizes_ok(Seq::<u8>::empty(), wallet_opt_view(*consuming_wallet)),
    ensures
        r matches Some(resp) ==> response_ok(
            db.records@,
            db.this_node@,
            *msg,
            wallet_opt_view(*consuming_wallet),
            resp,
        ),
        !decentralized && msg.minimum_hop_count == 0 && (match msg.target_key_opt {
            Some(tk) => tk@ == db.this_node@,
            None => true,
        }) && elem_wallet_ok(wallet_opt_view(*consuming_wallet)) ==> r is Some,
        !decentralized && msg.minimum_hop_count > 0 ==> r is None,
    {
    if !decentralized {
        if msg.minimum_hop_count == 0 {
            let self_ok = match &msg.target_key_opt {
                Some(tk) => bytes_eq(&tk.data, &db.this_node.data),
                None => true,
            };
            if self_ok {
                return zero_hop_response(db, consuming_wallet, msg);
            }
            return None;
        }
        return None;
    }
    let self_target = match &msg.target_key_opt {
        Some(tk) => bytes_eq(&tk.data, &db.this_node.data),
        None => false,
    };
    if self_target && msg.minimum_hop_count == 0 {
        return zero_hop_response(db, consuming_wallet, msg);
    }
    let start = vec![db.this_node.clone()];
    let fuel = db.records.len();
    match dfs(db, msg, start, fuel) {
        Some(path) => build_response(db, consuming_wallet, msg, &path),
        None => None,
    }
}

} // verus!
