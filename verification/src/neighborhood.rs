//! The neighborhood actor's public vocabulary: configuration, node
//! descriptors, and the messages other actors send it.

use vstd::prelude::*;

use crate::cryptde::PublicKey;
use crate::node_addr::{sentinel_ip_addr, IpAddress, NodeAddr};
use crate::route::Component;
use crate::wallet::Wallet;

verus! {

/// How this node's neighborhood starts out.
#[derive(Debug, PartialEq)]
pub struct NeighborhoodConfig {
    pub neighbor_configs: Vec<(PublicKey, NodeAddr)>,
    pub is_bootstrap_node: bool,
    pub local_ip_addr: IpAddress,
    pub clandestine_port_list: Vec<u16>,
    pub earning_wallet: Wallet,
    pub consuming_wallet: Option<Wallet>,
}

impl NeighborhoodConfig {
    /// A node takes part in the overlay only when it knows a neighbor, a
    /// real local address, and at least one clandestine port.
    pub fn is_decentralized(&self) -> (r: bool)
        ensures
            r == (self.neighbor_configs@.len() > 0 && self.local_ip_addr@ != seq![
                255u8,
                255u8,
                255u8,
                255u8,
            ] && self.clandestine_port_list@.len() > 0),
    {
        let sentinel = sentinel_ip_addr();
        !self.neighbor_configs.is_empty() && !(self.local_ip_addr == sentinel)
            && !self.clandestine_port_list.is_empty()
    }
}

/// A node's identity and, when known, where it listens.
#[derive(Debug, PartialEq)]
pub struct NodeDescriptor {
    pub public_key: PublicKey,
    pub node_addr_opt: Option<NodeAddr>,
}

impl NodeDescriptor {
    pub fn new(public_key: PublicKey, node_addr_opt: Option<NodeAddr>) -> (r: NodeDescriptor)
        ensures
            r.public_key@ == public_key@,
            (r.node_addr_opt is Some) == (node_addr_opt is Some),
            r.node_addr_opt matches Some(a) ==> (node_addr_opt matches Some(b) && a.ip_addr
                == b.ip_addr && a.ports@ == b.ports@),
    {
        NodeDescriptor { public_key, node_addr_opt }
    }
}

/// Ask the neighborhood to gossip its own record to its neighbors.
#[derive(Debug, PartialEq)]
pub struct BootstrapNeighborhoodNowMessage {}

/// Look a node up by address or by key.
#[derive(Debug, PartialEq)]
pub enum NodeQueryMessage {
    IpAddress(IpAddress),
    PublicKey(PublicKey),
}

/// What kind of node a route should end at.
#[derive(Clone, Copy, Debug, PartialEq, Eq, Structural)]
pub enum TargetType {
    Bootstrap,
    Standard,
}

/// Ask the neighborhood for a route.
#[derive(Debug, PartialEq)]
pub struct RouteQueryMessage {
    pub target_type: TargetType,
    pub target_key_opt: Option<PublicKey>,
    pub target_component: Component,
    pub minimum_hop_count: usize,
    pub return_component_opt: Option<Component>,
}

impl RouteQueryMessage {
    /// The standard request for a data route: any exit that offers the
    /// client-side proxy, with a return path to the server-side proxy.
    pub fn data_indefinite_route_request(minimum_hop_count: usize) -> (r: RouteQueryMessage)
        ensures
            r.target_type == TargetType::Standard,
            r.target_key_opt is None,
            r.target_component == Component::ProxyClient,
            r.minimum_hop_count == minimum_hop_count,
            r.return_component_opt == Some(Component::ProxyServer),
    {
        RouteQueryMessage {
            target_type: TargetType::Standard,
            target_key_opt: None,
            target_component: Component::ProxyClient,
            minimum_hop_count,
            return_component_opt: Some(Component::ProxyServer),
        }
    }
}

/// What a route's caller owes each node along the way.
#[derive(Debug, PartialEq)]
pub enum ExpectedService {
    Routing(PublicKey, Wallet),
    Exit(PublicKey, Wallet),
    Nothing,
}

/// The services along a one-way or round-trip route.
#[derive(Debug, PartialEq)]
pub enum ExpectedServices {
    OneWay(Vec<ExpectedService>),
    RoundTrip(Vec<ExpectedService>, Vec<ExpectedService>, u32),
}

/// A route, and whom using it will oblige.
#[derive(Debug, PartialEq)]
pub struct RouteQueryResponse {
    pub route: crate::route::Route,
    pub expected_services: ExpectedServices,
}

/// Tell the neighborhood a neighbor is gone.
#[derive(Debug, PartialEq)]
pub struct RemoveNeighborMessage {
    pub public_key: PublicKey,
}

} // verus!
