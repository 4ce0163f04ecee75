//! How a node under test is told to start: the configuration a harness
//! assembles and the exact command-line argument list it becomes. The
//! argument list is pinned word for word in the contract.

use vstd::prelude::*;

use crate::fmt::{append_str, dec_chars, ip_chars, u64_to_dec};
use crate::gossip::addr_opt_view;
use crate::node_addr::{sentinel_ip_addr, IpAddress};
use crate::node_ref::{node_ref_chars, NodeReference};
use crate::wallet::{default_earning_wallet, Wallet};

verus! {

use vstd::string::StringExecFns;

/// Whether a node routes data or only introduces nodes to one another.
#[derive(Clone, Copy, Debug, PartialEq, Eq, Structural)]
pub enum NodeType {
    Standard,
    Bootstrap,
}

/// The words for a node type on the command line.
pub open spec fn node_type_chars(t: NodeType) -> Seq<char> {
    match t {
        NodeType::Standard => "standard"@,
        NodeType::Bootstrap => "bootstrap"@,
    }
}

/// Addresses joined with commas.
pub open spec fn ips_csv(ips: Seq<IpAddress>) -> Seq<char>
    decreases ips.len(),
{
    if ips.len() == 0 {
        Seq::empty()
    } else if ips.len() == 1 {
        ip_chars(ips[0].o0, ips[0].o1, ips[0].o2, ips[0].o3)
    } else {
        ip_chars(ips[0].o0, ips[0].o1, ips[0].o2, ips[0].o3) + seq![','] + ips_csv(ips.skip(1))
    }
}

/// Render a comma-separated address list.
pub fn join_ip_addrs(ips: &Vec<IpAddress>) -> (s: String)
    ensures
        s@ == ips_csv(ips@),
{
    let mut s = String::new();
    if ips.len() == 0 {
        proof {
            assert(s@ =~= ips_csv(ips@));
        }
        return s;
    }
    let first = ips[0].to_string();
    append_str(&mut s, first.as_str());
    let mut i: usize = 1;
    while i < ips.len()
        invariant
            1 <= i <= ips@.len(),
            ips@.len() >= 1,
            ips_csv(ips@) == (if i < ips@.len() {
                s@ + seq![','] + ips_csv(ips@.skip(i as int))
            } else {
                s@
            }),
        decreases ips@.len() - i,
    {
        let comma = ",";
        proof {
            reveal_strlit(",");
            assert(comma@ =~= seq![',']);
        }
        append_str(&mut s, comma);
        let part = ips[i].to_string();
        append_str(&mut s, part.as_str());
        i = i + 1;
        proof {
            let rest_prev = ips@.skip(i - 1);
            assert(rest_prev[0] == ips@[i - 1]);
            assert(rest_prev.skip(1) =~= ips@.skip(i as int));
            if i < ips@.len() {
                assert(ips_csv(rest_prev) =~= ip_chars(
                    ips@[i - 1].o0,
                    ips@[i - 1].o1,
                    ips@[i - 1].o2,
                    ips@[i - 1].o3,
                ) + seq![','] + ips_csv(ips@.skip(i as int)));
            } else {
                assert(ips_csv(rest_prev) =~= ip_chars(
                    ips@[i - 1].o0,
                    ips@[i - 1].o1,
                    ips@[i - 1].o2,
                    ips@[i - 1].o3,
                ));
            }
        }
    }
    s
}

/// Everything a node is started with.
#[derive(Debug, PartialEq)]
pub struct NodeStartupConfig {
    pub ip: IpAddress,
    pub dns_servers: Vec<IpAddress>,
    pub neighbors: Vec<NodeReference>,
    pub node_type: NodeType,
    pub port_count: usize,
    pub dns_target: IpAddress,
    pub dns_port: u16,
    pub earning_wallet: Wallet,
}

fn clone_ips(ips: &Vec<IpAddress>) -> (r: Vec<IpAddress>)
    ensures
        r@ == ips@,
{
    let mut out: Vec<IpAddress> = Vec::new();
    let mut i: usize = 0;
    while i < ips.len()
        invariant
            i <= ips@.len(),
            out@ == ips@.subrange(0, i as int),
        decreases ips@.len() - i,
    {
        out.push(ips[i]);
        i = i + 1;
        proof {
            assert(out@ =~= ips@.subrange(0, i as int));
        }
    }
    proof {
        assert(out@ =~= ips@);
    }
    out
}

/// The plain values of a reference list.
pub open spec fn refs_view(ns: Seq<NodeReference>) -> Seq<(Seq<u8>, Option<(Seq<u8>, Seq<u16>)>)> {
    Seq::new(ns.len(), |i: int| (ns[i].public_key@, addr_opt_view(ns[i].node_addr)))
}

fn clone_refs(ns: &Vec<NodeReference>) -> (r: Vec<NodeReference>)
    ensures
        refs_view(r@) == refs_view(ns@),
        r@.len() == ns@.len(),
{
    let mut out: Vec<NodeReference> = Vec::new();
    let mut i: usize = 0;
    while i < ns.len()
        invariant
            i <= ns@.len(),
            out@.len() == i,
            forall|j: int|
                0 <= j < i ==> (#[trigger] out@[j]).public_key@ == ns@[j].public_key@
                    && addr_opt_view(out@[j].node_addr) == addr_opt_view(ns@[j].node_addr),
        decreases ns@.len() - i,
    {
        out.push(ns[i].clone());
        i = i + 1;
    }
    proof {
        assert(refs_view(out@) =~= refs_view(ns@));
    }
    out
}

/// The `--neighbor` pairs for a reference list.
pub open spec fn neighbor_args(ns: Seq<NodeReference>) -> Seq<Seq<char>>
    decreases ns.len(),
{
    if ns.len() == 0 {
        Seq::empty()
    } else {
        seq!["--neighbor"@, node_ref_chars(ns[0].public_key@, addr_opt_view(ns[0].node_addr))]
            + neighbor_args(ns.skip(1))
    }
}

/// The character sequences of a list of strings.
pub open spec fn strings_view(ss: Seq<String>) -> Seq<Seq<char>> {
    Seq::new(ss.len(), |i: int| ss[i]@)
}

/// The exact argument list a configuration becomes.
pub open spec fn args_view(c: NodeStartupConfig) -> Seq<Seq<char>> {
    seq![
        "--ip"@,
        ip_chars(c.ip.o0, c.ip.o1, c.ip.o2, c.ip.o3),
        "--dns_servers"@,
        ips_csv(c.dns_servers@),
    ] + neighbor_args(c.neighbors@) + seq![
        "--wallet_address"@,
        c.earning_wallet@,
        "--node_type"@,
        node_type_chars(c.node_type),
        "--port_count"@,
        dec_chars(c.port_count as nat),
        "--dns_target"@,
        ip_chars(c.dns_target.o0, c.dns_target.o1, c.dns_target.o2, c.dns_target.o3),
        "--dns_port"@,
        dec_chars(c.dns_port as nat),
        "--log_level"@,
        "trace"@,
        "--data_directory"@,
        "/node_root/home"@,
    ]
}

impl NodeStartupConfig {
    /// The inert default: a bootstrap node at the placeholder address.
    pub fn new() -> (r: NodeStartupConfig)
        ensures
            r.ip@ == seq![255u8, 255u8, 255u8, 255u8],
            r.dns_servers@.len() == 0,
            r.neighbors@.len() == 0,
            r.node_type == NodeType::Bootstrap,
            r.port_count == 0,
            r.dns_target@ == seq![255u8, 255u8, 255u8, 255u8],
            r.dns_port == 0,
            r.earning_wallet@ == "0x0000000000000000000000000000000000000000"@,
    {
        NodeStartupConfig {
            ip: sentinel_ip_addr(),
            dns_servers: Vec::new(),
            neighbors: Vec::new(),
            node_type: NodeType::Bootstrap,
            port_count: 0,
            dns_target: sentinel_ip_addr(),
            dns_port: 0,
            earning_wallet: default_earning_wallet(),
        }
    }

    /// The exact words handed to the node binary, in order.
    #[verifier::rlimit(100)]
    pub fn make_args(&self) -> (r: Vec<String>)
        ensures
            strings_view(r@) == args_view(*self),
    {
        let mut args: Vec<String> = Vec::new();
        args.push(String::from_str("--ip"));
        args.push(self.ip.to_string());
        args.push(String::from_str("--dns_servers"));
        args.push(join_ip_addrs(&self.dns_servers));
        let ghost head = strings_view(args@);
        let mut i: usize = 0;
        proof {
            assert(self.neighbors@.skip(0) =~= self.neighbors@);
            assert(strings_view(args@) + neighbor_args(self.neighbors@.skip(0)) =~= head
                + neighbor_args(self.neighbors@));
        }
        while i < self.neighbors.len()
            invariant
                i <= self.neighbors@.len(),
                strings_view(args@) + neighbor_args(self.neighbors@.skip(i as int)) == head
                    + neighbor_args(self.neighbors@),
            decreases self.neighbors@.len() - i,
        {
            args.push(String::from_str("--neighbor"));
            args.push(self.neighbors[i].to_string());
            i = i + 1;
            proof {
                let rest_prev = self.neighbors@.skip(i - 1);
                assert(rest_prev[0] == self.neighbors@[i - 1]);
                assert(rest_prev.skip(1) =~= self.neighbors@.skip(i as int));
                assert(neighbor_args(rest_prev) == seq![
                    "--neighbor"@,
                    node_ref_chars(
                        self.neighbors@[i - 1].public_key@,
                        addr_opt_view(self.neighbors@[i - 1].node_addr),
                    ),
                ] + neighbor_args(self.neighbors@.skip(i as int)));
                assert(strings_view(args@) + neighbor_args(self.neighbors@.skip(i as int)) =~= head
                    + neighbor_args(self.neighbors@));
            }
        }
        proof {
            assert(self.neighbors@.skip(self.neighbors@.len() as int)
                =~= Seq::<NodeReference>::empty());
            assert(neighbor_args(Seq::<NodeReference>::empty()) =~= Seq::<Seq<char>>::empty());
            assert(strings_view(args@) =~= head + neighbor_args(self.neighbors@));
        }
        let ghost mid = args@;
        let ghost mid_view = strings_view(args@);
        args.push(String::from_str("--wallet_address"));
        args.push(self.earning_wallet.address.clone());
        args.push(String::from_str("--node_type"));
        match self.node_type {
            NodeType::Standard => args.push(String::from_str("standard")),
            NodeType::Bootstrap => args.push(String::from_str("bootstrap")),
        }
        args.push(String::from_str("--port_count"));
        args.push(u64_to_dec(self.port_count as u64));
        args.push(String::from_str("--dns_target"));
        args.push(self.dns_target.to_string());
        args.push(String::from_str("--dns_port"));
        args.push(u64_to_dec(self.dns_port as u64));
        args.push(String::from_str("--log_level"));
        args.push(String::from_str("trace"));
        args.push(String::from_str("--data_directory"));
        args.push(String::from_str("/node_root/home"));
        proof {
            let tail = seq![
                "--wallet_address"@,
                self.earning_wallet@,
                "--node_type"@,
                node_type_chars(self.node_type),
                "--port_count"@,
                dec_chars(self.port_count as nat),
                "--dns_target"@,
                ip_chars(
                    self.dns_target.o0,
                    self.dns_target.o1,
                    self.dns_target.o2,
                    self.dns_target.o3,
                ),
                "--dns_port"@,
                dec_chars(self.dns_port as nat),
                "--log_level"@,
                "trace"@,
                "--data_directory"@,
                "/node_root/home"@,
            ];
            assert(args@.len() == mid.len() + 14);
            assert forall|k: int| 0 <= k < args@.len() implies strings_view(args@)[k] == (mid_view
                + tail)[k] by {
                if k < mid.len() {
                    assert(args@[k] == mid[k]);
                    assert(strings_view(args@)[k] == mid[k]@);
                } else {
                    assert(strings_view(args@)[k] == args@[k]@);
                }
            }
            assert(strings_view(args@) =~= mid_view + tail);
            assert(strings_view(args@) =~= args_view(*self));
        }
        args
    }
}

/// Assembles a startup configuration a field at a time.
#[derive(Debug)]
pub struct NodeStartupConfigBuilder {
    pub ip: IpAddress,
    pub dns_servers: Vec<IpAddress>,
    pub neighbors: Vec<NodeReference>,
    pub node_type: NodeType,
    pub port_count: usize,
    pub dns_target: IpAddress,
    pub dns_port: u16,
    pub earning_wallet: Wallet,
}

impl NodeStartupConfigBuilder {
    /// A node that serves only itself: no ports, no neighbors.
    pub fn zero_hop() -> (r: NodeStartupConfigBuilder)
        ensures
            r.ip@ == seq![255u8, 255u8, 255u8, 255u8],
            r.dns_servers@.len() == 1 && r.dns_servers@[0]@ == seq![8u8, 8u8, 8u8, 8u8],
            r.neighbors@.len() == 0,
            r.node_type == NodeType::Standard,
            r.port_count == 0,
            r.dns_target@ == seq![127u8, 0u8, 0u8, 1u8],
            r.dns_port == 53,
            r.earning_wallet@ == "0x0000000000000000000000000000000000000000"@,
    {
        NodeStartupConfigBuilder {
            ip: sentinel_ip_addr(),
            dns_servers: vec![IpAddress::new(8, 8, 8, 8)],
            neighbors: Vec::new(),
            node_type: NodeType::Standard,
            port_count: 0,
            dns_target: IpAddress::new(127, 0, 0, 1),
            dns_port: 53,
            earning_wallet: default_earning_wallet(),
        }
    }

    /// A standard node; its address is assigned at startup.
    pub fn standard() -> (r: NodeStartupConfigBuilder)
        ensures
            r.ip@ == seq![255u8, 255u8, 255u8, 255u8],
            r.dns_servers@.len() == 1 && r.dns_servers@[0]@ == seq![8u8, 8u8, 8u8, 8u8],
            r.neighbors@.len() == 0,
            r.node_type == NodeType::Standard,
            r.port_count == 1,
            r.dns_target@ == seq![127u8, 0u8, 0u8, 1u8],
            r.dns_port == 53,
            r.earning_wallet@ == "0x0000000000000000000000000000000000000000"@,
    {
        NodeStartupConfigBuilder {
            ip: sentinel_ip_addr(),
            dns_servers: vec![IpAddress::new(8, 8, 8, 8)],
            neighbors: Vec::new(),
            node_type: NodeType::Standard,
            port_count: 1,
            dns_target: IpAddress::new(127, 0, 0, 1),
            dns_port: 53,
            earning_wallet: default_earning_wallet(),
        }
    }

    /// A bootstrap node; its address is assigned at startup.
    pub fn bootstrap() -> (r: NodeStartupConfigBuilder)
        ensures
            r.ip@ == seq![255u8, 255u8, 255u8, 255u8],
            r.dns_servers@.len() == 1 && r.dns_servers@[0]@ == seq![8u8, 8u8, 8u8, 8u8],
            r.neighbors@.len() == 0,
            r.node_type == NodeType::Bootstrap,
            r.port_count == 1,
            r.dns_target@ == seq![127u8, 0u8, 0u8, 1u8],
            r.dns_port == 53,
            r.earning_wallet@ == "0x0000000000000000000000000000000000000000"@,
    {
        NodeStartupConfigBuilder {
            ip: sentinel_ip_addr(),
            dns_servers: vec![IpAddress::new(8, 8, 8, 8)],
            neighbors: Vec::new(),
            node_type: NodeType::Bootstrap,
            port_count: 1,
            dns_target: IpAddress::new(127, 0, 0, 1),
            dns_port: 53,
            earning_wallet: default_earning_wallet(),
        }
    }

    /// Start from an existing configuration.
    pub fn copy(config: &NodeStartupConfig) -> (r: NodeStartupConfigBuilder)
        ensures
            r.ip == config.ip,
            r.dns_servers@ == config.dns_servers@,
            refs_view(r.neighbors@) == refs_view(config.neighbors@),
            r.node_type == config.node_type,
            r.port_count == config.port_count,
            r.dns_target == config.dns_target,
            r.dns_port == config.dns_port,
            r.earning_wallet@ == config.earning_wallet@,
    {
        NodeStartupConfigBuilder {
            ip: config.ip,
            dns_servers: clone_ips(&config.dns_servers),
            neighbors: clone_refs(&config.neighbors),
            node_type: config.node_type,
            port_count: config.port_count,
            dns_target: config.dns_target,
            dns_port: config.dns_port,
            earning_wallet: config.earning_wallet.clone(),
        }
    }

    pub fn ip(self, value: IpAddress) -> (r: NodeStartupConfigBuilder)
        ensures
            r == (NodeStartupConfigBuilder { ip: value, ..self }),
    {
        NodeStartupConfigBuilder { ip: value, ..self }
    }

    pub fn dns_servers(self, value: Vec<IpAddress>) -> (r: NodeStartupConfigBuilder)
        ensures
            r == (NodeStartupConfigBuilder { dns_servers: value, ..self }),
    {
        NodeStartupConfigBuilder { dns_servers: value, ..self }
    }

    pub fn neighbor(self, value: NodeReference) -> (r: NodeStartupConfigBuilder)
        ensures
            r.neighbors@ == self.neighbors@.push(value),
            r.ip == self.ip,
            r.dns_servers@ == self.dns_servers@,
            r.node_type == self.node_type,
            r.port_count == self.port_count,
            r.dns_target == self.dns_target,
            r.dns_port == self.dns_port,
            r.earning_wallet@ == self.earning_wallet@,
    {
        let mut b = self;
        b.neighbors.push(value);
        b
    }

    pub fn neighbors(self, value: Vec<NodeReference>) -> (r: NodeStartupConfigBuilder)
        ensures
            r == (NodeStartupConfigBuilder { neighbors: value, ..self }),
    {
        NodeStartupConfigBuilder { neighbors: value, ..self }
    }

    pub fn node_type(self, value: NodeType) -> (r: NodeStartupConfigBuilder)
        ensures
            r == (NodeStartupConfigBuilder { node_type: value, ..self }),
    {
        NodeStartupConfigBuilder { node_type: value, ..self }
    }

    pub fn port_count(self, value: usize) -> (r: NodeStartupConfigBuilder)
        ensures
            r == (NodeStartupConfigBuilder { port_count: value, ..self }),
    {
        NodeStartupConfigBuilder { port_count: value, ..self }
    }

    pub fn dns_target(self, value: IpAddress) -> (r: NodeStartupConfigBuilder)
        ensures
            r == (NodeStartupConfigBuilder { dns_target: value, ..self }),
    {
        NodeStartupConfigBuilder { dns_target: value, ..self }
    }

    pub fn dns_port(self, value: u16) -> (r: NodeStartupConfigBuilder)
        ensures
            r == (NodeStartupConfigBuilder { dns_port: value, ..self }),
    {
        NodeStartupConfigBuilder { dns_port: value, ..self }
    }

    pub fn earning_wallet(self, value: Wallet) -> (r: NodeStartupConfigBuilder)
        ensures
            r == (NodeStartupConfigBuilder { earning_wallet: value, ..self }),
    {
        NodeStartupConfigBuilder { earning_wallet: value, ..self }
    }

    /// Seal the builder into a configuration.
    pub fn build(self) -> (r: NodeStartupConfig)
        ensures
            r.ip == self.ip,
            r.dns_servers@ == self.dns_servers@,
            r.neighbors@ == self.neighbors@,
            r.node_type == self.node_type,
            r.port_count == self.port_count,
            r.dns_target == self.dns_target,
            r.dns_port == self.dns_port,
            r.earning_wallet@ == self.earning_wallet@,
    {
        NodeStartupConfig {
            ip: self.ip,
            dns_servers: self.dns_servers,
            neighbors: self.neighbors,
            node_type: self.node_type,
            port_count: self.port_count,
            dns_target: self.dns_target,
            dns_port: self.dns_port,
            earning_wallet: self.earning_wallet,
        }
    }
}

} // verus!
