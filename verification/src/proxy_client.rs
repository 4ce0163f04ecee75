//! The exit side: response payloads headed back to the origin, the table of
//! stream contexts keyed by stream key, and the decisions taken for each
//! message the exit receives. Every log line and outgoing message is pinned
//! in the contracts, so the unsolicited-data, free-service and
//! route-refresh behaviours are proved, not just observed.

use vstd::prelude::*;

use crate::accountant::ReportExitServiceProvidedMessage;
use crate::cryptde::{null_ciphertext, null_plaintext, CryptDENull, CryptdeError, PublicKey};
use crate::fmt::{append_str, dec_chars, u64_to_dec};
use crate::hopper::{ExpiredCoresPackage, IncipientCoresPackage};
use crate::node_addr::SocketAddress;
use crate::proxy_server::{parsed_request, request_parses, ClientRequestPayload};
use crate::route::{wallet_opt_view, Route};
use crate::stream::{enc_sp, lemma_sp_at, SequencedPacket, StreamKey};
use crate::wallet::Wallet;
use crate::wire::{enc_chunk, lemma_chunk_at, push_chunk, read_chunk};

verus! {

pub const TEMPORARY_PER_EXIT_RATE: u64 = 1;

pub const TEMPORARY_PER_EXIT_BYTE_RATE: u64 = 2;

/// What the exit sends back toward the origin for one chunk it read.
#[derive(Debug, PartialEq, Eq)]
pub struct ClientResponsePayload {
    pub stream_key: StreamKey,
    pub sequenced_packet: SequencedPacket,
}

impl Clone for ClientResponsePayload {
    fn clone(&self) -> (r: Self)
        ensures
            r.stream_key@ == self.stream_key@,
            r.sequenced_packet.data@ == self.sequenced_packet.data@,
            r.sequenced_packet.sequence_number == self.sequenced_packet.sequence_number,
            r.sequenced_packet.last_data == self.sequenced_packet.last_data,
    {
        ClientResponsePayload {
            stream_key: self.stream_key.clone(),
            sequenced_packet: self.sequenced_packet.clone(),
        }
    }
}

/// The byte layout of a response payload.
pub open spec fn enc_response(sk: Seq<u8>, d: Seq<u8>, sq: u64, l: bool) -> Seq<u8> {
    enc_chunk(sk) + enc_sp(d, sq, l)
}

/// Sizes the layout can carry.
pub open spec fn response_sizes_ok(sk: Seq<u8>, d: Seq<u8>) -> bool {
    sk.len() <= u32::MAX && d.len() <= u32::MAX
}

impl ClientResponsePayload {
    /// The empty, final payload that tells the origin a stream is over.
    pub fn make_terminating_payload(stream_key: StreamKey) -> (r: ClientResponsePayload)
        ensures
            r.stream_key@ == stream_key@,
            r.sequenced_packet.data@ == Seq::<u8>::empty(),
            r.sequenced_packet.sequence_number == 0,
            r.sequenced_packet.last_data == true,
    {
        ClientResponsePayload {
            stream_key,
            sequenced_packet: SequencedPacket { data: vec![], sequence_number: 0, last_data: true },
        }
    }

    /// Serialize for sealing into a package.
    pub fn encode(&self) -> (r: Vec<u8>)
        requires
            response_sizes_ok(self.stream_key@, self.sequenced_packet.data@),
        ensures
            r@ == enc_response(
                self.stream_key@,
                self.sequenced_packet.data@,
                self.sequenced_packet.sequence_number,
                self.sequenced_packet.last_data,
            ),
    {
        let mut out: Vec<u8> = Vec::new();
        push_chunk(&mut out, self.stream_key.contents.as_slice());
        self.sequenced_packet.encode_onto(&mut out);
        proof {
            assert(out@ =~= enc_response(
                self.stream_key@,
                self.sequenced_packet.data@,
                self.sequenced_packet.sequence_number,
                self.sequenced_packet.last_data,
            ));
        }
        out
    }

    /// Parse a whole buffer as a response payload. Succeeds exactly on
    /// buffers that `encode` can produce.
    pub fn decode(buf: &Vec<u8>) -> (r: Option<ClientResponsePayload>)
        ensures
            r matches Some(p) ==> response_sizes_ok(p.stream_key@, p.sequenced_packet.data@)
                && buf@ == enc_response(
                p.stream_key@,
                p.sequenced_packet.data@,
                p.sequenced_packet.sequence_number,
                p.sequenced_packet.last_data,
            ),
            forall|sk: Seq<u8>, d: Seq<u8>, sq: u64, l: bool|
                response_sizes_ok(sk, d) && buf@ == enc_response(sk, d, sq, l) ==> r is Some,
    {
        let skc = match read_chunk(buf, 0) {
            Some(x) => x,
            None => {
                proof {
                    assert forall|sk: Seq<u8>, d: Seq<u8>, sq: u64, l: bool|
                        response_sizes_ok(sk, d) && buf@ == enc_response(sk, d, sq, l) implies false by {
                        assert(buf@.subrange(0, 4 + sk.len() as int) =~= enc_chunk(sk));
                    }
                }
                return None;
            },
        };
        let (sk_bytes, a) = skc;
        proof {
            assert forall|sk: Seq<u8>, d: Seq<u8>, sq: u64, l: bool|
                response_sizes_ok(sk, d) && buf@ == enc_response(sk, d, sq, l) implies sk
                == sk_bytes@ && buf@.subrange(a as int, a + enc_sp(d, sq, l).len() as int)
                == enc_sp(d, sq, l) && a + enc_sp(d, sq, l).len() == buf@.len() by {
                assert(buf@.subrange(0, 4 + sk.len() as int) =~= enc_chunk(sk));
                lemma_chunk_at(buf@, 0, sk, sk_bytes@);
                assert(buf@.subrange(a as int, buf@.len() as int) =~= enc_sp(d, sq, l));
            }
        }
        let spr = match SequencedPacket::read_at(buf, a) {
            Some(x) => x,
            None => {
                return None;
            },
        };
        let (sp, b) = spr;
        if b != buf.len() {
            proof {
                assert forall|sk: Seq<u8>, d: Seq<u8>, sq: u64, l: bool|
                    response_sizes_ok(sk, d) && buf@ == enc_response(sk, d, sq, l) implies false by {
                    lemma_sp_at(
                        buf@,
                        a as int,
                        d,
                        sq,
                        l,
                        sp.data@,
                        sp.sequence_number,
                        sp.last_data,
                    );
                }
            }
            return None;
        }
        let p = ClientResponsePayload { stream_key: StreamKey { contents: sk_bytes }, sequenced_packet: sp };
        proof {
            assert(buf@ =~= enc_response(
                p.stream_key@,
                p.sequenced_packet.data@,
                p.sequenced_packet.sequence_number,
                p.sequenced_packet.last_data,
            ));
        }
        Some(p)
    }
}

/// Everything the exit must remember about one stream: where responses go,
/// whom they are sealed to, and who pays.
#[derive(Debug)]
pub struct StreamContext {
    pub return_route: Route,
    pub payload_destination_key: PublicKey,
    pub consuming_wallet: Option<Wallet>,
}

impl Clone for StreamContext {
    fn clone(&self) -> (r: Self)
        ensures
            ctx_view(r) == ctx_view(*self),
    {
        StreamContext {
            return_route: self.return_route.clone(),
            payload_destination_key: self.payload_destination_key.clone(),
            consuming_wallet: match &self.consuming_wallet {
                Some(w) => Some(w.clone()),
                None => None,
            },
        }
    }
}

/// The plain values a context holds: route hops, destination key, wallet.
pub open spec fn ctx_view(c: StreamContext) -> (Seq<Seq<u8>>, Seq<u8>, Option<Seq<char>>) {
    (c.return_route@, c.payload_destination_key@, wallet_opt_view(c.consuming_wallet))
}

/// No stream key appears twice in the table.
pub open spec fn sc_wf(s: Seq<(StreamKey, StreamContext)>) -> bool {
    forall|i: int, j: int| 0 <= i < j < s.len() ==> (#[trigger] s[i]).0@ != (#[trigger] s[j]).0@
}

/// Is `k` a key of the table?
pub open spec fn sc_contains(s: Seq<(StreamKey, StreamContext)>, k: Seq<u8>) -> bool {
    exists|i: int| 0 <= i < s.len() && (#[trigger] s[i]).0@ == k
}

/// Where `k` sits in the table.
pub open spec fn sc_index(s: Seq<(StreamKey, StreamContext)>, k: Seq<u8>) -> int {
    choose|i: int| 0 <= i < s.len() && (#[trigger] s[i]).0@ == k
}

/// The context stored under `k`.
pub open spec fn sc_value(s: Seq<(StreamKey, StreamContext)>, k: Seq<u8>) -> StreamContext {
    s[sc_index(s, k)].1
}

/// The table after storing `c` under `k.0@`: the newest context always wins.
pub open spec fn sc_upsert(
    s: Seq<(StreamKey, StreamContext)>,
    k: StreamKey,
    c: StreamContext,
) -> Seq<(StreamKey, StreamContext)> {
    if sc_contains(s, k@) {
        s.update(sc_index(s, k@), (k, c))
    } else {
        s.push((k, c))
    }
}

/// The table after dropping `k`.
pub open spec fn sc_remove(s: Seq<(StreamKey, StreamContext)>, k: Seq<u8>) -> Seq<
    (StreamKey, StreamContext),
> {
    if sc_contains(s, k) {
        s.remove(sc_index(s, k))
    } else {
        s
    }
}

/// Storing a context under a key leaves a well-formed table in which that
/// key maps to the stored context, and no other key changed.
pub proof fn lemma_sc_upsert(s: Seq<(StreamKey, StreamContext)>, k: StreamKey, c: StreamContext)
    requires
        sc_wf(s),
    ensures
        sc_wf(sc_upsert(s, k, c)),
        sc_contains(sc_upsert(s, k, c), k@),
        sc_value(sc_upsert(s, k, c), k@) == c,
        forall|k2: Seq<u8>|
            k2 != k@ ==> #[trigger] sc_contains(sc_upsert(s, k, c), k2) == sc_contains(s, k2),
        forall|k2: Seq<u8>|
            k2 != k@ && sc_contains(s, k2) ==> #[trigger] sc_value(sc_upsert(s, k, c), k2)
                == sc_value(s, k2),
{
    let t = sc_upsert(s, k, c);
    if sc_contains(s, k@) {
        let i = sc_index(s, k@);
        assert(0 <= i < s.len() && s[i].0@ == k@);
        assert forall|a: int, b: int| 0 <= a < b < t.len() implies (#[trigger] t[a]).0@ != (
        #[trigger] t[b]).0@ by {
            assert(s[a].0@ != s[b].0@);
        }
        assert(t[i].0@ == k@);
        let j = sc_index(t, k@);
        assert(0 <= j < t.len() && t[j].0@ == k@);
        if j != i {
            assert(t[j].0@ == s[j].0@);
            assert(s[j].0@ != s[i].0@ || j == i);
        }
        assert(sc_value(t, k@) == c);
        assert forall|k2: Seq<u8>| k2 != k@ implies #[trigger] sc_contains(t, k2) == sc_contains(
            s,
            k2,
        ) by {
            if sc_contains(s, k2) {
                let a = sc_index(s, k2);
                assert(t[a].0@ == k2);
            }
            if sc_contains(t, k2) {
                let a = sc_index(t, k2);
                assert(s[a].0@ == k2);
            }
        }
        assert forall|k2: Seq<u8>| k2 != k@ && sc_contains(s, k2) implies #[trigger] sc_value(
            t,
            k2,
        ) == sc_value(s, k2) by {
            let a = sc_index(s, k2);
            assert(t[a].0@ == k2);
            let b = sc_index(t, k2);
            assert(t[b].0@ == k2);
            if b != a {
                if b == i {
                    assert(t[b].0@ == k@);
                } else {
                    assert(t[b].0@ == s[b].0@);
                    assert(s[b].0@ != s[a].0@ || b == a);
                }
            }
        }
    } else {
        assert(t == s.push((k, c)));
        assert(t[s.len() as int].0@ == k@);
        assert forall|a: int, b: int| 0 <= a < b < t.len() implies (#[trigger] t[a]).0@ != (
        #[trigger] t[b]).0@ by {
            if b < s.len() {
                assert(s[a].0@ != s[b].0@);
            } else {
                assert(t[a].0@ == s[a].0@);
                if t[a].0@ == k@ {
                    assert(sc_contains(s, k@));
                }
            }
        }
        let j = sc_index(t, k@);
        assert(0 <= j < t.len() && t[j].0@ == k@);
        if j != s.len() {
            assert(s[j].0@ == k@);
            assert(sc_contains(s, k@));
        }
        assert forall|k2: Seq<u8>| k2 != k@ implies #[trigger] sc_contains(t, k2) == sc_contains(
            s,
            k2,
        ) by {
            if sc_contains(s, k2) {
                let a = sc_index(s, k2);
                assert(t[a].0@ == k2);
            }
            if sc_contains(t, k2) {
                let a = sc_index(t, k2);
                if a < s.len() {
                    assert(s[a].0@ == k2);
                }
            }
        }
        assert forall|k2: Seq<u8>| k2 != k@ && sc_contains(s, k2) implies #[trigger] sc_value(
            t,
            k2,
        ) == sc_value(s, k2) by {
            let a = sc_index(s, k2);
            assert(t[a].0@ == k2);
            let b = sc_index(t, k2);
            assert(t[b].0@ == k2);
            if b != a {
                if b < s.len() {
                    assert(s[b].0@ != s[a].0@ || b == a);
                }
            }
        }
    }
}

/// Of two contexts stored in turn under one key, the table keeps the later:
/// the newest return route always wins.
pub proof fn lemma_latest_context_wins(
    s: Seq<(StreamKey, StreamContext)>,
    k1: StreamKey,
    k2: StreamKey,
    c1: StreamContext,
    c2: StreamContext,
)
    requires
        sc_wf(s),
        k1@ == k2@,
    ensures
        sc_wf(sc_upsert(sc_upsert(s, k1, c1), k2, c2)),
        sc_value(sc_upsert(sc_upsert(s, k1, c1), k2, c2), k2@) == c2,
{
    lemma_sc_upsert(s, k1, c1);
    lemma_sc_upsert(sc_upsert(s, k1, c1), k2, c2);
}

/// Find `key` in the table.
fn sc_find(contexts: &Vec<(StreamKey, StreamContext)>, key: &StreamKey) -> (r: Option<usize>)
    requires
        sc_wf(contexts@),
    ensures
        (r is Some) == sc_contains(contexts@, key@),
        r matches Some(i) ==> i < contexts@.len() && contexts@[i as int].0@ == key@ && i
            == sc_index(contexts@, key@),
{
    let mut i: usize = 0;
    while i < contexts.len()
        invariant
            i <= contexts@.len(),
            sc_wf(contexts@),
            forall|j: int| 0 <= j < i ==> (#[trigger] contexts@[j]).0@ != key@,
        decreases contexts@.len() - i,
    {
        if crate::bytes_util::bytes_eq(&contexts[i].0.contents, &key.contents) {
            proof {
                assert(contexts@[i as int].0@ == key@);
                let j = sc_index(contexts@, key@);
                assert(0 <= j < contexts@.len() && contexts@[j].0@ == key@);
                if j != i {
                    assert(contexts@[j].0@ != contexts@[i as int].0@ || j == i);
                }
            }
            return Some(i);
        }
        i = i + 1;
    }
    proof {
        if sc_contains(contexts@, key@) {
            let j = sc_index(contexts@, key@);
            assert(contexts@[j].0@ != key@);
        }
    }
    None
}

/// The characters of `ip:port`.
pub open spec fn sock_chars(sa: SocketAddress) -> Seq<char> {
    crate::fmt::ip_chars(sa.ip.o0, sa.ip.o1, sa.ip.o2, sa.ip.o3) + seq![':'] + dec_chars(
        sa.port as nat,
    )
}

/// The name of an envelope error, as the logs spell it.
pub open spec fn cryptde_error_chars(e: CryptdeError) -> Seq<char> {
    "Decryption error: "@ + (match e {
        CryptdeError::EmptyKey => "EmptyKey"@,
        CryptdeError::InvalidKey => "InvalidKey"@,
        CryptdeError::InvalidSignature => "InvalidSignature"@,
    })
}

/// The log line for a payload that could not be read.
pub open spec fn payload_error_log_chars(err: Seq<char>) -> Seq<char> {
    "Error ('"@ + err + "') interpreting payload for transmission"@
}

/// The log line for a response with no stream context.
pub open spec fn unsolicited_log_chars(n: nat, src: SocketAddress, seqno: nat) -> Seq<char> {
    "Received unsolicited "@ + dec_chars(n) + "-byte response from "@ + sock_chars(src)
        + ", seq "@ + dec_chars(seqno) + ": ignoring"@
}

/// The log line for a response whose package could not be built.
pub open spec fn cores_failed_log_chars(n: nat, src: SocketAddress, seqno: nat) -> Seq<char> {
    "Could not create CORES package for "@ + dec_chars(n) + "-byte response from "@ + sock_chars(
        src,
    ) + ", seq "@ + dec_chars(seqno) + ": Could not encrypt payload: EmptyKey - ignoring"@
}

/// The log line for exit service given away without a wallet to bill.
pub open spec fn free_log_chars(n: nat) -> Seq<char> {
    "Relayed "@ + dec_chars(n) + "-byte response without consuming wallet for free"@
}

fn cryptde_error_string(e: CryptdeError) -> (s: String)
    ensures
        s@ == cryptde_error_chars(e),
{
    let mut s = String::from_str("Decryption error: ");
    match e {
        CryptdeError::EmptyKey => append_str(&mut s, "EmptyKey"),
        CryptdeError::InvalidKey => append_str(&mut s, "InvalidKey"),
        CryptdeError::InvalidSignature => append_str(&mut s, "InvalidSignature"),
    }
    s
}

fn make_payload_error_log(err: &str) -> (s: String)
    ensures
        s@ == payload_error_log_chars(err@),
{
    let mut s = String::from_str("Error ('");
    append_str(&mut s, err);
    append_str(&mut s, "') interpreting payload for transmission");
    s
}

fn make_unsolicited_log(n: usize, src: SocketAddress, seqno: u64) -> (s: String)
    ensures
        s@ == unsolicited_log_chars(n as nat, src, seqno as nat),
{
    let mut s = String::from_str("Received unsolicited ");
    let d = u64_to_dec(n as u64);
    append_str(&mut s, d.as_str());
    append_str(&mut s, "-byte response from ");
    let srcs = src.to_string();
    append_str(&mut s, srcs.as_str());
    append_str(&mut s, ", seq ");
    let q = u64_to_dec(seqno);
    append_str(&mut s, q.as_str());
    append_str(&mut s, ": ignoring");
    proof {
        assert(s@ =~= unsolicited_log_chars(n as nat, src, seqno as nat));
    }
    s
}

fn make_cores_failed_log(n: usize, src: SocketAddress, seqno: u64) -> (s: String)
    ensures
        s@ == cores_failed_log_chars(n as nat, src, seqno as nat),
{
    let mut s = String::from_str("Could not create CORES package for ");
    let d = u64_to_dec(n as u64);
    append_str(&mut s, d.as_str());
    append_str(&mut s, "-byte response from ");
    let srcs = src.to_string();
    append_str(&mut s, srcs.as_str());
    append_str(&mut s, ", seq ");
    let q = u64_to_dec(seqno);
    append_str(&mut s, q.as_str());
    append_str(&mut s, ": Could not encrypt payload: EmptyKey - ignoring");
    proof {
        assert(s@ =~= cores_failed_log_chars(n as nat, src, seqno as nat));
    }
    s
}

fn make_free_log(n: usize) -> (s: String)
    ensures
        s@ == free_log_chars(n as nat),
{
    let mut s = String::from_str("Relayed ");
    let d = u64_to_dec(n as u64);
    append_str(&mut s, d.as_str());
    append_str(&mut s, "-byte response without consuming wallet for free");
    proof {
        assert(s@ =~= free_log_chars(n as nat));
    }
    s
}

/// A chunk the exit's upstream reader handed back for one stream.
#[derive(Debug, PartialEq, Eq)]
pub struct InboundServerData {
    pub stream_key: StreamKey,
    pub last_data: bool,
    pub sequence_number: u64,
    pub source: SocketAddress,
    pub data: Vec<u8>,
}

/// What the exit decided about one inbound chunk.
#[derive(Debug)]
pub enum InboundDataOutcome {
    /// Seal the chunk toward the origin; maybe bill, maybe log free relay.
    Relayed {
        package: IncipientCoresPackage,
        exit_report: Option<ReportExitServiceProvidedMessage>,
        free_log: Option<String>,
    },
    /// No context for this key: log and drop.
    Unsolicited { log: String },
    /// A package could not be built: log and drop.
    CoresPackageFailed { log: String },
}

fn clone_wallet_opt(w: &Option<Wallet>) -> (r: Option<Wallet>)
    ensures
        wallet_opt_view(r) == wallet_opt_view(*w),
{
    match w {
        Some(x) => Some(x.clone()),
        None => None,
    }
}

/// The exit-side actor's state: where to resolve names, the local envelope,
/// and the table of live stream contexts.
#[derive(Debug)]
pub struct ProxyClient {
    pub dns_servers: Vec<SocketAddress>,
    pub cryptde: CryptDENull,
    pub stream_contexts: Vec<(StreamKey, StreamContext)>,
    pub bound: bool,
}

impl ProxyClient {
    /// No key appears twice in the context table.
    pub open spec fn wf(&self) -> bool {
        sc_wf(self.stream_contexts@)
    }

    /// Build an exit, or refuse one that could never resolve a name.
    pub fn try_new(cryptde: CryptDENull, dns_servers: Vec<SocketAddress>) -> (r: Result<
        ProxyClient,
        String,
    >)
        ensures
            dns_servers@.len() == 0 ==> (r matches Err(m) && m@
                == "Proxy Client requires at least one DNS server IP address after the --dns_servers parameter"@),
            dns_servers@.len() > 0 ==> (r matches Ok(pc) && pc.wf() && pc.dns_servers@
                == dns_servers@ && pc.cryptde.spec_key() == cryptde.spec_key()
                && pc.stream_contexts@.len() == 0 && !pc.bound),
    {
        if dns_servers.len() == 0 {
            return Err(
                String::from_str(
                    "Proxy Client requires at least one DNS server IP address after the --dns_servers parameter",
                ),
            );
        }
        Ok(ProxyClient { dns_servers, cryptde, stream_contexts: Vec::new(), bound: false })
    }

    /// Build an exit; the caller vouches for at least one DNS server.
    pub fn new(cryptde: CryptDENull, dns_servers: Vec<SocketAddress>) -> (r: ProxyClient)
        requires
            dns_servers@.len() > 0,
        ensures
            r.wf(),
            r.dns_servers@ == dns_servers@,
            r.cryptde.spec_key() == cryptde.spec_key(),
            r.stream_contexts@.len() == 0,
            !r.bound,
    {
        match Self::try_new(cryptde, dns_servers) {
            Ok(pc) => pc,
            Err(_) => vstd::pervasive::unreached(),
        }
    }

    /// Take the peer handles: afterwards the exit is live, and the caller
    /// gets the resolver's server list to set up with.
    pub fn handle_bind(&mut self) -> (dns: Vec<SocketAddress>)
        ensures
            final(self).bound,
            final(self).dns_servers@ == old(self).dns_servers@,
            final(self).cryptde.spec_key() == old(self).cryptde.spec_key(),
            final(self).stream_contexts@ == old(self).stream_contexts@,
            dns@ == old(self).dns_servers@,
    {
        self.bound = true;
        let mut dns: Vec<SocketAddress> = Vec::new();
        let mut i: usize = 0;
        while i < self.dns_servers.len()
            invariant
                i <= self.dns_servers@.len(),
                dns@ == self.dns_servers@.subrange(0, i as int),
                self.dns_servers@ == old(self).dns_servers@,
                self.bound,
                self.cryptde.spec_key() == old(self).cryptde.spec_key(),
                self.stream_contexts@ == old(self).stream_contexts@,
            decreases self.dns_servers@.len() - i,
        {
            dns.push(self.dns_servers[i]);
            i = i + 1;
            proof {
                assert(dns@ =~= self.dns_servers@.subrange(0, i as int));
            }
        }
        proof {
            assert(dns@ =~= old(self).dns_servers@);
        }
        dns
    }

    /// Store `ctx` under `key`: the newest context wins.
    fn upsert_context(&mut self, key: StreamKey, ctx: StreamContext)
        requires
            old(self).wf(),
        ensures
            final(self).stream_contexts@ == sc_upsert(old(self).stream_contexts@, key, ctx),
            final(self).dns_servers@ == old(self).dns_servers@,
            final(self).cryptde.spec_key() == old(self).cryptde.spec_key(),
            final(self).bound == old(self).bound,
    {
        match sc_find(&self.stream_contexts, &key) {
            Some(i) => {
                self.stream_contexts.set(i, (key, ctx));
            },
            None => {
                self.stream_contexts.push((key, ctx));
            },
        }
    }

    /// One package from the hopper (only after binding): read it, refresh
    /// the stream context,
    /// and hand the request on toward the stream pool; or say exactly why
    /// it was dropped.
    pub fn handle_expired_cores_package(&mut self, package: ExpiredCoresPackage) -> (r: Result<
        (ClientRequestPayload, Option<Wallet>),
        String,
    >)
        requires
            old(self).wf(),
            old(self).bound,
        ensures
            final(self).wf(),
            final(self).dns_servers@ == old(self).dns_servers@,
            final(self).cryptde.spec_key() == old(self).cryptde.spec_key(),
            final(self).bound == old(self).bound,
            (match null_plaintext(old(self).cryptde.spec_key(), package.payload@) {
                Err(e) => final(self).stream_contexts@ == old(self).stream_contexts@ && (r matches
                Err(m) && m@ == payload_error_log_chars(cryptde_error_chars(e))),
                Ok(plain) => if !request_parses(plain) {
                    final(self).stream_contexts@ == old(self).stream_contexts@ && (r matches Err(m)
                        && m@ == payload_error_log_chars("Unintelligible payload"@))
                } else {
                    let q = parsed_request(plain);
                    r matches Ok((pl, w)) && pl.stream_key@ == q.stream_key@
                        && pl.sequenced_packet.data@ == q.sequenced_packet.data@
                        && pl.sequenced_packet.sequence_number
                        == q.sequenced_packet.sequence_number && pl.sequenced_packet.last_data
                        == q.sequenced_packet.last_data && crate::proxy_server::hostname_view(
                        pl.target_hostname,
                    ) == crate::proxy_server::hostname_view(q.target_hostname) && pl.target_port
                        == q.target_port && pl.protocol == q.protocol && pl.originator_public_key@
                        == q.originator_public_key@ && wallet_opt_view(w) == wallet_opt_view(
                        package.consuming_wallet,
                    ) && sc_contains(final(self).stream_contexts@, q.stream_key@) && ctx_view(
                        sc_value(final(self).stream_contexts@, q.stream_key@),
                    ) == (
                        package.remaining_route@,
                        q.originator_public_key@,
                        wallet_opt_view(package.consuming_wallet),
                    ) && (forall|k2: Seq<u8>|
                        k2 != q.stream_key@ ==> #[trigger] sc_contains(
                            final(self).stream_contexts@,
                            k2,
                        ) == sc_contains(old(self).stream_contexts@, k2)) && (forall|k2: Seq<u8>|
                        k2 != q.stream_key@ && sc_contains(old(self).stream_contexts@, k2)
                            ==> #[trigger] sc_value(final(self).stream_contexts@, k2) == sc_value(
                            old(self).stream_contexts@,
                            k2,
                        ))
                },
            }),
    {
        let plain = match self.cryptde.decode(&package.payload) {
            Ok(p) => p,
            Err(e) => {
                let err = cryptde_error_string(e);
                return Err(make_payload_error_log(err.as_str()));
            },
        };
        let payload = match ClientRequestPayload::decode(&plain) {
            Some(p) => p,
            None => {
                return Err(make_payload_error_log("Unintelligible payload"));
            },
        };
        proof {
            let q = parsed_request(plain@);
            crate::proxy_server::lemma_request_injective(plain@, q, payload);
        }
        let key = payload.stream_key.clone();
        let ctx = StreamContext {
            return_route: package.remaining_route,
            payload_destination_key: payload.originator_public_key.clone(),
            consuming_wallet: clone_wallet_opt(&package.consuming_wallet),
        };
        let ghost old_contexts = self.stream_contexts@;
        let ghost gkey = key;
        let ghost gctx = ctx;
        self.upsert_context(key, ctx);
        proof {
            lemma_sc_upsert(old_contexts, gkey, gctx);
        }
        Ok((payload, package.consuming_wallet))
    }

    /// One chunk back from an upstream server: seal it down the stored
    /// return route and decide whom to bill; or say exactly why nothing
    /// was sent.
    pub fn handle_inbound_server_data(&mut self, msg: InboundServerData) -> (r: InboundDataOutcome)
        requires
            old(self).wf(),
            old(self).bound,
            msg.stream_key@.len() <= u32::MAX,
            msg.data@.len() <= u32::MAX,
        ensures
            final(self).wf(),
            final(self).dns_servers@ == old(self).dns_servers@,
            final(self).cryptde.spec_key() == old(self).cryptde.spec_key(),
            final(self).bound == old(self).bound,
            !sc_contains(old(self).stream_contexts@, msg.stream_key@) ==> (r matches
            InboundDataOutcome::Unsolicited { log } && log@ == unsolicited_log_chars(
                msg.data@.len(),
                msg.source,
                msg.sequence_number as nat,
            ) && final(self).stream_contexts@ == old(self).stream_contexts@),
            sc_contains(old(self).stream_contexts@, msg.stream_key@) ==> ({
                let ctx = sc_value(old(self).stream_contexts@, msg.stream_key@);
                if ctx.payload_destination_key@.len() == 0 {
                    (r matches InboundDataOutcome::CoresPackageFailed { log } && log@
                        == cores_failed_log_chars(
                        msg.data@.len(),
                        msg.source,
                        msg.sequence_number as nat,
                    )) && final(self).stream_contexts@ == old(self).stream_contexts@
                } else {
                    r matches InboundDataOutcome::Relayed { package, exit_report, free_log }
                        && package.route@ == ctx.return_route@ && package.payload@
                        == null_ciphertext(
                        ctx.payload_destination_key@,
                        enc_response(
                            msg.stream_key@,
                            msg.data@,
                            msg.sequence_number,
                            msg.last_data,
                        ),
                    ) && (match wallet_opt_view(ctx.consuming_wallet) {
                        Some(wv) => (exit_report matches Some(rep) && rep.consuming_wallet@ == wv
                            && rep.payload_size == msg.data@.len() && rep.service_rate
                            == TEMPORARY_PER_EXIT_RATE && rep.byte_rate
                            == TEMPORARY_PER_EXIT_BYTE_RATE) && free_log is None,
                        None => exit_report is None && (free_log matches Some(l) && l@
                            == free_log_chars(msg.data@.len())),
                    }) && final(self).stream_contexts@ == (if msg.last_data {
                        sc_remove(old(self).stream_contexts@, msg.stream_key@)
                    } else {
                        old(self).stream_contexts@
                    })
                }
            }),
    {
        let i = match sc_find(&self.stream_contexts, &msg.stream_key) {
            Some(i) => i,
            None => {
                let log = make_unsolicited_log(msg.data.len(), msg.source, msg.sequence_number);
                return InboundDataOutcome::Unsolicited { log };
            },
        };
        let return_route = self.stream_contexts[i].1.return_route.clone();
        let dest_key = self.stream_contexts[i].1.payload_destination_key.clone();
        let consuming_wallet = clone_wallet_opt(&self.stream_contexts[i].1.consuming_wallet);
        let data_len = msg.data.len();
        let source = msg.source;
        let seqno = msg.sequence_number;
        let last_data = msg.last_data;
        let response = ClientResponsePayload {
            stream_key: msg.stream_key,
            sequenced_packet: SequencedPacket {
                data: msg.data,
                sequence_number: msg.sequence_number,
                last_data: msg.last_data,
            },
        };
        let payload_bytes = response.encode();
        let package = match IncipientCoresPackage::new(
            &self.cryptde,
            return_route,
            payload_bytes.as_slice(),
            &dest_key,
        ) {
            Ok(p) => p,
            Err(_) => {
                let log = make_cores_failed_log(data_len, source, seqno);
                return InboundDataOutcome::CoresPackageFailed { log };
            },
        };
        let (exit_report, free_log) = match consuming_wallet {
            Some(w) => (
                Some(
                    ReportExitServiceProvidedMessage {
                        consuming_wallet: w,
                        payload_size: data_len,
                        service_rate: TEMPORARY_PER_EXIT_RATE,
                        byte_rate: TEMPORARY_PER_EXIT_BYTE_RATE,
                    },
                ),
                None,
            ),
            None => (None, Some(make_free_log(data_len))),
        };
        if last_data {
            self.stream_contexts.remove(i);
            proof {
                assert(self.stream_contexts@ =~= sc_remove(
                    old(self).stream_contexts@,
                    response.stream_key@,
                ));
            }
        }
        InboundDataOutcome::Relayed { package, exit_report, free_log }
    }
}


} // verus!
