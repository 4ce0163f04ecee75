//! Origin-side data: the request payload that travels from the originating
//! proxy to the exit, with its byte layout. The layout is proved injective
//! and its reader complete, so the exit's parse is exact.

use vstd::prelude::*;

use crate::ascii::{
    ascii_bytes, ascii_bytes_to_string, check_ascii_bytes, lemma_ascii_bytes_round_trip,
    lemma_ascii_round_trip, str_to_ascii_bytes,
};
use crate::cryptde::PublicKey;
use crate::stream::{enc_sp, lemma_sp_at, sp_sizes_ok, SequencedPacket, StreamKey};
use crate::wire::{
    enc_bool, enc_chunk, enc_u16, lemma_chunk_at, lemma_enc_u16_injective, push_bool, push_chunk,
    push_u16, read_bool, read_chunk, read_u16,
};

verus! {

use vstd::utf8::is_ascii_chars;

/// Which protocol the origin sniffed on the client connection.
#[derive(Clone, Copy, Debug, PartialEq, Eq, Structural)]
pub enum ProxyProtocol {
    HTTP,
    TLS,
}

/// The wire byte for a protocol tag.
pub open spec fn protocol_byte(p: ProxyProtocol) -> u8 {
    match p {
        ProxyProtocol::HTTP => 0,
        ProxyProtocol::TLS => 1,
    }
}

fn protocol_to_byte(p: ProxyProtocol) -> (b: u8)
    ensures
        b == protocol_byte(p),
{
    match p {
        ProxyProtocol::HTTP => 0,
        ProxyProtocol::TLS => 1,
    }
}

fn byte_to_protocol(b: u8) -> (r: Option<ProxyProtocol>)
    ensures
        r matches Some(p) ==> protocol_byte(p) == b,
        (r is Some) == (b < 2),
{
    if b == 0 {
        Some(ProxyProtocol::HTTP)
    } else if b == 1 {
        Some(ProxyProtocol::TLS)
    } else {
        None
    }
}

/// What the origin asks the exit to do: open (or continue) a stream to the
/// named host and port and forward these bytes.
#[derive(Debug, PartialEq, Eq)]
pub struct ClientRequestPayload {
    pub stream_key: StreamKey,
    pub sequenced_packet: SequencedPacket,
    pub target_hostname: Option<String>,
    pub target_port: u16,
    pub protocol: ProxyProtocol,
    pub originator_public_key: PublicKey,
}

impl Clone for ClientRequestPayload {
    fn clone(&self) -> (r: Self)
        ensures
            r.stream_key@ == self.stream_key@,
            r.sequenced_packet.data@ == self.sequenced_packet.data@,
            r.sequenced_packet.sequence_number == self.sequenced_packet.sequence_number,
            r.sequenced_packet.last_data == self.sequenced_packet.last_data,
            hostname_view(r.target_hostname) == hostname_view(self.target_hostname),
            r.target_port == self.target_port,
            r.protocol == self.protocol,
            r.originator_public_key@ == self.originator_public_key@,
    {
        ClientRequestPayload {
            stream_key: self.stream_key.clone(),
            sequenced_packet: self.sequenced_packet.clone(),
            target_hostname: match &self.target_hostname {
                Some(h) => Some(h.clone()),
                None => None,
            },
            target_port: self.target_port,
            protocol: self.protocol,
            originator_public_key: self.originator_public_key.clone(),
        }
    }
}

/// The characters of an optional hostname.
pub open spec fn hostname_view(h: Option<String>) -> Option<Seq<char>> {
    match h {
        Some(s) => Some(s@),
        None => None,
    }
}

/// The byte layout of a request payload.
pub open spec fn enc_request(p: ClientRequestPayload) -> Seq<u8> {
    enc_chunk(p.stream_key@) + enc_sp(
        p.sequenced_packet.data@,
        p.sequenced_packet.sequence_number,
        p.sequenced_packet.last_data,
    ) + enc_bool(p.target_hostname is Some) + enc_chunk(
        match hostname_view(p.target_hostname) {
            Some(h) => ascii_bytes(h),
            None => Seq::empty(),
        },
    ) + enc_u16(p.target_port) + seq![protocol_byte(p.protocol)] + enc_chunk(
        p.originator_public_key@,
    )
}

/// A payload the layout can carry: sizes in range, hostname ASCII.
pub open spec fn request_ok(p: ClientRequestPayload) -> bool {
    &&& p.stream_key@.len() <= u32::MAX
    &&& sp_sizes_ok(p.sequenced_packet.data@)
    &&& p.originator_public_key@.len() <= u32::MAX
    &&& (match hostname_view(p.target_hostname) {
        Some(h) => h.len() <= u32::MAX && is_ascii_chars(h),
        None => true,
    })
}

/// Does `b` hold the layout of some carryable request payload?
pub open spec fn request_parses(b: Seq<u8>) -> bool {
    exists|p: ClientRequestPayload| request_ok(p) && b == enc_request(p)
}

/// The payload whose layout `b` holds (meaningful when `request_parses(b)`).
pub open spec fn parsed_request(b: Seq<u8>) -> ClientRequestPayload {
    choose|p: ClientRequestPayload| request_ok(p) && b == enc_request(p)
}

/// How a buffer holding a request layout is laid out, by region.
proof fn lemma_request_layout(buf: Seq<u8>, p: ClientRequestPayload)
    requires
        request_ok(p),
        buf == enc_request(p),
    ensures
        ({
            let sk = p.stream_key@;
            let sp = enc_sp(
                p.sequenced_packet.data@,
                p.sequenced_packet.sequence_number,
                p.sequenced_packet.last_data,
            );
            let hb = (match hostname_view(p.target_hostname) {
                Some(h) => ascii_bytes(h),
                None => Seq::<u8>::empty(),
            });
            let a = 4 + sk.len() as int;
            let b = a + sp.len() as int;
            let c = b + 1 + 4 + hb.len() as int;
            &&& buf.len() == c + 2 + 1 + 4 + p.originator_public_key@.len()
            &&& buf.subrange(0, a) == enc_chunk(sk)
            &&& buf.subrange(a, b) == sp
            &&& buf[b] == enc_bool(p.target_hostname is Some)[0]
            &&& buf.subrange(b + 1, c) == enc_chunk(hb)
            &&& buf.subrange(c, c + 2) == enc_u16(p.target_port)
            &&& buf[c + 2] == protocol_byte(p.protocol)
            &&& buf.subrange(c + 3, buf.len() as int) == enc_chunk(p.originator_public_key@)
        }),
{
    let sk = p.stream_key@;
    let sp = enc_sp(
        p.sequenced_packet.data@,
        p.sequenced_packet.sequence_number,
        p.sequenced_packet.last_data,
    );
    let hb = (match hostname_view(p.target_hostname) {
        Some(h) => ascii_bytes(h),
        None => Seq::<u8>::empty(),
    });
    let a = 4 + sk.len() as int;
    let b = a + sp.len() as int;
    let c = b + 1 + 4 + hb.len() as int;
    assert(buf.subrange(0, a) =~= enc_chunk(sk));
    assert(buf.subrange(a, b) =~= sp);
    assert(buf.subrange(b + 1, c) =~= enc_chunk(hb));
    assert(buf.subrange(c, c + 2) =~= enc_u16(p.target_port));
    assert(buf.subrange(c + 3, buf.len() as int) =~= enc_chunk(p.originator_public_key@));
}

/// One buffer lays out at most one request payload (up to field views).
pub proof fn lemma_request_injective(buf: Seq<u8>, p1: ClientRequestPayload, p2: ClientRequestPayload)
    requires
        request_ok(p1),
        request_ok(p2),
        buf == enc_request(p1),
        buf == enc_request(p2),
    ensures
        p1.stream_key@ == p2.stream_key@,
        p1.sequenced_packet.data@ == p2.sequenced_packet.data@,
        p1.sequenced_packet.sequence_number == p2.sequenced_packet.sequence_number,
        p1.sequenced_packet.last_data == p2.sequenced_packet.last_data,
        hostname_view(p1.target_hostname) == hostname_view(p2.target_hostname),
        p1.target_port == p2.target_port,
        p1.protocol == p2.protocol,
        p1.originator_public_key@ == p2.originator_public_key@,
{
    lemma_request_layout(buf, p1);
    lemma_request_layout(buf, p2);
    lemma_chunk_at(buf, 0, p1.stream_key@, p2.stream_key@);
    let a = 4 + p1.stream_key@.len() as int;
    lemma_sp_at(
        buf,
        a,
        p1.sequenced_packet.data@,
        p1.sequenced_packet.sequence_number,
        p1.sequenced_packet.last_data,
        p2.sequenced_packet.data@,
        p2.sequenced_packet.sequence_number,
        p2.sequenced_packet.last_data,
    );
    let b = a + enc_sp(
        p1.sequenced_packet.data@,
        p1.sequenced_packet.sequence_number,
        p1.sequenced_packet.last_data,
    ).len() as int;
    let hb1 = (match hostname_view(p1.target_hostname) {
        Some(h) => ascii_bytes(h),
        None => Seq::<u8>::empty(),
    });
    let hb2 = (match hostname_view(p2.target_hostname) {
        Some(h) => ascii_bytes(h),
        None => Seq::<u8>::empty(),
    });
    lemma_chunk_at(buf, b + 1, hb1, hb2);
    if p1.target_hostname is Some {
        lemma_ascii_round_trip(hostname_view(p1.target_hostname)->Some_0);
        lemma_ascii_round_trip(hostname_view(p2.target_hostname)->Some_0);
    }
    let c = b + 1 + 4 + hb1.len() as int;
    assert(enc_u16(p1.target_port) =~= enc_u16(p2.target_port)) by {
        assert(buf.subrange(c, c + 2)[0] == enc_u16(p1.target_port)[0]);
        assert(buf.subrange(c, c + 2)[1] == enc_u16(p1.target_port)[1]);
        assert(buf.subrange(c, c + 2)[0] == enc_u16(p2.target_port)[0]);
        assert(buf.subrange(c, c + 2)[1] == enc_u16(p2.target_port)[1]);
    }
    lemma_enc_u16_injective(p1.target_port, p2.target_port);
    lemma_chunk_at(buf, c + 3, p1.originator_public_key@, p2.originator_public_key@);
}

/// From the four leading regions of a buffer, every payload the buffer can
/// lay out agrees with what was read.
#[verifier::rlimit(100)]
proof fn lemma_request_prefix_fields(
    buf: Seq<u8>,
    skv: Seq<u8>,
    spd: Seq<u8>,
    spq: u64,
    spl: bool,
    has_host: bool,
    hostb: Seq<u8>,
    c: int,
)
    requires
        skv.len() <= u32::MAX,
        spd.len() <= u32::MAX,
        hostb.len() <= u32::MAX,
        c <= buf.len(),
        c == 4 + skv.len() + enc_sp(spd, spq, spl).len() + 1 + 4 + hostb.len(),
        buf.subrange(0, 4 + skv.len() as int) == enc_chunk(skv),
        buf.subrange(
            4 + skv.len() as int,
            4 + skv.len() + enc_sp(spd, spq, spl).len() as int,
        ) == enc_sp(spd, spq, spl),
        buf.subrange(c - 5 - hostb.len() as int, c - 4 - hostb.len() as int) == enc_bool(has_host),
        buf.subrange(c - 4 - hostb.len() as int, c as int) == enc_chunk(hostb),
    ensures
        forall|p: ClientRequestPayload|
            request_ok(p) && buf == enc_request(p) ==> #[trigger] enc_request(p) =~= enc_request(p)
                && p.stream_key@ == skv && p.sequenced_packet.data@ == spd
                && p.sequenced_packet.sequence_number == spq && p.sequenced_packet.last_data == spl
                && (p.target_hostname is Some) == has_host && (match hostname_view(
                p.target_hostname,
            ) {
                Some(h) => ascii_bytes(h),
                None => Seq::<u8>::empty(),
            }) == hostb && buf.len() == c + 2 + 1 + 4 + p.originator_public_key@.len()
                && buf.subrange(c, c + 2) == enc_u16(p.target_port) && buf[c + 2] == protocol_byte(
                p.protocol,
            ) && buf.subrange(c + 3, buf.len() as int) == enc_chunk(p.originator_public_key@),
{
    let a = 4 + skv.len() as int;
    let b = a + enc_sp(spd, spq, spl).len() as int;
    assert forall|p: ClientRequestPayload|
        request_ok(p) && buf == enc_request(p) implies #[trigger] enc_request(p) =~= enc_request(p)
        && p.stream_key@ == skv && p.sequenced_packet.data@ == spd
        && p.sequenced_packet.sequence_number == spq && p.sequenced_packet.last_data == spl && (
    p.target_hostname is Some) == has_host && (match hostname_view(p.target_hostname) {
        Some(h) => ascii_bytes(h),
        None => Seq::<u8>::empty(),
    }) == hostb && buf.len() == c + 2 + 1 + 4 + p.originator_public_key@.len() && buf.subrange(
        c,
        c + 2,
    ) == enc_u16(p.target_port) && buf[c + 2] == protocol_byte(p.protocol) && buf.subrange(
        c + 3,
        buf.len() as int,
    ) == enc_chunk(p.originator_public_key@) by {
        lemma_request_layout(buf, p);
        lemma_chunk_at(buf, 0, p.stream_key@, skv);
        lemma_sp_at(
            buf,
            a,
            p.sequenced_packet.data@,
            p.sequenced_packet.sequence_number,
            p.sequenced_packet.last_data,
            spd,
            spq,
            spl,
        );
        assert(buf.subrange(b, b + 1)[0] == enc_bool(has_host)[0]);
        assert(buf[b] == enc_bool(p.target_hostname is Some)[0]);
        lemma_chunk_at(
            buf,
            b + 1,
            (match hostname_view(p.target_hostname) {
                Some(h) => ascii_bytes(h),
                None => Seq::<u8>::empty(),
            }),
            hostb,
        );
    }
}

impl ClientRequestPayload {
    /// Serialize; refused only for a hostname that is not ASCII.
    pub fn encode(&self) -> (r: Option<Vec<u8>>)
        requires
            self.stream_key@.len() <= u32::MAX,
            sp_sizes_ok(self.sequenced_packet.data@),
            self.originator_public_key@.len() <= u32::MAX,
            (match hostname_view(self.target_hostname) {
                Some(h) => h.len() <= u32::MAX,
                None => true,
            }),
        ensures
            r matches Some(v) ==> request_ok(*self) && v@ == enc_request(*self),
            r is None ==> !request_ok(*self),
    {
        let mut out: Vec<u8> = Vec::new();
        push_chunk(&mut out, self.stream_key.contents.as_slice());
        self.sequenced_packet.encode_onto(&mut out);
        match &self.target_hostname {
            None => {
                push_bool(&mut out, false);
                let empty: Vec<u8> = Vec::new();
                push_chunk(&mut out, empty.as_slice());
            },
            Some(h) => {
                let hb = match str_to_ascii_bytes(h.as_str()) {
                    Some(x) => x,
                    None => {
                        return None;
                    },
                };
                push_bool(&mut out, true);
                push_chunk(&mut out, hb.as_slice());
            },
        }
        push_u16(&mut out, self.target_port);
        out.push(protocol_to_byte(self.protocol));
        push_chunk(&mut out, self.originator_public_key.data.as_slice());
        proof {
            assert(out@ =~= enc_request(*self));
        }
        Some(out)
    }

    /// Parse a whole buffer as a request payload. Succeeds exactly on
    /// buffers that `encode` can produce.
    pub fn decode(buf: &Vec<u8>) -> (r: Option<ClientRequestPayload>)
        ensures
            r matches Some(p) ==> request_ok(p) && buf@ == enc_request(p),
            (r is Some) == request_parses(buf@),
    {
        let r = Self::decode_inner(buf);
        proof {
            if r is Some {
                assert(request_parses(buf@));
            }
        }
        r
    }

    /// Read the leading regions: stream key, packet, hostname flag and
    /// hostname bytes.
    #[verifier::rlimit(100)]
    fn read_prefix(buf: &Vec<u8>) -> (r: Option<(Vec<u8>, SequencedPacket, bool, Vec<u8>, usize)>)
        ensures
            r matches Some((skb, sp, has_host, hostb, c)) ==> sp_sizes_ok(sp.data@)
                && skb@.len() <= u32::MAX && hostb@.len() <= u32::MAX && c <= buf@.len() && c == 4
                + skb@.len() + enc_sp(sp.data@, sp.sequence_number, sp.last_data).len() + 1 + 4
                + hostb@.len() && buf@.subrange(0, 4 + skb@.len() as int) == enc_chunk(skb@)
                && buf@.subrange(
                4 + skb@.len() as int,
                4 + skb@.len() + enc_sp(sp.data@, sp.sequence_number, sp.last_data).len() as int,
            ) == enc_sp(sp.data@, sp.sequence_number, sp.last_data) && buf@.subrange(
                c - 5 - hostb@.len() as int,
                c - 4 - hostb@.len() as int,
            ) == enc_bool(has_host) && buf@.subrange(c - 4 - hostb@.len() as int, c as int)
                == enc_chunk(hostb@) && (forall|p: ClientRequestPayload|
                request_ok(p) && buf@ == enc_request(p) ==> #[trigger] enc_request(p)
                    =~= enc_request(p) && p.stream_key@ == skb@ && p.sequenced_packet.data@
                    == sp.data@ && p.sequenced_packet.sequence_number == sp.sequence_number
                    && p.sequenced_packet.last_data == sp.last_data && (p.target_hostname
                    is Some) == has_host && (match hostname_view(p.target_hostname) {
                    Some(h) => ascii_bytes(h),
                    None => Seq::<u8>::empty(),
                }) == hostb@ && buf@.len() == c + 2 + 1 + 4 + p.originator_public_key@.len()
                    && buf@.subrange(c as int, c + 2 as int) == enc_u16(p.target_port) && buf@[c
                    + 2 as int] == protocol_byte(p.protocol) && buf@.subrange(
                    c + 3,
                    buf@.len() as int,
                ) == enc_chunk(p.originator_public_key@)),
            r is None ==> !request_parses(buf@),
    {
        let skc = match read_chunk(buf, 0) {
            Some(x) => x,
            None => {
                proof {
                    assert forall|p: ClientRequestPayload|
                        request_ok(p) && buf@ == enc_request(p) implies false by {
                        lemma_request_layout(buf@, p);
                    }
                }
                return None;
            },
        };
        let (sk_bytes, a) = skc;
        let spr = match SequencedPacket::read_at(buf, a) {
            Some(x) => x,
            None => {
                proof {
                    assert forall|p: ClientRequestPayload|
                        request_ok(p) && buf@ == enc_request(p) implies false by {
                        lemma_request_layout(buf@, p);
                        lemma_chunk_at(buf@, 0, p.stream_key@, sk_bytes@);
                    }
                }
                return None;
            },
        };
        let (sp, b) = spr;
        let hf = match read_bool(buf, b) {
            Some(x) => x,
            None => {
                proof {
                    assert forall|p: ClientRequestPayload|
                        request_ok(p) && buf@ == enc_request(p) implies false by {
                        lemma_request_layout(buf@, p);
                        lemma_chunk_at(buf@, 0, p.stream_key@, sk_bytes@);
                        lemma_sp_at(
                            buf@,
                            a as int,
                            p.sequenced_packet.data@,
                            p.sequenced_packet.sequence_number,
                            p.sequenced_packet.last_data,
                            sp.data@,
                            sp.sequence_number,
                            sp.last_data,
                        );
                    }
                }
                return None;
            },
        };
        let (has_host, b1) = hf;
        let hc = match read_chunk(buf, b1) {
            Some(x) => x,
            None => {
                proof {
                    assert forall|p: ClientRequestPayload|
                        request_ok(p) && buf@ == enc_request(p) implies false by {
                        lemma_request_layout(buf@, p);
                        lemma_chunk_at(buf@, 0, p.stream_key@, sk_bytes@);
                        lemma_sp_at(
                            buf@,
                            a as int,
                            p.sequenced_packet.data@,
                            p.sequenced_packet.sequence_number,
                            p.sequenced_packet.last_data,
                            sp.data@,
                            sp.sequence_number,
                            sp.last_data,
                        );
                    }
                }
                return None;
            },
        };
        let (host_bytes, c) = hc;
        proof {
            assert(buf@.subrange(b as int, b1 as int) == enc_bool(has_host));
            lemma_request_prefix_fields(
                buf@,
                sk_bytes@,
                sp.data@,
                sp.sequence_number,
                sp.last_data,
                has_host,
                host_bytes@,
                c as int,
            );
        }
        Some((sk_bytes, sp, has_host, host_bytes, c))
    }

    #[verifier::rlimit(100)]
    fn decode_inner(buf: &Vec<u8>) -> (r: Option<ClientRequestPayload>)
        ensures
            r matches Some(p) ==> request_ok(p) && buf@ == enc_request(p),
            request_parses(buf@) ==> r is Some,
    {
        let (sk_bytes, sp, has_host, host_bytes, c) = match Self::read_prefix(buf) {
            Some(x) => x,
            None => {
                return None;
            },
        };
        if !has_host && host_bytes.len() != 0 {
            return None;
        }
        if has_host && !check_ascii_bytes(&host_bytes) {
            proof {
                assert forall|p: ClientRequestPayload|
                    request_ok(p) && buf@ == enc_request(p) implies false by {
                    lemma_ascii_round_trip(hostname_view(p.target_hostname)->Some_0);
                }
            }
            return None;
        }
        let pt = match read_u16(buf, c) {
            Some(x) => x,
            None => {
                return None;
            },
        };
        let (port, c2) = pt;
        proof {
            assert forall|p: ClientRequestPayload|
                request_ok(p) && buf@ == enc_request(p) implies p.target_port == port by {
                assert(buf@.subrange(c as int, c + 2 as int)[0] == enc_u16(p.target_port)[0]);
                assert(buf@.subrange(c as int, c + 2 as int)[1] == enc_u16(p.target_port)[1]);
                lemma_enc_u16_injective(p.target_port, port);
            }
        }
        if c2 >= buf.len() {
            return None;
        }
        let proto = match byte_to_protocol(buf[c2]) {
            Some(x) => x,
            None => {
                return None;
            },
        };
        let okc = match read_chunk(buf, c2 + 1) {
            Some(x) => x,
            None => {
                return None;
            },
        };
        let (okey_bytes, e) = okc;
        proof {
            assert forall|p: ClientRequestPayload|
                request_ok(p) && buf@ == enc_request(p) implies p.originator_public_key@
                == okey_bytes@ by {
                lemma_chunk_at(buf@, c2 + 1, p.originator_public_key@, okey_bytes@);
            }
        }
        if e != buf.len() {
            return None;
        }
        let target_hostname = if has_host {
            let ghost hb = host_bytes@;
            let s = ascii_bytes_to_string(host_bytes);
            proof {
                lemma_ascii_bytes_round_trip(hb);
            }
            Some(s)
        } else {
            None
        };
        let p = ClientRequestPayload {
            stream_key: StreamKey { contents: sk_bytes },
            sequenced_packet: sp,
            target_hostname,
            target_port: port,
            protocol: proto,
            originator_public_key: PublicKey { data: okey_bytes },
        };
        proof {
            assert(buf@ =~= enc_request(p));
        }
        Some(p)
    }
}

} // verus!
