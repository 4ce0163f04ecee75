//! Routes: ordered lists of per-hop ciphertexts. Each hop decrypts, for the
//! node it is addressed to, into a RouteElement naming the next hop's key,
//! the component that should consume the payload, and the wallet to bill.
//! The element byte format is proved injective, so decoding an encoded
//! element can only return that element.

use vstd::prelude::*;

use crate::ascii::{
    ascii_bytes, ascii_bytes_to_string, check_ascii_bytes, lemma_ascii_bytes_round_trip,
    lemma_ascii_round_trip, str_to_ascii_bytes,
};
use crate::cryptde::{null_ciphertext, CryptDENull, CryptData, PublicKey};
use crate::wallet::Wallet;
use crate::wire::{enc_chunk, push_chunk, read_chunk};

verus! {

use vstd::utf8::is_ascii_chars;

/// Which actor consumes a payload: a relay forwards (`Routing`), the others
/// are local consumers.
#[derive(Clone, Copy, Debug, PartialEq, Eq, Structural)]
pub enum Component {
    Routing,
    Neighborhood,
    ProxyServer,
    ProxyClient,
}

/// The wire byte for a component tag.
pub open spec fn component_byte(c: Component) -> u8 {
    match c {
        Component::Routing => 0,
        Component::Neighborhood => 1,
        Component::ProxyServer => 2,
        Component::ProxyClient => 3,
    }
}

fn component_to_byte(c: Component) -> (b: u8)
    ensures
        b == component_byte(c),
{
    match c {
        Component::Routing => 0,
        Component::Neighborhood => 1,
        Component::ProxyServer => 2,
        Component::ProxyClient => 3,
    }
}

fn byte_to_component(b: u8) -> (r: Option<Component>)
    ensures
        r matches Some(c) ==> component_byte(c) == b,
        (r is Some) == (b < 4),
{
    if b == 0 {
        Some(Component::Routing)
    } else if b == 1 {
        Some(Component::Neighborhood)
    } else if b == 2 {
        Some(Component::ProxyServer)
    } else if b == 3 {
        Some(Component::ProxyClient)
    } else {
        None
    }
}

/// What one hop of a route decrypts to.
#[derive(Debug, PartialEq, Eq)]
pub struct RouteElement {
    /// The key of the next node along the route; empty at the exit.
    pub public_key: PublicKey,
    /// `Routing` everywhere but the last legitimate hop.
    pub component: Component,
    /// Whom the relaying node may bill, if anyone.
    pub consuming_wallet: Option<Wallet>,
}

impl Clone for RouteElement {
    fn clone(&self) -> (r: Self)
        ensures
            r.public_key@ == self.public_key@,
            r.component == self.component,
            wallet_opt_view(r.consuming_wallet) == wallet_opt_view(self.consuming_wallet),
    {
        RouteElement {
            public_key: self.public_key.clone(),
            component: self.component,
            consuming_wallet: match &self.consuming_wallet {
                Some(w) => Some(w.clone()),
                None => None,
            },
        }
    }
}

/// The characters of an optional wallet's address.
pub open spec fn wallet_opt_view(w: Option<Wallet>) -> Option<Seq<char>> {
    match w {
        Some(x) => Some(x@),
        None => None,
    }
}

/// The byte layout of a route element.
pub open spec fn enc_elem(key: Seq<u8>, c: Component, w: Option<Seq<char>>) -> Seq<u8> {
    enc_chunk(key) + seq![component_byte(c)] + (match w {
        None => seq![0u8],
        Some(chars) => seq![1u8] + enc_chunk(ascii_bytes(chars)),
    })
}

/// Sizes that the length-prefixed layout can carry.
pub open spec fn elem_sizes_ok(key: Seq<u8>, w: Option<Seq<char>>) -> bool {
    key.len() <= u32::MAX && (match w {
        None => true,
        Some(chars) => chars.len() <= u32::MAX,
    })
}

/// A wallet that the layout can carry: ASCII text.
pub open spec fn elem_wallet_ok(w: Option<Seq<char>>) -> bool {
    match w {
        None => true,
        Some(chars) => is_ascii_chars(chars),
    }
}

impl RouteElement {
    pub fn new(public_key: PublicKey, component: Component, consuming_wallet: Option<Wallet>) -> (r:
        RouteElement)
        ensures
            r.public_key@ == public_key@,
            r.component == component,
            wallet_opt_view(r.consuming_wallet) == wallet_opt_view(consuming_wallet),
    {
        RouteElement { public_key, component, consuming_wallet }
    }

    /// Serialize; refused only for a wallet that is not ASCII.
    pub fn encode(&self) -> (r: Option<Vec<u8>>)
        requires
            elem_sizes_ok(self.public_key@, wallet_opt_view(self.consuming_wallet)),
        ensures
            r matches Some(v) ==> elem_wallet_ok(wallet_opt_view(self.consuming_wallet)) && v@
                == enc_elem(
                self.public_key@,
                self.component,
                wallet_opt_view(self.consuming_wallet),
            ),
            r is None ==> !elem_wallet_ok(wallet_opt_view(self.consuming_wallet)),
    {
        let mut out: Vec<u8> = Vec::new();
        push_chunk(&mut out, self.public_key.data.as_slice());
        out.push(component_to_byte(self.component));
        match &self.consuming_wallet {
            None => {
                out.push(0u8);
                proof {
                    assert(out@ =~= enc_elem(
                        self.public_key@,
                        self.component,
                        wallet_opt_view(self.consuming_wallet),
                    ));
                }
                Some(out)
            },
            Some(w) => {
                let wbytes = match str_to_ascii_bytes(w.address.as_str()) {
                    Some(b) => b,
                    None => {
                        return None;
                    },
                };
                out.push(1u8);
                push_chunk(&mut out, wbytes.as_slice());
                proof {
                    assert(out@ =~= enc_elem(
                        self.public_key@,
                        self.component,
                        wallet_opt_view(self.consuming_wallet),
                    ));
                }
                Some(out)
            },
        }
    }

    /// Parse a whole buffer as one element. Succeeds exactly on buffers that
    /// `encode` can produce, and then returns the element they encode.
    pub fn decode(buf: &Vec<u8>) -> (r: Option<RouteElement>)
        ensures
            r matches Some(e) ==> elem_wallet_ok(wallet_opt_view(e.consuming_wallet))
                && elem_sizes_ok(e.public_key@, wallet_opt_view(e.consuming_wallet)) && buf@
                == enc_elem(e.public_key@, e.component, wallet_opt_view(e.consuming_wallet)),
            forall|key: Seq<u8>, c: Component, w: Option<Seq<char>>|
                elem_sizes_ok(key, w) && elem_wallet_ok(w) && buf@ == enc_elem(key, c, w) ==> r
                    is Some,
    {
        let chunk0 = read_chunk(buf, 0);
        if chunk0.is_none() {
            proof {
                assert forall|key: Seq<u8>, c: Component, w: Option<Seq<char>>|
                    elem_sizes_ok(key, w) && elem_wallet_ok(w) && buf@ == enc_elem(
                        key,
                        c,
                        w,
                    ) implies false by {
                    lemma_elem_parse(buf@, key, c, w);
                }
            }
            return None;
        }
        let (key_bytes, p1) = chunk0.unwrap();
        if buf.len() - p1 < 2 {
            proof {
                assert forall|key: Seq<u8>, c: Component, w: Option<Seq<char>>|
                    elem_sizes_ok(key, w) && elem_wallet_ok(w) && buf@ == enc_elem(
                        key,
                        c,
                        w,
                    ) implies false by {
                    lemma_elem_parse(buf@, key, c, w);
                    crate::wire::lemma_chunk_at(buf@, 0, key, key_bytes@);
                }
            }
            return None;
        }
        let comp_opt = byte_to_component(buf[p1]);
        if comp_opt.is_none() {
            proof {
                assert forall|key: Seq<u8>, c: Component, w: Option<Seq<char>>|
                    elem_sizes_ok(key, w) && elem_wallet_ok(w) && buf@ == enc_elem(
                        key,
                        c,
                        w,
                    ) implies false by {
                    lemma_elem_parse(buf@, key, c, w);
                    crate::wire::lemma_chunk_at(buf@, 0, key, key_bytes@);
                }
            }
            return None;
        }
        let comp = comp_opt.unwrap();
        let flag = buf[p1 + 1];
        if flag == 0 {
            if p1 + 2 != buf.len() {
                proof {
                    assert forall|key: Seq<u8>, c: Component, w: Option<Seq<char>>|
                        elem_sizes_ok(key, w) && elem_wallet_ok(w) && buf@ == enc_elem(
                            key,
                            c,
                            w,
                        ) implies false by {
                        lemma_elem_parse(buf@, key, c, w);
                        crate::wire::lemma_chunk_at(buf@, 0, key, key_bytes@);
                    }
                }
                return None;
            }
            let e = RouteElement {
                public_key: PublicKey { data: key_bytes },
                component: comp,
                consuming_wallet: None,
            };
            proof {
                assert(buf@ =~= enc_elem(e.public_key@, e.component, None));
            }
            Some(e)
        } else if flag == 1 {
            let chunk1 = read_chunk(buf, p1 + 2);
            if chunk1.is_none() {
                proof {
                    assert forall|key: Seq<u8>, c: Component, w: Option<Seq<char>>|
                        elem_sizes_ok(key, w) && elem_wallet_ok(w) && buf@ == enc_elem(
                            key,
                            c,
                            w,
                        ) implies false by {
                        lemma_elem_parse(buf@, key, c, w);
                        crate::wire::lemma_chunk_at(buf@, 0, key, key_bytes@);
                    }
                }
                return None;
            }
            let (wbytes, p2) = chunk1.unwrap();
            if p2 != buf.len() {
                proof {
                    assert forall|key: Seq<u8>, c: Component, w: Option<Seq<char>>|
                        elem_sizes_ok(key, w) && elem_wallet_ok(w) && buf@ == enc_elem(
                            key,
                            c,
                            w,
                        ) implies false by {
                        lemma_elem_parse(buf@, key, c, w);
                        crate::wire::lemma_chunk_at(buf@, 0, key, key_bytes@);
                        let chars = w->Some_0;
                        crate::wire::lemma_chunk_at(buf@, p1 + 2, ascii_bytes(chars), wbytes@);
                    }
                }
                return None;
            }
            if !check_ascii_bytes(&wbytes) {
                proof {
                    assert forall|key: Seq<u8>, c: Component, w: Option<Seq<char>>|
                        elem_sizes_ok(key, w) && elem_wallet_ok(w) && buf@ == enc_elem(
                            key,
                            c,
                            w,
                        ) implies false by {
                        lemma_elem_parse(buf@, key, c, w);
                        crate::wire::lemma_chunk_at(buf@, 0, key, key_bytes@);
                        let chars = w->Some_0;
                        crate::wire::lemma_chunk_at(buf@, p1 + 2, ascii_bytes(chars), wbytes@);
                        lemma_ascii_round_trip(chars);
                    }
                }
                return None;
            }
            let ghost wb = wbytes@;
            let address = ascii_bytes_to_string(wbytes);
            let e = RouteElement {
                public_key: PublicKey { data: key_bytes },
                component: comp,
                consuming_wallet: Some(Wallet { address }),
            };
            proof {
                lemma_ascii_bytes_round_trip(wb);
                assert(buf@ =~= enc_elem(
                    e.public_key@,
                    e.component,
                    wallet_opt_view(e.consuming_wallet),
                ));
            }
            Some(e)
        } else {
            proof {
                assert forall|key: Seq<u8>, c: Component, w: Option<Seq<char>>|
                    elem_sizes_ok(key, w) && elem_wallet_ok(w) && buf@ == enc_elem(
                        key,
                        c,
                        w,
                    ) implies false by {
                    lemma_elem_parse(buf@, key, c, w);
                    crate::wire::lemma_chunk_at(buf@, 0, key, key_bytes@);
                }
            }
            None
        }
    }
}

/// How a buffer that holds an encoded element is laid out.
pub proof fn lemma_elem_parse(buf: Seq<u8>, key: Seq<u8>, c: Component, w: Option<Seq<char>>)
    requires
        elem_sizes_ok(key, w),
        elem_wallet_ok(w),
        buf == enc_elem(key, c, w),
    ensures
        buf.subrange(0, 4 + key.len() as int) == enc_chunk(key),
        4 + key.len() + 2 <= buf.len(),
        buf[4 + key.len() as int] == component_byte(c),
        component_byte(c) < 4,
        buf[4 + key.len() + 1 as int] == (match w {
            None => 0u8,
            Some(_) => 1u8,
        }),
        w is None ==> buf.len() == 4 + key.len() + 2,
        w matches Some(chars) ==> buf.len() == 4 + key.len() + 2 + 4 + chars.len()
            && buf.subrange(4 + key.len() + 2 as int, buf.len() as int) == enc_chunk(
            ascii_bytes(chars),
        ),
{
    assert(buf.subrange(0, 4 + key.len() as int) =~= enc_chunk(key));
    match w {
        None => {
            assert(buf.len() == 4 + key.len() + 2);
        },
        Some(chars) => {
            assert(buf.subrange(4 + key.len() + 2 as int, buf.len() as int) =~= enc_chunk(
                ascii_bytes(chars),
            ));
        },
    }
}

/// Two distinct elements never share an encoding: decoding what `encode`
/// produced can only give back the element that was encoded.
pub proof fn lemma_enc_elem_injective(
    k1: Seq<u8>,
    c1: Component,
    w1: Option<Seq<char>>,
    k2: Seq<u8>,
    c2: Component,
    w2: Option<Seq<char>>,
)
    requires
        elem_sizes_ok(k1, w1),
        elem_sizes_ok(k2, w2),
        elem_wallet_ok(w1),
        elem_wallet_ok(w2),
        enc_elem(k1, c1, w1) == enc_elem(k2, c2, w2),
    ensures
        k1 == k2,
        c1 == c2,
        w1 == w2,
{
    let b = enc_elem(k1, c1, w1);
    assert(b.subrange(0, 4 + k1.len() as int) =~= enc_chunk(k1));
    assert(b.subrange(0, 4 + k2.len() as int) =~= enc_chunk(k2));
    crate::wire::lemma_chunk_at(b, 0, k1, k2);
    let p = 4 + k1.len() as int;
    assert(b[p] == component_byte(c1));
    assert(b[p] == component_byte(c2));
    assert(c1 == c2);
    assert(b[p + 1] == (match w1 {
        None => 0u8,
        Some(_) => 1u8,
    }));
    assert(b[p + 1] == (match w2 {
        None => 0u8,
        Some(_) => 1u8,
    }));
    if w1 is Some {
        let ch1 = w1->0;
        let ch2 = w2->0;
        assert(b.subrange(p + 2, p + 2 + 4 + ascii_bytes(ch1).len() as int) =~= enc_chunk(
            ascii_bytes(ch1),
        ));
        assert(b.subrange(p + 2, p + 2 + 4 + ascii_bytes(ch2).len() as int) =~= enc_chunk(
            ascii_bytes(ch2),
        ));
        crate::wire::lemma_chunk_at(b, p + 2, ascii_bytes(ch1), ascii_bytes(ch2));
        lemma_ascii_round_trip(ch1);
        lemma_ascii_round_trip(ch2);
        assert(ch1 =~= ch2);
    }
}

/// Which keys stand in a segment, as byte sequences.
pub open spec fn keys_view(keys: Seq<PublicKey>) -> Seq<Seq<u8>> {
    Seq::new(keys.len(), |i: int| keys[i]@)
}

/// The key a hop's element names: the next key along, or empty at the end.
pub open spec fn seg_elem_key(keys: Seq<Seq<u8>>, i: int) -> Seq<u8> {
    if i + 1 < keys.len() {
        keys[i + 1]
    } else {
        Seq::empty()
    }
}

/// The component a hop's element names: `Routing` before the end, the
/// segment's recipient at the end.
pub open spec fn seg_elem_component(recipient: Component, n: int, i: int) -> Component {
    if i + 1 < n {
        Component::Routing
    } else {
        recipient
    }
}

/// The hop ciphertexts of a route over `keys`: hop `i` is the element for
/// position `i`, encrypted to `keys[i]`.
pub open spec fn route_hops(keys: Seq<Seq<u8>>, recipient: Component, w: Option<Seq<char>>) -> Seq<
    Seq<u8>,
> {
    Seq::new(
        keys.len(),
        |i: int|
            null_ciphertext(
                keys[i],
                enc_elem(seg_elem_key(keys, i), seg_elem_component(recipient, keys.len() as int, i), w),
            ),
    )
}

/// Key and wallet sizes the wire layout can carry.
pub open spec fn keys_sizes_ok(keys: Seq<Seq<u8>>) -> bool {
    forall|i: int| 0 <= i < keys.len() ==> (#[trigger] keys[i]).len() <= u32::MAX
}

/// Why a route could not be built.
#[derive(Clone, Copy, Debug, PartialEq, Eq, Structural)]
pub enum RouteError {
    EmptyRoute,
    EmptyKey,
    UnserializableWallet,
}

/// Which refusal a segment draws, if any: an empty segment first, then a
/// wallet the layout cannot carry, then an empty key (which nothing can be
/// encrypted to).
pub open spec fn seg_error(keys: Seq<Seq<u8>>, w: Option<Seq<char>>) -> Option<RouteError> {
    if keys.len() == 0 {
        Some(RouteError::EmptyRoute)
    } else if !elem_wallet_ok(w) {
        Some(RouteError::UnserializableWallet)
    } else if exists|i: int| 0 <= i < keys.len() && (#[trigger] keys[i]).len() == 0 {
        Some(RouteError::EmptyKey)
    } else {
        None
    }
}

/// An ordered run of node keys and the component that consumes the payload
/// at its end.
#[derive(Debug)]
pub struct RouteSegment {
    pub keys: Vec<PublicKey>,
    pub recipient: Component,
}

impl RouteSegment {
    pub fn new(keys: Vec<PublicKey>, recipient: Component) -> (r: RouteSegment)
        ensures
            keys_view(r.keys@) == keys_view(keys@),
            r.recipient == recipient,
    {
        RouteSegment { keys, recipient }
    }
}

/// A route on the wire: one ciphertext per hop, outermost first.
#[derive(Debug, PartialEq, Eq)]
pub struct Route {
    pub hops: Vec<CryptData>,
}

impl View for Route {
    type V = Seq<Seq<u8>>;

    open spec fn view(&self) -> Seq<Seq<u8>> {
        Seq::new(self.hops@.len(), |i: int| self.hops@[i]@)
    }
}

impl Clone for Route {
    fn clone(&self) -> (r: Self)
        ensures
            r@ == self@,
    {
        let mut hops: Vec<CryptData> = Vec::new();
        let mut i: usize = 0;
        while i < self.hops.len()
            invariant
                i <= self.hops@.len(),
                hops@.len() == i,
                forall|j: int| 0 <= j < i ==> hops@[j]@ == self.hops@[j]@,
            decreases self.hops@.len() - i,
        {
            hops.push(self.hops[i].clone());
            i = i + 1;
        }
        let r = Route { hops };
        proof {
            assert(r@ =~= self@);
        }
        r
    }
}

/// Encrypt the elements of one segment, hop by hop.
fn build_segment_hops(
    segment: &RouteSegment,
    cryptde: &CryptDENull,
    consuming_wallet: &Option<Wallet>,
    hops: &mut Vec<CryptData>,
) -> (r: Result<(), RouteError>)
    requires
        keys_sizes_ok(keys_view(segment.keys@)),
        elem_sizes_ok(Seq::<u8>::empty(), wallet_opt_view(*consuming_wallet)),
    ensures
        (match seg_error(keys_view(segment.keys@), wallet_opt_view(*consuming_wallet)) {
            Some(e) => r == Err::<(), RouteError>(e) && final(hops)@ == old(hops)@,
            None => r is Ok && final(hops)@.len() == old(hops)@.len() + segment.keys@.len()
                && final(hops)@.subrange(0, old(hops)@.len() as int) == old(hops)@ && (forall|
                j: int,
            |
                0 <= j < segment.keys@.len() ==> final(hops)@[old(hops)@.len() + j]@ == route_hops(
                    keys_view(segment.keys@),
                    segment.recipient,
                    wallet_opt_view(*consuming_wallet),
                )[j]),
        }),
{
    let ghost kv = keys_view(segment.keys@);
    let ghost wv = wallet_opt_view(*consuming_wallet);
    if segment.keys.len() == 0 {
        return Err(RouteError::EmptyRoute);
    }
    match consuming_wallet {
        Some(w) => {
            if str_to_ascii_bytes(w.address.as_str()).is_none() {
                return Err(RouteError::UnserializableWallet);
            }
        },
        None => {},
    }
    let mut scan: usize = 0;
    while scan < segment.keys.len()
        invariant
            scan <= segment.keys@.len(),
            segment.keys@.len() > 0,
            kv == keys_view(segment.keys@),
            wv == wallet_opt_view(*consuming_wallet),
            elem_wallet_ok(wv),
            hops@ == old(hops)@,
            forall|j: int| 0 <= j < scan ==> (#[trigger] kv[j]).len() > 0,
        decreases segment.keys@.len() - scan,
    {
        if segment.keys[scan].data.len() == 0 {
            proof {
                assert(kv[scan as int].len() == 0);
            }
            return Err(RouteError::EmptyKey);
        }
        scan = scan + 1;
    }
    let mut i: usize = 0;
    while i < segment.keys.len()
        invariant
            i <= segment.keys@.len(),
            segment.keys@.len() > 0,
            keys_sizes_ok(kv),
            elem_wallet_ok(wv),
            elem_sizes_ok(Seq::<u8>::empty(), wv),
            kv == keys_view(segment.keys@),
            wv == wallet_opt_view(*consuming_wallet),
            hops@.len() == old(hops)@.len() + i,
            hops@.subrange(0, old(hops)@.len() as int) == old(hops)@,
            forall|j: int|
                0 <= j < i ==> hops@[old(hops)@.len() + j]@ == route_hops(
                    kv,
                    segment.recipient,
                    wv,
                )[j],
            forall|j: int| 0 <= j < kv.len() ==> (#[trigger] kv[j]).len() > 0,
        decreases segment.keys@.len() - i,
    {
        proof {
            assert(kv[i as int].len() > 0);
        }
        let next_key = if i + 1 < segment.keys.len() {
            segment.keys[i + 1].clone()
        } else {
            PublicKey { data: Vec::new() }
        };
        let comp = if i + 1 < segment.keys.len() {
            Component::Routing
        } else {
            segment.recipient
        };
        let elem = RouteElement {
            public_key: next_key,
            component: comp,
            consuming_wallet: match consuming_wallet {
                Some(w) => Some(w.clone()),
                None => None,
            },
        };
        proof {
            assert(elem.public_key@ == seg_elem_key(kv, i as int));
            assert(elem_sizes_ok(elem.public_key@, wallet_opt_view(elem.consuming_wallet)));
        }
        let elem_bytes = match elem.encode() {
            Some(b) => b,
            None => {
                proof {
                    assert(false);
                }
                return Err(RouteError::UnserializableWallet);
            },
        };
        let ct = match cryptde.encode(&segment.keys[i], elem_bytes.as_slice()) {
            Ok(c) => c,
            Err(_) => {
                proof {
                    assert(false);
                }
                return Err(RouteError::EmptyKey);
            },
        };
        hops.push(ct);
        i = i + 1;
        proof {
            assert(hops@.subrange(0, old(hops)@.len() as int) =~= old(hops)@);
            assert(hops@[old(hops)@.len() + (i - 1)]@ == route_hops(kv, segment.recipient, wv)[i
                - 1]);
        }
    }
    proof {
        if seg_error(kv, wv) is Some {
            let j = choose|j: int| 0 <= j < kv.len() && (#[trigger] kv[j]).len() == 0;
            assert(kv[j].len() > 0);
        }
    }
    Ok(())
}

impl Route {
    /// A route along one segment: the caller's envelope only addresses hops,
    /// so any envelope will do.
    pub fn one_way(segment: &RouteSegment, cryptde: &CryptDENull, consuming_wallet: &Option<Wallet>) -> (r:
        Result<Route, RouteError>)
        requires
            keys_sizes_ok(keys_view(segment.keys@)),
            elem_sizes_ok(Seq::<u8>::empty(), wallet_opt_view(*consuming_wallet)),
        ensures
            (match seg_error(keys_view(segment.keys@), wallet_opt_view(*consuming_wallet)) {
                Some(e) => r == Err::<Route, RouteError>(e),
                None => r matches Ok(route) && route@ == route_hops(
                    keys_view(segment.keys@),
                    segment.recipient,
                    wallet_opt_view(*consuming_wallet),
                ),
            }),
    {
        let mut hops: Vec<CryptData> = Vec::new();
        match build_segment_hops(segment, cryptde, consuming_wallet, &mut hops) {
            Ok(()) => {
                let route = Route { hops };
                proof {
                    assert(route@ =~= route_hops(
                        keys_view(segment.keys@),
                        segment.recipient,
                        wallet_opt_view(*consuming_wallet),
                    ));
                }
                Ok(route)
            },
            Err(e) => Err(e),
        }
    }

    /// A route out along `over` and back along `back`: the outbound hops,
    /// then the return hops, which the exit uses to address responses.
    pub fn round_trip(
        over: &RouteSegment,
        back: &RouteSegment,
        cryptde: &CryptDENull,
        consuming_wallet: &Option<Wallet>,
    ) -> (r: Result<Route, RouteError>)
        requires
            keys_sizes_ok(keys_view(over.keys@)),
            keys_sizes_ok(keys_view(back.keys@)),
            elem_sizes_ok(Seq::<u8>::empty(), wallet_opt_view(*consuming_wallet)),
        ensures
            (match seg_error(keys_view(over.keys@), wallet_opt_view(*consuming_wallet)) {
                Some(e) => r == Err::<Route, RouteError>(e),
                None => (match seg_error(
                    keys_view(back.keys@),
                    wallet_opt_view(*consuming_wallet),
                ) {
                    Some(e) => r == Err::<Route, RouteError>(e),
                    None => r matches Ok(route) && route@ == route_hops(
                        keys_view(over.keys@),
                        over.recipient,
                        wallet_opt_view(*consuming_wallet),
                    ) + route_hops(
                        keys_view(back.keys@),
                        back.recipient,
                        wallet_opt_view(*consuming_wallet),
                    ),
                }),
            }),
    {
        let mut hops: Vec<CryptData> = Vec::new();
        match build_segment_hops(over, cryptde, consuming_wallet, &mut hops) {
            Ok(()) => {},
            Err(e) => {
                return Err(e);
            },
        }
        match build_segment_hops(back, cryptde, consuming_wallet, &mut hops) {
            Ok(()) => {},
            Err(e) => {
                return Err(e);
            },
        }
        let route = Route { hops };
        proof {
            assert(route@ =~= route_hops(
                keys_view(over.keys@),
                over.recipient,
                wallet_opt_view(*consuming_wallet),
            ) + route_hops(
                keys_view(back.keys@),
                back.recipient,
                wallet_opt_view(*consuming_wallet),
            ));
        }
        Ok(route)
    }
}


} // verus!
