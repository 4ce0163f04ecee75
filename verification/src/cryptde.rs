//! The cryptographic data envelope in its deterministic, key-derivable form:
//! encryption prepends the target key, decryption checks and strips the local
//! key, and a signature is the signer's key followed by the signed bytes.
//! Every operation is reversible, so the envelope algebra (peel after wrap is
//! the identity) is proved rather than assumed.

use vstd::prelude::*;

use crate::bytes_util::{bytes_eq, copy_range, push_all, starts_with};

verus! {

/// Why an envelope operation was refused.
#[derive(Clone, Copy, Debug, PartialEq, Eq, Structural)]
pub enum CryptdeError {
    EmptyKey,
    InvalidKey,
    InvalidSignature,
}

/// A node's identity: an opaque byte string, equal by bytes.
#[derive(Debug, PartialEq, Eq, Hash)]
pub struct PublicKey {
    pub data: Vec<u8>,
}

impl Clone for PublicKey {
    fn clone(&self) -> (r: Self)
        ensures
            r@ == self@,
    {
        let data = clone_bytes(&self.data);
        PublicKey { data }
    }
}

impl View for PublicKey {
    type V = Seq<u8>;

    open spec fn view(&self) -> Seq<u8> {
        self.data@
    }
}

impl PublicKey {
    pub fn new(data: &[u8]) -> (r: PublicKey)
        ensures
            r@ == data@,
    {
        PublicKey { data: vstd::slice::slice_to_vec(data) }
    }

    pub fn is_empty(&self) -> (r: bool)
        ensures
            r == (self@.len() == 0),
    {
        self.data.len() == 0
    }
}

/// Byte-for-byte copy of a byte vector, stated so in its contract.
pub fn clone_bytes(v: &Vec<u8>) -> (r: Vec<u8>)
    ensures
        r@ == v@,
{
    let r = v.clone();
    proof {
        assert(r@ =~= v@);
    }
    r
}

/// Ciphertext, or a signature: opaque bytes on the wire.
#[derive(Debug, PartialEq, Eq)]
pub struct CryptData {
    pub data: Vec<u8>,
}

impl Clone for CryptData {
    fn clone(&self) -> (r: Self)
        ensures
            r@ == self@,
    {
        CryptData { data: clone_bytes(&self.data) }
    }
}

impl View for CryptData {
    type V = Seq<u8>;

    open spec fn view(&self) -> Seq<u8> {
        self.data@
    }
}

impl CryptData {
    pub fn new(data: &[u8]) -> (r: CryptData)
        ensures
            r@ == data@,
    {
        CryptData { data: vstd::slice::slice_to_vec(data) }
    }
}

/// Ciphertext under `key` in the null scheme: the key, then the plaintext.
pub open spec fn null_ciphertext(key: Seq<u8>, plain: Seq<u8>) -> Seq<u8> {
    key + plain
}

/// What decoding a ciphertext with the local key yields.
pub open spec fn null_plaintext(key: Seq<u8>, cipher: Seq<u8>) -> Result<Seq<u8>, CryptdeError> {
    if key.len() == 0 {
        Err(CryptdeError::EmptyKey)
    } else if cipher.len() >= key.len() && cipher.subrange(0, key.len() as int) == key {
        Ok(cipher.skip(key.len() as int))
    } else {
        Err(CryptdeError::InvalidKey)
    }
}

/// The deterministic envelope implementation. Its private key equals its
/// public key, so any party that knows a key can reproduce (and undo) what
/// that key's owner would produce: exactly what the protocol's reversible
/// test scheme calls for.
#[derive(Debug)]
pub struct CryptDENull {
    key: PublicKey,
}

impl Clone for CryptDENull {
    fn clone(&self) -> (r: Self)
        ensures
            r.spec_key() == self.spec_key(),
    {
        CryptDENull { key: self.key.clone() }
    }
}

impl CryptDENull {
    /// An envelope over an arbitrary fixed key.
    pub fn new() -> (r: CryptDENull)
        ensures
            r.spec_key() == seq![78u8, 85u8, 76u8, 76u8],
    {
        let key = PublicKey { data: vec![78u8, 85u8, 76u8, 76u8] };
        CryptDENull { key }
    }

    /// An envelope whose identity is `key`.
    pub fn from(key: &PublicKey) -> (r: CryptDENull)
        ensures
            r.spec_key() == key@,
    {
        CryptDENull { key: key.clone() }
    }

    pub closed spec fn spec_key(&self) -> Seq<u8> {
        self.key@
    }

    pub fn public_key(&self) -> (r: PublicKey)
        ensures
            r@ == self.spec_key(),
    {
        self.key.clone()
    }

    /// Encrypt `plain` to the holder of `key`.
    pub fn encode(&self, key: &PublicKey, plain: &[u8]) -> (r: Result<CryptData, CryptdeError>)
        ensures
            key@.len() == 0 ==> r == Err::<CryptData, CryptdeError>(CryptdeError::EmptyKey),
            key@.len() > 0 ==> r is Ok && r->Ok_0@ == null_ciphertext(key@, plain@),
    {
        if key.data.len() == 0 {
            return Err(CryptdeError::EmptyKey);
        }
        let mut out: Vec<u8> = Vec::new();
        push_all(&mut out, key.data.as_slice());
        push_all(&mut out, plain);
        Ok(CryptData { data: out })
    }

    /// Decrypt a ciphertext addressed to this envelope's own key.
    pub fn decode(&self, cipher: &CryptData) -> (r: Result<Vec<u8>, CryptdeError>)
        ensures
            (match r {
                Ok(plain) => null_plaintext(self.spec_key(), cipher@) == Ok::<Seq<u8>, CryptdeError>(plain@),
                Err(e) => null_plaintext(self.spec_key(), cipher@) == Err::<Seq<u8>, CryptdeError>(e),
            }),
    {
        if self.key.data.len() == 0 {
            return Err(CryptdeError::EmptyKey);
        }
        if !starts_with(&cipher.data, &self.key.data) {
            return Err(CryptdeError::InvalidKey);
        }
        let plain = copy_range(&cipher.data, self.key.data.len(), cipher.data.len());
        proof {
            assert(cipher@.skip(self.spec_key().len() as int) =~= cipher@.subrange(
                self.spec_key().len() as int,
                cipher@.len() as int,
            ));
        }
        Ok(plain)
    }

    /// Sign `data` with this envelope's own key.
    pub fn sign(&self, data: &[u8]) -> (r: CryptData)
        ensures
            r@ == null_ciphertext(self.spec_key(), data@),
    {
        let mut out: Vec<u8> = Vec::new();
        push_all(&mut out, self.key.data.as_slice());
        push_all(&mut out, data);
        CryptData { data: out }
    }

    /// Check a signature allegedly produced by the holder of `key` over `data`.
    pub fn verify(&self, key: &PublicKey, data: &[u8], signature: &CryptData) -> (r: bool)
        ensures
            r == (signature@ == null_ciphertext(key@, data@)),
    {
        let mut expected: Vec<u8> = Vec::new();
        push_all(&mut expected, key.data.as_slice());
        push_all(&mut expected, data);
        bytes_eq(&signature.data, &expected)
    }
}

/// Decrypting what was encrypted to one's own key gives the plaintext back.
pub proof fn lemma_null_round_trip(key: Seq<u8>, plain: Seq<u8>)
    requires
        key.len() > 0,
    ensures
        null_plaintext(key, null_ciphertext(key, plain)) == Ok::<Seq<u8>, CryptdeError>(plain),
{
    let cipher = null_ciphertext(key, plain);
    assert(cipher.subrange(0, key.len() as int) =~= key);
    assert(cipher.skip(key.len() as int) =~= plain);
}

/// Re-encrypting what a ciphertext decrypted to restores the ciphertext.
pub proof fn lemma_null_reencrypt(key: Seq<u8>, cipher: Seq<u8>, plain: Seq<u8>)
    requires
        null_plaintext(key, cipher) == Ok::<Seq<u8>, CryptdeError>(plain),
    ensures
        null_ciphertext(key, plain) == cipher,
{
    assert(null_ciphertext(key, cipher.skip(key.len() as int)) =~= cipher);
}

} // verus!
