//! Account identities and signatures as plain bytes, with the checks and
//! encodings that the ed25519 and base58 libraries perform on them.
use crate::codec::{BytesDeserialize, BytesSerialize};
use crate::err::GulfStreamError;
use vstd::prelude::*;
use vstd::slice::slice_subrange;
use ed25519_dalek::Digest;

verus! {

/// Whether 32 bytes are the compressed form of a point on the ed25519 curve.
pub uninterp spec fn is_edwards_point(b: Seq<u8>) -> bool;

/// The base58 text of a byte string.
pub uninterp spec fn base58_text(b: Seq<u8>) -> Seq<char>;

/// The bytes that a base58 text stands for, when it is well formed.
pub uninterp spec fn base58_bytes(s: Seq<char>) -> Option<Seq<u8>>;

/// Whether `sig` is an Ed25519ph signature (SHA-512 prehash, empty context)
/// of `msg` under the public key `key`.
pub uninterp spec fn ed25519ph_verifies(key: Seq<u8>, msg: Seq<u8>, sig: Seq<u8>) -> bool;

/// Relies on `ed25519_dalek::PublicKey::from_bytes`: it accepts exactly the
/// 32-byte strings that decompress to a curve point.
#[verifier::external_body]
fn decompresses(b: &[u8]) -> (r: bool)
    ensures
        r == (b@.len() == 32 && is_edwards_point(b@)),
{
    ed25519_dalek::PublicKey::from_bytes(b).is_ok()
}

/// Relies on `ed25519_dalek::Signature::from_bytes`: it accepts exactly the
/// 64-byte strings whose last byte has its three high bits clear.
#[verifier::external_body]
fn signature_parses(b: &[u8]) -> (r: bool)
    ensures
        r == sig_ok(b@),
{
    ed25519_dalek::Signature::from_bytes(b).is_ok()
}

/// Relies on `bs58::encode(..).into_string()`.
#[verifier::external_body]
fn base58_encode(b: &[u8]) -> (r: String)
    ensures
        r@ == base58_text(b@),
{
    bs58::encode(b).into_string()
}

/// Relies on `bs58::decode(..).into_vec()`: the bytes, or an error on text
/// that is not base58.
#[verifier::external_body]
fn base58_decode(s: &str) -> (r: Option<Vec<u8>>)
    ensures
        match r {
            Some(v) => base58_bytes(s@) == Some(v@),
            None => base58_bytes(s@) is None,
        },
{
    bs58::decode(s).into_vec().ok()
}

/// Relies on `ed25519_dalek::PublicKey::verify_prehashed` with a SHA-512
/// prehash of `msg` and no context; keys and signatures that do not parse
/// are refused.
#[verifier::external_body]
fn verify_ed25519ph(key: &[u8], msg: &[u8], sig: &[u8]) -> (r: bool)
    ensures
        r == ed25519ph_verifies(key@, msg@, sig@),
{
    let key = match ed25519_dalek::PublicKey::from_bytes(key) {
        Ok(k) => k,
        Err(_) => return false,
    };
    let sig = match ed25519_dalek::Signature::from_bytes(sig) {
        Ok(s) => s,
        Err(_) => return false,
    };
    let mut prehashed = ed25519_dalek::Sha512::new();
    prehashed.update(msg);
    key.verify_prehashed(prehashed, None, &sig).is_ok()
}

/// The bytes of a usable public key.
pub open spec fn key_ok(k: Seq<u8>) -> bool {
    k.len() == 32 && is_edwards_point(k)
}

/// The bytes of a usable signature.
pub open spec fn sig_ok(s: Seq<u8>) -> bool {
    s.len() == 64 && s[63] & 0xe0u8 == 0
}

/// Byte-wise equality.
pub fn bytes_eq(a: &[u8], b: &[u8]) -> (r: bool)
    ensures
        r == (a@ == b@),
{
    if a.len() != b.len() {
        return false;
    }
    let mut i: usize = 0;
    while i < a.len()
        invariant
            a@.len() == b@.len(),
            i <= a@.len(),
            forall|j: int| 0 <= j < i ==> a@[j] == b@[j],
        decreases a@.len() - i,
    {
        if a[i] != b[i] {
            return false;
        }
        i = i + 1;
    }
    assert(a@ =~= b@);
    true
}

/// A copy of a byte vector.
pub fn copy_bytes(b: &Vec<u8>) -> (r: Vec<u8>)
    ensures
        r@ == b@,
{
    crate::codec::copy_range(b.as_slice(), 0, b.len())
}

/// An account identity: the 32 bytes of an ed25519 verifying key.
#[derive(Debug)]
pub struct PublicKey {
    bytes: Vec<u8>,
}

impl View for PublicKey {
    type V = Seq<u8>;

    closed spec fn view(&self) -> Seq<u8> {
        self.bytes@
    }
}

impl Clone for PublicKey {
    fn clone(&self) -> (r: Self)
        ensures
            r@ == self@,
    {
        PublicKey { bytes: copy_bytes(&self.bytes) }
    }
}

impl PartialEq for PublicKey {
    fn eq(&self, o: &PublicKey) -> (r: bool) {
        bytes_eq(self.bytes.as_slice(), o.bytes.as_slice())
    }
}

impl vstd::std_specs::cmp::PartialEqSpecImpl for PublicKey {
    open spec fn obeys_eq_spec() -> bool {
        true
    }

    open spec fn eq_spec(&self, o: &PublicKey) -> bool {
        self@ == o@
    }
}

impl Eq for PublicKey {}

/// The bytes of the compressed identity point: 1, then 31 zeros.
pub open spec fn identity_key_bytes() -> Seq<u8> {
    seq![1u8].add(Seq::new(31, |i: int| 0u8))
}

/// Relies on `ed25519_dalek::PublicKey::default()`, which holds the identity
/// point: its compressed bytes are those of `CompressedEdwardsY::identity()`,
/// and they decompress to that point.
#[verifier::external_body]
fn default_key_bytes() -> (r: Vec<u8>)
    ensures
        r@ == identity_key_bytes(),
        is_edwards_point(r@),
{
    ed25519_dalek::PublicKey::default().as_bytes().to_vec()
}

impl Default for PublicKey {
    /// The ed25519 library's default key, the compressed identity point.
    fn default() -> (r: Self)
        ensures
            r@ == identity_key_bytes(),
            key_ok(r@),
    {
        PublicKey { bytes: default_key_bytes() }
    }
}

impl PublicKey {
    /// The key held in `b`, which must be 32 bytes naming a curve point.
    pub fn from_bytes(b: &[u8]) -> (r: Result<PublicKey, GulfStreamError>)
        ensures
            r is Ok <==> key_ok(b@),
            r matches Ok(k) ==> k@ == b@,
    {
        if decompresses(b) {
            Ok(PublicKey { bytes: crate::codec::copy_range(b, 0, b.len()) })
        } else {
            Err(GulfStreamError::SerDeError("Publickey".to_string()))
        }
    }

    /// The raw key bytes.
    pub fn as_bytes(&self) -> (r: &[u8])
        ensures
            r@ == self@,
    {
        self.bytes.as_slice()
    }

    /// The base58 text of the key.
    pub fn into_string(&self) -> (r: String)
        ensures
            r@ == base58_text(self@),
    {
        base58_encode(self.bytes.as_slice())
    }
}

impl BytesSerialize for PublicKey {
    open spec fn encoding(v: Seq<u8>) -> Seq<u8> {
        v
    }

    fn serialize(&self) -> (r: Vec<u8>) {
        copy_bytes(&self.bytes)
    }
}

impl BytesDeserialize for PublicKey {
    open spec fn decoding(buf: Seq<u8>) -> Option<(Seq<u8>, nat)> {
        if buf.len() >= 32 && key_ok(buf.subrange(0, 32)) {
            Some((buf.subrange(0, 32), 32))
        } else {
            None
        }
    }

    fn deserialize(buf: &[u8]) -> (r: Result<(PublicKey, usize), GulfStreamError>) {
        if buf.len() < 32 {
            return Err(GulfStreamError::SerDeError("Publickey".to_string()));
        }
        match PublicKey::from_bytes(slice_subrange(buf, 0, 32)) {
            Ok(k) => Ok((k, 32)),
            Err(e) => Err(e),
        }
    }
}

/// A 64-byte ed25519 signature.
#[derive(Debug)]
pub struct Signature {
    bytes: Vec<u8>,
}

impl View for Signature {
    type V = Seq<u8>;

    closed spec fn view(&self) -> Seq<u8> {
        self.bytes@
    }
}

impl Clone for Signature {
    fn clone(&self) -> (r: Self)
        ensures
            r@ == self@,
    {
        Signature { bytes: copy_bytes(&self.bytes) }
    }
}

impl PartialEq for Signature {
    fn eq(&self, o: &Signature) -> (r: bool) {
        bytes_eq(self.bytes.as_slice(), o.bytes.as_slice())
    }
}

impl vstd::std_specs::cmp::PartialEqSpecImpl for Signature {
    open spec fn obeys_eq_spec() -> bool {
        true
    }

    open spec fn eq_spec(&self, o: &Signature) -> bool {
        self@ == o@
    }
}

impl Eq for Signature {}

/// The bytes of the default signature, whose base58 text is
/// "4K9HxzmBv5ALfq9nMZS7jewM5XbBqFEgkKxpW3j7gExPmmACAaFY7kdFfUvt1W7oPkPHPtGgWWH6XjT1g17cT2wZ".
pub open spec fn default_signature_bytes() -> Seq<u8> {
    seq![
        165u8, 178, 97, 249, 131, 110, 154, 133, 194, 108, 53, 230, 243, 183, 236, 84, 28, 189,
        244, 189, 214, 22, 5, 247, 81, 23, 61, 185, 137, 14, 90, 28, 164, 108, 193, 113, 102, 112,
        194, 240, 97, 211, 215, 170, 132, 98, 59, 149, 53, 57, 80, 230, 196, 209, 190, 184, 142,
        201, 55, 240, 106, 106, 114, 0,
    ]
}

impl Default for Signature {
    fn default() -> (r: Self)
        ensures
            r@ == default_signature_bytes(),
            sig_ok(r@),
    {
        let bytes: Vec<u8> = vec![
            165u8, 178, 97, 249, 131, 110, 154, 133, 194, 108, 53, 230, 243, 183, 236, 84, 28, 189,
            244, 189, 214, 22, 5, 247, 81, 23, 61, 185, 137, 14, 90, 28, 164, 108, 193, 113, 102,
            112, 194, 240, 97, 211, 215, 170, 132, 98, 59, 149, 53, 57, 80, 230, 196, 209, 190,
            184, 142, 201, 55, 240, 106, 106, 114, 0,
        ];
        assert(bytes@ =~= default_signature_bytes());
        assert(0u8 & 0xe0u8 == 0) by (bit_vector);
        Signature { bytes }
    }
}

impl Signature {
    /// The signature held in `b`: 64 bytes whose scalar half is partly reduced.
    pub fn from_bytes(b: &[u8]) -> (r: Result<Signature, GulfStreamError>)
        ensures
            r is Ok <==> sig_ok(b@),
            r matches Ok(s) ==> s@ == b@,
    {
        if signature_parses(b) {
            Ok(Signature { bytes: crate::codec::copy_range(b, 0, b.len()) })
        } else {
            Err(GulfStreamError::SerDeError("Signature".to_string()))
        }
    }

    /// The raw signature bytes.
    pub fn as_bytes(&self) -> (r: &[u8])
        ensures
            r@ == self@,
    {
        self.bytes.as_slice()
    }

    /// The base58 text of the signature.
    pub fn into_string(&self) -> (r: String)
        ensures
            r@ == base58_text(self@),
    {
        base58_encode(self.bytes.as_slice())
    }

    /// The signature whose base58 text is `s`.
    pub fn try_from_str(s: &str) -> (r: Result<Signature, GulfStreamError>)
        ensures
            r is Ok <==> (base58_bytes(s@) matches Some(b) && sig_ok(b)),
            r matches Ok(sig) ==> base58_bytes(s@) == Some(sig@),
    {
        match base58_decode(s) {
            Some(bytes) => Signature::from_bytes(bytes.as_slice()),
            None => Err(GulfStreamError::SerDeError("Signature".to_string())),
        }
    }

    /// Whether this is a signature of `msg` by `key`.
    pub fn verifies(&self, key: &PublicKey, msg: &[u8]) -> (r: bool)
        ensures
            r == ed25519ph_verifies(key@, msg@, self@),
    {
        verify_ed25519ph(key.as_bytes(), msg, self.bytes.as_slice())
    }
}

impl BytesSerialize for Signature {
    open spec fn encoding(v: Seq<u8>) -> Seq<u8> {
        v
    }

    fn serialize(&self) -> (r: Vec<u8>) {
        copy_bytes(&self.bytes)
    }
}

impl BytesDeserialize for Signature {
    open spec fn decoding(buf: Seq<u8>) -> Option<(Seq<u8>, nat)> {
        if buf.len() >= 64 && sig_ok(buf.subrange(0, 64)) {
            Some((buf.subrange(0, 64), 64))
        } else {
            None
        }
    }

    fn deserialize(buf: &[u8]) -> (r: Result<(Signature, usize), GulfStreamError>) {
        if buf.len() < 64 {
            return Err(GulfStreamError::SerDeError("Signature".to_string()));
        }
        match Signature::from_bytes(slice_subrange(buf, 0, 64)) {
            Ok(s) => Ok((s, 64)),
            Err(e) => Err(e),
        }
    }
}

/// A key reads back as itself from its encoding, whatever follows it.
pub proof fn lemma_public_key_round_trip(k: Seq<u8>, rest: Seq<u8>)
    requires
        key_ok(k),
    ensures
        PublicKey::decoding(PublicKey::encoding(k) + rest) == Some((k, 32nat)),
{
    assert((k + rest).subrange(0, 32) =~= k);
}

/// A signature reads back as itself from its encoding, whatever follows it.
pub proof fn lemma_signature_round_trip(s: Seq<u8>, rest: Seq<u8>)
    requires
        sig_ok(s),
    ensures
        Signature::decoding(Signature::encoding(s) + rest) == Some((s, 64nat)),
{
    assert((s + rest).subrange(0, 64) =~= s);
}

} // verus!
