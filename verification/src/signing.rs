use vstd::prelude::*;
use crate::crypto::{PubkeyType, SignatureType};
use crate::errors::SignError;

verus! {

/// Whether `ed25519_dalek`'s `verify` accepts `signature` on `message` under
/// the key that the bytes `pubkey` decode to.
pub uninterp spec fn ed25519_verify(pubkey: Seq<u8>, message: Seq<u8>, signature: Seq<u8>) -> bool;

/// Whether `ed25519_dalek::VerifyingKey::from_bytes` accepts `pubkey`, that
/// is, whether the bytes decode to a curve point.
pub uninterp spec fn ed25519_key_valid(pubkey: Seq<u8>) -> bool;

/// Whether a signature checks out with `ed25519_dalek`: the key decodes and
/// the signature verifies under it.
pub open spec fn ed25519_accepts(pubkey: Seq<u8>, message: Seq<u8>, signature: Seq<u8>) -> bool {
    ed25519_key_valid(pubkey) && ed25519_verify(pubkey, message, signature)
}

/// The public key bytes of the Ed25519 signing key made from `seed`.
pub uninterp spec fn ed25519_public_key(seed: Seq<u8>) -> Seq<u8>;

/// The Ed25519 signature of `message` by the signing key made from `seed`.
pub uninterp spec fn ed25519_signature(seed: Seq<u8>, message: Seq<u8>) -> Seq<u8>;

/// Calls `ed25519_dalek::VerifyingKey::from_bytes` and then its `verify`;
/// a key that does not decode is an error and gives `false`.
/// Trusted: the result is `false` when the key does not decode
/// (`ed25519_key_valid`), else `ed25519_verify` of the three byte strings.
#[verifier::external_body]
fn dalek_verify(pubkey: &PubkeyType, data: &[u8], signature: &SignatureType) -> (res: bool)
    ensures
        res == (ed25519_key_valid(pubkey@) && ed25519_verify(pubkey@, data@, signature@)),
{
    match ed25519_dalek::VerifyingKey::from_bytes(pubkey) {
        Ok(vk) => ed25519_dalek::Verifier::verify(
            &vk,
            data,
            &ed25519_dalek::Signature::from_bytes(signature),
        ).is_ok(),
        Err(_) => false,
    }
}

/// Signs `data` with `ed25519_dalek::SigningKey::from_bytes(seed)`.
/// Trusted: the bytes are `ed25519_signature(seed, data)`, and, as the crate
/// documents, the verifying key of that signing key accepts them.
#[verifier::external_body]
fn dalek_sign(seed: &[u8; 32], data: &[u8]) -> (res: SignatureType)
    ensures
        res@ == ed25519_signature(seed@, data@),
        ed25519_verify(ed25519_public_key(seed@), data@, res@),
{
    ed25519_dalek::Signer::sign(&ed25519_dalek::SigningKey::from_bytes(seed), data).to_bytes()
}

/// The Ed25519 signature of `data` by the key made from `seed`.
pub fn sign_with_seed(seed: &[u8; 32], data: &[u8]) -> (res: SignatureType)
    ensures
        res@ == ed25519_signature(seed@, data@),
        ed25519_verify(ed25519_public_key(seed@), data@, res@),
{
    dalek_sign(seed, data)
}

/// The public key of the Ed25519 key made from `seed`, computed with
/// `ed25519_dalek::SigningKey::from_bytes(..).verifying_key().to_bytes()`.
/// Trusted: the bytes are `ed25519_public_key(seed)`, and they decode as a
/// key (`ed25519_key_valid`): they are the compression of a curve point.
#[verifier::external_body]
pub fn pubkey_from_seed(seed: [u8; 32]) -> (res: PubkeyType)
    ensures
        res@ == ed25519_public_key(seed@),
        ed25519_key_valid(res@),
{
    ed25519_dalek::SigningKey::from_bytes(&seed).verifying_key().to_bytes()
}

/// Something that can sign block headers.
pub trait Signer {
    /// Whether this signer holds a key.
    spec fn can_sign(&self) -> bool;

    /// The signature it produces on `data`.
    spec fn signature_of(&self, data: Seq<u8>) -> Seq<u8>;

    /// Whether `signature` on `data` checks out under this signer's own
    /// public key.
    spec fn verifies_under_own_key(&self, data: Seq<u8>, signature: Seq<u8>) -> bool;

    fn sign(&self, data: &[u8]) -> (res: Result<SignatureType, SignError>)
        ensures
            res is Ok <==> self.can_sign(),
            res matches Ok(sig) ==> sig@ == self.signature_of(data@)
                && self.verifies_under_own_key(data@, sig@),
            res matches Err(e) ==> e == SignError::NotValidator,
    ;
}

/// Something that checks signatures against public keys.
pub trait Verifier {
    /// Whether `signature` is accepted on `data` under `pubkey`.
    spec fn accepts(&self, pubkey: Seq<u8>, data: Seq<u8>, signature: Seq<u8>) -> bool;

    fn verify(&self, pubkey: &PubkeyType, data: &[u8], signature: &SignatureType) -> (res: bool)
        ensures
            res == self.accepts(pubkey@, data@, signature@),
    ;
}

/// An Ed25519 signer holding the seed of its key.
pub struct Ed25519Signer {
    seed: [u8; 32],
}

impl Ed25519Signer {
    /// The seed the key is made from.
    pub closed spec fn spec_seed(&self) -> Seq<u8> {
        self.seed@
    }

    /// A signer for the key made from `seed`.
    pub fn new_from_seed(seed: [u8; 32]) -> (res: Self)
        ensures
            res.spec_seed() == seed@,
    {
        Ed25519Signer { seed }
    }

    /// The public key of the signer.
    pub fn pubkey(&self) -> (res: PubkeyType)
        ensures
            res@ == ed25519_public_key(self.spec_seed()),
    {
        pubkey_from_seed(self.seed)
    }
}

impl Signer for Ed25519Signer {
    open spec fn can_sign(&self) -> bool {
        true
    }

    open spec fn signature_of(&self, data: Seq<u8>) -> Seq<u8> {
        ed25519_signature(self.spec_seed(), data)
    }

    open spec fn verifies_under_own_key(&self, data: Seq<u8>, signature: Seq<u8>) -> bool {
        ed25519_verify(ed25519_public_key(self.spec_seed()), data, signature)
    }

    fn sign(&self, data: &[u8]) -> (res: Result<SignatureType, SignError>) {
        Ok(dalek_sign(&self.seed, data))
    }
}

/// Checks Ed25519 signatures with `ed25519_dalek`.
#[derive(Default)]
pub struct Ed25519Verifier;

impl Verifier for Ed25519Verifier {
    open spec fn accepts(&self, pubkey: Seq<u8>, data: Seq<u8>, signature: Seq<u8>) -> bool {
        ed25519_accepts(pubkey, data, signature)
    }

    fn verify(&self, pubkey: &PubkeyType, data: &[u8], signature: &SignatureType) -> (res: bool) {
        dalek_verify(pubkey, data, signature)
    }
}

} // verus!
