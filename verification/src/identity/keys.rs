//! The kernel's Ed25519 signing identity, used for effect receipts.
use ed25519_dalek::{Signer, Verifier};
use vstd::prelude::*;
use vstd::utf8::encode_utf8;
use crate::broker::effects::{EffectBroker, ReceiptSigner};
use crate::effect::ReceiptView;
use crate::hash::{canonical, canonical_json, decode_hex, digest, encode_hex, hex_error, hex_text, hex_value, law_hex_round_trip, sha256};
use crate::identity::error::{IdentityError, IdentityResult};
use crate::identity::sealing::key_error;
use crate::json::{Json, Value};
use crate::lines::{trim, trimmed};
use crate::text;

verus! {

/// The public key of a seed.
pub uninterp spec fn public_of(seed: Seq<u8>) -> Seq<u8>;

/// The signature of a message under a seed.
pub uninterp spec fn signature_of(seed: Seq<u8>, message: Seq<u8>) -> Seq<u8>;

/// The signature verifies for the message under the public key.
pub uninterp spec fn verifies(public_key: Seq<u8>, message: Seq<u8>, signature: Seq<u8>) -> bool;

/// `ed25519_dalek::SigningKey::generate` with the system's random numbers, and
/// `to_bytes`: the secret seed of a fresh key. Nothing is said of which one; it
/// panics where the system has no random numbers to give.
#[verifier::external_body]
fn fresh_seed() -> (r: Vec<u8>)
    ensures
        r@.len() == 32,
{
    ed25519_dalek::SigningKey::generate(&mut rand::rngs::OsRng).to_bytes().to_vec()
}

/// `ed25519_dalek::SigningKey::verifying_key`: the public key of the seed,
/// thirty-two bytes long.
#[verifier::external_body]
fn derive_public(seed: &Vec<u8>) -> (r: Vec<u8>)
    requires
        seed@.len() == 32,
    ensures
        r@ == public_of(seed@),
        r@.len() == 32,
{
    let seed: [u8; 32] = seed.as_slice().try_into().unwrap();
    ed25519_dalek::SigningKey::from_bytes(&seed).verifying_key().to_bytes().to_vec()
}

/// `ed25519_dalek::SigningKey::sign`: a signature of sixty-four bytes, which
/// verifies for the message under the seed's public key.
#[verifier::external_body]
fn sign_bytes(seed: &Vec<u8>, message: &[u8]) -> (r: Vec<u8>)
    requires
        seed@.len() == 32,
    ensures
        r@ == signature_of(seed@, message@),
        r@.len() == 64,
        verifies(public_of(seed@), message@, r@),
{
    let seed: [u8; 32] = seed.as_slice().try_into().unwrap();
    ed25519_dalek::SigningKey::from_bytes(&seed).sign(message).to_bytes().to_vec()
}

/// `ed25519_dalek::VerifyingKey::verify`: whether the signature verifies. Bytes
/// that are no public key verify nothing.
#[verifier::external_body]
fn verify_bytes(public_key: &Vec<u8>, message: &[u8], signature: &Vec<u8>) -> (r: bool)
    requires
        public_key@.len() == 32,
        signature@.len() == 64,
    ensures
        r == verifies(public_key@, message@, signature@),
{
    let key: [u8; 32] = public_key.as_slice().try_into().unwrap();
    let signature: [u8; 64] = signature.as_slice().try_into().unwrap();
    let signature = ed25519_dalek::Signature::from_bytes(&signature);
    match ed25519_dalek::VerifyingKey::from_bytes(&key) {
        Ok(k) => k.verify(message, &signature).is_ok(),
        Err(_) => false,
    }
}

/// The kernel's Ed25519 keypair.
///
/// Receipts (and any other kernel attestations) are signed over the canonical
/// JSON encoding of the value: keys sorted, compact separators. This makes
/// signatures stable across serializer implementations and field ordering.
///
/// The key id is `ed25519:<sha256-hex-of-public-key-bytes>`, so verifiers can
/// address keys without ever shipping the private half.
pub struct KernelKeypair {
    seed: Vec<u8>,
}

/// The public half of a [`KernelKeypair`].
#[derive(Debug)]
pub struct VerifyingKey {
    bytes: Vec<u8>,
}

impl VerifyingKey {
    /// The key's bytes.
    pub closed spec fn view(&self) -> Seq<u8> {
        self.bytes@
    }

    #[verifier::type_invariant]
    spec fn inv(self) -> bool {
        self.bytes@.len() == 32
    }
}

/// The identifier of a public key.
pub open spec fn key_id_of(public_key: Seq<u8>) -> Seq<char> {
    "ed25519:"@ + hex_text(sha256(public_key))
}

/// The seed in the text of a key file, or why there is none.
pub open spec fn seed_in(t: Seq<char>) -> Result<Seq<u8>, Seq<char>> {
    match hex_value(trimmed(t)) {
        Some(bytes) => if bytes.len() == 32 {
            Ok(bytes)
        } else {
            Err("key file must contain exactly 32 bytes"@)
        },
        None => Err("key file is not valid hex: "@ + hex_error(trimmed(t))),
    }
}

/// What verifying a signature in hexadecimal over a value gives, or why it
/// cannot be done.
pub open spec fn verification(public_key: Seq<u8>, value: Json, signature_hex: Seq<char>) -> Result<
    bool,
    Seq<char>,
> {
    match hex_value(signature_hex) {
        Some(sig) => if sig.len() == 64 {
            Ok(verifies(public_key, encode_utf8(canonical(value)), sig))
        } else {
            Err("signature must be 64 bytes"@)
        },
        None => Err("signature is not valid hex: "@ + hex_error(signature_hex)),
    }
}

impl KernelKeypair {
    /// The secret seed.
    pub closed spec fn seed(&self) -> Seq<u8> {
        self.seed@
    }

    #[verifier::type_invariant]
    spec fn inv(self) -> bool {
        self.seed@.len() == 32
    }

    /// Generate a fresh random keypair.
    pub fn generate() -> (r: Self)
        ensures
            r.seed().len() == 32,
    {
        KernelKeypair { seed: fresh_seed() }
    }

    /// The keypair in the text of a key file, where there is one, else a new
    /// keypair, and its text to persist.
    pub fn load_or_generate(file: Option<&str>) -> (r: IdentityResult<(Self, Option<String>)>)
        ensures
            match file {
                Some(t) => match (r, seed_in(t@)) {
                    (Ok(k), Ok(seed)) => k.0.seed() == seed && k.1 is None,
                    (Err(e), Err(why)) => key_error(e, why),
                    _ => false,
                },
                None => {
                    &&& r matches Ok(k)
                    &&& k.1 matches Some(t)
                    &&& k.0.seed().len() == 32
                    &&& t@ == hex_text(k.0.seed())
                },
            },
    {
        match file {
            Some(t) => match Self::load(t) {
                Ok(k) => Ok((k, None)),
                Err(e) => Err(e),
            },
            None => {
                let k = Self::generate();
                let t = k.save();
                Ok((k, Some(t)))
            },
        }
    }

    /// Load a keypair from the text of a key file: the 32-byte secret seed
    /// encoded as hex (optionally with surrounding whitespace).
    pub fn load(t: &str) -> (r: IdentityResult<Self>)
        ensures
            match (r, seed_in(t@)) {
                (Ok(k), Ok(seed)) => k.seed() == seed,
                (Err(e), Err(why)) => key_error(e, why),
                _ => false,
            },
    {
        let chars = text::chars_of(t);
        let bare = text::string_of(&trim(&chars));
        match decode_hex(bare.as_str()) {
            Ok(bytes) => {
                if bytes.len() == 32 {
                    Ok(KernelKeypair { seed: bytes })
                } else {
                    Err(IdentityError::Key("key file must contain exactly 32 bytes".to_owned()))
                }
            },
            Err(why) => Err(
                IdentityError::Key(text::cat2("key file is not valid hex: ", why.as_str())),
            ),
        }
    }

    /// The text of a key file: the secret seed as hex.
    pub fn save(&self) -> (r: String)
        ensures
            r@ == hex_text(self.seed()),
            self.seed().len() == 32,
    {
        proof {
            use_type_invariant(self);
        }
        encode_hex(&self.seed)
    }

    /// The public verifying key.
    pub fn public_key(&self) -> (r: VerifyingKey)
        ensures
            r@ == public_of(self.seed()),
            r@.len() == 32,
    {
        proof {
            use_type_invariant(self);
        }
        VerifyingKey { bytes: derive_public(&self.seed) }
    }

    /// Stable key id: `ed25519:<sha256(public key bytes)>` in lowercase hex.
    pub fn key_id(&self) -> (r: String)
        ensures
            r@ == key_id_of(public_of(self.seed())),
    {
        let public = self.public_key();
        let hashed = digest(public.bytes.as_slice());
        let digits = encode_hex(&hashed);
        text::cat2("ed25519:", digits.as_str())
    }

    /// Sign the canonical JSON encoding of `value`. Returns the 64-byte
    /// signature as lowercase hex.
    pub fn sign_canonical(&self, value: &Value) -> (r: String)
        ensures
            r@ == hex_text(signature_of(self.seed(), encode_utf8(canonical(value@)))),
            verification(public_of(self.seed()), value@, r@) == Ok::<bool, Seq<char>>(true),
    {
        proof {
            use_type_invariant(self);
        }
        let payload = canonical_json(value);
        let signature = sign_bytes(&self.seed, payload.as_str().as_bytes());
        proof {
            law_hex_round_trip(signature@);
        }
        encode_hex(&signature)
    }

    /// Verify a hex signature produced by [`KernelKeypair::sign_canonical`]
    /// against `public_key`.
    pub fn verify_canonical(public_key: &VerifyingKey, value: &Value, signature_hex: &str) -> (r:
        IdentityResult<bool>)
        ensures
            match (r, verification(public_key@, value@, signature_hex@)) {
                (Ok(b), Ok(v)) => b == v,
                (Err(e), Err(why)) => key_error(e, why),
                _ => false,
            },
    {
        proof {
            use_type_invariant(public_key);
        }
        match decode_hex(signature_hex) {
            Ok(sig) => {
                if sig.len() != 64 {
                    return Err(IdentityError::Key("signature must be 64 bytes".to_owned()));
                }
                let payload = canonical_json(value);
                Ok(verify_bytes(&public_key.bytes, payload.as_str().as_bytes(), &sig))
            },
            Err(why) => Err(
                IdentityError::Key(text::cat2("signature is not valid hex: ", why.as_str())),
            ),
        }
    }
}

impl ReceiptSigner for KernelKeypair {
    fn sign(&self, message: &[u8]) -> (r: (String, String))
        ensures
            r.0@ == hex_text(signature_of(self.seed(), message@)),
            r.1@ == key_id_of(public_of(self.seed())),
            hex_value(r.0@) == Some(signature_of(self.seed(), message@)),
            signature_of(self.seed(), message@).len() == 64,
            verifies(
                public_of(self.seed()),
                message@,
                signature_of(self.seed(), message@),
            ),
    {
        proof {
            use_type_invariant(self);
        }
        let signature = sign_bytes(&self.seed, message);
        proof {
            law_hex_round_trip(signature@);
        }
        (encode_hex(&signature), self.key_id())
    }
}

proof fn lemma_hex_is_trimmed(bytes: Seq<u8>)
    ensures
        trimmed(hex_text(bytes)) == hex_text(bytes),
{
    let t = hex_text(bytes);
    if t.len() > 0 {
        let last = t.len() - 1;
        assert(t[0] == crate::hash::nibble(bytes[0] as int / 16));
        assert(t[last] == crate::hash::nibble(bytes[last / 2] as int % 16));
        assert(t.last() == t[last]);
    }
}

/// A key file keeps the key: loading what was saved gives the same seed, and so
/// the same key id and signatures.
pub proof fn law_saved_keys_load(seed: Seq<u8>)
    requires
        seed.len() == 32,
    ensures
        seed_in(hex_text(seed)) == Ok::<Seq<u8>, Seq<char>>(seed),
{
    lemma_hex_is_trimmed(seed);
    law_hex_round_trip(seed);
}

/// Every receipt that a broker signs with a key verifies under that key's public
/// half, and names it.
pub proof fn law_receipts_verify(b: EffectBroker<KernelKeypair>, receipt: ReceiptView)
    requires
        b.signed(receipt),
    ensures
        verification(
            public_of(b.spec_signer().seed()),
            receipt.body.json(),
            receipt.signature,
        ) == Ok::<bool, Seq<char>>(true),
        receipt.key_id == key_id_of(public_of(b.spec_signer().seed())),
{
}

/// A signature is checked as 64 bytes in hexadecimal over the canonical JSON of the
/// value; anything else cannot be checked.
pub proof fn law_signatures_are_checked_over_canonical_json(
    public_key: Seq<u8>,
    value: Json,
    signature: Seq<u8>,
)
    ensures
        signature.len() == 64 ==> verification(public_key, value, hex_text(signature)) == Ok::<
            bool,
            Seq<char>,
        >(verifies(public_key, encode_utf8(canonical(value)), signature)),
        signature.len() != 64 ==> verification(public_key, value, hex_text(signature)) is Err,
{
    crate::hash::law_hex_round_trip(signature);
}

/// A key file holds 32 bytes in hexadecimal, and nothing else; white space around them
/// does not matter.
pub proof fn law_key_files_hold_one_seed(t: Seq<char>)
    ensures
        seed_in(t) is Ok <==> (hex_value(trimmed(t)) matches Some(bytes) && bytes.len() == 32),
        seed_in(t) matches Ok(seed) ==> hex_value(trimmed(t)) == Some(seed) && seed.len() == 32,
{
}

/// A key is identified by its digest: two keys of one identifier have one digest.
pub proof fn law_keys_are_identified_by_their_digest(a: Seq<u8>, b: Seq<u8>)
    ensures
        key_id_of(a) == "ed25519:"@ + hex_text(sha256(a)),
        key_id_of(a) == key_id_of(b) ==> sha256(a) == sha256(b),
{
    if key_id_of(a) == key_id_of(b) {
        let p = "ed25519:"@;
        assert((p + hex_text(sha256(a))).skip(p.len() as int) =~= hex_text(sha256(a)));
        assert((p + hex_text(sha256(b))).skip(p.len() as int) =~= hex_text(sha256(b)));
        crate::hash::law_hex_round_trip(sha256(a));
        crate::hash::law_hex_round_trip(sha256(b));
    }
}

} // verus!
