//! At-rest sealing for kernel secret files.
//!
//! Small AEAD envelope shared by the secret vault and the receipt-signing seed:
//! ChaCha20-Poly1305 with a fresh random nonce per encryption, stored alongside
//! the ciphertext behind a magic header so legacy plaintext files can be
//! detected and transparently migrated.
//!
//! The key comes from the environment variable [`KEY_ENV_VAR`] (base64-encoded
//! 32 bytes), else from a key file kept outside the data directory, else it is
//! generated at the first run and persisted to that file.
use base64::Engine;
use chacha20poly1305::aead::{Aead, KeyInit};
use rand::RngCore;
use vstd::prelude::*;
use crate::identity::error::{IdentityError, IdentityResult};
use crate::lines::{trim, trimmed};
use crate::text;

verus! {

/// Environment variable holding the base64-encoded 32-byte sealing key.
pub const KEY_ENV_VAR: &'static str = "AK_VAULT_KEY";

/// ChaCha20-Poly1305 nonce length in bytes.
const NONCE_LEN: usize = 12;

/// Length of the authentication tag in bytes.
const TAG_LEN: u64 = 16;

/// How many bytes one nonce can encrypt: the blocks that the counter can number
/// after the first.
pub const MAX_PLAINTEXT: u64 = 0x3f_ffff_ff80;

/// Header identifying a sealed file: magic + format version.
pub open spec fn magic() -> Seq<u8> {
    seq![0x41u8, 0x4b, 0x53, 0x45, 0x41, 0x4c, 0x31, 0x0a]
}

fn magic_bytes() -> (r: Vec<u8>)
    ensures
        r@ == magic(),
{
    let r: Vec<u8> = vec![0x41, 0x4b, 0x53, 0x45, 0x41, 0x4c, 0x31, 0x0a];
    proof {
        assert(r@ =~= magic());
    }
    r
}

/// What a key, a nonce and a plaintext encrypt to, tag included.
pub uninterp spec fn encrypted(key: Seq<u8>, nonce: Seq<u8>, plaintext: Seq<u8>) -> Seq<u8>;

/// What a key and a nonce decrypt a ciphertext to; `None` where the tag does not
/// authenticate it.
pub uninterp spec fn decrypted(key: Seq<u8>, nonce: Seq<u8>, ciphertext: Seq<u8>) -> Option<Seq<u8>>;

/// `rand::rngs::OsRng.fill_bytes`: as many random bytes as asked for. Nothing is
/// said of which ones; it panics where the system has none to give.
#[verifier::external_body]
fn os_random(n: usize) -> (r: Vec<u8>)
    ensures
        r@.len() == n,
{
    let mut bytes = vec![0u8; n];
    rand::rngs::OsRng.fill_bytes(&mut bytes);
    bytes
}

/// `ChaCha20Poly1305::encrypt` without associated data, under the key and the
/// nonce: succeeds on up to [`MAX_PLAINTEXT`] bytes, and what it gives is as
/// much longer as the tag is long and decrypts to the plaintext again.
#[verifier::external_body]
fn encrypt(key: &Vec<u8>, nonce: &Vec<u8>, plaintext: &[u8]) -> (r: Vec<u8>)
    requires
        key@.len() == 32,
        nonce@.len() == 12,
        plaintext@.len() <= MAX_PLAINTEXT,
    ensures
        r@ == encrypted(key@, nonce@, plaintext@),
        r@.len() == plaintext@.len() + 16,
        decrypted(key@, nonce@, r@) == Some(plaintext@),
{
    chacha20poly1305::ChaCha20Poly1305::new(chacha20poly1305::Key::from_slice(key))
        .encrypt(chacha20poly1305::Nonce::from_slice(nonce), plaintext)
        .unwrap()
}

/// `ChaCha20Poly1305::decrypt` without associated data, under the key and the
/// nonce; `None` for its error.
#[verifier::external_body]
fn decrypt(key: &Vec<u8>, nonce: &[u8], ciphertext: &[u8]) -> (r: Option<Vec<u8>>)
    requires
        key@.len() == 32,
        nonce@.len() == 12,
        ciphertext@.len() <= MAX_PLAINTEXT + 16,
    ensures
        r.deep_view() == decrypted(key@, nonce@, ciphertext@),
{
    chacha20poly1305::ChaCha20Poly1305::new(chacha20poly1305::Key::from_slice(key))
        .decrypt(chacha20poly1305::Nonce::from_slice(nonce), ciphertext)
        .ok()
}

/// What a text decodes to in base64 with the standard alphabet and padding, or
/// why it does not.
pub uninterp spec fn base64_decoded(t: Seq<char>) -> Result<Seq<u8>, Seq<char>>;

/// `base64::engine::general_purpose::STANDARD.decode`, with its error as text.
#[verifier::external_body]
fn decode_base64(t: &str) -> (r: Result<Vec<u8>, String>)
    ensures
        match r {
            Ok(v) => base64_decoded(t@) == Ok::<Seq<u8>, Seq<char>>(v@),
            Err(e) => base64_decoded(t@) == Err::<Seq<u8>, Seq<char>>(e@),
        },
{
    match base64::engine::general_purpose::STANDARD.decode(t) {
        Ok(v) => Ok(v),
        Err(e) => Err(e.to_string()),
    }
}

/// A 32-byte symmetric key used to seal secret files at rest. The raw bytes
/// never leave this module except through the AEAD.
pub struct SealKey(Vec<u8>);

/// The error for key material, with its message.
pub open spec fn key_error(e: IdentityError, message: Seq<char>) -> bool {
    e matches IdentityError::Key(m) && m@ == message
}

impl SealKey {
    /// The key's bytes.
    pub closed spec fn view(&self) -> Seq<u8> {
        self.0@
    }

    #[verifier::type_invariant]
    spec fn inv(self) -> bool {
        self.0@.len() == 32
    }

    /// Wrap raw key bytes (mainly for tests).
    pub fn from_bytes(bytes: [u8; 32]) -> (r: Self)
        ensures
            r@ == bytes@,
            r@.len() == 32,
    {
        let mut v: Vec<u8> = Vec::new();
        let mut i: usize = 0;
        while i < 32
            invariant
                i <= 32,
                v@ == bytes@.take(i as int),
            decreases 32 - i,
        {
            v.push(bytes[i]);
            proof {
                assert(bytes@.take(i + 1) =~= bytes@.take(i as int).push(bytes@[i as int]));
            }
            i = i + 1;
        }
        proof {
            assert(bytes@.take(32) =~= bytes@);
        }
        SealKey(v)
    }

    /// The key in the value of the environment variable.
    pub fn from_env_value(value: &str) -> (r: IdentityResult<Self>)
        ensures
            match base64_decoded(trimmed(value@)) {
                Ok(bytes) => if bytes.len() == 32 {
                    r matches Ok(k) && k@ == bytes
                } else {
                    r matches Err(e) && key_error(
                        e,
                        "AK_VAULT_KEY must decode to exactly 32 bytes"@,
                    )
                },
                Err(why) => r matches Err(e) && key_error(
                    e,
                    "AK_VAULT_KEY is not valid base64: "@ + why,
                ),
            },
    {
        let chars = text::chars_of(value);
        let bare = text::string_of(&trim(&chars));
        match decode_base64(bare.as_str()) {
            Ok(bytes) => {
                if bytes.len() == 32 {
                    Ok(SealKey(bytes))
                } else {
                    Err(
                        IdentityError::Key(
                            "AK_VAULT_KEY must decode to exactly 32 bytes".to_owned(),
                        ),
                    )
                }
            },
            Err(why) => Err(
                IdentityError::Key(text::cat2("AK_VAULT_KEY is not valid base64: ", why.as_str())),
            ),
        }
    }

    /// The key in the contents of a key file; `path` is how the file is shown.
    pub fn from_key_file(contents: Vec<u8>, path: &str) -> (r: IdentityResult<Self>)
        ensures
            match r {
                Ok(k) => contents@.len() == 32 && k@ == contents@,
                Err(e) => contents@.len() != 32 && key_error(
                    e,
                    "key file "@ + path@ + " must contain exactly 32 bytes"@,
                ),
            },
    {
        if contents.len() == 32 {
            Ok(SealKey(contents))
        } else {
            Err(
                IdentityError::Key(
                    text::cat3("key file ", path, " must contain exactly 32 bytes"),
                ),
            )
        }
    }

    /// Resolve the sealing key: the value of the environment variable first,
    /// then the contents of the key file, else a new key. The bytes that come
    /// with a new key are to be persisted at `path`.
    pub fn resolve_with_env(env_value: Option<&str>, key_file: Option<Vec<u8>>, path: &str) -> (r:
        IdentityResult<(Self, Option<Vec<u8>>)>)
        ensures
            match (env_value, key_file) {
                (Some(value), _) => match base64_decoded(trimmed(value@)) {
                    Ok(bytes) => if bytes.len() == 32 {
                        r matches Ok(k) && k.0@ == bytes && k.1 is None
                    } else {
                        r matches Err(e) && key_error(
                            e,
                            "AK_VAULT_KEY must decode to exactly 32 bytes"@,
                        )
                    },
                    Err(why) => r matches Err(e) && key_error(
                        e,
                        "AK_VAULT_KEY is not valid base64: "@ + why,
                    ),
                },
                (None, Some(contents)) => if contents@.len() == 32 {
                    r matches Ok(k) && k.0@ == contents@ && k.1 is None
                } else {
                    r matches Err(e) && key_error(
                        e,
                        "key file "@ + path@ + " must contain exactly 32 bytes"@,
                    )
                },
                (None, None) => {
                    &&& r matches Ok(k)
                    &&& k.1 matches Some(bytes)
                    &&& k.0@ == bytes@
                    &&& bytes@.len() == 32
                },
            },
    {
        if let Some(value) = env_value {
            return match Self::from_env_value(value) {
                Ok(k) => Ok((k, None)),
                Err(e) => Err(e),
            };
        }
        match key_file {
            Some(contents) => match Self::from_key_file(contents, path) {
                Ok(k) => Ok((k, None)),
                Err(e) => Err(e),
            },
            None => {
                let (k, bytes) = Self::generate();
                Ok((k, Some(bytes)))
            },
        }
    }

    /// A fresh random key, and its bytes to persist.
    pub fn generate() -> (r: (Self, Vec<u8>))
        ensures
            r.0@ == r.1@,
            r.1@.len() == 32,
    {
        let bytes = os_random(32);
        (SealKey(bytes.clone()), bytes)
    }
}

/// Whether `bytes` carry the sealed-file header (vs. legacy plaintext).
pub fn is_sealed(bytes: &[u8]) -> (r: bool)
    ensures
        r == magic().is_prefix_of(bytes@),
{
    let m = magic_bytes();
    if bytes.len() < m.len() {
        return false;
    }
    let mut i: usize = 0;
    while i < m.len()
        invariant
            i <= m.len() <= bytes@.len(),
            m@ == magic(),
            forall|j: int| 0 <= j < i ==> #[trigger] m@[j] == bytes@[j],
        decreases m.len() - i,
    {
        if bytes[i] != m[i] {
            proof {
                assert(bytes@.subrange(0, magic().len() as int)[i as int] == bytes@[i as int]);
            }
            return false;
        }
        i = i + 1;
    }
    proof {
        assert(magic() =~= bytes@.subrange(0, magic().len() as int));
    }
    true
}

/// The envelope: header, nonce, ciphertext with tag.
pub open spec fn envelope(nonce: Seq<u8>, ciphertext: Seq<u8>) -> Seq<u8> {
    magic() + nonce + ciphertext
}

/// What an envelope opens to, or why it does not.
pub open spec fn unsealed(key: Seq<u8>, bytes: Seq<u8>) -> Result<Seq<u8>, Seq<char>> {
    if !magic().is_prefix_of(bytes) {
        Err("not a sealed file (missing header)"@)
    } else if bytes.len() < 20 {
        Err("sealed file is truncated"@)
    } else if bytes.len() - 20 > MAX_PLAINTEXT + 16 {
        Err("unsealing failed: wrong key or corrupted file"@)
    } else {
        match decrypted(key, bytes.subrange(8, 20), bytes.skip(20)) {
            Some(p) => Ok(p),
            None => Err("unsealing failed: wrong key or corrupted file"@),
        }
    }
}

fn append(out: &mut Vec<u8>, more: &Vec<u8>)
    ensures
        final(out)@ == old(out)@ + more@,
{
    let ghost before = out@;
    let mut i: usize = 0;
    proof {
        assert(before + more@.take(0) =~= before);
    }
    while i < more.len()
        invariant
            i <= more.len(),
            out@ == before + more@.take(i as int),
        decreases more.len() - i,
    {
        out.push(more[i]);
        proof {
            assert(before + more@.take(i + 1) =~= (before + more@.take(i as int)).push(
                more@[i as int],
            ));
        }
        i = i + 1;
    }
    proof {
        assert(more@.take(more@.len() as int) =~= more@);
    }
}

/// Seal `plaintext`: header, nonce (12 bytes), ciphertext with tag. A fresh
/// random nonce is drawn for every call.
pub fn seal(key: &SealKey, plaintext: &[u8]) -> (r: IdentityResult<Vec<u8>>)
    ensures
        match r {
            Ok(out) => {
                &&& plaintext@.len() <= MAX_PLAINTEXT
                &&& exists|nonce: Seq<u8>| #[trigger]
                    nonce.len() == 12 && out@ == envelope(
                        nonce,
                        encrypted(key@, nonce, plaintext@),
                    )
                &&& unsealed(key@, out@) == Ok::<Seq<u8>, Seq<char>>(plaintext@)
            },
            Err(e) => plaintext@.len() > MAX_PLAINTEXT && key_error(e, "sealing failed"@),
        },
{
    proof {
        use_type_invariant(key);
    }
    if plaintext.len() as u64 > MAX_PLAINTEXT {
        return Err(IdentityError::Key("sealing failed".to_owned()));
    }
    let nonce = os_random(NONCE_LEN);
    let ciphertext = encrypt(&key.0, &nonce, plaintext);
    let mut out = magic_bytes();
    append(&mut out, &nonce);
    append(&mut out, &ciphertext);
    proof {
        assert(out@ == envelope(nonce@, ciphertext@));
        assert(out@.subrange(0, 8) =~= magic());
        assert(out@.subrange(8, 20) =~= nonce@);
        assert(out@.skip(20) =~= ciphertext@);
        assert(nonce@.len() == 12);
    }
    Ok(out)
}

/// Unseal bytes produced by [`seal`]. Fails on a wrong key, tampering, or a
/// malformed envelope.
pub fn unseal(key: &SealKey, bytes: &[u8]) -> (r: IdentityResult<Vec<u8>>)
    ensures
        match (r, unsealed(key@, bytes@)) {
            (Ok(v), Ok(p)) => v@ == p,
            (Err(e), Err(why)) => key_error(e, why),
            _ => false,
        },
{
    proof {
        use_type_invariant(key);
    }
    if !is_sealed(bytes) {
        return Err(IdentityError::Key("not a sealed file (missing header)".to_owned()));
    }
    let n = bytes.len();
    if n < 20 {
        return Err(IdentityError::Key("sealed file is truncated".to_owned()));
    }
    if (n - 20) as u64 > MAX_PLAINTEXT + TAG_LEN {
        return Err(
            IdentityError::Key("unsealing failed: wrong key or corrupted file".to_owned()),
        );
    }
    let nonce = vstd::slice::slice_subrange(bytes, 8, 20);
    let ciphertext = vstd::slice::slice_subrange(bytes, 20, n);
    proof {
        assert(ciphertext@ =~= bytes@.skip(20));
    }
    match decrypt(&key.0, nonce, ciphertext) {
        Some(p) => Ok(p),
        None => Err(
            IdentityError::Key("unsealing failed: wrong key or corrupted file".to_owned()),
        ),
    }
}

/// A sealed file is told apart from a plaintext one by its header alone, and
/// what has no header is never unsealed.
pub proof fn law_plaintext_is_never_unsealed(key: Seq<u8>, bytes: Seq<u8>)
    requires
        !magic().is_prefix_of(bytes),
    ensures
        unsealed(key, bytes) is Err,
{
}

/// An envelope opens to what its ciphertext decrypts to under its own nonce, and not
/// at all where that fails; it is marked by its header.
pub proof fn law_envelopes_open_under_their_nonce(
    key: Seq<u8>,
    nonce: Seq<u8>,
    ciphertext: Seq<u8>,
)
    requires
        nonce.len() == 12,
        ciphertext.len() <= MAX_PLAINTEXT + 16,
    ensures
        unsealed(key, envelope(nonce, ciphertext)) is Ok <==> decrypted(key, nonce, ciphertext)
            is Some,
        decrypted(key, nonce, ciphertext) matches Some(p) ==> unsealed(
            key,
            envelope(nonce, ciphertext),
        ) == Ok::<Seq<u8>, Seq<char>>(p),
        envelope(nonce, ciphertext).take(8) == vstd::utf8::encode_utf8("AKSEAL1\n"@),
        envelope(nonce, ciphertext).len() == 20 + ciphertext.len(),
{
    reveal_strlit("AKSEAL1\n");
    let t = "AKSEAL1\n"@;
    assert(t.len() == 8);
    vstd::utf8::is_ascii_chars_encode_utf8(t);
    assert(vstd::utf8::encode_utf8(t) =~= magic());
    let e = envelope(nonce, ciphertext);
    assert(e.take(8) =~= magic());
    assert(e.subrange(0, 8) =~= magic());
    assert(e.subrange(8, 20) =~= nonce);
    assert(e.skip(20) =~= ciphertext);
}

} // verus!
