//! The cipher of a connection: a ChaCha20-Poly1305 key that is derived from
//! the password and the salt of the connection.

use ring::aead::{Aad, LessSafeKey, Nonce, UnboundKey, CHACHA20_POLY1305};
use ring::hkdf;
use ring::rand::{SecureRandom, SystemRandom};
use vstd::prelude::*;
use vstd::utf8::encode_utf8;

verus! {

/// The target of a connection, under its name in this module.
pub type Socks5Addr = crate::address::Socks5Addr;

/// The length of a salt.
pub const SALT_LEN: usize = 32;

/// The length of a key.
pub const KEY_LEN: usize = 32;

/// The length of a nonce.
pub const NONCE_LEN: usize = 12;

/// How much longer the ciphertext is than the plaintext.
pub const TAG_LEN: usize = 16;

/// The longest plaintext that one nonce can seal.
pub const MAX_SEAL_LEN: u64 = 274_877_906_880;

/// One more than the most bytes that SHA-256 digests.
pub const DIGEST_LIMIT: u64 = 0x2000_0000_0000_0000;

// ---------------------------------------------------------------------------
// What `ring` computes
// ---------------------------------------------------------------------------

/// The error of `ring`, which carries nothing.
#[verifier::external_type_specification]
#[verifier::external_body]
pub struct ExUnspecified(ring::error::Unspecified);

/// The key that HKDF with HMAC-SHA-256 derives: `secret` is extracted with
/// `salt` and expanded with `info` to thirty-two bytes.
pub uninterp spec fn hkdf_sha256(salt: Seq<u8>, secret: Seq<u8>, info: Seq<u8>) -> Seq<u8>;

/// The ciphertext and tag that ChaCha20-Poly1305 makes of `plain`, with no
/// associated data.
pub uninterp spec fn sealed(key: Seq<u8>, nonce: Seq<u8>, plain: Seq<u8>) -> Seq<u8>;

/// `ring::hkdf`: `Salt::new`, `Salt::extract`, `Prk::expand` and `Okm::fill`
/// with HKDF_SHA256 and the key length of ChaCha20-Poly1305. The bytes depend
/// on the three arguments alone. An input that is too long to digest makes
/// `ring` panic, so it is left out.
#[verifier::external_body]
fn derive_key(salt: &[u8], secret: &[u8], info: &[u8]) -> (key: [u8; 32])
    requires
        salt@.len() < DIGEST_LIMIT,
        secret@.len() + 64 < DIGEST_LIMIT,
        info@.len() + 65 < DIGEST_LIMIT,
    ensures
        key@ == hkdf_sha256(salt@, secret@, info@),
{
    let mut key = [0u8; 32];
    hkdf::Salt::new(hkdf::HKDF_SHA256, salt)
        .extract(secret)
        .expand(&[info], &CHACHA20_POLY1305)
        .unwrap()
        .fill(&mut key)
        .unwrap();
    key
}

/// `LessSafeKey::seal_in_place_append_tag` with CHACHA20_POLY1305 and no
/// associated data. It fails exactly on a plaintext that is too long for one
/// nonce. The tag adds sixteen bytes, and no other plaintext is sealed to the
/// same bytes under the same key and nonce.
#[verifier::external_body]
fn seal(key: &[u8; 32], nonce: &[u8; 12], plaintext: &[u8]) -> (result: Result<
    Vec<u8>,
    ring::error::Unspecified,
>)
    ensures
        result is Ok <==> plaintext@.len() <= MAX_SEAL_LEN,
        result matches Ok(bytes) ==> bytes@ == sealed(key@, nonce@, plaintext@) && bytes@.len()
            == plaintext@.len() + TAG_LEN,
        result matches Ok(bytes) ==> forall|p: Seq<u8>|
            seals_to(key@, nonce@, p, bytes@) ==> p == plaintext@,
{
    let key = LessSafeKey::new(UnboundKey::new(&CHACHA20_POLY1305, key)?);
    let mut buffer = plaintext.to_vec();
    key.seal_in_place_append_tag(Nonce::assume_unique_for_key(*nonce), Aad::empty(), &mut buffer)?;
    Ok(buffer)
}

/// `LessSafeKey::open_in_place` with CHACHA20_POLY1305 and no associated data.
/// It returns the one plaintext that is sealed to `ciphertext` under the key
/// and nonce, and fails exactly where there is none.
#[verifier::external_body]
fn unseal(key: &[u8; 32], nonce: &[u8; 12], ciphertext: &[u8]) -> (result: Result<
    Vec<u8>,
    ring::error::Unspecified,
>)
    ensures
        result matches Ok(plain) ==> sealed(key@, nonce@, plain@) == ciphertext@ && plain@.len()
            + TAG_LEN == ciphertext@.len() && plain@.len() <= MAX_SEAL_LEN,
        result matches Ok(plain) ==> forall|p: Seq<u8>|
            seals_to(key@, nonce@, p, ciphertext@) ==> p == plain@,
        result is Err ==> forall|p: Seq<u8>| !seals_to(key@, nonce@, p, ciphertext@),
{
    let key = LessSafeKey::new(UnboundKey::new(&CHACHA20_POLY1305, key)?);
    let mut buffer = ciphertext.to_vec();
    let nonce = Nonce::assume_unique_for_key(*nonce);
    let plain = key.open_in_place(nonce, Aad::empty(), &mut buffer)?;
    Ok(plain.to_vec())
}

/// `SystemRandom::fill` on a buffer of `len` bytes. The operating system may
/// fail to give random bytes, and what the bytes are is left open.
#[verifier::external_body]
fn random_bytes(len: usize) -> (result: Result<Vec<u8>, ring::error::Unspecified>)
    ensures
        result matches Ok(bytes) ==> bytes@.len() == len,
{
    let mut bytes = vec![0u8; len];
    SystemRandom::new().fill(&mut bytes)?;
    Ok(bytes)
}

/// The `Display` text of `ring::error::Unspecified`, which is fixed.
#[verifier::external_body]
fn error_text(error: &ring::error::Unspecified) -> (text: String)
    ensures
        text@ == "ring::error::Unspecified"@,
{
    error.to_string()
}

// ---------------------------------------------------------------------------
// The cipher
// ---------------------------------------------------------------------------

/// `plain` is short enough to be sealed, and `bytes` is what comes of it.
pub open spec fn seals_to(key: Seq<u8>, nonce: Seq<u8>, plain: Seq<u8>, bytes: Seq<u8>) -> bool {
    plain.len() <= MAX_SEAL_LEN && sealed(key, nonce, plain) == bytes
}

/// The plaintext that is sealed to `bytes`, if there is one.
pub open spec fn opened(key: Seq<u8>, nonce: Seq<u8>, bytes: Seq<u8>) -> Option<Seq<u8>> {
    if exists|p: Seq<u8>| seals_to(key, nonce, p, bytes) {
        Some(choose|p: Seq<u8>| seals_to(key, nonce, p, bytes))
    } else {
        None
    }
}

/// The outcome of sealing `plain`.
pub open spec fn encrypted(key: Seq<u8>, nonce: Seq<u8>, plain: Seq<u8>) -> Result<
    Seq<u8>,
    Seq<char>,
> {
    if nonce.len() != NONCE_LEN {
        Err("bad nonce: TryFromSliceError(())"@)
    } else if plain.len() > MAX_SEAL_LEN {
        Err("encrypt error: "@ + "ring::error::Unspecified"@)
    } else {
        Ok(sealed(key, nonce, plain))
    }
}

/// The outcome of opening `ciphertext`.
pub open spec fn decrypted(key: Seq<u8>, nonce: Seq<u8>, ciphertext: Seq<u8>) -> Result<
    Seq<u8>,
    Seq<char>,
> {
    if ciphertext.len() < TAG_LEN {
        Err("ciphertext too short"@)
    } else if nonce.len() != NONCE_LEN {
        Err("bad nonce: TryFromSliceError(())"@)
    } else {
        match opened(key, nonce, ciphertext) {
            Some(plain) => Ok(plain),
            None => Err("decrypt error: "@ + "ring::error::Unspecified"@),
        }
    }
}

/// The words for a random source that gives nothing.
pub open spec fn random_failure() -> Seq<char> {
    "random source failed: "@ + "ring::error::Unspecified"@
}

/// The key of a connection.
pub open spec fn connection_key(password: Seq<char>, salt: Seq<u8>) -> Seq<u8> {
    hkdf_sha256(salt, encode_utf8(password), SUBKEY_INFO@)
}

/// Whether a password and a salt are short enough to digest.
pub open spec fn digestible(password: Seq<char>, salt: Seq<u8>) -> bool {
    salt.len() < DIGEST_LIMIT && encode_utf8(password).len() + 64 < DIGEST_LIMIT
}

/// The bytes of `ss-subkey`, which set the derived key apart.
pub const SUBKEY_INFO: [u8; 9] = [115, 115, 45, 115, 117, 98, 107, 101, 121];

/// The cipher of a connection.
pub struct Cipher {
    key: [u8; 32],
}

impl View for Cipher {
    type V = Seq<u8>;

    /// The key.
    closed spec fn view(&self) -> Seq<u8> {
        self.key@
    }
}

/// `slice` as an array of twelve bytes.
fn nonce_array(slice: &[u8]) -> (nonce: [u8; 12])
    requires
        slice@.len() == NONCE_LEN,
    ensures
        nonce@ == slice@,
{
    let nonce: [u8; 12] = [
        slice[0], slice[1], slice[2], slice[3], slice[4], slice[5], slice[6], slice[7], slice[8],
        slice[9], slice[10], slice[11],
    ];
    assert(nonce@ =~= slice@);
    nonce
}

/// `prefix` followed by the words of an error.
fn describe(prefix: &str, error: &ring::error::Unspecified) -> (text: String)
    ensures
        text@ == prefix@ + "ring::error::Unspecified"@,
{
    let mut text = prefix.to_owned();
    text.append(error_text(error).as_str());
    text
}

/// The salt that a draw of thirty-two random bytes gives: these bytes, or the
/// failure of the random source.
pub fn drawn_salt(drawn: Result<Vec<u8>, ring::error::Unspecified>) -> (result: Result<
    Vec<u8>,
    String,
>)
    requires
        drawn matches Ok(bytes) ==> bytes@.len() == SALT_LEN,
    ensures
        match drawn {
            Ok(bytes) => result matches Ok(salt) && salt@ == bytes@,
            Err(_) => result matches Err(e) && e@ == random_failure(),
        },
{
    match drawn {
        Ok(bytes) => Ok(bytes),
        Err(e) => Err(describe("random source failed: ", &e)),
    }
}

/// The nonce that a draw of twelve random bytes gives: these bytes, or the
/// failure of the random source.
pub fn drawn_nonce(drawn: Result<Vec<u8>, ring::error::Unspecified>) -> (result: Result<
    [u8; 12],
    String,
>)
    requires
        drawn matches Ok(bytes) ==> bytes@.len() == NONCE_LEN,
    ensures
        match drawn {
            Ok(bytes) => result matches Ok(nonce) && nonce@ == bytes@,
            Err(_) => result matches Err(e) && e@ == random_failure(),
        },
{
    match drawn {
        Ok(bytes) => Ok(nonce_array(bytes.as_slice())),
        Err(e) => Err(describe("random source failed: ", &e)),
    }
}

impl Cipher {
    /// The cipher of the connection with this password and salt.
    pub fn new(password: &str, salt: &[u8]) -> (cipher: Self)
        requires
            digestible(password@, salt@),
        ensures
            cipher@ == connection_key(password@, salt@),
            cipher@.len() == KEY_LEN,
    {
        let info = SUBKEY_INFO;
        Self { key: derive_key(salt, password.as_bytes(), info.as_slice()) }
    }

    /// How long a salt is.
    pub fn salt_len() -> (len: usize)
        ensures
            len == SALT_LEN,
    {
        SALT_LEN
    }

    /// How long a nonce is.
    pub fn nonce_len() -> (len: usize)
        ensures
            len == NONCE_LEN,
    {
        NONCE_LEN
    }

    /// How much longer the ciphertext is than the plaintext.
    pub fn tag_len() -> (len: usize)
        ensures
            len == TAG_LEN,
    {
        TAG_LEN
    }

    /// A fresh salt. It fails only where the random source does.
    pub fn generate_salt() -> (result: Result<Vec<u8>, String>)
        ensures
            match result {
                Ok(salt) => salt@.len() == SALT_LEN,
                Err(e) => e@ == random_failure(),
            },
    {
        drawn_salt(random_bytes(SALT_LEN))
    }

    /// A fresh nonce. It fails only where the random source does.
    pub fn generate_nonce() -> (result: Result<[u8; 12], String>)
        ensures
            result matches Err(e) ==> e@ == random_failure(),
    {
        drawn_nonce(random_bytes(NONCE_LEN))
    }

    /// Seals `plaintext`. What comes of it can be opened again, under the same
    /// key and nonce, and gives `plaintext`.
    pub fn encrypt(&self, nonce: &[u8], plaintext: &[u8]) -> (result: Result<Vec<u8>, String>)
        ensures
            match result {
                Ok(bytes) => encrypted(self@, nonce@, plaintext@) == Ok::<Seq<u8>, Seq<char>>(
                    bytes@,
                ),
                Err(e) => encrypted(self@, nonce@, plaintext@) == Err::<Seq<u8>, Seq<char>>(e@),
            },
            result matches Ok(bytes) ==> bytes@.len() == plaintext@.len() + TAG_LEN && decrypted(
                self@,
                nonce@,
                bytes@,
            ) == Ok::<Seq<u8>, Seq<char>>(plaintext@),
    {
        if nonce.len() != NONCE_LEN {
            return Err("bad nonce: TryFromSliceError(())".to_owned());
        }
        let nonce = nonce_array(nonce);
        match seal(&self.key, &nonce, plaintext) {
            Ok(bytes) => {
                assert(seals_to(self@, nonce@, plaintext@, bytes@));
                Ok(bytes)
            },
            Err(e) => Err(describe("encrypt error: ", &e)),
        }
    }

    /// Opens `ciphertext`.
    pub fn decrypt(&self, nonce: &[u8], ciphertext: &[u8]) -> (result: Result<Vec<u8>, String>)
        ensures
            match result {
                Ok(plain) => decrypted(self@, nonce@, ciphertext@) == Ok::<Seq<u8>, Seq<char>>(
                    plain@,
                ),
                Err(e) => decrypted(self@, nonce@, ciphertext@) == Err::<Seq<u8>, Seq<char>>(e@),
            },
            result matches Ok(plain) ==> plain@.len() + TAG_LEN == ciphertext@.len()
                && encrypted(self@, nonce@, plain@) == Ok::<Seq<u8>, Seq<char>>(ciphertext@),
    {
        if ciphertext.len() < TAG_LEN {
            return Err("ciphertext too short".to_owned());
        }
        if nonce.len() != NONCE_LEN {
            return Err("bad nonce: TryFromSliceError(())".to_owned());
        }
        let nonce = nonce_array(nonce);
        match unseal(&self.key, &nonce, ciphertext) {
            Ok(plain) => {
                assert(seals_to(self@, nonce@, plain@, ciphertext@));
                Ok(plain)
            },
            Err(e) => Err(describe("decrypt error: ", &e)),
        }
    }
}

// ---------------------------------------------------------------------------
// Laws
// ---------------------------------------------------------------------------

/// The key of [`Cipher::new`] comes from the whole password and the whole salt,
/// under the words `ss-subkey`.
pub proof fn law_key_comes_from_password_and_salt(password: &str, salt: &[u8], cipher: Cipher)
    requires
        call_ensures(Cipher::new, (password, salt), cipher),
    ensures
        cipher@ == hkdf_sha256(
            salt@,
            encode_utf8(password@),
            seq![115u8, 115, 45, 115, 117, 98, 107, 101, 121],
        ),
        cipher@.len() == 32,
{
    assert(SUBKEY_INFO@ =~= seq![115u8, 115, 45, 115, 117, 98, 107, 101, 121]);
}

/// [`Cipher::encrypt`] seals every plaintext that one nonce can seal, under its
/// own key and the given nonce, and refuses every nonce that is not twelve bytes
/// long.
pub proof fn law_encrypt_seals(
    cipher: Cipher,
    nonce: &[u8],
    plaintext: &[u8],
    out: Result<Vec<u8>, String>,
)
    requires
        call_ensures(Cipher::encrypt, (&cipher, nonce, plaintext), out),
    ensures
        nonce@.len() == 12 && plaintext@.len() <= 274_877_906_880 ==> (out matches Ok(bytes)
            && bytes@ == sealed(cipher@, nonce@, plaintext@) && bytes@.len() == plaintext@.len()
            + 16),
        nonce@.len() != 12 ==> (out matches Err(e) && e@ == "bad nonce: TryFromSliceError(())"@),
        nonce@.len() == 12 && plaintext@.len() > 274_877_906_880 ==> (out matches Err(e) && e@
            == "encrypt error: "@ + "ring::error::Unspecified"@),
{
}

/// [`Cipher::decrypt`] undoes [`Cipher::encrypt`], under the same key and nonce,
/// for every plaintext.
pub proof fn law_decrypt_undoes_encrypt(
    cipher: Cipher,
    other: Cipher,
    nonce: &[u8],
    plaintext: &[u8],
    bytes: Vec<u8>,
    ciphertext: &[u8],
    out: Result<Vec<u8>, String>,
)
    requires
        call_ensures(Cipher::encrypt, (&cipher, nonce, plaintext), Ok::<Vec<u8>, String>(bytes)),
        call_ensures(Cipher::decrypt, (&other, nonce, ciphertext), out),
        other@ == cipher@,
        ciphertext@ == bytes@,
    ensures
        out matches Ok(plain) && plain@ == plaintext@,
{
}

/// What [`Cipher::decrypt`] gives was sealed to the ciphertext, and what it
/// refuses no plaintext is sealed to.
pub proof fn law_decrypt_opens_only_what_was_sealed(
    cipher: Cipher,
    nonce: &[u8],
    ciphertext: &[u8],
    plain: Seq<u8>,
    out: Result<Vec<u8>, String>,
)
    requires
        call_ensures(Cipher::decrypt, (&cipher, nonce, ciphertext), out),
    ensures
        out matches Ok(opened) ==> nonce@.len() == 12 && sealed(cipher@, nonce@, opened@)
            == ciphertext@ && opened@.len() + 16 == ciphertext@.len(),
        ciphertext@.len() < 16 ==> (out matches Err(e) && e@ == "ciphertext too short"@),
        ciphertext@.len() >= 16 && nonce@.len() != 12 ==> (out matches Err(e) && e@
            == "bad nonce: TryFromSliceError(())"@),
        ciphertext@.len() >= 16 && nonce@.len() == 12 && out is Err ==> (out matches Err(e) && e@
            == "decrypt error: "@ + "ring::error::Unspecified"@) && (plain.len() <= 274_877_906_880
            ==> sealed(cipher@, nonce@, plain) != ciphertext@),
{
    if ciphertext@.len() >= 16 && nonce@.len() == 12 && out is Err && plain.len()
        <= 274_877_906_880 && sealed(cipher@, nonce@, plain) == ciphertext@ {
        assert(seals_to(cipher@, nonce@, plain, ciphertext@));
    }
}

/// A salt and a nonce are the bytes that were drawn for them.
pub proof fn law_draws_are_kept(
    bytes: Vec<u8>,
    salt: Result<Vec<u8>, String>,
    nonce: Result<[u8; 12], String>,
)
    ensures
        call_ensures(drawn_salt, (Ok::<Vec<u8>, ring::error::Unspecified>(bytes),), salt) ==> (
        salt matches Ok(s) && s@ == bytes@),
        call_ensures(drawn_nonce, (Ok::<Vec<u8>, ring::error::Unspecified>(bytes),), nonce) ==> (
        nonce matches Ok(n) && n@ == bytes@),
{
}

} // verus!
