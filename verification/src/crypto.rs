//! Encryption with `age`, to a passphrase or to an X25519 key pair.

use age::secrecy::ExposeSecret;
use vstd::prelude::*;

use crate::text::has_prefix;

verus! {

#[verifier::external_type_specification]
#[verifier::external_body]
pub struct ExEncryptError(age::EncryptError);

#[verifier::external_type_specification]
#[verifier::external_body]
pub struct ExDecryptError(age::DecryptError);

/// What can go wrong with encryption.
#[derive(Debug)]
pub enum CryptoError {
    /// `age` could not encrypt.
    EncryptionFailed,
    /// `age` could not decrypt (wrong passphrase or key, damaged data, too
    /// much work asked for).
    DecryptionFailed,
    /// The text is no X25519 identity.
    InvalidIdentity,
}

/// The first line of every binary age file: `age-encryption.org/v1`.
pub open spec fn age_magic() -> Seq<u8> {
    seq![97, 103, 101, 45, 101, 110, 99, 114, 121, 112, 116, 105, 111, 110, 46, 111, 114, 103, 47, 118, 49]
}

/// The shape of an age ciphertext of `plaintext`: it starts with the age
/// header line and is longer than the plaintext (header, nonce and
/// authentication tags come on top of it).
pub open spec fn age_ciphertext(ciphertext: Seq<u8>, plaintext: Seq<u8>) -> bool {
    &&& age_magic().len() <= ciphertext.len()
    &&& ciphertext.subrange(0, age_magic().len() as int) == age_magic()
    &&& ciphertext.len() > plaintext.len()
}

/// `age1`, the start of every X25519 recipient in its text form.
pub open spec fn recipient_prefix() -> Seq<char> {
    seq!['a', 'g', 'e', '1']
}

/// Name for the plaintext that `age::decrypt` yields for a ciphertext with an
/// `age::scrypt::Identity` for a passphrase, when it succeeds. Whether it
/// succeeds depends on the machine (the work factor the identity accepts);
/// what it yields when it does depends on the passphrase and the ciphertext
/// alone (the salt and work factor are in the ciphertext's header).
pub uninterp spec fn scrypt_plaintext(passphrase: Seq<char>, ciphertext: Seq<u8>) -> Seq<u8>;

/// Calls `age::encrypt` with an `age::scrypt::Recipient` for `passphrase`:
/// claims that it succeeds (one recipient, whose wrapping of the file key
/// cannot fail, written into a vector), that the ciphertext has the shape of
/// an age file for the plaintext, and that decrypting it with the passphrase,
/// where that succeeds, yields the plaintext. Its bytes rest on chance (salt, file key, nonce) and its scrypt
/// work factor on the speed of the machine, so nothing more is said of it.
#[verifier::external_body]
fn age_encrypt_to_passphrase(passphrase: &str, plaintext: &[u8]) -> (r: Result<
    Vec<u8>,
    age::EncryptError,
>)
    ensures
        r is Ok,
        r matches Ok(c) ==> age_ciphertext(c@, plaintext@) && scrypt_plaintext(passphrase@, c@)
            == plaintext@,
{
    let secret = age::secrecy::SecretString::from(passphrase.to_owned());
    age::encrypt(&age::scrypt::Recipient::new(secret), plaintext)
}

/// Calls `age::decrypt` with an `age::scrypt::Identity` for `passphrase`:
/// claims that a plaintext it yields is the one named by `scrypt_plaintext`.
/// Whether it succeeds depends on the work factor that the identity accepts,
/// which `age` measures on the machine, so that is left unsaid.
#[verifier::external_body]
fn age_decrypt_with_passphrase(passphrase: &str, ciphertext: &[u8]) -> (r: Result<
    Vec<u8>,
    age::DecryptError,
>)
    ensures
        r matches Ok(p) ==> p@ == scrypt_plaintext(passphrase@, ciphertext@),
{
    let secret = age::secrecy::SecretString::from(passphrase.to_owned());
    age::decrypt(&age::scrypt::Identity::new(secret), ciphertext)
}

/// Encrypts `plaintext` with a passphrase (scrypt). It always succeeds; the
/// ciphertext has the shape of an age file for `plaintext` and decrypts with
/// the passphrase, where that succeeds, to `plaintext`; its bytes are random.
pub fn encrypt_with_passphrase(passphrase: &str, plaintext: &[u8]) -> (r: Result<
    Vec<u8>,
    CryptoError,
>)
    ensures
        r is Ok,
        r matches Ok(c) ==> age_ciphertext(c@, plaintext@) && scrypt_plaintext(passphrase@, c@)
            == plaintext@,
{
    match age_encrypt_to_passphrase(passphrase, plaintext) {
        Ok(c) => Ok(c),
        Err(_) => Err(CryptoError::EncryptionFailed),
    }
}

/// Decrypts `ciphertext` with a passphrase (scrypt): where it succeeds, the
/// plaintext that the ciphertext holds for that passphrase.
pub fn decrypt_with_passphrase(passphrase: &str, ciphertext: &[u8]) -> (r: Result<
    Vec<u8>,
    CryptoError,
>)
    ensures
        r matches Ok(p) ==> p@ == scrypt_plaintext(passphrase@, ciphertext@),
        r matches Err(e) ==> e is DecryptionFailed,
{
    match age_decrypt_with_passphrase(passphrase, ciphertext) {
        Ok(p) => Ok(p),
        Err(_) => Err(CryptoError::DecryptionFailed),
    }
}


/// Name for whether `FromStr` for `age::x25519::Identity` accepts a text.
pub uninterp spec fn parses_as_identity(text: Seq<char>) -> bool;

/// Name for whether `FromStr` for `age::x25519::Recipient` accepts a text.
pub uninterp spec fn parses_as_recipient(text: Seq<char>) -> bool;

/// Name for the text (`Display`) of the recipient that
/// `age::x25519::Identity::to_public` gives for the identity with this text.
pub uninterp spec fn x25519_public_text(secret: Seq<char>) -> Seq<char>;

/// Name for what `age::decrypt` gives with the identity with this text:
/// the plaintext, or `None` where it fails.
pub uninterp spec fn x25519_decrypt(secret: Seq<char>, ciphertext: Seq<u8>) -> Option<Seq<u8>>;

/// `public` is the recipient text of some identity (not merely a text that
/// parses as a recipient: such a key may be a low-order point).
pub open spec fn identity_public(public: Seq<char>) -> bool {
    exists|secret: Seq<char>|
        parses_as_identity(secret) && #[trigger] x25519_public_text(secret) == public
}

/// `ciphertext` decrypts to `plaintext` with every identity whose recipient
/// text is `public`.
pub open spec fn encrypted_for(public: Seq<char>, ciphertext: Seq<u8>, plaintext: Seq<u8>) -> bool {
    forall|secret: Seq<char>|
        parses_as_identity(secret) && x25519_public_text(secret) == public ==> #[trigger] x25519_decrypt(
            secret,
            ciphertext,
        ) == Some(plaintext)
}

/// Calls `age::x25519::Identity::generate` and writes the new secret key as
/// text (`to_string`, Bech32 in upper case): claims that the text parses back
/// as an identity. The key is drawn at random; nothing more is said of it.
#[verifier::external_body]
fn age_generate_identity_text() -> (r: String)
    ensures
        parses_as_identity(r@),
{
    age::x25519::Identity::generate().to_string().expose_secret().to_owned()
}

/// Calls `FromStr` for `age::x25519::Identity`: claims that the answer is the
/// one named by `parses_as_identity`.
#[verifier::external_body]
fn age_identity_text_valid(text: &str) -> (r: bool)
    ensures
        r == parses_as_identity(text@),
{
    text.parse::<age::x25519::Identity>().is_ok()
}

/// Calls `age::x25519::Identity::to_public` on the identity that `secret`
/// parses to, and writes the recipient as text: claims that the text is the
/// one named by `x25519_public_text`, starts with `age1` (the Bech32 prefix
/// of age recipients) and parses back as a recipient.
#[verifier::external_body]
fn age_public_text(secret: &str) -> (r: String)
    requires
        parses_as_identity(secret@),
    ensures
        r@ == x25519_public_text(secret@),
        has_prefix(r@, recipient_prefix()),
        parses_as_recipient(r@),
{
    match secret.parse::<age::x25519::Identity>() {
        Ok(identity) => identity.to_public().to_string(),
        Err(_) => String::new(),
    }
}

/// Calls `age::encrypt` with the X25519 recipient that `public` parses to,
/// where `public` is the recipient of an identity: claims that it succeeds
/// (one recipient, written into a vector; the wrapping of the file key panics
/// only on an all-zero shared secret, which the public key of an identity,
/// a clamped scalar times the base point, cannot give), that the ciphertext has the shape of an age file for the plaintext
/// and decrypts to it with every identity of that recipient. Its bytes rest
/// on chance (ephemeral key, file key, nonce), so nothing more is said.
#[verifier::external_body]
fn age_encrypt_to_recipient(public: &str, plaintext: &[u8]) -> (r: Result<
    Vec<u8>,
    age::EncryptError,
>)
    requires
        parses_as_recipient(public@),
        identity_public(public@),
    ensures
        r is Ok,
        r matches Ok(c) ==> age_ciphertext(c@, plaintext@) && encrypted_for(public@, c@, plaintext@),
{
    match public.parse::<age::x25519::Recipient>() {
        Ok(recipient) => age::encrypt(&recipient, plaintext),
        Err(_) => Err(age::EncryptError::MissingRecipients),
    }
}

/// Calls `age::decrypt` with the X25519 identity that `secret` parses to:
/// claims that the result is the one named by `x25519_decrypt`.
#[verifier::external_body]
fn age_decrypt_with_identity(secret: &str, ciphertext: &[u8]) -> (r: Result<
    Vec<u8>,
    age::DecryptError,
>)
    requires
        parses_as_identity(secret@),
    ensures
        x25519_decrypt(secret@, ciphertext@) == match r {
            Ok(p) => Some(p@),
            Err(_) => None::<Seq<u8>>,
        },
{
    match secret.parse::<age::x25519::Identity>() {
        Ok(identity) => age::decrypt(&identity, ciphertext),
        Err(_) => Err(age::DecryptError::KeyDecryptionFailed),
    }
}

/// An X25519 identity (private key), held as its Bech32 text
/// (`AGE-SECRET-KEY-1...`).
pub struct Identity {
    secret: String,
}

impl View for Identity {
    type V = Seq<char>;

    closed spec fn view(&self) -> Seq<char> {
        self.secret@
    }
}

impl Identity {
    #[verifier::type_invariant]
    spec fn parses(self) -> bool {
        parses_as_identity(self.secret@)
    }

    /// The recipient (public key) of this identity.
    pub fn to_public(&self) -> (r: Recipient)
        ensures
            r@ == x25519_public_text(self@),
    {
        proof {
            use_type_invariant(self);
        }
        let public = age_public_text(self.secret.as_str());
        assert(identity_public(public@)) by {
            assert(parses_as_identity(self.secret@) && x25519_public_text(self.secret@) == public@);
        }
        Recipient { public }
    }
}

/// An X25519 recipient (public key) of an identity, held as its Bech32 text
/// (`age1...`).
pub struct Recipient {
    public: String,
}

impl View for Recipient {
    type V = Seq<char>;

    closed spec fn view(&self) -> Seq<char> {
        self.public@
    }
}

impl Recipient {
    #[verifier::type_invariant]
    spec fn parses(self) -> bool {
        parses_as_recipient(self.public@) && identity_public(self.public@)
    }
}

/// Encrypts `plaintext` to an X25519 public key. It always succeeds; the
/// ciphertext has the shape of an age file for `plaintext` and decrypts to it
/// with every identity of the recipient; its bytes are random.
pub fn encrypt_with_recipient(pubkey: &Recipient, plaintext: &[u8]) -> (r: Result<
    Vec<u8>,
    CryptoError,
>)
    ensures
        r is Ok,
        r matches Ok(c) ==> age_ciphertext(c@, plaintext@) && encrypted_for(pubkey@, c@, plaintext@),
{
    proof {
        use_type_invariant(pubkey);
    }
    match age_encrypt_to_recipient(pubkey.public.as_str(), plaintext) {
        Ok(c) => Ok(c),
        Err(_) => Err(CryptoError::EncryptionFailed),
    }
}

/// Decrypts `ciphertext` with an X25519 identity (private key).
pub fn decrypt_with_identity(identity: &Identity, ciphertext: &[u8]) -> (r: Result<
    Vec<u8>,
    CryptoError,
>)
    ensures
        x25519_decrypt(identity@, ciphertext@) == match r {
            Ok(p) => Some(p@),
            Err(_) => None::<Seq<u8>>,
        },
        r matches Err(e) ==> e is DecryptionFailed,
{
    proof {
        use_type_invariant(identity);
    }
    match age_decrypt_with_identity(identity.secret.as_str(), ciphertext) {
        Ok(p) => Ok(p),
        Err(_) => Err(CryptoError::DecryptionFailed),
    }
}

/// Generates a new X25519 key pair.
pub fn generate_keypair() -> (r: Identity)
    ensures
        parses_as_identity(r@),
{
    Identity { secret: age_generate_identity_text() }
}

/// Reads an X25519 identity from the text of an age key file (the private
/// key): an error exactly when the text is no identity.
pub fn identity_from_string(s: &str) -> (r: Result<Identity, CryptoError>)
    ensures
        r is Ok <==> parses_as_identity(s@),
        r matches Ok(identity) ==> identity@ == s@,
        r matches Err(e) ==> e is InvalidIdentity,
{
    if age_identity_text_valid(s) {
        Ok(Identity { secret: s.to_owned() })
    } else {
        Err(CryptoError::InvalidIdentity)
    }
}

/// Formats an identity's public key as a Bech32 string, which starts with
/// `age1`.
pub fn public_key_string(identity: &Identity) -> (r: String)
    ensures
        r@ == x25519_public_text(identity@),
        has_prefix(r@, recipient_prefix()),
{
    proof {
        use_type_invariant(identity);
    }
    age_public_text(identity.secret.as_str())
}

/// What is encrypted with a passphrase decrypts with the same passphrase, where
/// decryption succeeds, to the plaintext.
pub proof fn law_passphrase_roundtrip(
    passphrase: Seq<char>,
    ciphertext: Seq<u8>,
    plaintext: Seq<u8>,
    decrypted: Seq<u8>,
)
    requires
        scrypt_plaintext(passphrase, ciphertext) == plaintext,
        decrypted == scrypt_plaintext(passphrase, ciphertext),
    ensures
        decrypted == plaintext,
{
}

/// What is encrypted to an identity's recipient decrypts, with that identity,
/// to the plaintext.
pub proof fn law_x25519_roundtrip(secret: Seq<char>, ciphertext: Seq<u8>, plaintext: Seq<u8>)
    requires
        parses_as_identity(secret),
        encrypted_for(x25519_public_text(secret), ciphertext, plaintext),
    ensures
        x25519_decrypt(secret, ciphertext) == Some(plaintext),
{
}

} // verus!
