//! Login cryptography: the server key pair, the verify token, the session
//! hash in the session service's signed-hex form, and the CFB8 stream ciphers
//! that protect a connection once login succeeds.
use std::sync::Arc;

use cfb8::cipher::{AsyncStreamCipher, NewCipher};
use rsa::PublicKeyParts;

use vstd::prelude::*;
use vstd::string::*;

verus! {

broadcast use vstd::string::group_string_axioms;

/// The salt hashed in front of the shared secret when the session service
/// checks a login: the ASCII text `hiero|rejectnormalcy`.
pub open spec fn server_id_bytes() -> Seq<u8> {
    seq![
        0x68u8, 0x69, 0x65, 0x72, 0x6f, 0x7c, 0x72, 0x65, 0x6a, 0x65, 0x63, 0x74, 0x6e, 0x6f,
        0x72, 0x6d, 0x61, 0x6c, 0x63, 0x79,
    ]
}

/// The server id's bytes.
pub fn server_id() -> (r: Vec<u8>)
    ensures
        r@ == server_id_bytes(),
{
    let r: Vec<u8> = vec![
        0x68u8, 0x69, 0x65, 0x72, 0x6f, 0x7c, 0x72, 0x65, 0x6a, 0x65, 0x63, 0x74, 0x6e, 0x6f,
        0x72, 0x6d, 0x61, 0x6c, 0x63, 0x79,
    ];
    assert(r@ =~= server_id_bytes());
    r
}

/// The random bytes a client must echo back during an online-mode login.
pub type VerifyToken = [u8; 8];

// ---------------------------------------------------------------------------
// Outside types.

#[verifier::external_type_specification]
#[verifier::external_body]
pub struct ExRsaPrivateKey(rsa::RsaPrivateKey);

#[verifier::external_type_specification]
#[verifier::external_body]
pub struct ExRsaError(rsa::errors::Error);

/// Holds a `cfb8::Cfb8<aes::Aes128>`: Verus refuses to declare `Cfb8` with
/// its block-cipher bounds, so the cipher is kept out of its sight here.
#[verifier::external_body]
struct Cfb8Aes128 {
    cipher: cfb8::Cfb8<aes::Aes128>,
}

/// Relies on `rand::random`: a value drawn from the standard distribution.
pub assume_specification<T>[ rand::random::<T> ]() -> (r: T)
    where
        rand::distributions::Standard: rand::distributions::Distribution<T>,
;

// ---------------------------------------------------------------------------
// Names for what outside functions compute.

/// The SHA-1 digest of `data`.
pub uninterp spec fn sha1_of(data: Seq<u8>) -> Seq<u8>;

/// The AES-128-CFB8 encryption, under `key` used as both key and IV, of the
/// stream `plain`.
pub uninterp spec fn cfb8_encrypt(key: Seq<u8>, plain: Seq<u8>) -> Seq<u8>;

/// The AES-128-CFB8 decryption, under `key` used as both key and IV, of the
/// stream `cipher`.
pub uninterp spec fn cfb8_decrypt(key: Seq<u8>, cipher: Seq<u8>) -> Seq<u8>;

// ---------------------------------------------------------------------------
// Keys.

/// Relies on `rsa::RsaPrivateKey::new` with the operating system's random
/// source: a fresh key pair of the given size, or the error it reports.
#[verifier::external_body]
fn generate_private_key(bits: usize) -> (r: Result<rsa::RsaPrivateKey, rsa::errors::Error>) {
    rsa::RsaPrivateKey::new(&mut rand::rngs::OsRng, bits)
}

/// Relies on `rsa_der::public_key_to_der`: the DER encoding of the public
/// half of `key`, from its modulus and exponent.
#[verifier::external_body]
fn public_key_der(key: &rsa::RsaPrivateKey) -> (r: Vec<u8>) {
    rsa_der::public_key_to_der(&key.n().to_bytes_be(), &key.e().to_bytes_be())
}

/// Relies on `rsa::RsaPrivateKey::decrypt` with PKCS#1 v1.5 padding: the
/// plaintext, or the error it reports.
#[verifier::external_body]
fn rsa_decrypt(key: &rsa::RsaPrivateKey, ciphertext: &[u8]) -> (r: Result<Vec<u8>, rsa::errors::Error>) {
    key.decrypt(rsa::PaddingScheme::PKCS1v15Encrypt, ciphertext)
}

/// Why the server's key pair could not be made or used.
#[derive(Debug, Clone, Copy, PartialEq, Eq)]
pub enum KeyError {
    /// The key could not be generated.
    Generation,
    /// A ciphertext did not decrypt.
    Decryption,
}

/// The server's RSA key pair and the DER encoding of its public half, shared
/// read-only by every connection.
#[derive(Clone)]
pub struct Keys {
    pub priv_key: Arc<rsa::RsaPrivateKey>,
    pub pub_key_der: Arc<Vec<u8>>,
}

/// The size of the server's RSA key in bits.
pub const KEY_BITS: usize = 1024;

impl Keys {
    /// Generates a fresh 1024-bit key pair.
    pub fn new() -> (r: Result<Keys, KeyError>)
        ensures
            r is Err ==> r == Err::<Keys, KeyError>(KeyError::Generation),
    {
        match generate_private_key(KEY_BITS) {
            Ok(key) => {
                let der = public_key_der(&key);
                Ok(Keys { priv_key: Arc::new(key), pub_key_der: Arc::new(der) })
            },
            Err(_) => Err(KeyError::Generation),
        }
    }

    /// Decrypts a PKCS#1 v1.5 ciphertext with the private key.
    pub fn decrypt(&self, ciphertext: &[u8]) -> (r: Result<Vec<u8>, KeyError>)
        ensures
            r is Err ==> r == Err::<Vec<u8>, KeyError>(KeyError::Decryption),
    {
        match rsa_decrypt(&self.priv_key, ciphertext) {
            Ok(v) => Ok(v),
            Err(_) => Err(KeyError::Decryption),
        }
    }
}

// ---------------------------------------------------------------------------
// Verify tokens.

/// The per-connection state of an online-mode login between the client's
/// login start and its encryption response.
#[derive(Debug)]
pub struct AuthSession {
    pub username: String,
    pub verify_token: VerifyToken,
}

impl AuthSession {
    /// Starts a session with a fresh random verify token.
    pub fn new(username: String) -> (r: AuthSession)
        ensures
            r.username@ == username@,
    {
        AuthSession { username, verify_token: rand::random::<[u8; 8]>() }
    }
}

/// A decrypted verify token is accepted when it begins with the stored one;
/// the client may send a longer buffer.
pub open spec fn token_accepted(stored: Seq<u8>, received: Seq<u8>) -> bool {
    received.len() >= stored.len() && received.subrange(0, stored.len() as int) == stored
}

/// Whether `received` begins with the stored token.
pub fn verify_token_matches(stored: &VerifyToken, received: &[u8]) -> (r: bool)
    ensures
        r == token_accepted(stored@, received@),
{
    if received.len() < 8 {
        return false;
    }
    let mut k: usize = 0;
    while k < 8
        invariant
            k <= 8,
            received@.len() >= 8,
            stored@.len() == 8,
            forall|j: int| 0 <= j < k ==> received@[j] == stored@[j],
        decreases 8 - k,
    {
        if received[k] != stored[k] {
            assert(received@.subrange(0, 8)[k as int] != stored@[k as int]);
            return false;
        }
        k = k + 1;
    }
    assert(received@.subrange(0, 8) =~= stored@);
    true
}

/// A token is rejected unless it starts with the stored bytes, and any
/// padding after exactly those bytes is accepted.
pub proof fn lemma_verify_token(stored: Seq<u8>, received: Seq<u8>, padding: Seq<u8>)
    ensures
        token_accepted(stored, stored + padding),
        !(received.len() >= stored.len() && received.subrange(0, stored.len() as int) == stored)
            ==> !token_accepted(stored, received),
{
    assert((stored + padding).subrange(0, stored.len() as int) =~= stored);
}

// ---------------------------------------------------------------------------
// The session hash.

/// The digit for a nibble, in lower case.
pub open spec fn hex_digit(n: nat) -> char {
    if n < 10 {
        (0x30 + n) as char
    } else {
        (0x61 + n - 10) as char
    }
}

/// Two lower-case hex digits per byte, high nibble first.
pub open spec fn hex_of(b: Seq<u8>) -> Seq<char>
    decreases b.len(),
{
    if b.len() == 0 {
        Seq::empty()
    } else {
        seq![hex_digit(b[0] as nat / 16), hex_digit(b[0] as nat % 16)] + hex_of(b.drop_first())
    }
}

/// `s` without its leading `'0'`s.
pub open spec fn trim_zeros(s: Seq<char>) -> Seq<char>
    decreases s.len(),
{
    if s.len() > 0 && s[0] == '0' {
        trim_zeros(s.drop_first())
    } else {
        s
    }
}

/// Two's-complement negation of the big-endian bytes `d`: every byte
/// inverted, then one added with the carry running from the last byte
/// towards the first. `carry` is the carry into the last byte of `d`.
pub open spec fn negate_bytes(d: Seq<u8>, carry: bool) -> Seq<u8>
    decreases d.len(),
{
    if d.len() == 0 {
        Seq::empty()
    } else {
        let inv = 255 - d.last();
        let byte = if carry { (inv + 1) % 256 } else { inv };
        let carry_out = carry && inv == 255;
        negate_bytes(d.drop_last(), carry_out).push(byte as u8)
    }
}

/// The digest `d` read as a big-endian two's-complement number, written in
/// hex without leading zeros, with a `-` in front when negative.
pub open spec fn mojang_hex(d: Seq<u8>) -> Seq<char> {
    if d[0] >= 0x80 {
        seq!['-'] + trim_zeros(hex_of(negate_bytes(d, true)))
    } else {
        trim_zeros(hex_of(d))
    }
}

/// Relies on `hex::encode`: two lower-case digits per byte, high nibble first.
#[verifier::external_body]
fn hex_encode(b: &[u8]) -> (r: String)
    ensures
        r@ == hex_of(b@),
{
    hex::encode(b)
}

/// Relies on `sha1::Sha1`: the SHA-1 digest of `data`.
#[verifier::external_body]
fn sha1_digest(data: &[u8]) -> (r: [u8; 20])
    ensures
        r@ == sha1_of(data@),
{
    sha1::Sha1::from(data).digest().bytes()
}

/// Two's-complement negation of big-endian bytes.
fn negate(d: &[u8]) -> (r: Vec<u8>)
    ensures
        r@ == negate_bytes(d@, true),
{
    let n = d.len();
    let mut out: Vec<u8> = Vec::new();
    let mut k: usize = 0;
    while k < n
        invariant
            k <= n == d@.len(),
            out@.len() == k,
        decreases n - k,
    {
        out.push(0);
        k = k + 1;
    }
    let mut carry = true;
    let mut i: usize = n;
    assert(d@.subrange(0, n as int) =~= d@);
    assert(out@.subrange(n as int, n as int) =~= Seq::<u8>::empty());
    while i > 0
        invariant
            i <= n == d@.len(),
            out@.len() == n,
            negate_bytes(d@, true) == negate_bytes(d@.subrange(0, i as int), carry) + out@.subrange(
                i as int,
                n as int,
            ),
        decreases i,
    {
        i = i - 1;
        let inv: u8 = 255 - d[i];
        let byte: u8 = if carry {
            if inv == 255 {
                0
            } else {
                inv + 1
            }
        } else {
            inv
        };
        let ghost old_out = out@;
        let ghost prefix = d@.subrange(0, i as int + 1);
        let ghost old_carry = carry;
        carry = carry && inv == 255;
        out.set(i, byte);
        proof {
            assert(prefix.drop_last() =~= d@.subrange(0, i as int));
            assert(prefix.last() == d@[i as int]);
            assert(negate_bytes(prefix, old_carry) == negate_bytes(d@.subrange(0, i as int), carry).push(
                byte,
            ));
            assert(out@.subrange(i as int, n as int) =~= seq![byte] + old_out.subrange(
                i as int + 1,
                n as int,
            ));
            assert(negate_bytes(d@.subrange(0, i as int), carry).push(byte) + old_out.subrange(
                i as int + 1,
                n as int,
            ) =~= negate_bytes(d@.subrange(0, i as int), carry) + out@.subrange(i as int, n as int));
        }
    }
    assert(d@.subrange(0, 0) =~= Seq::<u8>::empty());
    assert(out@.subrange(0, n as int) =~= out@);
    out
}

/// `s` without its leading `'0'`s.
fn trim_leading_zeros(s: &str) -> (r: &str)
    ensures
        r@ == trim_zeros(s@),
{
    let n = s.unicode_len();
    let mut k: usize = 0;
    assert(s@.subrange(0, n as int) =~= s@);
    while k < n && s.get_char(k) == '0'
        invariant
            k <= n == s@.len(),
            trim_zeros(s@) == trim_zeros(s@.subrange(k as int, n as int)),
        decreases n - k,
    {
        assert(s@.subrange(k as int, n as int).drop_first() =~= s@.subrange(k + 1, n as int));
        k = k + 1;
    }
    assert(k < n ==> s@.subrange(k as int, n as int)[0] == s@[k as int]);
    assert(trim_zeros(s@.subrange(k as int, n as int)) == s@.subrange(k as int, n as int));
    s.substring_char(k, n)
}

/// Formats a digest the way the session service expects: read as a signed
/// big-endian number, in lower-case hex without leading zeros, negative
/// values written as `-` and the magnitude.
pub fn minecraft_style_crappy_hash(input: &[u8]) -> (r: String)
    requires
        input@.len() >= 1,
    ensures
        r@ == mojang_hex(input@),
{
    if input[0] >= 0x80 {
        let magnitude = negate(input);
        let hex = hex_encode(magnitude.as_slice());
        let digits = trim_leading_zeros(hex.as_str());
        let mut out = String::from_str("-");
        proof {
            reveal_strlit("-");
        }
        out.append(digits);
        out
    } else {
        let hex = hex_encode(input);
        let digits = trim_leading_zeros(hex.as_str());
        digits.to_owned()
    }
}

/// The bytes the session hash is computed over: the server id, the shared
/// secret and the DER public key, in that order.
pub open spec fn session_hash_input(shared_secret: Seq<u8>, pub_key_der: Seq<u8>) -> Seq<u8> {
    server_id_bytes() + shared_secret + pub_key_der
}

/// The `serverId` a login is checked against: the signed-hex form of the
/// SHA-1 digest of the server id, the shared secret and the public key.
pub fn session_server_hash(shared_secret: &[u8], pub_key_der: &[u8]) -> (r: String)
    ensures
        r@ == mojang_hex(sha1_of(session_hash_input(shared_secret@, pub_key_der@))),
{
    let mut data: Vec<u8> = Vec::new();
    let id = server_id();
    append_bytes(&mut data, id.as_slice());
    append_bytes(&mut data, shared_secret);
    append_bytes(&mut data, pub_key_der);
    let digest = sha1_digest(data.as_slice());
    assert(data@ =~= session_hash_input(shared_secret@, pub_key_der@));
    minecraft_style_crappy_hash(&digest)
}

/// Appends `b` to `buf`.
pub fn append_bytes(buf: &mut Vec<u8>, b: &[u8])
    ensures
        final(buf)@ == old(buf)@ + b@,
{
    let ghost start = buf@;
    let mut k: usize = 0;
    while k < b.len()
        invariant
            k <= b@.len(),
            buf@ == start + b@.subrange(0, k as int),
        decreases b@.len() - k,
    {
        buf.push(b[k]);
        assert(buf@ =~= start + b@.subrange(0, k + 1));
        k = k + 1;
    }
    assert(b@.subrange(0, k as int) =~= b@);
}

// ---------------------------------------------------------------------------
// Stream ciphers.

/// One direction of an encrypted connection: AES-128-CFB8 keyed with the
/// shared secret, which also serves as the IV. A cipher is made for one
/// direction and used only in it. `processed` is every byte that has gone
/// through it: plaintext for an encryptor, ciphertext for a decryptor.
pub struct StreamCipher {
    inner: Cfb8Aes128,
    secret: Ghost<Seq<u8>>,
    stream: Ghost<Seq<u8>>,
    decrypting: Ghost<bool>,
}

impl StreamCipher {
    /// The shared secret the cipher was keyed with.
    pub closed spec fn key(&self) -> Seq<u8> {
        self.secret@
    }

    /// Every byte that has gone through the cipher so far.
    pub closed spec fn processed(&self) -> Seq<u8> {
        self.stream@
    }

    /// Whether the cipher decrypts (else it encrypts).
    pub closed spec fn decrypts(&self) -> bool {
        self.decrypting@
    }

    /// Relies on `cipher::NewCipher::new_from_slices` for CFB8 over AES-128:
    /// it accepts exactly a 16-byte key and a 16-byte IV. The cipher made
    /// encrypts.
    #[verifier::external_body]
    pub(crate) fn new_encryptor(secret: &[u8]) -> (r: Option<StreamCipher>)
        ensures
            r is Some <==> secret@.len() == 16,
            r matches Some(c) ==> c.key() == secret@ && c.processed() == Seq::<u8>::empty()
                && !c.decrypts(),
    {
        match cfb8::Cfb8::<aes::Aes128>::new_from_slices(secret, secret) {
            Ok(cipher) => Some(
                StreamCipher {
                    inner: Cfb8Aes128 { cipher },
                    secret: Ghost(secret@),
                    stream: Ghost(Seq::empty()),
                    decrypting: Ghost(false),
                },
            ),
            Err(_) => None,
        }
    }

    /// Relies on `cipher::NewCipher::new_from_slices` for CFB8 over AES-128:
    /// it accepts exactly a 16-byte key and a 16-byte IV. The cipher made
    /// decrypts.
    #[verifier::external_body]
    pub(crate) fn new_decryptor(secret: &[u8]) -> (r: Option<StreamCipher>)
        ensures
            r is Some <==> secret@.len() == 16,
            r matches Some(c) ==> c.key() == secret@ && c.processed() == Seq::<u8>::empty()
                && c.decrypts(),
    {
        match cfb8::Cfb8::<aes::Aes128>::new_from_slices(secret, secret) {
            Ok(cipher) => Some(
                StreamCipher {
                    inner: Cfb8Aes128 { cipher },
                    secret: Ghost(secret@),
                    stream: Ghost(Seq::empty()),
                    decrypting: Ghost(true),
                },
            ),
            Err(_) => None,
        }
    }

    /// Relies on `cipher::AsyncStreamCipher::encrypt` for CFB8, which keeps
    /// its register between calls and turns each byte in place: the bytes
    /// become the next part of the encryption of the whole plaintext stream,
    /// and what was output before stays a prefix of it.
    #[verifier::external_body]
    pub(crate) fn encrypt(&mut self, data: &mut Vec<u8>)
        requires
            !old(self).decrypts(),
        ensures
            !final(self).decrypts(),
            final(self).key() == old(self).key(),
            final(self).processed() == old(self).processed() + old(data)@,
            final(data)@.len() == old(data)@.len(),
            cfb8_encrypt(final(self).key(), final(self).processed()).len()
                == final(self).processed().len(),
            cfb8_encrypt(final(self).key(), final(self).processed()).subrange(
                0,
                old(self).processed().len() as int,
            ) == cfb8_encrypt(old(self).key(), old(self).processed()),
            final(data)@ == cfb8_encrypt(final(self).key(), final(self).processed()).subrange(
                old(self).processed().len() as int,
                final(self).processed().len() as int,
            ),
    {
        self.inner.cipher.encrypt(data.as_mut_slice())
    }

    /// Relies on `cipher::AsyncStreamCipher::decrypt` for CFB8, which keeps
    /// its register between calls and turns each byte in place: the bytes
    /// become the next part of the decryption of the whole ciphertext
    /// stream, and what was output before stays a prefix of it.
    #[verifier::external_body]
    pub(crate) fn decrypt(&mut self, data: &mut Vec<u8>)
        requires
            old(self).decrypts(),
        ensures
            final(self).decrypts(),
            final(self).key() == old(self).key(),
            final(self).processed() == old(self).processed() + old(data)@,
            final(data)@.len() == old(data)@.len(),
            cfb8_decrypt(final(self).key(), final(self).processed()).len()
                == final(self).processed().len(),
            cfb8_decrypt(final(self).key(), final(self).processed()).subrange(
                0,
                old(self).processed().len() as int,
            ) == cfb8_decrypt(old(self).key(), old(self).processed()),
            final(data)@ == cfb8_decrypt(final(self).key(), final(self).processed()).subrange(
                old(self).processed().len() as int,
                final(self).processed().len() as int,
            ),
    {
        self.inner.cipher.decrypt(data.as_mut_slice())
    }
}

// ---------------------------------------------------------------------------
// Player ids.

/// Relies on `uuid::Uuid::new_v4`: a random UUID, as a 128-bit number, whose
/// version nibble is 4 and whose variant bits are those of RFC 4122.
#[verifier::external_body]
pub(crate) fn new_player_uuid() -> (r: u128)
    ensures
        (r as nat / 0x1000_0000_0000_0000_0000) % 16 == 4,
        (r as nat / 0x4000_0000_0000_0000) % 4 == 2,
{
    uuid::Uuid::new_v4().as_u128()
}

} // verus!
