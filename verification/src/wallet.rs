//! Encrypted wallet entries: the `GLWALLET` envelope around an AES-256-GCM
//! ciphertext whose key is derived from the wallet password with Argon2id,
//! its Base64 text form as stored in `wallet_keys`, and the parsing of the
//! private key itself.
use vstd::prelude::*;
use vstd::string::*;
use vstd::utf8::*;
use crate::text::{
    trim, trim_spec, is_ws, chars_of, string_from_chars, parse_unsigned, parse_unsigned_spec,
    is_ws_char, split_on, split_char, string_views, last_index_of, find_last, contains_char,
    lemma_last_index_of_bounds, lemma_split_on_nonempty, strip_start_spec, strip_end_spec,
    lemma_split_on_concat, lemma_strip_start_head,
    strip_start_chars, strip_end_chars, eq_ignore_ascii_case, eq_ignore_case_spec, lines_of,
    text_lines, trim_start_spec, lemma_trim_start_skip,
};
use aes_gcm::aead::{Aead, KeyInit};
use aes_gcm::aead::rand_core::RngCore;
use base64::Engine;

verus! {

/// Version byte written after the magic.
pub const FORMAT_VERSION: u8 = 1;

/// Length of the Argon2 salt stored in the envelope.
pub const SALT_SIZE: usize = 16;

/// Length of the AES-GCM nonce stored in the envelope.
pub const NONCE_SIZE: usize = 12;

/// How many wrong passwords are tolerated before unlocking gives up.
pub const MAX_PASSWORD_ATTEMPTS: usize = 3;

/// Largest plaintext AES-GCM accepts (`P_MAX` of the `aes-gcm` crate).
pub const AES_GCM_MAX_PLAINTEXT: u64 = 68719476736;

/// The eight bytes `GLWALLET` that open every envelope.
pub open spec fn magic_spec() -> Seq<u8> {
    seq![0x47u8, 0x4cu8, 0x57u8, 0x41u8, 0x4cu8, 0x4cu8, 0x45u8, 0x54u8]
}

/// Length of magic plus version byte plus salt plus nonce.
pub open spec fn envelope_header_len() -> int {
    37int
}

/// The envelope around a ciphertext: magic, version, salt, nonce, ciphertext.
pub open spec fn frame_spec(salt: Seq<u8>, nonce: Seq<u8>, ciphertext: Seq<u8>) -> Seq<u8> {
    magic_spec() + seq![FORMAT_VERSION] + salt + nonce + ciphertext
}

/// Why a wallet entry could not be opened or created.
#[derive(PartialEq, Eq, Structural, Clone, Copy, Debug)]
pub enum WalletError {
    /// The envelope is shorter than its fixed header.
    Malformed,
    /// The envelope does not start with the magic bytes.
    UnknownFormat,
    /// The envelope has another version byte.
    UnsupportedVersion(u8),
    /// Authentication of the ciphertext failed: wrong password or damaged data.
    WrongPasswordOrCorrupt,
    /// The decrypted key is not UTF-8 text.
    InvalidUtf8,
    /// The stored text is not Base64.
    InvalidBase64,
    /// The plaintext is larger than AES-GCM accepts.
    PlaintextTooLong,
}

/// What `split_wallet_blob` makes of an envelope: salt, nonce and ciphertext,
/// or the reason it is refused.
pub open spec fn blob_parts_spec(data: Seq<u8>) -> Result<(Seq<u8>, Seq<u8>, Seq<u8>), WalletError> {
    if data.len() < envelope_header_len() {
        Err(WalletError::Malformed)
    } else if data.subrange(0, 8) != magic_spec() {
        Err(WalletError::UnknownFormat)
    } else if data[8] != FORMAT_VERSION {
        Err(WalletError::UnsupportedVersion(data[8]))
    } else {
        Ok((data.subrange(9, 25), data.subrange(25, 37), data.subrange(37, data.len() as int)))
    }
}

/// The parts of an envelope.
pub struct WalletBlob {
    pub salt: Vec<u8>,
    pub nonce: Vec<u8>,
    pub ciphertext: Vec<u8>,
}

/// The magic bytes.
pub fn wallet_magic() -> (v: Vec<u8>)
    ensures
        v@ == magic_spec(),
{
    let v: Vec<u8> = vec![0x47u8, 0x4cu8, 0x57u8, 0x41u8, 0x4cu8, 0x4cu8, 0x45u8, 0x54u8];
    assert(v@ =~= magic_spec());
    v
}

fn append_bytes(out: &mut Vec<u8>, src: &Vec<u8>)
    ensures
        final(out)@ == old(out)@ + src@,
{
    let n = src.len();
    for i in 0..n
        invariant
            n == src.len(),
            out@ == old(out)@ + src@.subrange(0, i as int),
    {
        out.push(src[i]);
        assert(out@ =~= old(out)@ + src@.subrange(0, i + 1));
    }
    assert(src@.subrange(0, n as int) =~= src@);
}

fn copy_range(src: &Vec<u8>, from: usize, to: usize) -> (v: Vec<u8>)
    requires
        from <= to <= src.len(),
    ensures
        v@ == src@.subrange(from as int, to as int),
{
    let mut v: Vec<u8> = Vec::new();
    for i in from..to
        invariant
            to <= src.len(),
            v@ == src@.subrange(from as int, i as int),
    {
        v.push(src[i]);
        assert(v@ =~= src@.subrange(from as int, i + 1));
    }
    v
}

/// Puts salt, nonce and ciphertext into the envelope.
pub fn frame_wallet_blob(salt: &Vec<u8>, nonce: &Vec<u8>, ciphertext: &Vec<u8>) -> (v: Vec<u8>)
    ensures
        v@ == frame_spec(salt@, nonce@, ciphertext@),
{
    let mut v = wallet_magic();
    v.push(FORMAT_VERSION);
    append_bytes(&mut v, salt);
    append_bytes(&mut v, nonce);
    append_bytes(&mut v, ciphertext);
    assert(v@ =~= frame_spec(salt@, nonce@, ciphertext@));
    v
}

/// Takes an envelope apart, refusing short data, foreign magic and other versions.
pub fn split_wallet_blob(data: &Vec<u8>) -> (r: Result<WalletBlob, WalletError>)
    ensures
        match r {
            Ok(b) => blob_parts_spec(data@) == Ok::<(Seq<u8>, Seq<u8>, Seq<u8>), WalletError>((b.salt@, b.nonce@, b.ciphertext@)),
            Err(e) => blob_parts_spec(data@) == Err::<(Seq<u8>, Seq<u8>, Seq<u8>), WalletError>(e),
        },
{
    if data.len() < 37 {
        return Err(WalletError::Malformed);
    }
    let magic = wallet_magic();
    let mut i: usize = 0;
    while i < 8
        invariant
            magic@ == magic_spec(),
            data@.len() >= 37,
            i <= 8,
            data@.subrange(0, i as int) == magic_spec().subrange(0, i as int),
        decreases 8 - i,
    {
        if data[i] != magic[i] {
            assert(data@.subrange(0, 8)[i as int] != magic_spec()[i as int]);
            return Err(WalletError::UnknownFormat);
        }
        assert(data@.subrange(0, i + 1) =~= data@.subrange(0, i as int).push(data@[i as int]));
        assert(magic_spec().subrange(0, i + 1) =~= magic_spec().subrange(0, i as int).push(magic_spec()[i as int]));
        i = i + 1;
    }
    assert(magic_spec().subrange(0, 8) =~= magic_spec());
    if data[8] != FORMAT_VERSION {
        return Err(WalletError::UnsupportedVersion(data[8]));
    }
    let salt = copy_range(data, 9, 25);
    let nonce = copy_range(data, 25, 37);
    let ciphertext = copy_range(data, 37, data.len());
    Ok(WalletBlob { salt, nonce, ciphertext })
}

/// Framing and taking apart are inverse: an envelope made from a salt and a
/// nonce of the stored sizes gives back exactly that salt, nonce and ciphertext.
pub proof fn lemma_split_frame(salt: Seq<u8>, nonce: Seq<u8>, ciphertext: Seq<u8>)
    requires
        salt.len() == SALT_SIZE,
        nonce.len() == NONCE_SIZE,
    ensures
        blob_parts_spec(frame_spec(salt, nonce, ciphertext)) == Ok::<(Seq<u8>, Seq<u8>, Seq<u8>), WalletError>((salt, nonce, ciphertext)),
{
    let d = frame_spec(salt, nonce, ciphertext);
    assert(d.subrange(0, 8) =~= magic_spec());
    assert(d[8] == FORMAT_VERSION);
    assert(d.subrange(9, 25) =~= salt);
    assert(d.subrange(25, 37) =~= nonce);
    assert(d.subrange(37, d.len() as int) =~= ciphertext);
}

// ---------------------------------------------------------------------------
// Key derivation and authenticated encryption.

/// The 32-byte key that Argon2id (v0x13) derives from a password and a salt
/// with a memory cost in KiB, a number of passes and a number of lanes.
pub uninterp spec fn argon2id_key(password: Seq<u8>, salt: Seq<u8>, m_cost: u32, t_cost: u32, p_cost: u32) -> Seq<u8>;

/// The memory Argon2id uses for a wallet key, in KiB (128 MiB).
pub const ARGON2_MEMORY_KIB: u32 = 131072;
/// The passes Argon2id makes for a wallet key.
pub const ARGON2_PASSES: u32 = 3;
/// The lanes Argon2id uses for a wallet key.
pub const ARGON2_LANES: u32 = 4;

/// The wallet key of a password and a salt, under the wallet's parameters.
pub open spec fn wallet_key(password: Seq<u8>, salt: Seq<u8>) -> Seq<u8> {
    argon2id_key(password, salt, ARGON2_MEMORY_KIB, ARGON2_PASSES, ARGON2_LANES)
}

/// The ciphertext (with its tag) that AES-256-GCM gives for a key, a nonce and
/// a plaintext, without associated data.
pub uninterp spec fn aes256gcm_seal(key: Seq<u8>, nonce: Seq<u8>, plaintext: Seq<u8>) -> Seq<u8>;

/// What AES-256-GCM decryption gives for a key, a nonce and a ciphertext:
/// the plaintext, or nothing when authentication fails.
pub uninterp spec fn aes256gcm_open(key: Seq<u8>, nonce: Seq<u8>, ciphertext: Seq<u8>) -> Option<Seq<u8>>;

/// Derives a 32-byte key with `argon2::Params::new` and
/// `argon2::Argon2::hash_password_into` (Argon2id, v0x13). Trusted: the result
/// is named by `argon2id_key`; as the crate's source shows, `Params::new`
/// accepts the costs the `requires` admits, and `hash_password_into` rejects
/// only salts shorter than 8 bytes and over-long inputs, so with a 16-byte
/// salt the call succeeds and fills all 32 bytes.
#[verifier::external_body]
fn derive_encryption_key(password: &[u8], salt: &Vec<u8>, m_cost: u32, t_cost: u32, p_cost: u32) -> (key: Vec<u8>)
    requires
        salt@.len() == SALT_SIZE,
        password@.len() <= 0xffff_ffff,
        1 <= p_cost <= 0xff_ffff,
        m_cost >= 8,
        m_cost >= 8 * p_cost,
        t_cost >= 1,
    ensures
        key@ == argon2id_key(password@, salt@, m_cost, t_cost, p_cost),
        key@.len() == 32,
{
    let params = argon2::Params::new(m_cost, t_cost, p_cost, Some(32)).expect("valid parameters");
    let argon = argon2::Argon2::new(argon2::Algorithm::Argon2id, argon2::Version::V0x13, params);
    let mut key = [0u8; 32];
    argon.hash_password_into(password, salt.as_slice(), &mut key).expect("salt and password lengths are valid");
    key.to_vec()
}

/// Encrypts with `aes_gcm::Aes256Gcm::encrypt`. Trusted: the result is named by
/// `aes256gcm_seal`; the crate refuses plaintexts longer than `P_MAX`, and
/// nothing else for a 32-byte key and a 12-byte nonce.
#[verifier::external_body]
fn aes_gcm_seal(key: &Vec<u8>, nonce: &Vec<u8>, plaintext: &[u8]) -> (r: Option<Vec<u8>>)
    requires
        key@.len() == 32,
        nonce@.len() == NONCE_SIZE,
    ensures
        match r {
            Some(c) => c@ == aes256gcm_seal(key@, nonce@, plaintext@),
            None => plaintext@.len() > AES_GCM_MAX_PLAINTEXT,
        },
{
    let cipher = aes_gcm::Aes256Gcm::new_from_slice(key.as_slice()).ok()?;
    cipher.encrypt(aes_gcm::Nonce::from_slice(nonce.as_slice()), plaintext).ok()
}

/// Decrypts with `aes_gcm::Aes256Gcm::decrypt`. Trusted: the result is named by
/// `aes256gcm_open`, and, as for any AEAD, a ciphertext sealed under the same
/// key and nonce opens to its plaintext.
#[verifier::external_body]
fn aes_gcm_open(key: &Vec<u8>, nonce: &Vec<u8>, ciphertext: &Vec<u8>) -> (r: Option<Vec<u8>>)
    requires
        key@.len() == 32,
        nonce@.len() == NONCE_SIZE,
    ensures
        r.is_some() == aes256gcm_open(key@, nonce@, ciphertext@).is_some(),
        r.is_some() ==> aes256gcm_open(key@, nonce@, ciphertext@) == Some(r.unwrap()@),
        forall|p: Seq<u8>| ciphertext@ == #[trigger] aes256gcm_seal(key@, nonce@, p)
            ==> r.is_some() && r.unwrap()@ == p,
{
    let cipher = aes_gcm::Aes256Gcm::new_from_slice(key.as_slice()).ok()?;
    cipher.decrypt(aes_gcm::Nonce::from_slice(nonce.as_slice()), ciphertext.as_slice()).ok()
}

/// Fills `len` bytes from the operating system's generator (`aes_gcm::aead::OsRng`).
/// Trusted for the length only: the bytes are random.
#[verifier::external_body]
fn random_bytes(len: usize) -> (v: Vec<u8>)
    ensures
        v@.len() == len,
{
    let mut v = vec![0u8; len];
    aes_gcm::aead::OsRng.fill_bytes(&mut v);
    v
}

/// UTF-8 text of `bytes` with `String::from_utf8`: present exactly when the
/// bytes are valid UTF-8, and then their decoding.
#[verifier::external_body]
fn string_from_utf8(bytes: Vec<u8>) -> (r: Option<String>)
    ensures
        r.is_some() == valid_utf8(bytes@),
        r matches Some(s) ==> s@ == decode_utf8(bytes@),
{
    String::from_utf8(bytes).ok()
}

/// The envelope that `encrypt_wallet_key` writes for a plaintext, a password,
/// a salt and a nonce.
pub open spec fn sealed_blob_spec(plaintext: Seq<u8>, password: Seq<u8>, salt: Seq<u8>, nonce: Seq<u8>) -> Seq<u8> {
    frame_spec(salt, nonce, aes256gcm_seal(wallet_key(password, salt), nonce, plaintext))
}

/// What `decrypt_wallet_bytes` gives for an envelope and a password.
pub open spec fn opened_spec(data: Seq<u8>, password: Seq<u8>) -> Result<Seq<char>, WalletError> {
    match blob_parts_spec(data) {
        Err(e) => Err(e),
        Ok(parts) => match aes256gcm_open(wallet_key(password, parts.0), parts.1, parts.2) {
            None => Err(WalletError::WrongPasswordOrCorrupt),
            Some(p) => if valid_utf8(p) {
                Ok(decode_utf8(p))
            } else {
                Err(WalletError::InvalidUtf8)
            },
        },
    }
}

/// Encrypts a private key under a password: a fresh random salt and nonce,
/// the Argon2id key, AES-256-GCM, and the envelope around it.
pub fn encrypt_wallet_key(plaintext: &[u8], password: &str) -> (r: Result<Vec<u8>, WalletError>)
    requires
        password.spec_bytes().len() <= 0xffff_ffff,
    ensures
        match r {
            Ok(d) => exists|salt: Seq<u8>, nonce: Seq<u8>|
                salt.len() == SALT_SIZE && nonce.len() == NONCE_SIZE
                && d@ == #[trigger] sealed_blob_spec(plaintext@, password.spec_bytes(), salt, nonce),
            Err(e) => e == WalletError::PlaintextTooLong && plaintext@.len() > AES_GCM_MAX_PLAINTEXT,
        },
{
    let salt = random_bytes(SALT_SIZE);
    let nonce = random_bytes(NONCE_SIZE);
    let pw = password.as_bytes();
    let key = derive_encryption_key(pw, &salt, ARGON2_MEMORY_KIB, ARGON2_PASSES, ARGON2_LANES);
    match aes_gcm_seal(&key, &nonce, plaintext) {
        Some(ciphertext) => {
            let data = frame_wallet_blob(&salt, &nonce, &ciphertext);
            assert(data@ == sealed_blob_spec(plaintext@, password.spec_bytes(), salt@, nonce@));
            Ok(data)
        },
        None => Err(WalletError::PlaintextTooLong),
    }
}

/// Opens an envelope with a password. An envelope that `encrypt_wallet_key`
/// made under the same password opens to the text that was sealed.
pub fn decrypt_wallet_bytes(data: &Vec<u8>, password: &str) -> (r: Result<String, WalletError>)
    requires
        password.spec_bytes().len() <= 0xffff_ffff,
    ensures
        match r {
            Ok(s) => opened_spec(data@, password.spec_bytes()) == Ok::<Seq<char>, WalletError>(s@),
            Err(e) => opened_spec(data@, password.spec_bytes()) == Err::<Seq<char>, WalletError>(e),
        },
        forall|p: Seq<u8>, salt: Seq<u8>, nonce: Seq<u8>|
            salt.len() == SALT_SIZE && nonce.len() == NONCE_SIZE
            && data@ == #[trigger] sealed_blob_spec(p, password.spec_bytes(), salt, nonce)
            ==> opened_spec(data@, password.spec_bytes()) == (if valid_utf8(p) {
                Ok::<Seq<char>, WalletError>(decode_utf8(p))
            } else {
                Err::<Seq<char>, WalletError>(WalletError::InvalidUtf8)
            }),
{
    let blob = match split_wallet_blob(data) {
        Ok(b) => b,
        Err(e) => {
            proof {
                assert forall|p: Seq<u8>, salt: Seq<u8>, nonce: Seq<u8>|
                    salt.len() == SALT_SIZE && nonce.len() == NONCE_SIZE
                    && data@ == #[trigger] sealed_blob_spec(p, password.spec_bytes(), salt, nonce)
                    implies false by {
                    lemma_split_frame(salt, nonce, aes256gcm_seal(wallet_key(password.spec_bytes(), salt), nonce, p));
                }
            }
            return Err(e);
        },
    };
    let pw = password.as_bytes();
    let key = derive_encryption_key(pw, &blob.salt, ARGON2_MEMORY_KIB, ARGON2_PASSES, ARGON2_LANES);
    let opened = aes_gcm_open(&key, &blob.nonce, &blob.ciphertext);
    proof {
        assert forall|p: Seq<u8>, salt: Seq<u8>, nonce: Seq<u8>|
            salt.len() == SALT_SIZE && nonce.len() == NONCE_SIZE
            && data@ == #[trigger] sealed_blob_spec(p, password.spec_bytes(), salt, nonce)
            implies aes256gcm_open(key@, blob.nonce@, blob.ciphertext@) == Some(p) by {
            let c = aes256gcm_seal(wallet_key(password.spec_bytes(), salt), nonce, p);
            lemma_split_frame(salt, nonce, c);
            assert(blob.salt@ == salt);
            assert(blob.nonce@ == nonce);
            assert(blob.ciphertext@ == c);
            assert(blob.ciphertext@ == aes256gcm_seal(key@, blob.nonce@, p));
        }
    }
    match opened {
        None => Err(WalletError::WrongPasswordOrCorrupt),
        Some(plain) => match string_from_utf8(plain) {
            Some(s) => Ok(s),
            None => Err(WalletError::InvalidUtf8),
        },
    }
}

// ---------------------------------------------------------------------------
// The Base64 text stored under `wallet_keys`.

/// The standard Base64 text (with padding) of `bytes`.
pub uninterp spec fn base64_text(bytes: Seq<u8>) -> Seq<char>;

/// What standard Base64 decoding makes of a text: the bytes, or nothing when
/// the text is not valid Base64.
pub uninterp spec fn base64_decoded(text: Seq<char>) -> Option<Seq<u8>>;

/// A character of the standard Base64 alphabet, padding included.
pub open spec fn is_base64_char(c: char) -> bool {
    ('A' <= c <= 'Z') || ('a' <= c <= 'z') || ('0' <= c <= '9') || c == '+' || c == '/' || c == '='
}

/// Encodes with `base64::engine::general_purpose::STANDARD`. Trusted: the
/// result is named by `base64_text` and, as the engine's alphabet and padding
/// say, holds only Base64 characters.
#[verifier::external_body]
fn base64_encode(bytes: &Vec<u8>) -> (s: String)
    ensures
        s@ == base64_text(bytes@),
        forall|i: int| 0 <= i < s@.len() ==> is_base64_char(#[trigger] s@[i]),
{
    base64::engine::general_purpose::STANDARD.encode(bytes.as_slice())
}

/// Decodes with `base64::engine::general_purpose::STANDARD`. Trusted: the
/// result is named by `base64_decoded`, and the text of encoded bytes decodes
/// to those bytes.
#[verifier::external_body]
fn base64_decode(text: &str) -> (r: Option<Vec<u8>>)
    ensures
        r.is_some() == base64_decoded(text@).is_some(),
        r.is_some() ==> base64_decoded(text@) == Some(r.unwrap()@),
        forall|b: Seq<u8>| text@ == #[trigger] base64_text(b) ==> r.is_some() && r.unwrap()@ == b,
{
    base64::engine::general_purpose::STANDARD.decode(text.as_bytes()).ok()
}

/// Encrypts `private_key` under `password` and writes the envelope as Base64,
/// the form in which `wallet_keys` stores it.
pub fn seal_wallet_entry(private_key: &str, password: &str) -> (r: Result<String, WalletError>)
    requires
        password.spec_bytes().len() <= 0xffff_ffff,
    ensures
        match r {
            Ok(s) => (exists|salt: Seq<u8>, nonce: Seq<u8>|
                salt.len() == SALT_SIZE && nonce.len() == NONCE_SIZE
                && s@ == base64_text(#[trigger] sealed_blob_spec(private_key.spec_bytes(), password.spec_bytes(), salt, nonce)))
                && forall|i: int| 0 <= i < s@.len() ==> is_base64_char(#[trigger] s@[i]),
            Err(e) => e == WalletError::PlaintextTooLong && private_key.spec_bytes().len() > AES_GCM_MAX_PLAINTEXT,
        },
{
    let data = encrypt_wallet_key(private_key.as_bytes(), password)?;
    Ok(base64_encode(&data))
}

/// What `open_wallet_entry` gives for a stored text and a password.
pub open spec fn opened_entry_spec(encoded: Seq<char>, password: Seq<u8>) -> Result<Seq<char>, WalletError> {
    match base64_decoded(trim_spec(encoded)) {
        None => Err(WalletError::InvalidBase64),
        Some(data) => opened_spec(data, password),
    }
}

/// Decodes a stored entry (surrounding whitespace ignored) and decrypts it.
/// The text of a key sealed under the same password opens to that key.
pub fn open_wallet_entry(encoded: &str, password: &str) -> (r: Result<String, WalletError>)
    requires
        password.spec_bytes().len() <= 0xffff_ffff,
    ensures
        match r {
            Ok(s) => opened_entry_spec(encoded@, password.spec_bytes()) == Ok::<Seq<char>, WalletError>(s@),
            Err(e) => opened_entry_spec(encoded@, password.spec_bytes()) == Err::<Seq<char>, WalletError>(e),
        },
        forall|key: Seq<char>, salt: Seq<u8>, nonce: Seq<u8>|
            salt.len() == SALT_SIZE && nonce.len() == NONCE_SIZE
            && trim_spec(encoded@) == base64_text(#[trigger] sealed_blob_spec(encode_utf8(key), password.spec_bytes(), salt, nonce))
            ==> (r matches Ok(s) && s@ == key),
{
    let t = trim(encoded);
    let data = match base64_decode(t.as_str()) {
        Some(d) => d,
        None => {
            proof {
                assert forall|key: Seq<char>, salt: Seq<u8>, nonce: Seq<u8>|
                    salt.len() == SALT_SIZE && nonce.len() == NONCE_SIZE
                    && trim_spec(encoded@) == base64_text(#[trigger] sealed_blob_spec(encode_utf8(key), password.spec_bytes(), salt, nonce))
                    implies false by {
                    let b = sealed_blob_spec(encode_utf8(key), password.spec_bytes(), salt, nonce);
                    assert(t@ == base64_text(b));
                }
            }
            return Err(WalletError::InvalidBase64);
        },
    };
    let r = decrypt_wallet_bytes(&data, password);
    proof {
        assert forall|key: Seq<char>, salt: Seq<u8>, nonce: Seq<u8>|
            salt.len() == SALT_SIZE && nonce.len() == NONCE_SIZE
            && trim_spec(encoded@) == base64_text(#[trigger] sealed_blob_spec(encode_utf8(key), password.spec_bytes(), salt, nonce))
            implies (r matches Ok(s) && s@ == key) by {
            let b = sealed_blob_spec(encode_utf8(key), password.spec_bytes(), salt, nonce);
            assert(t@ == base64_text(b));
            assert(data@ == b);
            encode_utf8_valid_utf8(key);
            encode_utf8_decode_utf8(key);
        }
    }
    r
}

/// A text of Base64 characters is its own trimmed form, so what
/// `seal_wallet_entry` writes reads back unchanged by `open_wallet_entry`.
pub proof fn lemma_base64_text_untrimmed(s: Seq<char>)
    requires
        forall|i: int| 0 <= i < s.len() ==> is_base64_char(#[trigger] s[i]),
    ensures
        trim_spec(s) == s,
{
    if s.len() > 0 {
        assert(is_base64_char(s[0]));
        assert(!is_ws(s[0]));
        assert(is_base64_char(s.last()));
        assert(!is_ws(s.last()));
    }
}

// ---------------------------------------------------------------------------
// The private key text: a JSON byte array, comma-separated bytes or Base58.

/// `solana_sdk::signature::Keypair`, carried through opaque.
#[verifier::external_type_specification]
#[verifier::external_body]
pub struct ExKeypair(solana_sdk::signature::Keypair);

/// Why a private key text was refused.
#[derive(PartialEq, Eq, Structural, Clone, Copy, Debug)]
pub enum KeypairError {
    /// Nothing but whitespace.
    Empty,
    /// Starts with `[` but is not a JSON array of bytes.
    InvalidJson,
    /// A comma-separated piece is not a number from 0 to 255.
    InvalidNumber,
    /// Not Base58.
    InvalidBase58,
    /// The bytes are not a 64-byte keypair whose second half is the public key of its first.
    InvalidKeypair,
}

/// The bytes that `serde_json` reads from a JSON array of numbers 0..=255.
pub uninterp spec fn json_byte_array(text: Seq<char>) -> Option<Seq<u8>>;

/// The bytes that Base58 (Bitcoin alphabet) decoding gives for a text.
pub uninterp spec fn base58_decoded(text: Seq<char>) -> Option<Seq<u8>>;

/// The Ed25519 public key of a 32-byte secret seed.
pub uninterp spec fn ed25519_public_of_seed(seed: Seq<u8>) -> Seq<u8>;

/// Reads a JSON byte array with `serde_json::from_str::<Vec<u8>>`. Trusted:
/// the result is named by `json_byte_array`.
#[verifier::external_body]
fn json_bytes(text: &str) -> (r: Option<Vec<u8>>)
    ensures
        r.is_some() == json_byte_array(text@).is_some(),
        r.is_some() ==> json_byte_array(text@) == Some(r.unwrap()@),
{
    serde_json::from_str::<Vec<u8>>(text).ok()
}

/// Decodes Base58 with `bs58::decode(..).into_vec()`. Trusted: the result is
/// named by `base58_decoded`.
#[verifier::external_body]
fn base58_bytes(text: &str) -> (r: Option<Vec<u8>>)
    ensures
        r.is_some() == base58_decoded(text@).is_some(),
        r.is_some() ==> base58_decoded(text@) == Some(r.unwrap()@),
{
    bs58::decode(text).into_vec().ok()
}

/// Builds a keypair with `Keypair::try_from(&[u8])`. Trusted: as the source of
/// `solana-keypair` shows, it succeeds exactly for 64 bytes whose second half is
/// the public key derived from the first half.
#[verifier::external_body]
fn keypair_from_bytes(bytes: &Vec<u8>) -> (r: Option<solana_sdk::signature::Keypair>)
    ensures
        r.is_some() == (bytes@.len() == 64
            && ed25519_public_of_seed(bytes@.subrange(0, 32)) == bytes@.subrange(32, 64)),
{
    solana_sdk::signature::Keypair::try_from(bytes.as_slice()).ok()
}

/// 64 bytes whose second half is the public key of the first half.
pub open spec fn keypair_bytes_valid(bytes: Seq<u8>) -> bool {
    bytes.len() == 64 && ed25519_public_of_seed(bytes.subrange(0, 32)) == bytes.subrange(32, 64)
}

/// The bytes that comma-separated pieces spell: blank pieces are skipped, every
/// other piece, trimmed, must be a number from 0 to 255.
pub open spec fn comma_bytes_spec(pieces: Seq<Seq<char>>) -> Option<Seq<u8>>
    decreases pieces.len(),
{
    if pieces.len() == 0 {
        Some(Seq::<u8>::empty())
    } else {
        match comma_bytes_spec(pieces.drop_last()) {
            None => None,
            Some(acc) => {
                let t = trim_spec(pieces.last());
                if t.len() == 0 {
                    Some(acc)
                } else {
                    match parse_unsigned_spec(t, 255) {
                        None => None,
                        Some(v) => Some(acc.push(v as u8)),
                    }
                }
            },
        }
    }
}

/// The bytes a private key text stands for, before they are checked as a keypair.
pub open spec fn keypair_text_bytes_spec(raw: Seq<char>) -> Result<Seq<u8>, KeypairError> {
    let t = trim_spec(raw);
    if t.len() == 0 {
        Err(KeypairError::Empty)
    } else if t[0] == '[' {
        match json_byte_array(t) {
            None => Err(KeypairError::InvalidJson),
            Some(b) => Ok(b),
        }
    } else if t.contains(',') {
        match comma_bytes_spec(split_on(t, ',')) {
            None => Err(KeypairError::InvalidNumber),
            Some(b) => Ok(b),
        }
    } else {
        match base58_decoded(t) {
            None => Err(KeypairError::InvalidBase58),
            Some(b) => Ok(b),
        }
    }
}

/// Reads comma-separated byte values, skipping blank pieces.
pub fn parse_comma_bytes(text: &str) -> (r: Option<Vec<u8>>)
    ensures
        match r {
            Some(b) => comma_bytes_spec(split_on(text@, ',')) == Some(b@),
            None => comma_bytes_spec(split_on(text@, ',')).is_none(),
        },
{
    let pieces = split_char(text, ',');
    let ghost views = string_views(pieces@);
    let mut out: Vec<u8> = Vec::new();
    for k in 0..pieces.len()
        invariant
            views == string_views(pieces@),
            views == split_on(text@, ','),
            comma_bytes_spec(views.subrange(0, k as int)) == Some(out@),
    {
        let t = trim(pieces[k].as_str());
        let ghost pre = views.subrange(0, k + 1);
        assert(pre.drop_last() =~= views.subrange(0, k as int));
        assert(pre.last() == pieces@[k as int]@);
        if t.unicode_len() > 0 {
            match parse_unsigned(t.as_str(), 255) {
                Some(v) => {
                    out.push(v as u8);
                },
                None => {
                    proof {
                        assert(comma_bytes_spec(pre).is_none());
                        lemma_comma_bytes_none_extends(views, k + 1);
                        assert(views.subrange(0, views.len() as int) =~= views);
                    }
                    return None;
                },
            }
        }
    }
    assert(views.subrange(0, pieces@.len() as int) =~= views);
    Some(out)
}

proof fn lemma_comma_bytes_none_extends(pieces: Seq<Seq<char>>, k: int)
    requires
        0 <= k <= pieces.len(),
        comma_bytes_spec(pieces.subrange(0, k)).is_none(),
    ensures
        comma_bytes_spec(pieces.subrange(0, pieces.len() as int)).is_none(),
    decreases pieces.len() - k,
{
    if k < pieces.len() {
        let pre = pieces.subrange(0, k + 1);
        assert(pre.drop_last() =~= pieces.subrange(0, k));
        lemma_comma_bytes_none_extends(pieces, k + 1);
    }
}

/// The bytes a private key text stands for: a JSON array when it starts with
/// `[`, comma-separated numbers when it holds a comma, Base58 otherwise.
pub fn parse_keypair_bytes(raw: &str) -> (r: Result<Vec<u8>, KeypairError>)
    ensures
        match r {
            Ok(b) => keypair_text_bytes_spec(raw@) == Ok::<Seq<u8>, KeypairError>(b@),
            Err(e) => keypair_text_bytes_spec(raw@) == Err::<Seq<u8>, KeypairError>(e),
        },
{
    let t = trim(raw);
    if t.unicode_len() == 0 {
        return Err(KeypairError::Empty);
    }
    if t.get_char(0) == '[' {
        match json_bytes(t.as_str()) {
            Some(b) => Ok(b),
            None => Err(KeypairError::InvalidJson),
        }
    } else if contains_char(t.as_str(), ',') {
        match parse_comma_bytes(t.as_str()) {
            Some(b) => Ok(b),
            None => Err(KeypairError::InvalidNumber),
        }
    } else {
        match base58_bytes(t.as_str()) {
            Some(b) => Ok(b),
            None => Err(KeypairError::InvalidBase58),
        }
    }
}

/// Parses a private key text into a keypair.
pub fn parse_keypair_string(raw: &str) -> (r: Result<solana_sdk::signature::Keypair, KeypairError>)
    ensures
        r.is_ok() == (keypair_text_bytes_spec(raw@) matches Ok(b) && keypair_bytes_valid(b)),
        r matches Err(e) ==> (keypair_text_bytes_spec(raw@) == Err::<Seq<u8>, KeypairError>(e)
            || (e == KeypairError::InvalidKeypair && keypair_text_bytes_spec(raw@) is Ok)),
{
    let bytes = parse_keypair_bytes(raw)?;
    match keypair_from_bytes(&bytes) {
        Some(k) => Ok(k),
        None => Err(KeypairError::InvalidKeypair),
    }
}

// ---------------------------------------------------------------------------
// Entering a private key in three ordered segments.

/// Why a segment `<content>:<order>` was refused.
#[derive(PartialEq, Eq, Structural, Clone, Copy, Debug)]
pub enum SegmentError {
    /// There is no `:` before the order.
    MissingOrder,
    /// The order is not a number.
    OrderNotNumber,
    /// The content is blank.
    EmptyContent,
}

/// What `parse_segment` makes of `<content>:<order>`: split at the last `:`,
/// the order a number, the content trimmed and not blank.
pub open spec fn segment_spec(raw: Seq<char>) -> Result<(nat, Seq<char>), SegmentError> {
    match last_index_of(raw, ':') {
        None => Err(SegmentError::MissingOrder),
        Some(i) => match parse_unsigned_spec(trim_spec(raw.subrange(i + 1, raw.len() as int)), usize::MAX as nat) {
            None => Err(SegmentError::OrderNotNumber),
            Some(order) => {
                let content = trim_spec(raw.subrange(0, i));
                if content.len() == 0 {
                    Err(SegmentError::EmptyContent)
                } else {
                    Ok((order, content))
                }
            },
        },
    }
}

fn substring(s: &str, from: usize, to: usize) -> (r: String)
    requires
        from <= to <= s@.len(),
    ensures
        r@ == s@.subrange(from as int, to as int),
{
    String::from_str(s.substring_char(from, to))
}

/// Splits a segment `<content>:<order>` at its last colon.
pub fn parse_segment(raw: &str) -> (r: Result<(usize, String), SegmentError>)
    ensures
        match r {
            Ok((order, content)) => segment_spec(raw@) == Ok::<(nat, Seq<char>), SegmentError>((order as nat, content@)),
            Err(e) => segment_spec(raw@) == Err::<(nat, Seq<char>), SegmentError>(e),
        },
{
    proof { lemma_last_index_of_bounds(raw@, ':'); }
    let i = match find_last(raw, ':') {
        Some(i) => i,
        None => return Err(SegmentError::MissingOrder),
    };
    let n = raw.unicode_len();
    let order_text = substring(raw, i + 1, n);
    let order_trimmed = trim(order_text.as_str());
    let order = match parse_unsigned(order_trimmed.as_str(), usize::MAX as u64) {
        Some(v) => v as usize,
        None => return Err(SegmentError::OrderNotNumber),
    };
    let value = substring(raw, 0, i);
    let content = trim(value.as_str());
    if content.unicode_len() == 0 {
        return Err(SegmentError::EmptyContent);
    }
    Ok((order, content))
}

/// Segments entered so far and whether any looked like part of a JSON array.
pub struct SegmentState {
    pub segments: Vec<(usize, String)>,
    pub looks_like_json: bool,
}

/// The orders of the segments.
pub open spec fn segment_orders(s: Seq<(usize, String)>) -> Seq<usize> {
    s.map_values(|e: (usize, String)| e.0)
}

impl SegmentState {
    /// At most three segments, each order from 1 to 3 and none twice.
    pub open spec fn wf(&self) -> bool {
        &&& self.segments@.len() <= 3
        &&& forall|i: int| 0 <= i < self.segments@.len() ==> 1 <= #[trigger] self.segments@[i].0 <= 3
        &&& forall|i: int, j: int| 0 <= i < j < self.segments@.len()
                ==> #[trigger] self.segments@[i].0 != #[trigger] self.segments@[j].0
    }

    /// No segment entered yet.
    pub fn new() -> (s: Self)
        ensures
            s.wf(),
            s.segments@.len() == 0,
            !s.looks_like_json,
    {
        SegmentState { segments: Vec::new(), looks_like_json: false }
    }

    /// All three segments are in.
    pub fn is_complete(&self) -> (r: bool)
        requires
            self.wf(),
        ensures
            r == (self.segments@.len() == 3),
    {
        self.segments.len() == 3
    }
}

/// What happened to one entered line.
#[derive(PartialEq, Eq, Structural, Clone, Copy, Debug)]
pub enum SegmentOutcome {
    Accepted,
    /// The line was blank.
    Blank,
    Invalid(SegmentError),
    /// The order is not 1, 2 or 3.
    OrderOutOfRange,
    /// A segment with this order is already in.
    DuplicateOrder(usize),
}

/// The content holds a character of a JSON byte array.
pub open spec fn json_like(content: Seq<char>) -> bool {
    content.contains(',') || content.contains('[') || content.contains(']')
}

fn has_order(segments: &Vec<(usize, String)>, order: usize) -> (r: bool)
    ensures
        r == segment_orders(segments@).contains(order),
{
    let n = segments.len();
    let mut k: usize = 0;
    while k < n
        invariant
            n == segments@.len(),
            k <= n,
            forall|i: int| 0 <= i < k ==> segments@[i].0 != order,
        decreases n - k,
    {
        if segments[k].0 == order {
            assert(segment_orders(segments@)[k as int] == order);
            return true;
        }
        k = k + 1;
    }
    proof {
        if segment_orders(segments@).contains(order) {
            let j = choose|j: int| 0 <= j < n && segment_orders(segments@)[j] == order;
            assert(segments@[j].0 == order);
        }
    }
    false
}

/// Takes one entered line: a blank line or a malformed one changes nothing; a
/// well-formed one marks the entry as JSON-like when its content holds `,`, `[`
/// or `]`, and is kept when its order is new and from 1 to 3.
pub fn accept_segment(state: &mut SegmentState, input: &str) -> (out: SegmentOutcome)
    requires
        old(state).wf(),
        old(state).segments@.len() < 3,
    ensures
        final(state).wf(),
        trim_spec(input@).len() == 0 ==> out == SegmentOutcome::Blank && *final(state) == *old(state),
        trim_spec(input@).len() > 0 ==> match segment_spec(trim_spec(input@)) {
            Err(e) => out == SegmentOutcome::Invalid(e) && *final(state) == *old(state),
            Ok((order, content)) => {
                &&& final(state).looks_like_json == (old(state).looks_like_json || json_like(content))
                &&& if order == 0 || order > 3 {
                    out == SegmentOutcome::OrderOutOfRange && final(state).segments@ == old(state).segments@
                } else if segment_orders(old(state).segments@).contains(order as usize) {
                    out == SegmentOutcome::DuplicateOrder(order as usize) && final(state).segments@ == old(state).segments@
                } else {
                    out == SegmentOutcome::Accepted
                        && segment_orders(final(state).segments@) == segment_orders(old(state).segments@).push(order as usize)
                        && final(state).segments@.last().1@ == content
                        && final(state).segments@.drop_last() == old(state).segments@
                }
            },
        },
{
    let t = trim(input);
    if t.unicode_len() == 0 {
        return SegmentOutcome::Blank;
    }
    let (order, content) = match parse_segment(t.as_str()) {
        Ok(p) => p,
        Err(e) => return SegmentOutcome::Invalid(e),
    };
    let c = content.as_str();
    let jl = contains_char(c, ',') || contains_char(c, '[') || contains_char(c, ']');
    if jl {
        state.looks_like_json = true;
    }
    if order == 0 || order > 3 {
        return SegmentOutcome::OrderOutOfRange;
    }
    if has_order(&state.segments, order) {
        return SegmentOutcome::DuplicateOrder(order);
    }
    let ghost before = state.segments@;
    state.segments.push((order, content));
    assert(segment_orders(state.segments@) =~= segment_orders(before).push(order));
    assert(state.segments@.drop_last() =~= before);
    proof {
        let s2 = state.segments@;
        assert forall|i: int, j: int| 0 <= i < j < s2.len() implies #[trigger] s2[i].0 != #[trigger] s2[j].0 by {
            if j == s2.len() - 1 {
                assert(segment_orders(before)[i] == s2[i].0);
            } else {
                assert(s2[i] == before[i]);
                assert(s2[j] == before[j]);
            }
        }
        assert forall|i: int| 0 <= i < s2.len() implies 1 <= #[trigger] s2[i].0 <= 3 by {
            if i < s2.len() - 1 {
                assert(s2[i] == before[i]);
            }
        }
    }
    SegmentOutcome::Accepted
}

/// Three segments with distinct orders from 1 to 3 hold each order once.
pub proof fn lemma_complete_segments_cover_orders(state: SegmentState, order: usize)
    requires
        state.wf(),
        state.segments@.len() == 3,
        1 <= order <= 3,
    ensures
        segment_orders(state.segments@).contains(order),
{
    let s = state.segments@;
    assert(1 <= s[0].0 <= 3);
    assert(1 <= s[1].0 <= 3);
    assert(1 <= s[2].0 <= 3);
    assert(s[0].0 != s[1].0);
    assert(s[0].0 != s[2].0);
    assert(s[1].0 != s[2].0);
    if s[0].0 == order {
        assert(segment_orders(s)[0] == order);
    } else if s[1].0 == order {
        assert(segment_orders(s)[1] == order);
    } else {
        assert(segment_orders(s)[2] == order);
    }
}

/// The content of the segment with the given order.
pub open spec fn order_value(s: Seq<(usize, String)>, order: usize) -> Seq<char> {
    s[choose|i: int| 0 <= i < s.len() && s[i].0 == order].1@
}

fn value_of_order(state: &SegmentState, order: usize) -> (r: String)
    requires
        state.wf(),
        segment_orders(state.segments@).contains(order),
    ensures
        r@ == order_value(state.segments@, order),
{
    let s = &state.segments;
    let n = s.len();
    let mut k: usize = 0;
    while k < n
        invariant
            n == s@.len(),
            k <= n,
            forall|i: int| 0 <= i < k ==> s@[i].0 != order,
            segment_orders(s@).contains(order),
            s@ == state.segments@,
            state.wf(),
        decreases n - k,
    {
        if s[k].0 == order {
            proof {
                let i = choose|i: int| 0 <= i < s@.len() && s@[i].0 == order;
                if i != k {
                    if i < k {
                        assert(s@[i].0 != s@[k as int].0);
                    } else {
                        assert(s@[k as int].0 != s@[i].0);
                    }
                }
            }
            return s[k].1.clone();
        }
        k = k + 1;
    }
    proof {
        let j = choose|j: int| 0 <= j < n && segment_orders(s@)[j] == order;
        assert(s@[j].0 == order);
    }
    String::new()
}

/// One segment's part of a JSON array: trimmed, the first without its opening
/// `[`s, the last without its closing `]`s, trimmed again.
pub open spec fn json_piece(value: Seq<char>, first: bool, last: bool) -> Seq<char> {
    let p0 = trim_spec(value);
    let p1 = if first && p0.len() > 0 && p0[0] == '[' { strip_start_spec(p0, '[') } else { p0 };
    let p2 = if last && p1.len() > 0 && p1.last() == ']' { strip_end_spec(p1, ']') } else { p1 };
    trim_spec(p2)
}

/// Appends a piece (leading commas dropped) to what is combined, with a comma
/// between them unless one is already there; a blank piece is skipped.
pub open spec fn join_piece(combined: Seq<char>, piece: Seq<char>) -> Seq<char> {
    if piece.len() == 0 {
        combined
    } else {
        let cleaned = strip_start_spec(piece, ',');
        if combined.len() == 0 {
            cleaned
        } else if combined.last() != ',' && !(cleaned.len() > 0 && cleaned[0] == ',') {
            combined.push(',') + cleaned
        } else {
            combined + cleaned
        }
    }
}

/// The private key that three segments spell.
pub open spec fn combined_key_spec(v1: Seq<char>, v2: Seq<char>, v3: Seq<char>, json: bool) -> Seq<char> {
    if json {
        let c = join_piece(
            join_piece(join_piece(Seq::<char>::empty(), json_piece(v1, true, false)), json_piece(v2, false, false)),
            json_piece(v3, false, true),
        );
        seq!['['] + strip_end_spec(strip_start_spec(c, ','), ',') + seq![']']
    } else {
        trim_spec(trim_spec(v1) + trim_spec(v2) + trim_spec(v3))
    }
}

fn trim_chars(v: &Vec<char>) -> (r: Vec<char>)
    ensures
        r@ == trim_spec(v@),
{
    let s = string_from_chars(v);
    let t = trim(s.as_str());
    chars_of(t.as_str())
}

fn concat_chars(a: &Vec<char>, b: &Vec<char>) -> (r: Vec<char>)
    ensures
        r@ == a@ + b@,
{
    let mut r: Vec<char> = Vec::new();
    for i in 0..a.len()
        invariant
            r@ == a@.subrange(0, i as int),
    {
        r.push(a[i]);
        assert(r@ =~= a@.subrange(0, i + 1));
    }
    assert(a@.subrange(0, a@.len() as int) =~= a@);
    for j in 0..b.len()
        invariant
            r@ == a@ + b@.subrange(0, j as int),
    {
        r.push(b[j]);
        assert(r@ =~= a@ + b@.subrange(0, j + 1));
    }
    assert(b@.subrange(0, b@.len() as int) =~= b@);
    r
}

fn json_piece_chars(value: &String, first: bool, last: bool) -> (r: Vec<char>)
    ensures
        r@ == json_piece(value@, first, last),
{
    let p0 = chars_of(trim(value.as_str()).as_str());
    let p1 = if first && p0.len() > 0 && p0[0] == '[' { strip_start_chars(&p0, '[') } else { p0 };
    let p2 = if last && p1.len() > 0 && p1[p1.len() - 1] == ']' { strip_end_chars(&p1, ']') } else { p1 };
    trim_chars(&p2)
}

fn join_piece_chars(combined: Vec<char>, piece: &Vec<char>) -> (r: Vec<char>)
    ensures
        r@ == join_piece(combined@, piece@),
{
    if piece.len() == 0 {
        return combined;
    }
    let cleaned = strip_start_chars(piece, ',');
    if combined.len() == 0 {
        cleaned
    } else if combined[combined.len() - 1] != ',' && !(cleaned.len() > 0 && cleaned[0] == ',') {
        let mut c = combined;
        c.push(',');
        concat_chars(&c, &cleaned)
    } else {
        concat_chars(&combined, &cleaned)
    }
}

/// Joining a piece onto a non-empty combined text never glues the first item
/// of the piece (its leading commas dropped) onto the last item before it:
/// the comma-separated items of the result are those before (a trailing comma
/// ends them) followed by those of the piece.
pub proof fn lemma_join_piece_keeps_items(combined: Seq<char>, piece: Seq<char>)
    requires
        combined.len() > 0,
        piece.len() > 0,
    ensures
        combined.last() != ',' ==> split_on(join_piece(combined, piece), ',')
            == split_on(combined, ',') + split_on(strip_start_spec(piece, ','), ','),
        combined.last() == ',' ==> split_on(join_piece(combined, piece), ',')
            == split_on(combined.drop_last(), ',') + split_on(strip_start_spec(piece, ','), ','),
{
    let cleaned = strip_start_spec(piece, ',');
    lemma_strip_start_head(piece, ',');
    if combined.last() != ',' {
        assert(join_piece(combined, piece) =~= combined + seq![','] + cleaned);
        lemma_split_on_concat(combined, cleaned, ',');
    } else {
        let front = combined.drop_last();
        assert(combined =~= front + seq![',']);
        assert(join_piece(combined, piece) =~= front + seq![','] + cleaned);
        lemma_split_on_concat(front, cleaned, ',');
    }
}

/// A piece that holds something and neither starts nor ends with a comma.
pub open spec fn bare_piece(p: Seq<char>) -> bool {
    p.len() > 0 && p[0] != ',' && p.last() != ','
}

/// In JSON form, when the three segments give pieces that hold something and
/// carry no comma at their ends, the key is `[`, the three pieces joined by
/// commas, and `]`; its comma-separated items are the items of segment 1,
/// then those of segment 2, then those of segment 3.
pub proof fn lemma_combined_key_items(v1: Seq<char>, v2: Seq<char>, v3: Seq<char>)
    requires
        bare_piece(json_piece(v1, true, false)),
        bare_piece(json_piece(v2, false, false)),
        bare_piece(json_piece(v3, false, true)),
    ensures
        combined_key_spec(v1, v2, v3, true) == seq!['['] + json_piece(v1, true, false) + seq![',']
            + json_piece(v2, false, false) + seq![','] + json_piece(v3, false, true) + seq![']'],
        split_on(
            combined_key_spec(v1, v2, v3, true).subrange(1, combined_key_spec(v1, v2, v3, true).len() - 1),
            ',',
        ) == split_on(json_piece(v1, true, false), ',') + split_on(json_piece(v2, false, false), ',')
            + split_on(json_piece(v3, false, true), ','),
{
    let p1 = json_piece(v1, true, false);
    let p2 = json_piece(v2, false, false);
    let p3 = json_piece(v3, false, true);
    assert(strip_start_spec(p1, ',') == p1);
    assert(strip_start_spec(p2, ',') == p2);
    assert(strip_start_spec(p3, ',') == p3);
    let j1 = join_piece(Seq::<char>::empty(), p1);
    assert(j1 == p1);
    let j2 = join_piece(j1, p2);
    assert(j2 =~= p1 + seq![','] + p2);
    let c = join_piece(j2, p3);
    assert(j2.last() == p2.last());
    assert(c =~= p1 + seq![','] + p2 + seq![','] + p3);
    assert(c[0] == p1[0]);
    assert(strip_start_spec(c, ',') == c);
    assert(c.last() == p3.last());
    assert(strip_end_spec(c, ',') == c);
    let k = combined_key_spec(v1, v2, v3, true);
    assert(k == seq!['['] + c + seq![']']);
    assert(k =~= seq!['['] + p1 + seq![','] + p2 + seq![','] + p3 + seq![']']);
    assert(k.subrange(1, k.len() - 1) =~= c);
    lemma_split_on_concat(p1, p2, ',');
    lemma_split_on_concat(p1 + seq![','] + p2, p3, ',');
    assert(split_on(c, ',') =~= split_on(p1, ',') + split_on(p2, ',') + split_on(p3, ','));
}

/// Puts the three segments together in the order of their numbers. When any
/// segment looked like JSON, the pieces are joined with commas inside one pair
/// of brackets; otherwise they are concatenated.
pub fn combine_segments(state: &SegmentState) -> (r: String)
    requires
        state.wf(),
        state.segments@.len() == 3,
    ensures
        r@ == combined_key_spec(
            order_value(state.segments@, 1),
            order_value(state.segments@, 2),
            order_value(state.segments@, 3),
            state.looks_like_json,
        ),
{
    proof {
        lemma_complete_segments_cover_orders(*state, 1);
        lemma_complete_segments_cover_orders(*state, 2);
        lemma_complete_segments_cover_orders(*state, 3);
    }
    let v1 = value_of_order(state, 1);
    let v2 = value_of_order(state, 2);
    let v3 = value_of_order(state, 3);
    if state.looks_like_json {
        let p1 = json_piece_chars(&v1, true, false);
        let p2 = json_piece_chars(&v2, false, false);
        let p3 = json_piece_chars(&v3, false, true);
        let c = join_piece_chars(join_piece_chars(join_piece_chars(Vec::new(), &p1), &p2), &p3);
        let inner = strip_end_chars(&strip_start_chars(&c, ','), ',');
        let mut out: Vec<char> = Vec::new();
        out.push('[');
        let mut out = concat_chars(&out, &inner);
        out.push(']');
        assert(out@ =~= seq!['['] + inner@ + seq![']']);
        string_from_chars(&out)
    } else {
        let a = chars_of(trim(v1.as_str()).as_str());
        let b = chars_of(trim(v2.as_str()).as_str());
        let c = chars_of(trim(v3.as_str()).as_str());
        let all = concat_chars(&concat_chars(&a, &b), &c);
        trim(string_from_chars(&all).as_str())
    }
}

// ---------------------------------------------------------------------------
// Choosing a wallet and typing its password.

/// A key read while the wallet menu is shown.
#[derive(PartialEq, Eq, Structural, Clone, Copy, Debug)]
pub enum MenuKey {
    ArrowUp,
    ArrowDown,
    Backspace,
    Enter,
    Char(char),
    Other,
}

/// What the menu does after a key.
#[derive(PartialEq, Eq, Structural, Clone, Copy, Debug)]
pub enum MenuAction {
    /// Redraw and read the next key.
    Redraw,
    /// The wallet with this index is chosen.
    Choose(usize),
    /// The user gave up choosing.
    Cancel,
}

/// The highlighted entry and the digits typed so far.
pub struct MenuState {
    pub current: usize,
    pub typed: Vec<char>,
}

/// The entry a typed number selects: numbers count from 1.
pub open spec fn typed_choice(typed: Seq<char>, len: nat) -> Option<nat> {
    match parse_unsigned_spec(typed, usize::MAX as nat) {
        Some(v) => if 1 <= v <= len {
            Some((v - 1) as nat)
        } else {
            None
        },
        None => None,
    }
}

/// The next highlighted entry, typed digits and action after a key.
pub open spec fn menu_step_spec(current: nat, typed: Seq<char>, key: MenuKey, len: nat) -> (nat, Seq<char>, MenuAction) {
    let up = if current == 0 { (len - 1) as nat } else { (current - 1) as nat };
    let down = ((current + 1) % len) as nat;
    match key {
        MenuKey::ArrowUp => (up, Seq::<char>::empty(), MenuAction::Redraw),
        MenuKey::ArrowDown => (down, Seq::<char>::empty(), MenuAction::Redraw),
        MenuKey::Char(c) => if c == 'k' || c == 'K' {
            (up, Seq::<char>::empty(), MenuAction::Redraw)
        } else if c == 'j' || c == 'J' {
            (down, Seq::<char>::empty(), MenuAction::Redraw)
        } else if '0' <= c <= '9' {
            let t = typed.push(c);
            match typed_choice(t, len) {
                Some(v) => (v, t, MenuAction::Redraw),
                None => (current, t, MenuAction::Redraw),
            }
        } else if c == 'q' || c == 'Q' {
            (current, typed, MenuAction::Cancel)
        } else {
            (current, typed, MenuAction::Redraw)
        },
        MenuKey::Backspace => (current, if typed.len() > 0 { typed.drop_last() } else { typed }, MenuAction::Redraw),
        MenuKey::Enter => match typed_choice(typed, len) {
            Some(v) => (current, typed, MenuAction::Choose(v as usize)),
            None => (current, typed, MenuAction::Choose(current as usize)),
        },
        MenuKey::Other => (current, typed, MenuAction::Redraw),
    }
}

fn typed_choice_exec(typed: &Vec<char>, len: usize) -> (r: Option<usize>)
    ensures
        match r {
            Some(v) => typed_choice(typed@, len as nat) == Some(v as nat),
            None => typed_choice(typed@, len as nat).is_none(),
        },
{
    let s = string_from_chars(typed);
    match parse_unsigned(s.as_str(), usize::MAX as u64) {
        Some(v) => if 1 <= v && v <= len as u64 {
            Some((v - 1) as usize)
        } else {
            None
        },
        None => None,
    }
}

/// Reacts to one key in the wallet menu; the highlighted entry always stays
/// within the list, and a chosen index is always one of its entries.
pub fn menu_step(state: &mut MenuState, key: MenuKey, len: usize) -> (action: MenuAction)
    requires
        0 < len,
        old(state).current < len,
    ensures
        (final(state).current as nat, final(state).typed@, action) == menu_step_spec(
            old(state).current as nat, old(state).typed@, key, len as nat),
        final(state).current < len,
        action matches MenuAction::Choose(i) ==> i < len,
{
    let up = if state.current == 0 { len - 1 } else { state.current - 1 };
    let down = (state.current + 1) % len;
    match key {
        MenuKey::ArrowUp => {
            state.current = up;
            state.typed = Vec::new();
            MenuAction::Redraw
        },
        MenuKey::ArrowDown => {
            state.current = down;
            state.typed = Vec::new();
            MenuAction::Redraw
        },
        MenuKey::Char(c) => {
            if c == 'k' || c == 'K' {
                state.current = up;
                state.typed = Vec::new();
                MenuAction::Redraw
            } else if c == 'j' || c == 'J' {
                state.current = down;
                state.typed = Vec::new();
                MenuAction::Redraw
            } else if '0' <= c && c <= '9' {
                state.typed.push(c);
                match typed_choice_exec(&state.typed, len) {
                    Some(v) => {
                        state.current = v;
                    },
                    None => {},
                }
                MenuAction::Redraw
            } else if c == 'q' || c == 'Q' {
                MenuAction::Cancel
            } else {
                MenuAction::Redraw
            }
        },
        MenuKey::Backspace => {
            if state.typed.len() > 0 {
                state.typed.pop();
            }
            MenuAction::Redraw
        },
        MenuKey::Enter => match typed_choice_exec(&state.typed, len) {
            Some(v) => MenuAction::Choose(v),
            None => MenuAction::Choose(state.current),
        },
        MenuKey::Other => MenuAction::Redraw,
    }
}

/// What the password prompt does after a character.
#[derive(PartialEq, Eq, Structural, Clone, Copy, Debug)]
pub enum PasswordEcho {
    /// The password is complete.
    Submit,
    /// The last character was removed; erase one mask character.
    Erase,
    /// A character was added; show one mask character.
    Mask,
    /// Nothing changes.
    Ignore,
}

/// A control character as `char::is_control` decides it (category Cc).
pub open spec fn is_control_spec(c: char) -> bool {
    (c as u32) <= 0x1f || (0x7f <= (c as u32) && (c as u32) <= 0x9f)
}

/// Reacts to one character typed at the masked password prompt: Enter ends
/// it, Backspace or Delete removes the last character, other control
/// characters are ignored, anything else is appended.
pub fn password_step(buffer: &mut Vec<char>, ch: char) -> (echo: PasswordEcho)
    ensures
        (ch == '\n' || ch == '\r') ==> echo == PasswordEcho::Submit && final(buffer)@ == old(buffer)@,
        (ch == '\u{7f}' || ch == '\u{8}') ==> if old(buffer)@.len() > 0 {
            echo == PasswordEcho::Erase && final(buffer)@ == old(buffer)@.drop_last()
        } else {
            echo == PasswordEcho::Ignore && final(buffer)@ == old(buffer)@
        },
        !(ch == '\n' || ch == '\r' || ch == '\u{7f}' || ch == '\u{8}') ==> if is_control_spec(ch) {
            echo == PasswordEcho::Ignore && final(buffer)@ == old(buffer)@
        } else {
            echo == PasswordEcho::Mask && final(buffer)@ == old(buffer)@.push(ch)
        },
{
    if ch == '\n' || ch == '\r' {
        PasswordEcho::Submit
    } else if ch == '\u{7f}' || ch == '\u{8}' {
        if buffer.len() > 0 {
            buffer.pop();
            PasswordEcho::Erase
        } else {
            PasswordEcho::Ignore
        }
    } else {
        let v = ch as u32;
        if v <= 0x1f || (0x7f <= v && v <= 0x9f) {
            PasswordEcho::Ignore
        } else {
            buffer.push(ch);
            PasswordEcho::Mask
        }
    }
}

/// How many password attempts are left after `attempts` failed ones.
pub fn remaining_password_attempts(attempts: usize) -> (r: usize)
    ensures
        r == if attempts >= MAX_PASSWORD_ATTEMPTS { 0 } else { (MAX_PASSWORD_ATTEMPTS - attempts) as usize },
{
    MAX_PASSWORD_ATTEMPTS.saturating_sub(attempts)
}

/// The index that a typed number selects in a list of `len` wallets, counting from 1.
pub fn parse_wallet_choice(input: &str, len: usize) -> (r: Option<usize>)
    ensures
        match r {
            Some(i) => typed_choice(trim_spec(input@), len as nat) == Some(i as nat) && i < len,
            None => typed_choice(trim_spec(input@), len as nat).is_none(),
        },
{
    let t = trim(input);
    match parse_unsigned(t.as_str(), usize::MAX as u64) {
        Some(v) => if 1 <= v && v <= len as u64 {
            Some((v - 1) as usize)
        } else {
            None
        },
        None => None,
    }
}

/// The outcome of unlocking or adding a wallet.
pub struct WalletProcessingResult {
    pub config_updated: bool,
    pub selected_remark: Option<String>,
}

/// A remark is taken when an entry already has it, ignoring ASCII case.
pub fn remark_taken(remarks: &Vec<String>, remark: &str) -> (r: bool)
    ensures
        r == exists|i: int| 0 <= i < remarks@.len() && eq_ignore_case_spec(#[trigger] remarks@[i]@, remark@),
{
    let n = remarks.len();
    let mut k: usize = 0;
    while k < n
        invariant
            n == remarks@.len(),
            k <= n,
            forall|i: int| 0 <= i < k ==> !eq_ignore_case_spec(#[trigger] remarks@[i]@, remark@),
        decreases n - k,
    {
        if eq_ignore_ascii_case(remarks[k].as_str(), remark) {
            return true;
        }
        k = k + 1;
    }
    false
}

// ---------------------------------------------------------------------------
// Writing `wallet_keys` back into the configuration file.

/// One encrypted private key under `wallet_keys`, with the remark it is chosen by.
pub struct WalletKeyEntry {
    pub remark: String,
    pub encrypted: String,
}

/// Remark and encrypted text of each entry.
pub open spec fn entry_pairs(v: Seq<WalletKeyEntry>) -> Seq<(Seq<char>, Seq<char>)> {
    v.map_values(|e: WalletKeyEntry| (e.remark@, e.encrypted@))
}

/// The YAML that `serde_yaml` writes for a list of one-entry maps `remark: encrypted`.
pub uninterp spec fn wallet_keys_yaml(entries: Seq<(Seq<char>, Seq<char>)>) -> Option<Seq<char>>;

/// Serializes the entries with `serde_yaml::to_string`, each as a one-entry map
/// from its remark to its encrypted text. Trusted: the result is named by
/// `wallet_keys_yaml`.
#[verifier::external_body]
fn entries_yaml(entries: &Vec<WalletKeyEntry>) -> (r: Option<String>)
    ensures
        r.is_some() == wallet_keys_yaml(entry_pairs(entries@)).is_some(),
        r.is_some() ==> wallet_keys_yaml(entry_pairs(entries@)) == Some(r.unwrap()@),
{
    let maps: Vec<std::collections::BTreeMap<String, String>> = entries
        .iter()
        .map(|e| std::collections::BTreeMap::from([(e.remark.clone(), e.encrypted.clone())]))
        .collect();
    serde_yaml::to_string(&maps).ok()
}

/// `wallet_keys:`, the line that opens the section.
pub open spec fn wallet_keys_marker() -> Seq<char> {
    seq!['w', 'a', 'l', 'l', 'e', 't', '_', 'k', 'e', 'y', 's', ':']
}

/// `s` begins with `p`.
pub open spec fn starts_with_spec(s: Seq<char>, p: Seq<char>) -> bool {
    p.len() <= s.len() && s.subrange(0, p.len() as int) == p
}

/// Two spaces before a line of the section.
pub open spec fn indented(line: Seq<char>) -> Seq<char> {
    seq![' ', ' '] + line
}

/// The lines of the `wallet_keys` section for the given entries, given what
/// the YAML serializer wrote for them.
pub open spec fn wallet_keys_section_spec(entries: Seq<WalletKeyEntry>, yaml: Option<Seq<char>>) -> Option<Seq<Seq<char>>> {
    if entries.len() == 0 {
        Some(seq![wallet_keys_marker(), "  # 尚未配置加密私钥，启动时会提示录入。"@])
    } else {
        match yaml {
            None => None,
            Some(y) => Some(seq![wallet_keys_marker()] + lines_of(strip_end_spec(y, '\n')).map_values(|l: Seq<char>| indented(l))),
        }
    }
}

fn marker_string() -> (s: String)
    ensures
        s@ == wallet_keys_marker(),
{
    let s = String::from_str("wallet_keys:");
    proof {
        reveal_strlit("wallet_keys:");
    }
    assert(s@ =~= wallet_keys_marker());
    s
}

/// The lines of the `wallet_keys` section: the marker, then the serialized
/// entries indented by two spaces, or a comment when there are none.
pub fn format_wallet_keys_lines(entries: &Vec<WalletKeyEntry>) -> (r: Option<Vec<String>>)
    ensures
        match r {
            Some(v) => wallet_keys_section_spec(entries@, wallet_keys_yaml(entry_pairs(entries@))) == Some(string_views(v@)),
            None => wallet_keys_section_spec(entries@, wallet_keys_yaml(entry_pairs(entries@))).is_none(),
        },
{
    let mut lines: Vec<String> = Vec::new();
    lines.push(marker_string());
    if entries.len() == 0 {
        lines.push(String::from_str("  # 尚未配置加密私钥，启动时会提示录入。"));
        assert(string_views(lines@) =~= seq![wallet_keys_marker(), "  # 尚未配置加密私钥，启动时会提示录入。"@]);
        return Some(lines);
    }
    let yaml = entries_yaml(entries)?;
    let body = strip_end_chars(&chars_of(yaml.as_str()), '\n');
    let body_lines = text_lines(string_from_chars(&body).as_str());
    let ghost src = lines_of(strip_end_spec(yaml@, '\n'));
    for k in 0..body_lines.len()
        invariant
            string_views(body_lines@) == src,
            string_views(lines@) == seq![wallet_keys_marker()] + src.subrange(0, k as int).map_values(|l: Seq<char>| indented(l)),
    {
        let line = chars_of(body_lines[k].as_str());
        let mut v: Vec<char> = Vec::new();
        v.push(' ');
        v.push(' ');
        for i in 0..line.len()
            invariant
                v@ == seq![' ', ' '] + line@.subrange(0, i as int),
        {
            v.push(line[i]);
            assert(v@ =~= seq![' ', ' '] + line@.subrange(0, i + 1));
        }
        assert(line@.subrange(0, line@.len() as int) =~= line@);
        let ghost before = lines@;
        lines.push(string_from_chars(&v));
        assert(string_views(lines@) =~= string_views(before).push(v@));
        assert(src.subrange(0, k + 1).map_values(|l: Seq<char>| indented(l))
            =~= src.subrange(0, k as int).map_values(|l: Seq<char>| indented(l)).push(indented(src[k as int])));
        assert(string_views(lines@) =~= seq![wallet_keys_marker()] + src.subrange(0, k + 1).map_values(|l: Seq<char>| indented(l)));
    }
    assert(src.subrange(0, src.len() as int) =~= src);
    Some(lines)
}

/// The line opens the `wallet_keys` section: after leading whitespace it starts with the marker.
pub open spec fn is_section_start(line: Seq<char>) -> bool {
    starts_with_spec(trim_start_spec(line), wallet_keys_marker())
}

/// The line still belongs to the section: blank, or indented by a space or a tab.
pub open spec fn is_section_body(line: Seq<char>) -> bool {
    trim_spec(line).len() == 0 || (line.len() > 0 && (line[0] == ' ' || line[0] == '\t'))
}

/// The first line from `k` on that opens the section.
pub open spec fn section_start_from(lines: Seq<Seq<char>>, k: int) -> Option<int>
    decreases lines.len() - k,
{
    if k < 0 || k >= lines.len() {
        None
    } else if is_section_start(lines[k]) {
        Some(k)
    } else {
        section_start_from(lines, k + 1)
    }
}

/// The first line from `k` on that no longer belongs to the section, or the end.
pub open spec fn section_end_from(lines: Seq<Seq<char>>, k: int) -> int
    decreases lines.len() - k,
{
    if k < 0 || k >= lines.len() {
        lines.len() as int
    } else if is_section_body(lines[k]) {
        section_end_from(lines, k + 1)
    } else {
        k
    }
}

/// The file's lines with the `wallet_keys` section replaced by `section`, or,
/// when there is none, with `section` appended after a blank line.
pub open spec fn splice_section_spec(lines: Seq<Seq<char>>, section: Seq<Seq<char>>) -> Seq<Seq<char>> {
    match section_start_from(lines, 0) {
        Some(start) => {
            let end = section_end_from(lines, start + 1);
            lines.subrange(0, start) + section + lines.subrange(end, lines.len() as int)
        },
        None => if lines.len() > 0 && lines.last().len() > 0 {
            lines.push(Seq::<char>::empty()) + section
        } else {
            lines + section
        },
    }
}

/// Lines joined with `\n`.
pub open spec fn join_lines_spec(lines: Seq<Seq<char>>) -> Seq<char>
    decreases lines.len(),
{
    if lines.len() == 0 {
        Seq::<char>::empty()
    } else if lines.len() == 1 {
        lines[0]
    } else {
        join_lines_spec(lines.drop_last()) + seq!['\n'] + lines.last()
    }
}

/// The configuration text with its `wallet_keys` section rewritten, ending in a newline.
pub open spec fn rewritten_config_spec(contents: Seq<char>, section: Seq<Seq<char>>) -> Seq<char> {
    join_lines_spec(splice_section_spec(lines_of(contents), section)).push('\n')
}

proof fn lemma_section_bounds(lines: Seq<Seq<char>>, k: int)
    requires
        0 <= k,
    ensures
        section_start_from(lines, k) matches Some(i) ==> k <= i < lines.len(),
        k <= lines.len() ==> k <= section_end_from(lines, k) <= lines.len(),
    decreases lines.len() - k,
{
    if k < lines.len() {
        lemma_section_bounds(lines, k + 1);
    }
}

fn line_is_section_start(line: &String) -> (r: bool)
    ensures
        r == is_section_start(line@),
{
    let chars = chars_of(line.as_str());
    let n = chars.len();
    let mut i: usize = 0;
    while i < n && crate::text::is_ws_char(chars[i])
        invariant
            chars@ == line@,
            n == line@.len(),
            i <= n,
            forall|k: int| 0 <= k < i ==> is_ws(#[trigger] line@[k]),
        decreases n - i,
    {
        i = i + 1;
    }
    proof {
        lemma_trim_start_skip(line@, i as int);
        let rest = line@.subrange(i as int, n as int);
        if i < n {
            assert(rest[0] == line@[i as int]);
        }
        assert(crate::text::trim_start_spec(rest) == rest);
    }
    let marker = marker_string();
    let m = chars_of(marker.as_str());
    if n - i < m.len() {
        return false;
    }
    let mut k: usize = 0;
    while k < m.len()
        invariant
            chars@ == line@,
            m@ == wallet_keys_marker(),
            i + m@.len() <= n,
            n == line@.len(),
            k <= m@.len(),
            trim_start_spec(line@) == line@.subrange(i as int, n as int),
            forall|j: int| 0 <= j < k ==> line@[i + j] == m@[j],
        decreases m@.len() - k,
    {
        if chars[i + k] != m[k] {
            proof {
                let rest = line@.subrange(i as int, n as int);
                assert(rest.subrange(0, 12)[k as int] != wallet_keys_marker()[k as int]);
            }
            return false;
        }
        k = k + 1;
    }
    proof {
        let rest = line@.subrange(i as int, n as int);
        assert(rest.subrange(0, 12) =~= wallet_keys_marker());
    }
    true
}

fn line_is_section_body(line: &String) -> (r: bool)
    ensures
        r == is_section_body(line@),
{
    let t = trim(line.as_str());
    if t.unicode_len() == 0 {
        return true;
    }
    let s = line.as_str();
    s.unicode_len() > 0 && (s.get_char(0) == ' ' || s.get_char(0) == '\t')
}

/// Replaces (or appends) the `wallet_keys` section of a configuration text.
pub fn rewrite_wallet_keys(contents: &str, section: &Vec<String>) -> (r: String)
    ensures
        r@ == rewritten_config_spec(contents@, string_views(section@)),
{
    let lines = text_lines(contents);
    let ghost lv = string_views(lines@);
    let ghost sv = string_views(section@);
    let n = lines.len();
    let mut start: usize = 0;
    while start < n && !line_is_section_start(&lines[start])
        invariant
            n == lines@.len(),
            lv == string_views(lines@),
            start <= n,
            section_start_from(lv, 0) == section_start_from(lv, start as int),
        decreases n - start,
    {
        start = start + 1;
    }
    let mut out_lines: Vec<Vec<char>> = Vec::new();
    if start < n {
        let mut end: usize = start + 1;
        while end < n && line_is_section_body(&lines[end])
            invariant
                n == lines@.len(),
                lv == string_views(lines@),
                start < end <= n,
                section_end_from(lv, start + 1) == section_end_from(lv, end as int),
            decreases n - end,
        {
            end = end + 1;
        }
        for k in 0..start
            invariant
                start < n,
                n == lines@.len(),
                lv == string_views(lines@),
                crate::text::char_views(out_lines@) == lv.subrange(0, k as int),
        {
            crate::text::push_chars_of(&mut out_lines, lines[k].as_str());
            assert(crate::text::char_views(out_lines@) =~= lv.subrange(0, k + 1));
        }
        for k in 0..section.len()
            invariant
                start < n,
                n == lines@.len(),
                lv == string_views(lines@),
                sv == string_views(section@),
                crate::text::char_views(out_lines@) == lv.subrange(0, start as int) + sv.subrange(0, k as int),
        {
            crate::text::push_chars_of(&mut out_lines, section[k].as_str());
            assert(crate::text::char_views(out_lines@) =~= lv.subrange(0, start as int) + sv.subrange(0, k + 1));
        }
        for k in end..n
            invariant
                start < end <= n,
                n == lines@.len(),
                lv == string_views(lines@),
                sv == string_views(section@),
                crate::text::char_views(out_lines@) == lv.subrange(0, start as int) + sv + lv.subrange(end as int, k as int),
        {
            crate::text::push_chars_of(&mut out_lines, lines[k].as_str());
            assert(crate::text::char_views(out_lines@) =~= lv.subrange(0, start as int) + sv + lv.subrange(end as int, k + 1));
        }
        assert(sv.subrange(0, sv.len() as int) =~= sv);
        proof {
            lemma_section_bounds(lv, 0);
        }
    } else {
        for k in 0..n
            invariant
                n == lines@.len(),
                lv == string_views(lines@),
                crate::text::char_views(out_lines@) == lv.subrange(0, k as int),
        {
            crate::text::push_chars_of(&mut out_lines, lines[k].as_str());
            assert(crate::text::char_views(out_lines@) =~= lv.subrange(0, k + 1));
        }
        let ghost base = lv;
        if n > 0 && lines[n - 1].unicode_len() > 0 {
            proof {
                reveal_strlit("");
                assert(""@ =~= Seq::<char>::empty());
            }
            crate::text::push_chars_of(&mut out_lines, "");
            assert(crate::text::char_views(out_lines@) =~= lv.push(Seq::<char>::empty()));
        } else {
            assert(crate::text::char_views(out_lines@) =~= lv);
        }
        let ghost prefix = crate::text::char_views(out_lines@);
        for k in 0..section.len()
            invariant
                sv == string_views(section@),
                crate::text::char_views(out_lines@) == prefix + sv.subrange(0, k as int),
        {
            crate::text::push_chars_of(&mut out_lines, section[k].as_str());
            assert(crate::text::char_views(out_lines@) =~= prefix + sv.subrange(0, k + 1));
        }
        assert(sv.subrange(0, sv.len() as int) =~= sv);
        assert(lv.subrange(0, n as int) =~= lv);
    }
    let ghost all = crate::text::char_views(out_lines@);
    assert(all == splice_section_spec(lv, sv));
    let mut joined: Vec<char> = Vec::new();
    for k in 0..out_lines.len()
        invariant
            all == crate::text::char_views(out_lines@),
            joined@ == join_lines_spec(all.subrange(0, k as int)),
    {
        let ghost pre = all.subrange(0, k + 1);
        assert(pre.drop_last() =~= all.subrange(0, k as int));
        if k > 0 {
            joined.push('\n');
        }
        let line = &out_lines[k];
        for i in 0..line.len()
            invariant
                k < all.len(),
                line@ == all[k as int],
                joined@ == (if k > 0 { join_lines_spec(all.subrange(0, k as int)) + seq!['\n'] } else { Seq::<char>::empty() }) + line@.subrange(0, i as int),
        {
            joined.push(line[i]);
            assert(joined@ =~= (if k > 0 { join_lines_spec(all.subrange(0, k as int)) + seq!['\n'] } else { Seq::<char>::empty() }) + line@.subrange(0, i + 1));
        }
        assert(line@.subrange(0, line@.len() as int) =~= line@);
        if k == 0 {
            assert(joined@ =~= join_lines_spec(pre));
        }
    }
    assert(all.subrange(0, all.len() as int) =~= all);
    joined.push('\n');
    string_from_chars(&joined)
}


// ---------------------------------------------------------------------------
// Choosing, unlocking and adding the wallet the bot trades with.

/// The wallet settings of the configuration.
pub struct WalletConfig {
    /// The unlocked private key; configuring it directly is no longer accepted.
    pub private_key: String,
    /// The encrypted keys to choose from.
    pub wallet_keys: Vec<WalletKeyEntry>,
    /// Whether the configuration still has the legacy field `wallets_key`.
    pub legacy_wallet_keys: bool,
}

/// Why the wallet could not be set up.
#[derive(Clone, Debug)]
pub enum WalletSetupError {
    /// A private key is configured in the clear.
    DeprecatedPrivateKey,
    /// The legacy field `wallets_key` is present.
    LegacyWalletKeys,
    /// An entry already has this remark, ignoring ASCII case.
    RemarkTaken(String),
    /// The key could not be sealed.
    Sealing(WalletError),
    /// The chosen entry is not Base64.
    Decoding(WalletError),
    /// The last allowed password did not open the entry.
    Unlocking(WalletError),
}

/// What setting up the wallet goes on with.
#[derive(PartialEq, Eq, Structural, Clone, Copy, Debug)]
pub enum WalletStart {
    /// No wallet is stored: one is asked for and added.
    AddFirstWallet,
    /// The user chooses one of the stored wallets and unlocks it.
    ChooseWallet,
}

/// How setting up the wallet starts: a key in the clear or the legacy field
/// is refused; with no stored wallet one is added; otherwise one is chosen.
pub fn process_wallet(wallet: &WalletConfig) -> (r: Result<WalletStart, WalletSetupError>)
    ensures
        trim_spec(wallet.private_key@).len() > 0 ==> r matches Err(WalletSetupError::DeprecatedPrivateKey),
        trim_spec(wallet.private_key@).len() == 0 && wallet.legacy_wallet_keys ==> r matches Err(WalletSetupError::LegacyWalletKeys),
        trim_spec(wallet.private_key@).len() == 0 && !wallet.legacy_wallet_keys ==>
            r == Ok::<WalletStart, WalletSetupError>(if wallet.wallet_keys@.len() == 0 { WalletStart::AddFirstWallet } else { WalletStart::ChooseWallet }),
{
    let t = trim(wallet.private_key.as_str());
    if t.unicode_len() > 0 {
        return Err(WalletSetupError::DeprecatedPrivateKey);
    }
    if wallet.legacy_wallet_keys {
        return Err(WalletSetupError::LegacyWalletKeys);
    }
    if wallet.wallet_keys.len() == 0 {
        Ok(WalletStart::AddFirstWallet)
    } else {
        Ok(WalletStart::ChooseWallet)
    }
}

/// The remarks of the stored wallets.
pub open spec fn entry_remarks(v: Seq<WalletKeyEntry>) -> Seq<Seq<char>> {
    v.map_values(|e: WalletKeyEntry| e.remark@)
}

fn remarks_of(entries: &Vec<WalletKeyEntry>) -> (v: Vec<String>)
    ensures
        v@.len() == entries@.len(),
        crate::text::string_views(v@) == entry_remarks(entries@),
{
    let mut v: Vec<String> = Vec::new();
    for i in 0..entries.len()
        invariant
            v@.len() == i,
            crate::text::string_views(v@) == entry_remarks(entries@.subrange(0, i as int)),
    {
        let ghost before = v@;
        let r = entries[i].remark.clone();
        v.push(r);
        proof {
            let old_pre = entries@.subrange(0, i as int);
            let pre = entries@.subrange(0, i + 1);
            assert(pre =~= old_pre.push(entries@[i as int]));
            assert(entry_remarks(pre) =~= entry_remarks(old_pre).push(entries@[i as int].remark@));
            assert(v@ == before.push(r));
            assert(crate::text::string_views(v@) =~= crate::text::string_views(before).push(r@));
        }
    }
    assert(entries@.subrange(0, entries@.len() as int) =~= entries@);
    v
}

/// Adds a wallet from the answers to the prompts: the private key, a remark
/// and a new password. A remark already in use (ignoring ASCII case) is
/// refused; otherwise the key becomes the unlocked key and is stored,
/// sealed under the password, after the other entries.
pub fn add_wallet_entry_interactive(wallet: &mut WalletConfig, private_key: String, remark: String, password: &str) -> (r: Result<WalletProcessingResult, WalletSetupError>)
    requires
        password.spec_bytes().len() <= 0xffff_ffff,
    ensures
        (exists|i: int| 0 <= i < old(wallet).wallet_keys@.len() && eq_ignore_case_spec(#[trigger] old(wallet).wallet_keys@[i].remark@, remark@))
            ==> (r matches Err(WalletSetupError::RemarkTaken(t)) && t@ == remark@),
        r is Err ==> final(wallet).private_key@ == old(wallet).private_key@ && final(wallet).wallet_keys@ == old(wallet).wallet_keys@,
        r matches Err(WalletSetupError::Sealing(e)) ==> e == WalletError::PlaintextTooLong
            && encode_utf8(private_key@).len() > AES_GCM_MAX_PLAINTEXT,
        r matches Ok(res) ==> {
            &&& !(exists|i: int| 0 <= i < old(wallet).wallet_keys@.len() && eq_ignore_case_spec(#[trigger] old(wallet).wallet_keys@[i].remark@, remark@))
            &&& res.config_updated
            &&& res.selected_remark matches Some(s) && s@ == remark@
            &&& final(wallet).private_key@ == private_key@
            &&& final(wallet).wallet_keys@.len() == old(wallet).wallet_keys@.len() + 1
            &&& final(wallet).wallet_keys@.subrange(0, old(wallet).wallet_keys@.len() as int) == old(wallet).wallet_keys@
            &&& final(wallet).wallet_keys@.last().remark@ == remark@
            &&& exists|salt: Seq<u8>, nonce: Seq<u8>| salt.len() == SALT_SIZE && nonce.len() == NONCE_SIZE
                && final(wallet).wallet_keys@.last().encrypted@
                    == base64_text(#[trigger] sealed_blob_spec(encode_utf8(private_key@), password.spec_bytes(), salt, nonce))
        },
        r matches Err(e) ==> (e is RemarkTaken || e is Sealing),
        final(wallet).legacy_wallet_keys == old(wallet).legacy_wallet_keys,
{
    let remarks = remarks_of(&wallet.wallet_keys);
    if remark_taken(&remarks, remark.as_str()) {
        proof {
            let i = choose|i: int| 0 <= i < remarks@.len() && eq_ignore_case_spec(#[trigger] remarks@[i]@, remark@);
            assert(remarks@[i]@ == crate::text::string_views(remarks@)[i]);
            assert(entry_remarks(wallet.wallet_keys@)[i] == wallet.wallet_keys@[i].remark@);
        }
        return Err(WalletSetupError::RemarkTaken(remark));
    }
    proof {
        assert forall|i: int| 0 <= i < wallet.wallet_keys@.len() implies !eq_ignore_case_spec(#[trigger] wallet.wallet_keys@[i].remark@, remark@) by {
            assert(entry_remarks(wallet.wallet_keys@)[i] == wallet.wallet_keys@[i].remark@);
            assert(remarks@[i]@ == crate::text::string_views(remarks@)[i]);
        }
    }
    let encrypted = match seal_wallet_entry(private_key.as_str(), password) {
        Ok(s) => s,
        Err(e) => {
            return Err(WalletSetupError::Sealing(e));
        },
    };
    wallet.private_key = private_key;
    let ghost before = wallet.wallet_keys@;
    wallet.wallet_keys.push(WalletKeyEntry { remark: remark.clone(), encrypted });
    assert(wallet.wallet_keys@.subrange(0, before.len() as int) =~= before);
    Ok(WalletProcessingResult { config_updated: true, selected_remark: Some(remark) })
}

/// Decodes the stored text of the chosen entry, surrounding whitespace ignored.
pub fn decode_wallet_entry(encoded: &str) -> (r: Result<Vec<u8>, WalletError>)
    ensures
        match r {
            Ok(d) => base64_decoded(trim_spec(encoded@)) == Some(d@),
            Err(e) => e == WalletError::InvalidBase64 && base64_decoded(trim_spec(encoded@)) is None,
        },
{
    let t = trim(encoded);
    match base64_decode(t.as_str()) {
        Some(d) => Ok(d),
        None => Err(WalletError::InvalidBase64),
    }
}

/// What a password attempt at the chosen entry leads to.
#[derive(Clone, Debug)]
pub enum UnlockStep {
    /// The entry opened; its key is now the unlocked key.
    Unlocked,
    /// The password failed; this many attempts are left.
    Retry { remaining: usize, error: WalletError },
    /// The password failed and no attempt is left.
    GiveUp(WalletError),
}

/// Tries the `attempts`-th password on the decoded entry: the key it opens
/// becomes the unlocked key; a failure leaves the wallet as it was and is
/// retried until the attempts allowed are used up.
pub fn unlock_attempt(wallet: &mut WalletConfig, cipher: &Vec<u8>, password: &str, attempts: usize) -> (r: UnlockStep)
    requires
        password.spec_bytes().len() <= 0xffff_ffff,
    ensures
        match opened_spec(cipher@, password.spec_bytes()) {
            Ok(key) => r is Unlocked && final(wallet).private_key@ == key,
            Err(e) => final(wallet).private_key@ == old(wallet).private_key@ && match r {
                UnlockStep::Retry { remaining, error } => error == e && attempts < MAX_PASSWORD_ATTEMPTS
                    && remaining == MAX_PASSWORD_ATTEMPTS - attempts,
                UnlockStep::GiveUp(g) => g == e && attempts >= MAX_PASSWORD_ATTEMPTS,
                UnlockStep::Unlocked => false,
            },
        },
        final(wallet).wallet_keys@ == old(wallet).wallet_keys@,
        final(wallet).legacy_wallet_keys == old(wallet).legacy_wallet_keys,
{
    match decrypt_wallet_bytes(cipher, password) {
        Ok(key) => {
            wallet.private_key = key;
            UnlockStep::Unlocked
        },
        Err(e) => {
            let remaining = remaining_password_attempts(attempts);
            if remaining == 0 {
                UnlockStep::GiveUp(e)
            } else {
                UnlockStep::Retry { remaining, error: e }
            }
        },
    }
}

} // verus!
