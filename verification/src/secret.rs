//! Local secret box: API keys and other sensitive values sealed with
//! AES-256-GCM under a key kept on this machine, stored as
//! base64(nonce || ciphertext).
use vstd::prelude::*;
use vstd::utf8::{decode_utf8, encode_utf8, valid_utf8, encode_utf8_decode_utf8, encode_utf8_valid_utf8};
use crate::text::{chars_of, is_ws, string_of, trim_s, trim_str};

verus! {

/// Length of the key in bytes.
pub const KEY_LEN: usize = 32;

/// Length of a nonce in bytes.
pub const NONCE_LEN: usize = 12;

/// Length of the authentication tag in bytes.
pub const TAG_LEN: usize = 16;

/// Why sealing or opening failed.
#[derive(Debug, Clone, Copy, PartialEq, Eq, Structural)]
pub enum SecretError {
    /// the key file does not hold exactly 32 bytes
    BadKeyFile,
    /// the cipher refused the plain text
    Encrypt,
    /// the stored text is not base64
    NotBase64,
    /// the decoded text is too short to hold a nonce and a ciphertext
    BadLength,
    /// wrong key or tampered data
    Decrypt,
    /// the opened bytes are not UTF-8
    NotUtf8,
}

impl SecretError {
    /// A message for the user.
    pub fn message(&self) -> (r: String)
        ensures
            r@ == secret_error_text(*self),
    {
        let s = match self {
            SecretError::BadKeyFile => "密钥文件损坏（长度应为 32 字节）",
            SecretError::Encrypt => "加密失败",
            SecretError::NotBase64 => "密文不是合法 base64",
            SecretError::BadLength => "密文长度异常",
            SecretError::Decrypt => "解密失败（密钥不匹配或数据被篡改）",
            SecretError::NotUtf8 => "解密结果不是合法 UTF-8",
        };
        string_of(chars_of(s).as_slice())
    }
}

/// Text of a secret error.
pub open spec fn secret_error_text(e: SecretError) -> Seq<char> {
    match e {
        SecretError::BadKeyFile => "密钥文件损坏（长度应为 32 字节）"@,
        SecretError::Encrypt => "加密失败"@,
        SecretError::NotBase64 => "密文不是合法 base64"@,
        SecretError::BadLength => "密文长度异常"@,
        SecretError::Decrypt => "解密失败（密钥不匹配或数据被篡改）"@,
        SecretError::NotUtf8 => "解密结果不是合法 UTF-8"@,
    }
}

// ---------------------------------------------------------------- outside calls

/// AES-256-GCM encryption of `plain` under `key` and `nonce` (tag appended).
pub uninterp spec fn aes_gcm_seal(key: Seq<u8>, nonce: Seq<u8>, plain: Seq<u8>) -> Option<Seq<u8>>;

/// AES-256-GCM decryption and tag check of `sealed` under `key` and `nonce`.
pub uninterp spec fn aes_gcm_open(key: Seq<u8>, nonce: Seq<u8>, sealed: Seq<u8>) -> Option<Seq<u8>>;

/// Standard base64 (with padding) of `bytes`.
pub uninterp spec fn base64_encode(bytes: Seq<u8>) -> Seq<char>;

/// Standard base64 decoding of `text`.
pub uninterp spec fn base64_decode(text: Seq<char>) -> Option<Seq<u8>>;

/// View of optional bytes.
pub open spec fn opt_bytes(o: Option<Vec<u8>>) -> Option<Seq<u8>> {
    match o {
        Some(b) => Some(b@),
        None => None,
    }
}

/// `Aes256Gcm::new_from_slice` and `Aead::encrypt` of aes-gcm. Claimed: the
/// result is `aes_gcm_seal` of the arguments; a sealed text is the plain text's
/// length plus the 16-byte tag, and opening it with the same key and nonce
/// gives the plain text back; with a 32-byte key, encryption into a `Vec`
/// fails only for plain texts longer than aes-gcm's `P_MAX` (2^36 bytes).
#[verifier::external_body]
fn seal(key: &[u8], nonce: &[u8], plain: &[u8]) -> (r: Option<Vec<u8>>)
    requires
        key@.len() == KEY_LEN,
        nonce@.len() == NONCE_LEN,
    ensures
        opt_bytes(r) == aes_gcm_seal(key@, nonce@, plain@),
        r matches Some(c) ==> c@.len() == plain@.len() + TAG_LEN && aes_gcm_open(key@, nonce@, c@)
            == Some(plain@),
        plain@.len() <= 0x10_0000_0000 ==> r is Some,
{
    let cipher = <aes_gcm::Aes256Gcm as aes_gcm::KeyInit>::new_from_slice(key).ok()?;
    let n = aes_gcm::aead::generic_array::GenericArray::from_slice(nonce);
    aes_gcm::aead::Aead::encrypt(&cipher, n, plain).ok()
}

/// `Aes256Gcm::new_from_slice` and `Aead::decrypt` of aes-gcm. Claimed: the
/// result is `aes_gcm_open` of the arguments.
#[verifier::external_body]
fn open(key: &[u8], nonce: &[u8], sealed: &[u8]) -> (r: Option<Vec<u8>>)
    requires
        key@.len() == KEY_LEN,
        nonce@.len() == NONCE_LEN,
    ensures
        opt_bytes(r) == aes_gcm_open(key@, nonce@, sealed@),
{
    let cipher = <aes_gcm::Aes256Gcm as aes_gcm::KeyInit>::new_from_slice(key).ok()?;
    let n = aes_gcm::aead::generic_array::GenericArray::from_slice(nonce);
    aes_gcm::aead::Aead::decrypt(&cipher, n, sealed).ok()
}

/// `AeadCore::generate_nonce` of aes-gcm with the system random source.
/// Claimed: 12 bytes; nothing is said of their values.
#[verifier::external_body]
fn random_nonce() -> (r: Vec<u8>)
    ensures
        r@.len() == NONCE_LEN,
{
    <aes_gcm::Aes256Gcm as aes_gcm::AeadCore>::generate_nonce(&mut aes_gcm::aead::OsRng).to_vec()
}

/// `Engine::encode` of base64's standard engine. Claimed: the result is
/// `base64_encode` of the bytes, holds no whitespace, and decodes back to the bytes.
#[verifier::external_body]
fn b64_encode(bytes: &[u8]) -> (r: String)
    ensures
        r@ == base64_encode(bytes@),
        base64_decode(r@) == Some(bytes@),
        forall|i: int| 0 <= i < r@.len() ==> !is_ws(#[trigger] r@[i]),
{
    base64::Engine::encode(&base64::engine::general_purpose::STANDARD, bytes)
}

/// `Engine::decode` of base64's standard engine. Claimed: the result is
/// `base64_decode` of the text.
#[verifier::external_body]
fn b64_decode(text: &str) -> (r: Option<Vec<u8>>)
    ensures
        opt_bytes(r) == base64_decode(text@),
{
    base64::Engine::decode(&base64::engine::general_purpose::STANDARD, text).ok()
}

/// `String::from_utf8`: a string exactly when the bytes are UTF-8, holding
/// the characters they encode.
#[verifier::external_body]
fn utf8_string(bytes: Vec<u8>) -> (r: Option<String>)
    ensures
        r is Some <==> valid_utf8(bytes@),
        r matches Some(s) ==> s@ == decode_utf8(bytes@),
{
    String::from_utf8(bytes).ok()
}

// ---------------------------------------------------------------- the box

/// Holds the key.
pub struct SecretBox {
    key: Vec<u8>,
}

/// Meaning of `SecretBox::decrypt` under `key`.
pub open spec fn decrypt_s(key: Seq<u8>, encoded: Seq<char>) -> Result<Seq<char>, SecretError> {
    match base64_decode(trim_s(encoded)) {
        None => Err(SecretError::NotBase64),
        Some(raw) => if raw.len() <= NONCE_LEN {
            Err(SecretError::BadLength)
        } else {
            match aes_gcm_open(key, raw.take(NONCE_LEN as int), raw.skip(NONCE_LEN as int)) {
                None => Err(SecretError::Decrypt),
                Some(pt) => if valid_utf8(pt) {
                    Ok(decode_utf8(pt))
                } else {
                    Err(SecretError::NotUtf8)
                },
            }
        },
    }
}

/// The text `encrypt` produces from a nonce and a sealed text.
pub open spec fn sealed_text(nonce: Seq<u8>, sealed: Seq<u8>) -> Seq<char> {
    base64_encode(nonce + sealed)
}

fn copy_bytes(b: &[u8], a: usize, e: usize) -> (r: Vec<u8>)
    requires
        a <= e <= b@.len(),
    ensures
        r@ == b@.subrange(a as int, e as int),
{
    let mut r: Vec<u8> = Vec::new();
    let mut i = a;
    while i < e
        invariant
            a <= i <= e <= b@.len(),
            r@ == b@.subrange(a as int, i as int),
        decreases e - i,
    {
        r.push(b[i]);
        assert(r@ =~= b@.subrange(a as int, i + 1));
        i = i + 1;
    }
    r
}

impl SecretBox {
    /// The key.
    pub closed spec fn key(&self) -> Seq<u8> {
        self.key@
    }

    /// A usable box holds a 32-byte key.
    pub open spec fn wf(&self) -> bool {
        self.key().len() == KEY_LEN
    }

    /// A box for the contents of a key file: exactly 32 bytes.
    pub fn from_key(raw: &[u8]) -> (r: Result<SecretBox, SecretError>)
        ensures
            raw@.len() == KEY_LEN ==> r is Ok && r->Ok_0.wf() && r->Ok_0.key() == raw@,
            raw@.len() != KEY_LEN ==> r == Err::<SecretBox, SecretError>(SecretError::BadKeyFile),
    {
        if raw.len() != KEY_LEN {
            return Err(SecretError::BadKeyFile);
        }
        Ok(SecretBox { key: copy_bytes(raw, 0, raw.len()) })
    }

    /// Seals a value under a fresh random nonce: base64(nonce || ciphertext).
    /// Whatever comes out opens again to the same value.
    pub fn encrypt(&self, plain: &str) -> (r: Result<String, SecretError>)
        requires
            self.wf(),
        ensures
            r matches Ok(e) ==> decrypt_s(self.key(), e@) == Ok::<Seq<char>, SecretError>(plain@),
            encode_utf8(plain@).len() <= 0x10_0000_0000 ==> r is Ok,
            exists|nonce: Seq<u8>|
                nonce.len() == NONCE_LEN && match aes_gcm_seal(self.key(), nonce, encode_utf8(plain@)) {
                    Some(c) => r is Ok && r->Ok_0@ == sealed_text(nonce, c),
                    None => r == Err::<String, SecretError>(SecretError::Encrypt),
                },
    {
        let nonce = random_nonce();
        let bytes = plain.as_bytes();
        let sealed = match seal(self.key.as_slice(), nonce.as_slice(), bytes) {
            Some(c) => c,
            None => {
                assert(nonce@.len() == NONCE_LEN);
                return Err(SecretError::Encrypt);
            },
        };
        let mut raw: Vec<u8> = copy_bytes(nonce.as_slice(), 0, nonce.len());
        let mut i: usize = 0;
        while i < sealed.len()
            invariant
                i <= sealed@.len(),
                raw@ == nonce@ + sealed@.take(i as int),
            decreases sealed@.len() - i,
        {
            raw.push(sealed[i]);
            assert(raw@ =~= nonce@ + sealed@.take(i + 1));
            i = i + 1;
        }
        assert(sealed@.take(sealed@.len() as int) =~= sealed@);
        let e = b64_encode(raw.as_slice());
        proof {
            assert(trim_s(e@) == e@) by {
                crate::text::lemma_trim_no_ws(e@);
            }
            assert(raw@.take(NONCE_LEN as int) =~= nonce@);
            assert(raw@.skip(NONCE_LEN as int) =~= sealed@);
            encode_utf8_valid_utf8(plain@);
            encode_utf8_decode_utf8(plain@);
        }
        Ok(e)
    }

    /// Opens a value sealed by `encrypt` under the same key.
    pub fn decrypt(&self, encoded: &str) -> (r: Result<String, SecretError>)
        requires
            self.wf(),
        ensures
            match decrypt_s(self.key(), encoded@) {
                Ok(p) => r is Ok && r->Ok_0@ == p,
                Err(e) => r == Err::<String, SecretError>(e),
            },
    {
        let t = string_of(trim_str(encoded).as_slice());
        let raw = match b64_decode(t.as_str()) {
            Some(b) => b,
            None => return Err(SecretError::NotBase64),
        };
        if raw.len() <= NONCE_LEN {
            return Err(SecretError::BadLength);
        }
        let nonce = copy_bytes(raw.as_slice(), 0, NONCE_LEN);
        let ct = copy_bytes(raw.as_slice(), NONCE_LEN, raw.len());
        assert(nonce@ =~= raw@.take(NONCE_LEN as int));
        assert(ct@ =~= raw@.skip(NONCE_LEN as int));
        let pt = match open(self.key.as_slice(), nonce.as_slice(), ct.as_slice()) {
            Some(p) => p,
            None => return Err(SecretError::Decrypt),
        };
        match utf8_string(pt) {
            Some(s) => Ok(s),
            None => Err(SecretError::NotUtf8),
        }
    }

    /// The stored form of an endpoint's API key: none for a missing or empty
    /// key, else the key sealed by `encrypt`, which reads back as the key.
    pub fn seal_key(&self, api_key: Option<&str>) -> (r: Result<Option<String>, SecretError>)
        requires
            self.wf(),
        ensures
            match api_key {
                None => r == Ok::<Option<String>, SecretError>(None),
                Some(k) => if k@.len() == 0 {
                    r == Ok::<Option<String>, SecretError>(None)
                } else {
                    &&& r matches Ok(Some(e)) ==> decrypt_s(self.key(), e@) == Ok::<Seq<char>, SecretError>(k@)
                    &&& !(r matches Ok(None))
                    &&& encode_utf8(k@).len() <= 0x10_0000_0000 ==> r is Ok
                },
            },
    {
        match api_key {
            None => Ok(None),
            Some(k) => {
                if k.unicode_len() == 0 {
                    Ok(None)
                } else {
                    match self.encrypt(k) {
                        Ok(e) => Ok(Some(e)),
                        Err(e) => Err(e),
                    }
                }
            },
        }
    }

    /// An API key read back from its stored form: none when nothing (or an empty
    /// text) is stored, else the decrypted key.
    pub fn open_key(&self, enc: Option<&str>) -> (r: Result<Option<String>, SecretError>)
        requires
            self.wf(),
        ensures
            match enc {
                None => r == Ok::<Option<String>, SecretError>(None),
                Some(e) => if e@.len() == 0 {
                    r == Ok::<Option<String>, SecretError>(None)
                } else {
                    match decrypt_s(self.key(), e@) {
                        Ok(p) => r matches Ok(Some(k)) && k@ == p,
                        Err(x) => r == Err::<Option<String>, SecretError>(x),
                    }
                },
            },
    {
        match enc {
            None => Ok(None),
            Some(e) => {
                if e.unicode_len() == 0 {
                    Ok(None)
                } else {
                    match self.decrypt(e) {
                        Ok(k) => Ok(Some(k)),
                        Err(x) => Err(x),
                    }
                }
            },
        }
    }
}

} // verus!
