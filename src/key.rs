//! The trusted public key: the text field it is entered in, and the key that
//! each verification uses.

use vstd::prelude::*;

verus! {

/// The key of a notary run locally from the project's test fixture.
pub const DEFAULT_PEM: &'static str = "-----BEGIN PUBLIC KEY-----
MFkwEwYHKoZIzj0CAQYIKoZIzj0DAQcDQgAEBv36FI4ZFszJa0DQFJ3wWCXvVLFr
cRzMG5kaTeHGoSzDu6cFqx3uEWYpFGo6C0EOUgf+mEgbktLrXocv5yHzKg==
-----END PUBLIC KEY-----";

/// The key of the public notary at notary.pse.dev.
pub const NOTARY_PSE_PEM: &'static str = "-----BEGIN PUBLIC KEY-----
MFkwEwYHKoZIzj0CAQYIKoZIzj0DAQcDQgAExpX/4R4z40gI6C/j9zAM39u58LJu
3Cx5tXTuqhhu/tirnBi5GniMmspOTEsps4ANnPLpMmMSfhJ+IFHbc3qVOA==
-----END PUBLIC KEY-----";

/// The SEC1 encoding of the P-256 public key that a PEM text holds, or `None`
/// when the text does not decode as one.
pub uninterp spec fn pem_key_of(s: Seq<char>) -> Option<Seq<u8>>;

/// The text with leading and trailing white space removed.
pub uninterp spec fn trimmed(s: Seq<char>) -> Seq<char>;

/// Relies on `DecodePublicKey::from_public_key_pem` for `p256::PublicKey`,
/// whose result is handed on as `PublicKey::to_sec1_bytes`: the key depends on
/// the text alone; on failure the decoder's message is kept.
#[verifier::external_body]
fn decode_pem(pem: &str) -> (r: Result<Vec<u8>, String>)
    ensures
        match r {
            Ok(k) => pem_key_of(pem@) == Some(k@),
            Err(_) => pem_key_of(pem@) is None,
        },
{
    match <p256::PublicKey as p256::pkcs8::DecodePublicKey>::from_public_key_pem(pem) {
        Ok(k) => Ok(k.to_sec1_bytes().into_vec()),
        Err(e) => Err(e.to_string()),
    }
}

/// Relies on `str::trim`: the result depends on the text alone.
#[verifier::external_body]
fn trim_text(s: &str) -> (r: String)
    ensures
        r@ == trimmed(s@),
{
    s.trim().to_string()
}

/// A P-256 public key trusted to sign session commitments, as its SEC1
/// encoding.
#[derive(Debug, Clone, PartialEq, Eq)]
pub struct TrustedKey {
    pub sec1: Vec<u8>,
}

/// The text field in which the trusted key is entered, and what was wrong
/// with its current text, if anything.
#[derive(Debug, Clone, PartialEq, Eq)]
pub struct KeyField {
    pub text: String,
    pub error: Option<String>,
}

impl KeyField {
    /// A field holding the default key's text.
    pub fn new() -> (r: KeyField)
        ensures
            r.text@ == DEFAULT_PEM@,
            r.error is None,
    {
        KeyField { text: DEFAULT_PEM.to_string(), error: None }
    }

    /// Takes new text for the field. The text is kept with surrounding white
    /// space removed; when it decodes as a key, the key is returned to become
    /// the trusted one and the error is cleared, and otherwise the decoder's
    /// message is kept and no key is returned.
    pub fn input(&mut self, raw: &str) -> (r: Option<TrustedKey>)
        ensures
            final(self).text@ == trimmed(raw@),
            r is Some <==> pem_key_of(trimmed(raw@)) is Some,
            r matches Some(k) ==> pem_key_of(trimmed(raw@)) == Some(k.sec1@),
            final(self).error is None <==> r is Some,
    {
        let value = trim_text(raw);
        let decoded = decode_pem(value.as_str());
        self.text = value;
        match decoded {
            Ok(key) => {
                self.error = None;
                Some(TrustedKey { sec1: key })
            },
            Err(message) => {
                self.error = Some(message);
                None
            },
        }
    }

    /// Puts one of the known keys in the field, as a preset button does.
    pub fn preset(&mut self, pem: &str) -> (r: Option<TrustedKey>)
        ensures
            final(self).text@ == pem@,
            r is Some <==> pem_key_of(pem@) is Some,
            r matches Some(k) ==> pem_key_of(pem@) == Some(k.sec1@),
            final(self).error is None <==> r is Some,
    {
        let decoded = decode_pem(pem);
        self.text = pem.to_string();
        match decoded {
            Ok(key) => {
                self.error = None;
                Some(TrustedKey { sec1: key })
            },
            Err(message) => {
                self.error = Some(message);
                None
            },
        }
    }
}

/// The key trusted when none was entered, decoded from [`DEFAULT_PEM`].
pub fn default_key() -> (r: Option<TrustedKey>)
    ensures
        r is Some <==> pem_key_of(DEFAULT_PEM@) is Some,
        r matches Some(k) ==> pem_key_of(DEFAULT_PEM@) == Some(k.sec1@),
{
    match decode_pem(DEFAULT_PEM) {
        Ok(k) => Some(TrustedKey { sec1: k }),
        Err(_) => None,
    }
}

} // verus!
