//! SHA-256, Base64 and RSA PKCS#1 v1.5, as the `sha2`, `base64` and `rsa`
//! crates compute them. What each call returns is named by a specification
//! function of its arguments; the algorithms themselves are not restated here.

use vstd::prelude::*;
use base64::Engine as _;
use rsa::signature::{DigestVerifier, SignatureEncoding, Signer};
use rsa::pkcs1::DecodeRsaPublicKey;
use rsa::pkcs8::DecodePublicKey;
use rsa::traits::PublicKeyParts;
use sha2::Digest as _;

verus! {

/// An RSA public key by its parts: modulus `n` and public exponent `e`, as
/// big-endian bytes.
pub struct RsaPublicKeyParts {
    pub n: Vec<u8>,
    pub e: Vec<u8>,
}

/// An RSA private key by its parts, as big-endian bytes: modulus `n`, public
/// exponent `e`, private exponent `d` and the primes.
pub struct RsaPrivateKeyParts {
    pub n: Vec<u8>,
    pub e: Vec<u8>,
    pub d: Vec<u8>,
    pub primes: Vec<Vec<u8>>,
}

/// The views of the primes of a private key.
pub open spec fn prime_views(p: Seq<Vec<u8>>) -> Seq<Seq<u8>> {
    p.map_values(|x: Vec<u8>| x@)
}

/// The SHA-256 digest of `data`.
pub uninterp spec fn sha256(data: Seq<u8>) -> Seq<u8>;

/// The character for the 6-bit value `v` in the standard Base64 alphabet.
pub open spec fn base64_digit(v: int) -> char {
    if v < 26 {
        (65 + v) as char
    } else if v < 52 {
        (97 + v - 26) as char
    } else if v < 62 {
        (48 + v - 52) as char
    } else if v == 62 {
        '+'
    } else {
        '/'
    }
}

/// The standard Base64 encoding (RFC 4648, with '=' padding) of `data`: each
/// group of three bytes gives four characters; a last group of one or two
/// bytes is padded.
pub open spec fn base64_encode(data: Seq<u8>) -> Seq<char>
    decreases data.len(),
{
    if data.len() == 0 {
        Seq::<char>::empty()
    } else if data.len() == 1 {
        let b0 = data[0] as int;
        seq![base64_digit(b0 / 4), base64_digit((b0 % 4) * 16), '=', '=']
    } else if data.len() == 2 {
        let b0 = data[0] as int;
        let b1 = data[1] as int;
        seq![base64_digit(b0 / 4), base64_digit((b0 % 4) * 16 + b1 / 16), base64_digit((b1 % 16) * 4), '=']
    } else {
        let b0 = data[0] as int;
        let b1 = data[1] as int;
        let b2 = data[2] as int;
        seq![
            base64_digit(b0 / 4),
            base64_digit((b0 % 4) * 16 + b1 / 16),
            base64_digit((b1 % 16) * 4 + b2 / 64),
            base64_digit(b2 % 64),
        ] + base64_encode(data.skip(3))
    }
}

/// The bytes that standard Base64 text `s` encodes, or the decoder's
/// description of why `s` is not valid Base64.
pub uninterp spec fn base64_decode(s: Seq<char>) -> Result<Seq<u8>, Seq<char>>;

/// The RSA public key that PKCS#1 PEM text `pem` holds, as (n, e), or the
/// description of the parse error.
pub uninterp spec fn pkcs1_pem_public_key(pem: Seq<char>) -> Result<(Seq<u8>, Seq<u8>), Seq<char>>;

/// The RSA public key that SubjectPublicKeyInfo DER bytes `der` hold, as
/// (n, e), if they hold one.
pub uninterp spec fn spki_der_public_key(der: Seq<u8>) -> Option<(Seq<u8>, Seq<u8>)>;

/// The RSA public key that PKCS#1 DER bytes `der` hold, as (n, e), if they
/// hold one.
pub uninterp spec fn pkcs1_der_public_key(der: Seq<u8>) -> Option<(Seq<u8>, Seq<u8>)>;

/// The RSA public key that SubjectPublicKeyInfo PEM text `pem` holds, as
/// (n, e), or the debug rendering of the parse error.
pub uninterp spec fn spki_pem_public_key(pem: Seq<char>) -> Result<(Seq<u8>, Seq<u8>), Seq<char>>;

/// Whether `sig` is a valid RSASSA-PKCS1-v1_5 signature, under key (n, e), of
/// the SHA-256 digest `hashed` with the SHA-256 DigestInfo prefix.
pub uninterp spec fn pkcs1v15_sha256_verifies(n: Seq<u8>, e: Seq<u8>, hashed: Seq<u8>, sig: Seq<u8>) -> bool;

/// Whether `sig` is a valid RSASSA-PKCS1-v1_5 signature, under key (n, e), of
/// the SHA-256 digest of `msg` with no DigestInfo prefix: `Ok` if it is, else
/// the verifier's error rendered with `Display`.
pub uninterp spec fn pkcs1v15_unprefixed_sha256_verify(n: Seq<u8>, e: Seq<u8>, msg: Seq<u8>, sig: Seq<u8>) -> Result<(), Seq<char>>;

/// The RSASSA-PKCS1-v1_5 signature, with the SHA-256 DigestInfo prefix, of the
/// SHA-256 digest of `msg` under the private key given by its parts, or the
/// description of why the key is refused or the signature cannot be made.
pub uninterp spec fn pkcs1v15_sha256_signature(
    n: Seq<u8>,
    e: Seq<u8>,
    d: Seq<u8>,
    primes: Seq<Seq<u8>>,
    msg: Seq<u8>,
) -> Result<Seq<u8>, Seq<char>>;

/// `sha2::Sha256::digest`: the SHA-256 digest of `data`, 32 bytes long.
#[verifier::external_body]
pub(crate) fn sha256_digest(data: &[u8]) -> (r: Vec<u8>)
    ensures
        r@ == sha256(data@),
        r@.len() == 32,
{
    sha2::Sha256::digest(data).to_vec()
}

/// Every digit is a character of the alphabet.
pub proof fn lemma_base64_digit(v: int)
    requires
        0 <= v < 64,
    ensures
        is_base64_char(base64_digit(v)),
{
}

/// Base64 text is made of the alphabet and the padding '='.
pub proof fn lemma_base64_alphabet(data: Seq<u8>)
    ensures
        forall|i: int| 0 <= i < base64_encode(data).len() ==> is_base64_char(#[trigger] base64_encode(data)[i]),
    decreases data.len(),
{
    if data.len() == 0 {
    } else if data.len() == 1 {
        let b0 = data[0] as int;
        lemma_base64_digit(b0 / 4);
        lemma_base64_digit((b0 % 4) * 16);
    } else if data.len() == 2 {
        let b0 = data[0] as int;
        let b1 = data[1] as int;
        lemma_base64_digit(b0 / 4);
        lemma_base64_digit((b0 % 4) * 16 + b1 / 16);
        lemma_base64_digit((b1 % 16) * 4);
    } else {
        let b0 = data[0] as int;
        let b1 = data[1] as int;
        let b2 = data[2] as int;
        lemma_base64_digit(b0 / 4);
        lemma_base64_digit((b0 % 4) * 16 + b1 / 16);
        lemma_base64_digit((b1 % 16) * 4 + b2 / 64);
        lemma_base64_digit(b2 % 64);
        lemma_base64_alphabet(data.skip(3));
        let head = seq![
            base64_digit(b0 / 4),
            base64_digit((b0 % 4) * 16 + b1 / 16),
            base64_digit((b1 % 16) * 4 + b2 / 64),
            base64_digit(b2 % 64),
        ];
        let tail = base64_encode(data.skip(3));
        assert forall|i: int| 0 <= i < (head + tail).len() implies is_base64_char(#[trigger] (head + tail)[i]) by {
            if i >= 4 {
                assert((head + tail)[i] == tail[i - 4]);
            }
        }
    }
}

/// A character of the standard Base64 alphabet, or the padding '='.
pub open spec fn is_base64_char(c: char) -> bool {
    ||| 'A' <= c <= 'Z'
    ||| 'a' <= c <= 'z'
    ||| '0' <= c <= '9'
    ||| c == '+'
    ||| c == '/'
    ||| c == '='
}

/// `base64::engine::general_purpose::STANDARD.encode`: the standard Base64
/// encoding of `data`, with padding.
#[verifier::external_body]
pub(crate) fn base64_encode_bytes(data: &[u8]) -> (r: String)
    ensures
        r@ == base64_encode(data@),
{
    base64::engine::general_purpose::STANDARD.encode(data)
}

/// `base64::engine::general_purpose::STANDARD.decode`: the bytes that `s`
/// encodes, or the decoder's error rendered with `Display`. The engine
/// requires canonical padding and no trailing bits, so it decodes exactly the
/// texts it encodes: `s` decodes to `x` if and only if `s` is the encoding of
/// `x`.
#[verifier::external_body]
pub(crate) fn base64_decode_str(s: &str) -> (r: Result<Vec<u8>, String>)
    ensures
        match base64_decode(s@) {
            Ok(b) => r matches Ok(v) && v@ == b,
            Err(m) => r matches Err(t) && t@ == m,
        },
        forall|x: Seq<u8>| #[trigger] base64_encode(x) == s@ ==> r is Ok && r->Ok_0@ == x,
        r matches Ok(v) ==> base64_encode(v@) == s@,
{
    base64::engine::general_purpose::STANDARD.decode(s).map_err(|e| e.to_string())
}

/// `rsa::pkcs1::DecodeRsaPublicKey::from_pkcs1_pem`: the key that PKCS#1 PEM
/// text `pem` holds, by its parts, or the parse error rendered with `Display`.
#[verifier::external_body]
pub(crate) fn public_key_from_pkcs1_pem(pem: &str) -> (r: Result<RsaPublicKeyParts, String>)
    ensures
        match pkcs1_pem_public_key(pem@) {
            Ok(k) => r matches Ok(p) && p.n@ == k.0 && p.e@ == k.1,
            Err(m) => r matches Err(t) && t@ == m,
        },
{
    match rsa::RsaPublicKey::from_pkcs1_pem(pem) {
        Ok(k) => Ok(RsaPublicKeyParts { n: k.n().to_bytes_be(), e: k.e().to_bytes_be() }),
        Err(e) => Err(e.to_string()),
    }
}

/// `rsa::pkcs8::DecodePublicKey::from_public_key_pem`: the key that
/// SubjectPublicKeyInfo PEM text `pem` holds, by its parts, or the parse error
/// rendered with `Debug`.
#[verifier::external_body]
pub(crate) fn public_key_from_spki_pem(pem: &str) -> (r: Result<RsaPublicKeyParts, String>)
    ensures
        match spki_pem_public_key(pem@) {
            Ok(k) => r matches Ok(p) && p.n@ == k.0 && p.e@ == k.1,
            Err(m) => r matches Err(t) && t@ == m,
        },
{
    match rsa::RsaPublicKey::from_public_key_pem(pem) {
        Ok(k) => Ok(RsaPublicKeyParts { n: k.n().to_bytes_be(), e: k.e().to_bytes_be() }),
        Err(e) => Err(format!("{:?}", e)),
    }
}

/// `rsa::pkcs8::DecodePublicKey::from_public_key_der`: the key that
/// SubjectPublicKeyInfo DER bytes `der` hold, by its parts, if they hold one.
#[verifier::external_body]
pub(crate) fn public_key_from_spki_der(der: &[u8]) -> (r: Option<RsaPublicKeyParts>)
    ensures
        match spki_der_public_key(der@) {
            Some(k) => r matches Some(p) && p.n@ == k.0 && p.e@ == k.1,
            None => r is None,
        },
{
    match rsa::RsaPublicKey::from_public_key_der(der) {
        Ok(k) => Some(RsaPublicKeyParts { n: k.n().to_bytes_be(), e: k.e().to_bytes_be() }),
        Err(_) => None,
    }
}

/// `rsa::pkcs1::DecodeRsaPublicKey::from_pkcs1_der`: the key that PKCS#1 DER
/// bytes `der` hold, by its parts, if they hold one.
#[verifier::external_body]
pub(crate) fn public_key_from_pkcs1_der(der: &[u8]) -> (r: Option<RsaPublicKeyParts>)
    ensures
        match pkcs1_der_public_key(der@) {
            Some(k) => r matches Some(p) && p.n@ == k.0 && p.e@ == k.1,
            None => r is None,
        },
{
    match rsa::RsaPublicKey::from_pkcs1_der(der) {
        Ok(k) => Some(RsaPublicKeyParts { n: k.n().to_bytes_be(), e: k.e().to_bytes_be() }),
        Err(_) => None,
    }
}

/// `rsa::RsaPublicKey::verify` with `Pkcs1v15Sign::new::<Sha256>()`: whether
/// `sig` signs the SHA-256 digest `hashed` under the key.
#[verifier::external_body]
pub(crate) fn verify_pkcs1v15_sha256(key: &RsaPublicKeyParts, hashed: &[u8], sig: &[u8]) -> (ok: bool)
    ensures
        ok == pkcs1v15_sha256_verifies(key.n@, key.e@, hashed@, sig@),
{
    let n = rsa::BigUint::from_bytes_be(&key.n);
    let e = rsa::BigUint::from_bytes_be(&key.e);
    let k = rsa::RsaPublicKey::new_unchecked(n, e);
    k.verify(rsa::Pkcs1v15Sign::new::<sha2::Sha256>(), hashed, sig).is_ok()
}

/// `rsa::pkcs1v15::VerifyingKey::<Sha256>::new_unprefixed(..).verify_digest`
/// on a SHA-256 hasher fed with `msg`: `Ok` when `sig` (read by the infallible
/// `Signature::try_from`) signs the digest of `msg`, with no DigestInfo prefix,
/// under the key; else the error rendered with `Display`.
#[verifier::external_body]
pub(crate) fn verify_unprefixed_sha256(key: &RsaPublicKeyParts, msg: &[u8], sig: &[u8]) -> (r: Result<(), String>)
    ensures
        match pkcs1v15_unprefixed_sha256_verify(key.n@, key.e@, msg@, sig@) {
            Ok(()) => r is Ok,
            Err(m) => r matches Err(t) && t@ == m,
        },
{
    let n = rsa::BigUint::from_bytes_be(&key.n);
    let e = rsa::BigUint::from_bytes_be(&key.e);
    let k = rsa::RsaPublicKey::new_unchecked(n, e);
    let vk = rsa::pkcs1v15::VerifyingKey::<sha2::Sha256>::new_unprefixed(k);
    let s = rsa::pkcs1v15::Signature::try_from(sig).unwrap();
    vk.verify_digest(<sha2::Sha256 as sha2::Digest>::new_with_prefix(msg), &s).map_err(|e| e.to_string())
}

/// `rsa::pkcs1v15::SigningKey::<Sha256>::try_sign` on the key that
/// `RsaPrivateKey::from_components` builds (and validates) from the parts: the
/// signature of `msg`, or the error rendered with `Display`. A signature it
/// makes verifies under the public part (n, e): signing re-encrypts its result
/// with (n, e) and fails unless that gives back the padded digest. Without
/// primes, `from_components` recovers them from (n, e, d) with arithmetic that
/// can panic on bad parts, so the primes must be given.
#[verifier::external_body]
pub(crate) fn sign_pkcs1v15_sha256(key: &RsaPrivateKeyParts, msg: &[u8]) -> (r: Result<Vec<u8>, String>)
    requires
        key.primes@.len() > 0,
    ensures
        match pkcs1v15_sha256_signature(key.n@, key.e@, key.d@, prime_views(key.primes@), msg@) {
            Ok(s) => r matches Ok(v) && v@ == s,
            Err(m) => r matches Err(t) && t@ == m,
        },
        r matches Ok(v) ==> pkcs1v15_sha256_verifies(key.n@, key.e@, sha256(msg@), v@),
{
    let primes = key.primes.iter().map(|p| rsa::BigUint::from_bytes_be(p)).collect();
    let n = rsa::BigUint::from_bytes_be(&key.n);
    let k = rsa::RsaPrivateKey::from_components(n, rsa::BigUint::from_bytes_be(&key.e), rsa::BigUint::from_bytes_be(&key.d), primes);
    let sk = rsa::pkcs1v15::SigningKey::<sha2::Sha256>::new(k.map_err(|e| e.to_string())?);
    sk.try_sign(msg).map(|s| s.to_vec()).map_err(|e| e.to_string())
}

} // verus!
