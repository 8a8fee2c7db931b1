//! Verification of a raw message against DKIM parameters already read from
//! its DKIM-Signature header, with an RSA public key in PEM or DER form.

use vstd::prelude::*;
use vstd::string::StringExecFns;
use vstd::utf8::encode_utf8;
use crate::dkim::text::{chars_of, split, split_chars, str_eq, string_from, string_views, trim, trim_chars, views};
use crate::dkim::utils::{header_block, header_block_of, relaxed_body, relaxed_body_chars};
use crate::dkim::mail::{mail_body, mail_headers, parse_body, parse_headers};
use crate::dkim::crypto::{base64_decode, base64_decode_str, base64_encode, base64_encode_bytes, pkcs1_der_public_key, pkcs1_pem_public_key, pkcs1v15_unprefixed_sha256_verify, public_key_from_pkcs1_der, public_key_from_pkcs1_pem, public_key_from_spki_der, sha256, sha256_digest, spki_der_public_key, verify_unprefixed_sha256, RsaPublicKeyParts};
use crate::dkim::errors::{DkimError, ToDkimError};
use crate::dkim::key_fetch::{TagMap, tag_view};

verus! {

/// The body canonicalized under `canon_type`: relaxed for "relaxed/relaxed",
/// unchanged otherwise.
pub open spec fn verifier_body(body: Seq<char>, canon_type: Seq<char>) -> Seq<char> {
    if canon_type == "relaxed/relaxed"@ {
        relaxed_body(body)
    } else {
        body
    }
}

/// The names of a colon-separated header list, each trimmed.
pub open spec fn header_names(list: Seq<char>) -> Seq<Seq<char>> {
    split(list, ':').map_values(|n: Seq<char>| trim(n))
}

/// The RSA public key that `key` holds: as PKCS#1 PEM; else, when `key` is
/// Base64 text, as the DER bytes it encodes (SubjectPublicKeyInfo, then
/// PKCS#1); else the PEM parser's error.
pub open spec fn verifier_key(key: Seq<char>) -> Result<(Seq<u8>, Seq<u8>), Seq<char>> {
    match pkcs1_pem_public_key(key) {
        Ok(k) => Ok(k),
        Err(m) => match base64_decode(key) {
            Ok(der) => match spki_der_public_key(der) {
                Some(k) => Ok(k),
                None => match pkcs1_der_public_key(der) {
                    Some(k) => Ok(k),
                    None => Err(m),
                },
            },
            Err(_) => Err(m),
        },
    }
}

/// The RSA public key in `key`, given in PEM or DER (Base64) form.
fn verifier_public_key(key: &str) -> (r: Result<RsaPublicKeyParts, String>)
    ensures
        match verifier_key(key@) {
            Ok(k) => r matches Ok(p) && p.n@ == k.0 && p.e@ == k.1,
            Err(m) => r matches Err(t) && t@ == m,
        },
{
    match public_key_from_pkcs1_pem(key) {
        Ok(k) => Ok(k),
        Err(m) => match base64_decode_str(key) {
            Ok(der) => match public_key_from_spki_der(der.as_slice()) {
                Some(k) => Ok(k),
                None => match public_key_from_pkcs1_der(der.as_slice()) {
                    Some(k) => Ok(k),
                    None => Err(m),
                },
            },
            Err(_) => Err(m),
        },
    }
}

/// The outcome of verifying raw message `raw` with key `pem` and DKIM
/// parameters `params`: `Ok` when the body hash and the signature check out,
/// otherwise the error message.
pub open spec fn verification_outcome(
    raw: Seq<char>,
    pem: Seq<char>,
    params: Map<Seq<char>, Seq<char>>,
) -> Result<(), Seq<char>> {
    if !params.contains_key("bh"@) {
        Err("Missing header field 'bh'"@)
    } else if !params.contains_key("b"@) {
        Err("Missing header field 'b'"@)
    } else {
        let ct = if params.contains_key("c"@) {
            params["c"@]
        } else {
            "simple/simple"@
        };
        match mail_body(raw) {
            Err(e) => Err(e.0),
            Ok(body) => {
                let computed = base64_encode(sha256(encode_utf8(verifier_body(body, ct))));
                if computed != params["bh"@] {
                    Err("Body hash mismatch, expected: "@ + params["bh"@] + ", found "@ + computed)
                } else if !params.contains_key("h"@) {
                    Err("Missing header field 'h'"@)
                } else {
                    match mail_headers(raw) {
                        Err(e) => Err(e.0),
                        Ok(hs) => match header_block(
                            hs,
                            header_names(params["h"@]),
                            ct == "relaxed/relaxed"@,
                            "Missing header : "@,
                        ) {
                            Err(m) => Err(m),
                            Ok(block) => match base64_decode(params["b"@]) {
                                Err(m) => Err(m),
                                Ok(sig) => match verifier_key(pem) {
                                    Err(m) => Err(m),
                                    Ok(key) => match pkcs1v15_unprefixed_sha256_verify(
                                        key.0,
                                        key.1,
                                        encode_utf8(block),
                                        sig,
                                    ) {
                                        Err(m) => Err(m),
                                        Ok(()) => Ok(()),
                                    },
                                },
                            },
                        },
                    }
                }
            },
        }
    }
}

/// The body canonicalized under `canon_type` ("relaxed/relaxed" or as it is).
fn canonicalize_body(body: &str, canon_type: &str) -> (r: Result<String, DkimError>)
    ensures
        r matches Ok(s) && s@ == verifier_body(body@, canon_type@),
{
    if str_eq(canon_type, "relaxed/relaxed") {
        let v = chars_of(body);
        let c = relaxed_body_chars(&v);
        Ok(string_from(&c))
    } else {
        Ok(body.to_owned())
    }
}

/// The trimmed names of a colon-separated header list.
fn header_names_of(list: &str) -> (r: Vec<String>)
    ensures
        string_views(r@) == header_names(list@),
{
    let v = chars_of(list);
    let parts = split_chars(&v, ':');
    let mut r: Vec<String> = Vec::new();
    let mut i: usize = 0;
    while i < parts.len()
        invariant
            i <= parts.len(),
            views(parts@) == split(list@, ':'),
            string_views(r@) == views(parts@).take(i as int).map_values(|n: Seq<char>| trim(n)),
        decreases parts.len() - i,
    {
        let t = trim_chars(&parts[i]);
        let s = string_from(&t);
        let ghost old_r = string_views(r@);
        r.push(s);
        assert(string_views(r@) =~= old_r.push(trim(parts@[i as int]@)));
        assert(views(parts@).take(i + 1) =~= views(parts@).take(i as int).push(parts@[i as int]@));
        assert(string_views(r@) =~= views(parts@).take(i + 1).map_values(|n: Seq<char>| trim(n)));
        i = i + 1;
    }
    assert(views(parts@).take(parts.len() as int) =~= views(parts@));
    r
}

/// Canonicalizes the header fields named in the colon-separated `header_list`.
fn canonicalize_headers(raw_email: &str, header_list: &str, canon_type: &str) -> (r: Result<String, DkimError>)
    ensures
        match mail_headers(raw_email@) {
            Err(e) => r matches Err(DkimError::DkimVerifier(t)) && t@ == e.0,
            Ok(hs) => match header_block(
                hs,
                header_names(header_list@),
                canon_type@ == "relaxed/relaxed"@,
                "Missing header : "@,
            ) {
                Ok(s) => r matches Ok(t) && t@ == s,
                Err(e) => r matches Err(DkimError::DkimVerifier(t)) && t@ == e,
            },
        },
{
    let headers = match parse_headers(raw_email) {
        Ok(h) => h,
        Err(e) => {
            return Err(DkimError::DkimVerifier(e.0));
        },
    };
    let names = header_names_of(header_list);
    let relaxed = str_eq(canon_type, "relaxed/relaxed");
    match header_block_of(&headers, &names, relaxed, "Missing header : ") {
        Ok(s) => Ok(s),
        Err(e) => Err(DkimError::DkimVerifier(e)),
    }
}

/// The body of a raw message.
fn extract_body(raw_email: &str) -> (r: Result<String, DkimError>)
    ensures
        match mail_body(raw_email@) {
            Ok(b) => r matches Ok(s) && s@ == b,
            Err(e) => r matches Err(DkimError::DkimVerifier(t)) && t@ == e.0,
        },
{
    match parse_body(raw_email) {
        Ok(b) => Ok(b),
        Err(e) => Err(DkimError::DkimVerifier(e.0)),
    }
}

/// Verifies the DKIM signature of a raw message with an RSA public key in
/// PKCS#1 PEM form, or in DER form as Base64 text (SubjectPublicKeyInfo, as
/// in a DNS `p=` tag, or PKCS#1), and the parameters of its DKIM-Signature header: the body
/// hash (`bh=`) must match the canonical body, and the signature (`b=`) must
/// sign the canonical header block of the fields listed in `h=`. Canonical
/// forms follow `c=` ("relaxed/relaxed", or as they are; "simple/simple" when absent).
pub fn verify_email(raw_email: &str, public_key_pem: &str, dkim_params: &TagMap) -> (r: Result<bool, DkimError>)
    ensures
        match verification_outcome(raw_email@, public_key_pem@, tag_view(dkim_params@)) {
            Ok(()) => r == Ok::<bool, DkimError>(true),
            Err(m) => r matches Err(DkimError::DkimVerifier(t)) && t@ == m,
        },
{
    let ghost params = tag_view(dkim_params@);
    let bh_field = match dkim_params.get("bh") {
        Some(v) => v,
        None => {
            return Err(DkimError::DkimVerifier(String::from_str("Missing header field 'bh'")));
        },
    };
    let b_field = match dkim_params.get("b") {
        Some(v) => v,
        None => {
            return Err(DkimError::DkimVerifier(String::from_str("Missing header field 'b'")));
        },
    };
    let canon_type: String = match dkim_params.get("c") {
        Some(v) => v.clone(),
        None => String::from_str("simple/simple"),
    };

    let body = extract_body(raw_email)?;
    let canon_body = canonicalize_body(body.as_str(), canon_type.as_str())?;

    let digest_bytes = sha256_digest(canon_body.as_str().as_bytes());
    let computed_bh = base64_encode_bytes(digest_bytes.as_slice());
    if computed_bh != *bh_field {
        let mut msg = String::from_str("Body hash mismatch, expected: ");
        msg.append(bh_field.as_str());
        msg.append(", found ");
        msg.append(computed_bh.as_str());
        return Err(DkimError::DkimVerifier(msg));
    }

    let h_list = match dkim_params.get("h") {
        Some(v) => v,
        None => {
            return Err(DkimError::DkimVerifier(String::from_str("Missing header field 'h'")));
        },
    };
    let headers_canon = canonicalize_headers(raw_email, h_list.as_str(), canon_type.as_str())?;

    let sig_bytes_vec = base64_decode_str(b_field.as_str()).to_dkim_verifier_err()?;
    let pub_key = verifier_public_key(public_key_pem).to_dkim_verifier_err()?;
    verify_unprefixed_sha256(&pub_key, headers_canon.as_str().as_bytes(), sig_bytes_vec.as_slice()).to_dkim_verifier_err()?;

    Ok(true)
}

} // verus!

verus! {

/// The body check: the body is canonicalized under the parameters' `c=`
/// ("simple/simple" when absent), relaxed exactly for "relaxed/relaxed", and
/// its hash, Base64 of SHA-256 of its UTF-8, is compared with `bh=`. A
/// different hash is refused with the mismatch message; an equal hash passes
/// the check, and with the header block, signature and key in order the
/// message verifies.
pub proof fn lemma_body_hash_check(
    raw: Seq<char>,
    pem: Seq<char>,
    params: Map<Seq<char>, Seq<char>>,
    body: Seq<char>,
)
    requires
        params.contains_key("bh"@),
        params.contains_key("b"@),
        mail_body(raw) == Ok::<Seq<char>, (Seq<char>, Seq<char>)>(body),
    ensures
        ({
            let ct = if params.contains_key("c"@) { params["c"@] } else { "simple/simple"@ };
            let canon = if ct == "relaxed/relaxed"@ { crate::dkim::utils::relaxed_body(body) } else { body };
            let computed = base64_encode(sha256(encode_utf8(canon)));
            &&& computed != params["bh"@] ==> verification_outcome(raw, pem, params) == Err::<(), Seq<char>>(
                "Body hash mismatch, expected: "@ + params["bh"@] + ", found "@ + computed,
            )
            &&& (computed == params["bh"@] && params.contains_key("h"@) && mail_headers(raw) is Ok && header_block(
                mail_headers(raw)->Ok_0,
                header_names(params["h"@]),
                ct == "relaxed/relaxed"@,
                "Missing header : "@,
            ) is Ok && base64_decode(params["b"@]) is Ok && verifier_key(pem) is Ok && pkcs1v15_unprefixed_sha256_verify(
                verifier_key(pem)->Ok_0.0,
                verifier_key(pem)->Ok_0.1,
                encode_utf8(
                    header_block(
                        mail_headers(raw)->Ok_0,
                        header_names(params["h"@]),
                        ct == "relaxed/relaxed"@,
                        "Missing header : "@,
                    )->Ok_0,
                ),
                base64_decode(params["b"@])->Ok_0,
            ) is Ok) ==> verification_outcome(raw, pem, params) == Ok::<(), Seq<char>>(())
        }),
{
}

} // verus!
