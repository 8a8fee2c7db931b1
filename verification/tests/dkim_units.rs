use base64::Engine as _;
use chain_dkim::dkim::crypto::RsaPublicKeyParts;
use chain_dkim::dkim::email_verifier;
use chain_dkim::dkim::errors::{DkimError as VerifierError, ToDkimError};
use chain_dkim::dkim::key_fetch::{dkim_key_from_txt, dkim_key_query_name, parse_dkim_header_params, parse_tag_value_pairs, TagMap};
use chain_dkim::dkim::key_fetch_error::{DkimError as KeyFetchError, ToDkimKeyFetchErr};
use chain_dkim::dkim::utils::{canonicalize_body, canonicalize_header_value, canonicalize_headers, collapse_whitespace, extract_body};
use chain_dkim::dkim::verify_dkim::{
    build_signed_headers_string, canonicalize_body_relaxed, canonicalize_body_simple, canonicalize_header_relaxed,
    compute_body_hash_b64, try_build_signed_headers_string, try_verify_dkim_signature_rsa, verify_dkim_signature_rsa,
    DkimAlgorithm, DkimError, DkimSignatureFields,
};
use rand::rngs::OsRng;
use rsa::pkcs1::EncodeRsaPublicKey;
use rsa::pkcs8::EncodePublicKey;
use rsa::traits::PublicKeyParts;
use rsa::{Pkcs1v15Sign, RsaPrivateKey, RsaPublicKey};
use sha2::{Digest, Sha256};

fn b64(bytes: &[u8]) -> String {
    base64::engine::general_purpose::STANDARD.encode(bytes)
}

#[test]
fn collapse_whitespace_makes_single_spaces() {
    assert_eq!(collapse_whitespace("a \t\n b  c"), "a b c");
    assert_eq!(collapse_whitespace("  x  "), " x ");
    assert_eq!(collapse_whitespace("a\u{3000}\u{a0}b"), "a b");
    assert_eq!(collapse_whitespace(""), "");
    let once = collapse_whitespace(" a\t\t b \r\n c ");
    assert_eq!(once, " a b c ");
    assert_eq!(collapse_whitespace(&once), once);
}

#[test]
fn header_value_relaxed_trims_and_collapses() {
    assert_eq!(canonicalize_header_value("  a   b \t c  "), "a b c");
}

#[test]
fn body_relaxed_and_other_types() {
    assert_eq!(canonicalize_body("x \t\r\ny\tz\r\n\r\n\r\n", "relaxed"), "x\r\ny z");
    assert_eq!(canonicalize_body("x \t\r\ny\r\n", "simple"), "x \t\r\ny\r\n");
    assert_eq!(canonicalize_body("", "relaxed"), "");
    assert_eq!(canonicalize_body("a\r", "relaxed"), "a");
    let once = canonicalize_body("x \t\r\n\ty\tz \n\r\n", "relaxed");
    assert_eq!(once, "x\r\n y z");
    assert_eq!(canonicalize_body(&once, "relaxed"), once);
    assert!(!once.contains('\t'));
    assert!(once.split("\r\n").all(|l| !l.ends_with(char::is_whitespace)));
}

#[test]
fn dkim_body_simple_and_relaxed() {
    assert_eq!(canonicalize_body_simple("a\r\nb\r\n\r\n"), "a\r\nb\r\n");
    assert_eq!(canonicalize_body_simple(""), "");
    assert_eq!(canonicalize_body_simple("a\rb\nc"), "a\r\nb\r\nc\r\n");
    assert_eq!(canonicalize_body_relaxed("a  \t b \r\n\r\n"), "a b\r\n");
    assert_eq!(canonicalize_body_relaxed("\r\n\r\n"), "");
    let once = canonicalize_body_relaxed("  a \t\tb\rc  \n\n d\t\r\n\r\n");
    assert_eq!(once, " a b\r\nc\r\n\r\n d\r\n");
    assert_eq!(canonicalize_body_relaxed(&once), once);
    assert!(once.ends_with("\r\n") && !once.ends_with("\r\n\r\n"));
    assert!(!once.contains('\t') && !once.contains("  ") && !once.contains(" \r\n"));
}

#[test]
fn dkim_header_relaxed_exact() {
    assert_eq!(canonicalize_header_relaxed("SUBJECT", " hi \r\n\t there  "), "subject: hi there");
}

#[test]
fn body_hash_of_empty_simple_body() {
    // SHA-256 of the empty string, in Base64.
    assert_eq!(compute_body_hash_b64("", "simple"), "47DEQpj8HBSa+/TImW+5JCeuQeRkm5NMpJWZG3hSuFU=");
    assert_eq!(compute_body_hash_b64("", "unknown"), "47DEQpj8HBSa+/TImW+5JCeuQeRkm5NMpJWZG3hSuFU=");
    // The simple canonical form of "abc" is "abc\r\n".
    assert_eq!(compute_body_hash_b64("abc", "simple"), b64(&Sha256::digest(b"abc\r\n")));
    assert_eq!(compute_body_hash_b64("a  b", "relaxed"), b64(&Sha256::digest(b"a b\r\n")));
}

#[test]
fn signed_headers_cut_signature_and_skip_missing() {
    let headers = vec![
        ("From".to_string(), "x@example.com".to_string()),
        ("DKIM-Signature".to_string(), "v=1; B=abc".to_string()),
        ("From".to_string(), "last@example.com".to_string()),
    ];
    let s = build_signed_headers_string(&headers, 1, "from : dkim-signature : missing", "simple");
    assert_eq!(s, "From: last@example.com\r\nDKIM-Signature: v=1; B=\r\n");
    let r = build_signed_headers_string(&headers, 1, "from:DKIM-Signature", "relaxed");
    assert_eq!(r, "from: last@example.comdkim-signature: v=1; B=");
    assert_eq!(try_build_signed_headers_string(&headers, 1, "from", "simple"), Some("From: last@example.com\r\n".to_string()));
}

#[test]
fn tag_value_pairs_are_trimmed_lowercased_last_wins() {
    let m: TagMap = parse_tag_value_pairs(" A = 1 ;\r\n b=two  words; junk; a=3 ");
    assert_eq!(m.get("a"), Some(&"3".to_string()));
    assert_eq!(m.get("b"), Some(&"two words".to_string()));
    assert_eq!(m.get("junk"), None);
    let p = parse_dkim_header_params("v=1; a=rsa-sha256; d=example.com; s=brisbane;");
    assert_eq!(p.get("d"), Some(&"example.com".to_string()));
    assert_eq!(p.get("s"), Some(&"brisbane".to_string()));
    assert_eq!(p.get("v"), Some(&"1".to_string()));
}

#[test]
fn key_query_name_and_errors() {
    let raw = "From: a@example.com\r\nDKIM-Signature: v=1; d=example.com; s=sel; b=x\r\n\r\nbody";
    assert_eq!(dkim_key_query_name(raw).unwrap(), "sel._domainkey.example.com");

    let none = "From: a@example.com\r\n\r\nbody";
    match dkim_key_query_name(none) {
        Err(VerifierError::DkimKeyFetch(m)) => assert_eq!(m, "No DKIM-Signature header found in message."),
        _ => panic!("expected a key fetch error"),
    }
    let no_d = "DKIM-Signature: v=1; s=sel\r\n\r\nbody";
    match dkim_key_query_name(no_d) {
        Err(VerifierError::DkimKeyFetch(m)) => assert_eq!(m, "DKIM header missing 'd=' domain parameter."),
        _ => panic!("expected a key fetch error"),
    }
    let no_s = "DKIM-Signature: v=1; d=example.com\r\n\r\nbody";
    match dkim_key_query_name(no_s) {
        Err(VerifierError::DkimKeyFetch(m)) => assert_eq!(m, "DKIM header missing 's=' selector parameter."),
        _ => panic!("expected a key fetch error"),
    }
}

#[test]
fn key_from_txt_records() {
    let records = vec![
        vec![b"v=DKIM1; k=rsa".to_vec()],
        vec![b"v=DKIM1; k=rsa; p=MIGf".to_vec(), b"MA0G".to_vec()],
        vec![b"p=second".to_vec()],
    ];
    assert_eq!(dkim_key_from_txt(&records, "sel._domainkey.example.com").unwrap(), "MIGfMA0G");

    let lossy = vec![vec![vec![b'p', b'=', 0xff, b'x']]];
    assert_eq!(dkim_key_from_txt(&lossy, "n").unwrap(), "\u{fffd}x");

    match dkim_key_from_txt(&vec![vec![b"v=DKIM1".to_vec()]], "sel._domainkey.example.com") {
        Err(VerifierError::DkimKeyFetch(m)) => {
            assert_eq!(m, "No 'p=' public key found in TXT records for sel._domainkey.example.com.")
        }
        _ => panic!("expected a key fetch error"),
    }
}

#[test]
fn utils_headers_and_body() {
    let raw = "Subject:  hi   there \r\nFrom: A <a@example.com>\r\n\r\nHello";
    assert_eq!(canonicalize_headers(raw, &["Subject", "FROM"], "relaxed").unwrap(), "subject:hi there\r\nfrom:A <a@example.com>\r\n");
    assert_eq!(canonicalize_headers(raw, &["To"], "relaxed"), Err("Missing header: To".to_string()));
    assert_eq!(extract_body(raw).unwrap(), "Hello");
}

#[test]
fn error_conversions_and_messages() {
    let r: Result<u8, String> = Err("boom".to_string());
    match ToDkimError::to_dkim_key_fetch_err(r.clone()) {
        Err(VerifierError::DkimKeyFetch(m)) => assert_eq!(m, "boom"),
        _ => panic!(),
    }
    match r.clone().to_dkim_verifier_err() {
        Err(VerifierError::DkimVerifier(m)) => assert_eq!(m, "boom"),
        _ => panic!(),
    }
    let ok: Result<u8, String> = Ok(7);
    assert_eq!(ok.clone().to_dkim_verifier_err().unwrap(), 7);
    let fetched: Result<u8, KeyFetchError> = ToDkimKeyFetchErr::to_dkim_key_fetch_err(r);
    match fetched {
        Err(e) => assert_eq!(e.message(), "encountered dkim_key_fetch error: boom"),
        _ => panic!(),
    }
    assert_eq!(VerifierError::DkimVerifier("x".to_string()).message(), "x");
    assert_eq!(DkimError::BodyHashMismatch.message(), "body hash mismatch");
    assert_eq!(DkimError::PublicKeyParse("p".to_string()).message(), "public key parse error: p");
    assert_eq!(DkimAlgorithm::RsaSha256, DkimAlgorithm::RsaSha256);
}

#[test]
fn fields_get_b() {
    let f = DkimSignatureFields { v: None, a: None, c: None, d: None, s: None, h: None, bh: None, b: Some("sig".to_string()) };
    assert_eq!(f.get_b(), Some("sig".to_string()));
}

fn small_key() -> RsaPrivateKey {
    RsaPrivateKey::new(&mut OsRng, 1024).expect("key")
}

/// A message signed the way `verify_dkim_signature_rsa` checks it.
fn signed_message(key: &RsaPrivateKey, body: &str) -> String {
    let bh = compute_body_hash_b64(body, "simple");
    let value = format!("v=1; a=rsa-sha256; c=relaxed/simple; d=example.com; s=sel; h=From:Subject; bh={}; b=", bh);
    let headers = vec![
        ("From".to_string(), "a@example.com".to_string()),
        ("Subject".to_string(), "t".to_string()),
        ("DKIM-Signature".to_string(), value.clone()),
    ];
    let signed = build_signed_headers_string(&headers, 2, "From:Subject", "relaxed");
    let sig = key.sign(Pkcs1v15Sign::new::<Sha256>(), &Sha256::digest(signed.as_bytes())).unwrap();
    format!("DKIM-Signature: {}{}\r\nFrom: a@example.com\r\nSubject: t\r\n\r\n{}", value, b64(&sig), body)
}

#[test]
fn rsa_verification_errors_and_key_forms() {
    let key = small_key();
    let pub_key = RsaPublicKey::from(&key);
    let pkcs1 = pub_key.to_pkcs1_pem(Default::default()).unwrap();
    let spki = pub_key.to_public_key_pem(Default::default()).unwrap();
    let raw = signed_message(&key, "Hi\r\n");

    assert!(verify_dkim_signature_rsa(&raw, &pkcs1).is_ok());
    assert!(verify_dkim_signature_rsa(&raw, &spki).is_ok());
    assert!(matches!(try_verify_dkim_signature_rsa(&raw, &pkcs1), Some(Ok(()))));
    assert!(matches!(verify_dkim_signature_rsa(&raw, "not a key"), Err(DkimError::PublicKeyParse(_))));

    let no_sig = "From: a@example.com\r\n\r\nHi\r\n";
    assert!(matches!(verify_dkim_signature_rsa(no_sig, &pkcs1), Err(DkimError::NoDkimSignature)));

    let no_bh = "DKIM-Signature: v=1; b=abc; h=From\r\nFrom: a@example.com\r\n\r\nHi\r\n";
    assert!(matches!(verify_dkim_signature_rsa(no_bh, &pkcs1), Err(DkimError::BadSignatureField)));

    let bad_b = format!(
        "DKIM-Signature: v=1; h=From; bh={}; b=@@@\r\nFrom: a@example.com\r\n\r\nHi\r\n",
        compute_body_hash_b64("Hi\r\n", "simple")
    );
    match verify_dkim_signature_rsa(&bad_b, &pkcs1) {
        Err(DkimError::Other(m)) => assert!(m.starts_with("base64 decode sig: ")),
        other => panic!("unexpected {:?}", other),
    }

    let tampered = raw.replace("Subject: t", "Subject: u");
    assert!(matches!(verify_dkim_signature_rsa(&tampered, &pkcs1), Err(DkimError::SignatureVerifyFailed)));
}

/// A message and parameters signed the way `email_verifier::verify_email`
/// checks them (simple/simple, digest signed without DigestInfo prefix).
#[test]
fn verifier_accepts_and_refuses() {
    let key = small_key();
    let pub_key = RsaPublicKey::from(&key);
    let pem = pub_key.to_pkcs1_pem(Default::default()).unwrap();
    let raw = "From: a@example.com\r\nSubject: hello\r\n\r\nBody text\r\n";

    let bh = b64(&Sha256::digest(b"Body text\r\n"));
    let block = canonicalize_headers(raw, &["From", "Subject"], "simple").unwrap();
    let sig = key.sign(Pkcs1v15Sign::new_unprefixed(), &Sha256::digest(block.as_bytes())).unwrap();

    let params = parse_tag_value_pairs(&format!("bh={}; b={}; h=From:Subject", bh, b64(&sig)));
    assert!(matches!(email_verifier::verify_email(raw, &pem, &params), Ok(true)));

    let wrong = parse_tag_value_pairs(&format!("bh=AAAA; b={}; h=From:Subject", b64(&sig)));
    match email_verifier::verify_email(raw, &pem, &wrong) {
        Err(VerifierError::DkimVerifier(m)) => assert_eq!(m, format!("Body hash mismatch, expected: AAAA, found {}", bh)),
        _ => panic!("expected a body hash mismatch"),
    }

    let missing = parse_tag_value_pairs(&format!("bh={}; b={}; h=From:To", bh, b64(&sig)));
    match email_verifier::verify_email(raw, &pem, &missing) {
        Err(VerifierError::DkimVerifier(m)) => assert_eq!(m, "Missing header : To"),
        _ => panic!("expected a missing header"),
    }

    let no_h = parse_tag_value_pairs(&format!("bh={}; b={}", bh, b64(&sig)));
    match email_verifier::verify_email(raw, &pem, &no_h) {
        Err(VerifierError::DkimVerifier(m)) => assert_eq!(m, "Missing header field 'h'"),
        _ => panic!("expected a missing field"),
    }

    let no_b = parse_tag_value_pairs(&format!("bh={}", bh));
    match email_verifier::verify_email(raw, &pem, &no_b) {
        Err(VerifierError::DkimVerifier(m)) => assert_eq!(m, "Missing header field 'b'"),
        _ => panic!("expected a missing field"),
    }

    let other = RsaPublicKey::from(&small_key()).to_pkcs1_pem(Default::default()).unwrap();
    assert!(matches!(email_verifier::verify_email(raw, &other, &params), Err(VerifierError::DkimVerifier(_))));

    let spki_der = b64(pub_key.to_public_key_der().unwrap().as_bytes());
    assert!(matches!(email_verifier::verify_email(raw, &spki_der, &params), Ok(true)));
    let pkcs1_der = b64(pub_key.to_pkcs1_der().unwrap().as_bytes());
    assert!(matches!(email_verifier::verify_email(raw, &pkcs1_der, &params), Ok(true)));
    assert!(matches!(email_verifier::verify_email(raw, "AAAA", &params), Err(VerifierError::DkimVerifier(_))));

    let parts = RsaPublicKeyParts { n: pub_key.n().to_bytes_be(), e: pub_key.e().to_bytes_be() };
    assert_eq!(parts.e, vec![1, 0, 1]);
}
