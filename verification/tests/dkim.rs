use base64::Engine as _;
use chain_dkim::dkim::crypto::{RsaPrivateKeyParts, RsaPublicKeyParts};
use chain_dkim::dkim::verify_dkim::{
    build_signed_headers_string, canonicalize_body_relaxed, canonicalize_header_relaxed, compute_body_hash_b64,
    verify_dkim_signature_rsa, DkimError,
};
use chain_dkim::dkim::verify_dkim_email::{sign_email, verify_email};
use rand::rngs::OsRng;
use rsa::pkcs1::EncodeRsaPublicKey;
use rsa::traits::{PrivateKeyParts, PublicKeyParts};
use rsa::{Pkcs1v15Sign, RsaPrivateKey, RsaPublicKey};
use sha2::{Digest, Sha256};

/// Builds the DKIM-Signature value (without folding) for the given headers and
/// body, with `b=` computed with the RSA private key.
fn sign_dkim_headers_rsa(
    headers: &[(String, String)],
    body: &str,
    selector: &str,
    domain: &str,
    priv_key: &RsaPrivateKey,
    header_can: &str,
    body_can: &str,
) -> String {
    let bh = compute_body_hash_b64(body, body_can);
    let h_list = headers.iter().map(|(n, _v)| n.as_str()).collect::<Vec<&str>>().join(":");
    let dkim_value_prefix = format!(
        "v=1; a=rsa-sha256; c={}/{}; d={}; s={}; h={}; bh={}; b=",
        header_can, body_can, domain, selector, h_list, bh
    );

    let mut headers_for_sign = headers.to_vec();
    headers_for_sign.push(("DKIM-Signature".to_string(), dkim_value_prefix.clone()));

    let signed_headers_str =
        build_signed_headers_string(&headers_for_sign, headers_for_sign.len() - 1, &h_list, header_can);

    let mut hasher = Sha256::new();
    hasher.update(signed_headers_str.as_bytes());
    let digest = hasher.finalize();

    let signature = priv_key.sign(Pkcs1v15Sign::new::<Sha256>(), &digest).expect("sign");
    let b64 = base64::engine::general_purpose::STANDARD.encode(&signature);
    format!("{}{}", dkim_value_prefix, b64)
}

/// Builds a small sample email from headers and body.
fn build_raw_email(headers: &[(String, String)], body: &str) -> String {
    let mut out = String::new();
    for (n, v) in headers {
        out.push_str(&format!("{}: {}\r\n", n, v));
    }
    out.push_str("\r\n");
    out.push_str(body);
    out
}

#[test]
fn test_rsa_dkim_sign_and_verify_simple_relaxed() {
    let mut rng = OsRng;
    let bits = 2048;
    let priv_key = RsaPrivateKey::new(&mut rng, bits).expect("generate key");
    let pub_key = RsaPublicKey::from(&priv_key);

    let pub_pem = pub_key.to_pkcs1_pem(Default::default()).expect("pub pem");

    let headers = vec![
        ("From".to_string(), "Alice <alice@example.com>".to_string()),
        ("To".to_string(), "bob@example.com".to_string()),
        ("Subject".to_string(), "Test DKIM".to_string()),
        ("MIME-Version".to_string(), "1.0".to_string()),
        ("Content-Type".to_string(), "text/plain; charset=UTF-8".to_string()),
        ("Message-ID".to_string(), "<msgid@example.com>".to_string()),
        ("Date".to_string(), "Wed, 05 Nov 2025 17:35:02 +0000".to_string()),
    ];
    let body = "Hello Bob,\r\nThis is a DKIM test.\r\n\r\nRegards,\r\nAlice\r\n";

    let header_can = "relaxed";
    let body_can = "simple";

    let dkim_value = sign_dkim_headers_rsa(&headers, body, "sel", "example.com", &priv_key, header_can, body_can);

    let mut headers_with_dkim = vec![("DKIM-Signature".to_string(), dkim_value.clone())];
    headers_with_dkim.extend(headers.clone());

    let raw_email = build_raw_email(&headers_with_dkim, body);

    let res = verify_dkim_signature_rsa(&raw_email, &pub_pem);
    assert!(res.is_ok(), "verification should succeed: {:?}", res.err());

    let mut tampered = raw_email.clone();
    tampered = tampered.replacen("DKIM test.", "DKIM test (tampered).", 1);
    let res2 = verify_dkim_signature_rsa(&tampered, &pub_pem);
    assert!(matches!(res2, Err(DkimError::BodyHashMismatch)));

    let other_priv = RsaPrivateKey::new(&mut rng, bits).expect("other");
    let other_pub = RsaPublicKey::from(&other_priv);
    let other_pub_pem = other_pub.to_pkcs1_pem(Default::default()).expect("other pub pem");
    let res3 = verify_dkim_signature_rsa(&raw_email, &other_pub_pem);
    assert!(matches!(res3, Err(DkimError::SignatureVerifyFailed)));
}

#[test]
fn test_canonicalization_relaxed_examples() {
    let name = "Subject";
    let value = "  This   is   a   test  \r\n\t  with folding ";
    let canon = canonicalize_header_relaxed(name, value);
    assert!(canon.starts_with("subject:"), "got {}", canon);
    assert!(canon.contains("This is a test"), "got {}", canon);

    let body = "Line with   spaces  \r\nSecond\tline\r\n\r\n\r\n";
    let crel = canonicalize_body_relaxed(body);
    assert!(crel.ends_with("\r\n"));
}

fn private_parts(k: &RsaPrivateKey) -> RsaPrivateKeyParts {
    RsaPrivateKeyParts {
        n: k.n().to_bytes_be(),
        e: k.e().to_bytes_be(),
        d: k.d().to_bytes_be(),
        primes: k.primes().iter().map(|p| p.to_bytes_be()).collect(),
    }
}

fn public_parts(k: &RsaPublicKey) -> RsaPublicKeyParts {
    RsaPublicKeyParts { n: k.n().to_bytes_be(), e: k.e().to_bytes_be() }
}

#[test]
fn test_sign_verify() {
    const RAW_EMAIL: &str = "From: alice@example.com\r\n\
         To: bob@example.com\r\n\
         Subject: DKIM Test\r\n\
         Date: Wed, 05 Nov 2025 17:35:02 +0000\r\n\
         \r\n\
         Hello DKIM!";

    let mut rng = OsRng;
    let priv_key = RsaPrivateKey::new(&mut rng, 2048).unwrap();
    let pub_key = RsaPublicKey::from(&priv_key);

    let headers_to_sign = ["from", "to", "subject", "date", "dkim-signature"];

    let canon = "relaxed";

    let dkim_header =
        sign_email(RAW_EMAIL, &private_parts(&priv_key), "selector", "example.com", &headers_to_sign, canon).unwrap();

    assert!(verify_email(RAW_EMAIL, &public_parts(&pub_key), &dkim_header, &headers_to_sign, canon).is_ok());

    let tampered = RAW_EMAIL.replace("Hello DKIM!", "Hello tampered!");
    assert!(verify_email(&tampered, &public_parts(&pub_key), &dkim_header, &headers_to_sign, canon).is_err());
}
