//! Signing a raw message with a DKIM-Signature header, and verifying a message
//! against such a header, with the canonicalization helpers of `utils`.

use vstd::prelude::*;
use vstd::string::StringExecFns;
use vstd::utf8::encode_utf8;
use crate::str_map::StrMap;
use crate::dkim::text::{is_ws, chars_of, find_char, find_char_in, lemma_find_char, lemma_find_prefix, lemma_split_concat, lemma_split_without_sep, split, split_chars, string_from, sub_chars, trim, trim_chars, trim_end, trim_start, views};
use crate::dkim::utils::{canonical_body, canonical_headers, canonicalize_body, canonicalize_headers, extract_body, str_views};
use crate::dkim::mail::{mail_body, mail_headers};
use crate::dkim::crypto::{base64_decode, base64_decode_str, base64_encode, base64_encode_bytes, is_base64_char, lemma_base64_alphabet, pkcs1v15_sha256_signature, pkcs1v15_sha256_verifies, prime_views, sha256, sha256_digest, sign_pkcs1v15_sha256, verify_pkcs1v15_sha256, RsaPrivateKeyParts, RsaPublicKeyParts};
use crate::dkim::verify_dkim::sig_tags;
use crate::dkim::key_fetch::tag_view;

verus! {

/// The DKIM-Signature header without its signature: tags v, a, c, d, s, bh and an empty b.
pub open spec fn unsigned_dkim_header(canon_type: Seq<char>, domain: Seq<char>, selector: Seq<char>, bh: Seq<char>) -> Seq<char> {
    "DKIM-Signature: v=1; a=rsa-sha256; c="@ + canon_type + "/"@ + canon_type + "; d="@ + domain + "; s="@
        + selector + "; bh="@ + bh + "; b="@
}

/// The body hash of a message body under `canon_type`: Base64 of the SHA-256
/// digest of the UTF-8 canonical body.
pub open spec fn canonical_body_hash(body: Seq<char>, canon_type: Seq<char>) -> Seq<char> {
    base64_encode(sha256(encode_utf8(canonical_body(body, canon_type))))
}

/// What the Base64 encoder and the signer guarantee of a signing: the body
/// hash and the encoded signature are Base64 text, and the signature verifies
/// under the public part of the key.
pub open spec fn signature_facts(
    key: (Seq<u8>, Seq<u8>, Seq<u8>, Seq<Seq<u8>>),
    bh: Seq<char>,
    block: Seq<char>,
    sig: Seq<u8>,
) -> bool {
    &&& forall|i: int| 0 <= i < bh.len() ==> is_base64_char(#[trigger] bh[i])
    &&& forall|i: int| 0 <= i < base64_encode(sig).len() ==> is_base64_char(#[trigger] base64_encode(sig)[i])
    &&& pkcs1v15_sha256_verifies(key.0, key.1, sha256(encode_utf8(block)), sig)
}

/// Whether `r` is what signing `raw` gives with the private key of parts
/// (n, e, d, primes), selector, domain, signed header names and canonicalization.
pub open spec fn signing_result(
    raw: Seq<char>,
    key: (Seq<u8>, Seq<u8>, Seq<u8>, Seq<Seq<u8>>),
    selector: Seq<char>,
    domain: Seq<char>,
    names: Seq<Seq<char>>,
    canon_type: Seq<char>,
    r: Result<String, String>,
) -> bool {
    match mail_body(raw) {
        Err(e) => r matches Err(t) && t@ == e.0,
        Ok(body) => {
            let unsigned = unsigned_dkim_header(canon_type, domain, selector, canonical_body_hash(body, canon_type));
            let email = unsigned + "\r\n"@ + raw;
            match mail_headers(email) {
                Err(e) => r matches Err(t) && t@ == e.0,
                Ok(hs) => match canonical_headers(hs, names, canon_type) {
                    Err(e) => r matches Err(t) && t@ == e,
                    Ok(block) => match pkcs1v15_sha256_signature(key.0, key.1, key.2, key.3, encode_utf8(block)) {
                        Err(m) => r matches Err(t) && t@ == m,
                        Ok(sig) => r matches Ok(t) && t@ == unsigned + base64_encode(sig) && signature_facts(
                            key,
                            canonical_body_hash(body, canon_type),
                            block,
                            sig,
                        ),
                    },
                },
            }
        },
    }
}

/// Makes the DKIM-Signature header for a raw message, for testing DKIM
/// verification: the body hash of the body canonicalized by `canon_type`, the
/// header without signature, then the RSA signature (PKCS#1 v1.5, SHA-256) of
/// the canonical block of `headers_to_sign` taken from the message with that
/// header put in front, in Base64 as the `b=` value. Fails when the body
/// cannot be read, a header is missing, or the key cannot sign. The key comes
/// with its primes, as every `rsa` private key has them.
pub fn sign_email(
    raw_email: &str,
    priv_key: &RsaPrivateKeyParts,
    selector: &str,
    domain: &str,
    headers_to_sign: &[&str],
    canon_type: &str,
) -> (r: Result<String, String>)
    requires
        priv_key.primes@.len() > 0,
    ensures
        signing_result(
            raw_email@,
            (priv_key.n@, priv_key.e@, priv_key.d@, prime_views(priv_key.primes@)),
            selector@,
            domain@,
            str_views(headers_to_sign@),
            canon_type@,
            r,
        ),
{
    let body = extract_body(raw_email)?;
    let canon_body = canonicalize_body(body.as_str(), canon_type);
    let digest = sha256_digest(canon_body.as_str().as_bytes());
    let bh = base64_encode_bytes(digest.as_slice());

    let mut unsigned = String::from_str("DKIM-Signature: v=1; a=rsa-sha256; c=");
    unsigned.append(canon_type);
    unsigned.append("/");
    unsigned.append(canon_type);
    unsigned.append("; d=");
    unsigned.append(domain);
    unsigned.append("; s=");
    unsigned.append(selector);
    unsigned.append("; bh=");
    unsigned.append(bh.as_str());
    unsigned.append("; b=");

    let mut email_with_dkim = unsigned.clone();
    email_with_dkim.append("\r\n");
    email_with_dkim.append(raw_email);

    let headers_canon = canonicalize_headers(email_with_dkim.as_str(), headers_to_sign, canon_type)?;
    let sig = sign_pkcs1v15_sha256(priv_key, headers_canon.as_str().as_bytes())?;
    let sig_b64 = base64_encode_bytes(sig.as_slice());
    proof {
        lemma_base64_alphabet(sig@);
        lemma_base64_alphabet(digest@);
    }
    let mut out = unsigned;
    out.append(sig_b64.as_str());
    Ok(out)
}

/// The tags of a DKIM-Signature header: each trimmed ';'-separated piece with
/// an '=' gives the text before the first '=' the text after it.
pub open spec fn header_tags(h: Seq<char>) -> Map<Seq<char>, Seq<char>> {
    sig_tags(split(h, ';'))
}

/// The DKIM-Signature header `h` without its trailing signature value `b`:
/// `h` with `b` cut from its end when it ends with it, else `h`.
pub open spec fn without_trailing_signature(h: Seq<char>, b: Seq<char>) -> Seq<char> {
    if b.len() <= h.len() && h.skip(h.len() - b.len()) == b {
        h.take(h.len() - b.len())
    } else {
        h
    }
}

/// Whether `r` is what verifying `raw` against the DKIM-Signature header `h`
/// gives with public key (n, e), the header names and canonicalization.
pub open spec fn email_verification_result(
    raw: Seq<char>,
    key: (Seq<u8>, Seq<u8>),
    h: Seq<char>,
    names: Seq<Seq<char>>,
    canon_type: Seq<char>,
    r: Result<(), String>,
) -> bool {
    let tags = header_tags(h);
    if !tags.contains_key("bh"@) {
        r matches Err(t) && t@ == "Missing bh field"@
    } else if !tags.contains_key("b"@) {
        r matches Err(t) && t@ == "Missing b field"@
    } else {
        match mail_body(raw) {
            Err(e) => r matches Err(t) && t@ == e.0,
            Ok(body) => if canonical_body_hash(body, canon_type) != tags["bh"@] {
                r matches Err(t) && t@ == "Body hash mismatch"@
            } else {
                let email = without_trailing_signature(h, tags["b"@]) + "\r\n"@ + raw;
                match mail_headers(email) {
                    Err(e) => r matches Err(t) && t@ == e.0,
                    Ok(hs) => match canonical_headers(hs, names, canon_type) {
                        Err(e) => r matches Err(t) && t@ == e,
                        Ok(block) => (forall|x: Seq<u8>| #[trigger] base64_encode(x) == tags["b"@] ==> base64_decode(tags["b"@]) == Ok::<Seq<u8>, Seq<char>>(x)) && match base64_decode(tags["b"@]) {
                            Err(_) => r matches Err(t) && t@ == "Invalid base64 signature"@,
                            Ok(sig) => if pkcs1v15_sha256_verifies(key.0, key.1, sha256(encode_utf8(block)), sig) {
                                r is Ok
                            } else {
                                r matches Err(t) && t@ == "Signature verification failed"@
                            },
                        },
                    },
                }
            },
        }
    }
}

/// The tags of a DKIM-Signature header.
fn read_header_tags(h: &str) -> (m: StrMap<String>)
    ensures
        tag_view(m@) == header_tags(h@),
{
    let v = chars_of(h);
    let parts = split_chars(&v, ';');
    let ghost pv = views(parts@);
    let mut m: StrMap<String> = StrMap::new();
    let mut i: usize = 0;
    assert(tag_view(m@) =~= sig_tags(pv.take(0)));
    while i < parts.len()
        invariant
            i <= parts.len(),
            pv == views(parts@),
            pv == split(h@, ';'),
            tag_view(m@) == sig_tags(pv.take(i as int)),
        decreases parts.len() - i,
    {
        assert(pv.take(i + 1).drop_last() =~= pv.take(i as int));
        assert(pv.take(i + 1).last() == parts@[i as int]@);
        let part = trim_chars(&parts[i]);
        match find_char_in(&part, '=') {
            Some(eq) => {
                proof {
                    lemma_find_char(part@, '=');
                }
                let k = sub_chars(&part, 0, eq);
                let val = sub_chars(&part, eq + 1, part.len());
                assert(k@ =~= part@.take(eq as int));
                assert(val@ =~= part@.skip(eq + 1));
                let ks = string_from(&k);
                let vs = string_from(&val);
                let ghost before = m@;
                m.insert(ks, vs);
                assert(tag_view(m@) =~= tag_view(before).insert(k@, val@));
            },
            None => {},
        }
        i = i + 1;
    }
    assert(pv.take(parts.len() as int) =~= pv);
    m
}

/// `h` without its trailing signature value `b`.
fn strip_trailing_signature(h: &str, b: &str) -> (r: String)
    ensures
        r@ == without_trailing_signature(h@, b@),
{
    let hv = chars_of(h);
    let bv = chars_of(b);
    if bv.len() <= hv.len() {
        let start = hv.len() - bv.len();
        let tail = sub_chars(&hv, start, hv.len());
        let mut same = true;
        let mut i: usize = 0;
        while i < bv.len()
            invariant
                i <= bv.len(),
                tail@.len() == bv@.len(),
                same == (forall|j: int| 0 <= j < i ==> tail@[j] == bv@[j]),
            decreases bv.len() - i,
        {
            if tail[i] != bv[i] {
                same = false;
            }
            i = i + 1;
        }
        assert(hv@.skip(start as int) =~= tail@);
        if same {
            assert(tail@ =~= bv@);
            let head = sub_chars(&hv, 0, start);
            assert(head@ =~= hv@.take(start as int));
            return string_from(&head);
        } else {
            assert(tail@ != bv@) by {
                let j = choose|j: int| 0 <= j < bv@.len() && tail@[j] != bv@[j];
            }
        }
    }
    h.to_owned()
}

/// Verifies a DKIM-signed message with an RSA public key: the body hash
/// (`bh=`) must match the body canonicalized by `canon_type`, and the
/// signature (`b=`, Base64) must be the RSA PKCS#1 v1.5 SHA-256 signature of
/// the canonical block of `headers_to_verify` taken from the message with the
/// DKIM-Signature header, its signature value removed, put in front.
pub fn verify_email(
    raw_email: &str,
    pub_key: &RsaPublicKeyParts,
    dkim_header: &str,
    headers_to_verify: &[&str],
    canon_type: &str,
) -> (r: Result<(), String>)
    ensures
        email_verification_result(
            raw_email@,
            (pub_key.n@, pub_key.e@),
            dkim_header@,
            str_views(headers_to_verify@),
            canon_type@,
            r,
        ),
{
    let dkim_map = read_header_tags(dkim_header);
    let bh = match dkim_map.get("bh") {
        Some(v) => v,
        None => {
            return Err(String::from_str("Missing bh field"));
        },
    };
    let b = match dkim_map.get("b") {
        Some(v) => v,
        None => {
            return Err(String::from_str("Missing b field"));
        },
    };

    let body = extract_body(raw_email)?;
    let canon_body = canonicalize_body(body.as_str(), canon_type);
    let digest_body = sha256_digest(canon_body.as_str().as_bytes());
    if base64_encode_bytes(digest_body.as_slice()) != *bh {
        return Err(String::from_str("Body hash mismatch"));
    }

    let mut email_with_dkim = strip_trailing_signature(dkim_header, b.as_str());
    email_with_dkim.append("\r\n");
    email_with_dkim.append(raw_email);
    let headers_canon = canonicalize_headers(email_with_dkim.as_str(), headers_to_verify, canon_type)?;
    let digest = sha256_digest(headers_canon.as_str().as_bytes());

    let sig_bytes = match base64_decode_str(b.as_str()) {
        Ok(v) => v,
        Err(_) => {
            return Err(String::from_str("Invalid base64 signature"));
        },
    };
    if verify_pkcs1v15_sha256(pub_key, digest.as_slice(), sig_bytes.as_slice()) {
        Ok(())
    } else {
        Err(String::from_str("Signature verification failed"))
    }
}

/// The tags read from a tag piece made of a space, a tag name, '=' and a
/// value that does not end in whitespace: the name gives the value.
proof fn lemma_tag_piece(name: Seq<char>, value: Seq<char>)
    requires
        name.len() > 0,
        forall|i: int| 0 <= i < name.len() ==> #[trigger] name[i] != '=' && !crate::dkim::text::is_ws(name[i]),
        value.len() == 0 || !crate::dkim::text::is_ws(value.last()),
    ensures
        ({
            let p = trim(seq![' '] + name + seq!['='] + value);
            find_char(p, '=') == Some(name.len() as int) && p.take(name.len() as int) == name && p.skip(
                name.len() as int + 1,
            ) == value
        }),
{
    let t = name + seq!['='] + value;
    let p = seq![' '] + t;
    assert(seq![' '] + name + seq!['='] + value =~= p);
    assert(p.len() > 0);
    if value.len() > 0 {
        assert(p.last() == value.last());
    } else {
        assert(p.last() == '=');
    }
    assert(trim_end(p) == p);
    assert(p.drop_first() =~= t);
    assert(t[0] == name[0]);
    assert(trim_start(t) == t);
    assert(trim_start(p) == trim_start(t));
    let k = name.len() as int;
    assert(t.take(k + 1) =~= name.push('='));
    assert(find_char(t.take(k + 1), '=') == Some(k)) by {
        assert(t.take(k + 1).drop_last() =~= name);
        lemma_find_char(name, '=');
        if find_char(name, '=') is Some {
            let j = find_char(name, '=')->0;
            assert(name[j] == '=');
        }
    }
    lemma_find_prefix(t, '=', k + 1);
    assert(t.take(k) =~= name);
    assert(t.skip(k + 1) =~= value);
    assert(trim(p) == t);
}

/// A DKIM-Signature header made by `sign_email` is verified by
/// `verify_email`: for the same message, header names, canonicalization and
/// the public part (n, e) of the signing key, verification of the header that
/// signing returned succeeds.
pub proof fn lemma_signed_email_verifies(
    raw: Seq<char>,
    n: Seq<u8>,
    e: Seq<u8>,
    d: Seq<u8>,
    primes: Seq<Seq<u8>>,
    selector: Seq<char>,
    domain: Seq<char>,
    names: Seq<Seq<char>>,
    canon_type: Seq<char>,
    header: String,
    r: Result<(), String>,
)
    requires
        signing_result(raw, (n, e, d, primes), selector, domain, names, canon_type, Ok::<String, String>(header)),
        email_verification_result(raw, (n, e), header@, names, canon_type, r),
    ensures
        r is Ok,
{
    let body = mail_body(raw)->Ok_0;
    let bh = canonical_body_hash(body, canon_type);
    let unsigned = unsigned_dkim_header(canon_type, domain, selector, bh);
    let email = unsigned + "\r\n"@ + raw;
    let hs = mail_headers(email)->Ok_0;
    let block = canonical_headers(hs, names, canon_type)->Ok_0;
    let sig = pkcs1v15_sha256_signature(n, e, d, primes, encode_utf8(block))->Ok_0;
    let b64 = base64_encode(sig);
    let h = header@;
    assert(h == unsigned + b64);
    reveal_strlit("DKIM-Signature: v=1; a=rsa-sha256; c=");
    reveal_strlit("; bh=");
    reveal_strlit("; b=");
    reveal_strlit("bh");
    reveal_strlit("b");
    let a = "DKIM-Signature: v=1; a=rsa-sha256; c="@ + canon_type + "/"@ + canon_type + "; d="@ + domain + "; s="@ + selector;
    let bh_name = seq!['b', 'h'];
    let b_name = seq!['b'];
    let p5 = seq![' '] + bh_name + seq!['='] + bh;
    let p6 = seq![' '] + b_name + seq!['='] + b64;
    assert("; bh="@ =~= seq![';'] + seq![' ', 'b', 'h', '=']);
    assert("; b="@ =~= seq![';'] + seq![' ', 'b', '=']);
    assert(h =~= (a + seq![';'] + p5) + seq![';'] + p6);
    assert(forall|i: int| 0 <= i < p5.len() ==> #[trigger] p5[i] != ';') by {
        assert forall|i: int| 0 <= i < p5.len() implies #[trigger] p5[i] != ';' by {
            if i >= 4 {
                assert(p5[i] == bh[i - 4]);
                assert(is_base64_char(bh[i - 4]));
            }
        }
    }
    assert(forall|i: int| 0 <= i < p6.len() ==> #[trigger] p6[i] != ';') by {
        assert forall|i: int| 0 <= i < p6.len() implies #[trigger] p6[i] != ';' by {
            if i >= 3 {
                assert(p6[i] == b64[i - 3]);
                assert(is_base64_char(b64[i - 3]));
            }
        }
    }
    lemma_split_concat(a + seq![';'] + p5, p6, ';');
    lemma_split_concat(a, p5, ';');
    lemma_split_without_sep(p5, ';');
    lemma_split_without_sep(p6, ';');
    let parts = split(h, ';');
    assert(parts =~= split(a, ';') + seq![p5] + seq![p6]);
    assert(parts.drop_last() =~= split(a, ';') + seq![p5]);
    assert((split(a, ';') + seq![p5]).drop_last() =~= split(a, ';'));
    lemma_base64_alphabet(sig);
    if bh.len() > 0 {
        assert(is_base64_char(bh[bh.len() - 1]));
    }
    if b64.len() > 0 {
        assert(is_base64_char(b64[b64.len() - 1]));
    }
    lemma_tag_piece(bh_name, bh);
    lemma_tag_piece(b_name, b64);
    let tags = header_tags(h);
    let front = split(a, ';') + seq![p5];
    assert(parts.last() == p6);
    assert(front.last() == p5);
    assert(sig_tags(parts) == sig_tags(front).insert(b_name, b64));
    assert(sig_tags(front) == sig_tags(split(a, ';')).insert(bh_name, bh));
    assert(tags == sig_tags(split(a, ';')).insert(bh_name, bh).insert(b_name, b64));
    assert(bh_name != b_name);
    assert("bh"@ =~= bh_name);
    assert("b"@ =~= b_name);
    assert(tags.contains_key("bh"@) && tags["bh"@] == bh);
    assert(tags.contains_key("b"@) && tags["b"@] == b64);
    assert(h.skip(h.len() - b64.len()) =~= b64);
    assert(h.take(h.len() - b64.len()) =~= unsigned);
    assert(without_trailing_signature(h, tags["b"@]) == unsigned);
}

} // verus!

verus! {

/// The header that `sign_email` returns names the signing domain in its `d=`
/// tag and the selector in its `s=` tag, and carries the body hash in its
/// `bh=` tag: reading its tags back gives `d` = `domain`, `s` = `selector` and
/// `bh` = the hash of the canonical body, for a domain and a selector that hold
/// no ';' and do not end in whitespace.
pub proof fn lemma_signed_header_tags(
    raw: Seq<char>,
    n: Seq<u8>,
    e: Seq<u8>,
    d_exp: Seq<u8>,
    primes: Seq<Seq<u8>>,
    selector: Seq<char>,
    domain: Seq<char>,
    names: Seq<Seq<char>>,
    canon_type: Seq<char>,
    header: String,
)
    requires
        signing_result(raw, (n, e, d_exp, primes), selector, domain, names, canon_type, Ok::<String, String>(header)),
        forall|i: int| 0 <= i < domain.len() ==> #[trigger] domain[i] != ';',
        forall|i: int| 0 <= i < selector.len() ==> #[trigger] selector[i] != ';',
        domain.len() == 0 || !is_ws(domain.last()),
        selector.len() == 0 || !is_ws(selector.last()),
    ensures
        header_tags(header@).contains_key("d"@),
        header_tags(header@)["d"@] == domain,
        header_tags(header@).contains_key("s"@),
        header_tags(header@)["s"@] == selector,
        header_tags(header@).contains_key("bh"@),
        header_tags(header@)["bh"@] == canonical_body_hash(mail_body(raw)->Ok_0, canon_type),
{
    let body = mail_body(raw)->Ok_0;
    let bh = canonical_body_hash(body, canon_type);
    let unsigned = unsigned_dkim_header(canon_type, domain, selector, bh);
    let email = unsigned + "\r\n"@ + raw;
    let hs = mail_headers(email)->Ok_0;
    let block = canonical_headers(hs, names, canon_type)->Ok_0;
    let sig = pkcs1v15_sha256_signature(n, e, d_exp, primes, encode_utf8(block))->Ok_0;
    let b64 = base64_encode(sig);
    let h = header@;
    assert(h == unsigned + b64);
    reveal_strlit("; d=");
    reveal_strlit("; s=");
    reveal_strlit("; bh=");
    reveal_strlit("; b=");
    reveal_strlit("d");
    reveal_strlit("s");
    reveal_strlit("bh");
    reveal_strlit("b");
    let a0 = "DKIM-Signature: v=1; a=rsa-sha256; c="@ + canon_type + "/"@ + canon_type;
    let d_name = seq!['d'];
    let s_name = seq!['s'];
    let bh_name = seq!['b', 'h'];
    let b_name = seq!['b'];
    let pd = seq![' '] + d_name + seq!['='] + domain;
    let ps = seq![' '] + s_name + seq!['='] + selector;
    let p5 = seq![' '] + bh_name + seq!['='] + bh;
    let p6 = seq![' '] + b_name + seq!['='] + b64;
    assert("; d="@ =~= seq![';'] + seq![' ', 'd', '=']);
    assert("; s="@ =~= seq![';'] + seq![' ', 's', '=']);
    assert("; bh="@ =~= seq![';'] + seq![' ', 'b', 'h', '=']);
    assert("; b="@ =~= seq![';'] + seq![' ', 'b', '=']);
    let x2 = a0 + seq![';'] + pd;
    let x3 = x2 + seq![';'] + ps;
    let x4 = x3 + seq![';'] + p5;
    assert(h =~= x4 + seq![';'] + p6);
    lemma_base64_alphabet(sig);
    assert forall|i: int| 0 <= i < pd.len() implies #[trigger] pd[i] != ';' by {
        if i >= 3 {
            assert(pd[i] == domain[i - 3]);
        }
    }
    assert forall|i: int| 0 <= i < ps.len() implies #[trigger] ps[i] != ';' by {
        if i >= 3 {
            assert(ps[i] == selector[i - 3]);
        }
    }
    assert forall|i: int| 0 <= i < p5.len() implies #[trigger] p5[i] != ';' by {
        if i >= 4 {
            assert(p5[i] == bh[i - 4]);
            assert(is_base64_char(bh[i - 4]));
        }
    }
    assert forall|i: int| 0 <= i < p6.len() implies #[trigger] p6[i] != ';' by {
        if i >= 3 {
            assert(p6[i] == b64[i - 3]);
            assert(is_base64_char(b64[i - 3]));
        }
    }
    lemma_split_concat(x4, p6, ';');
    lemma_split_concat(x3, p5, ';');
    lemma_split_concat(x2, ps, ';');
    lemma_split_concat(a0, pd, ';');
    lemma_split_without_sep(pd, ';');
    lemma_split_without_sep(ps, ';');
    lemma_split_without_sep(p5, ';');
    lemma_split_without_sep(p6, ';');
    let base = split(a0, ';');
    let f2 = base + seq![pd];
    let f3 = f2 + seq![ps];
    let f4 = f3 + seq![p5];
    let parts = f4 + seq![p6];
    assert(split(h, ';') =~= parts);
    assert(parts.drop_last() =~= f4 && parts.last() == p6);
    assert(f4.drop_last() =~= f3 && f4.last() == p5);
    assert(f3.drop_last() =~= f2 && f3.last() == ps);
    assert(f2.drop_last() =~= base && f2.last() == pd);
    if bh.len() > 0 {
        assert(is_base64_char(bh[bh.len() - 1]));
    }
    if b64.len() > 0 {
        assert(is_base64_char(b64[b64.len() - 1]));
    }
    lemma_tag_piece(d_name, domain);
    lemma_tag_piece(s_name, selector);
    lemma_tag_piece(bh_name, bh);
    lemma_tag_piece(b_name, b64);
    let tags = header_tags(h);
    assert(sig_tags(f2) == sig_tags(base).insert(d_name, domain));
    assert(sig_tags(f3) == sig_tags(f2).insert(s_name, selector));
    assert(sig_tags(f4) == sig_tags(f3).insert(bh_name, bh));
    assert(tags == sig_tags(f4).insert(b_name, b64));
    assert(d_name[0] != s_name[0] && d_name[0] != bh_name[0] && d_name[0] != b_name[0]);
    assert(s_name[0] != bh_name[0] && s_name[0] != b_name[0]);
    assert(bh_name.len() != b_name.len());
    assert(bh_name != b_name);
    assert("d"@ =~= d_name);
    assert("s"@ =~= s_name);
    assert("bh"@ =~= bh_name);
}

} // verus!
