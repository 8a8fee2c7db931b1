//! DKIM verification with RSA-SHA256: DKIM-Signature parsing, header and body
//! canonicalization (relaxed / simple), body hash and signed-header block.

use vstd::prelude::*;
use vstd::string::StringExecFns;
use vstd::utf8::encode_utf8;
use crate::dkim::text::{append_chars, chars_in_bytes, chars_in_bytes_of, chars_of, collapse_runs, collapse_sp_tab, copy_chars, drop_trailing_empty, drop_trailing_empty_lines, eq_ignore_ascii_case, eq_ignore_ascii_case_chars, find_char, find_char_in, find_pair, find_pair_in, lemma_find_pair, is_sp_tab, join, join_chars, lemma_find_char, lemma_split_nonempty, lowercase, replace_char, replace_char_chars, replace_crlf, replace_crlf_chars, split, split_chars, starts_with, starts_with_chars, str_eq, string_from, sub_chars, to_lowercase, trim, trim_chars, trim_end, trim_end_chars, utf8_len, utf8_len_of_prefix, views};
use crate::dkim::crypto::{base64_decode, base64_decode_str, base64_encode, base64_encode_bytes, pkcs1_pem_public_key, pkcs1v15_sha256_verifies, public_key_from_pkcs1_pem, public_key_from_spki_pem, sha256, sha256_digest, spki_pem_public_key, verify_pkcs1v15_sha256};
use crate::dkim::text::is_ws;
use crate::dkim::text_facts::{crlf_sep, lemma_replace_crlf_none, lemma_collapse_runs_fixed, lemma_collapse_runs_shape, lemma_drop_trailing_empty_prefix, lemma_join_chars, lemma_join_pairs, lemma_replace_crlf_join, lemma_split_join, lemma_split_pieces, lemma_trim_end_prefix, pairs_ok};
use crate::dkim::mail::{first_header, find_first_header, header_views, lemma_first_header_found, mail_body, mail_headers, parse_body, parse_headers};

verus! {

/// The signing algorithms (only RSA-SHA256 is implemented).
#[derive(Debug, Clone, Copy, PartialEq, Eq, Structural)]
pub enum DkimAlgorithm {
    RsaSha256,
}

/// The ways verification can fail.
#[derive(Debug)]
pub enum DkimError {
    NoDkimSignature,
    BadSignatureField,
    BodyHashMismatch,
    SignatureVerifyFailed,
    PublicKeyParse(String),
    Other(String),
}

impl DkimError {
    /// The description of the error.
    pub fn message(&self) -> (s: String)
        ensures
            s@ == match self {
                DkimError::NoDkimSignature => "no DKIM-Signature header"@,
                DkimError::BadSignatureField => "invalid signature field"@,
                DkimError::BodyHashMismatch => "body hash mismatch"@,
                DkimError::SignatureVerifyFailed => "signature verification failed"@,
                DkimError::PublicKeyParse(m) => "public key parse error: "@ + m@,
                DkimError::Other(m) => "other: "@ + m@,
            },
    {
        match self {
            DkimError::NoDkimSignature => String::from_str("no DKIM-Signature header"),
            DkimError::BadSignatureField => String::from_str("invalid signature field"),
            DkimError::BodyHashMismatch => String::from_str("body hash mismatch"),
            DkimError::SignatureVerifyFailed => String::from_str("signature verification failed"),
            DkimError::PublicKeyParse(m) => {
                let mut s = String::from_str("public key parse error: ");
                s.append(m.as_str());
                s
            },
            DkimError::Other(m) => {
                let mut s = String::from_str("other: ");
                s.append(m.as_str());
                s
            },
        }
    }
}

/// The fields of a DKIM-Signature header that verification uses.
pub struct DkimSignatureFields {
    /// version
    pub v: Option<String>,
    /// algorithm
    pub a: Option<String>,
    /// canonicalization (header/body)
    pub c: Option<String>,
    /// domain
    pub d: Option<String>,
    /// selector
    pub s: Option<String>,
    /// signed header list
    pub h: Option<String>,
    /// body hash (Base64)
    pub bh: Option<String>,
    /// signature (Base64)
    pub b: Option<String>,
}

/// The view of an optional string.
pub open spec fn opt_view(o: Option<String>) -> Option<Seq<char>> {
    match o {
        Some(s) => Some(s@),
        None => None,
    }
}

/// The value of tag `k` in `m`, if any.
pub open spec fn tag_of(m: Map<Seq<char>, Seq<char>>, k: Seq<char>) -> Option<Seq<char>> {
    if m.contains_key(k) {
        Some(m[k])
    } else {
        None
    }
}

impl DkimSignatureFields {
    /// The fields as they were read from the tags `m`.
    pub open spec fn from_tags(&self, m: Map<Seq<char>, Seq<char>>) -> bool {
        &&& opt_view(self.v) == tag_of(m, "v"@)
        &&& opt_view(self.a) == tag_of(m, "a"@)
        &&& opt_view(self.c) == tag_of(m, "c"@)
        &&& opt_view(self.d) == tag_of(m, "d"@)
        &&& opt_view(self.s) == tag_of(m, "s"@)
        &&& opt_view(self.h) == tag_of(m, "h"@)
        &&& opt_view(self.bh) == tag_of(m, "bh"@)
        &&& opt_view(self.b) == tag_of(m, "b"@)
    }

    /// The signature field.
    pub fn get_b(&self) -> (r: Option<String>)
        ensures
            opt_view(r) == opt_view(self.b),
    {
        match &self.b {
            Some(b) => Some(b.clone()),
            None => None,
        }
    }
}

/// The header name prefix that a DKIM-Signature value may start with.
pub open spec fn dkim_prefix() -> Seq<char> {
    "dkim-signature:"@
}

/// The text that holds the tags of a DKIM-Signature value `t` (already
/// trimmed): when its lowercase starts with "dkim-signature:", the text after
/// the first 15 bytes; otherwise all of it.
pub open spec fn tag_text(t: Seq<char>) -> Seq<char> {
    if starts_with(lowercase(t), dkim_prefix()) {
        t.skip(chars_in_bytes(t, 15)->0)
    } else {
        t
    }
}

/// Whether cutting the first 15 bytes of the trimmed value `t`, when its
/// lowercase starts with "dkim-signature:", falls on a character boundary.
pub open spec fn prefix_cut_ok(t: Seq<char>) -> bool {
    starts_with(lowercase(t), dkim_prefix()) ==> chars_in_bytes(t, 15) is Some
}

/// The tags read from the pieces of a DKIM-Signature value, in order: each
/// trimmed piece with an '=' gives the text before the first '=' the text
/// after it; a later piece with the same tag wins.
pub open spec fn sig_tags(parts: Seq<Seq<char>>) -> Map<Seq<char>, Seq<char>>
    decreases parts.len(),
{
    if parts.len() == 0 {
        Map::empty()
    } else {
        let m = sig_tags(parts.drop_last());
        let p = trim(parts.last());
        match find_char(p, '=') {
            Some(eq) => m.insert(p.take(eq), p.skip(eq + 1)),
            None => m,
        }
    }
}

/// The tags of the DKIM-Signature value `value`.
pub open spec fn signature_tags(value: Seq<char>) -> Map<Seq<char>, Seq<char>> {
    sig_tags(split(tag_text(trim(value)), ';'))
}

/// The eight tag names are different from each other.
proof fn lemma_tag_names_distinct()
    ensures
        "v"@ != "a"@, "v"@ != "c"@, "v"@ != "d"@, "v"@ != "s"@, "v"@ != "h"@, "v"@ != "bh"@, "v"@ != "b"@,
        "a"@ != "c"@, "a"@ != "d"@, "a"@ != "s"@, "a"@ != "h"@, "a"@ != "bh"@, "a"@ != "b"@,
        "c"@ != "d"@, "c"@ != "s"@, "c"@ != "h"@, "c"@ != "bh"@, "c"@ != "b"@,
        "d"@ != "s"@, "d"@ != "h"@, "d"@ != "bh"@, "d"@ != "b"@,
        "s"@ != "h"@, "s"@ != "bh"@, "s"@ != "b"@,
        "h"@ != "bh"@, "h"@ != "b"@,
        "bh"@ != "b"@,
{
    reveal_strlit("v");
    reveal_strlit("a");
    reveal_strlit("c");
    reveal_strlit("d");
    reveal_strlit("s");
    reveal_strlit("h");
    reveal_strlit("bh");
    reveal_strlit("b");
    assert("v"@[0] == 'v' && "a"@[0] == 'a' && "c"@[0] == 'c' && "d"@[0] == 'd');
    assert("s"@[0] == 's' && "h"@[0] == 'h' && "b"@[0] == 'b' && "bh"@[0] == 'b');
    assert("bh"@.len() == 2 && "b"@.len() == 1);
}

/// Reads the tags of a DKIM-Signature value (with or without its
/// "DKIM-Signature:" name in front) into its fields.
fn parse_dkim_signature_header(value: &str) -> (r: Result<DkimSignatureFields, DkimError>)
    requires
        prefix_cut_ok(trim(value@)),
    ensures
        r matches Ok(f) && f.from_tags(signature_tags(value@)),
{
    match read_signature_fields(value) {
        Some(f) => Ok(f),
        None => {
            assert(false);
            Err(DkimError::BadSignatureField)
        },
    }
}

/// Whether cutting the "dkim-signature:" name off the trimmed value `value`,
/// when its lowercase starts with it, falls on a character boundary.
fn signature_prefix_cut_ok(value: &str) -> (b: bool)
    ensures
        b == prefix_cut_ok(trim(value@)),
{
    let raw = chars_of(value);
    let t = trim_chars(&raw);
    let t_str = string_from(&t);
    let lower = to_lowercase(t_str.as_str());
    let lower_chars = chars_of(lower.as_str());
    let prefix = chars_of("dkim-signature:");
    if starts_with_chars(&lower_chars, &prefix) {
        chars_in_bytes_of(&t, 15).is_some()
    } else {
        true
    }
}

/// The fields of a DKIM-Signature value, or `None` when cutting off its
/// "dkim-signature:" name would split a character.
fn read_signature_fields(value: &str) -> (r: Option<DkimSignatureFields>)
    ensures
        r is Some == prefix_cut_ok(trim(value@)),
        r matches Some(f) ==> f.from_tags(signature_tags(value@)),
{
    let mut fields = DkimSignatureFields { v: None, a: None, c: None, d: None, s: None, h: None, bh: None, b: None };
    let raw = chars_of(value);
    let t = trim_chars(&raw);
    let t_str = string_from(&t);
    let lower = to_lowercase(t_str.as_str());
    let lower_chars = chars_of(lower.as_str());
    let prefix = chars_of("dkim-signature:");
    let v = if starts_with_chars(&lower_chars, &prefix) {
        match chars_in_bytes_of(&t, 15) {
            Some(k) => {
                let rest = sub_chars(&t, k, t.len());
                assert(rest@ =~= t@.skip(k as int));
                rest
            },
            None => {
                return None;
            },
        }
    } else {
        copy_chars(&t)
    };
    assert(v@ == tag_text(trim(value@)));
    let parts = split_chars(&v, ';');
    let ghost pv = views(parts@);
    let mut i: usize = 0;
    assert(fields.from_tags(sig_tags(pv.take(0))));
    while i < parts.len()
        invariant
            i <= parts.len(),
            pv == views(parts@),
            fields.from_tags(sig_tags(pv.take(i as int))),
        decreases parts.len() - i,
    {
        assert(pv.take(i + 1).drop_last() =~= pv.take(i as int));
        assert(pv.take(i + 1).last() == parts@[i as int]@);
        let part = trim_chars(&parts[i]);
        if part.len() > 0 {
            match find_char_in(&part, '=') {
                Some(eq) => {
                    proof {
                        lemma_find_char(part@, '=');
                    }
                    let k = sub_chars(&part, 0, eq);
                    let val_chars = sub_chars(&part, eq + 1, part.len());
                    assert(k@ =~= part@.take(eq as int));
                    assert(val_chars@ =~= part@.skip(eq + 1));
                    let val = string_from(&val_chars);
                    let ks = string_from(&k);
                    proof {
                        lemma_tag_names_distinct();
                    }
                    let ghost m = sig_tags(pv.take(i + 1));
                    assert(m == sig_tags(pv.take(i as int)).insert(k@, val@));
                    if str_eq(ks.as_str(), "v") {
                        fields.v = Some(val);
                    } else if str_eq(ks.as_str(), "a") {
                        fields.a = Some(val);
                    } else if str_eq(ks.as_str(), "c") {
                        fields.c = Some(val);
                    } else if str_eq(ks.as_str(), "d") {
                        fields.d = Some(val);
                    } else if str_eq(ks.as_str(), "s") {
                        fields.s = Some(val);
                    } else if str_eq(ks.as_str(), "h") {
                        fields.h = Some(val);
                    } else if str_eq(ks.as_str(), "bh") {
                        fields.bh = Some(val);
                    } else if str_eq(ks.as_str(), "b") {
                        fields.b = Some(val);
                    }
                    assert(fields.from_tags(m));
                },
                None => {},
            }
        } else {
            proof {
                lemma_find_char(part@, '=');
            }
        }
        i = i + 1;
    }
    assert(pv.take(parts.len() as int) =~= pv);
    Some(fields)
}

/// A header field under relaxed canonicalization: "lowercased-name: value",
/// the value with CRLFs removed, space/tab runs collapsed and trimmed.
pub open spec fn relaxed_header(name: Seq<char>, value: Seq<char>) -> Seq<char> {
    lowercase(name) + ": "@ + trim(collapse_runs(replace_crlf(value, Seq::<char>::empty()), |c: char| is_sp_tab(c)))
}

/// Canonicalizes one header field under the relaxed rules: the name
/// lowercased, CRLFs removed from the value, runs of spaces and tabs collapsed
/// into one space, the value trimmed, and ": " between name and value.
pub fn canonicalize_header_relaxed(name: &str, value: &str) -> (r: String)
    ensures
        r@ == relaxed_header(name@, value@),
{
    let name_l = to_lowercase(name);
    let v = chars_of(value);
    let empty: Vec<char> = Vec::new();
    let no_crlf = replace_crlf_chars(&v, &empty);
    let out = collapse_sp_tab(&no_crlf);
    let t = trim_chars(&out);
    let mut r = name_l;
    r.append(": ");
    let ts = string_from(&t);
    r.append(ts.as_str());
    r
}

/// Line endings normalized: CRLF and lone CR become LF.
pub open spec fn normalize_newlines(body: Seq<char>) -> Seq<char> {
    replace_char(replace_crlf(body, "\n"@), '\r', '\n')
}

/// Lines joined with CRLF and ended with CRLF; nothing for no lines.
pub open spec fn crlf_lines(ls: Seq<Seq<char>>) -> Seq<char> {
    if ls.len() == 0 {
        Seq::<char>::empty()
    } else {
        join(ls, "\r\n"@) + "\r\n"@
    }
}

/// The simple canonical body: line endings normalized, trailing empty lines
/// removed, every line ended with CRLF.
pub open spec fn simple_body(body: Seq<char>) -> Seq<char> {
    crlf_lines(drop_trailing_empty(split(normalize_newlines(body), '\n')))
}

/// A line of the body under relaxed canonicalization: space/tab runs
/// collapsed, trailing whitespace removed.
pub open spec fn relaxed_line(l: Seq<char>) -> Seq<char> {
    trim_end(collapse_runs(l, |c: char| is_sp_tab(c)))
}

/// The relaxed canonical body: line endings normalized, each line relaxed,
/// trailing empty lines removed, every line ended with CRLF.
pub open spec fn relaxed_body(body: Seq<char>) -> Seq<char> {
    crlf_lines(drop_trailing_empty(split(normalize_newlines(body), '\n').map_values(|l: Seq<char>| relaxed_line(l))))
}

/// The normalized lines of `body`.
fn normalized_lines(body: &str) -> (r: Vec<Vec<char>>)
    ensures
        views(r@) == split(normalize_newlines(body@), '\n'),
{
    let v = chars_of(body);
    let lf = chars_of("\n");
    let a = replace_crlf_chars(&v, &lf);
    let b = replace_char_chars(&a, '\r', '\n');
    split_chars(&b, '\n')
}

/// Lines joined with CRLF and ended with CRLF.
fn crlf_lines_of(ls: &Vec<Vec<char>>) -> (r: String)
    ensures
        r@ == crlf_lines(views(ls@)),
{
    if ls.len() == 0 {
        String::new()
    } else {
        let sep = chars_of("\r\n");
        let mut j = join_chars(ls, &sep);
        append_chars(&mut j, &sep);
        string_from(&j)
    }
}

/// Canonicalizes a body under the simple rules: CRLF and CR become line ends,
/// trailing empty lines are removed, and every remaining line ends with CRLF
/// (an empty body stays empty).
pub fn canonicalize_body_simple(body: &str) -> (r: String)
    ensures
        r@ == simple_body(body@),
{
    let mut lines = normalized_lines(body);
    drop_trailing_empty_lines(&mut lines);
    crlf_lines_of(&lines)
}

/// Canonicalizes a body under the relaxed rules: like the simple rules, with
/// runs of spaces and tabs in each line collapsed into one space and trailing
/// whitespace removed from each line.
pub fn canonicalize_body_relaxed(body: &str) -> (r: String)
    ensures
        r@ == relaxed_body(body@),
        relaxed_body(r@) == r@,
        relaxed_body_shape(r@),
{
    proof {
        lemma_relaxed_body_laws(body@);
    }
    let raw_lines = normalized_lines(body);
    let mut lines: Vec<Vec<char>> = Vec::new();
    let mut i: usize = 0;
    while i < raw_lines.len()
        invariant
            i <= raw_lines.len(),
            views(lines@) == views(raw_lines@).take(i as int).map_values(|l: Seq<char>| relaxed_line(l)),
        decreases raw_lines.len() - i,
    {
        let out = collapse_sp_tab(&raw_lines[i]);
        let t = trim_end_chars(&out);
        let ghost before = views(lines@);
        lines.push(t);
        assert(views(lines@) =~= before.push(relaxed_line(raw_lines@[i as int]@)));
        assert(views(raw_lines@).take(i + 1) =~= views(raw_lines@).take(i as int).push(raw_lines@[i as int]@));
        assert(views(lines@) =~= views(raw_lines@).take(i + 1).map_values(|l: Seq<char>| relaxed_line(l)));
        i = i + 1;
    }
    assert(views(raw_lines@).take(raw_lines.len() as int) =~= views(raw_lines@));
    drop_trailing_empty_lines(&mut lines);
    crlf_lines_of(&lines)
}

/// The body canonicalized by the body type `body_can`: relaxed for "relaxed",
/// simple otherwise.
pub open spec fn canonical_body(body: Seq<char>, body_can: Seq<char>) -> Seq<char> {
    if body_can == "relaxed"@ {
        relaxed_body(body)
    } else {
        simple_body(body)
    }
}

/// The body hash: Base64 of the SHA-256 digest of the UTF-8 canonical body.
pub open spec fn body_hash(body: Seq<char>, body_can: Seq<char>) -> Seq<char> {
    base64_encode(sha256(encode_utf8(canonical_body(body, body_can))))
}

/// The body hash (`bh=`) of `body` under body canonicalization `body_can`
/// ("simple", "relaxed"; anything else is treated as "simple").
pub fn compute_body_hash_b64(body: &str, body_can: &str) -> (r: String)
    ensures
        r@ == body_hash(body@, body_can@),
{
    let canonical = if str_eq(body_can, "relaxed") {
        canonicalize_body_relaxed(body)
    } else {
        canonicalize_body_simple(body)
    };
    let digest = sha256_digest(canonical.as_str().as_bytes());
    base64_encode_bytes(digest.as_slice())
}

/// The index of the last header field whose name equals `name` ignoring ASCII case.
pub open spec fn last_header(h: Seq<(Seq<char>, Seq<char>)>, name: Seq<char>) -> Option<int>
    decreases h.len(),
{
    if h.len() == 0 {
        None
    } else if eq_ignore_ascii_case(h.last().0, name) {
        Some(h.len() - 1)
    } else {
        last_header(h.drop_last(), name)
    }
}

/// A found field is in range and has the name asked for.
pub proof fn lemma_last_header_found(h: Seq<(Seq<char>, Seq<char>)>, name: Seq<char>)
    ensures
        last_header(h, name) matches Some(i) ==> 0 <= i < h.len() && eq_ignore_ascii_case(h[i].0, name),
    decreases h.len(),
{
    if h.len() > 0 && !eq_ignore_ascii_case(h.last().0, name) {
        lemma_last_header_found(h.drop_last(), name);
    }
}

/// The byte length at which a DKIM-Signature value is cut to empty its
/// signature: just after the first "b=" of its lowercase, if there is one.
pub open spec fn b_cut(s: Seq<char>) -> Option<nat> {
    match find_pair(lowercase(s), 'b', '=') {
        Some(ci) => Some(utf8_len(lowercase(s).take(ci)) + 2),
        None => None,
    }
}

/// Whether cutting `s` at `b_cut(s)` (`String::truncate`) falls on a character
/// boundary, or leaves `s` as it is.
pub open spec fn cut_ok(s: Seq<char>) -> bool {
    match b_cut(s) {
        Some(n) => n >= utf8_len(s) || chars_in_bytes(s, n) is Some,
        None => true,
    }
}

/// A DKIM-Signature value with its signature emptied: cut just after the
/// first "b=" (found in its lowercase).
pub open spec fn without_signature(s: Seq<char>) -> Seq<char> {
    match b_cut(s) {
        Some(n) => if n >= utf8_len(s) {
            s
        } else {
            s.take(chars_in_bytes(s, n)->0)
        },
        None => s,
    }
}

/// The entry of one signed header field: a DKIM-Signature field has its
/// signature emptied; relaxed canonicalization under "relaxed", otherwise
/// "name: value\r\n".
pub open spec fn signed_entry(name: Seq<char>, value: Seq<char>, header_can: Seq<char>) -> Seq<char> {
    let v = if eq_ignore_ascii_case(name, "DKIM-Signature"@) {
        without_signature(value)
    } else {
        value
    };
    if header_can == "relaxed"@ {
        relaxed_header(name, v)
    } else {
        name + ": "@ + v + "\r\n"@
    }
}

/// The signed header block: for each wanted name, in order, the entry of the
/// last field with that name; names with no field are skipped.
pub open spec fn signed_headers(h: Seq<(Seq<char>, Seq<char>)>, want: Seq<Seq<char>>, header_can: Seq<char>) -> Seq<char>
    decreases want.len(),
{
    if want.len() == 0 {
        Seq::<char>::empty()
    } else {
        signed_headers(h, want.drop_last(), header_can) + match last_header(h, want.last()) {
            Some(i) => signed_entry(h[i].0, h[i].1, header_can),
            None => Seq::<char>::empty(),
        }
    }
}

/// Whether every DKIM-Signature field that the block takes can be cut
/// without splitting a character.
pub open spec fn signed_headers_defined(h: Seq<(Seq<char>, Seq<char>)>, want: Seq<Seq<char>>) -> bool {
    forall|k: int|
        0 <= k < want.len() ==> (#[trigger] last_header(h, want[k]) matches Some(i) ==> (
        eq_ignore_ascii_case(h[i].0, "DKIM-Signature"@) ==> cut_ok(h[i].1)))
}

/// The names of a colon-separated header list, each trimmed.
pub open spec fn wanted_names(list: Seq<char>) -> Seq<Seq<char>> {
    split(list, ':').map_values(|n: Seq<char>| trim(n))
}

/// The value with its signature emptied, or `None` when the cut would split a character.
fn cut_signature(value: &String) -> (r: Option<String>)
    ensures
        r is Some == cut_ok(value@),
        r matches Some(v) ==> v@ == without_signature(value@),
{
    let lower = to_lowercase(value.as_str());
    let lower_chars = chars_of(lower.as_str());
    let chars = chars_of(value.as_str());
    match find_pair_in(&lower_chars, 'b', '=') {
        Some(ci) => {
            proof {
                lemma_find_pair(lower_chars@, 'b', '=');
            }
            let pos = utf8_len_of_prefix(&lower_chars, ci) + 2;
            let total = utf8_len_of_prefix(&chars, chars.len());
            assert(chars@.take(chars.len() as int) =~= chars@);
            if pos >= total {
                Some(value.clone())
            } else {
                match chars_in_bytes_of(&chars, pos) {
                    Some(k) => {
                        let t = sub_chars(&chars, 0, k);
                        assert(t@ =~= chars@.take(k as int));
                        Some(string_from(&t))
                    },
                    None => None,
                }
            }
        },
        None => Some(value.clone()),
    }
}

/// The trimmed names of a colon-separated header list.
fn wanted_names_of(list: &str) -> (r: Vec<Vec<char>>)
    ensures
        views(r@) == wanted_names(list@),
{
    let v = chars_of(list);
    let parts = split_chars(&v, ':');
    let mut r: Vec<Vec<char>> = Vec::new();
    let mut i: usize = 0;
    while i < parts.len()
        invariant
            i <= parts.len(),
            views(parts@) == split(list@, ':'),
            views(r@) == views(parts@).take(i as int).map_values(|n: Seq<char>| trim(n)),
        decreases parts.len() - i,
    {
        let t = trim_chars(&parts[i]);
        let ghost old_r = views(r@);
        r.push(t);
        assert(views(r@) =~= old_r.push(trim(parts@[i as int]@)));
        assert(views(parts@).take(i + 1) =~= views(parts@).take(i as int).push(parts@[i as int]@));
        assert(views(r@) =~= views(parts@).take(i + 1).map_values(|n: Seq<char>| trim(n)));
        i = i + 1;
    }
    assert(views(parts@).take(parts.len() as int) =~= views(parts@));
    r
}

/// The index of the last field named `name`, ignoring ASCII case.
fn find_last_header(h: &[(String, String)], name: &Vec<char>) -> (r: Option<usize>)
    ensures
        r matches Some(i) ==> last_header(header_views(h@), name@) == Some(i as int) && i < h@.len(),
        r is None ==> last_header(header_views(h@), name@) is None,
{
    let ghost hv = header_views(h@);
    let mut k: usize = h.len();
    assert(hv.take(k as int) =~= hv);
    while k > 0
        invariant
            k <= h@.len(),
            hv == header_views(h@),
            last_header(hv, name@) == last_header(hv.take(k as int), name@),
        decreases k,
    {
        assert(hv.take(k as int).drop_last() =~= hv.take(k - 1));
        assert(hv.take(k as int).last() == hv[k - 1]);
        let key = chars_of(h[k - 1].0.as_str());
        if eq_ignore_ascii_case_chars(&key, name) {
            return Some(k - 1);
        }
        k = k - 1;
    }
    None
}

/// The signed header block as `build_signed_headers_string` makes it, or
/// `None` when a DKIM-Signature field it takes cannot be cut without
/// splitting a character.
pub fn try_build_signed_headers_string(
    headers: &[(String, String)],
    _dkim_index: usize,
    h_list: &str,
    header_can: &str,
) -> (r: Option<String>)
    ensures
        r is Some == signed_headers_defined(header_views(headers@), wanted_names(h_list@)),
        r matches Some(s) ==> s@ == signed_headers(header_views(headers@), wanted_names(h_list@), header_can@),
{
    let ghost hv = header_views(headers@);
    let want = wanted_names_of(h_list);
    let ghost wv = views(want@);
    let relaxed = str_eq(header_can, "relaxed");
    let dkim_name = chars_of("DKIM-Signature");
    let mut out = String::new();
    let mut i: usize = 0;
    while i < want.len()
        invariant
            i <= want.len(),
            hv == header_views(headers@),
            wv == views(want@),
            wv == wanted_names(h_list@),
            relaxed == (header_can@ == "relaxed"@),
            dkim_name@ == "DKIM-Signature"@,
            out@ == signed_headers(hv, wv.take(i as int), header_can@),
            signed_headers_defined(hv, wv.take(i as int)),
        decreases want.len() - i,
    {
        assert(wv.take(i + 1).drop_last() =~= wv.take(i as int));
        assert(wv.take(i + 1).last() == want@[i as int]@);
        match find_last_header(headers, &want[i]) {
            Some(j) => {
                proof {
                    lemma_last_header_found(hv, want@[i as int]@);
                }
                let hname = &headers[j].0;
                let hvalue = &headers[j].1;
                let hname_chars = chars_of(hname.as_str());
                let is_dkim = eq_ignore_ascii_case_chars(&hname_chars, &dkim_name);
                let v = if is_dkim {
                    match cut_signature(hvalue) {
                        Some(c) => c,
                        None => {
                            assert(!signed_headers_defined(hv, wv)) by {
                                assert(last_header(hv, wv[i as int]) == Some(j as int));
                            }
                            return None;
                        },
                    }
                } else {
                    hvalue.clone()
                };
                if relaxed {
                    let e = canonicalize_header_relaxed(hname.as_str(), v.as_str());
                    out.append(e.as_str());
                } else {
                    out.append(hname.as_str());
                    out.append(": ");
                    out.append(v.as_str());
                    out.append("\r\n");
                }
            },
            None => {},
        }
        assert(signed_headers_defined(hv, wv.take(i + 1))) by {
            assert forall|k: int| 0 <= k < wv.take(i + 1).len() implies (#[trigger] last_header(hv, wv.take(i + 1)[k]) matches Some(jj) ==> (
                eq_ignore_ascii_case(hv[jj].0, "DKIM-Signature"@) ==> cut_ok(hv[jj].1))) by {
                if k < i {
                    assert(wv.take(i + 1)[k] == wv.take(i as int)[k]);
                }
            }
        }
        i = i + 1;
    }
    assert(wv.take(want.len() as int) =~= wv);
    Some(out)
}

/// The signed header block: for each name of the colon-separated `h_list`, in
/// order, the last field with that name (ignoring ASCII case), a
/// DKIM-Signature field with its signature emptied, under relaxed
/// canonicalization for "relaxed" and as "name: value\r\n" otherwise; names
/// with no field are skipped.
pub fn build_signed_headers_string(
    headers: &[(String, String)],
    _dkim_index: usize,
    h_list: &str,
    header_can: &str,
) -> (r: String)
    requires
        signed_headers_defined(header_views(headers@), wanted_names(h_list@)),
    ensures
        r@ == signed_headers(header_views(headers@), wanted_names(h_list@), header_can@),
{
    match try_build_signed_headers_string(headers, _dkim_index, h_list, header_can) {
        Some(s) => s,
        None => {
            assert(false);
            String::new()
        },
    }
}

/// The key that PEM text `pem` holds: as PKCS#1, or else as SubjectPublicKeyInfo.
pub open spec fn pem_public_key(pem: Seq<char>) -> Result<(Seq<u8>, Seq<u8>), Seq<char>> {
    match pkcs1_pem_public_key(pem) {
        Ok(k) => Ok(k),
        Err(_) => spki_pem_public_key(pem),
    }
}

/// The header canonicalization named by the `c=` value `c`: the part before
/// the first '/'.
pub open spec fn header_can_of(c: Seq<char>) -> Seq<char> {
    split(c, '/')[0]
}

/// The body canonicalization named by the `c=` value `c`: the part after the
/// first '/', or "simple" when there is none.
pub open spec fn body_can_of(c: Seq<char>) -> Seq<char> {
    if split(c, '/').len() > 1 {
        split(c, '/')[1]
    } else {
        "simple"@
    }
}

/// The `c=` value of the tags, "relaxed/simple" when absent.
pub open spec fn canon_of(tags: Map<Seq<char>, Seq<char>>) -> Seq<char> {
    if tags.contains_key("c"@) {
        tags["c"@]
    } else {
        "relaxed/simple"@
    }
}

/// Whether verifying `raw` reaches no cut that would split a character: the
/// "dkim-signature:" name of the first DKIM-Signature value, and the
/// signatures emptied in the signed header block.
pub open spec fn rsa_verification_defined(raw: Seq<char>) -> bool {
    match mail_headers(raw) {
        Err(_) => true,
        Ok(hs) => match mail_body(raw) {
            Err(_) => true,
            Ok(body) => match first_header(hs, "DKIM-Signature"@) {
                None => true,
                Some(i) => {
                    &&& prefix_cut_ok(trim(hs[i].1))
                    &&& {
                        let tags = signature_tags(hs[i].1);
                        let c = canon_of(tags);
                        (tags.contains_key("bh"@) && tags.contains_key("b"@) && tags.contains_key("h"@)
                            && body_hash(body, body_can_of(c)) == tags["bh"@]) ==> signed_headers_defined(
                            hs,
                            wanted_names(tags["h"@]),
                        )
                    }
                },
            },
        },
    }
}

/// Whether `r` is what verifying raw message `raw` with PEM key `pem` gives.
pub open spec fn rsa_verification_result(raw: Seq<char>, pem: Seq<char>, r: Result<(), DkimError>) -> bool {
    match mail_headers(raw) {
        Err(e) => r matches Err(DkimError::Other(m)) && m@ == "mailparse: "@ + e.1,
        Ok(hs) => match mail_body(raw) {
            Err(e) => r matches Err(DkimError::Other(m)) && m@ == "body parse: "@ + e.1,
            Ok(body) => match first_header(hs, "DKIM-Signature"@) {
                None => r matches Err(DkimError::NoDkimSignature),
                Some(i) => {
                    let tags = signature_tags(hs[i].1);
                    if !tags.contains_key("bh"@) || !tags.contains_key("b"@) || !tags.contains_key("h"@) {
                        r matches Err(DkimError::BadSignatureField)
                    } else {
                        let c = canon_of(tags);
                        if body_hash(body, body_can_of(c)) != tags["bh"@] {
                            r matches Err(DkimError::BodyHashMismatch)
                        } else {
                            let signed = signed_headers(hs, wanted_names(tags["h"@]), header_can_of(c));
                            match base64_decode(tags["b"@]) {
                                Err(m) => r matches Err(DkimError::Other(t)) && t@ == "base64 decode sig: "@ + m,
                                Ok(sig) => match pem_public_key(pem) {
                                    Err(m) => r matches Err(DkimError::PublicKeyParse(t)) && t@ == m,
                                    Ok(key) => if pkcs1v15_sha256_verifies(
                                        key.0,
                                        key.1,
                                        sha256(encode_utf8(signed)),
                                        sig,
                                    ) {
                                        r is Ok
                                    } else {
                                        r matches Err(DkimError::SignatureVerifyFailed)
                                    },
                                },
                            }
                        }
                    }
                },
            },
        },
    }
}

/// Verification of `raw` with PEM key `pem`, or `None` where verification
/// would have to cut a value inside a character.
fn verify_checked(raw_email: &str, pubkey_pem: &str) -> (r: Option<Result<(), DkimError>>)
    ensures
        r is Some == rsa_verification_defined(raw_email@),
        r matches Some(v) ==> rsa_verification_result(raw_email@, pubkey_pem@, v),
{
    let headers = match parse_headers(raw_email) {
        Ok(h) => h,
        Err(e) => {
            let mut m = String::from_str("mailparse: ");
            m.append(e.1.as_str());
            return Some(Err(DkimError::Other(m)));
        },
    };
    let body = match parse_body(raw_email) {
        Ok(b) => b,
        Err(e) => {
            let mut m = String::from_str("body parse: ");
            m.append(e.1.as_str());
            return Some(Err(DkimError::Other(m)));
        },
    };
    let ghost hs = header_views(headers@);
    let dkim_name = chars_of("DKIM-Signature");
    let dkim_idx = match find_first_header(&headers, &dkim_name) {
        Some(i) => i,
        None => {
            return Some(Err(DkimError::NoDkimSignature));
        },
    };
    proof {
        lemma_first_header_found(hs, dkim_name@);
    }
    let dkim_raw = headers[dkim_idx].1.as_str();
    if !signature_prefix_cut_ok(dkim_raw) {
        return None;
    }
    let dkim_fields = match parse_dkim_signature_header(dkim_raw) {
        Ok(f) => f,
        Err(e) => {
            return Some(Err(e));
        },
    };
    let ghost tags = signature_tags(hs[dkim_idx as int].1);
    let bh = match dkim_fields.bh {
        Some(v) => v,
        None => {
            return Some(Err(DkimError::BadSignatureField));
        },
    };
    let b_sig = match dkim_fields.b {
        Some(v) => v,
        None => {
            return Some(Err(DkimError::BadSignatureField));
        },
    };
    let h_list = match dkim_fields.h {
        Some(v) => v,
        None => {
            return Some(Err(DkimError::BadSignatureField));
        },
    };
    let c = match dkim_fields.c {
        Some(v) => v,
        None => String::from_str("relaxed/simple"),
    };
    assert(c@ == canon_of(tags));
    let c_chars = chars_of(c.as_str());
    let parts = split_chars(&c_chars, '/');
    proof {
        lemma_split_nonempty(c@, '/');
    }
    let header_can = string_from(&parts[0]);
    let body_can = if parts.len() > 1 {
        string_from(&parts[1])
    } else {
        String::from_str("simple")
    };

    if compute_body_hash_b64(body.as_str(), body_can.as_str()) != bh {
        return Some(Err(DkimError::BodyHashMismatch));
    }

    let signed_headers_str = match try_build_signed_headers_string(headers.as_slice(), dkim_idx, h_list.as_str(), header_can.as_str()) {
        Some(s) => s,
        None => {
            return None;
        },
    };

    let sig_bytes = match base64_decode_str(b_sig.as_str()) {
        Ok(v) => v,
        Err(e) => {
            let mut m = String::from_str("base64 decode sig: ");
            m.append(e.as_str());
            return Some(Err(DkimError::Other(m)));
        },
    };

    let pubkey = match public_key_from_pkcs1_pem(pubkey_pem) {
        Ok(k) => k,
        Err(_) => match public_key_from_spki_pem(pubkey_pem) {
            Ok(k) => k,
            Err(e) => {
                return Some(Err(DkimError::PublicKeyParse(e)));
            },
        },
    };

    let digest = sha256_digest(signed_headers_str.as_str().as_bytes());
    if verify_pkcs1v15_sha256(&pubkey, digest.as_slice(), sig_bytes.as_slice()) {
        Some(Ok(()))
    } else {
        Some(Err(DkimError::SignatureVerifyFailed))
    }
}

/// Verifies the first DKIM-Signature (RSA-SHA256) of a raw message with an RSA
/// public key in PKCS#1 or SubjectPublicKeyInfo PEM form: the signature needs
/// `bh=`, `b=` and `h=`; the body hash must match the body canonicalized by
/// `c=` ("relaxed/simple" when absent); the signature must sign the SHA-256
/// digest of the signed header block.
pub fn verify_dkim_signature_rsa(raw_email: &str, pubkey_pem: &str) -> (r: Result<(), DkimError>)
    requires
        rsa_verification_defined(raw_email@),
    ensures
        rsa_verification_result(raw_email@, pubkey_pem@, r),
{
    match verify_checked(raw_email, pubkey_pem) {
        Some(r) => r,
        None => {
            assert(false);
            Err(DkimError::BadSignatureField)
        },
    }
}

/// Verifies as `verify_dkim_signature_rsa` does where that is defined, and
/// gives `None` for a message whose verification would cut its DKIM-Signature
/// value inside a character.
pub fn try_verify_dkim_signature_rsa(raw_email: &str, pubkey_pem: &str) -> (r: Option<Result<(), DkimError>>)
    ensures
        r is Some == rsa_verification_defined(raw_email@),
        r matches Some(v) ==> rsa_verification_result(raw_email@, pubkey_pem@, v),
{
    verify_checked(raw_email, pubkey_pem)
}

} // verus!

verus! {

/// The shape of a line of a relaxed canonical body: no CR, LF or tab, no two
/// spaces side by side, and no whitespace at its end.
pub open spec fn relaxed_line_shape(l: Seq<char>) -> bool {
    &&& forall|i: int| 0 <= i < l.len() ==> (#[trigger] l[i]) != '\r' && l[i] != '\n' && l[i] != '\t'
    &&& forall|i: int| 0 <= i < l.len() - 1 ==> !((#[trigger] l[i]) == ' ' && l[i + 1] == ' ')
    &&& l.len() == 0 || !is_ws(l.last())
}

/// The shape of a relaxed canonical body: empty, or ended by exactly one CRLF
/// (no empty line at its end); no tab; no two spaces side by side; no space
/// before a line end.
pub open spec fn relaxed_body_shape(r: Seq<char>) -> bool {
    &&& r.len() == 0 || (r.len() >= 3 && r[r.len() - 2] == '\r' && r[r.len() - 1] == '\n' && r[r.len() - 3] != '\n')
    &&& forall|i: int| 0 <= i < r.len() ==> #[trigger] r[i] != '\t'
    &&& forall|i: int| 0 <= i < r.len() - 1 ==> !((#[trigger] r[i]) == ' ' && (r[i + 1] == ' ' || r[i + 1] == '\r'))
}

/// A relaxed line of a text without CR or LF has the relaxed line shape.
proof fn lemma_relaxed_line_shape(x: Seq<char>)
    requires
        forall|i: int| 0 <= i < x.len() ==> (#[trigger] x[i]) != '\r' && x[i] != '\n',
    ensures
        relaxed_line_shape(relaxed_line(x)),
{
    let ws = |c: char| is_sp_tab(c);
    let p = |c: char| c != '\r' && c != '\n' && c != '\t';
    lemma_collapse_runs_shape(x, ws, p);
    let y = collapse_runs(x, ws);
    lemma_trim_end_prefix(y);
    let z = trim_end(y);
    assert(relaxed_line(x) == z);
    assert forall|i: int| 0 <= i < z.len() implies (#[trigger] z[i]) != '\r' && z[i] != '\n' && z[i] != '\t' by {
        assert(z[i] == y[i]);
        assert(p(y[i]));
    }
    assert forall|i: int| 0 <= i < z.len() - 1 implies !((#[trigger] z[i]) == ' ' && z[i + 1] == ' ') by {
        assert(z[i] == y[i] && z[i + 1] == y[i + 1]);
        assert(!(ws(y[i]) && ws(y[i + 1])));
    }
}

/// A line of the relaxed shape is its own relaxed line.
proof fn lemma_relaxed_line_fixed(l: Seq<char>)
    requires
        relaxed_line_shape(l),
    ensures
        relaxed_line(l) == l,
{
    let ws = |c: char| is_sp_tab(c);
    assert forall|i: int| 0 <= i < l.len() && ws(#[trigger] l[i]) implies l[i] == ' ' by {}
    assert forall|i: int| 0 <= i < l.len() - 1 implies !(ws(#[trigger] l[i]) && ws(l[i + 1])) by {}
    lemma_collapse_runs_fixed(l, ws);
    assert(collapse_runs(l, ws) == l);
    if l.len() > 0 {
        assert(!is_ws(l.last()));
    }
}

/// The lines of relaxed shape, the last one not empty, ended with CRLF: the
/// text is its own relaxed body, ends with one CRLF, and holds no tab, no two
/// spaces side by side and no space before a CR.
proof fn lemma_crlf_lines_laws(d: Seq<Seq<char>>)
    requires
        forall|k: int| 0 <= k < d.len() ==> relaxed_line_shape(#[trigger] d[k]),
        d.len() == 0 || d.last().len() > 0,
    ensures
        relaxed_body(crlf_lines(d)) == crlf_lines(d),
        relaxed_body_shape(crlf_lines(d)),
{
    reveal_strlit("\r\n");
    reveal_strlit("\n");
    let r = crlf_lines(d);
    let e = Seq::<char>::empty();
    if d.len() == 0 {
        assert(r == e);
        assert(replace_crlf(e, "\n"@) == e);
        assert(normalize_newlines(e) =~= e);
        let pcs = split(e, '\n');
        assert(pcs == seq![e]);
        assert(relaxed_line(e) == e) by {
            assert(collapse_runs(e, |c: char| is_sp_tab(c)) == e);
        }
        let m = pcs.map_values(|l: Seq<char>| relaxed_line(l));
        assert(m =~= seq![e]);
        assert(m.drop_last() =~= Seq::<Seq<char>>::empty());
        assert(drop_trailing_empty(m) == drop_trailing_empty(m.drop_last()));
        assert(drop_trailing_empty(m) =~= Seq::<Seq<char>>::empty());
    } else {
        let sep = crlf_sep();
        assert("\r\n"@ =~= sep);
        assert("\n"@ =~= seq!['\n']);
        let d2 = d.push(e);
        assert(d2.drop_last() =~= d);
        assert(join(d2, sep) == join(d, sep) + sep + e);
        assert(r =~= join(d2, sep));
        assert forall|k: int| 0 <= k < d2.len() implies relaxed_line_shape(#[trigger] d2[k]) by {
            if k < d.len() {
                assert(d2[k] == d[k]);
            }
        }
        // no tab
        let no_tab = |c: char| c != '\t';
        assert forall|k: int, i: int| 0 <= k < d2.len() && 0 <= i < d2[k].len() implies no_tab(#[trigger] d2[k][i]) by {
            assert(relaxed_line_shape(d2[k]));
        }
        lemma_join_chars(d2, sep, no_tab);
        // neighbours
        let ok = |x: char, y: char| !(x == ' ' && (y == ' ' || y == '\r'));
        assert forall|k: int| 0 <= k < d2.len() implies pairs_ok(#[trigger] d2[k], ok) by {
            let l = d2[k];
            assert(relaxed_line_shape(l));
            assert forall|i: int| 0 <= i < l.len() - 1 implies ok(#[trigger] l[i], l[i + 1]) by {
                assert(l[i + 1] != '\r');
            }
        }
        assert forall|k: int| 0 <= k < d2.len() && d2[k].len() > 0 implies ok((#[trigger] d2[k]).last(), sep[0]) && ok(sep.last(), d2[k][0]) by {
            assert(relaxed_line_shape(d2[k]));
            assert(!is_ws(d2[k].last()));
        }
        assert(pairs_ok(sep, ok));
        lemma_join_pairs(d2, sep, ok);
        // the end
        let l = d.last();
        assert(d[d.len() - 1] == l);
        assert(relaxed_line_shape(l));
        let jd = join(d, sep);
        if d.len() > 1 {
            assert(jd == join(d.drop_last(), sep) + sep + l);
        }
        assert(jd[jd.len() - 1] == l[l.len() - 1]);
        assert(r =~= jd + sep);
        assert(r[r.len() - 3] == jd[jd.len() - 1]);
        // idempotence: the normalized text is the lines joined with LF
        assert forall|k: int, j: int| 0 <= k < d2.len() && 0 <= j < d2[k].len() implies #[trigger] d2[k][j] != '\r' by {
            assert(relaxed_line_shape(d2[k]));
        }
        lemma_replace_crlf_join(d2, "\n"@);
        let jn = join(d2, "\n"@);
        let no_cr = |c: char| c != '\r';
        assert forall|k: int, i: int| 0 <= k < d2.len() && 0 <= i < d2[k].len() implies no_cr(#[trigger] d2[k][i]) by {
            assert(relaxed_line_shape(d2[k]));
        }
        lemma_join_chars(d2, "\n"@, no_cr);
        assert(replace_char(jn, '\r', '\n') =~= jn);
        assert(normalize_newlines(r) == jn);
        assert forall|k: int, j: int| 0 <= k < d2.len() && 0 <= j < d2[k].len() implies #[trigger] d2[k][j] != '\n' by {
            assert(relaxed_line_shape(d2[k]));
        }
        lemma_split_join(d2, '\n');
        assert(split(normalize_newlines(r), '\n') == d2);
        assert forall|k: int| 0 <= k < d2.len() implies relaxed_line(#[trigger] d2[k]) == d2[k] by {
            lemma_relaxed_line_fixed(d2[k]);
        }
        let m = d2.map_values(|x: Seq<char>| relaxed_line(x));
        assert(m =~= d2);
        assert(drop_trailing_empty(d2) == drop_trailing_empty(d));
        assert(drop_trailing_empty(d) == d);
    }
}

/// The relaxed canonical body is its own relaxed body (canonicalizing twice
/// changes nothing); it is empty or ends with exactly one CRLF (no empty
/// line at its end); and it holds no tab, no two spaces side by side and no
/// space before a line end.
pub proof fn lemma_relaxed_body_laws(body: Seq<char>)
    ensures
        relaxed_body(relaxed_body(body)) == relaxed_body(body),
        relaxed_body_shape(relaxed_body(body)),
{
    let n = normalize_newlines(body);
    assert forall|i: int| 0 <= i < n.len() implies (#[trigger] n[i]) != '\r' by {}
    let no_cr = |c: char| c != '\r';
    lemma_split_pieces(n, '\n', no_cr);
    let pcs = split(n, '\n');
    let m = pcs.map_values(|l: Seq<char>| relaxed_line(l));
    assert forall|k: int| 0 <= k < m.len() implies relaxed_line_shape(#[trigger] m[k]) by {
        let x = pcs[k];
        assert forall|i: int| 0 <= i < x.len() implies (#[trigger] x[i]) != '\r' && x[i] != '\n' by {
            assert(no_cr(pcs[k][i]));
        }
        lemma_relaxed_line_shape(x);
    }
    lemma_drop_trailing_empty_prefix(m);
    let d = drop_trailing_empty(m);
    assert forall|k: int| 0 <= k < d.len() implies relaxed_line_shape(#[trigger] d[k]) by {
        assert(d[k] == m[k]);
    }
    lemma_crlf_lines_laws(d);
}

} // verus!

verus! {

/// Simple body canonicalization keeps every character of every line, spaces
/// and tabs included, and only settles the line ends: lines without CR or LF
/// (the last one not empty), ended with LF or with CRLF, come out ended with
/// CRLF and otherwise unchanged; a text already so ended is left as it is.
pub proof fn lemma_simple_body_keeps_lines(d: Seq<Seq<char>>)
    requires
        d.len() > 0,
        d.last().len() > 0,
        forall|k: int, j: int| 0 <= k < d.len() && 0 <= j < d[k].len() ==> #[trigger] d[k][j] != '\r' && d[k][j] != '\n',
    ensures
        simple_body(join(d, "\n"@)) == join(d, "\r\n"@) + "\r\n"@,
        simple_body(join(d, "\r\n"@) + "\r\n"@) == join(d, "\r\n"@) + "\r\n"@,
{
    reveal_strlit("\r\n");
    reveal_strlit("\n");
    let e = Seq::<char>::empty();
    assert("\n"@ =~= seq!['\n']);
    assert("\r\n"@ =~= crlf_sep());
    let out = join(d, "\r\n"@) + "\r\n"@;
    assert(drop_trailing_empty(d) == d);
    assert(crlf_lines(d) == out);
    let no_cr = |c: char| c != '\r';
    assert forall|k: int, i: int| 0 <= k < d.len() && 0 <= i < d[k].len() implies no_cr(#[trigger] d[k][i]) by {}
    assert forall|k: int, j: int| 0 <= k < d.len() && 0 <= j < d[k].len() implies #[trigger] d[k][j] != '\r' by {}
    assert forall|k: int, j: int| 0 <= k < d.len() && 0 <= j < d[k].len() implies #[trigger] d[k][j] != '\n' by {}
    // LF-ended lines
    let jn = join(d, "\n"@);
    lemma_join_chars(d, "\n"@, no_cr);
    lemma_replace_crlf_none(jn, "\n"@);
    assert(replace_char(jn, '\r', '\n') =~= jn);
    assert(normalize_newlines(jn) == jn);
    lemma_split_join(d, '\n');
    assert(split(normalize_newlines(jn), '\n') == d);
    // CRLF-ended lines
    let d2 = d.push(e);
    assert(d2.drop_last() =~= d);
    assert(join(d2, crlf_sep()) == join(d, crlf_sep()) + crlf_sep() + e);
    assert(out =~= join(d2, crlf_sep()));
    assert forall|k: int, j: int| 0 <= k < d2.len() && 0 <= j < d2[k].len() implies #[trigger] d2[k][j] != '\r' by {
        assert(d2[k] == d[k]);
    }
    assert forall|k: int, j: int| 0 <= k < d2.len() && 0 <= j < d2[k].len() implies #[trigger] d2[k][j] != '\n' by {
        assert(d2[k] == d[k]);
    }
    assert forall|k: int, i: int| 0 <= k < d2.len() && 0 <= i < d2[k].len() implies no_cr(#[trigger] d2[k][i]) by {
        assert(d2[k] == d[k]);
    }
    lemma_replace_crlf_join(d2, "\n"@);
    let jn2 = join(d2, "\n"@);
    lemma_join_chars(d2, "\n"@, no_cr);
    assert(replace_char(jn2, '\r', '\n') =~= jn2);
    assert(normalize_newlines(out) == jn2);
    lemma_split_join(d2, '\n');
    assert(drop_trailing_empty(d2) == drop_trailing_empty(d));
}

} // verus!

verus! {

/// Once the body hash matches, the RSA check is made over the signed header
/// block canonicalized by the header part of the `c=` tag (the text before
/// its first '/'; "relaxed" when `c=` is absent): verification succeeds
/// exactly when the signature signs the SHA-256 digest of that block.
pub proof fn lemma_signature_over_c_header_block(
    raw: Seq<char>,
    pem: Seq<char>,
    r: Result<(), DkimError>,
    hs: Seq<(Seq<char>, Seq<char>)>,
    body: Seq<char>,
    i: int,
    c: Seq<char>,
    sig: Seq<u8>,
    key: (Seq<u8>, Seq<u8>),
)
    requires
        rsa_verification_result(raw, pem, r),
        mail_headers(raw) == Ok::<Seq<(Seq<char>, Seq<char>)>, (Seq<char>, Seq<char>)>(hs),
        mail_body(raw) == Ok::<Seq<char>, (Seq<char>, Seq<char>)>(body),
        first_header(hs, "DKIM-Signature"@) == Some(i),
        0 <= i < hs.len(),
        signature_tags(hs[i].1).contains_key("bh"@),
        signature_tags(hs[i].1).contains_key("b"@),
        signature_tags(hs[i].1).contains_key("h"@),
        c == (if signature_tags(hs[i].1).contains_key("c"@) {
            signature_tags(hs[i].1)["c"@]
        } else {
            "relaxed/simple"@
        }),
        body_hash(body, body_can_of(c)) == signature_tags(hs[i].1)["bh"@],
        base64_decode(signature_tags(hs[i].1)["b"@]) == Ok::<Seq<u8>, Seq<char>>(sig),
        pem_public_key(pem) == Ok::<(Seq<u8>, Seq<u8>), Seq<char>>(key),
    ensures
        r is Ok <==> pkcs1v15_sha256_verifies(
            key.0,
            key.1,
            sha256(encode_utf8(signed_headers(hs, wanted_names(signature_tags(hs[i].1)["h"@]), split(c, '/')[0]))),
            sig,
        ),
{
}

/// Under any header canonicalization other than "relaxed", the signed header
/// block takes, for each wanted name whose last field is not a
/// DKIM-Signature, that field as it is: "name: value" and CRLF, the name in
/// its own case and the value untouched.
pub proof fn lemma_simple_header_entry(
    hs: Seq<(Seq<char>, Seq<char>)>,
    want: Seq<Seq<char>>,
    n: Seq<char>,
    header_can: Seq<char>,
    j: int,
)
    requires
        header_can != "relaxed"@,
        last_header(hs, n) == Some(j),
        !eq_ignore_ascii_case(hs[j].0, "DKIM-Signature"@),
    ensures
        signed_headers(hs, want.push(n), header_can) == signed_headers(hs, want, header_can) + hs[j].0 + ": "@
            + hs[j].1 + "\r\n"@,
{
    assert(want.push(n).drop_last() =~= want);
}

} // verus!
