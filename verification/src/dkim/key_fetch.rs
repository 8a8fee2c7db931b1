//! Tag-value lists ("k=v; k2=v2") and the two computations around the DNS
//! lookup of a DKIM public key: the name to query, and the key in the TXT
//! records that come back.

use vstd::prelude::*;
use vstd::string::StringExecFns;
use crate::str_map::StrMap;
use crate::dkim::text::{chars_of, collapse_ws_chars, find_char, find_char_in, lemma_find_char, lowercase, replace_char, replace_char_chars, replace_crlf, replace_crlf_chars, split, split_chars, string_from, sub_chars, to_lowercase, trim, trim_chars, views};
use crate::dkim::utils::collapse_ws;
use crate::dkim::mail::{mail_headers, first_header, find_first_header, lemma_first_header_found, parse_headers, header_views};
use crate::dkim::errors::DkimError;

verus! {

/// A tag-value list read into a map from tag to value.
pub type TagMap = StrMap<String>;

/// The values of a tag map as character sequences.
pub open spec fn tag_view(m: Map<Seq<char>, String>) -> Map<Seq<char>, Seq<char>> {
    m.map_values(|v: String| v@)
}

/// The text of a tag-value list with line breaks turned into spaces and
/// whitespace runs collapsed.
pub open spec fn normalized_tags(s: Seq<char>) -> Seq<char> {
    collapse_ws(replace_char(replace_crlf(s, " "@), '\n', ' '))
}

/// The map read from the pieces `parts`, in order: each trimmed piece with an
/// '=' gives its lowercased, trimmed tag the trimmed text after the first '=';
/// a later piece with the same tag wins; pieces without '=' are skipped.
pub open spec fn tags_of_parts(parts: Seq<Seq<char>>) -> Map<Seq<char>, Seq<char>>
    decreases parts.len(),
{
    if parts.len() == 0 {
        Map::empty()
    } else {
        let m = tags_of_parts(parts.drop_last());
        let p = trim(parts.last());
        match find_char(p, '=') {
            Some(eq) => m.insert(lowercase(trim(p.take(eq))), trim(p.skip(eq + 1))),
            None => m,
        }
    }
}

/// The map of tags that the tag-value list `s` holds.
pub open spec fn tag_value_pairs(s: Seq<char>) -> Map<Seq<char>, Seq<char>> {
    tags_of_parts(split(normalized_tags(s), ';'))
}

/// Reads `key=value` pairs separated by `;`, tolerant to whitespace and line
/// breaks: tags are trimmed and lowercased, values trimmed, and a later pair
/// with the same tag replaces an earlier one.
pub fn parse_tag_value_pairs(s: &str) -> (map: TagMap)
    ensures
        tag_view(map@) == tag_value_pairs(s@),
{
    let v = chars_of(s);
    let space = chars_of(" ");
    let a = replace_crlf_chars(&v, &space);
    let b = replace_char_chars(&a, '\n', ' ');
    let norm = collapse_ws_chars(&b);
    let parts = split_chars(&norm, ';');
    let ghost pv = views(parts@);
    let mut map: TagMap = StrMap::new();
    let mut i: usize = 0;
    assert(tag_view(map@) =~= tags_of_parts(pv.take(0)));
    while i < parts.len()
        invariant
            i <= parts.len(),
            pv == views(parts@),
            tag_view(map@) == tags_of_parts(pv.take(i as int)),
        decreases parts.len() - i,
    {
        assert(pv.take(i + 1).drop_last() =~= pv.take(i as int));
        assert(pv.take(i + 1).last() == parts@[i as int]@);
        let p = trim_chars(&parts[i]);
        match find_char_in(&p, '=') {
            Some(eq) => {
                proof {
                    lemma_find_char(p@, '=');
                }
                let key_part = sub_chars(&p, 0, eq);
                assert(key_part@ =~= p@.take(eq as int));
                let key_trim = trim_chars(&key_part);
                let key_str = string_from(&key_trim);
                let key = to_lowercase(key_str.as_str());
                let val_part = sub_chars(&p, eq + 1, p.len());
                assert(val_part@ =~= p@.skip(eq + 1));
                let val_trim = trim_chars(&val_part);
                let val = string_from(&val_trim);
                let ghost before = map@;
                let ghost k = key@;
                let ghost vv = val;
                map.insert(key, val);
                assert(tag_view(map@) =~= tag_view(before).insert(k, vv@));
            },
            None => {},
        }
        i = i + 1;
    }
    assert(pv.take(parts.len() as int) =~= pv);
    map
}

/// Reads the parameters of a DKIM-Signature header value, e.g.
/// "v=1; a=rsa-sha256; d=example.com; s=brisbane;".
pub fn parse_dkim_header_params(header: &str) -> (map: TagMap)
    ensures
        tag_view(map@) == tag_value_pairs(header@),
{
    parse_tag_value_pairs(header)
}

/// The DNS name to query for the key of a DKIM-Signature value `value`:
/// "<selector>._domainkey.<domain>", or the key-fetch message for a missing tag.
pub open spec fn key_query_name(value: Seq<char>) -> Result<Seq<char>, Seq<char>> {
    let params = tag_value_pairs(value);
    if !params.contains_key("d"@) {
        Err("DKIM header missing 'd=' domain parameter."@)
    } else if !params.contains_key("s"@) {
        Err("DKIM header missing 's=' selector parameter."@)
    } else {
        Ok(params["s"@] + "._domainkey."@ + params["d"@])
    }
}

/// The DNS name under which the public key for the first DKIM-Signature of
/// `raw_email` is published: "<selector>._domainkey.<domain>". Fails when the
/// message does not parse (with the parser's message), has no DKIM-Signature,
/// or its signature lacks `d=` or `s=`.
pub fn dkim_key_query_name(raw_email: &str) -> (r: Result<String, DkimError>)
    ensures
        match mail_headers(raw_email@) {
            Err(e) => r matches Err(DkimError::DkimKeyFetch(m)) && m@ == e.0,
            Ok(hs) => match first_header(hs, "DKIM-Signature"@) {
                None => r matches Err(DkimError::DkimKeyFetch(m)) && m@ == "No DKIM-Signature header found in message."@,
                Some(i) => match key_query_name(hs[i].1) {
                    Ok(n) => r matches Ok(s) && s@ == n,
                    Err(e) => r matches Err(DkimError::DkimKeyFetch(m)) && m@ == e,
                },
            },
        },
{
    let headers = match parse_headers(raw_email) {
        Ok(h) => h,
        Err(e) => {
            return Err(DkimError::DkimKeyFetch(e.0));
        },
    };
    let ghost hs = header_views(headers@);
    let name = chars_of("DKIM-Signature");
    let idx = match find_first_header(&headers, &name) {
        Some(i) => i,
        None => {
            return Err(DkimError::DkimKeyFetch(String::from_str("No DKIM-Signature header found in message.")));
        },
    };
    proof {
        lemma_first_header_found(hs, name@);
    }
    let params = parse_dkim_header_params(headers[idx].1.as_str());
    let domain = match params.get("d") {
        Some(d) => d,
        None => {
            return Err(DkimError::DkimKeyFetch(String::from_str("DKIM header missing 'd=' domain parameter.")));
        },
    };
    let selector = match params.get("s") {
        Some(s) => s,
        None => {
            return Err(DkimError::DkimKeyFetch(String::from_str("DKIM header missing 's=' selector parameter.")));
        },
    };
    let mut dns_name = selector.clone();
    dns_name.append("._domainkey.");
    dns_name.append(domain.as_str());
    Ok(dns_name)
}

/// The text that invalid-UTF-8-tolerant decoding gives for `bytes`
/// (`String::from_utf8_lossy`).
pub uninterp spec fn utf8_lossy(bytes: Seq<u8>) -> Seq<char>;

/// `String::from_utf8_lossy`: the text of `bytes`, with invalid sequences
/// replaced by U+FFFD. What it returns is named `utf8_lossy`.
#[verifier::external_body]
pub(crate) fn from_utf8_lossy(bytes: &[u8]) -> (s: String)
    ensures
        s@ == utf8_lossy(bytes@),
{
    String::from_utf8_lossy(bytes).into_owned()
}

/// The text of one TXT record: its strings decoded and joined.
pub open spec fn txt_record_text(rec: Seq<Seq<u8>>) -> Seq<char>
    decreases rec.len(),
{
    if rec.len() == 0 {
        Seq::<char>::empty()
    } else {
        txt_record_text(rec.drop_last()) + utf8_lossy(rec.last())
    }
}

/// The views of the strings of a TXT record.
pub open spec fn record_views(rec: Seq<Vec<u8>>) -> Seq<Seq<u8>> {
    rec.map_values(|b: Vec<u8>| b@)
}

/// The views of TXT records.
pub open spec fn records_views(recs: Seq<Vec<Vec<u8>>>) -> Seq<Seq<Seq<u8>>> {
    recs.map_values(|r: Vec<Vec<u8>>| record_views(r@))
}

/// The `p=` value of the first record that has one, if any.
pub open spec fn first_public_key(recs: Seq<Seq<Seq<u8>>>) -> Option<Seq<char>>
    decreases recs.len(),
{
    if recs.len() == 0 {
        None
    } else {
        match first_public_key(recs.drop_last()) {
            Some(p) => Some(p),
            None => {
                let m = tag_value_pairs(txt_record_text(recs.last()));
                if m.contains_key("p"@) {
                    Some(m["p"@])
                } else {
                    None
                }
            },
        }
    }
}

/// Once a key is found among the first records, it is the key for all of them.
pub proof fn lemma_first_public_key_prefix(recs: Seq<Seq<Seq<u8>>>, k: int)
    requires
        0 <= k <= recs.len(),
        first_public_key(recs.take(k)) is Some,
    ensures
        first_public_key(recs) == first_public_key(recs.take(k)),
    decreases recs.len() - k,
{
    if k < recs.len() {
        assert(recs.take(k + 1).drop_last() =~= recs.take(k));
        lemma_first_public_key_prefix(recs, k + 1);
    } else {
        assert(recs.take(k) =~= recs);
    }
}

/// The text of a TXT record.
fn record_text(rec: &Vec<Vec<u8>>) -> (s: String)
    ensures
        s@ == txt_record_text(record_views(rec@)),
{
    let ghost rv = record_views(rec@);
    let mut s = String::new();
    let mut j: usize = 0;
    while j < rec.len()
        invariant
            j <= rec.len(),
            rv == record_views(rec@),
            s@ == txt_record_text(rv.take(j as int)),
        decreases rec.len() - j,
    {
        assert(rv.take(j + 1).drop_last() =~= rv.take(j as int));
        let part = from_utf8_lossy(rec[j].as_slice());
        s.append(part.as_str());
        j = j + 1;
    }
    assert(rv.take(rec.len() as int) =~= rv);
    s
}

/// The public key (`p=`) in the TXT records found for `dns_name`: the value
/// from the first record that has one, or the key-fetch error naming `dns_name`.
pub fn dkim_key_from_txt(records: &Vec<Vec<Vec<u8>>>, dns_name: &str) -> (r: Result<String, DkimError>)
    ensures
        match first_public_key(records_views(records@)) {
            Some(p) => r matches Ok(s) && s@ == p,
            None => r matches Err(DkimError::DkimKeyFetch(m)) && m@ == "No 'p=' public key found in TXT records for "@ + dns_name@ + "."@,
        },
{
    let ghost rv = records_views(records@);
    let mut i: usize = 0;
    while i < records.len()
        invariant
            i <= records.len(),
            rv == records_views(records@),
            first_public_key(rv.take(i as int)) is None,
        decreases records.len() - i,
    {
        assert(rv.take(i + 1).drop_last() =~= rv.take(i as int));
        assert(rv.take(i + 1).last() == record_views(records@[i as int]@));
        let joined = record_text(&records[i]);
        let params = parse_tag_value_pairs(joined.as_str());
        match params.get("p") {
            Some(p) => {
                proof {
                    lemma_first_public_key_prefix(rv, i + 1);
                }
                return Ok(p.clone());
            },
            None => {},
        }
        i = i + 1;
    }
    assert(rv.take(records.len() as int) =~= rv);
    let mut msg = String::from_str("No 'p=' public key found in TXT records for ");
    msg.append(dns_name);
    msg.append(".");
    Err(DkimError::DkimKeyFetch(msg))
}

} // verus!
