//! Raw messages as the `mailparse` crate reads them: the list of header
//! fields and the decoded body. What the parser returns is named by a
//! specification function of the raw message.

use vstd::prelude::*;
use crate::dkim::text::{eq_ignore_ascii_case, eq_ignore_ascii_case_chars, chars_of};

verus! {

/// The header fields of raw message `raw`, in order, each as (name, value)
/// with the value unfolded and decoded; or, when `raw` does not parse, the
/// parse error rendered with `Display` and with `Debug`.
pub uninterp spec fn mail_headers(raw: Seq<char>) -> Result<Seq<(Seq<char>, Seq<char>)>, (Seq<char>, Seq<char>)>;

/// The decoded body of raw message `raw`; or, when the message does not parse
/// or its body cannot be decoded, the error rendered with `Display` and with
/// `Debug`.
pub uninterp spec fn mail_body(raw: Seq<char>) -> Result<Seq<char>, (Seq<char>, Seq<char>)>;

/// The views of header fields held as strings.
pub open spec fn header_views(h: Seq<(String, String)>) -> Seq<(Seq<char>, Seq<char>)> {
    h.map_values(|p: (String, String)| (p.0@, p.1@))
}

/// `mailparse::parse_mail` and `ParsedMail::get_headers`: the header fields of
/// `raw` as (`get_key`, `get_value`) pairs, or the parse error rendered with
/// `Display` and with `Debug`.
#[verifier::external_body]
pub(crate) fn parse_headers(raw: &str) -> (r: Result<Vec<(String, String)>, (String, String)>)
    ensures
        match mail_headers(raw@) {
            Ok(h) => r matches Ok(v) && header_views(v@) == h,
            Err(e) => r matches Err(t) && t.0@ == e.0 && t.1@ == e.1,
        },
{
    match mailparse::parse_mail(raw.as_bytes()) {
        Ok(parsed) => Ok(parsed.get_headers().into_iter().map(|h| (h.get_key(), h.get_value())).collect()),
        Err(e) => Err((e.to_string(), format!("{:?}", e))),
    }
}

/// `mailparse::parse_mail` and `ParsedMail::get_body`: the decoded body of
/// `raw`, or the error of either call rendered with `Display` and with `Debug`.
#[verifier::external_body]
pub(crate) fn parse_body(raw: &str) -> (r: Result<String, (String, String)>)
    ensures
        match mail_body(raw@) {
            Ok(b) => r matches Ok(s) && s@ == b,
            Err(e) => r matches Err(t) && t.0@ == e.0 && t.1@ == e.1,
        },
{
    let body = match mailparse::parse_mail(raw.as_bytes()) {
        Ok(parsed) => parsed.get_body(),
        Err(e) => Err(e),
    };
    match body {
        Ok(b) => Ok(b),
        Err(e) => Err((e.to_string(), format!("{:?}", e))),
    }
}

/// The index of the first header field whose name equals `name` ignoring
/// ASCII case, if any (`MailHeaderMap::get_first_header`).
pub open spec fn first_header(h: Seq<(Seq<char>, Seq<char>)>, name: Seq<char>) -> Option<int>
    decreases h.len(),
{
    if h.len() == 0 {
        None
    } else {
        match first_header(h.drop_last(), name) {
            Some(i) => Some(i),
            None => if eq_ignore_ascii_case(h.last().0, name) {
                Some(h.len() - 1)
            } else {
                None
            },
        }
    }
}

/// Once the first match lies in a prefix, it is the first match of the whole.
pub proof fn lemma_first_header_prefix(h: Seq<(Seq<char>, Seq<char>)>, name: Seq<char>, k: int)
    requires
        0 <= k <= h.len(),
        first_header(h.take(k), name) is Some,
    ensures
        first_header(h, name) == first_header(h.take(k), name),
    decreases h.len() - k,
{
    if k < h.len() {
        assert(h.take(k + 1).drop_last() =~= h.take(k));
        lemma_first_header_prefix(h, name, k + 1);
    } else {
        assert(h.take(k) =~= h);
    }
}

/// A found header field is in range and has the name asked for.
pub proof fn lemma_first_header_found(h: Seq<(Seq<char>, Seq<char>)>, name: Seq<char>)
    ensures
        first_header(h, name) matches Some(i) ==> 0 <= i < h.len() && eq_ignore_ascii_case(h[i].0, name),
    decreases h.len(),
{
    if h.len() > 0 {
        lemma_first_header_found(h.drop_last(), name);
    }
}

/// The index of the first header field named `name`, ignoring ASCII case.
pub fn find_first_header(h: &Vec<(String, String)>, name: &Vec<char>) -> (r: Option<usize>)
    ensures
        r matches Some(i) ==> first_header(header_views(h@), name@) == Some(i as int) && i < h@.len(),
        r is None ==> first_header(header_views(h@), name@) is None,
{
    let ghost hv = header_views(h@);
    let mut i: usize = 0;
    while i < h.len()
        invariant
            i <= h.len(),
            hv == header_views(h@),
            first_header(hv.take(i as int), name@) is None,
        decreases h.len() - i,
    {
        assert(hv.take(i + 1).drop_last() =~= hv.take(i as int));
        let key = chars_of(h[i].0.as_str());
        if eq_ignore_ascii_case_chars(&key, name) {
            assert(hv.take(i + 1).last() == hv[i as int]);
            assert(first_header(hv.take(i + 1), name@) == Some(i as int));
            proof {
                lemma_first_header_prefix(hv, name@, i + 1);
            }
            return Some(i);
        }
        i = i + 1;
    }
    assert(hv.take(h.len() as int) =~= hv);
    None
}

} // verus!
