//! Canonicalization helpers used when signing and verifying: whitespace
//! collapsing, relaxed body and header-value canonicalization, and the
//! canonical block of chosen header fields.

use vstd::prelude::*;
use crate::dkim::text::{chars_of, collapse_runs, collapse_ws_chars, drop_trailing_empty, drop_trailing_empty_lines, is_ws, join, join_chars, lines, lines_chars, lowercase, replace_char, replace_char_chars, str_eq, string_from, string_views, to_lowercase, trim, trim_chars, trim_end, trim_end_chars, views};
use crate::dkim::text::{split, strip_cr};
use crate::dkim::text_facts::{crlf_sep, lemma_drop_trailing_empty_prefix, lemma_join_chars, lemma_split_join_crlf, lemma_split_pieces, lemma_trim_end_prefix};
use crate::dkim::mail::{header_views, parse_body, parse_headers, mail_body, mail_headers, first_header, find_first_header, lemma_first_header_found};

verus! {

/// `s` with every run of whitespace (Unicode `White_Space`) replaced by one space.
pub open spec fn collapse_ws(s: Seq<char>) -> Seq<char> {
    collapse_runs(s, |c: char| is_ws(c))
}

/// Collapses all consecutive whitespace into a single space (relaxed
/// canonicalization): every maximal run of whitespace becomes one space.
pub fn collapse_whitespace(input: &str) -> (r: String)
    ensures
        r@ == collapse_ws(input@),
{
    let v = chars_of(input);
    let c = collapse_ws_chars(&v);
    string_from(&c)
}

/// The characters of `s` that are not whitespace, in order.
pub open spec fn non_ws_chars(s: Seq<char>) -> Seq<char> {
    s.filter(|c: char| !is_ws(c))
}

/// Whether the only whitespace in `t` is the space, and no two whitespace
/// characters stand next to each other.
pub open spec fn single_spaced(t: Seq<char>) -> bool {
    &&& forall|i: int| 0 <= i < t.len() && is_ws(#[trigger] t[i]) ==> t[i] == ' '
    &&& forall|i: int| 0 <= i < t.len() - 1 ==> !(is_ws(#[trigger] t[i]) && is_ws(t[i + 1]))
}

/// The collapsed text is single-spaced, and ends in whitespace exactly when `s` does.
proof fn lemma_collapse_ws_shape(s: Seq<char>)
    ensures
        single_spaced(collapse_ws(s)),
        s.len() > 0 ==> collapse_ws(s).len() > 0 && is_ws(collapse_ws(s).last()) == is_ws(s.last()),
        non_ws_chars(collapse_ws(s)) == non_ws_chars(s),
    decreases s.len(),
{
    reveal(Seq::filter);
    if s.len() > 0 {
        let p = s.drop_last();
        lemma_collapse_ws_shape(p);
        let rp = collapse_ws(p);
        let r = collapse_ws(s);
        assert(r == collapse_runs(s, |c: char| is_ws(c)));
        if !is_ws(s.last()) {
            assert(r == rp.push(s.last()));
            assert(r.drop_last() =~= rp);
            assert(forall|i: int| 0 <= i < rp.len() ==> r[i] == rp[i]);
        } else if s.len() >= 2 && is_ws(s[s.len() - 2]) {
            assert(r == rp);
            assert(p.last() == s[s.len() - 2]);
        } else {
            assert(r == rp.push(' '));
            assert(r.drop_last() =~= rp);
            assert(forall|i: int| 0 <= i < rp.len() ==> r[i] == rp[i]);
            if s.len() >= 2 {
                assert(p.last() == s[s.len() - 2]);
            }
        }
    }
}

/// Collapsing changes nothing in single-spaced text.
proof fn lemma_collapse_ws_fixed(t: Seq<char>)
    requires
        single_spaced(t),
    ensures
        collapse_ws(t) == t,
    decreases t.len(),
{
    if t.len() > 0 {
        let p = t.drop_last();
        assert(single_spaced(p)) by {
            assert forall|i: int| 0 <= i < p.len() - 1 implies !(is_ws(#[trigger] p[i]) && is_ws(p[i + 1])) by {
                assert(p[i] == t[i] && p[i + 1] == t[i + 1]);
            }
        }
        lemma_collapse_ws_fixed(p);
        if is_ws(t.last()) {
            if t.len() >= 2 {
                assert(!(is_ws(t[t.len() - 2]) && is_ws(t[t.len() - 1])));
            }
            assert(t.last() == ' ');
        }
        assert(collapse_ws(t) =~= t);
    }
}

/// Collapsing whitespace keeps every other character, in order; the only
/// whitespace it leaves is single spaces, never two side by side; and
/// collapsing a second time changes nothing.
pub proof fn lemma_collapse_whitespace_laws(s: Seq<char>)
    ensures
        non_ws_chars(collapse_ws(s)) == non_ws_chars(s),
        single_spaced(collapse_ws(s)),
        collapse_ws(collapse_ws(s)) == collapse_ws(s),
{
    lemma_collapse_ws_shape(s);
    lemma_collapse_ws_fixed(collapse_ws(s));
}

/// A line of the body under relaxed canonicalization: trailing whitespace
/// removed, tabs turned into spaces.
pub open spec fn relaxed_line(l: Seq<char>) -> Seq<char> {
    replace_char(trim_end(l), '\t', ' ')
}

/// The relaxed canonical body: each line relaxed, trailing empty lines
/// removed, lines joined with CRLF.
pub open spec fn relaxed_body(body: Seq<char>) -> Seq<char> {
    join(drop_trailing_empty(lines(body).map_values(|l: Seq<char>| relaxed_line(l))), "\r\n"@)
}

/// The body canonicalized under `canon_type`: relaxed for "relaxed", unchanged otherwise.
pub open spec fn canonical_body(body: Seq<char>, canon_type: Seq<char>) -> Seq<char> {
    if canon_type == "relaxed"@ {
        relaxed_body(body)
    } else {
        body
    }
}

/// The relaxed canonical body, over character vectors.
pub(crate) fn relaxed_body_chars(body: &Vec<char>) -> (r: Vec<char>)
    ensures
        r@ == relaxed_body(body@),
{
    let ls = lines_chars(body);
    let mut out: Vec<Vec<char>> = Vec::new();
    let mut i: usize = 0;
    while i < ls.len()
        invariant
            i <= ls.len(),
            views(out@) == views(ls@).take(i as int).map_values(|l: Seq<char>| relaxed_line(l)),
        decreases ls.len() - i,
    {
        let t = trim_end_chars(&ls[i]);
        let l = replace_char_chars(&t, '\t', ' ');
        let ghost before = views(out@);
        out.push(l);
        assert(views(out@) =~= before.push(relaxed_line(ls@[i as int]@)));
        assert(views(ls@).take(i + 1) =~= views(ls@).take(i as int).push(ls@[i as int]@));
        assert(views(out@) =~= views(ls@).take(i + 1).map_values(|l: Seq<char>| relaxed_line(l)));
        i = i + 1;
    }
    assert(views(ls@).take(ls.len() as int) =~= views(ls@));
    drop_trailing_empty_lines(&mut out);
    let sep = chars_of("\r\n");
    join_chars(&out, &sep)
}

/// Canonicalizes the body: "relaxed" trims trailing whitespace on each line,
/// turns tabs into spaces, removes trailing empty lines and joins the lines
/// with CRLF; any other type returns the body as it is.
pub fn canonicalize_body(body: &str, canon_type: &str) -> (r: String)
    ensures
        r@ == canonical_body(body@, canon_type@),
        canon_type@ == "relaxed"@ ==> relaxed_body(r@) == r@ && relaxed_body_shape(r@),
{
    proof {
        lemma_relaxed_body_laws(body@);
    }
    if str_eq(canon_type, "relaxed") {
        let v = chars_of(body);
        let c = relaxed_body_chars(&v);
        string_from(&c)
    } else {
        body.to_owned()
    }
}

/// A header value under relaxed canonicalization: trimmed, whitespace runs collapsed.
pub open spec fn relaxed_value(v: Seq<char>) -> Seq<char> {
    collapse_ws(trim(v))
}

/// Canonicalizes a single header value under the relaxed rules.
pub fn canonicalize_header_value(value: &str) -> (r: String)
    ensures
        r@ == relaxed_value(value@),
{
    let v = chars_of(value);
    let t = trim_chars(&v);
    let c = collapse_ws_chars(&t);
    string_from(&c)
}

/// The block of the header fields named in `names`, in order, from the fields
/// `hs`: for each name the first field with that name (ignoring ASCII case), as
/// "lowercased-name:value\r\n", the value relaxed when `relaxed` holds; or
/// `missing` followed by the first name that has no field.
pub open spec fn header_block(
    hs: Seq<(Seq<char>, Seq<char>)>,
    names: Seq<Seq<char>>,
    relaxed: bool,
    missing: Seq<char>,
) -> Result<Seq<char>, Seq<char>>
    decreases names.len(),
{
    if names.len() == 0 {
        Ok(Seq::<char>::empty())
    } else {
        match header_block(hs, names.drop_last(), relaxed, missing) {
            Err(e) => Err(e),
            Ok(prev) => match first_header(hs, names.last()) {
                None => Err(missing + names.last()),
                Some(i) => {
                    let v = if relaxed {
                        relaxed_value(hs[i].1)
                    } else {
                        hs[i].1
                    };
                    Ok(prev + lowercase(names.last()) + ":"@ + v + "\r\n"@)
                },
            },
        }
    }
}

/// The canonical block of the fields `names` under `canon_type`: values relaxed
/// for "relaxed"; a missing field is reported as "Missing header: <name>".
pub open spec fn canonical_headers(
    hs: Seq<(Seq<char>, Seq<char>)>,
    names: Seq<Seq<char>>,
    canon_type: Seq<char>,
) -> Result<Seq<char>, Seq<char>> {
    header_block(hs, names, canon_type == "relaxed"@, "Missing header: "@)
}

/// An error for a prefix of the names is the error for all of them.
pub proof fn lemma_header_block_err_prefix(
    hs: Seq<(Seq<char>, Seq<char>)>,
    names: Seq<Seq<char>>,
    relaxed: bool,
    missing: Seq<char>,
    k: int,
)
    requires
        0 <= k <= names.len(),
        header_block(hs, names.take(k), relaxed, missing) is Err,
    ensures
        header_block(hs, names, relaxed, missing) == header_block(hs, names.take(k), relaxed, missing),
    decreases names.len() - k,
{
    if k < names.len() {
        assert(names.take(k + 1).drop_last() =~= names.take(k));
        lemma_header_block_err_prefix(hs, names, relaxed, missing, k + 1);
    } else {
        assert(names.take(k) =~= names);
    }
}

/// The views of a list of string slices.
pub open spec fn str_views(v: Seq<&str>) -> Seq<Seq<char>> {
    v.map_values(|s: &str| s@)
}

/// The header block of the fields `names` from parsed fields `headers`.
pub(crate) fn header_block_of(
    headers: &Vec<(String, String)>,
    names: &Vec<String>,
    relaxed: bool,
    missing: &str,
) -> (r: Result<String, String>)
    ensures
        match header_block(header_views(headers@), string_views(names@), relaxed, missing@) {
            Ok(s) => r matches Ok(t) && t@ == s,
            Err(e) => r matches Err(t) && t@ == e,
        },
{
    let ghost hv = header_views(headers@);
    let ghost nv = string_views(names@);
    let mut result = String::new();
    let mut i: usize = 0;
    while i < names.len()
        invariant
            i <= names@.len(),
            hv == header_views(headers@),
            nv == string_views(names@),
            header_block(hv, nv.take(i as int), relaxed, missing@) == Ok::<Seq<char>, Seq<char>>(result@),
        decreases names.len() - i,
    {
        let name: &str = names[i].as_str();
        let name_chars = chars_of(name);
        assert(nv.take(i + 1).drop_last() =~= nv.take(i as int));
        assert(nv.take(i + 1).last() == name@);
        match find_first_header(headers, &name_chars) {
            Some(j) => {
                proof {
                    lemma_first_header_found(hv, name@);
                }
                let val = if relaxed {
                    canonicalize_header_value(headers[j].1.as_str())
                } else {
                    headers[j].1.clone()
                };
                let lower = to_lowercase(name);
                result.append(lower.as_str());
                result.append(":");
                result.append(val.as_str());
                result.append("\r\n");
            },
            None => {
                let mut msg = String::from_str(missing);
                msg.append(name);
                assert(header_block(hv, nv.take(i + 1), relaxed, missing@) == Err::<Seq<char>, Seq<char>>(msg@));
                proof {
                    lemma_header_block_err_prefix(hv, nv, relaxed, missing@, i + 1);
                }
                return Err(msg);
            },
        }
        i = i + 1;
    }
    assert(nv.take(names@.len() as int) =~= nv);
    Ok(result)
}

/// The names held in `names`, as strings.
fn owned_names(names: &[&str]) -> (r: Vec<String>)
    ensures
        string_views(r@) == str_views(names@),
{
    let mut r: Vec<String> = Vec::new();
    let mut i: usize = 0;
    while i < names.len()
        invariant
            i <= names@.len(),
            string_views(r@) == str_views(names@).take(i as int),
        decreases names.len() - i,
    {
        let n: &str = names[i];
        let o = n.to_owned();
        let ghost old_r = string_views(r@);
        r.push(o);
        assert(string_views(r@) =~= old_r.push(n@));
        assert(names@[i as int] == n);
        assert(str_views(names@).take(i + 1) =~= str_views(names@).take(i as int).push(names@[i as int]@));
        assert(string_views(r@) =~= str_views(names@).take(i + 1));
        i = i + 1;
    }
    assert(str_views(names@).take(names@.len() as int) =~= str_views(names@));
    r
}

/// Canonicalizes the header fields `header_list` of a raw message, in order,
/// each as "lowercased-name:value\r\n"; "relaxed" also canonicalizes the
/// values. Fails when the message does not parse (with the parser's message)
/// or a field is missing.
pub fn canonicalize_headers(raw_email: &str, header_list: &[&str], canon_type: &str) -> (r: Result<String, String>)
    ensures
        match mail_headers(raw_email@) {
            Err(e) => r matches Err(t) && t@ == e.0,
            Ok(hs) => match canonical_headers(hs, str_views(header_list@), canon_type@) {
                Ok(s) => r matches Ok(t) && t@ == s,
                Err(e) => r matches Err(t) && t@ == e,
            },
        },
{
    let headers = match parse_headers(raw_email) {
        Ok(h) => h,
        Err(e) => {
            return Err(e.0);
        },
    };
    let names = owned_names(header_list);
    let relaxed = str_eq(canon_type, "relaxed");
    header_block_of(&headers, &names, relaxed, "Missing header: ")
}

/// The body of a raw message; fails, with the parser's message, when the
/// message or its body cannot be decoded.
pub fn extract_body(raw_email: &str) -> (r: Result<String, String>)
    ensures
        match mail_body(raw_email@) {
            Ok(b) => r matches Ok(s) && s@ == b,
            Err(e) => r matches Err(t) && t@ == e.0,
        },
{
    match parse_body(raw_email) {
        Ok(b) => Ok(b),
        Err(e) => Err(e.0),
    }
}

} // verus!

verus! {

/// The shape of a line of the relaxed body: no LF, no tab, and no whitespace
/// at its end.
pub open spec fn relaxed_line_shape(l: Seq<char>) -> bool {
    &&& forall|i: int| 0 <= i < l.len() ==> (#[trigger] l[i]) != '\n' && l[i] != '\t'
    &&& l.len() == 0 || !is_ws(l.last())
}

/// The shape of the relaxed body: the CRLF-joined lines of itself, each of the
/// line shape (so the pieces between CRLFs end in no whitespace); no tab; and
/// no whitespace at its end (in particular no CRLF there).
pub open spec fn relaxed_body_shape(r: Seq<char>) -> bool {
    &&& r == join(lines(r), "\r\n"@)
    &&& forall|k: int| 0 <= k < lines(r).len() ==> relaxed_line_shape(#[trigger] lines(r)[k])
    &&& forall|i: int| 0 <= i < r.len() ==> #[trigger] r[i] != '\t'
    &&& r.len() == 0 || !is_ws(r.last())
}

/// A relaxed line of a text without LF has the line shape.
proof fn lemma_relaxed_line_shape(x: Seq<char>)
    requires
        forall|i: int| 0 <= i < x.len() ==> (#[trigger] x[i]) != '\n',
    ensures
        relaxed_line_shape(relaxed_line(x)),
{
    lemma_trim_end_prefix(x);
    let t = trim_end(x);
    let z = relaxed_line(x);
    assert(z == replace_char(t, '\t', ' '));
    assert forall|i: int| 0 <= i < z.len() implies (#[trigger] z[i]) != '\n' && z[i] != '\t' by {
        assert(t[i] == x[i]);
    }
    if z.len() > 0 {
        assert(z.last() == t.last());
    }
}

/// A line of the line shape is its own relaxed line.
proof fn lemma_relaxed_line_fixed(l: Seq<char>)
    requires
        relaxed_line_shape(l),
    ensures
        relaxed_line(l) == l,
{
    if l.len() > 0 {
        assert(!is_ws(l.last()));
    }
    assert(trim_end(l) == l);
    assert(replace_char(l, '\t', ' ') =~= l);
}

/// Lines of the line shape, the last one not empty, joined with CRLF: the
/// text is its own relaxed body, its lines are those lines, and it has the
/// relaxed body shape.
proof fn lemma_joined_lines_laws(d: Seq<Seq<char>>)
    requires
        forall|k: int| 0 <= k < d.len() ==> relaxed_line_shape(#[trigger] d[k]),
        d.len() == 0 || d.last().len() > 0,
    ensures
        lines(join(d, "\r\n"@)) == d,
        relaxed_body(join(d, "\r\n"@)) == join(d, "\r\n"@),
        relaxed_body_shape(join(d, "\r\n"@)),
{
    reveal_strlit("\r\n");
    let sep = crlf_sep();
    assert("\r\n"@ =~= sep);
    let r = join(d, sep);
    let e = Seq::<char>::empty();
    if d.len() == 0 {
        assert(r == e);
        assert(split(e, '\n') == seq![e]);
        assert(lines(r) =~= Seq::<Seq<char>>::empty());
    } else {
        assert forall|k: int, j: int| 0 <= k < d.len() && 0 <= j < d[k].len() implies #[trigger] d[k][j] != '\n' by {
            assert(relaxed_line_shape(d[k]));
        }
        lemma_split_join_crlf(d);
        let p = split(r, '\n');
        let ended = p.drop_last().map_values(|l: Seq<char>| strip_cr(l));
        assert forall|k: int| 0 <= k < ended.len() implies #[trigger] ended[k] == d[k] by {
            assert(p[k] == d[k].push('\r'));
            assert(d[k].push('\r').drop_last() =~= d[k]);
        }
        assert(p.last() == d.last());
        assert(lines(r) == ended.push(p.last()));
        assert(lines(r) =~= d);
        assert forall|k: int| 0 <= k < d.len() implies relaxed_line(#[trigger] d[k]) == d[k] by {
            lemma_relaxed_line_fixed(d[k]);
        }
        assert(d.map_values(|l: Seq<char>| relaxed_line(l)) =~= d);
        assert(drop_trailing_empty(d) == d);
        let no_tab = |c: char| c != '\t';
        assert forall|k: int, i: int| 0 <= k < d.len() && 0 <= i < d[k].len() implies no_tab(#[trigger] d[k][i]) by {
            assert(relaxed_line_shape(d[k]));
        }
        lemma_join_chars(d, sep, no_tab);
        let l = d.last();
        assert(d[d.len() - 1] == l);
        assert(relaxed_line_shape(l));
        if d.len() > 1 {
            assert(r == join(d.drop_last(), sep) + sep + l);
        }
        assert(r[r.len() - 1] == l[l.len() - 1]);
    }
}

/// The relaxed body of any body is its own relaxed body (canonicalizing twice
/// changes nothing), and has the relaxed body shape: its CRLF-separated lines
/// hold no LF and end in no whitespace, it holds no tab, and it ends in no
/// whitespace (so not with CRLF).
pub proof fn lemma_relaxed_body_laws(body: Seq<char>)
    ensures
        relaxed_body(relaxed_body(body)) == relaxed_body(body),
        relaxed_body_shape(relaxed_body(body)),
{
    let p = split(body, '\n');
    let any = |c: char| true;
    lemma_split_pieces(body, '\n', any);
    crate::dkim::text::lemma_split_nonempty(body, '\n');
    let ls = lines(body);
    let ended = p.drop_last().map_values(|l: Seq<char>| strip_cr(l));
    assert(ls == ended || ls == ended.push(p.last()));
    let m = ls.map_values(|l: Seq<char>| relaxed_line(l));
    assert forall|k: int| 0 <= k < m.len() implies relaxed_line_shape(#[trigger] m[k]) by {
        let x = ls[k];
        assert(m[k] == relaxed_line(x));
        if k < p.len() - 1 {
            assert(x == ended[k]);
            assert(x == strip_cr(p[k]));
            assert forall|i: int| 0 <= i < x.len() implies (#[trigger] x[i]) != '\n' by {
                assert(x[i] == p[k][i]);
            }
        } else {
            assert(x == p.last());
            assert(p.last() == p[p.len() - 1]);
            assert forall|i: int| 0 <= i < x.len() implies (#[trigger] x[i]) != '\n' by {
                assert(x[i] == p[p.len() - 1][i]);
            }
        }
        lemma_relaxed_line_shape(x);
    }
    lemma_drop_trailing_empty_prefix(m);
    let d = drop_trailing_empty(m);
    assert forall|k: int| 0 <= k < d.len() implies relaxed_line_shape(#[trigger] d[k]) by {
        assert(d[k] == m[k]);
    }
    lemma_joined_lines_laws(d);
}

} // verus!
