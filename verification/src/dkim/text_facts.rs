//! Facts about the text operations of `text`: what joining, splitting,
//! collapsing, trimming and replacing keep, and when they change nothing.
//! The canonicalization laws are proved from them.

use vstd::prelude::*;
use crate::dkim::text::{collapse_runs, drop_trailing_empty, is_ws, join, replace_crlf, split, trim_end};

verus! {

/// The line separator CR LF.
pub open spec fn crlf_sep() -> Seq<char> {
    seq!['\r', '\n']
}

/// Whether every pair of neighbouring characters of `s` satisfies `ok`.
pub open spec fn pairs_ok(s: Seq<char>, ok: spec_fn(char, char) -> bool) -> bool {
    forall|i: int| 0 <= i < s.len() - 1 ==> ok(#[trigger] s[i], s[i + 1])
}

/// Two texts whose own neighbours are fine, and whose meeting point is fine,
/// give a text whose neighbours are fine.
pub proof fn lemma_pairs_concat(a: Seq<char>, b: Seq<char>, ok: spec_fn(char, char) -> bool)
    requires
        pairs_ok(a, ok),
        pairs_ok(b, ok),
        a.len() > 0 && b.len() > 0 ==> ok(a.last(), b[0]),
    ensures
        pairs_ok(a + b, ok),
{
    let s = a + b;
    assert forall|i: int| 0 <= i < s.len() - 1 implies ok(#[trigger] s[i], s[i + 1]) by {
        if i < a.len() - 1 {
            assert(s[i] == a[i] && s[i + 1] == a[i + 1]);
        } else if i == a.len() - 1 {
            assert(s[i] == a.last() && s[i + 1] == b[0]);
        } else {
            assert(s[i] == b[i - a.len()] && s[i + 1] == b[i - a.len() + 1]);
        }
    }
}

/// Joined pieces are made only of characters of the pieces and of the separator.
pub proof fn lemma_join_chars(d: Seq<Seq<char>>, sep: Seq<char>, p: spec_fn(char) -> bool)
    requires
        forall|k: int, i: int| 0 <= k < d.len() && 0 <= i < d[k].len() ==> p(#[trigger] d[k][i]),
        forall|i: int| 0 <= i < sep.len() ==> p(#[trigger] sep[i]),
    ensures
        forall|i: int| 0 <= i < join(d, sep).len() ==> p(#[trigger] join(d, sep)[i]),
    decreases d.len(),
{
    if d.len() == 1 {
        assert forall|i: int| 0 <= i < join(d, sep).len() implies p(#[trigger] join(d, sep)[i]) by {
            assert(join(d, sep)[i] == d[0][i]);
        }
    } else if d.len() > 1 {
        let dp = d.drop_last();
        lemma_join_chars(dp, sep, p);
        let a = join(dp, sep);
        let l = d.last();
        assert(join(d, sep) == a + sep + l);
        assert forall|i: int| 0 <= i < join(d, sep).len() implies p(#[trigger] join(d, sep)[i]) by {
            if i < a.len() {
                assert(join(d, sep)[i] == a[i]);
            } else if i < a.len() + sep.len() {
                assert(join(d, sep)[i] == sep[i - a.len()]);
            } else {
                assert(join(d, sep)[i] == l[i - a.len() - sep.len()]);
                assert(d[d.len() - 1] == l);
            }
        }
    }
}

/// Joined pieces have fine neighbours when each piece and the separator have,
/// and the ends of pieces and separator meet well.
pub proof fn lemma_join_pairs(d: Seq<Seq<char>>, sep: Seq<char>, ok: spec_fn(char, char) -> bool)
    requires
        sep.len() > 0,
        pairs_ok(sep, ok),
        ok(sep.last(), sep[0]),
        forall|k: int| 0 <= k < d.len() ==> pairs_ok(#[trigger] d[k], ok),
        forall|k: int| 0 <= k < d.len() && d[k].len() > 0 ==> ok((#[trigger] d[k]).last(), sep[0]) && ok(sep.last(), d[k][0]),
    ensures
        pairs_ok(join(d, sep), ok),
        join(d, sep).len() > 0 ==> ok(join(d, sep).last(), sep[0]),
    decreases d.len(),
{
    if d.len() == 1 {
        assert(d[0] == d.last());
    } else if d.len() > 1 {
        let dp = d.drop_last();
        assert forall|k: int| 0 <= k < dp.len() implies pairs_ok(#[trigger] dp[k], ok) by {
            assert(dp[k] == d[k]);
        }
        assert forall|k: int| 0 <= k < dp.len() && dp[k].len() > 0 implies ok((#[trigger] dp[k]).last(), sep[0]) && ok(sep.last(), dp[k][0]) by {
            assert(dp[k] == d[k]);
        }
        lemma_join_pairs(dp, sep, ok);
        let a = join(dp, sep);
        let l = d.last();
        assert(d[d.len() - 1] == l);
        assert(join(d, sep) == a + sep + l);
        lemma_pairs_concat(a, sep, ok);
        lemma_pairs_concat(a + sep, l, ok);
        if l.len() == 0 {
            assert(a + sep + l =~= a + sep);
        }
    }
}

/// Collapsing runs leaves only spaces of the run kind, never two of the kind
/// side by side, keeps a property that every other character and the space
/// have, and ends in the run kind exactly when the text does.
pub proof fn lemma_collapse_runs_shape(s: Seq<char>, ws: spec_fn(char) -> bool, p: spec_fn(char) -> bool)
    requires
        ws(' '),
        p(' '),
        forall|i: int| 0 <= i < s.len() && !ws(s[i]) ==> p(#[trigger] s[i]),
    ensures
        forall|i: int| 0 <= i < collapse_runs(s, ws).len() ==> p(#[trigger] collapse_runs(s, ws)[i]),
        forall|i: int| 0 <= i < collapse_runs(s, ws).len() && ws(#[trigger] collapse_runs(s, ws)[i]) ==> collapse_runs(s, ws)[i] == ' ',
        forall|i: int| 0 <= i < collapse_runs(s, ws).len() - 1 ==> !(ws(#[trigger] collapse_runs(s, ws)[i]) && ws(collapse_runs(s, ws)[i + 1])),
        s.len() > 0 ==> collapse_runs(s, ws).len() > 0 && ws(collapse_runs(s, ws).last()) == ws(s.last()),
    decreases s.len(),
{
    if s.len() > 0 {
        let q = s.drop_last();
        assert forall|i: int| 0 <= i < q.len() && !ws(q[i]) implies p(#[trigger] q[i]) by {
            assert(q[i] == s[i]);
        }
        lemma_collapse_runs_shape(q, ws, p);
        let rq = collapse_runs(q, ws);
        let r = collapse_runs(s, ws);
        if !ws(s.last()) {
            assert(r == rq.push(s.last()));
            assert(p(s[s.len() - 1]));
            assert(forall|i: int| 0 <= i < rq.len() ==> r[i] == rq[i]);
        } else if s.len() >= 2 && ws(s[s.len() - 2]) {
            assert(r == rq);
            assert(q.last() == s[s.len() - 2]);
        } else {
            assert(r == rq.push(' '));
            assert(forall|i: int| 0 <= i < rq.len() ==> r[i] == rq[i]);
            if s.len() >= 2 {
                assert(q.last() == s[s.len() - 2]);
            }
        }
    }
}

/// Collapsing runs changes nothing in a text whose only run characters are
/// single spaces.
pub proof fn lemma_collapse_runs_fixed(t: Seq<char>, ws: spec_fn(char) -> bool)
    requires
        forall|i: int| 0 <= i < t.len() && ws(#[trigger] t[i]) ==> t[i] == ' ',
        forall|i: int| 0 <= i < t.len() - 1 ==> !(ws(#[trigger] t[i]) && ws(t[i + 1])),
    ensures
        collapse_runs(t, ws) == t,
    decreases t.len(),
{
    if t.len() > 0 {
        let q = t.drop_last();
        assert forall|i: int| 0 <= i < q.len() && ws(#[trigger] q[i]) implies q[i] == ' ' by {
            assert(q[i] == t[i]);
        }
        assert forall|i: int| 0 <= i < q.len() - 1 implies !(ws(#[trigger] q[i]) && ws(q[i + 1])) by {
            assert(q[i] == t[i] && q[i + 1] == t[i + 1]);
        }
        lemma_collapse_runs_fixed(q, ws);
        if ws(t.last()) {
            if t.len() >= 2 {
                assert(!(ws(t[t.len() - 2]) && ws(t[t.len() - 1])));
            }
            assert(t[t.len() - 1] == ' ');
        }
        assert(collapse_runs(t, ws) =~= t);
    }
}

/// Trimming the end keeps a prefix, which ends in no whitespace.
pub proof fn lemma_trim_end_prefix(s: Seq<char>)
    ensures
        trim_end(s).len() <= s.len(),
        trim_end(s) == s.take(trim_end(s).len() as int),
        trim_end(s).len() == 0 || !is_ws(trim_end(s).last()),
    decreases s.len(),
{
    if s.len() > 0 && is_ws(s.last()) {
        lemma_trim_end_prefix(s.drop_last());
        assert(s.drop_last().take(trim_end(s).len() as int) =~= s.take(trim_end(s).len() as int));
    } else {
        assert(s.take(s.len() as int) =~= s);
    }
}

/// Dropping trailing empty lines keeps a prefix whose last line is not empty.
pub proof fn lemma_drop_trailing_empty_prefix(ls: Seq<Seq<char>>)
    ensures
        drop_trailing_empty(ls).len() <= ls.len(),
        drop_trailing_empty(ls) == ls.take(drop_trailing_empty(ls).len() as int),
        drop_trailing_empty(ls).len() == 0 || drop_trailing_empty(ls).last().len() > 0,
    decreases ls.len(),
{
    if ls.len() > 0 && ls.last().len() == 0 {
        lemma_drop_trailing_empty_prefix(ls.drop_last());
        assert(ls.drop_last().take(drop_trailing_empty(ls).len() as int) =~= ls.take(
            drop_trailing_empty(ls).len() as int,
        ));
    } else {
        assert(ls.take(ls.len() as int) =~= ls);
    }
}

/// The pieces of a split hold no separator, and only characters of the text.
pub proof fn lemma_split_pieces(s: Seq<char>, sep: char, p: spec_fn(char) -> bool)
    requires
        forall|i: int| 0 <= i < s.len() ==> p(#[trigger] s[i]),
    ensures
        forall|k: int, j: int| 0 <= k < split(s, sep).len() && 0 <= j < split(s, sep)[k].len() ==> p(
            #[trigger] split(s, sep)[k][j],
        ) && split(s, sep)[k][j] != sep,
    decreases s.len(),
{
    if s.len() > 0 {
        let q = s.drop_last();
        assert forall|i: int| 0 <= i < q.len() implies p(#[trigger] q[i]) by {
            assert(q[i] == s[i]);
        }
        lemma_split_pieces(q, sep, p);
        crate::dkim::text::lemma_split_nonempty(q, sep);
        let rq = split(q, sep);
        let r = split(s, sep);
        assert(p(s[s.len() - 1]));
        if s.last() == sep {
            assert(r == rq.push(Seq::<char>::empty()));
            assert forall|k: int, j: int| 0 <= k < r.len() && 0 <= j < r[k].len() implies p(#[trigger] r[k][j])
                && r[k][j] != sep by {
                assert(k < rq.len());
                assert(r[k] == rq[k]);
            }
        } else {
            let lst = rq.last().push(s.last());
            assert(r == rq.update(rq.len() - 1, lst));
            assert forall|k: int, j: int| 0 <= k < r.len() && 0 <= j < r[k].len() implies p(#[trigger] r[k][j])
                && r[k][j] != sep by {
                if k == rq.len() - 1 {
                    assert(r[k] == lst);
                    if j < rq.last().len() {
                        assert(lst[j] == rq[k][j]);
                    }
                } else {
                    assert(r[k] == rq[k]);
                }
            }
        }
    }
}

/// Splitting pieces joined with a one-character separator that none of them
/// holds gives back the pieces.
pub proof fn lemma_split_join(d: Seq<Seq<char>>, sep: char)
    requires
        d.len() >= 1,
        forall|k: int, j: int| 0 <= k < d.len() && 0 <= j < d[k].len() ==> #[trigger] d[k][j] != sep,
    ensures
        split(join(d, seq![sep]), sep) == d,
    decreases d.len(),
{
    let l = d.last();
    assert(d[d.len() - 1] == l);
    assert forall|i: int| 0 <= i < l.len() implies l[i] != sep by {
        assert(d[d.len() - 1][i] != sep);
    }
    crate::dkim::text::lemma_split_without_sep(l, sep);
    if d.len() == 1 {
        assert(d =~= seq![l]);
    } else {
        let dp = d.drop_last();
        assert forall|k: int, j: int| 0 <= k < dp.len() && 0 <= j < dp[k].len() implies #[trigger] dp[k][j] != sep by {
            assert(dp[k] == d[k]);
        }
        lemma_split_join(dp, sep);
        crate::dkim::text::lemma_split_concat(join(dp, seq![sep]), l, sep);
        assert(join(d, seq![sep]) == join(dp, seq![sep]) + seq![sep] + l);
        assert(dp + seq![l] =~= d);
    }
}

/// Splitting at '\n' pieces joined with CRLF, none of which holds '\n', gives
/// each piece followed by '\r', except the last, which stays as it is.
pub proof fn lemma_split_join_crlf(d: Seq<Seq<char>>)
    requires
        d.len() >= 1,
        forall|k: int, j: int| 0 <= k < d.len() && 0 <= j < d[k].len() ==> #[trigger] d[k][j] != '\n',
    ensures
        split(join(d, crlf_sep()), '\n').len() == d.len(),
        forall|k: int| 0 <= k < d.len() - 1 ==> #[trigger] split(join(d, crlf_sep()), '\n')[k] == d[k].push('\r'),
        split(join(d, crlf_sep()), '\n').last() == d.last(),
    decreases d.len(),
{
    let l = d.last();
    assert(d[d.len() - 1] == l);
    assert forall|i: int| 0 <= i < l.len() implies l[i] != '\n' by {
        assert(d[d.len() - 1][i] != '\n');
    }
    crate::dkim::text::lemma_split_without_sep(l, '\n');
    if d.len() > 1 {
        let dp = d.drop_last();
        assert forall|k: int, j: int| 0 <= k < dp.len() && 0 <= j < dp[k].len() implies #[trigger] dp[k][j] != '\n' by {
            assert(dp[k] == d[k]);
        }
        lemma_split_join_crlf(dp);
        let a = join(dp, crlf_sep());
        let ra = split(a, '\n');
        let a2 = a.push('\r');
        assert(a2.drop_last() =~= a);
        let ra2 = split(a2, '\n');
        assert(ra2 == ra.update(ra.len() - 1, ra.last().push('\r')));
        crate::dkim::text::lemma_split_concat(a2, l, '\n');
        assert(join(d, crlf_sep()) =~= a2 + seq!['\n'] + l);
        let r = split(join(d, crlf_sep()), '\n');
        assert(r == ra2 + seq![l]);
        assert forall|k: int| 0 <= k < d.len() - 1 implies #[trigger] r[k] == d[k].push('\r') by {
            assert(r[k] == ra2[k]);
            if k < dp.len() - 1 {
                assert(ra[k] == dp[k].push('\r'));
            } else {
                assert(ra.last() == dp.last());
            }
            assert(dp[k] == d[k]);
        }
    }
}

/// A text without '\r' is left alone by CRLF replacement.
pub proof fn lemma_replace_crlf_none(a: Seq<char>, w: Seq<char>)
    requires
        forall|i: int| 0 <= i < a.len() ==> a[i] != '\r',
    ensures
        replace_crlf(a, w) == a,
    decreases a.len(),
{
    if a.len() > 0 {
        assert(a[0] != '\r');
        assert forall|i: int| 0 <= i < a.skip(1).len() implies a.skip(1)[i] != '\r' by {
            assert(a.skip(1)[i] == a[i + 1]);
        }
        lemma_replace_crlf_none(a.skip(1), w);
        assert(seq![a[0]] + a.skip(1) =~= a);
    }
}

/// CRLF replacement splits over a text that does not end in '\r'.
pub proof fn lemma_replace_crlf_concat(a: Seq<char>, b: Seq<char>, w: Seq<char>)
    requires
        a.len() == 0 || a.last() != '\r',
    ensures
        replace_crlf(a + b, w) == replace_crlf(a, w) + replace_crlf(b, w),
    decreases a.len(),
{
    if a.len() == 0 {
        assert(a + b =~= b);
    } else if a.len() >= 2 && a[0] == '\r' && a[1] == '\n' {
        assert((a + b).skip(2) =~= a.skip(2) + b);
        if a.skip(2).len() > 0 {
            assert(a.skip(2).last() == a.last());
        }
        lemma_replace_crlf_concat(a.skip(2), b, w);
        assert(replace_crlf(a + b, w) == w + replace_crlf((a + b).skip(2), w));
    } else {
        assert((a + b).skip(1) =~= a.skip(1) + b);
        if a.skip(1).len() > 0 {
            assert(a.skip(1).last() == a.last());
        }
        lemma_replace_crlf_concat(a.skip(1), b, w);
        if a.len() == 1 {
            assert(a[0] != '\r');
        }
        assert(replace_crlf(a + b, w) == seq![a[0]] + replace_crlf((a + b).skip(1), w));
    }
}

} // verus!

verus! {

/// Turning each CRLF into `w` in pieces joined with CRLF, when no piece holds
/// '\r', joins them with `w`; the joined text does not end in '\r'.
pub proof fn lemma_replace_crlf_join(d: Seq<Seq<char>>, w: Seq<char>)
    requires
        forall|k: int, j: int| 0 <= k < d.len() && 0 <= j < d[k].len() ==> #[trigger] d[k][j] != '\r',
    ensures
        replace_crlf(join(d, crlf_sep()), w) == join(d, w),
        join(d, crlf_sep()).len() == 0 || join(d, crlf_sep()).last() != '\r',
    decreases d.len(),
{
    if d.len() >= 1 {
        let l = d.last();
        assert(d[d.len() - 1] == l);
        assert forall|i: int| 0 <= i < l.len() implies l[i] != '\r' by {
            assert(d[d.len() - 1][i] != '\r');
        }
        lemma_replace_crlf_none(l, w);
        if d.len() > 1 {
            let dp = d.drop_last();
            assert forall|k: int, j: int| 0 <= k < dp.len() && 0 <= j < dp[k].len() implies #[trigger] dp[k][j] != '\r' by {
                assert(dp[k] == d[k]);
            }
            lemma_replace_crlf_join(dp, w);
            let a = join(dp, crlf_sep());
            let b = crlf_sep() + l;
            assert(join(d, crlf_sep()) =~= a + b);
            lemma_replace_crlf_concat(a, b, w);
            assert(b.skip(2) =~= l);
            assert(replace_crlf(b, w) == w + replace_crlf(b.skip(2), w));
            if l.len() > 0 {
                assert((a + b).last() == l.last());
                assert(l.last() == l[l.len() - 1]);
            } else {
                assert((a + b).last() == '\n');
            }
        } else {
            assert(join(d, crlf_sep()) == l);
            if l.len() > 0 {
                assert(l.last() == l[l.len() - 1]);
            }
        }
    }
}

} // verus!
