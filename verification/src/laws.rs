//! General laws of the library, stated over the spec functions that the
//! executable functions' contracts use, and proved once for all inputs.

use vstd::prelude::*;

use crate::emit::emit_spec;
use crate::normalize::{normalized, normalized_segs, pair_at_front};
use crate::rewrite::{literal_free, replacement, rewrite_spec, trigger_ident};
use crate::rules::{bare_continue, bare_start, space, Rules};
use crate::scanner::{ltrim, rtrim, scan_at_delim, scan_bare, scan_literal, scan_spec,
    scan_wrapped, trim, ScanError};
use crate::segment::SegModel;
use crate::tokens::{Delim, TokenModel};

verus! {

/// Scanning a literal run passes over characters that are not the open
/// delimiter.
proof fn lemma_scan_literal_skip(r: Rules, s: Seq<char>, start: int, i: int, j: int)
    requires
        0 <= i <= j <= s.len(),
        forall|k: int| i <= k < j ==> s[k] != r.open_delim,
    ensures
        scan_literal(r, s, start, i) == scan_literal(r, s, start, j),
    decreases j - i,
{
    if i < j {
        lemma_scan_literal_skip(r, s, start, i + 1, j);
    }
}

/// Scanning a wrapped expression passes over characters that are not the
/// close delimiter.
proof fn lemma_scan_wrapped_skip(
    r: Rules,
    s: Seq<char>,
    start: int,
    delim: int,
    expr_start: int,
    i: int,
    j: int,
)
    requires
        0 <= i <= j <= s.len(),
        forall|k: int| i <= k < j ==> s[k] != r.wrap_close,
    ensures
        scan_wrapped(r, s, start, delim, expr_start, i) == scan_wrapped(
            r,
            s,
            start,
            delim,
            expr_start,
            j,
        ),
    decreases j - i,
{
    if i < j {
        lemma_scan_wrapped_skip(r, s, start, delim, expr_start, i + 1, j);
    }
}

/// Scanning a bare expression passes over characters that can continue an
/// identifier.
proof fn lemma_scan_bare_skip(
    r: Rules,
    s: Seq<char>,
    start: int,
    delim: int,
    expr_start: int,
    i: int,
    j: int,
)
    requires
        0 <= i <= j <= s.len(),
        forall|k: int| i <= k < j ==> bare_continue(s[k]),
    ensures
        scan_bare(r, s, start, delim, expr_start, i) == scan_bare(
            r,
            s,
            start,
            delim,
            expr_start,
            j,
        ),
    decreases j - i,
{
    if i < j {
        lemma_scan_bare_skip(r, s, start, delim, expr_start, i + 1, j);
    }
}

/// Text free of both delimiter characters normalizes to itself.
proof fn lemma_normalized_id(r: Rules, s: Seq<char>)
    requires
        forall|i: int| 0 <= i < s.len() ==> s[i] != r.open_delim && s[i] != r.wrap_close,
    ensures
        normalized(r, s) == s,
    decreases s.len(),
{
    if s.len() > 0 {
        let tail = s.subrange(1, s.len() as int);
        lemma_normalized_id(r, tail);
        assert(seq![s[0]] + tail =~= s);
    }
}

/// A template without delimiter characters scans to exactly one literal
/// segment equal to the whole template, and — it holds no expression, so no
/// values are owed — compiles to the template unchanged.
pub proof fn law_no_delimiters(r: Rules, s: Seq<char>)
    requires
        s.len() > 0,
        forall|i: int| 0 <= i < s.len() ==> s[i] != r.open_delim && s[i] != r.wrap_close,
    ensures
        scan_spec(r, s) == Ok::<Seq<SegModel>, ScanError>(seq![SegModel::Literal(s)]),
        normalized_segs(r, seq![SegModel::Literal(s)]) == seq![SegModel::Literal(s)],
        emit_spec(seq![SegModel::Literal(s)], Seq::<Seq<char>>::empty()) == s,
{
    let n: int = s.len() as int;
    lemma_scan_literal_skip(r, s, 0, 0, n);
    assert(s.subrange(0, n) =~= s);
    lemma_normalized_id(r, s);
    assert(normalized_segs(r, seq![SegModel::Literal(s)]) =~= seq![SegModel::Literal(s)]);
    assert(seq![SegModel::Literal(s)].subrange(1, 1) =~= Seq::<SegModel>::empty());
    assert(emit_spec(Seq::<SegModel>::empty(), Seq::<Seq<char>>::empty())
        == Seq::<char>::empty());
    assert(s + Seq::<char>::empty() =~= s);
}

/// A wrapped expression that reaches the end of the template without its
/// close delimiter aborts the scan with `UnterminatedExpression`, naming
/// the open delimiter's position — never a truncated segment sequence.
pub proof fn law_unterminated(r: Rules, p: Seq<char>, rest: Seq<char>, w: char)
    requires
        r.wf(),
        r.wrap_open == Some(w),
        forall|i: int| 0 <= i < p.len() ==> p[i] != r.open_delim,
        forall|i: int| 0 <= i < rest.len() ==> rest[i] != r.wrap_close,
    ensures
        scan_spec(r, p + seq![r.open_delim, w] + rest) == Err::<Seq<SegModel>, ScanError>(
            ScanError::UnterminatedExpression { open_pos: p.len() as usize },
        ),
{
    let s = p + seq![r.open_delim, w] + rest;
    let d = p.len() as int;
    let n: int = s.len() as int;
    assert(forall|i: int| 0 <= i < d ==> s[i] == p[i]);
    lemma_scan_literal_skip(r, s, 0, 0, d);
    assert(s[d] == r.open_delim);
    assert(s[d + 1] == w);
    assert(scan_literal(r, s, 0, d) == scan_at_delim(r, s, 0, d));
    assert(scan_at_delim(r, s, 0, d) == scan_wrapped(r, s, 0, d, d + 2, d + 2));
    assert(forall|k: int| d + 2 <= k < n ==> s[k] == rest[k - d - 2]);
    lemma_scan_wrapped_skip(r, s, 0, d, d + 2, d + 2, n);
}

/// A doubled open delimiter inside literal text never starts an expression:
/// the template scans to one literal segment, and normalizing replaces the
/// pair with exactly one literal delimiter character, leaving no doubled
/// sequence behind.
pub proof fn law_escaped_open(r: Rules, a: Seq<char>, b: Seq<char>)
    requires
        r.wf(),
        forall|i: int| 0 <= i < a.len() ==> a[i] != r.open_delim && a[i] != r.wrap_close,
        forall|i: int| 0 <= i < b.len() ==> b[i] != r.open_delim && b[i] != r.wrap_close,
    ensures
        scan_spec(r, a + seq![r.open_delim, r.open_delim] + b) == Ok::<Seq<SegModel>, ScanError>(
            seq![SegModel::Literal(a + seq![r.open_delim, r.open_delim] + b)],
        ),
        normalized(r, a + seq![r.open_delim, r.open_delim] + b) == a + seq![r.open_delim] + b,
{
    let s = a + seq![r.open_delim, r.open_delim] + b;
    let d = a.len() as int;
    let n: int = s.len() as int;
    assert(forall|i: int| 0 <= i < d ==> s[i] == a[i]);
    assert(forall|k: int| d + 2 <= k < n ==> s[k] == b[k - d - 2]);
    lemma_scan_literal_skip(r, s, 0, 0, d);
    assert(s[d] == r.open_delim);
    assert(s[d + 1] == r.open_delim);
    assert(scan_literal(r, s, 0, d) == scan_at_delim(r, s, 0, d));
    assert(scan_at_delim(r, s, 0, d) == scan_literal(r, s, 0, d + 2));
    lemma_scan_literal_skip(r, s, 0, d + 2, n);
    assert(s.subrange(0, n) =~= s);
    lemma_normalized_pair(r, a, b);
}

/// A template that is one wrapped expression and nothing else.
pub open spec fn wrap_template(r: Rules, e: Seq<char>) -> Seq<char> {
    match r.wrap_open {
        Some(w) => seq![r.open_delim, w] + e + seq![r.wrap_close],
        None => seq![r.open_delim] + e + seq![r.wrap_close],
    }
}

/// A template that is exactly one wrapped expression scans to an empty
/// literal and that expression, trimmed; emitted with the expression's one
/// value, the compiled result is that value alone.
pub proof fn law_single_wrapped(r: Rules, e: Seq<char>, v: Seq<char>)
    requires
        r.wf(),
        e.len() > 0,
        e[0] != r.open_delim,
        forall|i: int| 0 <= i < e.len() ==> e[i] != r.wrap_close,
    ensures
        scan_spec(r, wrap_template(r, e)) == Ok::<Seq<SegModel>, ScanError>(
            seq![SegModel::Literal(Seq::empty()), SegModel::Expression(trim(e))],
        ),
        emit_spec(
            normalized_segs(r, seq![SegModel::Literal(Seq::empty()), SegModel::Expression(trim(e))]),
            seq![v],
        ) == v,
{
    let s = wrap_template(r, e);
    let n: int = s.len() as int;
    match r.wrap_open {
        Some(w) => {
            assert(s[0] == r.open_delim);
            assert(s[1] == w);
            assert(forall|k: int| 2 <= k < n - 1 ==> s[k] == e[k - 2]);
            assert(s[n - 1] == r.wrap_close);
            assert(scan_spec(r, s) == scan_at_delim(r, s, 0, 0));
            assert(scan_at_delim(r, s, 0, 0) == scan_wrapped(r, s, 0, 0, 2, 2));
            lemma_scan_wrapped_skip(r, s, 0, 0, 2, 2, n - 1);
            assert(scan_literal(r, s, n, n) == Ok::<Seq<SegModel>, ScanError>(Seq::empty()));
            assert(s.subrange(0, 0) =~= Seq::<char>::empty());
            assert(s.subrange(2, n - 1) =~= e);
            assert(seq![
                SegModel::Literal(Seq::<char>::empty()),
                SegModel::Expression(trim(e)),
            ] + Seq::<SegModel>::empty() =~= seq![
                SegModel::Literal(Seq::<char>::empty()),
                SegModel::Expression(trim(e)),
            ]);
        },
        None => {
            assert(s[0] == r.open_delim);
            assert(forall|k: int| 1 <= k < n - 1 ==> s[k] == e[k - 1]);
            assert(s[n - 1] == r.wrap_close);
            assert(s[1] == e[0]);
            assert(scan_spec(r, s) == scan_at_delim(r, s, 0, 0));
            assert(scan_at_delim(r, s, 0, 0) == scan_wrapped(r, s, 0, 0, 1, 1));
            lemma_scan_wrapped_skip(r, s, 0, 0, 1, 1, n - 1);
            assert(scan_literal(r, s, n, n) == Ok::<Seq<SegModel>, ScanError>(Seq::empty()));
            assert(s.subrange(0, 0) =~= Seq::<char>::empty());
            assert(s.subrange(1, n - 1) =~= e);
            assert(seq![
                SegModel::Literal(Seq::<char>::empty()),
                SegModel::Expression(trim(e)),
            ] + Seq::<SegModel>::empty() =~= seq![
                SegModel::Literal(Seq::<char>::empty()),
                SegModel::Expression(trim(e)),
            ]);
        },
    }
    lemma_emit_single_value(r, trim(e), v);
}

/// Emitting an empty literal and one expression with its value yields the
/// value alone.
proof fn lemma_emit_single_value(r: Rules, tx: Seq<char>, v: Seq<char>)
    ensures
        emit_spec(
            normalized_segs(r, seq![SegModel::Literal(Seq::empty()), SegModel::Expression(tx)]),
            seq![v],
        ) == v,
{
    let segs = normalized_segs(r, seq![SegModel::Literal(Seq::empty()), SegModel::Expression(tx)]);
    assert(normalized(r, Seq::empty()) == Seq::<char>::empty());
    assert(segs =~= seq![
        SegModel::Literal(Seq::<char>::empty()),
        SegModel::Expression(tx),
    ]);
    assert(segs.subrange(1, 2) =~= seq![SegModel::Expression(tx)]);
    assert(seq![SegModel::Expression(tx)].subrange(1, 1) =~= Seq::<SegModel>::empty());
    assert(seq![v].subrange(1, 1) =~= Seq::<Seq<char>>::empty());
    assert(emit_spec(Seq::<SegModel>::empty(), Seq::<Seq<char>>::empty())
        == Seq::<char>::empty());
    assert(emit_spec(seq![SegModel::Expression(tx)], seq![v]) == v + Seq::<char>::empty());
    assert(Seq::<char>::empty() + (v + Seq::<char>::empty()) =~= v);
}

/// A template that is exactly one bare expression scans to an empty literal
/// and that expression; emitted with the expression's one value, the
/// compiled result is that value alone.
pub proof fn law_single_bare(r: Rules, e: Seq<char>, v: Seq<char>, w: char)
    requires
        r.wf(),
        r.wrap_open == Some(w),
        r.allow_bare,
        e.len() > 0,
        e[0] != r.open_delim,
        e[0] != w,
        bare_start(e[0]),
        forall|i: int| 0 <= i < e.len() ==> bare_continue(e[i]),
    ensures
        scan_spec(r, seq![r.open_delim] + e) == Ok::<Seq<SegModel>, ScanError>(
            seq![SegModel::Literal(Seq::empty()), SegModel::Expression(e)],
        ),
        emit_spec(
            normalized_segs(r, seq![SegModel::Literal(Seq::empty()), SegModel::Expression(e)]),
            seq![v],
        ) == v,
{
    let s = seq![r.open_delim] + e;
    let n: int = s.len() as int;
    assert(s[0] == r.open_delim);
    assert(forall|k: int| 1 <= k < n ==> s[k] == e[k - 1]);
    assert(scan_spec(r, s) == scan_at_delim(r, s, 0, 0));
    assert(scan_at_delim(r, s, 0, 0) == scan_bare(r, s, 0, 0, 1, 2));
    lemma_scan_bare_skip(r, s, 0, 0, 1, 2, n);
    assert(scan_literal(r, s, n, n) == Ok::<Seq<SegModel>, ScanError>(Seq::empty()));
    assert(s.subrange(0, 0) =~= Seq::<char>::empty());
    assert(s.subrange(1, n) =~= e);
    assert(seq![SegModel::Literal(Seq::<char>::empty()), SegModel::Expression(e)]
        + Seq::<SegModel>::empty() =~= seq![
        SegModel::Literal(Seq::<char>::empty()),
        SegModel::Expression(e),
    ]);
    lemma_emit_single_value(r, e, v);
}

/// A bare expression accepts every identifier-continuing character —
/// ASCII or not — and ends at the first character that cannot continue an
/// identifier: that character begins the following literal.
pub proof fn law_bare_boundary(r: Rules, p: char, e: Seq<char>, q: char, w: char)
    requires
        r.wf(),
        r.wrap_open == Some(w),
        r.allow_bare,
        p != r.open_delim,
        e.len() > 0,
        e[0] != r.open_delim,
        e[0] != w,
        bare_start(e[0]),
        forall|i: int| 0 <= i < e.len() ==> bare_continue(e[i]),
        !bare_continue(q),
        q != r.open_delim,
    ensures
        scan_spec(r, seq![p, r.open_delim] + e + seq![q]) == Ok::<Seq<SegModel>, ScanError>(
            seq![
                SegModel::Literal(seq![p]),
                SegModel::Expression(e),
                SegModel::Literal(seq![q]),
            ],
        ),
{
    let s = seq![p, r.open_delim] + e + seq![q];
    let n: int = s.len() as int;
    assert(s[0] == p);
    assert(s[1] == r.open_delim);
    assert(forall|k: int| 2 <= k < n - 1 ==> s[k] == e[k - 2]);
    assert(s[n - 1] == q);
    assert(scan_spec(r, s) == scan_literal(r, s, 0, 1));
    assert(scan_literal(r, s, 0, 1) == scan_at_delim(r, s, 0, 1));
    assert(scan_at_delim(r, s, 0, 1) == scan_bare(r, s, 0, 1, 2, 3));
    lemma_scan_bare_skip(r, s, 0, 1, 2, 3, n - 1);
    assert(!bare_continue(s[n - 1]));
    assert(scan_literal(r, s, n - 1, n - 1) == scan_literal(r, s, n - 1, n));
    assert(scan_literal(r, s, n - 1, n) == Ok::<Seq<SegModel>, ScanError>(
        seq![SegModel::Literal(s.subrange(n - 1, n))],
    ));
    assert(s.subrange(0, 1) =~= seq![p]);
    assert(s.subrange(2, n - 1) =~= e);
    assert(s.subrange(n - 1, n) =~= seq![q]);
    assert(seq![SegModel::Literal(seq![p]), SegModel::Expression(e)] + seq![
        SegModel::Literal(seq![q]),
    ] =~= seq![
        SegModel::Literal(seq![p]),
        SegModel::Expression(e),
        SegModel::Literal(seq![q]),
    ]);
}

/// Leading whitespace never survives a left trim.
proof fn lemma_ltrim_prepend_space(ws: Seq<char>, x: Seq<char>)
    requires
        forall|i: int| 0 <= i < ws.len() ==> space(ws[i]),
    ensures
        ltrim(ws + x) == ltrim(x),
    decreases ws.len(),
{
    if ws.len() == 0 {
        assert(ws + x =~= x);
    } else {
        let tail = ws.subrange(1, ws.len() as int);
        lemma_ltrim_prepend_space(tail, x);
        assert((ws + x)[0] == ws[0]);
        assert((ws + x).subrange(1, (ws + x).len() as int) =~= tail + x);
    }
}

/// Trailing whitespace never survives a right trim.
proof fn lemma_rtrim_append_space(x: Seq<char>, ws: Seq<char>)
    requires
        forall|i: int| 0 <= i < ws.len() ==> space(ws[i]),
    ensures
        rtrim(x + ws) == rtrim(x),
    decreases ws.len(),
{
    if ws.len() == 0 {
        assert(x + ws =~= x);
    } else {
        let head = ws.subrange(0, ws.len() - 1);
        lemma_rtrim_append_space(x, head);
        let s = x + ws;
        assert(s[s.len() - 1] == ws[ws.len() - 1]);
        assert(s.subrange(0, s.len() - 1) =~= x + head);
    }
}

/// A sequence with a non-space character keeps one through a left trim,
/// and the trim moves over a concatenation's boundary.
proof fn lemma_ltrim_concat_nonspace(x: Seq<char>, y: Seq<char>)
    requires
        exists|i: int| 0 <= i < x.len() && !space(x[i]),
    ensures
        ltrim(x + y) == ltrim(x) + y,
    decreases x.len(),
{
    let wit = choose|i: int| 0 <= i < x.len() && !space(x[i]);
    if space(x[0]) {
        let tail = x.subrange(1, x.len() as int);
        assert(0 <= wit - 1 < tail.len() && !space(tail[wit - 1]));
        lemma_ltrim_concat_nonspace(tail, y);
        assert((x + y)[0] == x[0]);
        assert((x + y).subrange(1, (x + y).len() as int) =~= tail + y);
    } else {
        assert((x + y)[0] == x[0]);
    }
}

/// Whitespace around an expression's text makes no difference to the trim.
pub proof fn law_trim_insensitive(ws1: Seq<char>, e: Seq<char>, ws2: Seq<char>)
    requires
        forall|i: int| 0 <= i < ws1.len() ==> space(ws1[i]),
        forall|i: int| 0 <= i < ws2.len() ==> space(ws2[i]),
    ensures
        trim(ws1 + e + ws2) == trim(e),
{
    assert(ws1 + e + ws2 =~= ws1 + (e + ws2));
    lemma_ltrim_prepend_space(ws1, e + ws2);
    if exists|i: int| 0 <= i < e.len() && !space(e[i]) {
        lemma_ltrim_concat_nonspace(e, ws2);
        lemma_rtrim_append_space(ltrim(e), ws2);
    } else {
        assert(forall|i: int| 0 <= i < e.len() ==> space(e[i]));
        assert(forall|i: int| 0 <= i < (e + ws2).len() ==> space((e + ws2)[i]));
        lemma_ltrim_prepend_space(e + ws2, Seq::empty());
        assert((e + ws2) + Seq::<char>::empty() =~= e + ws2);
        assert(ltrim(Seq::<char>::empty()) == Seq::<char>::empty());
        lemma_ltrim_prepend_space(e, Seq::empty());
        assert(e + Seq::<char>::empty() =~= e);
    }
}

/// A wrapped expression with whitespace inside its delimiters compiles
/// exactly as the same expression without it.
pub proof fn law_whitespace_trimmed(r: Rules, e: Seq<char>, ws1: Seq<char>, ws2: Seq<char>)
    requires
        r.wf(),
        e.len() > 0,
        e[0] != r.open_delim,
        forall|i: int| 0 <= i < e.len() ==> e[i] != r.wrap_close,
        forall|i: int| 0 <= i < ws1.len() ==> space(ws1[i]),
        forall|i: int| 0 <= i < ws2.len() ==> space(ws2[i]),
    ensures
        scan_spec(r, wrap_template(r, ws1 + e + ws2)) == scan_spec(r, wrap_template(r, e)),
{
    let u = ws1 + e + ws2;
    assert(forall|i: int| 0 <= i < ws1.len() ==> u[i] == ws1[i]);
    assert(forall|i: int| ws1.len() <= i < ws1.len() + e.len() ==> u[i] == e[i - ws1.len()]);
    assert(forall|i: int|
        ws1.len() + e.len() <= i < u.len() ==> u[i] == ws2[i - ws1.len() - e.len()]);
    assert(u.len() > 0);
    if ws1.len() > 0 {
        assert(!space(r.open_delim));
        assert(u[0] != r.open_delim);
    } else {
        assert(u[0] == e[0]);
    }
    assert(forall|i: int| 0 <= i < u.len() ==> u[i] != r.wrap_close) by {
        assert(!space(r.wrap_close));
    }
    law_single_wrapped(r, u, Seq::empty());
    law_single_wrapped(r, e, Seq::empty());
    law_trim_insensitive(ws1, e, ws2);
}

/// Normalizing `a ++ open open ++ b`, with `a` and `b` free of delimiter
/// characters, yields `a ++ open ++ b`.
proof fn lemma_normalized_pair(r: Rules, a: Seq<char>, b: Seq<char>)
    requires
        forall|i: int| 0 <= i < a.len() ==> a[i] != r.open_delim && a[i] != r.wrap_close,
        forall|i: int| 0 <= i < b.len() ==> b[i] != r.open_delim && b[i] != r.wrap_close,
    ensures
        normalized(r, a + seq![r.open_delim, r.open_delim] + b) == a + seq![r.open_delim] + b,
    decreases a.len(),
{
    let s = a + seq![r.open_delim, r.open_delim] + b;
    if a.len() == 0 {
        assert(s[0] == r.open_delim);
        assert(s[1] == r.open_delim);
        assert(pair_at_front(r, s));
        assert(s.subrange(2, s.len() as int) =~= b);
        lemma_normalized_id(r, b);
        assert(seq![r.open_delim] + b =~= a + seq![r.open_delim] + b);
    } else {
        assert(s[0] == a[0]);
        assert(!pair_at_front(r, s));
        let a1 = a.subrange(1, a.len() as int);
        lemma_normalized_pair(r, a1, b);
        assert(s.subrange(1, s.len() as int) =~= a1 + seq![r.open_delim, r.open_delim] + b);
        assert(seq![a[0]] + (a1 + seq![r.open_delim] + b) =~= a + seq![r.open_delim] + b);
    }
}


/// A trigger identifier immediately followed by a literal becomes, with
/// it, one `format ! ( lit )` call; the rest of the stream is rewritten on
/// its own.
pub proof fn law_trigger_rewrites(l: Seq<char>, rest: Seq<TokenModel>)
    ensures
        rewrite_spec(seq![TokenModel::Ident(trigger_ident()), TokenModel::Literal(l)] + rest)
            == replacement(TokenModel::Literal(l)) + rewrite_spec(rest),
{
    let ts = seq![TokenModel::Ident(trigger_ident()), TokenModel::Literal(l)] + rest;
    assert(ts[0] == TokenModel::Ident(trigger_ident()));
    assert(ts[1] == TokenModel::Literal(l));
    assert(ts.subrange(2, ts.len() as int) =~= rest);
}

/// A trigger identifier followed by anything but a literal appears in the
/// output unchanged: no false-positive rewrite.
pub proof fn law_trigger_without_literal(t: TokenModel, rest: Seq<TokenModel>)
    requires
        !(t is Literal),
    ensures
        rewrite_spec(seq![TokenModel::Ident(trigger_ident()), t] + rest) == seq![
            TokenModel::Ident(trigger_ident()),
        ] + rewrite_spec(seq![t] + rest),
{
    let ts = seq![TokenModel::Ident(trigger_ident()), t] + rest;
    assert(ts[0] == TokenModel::Ident(trigger_ident()));
    assert(ts[1] == t);
    assert(ts.subrange(1, ts.len() as int) =~= seq![t] + rest);
}

/// A trigger identifier that ends the stream, with nothing after it,
/// appears in the output unchanged.
pub proof fn law_trailing_trigger(ts: Seq<TokenModel>)
    requires
        ts.len() >= 1,
        ts[ts.len() - 1] == TokenModel::Ident(trigger_ident()),
    ensures
        rewrite_spec(ts)[rewrite_spec(ts).len() - 1] == TokenModel::Ident(trigger_ident()),
    decreases ts,
{
    if ts.len() == 1 {
        assert(ts.subrange(1, 1) =~= Seq::<TokenModel>::empty());
        assert(rewrite_spec(Seq::<TokenModel>::empty()) == Seq::<TokenModel>::empty());
        assert(rewrite_spec(ts) =~= seq![ts[0]]);
    } else if ts.len() >= 2 && ts[0] == TokenModel::Ident(trigger_ident()) && ts[1] is Literal {
        let tail = ts.subrange(2, ts.len() as int);
        assert(tail[tail.len() - 1] == ts[ts.len() - 1]);
        law_trailing_trigger(tail);
    } else {
        let tail = ts.subrange(1, ts.len() as int);
        assert(tail[tail.len() - 1] == ts[ts.len() - 1]);
        law_trailing_trigger(tail);
    }
}

/// The rewrite recurses into a delimited group, so a trigger inside a
/// nested group is still rewritten; the group's place in the stream is kept.
pub proof fn law_group_recursion(d: Delim, inner: Seq<TokenModel>, rest: Seq<TokenModel>)
    ensures
        rewrite_spec(seq![TokenModel::Group(d, inner)] + rest) == seq![
            TokenModel::Group(d, rewrite_spec(inner)),
        ] + rewrite_spec(rest),
{
    let ts = seq![TokenModel::Group(d, inner)] + rest;
    assert(ts[0] == TokenModel::Group(d, inner));
    assert(ts.subrange(1, ts.len() as int) =~= rest);
}

/// A stream with no literal token anywhere — however many trigger
/// identifiers and nested groups it holds — is rewritten to itself.
pub proof fn law_literal_free_unchanged(ts: Seq<TokenModel>)
    requires
        literal_free(ts),
    ensures
        rewrite_spec(ts) == ts,
    decreases ts,
{
    reveal_with_fuel(literal_free, 2);
    if ts.len() > 0 {
        let tail = ts.subrange(1, ts.len() as int);
        assert(literal_free(tail));
        if ts.len() >= 2 {
            assert(tail[0] == ts[1]);
            assert(!(ts[1] is Literal));
        }
        match ts[0] {
            TokenModel::Group(d, inner) => {
                law_literal_free_unchanged(inner);
            },
            _ => {},
        }
        law_literal_free_unchanged(tail);
        assert(seq![ts[0]] + tail =~= ts);
    }
}

} // verus!
