//! The template scanner.
//!
//! A single left-to-right pass over the template's characters splits it into
//! an ordered sequence of [`Segment`]s.  The pass is a finite-state machine
//! with a total transition function; the spec functions below give one
//! function per state, and [`scan`] is the executable machine, proved to
//! return exactly what the spec functions say.
//!
//! Dialect notes, fixed here once for every [`Rules`] value:
//! - a doubled open delimiter is checked before the bare form, so an escape
//!   can never begin an expression;
//! - after a wrapped expression closes, the following character always
//!   begins a new literal run — a doubled close delimiter there is ordinary
//!   literal text for the normalizer, never an extension of the expression.

use vstd::prelude::*;
use vstd::string::StrSliceExecFns;

use crate::rules::{bare_continue, bare_start, is_bare_continue, is_bare_start, is_space, space, Rules};
use crate::segment::{lemma_segs_model_push, segs_model, SegModel, Segment};

verus! {

/// An unrecoverable scan failure.  No partial segment sequence accompanies
/// it; positions are character indices into the template.
#[derive(Debug, Clone, Copy, PartialEq, Eq)]
pub enum ScanError {
    /// A wrapped expression reached the end of the template without its
    /// closing delimiter; `open_pos` is the index of the open delimiter.
    UnterminatedExpression { open_pos: usize },
    /// The character at `pos`, standing immediately after an open delimiter,
    /// is neither the wrap-open character, nor a doubled open delimiter, nor
    /// a valid bare-identifier start; `found` is `None` when the template
    /// ends there instead.
    InvalidDelimiterFollower { pos: usize, found: Option<char> },
}

/// Leading whitespace removed.
pub open spec fn ltrim(s: Seq<char>) -> Seq<char>
    decreases s.len(),
{
    if s.len() > 0 && space(s[0]) {
        ltrim(s.subrange(1, s.len() as int))
    } else {
        s
    }
}

/// Trailing whitespace removed.
pub open spec fn rtrim(s: Seq<char>) -> Seq<char>
    decreases s.len(),
{
    if s.len() > 0 && space(s[s.len() - 1]) {
        rtrim(s.subrange(0, s.len() - 1))
    } else {
        s
    }
}

/// Whitespace removed from both ends.
pub open spec fn trim(s: Seq<char>) -> Seq<char> {
    rtrim(ltrim(s))
}

/// State `InLiteral`: the current literal run began at `start`, the cursor
/// is at `i`.  Emits the trailing literal — only if it is nonempty — once
/// the end of the template is reached.
pub open spec fn scan_literal(r: Rules, s: Seq<char>, start: int, i: int) -> Result<
    Seq<SegModel>,
    ScanError,
>
    decreases s.len() - i, 1int,
{
    if i >= s.len() {
        if start < i {
            Ok(seq![SegModel::Literal(s.subrange(start, i))])
        } else {
            Ok(Seq::empty())
        }
    } else if s[i] == r.open_delim {
        scan_at_delim(r, s, start, i)
    } else {
        scan_literal(r, s, start, i + 1)
    }
}

/// State `AtDelimiter`: an open delimiter stands at `i`; what follows it
/// decides between an escaped literal delimiter, a wrapped expression, a
/// bare expression, and a malformed interpolation.
pub open spec fn scan_at_delim(r: Rules, s: Seq<char>, start: int, i: int) -> Result<
    Seq<SegModel>,
    ScanError,
>
    decreases s.len() - i, 0int,
{
    if i + 1 >= s.len() {
        match r.wrap_open {
            Some(_) => Err(
                ScanError::InvalidDelimiterFollower { pos: (i + 1) as usize, found: None },
            ),
            None => Err(ScanError::UnterminatedExpression { open_pos: i as usize }),
        }
    } else if s[i + 1] == r.open_delim {
        // the doubled-escape case: both characters stay in the literal run
        scan_literal(r, s, start, i + 2)
    } else {
        match r.wrap_open {
            Some(w) => {
                if s[i + 1] == w {
                    scan_wrapped(r, s, start, i, i + 2, i + 2)
                } else if r.allow_bare && bare_start(s[i + 1]) {
                    scan_bare(r, s, start, i, i + 1, i + 2)
                } else {
                    Err(
                        ScanError::InvalidDelimiterFollower {
                            pos: (i + 1) as usize,
                            found: Some(s[i + 1]),
                        },
                    )
                }
            },
            None => scan_wrapped(r, s, start, i, i + 1, i + 1),
        }
    }
}

/// State `InWrappedExpression`: the open delimiter stands at `delim`, the
/// expression began at `expr_start`, the cursor is at `i`; characters are
/// consumed until the wrap-close character.
pub open spec fn scan_wrapped(
    r: Rules,
    s: Seq<char>,
    start: int,
    delim: int,
    expr_start: int,
    i: int,
) -> Result<Seq<SegModel>, ScanError>
    decreases s.len() - i, 0int,
{
    if i >= s.len() {
        Err(ScanError::UnterminatedExpression { open_pos: delim as usize })
    } else if s[i] == r.wrap_close {
        // `AfterWrappedExpression`: the new literal run begins right after
        // the close, whatever character stands there.
        match scan_literal(r, s, i + 1, i + 1) {
            Ok(rest) => Ok(
                seq![
                    SegModel::Literal(s.subrange(start, delim)),
                    SegModel::Expression(trim(s.subrange(expr_start, i))),
                ] + rest,
            ),
            Err(e) => Err(e),
        }
    } else {
        scan_wrapped(r, s, start, delim, expr_start, i + 1)
    }
}

/// State `InBareExpression`: the open delimiter stands at `delim`, the
/// expression began at `expr_start`, the cursor is at `i`; the first
/// character that cannot continue an identifier — or the end of the
/// template — ends the expression, and the new literal run begins at that
/// same character.
pub open spec fn scan_bare(
    r: Rules,
    s: Seq<char>,
    start: int,
    delim: int,
    expr_start: int,
    i: int,
) -> Result<Seq<SegModel>, ScanError>
    decreases s.len() - i, 2int,
{
    if i >= s.len() || !bare_continue(s[i]) {
        match scan_literal(r, s, i, i) {
            Ok(rest) => Ok(
                seq![
                    SegModel::Literal(s.subrange(start, delim)),
                    SegModel::Expression(s.subrange(expr_start, i)),
                ] + rest,
            ),
            Err(e) => Err(e),
        }
    } else {
        scan_bare(r, s, start, delim, expr_start, i + 1)
    }
}

/// The segment sequence of a template, or the error that aborts the scan.
pub open spec fn scan_spec(r: Rules, s: Seq<char>) -> Result<Seq<SegModel>, ScanError> {
    scan_literal(r, s, 0, 0)
}

/// Segments already emitted, glued onto whatever the rest of the scan says.
spec fn glue(pre: Seq<SegModel>, rest: Result<Seq<SegModel>, ScanError>) -> Result<
    Seq<SegModel>,
    ScanError,
> {
    match rest {
        Ok(v) => Ok(pre + v),
        Err(e) => Err(e),
    }
}

/// When the first `k` characters are whitespace and the `k`-th is not,
/// left-trimming drops exactly those `k` characters.
proof fn lemma_ltrim_at(s: Seq<char>, k: int)
    requires
        0 <= k <= s.len(),
        forall|j: int| 0 <= j < k ==> space(s[j]),
        k == s.len() || !space(s[k]),
    ensures
        ltrim(s) == s.subrange(k, s.len() as int),
    decreases k,
{
    if k == 0 {
        assert(s.subrange(0, s.len() as int) =~= s);
    } else {
        let tail = s.subrange(1, s.len() as int);
        lemma_ltrim_at(tail, k - 1);
        assert(tail.subrange(k - 1, tail.len() as int) =~= s.subrange(k, s.len() as int));
    }
}

/// When the characters from `k` on are whitespace and the one before `k` is
/// not, right-trimming keeps exactly the first `k` characters.
proof fn lemma_rtrim_at(s: Seq<char>, k: int)
    requires
        0 <= k <= s.len(),
        forall|j: int| k <= j < s.len() ==> space(s[j]),
        k == 0 || !space(s[k - 1]),
    ensures
        rtrim(s) == s.subrange(0, k),
    decreases s.len() - k,
{
    if k == s.len() {
        assert(s.subrange(0, s.len() as int) =~= s);
    } else {
        let head = s.subrange(0, s.len() - 1);
        lemma_rtrim_at(head, k);
        assert(head.subrange(0, k) =~= s.subrange(0, k));
    }
}

/// The text of a wrapped expression: the characters of `template` between
/// `lo` and `hi`, whitespace at either end removed.
fn trimmed_between(template: &str, lo: usize, hi: usize) -> (res: String)
    requires
        lo <= hi <= template@.len(),
    ensures
        res@ == trim(template@.subrange(lo as int, hi as int)),
{
    let ghost e = template@.subrange(lo as int, hi as int);
    let mut a: usize = lo;
    while a < hi && is_space(template.get_char(a))
        invariant
            lo <= a <= hi <= template@.len(),
            e == template@.subrange(lo as int, hi as int),
            forall|j: int| lo <= j < a ==> space(template@[j]),
        decreases hi - a,
    {
        a = a + 1;
    }
    proof {
        assert(forall|j: int| 0 <= j < a - lo ==> e[j] == template@[lo + j]);
        lemma_ltrim_at(e, a as int - lo);
        assert(ltrim(e) =~= template@.subrange(a as int, hi as int));
    }
    let mut b: usize = hi;
    while b > a && is_space(template.get_char(b - 1))
        invariant
            a <= b <= hi <= template@.len(),
            forall|j: int| b <= j < hi ==> space(template@[j]),
        decreases b,
    {
        b = b - 1;
    }
    proof {
        let le = template@.subrange(a as int, hi as int);
        assert(forall|j: int| 0 <= j < le.len() ==> le[j] == template@[a + j]);
        lemma_rtrim_at(le, b as int - a);
        assert(rtrim(le) =~= template@.subrange(a as int, b as int));
    }
    template.substring_char(a, b).to_owned()
}

/// The scanner's transient machine state, created fresh per scan.
enum ScanState {
    InLiteral,
    AtDelimiter,
    InWrappedExpression,
    InBareExpression,
    AfterWrappedExpression,
}

/// Orders the states that can follow one another without consuming a
/// character, for the scan loop's termination measure.
spec fn state_rank(st: ScanState) -> int {
    match st {
        ScanState::InLiteral => 1,
        ScanState::AtDelimiter => 0,
        ScanState::InWrappedExpression => 0,
        ScanState::InBareExpression => 2,
        ScanState::AfterWrappedExpression => 2,
    }
}

/// Scans a template into its segment sequence: one linear pass, driven by
/// the dialect `r`.  Returns exactly what [`scan_spec`] says — the segments
/// in document order, or the error on which the scan aborts with no partial
/// output.
pub fn scan(r: &Rules, template: &str) -> (res: Result<Vec<Segment>, ScanError>)
    ensures
        match res {
            Ok(v) => scan_spec(*r, template@) == Ok::<Seq<SegModel>, ScanError>(segs_model(v@)),
            Err(e) => scan_spec(*r, template@) == Err::<Seq<SegModel>, ScanError>(e),
        },
{
    let ghost ru = *r;
    let ghost t = template@;
    let n: usize = template.unicode_len();
    let mut out: Vec<Segment> = Vec::new();
    let mut state = ScanState::InLiteral;
    let mut i: usize = 0;
    let mut lit_start: usize = 0;
    let mut delim_pos: usize = 0;
    let mut expr_start: usize = 0;
    proof {
        assert(segs_model(out@) =~= Seq::<SegModel>::empty());
        match scan_spec(ru, t) {
            Ok(v) => {
                assert(Seq::<SegModel>::empty() + v =~= v);
            },
            Err(_) => {},
        }
    }
    loop
        invariant
            ru == *r,
            t == template@,
            n == t.len(),
            i <= n,
            match state {
                ScanState::InLiteral => lit_start <= i && glue(
                    segs_model(out@),
                    scan_literal(ru, t, lit_start as int, i as int),
                ) == scan_spec(ru, t),
                ScanState::AtDelimiter => lit_start <= i && i < n && delim_pos == i && glue(
                    segs_model(out@),
                    scan_at_delim(ru, t, lit_start as int, i as int),
                ) == scan_spec(ru, t),
                ScanState::InWrappedExpression => lit_start <= delim_pos && delim_pos <= n
                    && expr_start <= i && glue(
                    segs_model(out@),
                    scan_wrapped(
                        ru,
                        t,
                        lit_start as int,
                        delim_pos as int,
                        expr_start as int,
                        i as int,
                    ),
                ) == scan_spec(ru, t),
                ScanState::InBareExpression => lit_start <= delim_pos && delim_pos <= n
                    && expr_start <= i && glue(
                    segs_model(out@),
                    scan_bare(
                        ru,
                        t,
                        lit_start as int,
                        delim_pos as int,
                        expr_start as int,
                        i as int,
                    ),
                ) == scan_spec(ru, t),
                ScanState::AfterWrappedExpression => glue(
                    segs_model(out@),
                    scan_literal(ru, t, i as int, i as int),
                ) == scan_spec(ru, t),
            },
        decreases 3 * (n as int - i as int) + state_rank(state),
    {
        match state {
            ScanState::InLiteral => {
                if i == n {
                    if lit_start < i {
                        let text = template.substring_char(lit_start, i).to_owned();
                        let seg = Segment::Literal(text);
                        proof {
                            lemma_segs_model_push(out@, seg);
                            let done = segs_model(out@).push(seg@);
                            assert(done =~= segs_model(out@) + seq![
                                SegModel::Literal(t.subrange(lit_start as int, i as int)),
                            ]);
                        }
                        out.push(seg);
                        return Ok(out);
                    } else {
                        proof {
                            assert(segs_model(out@) + Seq::<SegModel>::empty() =~= segs_model(
                                out@,
                            ));
                        }
                        return Ok(out);
                    }
                } else {
                    let c = template.get_char(i);
                    if c == r.open_delim {
                        delim_pos = i;
                        state = ScanState::AtDelimiter;
                    } else {
                        i = i + 1;
                    }
                }
            },
            ScanState::AtDelimiter => {
                if i + 1 >= n {
                    match r.wrap_open {
                        Some(_) => {
                            return Err(
                                ScanError::InvalidDelimiterFollower { pos: i + 1, found: None },
                            );
                        },
                        None => {
                            return Err(ScanError::UnterminatedExpression { open_pos: i });
                        },
                    }
                } else {
                    let c2 = template.get_char(i + 1);
                    if c2 == r.open_delim {
                        i = i + 2;
                        state = ScanState::InLiteral;
                    } else {
                        match r.wrap_open {
                            Some(w) => {
                                if c2 == w {
                                    expr_start = i + 2;
                                    i = i + 2;
                                    state = ScanState::InWrappedExpression;
                                } else if r.allow_bare && is_bare_start(c2) {
                                    expr_start = i + 1;
                                    i = i + 2;
                                    state = ScanState::InBareExpression;
                                } else {
                                    return Err(
                                        ScanError::InvalidDelimiterFollower {
                                            pos: i + 1,
                                            found: Some(c2),
                                        },
                                    );
                                }
                            },
                            None => {
                                expr_start = i + 1;
                                i = i + 1;
                                state = ScanState::InWrappedExpression;
                            },
                        }
                    }
                }
            },
            ScanState::InWrappedExpression => {
                if i == n {
                    return Err(ScanError::UnterminatedExpression { open_pos: delim_pos });
                } else {
                    let c = template.get_char(i);
                    if c == r.wrap_close {
                        let ghost out0 = segs_model(out@);
                        let ghost two = seq![
                            SegModel::Literal(t.subrange(lit_start as int, delim_pos as int)),
                            SegModel::Expression(trim(t.subrange(expr_start as int, i as int))),
                        ];
                        let lit_text = template.substring_char(lit_start, delim_pos).to_owned();
                        let lit_seg = Segment::Literal(lit_text);
                        proof {
                            lemma_segs_model_push(out@, lit_seg);
                        }
                        out.push(lit_seg);
                        let expr_text = trimmed_between(template, expr_start, i);
                        let expr_seg = Segment::Expression(expr_text);
                        proof {
                            lemma_segs_model_push(out@, expr_seg);
                        }
                        out.push(expr_seg);
                        proof {
                            assert(segs_model(out@) =~= out0 + two);
                            match scan_literal(ru, t, i as int + 1, i as int + 1) {
                                Ok(rest) => {
                                    assert(out0 + (two + rest) =~= (out0 + two) + rest);
                                },
                                Err(_) => {},
                            }
                        }
                        i = i + 1;
                        state = ScanState::AfterWrappedExpression;
                    } else {
                        i = i + 1;
                    }
                }
            },
            ScanState::InBareExpression => {
                let at_end = i == n;
                let continues = if at_end {
                    false
                } else {
                    is_bare_continue(template.get_char(i))
                };
                if continues {
                    i = i + 1;
                } else {
                    let ghost out0 = segs_model(out@);
                    let ghost two = seq![
                        SegModel::Literal(t.subrange(lit_start as int, delim_pos as int)),
                        SegModel::Expression(t.subrange(expr_start as int, i as int)),
                    ];
                    let lit_text = template.substring_char(lit_start, delim_pos).to_owned();
                    let lit_seg = Segment::Literal(lit_text);
                    proof {
                        lemma_segs_model_push(out@, lit_seg);
                    }
                    out.push(lit_seg);
                    let expr_text = template.substring_char(expr_start, i).to_owned();
                    let expr_seg = Segment::Expression(expr_text);
                    proof {
                        lemma_segs_model_push(out@, expr_seg);
                    }
                    out.push(expr_seg);
                    proof {
                        assert(segs_model(out@) =~= out0 + two);
                        match scan_literal(ru, t, i as int, i as int) {
                            Ok(rest) => {
                                assert(out0 + (two + rest) =~= (out0 + two) + rest);
                            },
                            Err(_) => {},
                        }
                    }
                    lit_start = i;
                    state = ScanState::InLiteral;
                }
            },
            ScanState::AfterWrappedExpression => {
                // the explicit "begin a new literal run here" transition
                lit_start = i;
                state = ScanState::InLiteral;
            },
        }
    }
}

} // verus!
