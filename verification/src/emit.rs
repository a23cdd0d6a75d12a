//! The segment-to-output emitter.
//!
//! The emitter arranges the interpolation result as a single concatenation:
//! every literal segment contributes its text verbatim, and every
//! expression segment contributes one value from an ordered value list —
//! one value per expression occurrence, in document order, with no
//! reordering and no deduplication.  Evaluating the expressions is the
//! caller's affair: [`expression_sources`] hands out the expression texts
//! in order, and [`emit`] concatenates the values handed back.

use vstd::prelude::*;
use vstd::string::StringExecFns;

use crate::segment::{segs_model, SegModel, Segment};

verus! {

/// How many expression segments a sequence holds.
pub open spec fn expr_count(segs: Seq<SegModel>) -> nat
    decreases segs.len(),
{
    if segs.len() == 0 {
        0
    } else {
        (match segs[0] {
            SegModel::Expression(_) => 1nat,
            SegModel::Literal(_) => 0nat,
        }) + expr_count(segs.subrange(1, segs.len() as int))
    }
}

/// The expression source texts of a sequence, in document order; the same
/// text occurring twice appears twice.
pub open spec fn sources_spec(segs: Seq<SegModel>) -> Seq<Seq<char>>
    decreases segs.len(),
{
    if segs.len() == 0 {
        Seq::empty()
    } else {
        let rest = sources_spec(segs.subrange(1, segs.len() as int));
        match segs[0] {
            SegModel::Expression(tx) => seq![tx] + rest,
            SegModel::Literal(_) => rest,
        }
    }
}

/// The emitted output: literal texts verbatim, and for the `k`-th
/// expression segment the `k`-th value, all concatenated in document order.
pub open spec fn emit_spec(segs: Seq<SegModel>, vals: Seq<Seq<char>>) -> Seq<char>
    decreases segs.len(),
{
    if segs.len() == 0 {
        Seq::empty()
    } else {
        let rest = segs.subrange(1, segs.len() as int);
        match segs[0] {
            SegModel::Literal(tx) => tx + emit_spec(rest, vals),
            SegModel::Expression(_) => {
                if vals.len() > 0 {
                    vals[0] + emit_spec(rest, vals.subrange(1, vals.len() as int))
                } else {
                    emit_spec(rest, vals)
                }
            },
        }
    }
}

/// The model of a value list.
pub open spec fn strs_model(v: Seq<String>) -> Seq<Seq<char>> {
    v.map(|i: int, s: String| s@)
}

/// Counting expressions distributes over concatenation.
pub proof fn lemma_expr_count_concat(a: Seq<SegModel>, b: Seq<SegModel>)
    ensures
        expr_count(a + b) == expr_count(a) + expr_count(b),
    decreases a.len(),
{
    if a.len() == 0 {
        assert(a + b =~= b);
    } else {
        let tail = a.subrange(1, a.len() as int);
        lemma_expr_count_concat(tail, b);
        assert((a + b).subrange(1, (a + b).len() as int) =~= tail + b);
        assert((a + b)[0] == a[0]);
    }
}

/// A sequence splits, at any position, into a prefix and a suffix whose
/// expression counts add up.
pub proof fn lemma_expr_count_split(segs: Seq<SegModel>, k: int)
    requires
        0 <= k <= segs.len(),
    ensures
        expr_count(segs) == expr_count(segs.subrange(0, k)) + expr_count(
            segs.subrange(k, segs.len() as int),
        ),
{
    lemma_expr_count_concat(segs.subrange(0, k), segs.subrange(k, segs.len() as int));
    assert(segs.subrange(0, k) + segs.subrange(k, segs.len() as int) =~= segs);
}

/// Appending one segment raises the count by one exactly when it is an
/// expression segment.
proof fn lemma_expr_count_push(segs: Seq<SegModel>, x: SegModel)
    ensures
        expr_count(segs.push(x)) == expr_count(segs) + (match x {
            SegModel::Expression(_) => 1nat,
            SegModel::Literal(_) => 0nat,
        }),
{
    lemma_expr_count_concat(segs, seq![x]);
    assert(segs + seq![x] =~= segs.push(x));
    assert(seq![x].subrange(1, 1) =~= Seq::<SegModel>::empty());
    assert(expr_count(Seq::<SegModel>::empty()) == 0);
    assert(expr_count(seq![x]) == expr_count(Seq::<SegModel>::empty()) + (match x {
        SegModel::Expression(_) => 1nat,
        SegModel::Literal(_) => 0nat,
    }));
}

/// Collecting sources distributes over concatenation.
proof fn lemma_sources_concat(a: Seq<SegModel>, b: Seq<SegModel>)
    ensures
        sources_spec(a + b) == sources_spec(a) + sources_spec(b),
    decreases a.len(),
{
    if a.len() == 0 {
        assert(a + b =~= b);
        assert(sources_spec(a) + sources_spec(b) =~= sources_spec(b));
    } else {
        let tail = a.subrange(1, a.len() as int);
        lemma_sources_concat(tail, b);
        assert((a + b).subrange(1, (a + b).len() as int) =~= tail + b);
        assert((a + b)[0] == a[0]);
        match a[0] {
            SegModel::Expression(tx) => {
                assert(seq![tx] + (sources_spec(tail) + sources_spec(b)) =~= (seq![tx]
                    + sources_spec(tail)) + sources_spec(b));
            },
            SegModel::Literal(_) => {},
        }
    }
}

/// How many expression segments a scanned sequence holds.
pub fn expression_count(segs: &Vec<Segment>) -> (res: usize)
    ensures
        res == expr_count(segs_model(segs@)),
{
    let ghost m = segs_model(segs@);
    let mut count: usize = 0;
    let mut k: usize = 0;
    proof {
        assert(m.subrange(0, 0) =~= Seq::<SegModel>::empty());
    }
    while k < segs.len()
        invariant
            k <= segs.len(),
            m == segs_model(segs@),
            m.len() == segs@.len(),
            count <= k,
            count == expr_count(m.subrange(0, k as int)),
        decreases segs.len() - k,
    {
        proof {
            lemma_expr_count_push(m.subrange(0, k as int), m[k as int]);
            assert(m.subrange(0, k as int).push(m[k as int]) =~= m.subrange(0, k as int + 1));
        }
        match &segs[k] {
            Segment::Expression(_) => {
                count = count + 1;
            },
            Segment::Literal(_) => {},
        }
        k = k + 1;
    }
    proof {
        assert(m.subrange(0, m.len() as int) =~= m);
    }
    count
}

/// The expression source texts of a scanned sequence, in document order,
/// ready to be handed to the host's expression evaluator.
pub fn expression_sources(segs: &Vec<Segment>) -> (res: Vec<String>)
    ensures
        strs_model(res@) == sources_spec(segs_model(segs@)),
{
    let ghost m = segs_model(segs@);
    let mut out: Vec<String> = Vec::new();
    let mut k: usize = 0;
    proof {
        assert(m.subrange(0, 0) =~= Seq::<SegModel>::empty());
        assert(strs_model(out@) =~= sources_spec(m.subrange(0, 0)));
    }
    while k < segs.len()
        invariant
            k <= segs.len(),
            m == segs_model(segs@),
            m.len() == segs@.len(),
            strs_model(out@) == sources_spec(m.subrange(0, k as int)),
        decreases segs.len() - k,
    {
        proof {
            lemma_sources_concat(m.subrange(0, k as int), seq![m[k as int]]);
            assert(m.subrange(0, k as int) + seq![m[k as int]] =~= m.subrange(0, k as int + 1));
            assert(seq![m[k as int]].subrange(1, 1) =~= Seq::<SegModel>::empty());
            assert(sources_spec(Seq::<SegModel>::empty()) == Seq::<Seq<char>>::empty());
        }
        match &segs[k] {
            Segment::Expression(tx) => {
                proof {
                    assert(sources_spec(seq![m[k as int]]) =~= seq![tx@]);
                }
                let copy = tx.clone();
                out.push(copy);
                proof {
                    assert(strs_model(out@) =~= sources_spec(m.subrange(0, k as int + 1)));
                }
            },
            Segment::Literal(_) => {
                proof {
                    assert(sources_spec(seq![m[k as int]]) =~= Seq::<Seq<char>>::empty());
                    assert(strs_model(out@) =~= sources_spec(m.subrange(0, k as int + 1)));
                }
            },
        }
        k = k + 1;
    }
    proof {
        assert(m.subrange(0, m.len() as int) =~= m);
    }
    out
}

/// Concatenates the segments with the evaluated expression values: literal
/// texts verbatim, values positionally, everything in document order, each
/// value used exactly once.
pub fn emit(segs: &Vec<Segment>, vals: &Vec<String>) -> (res: String)
    requires
        vals@.len() == expr_count(segs_model(segs@)),
    ensures
        res@ == emit_spec(segs_model(segs@), strs_model(vals@)),
{
    let ghost m = segs_model(segs@);
    let ghost vs = strs_model(vals@);
    let mut out = String::new();
    let mut k: usize = 0;
    let mut j: usize = 0;
    proof {
        assert(m.subrange(0, m.len() as int) =~= m);
        assert(vs.subrange(0, vs.len() as int) =~= vs);
        assert(m.subrange(0, 0) =~= Seq::<SegModel>::empty());
        assert(out@ + emit_spec(m, vs) =~= emit_spec(m, vs));
    }
    while k < segs.len()
        invariant
            k <= segs.len(),
            j <= vals.len(),
            m == segs_model(segs@),
            m.len() == segs@.len(),
            vs == strs_model(vals@),
            vs.len() == vals@.len(),
            vs.len() == expr_count(m),
            j == expr_count(m.subrange(0, k as int)),
            out@ + emit_spec(
                m.subrange(k as int, m.len() as int),
                vs.subrange(j as int, vs.len() as int),
            ) == emit_spec(m, vs),
        decreases segs.len() - k,
    {
        let ghost suffix = m.subrange(k as int, m.len() as int);
        let ghost vsuffix = vs.subrange(j as int, vs.len() as int);
        proof {
            assert(suffix[0] == m[k as int]);
            assert(suffix.subrange(1, suffix.len() as int) =~= m.subrange(
                k as int + 1,
                m.len() as int,
            ));
            lemma_expr_count_push(m.subrange(0, k as int), m[k as int]);
            assert(m.subrange(0, k as int).push(m[k as int]) =~= m.subrange(0, k as int + 1));
        }
        match &segs[k] {
            Segment::Literal(tx) => {
                proof {
                    assert(emit_spec(suffix, vsuffix) == tx@ + emit_spec(
                        suffix.subrange(1, suffix.len() as int),
                        vsuffix,
                    ));
                    assert(out@ + (tx@ + emit_spec(
                        m.subrange(k as int + 1, m.len() as int),
                        vsuffix,
                    )) =~= (out@ + tx@) + emit_spec(
                        m.subrange(k as int + 1, m.len() as int),
                        vsuffix,
                    ));
                }
                out.append(tx.as_str());
            },
            Segment::Expression(_) => {
                proof {
                    lemma_expr_count_split(m, k as int);
                    assert(expr_count(suffix) >= 1);
                    assert(j < vals.len());
                    assert(vsuffix[0] == vs[j as int]);
                    assert(vsuffix.subrange(1, vsuffix.len() as int) =~= vs.subrange(
                        j as int + 1,
                        vs.len() as int,
                    ));
                    assert(emit_spec(suffix, vsuffix) == vs[j as int] + emit_spec(
                        suffix.subrange(1, suffix.len() as int),
                        vsuffix.subrange(1, vsuffix.len() as int),
                    ));
                    assert(out@ + (vs[j as int] + emit_spec(
                        m.subrange(k as int + 1, m.len() as int),
                        vs.subrange(j as int + 1, vs.len() as int),
                    )) =~= (out@ + vs[j as int]) + emit_spec(
                        m.subrange(k as int + 1, m.len() as int),
                        vs.subrange(j as int + 1, vs.len() as int),
                    ));
                }
                let value = &vals[j];
                out.append(value.as_str());
                j = j + 1;
            },
        }
        k = k + 1;
    }
    proof {
        assert(m.subrange(m.len() as int, m.len() as int) =~= Seq::<SegModel>::empty());
        assert(out@ + Seq::<char>::empty() =~= out@);
    }
    out
}

/// Emits when the value list fits the segments — one value per expression
/// segment — and reports the mismatch otherwise.
pub fn emit_checked(segs: &Vec<Segment>, vals: &Vec<String>) -> (res: Option<String>)
    ensures
        match res {
            Some(s) => vals@.len() == expr_count(segs_model(segs@)) && s@ == emit_spec(
                segs_model(segs@),
                strs_model(vals@),
            ),
            None => vals@.len() != expr_count(segs_model(segs@)),
        },
{
    let count: usize = expression_count(segs);
    if count == vals.len() {
        Some(emit(segs, vals))
    } else {
        None
    }
}

} // verus!
