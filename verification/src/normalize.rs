//! The escape normalizer.
//!
//! Inside literal text a doubled open delimiter stands for one literal open
//! delimiter, and a doubled close delimiter for one literal close
//! delimiter.  [`normalize`] replaces every such pair, left to right and
//! non-overlapping; text without escape pairs passes through unchanged.

use vstd::prelude::*;
use vstd::string::StrSliceExecFns;

use crate::rules::Rules;
use crate::segment::{segs_model, SegModel, Segment};

verus! {

/// Whether `s` begins with a doubled escape pair of the dialect.
pub open spec fn pair_at_front(r: Rules, s: Seq<char>) -> bool {
    s.len() >= 2 && s[1] == s[0] && (s[0] == r.open_delim || s[0] == r.wrap_close)
}

/// Literal text with every doubled open- or close-delimiter pair replaced
/// by the single character it stands for, left to right, non-overlapping.
pub open spec fn normalized(r: Rules, s: Seq<char>) -> Seq<char>
    decreases s.len(),
{
    if s.len() == 0 {
        s
    } else if pair_at_front(r, s) {
        seq![s[0]] + normalized(r, s.subrange(2, s.len() as int))
    } else {
        seq![s[0]] + normalized(r, s.subrange(1, s.len() as int))
    }
}

/// A segment sequence with every literal segment normalized and every
/// expression segment untouched.
pub open spec fn normalized_segs(r: Rules, segs: Seq<SegModel>) -> Seq<SegModel> {
    segs.map(
        |i: int, sm: SegModel|
            match sm {
                SegModel::Literal(tx) => SegModel::Literal(normalized(r, tx)),
                SegModel::Expression(tx) => SegModel::Expression(tx),
            },
    )
}

/// Relies on `String::push`: appends the given character to the end of the
/// string.
#[verifier::external_body]
fn push_char(s: &mut String, c: char)
    ensures
        final(s)@ == old(s)@.push(c),
{
    s.push(c);
}

/// Normalizes one literal run.
pub fn normalize(r: &Rules, text: &str) -> (res: String)
    ensures
        res@ == normalized(*r, text@),
{
    let ghost t = text@;
    let n: usize = text.unicode_len();
    let mut out = String::new();
    let mut i: usize = 0;
    proof {
        assert(t.subrange(0, n as int) =~= t);
        assert(out@ + normalized(*r, t) =~= normalized(*r, t));
    }
    while i < n
        invariant
            i <= n,
            n == t.len(),
            t == text@,
            out@ + normalized(*r, t.subrange(i as int, n as int)) == normalized(*r, t),
        decreases n - i,
    {
        let ghost suffix = t.subrange(i as int, n as int);
        proof {
            assert(suffix[0] == t[i as int]);
            if i + 1 < n {
                assert(suffix[1] == t[i as int + 1]);
            }
        }
        let c = text.get_char(i);
        let mut step: usize = 1;
        if i + 1 < n && (c == r.open_delim || c == r.wrap_close) {
            let c2 = text.get_char(i + 1);
            if c2 == c {
                step = 2;
            }
        }
        proof {
            assert(pair_at_front(*r, suffix) <==> step == 2);
            if step == 2 {
                assert(suffix.subrange(2, suffix.len() as int) =~= t.subrange(
                    i as int + 2,
                    n as int,
                ));
            } else {
                assert(suffix.subrange(1, suffix.len() as int) =~= t.subrange(
                    i as int + 1,
                    n as int,
                ));
            }
            assert(normalized(*r, suffix) == seq![t[i as int]] + normalized(
                *r,
                t.subrange(i as int + step, n as int),
            ));
            assert(out@.push(c) =~= out@ + seq![c]);
            assert((out@ + seq![c]) + normalized(*r, t.subrange(i as int + step, n as int)) =~= out@
                + (seq![c] + normalized(*r, t.subrange(i as int + step, n as int))));
        }
        push_char(&mut out, c);
        i = i + step;
    }
    proof {
        assert(t.subrange(n as int, n as int) =~= Seq::<char>::empty());
        assert(out@ + Seq::<char>::empty() =~= out@);
    }
    out
}

/// Normalizes the literal segments of a scanned sequence.
pub fn normalize_segments(r: &Rules, segs: &Vec<Segment>) -> (res: Vec<Segment>)
    ensures
        segs_model(res@) == normalized_segs(*r, segs_model(segs@)),
{
    let ghost m = segs_model(segs@);
    let mut out: Vec<Segment> = Vec::new();
    let mut k: usize = 0;
    while k < segs.len()
        invariant
            k <= segs.len(),
            m == segs_model(segs@),
            m.len() == segs@.len(),
            out@.len() == k,
            forall|j: int| 0 <= j < k ==> out@[j]@ == normalized_segs(*r, m)[j],
        decreases segs.len() - k,
    {
        let seg = match &segs[k] {
            Segment::Literal(tx) => Segment::Literal(normalize(r, tx.as_str())),
            Segment::Expression(tx) => Segment::Expression(tx.clone()),
        };
        out.push(seg);
        k = k + 1;
    }
    proof {
        assert(segs_model(out@) =~= normalized_segs(*r, m));
    }
    out
}

} // verus!
