//! Typed segments of a scanned template.

use vstd::prelude::*;

verus! {

/// One segment of a template, in document order.
#[derive(Debug, PartialEq, Eq)]
pub enum Segment {
    /// A run of literal characters.  Escape sequences are kept as written
    /// until the normalizer replaces them.
    Literal(String),
    /// The raw source text of one embedded expression.
    Expression(String),
}

/// The mathematical model of a segment.
#[verifier::ext_equal]
pub enum SegModel {
    Literal(Seq<char>),
    Expression(Seq<char>),
}

impl View for Segment {
    type V = SegModel;

    open spec fn view(&self) -> SegModel {
        match self {
            Segment::Literal(s) => SegModel::Literal(s@),
            Segment::Expression(s) => SegModel::Expression(s@),
        }
    }
}

/// The model of a segment sequence, in order.
pub open spec fn segs_model(v: Seq<Segment>) -> Seq<SegModel> {
    v.map(|i: int, s: Segment| s@)
}

/// Appending a segment appends its model.
pub proof fn lemma_segs_model_push(v: Seq<Segment>, s: Segment)
    ensures
        segs_model(v.push(s)) == segs_model(v).push(s@),
{
    assert(segs_model(v.push(s)) =~= segs_model(v).push(s@));
}

} // verus!
