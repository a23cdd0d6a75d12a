//! The invocation surface.
//!
//! An invocation hands over a token stream that must consist of exactly one
//! plain quoted string literal; [`extract_template`] checks that and strips
//! the quotes, and [`compile`] runs the whole compilation short of
//! evaluation: extract, scan, normalize.  Every failure aborts the whole
//! invocation; there is no partial output.
//!
//! Backslash escape sequences inside the quoted form pass through to the
//! template unchanged; only the enclosing quotes are removed.

use vstd::prelude::*;
use vstd::string::StrSliceExecFns;

use crate::normalize::{normalize_segments, normalized_segs};
use crate::rules::Rules;
use crate::scanner::{scan, scan_spec, ScanError};
use crate::segment::{segs_model, SegModel, Segment};
use crate::tokens::{lemma_stream_model_index, lemma_stream_model_len, stream_model, Token,
    TokenModel};

verus! {

/// Everything that can abort a compilation, reported at the invocation
/// boundary.
#[derive(Debug, Clone, Copy, PartialEq, Eq)]
pub enum CompileError {
    /// The invocation held zero tokens, more than one token, or a token
    /// that is not a plain quoted string literal.
    InvalidInvocation,
    /// The literal is a raw form, which is explicitly unsupported.
    RawLiteralRejected,
    /// A wrapped expression reached the end of the template without its
    /// closing delimiter.
    UnterminatedExpression { open_pos: usize },
    /// The character after an open delimiter can begin no expression.
    InvalidDelimiterFollower { pos: usize, found: Option<char> },
}

/// A scan failure, seen from the invocation boundary.
pub open spec fn lifted(e: ScanError) -> CompileError {
    match e {
        ScanError::UnterminatedExpression { open_pos } => CompileError::UnterminatedExpression {
            open_pos,
        },
        ScanError::InvalidDelimiterFollower { pos, found } => {
            CompileError::InvalidDelimiterFollower { pos, found }
        },
    }
}

/// The template inside an invocation's argument stream: the stream must be
/// exactly one literal token whose text is a plain quoted form; the
/// template is that text without its quotes.
pub open spec fn extract_spec(args: Seq<TokenModel>) -> Result<Seq<char>, CompileError> {
    if args.len() != 1 {
        Err(CompileError::InvalidInvocation)
    } else {
        match args[0] {
            TokenModel::Literal(l) => {
                if l.len() >= 1 && l[0] == 'r' {
                    Err(CompileError::RawLiteralRejected)
                } else if l.len() >= 2 && l[0] == '"' && l[l.len() - 1] == '"' {
                    Ok(l.subrange(1, l.len() - 1))
                } else {
                    Err(CompileError::InvalidInvocation)
                }
            },
            _ => Err(CompileError::InvalidInvocation),
        }
    }
}

/// The compiled segment sequence of an invocation: the extracted template,
/// scanned under `r`, its literal segments normalized.
pub open spec fn compile_spec(r: Rules, args: Seq<TokenModel>) -> Result<
    Seq<SegModel>,
    CompileError,
> {
    match extract_spec(args) {
        Ok(t) => match scan_spec(r, t) {
            Ok(segs) => Ok(normalized_segs(r, segs)),
            Err(e) => Err(lifted(e)),
        },
        Err(e) => Err(e),
    }
}

/// Checks the invocation and strips the quotes from the template literal.
pub fn extract_template(args: &Vec<Token>) -> (res: Result<String, CompileError>)
    ensures
        match res {
            Ok(s) => extract_spec(stream_model(args@)) == Ok::<Seq<char>, CompileError>(s@),
            Err(e) => extract_spec(stream_model(args@)) == Err::<Seq<char>, CompileError>(e),
        },
{
    proof {
        lemma_stream_model_len(args@);
    }
    if args.len() != 1 {
        return Err(CompileError::InvalidInvocation);
    }
    proof {
        lemma_stream_model_index(args@, 0);
    }
    match &args[0] {
        Token::Literal(l) => {
            let text = l.as_str();
            let n: usize = text.unicode_len();
            if n >= 1 && text.get_char(0) == 'r' {
                Err(CompileError::RawLiteralRejected)
            } else if n >= 2 && text.get_char(0) == '"' && text.get_char(n - 1) == '"' {
                Ok(text.substring_char(1, n - 1).to_owned())
            } else {
                Err(CompileError::InvalidInvocation)
            }
        },
        _ => Err(CompileError::InvalidInvocation),
    }
}

/// Compiles one invocation: checks and unquotes the argument, scans the
/// template, and normalizes the literal segments.  Returns the segment
/// sequence the emitter consumes, or the error that aborts the invocation.
pub fn compile(r: &Rules, args: &Vec<Token>) -> (res: Result<Vec<Segment>, CompileError>)
    ensures
        match res {
            Ok(v) => compile_spec(*r, stream_model(args@)) == Ok::<Seq<SegModel>, CompileError>(
                segs_model(v@),
            ),
            Err(e) => compile_spec(*r, stream_model(args@)) == Err::<Seq<SegModel>, CompileError>(
                e,
            ),
        },
{
    let template = match extract_template(args) {
        Ok(t) => t,
        Err(e) => {
            return Err(e);
        },
    };
    let segs = match scan(r, template.as_str()) {
        Ok(v) => v,
        Err(e) => {
            let lifted_err = match e {
                ScanError::UnterminatedExpression { open_pos } => {
                    CompileError::UnterminatedExpression { open_pos }
                },
                ScanError::InvalidDelimiterFollower { pos, found } => {
                    CompileError::InvalidDelimiterFollower { pos, found }
                },
            };
            return Err(lifted_err);
        },
    };
    Ok(normalize_segments(r, &segs))
}

} // verus!
