//! The token model.
//!
//! The host toolchain's token trees run through the rewriter's logic, so the
//! library has a token type of its own that holds as plain values exactly
//! what that logic reads: identifiers, punctuation, literals, and delimited
//! groups of nested tokens.

use vstd::prelude::*;

verus! {

/// The delimiter of a token group.
#[derive(Debug, Clone, Copy, PartialEq, Eq, Structural)]
pub enum Delim {
    Parenthesis,
    Brace,
    Bracket,
    /// An invisible delimiter, grouping tokens without any written character.
    Invisible,
}

/// One token of a token stream.
#[derive(Debug, PartialEq, Eq)]
pub enum Token {
    /// An identifier or keyword.
    Ident(String),
    /// A single punctuation character.
    Punct(char),
    /// A literal, carried as its source text (a string literal keeps its
    /// enclosing quotes).
    Literal(String),
    /// A delimited group of nested tokens.
    Group(Delim, Vec<Token>),
}

/// The mathematical model of a token.
#[verifier::ext_equal]
pub enum TokenModel {
    Ident(Seq<char>),
    Punct(char),
    Literal(Seq<char>),
    Group(Delim, Seq<TokenModel>),
}

/// The model of one token.
pub open spec fn token_model(t: Token) -> TokenModel
    decreases t, 0int,
{
    match t {
        Token::Ident(s) => TokenModel::Ident(s@),
        Token::Punct(c) => TokenModel::Punct(c),
        Token::Literal(s) => TokenModel::Literal(s@),
        Token::Group(d, ts) => TokenModel::Group(d, stream_model(ts@)),
    }
}

/// The model of a whole token stream, tokens in order.
pub open spec fn stream_model(ts: Seq<Token>) -> Seq<TokenModel>
    decreases ts, 1int,
{
    if ts.len() == 0 {
        Seq::empty()
    } else {
        seq![token_model(ts[0])] + stream_model(ts.subrange(1, ts.len() as int))
    }
}

impl View for Token {
    type V = TokenModel;

    open spec fn view(&self) -> TokenModel {
        token_model(*self)
    }
}

/// A stream's model has one entry per token.
pub proof fn lemma_stream_model_len(ts: Seq<Token>)
    ensures
        stream_model(ts).len() == ts.len(),
    decreases ts.len(),
{
    if ts.len() > 0 {
        lemma_stream_model_len(ts.subrange(1, ts.len() as int));
    }
}

/// The model of a stream, at any position, is the model of the token there.
pub proof fn lemma_stream_model_index(ts: Seq<Token>, i: int)
    requires
        0 <= i < ts.len(),
    ensures
        stream_model(ts).len() == ts.len(),
        stream_model(ts)[i] == token_model(ts[i]),
    decreases i,
{
    lemma_stream_model_len(ts);
    if i > 0 {
        let tail = ts.subrange(1, ts.len() as int);
        lemma_stream_model_index(tail, i - 1);
        assert(tail[i - 1] == ts[i]);
    }
}

/// Appending a token to a stream appends its model to the stream's model.
pub proof fn lemma_stream_model_push(ts: Seq<Token>, t: Token)
    ensures
        stream_model(ts.push(t)) == stream_model(ts).push(token_model(t)),
    decreases ts.len(),
{
    lemma_stream_model_len(ts);
    lemma_stream_model_len(ts.push(t));
    if ts.len() == 0 {
        assert(ts.push(t)[0] == t);
        assert(ts.push(t).subrange(1, 1) =~= Seq::<Token>::empty());
        assert(stream_model(ts.push(t)) =~= stream_model(ts).push(token_model(t)));
    } else {
        let tail = ts.subrange(1, ts.len() as int);
        lemma_stream_model_push(tail, t);
        assert(ts.push(t)[0] == ts[0]);
        assert(ts.push(t).subrange(1, ts.len() as int + 1) =~= tail.push(t));
        assert(stream_model(ts.push(t)) =~= stream_model(ts).push(token_model(t)));
    }
}

} // verus!
