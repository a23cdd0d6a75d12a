//! The prefix-annotation rewriter.
//!
//! [`process_stream`] walks a token stream once.  Wherever an identifier
//! equal to the trigger prefix `f` is immediately followed by a literal, the
//! pair is replaced by the tokens `format ! ( <literal> )`; a trigger
//! identifier followed by anything else — or standing last in the stream —
//! is emitted unchanged, and the rewrite recurses into delimited groups but
//! touches no other token.

use vstd::prelude::*;
use vstd::string::StrSliceExecFns;

use crate::tokens::{lemma_stream_model_index, lemma_stream_model_len, lemma_stream_model_push};
use crate::tokens::{stream_model, token_model, Delim, Token, TokenModel};

verus! {

/// The trigger prefix: an identifier spelled `f`.
pub open spec fn trigger_ident() -> Seq<char> {
    seq!['f']
}

/// The identifier of the call that replaces a trigger/literal pair.
pub open spec fn format_ident() -> Seq<char> {
    seq!['f', 'o', 'r', 'm', 'a', 't']
}

/// Whether a token is the trigger identifier.
pub open spec fn is_trigger(t: TokenModel) -> bool {
    match t {
        TokenModel::Ident(name) => name == trigger_ident(),
        _ => false,
    }
}

/// The tokens that replace one trigger/literal pair: `format ! ( lit )`.
pub open spec fn replacement(lit: TokenModel) -> Seq<TokenModel> {
    seq![
        TokenModel::Ident(format_ident()),
        TokenModel::Punct('!'),
        TokenModel::Group(Delim::Parenthesis, seq![lit]),
    ]
}

/// The rewritten form of a token stream: every trigger identifier that is
/// immediately followed by a literal becomes, with that literal, a
/// `format ! ( lit )` call; groups are rewritten recursively; every other
/// token — including a trigger identifier followed by a non-literal or by
/// nothing — stays as it is.
pub open spec fn rewrite_spec(ts: Seq<TokenModel>) -> Seq<TokenModel>
    decreases ts,
{
    if ts.len() == 0 {
        Seq::empty()
    } else if ts.len() >= 2 && is_trigger(ts[0]) && ts[1] is Literal {
        replacement(ts[1]) + rewrite_spec(ts.subrange(2, ts.len() as int))
    } else {
        let head = match ts[0] {
            TokenModel::Group(d, inner) => TokenModel::Group(d, rewrite_spec(inner)),
            _ => ts[0],
        };
        seq![head] + rewrite_spec(ts.subrange(1, ts.len() as int))
    }
}

/// Whether a stream holds no literal token at any nesting depth.
pub open spec fn literal_free(ts: Seq<TokenModel>) -> bool
    decreases ts,
{
    if ts.len() == 0 {
        true
    } else {
        (match ts[0] {
            TokenModel::Literal(_) => false,
            TokenModel::Group(_, inner) => literal_free(inner),
            _ => true,
        }) && literal_free(ts.subrange(1, ts.len() as int))
    }
}

/// Character-for-character string equality.
fn str_eq(a: &str, b: &str) -> (r: bool)
    ensures
        r == (a@ == b@),
{
    let n: usize = a.unicode_len();
    if n != b.unicode_len() {
        return false;
    }
    let mut i: usize = 0;
    while i < n
        invariant
            i <= n,
            n == a@.len(),
            n == b@.len(),
            forall|j: int| 0 <= j < i ==> a@[j] == b@[j],
        decreases n - i,
    {
        if a.get_char(i) != b.get_char(i) {
            return false;
        }
        i = i + 1;
    }
    proof {
        assert(a@ =~= b@);
    }
    true
}

/// The invariant of the rewriting loop: the tokens emitted so far, followed
/// by the rewritten form of the remaining suffix, are the rewritten whole.
spec fn loop_inv(done: Seq<TokenModel>, m: Seq<TokenModel>, i: int) -> bool {
    done + rewrite_spec(m.subrange(i, m.len() as int)) == rewrite_spec(m)
}

/// Rewrites one token stream, recursing into groups.
pub fn process_stream(input: &Vec<Token>) -> (res: Vec<Token>)
    ensures
        stream_model(res@) == rewrite_spec(stream_model(input@)),
    decreases input@,
{
    let ghost m = stream_model(input@);
    proof {
        lemma_stream_model_len(input@);
        assert(m.subrange(0, m.len() as int) =~= m);
    }
    let mut out: Vec<Token> = Vec::new();
    let mut i: usize = 0;
    while i < input.len()
        invariant
            i <= input.len(),
            m == stream_model(input@),
            m.len() == input@.len(),
            loop_inv(stream_model(out@), m, i as int),
        decreases input.len() - i,
    {
        let ghost j = i as int;
        let ghost n: int = m.len() as int;
        let ghost suffix = m.subrange(j, n);
        proof {
            lemma_stream_model_index(input@, j);
            assert(suffix[0] == m[j]);
        }
        match &input[i] {
            Token::Ident(name) => {
                let is_f = str_eq(name.as_str(), "f");
                proof {
                    reveal_strlit("f");
                    assert("f"@ =~= trigger_ident());
                }
                let mut rewrote = false;
                if is_f && i + 1 < input.len() {
                    proof {
                        lemma_stream_model_index(input@, j + 1);
                        assert(suffix[1] == m[j + 1]);
                    }
                    match &input[i + 1] {
                        Token::Literal(lit) => {
                            let format_name: String = "format".to_owned();
                            proof {
                                reveal_strlit("format");
                                assert(format_name@ =~= format_ident());
                                lemma_stream_model_push(out@, Token::Ident(format_name));
                            }
                            let ghost out0 = stream_model(out@);
                            out.push(Token::Ident(format_name));
                            proof {
                                lemma_stream_model_push(out@, Token::Punct('!'));
                            }
                            out.push(Token::Punct('!'));
                            let arg = Token::Literal(lit.clone());
                            let ghost arg_model = token_model(arg);
                            let mut group_tokens: Vec<Token> = Vec::new();
                            group_tokens.push(arg);
                            proof {
                                assert(group_tokens@ =~= seq![arg]);
                                lemma_stream_model_index(group_tokens@, 0);
                                assert(stream_model(group_tokens@) =~= seq![arg_model]);
                            }
                            let group = Token::Group(Delim::Parenthesis, group_tokens);
                            proof {
                                lemma_stream_model_push(out@, group);
                            }
                            out.push(group);
                            rewrote = true;
                            proof {
                                assert(arg_model == m[j + 1]);
                                assert(stream_model(out@) =~= out0 + replacement(m[j + 1]));
                                assert(suffix.subrange(2, suffix.len() as int) =~= m.subrange(
                                    j + 2,
                                    n,
                                ));
                                assert(rewrite_spec(suffix) == replacement(m[j + 1])
                                    + rewrite_spec(m.subrange(j + 2, n)));
                                assert(out0 + (replacement(m[j + 1]) + rewrite_spec(
                                    m.subrange(j + 2, n),
                                )) =~= (out0 + replacement(m[j + 1])) + rewrite_spec(
                                    m.subrange(j + 2, n),
                                ));
                                assert(loop_inv(stream_model(out@), m, j + 2));
                            }
                        },
                        _ => {},
                    }
                }
                if rewrote {
                    i = i + 2;
                } else {
                    let copy = Token::Ident(name.clone());
                    proof {
                        lemma_stream_model_push(out@, copy);
                    }
                    let ghost out0 = stream_model(out@);
                    out.push(copy);
                    proof {
                        assert(token_model(copy) == m[j]);
                        assert(stream_model(out@) =~= out0 + seq![m[j]]);
                        assert(!(suffix.len() >= 2 && is_trigger(suffix[0])
                            && suffix[1] is Literal));
                        assert(suffix.subrange(1, suffix.len() as int) =~= m.subrange(j + 1, n));
                        assert(rewrite_spec(suffix) == seq![m[j]] + rewrite_spec(
                            m.subrange(j + 1, n),
                        ));
                        assert(out0 + (seq![m[j]] + rewrite_spec(m.subrange(j + 1, n))) =~= (out0
                            + seq![m[j]]) + rewrite_spec(m.subrange(j + 1, n)));
                        assert(loop_inv(stream_model(out@), m, j + 1));
                    }
                    i = i + 1;
                }
            },
            Token::Punct(c) => {
                let copy = Token::Punct(*c);
                proof {
                    lemma_stream_model_push(out@, copy);
                }
                let ghost out0 = stream_model(out@);
                out.push(copy);
                proof {
                    assert(token_model(copy) == m[j]);
                    assert(stream_model(out@) =~= out0 + seq![m[j]]);
                    assert(suffix.subrange(1, suffix.len() as int) =~= m.subrange(j + 1, n));
                    assert(rewrite_spec(suffix) == seq![m[j]] + rewrite_spec(m.subrange(j + 1, n)));
                    assert(out0 + (seq![m[j]] + rewrite_spec(m.subrange(j + 1, n))) =~= (out0
                        + seq![m[j]]) + rewrite_spec(m.subrange(j + 1, n)));
                    assert(loop_inv(stream_model(out@), m, j + 1));
                }
                i = i + 1;
            },
            Token::Literal(text) => {
                let copy = Token::Literal(text.clone());
                proof {
                    lemma_stream_model_push(out@, copy);
                }
                let ghost out0 = stream_model(out@);
                out.push(copy);
                proof {
                    assert(token_model(copy) == m[j]);
                    assert(stream_model(out@) =~= out0 + seq![m[j]]);
                    assert(suffix.subrange(1, suffix.len() as int) =~= m.subrange(j + 1, n));
                    assert(rewrite_spec(suffix) == seq![m[j]] + rewrite_spec(m.subrange(j + 1, n)));
                    assert(out0 + (seq![m[j]] + rewrite_spec(m.subrange(j + 1, n))) =~= (out0
                        + seq![m[j]]) + rewrite_spec(m.subrange(j + 1, n)));
                    assert(loop_inv(stream_model(out@), m, j + 1));
                }
                i = i + 1;
            },
            Token::Group(d, inner) => {
                proof {
                    assert(input@[j] == Token::Group(*d, *inner));
                    assert(decreases_to!(input@ => input@[j]));
                    assert(decreases_to!(input@[j] => *inner));
                    assert(decreases_to!(*inner => inner@));
                }
                let sub = process_stream(inner);
                let copy = Token::Group(*d, sub);
                proof {
                    lemma_stream_model_push(out@, copy);
                }
                let ghost out0 = stream_model(out@);
                out.push(copy);
                proof {
                    let ghost head = TokenModel::Group(*d, rewrite_spec(stream_model(inner@)));
                    assert(m[j] == TokenModel::Group(*d, stream_model(inner@)));
                    assert(token_model(copy) == head);
                    assert(stream_model(out@) =~= out0 + seq![head]);
                    assert(suffix.subrange(1, suffix.len() as int) =~= m.subrange(j + 1, n));
                    assert(rewrite_spec(suffix) == seq![head] + rewrite_spec(m.subrange(j + 1, n)));
                    assert(out0 + (seq![head] + rewrite_spec(m.subrange(j + 1, n))) =~= (out0
                        + seq![head]) + rewrite_spec(m.subrange(j + 1, n)));
                    assert(loop_inv(stream_model(out@), m, j + 1));
                }
                i = i + 1;
            },
        }
    }
    proof {
        assert(m.subrange(m.len() as int, m.len() as int) =~= Seq::<TokenModel>::empty());
        assert(stream_model(out@) + Seq::<TokenModel>::empty() =~= stream_model(out@));
    }
    out
}

/// The attribute entry point: rewrites the annotated item's token stream.
/// The attribute's own argument stream takes no part in the rewrite.
pub fn fstring(_attr: &Vec<Token>, item: &Vec<Token>) -> (res: Vec<Token>)
    ensures
        stream_model(res@) == rewrite_spec(stream_model(item@)),
{
    process_stream(item)
}

} // verus!
