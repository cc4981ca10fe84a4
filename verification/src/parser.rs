//! The parser: a flat token stream to an s-expression tree.
//!
//! Recursive descent with one token of lookahead. A number or symbol token
//! is a leaf; an opening parenthesis starts a list that runs until the
//! matching closing parenthesis. The top-level entry point demands exactly
//! one complete expression covering the whole token sequence; anything else
//! is a [`KirundiError::SyntaxError`].
//!
//! The parser builds the tree; it does not judge its shape. Whether a list
//! is a meaningful form is the evaluator's business.

use vstd::prelude::*;

use crate::error::{ErrorV, KirundiError};
use crate::tokenizer::{toks_view, Token, TokenV};

verus! {

/// A node of the expression tree: a leaf (number or symbol) or a
/// parenthesized list of sub-expressions.
#[derive(Debug, PartialEq, Eq)]
pub enum Expr {
    Number(i64),
    Symbol(String),
    List(Vec<Expr>),
}

/// The mathematical model of an expression tree.
pub enum ExprV {
    Number(int),
    Symbol(Seq<char>),
    List(Seq<ExprV>),
}

/// The model of one expression.
pub open spec fn expr_view(e: Expr) -> ExprV
    decreases e,
{
    match e {
        Expr::Number(n) => ExprV::Number(n as int),
        Expr::Symbol(s) => ExprV::Symbol(s@),
        Expr::List(es) => ExprV::List(exprs_view(es@)),
    }
}

/// The model of a sequence of expressions, elementwise.
pub open spec fn exprs_view(es: Seq<Expr>) -> Seq<ExprV>
    decreases es,
{
    if es.len() == 0 {
        Seq::empty()
    } else {
        exprs_view(es.drop_last()).push(expr_view(es.last()))
    }
}

impl View for Expr {
    type V = ExprV;

    open spec fn view(&self) -> ExprV {
        expr_view(*self)
    }
}

pub proof fn lemma_exprs_view(es: Seq<Expr>)
    ensures
        exprs_view(es).len() == es.len(),
        forall|i: int| 0 <= i < es.len() ==> exprs_view(es)[i] == expr_view(#[trigger] es[i]),
    decreases es.len(),
{
    if es.len() > 0 {
        lemma_exprs_view(es.drop_last());
        assert forall|i: int| 0 <= i < es.len() implies exprs_view(es)[i] == expr_view(
            #[trigger] es[i],
        ) by {
            if i < es.len() - 1 {
                assert(es.drop_last()[i] == es[i]);
                assert(exprs_view(es)[i] == exprs_view(es.drop_last())[i]);
            }
        }
    }
}

pub open spec fn msg_unexpected_end() -> Seq<char> {
    "unexpected end of input"@
}

pub open spec fn msg_unexpected_close() -> Seq<char> {
    "unexpected closing parenthesis"@
}

pub open spec fn msg_missing_close() -> Seq<char> {
    "missing closing parenthesis"@
}

pub open spec fn msg_trailing() -> Seq<char> {
    "unexpected tokens after the expression"@
}

/// One step of recursive descent at position `pos`: the parsed expression
/// and the position just after it, or the syntax error.
pub open spec fn spec_parse_at(ts: Seq<TokenV>, pos: int) -> Result<(ExprV, int), ErrorV>
    decreases ts.len() - pos, 0int,
    when 0 <= pos <= ts.len()
{
    if pos == ts.len() {
        Err(ErrorV::SyntaxError(msg_unexpected_end()))
    } else {
        match ts[pos] {
            TokenV::Number(n) => Ok((ExprV::Number(n), pos + 1)),
            TokenV::Symbol(s) => Ok((ExprV::Symbol(s), pos + 1)),
            TokenV::CloseParen => Err(ErrorV::SyntaxError(msg_unexpected_close())),
            TokenV::OpenParen => spec_parse_list(ts, pos + 1, Seq::empty()),
        }
    }
}

/// The elements of a parenthesized list from position `pos` on, with the
/// elements parsed so far in `acc`, up to the closing parenthesis.
pub open spec fn spec_parse_list(ts: Seq<TokenV>, pos: int, acc: Seq<ExprV>) -> Result<
    (ExprV, int),
    ErrorV,
>
    decreases ts.len() - pos, 1int,
    when 0 <= pos <= ts.len()
{
    if pos == ts.len() {
        Err(ErrorV::SyntaxError(msg_missing_close()))
    } else if ts[pos] == TokenV::CloseParen {
        Ok((ExprV::List(acc), pos + 1))
    } else {
        match spec_parse_at(ts, pos) {
            Ok((e, next)) => if pos < next <= ts.len() {
                spec_parse_list(ts, next, acc.push(e))
            } else {
                Err(ErrorV::SyntaxError(msg_missing_close()))
            },
            Err(er) => Err(er),
        }
    }
}

/// What parsing a whole token sequence yields: the one expression covering
/// every token, or the syntax error. Trailing tokens after a complete
/// expression are rejected.
pub open spec fn spec_parse(ts: Seq<TokenV>) -> Result<ExprV, ErrorV> {
    match spec_parse_at(ts, 0) {
        Ok((e, next)) => if next == ts.len() {
            Ok(e)
        } else {
            Err(ErrorV::SyntaxError(msg_trailing()))
        },
        Err(er) => Err(er),
    }
}

/// Parses one expression starting at `pos`, returning it with the position
/// just after it.
pub fn parse_tokens(tokens: &Vec<Token>, pos: usize) -> (r: Result<(Expr, usize), KirundiError>)
    requires
        pos <= tokens@.len(),
    ensures
        match r {
            Ok(ep) => spec_parse_at(toks_view(tokens@), pos as int) == Ok::<
                (ExprV, int),
                ErrorV,
            >((ep.0@, ep.1 as int)) && pos < ep.1 <= tokens@.len(),
            Err(e) => spec_parse_at(toks_view(tokens@), pos as int) == Err::<
                (ExprV, int),
                ErrorV,
            >(e@),
        },
    decreases tokens@.len() - pos,
{
    let ghost tv = toks_view(tokens@);
    if pos == tokens.len() {
        return Err(KirundiError::SyntaxError("unexpected end of input".to_owned()));
    }
    match &tokens[pos] {
        Token::Number(n) => Ok((Expr::Number(*n), pos + 1)),
        Token::Symbol(s) => Ok((Expr::Symbol(s.clone()), pos + 1)),
        Token::CloseParen => Err(
            KirundiError::SyntaxError("unexpected closing parenthesis".to_owned()),
        ),
        Token::OpenParen => {
            let mut exprs: Vec<Expr> = Vec::new();
            let mut cur: usize = pos + 1;
            loop
                invariant
                    pos < cur <= tokens@.len(),
                    tv == toks_view(tokens@),
                    pos < tokens@.len(),
                    tv[pos as int] == TokenV::OpenParen,
                    spec_parse_list(tv, pos + 1int, Seq::empty()) == spec_parse_list(
                        tv,
                        cur as int,
                        exprs_view(exprs@),
                    ),
                decreases tokens@.len() - cur,
            {
                if cur == tokens.len() {
                    return Err(KirundiError::SyntaxError("missing closing parenthesis".to_owned()));
                }
                let close = match &tokens[cur] {
                    Token::CloseParen => true,
                    _ => false,
                };
                if close {
                    proof {
                        assert(tv[cur as int] == TokenV::CloseParen);
                    }
                    return Ok((Expr::List(exprs), cur + 1));
                }
                proof {
                    assert(tv[cur as int] != TokenV::CloseParen);
                }
                match parse_tokens(tokens, cur) {
                    Ok(ep) => {
                        let (e, next) = ep;
                        proof {
                            let old_acc = exprs_view(exprs@);
                            assert(exprs@.push(e).drop_last() =~= exprs@);
                            assert(exprs_view(exprs@.push(e)) == old_acc.push(e@));
                            assert(spec_parse_list(tv, cur as int, old_acc) == spec_parse_list(
                                tv,
                                next as int,
                                old_acc.push(e@),
                            ));
                        }
                        exprs.push(e);
                        cur = next;
                    },
                    Err(er) => {
                        return Err(er);
                    },
                }
            }
        },
    }
}

/// The token sequence an expression re-serializes to: its nesting shape
/// written back out as parentheses and leaves.
pub open spec fn to_tokens(e: ExprV) -> Seq<TokenV>
    decreases e, 0int,
{
    match e {
        ExprV::Number(n) => seq![TokenV::Number(n)],
        ExprV::Symbol(s) => seq![TokenV::Symbol(s)],
        ExprV::List(es) => seq![TokenV::OpenParen] + to_tokens_list(es) + seq![
            TokenV::CloseParen,
        ],
    }
}

pub open spec fn to_tokens_list(es: Seq<ExprV>) -> Seq<TokenV>
    decreases es, 1int,
{
    if es.len() == 0 {
        Seq::empty()
    } else {
        to_tokens(es[0]) + to_tokens_list(es.drop_first())
    }
}

proof fn lemma_to_tokens_head(e: ExprV)
    ensures
        to_tokens(e).len() >= 1,
        to_tokens(e)[0] != TokenV::CloseParen,
{
}

proof fn lemma_to_tokens_list_push(es: Seq<ExprV>, x: ExprV)
    ensures
        to_tokens_list(es.push(x)) == to_tokens_list(es) + to_tokens(x),
    decreases es.len(),
{
    if es.len() == 0 {
        assert(es.push(x).drop_first() =~= Seq::<ExprV>::empty());
        assert(es.push(x)[0] == x);
        assert(to_tokens_list(es.push(x)) == to_tokens(x) + to_tokens_list(
            Seq::<ExprV>::empty(),
        ));
        assert(to_tokens_list(es.push(x)) =~= to_tokens_list(es) + to_tokens(x));
    } else {
        assert(es.push(x).drop_first() =~= es.drop_first().push(x));
        lemma_to_tokens_list_push(es.drop_first(), x);
        assert(es.push(x)[0] == es[0]);
        assert(to_tokens_list(es.push(x)) == to_tokens(es[0]) + to_tokens_list(
            es.drop_first().push(x),
        ));
        assert(to_tokens_list(es.push(x)) =~= to_tokens_list(es) + to_tokens(x));
    }
}

proof fn lemma_parse_appended(e: ExprV, ts: Seq<TokenV>, pos: int)
    requires
        0 <= pos,
        pos + to_tokens(e).len() <= ts.len(),
        ts.subrange(pos, pos + to_tokens(e).len()) == to_tokens(e),
    ensures
        spec_parse_at(ts, pos) == Ok::<(ExprV, int), ErrorV>((e, pos + to_tokens(e).len())),
    decreases e, 0int,
{
    let n = to_tokens(e).len() as int;
    assert(ts.subrange(pos, pos + n)[0] == ts[pos]);
    match e {
        ExprV::Number(_) => {},
        ExprV::Symbol(_) => {},
        ExprV::List(es) => {
            let body = to_tokens_list(es);
            let m = body.len() as int;
            assert(ts[pos] == TokenV::OpenParen);
            assert forall|k: int| 0 <= k < m implies ts.subrange(pos + 1, pos + 1 + m)[k]
                == body[k] by {
                assert(ts.subrange(pos, pos + n)[k + 1] == to_tokens(e)[k + 1]);
                assert(to_tokens(e)[k + 1] == body[k]);
            }
            assert(ts.subrange(pos + 1, pos + 1 + m) =~= body);
            assert(ts.subrange(pos, pos + n)[n - 1] == TokenV::CloseParen);
            assert(ts[pos + 1 + m] == TokenV::CloseParen);
            lemma_parse_list_appended(es, Seq::empty(), ts, pos + 1);
            assert(Seq::<ExprV>::empty() + es =~= es);
        },
    }
}

proof fn lemma_parse_list_appended(es: Seq<ExprV>, acc: Seq<ExprV>, ts: Seq<TokenV>, pos: int)
    requires
        0 <= pos,
        pos + to_tokens_list(es).len() + 1 <= ts.len(),
        ts.subrange(pos, pos + to_tokens_list(es).len()) == to_tokens_list(es),
        ts[pos + to_tokens_list(es).len()] == TokenV::CloseParen,
    ensures
        spec_parse_list(ts, pos, acc) == Ok::<(ExprV, int), ErrorV>(
            (ExprV::List(acc + es), pos + to_tokens_list(es).len() + 1),
        ),
    decreases es, 1int,
{
    let body = to_tokens_list(es);
    let m = body.len() as int;
    if es.len() == 0 {
        assert(acc + es =~= acc);
    } else {
        let e0 = es[0];
        let rest = es.drop_first();
        let n0 = to_tokens(e0).len() as int;
        lemma_to_tokens_head(e0);
        assert(body == to_tokens(e0) + to_tokens_list(rest));
        assert forall|k: int| 0 <= k < n0 implies ts.subrange(pos, pos + n0)[k] == to_tokens(
            e0,
        )[k] by {
            assert(ts.subrange(pos, pos + m)[k] == body[k]);
        }
        assert(ts.subrange(pos, pos + n0) =~= to_tokens(e0));
        assert(ts[pos] == to_tokens(e0)[0]);
        lemma_parse_appended(e0, ts, pos);
        let pos2 = pos + n0;
        assert forall|k: int| 0 <= k < to_tokens_list(rest).len() implies ts.subrange(
            pos2,
            pos2 + to_tokens_list(rest).len(),
        )[k] == to_tokens_list(rest)[k] by {
            assert(ts.subrange(pos, pos + m)[n0 + k] == body[n0 + k]);
            assert(body[n0 + k] == to_tokens_list(rest)[k]);
        }
        assert(ts.subrange(pos2, pos2 + to_tokens_list(rest).len()) =~= to_tokens_list(rest));
        lemma_parse_list_appended(rest, acc.push(e0), ts, pos2);
        assert(acc.push(e0) + rest =~= acc + es);
    }
}

/// Round trip, completeness: parsing the serialization of any expression
/// succeeds and yields the expression back, consuming every token. So
/// every token sequence in the image of `to_tokens` is accepted whole.
pub proof fn lemma_parse_round_trip(e: ExprV)
    ensures
        spec_parse(to_tokens(e)) == Ok::<ExprV, ErrorV>(e),
{
    let ts = to_tokens(e);
    assert(ts.subrange(0, ts.len() as int) =~= ts);
    lemma_parse_appended(e, ts, 0);
}

proof fn lemma_parse_at_reserialize(ts: Seq<TokenV>, pos: int)
    requires
        0 <= pos <= ts.len(),
    ensures
        spec_parse_at(ts, pos) matches Ok(ep) ==> pos < ep.1 <= ts.len() && to_tokens(ep.0)
            == ts.subrange(pos, ep.1),
    decreases ts.len() - pos, 0int,
{
    if pos < ts.len() {
        match ts[pos] {
            TokenV::Number(_) => {
                if let Ok(ep) = spec_parse_at(ts, pos) {
                    assert(to_tokens(ep.0) =~= ts.subrange(pos, ep.1));
                }
            },
            TokenV::Symbol(_) => {
                if let Ok(ep) = spec_parse_at(ts, pos) {
                    assert(to_tokens(ep.0) =~= ts.subrange(pos, ep.1));
                }
            },
            TokenV::CloseParen => {},
            TokenV::OpenParen => {
                lemma_parse_list_reserialize(ts, pos + 1, Seq::empty());
                match spec_parse_list(ts, pos + 1, Seq::empty()) {
                    Ok(lp) => {
                        let vs = lp.0->List_0;
                        assert(vs.skip(0) =~= vs);
                        assert(to_tokens_list(vs) + seq![TokenV::CloseParen] == ts.subrange(
                            pos + 1,
                            lp.1,
                        ));
                        assert(to_tokens(lp.0) == seq![TokenV::OpenParen] + to_tokens_list(vs)
                            + seq![TokenV::CloseParen]);
                        assert(ts.subrange(pos, lp.1) =~= seq![ts[pos]] + ts.subrange(
                            pos + 1,
                            lp.1,
                        ));
                        assert(to_tokens(lp.0) =~= ts.subrange(pos, lp.1));
                    },
                    Err(_) => {},
                }
            },
        }
    }
}

proof fn lemma_parse_list_reserialize(ts: Seq<TokenV>, pos: int, acc: Seq<ExprV>)
    requires
        0 <= pos <= ts.len(),
    ensures
        spec_parse_list(ts, pos, acc) matches Ok(ep) ==> ({
            &&& pos < ep.1 <= ts.len()
            &&& ep.0 is List
            &&& ep.0->List_0.len() >= acc.len()
            &&& ep.0->List_0.subrange(0, acc.len() as int) == acc
            &&& to_tokens_list(ep.0->List_0.skip(acc.len() as int)) + seq![TokenV::CloseParen]
                == ts.subrange(pos, ep.1)
        }),
    decreases ts.len() - pos, 1int,
{
    if pos == ts.len() {
    } else if ts[pos] == TokenV::CloseParen {
        if let Ok(ep) = spec_parse_list(ts, pos, acc) {
            let vs = ep.0->List_0;
            assert(vs.subrange(0, acc.len() as int) =~= acc);
            assert(vs.skip(acc.len() as int) =~= Seq::<ExprV>::empty());
            assert(to_tokens_list(vs.skip(acc.len() as int)) + seq![TokenV::CloseParen]
                =~= ts.subrange(pos, ep.1));
        }
    } else {
        lemma_parse_at_reserialize(ts, pos);
        match spec_parse_at(ts, pos) {
            Ok(first) => {
                let (e0, p2) = first;
                lemma_parse_list_reserialize(ts, p2, acc.push(e0));
                if let Ok(ep) = spec_parse_list(ts, p2, acc.push(e0)) {
                    let vs = ep.0->List_0;
                    let k = acc.len() as int;
                    assert(vs.subrange(0, k + 1) == acc.push(e0));
                    assert forall|x: int| 0 <= x < k implies vs.subrange(0, k)[x] == acc[x] by {
                        assert(vs.subrange(0, k + 1)[x] == acc.push(e0)[x]);
                    }
                    assert(vs.subrange(0, k) =~= acc);
                    assert(vs.subrange(0, k + 1)[k] == acc.push(e0)[k]);
                    assert(vs[k] == e0);
                    assert(vs.skip(k)[0] == vs[k]);
                    assert(vs.skip(k).len() > 0);
                    assert(vs.skip(k).drop_first() =~= vs.skip(k + 1));
                    assert(to_tokens_list(vs.skip(k)) == to_tokens(e0) + to_tokens_list(
                        vs.skip(k + 1),
                    ));
                    assert(ts.subrange(pos, ep.1) =~= ts.subrange(pos, p2) + ts.subrange(
                        p2,
                        ep.1,
                    ));
                    assert((to_tokens(e0) + to_tokens_list(vs.skip(k + 1)))
                        + seq![TokenV::CloseParen] =~= to_tokens(e0) + (to_tokens_list(
                        vs.skip(k + 1),
                    ) + seq![TokenV::CloseParen]));
                    assert(to_tokens_list(vs.skip(k)) + seq![TokenV::CloseParen] == ts.subrange(
                        pos,
                        ep.1,
                    ));
                }
            },
            Err(_) => {},
        }
    }
}

/// Round trip, soundness: a token sequence that parses re-serializes to
/// itself, so the tree reproduces exactly the nesting the tokens spelled.
pub proof fn lemma_parse_reserialize(ts: Seq<TokenV>, e: ExprV)
    requires
        spec_parse(ts) == Ok::<ExprV, ErrorV>(e),
    ensures
        to_tokens(e) == ts,
{
    lemma_parse_at_reserialize(ts, 0);
    assert(ts.subrange(0, ts.len() as int) =~= ts);
}

/// Writes an expression back out as tokens; the exact inverse of a
/// successful parse.
pub fn expr_to_tokens(e: &Expr) -> (r: Vec<Token>)
    ensures
        toks_view(r@) == to_tokens(e@),
    decreases *e, 0int,
{
    match e {
        Expr::Number(n) => {
            let r = vec![Token::Number(*n)];
            proof {
                assert(toks_view(r@) =~= to_tokens(e@));
            }
            r
        },
        Expr::Symbol(s) => {
            let r = vec![Token::Symbol(s.clone())];
            proof {
                assert(toks_view(r@) =~= to_tokens(e@));
            }
            r
        },
        Expr::List(es) => {
            let mut out: Vec<Token> = vec![Token::OpenParen];
            let mut body = exprs_to_tokens(es);
            let ghost out_snap = out@;
            let ghost body_snap = body@;
            out.append(&mut body);
            out.push(Token::CloseParen);
            proof {
                assert(toks_view(out@) =~= toks_view(out_snap) + toks_view(body_snap) + seq![
                    TokenV::CloseParen,
                ]);
                assert(toks_view(out_snap) =~= seq![TokenV::OpenParen]);
                assert(toks_view(out@) =~= to_tokens(e@));
            }
            out
        },
    }
}

fn exprs_to_tokens(es: &Vec<Expr>) -> (r: Vec<Token>)
    ensures
        toks_view(r@) == to_tokens_list(exprs_view(es@)),
    decreases *es, 1int,
{
    proof {
        lemma_exprs_view(es@);
    }
    let ghost vs = exprs_view(es@);
    let mut out: Vec<Token> = Vec::new();
    proof {
        assert(vs.subrange(0, 0) =~= Seq::<ExprV>::empty());
        assert(toks_view(out@) =~= to_tokens_list(vs.subrange(0, 0)));
    }
    let mut i: usize = 0;
    while i < es.len()
        invariant
            i <= es@.len(),
            vs == exprs_view(es@),
            vs.len() == es@.len(),
            forall|k: int| 0 <= k < es@.len() ==> vs[k] == expr_view(#[trigger] es@[k]),
            toks_view(out@) == to_tokens_list(vs.subrange(0, i as int)),
        decreases es@.len() - i,
    {
        let mut sub = expr_to_tokens(&es[i]);
        let ghost sub_snap = sub@;
        let ghost out_snap = out@;
        out.append(&mut sub);
        proof {
            assert(vs.subrange(0, i + 1int) =~= vs.subrange(0, i as int).push(vs[i as int]));
            lemma_to_tokens_list_push(vs.subrange(0, i as int), vs[i as int]);
            assert(toks_view(out@) =~= toks_view(out_snap) + toks_view(sub_snap));
            assert(toks_view(out@) =~= to_tokens_list(vs.subrange(0, i + 1int)));
        }
        i += 1;
    }
    proof {
        assert(vs.subrange(0, vs.len() as int) =~= vs);
    }
    out
}

/// Parses a token sequence that must hold exactly one complete expression.
///
/// Fails with a [`KirundiError::SyntaxError`] when tokens remain after the
/// expression, when input ends mid-expression, and when a closing
/// parenthesis has no matching opening one.
pub fn parse(tokens: &Vec<Token>) -> (r: Result<Expr, KirundiError>)
    ensures
        match r {
            Ok(e) => spec_parse(toks_view(tokens@)) == Ok::<ExprV, ErrorV>(e@),
            Err(er) => spec_parse(toks_view(tokens@)) == Err::<ExprV, ErrorV>(er@),
        },
{
    match parse_tokens(tokens, 0) {
        Ok(ep) => {
            let (e, next) = ep;
            if next == tokens.len() {
                Ok(e)
            } else {
                Err(KirundiError::SyntaxError("unexpected tokens after the expression".to_owned()))
            }
        },
        Err(er) => Err(er),
    }
}

} // verus!
