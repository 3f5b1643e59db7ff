//! A session: top-level expressions evaluated in order in one environment.
//! Each succeeds or fails on its own; a failure keeps what earlier ones
//! defined.

use vstd::prelude::*;
use crate::env::{LispEnv, Scope};
use crate::eval::outcome;
use crate::semantics::evaluate;
use crate::expr::{lemma_views, views, Fault, LispErr, LispExpr, Term};
use crate::parser::{parse, read_from, tokenize, tokens};

verus! {

/// The results of evaluating `ts` in order from `env`, and the environment
/// afterwards.
pub open spec fn run(ts: Seq<Term>, env: Seq<Scope>) -> (Seq<Result<Term, Fault>>, Seq<Scope>)
    decreases ts.len(),
{
    if ts.len() == 0 {
        (Seq::empty(), env)
    } else {
        let (rs, e1) = run(ts.drop_last(), env);
        let (r, e2) = evaluate(ts.last(), e1);
        (rs.push(r), e2)
    }
}

/// The top-level expressions of a text.
pub open spec fn program(text: Seq<char>) -> Seq<Term> {
    read_from(tokens(text), 0, seq![Seq::empty()])
}

pub open spec fn outcomes(s: Seq<Result<LispExpr, LispErr>>) -> Seq<Result<Term, Fault>> {
    s.map_values(|r: Result<LispExpr, LispErr>| outcome(r))
}

/// Evaluates each of `exprs` in order in `env`.
pub fn eval_all(exprs: &Vec<LispExpr>, env: &mut LispEnv) -> (r: Vec<Result<LispExpr, LispErr>>)
    ensures
        (outcomes(r@), final(env)@) == run(views(exprs@), old(env)@),
{
    proof {
        lemma_views(exprs@);
    }
    let ghost ts = views(exprs@);
    let mut out: Vec<Result<LispExpr, LispErr>> = Vec::new();
    let mut i: usize = 0;
    assert(ts.take(0) =~= Seq::<Term>::empty());
    assert(outcomes(out@) =~= Seq::<Result<Term, Fault>>::empty());
    while i < exprs.len()
        invariant
            0 <= i <= exprs@.len(),
            ts == views(exprs@),
            ts.len() == exprs@.len(),
            forall|j: int| 0 <= j < exprs@.len() ==> #[trigger] ts[j] == exprs@[j]@,
            (outcomes(out@), env@) == run(ts.take(i as int), old(env)@),
        decreases exprs@.len() - i,
    {
        let r = exprs[i].eval(env);
        proof {
            assert(ts.take(i + 1).drop_last() =~= ts.take(i as int));
        }
        let ghost before = out@;
        out.push(r);
        assert(outcomes(out@) =~= outcomes(before).push(outcome(r)));
        i += 1;
    }
    assert(ts.take(exprs@.len() as int) =~= ts);
    out
}

/// Reads `text` and evaluates its top-level expressions in order in `env`.
pub fn eval_string(text: &str, env: &mut LispEnv) -> (r: Vec<Result<LispExpr, LispErr>>)
    ensures
        (outcomes(r@), final(env)@) == run(program(text@), old(env)@),
{
    let toks = tokenize(text);
    let tree = parse(&toks);
    match tree.to_lispexpr() {
        LispExpr::List(items) => eval_all(&items, env),
        _ => Vec::new(),
    }
}

} // verus!
