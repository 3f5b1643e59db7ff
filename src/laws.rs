//! Properties of evaluation, proved over the spec functions.

use vstd::prelude::*;
use crate::env::{lookup, Scope};
use crate::semantics::{
    form_of,
    refs_below, apply, call_refusal, call_scope, eval_args, eval_body, eval_call, eval_cond, eval_fold,
    eval_form, eval_int_two, eval_list, eval_term, eval_two, evaluate, head_form, release,
    SpecialForm,
};
use crate::expr::{Fault, Term};

verus! {

/// `after` has every scope of `before` but `at` unchanged, and no fewer
/// scopes.
pub open spec fn keeps(before: Seq<Scope>, after: Seq<Scope>, at: int) -> bool {
    &&& after.len() >= before.len()
    &&& forall|k: int| 0 <= k < before.len() && k != at ==> #[trigger] after[k] == before[k]
}

/// Evaluating in scope `at` changes no other scope that existed before.
pub proof fn lemma_term_keeps(t: Term, env: Seq<Scope>, at: nat, fuel: nat)
    requires
        at < env.len(),
    ensures
        keeps(env, eval_term(t, env, at, fuel).1, at as int),
    decreases fuel, t, 0nat,
{
    if let Term::List(l) = t {
        lemma_list_keeps(l, env, at, fuel);
    }
}

proof fn lemma_list_keeps(l: Seq<Term>, env: Seq<Scope>, at: nat, fuel: nat)
    requires
        at < env.len(),
    ensures
        keeps(env, eval_list(l, env, at, fuel).1, at as int),
    decreases fuel, l, l.len() + 3,
{
    if l.len() > 0 {
        match head_form(l[0]) {
            Some(f) => lemma_form_keeps(f, l, env, at, fuel),
            None => lemma_call_keeps(l, env, at, fuel),
        }
    }
}

proof fn lemma_two_keeps(l: Seq<Term>, env: Seq<Scope>, at: nat, fuel: nat)
    requires
        at < env.len(),
    ensures
        keeps(env, eval_two(l, env, at, fuel).1, at as int),
    decreases fuel, l, 1nat,
{
    if l.len() == 3 {
        lemma_term_keeps(l[1], env, at, fuel);
        let (r1, e1) = eval_term(l[1], env, at, fuel);
        if r1 is Ok {
            lemma_term_keeps(l[2], e1, at, fuel);
        }
    }
}

proof fn lemma_int_two_keeps(f: SpecialForm, l: Seq<Term>, env: Seq<Scope>, at: nat, fuel: nat)
    requires
        at < env.len(),
    ensures
        keeps(env, eval_int_two(f, l, env, at, fuel).1, at as int),
    decreases fuel, l, 1nat,
{
    if l.len() == 3 {
        lemma_term_keeps(l[1], env, at, fuel);
        let (r1, e1) = eval_term(l[1], env, at, fuel);
        if r1 matches Ok(Term::Integer(_)) {
            lemma_term_keeps(l[2], e1, at, fuel);
        }
    }
}

proof fn lemma_fold_keeps(
    l: Seq<Term>,
    i: nat,
    env: Seq<Scope>,
    at: nat,
    fuel: nat,
    acc: int,
    mul: bool,
)
    requires
        at < env.len(),
    ensures
        keeps(env, eval_fold(l, i, env, at, fuel, acc, mul).1, at as int),
    decreases fuel, l, l.len() - i,
{
    if i < l.len() {
        lemma_term_keeps(l[i as int], env, at, fuel);
        let (r, e1) = eval_term(l[i as int], env, at, fuel);
        if let Ok(Term::Integer(n)) = r {
            let next = if mul {
                acc * n
            } else {
                acc + n
            };
            lemma_fold_keeps(l, i + 1, e1, at, fuel, next, mul);
        }
    }
}

proof fn lemma_cond_keeps(l: Seq<Term>, i: nat, env: Seq<Scope>, at: nat, fuel: nat)
    requires
        at < env.len(),
    ensures
        keeps(env, eval_cond(l, i, env, at, fuel).1, at as int),
    decreases fuel, l, l.len() - i,
{
    if i < l.len() {
        if let Term::List(c) = l[i as int] {
            if c.len() == 2 {
                if c[0] == Term::Symbol("else"@) {
                    lemma_term_keeps(c[1], env, at, fuel);
                } else {
                    lemma_term_keeps(c[0], env, at, fuel);
                    let (r, e1) = eval_term(c[0], env, at, fuel);
                    if r == Ok::<Term, Fault>(Term::Bool(true)) {
                        lemma_term_keeps(c[1], e1, at, fuel);
                    } else if r == Ok::<Term, Fault>(Term::Bool(false)) {
                        lemma_cond_keeps(l, i + 1, e1, at, fuel);
                    }
                }
            }
        }
    }
}

proof fn lemma_args_keeps(
    l: Seq<Term>,
    i: nat,
    env: Seq<Scope>,
    at: nat,
    fuel: nat,
    acc: Seq<Term>,
)
    requires
        at < env.len(),
    ensures
        keeps(env, eval_args(l, i, env, at, fuel, acc).1, at as int),
    decreases fuel, l, l.len() - i,
{
    if i < l.len() {
        lemma_term_keeps(l[i as int], env, at, fuel);
        let (r, e1) = eval_term(l[i as int], env, at, fuel);
        if let Ok(v) = r {
            lemma_args_keeps(l, i + 1, e1, at, fuel, acc.push(v));
        }
    }
}

proof fn lemma_body_keeps(b: Seq<Term>, i: nat, env: Seq<Scope>, at: nat, fuel: nat)
    requires
        at < env.len(),
    ensures
        keeps(env, eval_body(b, i, env, at, fuel).1, at as int),
    decreases fuel, b, b.len() - i,
{
    if i < b.len() {
        lemma_term_keeps(b[i as int], env, at, fuel);
        let (r, e1) = eval_term(b[i as int], env, at, fuel);
        if r is Ok && i + 1 != b.len() {
            lemma_body_keeps(b, i + 1, e1, at, fuel);
        }
    }
}

/// A call changes no scope that existed before it.
pub proof fn lemma_apply_keeps(
    params: Seq<Seq<char>>,
    body: Seq<Term>,
    closure: nat,
    args: Seq<Term>,
    env: Seq<Scope>,
    fuel: nat,
)
    ensures
        keeps(env, apply(params, body, closure, args, env, fuel).1, env.len() as int),
    decreases fuel, body, body.len() + 1,
{
    let base = env.len();
    let pushed = env.push(call_scope(params, args, closure));
    lemma_body_keeps(body, 0, pushed, base, fuel);
    let (r, e3) = eval_body(body, 0, pushed, base, fuel);
    assert forall|k: int| 0 <= k < env.len() implies #[trigger] release(r, e3, base)[k] == env[k] by {
        assert(pushed[k] == env[k]);
    }
}

proof fn lemma_call_keeps(l: Seq<Term>, env: Seq<Scope>, at: nat, fuel: nat)
    requires
        at < env.len(),
    ensures
        keeps(env, eval_call(l, env, at, fuel).1, at as int),
    decreases fuel, l, l.len() + 2,
{
    if l.len() > 0 {
        lemma_term_keeps(l[0], env, at, fuel);
        let (rf, e1) = eval_term(l[0], env, at, fuel);
        if let Ok(Term::Func(params, body, closure)) = rf {
            lemma_args_keeps(l, 1, e1, at, fuel, Seq::empty());
            let (ra, e2) = eval_args(l, 1, e1, at, fuel, Seq::empty());
            if let Ok(args) = ra {
                if call_refusal(params, args, closure, e2, fuel) is None {
                    lemma_apply_keeps(params, body, closure, args, e2, (fuel - 1) as nat);
                }
            }
        }
    }
}

proof fn lemma_form_keeps(f: SpecialForm, l: Seq<Term>, env: Seq<Scope>, at: nat, fuel: nat)
    requires
        at < env.len(),
    ensures
        keeps(env, eval_form(f, l, env, at, fuel).1, at as int),
    decreases fuel, l, l.len() + 2,
{
    match f {
        SpecialForm::Add => {
            if l.len() >= 2 {
                lemma_fold_keeps(l, 1, env, at, fuel, 0, false);
            }
        },
        SpecialForm::Mul => {
            if l.len() >= 2 {
                lemma_fold_keeps(l, 1, env, at, fuel, 1, true);
            }
        },
        SpecialForm::Sub | SpecialForm::Lt | SpecialForm::Gt | SpecialForm::Le | SpecialForm::Ge => {
            lemma_int_two_keeps(f, l, env, at, fuel);
        },
        SpecialForm::Eq | SpecialForm::Cons => {
            lemma_two_keeps(l, env, at, fuel);
        },
        SpecialForm::Car | SpecialForm::Cdr => {
            if l.len() == 2 {
                lemma_term_keeps(l[1], env, at, fuel);
            }
        },
        SpecialForm::Define => {
            if l.len() >= 3 {
                if let Term::Symbol(_) = l[1] {
                    lemma_term_keeps(l[2], env, at, fuel);
                }
            }
        },
        SpecialForm::If => {
            if l.len() == 4 {
                lemma_term_keeps(l[1], env, at, fuel);
                let (r, e1) = eval_term(l[1], env, at, fuel);
                if r is Ok {
                    lemma_term_keeps(l[2], e1, at, fuel);
                    lemma_term_keeps(l[3], e1, at, fuel);
                }
            }
        },
        SpecialForm::Cond => {
            if l.len() >= 3 {
                lemma_cond_keeps(l, 1, env, at, fuel);
            }
        },
    }
}

/// Evaluating a symbol that no scope binds fails with `NameError` and
/// leaves the environment exactly as it was.
pub proof fn law_undefined_symbol(s: Seq<char>, env: Seq<Scope>, at: nat, fuel: nat)
    requires
        lookup(env, at as int, s) is None,
    ensures
        eval_term(Term::Symbol(s), env, at, fuel) == (Err::<Term, Fault>(Fault::NameError), env),
{
}

/// A value (anything but a symbol or a list) evaluates to itself and leaves
/// the environment as it was, so evaluating it again gives the same value
/// once more.
pub proof fn law_values_evaluate_to_themselves(t: Term, env: Seq<Scope>)
    requires
        !(t is Symbol),
        !(t is List),
    ensures
        evaluate(t, env) == (Ok::<Term, Fault>(t), env),
        evaluate(evaluate(t, env).0->Ok_0, evaluate(t, env).1) == evaluate(t, env),
{
}

/// Evaluating a top-level expression changes no scope but the root.
pub proof fn law_top_level_changes_only_root(t: Term, env: Seq<Scope>)
    requires
        env.len() > 0,
    ensures
        keeps(env, evaluate(t, env).1, 0),
{
    lemma_term_keeps(t, env, 0, crate::semantics::MAX_CALL_DEPTH as nat);
}

/// A procedure call binds its parameters in a scope of its own: every scope
/// that existed before the call is unchanged after it, so each name resolves
/// from the top level as it did before. Unless its result still holds a
/// procedure defined inside the call, the call's scopes are released on
/// every exit, failures included.
pub proof fn law_call_does_not_leak(
    params: Seq<Seq<char>>,
    body: Seq<Term>,
    closure: nat,
    args: Seq<Term>,
    env: Seq<Scope>,
    fuel: nat,
)
    requires
        env.len() > 0,
    ensures
        keeps(env, apply(params, body, closure, args, env, fuel).1, env.len() as int),
        forall|name: Seq<char>|
            #[trigger] lookup(apply(params, body, closure, args, env, fuel).1, 0, name) == lookup(
                env,
                0,
                name,
            ),
        !(apply(params, body, closure, args, env, fuel).0 matches Ok(v) && !refs_below(
            v,
            env.len(),
        )) ==> apply(params, body, closure, args, env, fuel).1.len() == env.len(),
{
    lemma_apply_keeps(params, body, closure, args, env, fuel);
    let after = apply(params, body, closure, args, env, fuel).1;
    assert(after[0] == env[0]);
    assert forall|name: Seq<char>| #[trigger] lookup(after, 0, name) == lookup(env, 0, name) by {}
    let base = env.len();
    let pushed = env.push(call_scope(params, args, closure));
    lemma_body_keeps(body, 0, pushed, base, fuel);
}

/// The word `cond` names the `cond` form.
proof fn lemma_cond_is_reserved()
    ensures
        form_of("cond"@) == Some(SpecialForm::Cond),
{
    reveal_strlit("cond");
    reveal_strlit("+");
    reveal_strlit("*");
    reveal_strlit("-");
    reveal_strlit("eq?");
    reveal_strlit("<");
    reveal_strlit(">");
    reveal_strlit("<=");
    reveal_strlit(">=");
    reveal_strlit("cons");
    reveal_strlit("car");
    reveal_strlit("cdr");
    reveal_strlit("define");
    reveal_strlit("if");
    assert("cond"@.len() == 4);
    assert("+"@.len() == 1);
    assert("*"@.len() == 1);
    assert("-"@.len() == 1);
    assert("cond"@ != "+"@);
    assert("cond"@ != "*"@);
    assert("cond"@ != "-"@);
    assert("cond"@ != "eq?"@);
    assert("cond"@ != "<"@);
    assert("cond"@ != ">"@);
    assert("cond"@ != "<="@);
    assert("cond"@ != ">="@);
    assert("cond"@[3] != "cons"@[3]);
    assert("cond"@ != "cons"@);
    assert("cond"@ != "car"@);
    assert("cond"@ != "cdr"@);
    assert("cond"@ != "define"@);
    assert("cond"@ != "if"@);
}

/// Whether clause `i` of the `cond` list `l` is `(test result)` with a test
/// other than `else` that evaluates to `false`, taking `before` to `after`.
pub open spec fn false_clause(l: Seq<Term>, i: int, before: Seq<Scope>, after: Seq<Scope>, at: nat, fuel: nat) -> bool {
    &&& l[i] is List
    &&& l[i]->List_0.len() == 2
    &&& l[i]->List_0[0] != Term::Symbol("else"@)
    &&& eval_term(l[i]->List_0[0], before, at, fuel) == (Ok::<Term, Fault>(Term::Bool(false)), after)
}

proof fn lemma_cond_falls_through(l: Seq<Term>, i: nat, envs: Seq<Seq<Scope>>, at: nat, fuel: nat)
    requires
        1 <= i <= l.len(),
        envs.len() == l.len(),
        forall|j: int| 1 <= j < l.len() ==> #[trigger] false_clause(l, j, envs[j - 1], envs[j], at, fuel),
    ensures
        eval_cond(l, i, envs[i - 1], at, fuel) == (Ok::<Term, Fault>(Term::Null), envs[l.len() - 1]),
    decreases l.len() - i,
{
    if i < l.len() {
        assert(false_clause(l, i as int, envs[i - 1], envs[i as int], at, fuel));
        lemma_cond_falls_through(l, i + 1, envs, at, fuel);
    }
}

/// A `cond` none of whose clauses is `else` and all of whose tests evaluate
/// to `false` evaluates to `Null`. The tests run in order, each in the
/// environment the previous one left (`envs`), and no result expression is
/// evaluated: the environment afterwards is the one the last test left.
pub proof fn law_cond_without_match(l: Seq<Term>, envs: Seq<Seq<Scope>>, at: nat, fuel: nat)
    requires
        l.len() >= 3,
        l[0] == Term::Symbol("cond"@),
        envs.len() == l.len(),
        forall|j: int| 1 <= j < l.len() ==> #[trigger] false_clause(l, j, envs[j - 1], envs[j], at, fuel),
    ensures
        eval_term(Term::List(l), envs[0], at, fuel) == (Ok::<Term, Fault>(Term::Null), envs[l.len() - 1]),
{
    lemma_cond_is_reserved();
    lemma_cond_falls_through(l, 1, envs, at, fuel);
}

} // verus!
