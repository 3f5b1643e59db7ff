//! The executable evaluator, proved to compute exactly what the spec
//! functions of `semantics` say.

use vstd::prelude::*;
use crate::env::{same_text, LispEnv};
use crate::expr::{
    lemma_views, names, operand_error, syntax_error, type_error, views, Fault, LispErr, LispExpr,
    LispFunc, Term,
};
use crate::semantics::{
    all_below, apply, call_scope, compare, eval_args, eval_body, eval_call, eval_cond,
    eval_fold, eval_form, eval_int_two, form_name, eval_list, eval_term, eval_two, evaluate, form_of,
    lemma_all_below, refs_below, same_atom, signature, SpecialForm, MAX_CALL_DEPTH,
};

verus! {

/// The model of an evaluation's result.
pub open spec fn outcome(r: Result<LispExpr, LispErr>) -> Result<Term, Fault> {
    match r {
        Ok(v) => Ok(v@),
        Err(e) => Err(e@),
    }
}

pub open spec fn pair_outcome(r: Result<(LispExpr, LispExpr), LispErr>) -> Result<(Term, Term), Fault> {
    match r {
        Ok((a, b)) => Ok((a@, b@)),
        Err(e) => Err(e@),
    }
}

pub open spec fn ints_outcome(r: Result<(i64, i64), LispErr>) -> Result<(i64, i64), Fault> {
    match r {
        Ok(p) => Ok(p),
        Err(e) => Err(e@),
    }
}

pub open spec fn args_outcome(r: Result<Vec<LispExpr>, LispErr>) -> Result<Seq<Term>, Fault> {
    match r {
        Ok(v) => Ok(views(v@)),
        Err(e) => Err(e@),
    }
}

pub proof fn lemma_views_push(s: Seq<LispExpr>, x: LispExpr)
    ensures
        views(s.push(x)) == views(s).push(x@),
{
    assert(s.push(x).drop_last() =~= s);
}

/// The reserved word that `s` is, if any.
fn form_of_text(s: &str) -> (r: Option<SpecialForm>)
    ensures
        r == form_of(s@),
{
    if same_text(s, "+") {
        Some(SpecialForm::Add)
    } else if same_text(s, "*") {
        Some(SpecialForm::Mul)
    } else if same_text(s, "-") {
        Some(SpecialForm::Sub)
    } else if same_text(s, "eq?") {
        Some(SpecialForm::Eq)
    } else if same_text(s, "<") {
        Some(SpecialForm::Lt)
    } else if same_text(s, ">") {
        Some(SpecialForm::Gt)
    } else if same_text(s, "<=") {
        Some(SpecialForm::Le)
    } else if same_text(s, ">=") {
        Some(SpecialForm::Ge)
    } else if same_text(s, "cons") {
        Some(SpecialForm::Cons)
    } else if same_text(s, "car") {
        Some(SpecialForm::Car)
    } else if same_text(s, "cdr") {
        Some(SpecialForm::Cdr)
    } else if same_text(s, "define") {
        Some(SpecialForm::Define)
    } else if same_text(s, "if") {
        Some(SpecialForm::If)
    } else if same_text(s, "cond") {
        Some(SpecialForm::Cond)
    } else {
        None
    }
}

/// `eq?` on two values.
fn same_atom_exec(a: &LispExpr, b: &LispExpr) -> (r: bool)
    ensures
        r == same_atom(a@, b@),
{
    match (a, b) {
        (LispExpr::Integer(x), LispExpr::Integer(y)) => *x == *y,
        (LispExpr::Symbol(x), LispExpr::Symbol(y)) => same_text(x.as_str(), y.as_str()),
        (LispExpr::Bool(x), LispExpr::Bool(y)) => *x == *y,
        _ => false,
    }
}

fn compare_exec(f: SpecialForm, a: i64, b: i64) -> (r: bool)
    ensures
        r == compare(f, a, b),
{
    match f {
        SpecialForm::Lt => a < b,
        SpecialForm::Gt => a > b,
        SpecialForm::Le => a <= b,
        _ => a >= b,
    }
}

/// Whether every scope index that `e` holds is below `n`.
fn refs_below_in(e: &LispExpr, n: usize) -> (r: bool)
    ensures
        r == refs_below(e@, n as nat),
    decreases e,
{
    match e {
        LispExpr::List(l) => all_refs_below(l, n),
        LispExpr::Func(f) => f.closure < n && all_refs_below(&f.body, n),
        LispExpr::Cons(a, b) => refs_below_in(a, n) && refs_below_in(b, n),
        _ => true,
    }
}

fn all_refs_below(l: &Vec<LispExpr>, n: usize) -> (r: bool)
    ensures
        r == all_below(views(l@), n as nat),
    decreases l,
{
    proof {
        lemma_views(l@);
        lemma_all_below(views(l@), n as nat);
    }
    let mut i: usize = 0;
    while i < l.len()
        invariant
            0 <= i <= l@.len(),
            views(l@).len() == l@.len(),
            forall|j: int| 0 <= j < l@.len() ==> #[trigger] views(l@)[j] == l@[j]@,
            forall|j: int| 0 <= j < i ==> refs_below(#[trigger] views(l@)[j], n as nat),
        decreases l@.len() - i,
    {
        if !refs_below_in(&l[i], n) {
            proof {
                lemma_all_below(views(l@), n as nat);
            }
            assert(!refs_below(views(l@)[i as int], n as nat));
            return false;
        }
        i += 1;
    }
    true
}

/// The bindings of a call frame: each parameter with its argument.
fn bind_params(params: &Vec<String>, args: &Vec<LispExpr>) -> (r: Vec<(String, LispExpr)>)
    requires
        params@.len() == args@.len(),
    ensures
        r@.map_values(|p: (String, LispExpr)| (p.0@, p.1@)) == call_scope(
            names(params@),
            views(args@),
            0,
        ).bindings,
{
    proof {
        lemma_views(args@);
    }
    let mut out: Vec<(String, LispExpr)> = Vec::new();
    let mut i: usize = 0;
    while i < params.len()
        invariant
            0 <= i <= params@.len(),
            params@.len() == args@.len(),
            out@.len() == i,
            forall|j: int|
                0 <= j < i ==> (#[trigger] out@[j]).0@ == params@[j]@ && out@[j].1@ == args@[j]@,
        decreases params@.len() - i,
    {
        out.push((params[i].clone(), args[i].clone()));
        i += 1;
    }
    assert(out@.map_values(|p: (String, LispExpr)| (p.0@, p.1@)) =~= call_scope(
        names(params@),
        views(args@),
        0,
    ).bindings);
    out
}

/// Copies `l[start..]`.
fn copy_from(l: &Vec<LispExpr>, start: usize) -> (r: Vec<LispExpr>)
    requires
        start <= l@.len(),
    ensures
        views(r@) == views(l@).subrange(start as int, l@.len() as int),
{
    proof {
        lemma_views(l@);
    }
    let mut out: Vec<LispExpr> = Vec::new();
    let mut i: usize = start;
    while i < l.len()
        invariant
            start <= i <= l@.len(),
            out@.len() == i - start,
            forall|j: int| 0 <= j < i - start ==> (#[trigger] out@[j])@ == l@[j + start]@,
        decreases l@.len() - i,
    {
        out.push(l[i].clone());
        i += 1;
    }
    proof {
        lemma_views(out@);
        assert(views(out@) =~= views(l@).subrange(start as int, l@.len() as int));
    }
    out
}

/// The name and parameters of a procedure signature `(name p1 ...)`.
fn signature_of(sig: &Vec<LispExpr>) -> (r: Option<(String, Vec<String>)>)
    ensures
        match signature(views(sig@)) {
            Some((n, ps)) => r matches Some((a, b)) && a@ == n && names(b@) == ps,
            None => r is None,
        },
{
    proof {
        lemma_views(sig@);
    }
    let ghost sv = views(sig@);
    if sig.len() == 0 {
        return None;
    }
    let name = match &sig[0] {
        LispExpr::Symbol(s) => s.clone(),
        _ => {
            assert(!(sv[0] is Symbol));
            return None;
        },
    };
    let mut params: Vec<String> = Vec::new();
    let mut i: usize = 1;
    while i < sig.len()
        invariant
            1 <= i <= sig@.len(),
            sv == views(sig@),
            sv.len() == sig@.len(),
            forall|j: int| 0 <= j < sig@.len() ==> #[trigger] sv[j] == sig@[j]@,
            params@.len() == i - 1,
            forall|j: int| 0 <= j < i ==> (#[trigger] sv[j]) is Symbol,
            forall|j: int| 0 <= j < i - 1 ==> (#[trigger] params@[j])@ == sv[j + 1]->Symbol_0,
            name@ == sv[0]->Symbol_0,
        decreases sig@.len() - i,
    {
        match &sig[i] {
            LispExpr::Symbol(s) => {
                params.push(s.clone());
            },
            _ => {
                assert(!(sv[i as int] is Symbol));
                return None;
            },
        }
        i += 1;
    }
    assert(names(params@) =~= Seq::new((sv.len() - 1) as nat, |k: int| sv[k + 1]->Symbol_0));
    Some((name, params))
}

fn eval_in(e: &LispExpr, env: &mut LispEnv, at: usize, fuel: usize) -> (r: Result<LispExpr, LispErr>)
    requires
        at < old(env)@.len(),
    ensures
        (outcome(r), final(env)@) == eval_term(e@, old(env)@, at as nat, fuel as nat),
        final(env)@.len() >= old(env)@.len(),
    decreases fuel, e, 0nat,
{
    match e {
        LispExpr::Symbol(s) => match env.lookup_in(at, s.as_str()) {
            Some(v) => Ok(v),
            None => Err(LispErr::NameError),
        },
        LispExpr::List(l) => eval_list_in(l, env, at, fuel),
        _ => Ok(e.clone()),
    }
}

fn eval_list_in(l: &Vec<LispExpr>, env: &mut LispEnv, at: usize, fuel: usize) -> (r: Result<LispExpr, LispErr>)
    requires
        at < old(env)@.len(),
    ensures
        (outcome(r), final(env)@) == eval_list(views(l@), old(env)@, at as nat, fuel as nat),
        final(env)@.len() >= old(env)@.len(),
    decreases fuel, l, l@.len() + 3,
{
    proof {
        lemma_views(l@);
    }
    if l.len() == 0 {
        return Ok(LispExpr::Null);
    }
    let form = match &l[0] {
        LispExpr::Symbol(s) => form_of_text(s.as_str()),
        _ => None,
    };
    match form {
        Some(f) => eval_form_in(f, l, env, at, fuel),
        None => eval_call_in(l, env, at, fuel),
    }
}

fn eval_two_in(l: &Vec<LispExpr>, env: &mut LispEnv, at: usize, fuel: usize) -> (r: Result<(LispExpr, LispExpr), LispErr>)
    requires
        at < old(env)@.len(),
    ensures
        (pair_outcome(r), final(env)@) == eval_two(views(l@), old(env)@, at as nat, fuel as nat),
        final(env)@.len() >= old(env)@.len(),
    decreases fuel, l, 1nat,
{
    proof {
        lemma_views(l@);
    }
    if l.len() != 3 {
        return Err(LispErr::ArityMismatch);
    }
    let a = match eval_in(&l[1], env, at, fuel) {
        Ok(a) => a,
        Err(e) => return Err(e),
    };
    let b = match eval_in(&l[2], env, at, fuel) {
        Ok(b) => b,
        Err(e) => return Err(e),
    };
    Ok((a, b))
}

/// The word that names `f`.
fn form_name_exec(f: SpecialForm) -> (r: &'static str)
    ensures
        r@ == form_name(f),
{
    match f {
        SpecialForm::Add => "+",
        SpecialForm::Mul => "*",
        SpecialForm::Sub => "-",
        SpecialForm::Eq => "eq?",
        SpecialForm::Lt => "<",
        SpecialForm::Gt => ">",
        SpecialForm::Le => "<=",
        SpecialForm::Ge => ">=",
        SpecialForm::Cons => "cons",
        SpecialForm::Car => "car",
        SpecialForm::Cdr => "cdr",
        SpecialForm::Define => "define",
        SpecialForm::If => "if",
        SpecialForm::Cond => "cond",
    }
}

fn eval_int_two_in(f: SpecialForm, l: &Vec<LispExpr>, env: &mut LispEnv, at: usize, fuel: usize) -> (r: Result<(i64, i64), LispErr>)
    requires
        at < old(env)@.len(),
    ensures
        (ints_outcome(r), final(env)@) == eval_int_two(f, views(l@), old(env)@, at as nat, fuel as nat),
        final(env)@.len() >= old(env)@.len(),
    decreases fuel, l, 1nat,
{
    proof {
        lemma_views(l@);
    }
    if l.len() != 3 {
        return Err(LispErr::ArityMismatch);
    }
    let a = match eval_in(&l[1], env, at, fuel) {
        Ok(LispExpr::Integer(a)) => a,
        Ok(_) => return Err(operand_error(form_name_exec(f), 1, "integer")),
        Err(e) => return Err(e),
    };
    let b = match eval_in(&l[2], env, at, fuel) {
        Ok(LispExpr::Integer(b)) => b,
        Ok(_) => return Err(operand_error(form_name_exec(f), 2, "integer")),
        Err(e) => return Err(e),
    };
    Ok((a, b))
}

const TWO_POW_63: i128 = 0x8000_0000_0000_0000;

/// `(+ ...)`: the exact sum of the operands, kept in 128 bits. After `i`
/// operands its magnitude is at most `i * 2^63`, which stays below `2^127`
/// for any number of operands a `Vec` can hold.
fn eval_sum_in(l: &Vec<LispExpr>, env: &mut LispEnv, at: usize, fuel: usize) -> (r: Result<LispExpr, LispErr>)
    requires
        at < old(env)@.len(),
        l@.len() >= 1,
    ensures
        (outcome(r), final(env)@) == eval_fold(views(l@), 1, old(env)@, at as nat, fuel as nat, 0, false),
        final(env)@.len() >= old(env)@.len(),
    decreases fuel, l, 1nat,
{
    proof {
        lemma_views(l@);
    }
    let ghost lv = views(l@);
    let mut acc: i128 = 0;
    let mut i: usize = 1;
    while i < l.len()
        invariant
            1 <= i <= l@.len(),
            lv == views(l@),
            lv.len() == l@.len(),
            forall|j: int| 0 <= j < l@.len() ==> #[trigger] lv[j] == l@[j]@,
            at < env@.len(),
            env@.len() >= old(env)@.len(),
            -(i as int) * TWO_POW_63 <= acc <= (i as int) * TWO_POW_63,
            eval_fold(lv, 1, old(env)@, at as nat, fuel as nat, 0, false) == eval_fold(
                lv,
                i as nat,
                env@,
                at as nat,
                fuel as nat,
                acc as int,
                false,
            ),
        decreases l@.len() - i,
    {
        match eval_in(&l[i], env, at, fuel) {
            Err(e) => return Err(e),
            Ok(LispExpr::Integer(n)) => {
                acc = acc + n as i128;
            },
            Ok(_) => return Err(operand_error("+", i, "integer")),
        }
        i += 1;
    }
    if i64::MIN as i128 <= acc && acc <= i64::MAX as i128 {
        Ok(LispExpr::Integer(acc as i64))
    } else {
        Err(LispErr::Overflow)
    }
}

proof fn lemma_stays_large(x: int, n: int)
    requires
        x > TWO_POW_63 || x < -TWO_POW_63,
        n != 0,
    ensures
        x * n > TWO_POW_63 || x * n < -TWO_POW_63,
{
    if x > 0 && n > 0 {
        assert(x * n >= x) by (nonlinear_arith)
            requires
                x > 0,
                n > 0,
        ;
    } else if x > 0 && n < 0 {
        assert(x * n <= -x) by (nonlinear_arith)
            requires
                x > 0,
                n < 0,
        ;
    } else if x < 0 && n > 0 {
        assert(x * n <= x) by (nonlinear_arith)
            requires
                x < 0,
                n > 0,
        ;
    } else {
        assert(x * n >= -x) by (nonlinear_arith)
            requires
                x < 0,
                n < 0,
        ;
    }
}

/// `(* ...)`: the exact product of the operands. While its magnitude is at
/// most `2^63` it is kept in 128 bits; beyond that it can only come back
/// into range through a zero operand, so only that fact is kept.
fn eval_product_in(l: &Vec<LispExpr>, env: &mut LispEnv, at: usize, fuel: usize) -> (r: Result<LispExpr, LispErr>)
    requires
        at < old(env)@.len(),
        l@.len() >= 1,
    ensures
        (outcome(r), final(env)@) == eval_fold(views(l@), 1, old(env)@, at as nat, fuel as nat, 1, true),
        final(env)@.len() >= old(env)@.len(),
    decreases fuel, l, 1nat,
{
    proof {
        lemma_views(l@);
    }
    let ghost lv = views(l@);
    let ghost mut exact: int = 1;
    let mut prod: i128 = 1;
    let mut large = false;
    let mut i: usize = 1;
    while i < l.len()
        invariant
            1 <= i <= l@.len(),
            lv == views(l@),
            lv.len() == l@.len(),
            forall|j: int| 0 <= j < l@.len() ==> #[trigger] lv[j] == l@[j]@,
            at < env@.len(),
            env@.len() >= old(env)@.len(),
            !large ==> prod as int == exact && -TWO_POW_63 <= prod <= TWO_POW_63,
            large ==> exact > TWO_POW_63 || exact < -TWO_POW_63,
            eval_fold(lv, 1, old(env)@, at as nat, fuel as nat, 1, true) == eval_fold(
                lv,
                i as nat,
                env@,
                at as nat,
                fuel as nat,
                exact,
                true,
            ),
        decreases l@.len() - i,
    {
        match eval_in(&l[i], env, at, fuel) {
            Err(e) => return Err(e),
            Ok(LispExpr::Integer(n)) => {
                let m = n as i128;
                if large {
                    if m == 0 {
                        large = false;
                        prod = 0;
                        assert(exact * n == 0) by (nonlinear_arith)
                            requires
                                n == 0,
                        ;
                    } else {
                        proof {
                            lemma_stays_large(exact, m as int);
                        }
                    }
                } else {
                    assert(-0x4000_0000_0000_0000_0000_0000_0000_0000 <= prod * m
                        <= 0x4000_0000_0000_0000_0000_0000_0000_0000) by (nonlinear_arith)
                        requires
                            -TWO_POW_63 <= prod <= TWO_POW_63,
                            -TWO_POW_63 <= m <= TWO_POW_63,
                    ;
                    let p = prod * m;
                    assert(p as int == exact * n);
                    if p > TWO_POW_63 || p < -TWO_POW_63 {
                        large = true;
                    } else {
                        prod = p;
                    }
                }
                proof {
                    exact = exact * n;
                }
            },
            Ok(_) => return Err(operand_error("*", i, "integer")),
        }
        i += 1;
    }
    if !large && i64::MIN as i128 <= prod && prod <= i64::MAX as i128 {
        Ok(LispExpr::Integer(prod as i64))
    } else {
        Err(LispErr::Overflow)
    }
}

fn eval_cond_in(l: &Vec<LispExpr>, env: &mut LispEnv, at: usize, fuel: usize) -> (r: Result<LispExpr, LispErr>)
    requires
        at < old(env)@.len(),
        l@.len() >= 1,
    ensures
        (outcome(r), final(env)@) == eval_cond(views(l@), 1, old(env)@, at as nat, fuel as nat),
        final(env)@.len() >= old(env)@.len(),
    decreases fuel, l, 1nat,
{
    proof {
        lemma_views(l@);
    }
    let ghost lv = views(l@);
    let mut i: usize = 1;
    while i < l.len()
        invariant
            1 <= i <= l@.len(),
            lv == views(l@),
            lv.len() == l@.len(),
            forall|j: int| 0 <= j < l@.len() ==> #[trigger] lv[j] == l@[j]@,
            at < env@.len(),
            env@.len() >= old(env)@.len(),
            eval_cond(lv, 1, old(env)@, at as nat, fuel as nat) == eval_cond(
                lv,
                i as nat,
                env@,
                at as nat,
                fuel as nat,
            ),
        decreases l@.len() - i,
    {
        match &l[i] {
            LispExpr::List(c) => {
                proof {
                    lemma_views(c@);
                }
                if c.len() != 2 {
                    return Err(syntax_error("cond clause must be a (test result) list"));
                }
                let is_else = match &c[0] {
                    LispExpr::Symbol(s) => same_text(s.as_str(), "else"),
                    _ => false,
                };
                if is_else {
                    return eval_in(&c[1], env, at, fuel);
                }
                match eval_in(&c[0], env, at, fuel) {
                    Err(e) => return Err(e),
                    Ok(LispExpr::Bool(true)) => return eval_in(&c[1], env, at, fuel),
                    Ok(LispExpr::Bool(false)) => {},
                    Ok(_) => return Err(operand_error("cond", i, "bool")),
                }
            },
            _ => return Err(syntax_error("cond clause must be a (test result) list")),
        }
        i += 1;
    }
    Ok(LispExpr::Null)
}

fn eval_args_in(l: &Vec<LispExpr>, env: &mut LispEnv, at: usize, fuel: usize) -> (r: Result<Vec<LispExpr>, LispErr>)
    requires
        at < old(env)@.len(),
        l@.len() >= 1,
    ensures
        (args_outcome(r), final(env)@) == eval_args(views(l@), 1, old(env)@, at as nat, fuel as nat, Seq::empty()),
        final(env)@.len() >= old(env)@.len(),
    decreases fuel, l, 1nat,
{
    proof {
        lemma_views(l@);
    }
    let ghost lv = views(l@);
    let mut acc: Vec<LispExpr> = Vec::new();
    let mut i: usize = 1;
    assert(views(acc@) =~= Seq::<Term>::empty());
    while i < l.len()
        invariant
            1 <= i <= l@.len(),
            lv == views(l@),
            lv.len() == l@.len(),
            forall|j: int| 0 <= j < l@.len() ==> #[trigger] lv[j] == l@[j]@,
            at < env@.len(),
            env@.len() >= old(env)@.len(),
            eval_args(lv, 1, old(env)@, at as nat, fuel as nat, Seq::empty()) == eval_args(
                lv,
                i as nat,
                env@,
                at as nat,
                fuel as nat,
                views(acc@),
            ),
        decreases l@.len() - i,
    {
        match eval_in(&l[i], env, at, fuel) {
            Err(e) => return Err(e),
            Ok(v) => {
                proof {
                    lemma_views_push(acc@, v);
                }
                acc.push(v);
            },
        }
        i += 1;
    }
    Ok(acc)
}

fn eval_body_in(b: &Vec<LispExpr>, env: &mut LispEnv, at: usize, fuel: usize) -> (r: Result<LispExpr, LispErr>)
    requires
        at < old(env)@.len(),
    ensures
        (outcome(r), final(env)@) == eval_body(views(b@), 0, old(env)@, at as nat, fuel as nat),
        final(env)@.len() >= old(env)@.len(),
    decreases fuel, b, 1nat,
{
    proof {
        lemma_views(b@);
    }
    let ghost bv = views(b@);
    let mut i: usize = 0;
    while i < b.len()
        invariant
            0 <= i <= b@.len(),
            bv == views(b@),
            bv.len() == b@.len(),
            forall|j: int| 0 <= j < b@.len() ==> #[trigger] bv[j] == b@[j]@,
            at < env@.len(),
            env@.len() >= old(env)@.len(),
            eval_body(bv, 0, old(env)@, at as nat, fuel as nat) == eval_body(
                bv,
                i as nat,
                env@,
                at as nat,
                fuel as nat,
            ),
        decreases b@.len() - i,
    {
        match eval_in(&b[i], env, at, fuel) {
            Err(e) => return Err(e),
            Ok(v) => {
                if i + 1 == b.len() {
                    return Ok(v);
                }
            },
        }
        i += 1;
    }
    Ok(LispExpr::Null)
}

impl LispFunc {
    /// Calls this procedure on `args`, with `fuel` calls left for its body.
    fn call(&self, args: &Vec<LispExpr>, env: &mut LispEnv, fuel: usize) -> (r: Result<LispExpr, LispErr>)
        requires
            self.closure < old(env)@.len(),
            args@.len() == self.params@.len(),
        ensures
            (outcome(r), final(env)@) == apply(
                names(self.params@),
                views(self.body@),
                self.closure as nat,
                views(args@),
                old(env)@,
                fuel as nat,
            ),
            final(env)@.len() >= old(env)@.len(),
        decreases fuel, self.body, 2nat,
    {
        proof {
            old(env).lemma_has_root();
        }
        let bindings = bind_params(&self.params, args);
        let base = env.new_frame(self.closure, bindings);
        assert(env@ == old(env)@.push(
            call_scope(names(self.params@), views(args@), self.closure as nat),
        ));
        let r = eval_body_in(&self.body, env, base, fuel);
        let keep = match &r {
            Ok(v) => !refs_below_in(v, base),
            Err(_) => false,
        };
        if !keep {
            env.pop_frame(base);
        }
        r
    }
}

fn eval_call_in(l: &Vec<LispExpr>, env: &mut LispEnv, at: usize, fuel: usize) -> (r: Result<LispExpr, LispErr>)
    requires
        at < old(env)@.len(),
    ensures
        (outcome(r), final(env)@) == eval_call(views(l@), old(env)@, at as nat, fuel as nat),
        final(env)@.len() >= old(env)@.len(),
    decreases fuel, l, l@.len() + 2,
{
    proof {
        lemma_views(l@);
    }
    if l.len() == 0 {
        return Ok(LispExpr::Null);
    }
    let f = match eval_in(&l[0], env, at, fuel) {
        Ok(LispExpr::Func(f)) => f,
        Ok(_) => return Err(operand_error("call", 0, "function")),
        Err(e) => return Err(e),
    };
    let args = match eval_args_in(l, env, at, fuel) {
        Ok(a) => a,
        Err(e) => return Err(e),
    };
    proof {
        lemma_views(args@);
    }
    if args.len() != f.params.len() {
        return Err(LispErr::ArityMismatch);
    }
    if fuel == 0 {
        return Err(LispErr::DepthExceeded);
    }
    if !env.has_scope(f.closure) {
        return Err(type_error("procedure from another environment"));
    }
    f.call(&args, env, fuel - 1)
}

fn eval_form_in(
    f: SpecialForm,
    l: &Vec<LispExpr>,
    env: &mut LispEnv,
    at: usize,
    fuel: usize,
) -> (r: Result<LispExpr, LispErr>)
    requires
        at < old(env)@.len(),
    ensures
        (outcome(r), final(env)@) == eval_form(f, views(l@), old(env)@, at as nat, fuel as nat),
        final(env)@.len() >= old(env)@.len(),
    decreases fuel, l, l@.len() + 2,
{
    proof {
        lemma_views(l@);
    }
    match f {
        SpecialForm::Add => {
            if l.len() < 2 {
                return Err(LispErr::ArityMismatch);
            }
            eval_sum_in(l, env, at, fuel)
        },
        SpecialForm::Mul => {
            if l.len() < 2 {
                return Err(LispErr::ArityMismatch);
            }
            eval_product_in(l, env, at, fuel)
        },
        SpecialForm::Sub => match eval_int_two_in(f, l, env, at, fuel) {
            Err(e) => Err(e),
            Ok((a, b)) => match a.checked_sub(b) {
                Some(d) => Ok(LispExpr::Integer(d)),
                None => Err(LispErr::Overflow),
            },
        },
        SpecialForm::Lt | SpecialForm::Gt | SpecialForm::Le | SpecialForm::Ge => {
            match eval_int_two_in(f, l, env, at, fuel) {
                Err(e) => Err(e),
                Ok((a, b)) => Ok(LispExpr::Bool(compare_exec(f, a, b))),
            }
        },
        SpecialForm::Eq => match eval_two_in(l, env, at, fuel) {
            Err(e) => Err(e),
            Ok((a, b)) => Ok(LispExpr::Bool(same_atom_exec(&a, &b))),
        },
        SpecialForm::Cons => match eval_two_in(l, env, at, fuel) {
            Err(e) => Err(e),
            Ok((a, b)) => Ok(LispExpr::Cons(Box::new(a), Box::new(b))),
        },
        SpecialForm::Car | SpecialForm::Cdr => {
            if l.len() != 2 {
                return Err(LispErr::ArityMismatch);
            }
            match eval_in(&l[1], env, at, fuel) {
                Err(e) => Err(e),
                Ok(LispExpr::Cons(a, b)) => {
                    let first = match f {
                        SpecialForm::Car => true,
                        _ => false,
                    };
                    if first {
                        Ok(*a)
                    } else {
                        Ok(*b)
                    }
                },
                Ok(_) => Err(operand_error(form_name_exec(f), 1, "pair")),
            }
        },
        SpecialForm::Define => {
            if l.len() < 3 {
                return Err(LispErr::ArityMismatch);
            }
            match &l[1] {
                LispExpr::Symbol(name) => match eval_in(&l[2], env, at, fuel) {
                    Err(e) => Err(e),
                    Ok(v) => {
                        env.define_in(at, name.clone(), v);
                        Ok(LispExpr::Null)
                    },
                },
                LispExpr::List(sig) => match signature_of(sig) {
                    Some((name, params)) => {
                        let body = copy_from(l, 2);
                        let func = LispFunc { params, body, closure: at };
                        env.define_in(at, name, LispExpr::Func(Box::new(func)));
                        Ok(LispExpr::Null)
                    },
                    None => Err(syntax_error("malformed procedure signature")),
                },
                _ => Err(syntax_error("define needs a name or a signature")),
            }
        },
        SpecialForm::If => {
            if l.len() != 4 {
                return Err(LispErr::ArityMismatch);
            }
            match eval_in(&l[1], env, at, fuel) {
                Err(e) => Err(e),
                Ok(LispExpr::Bool(c)) => if c {
                    eval_in(&l[2], env, at, fuel)
                } else {
                    eval_in(&l[3], env, at, fuel)
                },
                Ok(_) => Err(operand_error("if", 1, "bool")),
            }
        },
        SpecialForm::Cond => {
            if l.len() < 3 {
                return Err(LispErr::ArityMismatch);
            }
            eval_cond_in(l, env, at, fuel)
        },
    }
}

impl LispExpr {
    /// Evaluates this expression in the root scope of `env`.
    pub fn eval(&self, env: &mut LispEnv) -> (r: Result<LispExpr, LispErr>)
        ensures
            (outcome(r), final(env)@) == evaluate(self@, old(env)@),
    {
        proof {
            old(env).lemma_has_root();
        }
        eval_in(self, env, 0, MAX_CALL_DEPTH)
    }
}

/// Evaluates `expr` in the root scope of `env`.
pub fn eval(expr: &LispExpr, env: &mut LispEnv) -> (r: Result<LispExpr, LispErr>)
    ensures
        (outcome(r), final(env)@) == evaluate(expr@, old(env)@),
{
    expr.eval(env)
}

} // verus!
