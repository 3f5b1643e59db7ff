//! What an expression evaluates to: the semantics of the language as spec
//! functions over the models `Term` and `Scope`.
//!
//! Evaluation threads an environment through, left to right, and fails at
//! the first error. It is bounded by a depth of procedure calls: each call
//! consumes one unit of `fuel`, and a call with none left fails with
//! `DepthExceeded` instead of exhausting the machine's stack.

use vstd::prelude::*;
use crate::env::{define, lookup, Scope};
use crate::expr::{operand_detail, Fault, Term};

verus! {

/// The reserved words. They are recognised before any lookup, so a
/// definition of the same name is never seen by the evaluator.
#[derive(Clone, Copy, Debug)]
pub enum SpecialForm {
    Add,
    Mul,
    Sub,
    Eq,
    Lt,
    Gt,
    Le,
    Ge,
    Cons,
    Car,
    Cdr,
    Define,
    If,
    Cond,
}

/// The reserved word that `s` is, if any.
pub open spec fn form_of(s: Seq<char>) -> Option<SpecialForm> {
    if s == "+"@ {
        Some(SpecialForm::Add)
    } else if s == "*"@ {
        Some(SpecialForm::Mul)
    } else if s == "-"@ {
        Some(SpecialForm::Sub)
    } else if s == "eq?"@ {
        Some(SpecialForm::Eq)
    } else if s == "<"@ {
        Some(SpecialForm::Lt)
    } else if s == ">"@ {
        Some(SpecialForm::Gt)
    } else if s == "<="@ {
        Some(SpecialForm::Le)
    } else if s == ">="@ {
        Some(SpecialForm::Ge)
    } else if s == "cons"@ {
        Some(SpecialForm::Cons)
    } else if s == "car"@ {
        Some(SpecialForm::Car)
    } else if s == "cdr"@ {
        Some(SpecialForm::Cdr)
    } else if s == "define"@ {
        Some(SpecialForm::Define)
    } else if s == "if"@ {
        Some(SpecialForm::If)
    } else if s == "cond"@ {
        Some(SpecialForm::Cond)
    } else {
        None
    }
}

/// The special form that a list with head `t` is, if any.
pub open spec fn head_form(t: Term) -> Option<SpecialForm> {
    match t {
        Term::Symbol(s) => form_of(s),
        _ => None,
    }
}

/// `eq?` on two values: equal integers, symbols or booleans.
pub open spec fn same_atom(a: Term, b: Term) -> bool {
    match (a, b) {
        (Term::Integer(x), Term::Integer(y)) => x == y,
        (Term::Symbol(x), Term::Symbol(y)) => x == y,
        (Term::Bool(x), Term::Bool(y)) => x == y,
        _ => false,
    }
}

/// Whether every scope index that `t` holds is below `n`.
pub open spec fn refs_below(t: Term, n: nat) -> bool
    decreases t,
{
    match t {
        Term::List(l) => all_below(l, n),
        Term::Func(_, body, c) => c < n && all_below(body, n),
        Term::Cons(a, b) => refs_below(*a, n) && refs_below(*b, n),
        _ => true,
    }
}

/// Whether every scope index that the terms of `s` hold is below `n`.
pub open spec fn all_below(s: Seq<Term>, n: nat) -> bool
    decreases s,
{
    if s.len() == 0 {
        true
    } else {
        all_below(s.drop_last(), n) && refs_below(s.last(), n)
    }
}

pub proof fn lemma_all_below(s: Seq<Term>, n: nat)
    ensures
        all_below(s, n) <==> forall|i: int| 0 <= i < s.len() ==> refs_below(#[trigger] s[i], n),
    decreases s.len(),
{
    if s.len() > 0 {
        let d = s.drop_last();
        lemma_all_below(d, n);
        if forall|i: int| 0 <= i < s.len() ==> refs_below(#[trigger] s[i], n) {
            assert forall|i: int| 0 <= i < d.len() implies refs_below(#[trigger] d[i], n) by {
                assert(d[i] == s[i]);
            }
            assert(refs_below(s[s.len() - 1], n));
        }
        if all_below(s, n) {
            assert forall|i: int| 0 <= i < s.len() implies refs_below(#[trigger] s[i], n) by {
                if i < s.len() - 1 {
                    assert(d[i] == s[i]);
                }
            }
        }
    }
}

/// The environment after a call whose frame is scope `base` returned `r`:
/// the frame and everything above it are released unless `r` still holds
/// a procedure that refers to them.
pub open spec fn release(r: Result<Term, Fault>, env: Seq<Scope>, base: nat) -> Seq<Scope> {
    if (r matches Ok(v) && !refs_below(v, base)) || env.len() <= base {
        env
    } else {
        env.subrange(0, base as int)
    }
}

/// The frame of a call: each parameter bound to its argument.
pub open spec fn call_scope(params: Seq<Seq<char>>, args: Seq<Term>, closure: nat) -> Scope {
    Scope {
        bindings: Seq::new(params.len(), |i: int| (params[i], args[i])),
        parent: Some(closure),
    }
}

/// Why a call of a procedure cannot begin, if it cannot.
pub open spec fn call_refusal(
    params: Seq<Seq<char>>,
    args: Seq<Term>,
    closure: nat,
    env: Seq<Scope>,
    fuel: nat,
) -> Option<Fault> {
    if args.len() != params.len() {
        Some(Fault::ArityMismatch)
    } else if fuel == 0 {
        Some(Fault::DepthExceeded)
    } else if closure >= env.len() {
        Some(Fault::TypeError("procedure from another environment"@))
    } else {
        None
    }
}

/// The name and parameter names of `(define (name p1 ...) ...)`.
pub open spec fn signature(sig: Seq<Term>) -> Option<(Seq<char>, Seq<Seq<char>>)> {
    if sig.len() > 0 && forall|i: int| 0 <= i < sig.len() ==> #[trigger] sig[i] is Symbol {
        Some((sig[0]->Symbol_0, Seq::new((sig.len() - 1) as nat, |i: int| sig[i + 1]->Symbol_0)))
    } else {
        None
    }
}

/// The word that names `f`.
pub open spec fn form_name(f: SpecialForm) -> Seq<char> {
    match f {
        SpecialForm::Add => "+"@,
        SpecialForm::Mul => "*"@,
        SpecialForm::Sub => "-"@,
        SpecialForm::Eq => "eq?"@,
        SpecialForm::Lt => "<"@,
        SpecialForm::Gt => ">"@,
        SpecialForm::Le => "<="@,
        SpecialForm::Ge => ">="@,
        SpecialForm::Cons => "cons"@,
        SpecialForm::Car => "car"@,
        SpecialForm::Cdr => "cdr"@,
        SpecialForm::Define => "define"@,
        SpecialForm::If => "if"@,
        SpecialForm::Cond => "cond"@,
    }
}

/// A `TypeError` naming operand `pos` of `op` and the kind it should have.
pub open spec fn operand_fault(op: Seq<char>, pos: nat, what: Seq<char>) -> Fault {
    Fault::TypeError(operand_detail(op, pos, what))
}

pub open spec fn malformed_clause() -> Fault {
    Fault::SyntaxError("cond clause must be a (test result) list"@)
}

/// What `t` evaluates to in scope `at` of `env`, with `fuel` calls left,
/// and the environment afterwards.
pub open spec fn eval_term(t: Term, env: Seq<Scope>, at: nat, fuel: nat) -> (Result<Term, Fault>, Seq<Scope>)
    decreases fuel, t, 0nat,
{
    match t {
        Term::Symbol(s) => match lookup(env, at as int, s) {
            Some(v) => (Ok(v), env),
            None => (Err(Fault::NameError), env),
        },
        Term::List(l) => eval_list(l, env, at, fuel),
        _ => (Ok(t), env),
    }
}

/// What the list `l` evaluates to: a special form, a call, or `Null` if empty.
pub open spec fn eval_list(l: Seq<Term>, env: Seq<Scope>, at: nat, fuel: nat) -> (Result<Term, Fault>, Seq<Scope>)
    decreases fuel, l, l.len() + 3,
{
    if l.len() == 0 {
        (Ok(Term::Null), env)
    } else {
        match head_form(l[0]) {
            Some(f) => eval_form(f, l, env, at, fuel),
            None => eval_call(l, env, at, fuel),
        }
    }
}

/// Evaluates `l[1]` and `l[2]` in order; `l` must have three elements.
pub open spec fn eval_two(l: Seq<Term>, env: Seq<Scope>, at: nat, fuel: nat) -> (Result<(Term, Term), Fault>, Seq<Scope>)
    decreases fuel, l, 1nat,
{
    if l.len() != 3 {
        (Err(Fault::ArityMismatch), env)
    } else {
        let (r1, e1) = eval_term(l[1], env, at, fuel);
        match r1 {
            Err(f) => (Err(f), e1),
            Ok(a) => {
                let (r2, e2) = eval_term(l[2], e1, at, fuel);
                match r2 {
                    Err(f) => (Err(f), e2),
                    Ok(b) => (Ok((a, b)), e2),
                }
            },
        }
    }
}

/// Evaluates `l[1]` and `l[2]` in order to integers; `l` must have three
/// elements.
pub open spec fn eval_int_two(f: SpecialForm, l: Seq<Term>, env: Seq<Scope>, at: nat, fuel: nat) -> (Result<(i64, i64), Fault>, Seq<Scope>)
    decreases fuel, l, 1nat,
{
    if l.len() != 3 {
        (Err(Fault::ArityMismatch), env)
    } else {
        let (r1, e1) = eval_term(l[1], env, at, fuel);
        match r1 {
            Err(f) => (Err(f), e1),
            Ok(Term::Integer(a)) => {
                let (r2, e2) = eval_term(l[2], e1, at, fuel);
                match r2 {
                    Err(f) => (Err(f), e2),
                    Ok(Term::Integer(b)) => (Ok((a, b)), e2),
                    Ok(_) => (Err(operand_fault(form_name(f), 2, "integer"@)), e2),
                }
            },
            Ok(_) => (Err(operand_fault(form_name(f), 1, "integer"@)), e1),
        }
    }
}

/// Adds (or multiplies, if `mul`) the integers that `l[i..]` evaluate to,
/// left to right, onto the exact total `acc`. Once every operand is an
/// integer, the result is the exact total, or `Overflow` if that does not
/// fit in 64 signed bits.
pub open spec fn eval_fold(
    l: Seq<Term>,
    i: nat,
    env: Seq<Scope>,
    at: nat,
    fuel: nat,
    acc: int,
    mul: bool,
) -> (Result<Term, Fault>, Seq<Scope>)
    decreases fuel, l, l.len() - i,
{
    if i >= l.len() {
        if i64::MIN <= acc <= i64::MAX {
            (Ok(Term::Integer(acc as i64)), env)
        } else {
            (Err(Fault::Overflow), env)
        }
    } else {
        let (r, e1) = eval_term(l[i as int], env, at, fuel);
        match r {
            Err(f) => (Err(f), e1),
            Ok(Term::Integer(n)) => eval_fold(
                l,
                i + 1,
                e1,
                at,
                fuel,
                if mul {
                    acc * n
                } else {
                    acc + n
                },
                mul,
            ),
            Ok(_) => (
                Err(
                    operand_fault(
                        form_name(
                            if mul {
                                SpecialForm::Mul
                            } else {
                                SpecialForm::Add
                            },
                        ),
                        i,
                        "integer"@,
                    ),
                ),
                e1,
            ),
        }
    }
}

/// The clauses `l[i..]` of a `cond`.
pub open spec fn eval_cond(l: Seq<Term>, i: nat, env: Seq<Scope>, at: nat, fuel: nat) -> (Result<Term, Fault>, Seq<Scope>)
    decreases fuel, l, l.len() - i,
{
    if i >= l.len() {
        (Ok(Term::Null), env)
    } else {
        match l[i as int] {
            Term::List(c) => if c.len() != 2 {
                (Err(malformed_clause()), env)
            } else if c[0] == Term::Symbol("else"@) {
                eval_term(c[1], env, at, fuel)
            } else {
                let (r, e1) = eval_term(c[0], env, at, fuel);
                match r {
                    Err(f) => (Err(f), e1),
                    Ok(Term::Bool(true)) => eval_term(c[1], e1, at, fuel),
                    Ok(Term::Bool(false)) => eval_cond(l, i + 1, e1, at, fuel),
                    Ok(_) => (Err(operand_fault("cond"@, i, "bool"@)), e1),
                }
            },
            _ => (Err(malformed_clause()), env),
        }
    }
}

/// The values of the arguments `l[i..]`, appended to `acc`.
pub open spec fn eval_args(
    l: Seq<Term>,
    i: nat,
    env: Seq<Scope>,
    at: nat,
    fuel: nat,
    acc: Seq<Term>,
) -> (Result<Seq<Term>, Fault>, Seq<Scope>)
    decreases fuel, l, l.len() - i,
{
    if i >= l.len() {
        (Ok(acc), env)
    } else {
        let (r, e1) = eval_term(l[i as int], env, at, fuel);
        match r {
            Err(f) => (Err(f), e1),
            Ok(v) => eval_args(l, i + 1, e1, at, fuel, acc.push(v)),
        }
    }
}

/// The body `b[i..]` of a procedure: each element in order, the last one's
/// value is the result.
pub open spec fn eval_body(b: Seq<Term>, i: nat, env: Seq<Scope>, at: nat, fuel: nat) -> (Result<Term, Fault>, Seq<Scope>)
    decreases fuel, b, b.len() - i,
{
    if i >= b.len() {
        (Ok(Term::Null), env)
    } else {
        let (r, e1) = eval_term(b[i as int], env, at, fuel);
        match r {
            Err(f) => (Err(f), e1),
            Ok(v) => if i + 1 == b.len() {
                (Ok(v), e1)
            } else {
                eval_body(b, i + 1, e1, at, fuel)
            },
        }
    }
}

/// A call of the procedure `(params, body, closure)` on `args`: a new scope
/// below `closure` binds the parameters, the body runs there with `fuel`
/// calls left, and the scope is released afterwards.
pub open spec fn apply(
    params: Seq<Seq<char>>,
    body: Seq<Term>,
    closure: nat,
    args: Seq<Term>,
    env: Seq<Scope>,
    fuel: nat,
) -> (Result<Term, Fault>, Seq<Scope>)
    decreases fuel, body, body.len() + 1,
{
    let base = env.len();
    let (r, e3) = eval_body(body, 0, env.push(call_scope(params, args, closure)), base, fuel);
    (r, release(r, e3, base))
}

/// A list whose head is not a reserved word: a procedure call.
pub open spec fn eval_call(l: Seq<Term>, env: Seq<Scope>, at: nat, fuel: nat) -> (Result<Term, Fault>, Seq<Scope>)
    decreases fuel, l, l.len() + 2,
{
    if l.len() == 0 {
        (Ok(Term::Null), env)
    } else {
        let (rf, e1) = eval_term(l[0], env, at, fuel);
        match rf {
            Err(f) => (Err(f), e1),
            Ok(Term::Func(params, body, closure)) => {
                let (ra, e2) = eval_args(l, 1, e1, at, fuel, Seq::empty());
                match ra {
                    Err(f) => (Err(f), e2),
                    Ok(args) => match call_refusal(params, args, closure, e2, fuel) {
                        Some(f) => (Err(f), e2),
                        None => apply(params, body, closure, args, e2, (fuel - 1) as nat),
                    },
                }
            },
            Ok(_) => (Err(operand_fault("call"@, 0, "function"@)), e1),
        }
    }
}

/// A special form `f` on the list `l`, whose head names it.
pub open spec fn eval_form(f: SpecialForm, l: Seq<Term>, env: Seq<Scope>, at: nat, fuel: nat) -> (Result<Term, Fault>, Seq<Scope>)
    decreases fuel, l, l.len() + 2,
{
    match f {
        SpecialForm::Add => if l.len() < 2 {
            (Err(Fault::ArityMismatch), env)
        } else {
            eval_fold(l, 1, env, at, fuel, 0, false)
        },
        SpecialForm::Mul => if l.len() < 2 {
            (Err(Fault::ArityMismatch), env)
        } else {
            eval_fold(l, 1, env, at, fuel, 1, true)
        },
        SpecialForm::Sub => {
            let (r, e1) = eval_int_two(f, l, env, at, fuel);
            match r {
                Err(f) => (Err(f), e1),
                Ok((a, b)) => match a.checked_sub(b) {
                    Some(d) => (Ok(Term::Integer(d)), e1),
                    None => (Err(Fault::Overflow), e1),
                },
            }
        },
        SpecialForm::Lt | SpecialForm::Gt | SpecialForm::Le | SpecialForm::Ge => {
            let (r, e1) = eval_int_two(f, l, env, at, fuel);
            match r {
                Err(f) => (Err(f), e1),
                Ok((a, b)) => (Ok(Term::Bool(compare(f, a, b))), e1),
            }
        },
        SpecialForm::Eq => {
            let (r, e1) = eval_two(l, env, at, fuel);
            match r {
                Err(f) => (Err(f), e1),
                Ok((a, b)) => (Ok(Term::Bool(same_atom(a, b))), e1),
            }
        },
        SpecialForm::Cons => {
            let (r, e1) = eval_two(l, env, at, fuel);
            match r {
                Err(f) => (Err(f), e1),
                Ok((a, b)) => (Ok(Term::Cons(Box::new(a), Box::new(b))), e1),
            }
        },
        SpecialForm::Car | SpecialForm::Cdr => if l.len() != 2 {
            (Err(Fault::ArityMismatch), env)
        } else {
            let (r, e1) = eval_term(l[1], env, at, fuel);
            match r {
                Err(f) => (Err(f), e1),
                Ok(Term::Cons(a, b)) => (Ok(if f is Car { *a } else { *b }), e1),
                Ok(_) => (Err(operand_fault(form_name(f), 1, "pair"@)), e1),
            }
        },
        SpecialForm::Define => if l.len() < 3 {
            (Err(Fault::ArityMismatch), env)
        } else {
            match l[1] {
                Term::Symbol(name) => {
                    let (r, e1) = eval_term(l[2], env, at, fuel);
                    match r {
                        Err(f) => (Err(f), e1),
                        Ok(v) => (Ok(Term::Null), define(e1, at as int, name, v)),
                    }
                },
                Term::List(sig) => match signature(sig) {
                    Some((name, params)) => (
                        Ok(Term::Null),
                        define(env, at as int, name, Term::Func(params, l.subrange(2, l.len() as int), at)),
                    ),
                    None => (Err(Fault::SyntaxError("malformed procedure signature"@)), env),
                },
                _ => (Err(Fault::SyntaxError("define needs a name or a signature"@)), env),
            }
        },
        SpecialForm::If => if l.len() != 4 {
            (Err(Fault::ArityMismatch), env)
        } else {
            let (r, e1) = eval_term(l[1], env, at, fuel);
            match r {
                Err(f) => (Err(f), e1),
                Ok(Term::Bool(c)) => if c {
                    eval_term(l[2], e1, at, fuel)
                } else {
                    eval_term(l[3], e1, at, fuel)
                },
                Ok(_) => (Err(operand_fault("if"@, 1, "bool"@)), e1),
            }
        },
        SpecialForm::Cond => if l.len() < 3 {
            (Err(Fault::ArityMismatch), env)
        } else {
            eval_cond(l, 1, env, at, fuel)
        },
    }
}

/// The comparison that `f` names.
pub open spec fn compare(f: SpecialForm, a: i64, b: i64) -> bool {
    match f {
        SpecialForm::Lt => a < b,
        SpecialForm::Gt => a > b,
        SpecialForm::Le => a <= b,
        _ => a >= b,
    }
}

/// The most procedure calls that may be nested in one evaluation.
pub const MAX_CALL_DEPTH: usize = 256;

/// What a top-level expression evaluates to in the root scope.
pub open spec fn evaluate(t: Term, env: Seq<Scope>) -> (Result<Term, Fault>, Seq<Scope>) {
    eval_term(t, env, 0, MAX_CALL_DEPTH as nat)
}

} // verus!
