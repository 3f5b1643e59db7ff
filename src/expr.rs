//! Expressions, their mathematical model, and the errors of evaluation.

use vstd::prelude::*;
use vstd::string::*;
use crate::text::push_char;

verus! {

/// The mathematical value of a `LispExpr`.
pub ghost enum Term {
    Symbol(Seq<char>),
    Integer(i64),
    List(Seq<Term>),
    Bool(bool),
    /// Parameter names, body, and the index of the captured scope.
    Func(Seq<Seq<char>>, Seq<Term>, nat),
    Cons(Box<Term>, Box<Term>),
    Null,
}

/// The mathematical value of a `LispErr`.
pub ghost enum Fault {
    ArityMismatch,
    NameError,
    TypeError(Seq<char>),
    SyntaxError(Seq<char>),
    Overflow,
    DepthExceeded,
}

/// Why an evaluation failed.
#[derive(Debug, PartialEq)]
pub enum LispErr {
    /// A special form had the wrong number of elements, or a procedure the
    /// wrong number of arguments.
    ArityMismatch,
    /// A symbol is bound in no enclosing scope.
    NameError,
    /// An operand had the wrong kind of value for the operation.
    TypeError(String),
    /// A special form was malformed.
    SyntaxError(String),
    /// An integer result does not fit in 64 signed bits.
    Overflow,
    /// Procedure calls were nested deeper than the evaluator allows.
    DepthExceeded,
}

impl LispErr {
    pub open spec fn view(&self) -> Fault {
        match self {
            LispErr::ArityMismatch => Fault::ArityMismatch,
            LispErr::NameError => Fault::NameError,
            LispErr::TypeError(s) => Fault::TypeError(s@),
            LispErr::SyntaxError(s) => Fault::SyntaxError(s@),
            LispErr::Overflow => Fault::Overflow,
            LispErr::DepthExceeded => Fault::DepthExceeded,
        }
    }
}

/// A `TypeError` with the given detail.
pub fn type_error(detail: &str) -> (e: LispErr)
    ensures
        e@ == Fault::TypeError(detail@),
{
    LispErr::TypeError(String::from_str(detail))
}

/// The detail of a `TypeError` for operand `pos` of the operation `op`
/// (the operator itself is operand 0), which should have been a `what`.
pub open spec fn operand_detail(op: Seq<char>, pos: nat, what: Seq<char>) -> Seq<char> {
    op + " operand "@ + digits(pos) + ": expected "@ + what
}

/// A `TypeError` for operand `pos` of `op`, which should have been a `what`.
pub fn operand_error(op: &str, pos: usize, what: &str) -> (e: LispErr)
    ensures
        e@ == Fault::TypeError(operand_detail(op@, pos as nat, what@)),
{
    let mut s = String::from_str(op);
    s.append(" operand ");
    push_digits(pos as u64, &mut s);
    s.append(": expected ");
    s.append(what);
    LispErr::TypeError(s)
}

/// A `SyntaxError` with the given detail.
pub fn syntax_error(detail: &str) -> (e: LispErr)
    ensures
        e@ == Fault::SyntaxError(detail@),
{
    LispErr::SyntaxError(String::from_str(detail))
}

/// A user-defined procedure: fixed parameters, a body evaluated in order,
/// and the scope that was current where it was defined.
#[derive(Debug, PartialEq)]
pub struct LispFunc {
    pub params: Vec<String>,
    pub body: Vec<LispExpr>,
    pub closure: usize,
}

#[derive(Debug, PartialEq)]
pub enum LispExpr {
    Symbol(String),
    Integer(i64),
    List(Vec<LispExpr>),
    Bool(bool),
    Func(Box<LispFunc>),
    Cons(Box<LispExpr>, Box<LispExpr>),
    Null,
}

/// The models of a sequence of expressions, element by element.
pub open spec fn views(s: Seq<LispExpr>) -> Seq<Term>
    decreases s,
{
    if s.len() == 0 {
        Seq::empty()
    } else {
        views(s.drop_last()).push(s.last().view())
    }
}

/// The models of a sequence of names.
pub open spec fn names(s: Seq<String>) -> Seq<Seq<char>> {
    s.map_values(|n: String| n@)
}

impl LispExpr {
    pub open spec fn view(&self) -> Term
        decreases self,
    {
        match self {
            LispExpr::Symbol(s) => Term::Symbol(s@),
            LispExpr::Integer(n) => Term::Integer(*n),
            LispExpr::List(v) => Term::List(views(v@)),
            LispExpr::Bool(b) => Term::Bool(*b),
            LispExpr::Func(f) => Term::Func(names(f.params@), views(f.body@), f.closure as nat),
            LispExpr::Cons(a, b) => Term::Cons(Box::new(a.view()), Box::new(b.view())),
            LispExpr::Null => Term::Null,
        }
    }
}

impl LispFunc {
    pub open spec fn view(&self) -> Term {
        Term::Func(names(self.params@), views(self.body@), self.closure as nat)
    }
}

impl LispExpr {
    pub fn extract_list(&self) -> (r: Result<Vec<LispExpr>, LispErr>)
        ensures
            match self@ {
                Term::List(l) => r matches Ok(v) && views(v@) == l,
                _ => r matches Err(e) && e@ == Fault::TypeError("expected list"@),
            },
    {
        match self {
            LispExpr::List(l) => Ok(copy_all(l)),
            _ => Err(type_error("expected list")),
        }
    }

    pub fn extract_symbol(&self) -> (r: Result<String, LispErr>)
        ensures
            match self@ {
                Term::Symbol(s) => r matches Ok(t) && t@ == s,
                _ => r matches Err(e) && e@ == Fault::TypeError("expected symbol"@),
            },
    {
        match self {
            LispExpr::Symbol(s) => Ok(s.clone()),
            _ => Err(type_error("expected symbol")),
        }
    }

    pub fn extract_int(&self) -> (r: Result<i64, LispErr>)
        ensures
            match self@ {
                Term::Integer(n) => r == Ok::<i64, LispErr>(n),
                _ => r matches Err(e) && e@ == Fault::TypeError("expected integer"@),
            },
    {
        match self {
            LispExpr::Integer(n) => Ok(*n),
            _ => Err(type_error("expected integer")),
        }
    }

    pub fn extract_bool(&self) -> (r: Result<bool, LispErr>)
        ensures
            match self@ {
                Term::Bool(b) => r == Ok::<bool, LispErr>(b),
                _ => r matches Err(e) && e@ == Fault::TypeError("expected bool"@),
            },
    {
        match self {
            LispExpr::Bool(b) => Ok(*b),
            _ => Err(type_error("expected bool")),
        }
    }

    pub fn extract_fn(&self) -> (r: Result<Box<LispFunc>, LispErr>)
        ensures
            self@ is Func ==> (r matches Ok(f) && f.view() == self@),
            !(self@ is Func) ==> (r matches Err(e) && e@ == Fault::TypeError("expected function"@)),
    {
        match self {
            LispExpr::Func(f) => Ok(Box::new((**f).clone())),
            _ => Err(type_error("expected function")),
        }
    }

    /// The first element of a list; any other expression is returned as it is.
    pub fn extract_first(&self) -> (r: LispExpr)
        requires
            self@ is List ==> self@->List_0.len() > 0,
        ensures
            r@ == match self@ {
                Term::List(l) => l[0],
                t => t,
            },
    {
        match self {
            LispExpr::List(v) => {
                proof {
                    lemma_views(v@);
                }
                v[0].clone()
            },
            _ => self.clone(),
        }
    }
}

/// The decimal digit `d`.
pub open spec fn digit_char(d: nat) -> char {
    seq!['0', '1', '2', '3', '4', '5', '6', '7', '8', '9'][d as int]
}

/// The decimal digits of `n`, without leading zeros.
pub open spec fn digits(n: nat) -> Seq<char>
    decreases n,
{
    if n < 10 {
        seq![digit_char(n)]
    } else {
        digits(n / 10).push(digit_char(n % 10))
    }
}

/// The decimal text of `n`, with a `-` if it is negative.
pub open spec fn decimal(n: int) -> Seq<char> {
    if n < 0 {
        seq!['-'] + digits((-n) as nat)
    } else {
        digits(n as nat)
    }
}

/// The text of a value: integers in decimal, booleans as `true` and
/// `false`, a pair as `(a b)`; anything else has none.
pub open spec fn render(t: Term) -> Option<Seq<char>>
    decreases t,
{
    match t {
        Term::Integer(n) => Some(decimal(n as int)),
        Term::Bool(b) => Some(
            if b {
                seq!['t', 'r', 'u', 'e']
            } else {
                seq!['f', 'a', 'l', 's', 'e']
            },
        ),
        Term::Cons(a, b) => match (render(*a), render(*b)) {
            (Some(x), Some(y)) => Some(seq!['('] + x + seq![' '] + y + seq![')']),
            _ => None,
        },
        _ => None,
    }
}

fn digit_exec(d: u64) -> (c: char)
    requires
        d < 10,
    ensures
        c == digit_char(d as nat),
{
    match d {
        0 => '0',
        1 => '1',
        2 => '2',
        3 => '3',
        4 => '4',
        5 => '5',
        6 => '6',
        7 => '7',
        8 => '8',
        _ => '9',
    }
}

/// Appends the decimal digits of `m` to `out`.
fn push_digits(m: u64, out: &mut String)
    ensures
        final(out)@ == old(out)@ + digits(m as nat),
    decreases m,
{
    if m >= 10 {
        push_digits(m / 10, out);
    }
    push_char(out, digit_exec(m % 10));
    assert(final(out)@ =~= old(out)@ + digits(m as nat));
}

impl LispExpr {
    /// The text of this value, if it has one.
    pub fn to_string(&self) -> (r: Option<String>)
        ensures
            match render(self@) {
                Some(t) => r matches Some(s) && s@ == t,
                None => r is None,
            },
        decreases self,
    {
        match self {
            LispExpr::Integer(n) => {
                let mut out = String::new();
                if *n < 0 {
                    push_char(&mut out, '-');
                    let m: u64 = (-(*n + 1)) as u64 + 1;
                    push_digits(m, &mut out);
                } else {
                    push_digits(*n as u64, &mut out);
                }
                assert(out@ =~= decimal(*n as int));
                Some(out)
            },
            LispExpr::Bool(b) => {
                let mut out = String::new();
                if *b {
                    push_char(&mut out, 't');
                    push_char(&mut out, 'r');
                    push_char(&mut out, 'u');
                    push_char(&mut out, 'e');
                } else {
                    push_char(&mut out, 'f');
                    push_char(&mut out, 'a');
                    push_char(&mut out, 'l');
                    push_char(&mut out, 's');
                    push_char(&mut out, 'e');
                }
                assert(out@ =~= render(self@).unwrap());
                Some(out)
            },
            LispExpr::Cons(a, b) => {
                let x = match a.to_string() {
                    Some(x) => x,
                    None => return None,
                };
                let y = match b.to_string() {
                    Some(y) => y,
                    None => return None,
                };
                let mut out = String::new();
                push_char(&mut out, '(');
                out.append(x.as_str());
                push_char(&mut out, ' ');
                out.append(y.as_str());
                push_char(&mut out, ')');
                assert(out@ =~= seq!['('] + x@ + seq![' '] + y@ + seq![')']);
                Some(out)
            },
            _ => None,
        }
    }
}

pub proof fn lemma_views(s: Seq<LispExpr>)
    ensures
        views(s).len() == s.len(),
        forall|i: int| 0 <= i < s.len() ==> #[trigger] views(s)[i] == s[i].view(),
    decreases s.len(),
{
    if s.len() > 0 {
        lemma_views(s.drop_last());
    }
}

/// Copies each expression of `v`, keeping its model.
pub fn copy_all(v: &Vec<LispExpr>) -> (r: Vec<LispExpr>)
    ensures
        views(r@) == views(v@),
    decreases v,
{
    let mut out: Vec<LispExpr> = Vec::new();
    let mut i: usize = 0;
    while i < v.len()
        invariant
            0 <= i <= v.len(),
            out@.len() == i,
            forall|j: int| 0 <= j < i ==> (#[trigger] out@[j]).view() == v@[j].view(),
        decreases v.len() - i,
    {
        out.push(v[i].clone());
        i += 1;
    }
    proof {
        lemma_views(out@);
        lemma_views(v@);
        assert(views(out@) =~= views(v@));
    }
    out
}

/// Copies each name of `v`.
pub fn copy_names(v: &Vec<String>) -> (r: Vec<String>)
    ensures
        names(r@) == names(v@),
{
    let mut out: Vec<String> = Vec::new();
    let mut i: usize = 0;
    while i < v.len()
        invariant
            0 <= i <= v.len(),
            out@.len() == i,
            forall|j: int| 0 <= j < i ==> (#[trigger] out@[j])@ == v@[j]@,
        decreases v.len() - i,
    {
        out.push(v[i].clone());
        i += 1;
    }
    assert(names(out@) =~= names(v@));
    out
}

impl Clone for LispFunc {
    fn clone(&self) -> (r: Self)
        ensures
            r.view() == self.view(),
    {
        LispFunc { params: copy_names(&self.params), body: copy_all(&self.body), closure: self.closure }
    }
}

impl Clone for LispExpr {
    fn clone(&self) -> (r: Self)
        ensures
            r.view() == self.view(),
        decreases self,
    {
        match self {
            LispExpr::Symbol(s) => LispExpr::Symbol(s.clone()),
            LispExpr::Integer(n) => LispExpr::Integer(*n),
            LispExpr::List(v) => LispExpr::List(copy_all(v)),
            LispExpr::Bool(b) => LispExpr::Bool(*b),
            LispExpr::Func(f) => LispExpr::Func(
                Box::new(
                    LispFunc {
                        params: copy_names(&f.params),
                        body: copy_all(&f.body),
                        closure: f.closure,
                    },
                ),
            ),
            LispExpr::Cons(a, b) => {
                let a2 = (**a).clone();
                let b2 = (**b).clone();
                LispExpr::Cons(Box::new(a2), Box::new(b2))
            },
            LispExpr::Null => LispExpr::Null,
        }
    }
}

} // verus!
