//! Environments: a chain of scopes, each with its own bindings and a link to
//! the scope it was opened in.
//!
//! Scopes live in one arena and refer to their parent by index. Scope 0 is
//! the root. A procedure captures the index of the scope it was defined in,
//! so a later definition in that scope is visible to it (a live binding, not
//! a snapshot), which is also what makes recursive procedures work.

use vstd::prelude::*;
use crate::expr::{lemma_views, names, views, LispExpr, LispFunc, Term};
use vstd::string::*;

verus! {

/// The model of one scope.
pub ghost struct Scope {
    /// The bindings, oldest first; a name occurs at most once where it was
    /// bound through `define`.
    pub bindings: Seq<(Seq<char>, Term)>,
    /// The enclosing scope, or `None` for the root.
    pub parent: Option<nat>,
}

/// The position of the last binding of `name` in `b`.
pub open spec fn find_slot(b: Seq<(Seq<char>, Term)>, name: Seq<char>) -> Option<int>
    decreases b.len(),
{
    if b.len() == 0 {
        None
    } else if b.last().0 == name {
        Some(b.len() - 1)
    } else {
        find_slot(b.drop_last(), name)
    }
}

/// The value that `name` has in one scope's bindings.
pub open spec fn scope_get(b: Seq<(Seq<char>, Term)>, name: Seq<char>) -> Option<Term> {
    match find_slot(b, name) {
        Some(i) => Some(b[i].1),
        None => None,
    }
}

/// The bindings after `name` is bound to `v`: an existing binding is
/// overwritten, otherwise one is added.
pub open spec fn bind(b: Seq<(Seq<char>, Term)>, name: Seq<char>, v: Term) -> Seq<(Seq<char>, Term)> {
    match find_slot(b, name) {
        Some(i) => b.update(i, (name, v)),
        None => b.push((name, v)),
    }
}

/// What `name` resolves to from scope `at`: the innermost scope on the
/// chain of parents that binds it wins.
pub open spec fn lookup(env: Seq<Scope>, at: int, name: Seq<char>) -> Option<Term>
    decreases at,
{
    if 0 <= at < env.len() {
        match scope_get(env[at].bindings, name) {
            Some(v) => Some(v),
            None => match env[at].parent {
                Some(p) => if p < at {
                    lookup(env, p as int, name)
                } else {
                    None
                },
                None => None,
            },
        }
    } else {
        None
    }
}

/// The environment after `name` is bound to `v` in scope `at` alone.
pub open spec fn define(env: Seq<Scope>, at: int, name: Seq<char>, v: Term) -> Seq<Scope> {
    env.update(at, Scope { bindings: bind(env[at].bindings, name, v), parent: env[at].parent })
}

/// `(first a b)`: its first argument.
pub open spec fn first_proc() -> Term {
    Term::Func(seq!["a"@, "b"@], seq![Term::Symbol("a"@)], 0)
}

/// `(square x)`: `(* x x)`.
pub open spec fn square_proc() -> Term {
    Term::Func(
        seq!["x"@],
        seq![Term::List(seq![Term::Symbol("*"@), Term::Symbol("x"@), Term::Symbol("x"@)])],
        0,
    )
}

/// `(bad-func)`: calls `not-defined`, which nothing binds, so it always fails.
pub open spec fn failing_proc() -> Term {
    Term::Func(Seq::empty(), seq![Term::List(seq![Term::Symbol("not-defined"@)])], 0)
}

/// The root scope of a default environment.
pub open spec fn default_scope() -> Scope {
    Scope {
        bindings: seq![("first"@, first_proc()), ("square"@, square_proc()), ("bad-func"@, failing_proc())],
        parent: None,
    }
}

fn symbol(s: &str) -> (r: LispExpr)
    ensures
        r@ == Term::Symbol(s@),
{
    LispExpr::Symbol(String::from_str(s))
}

/// A procedure defined in the root scope.
fn root_proc(params: Vec<String>, body: Vec<LispExpr>) -> (r: LispExpr)
    ensures
        r@ == Term::Func(names(params@), views(body@), 0),
{
    LispExpr::Func(Box::new(LispFunc { params, body, closure: 0 }))
}

/// After `bind`, `name` has the value `v` and every other name keeps its
/// value.
pub proof fn lemma_bind_get(b: Seq<(Seq<char>, Term)>, name: Seq<char>, v: Term, x: Seq<char>)
    ensures
        scope_get(bind(b, name, v), x) == if x == name {
            Some(v)
        } else {
            scope_get(b, x)
        },
    decreases b.len(),
{
    let u = bind(b, name, v);
    match find_slot(b, name) {
        None => {
            assert(u.drop_last() =~= b);
            lemma_slot_in_range(b, x);
        },
        Some(i) => {
            lemma_slot_in_range(b, name);
            let d = b.drop_last();
            if b.last().0 == name {
                assert(u.drop_last() =~= d);
                lemma_slot_in_range(d, x);
            } else {
                lemma_bind_get(d, name, v, x);
                lemma_slot_in_range(d, name);
                assert(u.drop_last() =~= bind(d, name, v));
                lemma_slot_in_range(bind(d, name, v), x);
                lemma_slot_in_range(d, x);
            }
        },
    }
}

proof fn lemma_slot_in_range(b: Seq<(Seq<char>, Term)>, name: Seq<char>)
    ensures
        find_slot(b, name) matches Some(i) ==> 0 <= i < b.len() && b[i].0 == name,
    decreases b.len(),
{
    if b.len() > 0 && b.last().0 != name {
        lemma_slot_in_range(b.drop_last(), name);
    }
}

/// Scopes below `at` resolve names the same way after a definition in `at`.
proof fn lemma_define_below(env: Seq<Scope>, at: int, name: Seq<char>, v: Term, k: int, x: Seq<char>)
    requires
        0 <= k < at < env.len(),
    ensures
        lookup(define(env, at, name, v), k, x) == lookup(env, k, x),
    decreases k,
{
    let after = define(env, at, name, v);
    assert(after[k] == env[k]);
    if let Some(p) = env[k].parent {
        if p < k {
            lemma_define_below(env, at, name, v, p as int, x);
        }
    }
}

/// After `name` is defined as `v` in scope `at`, it resolves to `v` there,
/// and every other name resolves from `at` as it did before.
pub proof fn law_define_then_lookup(env: Seq<Scope>, at: int, name: Seq<char>, v: Term, x: Seq<char>)
    requires
        0 <= at < env.len(),
    ensures
        lookup(define(env, at, name, v), at, name) == Some(v),
        x != name ==> lookup(define(env, at, name, v), at, x) == lookup(env, at, x),
{
    let after = define(env, at, name, v);
    lemma_bind_get(env[at].bindings, name, v, name);
    lemma_bind_get(env[at].bindings, name, v, x);
    if x != name {
        if let Some(p) = env[at].parent {
            if p < at {
                lemma_define_below(env, at, name, v, p as int, x);
            }
        }
    }
}

/// Equality of two texts, character by character.
pub fn same_text(a: &str, b: &str) -> (r: bool)
    ensures
        r == (a@ == b@),
{
    let n = a.unicode_len();
    if n != b.unicode_len() {
        return false;
    }
    let mut i: usize = 0;
    while i < n
        invariant
            n == a@.len(),
            n == b@.len(),
            0 <= i <= n,
            forall|j: int| 0 <= j < i ==> a@[j] == b@[j],
        decreases n - i,
    {
        if a.get_char(i) != b.get_char(i) {
            return false;
        }
        i += 1;
    }
    assert(a@ =~= b@);
    true
}

struct Frame {
    bindings: Vec<(String, LispExpr)>,
    parent: Option<usize>,
}

impl Frame {
    spec fn view(&self) -> Scope {
        Scope {
            bindings: self.bindings@.map_values(|p: (String, LispExpr)| (p.0@, p.1@)),
            parent: match self.parent {
                Some(p) => Some(p as nat),
                None => None,
            },
        }
    }

    /// The position of the last binding of `name`.
    fn find(&self, name: &str) -> (r: Option<usize>)
        ensures
            r matches Some(i) ==> i < self.bindings@.len() && find_slot(self.view().bindings, name@) == Some(i as int),
            r is None ==> find_slot(self.view().bindings, name@) is None,
    {
        let ghost b = self.view().bindings;
        let mut i: usize = self.bindings.len();
        assert(b.subrange(0, i as int) =~= b);
        while i > 0
            invariant
                i <= self.bindings@.len(),
                b == self.view().bindings,
                find_slot(b, name@) == find_slot(b.subrange(0, i as int), name@),
            decreases i,
        {
            let ghost pre = b.subrange(0, i as int);
            assert(pre.drop_last() =~= b.subrange(0, i - 1));
            if same_text(self.bindings[i - 1].0.as_str(), name) {
                return Some(i - 1);
            }
            i -= 1;
        }
        assert(b.subrange(0, 0) =~= Seq::<(Seq<char>, Term)>::empty());
        None
    }
}

impl Frame {
    /// Binds `name` to `value` here.
    fn bind(&mut self, name: String, value: LispExpr)
        ensures
            final(self).view() == (Scope {
                bindings: bind(old(self).view().bindings, name@, value@),
                parent: old(self).view().parent,
            }),
    {
        let slot = self.find(name.as_str());
        let ghost v = value@;
        let ghost nm = name@;
        match slot {
            Some(i) => {
                self.bindings[i] = (name, value);
                assert(self.view().bindings =~= old(self).view().bindings.update(i as int, (nm, v)));
            },
            None => {
                self.bindings.push((name, value));
                assert(self.view().bindings =~= old(self).view().bindings.push((nm, v)));
            },
        }
    }
}

/// The bindings that the evaluator sees: the root scope, which always
/// exists, and the scopes opened by procedure calls. Scope `k > 0` is
/// `scopes[k - 1]`.
pub struct LispEnv {
    root: Frame,
    scopes: Vec<Frame>,
}

impl LispEnv {
    pub closed spec fn view(&self) -> Seq<Scope> {
        seq![self.root.view()] + self.scopes@.map_values(|f: Frame| f.view())
    }

    /// An environment of one empty root scope.
    pub fn new() -> (r: LispEnv)
        ensures
            r@ == seq![Scope { bindings: Seq::empty(), parent: None }],
    {
        let r = LispEnv { root: Frame { bindings: Vec::new(), parent: None }, scopes: Vec::new() };
        assert(r.root.view().bindings =~= Seq::empty());
        assert(r@ =~= seq![Scope { bindings: Seq::empty(), parent: None }]);
        r
    }

    /// An environment whose root scope binds `first`, `square` and
    /// `bad-func`.
    pub fn default() -> (r: LispEnv)
        ensures
            r@ == seq![default_scope()],
    {
        let mut env = LispEnv::new();

        let mut params: Vec<String> = Vec::new();
        params.push(String::from_str("a"));
        params.push(String::from_str("b"));
        let mut body: Vec<LispExpr> = Vec::new();
        body.push(symbol("a"));
        proof {
            lemma_views(body@);
            assert(names(params@) =~= seq!["a"@, "b"@]);
            assert(views(body@) =~= seq![Term::Symbol("a"@)]);
        }
        env.insert(String::from_str("first"), root_proc(params, body));

        let mut params: Vec<String> = Vec::new();
        params.push(String::from_str("x"));
        let mut call: Vec<LispExpr> = Vec::new();
        call.push(symbol("*"));
        call.push(symbol("x"));
        call.push(symbol("x"));
        let mut body: Vec<LispExpr> = Vec::new();
        body.push(LispExpr::List(call));
        proof {
            lemma_views(call@);
            lemma_views(body@);
            assert(names(params@) =~= seq!["x"@]);
            assert(views(call@) =~= seq![Term::Symbol("*"@), Term::Symbol("x"@), Term::Symbol("x"@)]);
            assert(views(body@) =~= seq![Term::List(views(call@))]);
        }
        env.insert(String::from_str("square"), root_proc(params, body));

        let params: Vec<String> = Vec::new();
        let mut call: Vec<LispExpr> = Vec::new();
        call.push(symbol("not-defined"));
        let mut body: Vec<LispExpr> = Vec::new();
        body.push(LispExpr::List(call));
        proof {
            lemma_views(call@);
            lemma_views(body@);
            assert(names(params@) =~= Seq::empty());
            assert(views(call@) =~= seq![Term::Symbol("not-defined"@)]);
            assert(views(body@) =~= seq![Term::List(views(call@))]);
        }
        env.insert(String::from_str("bad-func"), root_proc(params, body));
        proof {
            reveal_strlit("first");
            reveal_strlit("square");
            reveal_strlit("bad-func");
            let b0: Seq<(Seq<char>, Term)> = Seq::empty();
            let b1 = b0.push(("first"@, first_proc()));
            let b2 = b1.push(("square"@, square_proc()));
            assert("first"@[0] != "square"@[0]);
            assert("first"@[0] != "bad-func"@[0]);
            assert("square"@[0] != "bad-func"@[0]);
            assert(find_slot(b0, "square"@) is None);
            assert(find_slot(b0, "bad-func"@) is None);
            assert(b1.drop_last() =~= b0);
            assert(b2.drop_last() =~= b1);
            assert("first"@ != "square"@);
            assert("first"@ != "bad-func"@);
            assert("square"@ != "bad-func"@);
            assert(find_slot(b1, "square"@) is None);
            assert(find_slot(b1, "bad-func"@) is None);
            assert(find_slot(b2, "bad-func"@) is None);
            assert(env@[0].bindings =~= default_scope().bindings);
            assert(env@ =~= seq![default_scope()]);
        }
        env
    }

    /// There is always the root scope.
    pub proof fn lemma_has_root(&self)
        ensures
            self@.len() > 0,
    {
    }

    /// Whether `k` is the index of a scope.
    pub fn has_scope(&self, k: usize) -> (r: bool)
        ensures
            r == (k < self@.len()),
    {
        k <= self.scopes.len()
    }

    fn frame(&self, k: usize) -> (f: &Frame)
        requires
            k < self@.len(),
        ensures
            f.view() == self@[k as int],
    {
        if k == 0 {
            &self.root
        } else {
            &self.scopes[k - 1]
        }
    }

    /// What `name` resolves to from scope `at`.
    pub fn lookup_in(&self, at: usize, name: &str) -> (r: Option<LispExpr>)
        ensures
            r matches Some(v) ==> lookup(self@, at as int, name@) == Some(v@),
            r is None ==> lookup(self@, at as int, name@) is None,
    {
        let mut cur: usize = at;
        loop
            invariant
                lookup(self@, at as int, name@) == lookup(self@, cur as int, name@),
            decreases cur,
        {
            if !self.has_scope(cur) {
                return None;
            }
            let frame = self.frame(cur);
            match frame.find(name) {
                Some(i) => {
                    return Some(frame.bindings[i].1.clone());
                },
                None => match frame.parent {
                    Some(p) => {
                        if p < cur {
                            cur = p;
                        } else {
                            return None;
                        }
                    },
                    None => {
                        return None;
                    },
                },
            }
        }
    }

    /// What `name` resolves to at the top level.
    pub fn get(&self, name: &str) -> (r: Option<LispExpr>)
        ensures
            r matches Some(v) ==> lookup(self@, 0, name@) == Some(v@),
            r is None ==> lookup(self@, 0, name@) is None,
    {
        self.lookup_in(0, name)
    }

    /// Binds `name` to `value` in scope `at`, and in no other.
    pub fn define_in(&mut self, at: usize, name: String, value: LispExpr)
        requires
            at < old(self)@.len(),
        ensures
            final(self)@ == define(old(self)@, at as int, name@, value@),
    {
        if at == 0 {
            self.root.bind(name, value);
        } else {
            self.scopes[at - 1].bind(name, value);
        }
        assert(self@ =~= define(old(self)@, at as int, name@, value@));
    }

    /// Binds `name` to `expr` in the root scope.
    pub fn insert(&mut self, name: String, expr: LispExpr)
        ensures
            final(self)@ == define(old(self)@, 0, name@, expr@),
    {
        self.define_in(0, name, expr);
    }

    /// Opens a scope below `parent` holding `bindings`, and returns its index.
    pub fn new_frame(&mut self, parent: usize, bindings: Vec<(String, LispExpr)>) -> (r: usize)
        ensures
            r == old(self)@.len(),
            final(self)@ == old(self)@.push(
                Scope {
                    bindings: bindings@.map_values(|p: (String, LispExpr)| (p.0@, p.1@)),
                    parent: Some(parent as nat),
                },
            ),
    {
        self.scopes.push(Frame { bindings, parent: Some(parent) });
        assert(self@ =~= old(self)@.push(
            Scope {
                bindings: bindings@.map_values(|p: (String, LispExpr)| (p.0@, p.1@)),
                parent: Some(parent as nat),
            },
        ));
        self.scopes.len()
    }

    /// Releases scope `base` and every scope opened after it.
    pub fn pop_frame(&mut self, base: usize)
        requires
            base > 0,
        ensures
            final(self)@ == if base < old(self)@.len() {
                old(self)@.subrange(0, base as int)
            } else {
                old(self)@
            },
    {
        self.scopes.truncate(base - 1);
        assert(self@ =~= if base < old(self)@.len() {
            old(self)@.subrange(0, base as int)
        } else {
            old(self)@
        });
    }
}

/// A default environment: see `LispEnv::default`.
pub fn default() -> (r: LispEnv)
    ensures
        r@ == seq![default_scope()],
{
    LispEnv::default()
}

} // verus!
