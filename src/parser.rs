//! The reader: text to tokens, tokens to a tree, and a tree to an expression.
//!
//! Parentheses and whitespace are the only syntax. A token that is an
//! optional sign followed by decimal digits, and whose value fits in 64
//! signed bits, is an integer; any other token is a symbol.

use vstd::prelude::*;
use crate::env::same_text;
use crate::expr::{lemma_views, views, LispExpr, Term};
use crate::text::{chars_of, push_char};
use vstd::string::*;

verus! {

/// Unicode white space: the characters that separate tokens.
pub open spec fn is_space(c: char) -> bool {
    ('\t' <= c && c <= '\r') || c == ' ' || c == '\u{85}' || c == '\u{A0}' || c == '\u{1680}'
        || ('\u{2000}' <= c && c <= '\u{200A}') || c == '\u{2028}' || c == '\u{2029}'
        || c == '\u{202F}' || c == '\u{205F}' || c == '\u{3000}'
}

pub open spec fn is_paren(c: char) -> bool {
    c == '(' || c == ')'
}

/// `acc`, followed by `cur` if `cur` is a token.
pub open spec fn flush(acc: Seq<Seq<char>>, cur: Seq<char>) -> Seq<Seq<char>> {
    if cur.len() == 0 {
        acc
    } else {
        acc.push(cur)
    }
}

/// The tokens of `s[i..]`, after the tokens `acc` and the partial token `cur`.
pub open spec fn scan(s: Seq<char>, i: nat, cur: Seq<char>, acc: Seq<Seq<char>>) -> Seq<Seq<char>>
    decreases s.len() - i,
{
    if i >= s.len() {
        flush(acc, cur)
    } else if is_paren(s[i as int]) {
        scan(s, i + 1, Seq::empty(), flush(acc, cur).push(seq![s[i as int]]))
    } else if is_space(s[i as int]) {
        scan(s, i + 1, Seq::empty(), flush(acc, cur))
    } else {
        scan(s, i + 1, cur.push(s[i as int]), acc)
    }
}

/// The tokens of `s`: each parenthesis alone, and each maximal run of other
/// characters between whitespace.
pub open spec fn tokens(s: Seq<char>) -> Seq<Seq<char>> {
    scan(s, 0, Seq::empty(), Seq::empty())
}

fn is_space_exec(c: char) -> (r: bool)
    ensures
        r == is_space(c),
{
    ('\t' <= c && c <= '\r') || c == ' ' || c == '\u{85}' || c == '\u{A0}' || c == '\u{1680}'
        || ('\u{2000}' <= c && c <= '\u{200A}') || c == '\u{2028}' || c == '\u{2029}'
        || c == '\u{202F}' || c == '\u{205F}' || c == '\u{3000}'
}

/// Splits `text` into tokens.
pub fn tokenize(text: &str) -> (r: Vec<String>)
    ensures
        r@.map_values(|t: String| t@) == tokens(text@),
{
    let cs = chars_of(text);
    let ghost s = text@;
    let mut out: Vec<String> = Vec::new();
    let mut cur = String::new();
    let mut i: usize = 0;
    assert(out@.map_values(|t: String| t@) =~= Seq::<Seq<char>>::empty());
    assert(cur@ =~= Seq::<char>::empty());
    while i < cs.len()
        invariant
            cs@ == s,
            0 <= i <= cs@.len(),
            tokens(s) == scan(s, i as nat, cur@, out@.map_values(|t: String| t@)),
        decreases cs@.len() - i,
    {
        let c = cs[i];
        let ghost acc = out@.map_values(|t: String| t@);
        if c == '(' || c == ')' || is_space_exec(c) {
            if !cur.as_str().is_empty() {
                out.push(cur);
                assert(out@.map_values(|t: String| t@) =~= flush(acc, cur@));
            } else {
                assert(out@.map_values(|t: String| t@) =~= flush(acc, cur@));
            }
            cur = String::new();
            if c == '(' || c == ')' {
                let mut p = String::new();
                push_char(&mut p, c);
                let ghost before = out@.map_values(|t: String| t@);
                out.push(p);
                assert(out@.map_values(|t: String| t@) =~= before.push(seq![c]));
            }
        } else {
            push_char(&mut cur, c);
        }
        i += 1;
    }
    let ghost acc = out@.map_values(|t: String| t@);
    if !cur.as_str().is_empty() {
        out.push(cur);
    }
    assert(out@.map_values(|t: String| t@) =~= flush(acc, cur@));
    out
}

pub open spec fn is_digit(c: char) -> bool {
    '0' <= c && c <= '9'
}

/// The value of a run of decimal digits.
pub open spec fn digits_value(s: Seq<char>) -> int
    decreases s.len(),
{
    if s.len() == 0 {
        0
    } else {
        digits_value(s.drop_last()) * 10 + (s.last() as int - '0' as int)
    }
}

/// The digits of a token: what follows its sign, if it has one.
pub open spec fn token_body(s: Seq<char>) -> Seq<char> {
    if s.len() > 0 && (s[0] == '-' || s[0] == '+') {
        s.subrange(1, s.len() as int)
    } else {
        s
    }
}

/// The integer that a token spells: an optional `+` or `-`, then one or
/// more decimal digits, with a value that fits in 64 signed bits.
pub open spec fn int_token(s: Seq<char>) -> Option<i64> {
    let v = if s.len() > 0 && s[0] == '-' {
        -digits_value(token_body(s))
    } else {
        digits_value(token_body(s))
    };
    if token_body(s).len() > 0 && (forall|i: int|
        0 <= i < token_body(s).len() ==> is_digit(#[trigger] token_body(s)[i])) && i64::MIN <= v
        <= i64::MAX {
        Some(v as i64)
    } else {
        None
    }
}

/// The expression that a token that is not a parenthesis stands for.
pub open spec fn atom(tok: Seq<char>) -> Term {
    match int_token(tok) {
        Some(n) => Term::Integer(n),
        None => Term::Symbol(tok),
    }
}

const TWO_POW_63: u128 = 0x8000_0000_0000_0000;

fn int_token_exec(cs: &Vec<char>) -> (r: Option<i64>)
    ensures
        r == int_token(cs@),
{
    let ghost s = cs@;
    let n = cs.len();
    if n == 0 {
        return None;
    }
    let neg = cs[0] == '-';
    let start: usize = if cs[0] == '-' || cs[0] == '+' {
        1
    } else {
        0
    };
    let ghost body = token_body(s);
    assert(body =~= s.subrange(start as int, n as int));
    if start >= n {
        return None;
    }
    let mut mag: u128 = 0;
    let mut big = false;
    let mut i: usize = start;
    assert(s.subrange(start as int, start as int) =~= Seq::<char>::empty());
    while i < n
        invariant
            s == cs@,
            n == s.len(),
            start <= i <= n,
            body == s.subrange(start as int, n as int),
            body == token_body(s),
            forall|j: int| start <= j < i ==> is_digit(#[trigger] s[j]),
            digits_value(s.subrange(start as int, i as int)) >= 0,
            !big ==> mag == digits_value(s.subrange(start as int, i as int)) && mag <= TWO_POW_63,
            big ==> digits_value(s.subrange(start as int, i as int)) > TWO_POW_63,
        decreases n - i,
    {
        let c = cs[i];
        if !('0' <= c && c <= '9') {
            assert(!is_digit(body[i - start]));
            return None;
        }
        let ghost pre = s.subrange(start as int, i as int);
        assert(s.subrange(start as int, i + 1).drop_last() =~= pre);
        let d = (c as u32 - '0' as u32) as u128;
        if !big {
            let next = mag * 10 + d;
            if next > TWO_POW_63 {
                big = true;
            } else {
                mag = next;
            }
        }
        i += 1;
    }
    assert(s.subrange(start as int, n as int) == body);
    if big {
        None
    } else if neg {
        Some((-(mag as i128)) as i64)
    } else if mag < TWO_POW_63 {
        Some(mag as i64)
    } else {
        None
    }
}

/// The expression that `token` stands for: an integer if it spells one,
/// else a symbol.
pub fn to_lispexpr(token: &str) -> (r: LispExpr)
    ensures
        r@ == atom(token@),
        r is Integer || r is Symbol,
{
    let cs = chars_of(token);
    match int_token_exec(&cs) {
        Some(n) => LispExpr::Integer(n),
        None => LispExpr::Symbol(String::from_str(token)),
    }
}

/// A parsed tree: a token, or a parenthesised group of trees.
#[derive(Debug)]
pub enum AstNode {
    Leaf(LispExpr),
    Node(Vec<AstNode>),
}

/// The expressions that a sequence of trees stand for.
pub open spec fn ast_views(s: Seq<AstNode>) -> Seq<Term>
    decreases s,
{
    if s.len() == 0 {
        Seq::empty()
    } else {
        ast_views(s.drop_last()).push(s.last().view())
    }
}

pub proof fn lemma_ast_views(s: Seq<AstNode>)
    ensures
        ast_views(s).len() == s.len(),
        forall|i: int| 0 <= i < s.len() ==> #[trigger] ast_views(s)[i] == s[i].view(),
    decreases s.len(),
{
    if s.len() > 0 {
        lemma_ast_views(s.drop_last());
    }
}

pub proof fn lemma_ast_views_push(s: Seq<AstNode>, x: AstNode)
    ensures
        ast_views(s.push(x)) == ast_views(s).push(x.view()),
{
    assert(s.push(x).drop_last() =~= s);
}

/// Whether a tree is as the reader builds it: every leaf an integer or a
/// symbol, every group a `Node`.
pub open spec fn shaped(n: AstNode) -> bool
    decreases n,
{
    match n {
        AstNode::Leaf(e) => e is Integer || e is Symbol,
        AstNode::Node(v) => all_shaped(v@),
    }
}

/// Whether every tree of `s` is shaped.
pub open spec fn all_shaped(s: Seq<AstNode>) -> bool
    decreases s,
{
    if s.len() == 0 {
        true
    } else {
        all_shaped(s.drop_last()) && shaped(s.last())
    }
}

pub proof fn lemma_all_shaped_push(s: Seq<AstNode>, x: AstNode)
    ensures
        all_shaped(s.push(x)) == (all_shaped(s) && shaped(x)),
{
    assert(s.push(x).drop_last() =~= s);
}

impl AstNode {
    /// The expression this tree stands for: a group is a list.
    pub open spec fn view(&self) -> Term
        decreases self,
    {
        match self {
            AstNode::Leaf(e) => e@,
            AstNode::Node(v) => Term::List(ast_views(v@)),
        }
    }

    /// Adds `val` at the end of a group; a leaf is left as it is.
    pub fn push(&mut self, val: AstNode)
        ensures
            *old(self) is Node ==> final(self)@ == Term::List(old(self)@->List_0.push(val@)),
            *old(self) is Node ==> *final(self) is Node,
            *old(self) is Leaf ==> *final(self) == *old(self),
    {
        match self {
            AstNode::Node(v) => {
                proof {
                    lemma_ast_views_push(v@, val);
                }
                v.push(val);
            },
            _ => {},
        }
    }

    /// The expression this tree stands for.
    pub fn to_lispexpr(&self) -> (r: LispExpr)
        ensures
            r@ == self@,
        decreases self,
    {
        match self {
            AstNode::Leaf(e) => e.clone(),
            AstNode::Node(v) => LispExpr::List(group_to_list(v)),
        }
    }
}

/// The expressions that the trees of `v` stand for.
fn group_to_list(v: &Vec<AstNode>) -> (r: Vec<LispExpr>)
    ensures
        views(r@) == ast_views(v@),
    decreases v,
{
    proof {
        lemma_ast_views(v@);
    }
    let mut out: Vec<LispExpr> = Vec::new();
    let mut i: usize = 0;
    while i < v.len()
        invariant
            0 <= i <= v@.len(),
            out@.len() == i,
            ast_views(v@).len() == v@.len(),
            forall|j: int| 0 <= j < v@.len() ==> #[trigger] ast_views(v@)[j] == v@[j]@,
            forall|j: int| 0 <= j < i ==> (#[trigger] out@[j])@ == v@[j]@,
        decreases v@.len() - i,
    {
        out.push(v[i].to_lispexpr());
        i += 1;
    }
    proof {
        lemma_views(out@);
        assert(views(out@) =~= ast_views(v@));
    }
    out
}

/// The open groups, innermost last, after the innermost one is closed and
/// added to the one around it.
pub open spec fn close_top(stack: Seq<Seq<Term>>) -> Seq<Seq<Term>> {
    let rest = stack.drop_last();
    rest.update(rest.len() - 1, rest.last().push(Term::List(stack.last())))
}

/// The open groups after `t` is added to the innermost one.
pub open spec fn add_item(stack: Seq<Seq<Term>>, t: Term) -> Seq<Seq<Term>> {
    stack.update(stack.len() - 1, stack.last().push(t))
}

/// The outermost group once every open group is closed.
pub open spec fn close_all(stack: Seq<Seq<Term>>) -> Seq<Term>
    decreases stack.len(),
{
    if stack.len() == 0 {
        Seq::empty()
    } else if stack.len() == 1 {
        stack[0]
    } else {
        close_all(close_top(stack))
    }
}

/// Reads the tokens `toks[i..]` with the groups `stack` open. A `)` with no
/// group open ends the input; groups still open at its end are closed.
pub open spec fn read_from(toks: Seq<Seq<char>>, i: nat, stack: Seq<Seq<Term>>) -> Seq<Term>
    decreases toks.len() - i,
{
    if i >= toks.len() {
        close_all(stack)
    } else if toks[i as int] == "("@ {
        read_from(toks, i + 1, stack.push(Seq::empty()))
    } else if toks[i as int] == ")"@ {
        if stack.len() > 1 {
            read_from(toks, i + 1, close_top(stack))
        } else {
            close_all(stack)
        }
    } else {
        read_from(toks, i + 1, add_item(stack, atom(toks[i as int])))
    }
}

/// The tree that `toks` stand for: a group of the top-level expressions.
pub open spec fn read_tokens(toks: Seq<Seq<char>>) -> Term {
    Term::List(read_from(toks, 0, seq![Seq::empty()]))
}

/// The models of a stack of open groups.
pub open spec fn stack_view(stack: Seq<Vec<AstNode>>) -> Seq<Seq<Term>> {
    stack.map_values(|v: Vec<AstNode>| ast_views(v@))
}

/// Closes the innermost open group into the one around it.
fn close_group(stack: &mut Vec<Vec<AstNode>>)
    requires
        old(stack)@.len() > 1,
        forall|k: int| 0 <= k < old(stack)@.len() ==> all_shaped(#[trigger] old(stack)@[k]@),
    ensures
        stack_view(final(stack)@) == close_top(stack_view(old(stack)@)),
        forall|k: int| 0 <= k < final(stack)@.len() ==> all_shaped(#[trigger] final(stack)@[k]@),
        final(stack)@.len() == old(stack)@.len() - 1,
{
    let top = stack.pop().unwrap();
    let k = stack.len() - 1;
    let node = AstNode::Node(top);
    proof {
        lemma_ast_views_push(stack@[k as int]@, node);
        lemma_all_shaped_push(stack@[k as int]@, node);
        assert(all_shaped(old(stack)@[old(stack)@.len() - 1]@));
    }
    stack[k].push(node);
    assert(stack_view(stack@) =~= close_top(stack_view(old(stack)@)));
}

/// Parses tokens into the group of top-level expressions they spell.
pub fn parse(tokens: &Vec<String>) -> (r: AstNode)
    ensures
        r@ == read_tokens(tokens@.map_values(|t: String| t@)),
        r is Node,
        shaped(r),
{
    let ghost toks = tokens@.map_values(|t: String| t@);
    let mut stack: Vec<Vec<AstNode>> = Vec::new();
    stack.push(Vec::new());
    assert(stack_view(stack@) =~= seq![Seq::<Term>::empty()]);
    let mut i: usize = 0;
    let mut done = false;
    while i < tokens.len() && !done
        invariant
            toks == tokens@.map_values(|t: String| t@),
            0 <= i <= tokens@.len(),
            stack@.len() >= 1,
            forall|k: int| 0 <= k < stack@.len() ==> all_shaped(#[trigger] stack@[k]@),
            !done ==> read_tokens(toks) == Term::List(read_from(toks, i as nat, stack_view(stack@))),
            done ==> read_tokens(toks) == Term::List(close_all(stack_view(stack@))),
        decreases tokens@.len() - i,
    {
        let t = tokens[i].as_str();
        let ghost before = stack@;
        assert(t@ == toks[i as int]);
        if same_text(t, "(") {
            stack.push(Vec::new());
            assert(stack_view(stack@) =~= stack_view(before).push(Seq::empty()));
            assert(all_shaped(stack@[stack@.len() - 1]@));
        } else if same_text(t, ")") {
            if stack.len() > 1 {
                close_group(&mut stack);
            } else {
                done = true;
            }
        } else {
            let k = stack.len() - 1;
            let leaf = AstNode::Leaf(to_lispexpr(t));
            proof {
                lemma_ast_views_push(stack@[k as int]@, leaf);
                lemma_all_shaped_push(stack@[k as int]@, leaf);
            }
            stack[k].push(leaf);
            assert(stack_view(stack@) =~= add_item(stack_view(before), atom(toks[i as int])));
        }
        i += 1;
    }
    while stack.len() > 1
        invariant
            stack@.len() >= 1,
            forall|k: int| 0 <= k < stack@.len() ==> all_shaped(#[trigger] stack@[k]@),
            read_tokens(toks) == Term::List(close_all(stack_view(stack@))),
        decreases stack@.len(),
    {
        close_group(&mut stack);
    }
    assert(all_shaped(stack@[0]@));
    let root = stack.pop().unwrap();
    AstNode::Node(root)
}

} // verus!
