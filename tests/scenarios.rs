use lisp::eval_all;
use lisp::eval_string;
use lisp::LispEnv;
use lisp::LispErr;
use lisp::LispExpr;
use lisp::LispExpr::{Bool, Cons, Integer, List, Null, Symbol};

fn last(src: &str, env: &mut LispEnv) -> Result<LispExpr, LispErr> {
    eval_string(src, env).pop().expect("no expression")
}

fn type_error(detail: &str) -> LispErr {
    LispErr::TypeError(detail.to_string())
}

#[test]
fn nested_arithmetic() {
    let mut env = LispEnv::new();
    assert_eq!(last("(+ (+ 3 5) 4)", &mut env), Ok(Integer(12)));
    assert_eq!(last("(+ (- 3 5) 4)", &mut env), Ok(Integer(2)));
    assert_eq!(last("(* (+ 3 5) 4)", &mut env), Ok(Integer(32)));
    assert_eq!(last("(+ 1 2 3 4)", &mut env), Ok(Integer(10)));
    assert_eq!(last("(* 2 3 4)", &mut env), Ok(Integer(24)));
    assert_eq!(last("(+ 7)", &mut env), Ok(Integer(7)));
}

#[test]
fn subtraction_is_binary() {
    let mut env = LispEnv::new();
    assert_eq!(last("(- 3 5)", &mut env), Ok(Integer(-2)));
    assert_eq!(last("(- 3 5 1)", &mut env), Err(LispErr::ArityMismatch));
    assert_eq!(last("(- 3)", &mut env), Err(LispErr::ArityMismatch));
    assert_eq!(last("(+)", &mut env), Err(LispErr::ArityMismatch));
}

#[test]
fn eq_compares_atoms() {
    let mut env = LispEnv::new();
    assert_eq!(last("(eq? 3 3)", &mut env), Ok(Bool(true)));
    assert_eq!(last("(eq? 3 4)", &mut env), Ok(Bool(false)));
    env.insert("s".to_string(), Symbol("x".to_string()));
    env.insert("t".to_string(), Symbol("x".to_string()));
    assert_eq!(last("(eq? 3 s)", &mut env), Ok(Bool(false)));
    assert_eq!(last("(eq? s t)", &mut env), Ok(Bool(true)));
    assert_eq!(last("(eq? 3 (< 1 2))", &mut env), Ok(Bool(false)));
    assert_eq!(last("(eq? (< 1 2) (< 2 3))", &mut env), Ok(Bool(true)));
    assert_eq!(last("(eq? (cons 1 2) (cons 1 2))", &mut env), Ok(Bool(false)));
    assert_eq!(last("(eq? 1 2 3)", &mut env), Err(LispErr::ArityMismatch));
}

#[test]
fn pairs() {
    let mut env = LispEnv::new();
    assert_eq!(last("(define p (cons 1 2))", &mut env), Ok(Null));
    assert_eq!(last("(car p)", &mut env), Ok(Integer(1)));
    assert_eq!(last("(cdr p)", &mut env), Ok(Integer(2)));
    assert_eq!(
        last("(cons 1 (cons 2 3))", &mut env),
        Ok(Cons(Box::new(Integer(1)), Box::new(Cons(Box::new(Integer(2)), Box::new(Integer(3))))))
    );
    assert_eq!(last("(car 1)", &mut env), Err(type_error("car operand 1: expected pair")));
    assert_eq!(last("(cdr p p)", &mut env), Err(LispErr::ArityMismatch));
}

#[test]
fn defined_procedures() {
    let mut env = LispEnv::new();
    assert_eq!(last("(define (square x) (* x x))", &mut env), Ok(Null));
    assert_eq!(last("(square 5)", &mut env), Ok(Integer(25)));
    assert_eq!(last("(square 3 4)", &mut env), Err(LispErr::ArityMismatch));
    assert_eq!(last("(square)", &mut env), Err(LispErr::ArityMismatch));
}

#[test]
fn if_needs_a_boolean() {
    let mut env = LispEnv::new();
    assert_eq!(last("(if (> 3 2) 1 2)", &mut env), Ok(Integer(1)));
    assert_eq!(last("(if (< 3 2) 1 2)", &mut env), Ok(Integer(2)));
    assert_eq!(last("(if 5 1 2)", &mut env), Err(type_error("if operand 1: expected bool")));
    assert_eq!(last("(if (< 3 2) undefined-name 2)", &mut env), Ok(Integer(2)));
    assert_eq!(last("(if (< 3 2) 1)", &mut env), Err(LispErr::ArityMismatch));
}

#[test]
fn cond_clauses() {
    let mut env = LispEnv::new();
    assert_eq!(last("(cond ((> 1 2) 10) (else 20))", &mut env), Ok(Integer(20)));
    assert_eq!(last("(cond ((< 1 2) 10) (else 20))", &mut env), Ok(Integer(10)));
    assert_eq!(last("(cond ((> 1 2) 10) ((> 2 3) 20))", &mut env), Ok(Null));
    assert_eq!(last("(cond (1 10) (else 20))", &mut env), Err(type_error("cond operand 1: expected bool")));
    assert_eq!(
        last("(cond ((> 1 2) 10) 7)", &mut env),
        Err(LispErr::SyntaxError("cond clause must be a (test result) list".to_string()))
    );
    assert_eq!(last("(cond (else 1))", &mut env), Err(LispErr::ArityMismatch));
    assert_eq!(last("(cond ((> 1 2) (car 1)) ((> 1 3) (car 1)))", &mut env), Ok(Null));
    assert_eq!(last("(cond ((> 1 2) 10) (1 20))", &mut env), Err(type_error("cond operand 2: expected bool")));
}

#[test]
fn comparisons() {
    let mut env = LispEnv::new();
    assert_eq!(last("(< 1 2)", &mut env), Ok(Bool(true)));
    assert_eq!(last("(> 1 2)", &mut env), Ok(Bool(false)));
    assert_eq!(last("(<= 2 2)", &mut env), Ok(Bool(true)));
    assert_eq!(last("(>= 1 2)", &mut env), Ok(Bool(false)));
    assert_eq!(last("(< 1 (< 1 2))", &mut env), Err(type_error("< operand 2: expected integer")));
}

#[test]
fn undefined_symbol_changes_nothing() {
    let mut env = LispEnv::new();
    last("(define a 1)", &mut env).unwrap();
    assert_eq!(last("nowhere", &mut env), Err(LispErr::NameError));
    assert_eq!(env.get("a"), Some(Integer(1)));
    assert_eq!(env.get("nowhere"), None);
    assert!(!env.has_scope(1));
}

#[test]
fn call_parameters_stay_in_the_call() {
    let mut env = LispEnv::new();
    last("(define x 1)", &mut env).unwrap();
    last("(define (f x) (* x x))", &mut env).unwrap();
    assert_eq!(last("(f 5)", &mut env), Ok(Integer(25)));
    assert_eq!(last("x", &mut env), Ok(Integer(1)));
    assert!(!env.has_scope(1));
}

#[test]
fn values_evaluate_to_themselves() {
    let mut env = LispEnv::new();
    let seven = Integer(7);
    let once = seven.eval(&mut env).unwrap();
    assert_eq!(once, Integer(7));
    assert_eq!(once.eval(&mut env).unwrap(), Integer(7));
    assert_eq!(Null.eval(&mut env), Ok(Null));
    assert_eq!(Bool(false).eval(&mut env), Ok(Bool(false)));
    assert_eq!(List(vec![]).eval(&mut env), Ok(Null));
    assert_eq!(env.get("seven"), None);
}

#[test]
fn closures_see_later_definitions() {
    let mut env = LispEnv::new();
    last("(define (g) y)", &mut env).unwrap();
    assert_eq!(last("(g)", &mut env), Err(LispErr::NameError));
    last("(define y 3)", &mut env).unwrap();
    assert_eq!(last("(g)", &mut env), Ok(Integer(3)));
}

#[test]
fn scoping_is_lexical() {
    let mut env = LispEnv::new();
    let results = eval_string("(define x 1) (define (show) x) (define (h x) (show)) (h 5)", &mut env);
    assert_eq!(results.len(), 4);
    assert_eq!(results[3], Ok(Integer(1)));
}

#[test]
fn recursion() {
    let mut env = LispEnv::new();
    last("(define (fact n) (if (<= n 1) 1 (* n (fact (- n 1)))))", &mut env).unwrap();
    assert_eq!(last("(fact 10)", &mut env), Ok(Integer(3628800)));
    assert_eq!(last("(fact 20)", &mut env), Ok(Integer(2432902008176640000)));
    assert_eq!(last("(fact 21)", &mut env), Err(LispErr::Overflow));
    assert!(!env.has_scope(1));
}

#[test]
fn call_depth_is_bounded() {
    let mut env = LispEnv::new();
    last("(define (spin n) (spin n))", &mut env).unwrap();
    assert_eq!(last("(spin 1)", &mut env), Err(LispErr::DepthExceeded));
    assert!(!env.has_scope(1));
    last("(define (down n) (if (eq? n 0) 0 (down (- n 1))))", &mut env).unwrap();
    assert_eq!(last("(down 200)", &mut env), Ok(Integer(0)));
    assert_eq!(last("(down 300)", &mut env), Err(LispErr::DepthExceeded));
}

#[test]
fn overflow_is_an_error() {
    let mut env = LispEnv::new();
    assert_eq!(last("(+ 9223372036854775807 1)", &mut env), Err(LispErr::Overflow));
    assert_eq!(last("(- -9223372036854775808 1)", &mut env), Err(LispErr::Overflow));
    assert_eq!(last("(* 4611686018427387904 2)", &mut env), Err(LispErr::Overflow));
    assert_eq!(last("(* -4611686018427387904 2)", &mut env), Ok(Integer(i64::MIN)));
    assert_eq!(last("(* 3037000500 3037000500)", &mut env), Err(LispErr::Overflow));
    assert_eq!(last("(- 9223372036854775807 -1)", &mut env), Err(LispErr::Overflow));
}

#[test]
fn exact_totals_that_fit_are_returned() {
    let mut env = LispEnv::new();
    assert_eq!(last("(+ 9223372036854775807 1 -1)", &mut env), Ok(Integer(i64::MAX)));
    assert_eq!(last("(+ -9223372036854775808 -1 1)", &mut env), Ok(Integer(i64::MIN)));
    assert_eq!(last("(* 9223372036854775807 2 0)", &mut env), Ok(Integer(0)));
    assert_eq!(last("(* 9223372036854775807 9223372036854775807 0 5)", &mut env), Ok(Integer(0)));
    assert_eq!(last("(* 4611686018427387904 4 -1)", &mut env), Err(LispErr::Overflow));
    assert_eq!(last("(* -1 9223372036854775807)", &mut env), Ok(Integer(-9223372036854775807)));
    assert_eq!(last("(* 2 (< 1 2))", &mut env), Err(type_error("* operand 2: expected integer")));
}

#[test]
fn type_errors() {
    let mut env = LispEnv::new();
    assert_eq!(last("(+ 1 (< 1 2))", &mut env), Err(type_error("+ operand 2: expected integer")));
    assert_eq!(last("(5 1)", &mut env), Err(type_error("call operand 0: expected function")));
    assert_eq!(last("((< 1 2))", &mut env), Err(type_error("call operand 0: expected function")));
}

#[test]
fn syntax_errors() {
    let mut env = LispEnv::new();
    assert_eq!(
        last("(define 5 1)", &mut env),
        Err(LispErr::SyntaxError("define needs a name or a signature".to_string()))
    );
    assert_eq!(
        last("(define (f 1) 2)", &mut env),
        Err(LispErr::SyntaxError("malformed procedure signature".to_string()))
    );
    assert_eq!(
        last("(define () 2)", &mut env),
        Err(LispErr::SyntaxError("malformed procedure signature".to_string()))
    );
    assert_eq!(last("(define x)", &mut env), Err(LispErr::ArityMismatch));
}

#[test]
fn reserved_words_cannot_be_shadowed() {
    let mut env = LispEnv::new();
    assert_eq!(last("(define + 5)", &mut env), Ok(Null));
    assert_eq!(last("(+ 1 2)", &mut env), Ok(Integer(3)));
    assert_eq!(last("+", &mut env), Ok(Integer(5)));
}

#[test]
fn errors_keep_earlier_definitions() {
    let mut env = LispEnv::new();
    let results = eval_string("(define a 1) (car a) (define b (+ a 1)) b", &mut env);
    assert_eq!(results.len(), 4);
    assert_eq!(results[1], Err(type_error("car operand 1: expected pair")));
    assert_eq!(results[3], Ok(Integer(2)));
}

#[test]
fn define_overwrites() {
    let mut env = LispEnv::new();
    last("(define a 1)", &mut env).unwrap();
    last("(define a 2)", &mut env).unwrap();
    assert_eq!(last("a", &mut env), Ok(Integer(2)));
}

#[test]
fn escaping_procedures_keep_their_scope() {
    let mut env = LispEnv::new();
    last("(define (adder n) (define (add m) (+ n m)) add)", &mut env).unwrap();
    last("(define add5 (adder 5))", &mut env).unwrap();
    assert_eq!(last("(add5 10)", &mut env), Ok(Integer(15)));
    assert!(env.has_scope(1));
    assert!(!env.has_scope(2));
}

#[test]
fn default_environment() {
    let mut env = LispEnv::default();
    assert_eq!(last("(first 1 2)", &mut env), Ok(Integer(1)));
    assert_eq!(last("(square 6)", &mut env), Ok(Integer(36)));
    assert_eq!(last("(bad-func)", &mut env), Err(LispErr::NameError));
    let mut other = lisp::env::default();
    assert_eq!(last("(square 7)", &mut other), Ok(Integer(49)));
    assert!(env.get("square").is_some());
    assert!(LispEnv::new().get("square").is_none());
}

#[test]
fn evaluate_all_in_order() {
    let mut env = LispEnv::new();
    let exprs = vec![
        List(vec![Symbol("define".to_string()), Symbol("a".to_string()), Integer(4)]),
        Symbol("a".to_string()),
        Symbol("b".to_string()),
    ];
    let results = eval_all(&exprs, &mut env);
    assert_eq!(results, vec![Ok(Null), Ok(Integer(4)), Err(LispErr::NameError)]);
    assert_eq!(eval_string("", &mut env), vec![]);
}

#[test]
fn rendering() {
    assert_eq!(Integer(-42).to_string(), Some("-42".to_string()));
    assert_eq!(Integer(0).to_string(), Some("0".to_string()));
    assert_eq!(Integer(i64::MIN).to_string(), Some("-9223372036854775808".to_string()));
    assert_eq!(Integer(i64::MAX).to_string(), Some("9223372036854775807".to_string()));
    assert_eq!(Bool(true).to_string(), Some("true".to_string()));
    assert_eq!(Bool(false).to_string(), Some("false".to_string()));
    let pair = Cons(Box::new(Integer(1)), Box::new(Cons(Box::new(Integer(2)), Box::new(Integer(3)))));
    assert_eq!(pair.to_string(), Some("(1 (2 3))".to_string()));
    assert_eq!(Null.to_string(), None);
    assert_eq!(Symbol("a".to_string()).to_string(), None);
    assert_eq!(Cons(Box::new(Integer(1)), Box::new(Null)).to_string(), None);
}

#[test]
fn extractors() {
    assert_eq!(Integer(3).extract_int(), Ok(3));
    assert_eq!(Bool(true).extract_int(), Err(type_error("expected integer")));
    assert_eq!(Bool(true).extract_bool(), Ok(true));
    assert_eq!(Integer(1).extract_bool(), Err(type_error("expected bool")));
    assert_eq!(Symbol("s".to_string()).extract_symbol(), Ok("s".to_string()));
    assert_eq!(Null.extract_symbol(), Err(type_error("expected symbol")));
    assert_eq!(List(vec![Integer(1)]).extract_list(), Ok(vec![Integer(1)]));
    assert_eq!(Null.extract_list(), Err(type_error("expected list")));
    assert!(Null.extract_fn().is_err());
    assert_eq!(List(vec![Integer(5), Integer(6)]).extract_first(), Integer(5));
    assert_eq!(Integer(9).extract_first(), Integer(9));
    let mut env = LispEnv::default();
    let f = eval_string("square", &mut env).pop().unwrap().unwrap();
    assert_eq!(f.extract_fn().unwrap().params, vec!["x".to_string()]);
}
