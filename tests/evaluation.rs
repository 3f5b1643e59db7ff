use lisp::eval;
use lisp::LispEnv;
use lisp::LispErr;
use lisp::LispExpr::{Integer, List, Symbol};

#[test]
fn eval_arithmetic() {
    let mut env = LispEnv::default();

    let expr = List(vec![
        Symbol(String::from("+")),
        List(vec![Symbol(String::from("+")), Integer(3), Integer(5)]),
        Integer(4),
    ]);
    assert_eq!(eval(&expr, &mut env).unwrap(), Integer(12));

    let expr = List(vec![
        Symbol(String::from("+")),
        List(vec![Symbol(String::from("-")), Integer(3), Integer(5)]),
        Integer(4),
    ]);
    assert_eq!(eval(&expr, &mut env).unwrap(), Integer(2));

    let expr = List(vec![
        Symbol(String::from("*")),
        List(vec![Symbol(String::from("+")), Integer(3), Integer(5)]),
        Integer(4),
    ]);
    assert_eq!(eval(&expr, &mut env).unwrap(), Integer(32));
}

#[test]
fn eval_functions() {
    let mut env = LispEnv::default();

    let expr = List(vec![Symbol("square".to_string()), Integer(5)]);
    assert_eq!(eval(&expr, &mut env).unwrap(), Integer(25));

    let expr = List(vec![Symbol("bad-func".to_string())]);
    assert!(eval(&expr, &mut env).is_err());

    let expr = List(vec![Symbol("square".to_string()), Integer(3), Integer(4)]);

    assert!(match eval(&expr, &mut env) {
        Err(LispErr::ArityMismatch) => true,
        _ => false,
    });
}
