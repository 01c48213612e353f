use lisp_vm::evaluator::{evaluate, Scope, Session};
use lisp_vm::sexpr::LispValue;

#[test]
fn test1() -> Result<(), String> {
    let expr = LispValue::List(vec![
        LispValue::Symbol("+".to_string()),
        LispValue::Int(1),
        LispValue::Int(2),
    ]);
    let output = expr.eval(&Scope::new())?.0;
    assert_eq!(output, LispValue::Int(3));
    Ok(())
}

#[test]
fn test2() -> Result<(), String> {
    let sexpr = LispValue::List(vec![
        LispValue::Symbol("+".to_string()),
        LispValue::Int(1),
        LispValue::Int(2),
        LispValue::List(vec![
            LispValue::Symbol("-".to_string()),
            LispValue::Int(4),
            LispValue::Int(3),
        ]),
        LispValue::Int(5),
        LispValue::List(vec![
            LispValue::Symbol("*".to_string()),
            LispValue::Int(1),
            LispValue::Int(2),
        ]),
    ]);
    let res = sexpr.eval(&Scope::new())?.0;
    assert_eq!(res, LispValue::Int(11));
    Ok(())
}

#[test]
fn test3() -> Result<(), String> {
    let sexpr = LispValue::List(vec![
        LispValue::Symbol("let".to_string()),
        LispValue::List(vec![
            LispValue::Symbol("x".to_string()),
            LispValue::Int(2),
        ]),
        LispValue::List(vec![
            LispValue::Symbol("*".to_string()),
            LispValue::Symbol("x".to_string()),
            LispValue::Int(3),
        ]),
    ]);
    let res = sexpr.eval(&Scope::new())?.0;
    assert_eq!(res, LispValue::Int(6));
    Ok(())
}

#[test]
fn test_macros_1() -> Result<(), String> {
    /*
     * (let
     *   (switch (macro (a b) (quote (b a))))
     *   (switch 3 inc))
     */
    let ast = LispValue::List(vec![
        LispValue::Symbol("let".to_string()),
        LispValue::List(vec![
            LispValue::Symbol("switch".to_string()),
            LispValue::List(vec![
                LispValue::Symbol("macro".to_string()),
                LispValue::List(vec![
                    LispValue::Symbol("a".to_string()),
                    LispValue::Symbol("b".to_string()),
                ]),
                LispValue::List(vec![
                    LispValue::Symbol("list".to_string()),
                    LispValue::Symbol("b".to_string()),
                    LispValue::Symbol("a".to_string()),
                ]),
            ]),
        ]),
        LispValue::List(vec![
            LispValue::Symbol("switch".to_string()),
            LispValue::Int(1),
            LispValue::Symbol("inc".to_string()),
        ]),
    ]);
    let res = ast.eval(&Scope::new())?.0;
    assert_eq!(res, LispValue::Int(2));
    Ok(())
}

#[test]
fn test_macros_2() -> Result<(), String> {
    /*
     * (let
     *   (switch (macro (a b) (quote (b a))))
     *   (switch 3 inc))
     */
    let ast = LispValue::List(vec![
        LispValue::Symbol("let".to_string()),
        LispValue::List(vec![
            LispValue::Symbol("switch".to_string()),
            LispValue::List(vec![
                LispValue::Symbol("macro".to_string()),
                LispValue::List(vec![
                    LispValue::Symbol("a".to_string()),
                    LispValue::Symbol("b".to_string()),
                ]),
                LispValue::List(vec![
                    LispValue::Symbol("list".to_string()),
                    LispValue::Symbol("b".to_string()),
                    LispValue::Symbol("a".to_string()),
                ]),
            ]),
        ]),
        LispValue::List(vec![
            LispValue::Symbol("switch".to_string()),
            LispValue::Int(1),
            LispValue::Symbol("inc".to_string()),
        ]),
    ]);
    let res = ast.eval(&Scope::new())?.0;
    assert_eq!(res, LispValue::Int(2));
    Ok(())
}

#[test]
fn test_macros_3() -> Result<(), String> {
    /*
     * (let
     *   (infix (macro (a op b) (list op a b)))
     *   (infix 1 + 2))
     */
    let ast = LispValue::List(vec![
        LispValue::Symbol("let".to_string()),
        LispValue::List(vec![
            LispValue::Symbol("infix".to_string()),
            LispValue::List(vec![
                LispValue::Symbol("macro".to_string()),
                LispValue::List(vec![
                    LispValue::Symbol("a".to_string()),
                    LispValue::Symbol("op".to_string()),
                    LispValue::Symbol("b".to_string()),
                ]),
                LispValue::List(vec![
                    LispValue::Symbol("list".to_string()),
                    LispValue::Symbol("op".to_string()),
                    LispValue::Symbol("a".to_string()),
                    LispValue::Symbol("b".to_string()),
                ]),
            ]),
        ]),
        LispValue::List(vec![
            LispValue::Symbol("infix".to_string()),
            LispValue::Int(1),
            LispValue::Symbol("+".to_string()),
            LispValue::Int(2),
        ]),
    ]);
    assert_eq!(ast.eval(&Scope::new())?.0, LispValue::Int(3));
    Ok(())
}

#[test]
fn quote_round_trip() -> Result<(), String> {
    let datum = LispValue::List(vec![
        LispValue::Symbol("a".to_string()),
        LispValue::Int(1),
    ]);
    let expr = LispValue::Quote(Box::new(datum));
    let res = expr.eval(&Scope::new())?.0;
    assert_eq!(
        res,
        LispValue::List(vec![
            LispValue::Symbol("a".to_string()),
            LispValue::Int(1),
        ])
    );
    Ok(())
}

#[test]
fn symbol_not_found() {
    let expr = LispValue::Symbol("nope".to_string());
    let res = expr.eval(&Scope::new());
    assert_eq!(res.err(), Some("Symbol nope not found in scope".to_string()));
}

#[test]
fn nil_symbol_evaluates_to_nil() -> Result<(), String> {
    let res = LispValue::Symbol("nil".to_string()).eval(&Scope::new())?.0;
    assert_eq!(res, LispValue::Nil);
    Ok(())
}

#[test]
fn cannot_call_int() {
    let expr = LispValue::List(vec![LispValue::Int(1), LispValue::Int(2)]);
    let res = expr.eval(&Scope::new());
    assert_eq!(res.err(), Some("Cannot call int value".to_string()));
}

#[test]
fn if_requires_boolean_condition() {
    let expr = LispValue::List(vec![
        LispValue::Symbol("if".to_string()),
        LispValue::Int(0),
        LispValue::Int(1),
        LispValue::Int(2),
    ]);
    let res = expr.eval(&Scope::new());
    assert_eq!(res.err(), Some("If condition must be a boolean".to_string()));
}

#[test]
fn if_picks_branches() -> Result<(), String> {
    let mk = |cond: bool| {
        LispValue::List(vec![
            LispValue::Symbol("if".to_string()),
            LispValue::Bool(cond),
            LispValue::Int(1),
            LispValue::Int(2),
        ])
    };
    assert_eq!(mk(true).eval(&Scope::new())?.0, LispValue::Int(1));
    assert_eq!(mk(false).eval(&Scope::new())?.0, LispValue::Int(2));
    Ok(())
}

#[test]
fn lambda_via_let() -> Result<(), String> {
    // (let (sq (lambda (x) (* x x))) (sq 5))
    let expr = LispValue::List(vec![
        LispValue::Symbol("let".to_string()),
        LispValue::List(vec![
            LispValue::Symbol("sq".to_string()),
            LispValue::List(vec![
                LispValue::Symbol("lambda".to_string()),
                LispValue::List(vec![LispValue::Symbol("x".to_string())]),
                LispValue::List(vec![
                    LispValue::Symbol("*".to_string()),
                    LispValue::Symbol("x".to_string()),
                    LispValue::Symbol("x".to_string()),
                ]),
            ]),
        ]),
        LispValue::List(vec![
            LispValue::Symbol("sq".to_string()),
            LispValue::Int(5),
        ]),
    ]);
    assert_eq!(expr.eval(&Scope::new())?.0, LispValue::Int(25));
    Ok(())
}

#[test]
fn function_wrong_arity() {
    // (let (sq (lambda (x) x)) (sq 1 2))
    let expr = LispValue::List(vec![
        LispValue::Symbol("let".to_string()),
        LispValue::List(vec![
            LispValue::Symbol("sq".to_string()),
            LispValue::List(vec![
                LispValue::Symbol("lambda".to_string()),
                LispValue::List(vec![LispValue::Symbol("x".to_string())]),
                LispValue::Symbol("x".to_string()),
            ]),
        ]),
        LispValue::List(vec![
            LispValue::Symbol("sq".to_string()),
            LispValue::Int(1),
            LispValue::Int(2),
        ]),
    ]);
    let res = expr.eval(&Scope::new());
    assert_eq!(
        res.err(),
        Some("Function called with incorrect number of arguments".to_string())
    );
}

#[test]
fn list_builtin_builds_list() -> Result<(), String> {
    let expr = LispValue::List(vec![
        LispValue::Symbol("list".to_string()),
        LispValue::Int(1),
        LispValue::Int(2),
    ]);
    let res = expr.eval(&Scope::new())?.0;
    assert_eq!(
        res,
        LispValue::List(vec![LispValue::Int(1), LispValue::Int(2)])
    );
    Ok(())
}

#[test]
fn evaluator_division_by_zero() {
    let expr = LispValue::List(vec![
        LispValue::Symbol("/".to_string()),
        LispValue::Int(1),
        LispValue::Int(0),
    ]);
    let res = expr.eval(&Scope::new());
    assert_eq!(res.err(), Some("Division by zero".to_string()));
}

#[test]
fn session_threads_scope() -> Result<(), String> {
    // (fn (add2 a b) (+ a b)) then (add2 1 2)
    let mut session = Session::new();
    let decl = LispValue::List(vec![
        LispValue::Symbol("fn".to_string()),
        LispValue::List(vec![
            LispValue::Symbol("add2".to_string()),
            LispValue::Symbol("a".to_string()),
            LispValue::Symbol("b".to_string()),
        ]),
        LispValue::List(vec![
            LispValue::Symbol("+".to_string()),
            LispValue::Symbol("a".to_string()),
            LispValue::Symbol("b".to_string()),
        ]),
    ]);
    session.eval(decl)?;
    let call = LispValue::List(vec![
        LispValue::Symbol("add2".to_string()),
        LispValue::Int(1),
        LispValue::Int(2),
    ]);
    assert_eq!(session.eval(call)?, LispValue::Int(3));
    Ok(())
}

#[test]
fn evaluate_runs_a_program() -> Result<(), String> {
    let program = vec![
        LispValue::List(vec![
            LispValue::Symbol("fn".to_string()),
            LispValue::List(vec![
                LispValue::Symbol("double".to_string()),
                LispValue::Symbol("n".to_string()),
            ]),
            LispValue::List(vec![
                LispValue::Symbol("*".to_string()),
                LispValue::Symbol("n".to_string()),
                LispValue::Int(2),
            ]),
        ]),
        LispValue::List(vec![
            LispValue::Symbol("double".to_string()),
            LispValue::Int(21),
        ]),
    ];
    assert_eq!(evaluate(program)?, LispValue::Int(42));
    Ok(())
}

#[test]
fn quasi_quote_evaluates_unquoted_parts() -> Result<(), String> {
    // `(1 ,(+ 1 1) 3) evaluates only the comma-unquoted element
    let expr = LispValue::QuasiQuotedList(vec![
        LispValue::Int(1),
        LispValue::CommaUnquote(Box::new(LispValue::List(vec![
            LispValue::Symbol("+".to_string()),
            LispValue::Int(1),
            LispValue::Int(1),
        ]))),
        LispValue::Int(3),
    ]);
    let res = expr.eval(&Scope::new())?.0;
    assert_eq!(
        res,
        LispValue::List(vec![
            LispValue::Int(1),
            LispValue::Int(2),
            LispValue::Int(3),
        ])
    );
    Ok(())
}

#[test]
fn macro_wrong_arity() {
    // (let (m (macro (a) a)) (m 1 2))
    let expr = LispValue::List(vec![
        LispValue::Symbol("let".to_string()),
        LispValue::List(vec![
            LispValue::Symbol("m".to_string()),
            LispValue::List(vec![
                LispValue::Symbol("macro".to_string()),
                LispValue::List(vec![LispValue::Symbol("a".to_string())]),
                LispValue::Symbol("a".to_string()),
            ]),
        ]),
        LispValue::List(vec![
            LispValue::Symbol("m".to_string()),
            LispValue::Int(1),
            LispValue::Int(2),
        ]),
    ]);
    let res = expr.eval(&Scope::new());
    assert_eq!(
        res.err(),
        Some("Macro called with incorrect number of arguments".to_string())
    );
}

#[test]
fn display_forms_of_surface_values() {
    let v = LispValue::List(vec![
        LispValue::Symbol("a".to_string()),
        LispValue::Int(-3),
        LispValue::String("hi".to_string()),
        LispValue::Quote(Box::new(LispValue::Nil)),
        LispValue::Bool(true),
    ]);
    assert_eq!(v.display(), "(a, -3, \"hi\", 'nil, true)");
    let b = LispValue::BuiltIn(lisp_vm::value::BuiltinFn::Inc);
    assert_eq!(b.display(), "<builtin: inc>");
    assert_eq!(LispValue::List(vec![]).display(), "()");
}
