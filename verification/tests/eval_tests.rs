use mal_core::env::{Env, Interp};
use mal_core::functions::{default_env, default_env_non_native};
use mal_core::MalType;

const FUEL: u64 = 10_000_000;

fn setup() -> (Interp, Env) {
    let mut interp = Interp::new();
    let env = default_env(&mut interp);
    for line in default_env_non_native() {
        interp
            .rep(env, line.as_str(), FUEL)
            .expect("the bootstrap definitions must evaluate");
    }
    (interp, env)
}

fn rep(interp: &mut Interp, env: Env, line: &str) -> Result<String, String> {
    interp.rep(env, line, FUEL)
}

#[test]
fn test_def() {
    let (mut interp, env) = setup();
    rep(&mut interp, env, "(def! x 1)").unwrap();
    let result = rep(&mut interp, env, "x").unwrap();
    assert_eq!("1", result);
}

#[test]
fn test_let() {
    let (mut interp, env) = setup();
    let result = rep(&mut interp, env, "(let* [x 1 y 2 z x] [x y z])").unwrap();
    assert_eq!("[1 2 1]", result);
}

#[test]
fn test_do() {
    let (mut interp, env) = setup();
    let result = rep(&mut interp, env, "(do 1 (def! x (+ 1 2)) (* 2 3))").unwrap();
    assert_eq!("6", result);
    let x = env
        .get(&interp, &"x".chars().collect())
        .expect("x must be bound after the def!");
    assert_eq!("3", x.pr_str(&interp, true));
}

#[test]
fn test_if() {
    let (mut interp, env) = setup();
    let result = rep(&mut interp, env, "(if 1 2 3)").unwrap();
    assert_eq!("2", result);
    let result = rep(&mut interp, env, "(if false 2 3)").unwrap();
    assert_eq!("3", result);
    let result = rep(&mut interp, env, "(if nil 2 (+ 2 3))").unwrap();
    assert_eq!("5", result);
    let result = rep(&mut interp, env, "(if nil 2)").unwrap();
    assert_eq!("nil", result);
}

#[test]
fn test_fn() {
    let (mut interp, env) = setup();
    let result = rep(&mut interp, env, "(fn* [a] a)").unwrap();
    assert_eq!("#<function>", result);
    let result = rep(&mut interp, env, "((fn* [a] a) 7)").unwrap();
    assert_eq!("7", result);
    let result = rep(&mut interp, env, "((fn* [a b] (+ a b)) 2 3)").unwrap();
    assert_eq!("5", result);
    let result = rep(&mut interp, env, "((fn* [a & more] (count more)) 2 3 4)").unwrap();
    assert_eq!("2", result);
    let result = rep(&mut interp, env, "((fn* (a & more) (count more)) 2)").unwrap();
    assert_eq!("0", result);
}

#[test]
fn test_list_and_vec_equal() {
    let (mut interp, env) = setup();
    let result = rep(
        &mut interp,
        env,
        "(= [1 2 (list 3 4 [5 6])] (list 1 2 [3 4 (list 5 6)]))",
    )
    .unwrap();
    assert_eq!("true", result);
}

#[test]
fn test_tco() {
    let (mut interp, env) = setup();
    rep(
        &mut interp,
        env,
        "(def! f (fn* [a i] (if (= i 0) a (f (+ a 1) (- i 1)))))",
    )
    .unwrap();
    let result = rep(&mut interp, env, "(f 1 1000)").unwrap();
    assert_eq!("1001", result);
}

#[test]
fn test_tco_deep() {
    // a hundred thousand tail calls must neither overflow the stack nor
    // exhaust the fuel
    let (mut interp, env) = setup();
    rep(
        &mut interp,
        env,
        "(def! f (fn* (a i) (if (= i 0) a (f (+ a 1) (- i 1)))))",
    )
    .unwrap();
    let result = rep(&mut interp, env, "(f 1 100000)").unwrap();
    assert_eq!("100001", result);
}

#[test]
fn test_atom() {
    let (mut interp, env) = setup();
    rep(&mut interp, env, "(def! a (atom 1))").unwrap();
    let a = env.get(&interp, &"a".chars().collect()).unwrap();
    assert_eq!("(atom 1)", a.pr_str(&interp, true));
    rep(&mut interp, env, "(reset! a 2)").unwrap();
    assert_eq!("(atom 2)", a.pr_str(&interp, true));
    let result = rep(&mut interp, env, "(deref a)").unwrap();
    assert_eq!("2", result);
    assert_eq!("(atom 2)", a.pr_str(&interp, true));
    rep(&mut interp, env, "(swap! a + 2)").unwrap();
    assert_eq!("(atom 4)", a.pr_str(&interp, true));
}

#[test]
fn test_quoting() {
    let (mut interp, env) = setup();
    let result = rep(&mut interp, env, "(apply symbol? (list (quote two)))").unwrap();
    assert_eq!("true", result);
}

#[test]
fn test_defmacro() {
    let (mut interp, env) = setup();
    rep(&mut interp, env, "(defmacro! one (fn* () 1))").unwrap();
    let result = rep(&mut interp, env, "(one)").unwrap();
    assert_eq!("1", result);
}

#[test]
fn test_try_catch() {
    let (mut interp, env) = setup();
    let result = rep(&mut interp, env, "(try* (abc 1 2) (catch* exc exc))").unwrap();
    assert_eq!("\"'abc' not found\"", result);
}

#[test]
fn test_apply() {
    let (mut interp, env) = setup();
    let result = rep(&mut interp, env, "(apply (fn* (& more) (list? more)) [1 2 3])").unwrap();
    assert_eq!("true", result);
}

#[test]
fn test_quasiquote_splice() {
    let (mut interp, env) = setup();
    rep(&mut interp, env, "(def! c (quote (1 2)))").unwrap();
    let result = rep(&mut interp, env, "(quasiquote (0 (splice-unquote c) 3))").unwrap();
    assert_eq!("(0 1 2 3)", result);
    let result = rep(&mut interp, env, "(quasiquote (1 (unquote (+ 1 1))))").unwrap();
    assert_eq!("(1 2)", result);
}

#[test]
fn test_macroexpand_form() {
    let (mut interp, env) = setup();
    rep(&mut interp, env, "(defmacro! two (fn* () (+ 1 1)))").unwrap();
    let result = rep(&mut interp, env, "(macroexpand (two))").unwrap();
    assert_eq!("2", result);
}

#[test]
fn test_throw_caught() {
    let (mut interp, env) = setup();
    let result = rep(
        &mut interp,
        env,
        "(try* (throw (list 1 2)) (catch* e (count e)))",
    )
    .unwrap();
    assert_eq!("2", result);
}

#[test]
fn test_not_bootstrap() {
    let (mut interp, env) = setup();
    let result = rep(&mut interp, env, "(not nil)").unwrap();
    assert_eq!("true", result);
    let result = rep(&mut interp, env, "(not 0)").unwrap();
    assert_eq!("false", result);
}

#[test]
fn test_arith_and_division() {
    let (mut interp, env) = setup();
    assert_eq!("10", rep(&mut interp, env, "(+ 1 2 3 4)").unwrap());
    assert_eq!("3", rep(&mut interp, env, "(/ 7 2)").unwrap());
    assert_eq!("-3", rep(&mut interp, env, "(/ -7 2)").unwrap());
    assert_eq!("24", rep(&mut interp, env, "(* 2 3 4)").unwrap());
    assert_eq!("-4", rep(&mut interp, env, "(- 1 2 3)").unwrap());
    assert!(rep(&mut interp, env, "(/ 1 0)").is_err());
}

#[test]
fn test_map_literal_and_equality() {
    let (mut interp, env) = setup();
    assert_eq!("{1 2 3 4}", rep(&mut interp, env, "{1 2 3 4}").unwrap());
    assert_eq!("true", rep(&mut interp, env, "(= {1 2} {1 2})").unwrap());
    assert_eq!("false", rep(&mut interp, env, "(= {1 2} {1 3})").unwrap());
    // an atom is never a valid key
    let err = rep(&mut interp, env, "{(atom 1) 2}").unwrap_err();
    assert!(err.starts_with("Invalid hash key:"));
}

#[test]
fn test_errors_reported() {
    let (mut interp, env) = setup();
    assert_eq!(
        "Wrong number of arguments for the function",
        rep(&mut interp, env, "(do)").unwrap_err()
    );
    assert_eq!("'nope' not found", rep(&mut interp, env, "nope").unwrap_err());
    assert_eq!(
        "Expected symbol, got int",
        rep(&mut interp, env, "(def! 5 1)").unwrap_err()
    );
    assert_eq!("Not a function: 1", rep(&mut interp, env, "(1 2)").unwrap_err());
}

#[test]
fn test_functions_never_equal() {
    let (mut interp, env) = setup();
    assert_eq!("false", rep(&mut interp, env, "(= + +)").unwrap());
    assert_eq!("false", rep(&mut interp, env, "(= (atom 1) (atom 1))").unwrap());
}

#[test]
fn test_closures_capture() {
    let (mut interp, env) = setup();
    rep(
        &mut interp,
        env,
        "(def! adder (fn* (a) (fn* (b) (+ a b))))",
    )
    .unwrap();
    rep(&mut interp, env, "(def! add3 (adder 3))").unwrap();
    assert_eq!("10", rep(&mut interp, env, "(add3 7)").unwrap());
}

#[test]
fn test_eval_native() {
    let (mut interp, env) = setup();
    let result = rep(&mut interp, env, "(eval (read-string \"(+ 1 2)\"))").unwrap();
    assert_eq!("3", result);
}

#[test]
fn test_type_strings() {
    let interp = Interp::new();
    assert_eq!("int", MalType::Integer(4).type_string());
    assert_eq!("nil", MalType::Nil.type_string());
    let _ = interp;
}
