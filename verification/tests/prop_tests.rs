use toy_lisp::ast::Object;
use toy_lisp::env::EnvArena;
use toy_lisp::env::Environment;
use toy_lisp::error::Error;
use toy_lisp::eval::eval_from_string;

fn internal_eval(program: &str) -> Result<Object, Error> {
    let mut arena = EnvArena::new();
    let env = Environment::new_global();
    let rc_env = env.to_rc_env(&mut arena);
    eval_from_string(program, &mut arena, rc_env)
}

fn eval_err(program: &str) -> String {
    match internal_eval(program) {
        Ok(_) => panic!("expected an error"),
        Err(e) => e.message().to_string(),
    }
}

// Integer arithmetic computes exact results; division by zero fails.

#[test]
fn arith_exact_results() {
    assert!(matches!(internal_eval("(add 20 22)").unwrap(), Object::Number(42)));
    assert!(matches!(internal_eval("(sub 7 10)").unwrap(), Object::Number(-3)));
    assert!(matches!(internal_eval("(mul -6 7)").unwrap(), Object::Number(-42)));
    assert!(matches!(internal_eval("(div 17 5)").unwrap(), Object::Number(3)));
    assert!(matches!(internal_eval("(div -17 5)").unwrap(), Object::Number(-3)));
}

#[test]
fn div_by_zero_fails() {
    assert_eq!(eval_err("(div 1 0)"), "division by zero");
}

#[test]
fn div_overflow_fails() {
    assert_eq!(eval_err("(div -9223372036854775808 -1)"), "arithmetic overflow");
}

#[test]
fn arith_wraps_at_the_edge() {
    let r = internal_eval("(add 9223372036854775807 1)").unwrap();
    assert!(matches!(r, Object::Number(i64::MIN)));
}

#[test]
fn arith_type_errors() {
    assert_eq!(eval_err("(add 1 true)"), "the object is not a number");
    assert_eq!(eval_err("(add 1)"), "required 2 arguments");
    assert_eq!(eval_err("(not 1)"), "the object is not a boolean");
    assert_eq!(eval_err("(not true false)"), "required 1 arguments");
}

// Equality accepts two numbers or two booleans and rejects mixed kinds.

#[test]
fn eq_two_numbers_or_two_bools() {
    assert!(matches!(internal_eval("(eq 3 3)").unwrap(), Object::Bool(true)));
    assert!(matches!(internal_eval("(eq 3 4)").unwrap(), Object::Bool(false)));
    assert!(matches!(internal_eval("(eq true true)").unwrap(), Object::Bool(true)));
    assert!(matches!(internal_eval("(neq 3 4)").unwrap(), Object::Bool(true)));
    assert!(matches!(internal_eval("(neq false false)").unwrap(), Object::Bool(false)));
}

#[test]
fn eq_rejects_mixed_kinds() {
    assert_eq!(eval_err("(eq 1 true)"), "the object is not a boolean");
    assert_eq!(eval_err("(neq true 1)"), "the object is not a boolean");
}

// Shadowing: a child definition never changes the parent's binding.

#[test]
fn shadowing_child_wins_inside() {
    let r = internal_eval("(do (let foo 1) (do (let foo 2) foo))").unwrap();
    assert!(matches!(r, Object::Number(2)));
}

#[test]
fn shadowing_parent_keeps_value() {
    let r = internal_eval("(do (let foo 1) (do (let foo 2)) foo)").unwrap();
    assert!(matches!(r, Object::Number(1)));
}

// Re-defining a locally defined name fails; parent-then-child succeeds.

#[test]
fn redefine_locally_fails() {
    assert_eq!(eval_err("(do (let foo 1) (let foo 2))"), "identifier already exists");
}

#[test]
fn define_parent_then_child_succeeds() {
    let r = internal_eval("(do (let foo 1) (do (let foo 2) (add foo 40)))").unwrap();
    assert!(matches!(r, Object::Number(42)));
}

// `if` requires a boolean test.

#[test]
fn if_requires_bool_test() {
    assert!(matches!(internal_eval("(if true 1 2)").unwrap(), Object::Number(1)));
    assert!(matches!(internal_eval("(if false 1 2)").unwrap(), Object::Number(2)));
    assert_eq!(eval_err("(if 1 1 2)"), "expected a bool value for the IF test expression");
}

// Function values render as the forms that would produce them.

#[test]
fn function_values_render() {
    let d = internal_eval("(defn twice (x) (mul 2 x))").unwrap();
    assert_eq!(d.to_text(), "(defn twice (x) (mul 2 x))");
    let c = internal_eval("(fn () 1)").unwrap();
    assert_eq!(c.to_text(), "(fn () 1)");
}

// Round trip: rendering a self-evaluating value and re-parsing it gives an
// equal term.

#[test]
fn roundtrip_number_and_bool() {
    let n = internal_eval("-12345").unwrap();
    assert_eq!(n.to_text(), "-12345");
    let again = internal_eval(n.to_text().as_str()).unwrap();
    assert!(matches!(again, Object::Number(-12345)));

    let b = internal_eval("true").unwrap();
    assert_eq!(b.to_text(), "true");
    let again = internal_eval(b.to_text().as_str()).unwrap();
    assert!(matches!(again, Object::Bool(true)));
}

// Argument-count mismatch on any call fails rather than truncating.

#[test]
fn call_arity_mismatch_fails() {
    assert_eq!(eval_err("(do (defn f (a b) a) (f 1))"), "args length error");
    assert_eq!(eval_err("(do (let g (fn (a) a)) (g 1 2))"), "args length error");
}

// A named function defined in a block loses its scope once the block ends;
// an anonymous function keeps its scope alive.

#[test]
fn named_function_loses_dead_scope() {
    assert_eq!(
        eval_err("(do (let g (do (defn f (a) a) f)) (g 1))"),
        "static scope environment not found."
    );
}

#[test]
fn closure_keeps_scope_alive() {
    let r = internal_eval("(do (let g (do (let x 41) (fn (a) (add x a)))) (g 1))").unwrap();
    assert!(matches!(r, Object::Number(42)));
}

// Surface-syntax errors.

#[test]
fn syntax_errors() {
    assert_eq!(eval_err("(add 1"), "missing right paren");
    assert_eq!(eval_err(")"), "unexpected right paren");
    assert_eq!(eval_err("1 2"), "invalid expression");
    assert_eq!(eval_err(""), "required at least one token");
    assert_eq!(eval_err("()"), "empty list");
}

// Other evaluation errors.

#[test]
fn other_eval_errors() {
    assert_eq!(eval_err("nope"), "identifier not found: nope");
    assert_eq!(eval_err("(do)"), "sub-expressions are required in DO expression");
    assert_eq!(eval_err("(let 1 2)"), "the identifier should be a string/symbol");
    assert_eq!(eval_err("(let x)"), "expected 2 sub-expressions for the LET expression");
    assert_eq!(eval_err("(if true 1)"), "expected 3 sub-expressions for the IF expression");
    assert_eq!(eval_err("(defn f (a))"), "expected 3 sub-expressions for the DEFN expression");
    assert_eq!(eval_err("(defn 1 (a) a)"), "function name should be a symbol");
    assert_eq!(eval_err("(defn f (a 1) a)"), "parameter name should be a string/symbol");
    assert_eq!(eval_err("(defn f a a)"), "expected parameter name list");
    assert_eq!(eval_err("(fn (a))"), "expected 2 sub-expressions for the FN expression");
    assert_eq!(eval_err("(1 2)"), "expected a function");
    assert_eq!(eval_err("(do (defn f (a) (f a)) (f 1))"), "call stack exhausted");
}

// `do` discards all but the last result, failed sub-forms included.

#[test]
fn do_keeps_only_the_last_result() {
    let r = internal_eval("(do (div 1 0) 5)").unwrap();
    assert!(matches!(r, Object::Number(5)));
}

// A built-in renders as an opaque placeholder.

#[test]
fn builtin_renders_opaque() {
    let r = internal_eval("add").unwrap();
    assert_eq!(r.to_text(), "(builtin)");
}

// A computed head: the function position may itself be an expression.

#[test]
fn computed_head_is_called() {
    let r = internal_eval("((fn (x) (mul x x)) 7)").unwrap();
    assert!(matches!(r, Object::Number(49)));
}

// Numbers that do not fit in 64 signed bits read as symbols.

#[test]
fn numeric_overflow_reads_as_symbol() {
    assert_eq!(
        eval_err("99999999999999999999"),
        "identifier not found: 99999999999999999999"
    );
    let r = internal_eval("-9223372036854775808").unwrap();
    assert!(matches!(r, Object::Number(i64::MIN)));
    let r = internal_eval("+42").unwrap();
    assert!(matches!(r, Object::Number(42)));
}
