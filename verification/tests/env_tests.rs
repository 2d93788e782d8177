use toy_lisp::ast::Func;
use toy_lisp::ast::Object;
use toy_lisp::env::EnvArena;
use toy_lisp::env::Environment;
use toy_lisp::env::rc_env_define;
use toy_lisp::env::rc_env_lookup;

#[test]
fn env_test_global_env_builtin_func() {
    let arena = EnvArena::new();
    let env = Environment::new_global();

    let v1 = env.lookup(&arena, "add");
    match v1 {
        Some(f) => match f {
            Object::Function(ff) => {
                assert!(matches!(*ff, Func::Builtin(_)))
            },
            _ => assert!(false),
        },
        _ => assert!(false),
    };
}

#[test]
fn env_test_define_and_lookup() {
    let arena = EnvArena::new();
    let mut env = Environment::new_global();

    let r1 = env.lookup(&arena, "foo");
    assert!(matches!(r1, None));

    let r2 = env.define("foo", Object::Number(123));
    assert!(matches!(r2, Ok(_)));

    let r3 = env.lookup(&arena, "foo");
    match r3 {
        Some(o) => match o {
            Object::Number(n) => assert_eq!(n, 123),
            _ => assert!(false),
        },
        _ => assert!(false),
    }

    let r4 = env.define("foo", Object::Number(456));
    assert!(matches!(r4, Err(_)));
}

#[test]
fn env_test_nested_environment() {
    let mut arena = EnvArena::new();
    let env_parent = Environment::new_global();
    let rc_env_parent = env_parent.to_rc_env(&mut arena);

    let r1 = rc_env_lookup(&mut arena, rc_env_parent, "foo");
    assert!(matches!(r1, None));

    {
        let env_child = Environment::new(rc_env_parent);
        let rc_env_child = env_child.to_rc_env(&mut arena);

        let c1 = rc_env_lookup(&mut arena, rc_env_child, "foo");
        assert!(matches!(c1, None));
    }

    let r2 = rc_env_define(&mut arena, rc_env_parent, "foo", Object::Number(123));
    assert!(matches!(r2, Ok(_)));

    let r3 = rc_env_lookup(&mut arena, rc_env_parent, "foo");
    match r3 {
        Some(obj) => match obj {
            Object::Number(n) => assert_eq!(n, 123),
            _ => assert!(false),
        },
        _ => assert!(false),
    }

    {
        let env_child = Environment::new(rc_env_parent);
        let rc_env_child = env_child.to_rc_env(&mut arena);

        let c1 = rc_env_lookup(&mut arena, rc_env_child, "foo");
        match c1 {
            Some(obj) => match obj {
                Object::Number(n) => assert_eq!(n, 123),
                _ => assert!(false),
            },
            _ => assert!(false),
        }

        // Shadowing the parent's binding in the child is allowed.
        let c2 = rc_env_define(&mut arena, rc_env_child, "foo", Object::Number(456));
        assert!(matches!(c2, Ok(_)));

        let c3 = rc_env_lookup(&mut arena, rc_env_child, "foo");
        match c3 {
            Some(o) => match o {
                Object::Number(n) => assert_eq!(n, 456),
                _ => assert!(false),
            },
            _ => assert!(false),
        }
    }

    // The parent's binding is unchanged by the child's definition.
    let r4 = rc_env_lookup(&mut arena, rc_env_parent, "foo");
    match r4 {
        Some(obj) => match obj {
            Object::Number(n) => assert_eq!(n, 123),
            _ => assert!(false),
        },
        _ => assert!(false),
    }

    {
        let env_child = Environment::new(rc_env_parent);
        let rc_env_child = env_child.to_rc_env(&mut arena);

        let c1 = rc_env_define(&mut arena, rc_env_child, "bar", Object::Number(789));
        assert!(matches!(c1, Ok(_)));

        let c3 = rc_env_lookup(&mut arena, rc_env_child, "bar");
        match c3 {
            Some(obj) => match obj {
                Object::Number(n) => assert_eq!(n, 789),
                _ => assert!(false),
            },
            _ => assert!(false),
        }
    }

    // A child's definition is invisible from the parent.
    let r5 = rc_env_lookup(&mut arena, rc_env_parent, "bar");
    assert!(matches!(r5, None));
}
