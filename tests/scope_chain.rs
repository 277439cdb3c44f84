use lisp_env::{Env, Frame, Lambda, RuntimeError, Symbol};

fn sym(name: &str) -> Symbol {
    Symbol::new(name.to_string())
}

#[test]
fn set_then_get_returns_value() {
    let mut env: Env<i64> = Env::new();
    env.add_default_frame();
    env.set(sym("a"), 7);
    assert_eq!(env.get(&sym("a")), Some(&7));
    env.set(sym("a"), 8);
    assert_eq!(env.get(&sym("a")), Some(&8));
}

#[test]
fn set_without_frames_does_nothing() {
    let mut env: Env<i64> = Env::default();
    env.set(sym("a"), 7);
    assert_eq!(env.get(&sym("a")), None);
    assert!(env.pop_frame().is_err());
}

#[test]
fn inner_definition_shadows_and_pop_restores() {
    let mut env: Env<i64> = Env::new();
    env.add_default_frame();
    env.set(sym("x"), 1);
    env.add_default_frame();
    env.set(sym("x"), 2);
    env.set(sym("y"), 3);
    assert_eq!(env.get(&sym("x")), Some(&2));
    let inner = env.pop_frame().unwrap();
    assert_eq!(inner.get(&sym("x")), Some(&2));
    assert_eq!(env.get(&sym("x")), Some(&1));
    assert_eq!(env.get(&sym("y")), None);
}

#[test]
fn update_of_unbound_symbol_fails_and_changes_nothing() {
    let mut env: Env<i64> = Env::new();
    env.add_default_frame();
    env.set(sym("x"), 1);
    let err = env.update(sym("y"), 5).unwrap_err();
    assert_eq!(err.message, "Tried to set value of undefined symbol \"y\"");
    assert_eq!(env.get(&sym("y")), None);
    assert_eq!(env.get(&sym("x")), Some(&1));
    let top = env.pop_frame().unwrap();
    assert!(!top.has(&sym("y")));
    assert!(env.pop_frame().is_err());
}

#[test]
fn update_rewrites_nearest_defining_frame() {
    let mut env: Env<i64> = Env::new();
    env.add_default_frame();
    env.set(sym("x"), 1);
    env.add_default_frame();
    assert!(env.update(sym("x"), 2).is_ok());
    assert_eq!(env.get(&sym("x")), Some(&2));
    let inner = env.pop_frame().unwrap();
    assert!(!inner.has(&sym("x")));
    let outer = env.pop_frame().unwrap();
    assert_eq!(outer.get(&sym("x")), Some(&2));
}

#[test]
fn update_prefers_innermost_binding() {
    let mut env: Env<i64> = Env::new();
    env.add_default_frame();
    env.set(sym("x"), 1);
    env.add_default_frame();
    env.set(sym("x"), 10);
    env.update(sym("x"), 20).unwrap();
    let inner = env.pop_frame().unwrap();
    assert_eq!(inner.get(&sym("x")), Some(&20));
    assert_eq!(env.get(&sym("x")), Some(&1));
}

#[test]
fn pop_on_empty_env_is_stack_underflow() {
    let mut env: Env<i64> = Env::new();
    let err = env.pop_frame().unwrap_err();
    assert_eq!(err.message, "No env frames left.");
}

#[test]
fn delete_removes_nearest_binding_only() {
    let mut env: Env<i64> = Env::new();
    env.add_default_frame();
    env.set(sym("x"), 1);
    env.add_default_frame();
    env.set(sym("x"), 2);
    env.delete(&sym("x"));
    assert_eq!(env.get(&sym("x")), Some(&1));
    env.delete(&sym("x"));
    assert_eq!(env.get(&sym("x")), None);
    env.delete(&sym("x"));
    assert_eq!(env.get(&sym("x")), None);
}

#[test]
fn update_during_call_reaches_captured_frame() {
    let mut captured: Frame<i64> = Frame::new();
    captured.set(sym("x"), 1);
    let lambda = Lambda::new(captured, vec![sym("n")], Box::new(0));
    let args = lambda.bind_arguments(vec![5]);
    let Lambda { closure, argnames, body } = lambda;
    let mut env: Env<i64> = Env::new();
    env.add_default_frame();
    env.add_frame(closure);
    env.add_frame(args);
    assert_eq!(env.get(&sym("n")), Some(&5));
    assert_eq!(env.get(&sym("x")), Some(&1));
    env.update(sym("x"), 2).unwrap();
    let _ = env.pop_frame().unwrap();
    let closure = env.pop_frame().unwrap();
    let lambda = Lambda::new(closure, argnames, body);
    let args = lambda.bind_arguments(vec![6]);
    let Lambda { closure, .. } = lambda;
    env.add_frame(closure);
    env.add_frame(args);
    assert_eq!(env.get(&sym("x")), Some(&2));
    assert_eq!(env.get(&sym("n")), Some(&6));
}

#[test]
fn arguments_bind_by_position() {
    let lambda: Lambda<i64> = Lambda::new(Frame::new(), vec![sym("a"), sym("b"), sym("a")], Box::new(0));
    let frame = lambda.bind_arguments(vec![1, 2, 3]);
    assert_eq!(frame.get(&sym("a")), Some(&3));
    assert_eq!(frame.get(&sym("b")), Some(&2));
    assert!(!frame.has(&sym("c")));
}

#[test]
fn push_then_pop_round_trip() {
    let mut env: Env<i64> = Env::new();
    env.add_default_frame();
    env.set(sym("x"), 1);
    for i in 0..4 {
        let mut f = Frame::new();
        f.set(sym("x"), 100 + i);
        env.add_frame(f);
    }
    assert_eq!(env.get(&sym("x")), Some(&103));
    for _ in 0..4 {
        assert!(env.pop_frame().is_ok());
    }
    assert_eq!(env.get(&sym("x")), Some(&1));
    assert!(env.pop_frame().is_ok());
    assert!(env.pop_frame().is_err());
}

#[test]
fn end_to_end_scenario() {
    let mut env: Env<i64> = Env::new();
    env.add_default_frame();
    env.set(sym("x"), 1);
    env.add_default_frame();
    env.set(sym("x"), 2);
    assert_eq!(env.get(&sym("x")), Some(&2));
    assert!(env.pop_frame().is_ok());
    assert_eq!(env.get(&sym("x")), Some(&1));
    let err: RuntimeError = env.update(sym("y"), 5).unwrap_err();
    assert_eq!(err.message, "Tried to set value of undefined symbol \"y\"");
}

#[test]
fn frame_operations() {
    let mut f: Frame<i64> = Frame::default();
    assert!(!f.has(&sym("k")));
    f.set(sym("k"), 1);
    f.set(sym("j"), 2);
    f.set(sym("k"), 3);
    assert_eq!(f.get(&sym("k")), Some(&3));
    f.delete(&sym("k"));
    assert!(!f.has(&sym("k")));
    assert_eq!(f.get(&sym("j")), Some(&2));
    f.delete(&sym("missing"));
    assert_eq!(f.get(&sym("j")), Some(&2));
}

#[test]
fn symbols_compare_by_name() {
    assert!(sym("ab").same_as(&sym("ab")));
    assert!(!sym("ab").same_as(&sym("ba")));
    assert!(sym("q") == sym("q"));
    assert_eq!(sym("name").name(), "name");
    let e = RuntimeError::new("boom".to_string());
    assert_eq!(e.message, "boom");
}

#[test]
fn parameter_list_is_space_separated_in_parentheses() {
    let lambda: Lambda<i64> = Lambda::new(Frame::new(), vec![sym("a"), sym("bc"), sym("d")], Box::new(0));
    assert_eq!(lambda.parameter_list(), "(a bc d)");
    let none: Lambda<i64> = Lambda::new(Frame::new(), vec![], Box::new(0));
    assert_eq!(none.parameter_list(), "()");
}

#[test]
fn error_description_carries_message() {
    let mut env: Env<i64> = Env::new();
    let err = env.pop_frame().unwrap_err();
    assert_eq!(err.describe(), "Runtime error: No env frames left.");
}

#[test]
fn accessors_expose_frames_and_entries() {
    let mut env: Env<i64> = Env::new();
    env.add_default_frame();
    env.set(sym("x"), 1);
    env.add_default_frame();
    assert_eq!(env.frames().len(), 2);
    let entries = env.frames()[0].entries();
    assert_eq!(entries.len(), 1);
    assert_eq!(entries[0].0.name(), "x");
    assert_eq!(entries[0].1, 1);
    assert!(env.frames()[1].entries().is_empty());
}
