use diag_render::globals::{
    create_default_session_globals_then, create_default_session_if_not_set_then,
    create_session_globals_then, create_session_if_not_set_then, set_session_globals_then,
    with_session_globals, Interner, SessionGlobals, SessionScope,
};

#[test]
fn fresh_globals_intern_nothing() {
    let g = SessionGlobals::new();
    assert_eq!(g.symbol_interner.strings.len(), 0);
}

#[test]
fn interner_reuses_first_index() {
    let mut i = Interner::fresh();
    let a = i.intern("foo".to_string());
    let b = i.intern("bar".to_string());
    let c = i.intern("foo".to_string());
    assert_eq!(a, 0);
    assert_eq!(b, 1);
    assert_eq!(c, a);
    assert_eq!(i.strings.len(), 2);
    assert_eq!(i.resolve(a), "foo");
    assert_eq!(i.resolve(b), "bar");
}

#[test]
fn create_session_runs_with_fresh_globals() {
    let mut scope = SessionScope::new();
    let r = create_session_globals_then(&mut scope, |s: &SessionScope| {
        with_session_globals(s, |g: &SessionGlobals| g.symbol_interner.strings.len())
    });
    assert_eq!(r, 0);
    assert!(!scope.is_set());
}

#[test]
fn set_session_installs_given_globals() {
    let mut scope = SessionScope::new();
    let mut globals = SessionGlobals::new();
    globals.symbol_interner.intern("sym".to_string());
    let r = set_session_globals_then(&mut scope, globals, |s: &SessionScope| {
        with_session_globals(s, |g: &SessionGlobals| g.symbol_interner.resolve(0).clone())
    });
    assert_eq!(r, "sym");
    assert!(!scope.is_set());
}

#[test]
fn if_not_set_reuses_active_session() {
    let mut globals = SessionGlobals::new();
    globals.symbol_interner.intern("kept".to_string());
    let mut scope = SessionScope { current: Some(globals) };
    let r = create_session_if_not_set_then(&mut scope, |g: &SessionGlobals| {
        g.symbol_interner.strings.len()
    });
    assert_eq!(r, 1);
    assert!(scope.is_set());
}

#[test]
fn if_not_set_creates_and_restores() {
    let mut scope = SessionScope::new();
    let r = create_default_session_if_not_set_then(&mut scope, |g: &SessionGlobals| {
        g.symbol_interner.strings.len()
    });
    assert_eq!(r, 0);
    assert!(!scope.is_set());
}

#[test]
fn default_session_scope_is_cleared_after() {
    let mut scope = SessionScope::new();
    let r = create_default_session_globals_then(&mut scope, |s: &SessionScope| s.is_set());
    assert!(r);
    assert!(!scope.is_set());
}
