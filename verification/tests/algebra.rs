use type_infer::builder::{ty_func, ty_named, ty_variable};
use type_infer::data::{Context, Substitutions};
use type_infer::error::InferError;
use type_infer::ty::Ty;

fn single(name: &str, ty: Ty) -> Substitutions {
    let mut s = Substitutions::new();
    s.insert(name.to_string(), ty);
    s
}

fn bound(subs: &Substitutions, name: &str) -> Option<Ty> {
    subs.get(&name.to_string()).cloned()
}

#[test]
fn equal_named_types_unify_to_nothing() {
    let s = ty_named("Number").unify(ty_named("Number")).unwrap();
    assert!(s.is_empty());
}

#[test]
fn different_named_types_do_not_unify() {
    let err = ty_named("Number").unify(ty_named("Bool")).unwrap_err();
    assert_eq!(err, InferError::TypeMismatch(ty_named("Number"), ty_named("Bool")));
}

#[test]
fn named_and_arrow_do_not_unify() {
    let arrow = ty_func(ty_named("A"), ty_named("B"));
    let err = ty_named("A").unify(arrow.clone()).unwrap_err();
    assert_eq!(err, InferError::TypeMismatch(ty_named("A"), arrow.clone()));
    let err = arrow.clone().unify(ty_named("A")).unwrap_err();
    assert_eq!(err, InferError::TypeMismatch(arrow, ty_named("A")));
}

#[test]
fn variable_binds_on_either_side() {
    let s = ty_variable("a").unify(ty_named("Number")).unwrap();
    assert_eq!(bound(&s, "a"), Some(ty_named("Number")));
    let s = ty_named("Number").unify(ty_variable("a")).unwrap();
    assert_eq!(bound(&s, "a"), Some(ty_named("Number")));
    assert_eq!(bound(&s, "b"), None);
}

#[test]
fn var_bind_gives_the_single_binding() {
    let t = ty_func(ty_variable("b"), ty_named("Number"));
    let s = t.clone().var_bind("a".to_string()).unwrap();
    assert!(!s.is_empty());
    assert_eq!(bound(&s, "a"), Some(t));
    assert_eq!(bound(&s, "b"), None);
}

#[test]
fn var_bind_to_itself_binds_nothing() {
    let s = ty_variable("a").var_bind("a".to_string()).unwrap();
    assert!(s.is_empty());
}

#[test]
fn var_bind_rejects_a_type_that_holds_the_variable() {
    let t = ty_func(ty_named("Number"), ty_func(ty_variable("a"), ty_named("Bool")));
    let err = t.var_bind("a".to_string()).unwrap_err();
    assert_eq!(err, InferError::InfiniteType("a".to_string()));
}

#[test]
fn contains_searches_through_arrows() {
    let t = ty_func(ty_named("a"), ty_func(ty_variable("b"), ty_named("Bool")));
    assert!(t.contains(&"b".to_string()));
    assert!(!t.contains(&"a".to_string()));
    assert!(!t.contains(&"Bool".to_string()));
}

#[test]
fn arrows_unify_from_side_first() {
    let x = ty_func(ty_variable("a"), ty_variable("a"));
    let y = ty_func(ty_named("Number"), ty_variable("b"));
    let s = x.unify(y).unwrap();
    assert_eq!(bound(&s, "a"), Some(ty_named("Number")));
    assert_eq!(bound(&s, "b"), Some(ty_named("Number")));
}

#[test]
fn arrows_that_disagree_after_substitution_fail() {
    let x = ty_func(ty_variable("a"), ty_variable("a"));
    let y = ty_func(ty_named("Number"), ty_named("Bool"));
    let err = x.unify(y).unwrap_err();
    assert_eq!(err, InferError::TypeMismatch(ty_named("Number"), ty_named("Bool")));
}

#[test]
fn unification_in_either_order_solves_both_types() {
    let x = ty_func(ty_variable("a"), ty_named("Number"));
    let y = ty_func(ty_named("Bool"), ty_variable("b"));
    let solved = ty_func(ty_named("Bool"), ty_named("Number"));
    let s = x.clone().unify(y.clone()).unwrap();
    assert_eq!(x.clone().apply_subs(&s), solved);
    assert_eq!(y.clone().apply_subs(&s), solved);
    let s = y.clone().unify(x.clone()).unwrap();
    assert_eq!(x.apply_subs(&s), solved);
    assert_eq!(y.apply_subs(&s), solved);
}

#[test]
fn unification_fails_in_either_order() {
    let x = ty_func(ty_variable("a"), ty_named("Number"));
    let y = ty_func(ty_named("Bool"), ty_named("Bool"));
    assert!(x.clone().unify(y.clone()).is_err());
    assert!(y.unify(x).is_err());
}

#[test]
fn nested_arrows_unify_in_either_order() {
    let x = ty_func(
        ty_func(ty_variable("a"), ty_variable("b")),
        ty_func(ty_variable("b"), ty_variable("c")),
    );
    let y = ty_func(
        ty_func(ty_named("Number"), ty_variable("d")),
        ty_func(ty_variable("a"), ty_variable("d")),
    );
    let solved = ty_func(
        ty_func(ty_named("Number"), ty_named("Number")),
        ty_func(ty_named("Number"), ty_named("Number")),
    );
    let s = x.clone().unify(y.clone()).unwrap();
    assert_eq!(x.clone().apply_subs(&s), solved);
    assert_eq!(y.clone().apply_subs(&s), solved);
    let s = y.clone().unify(x.clone()).unwrap();
    assert_eq!(x.apply_subs(&s), solved);
    assert_eq!(y.apply_subs(&s), solved);
}

#[test]
fn variables_unify_with_each_other_in_either_order() {
    let s = ty_variable("a").unify(ty_variable("b")).unwrap();
    assert_eq!(bound(&s, "a"), Some(ty_variable("b")));
    assert_eq!(bound(&s, "b"), None);
    let s = ty_variable("b").unify(ty_variable("a")).unwrap();
    assert_eq!(bound(&s, "b"), Some(ty_variable("a")));
    assert_eq!(bound(&s, "a"), None);
}

#[test]
fn occurs_check_fails_in_either_order() {
    let t = ty_func(ty_variable("a"), ty_named("Number"));
    let err = ty_variable("a").unify(t.clone()).unwrap_err();
    assert_eq!(err, InferError::InfiniteType("a".to_string()));
    let err = t.unify(ty_variable("a")).unwrap_err();
    assert_eq!(err, InferError::InfiniteType("a".to_string()));
}

#[test]
fn occurs_check_reaches_the_to_side() {
    let x = ty_func(ty_variable("a"), ty_variable("a"));
    let y = ty_func(ty_variable("b"), ty_func(ty_variable("b"), ty_named("Number")));
    let err = x.unify(y).unwrap_err();
    assert_eq!(err, InferError::InfiniteType("b".to_string()));
}

#[test]
fn substitution_rewrites_bound_variables_only() {
    let s = single("a", ty_named("Number"));
    let t = ty_func(ty_variable("a"), ty_func(ty_variable("b"), ty_named("a")));
    let expected = ty_func(ty_named("Number"), ty_func(ty_variable("b"), ty_named("a")));
    assert_eq!(t.apply_subs(&s), expected);
}

#[test]
fn substitution_leaves_unbound_variables() {
    let s = single("a", ty_named("Number"));
    let t = ty_func(ty_variable("b"), ty_named("X"));
    assert_eq!(t.clone().apply_subs(&s), t);
    assert_eq!(t.clone().apply_subs(&Substitutions::new()), t);
}

#[test]
fn substitution_is_applied_once() {
    let mut s = single("a", ty_variable("b"));
    s.insert("b".to_string(), ty_named("Number"));
    assert_eq!(ty_variable("a").apply_subs(&s), ty_variable("b"));
}

#[test]
fn insert_replaces_an_earlier_binding() {
    let mut s = single("a", ty_named("Number"));
    s.insert("a".to_string(), ty_named("Bool"));
    assert_eq!(bound(&s, "a"), Some(ty_named("Bool")));
    assert_eq!(s.len(), 1);
}

#[test]
fn compose_rewrites_older_bindings_by_newer() {
    let mut older = single("a", ty_func(ty_variable("b"), ty_variable("c")));
    let newer = single("b", ty_named("Number"));
    older.compose(&newer);
    assert_eq!(bound(&older, "a"), Some(ty_func(ty_named("Number"), ty_variable("c"))));
    assert_eq!(bound(&older, "b"), Some(ty_named("Number")));
    assert_eq!(bound(&older, "c"), None);
    assert_eq!(older.len(), 2);
}

#[test]
fn compose_lets_newer_win_on_collision() {
    let mut older = single("a", ty_variable("b"));
    let mut newer = single("b", ty_named("Number"));
    newer.insert("a".to_string(), ty_named("Bool"));
    older.compose(&newer);
    assert_eq!(bound(&older, "a"), Some(ty_named("Bool")));
    assert_eq!(bound(&older, "b"), Some(ty_named("Number")));
    assert_eq!(older.len(), 2);
}

#[test]
fn cloned_substitution_binds_the_same() {
    let s = single("a", ty_named("Number"));
    let c = s.clone();
    assert_eq!(bound(&c, "a"), Some(ty_named("Number")));
    assert_eq!(bound(&c, "b"), None);
}

#[test]
fn try_into_func_splits_an_arrow() {
    let t = ty_func(ty_named("A"), ty_variable("b"));
    assert_eq!(t.try_into_func(), Ok((ty_named("A"), ty_variable("b"))));
}

#[test]
fn try_into_func_rejects_other_types() {
    assert_eq!(ty_named("A").try_into_func(), Err(InferError::NotAFunction));
    assert_eq!(ty_variable("a").try_into_func(), Err(InferError::NotAFunction));
}

#[test]
fn lookup_finds_the_innermost_binding() {
    let ctx = Context::new().with("x".to_string(), ty_named("Number"));
    let inner = ctx.with("x".to_string(), ty_named("Bool"));
    assert_eq!(inner.lookup(&"x".to_string()), Ok(ty_named("Bool")));
    assert_eq!(ctx.lookup(&"x".to_string()), Ok(ty_named("Number")));
}

#[test]
fn lookup_of_a_missing_name_fails() {
    let ctx = Context::new().with("x".to_string(), ty_named("Number"));
    assert_eq!(
        ctx.lookup(&"y".to_string()),
        Err(InferError::UnboundVariable("y".to_string()))
    );
}

#[test]
fn substitute_rewrites_every_binding() {
    let ctx = Context::new()
        .with("f".to_string(), ty_func(ty_variable("a"), ty_variable("b")))
        .with("x".to_string(), ty_variable("a"));
    let s = single("a", ty_named("Number"));
    let narrowed = ctx.substitute(&s);
    assert_eq!(
        narrowed.lookup(&"f".to_string()),
        Ok(ty_func(ty_named("Number"), ty_variable("b")))
    );
    assert_eq!(narrowed.lookup(&"x".to_string()), Ok(ty_named("Number")));
    assert_eq!(ctx.lookup(&"x".to_string()), Ok(ty_variable("a")));
}

#[test]
fn fresh_variables_are_numbered_in_decimal() {
    let mut ctx = Context::new();
    assert_eq!(ctx.fresh_variable(), ty_variable("t0"));
    assert_eq!(ctx.fresh_variable(), ty_variable("t1"));
    for _ in 2..10 {
        ctx.fresh_variable();
    }
    assert_eq!(ctx.fresh_variable(), ty_variable("t10"));
    for _ in 11..120 {
        ctx.fresh_variable();
    }
    assert_eq!(ctx.fresh_variable(), ty_variable("t120"));
    assert_eq!(ctx.issued(), 121);
}

#[test]
fn derived_scope_hands_its_counter_back() {
    let mut ctx = Context::new();
    ctx.fresh_variable();
    let mut scope = ctx.with("x".to_string(), ty_named("Number"));
    assert_eq!(scope.fresh_variable(), ty_variable("t1"));
    ctx.catch_up(&scope);
    assert_eq!(ctx.fresh_variable(), ty_variable("t2"));
}

#[test]
fn add_assign_composes_newer_onto_older() {
    let mut older = single("a", ty_func(ty_variable("b"), ty_variable("c")));
    older += single("b", ty_named("Number"));
    assert_eq!(bound(&older, "a"), Some(ty_func(ty_named("Number"), ty_variable("c"))));
    assert_eq!(bound(&older, "b"), Some(ty_named("Number")));
}

#[test]
fn compose_order_matters() {
    let mut one = single("a", ty_variable("b"));
    one += single("b", ty_named("Number"));
    let mut other = single("b", ty_named("Number"));
    other += single("a", ty_variable("b"));
    assert_eq!(bound(&one, "a"), Some(ty_named("Number")));
    assert_eq!(bound(&other, "a"), Some(ty_variable("b")));
}

#[test]
fn default_substitution_binds_nothing() {
    let s = Substitutions::default();
    assert!(s.is_empty());
    assert_eq!(s.len(), 0);
    assert_eq!(bound(&s, "a"), None);
}

#[test]
fn cloned_context_keeps_scope_and_counter() {
    let mut ctx = Context::new().with("x".to_string(), ty_named("Number"));
    ctx.fresh_variable();
    let mut copy = ctx.clone();
    assert_eq!(copy.lookup(&"x".to_string()), Ok(ty_named("Number")));
    assert_eq!(copy.issued(), 1);
    assert_eq!(copy.fresh_variable(), ty_variable("t1"));
    assert_eq!(ctx.issued(), 1);
}

#[test]
fn cloned_type_is_equal() {
    let t = ty_func(ty_variable("a"), ty_func(ty_named("Number"), ty_variable("b")));
    assert_eq!(t.clone(), t);
}

#[test]
fn bindings_lists_each_name_once() {
    let mut s = single("a", ty_named("Number"));
    s.insert("b".to_string(), ty_variable("c"));
    s.insert("a".to_string(), ty_named("Bool"));
    let mut all = s.bindings();
    all.sort_by(|x, y| x.0.cmp(&y.0));
    assert_eq!(
        all,
        vec![("a".to_string(), ty_named("Bool")), ("b".to_string(), ty_variable("c"))]
    );
    assert!(Substitutions::new().bindings().is_empty());
}

#[test]
fn unifier_is_idempotent() {
    let x = ty_func(ty_variable("a"), ty_func(ty_variable("b"), ty_variable("a")));
    let y = ty_func(ty_func(ty_variable("c"), ty_named("Number")), ty_variable("d"));
    let s = x.clone().unify(y).unwrap();
    let once = x.apply_subs(&s);
    assert_eq!(once.clone().apply_subs(&s), once);
}

#[test]
fn catch_up_never_moves_the_counter_back() {
    let mut ctx = Context::new();
    ctx.fresh_variable();
    ctx.fresh_variable();
    let stale = Context::new();
    ctx.catch_up(&stale);
    assert_eq!(ctx.issued(), 2);
    assert_eq!(ctx.fresh_variable(), ty_variable("t2"));
}
