use type_infer::builder::{ty_func, ty_named, ty_variable};
use type_infer::data::{Context, Substitutions};
use type_infer::error::InferError;
use type_infer::expr::{CallExpr, Expr, FuncExpr, IfExpr, LetExpr};
use type_infer::ty::Ty;

fn var(name: &str) -> Expr {
    Expr::Variable(name.to_string())
}

fn func(param: &str, body: Expr) -> Expr {
    Expr::Func(Box::new(FuncExpr { param: param.to_string(), body }))
}

fn call(func: Expr, arg: Expr) -> Expr {
    Expr::Call(Box::new(CallExpr { func, arg }))
}

fn cond(condition: Expr, true_branch: Expr, false_branch: Expr) -> Expr {
    Expr::If(Box::new(IfExpr { condition, true_branch, false_branch }))
}

fn bind(name: &str, expr: Expr, body: Expr) -> Expr {
    Expr::Let(Box::new(LetExpr { name: name.to_string(), expr, body }))
}

fn bound(subs: &Substitutions, name: &str) -> Option<Ty> {
    subs.get(&name.to_string()).cloned()
}

#[test]
fn number_literal_is_a_number() {
    let mut ctx = Context::new();
    let (ty, subs) = Expr::Number(5).infer(&mut ctx).unwrap();
    assert_eq!(ty, ty_named("Number"));
    assert!(subs.is_empty());
    assert_eq!(ctx.issued(), 0);
}

#[test]
fn identity_function_maps_a_variable_to_itself() {
    let mut ctx = Context::new();
    let (ty, subs) = func("x", var("x")).infer(&mut ctx).unwrap();
    assert_eq!(ty, ty_func(ty_variable("t0"), ty_variable("t0")));
    assert!(subs.is_empty());
    assert_eq!(ctx.issued(), 1);
}

#[test]
fn identity_applied_to_a_number_is_a_number() {
    let mut ctx = Context::new();
    let (ty, subs) = call(func("x", var("x")), Expr::Number(1)).infer(&mut ctx).unwrap();
    assert_eq!(ty, ty_named("Number"));
    assert_eq!(bound(&subs, "t0"), Some(ty_named("Number")));
    assert_eq!(bound(&subs, "t1"), Some(ty_named("Number")));
    assert_eq!(bound(&subs, "t2"), None);
    assert_eq!(ctx.issued(), 2);
}

#[test]
fn unbound_name_is_reported() {
    let mut ctx = Context::new();
    let err = var("y").infer(&mut ctx).unwrap_err();
    assert_eq!(err, InferError::UnboundVariable("y".to_string()));
}

#[test]
fn numeric_condition_is_a_mismatch() {
    let mut ctx = Context::new();
    let err = cond(Expr::Number(1), Expr::Number(1), Expr::Number(2)).infer(&mut ctx).unwrap_err();
    assert_eq!(err, InferError::TypeMismatch(ty_named("Number"), ty_named("Bool")));
}

#[test]
fn let_bound_name_is_visible_in_nested_function() {
    let mut ctx = Context::new();
    let (ty, _) = bind("x", Expr::Number(1), func("y", var("x"))).infer(&mut ctx).unwrap();
    assert_eq!(ty, ty_func(ty_variable("t0"), ty_named("Number")));
}

#[test]
fn conditional_with_agreeing_branches() {
    let mut ctx = Context::new().with("b".to_string(), ty_named("Bool"));
    let (ty, subs) = cond(var("b"), Expr::Number(1), Expr::Number(2)).infer(&mut ctx).unwrap();
    assert_eq!(ty, ty_named("Number"));
    assert!(subs.is_empty());
}

#[test]
fn conditional_with_disagreeing_branches() {
    let mut ctx = Context::new().with("b".to_string(), ty_named("Bool"));
    let err = cond(var("b"), Expr::Number(1), var("b")).infer(&mut ctx).unwrap_err();
    assert_eq!(err, InferError::TypeMismatch(ty_named("Number"), ty_named("Bool")));
}

#[test]
fn condition_constrains_a_parameter() {
    let mut ctx = Context::new();
    let e = func("c", cond(var("c"), Expr::Number(1), Expr::Number(2)));
    let (ty, subs) = e.infer(&mut ctx).unwrap();
    assert_eq!(ty, ty_func(ty_named("Bool"), ty_named("Number")));
    assert_eq!(bound(&subs, "t0"), Some(ty_named("Bool")));
}

#[test]
fn branches_constrain_a_parameter() {
    let mut ctx = Context::new().with("b".to_string(), ty_named("Bool"));
    let e = func("x", cond(var("b"), var("x"), Expr::Number(2)));
    let (ty, _) = e.infer(&mut ctx).unwrap();
    assert_eq!(ty, ty_func(ty_named("Number"), ty_named("Number")));
}

#[test]
fn calling_a_number_is_a_mismatch() {
    let mut ctx = Context::new();
    let err = call(Expr::Number(1), Expr::Number(2)).infer(&mut ctx).unwrap_err();
    assert_eq!(
        err,
        InferError::TypeMismatch(
            ty_func(ty_named("Number"), ty_variable("t0")),
            ty_named("Number")
        )
    );
}

#[test]
fn self_application_is_an_infinite_type() {
    let mut ctx = Context::new();
    let err = func("x", call(var("x"), var("x"))).infer(&mut ctx).unwrap_err();
    assert_eq!(err, InferError::InfiniteType("t0".to_string()));
}

#[test]
fn sibling_scopes_get_distinct_variables() {
    let mut ctx = Context::new();
    let e = call(func("x", var("x")), func("y", var("y")));
    let (ty, subs) = e.infer(&mut ctx).unwrap();
    let inner = ty_func(ty_variable("t1"), ty_variable("t1"));
    assert_eq!(ty, inner);
    assert_eq!(bound(&subs, "t0"), Some(inner.clone()));
    assert_eq!(bound(&subs, "t2"), Some(inner));
    assert_eq!(ctx.issued(), 3);
}

#[test]
fn inference_leaves_the_scope_as_it_was() {
    let mut ctx = Context::new().with("n".to_string(), ty_named("Number"));
    let _ = bind("m", var("n"), func("n", var("m"))).infer(&mut ctx).unwrap();
    assert_eq!(ctx.lookup(&"n".to_string()), Ok(ty_named("Number")));
    assert_eq!(
        ctx.lookup(&"m".to_string()),
        Err(InferError::UnboundVariable("m".to_string()))
    );
}

#[test]
fn let_is_monomorphic() {
    let mut ctx = Context::new().with("b".to_string(), ty_named("Bool"));
    let e = bind(
        "id",
        func("x", var("x")),
        cond(call(var("id"), var("b")), call(var("id"), Expr::Number(1)), Expr::Number(2)),
    );
    assert!(matches!(e.infer(&mut ctx), Err(InferError::TypeMismatch(_, _))));
}

#[test]
fn cloned_expression_infers_alike() {
    let e = call(func("x", var("x")), Expr::Number(1));
    let copy = e.clone();
    assert_eq!(e, copy);
    let (a, _) = e.infer(&mut Context::new()).unwrap();
    let (b, _) = copy.infer(&mut Context::new()).unwrap();
    assert_eq!(a, b);
}

#[test]
fn count_fresh_counts_functions_and_calls() {
    assert_eq!(Expr::Number(1).count_fresh(), Some(0));
    assert_eq!(var("x").count_fresh(), Some(0));
    assert_eq!(func("x", var("x")).count_fresh(), Some(1));
    assert_eq!(call(func("x", var("x")), func("y", var("y"))).count_fresh(), Some(3));
    let e = bind("f", func("x", var("x")), cond(var("b"), call(var("f"), var("b")), var("b")));
    assert_eq!(e.count_fresh(), Some(2));
}

#[test]
fn checked_inference_agrees_with_inference() {
    let e = call(func("x", var("x")), Expr::Number(1));
    let mut ctx = Context::new();
    let (ty, subs) = e.clone().infer_checked(&mut ctx).unwrap().unwrap();
    assert_eq!(ty, ty_named("Number"));
    assert_eq!(bound(&subs, "t0"), Some(ty_named("Number")));
    assert_eq!(ctx.issued(), 2);
    let mut ctx = Context::new();
    let err = var("y").infer_checked(&mut ctx).unwrap().unwrap_err();
    assert_eq!(err, InferError::UnboundVariable("y".to_string()));
}

#[test]
fn runs_do_not_share_a_counter() {
    let (a, _) = func("x", var("x")).infer(&mut Context::new()).unwrap();
    let (b, _) = func("x", var("x")).infer(&mut Context::default()).unwrap();
    assert_eq!(a, b);
}

#[test]
fn argument_is_typed_under_what_the_function_taught() {
    let mut ctx = Context::new().with("b".to_string(), ty_named("Bool"));
    let e = func(
        "x",
        call(func("u", var("x")), cond(var("x"), Expr::Number(1), Expr::Number(2))),
    );
    let (ty, _) = e.infer(&mut ctx).unwrap();
    assert_eq!(ty, ty_func(ty_named("Bool"), ty_named("Bool")));
}
