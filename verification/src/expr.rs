use vstd::prelude::*;
use vstd::string::*;
use crate::builder::ty_func;
use crate::data::{fresh_name, substituted, Context, Substitutions};
use crate::error::{ErrorView, InferError};
use crate::ty::{apply, compose, func_parts, solution, subs_outcome, Subst, Ty, TyView};

verus! {

/// An expression of the language.
#[derive(Debug, PartialEq)]
pub enum Expr {
    Number(i32),
    Variable(String),
    Func(Box<FuncExpr>),
    Call(Box<CallExpr>),
    If(Box<IfExpr>),
    Let(Box<LetExpr>),
}

/// A function of one parameter.
#[derive(Debug, PartialEq)]
pub struct FuncExpr {
    pub param: String,
    pub body: Expr,
}

/// The application of a function to one argument.
#[derive(Debug, PartialEq)]
pub struct CallExpr {
    pub func: Expr,
    pub arg: Expr,
}

/// A conditional.
#[derive(Debug, PartialEq)]
pub struct IfExpr {
    pub condition: Expr,
    pub true_branch: Expr,
    pub false_branch: Expr,
}

/// A local binding: `name` stands for `expr` inside `body`.
#[derive(Debug, PartialEq)]
pub struct LetExpr {
    pub name: String,
    pub expr: Expr,
    pub body: Expr,
}

impl Clone for Expr {
    fn clone(&self) -> (r: Expr)
        ensures
            r == *self,
        decreases self,
    {
        match self {
            Expr::Number(n) => Expr::Number(*n),
            Expr::Variable(name) => Expr::Variable(name.clone()),
            Expr::Func(f) => Expr::Func(
                Box::new(FuncExpr { param: f.param.clone(), body: f.body.clone() }),
            ),
            Expr::Call(c) => Expr::Call(
                Box::new(CallExpr { func: c.func.clone(), arg: c.arg.clone() }),
            ),
            Expr::If(i) => Expr::If(
                Box::new(
                    IfExpr {
                        condition: i.condition.clone(),
                        true_branch: i.true_branch.clone(),
                        false_branch: i.false_branch.clone(),
                    },
                ),
            ),
            Expr::Let(l) => Expr::Let(
                Box::new(
                    LetExpr { name: l.name.clone(), expr: l.expr.clone(), body: l.body.clone() },
                ),
            ),
        }
    }
}

impl Clone for FuncExpr {
    fn clone(&self) -> (r: FuncExpr)
        ensures
            r == *self,
    {
        FuncExpr { param: self.param.clone(), body: self.body.clone() }
    }
}

impl Clone for CallExpr {
    fn clone(&self) -> (r: CallExpr)
        ensures
            r == *self,
    {
        CallExpr { func: self.func.clone(), arg: self.arg.clone() }
    }
}

impl Clone for IfExpr {
    fn clone(&self) -> (r: IfExpr)
        ensures
            r == *self,
    {
        IfExpr {
            condition: self.condition.clone(),
            true_branch: self.true_branch.clone(),
            false_branch: self.false_branch.clone(),
        }
    }
}

impl Clone for LetExpr {
    fn clone(&self) -> (r: LetExpr)
        ensures
            r == *self,
    {
        LetExpr { name: self.name.clone(), expr: self.expr.clone(), body: self.body.clone() }
    }
}

/// What an inference yields on success: the type, the substitution, and the
/// number of the next fresh variable.
pub type Judgment = Result<(TyView, Subst, nat), ErrorView>;

/// The type of every numeric literal.
pub open spec fn number_type() -> TyView {
    TyView::Named("Number"@)
}

/// The type that a condition must have.
pub open spec fn bool_type() -> TyView {
    TyView::Named("Bool"@)
}

/// The fresh type variable with the given number.
pub open spec fn fresh(n: nat) -> TyView {
    TyView::Variable(fresh_name(n))
}

/// At most how many fresh variables the inference of `e` issues: one for each
/// function and one for each call in it.
pub open spec fn fresh_demand(e: Expr) -> nat
    decreases e,
{
    match e {
        Expr::Number(_) => 0,
        Expr::Variable(_) => 0,
        Expr::Func(f) => 1 + fresh_demand(f.body),
        Expr::Call(c) => 1 + fresh_demand(c.func) + fresh_demand(c.arg),
        Expr::If(i) => fresh_demand(i.condition) + fresh_demand(i.true_branch) + fresh_demand(
            i.false_branch,
        ),
        Expr::Let(l) => fresh_demand(l.expr) + fresh_demand(l.body),
    }
}

/// The type of a call and the substitution it leaves, from the function's type
/// with its substitution, the argument's type with its substitution, and the
/// fresh variable `ret` that stands for the result.
pub open spec fn call_outcome(
    func_ty: TyView,
    func_subs: Subst,
    arg_ty: TyView,
    arg_subs: Subst,
    ret: TyView,
) -> Result<(TyView, Subst), ErrorView> {
    let s = compose(func_subs, arg_subs);
    match solution(TyView::Func(Box::new(arg_ty), Box::new(ret)), apply(func_ty, s)) {
        Err(e) => Err(e),
        Ok(shape) => {
            let s = compose(s, shape);
            match func_parts(apply(func_ty, s)) {
                Err(e) => Err(e),
                Ok(parts) => match solution(apply(parts.0, s), arg_ty) {
                    Err(e) => Err(e),
                    Ok(rest) => {
                        let s = compose(s, rest);
                        Ok((apply(parts.1, s), s))
                    },
                },
            }
        },
    }
}

/// The substitution under which the branches of a conditional are typed: that
/// of the condition, with what makes the condition's type `Bool` composed onto
/// it.
pub open spec fn condition_outcome(cond_ty: TyView, cond_subs: Subst) -> Result<Subst, ErrorView> {
    match solution(cond_ty, bool_type()) {
        Err(e) => Err(e),
        Ok(s) => Ok(compose(cond_subs, s)),
    }
}

/// The type of a conditional and the substitution it leaves, from the
/// substitution gathered so far and the types of the two branches.
pub open spec fn branches_outcome(running: Subst, true_ty: TyView, false_ty: TyView) -> Result<
    (TyView, Subst),
    ErrorView,
> {
    let t = apply(true_ty, running);
    let f = apply(false_ty, running);
    match solution(t, f) {
        Err(e) => Err(e),
        Ok(s) => Ok((apply(t, s), compose(running, s))),
    }
}

/// The judgment: the type of `e` where the names in scope have the types
/// `env` and `next` is the number of the next fresh variable.
pub open spec fn inferred(e: Expr, env: Subst, next: nat) -> Judgment
    decreases e,
{
    match e {
        Expr::Number(_) => Ok((number_type(), Map::empty(), next)),
        Expr::Variable(name) => if env.contains_key(name@) {
            Ok((env[name@], Map::empty(), next))
        } else {
            Err(ErrorView::UnboundVariable(name@))
        },
        Expr::Func(f) => match inferred(f.body, env.insert(f.param@, fresh(next)), next + 1) {
            Err(e) => Err(e),
            Ok(body) => Ok(
                (TyView::Func(Box::new(apply(fresh(next), body.1)), Box::new(body.0)), body.1, body.2),
            ),
        },
        Expr::Call(c) => match inferred(c.func, env, next) {
            Err(e) => Err(e),
            Ok(func) => match inferred(c.arg, substituted(env, func.1), func.2) {
                Err(e) => Err(e),
                Ok(arg) => match call_outcome(func.0, func.1, arg.0, arg.1, fresh(arg.2)) {
                    Err(e) => Err(e),
                    Ok(out) => Ok((out.0, out.1, arg.2 + 1)),
                },
            },
        },
        Expr::If(i) => match inferred(i.condition, env, next) {
            Err(e) => Err(e),
            Ok(cond) => match condition_outcome(cond.0, cond.1) {
                Err(e) => Err(e),
                Ok(s) => match inferred(i.true_branch, substituted(env, s), cond.2) {
                    Err(e) => Err(e),
                    Ok(yes) => match inferred(
                        i.false_branch,
                        substituted(substituted(env, s), yes.1),
                        yes.2,
                    ) {
                        Err(e) => Err(e),
                        Ok(no) => match branches_outcome(
                            compose(compose(s, yes.1), no.1),
                            yes.0,
                            no.0,
                        ) {
                            Err(e) => Err(e),
                            Ok(out) => Ok((out.0, out.1, no.2)),
                        },
                    },
                },
            },
        },
        Expr::Let(l) => match inferred(l.expr, env, next) {
            Err(e) => Err(e),
            Ok(bound) => match inferred(
                l.body,
                substituted(env, bound.1).insert(l.name@, bound.0),
                bound.2,
            ) {
                Err(e) => Err(e),
                Ok(body) => Ok((body.0, compose(bound.1, body.1), body.2)),
            },
        },
    }
}

/// The value of a type paired with a substitution, or of the error.
pub open spec fn typed_outcome(r: Result<(Ty, Substitutions), InferError>) -> Result<
    (TyView, Subst),
    ErrorView,
> {
    match r {
        Ok(p) => Ok((p.0@, p.1@)),
        Err(e) => Err(e@),
    }
}

/// Whether `r`, with the counter left at `counter`, is what the judgment `j`
/// says. After a failure the counter is not held to anything.
pub open spec fn agrees(r: Result<(Ty, Substitutions), InferError>, counter: nat, j: Judgment) -> bool {
    match (r, j) {
        (Ok(p), Ok(q)) => p.0@ == q.0 && p.1@ == q.1 && counter == q.2,
        (Err(e), Err(f)) => e@ == f,
        _ => false,
    }
}

/// Types a call from its parts: see [`call_outcome`].
pub fn finish_call(
    func_ty: Ty,
    func_subs: Substitutions,
    arg_ty: Ty,
    arg_subs: Substitutions,
    ret: Ty,
) -> (r: Result<(Ty, Substitutions), InferError>)
    ensures
        typed_outcome(r) == call_outcome(func_ty@, func_subs@, arg_ty@, arg_subs@, ret@),
{
    let mut subs = func_subs;
    subs.compose(&arg_subs);
    let seen = func_ty.clone().apply_subs(&subs);
    let shape = match ty_func(arg_ty.clone(), ret).unify(seen) {
        Ok(s) => s,
        Err(e) => {
            return Err(e);
        },
    };
    subs.compose(&shape);
    let (from, to) = match func_ty.apply_subs(&subs).try_into_func() {
        Ok(parts) => parts,
        Err(e) => {
            return Err(e);
        },
    };
    let rest = match from.apply_subs(&subs).unify(arg_ty) {
        Ok(s) => s,
        Err(e) => {
            return Err(e);
        },
    };
    subs.compose(&rest);
    Ok((to.apply_subs(&subs), subs))
}

/// Requires the condition's type to be `Bool`: see [`condition_outcome`].
pub fn finish_condition(cond_ty: Ty, cond_subs: Substitutions) -> (r: Result<
    Substitutions,
    InferError,
>)
    ensures
        subs_outcome(r) == condition_outcome(cond_ty@, cond_subs@),
{
    let mut subs = cond_subs;
    match cond_ty.unify(Ty::Named(String::from_str("Bool"))) {
        Ok(s) => {
            subs.compose(&s);
            Ok(subs)
        },
        Err(e) => Err(e),
    }
}

/// Makes the two branches of a conditional agree: see [`branches_outcome`].
pub fn finish_branches(running: Substitutions, true_ty: Ty, false_ty: Ty) -> (r: Result<
    (Ty, Substitutions),
    InferError,
>)
    ensures
        typed_outcome(r) == branches_outcome(running@, true_ty@, false_ty@),
{
    let mut subs = running;
    let t = true_ty.apply_subs(&subs);
    let f = false_ty.apply_subs(&subs);
    match t.clone().unify(f) {
        Ok(s) => {
            subs.compose(&s);
            Ok((t.apply_subs(&s), subs))
        },
        Err(e) => Err(e),
    }
}

/// The sum of two counts, where both are known and the sum fits.
fn add_counts(a: Option<u64>, b: Option<u64>) -> (r: Option<u64>)
    ensures
        r == (match (a, b) {
            (Some(x), Some(y)) => if x + y <= u64::MAX {
                Some((x + y) as u64)
            } else {
                None
            },
            _ => None,
        }),
{
    match (a, b) {
        (Some(x), Some(y)) => if x <= u64::MAX - y {
            Some(x + y)
        } else {
            None
        },
        _ => None,
    }
}

impl Expr {
    /// At most how many fresh variables the inference of the expression
    /// issues, or `None` where that number does not fit the counter's type.
    pub fn count_fresh(&self) -> (r: Option<u64>)
        ensures
            match r {
                Some(n) => n == fresh_demand(*self),
                None => fresh_demand(*self) > u64::MAX,
            },
        decreases self,
    {
        match self {
            Expr::Number(_) => Some(0),
            Expr::Variable(_) => Some(0),
            Expr::Func(f) => add_counts(Some(1), f.body.count_fresh()),
            Expr::Call(c) => add_counts(
                Some(1),
                add_counts(c.func.count_fresh(), c.arg.count_fresh()),
            ),
            Expr::If(i) => add_counts(
                add_counts(i.condition.count_fresh(), i.true_branch.count_fresh()),
                i.false_branch.count_fresh(),
            ),
            Expr::Let(l) => add_counts(l.expr.count_fresh(), l.body.count_fresh()),
        }
    }

    /// Infers the type of the expression in `ctx` where the counter can number
    /// every variable that the inference may issue; else returns `None` and
    /// leaves `ctx` as it is.
    pub fn infer_checked(self, ctx: &mut Context) -> (r: Option<
        Result<(Ty, Substitutions), InferError>,
    >)
        ensures
            r is Some <==> old(ctx).counter() + fresh_demand(self) <= u64::MAX,
            final(ctx).bindings() == old(ctx).bindings(),
            match r {
                Some(res) => old(ctx).counter() <= final(ctx).counter() <= old(ctx).counter()
                    + fresh_demand(self) && agrees(
                    res,
                    final(ctx).counter(),
                    inferred(self, old(ctx).bindings(), old(ctx).counter()),
                ),
                None => final(ctx).counter() == old(ctx).counter(),
            },
    {
        match self.count_fresh() {
            Some(n) => if n <= u64::MAX - ctx.issued() {
                Some(self.infer(ctx))
            } else {
                None
            },
            None => None,
        }
    }

    /// Infers the type of the expression in `ctx`. The names in scope stay as
    /// they are; the counter moves past every variable that was issued.
    pub fn infer(self, ctx: &mut Context) -> (r: Result<(Ty, Substitutions), InferError>)
        requires
            old(ctx).counter() + fresh_demand(self) <= u64::MAX,
        ensures
            final(ctx).bindings() == old(ctx).bindings(),
            old(ctx).counter() <= final(ctx).counter() <= old(ctx).counter() + fresh_demand(self),
            agrees(r, final(ctx).counter(), inferred(self, old(ctx).bindings(), old(ctx).counter())),
        decreases self,
    {
        match self {
            Expr::Number(_) => Ok((Ty::Named(String::from_str("Number")), Substitutions::new())),
            Expr::Variable(name) => match ctx.lookup(&name) {
                Ok(t) => Ok((t, Substitutions::new())),
                Err(e) => Err(e),
            },
            Expr::Func(it) => (*it).infer(ctx),
            Expr::Call(it) => (*it).infer(ctx),
            Expr::If(it) => (*it).infer(ctx),
            Expr::Let(it) => (*it).infer(ctx),
        }
    }
}

impl FuncExpr {
    /// Infers the type of the function: an arrow from a fresh variable, as the
    /// body constrained it, to the body's type.
    pub fn infer(self, ctx: &mut Context) -> (r: Result<(Ty, Substitutions), InferError>)
        requires
            old(ctx).counter() + fresh_demand(Expr::Func(Box::new(self))) <= u64::MAX,
        ensures
            final(ctx).bindings() == old(ctx).bindings(),
            old(ctx).counter() <= final(ctx).counter() <= old(ctx).counter() + fresh_demand(
                Expr::Func(Box::new(self)),
            ),
            agrees(
                r,
                final(ctx).counter(),
                inferred(Expr::Func(Box::new(self)), old(ctx).bindings(), old(ctx).counter()),
            ),
        decreases self,
    {
        let FuncExpr { param, body } = self;
        let param_ty = ctx.fresh_variable();
        let mut scope = ctx.with(param, param_ty.clone());
        let typed = body.infer(&mut scope);
        ctx.catch_up(&scope);
        match typed {
            Ok((body_ty, subs)) => {
                let param_ty = param_ty.apply_subs(&subs);
                Ok((ty_func(param_ty, body_ty), subs))
            },
            Err(e) => Err(e),
        }
    }
}

impl CallExpr {
    /// Infers the type of the call: the function, then the argument under what
    /// the function taught, then the result by unification.
    pub fn infer(self, ctx: &mut Context) -> (r: Result<(Ty, Substitutions), InferError>)
        requires
            old(ctx).counter() + fresh_demand(Expr::Call(Box::new(self))) <= u64::MAX,
        ensures
            final(ctx).bindings() == old(ctx).bindings(),
            old(ctx).counter() <= final(ctx).counter() <= old(ctx).counter() + fresh_demand(
                Expr::Call(Box::new(self)),
            ),
            agrees(
                r,
                final(ctx).counter(),
                inferred(Expr::Call(Box::new(self)), old(ctx).bindings(), old(ctx).counter()),
            ),
        decreases self,
    {
        let CallExpr { func, arg } = self;
        let (func_ty, func_subs) = match func.infer(ctx) {
            Ok(p) => p,
            Err(e) => {
                return Err(e);
            },
        };
        let mut scope = ctx.substitute(&func_subs);
        let typed = arg.infer(&mut scope);
        ctx.catch_up(&scope);
        let (arg_ty, arg_subs) = match typed {
            Ok(p) => p,
            Err(e) => {
                return Err(e);
            },
        };
        let ret = ctx.fresh_variable();
        finish_call(func_ty, func_subs, arg_ty, arg_subs, ret)
    }
}

impl IfExpr {
    /// Infers the type of the conditional: the condition must be `Bool`, and
    /// the two branches, each typed under what came before it, must agree.
    pub fn infer(self, ctx: &mut Context) -> (r: Result<(Ty, Substitutions), InferError>)
        requires
            old(ctx).counter() + fresh_demand(Expr::If(Box::new(self))) <= u64::MAX,
        ensures
            final(ctx).bindings() == old(ctx).bindings(),
            old(ctx).counter() <= final(ctx).counter() <= old(ctx).counter() + fresh_demand(
                Expr::If(Box::new(self)),
            ),
            agrees(
                r,
                final(ctx).counter(),
                inferred(Expr::If(Box::new(self)), old(ctx).bindings(), old(ctx).counter()),
            ),
        decreases self,
    {
        let IfExpr { condition, true_branch, false_branch } = self;
        let (cond_ty, cond_subs) = match condition.infer(ctx) {
            Ok(p) => p,
            Err(e) => {
                return Err(e);
            },
        };
        let mut subs = match finish_condition(cond_ty, cond_subs) {
            Ok(s) => s,
            Err(e) => {
                return Err(e);
            },
        };
        let mut scope = ctx.substitute(&subs);
        let typed = true_branch.infer(&mut scope);
        ctx.catch_up(&scope);
        let (true_ty, true_subs) = match typed {
            Ok(p) => p,
            Err(e) => {
                return Err(e);
            },
        };
        subs.compose(&true_subs);
        let mut scope = scope.substitute(&true_subs);
        let typed = false_branch.infer(&mut scope);
        ctx.catch_up(&scope);
        let (false_ty, false_subs) = match typed {
            Ok(p) => p,
            Err(e) => {
                return Err(e);
            },
        };
        subs.compose(&false_subs);
        finish_branches(subs, true_ty, false_ty)
    }
}

impl LetExpr {
    /// Infers the type of the binding's body, with the name bound to the one
    /// type that its expression has.
    pub fn infer(self, ctx: &mut Context) -> (r: Result<(Ty, Substitutions), InferError>)
        requires
            old(ctx).counter() + fresh_demand(Expr::Let(Box::new(self))) <= u64::MAX,
        ensures
            final(ctx).bindings() == old(ctx).bindings(),
            old(ctx).counter() <= final(ctx).counter() <= old(ctx).counter() + fresh_demand(
                Expr::Let(Box::new(self)),
            ),
            agrees(
                r,
                final(ctx).counter(),
                inferred(Expr::Let(Box::new(self)), old(ctx).bindings(), old(ctx).counter()),
            ),
        decreases self,
    {
        let LetExpr { name, expr, body } = self;
        let (bound_ty, mut subs) = match expr.infer(ctx) {
            Ok(p) => p,
            Err(e) => {
                return Err(e);
            },
        };
        let mut scope = ctx.substitute(&subs).with(name, bound_ty);
        let typed = body.infer(&mut scope);
        ctx.catch_up(&scope);
        match typed {
            Ok((body_ty, body_subs)) => {
                subs.compose(&body_subs);
                Ok((body_ty, subs))
            },
            Err(e) => Err(e),
        }
    }
}

} // verus!
