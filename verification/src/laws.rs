use vstd::prelude::*;
use vstd::set_lib::lemma_len_subset;
use crate::data::{decimal, digit_char, fresh_name};
use crate::expr::call_outcome;
use crate::error::ErrorView;
use crate::ty::{apply, bind, compose, enough_depth, occurs, solution, unified, Subst, TyView};

verus! {

/// The names of the variables that occur in `t`.
pub open spec fn variables(t: TyView) -> Set<Seq<char>>
    decreases t,
{
    match t {
        TyView::Named(_) => Set::empty(),
        TyView::Variable(n) => Set::empty().insert(n),
        TyView::Func(a, b) => variables(*a).union(variables(*b)),
    }
}

/// The number of nodes of `t`.
pub open spec fn size(t: TyView) -> nat
    decreases t,
{
    match t {
        TyView::Func(a, b) => 1 + size(*a) + size(*b),
        _ => 1,
    }
}

proof fn lemma_variables(t: TyView)
    ensures
        variables(t).finite(),
        forall|n: Seq<char>| #[trigger] variables(t).contains(n) <==> occurs(n, t),
    decreases t,
{
    broadcast use vstd::set::group_set_axioms;

    match t {
        TyView::Func(a, b) => {
            lemma_variables(*a);
            lemma_variables(*b);
        },
        _ => {},
    }
}

/// The empty substitution rewrites nothing.
pub proof fn lemma_apply_nothing(t: TyView)
    ensures
        apply(t, Map::empty()) == t,
    decreases t,
{
    match t {
        TyView::Func(a, b) => {
            lemma_apply_nothing(*a);
            lemma_apply_nothing(*b);
        },
        _ => {},
    }
}

/// Binding a variable to a type in which it does not occur gives exactly
/// that one binding.
pub proof fn lemma_bind_absent(v: Seq<char>, t: TyView)
    requires
        !occurs(v, t),
    ensures
        bind(v, t) == Ok::<Subst, ErrorView>(Map::empty().insert(v, t)),
{
}

/// Binding a variable to a type in which it occurs fails with `InfiniteType`,
/// unless the type is that very variable, which binds nothing.
pub proof fn lemma_bind_occurs(v: Seq<char>, t: TyView)
    requires
        occurs(v, t),
    ensures
        t == TyView::Variable(v) ==> bind(v, t) == Ok::<Subst, ErrorView>(Map::empty()),
        t != TyView::Variable(v) ==> bind(v, t) == Err::<Subst, ErrorView>(
            ErrorView::InfiniteType(v),
        ),
{
}

/// A substitution leaves a type as it is where it binds none of the variables
/// that occur in the type.
pub proof fn lemma_apply_unbound(t: TyView, s: Subst)
    requires
        forall|n: Seq<char>| occurs(n, t) ==> !s.contains_key(n),
    ensures
        apply(t, s) == t,
    decreases t,
{
    match t {
        TyView::Named(_) => {},
        TyView::Variable(n) => {
            assert(occurs(n, t));
        },
        TyView::Func(a, b) => {
            assert forall|n: Seq<char>| occurs(n, *a) implies !s.contains_key(n) by {
                assert(occurs(n, t));
            }
            assert forall|n: Seq<char>| occurs(n, *b) implies !s.contains_key(n) by {
                assert(occurs(n, t));
            }
            lemma_apply_unbound(*a, s);
            lemma_apply_unbound(*b, s);
        },
    }
}

/// Whether `s` is a solved form over the variables of `x` and `y`: it binds
/// only variables that occur in them, to types over variables that occur in
/// them and that it does not bind.
pub open spec fn solved_form(s: Subst, x: TyView, y: TyView) -> bool {
    &&& forall|k: Seq<char>| #[trigger] s.contains_key(k) ==> occurs(k, x) || occurs(k, y)
    &&& forall|k: Seq<char>, n: Seq<char>|
        s.contains_key(k) && #[trigger] occurs(n, s[k]) ==> !s.contains_key(n) && (occurs(n, x)
            || occurs(n, y))
}

proof fn lemma_apply_vars(t: TyView, s: Subst, x: TyView, y: TyView)
    requires
        solved_form(s, x, y),
    ensures
        forall|n: Seq<char>| #[trigger]
            occurs(n, apply(t, s)) ==> !s.contains_key(n) && (occurs(n, t) || occurs(n, x)
                || occurs(n, y)),
    decreases t,
{
    match t {
        TyView::Func(a, b) => {
            lemma_apply_vars(*a, s, x, y);
            lemma_apply_vars(*b, s, x, y);
            assert forall|n: Seq<char>| #[trigger] occurs(n, apply(t, s)) implies !s.contains_key(
                n,
            ) && (occurs(n, t) || occurs(n, x) || occurs(n, y)) by {
                assert(occurs(n, apply(*a, s)) || occurs(n, apply(*b, s)));
            }
        },
        _ => {},
    }
}

/// A solved form is idempotent: rewriting by it a second time changes
/// nothing.
pub proof fn lemma_solved_form_idempotent(t: TyView, s: Subst, x: TyView, y: TyView)
    requires
        solved_form(s, x, y),
    ensures
        apply(apply(t, s), s) == apply(t, s),
{
    lemma_apply_vars(t, s, x, y);
    lemma_apply_unbound(apply(t, s), s);
}

/// Where two substitutions bind no name in common, rewriting by their
/// composition is rewriting by the older and then by the newer.
pub proof fn lemma_apply_compose(t: TyView, s1: Subst, s2: Subst)
    requires
        forall|k: Seq<char>| s1.contains_key(k) ==> !s2.contains_key(k),
    ensures
        apply(t, compose(s1, s2)) == apply(apply(t, s1), s2),
    decreases t,
{
    match t {
        TyView::Func(a, b) => {
            lemma_apply_compose(*a, s1, s2);
            lemma_apply_compose(*b, s1, s2);
        },
        _ => {},
    }
}

proof fn lemma_bind_solves(v: Seq<char>, t: TyView)
    requires
        bind(v, t) is Ok,
    ensures
        solved_form(bind(v, t)->Ok_0, TyView::Variable(v), t),
        apply(TyView::Variable(v), bind(v, t)->Ok_0) == apply(t, bind(v, t)->Ok_0),
{
    let s = bind(v, t)->Ok_0;
    lemma_apply_nothing(t);
    if t != TyView::Variable(v) {
        lemma_apply_unbound(t, s);
    }
}

proof fn lemma_unified_solves(x: TyView, y: TyView, depth: nat)
    requires
        unified(x, y, depth) matches Some(Ok(_)),
    ensures
        solved_form(unified(x, y, depth)->Some_0->Ok_0, x, y),
        apply(x, unified(x, y, depth)->Some_0->Ok_0) == apply(
            y,
            unified(x, y, depth)->Some_0->Ok_0,
        ),
    decreases depth,
{
    let s = unified(x, y, depth)->Some_0->Ok_0;
    match (x, y) {
        (TyView::Variable(v), _) => {
            lemma_bind_solves(v, y);
        },
        (_, TyView::Variable(w)) => {
            lemma_bind_solves(w, x);
        },
        (TyView::Named(_), TyView::Named(_)) => {},
        (TyView::Func(x1, x2), TyView::Func(y1, y2)) => {
            let d = (depth - 1) as nat;
            let s1 = unified(*x1, *y1, d)->Some_0->Ok_0;
            lemma_unified_solves(*x1, *y1, d);
            let xs = apply(*x2, s1);
            let ys = apply(*y2, s1);
            let s2 = unified(xs, ys, d)->Some_0->Ok_0;
            lemma_unified_solves(xs, ys, d);
            assert(s == compose(s1, s2));
            lemma_apply_vars(*x2, s1, *x1, *y1);
            lemma_apply_vars(*y2, s1, *x1, *y1);
            assert forall|k: Seq<char>| s1.contains_key(k) implies !s2.contains_key(k) by {
                if s2.contains_key(k) {
                    assert(occurs(k, xs) || occurs(k, ys));
                }
            }
            lemma_apply_compose(*x1, s1, s2);
            lemma_apply_compose(*y1, s1, s2);
            lemma_apply_compose(*x2, s1, s2);
            lemma_apply_compose(*y2, s1, s2);
            assert forall|k: Seq<char>| #[trigger] s.contains_key(k) implies occurs(k, x)
                || occurs(k, y) by {
                if s2.contains_key(k) {
                    assert(occurs(k, xs) || occurs(k, ys));
                }
            }
            assert forall|k: Seq<char>, n: Seq<char>|
                s.contains_key(k) && #[trigger] occurs(n, s[k]) implies !s.contains_key(n) && (
                occurs(n, x) || occurs(n, y)) by {
                if s2.contains_key(k) {
                    assert(occurs(n, s2[k]));
                    assert(occurs(n, xs) || occurs(n, ys));
                } else {
                    lemma_apply_vars(s1[k], s2, xs, ys);
                    assert(occurs(n, apply(s1[k], s2)));
                    if occurs(n, s1[k]) {
                    } else {
                        assert(occurs(n, xs) || occurs(n, ys));
                    }
                }
            }
        },
        _ => {},
    }
}

/// A depth that is enough stays enough, with the same outcome.
pub proof fn lemma_unified_deeper(x: TyView, y: TyView, depth: nat, deeper: nat)
    requires
        depth <= deeper,
        unified(x, y, depth) is Some,
    ensures
        unified(x, y, deeper) == unified(x, y, depth),
    decreases depth,
{
    match (x, y) {
        (TyView::Func(x1, x2), TyView::Func(y1, y2)) => {
            let d = (depth - 1) as nat;
            let e = (deeper - 1) as nat;
            lemma_unified_deeper(*x1, *y1, d, e);
            if let Some(Ok(s1)) = unified(*x1, *y1, d) {
                lemma_unified_deeper(apply(*x2, s1), apply(*y2, s1), d, e);
            }
        },
        _ => {},
    }
}

/// Unification ends: for every two types some depth is enough.
pub proof fn lemma_unify_total(x: TyView, y: TyView)
    ensures
        unified(x, y, enough_depth(x, y)) is Some,
    decreases variables(x).union(variables(y)).len(), size(x) + size(y),
{
    broadcast use vstd::set::group_set_axioms;

    match (x, y) {
        (TyView::Func(x1, x2), TyView::Func(y1, y2)) => {
            let all = variables(x).union(variables(y));
            lemma_variables(x);
            lemma_variables(y);
            lemma_variables(*x1);
            lemma_variables(*y1);
            lemma_variables(*x2);
            lemma_variables(*y2);
            lemma_len_subset(variables(*x1).union(variables(*y1)), all);
            lemma_unify_total(*x1, *y1);
            let d1 = enough_depth(*x1, *y1);
            match unified(*x1, *y1, d1)->Some_0 {
                Err(e) => {
                    assert(unified(x, y, d1 + 1) is Some);
                },
                Ok(s1) => {
                    lemma_unified_solves(*x1, *y1, d1);
                    let xs = apply(*x2, s1);
                    let ys = apply(*y2, s1);
                    lemma_apply_vars(*x2, s1, *x1, *y1);
                    lemma_apply_vars(*y2, s1, *x1, *y1);
                    lemma_variables(xs);
                    lemma_variables(ys);
                    let rest = variables(xs).union(variables(ys));
                    if exists|k: Seq<char>| s1.contains_key(k) {
                        let k = choose|k: Seq<char>| s1.contains_key(k);
                        assert(all.contains(k));
                        assert(!rest.contains(k));
                        assert(rest.subset_of(all.remove(k)));
                        lemma_len_subset(rest, all.remove(k));
                    } else {
                        lemma_apply_unbound(*x2, s1);
                        lemma_apply_unbound(*y2, s1);
                        lemma_len_subset(rest, all);
                    }
                    lemma_unify_total(xs, ys);
                    let d2 = enough_depth(xs, ys);
                    let d = if d1 <= d2 {
                        d2
                    } else {
                        d1
                    };
                    lemma_unified_deeper(*x1, *y1, d1, d);
                    lemma_unified_deeper(xs, ys, d2, d);
                    assert(unified(x, y, d + 1) is Some);
                },
            }
        },
        _ => {
            assert(unified(x, y, 0) is Some);
        },
    }
}

/// The outcome of unification is the outcome at any depth that is enough.
pub proof fn lemma_solution_at(x: TyView, y: TyView, depth: nat)
    requires
        unified(x, y, depth) is Some,
    ensures
        unified(x, y, depth) == Some(solution(x, y)),
{
    let e = enough_depth(x, y);
    if depth <= e {
        lemma_unified_deeper(x, y, depth, e);
    } else {
        lemma_unified_deeper(x, y, e, depth);
    }
}

/// Unifying a nominal type with itself binds nothing.
pub proof fn lemma_unify_same_named(a: Seq<char>)
    ensures
        solution(TyView::Named(a), TyView::Named(a)) == Ok::<Subst, ErrorView>(Map::empty()),
{
    lemma_solution_at(TyView::Named(a), TyView::Named(a), 0);
}

/// Where at most one of two types is an arrow, the outcome is read off their
/// shapes: a variable on the left is bound to the right side; else a variable
/// on the right is bound to the left side; two nominal types agree exactly
/// where their tags do; every other pair is a mismatch.
pub proof fn lemma_unify_flat(x: TyView, y: TyView)
    requires
        !(x is Func && y is Func),
    ensures
        solution(x, y) == (match (x, y) {
            (TyView::Variable(v), _) => bind(v, y),
            (_, TyView::Variable(w)) => bind(w, x),
            (TyView::Named(a), TyView::Named(b)) => if a == b {
                Ok(Map::empty())
            } else {
                Err(ErrorView::TypeMismatch(x, y))
            },
            _ => Err(ErrorView::TypeMismatch(x, y)),
        }),
{
    lemma_solution_at(x, y, 0);
}

/// Two arrows are unified from side first: the outcome for the two from sides
/// rewrites both to sides, the outcome for those is composed onto it, and the
/// first failure is the failure of the whole.
pub proof fn lemma_unify_arrows(x1: TyView, x2: TyView, y1: TyView, y2: TyView)
    ensures
        solution(
            TyView::Func(Box::new(x1), Box::new(x2)),
            TyView::Func(Box::new(y1), Box::new(y2)),
        ) == (match solution(x1, y1) {
            Err(e) => Err(e),
            Ok(s1) => match solution(apply(x2, s1), apply(y2, s1)) {
                Err(e) => Err(e),
                Ok(s2) => Ok(compose(s1, s2)),
            },
        }),
{
    let x = TyView::Func(Box::new(x1), Box::new(x2));
    let y = TyView::Func(Box::new(y1), Box::new(y2));
    lemma_unify_total(x, y);
    let d = enough_depth(x, y);
    let rest = (d - 1) as nat;
    lemma_solution_at(x1, y1, rest);
    if let Ok(s1) = solution(x1, y1) {
        lemma_solution_at(apply(x2, s1), apply(y2, s1), rest);
    }
}

/// Whatever unification returns solves the two types: it rewrites both to one
/// and the same type, and it is a solved form over their variables. This holds
/// in either order of the two types.
pub proof fn lemma_unify_solves(x: TyView, y: TyView)
    requires
        solution(x, y) is Ok,
    ensures
        solved_form(solution(x, y)->Ok_0, x, y),
        apply(x, solution(x, y)->Ok_0) == apply(y, solution(x, y)->Ok_0),
{
    lemma_unify_total(x, y);
    lemma_unified_solves(x, y, enough_depth(x, y));
}

/// Whether `sigma` rewrites `x` and `y` to one and the same type.
pub open spec fn unifies(sigma: Subst, x: TyView, y: TyView) -> bool {
    apply(x, sigma) == apply(y, sigma)
}

/// Whether rewriting by `s` first changes nothing of what `sigma` makes of a
/// type: `s` is at least as general as `sigma`.
pub open spec fn refines(sigma: Subst, s: Subst) -> bool {
    forall|t: TyView| #[trigger] apply(apply(t, s), sigma) == apply(t, sigma)
}

proof fn lemma_size_occurs(v: Seq<char>, t: TyView, sigma: Subst)
    requires
        occurs(v, t),
    ensures
        size(apply(t, sigma)) >= size(apply(TyView::Variable(v), sigma)),
        t is Func ==> size(apply(t, sigma)) > size(apply(TyView::Variable(v), sigma)),
    decreases t,
{
    match t {
        TyView::Func(a, b) => {
            if occurs(v, *a) {
                lemma_size_occurs(v, *a, sigma);
            } else {
                lemma_size_occurs(v, *b, sigma);
            }
        },
        _ => {},
    }
}

proof fn lemma_refines_single(u: TyView, v: Seq<char>, t: TyView, sigma: Subst)
    requires
        apply(TyView::Variable(v), sigma) == apply(t, sigma),
    ensures
        apply(apply(u, Map::empty().insert(v, t)), sigma) == apply(u, sigma),
    decreases u,
{
    match u {
        TyView::Func(a, b) => {
            lemma_refines_single(*a, v, t, sigma);
            lemma_refines_single(*b, v, t, sigma);
        },
        _ => {},
    }
}

proof fn lemma_bind_complete(v: Seq<char>, t: TyView, sigma: Subst)
    requires
        unifies(sigma, TyView::Variable(v), t),
    ensures
        bind(v, t) is Ok,
        refines(sigma, bind(v, t)->Ok_0),
{
    if t == TyView::Variable(v) {
        assert forall|u: TyView| #[trigger]
            apply(apply(u, Map::<Seq<char>, TyView>::empty()), sigma) == apply(u, sigma) by {
            lemma_apply_nothing(u);
        }
    } else if occurs(v, t) {
        lemma_size_occurs(v, t, sigma);
    } else {
        assert forall|u: TyView| #[trigger]
            apply(apply(u, Map::empty().insert(v, t)), sigma) == apply(u, sigma) by {
            lemma_refines_single(u, v, t, sigma);
        }
    }
}

proof fn lemma_unified_complete(x: TyView, y: TyView, depth: nat, sigma: Subst)
    requires
        unified(x, y, depth) is Some,
        unifies(sigma, x, y),
    ensures
        unified(x, y, depth) matches Some(Ok(s)) && refines(sigma, s),
    decreases depth,
{
    match (x, y) {
        (TyView::Variable(v), _) => {
            lemma_bind_complete(v, y, sigma);
        },
        (_, TyView::Variable(w)) => {
            lemma_bind_complete(w, x, sigma);
        },
        (TyView::Named(_), TyView::Named(_)) => {
            assert forall|u: TyView| #[trigger]
                apply(apply(u, Map::<Seq<char>, TyView>::empty()), sigma) == apply(u, sigma) by {
                lemma_apply_nothing(u);
            }
        },
        (TyView::Func(x1, x2), TyView::Func(y1, y2)) => {
            let d = (depth - 1) as nat;
            assert(apply(*x1, sigma) == apply(*y1, sigma));
            assert(apply(*x2, sigma) == apply(*y2, sigma));
            lemma_unified_complete(*x1, *y1, d, sigma);
            let s1 = unified(*x1, *y1, d)->Some_0->Ok_0;
            let xs = apply(*x2, s1);
            let ys = apply(*y2, s1);
            assert(apply(xs, sigma) == apply(*x2, sigma));
            assert(apply(ys, sigma) == apply(*y2, sigma));
            lemma_unified_complete(xs, ys, d, sigma);
            let s2 = unified(xs, ys, d)->Some_0->Ok_0;
            lemma_unified_solves(*x1, *y1, d);
            lemma_unified_solves(xs, ys, d);
            lemma_apply_vars(*x2, s1, *x1, *y1);
            lemma_apply_vars(*y2, s1, *x1, *y1);
            assert forall|k: Seq<char>| s1.contains_key(k) implies !s2.contains_key(k) by {
                if s2.contains_key(k) {
                    assert(occurs(k, xs) || occurs(k, ys));
                }
            }
            assert forall|u: TyView| #[trigger]
                apply(apply(u, compose(s1, s2)), sigma) == apply(u, sigma) by {
                lemma_apply_compose(u, s1, s2);
                assert(apply(apply(apply(u, s1), s2), sigma) == apply(apply(u, s1), sigma));
                assert(apply(apply(u, s1), sigma) == apply(u, sigma));
            }
        },
        _ => {},
    }
}

/// Unification finds a substitution wherever one exists: where some `sigma`
/// rewrites the two types to one and the same type, the outcome is a
/// substitution, and one at least as general as `sigma`.
pub proof fn lemma_unify_complete(x: TyView, y: TyView, sigma: Subst)
    requires
        unifies(sigma, x, y),
    ensures
        solution(x, y) is Ok,
        refines(sigma, solution(x, y)->Ok_0),
{
    lemma_unify_total(x, y);
    lemma_unified_complete(x, y, enough_depth(x, y), sigma);
}

/// Unifying two types in either order succeeds or fails alike.
pub proof fn lemma_unify_order(x: TyView, y: TyView)
    ensures
        solution(x, y) is Ok <==> solution(y, x) is Ok,
{
    if solution(x, y) is Ok {
        lemma_unify_solves(x, y);
        lemma_unify_complete(y, x, solution(x, y)->Ok_0);
    }
    if solution(y, x) is Ok {
        lemma_unify_solves(y, x);
        lemma_unify_complete(x, y, solution(y, x)->Ok_0);
    }
}

proof fn lemma_unified_failures(x: TyView, y: TyView, depth: nat)
    requires
        unified(x, y, depth) matches Some(Err(_)),
    ensures
        unified(x, y, depth)->Some_0->Err_0 is TypeMismatch || unified(
            x,
            y,
            depth,
        )->Some_0->Err_0 is InfiniteType,
    decreases depth,
{
    match (x, y) {
        (TyView::Func(x1, x2), TyView::Func(y1, y2)) => {
            let d = (depth - 1) as nat;
            match unified(*x1, *y1, d)->Some_0 {
                Err(_) => {
                    lemma_unified_failures(*x1, *y1, d);
                },
                Ok(s1) => {
                    lemma_unified_failures(apply(*x2, s1), apply(*y2, s1), d);
                },
            }
        },
        _ => {},
    }
}

/// Unification fails with `TypeMismatch` or `InfiniteType` and nothing else.
pub proof fn lemma_unify_failures(x: TyView, y: TyView)
    requires
        solution(x, y) is Err,
    ensures
        solution(x, y)->Err_0 is TypeMismatch || solution(x, y)->Err_0 is InfiniteType,
{
    lemma_unify_total(x, y);
    lemma_unified_failures(x, y, enough_depth(x, y));
}

/// A call does not fail with `NotAFunction` where the substitution gathered
/// from the function and the argument is settled: where it binds none of the
/// variables of the function's type as it has rewritten it, of the
/// argument's type, or of the result variable.
pub proof fn lemma_call_finds_arrow(
    func_ty: TyView,
    func_subs: Subst,
    arg_ty: TyView,
    arg_subs: Subst,
    ret: TyView,
)
    requires
        forall|n: Seq<char>| #[trigger]
            compose(func_subs, arg_subs).contains_key(n) ==> !occurs(
                n,
                apply(func_ty, compose(func_subs, arg_subs)),
            ) && !occurs(n, arg_ty) && !occurs(n, ret),
    ensures
        call_outcome(func_ty, func_subs, arg_ty, arg_subs, ret) != Err::<(TyView, Subst), ErrorView>(
            ErrorView::NotAFunction,
        ),
{
    let s = compose(func_subs, arg_subs);
    let wanted = TyView::Func(Box::new(arg_ty), Box::new(ret));
    let seen = apply(func_ty, s);
    match solution(wanted, seen) {
        Ok(shape) => {
            lemma_unify_solves(wanted, seen);
            assert forall|k: Seq<char>| s.contains_key(k) implies !shape.contains_key(k) by {
                if shape.contains_key(k) {
                    assert(occurs(k, wanted) || occurs(k, seen));
                    assert(occurs(k, wanted) == (occurs(k, arg_ty) || occurs(k, ret)));
                }
            }
            lemma_apply_compose(func_ty, s, shape);
            let narrowed = apply(func_ty, compose(s, shape));
            assert(narrowed == apply(wanted, shape));
            let from = apply(*narrowed->Func_0, compose(s, shape));
            if solution(from, arg_ty) is Err {
                lemma_unify_failures(from, arg_ty);
            }
        },
        Err(_) => {
            lemma_unify_failures(wanted, seen);
        },
    }
}

proof fn lemma_decimal_len(n: nat)
    ensures
        decimal(n).len() >= 1,
        n >= 10 ==> decimal(n).len() >= 2,
    decreases n,
{
    if n >= 10 {
        lemma_decimal_len(n / 10);
    }
}

/// Two numbers with the same decimal text are the same number.
pub proof fn lemma_decimal_injective(a: nat, b: nat)
    requires
        decimal(a) == decimal(b),
    ensures
        a == b,
    decreases a,
{
    lemma_decimal_len(a);
    lemma_decimal_len(b);
    if a < 10 && b < 10 {
        assert(decimal(a)[0] == digit_char(a));
        assert(decimal(b)[0] == digit_char(b));
    } else if a < 10 || b < 10 {
        assert(decimal(a).len() == decimal(b).len());
    } else {
        assert(decimal(a).drop_last() =~= decimal(a / 10));
        assert(decimal(b).drop_last() =~= decimal(b / 10));
        assert(decimal(a).last() == digit_char(a % 10));
        assert(decimal(b).last() == digit_char(b % 10));
        lemma_decimal_injective(a / 10, b / 10);
    }
}

/// Fresh variables with different numbers have different names.
pub proof fn lemma_fresh_names_distinct(a: nat, b: nat)
    requires
        a != b,
    ensures
        fresh_name(a) != fresh_name(b),
{
    if fresh_name(a) == fresh_name(b) {
        assert(fresh_name(a).subrange(1, fresh_name(a).len() as int) =~= decimal(a));
        assert(fresh_name(b).subrange(1, fresh_name(b).len() as int) =~= decimal(b));
        lemma_decimal_injective(a, b);
    }
}

} // verus!
