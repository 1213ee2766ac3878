use vstd::prelude::*;
use crate::data::Substitutions;
use crate::error::{ErrorView, InferError};
use crate::laws::lemma_unify_total;

verus! {

/// A type: a nominal tag, a unification variable, or an arrow.
#[derive(Debug, PartialEq, Eq)]
pub enum Ty {
    Named(String),
    Variable(String),
    Func { from: Box<Ty>, to: Box<Ty> },
}

/// The mathematical value of a [`Ty`]: the same tree over character sequences.
pub enum TyView {
    Named(Seq<char>),
    Variable(Seq<char>),
    Func(Box<TyView>, Box<TyView>),
}

/// A substitution as a mathematical object: variable name to type.
pub type Subst = Map<Seq<char>, TyView>;

impl View for Ty {
    type V = TyView;

    open spec fn view(&self) -> TyView
        decreases self,
    {
        match self {
            Ty::Named(n) => TyView::Named(n@),
            Ty::Variable(n) => TyView::Variable(n@),
            Ty::Func { from, to } => TyView::Func(Box::new((**from).view()), Box::new((**to).view())),
        }
    }
}

/// `t` with every variable that `s` binds replaced by what `s` binds it to.
/// The replacement is not itself rewritten.
pub open spec fn apply(t: TyView, s: Subst) -> TyView
    decreases t,
{
    match t {
        TyView::Named(_) => t,
        TyView::Variable(n) => if s.contains_key(n) { s[n] } else { t },
        TyView::Func(a, b) => TyView::Func(Box::new(apply(*a, s)), Box::new(apply(*b, s))),
    }
}

/// Whether a variable called `name` stands anywhere in `t`.
pub open spec fn occurs(name: Seq<char>, t: TyView) -> bool
    decreases t,
{
    match t {
        TyView::Named(_) => false,
        TyView::Variable(n) => n == name,
        TyView::Func(a, b) => occurs(name, *a) || occurs(name, *b),
    }
}

/// `newer` composed onto `older`: what `older` binds is rewritten by `newer`,
/// then every binding of `newer` is added and wins where both bind a name.
pub open spec fn compose(older: Subst, newer: Subst) -> Subst {
    Map::new(
        |k: Seq<char>| older.contains_key(k) || newer.contains_key(k),
        |k: Seq<char>| if newer.contains_key(k) { newer[k] } else { apply(older[k], newer) },
    )
}

/// The substitution that solves `name = t`, where one exists.
pub open spec fn bind(name: Seq<char>, t: TyView) -> Result<Subst, ErrorView> {
    if t == TyView::Variable(name) {
        Ok(Map::empty())
    } else if occurs(name, t) {
        Err(ErrorView::InfiniteType(name))
    } else {
        Ok(Map::empty().insert(name, t))
    }
}

/// The outcome of unifying `x` with `y` while descending through at most
/// `depth` nested pairs of arrows, or `None` where that is not deep enough.
pub open spec fn unified(x: TyView, y: TyView, depth: nat) -> Option<Result<Subst, ErrorView>>
    decreases depth,
{
    match (x, y) {
        (TyView::Variable(v), _) => Some(bind(v, y)),
        (_, TyView::Variable(w)) => Some(bind(w, x)),
        (TyView::Named(a), TyView::Named(b)) => if a == b {
            Some(Ok(Map::empty()))
        } else {
            Some(Err(ErrorView::TypeMismatch(x, y)))
        },
        (TyView::Func(x1, x2), TyView::Func(y1, y2)) => if depth == 0 {
            None
        } else {
            match unified(*x1, *y1, (depth - 1) as nat) {
                None => None,
                Some(Err(e)) => Some(Err(e)),
                Some(Ok(s1)) => match unified(apply(*x2, s1), apply(*y2, s1), (depth - 1) as nat) {
                    None => None,
                    Some(Err(e)) => Some(Err(e)),
                    Some(Ok(s2)) => Some(Ok(compose(s1, s2))),
                },
            }
        },
        _ => Some(Err(ErrorView::TypeMismatch(x, y))),
    }
}

/// A depth that is enough to unify `x` with `y`. There always is one.
pub open spec fn enough_depth(x: TyView, y: TyView) -> nat {
    choose|d: nat| unified(x, y, d) is Some
}

/// The outcome of unifying `x` with `y`: the substitution that makes them
/// agree, or why there is none.
pub open spec fn solution(x: TyView, y: TyView) -> Result<Subst, ErrorView> {
    unified(x, y, enough_depth(x, y))->Some_0
}

/// The two sides of an arrow, where `t` is one.
pub open spec fn func_parts(t: TyView) -> Result<(TyView, TyView), ErrorView> {
    match t {
        TyView::Func(a, b) => Ok((*a, *b)),
        _ => Err(ErrorView::NotAFunction),
    }
}

/// The value of a unifier's result.
pub open spec fn subs_outcome(r: Result<Substitutions, InferError>) -> Result<Subst, ErrorView> {
    match r {
        Ok(s) => Ok(s@),
        Err(e) => Err(e@),
    }
}

impl Clone for Ty {
    fn clone(&self) -> (r: Ty)
        ensures
            r == *self,
        decreases self,
    {
        match self {
            Ty::Named(n) => Ty::Named(n.clone()),
            Ty::Variable(n) => Ty::Variable(n.clone()),
            Ty::Func { from, to } => Ty::Func {
                from: Box::new((**from).clone()),
                to: Box::new((**to).clone()),
            },
        }
    }
}

impl Ty {
    /// Rewrites the type by `subs`.
    pub fn apply_subs(self, subs: &Substitutions) -> (r: Ty)
        ensures
            r@ == apply(self@, subs@),
        decreases self,
    {
        match self {
            Ty::Named(n) => Ty::Named(n),
            Ty::Variable(n) => match subs.get(&n) {
                Some(t) => t.clone(),
                None => Ty::Variable(n),
            },
            Ty::Func { from, to } => Ty::Func {
                from: Box::new((*from).apply_subs(subs)),
                to: Box::new((*to).apply_subs(subs)),
            },
        }
    }

    /// Whether a variable called `name` stands anywhere in the type.
    pub fn contains(&self, name: &String) -> (r: bool)
        ensures
            r == occurs(name@, self@),
        decreases self,
    {
        match self {
            Ty::Named(_) => false,
            Ty::Variable(n) => *n == *name,
            Ty::Func { from, to } => (**from).contains(name) || (**to).contains(name),
        }
    }

    /// Solves `name = self`: nothing to do where the type is that very variable,
    /// an error where the variable occurs inside it, else the single binding.
    pub fn var_bind(self, name: String) -> (r: Result<Substitutions, InferError>)
        ensures
            subs_outcome(r) == bind(name@, self@),
    {
        let same = match &self {
            Ty::Variable(n) => *n == name,
            _ => false,
        };
        if same {
            Ok(Substitutions::new())
        } else if self.contains(&name) {
            Err(InferError::InfiniteType(name))
        } else {
            let mut subs = Substitutions::new();
            subs.insert(name, self);
            Ok(subs)
        }
    }

    /// Splits an arrow into its two sides.
    pub fn try_into_func(self) -> (r: Result<(Ty, Ty), InferError>)
        ensures
            match r {
                Ok(p) => func_parts(self@) == Ok::<(TyView, TyView), ErrorView>((p.0@, p.1@)),
                Err(e) => func_parts(self@) == Err::<(TyView, TyView), ErrorView>(e@),
            },
    {
        match self {
            Ty::Func { from, to } => Ok((*from, *to)),
            _ => Err(InferError::NotAFunction),
        }
    }

    /// Unifies two types, given a depth that is enough for them.
    fn unify_to(self, y: Ty, Ghost(depth): Ghost<nat>) -> (r: Result<Substitutions, InferError>)
        requires
            unified(self@, y@, depth) is Some,
        ensures
            unified(self@, y@, depth) == Some(subs_outcome(r)),
        decreases depth,
    {
        match self {
            Ty::Variable(v) => y.var_bind(v),
            Ty::Named(a) => match y {
                Ty::Variable(w) => Ty::Named(a).var_bind(w),
                Ty::Named(b) => if a == b {
                    Ok(Substitutions::new())
                } else {
                    Err(InferError::TypeMismatch(Ty::Named(a), Ty::Named(b)))
                },
                Ty::Func { from, to } => Err(
                    InferError::TypeMismatch(Ty::Named(a), Ty::Func { from, to }),
                ),
            },
            Ty::Func { from: x_from, to: x_to } => match y {
                Ty::Variable(w) => (Ty::Func { from: x_from, to: x_to }).var_bind(w),
                Ty::Named(b) => Err(
                    InferError::TypeMismatch(Ty::Func { from: x_from, to: x_to }, Ty::Named(b)),
                ),
                Ty::Func { from: y_from, to: y_to } => {
                    let ghost rest = (depth - 1) as nat;
                    let mut subs = match (*x_from).unify_to(*y_from, Ghost(rest)) {
                        Ok(s) => s,
                        Err(e) => {
                            return Err(e);
                        },
                    };
                    let left = (*x_to).apply_subs(&subs);
                    let right = (*y_to).apply_subs(&subs);
                    match left.unify_to(right, Ghost(rest)) {
                        Ok(s) => {
                            subs.compose(&s);
                            Ok(subs)
                        },
                        Err(e) => Err(e),
                    }
                },
            },
        }
    }

    /// Unifies two types: the substitution that makes them agree, or why there
    /// is none.
    pub fn unify(self, y: Ty) -> (r: Result<Substitutions, InferError>)
        ensures
            subs_outcome(r) == solution(self@, y@),
    {
        proof {
            lemma_unify_total(self@, y@);
        }
        self.unify_to(y, Ghost(enough_depth(self@, y@)))
    }
}

} // verus!
