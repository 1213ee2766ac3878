use vstd::prelude::*;
use vstd::string::*;
use crate::ty::{Ty, TyView};

verus! {

/// The nominal type with the given tag.
pub fn ty_named(name: &str) -> (r: Ty)
    ensures
        r@ == TyView::Named(name@),
{
    Ty::Named(String::from_str(name))
}

/// The type variable with the given name.
pub fn ty_variable(name: &str) -> (r: Ty)
    ensures
        r@ == TyView::Variable(name@),
{
    Ty::Variable(String::from_str(name))
}

/// The arrow type from `from` to `to`.
pub fn ty_func(from: Ty, to: Ty) -> (r: Ty)
    ensures
        r@ == TyView::Func(Box::new(from@), Box::new(to@)),
{
    Ty::Func { from: Box::new(from), to: Box::new(to) }
}

} // verus!
