use vstd::prelude::*;
use crate::ty::{Ty, TyView};

verus! {

/// Why an inference run, or a single unification, failed.
#[derive(Debug, PartialEq, Eq)]
pub enum InferError {
    /// A name was looked up that has no binding in scope.
    UnboundVariable(String),
    /// Two types had to agree but have different shapes or tags.
    TypeMismatch(Ty, Ty),
    /// A variable would have to be bound to a type that contains it.
    InfiniteType(String),
    /// A type that had to be an arrow is not one.
    NotAFunction,
}

/// The mathematical value of an [`InferError`].
pub enum ErrorView {
    UnboundVariable(Seq<char>),
    TypeMismatch(TyView, TyView),
    InfiniteType(Seq<char>),
    NotAFunction,
}

impl View for InferError {
    type V = ErrorView;

    open spec fn view(&self) -> ErrorView {
        match self {
            InferError::UnboundVariable(n) => ErrorView::UnboundVariable(n@),
            InferError::TypeMismatch(a, b) => ErrorView::TypeMismatch(a@, b@),
            InferError::InfiniteType(n) => ErrorView::InfiniteType(n@),
            InferError::NotAFunction => ErrorView::NotAFunction,
        }
    }
}

} // verus!
