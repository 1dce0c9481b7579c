//! The unit of comparison: anything that can be told apart from its peers and
//! duplicated into an edit script.

use vstd::prelude::*;

verus! {

/// A token of a sequence under comparison.
///
/// Two tokens count as the same token exactly when their deep views agree, so
/// every contract of this crate is stated over sequences of deep views.
pub trait Token: DeepView + Sized {
    /// Whether `self` and `other` are the same token.
    fn same(&self, other: &Self) -> (r: bool)
        ensures
            r == (self.deep_view() == other.deep_view()),
    ;

    /// A fresh token that is the same as `self`.
    fn dup(&self) -> (r: Self)
        ensures
            r.deep_view() == self.deep_view(),
    ;
}

impl Token for char {
    fn same(&self, other: &Self) -> (r: bool) {
        *self == *other
    }

    fn dup(&self) -> (r: Self) {
        *self
    }
}

impl Token for String {
    fn same(&self, other: &Self) -> (r: bool) {
        *self == *other
    }

    fn dup(&self) -> (r: Self) {
        self.clone()
    }
}

} // verus!
