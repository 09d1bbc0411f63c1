//! The library's generic error value, and the conversion from an absent
//! optional into it.

use vstd::prelude::*;

verus! {

/// A generic failure, carrying its reason as text.
#[derive(Debug, Clone, PartialEq)]
pub struct GenError {
    pub message: String,
}

/// A result whose failure is a [`GenError`].
pub type GenResult<T> = Result<T, GenError>;

/// Turns an optional into a result, an absent value becoming an error.
pub trait OptionResult<T>: Sized {
    /// The optional this value stands for.
    spec fn opt_view(self) -> Option<T>;

    /// The held value, or a generic unwrap error.
    fn result(self) -> (r: GenResult<T>)
        ensures
            match self.opt_view() {
                Some(v) => r matches Ok(x) && x == v,
                None => r matches Err(e) && e.message@ == "Option Unwrap"@,
            },
    ;

    /// The held value, or an error naming the given reason.
    fn result_reason(self, reason: &str) -> (r: GenResult<T>)
        ensures
            match self.opt_view() {
                Some(v) => r matches Ok(x) && x == v,
                None => r matches Err(e) && e.message@ == reason@,
            },
    ;
}

impl<T> OptionResult<T> for Option<T> {
    open spec fn opt_view(self) -> Option<T> {
        self
    }

    fn result(self) -> (r: GenResult<T>)
        ensures
            match self.opt_view() {
                Some(v) => r matches Ok(x) && x == v,
                None => r matches Err(e) && e.message@ == "Option Unwrap"@,
            },
    {
        match self {
            Some(value) => Ok(value),
            None => Err(GenError { message: "Option Unwrap".to_owned() }),
        }
    }

    fn result_reason(self, reason: &str) -> (r: GenResult<T>)
        ensures
            match self.opt_view() {
                Some(v) => r matches Ok(x) && x == v,
                None => r matches Err(e) && e.message@ == reason@,
            },
    {
        match self {
            Some(value) => Ok(value),
            None => Err(GenError { message: reason.to_owned() }),
        }
    }
}

} // verus!
