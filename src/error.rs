use vstd::prelude::*;

verus! {

/// Fatal conditions met while loading a map.
#[derive(Debug, PartialEq, Eq, Structural, Clone, Copy)]
pub enum AppError {
    /// A city already has a different road in the direction being linked.
    RouteAlreadyExists,
    /// A route token names something that is not a direction.
    WrongDirection,
}

impl AppError {
    /// A short human-readable description of the error.
    pub fn message(&self) -> (r: String)
        ensures
            *self == AppError::RouteAlreadyExists ==> r@ == "route already exists"@,
            *self == AppError::WrongDirection ==> r@ == "wrong direction"@,
    {
        match self {
            AppError::RouteAlreadyExists => String::from_str("route already exists"),
            AppError::WrongDirection => String::from_str("wrong direction"),
        }
    }
}

} // verus!
