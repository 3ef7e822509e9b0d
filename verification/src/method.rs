//! The request methods a rendered form can carry.

use vstd::prelude::*;

verus! {

/// Which HTTP method a rendered form submits with.
#[derive(Clone, Copy, Debug, PartialEq, Eq, Structural, Hash)]
pub enum Method {
    Post,
    Patch,
}

impl Method {
    /// The markup attribute naming this method.
    pub fn attribute(&self) -> (r: &'static str)
        ensures
            *self is Post ==> r@ == "hx-post"@,
            *self is Patch ==> r@ == "hx-patch"@,
    {
        match self {
            Method::Post => "hx-post",
            Method::Patch => "hx-patch",
        }
    }
}

} // verus!
