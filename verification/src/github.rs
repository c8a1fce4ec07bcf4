//! The GitHub endpoint's repository coordinates.

use vstd::prelude::*;

verus! {

/// The coordinates of a GitHub repository, as parsed from an origin
/// URL.
pub struct GithubEndpoint {
    name: String,
    owner: Option<String>,
}

#[verifier::ext_equal]
pub struct GithubEndpointView {
    pub name: Seq<char>,
    pub owner: Option<Seq<char>>,
}

impl View for GithubEndpoint {
    type V = GithubEndpointView;

    closed spec fn view(&self) -> GithubEndpointView {
        GithubEndpointView {
            name: self.name@,
            owner: match self.owner {
                Some(ref o) => Some(o@),
                None => None,
            },
        }
    }
}

impl GithubEndpoint {
    /// Captures the repository name and owner of a parsed origin URL.
    pub fn new(name: String, owner: Option<String>) -> (r: GithubEndpoint)
        ensures
            r@.name == name@,
            r@.owner == (match owner {
                Some(o) => Some(o@),
                None => None::<Seq<char>>,
            }),
    {
        GithubEndpoint { name, owner }
    }
}

} // verus!
