//! HTTP methods.
use vstd::prelude::*;
use crate::text::{chars_equal, chars_of};

verus! {

/// HTTP Method
///
/// # Supported Methods
///
/// - GET
/// - POST
/// - PUT
/// - PATCH
#[derive(Debug, Clone, Copy, PartialEq, Eq, Structural)]
pub enum Method {
    GET,
    POST,
    PUT,
    PATCH,
}

/// The method that a name stands for; an unknown name stands for GET.
pub open spec fn method_of(name: Seq<char>) -> Method {
    if name == seq!['P', 'O', 'S', 'T'] {
        Method::POST
    } else if name == seq!['P', 'U', 'T'] {
        Method::PUT
    } else if name == seq!['P', 'A', 'T', 'C', 'H'] {
        Method::PATCH
    } else {
        Method::GET
    }
}

impl Method {
    /// The method that `name` stands for: GET, POST, PUT or PATCH; any
    /// other name stands for GET.
    pub fn from_name(name: &str) -> (m: Method)
        ensures
            m == method_of(name@),
    {
        let chars = chars_of(name);
        let post = vec!['P', 'O', 'S', 'T'];
        let put = vec!['P', 'U', 'T'];
        let patch = vec!['P', 'A', 'T', 'C', 'H'];
        assert(post@ == seq!['P', 'O', 'S', 'T']);
        assert(put@ == seq!['P', 'U', 'T']);
        assert(patch@ == seq!['P', 'A', 'T', 'C', 'H']);
        if chars_equal(chars.as_slice(), post.as_slice()) {
            Method::POST
        } else if chars_equal(chars.as_slice(), put.as_slice()) {
            Method::PUT
        } else if chars_equal(chars.as_slice(), patch.as_slice()) {
            Method::PATCH
        } else {
            Method::GET
        }
    }

    /// The default method: GET.
    pub fn default_method() -> (m: Method)
        ensures
            m == Method::GET,
    {
        Method::GET
    }
}

} // verus!
