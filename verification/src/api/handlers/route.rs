//! The operations that requests ask for, and the error bodies of refused
//! requests.
use vstd::prelude::*;
use crate::api::utils::status_code::StatusCode;
use crate::codec::{json_quoted, json_string};
use crate::text::{parse_usize, parse_usize_spec, chars_of};
use crate::pull_request::{BranchPair, PullRequest};

verus! {

/// The operation that a request asks for, or the response that refuses it.
#[derive(Debug)]
pub enum Route {
    /// List the pull requests of the repository.
    ListPulls(String),
    /// Show a pull request of the repository.
    GetPull(String, usize),
    /// List the commits of a pull request of the repository.
    ListCommits(String, usize),
    /// Create a pull request in the repository from the body.
    CreatePull(String),
    /// Change a pull request of the repository from the body.
    UpdatePull(String, usize),
    /// Merge a pull request of the repository.
    MergePull(String, usize),
    /// Answer with this status and body.
    Respond(StatusCode, Option<String>),
}

/// The body of an error response: a JSON object with the message under
/// `error`.
pub open spec fn error_body(message: Seq<char>) -> Seq<char> {
    "{\"error\":"@ + json_quoted(message) + "}"@
}

/// The body of an error response with `message`.
pub fn error_json(message: &str) -> (body: String)
    ensures
        body@ == error_body(message@),
{
    let mut body = String::new();
    body.append("{\"error\":");
    body.append(json_string(message).as_str());
    body.append("}");
    body
}

/// The message of a pull number that is not a number.
pub open spec fn invalid_number_message() -> Seq<char> {
    "Invalid pull number: not a number."@
}

/// Reads a pull number, or gives the response that refuses it.
pub fn pull_number(text: &str) -> (n: Result<usize, Route>)
    ensures
        match parse_usize_spec(text@) {
            Some(v) => n == Ok::<usize, Route>(v),
            None => n matches Err(Route::Respond(s, Some(b))) && s == StatusCode::BadRequest && b@ == error_body(
                invalid_number_message(),
            ),
        },
{
    let chars = chars_of(text);
    match parse_usize(chars.as_slice()) {
        Some(v) => Ok(v),
        None => Err(Route::Respond(StatusCode::BadRequest, Some(error_json("Invalid pull number: not a number.")))),
    }
}

/// Tells whether the path parts are `repos`, a repository, `pulls`, and
/// `extra` more parts.
pub fn is_pulls_path(parts: &Vec<String>, extra: usize) -> (b: bool)
    requires
        extra <= 2,
    ensures
        b == (parts@.len() == 3 + extra && parts@[0]@ == "repos"@ && parts@[2]@ == "pulls"@),
{
    parts.len() == 3 + extra && parts[0] == "repos".to_string() && parts[2] == "pulls".to_string()
}


/// What the server does once an operation has run on the repositories.
pub enum Reply {
    /// Answer with the pull request, as JSON.
    Pull(PullRequest),
    /// Answer with the pull requests, as JSON.
    Pulls(Vec<PullRequest>),
    /// Save the repository at this position, which changed, then answer
    /// with the pull request, as JSON.
    Saved(usize, PullRequest),
    /// List the commits of the branches of a pull request.
    Commits(BranchPair),
    /// Merge the branches of the pull request with this number, in the
    /// repository at this position.
    Merge(usize, usize, BranchPair),
    /// The repository at this position has numbered as many pull requests
    /// as a number can count.
    NumbersExhausted(usize),
    /// Answer with this status and body.
    Respond(StatusCode, Option<String>),
}

/// The message of a repository that the server does not have.
pub open spec fn repo_not_found_message() -> Seq<char> {
    "Repository not found."@
}

/// The message of a pull request that the repository does not have.
pub open spec fn pr_not_found_message() -> Seq<char> {
    "Pull request not found."@
}

/// The answer to a request for a repository that the server does not have.
pub fn repo_not_found() -> (reply: Reply)
    ensures
        reply matches Reply::Respond(s, Some(b)) && s == StatusCode::NotFound && b@ == error_body(
            repo_not_found_message(),
        ),
{
    Reply::Respond(StatusCode::NotFound, Some(error_json("Repository not found.")))
}

} // verus!
