//! PUT requests: merging pull requests.
use vstd::prelude::*;
use crate::api::handlers::route::{
    Reply, Route, error_body, error_json, invalid_number_message, is_pulls_path, pull_number, repo_not_found,
    repo_not_found_message,
};
use crate::api::server::{after_lookup, lemma_looked_up, looked_up, Repositories};
use crate::pull_request::{PRState, PullRequestError, git_dir_path, pr_index};
use crate::api::utils::request::Request;
use crate::api::utils::status_code::StatusCode;
use crate::text::parse_usize_spec;

verus! {

/// What a PUT request asks for: `repos/{repo}/pulls/{n}/merge` merges a
/// pull request; a pull number that is not a number is refused, and any
/// other path is a bad request.
pub fn handle(request: &Request) -> (route: Route)
    ensures
        ({
            let p = request.get_path_parts();
            if p.len() == 5 && p[0] == "repos"@ && p[2] == "pulls"@ && p[4] == "merge"@ {
                match parse_usize_spec(p[3]) {
                    Some(n) => route matches Route::MergePull(r, k) && r@ == p[1] && k == n,
                    None => route matches Route::Respond(s, Some(b)) && s == StatusCode::BadRequest
                        && b@ == error_body(invalid_number_message()),
                }
            } else {
                route matches Route::Respond(s, None) && s == StatusCode::BadRequest
            }
        }),
{
    let parts = request.get_path_split();
    if is_pulls_path(&parts, 2) && parts[4] == "merge".to_string() {
        return match pull_number(parts[3].as_str()) {
            Ok(n) => Route::MergePull(parts[1].clone(), n),
            Err(r) => r,
        };
    }
    Route::Respond(StatusCode::BadRequest, None)
}


/// Finds what merging the pull request numbered `pull_number` of the
/// repository `repo` needs: its branches, in the repository's git directory
/// under `root_dir`. A repository or a pull request that is missing is not
/// found, and a closed pull request is a bad request.
pub fn merge_pull_request(
    repositories: &mut Repositories,
    repo: &str,
    pull_number: usize,
    repo_exists: bool,
    root_dir: &str,
    git_dir_name: &str,
) -> (reply: Reply)
    requires
        old(repositories).wf(),
    ensures
        final(repositories).wf(),
        final(repositories)@ == after_lookup(old(repositories)@, repo@, repo_exists),
        match looked_up(old(repositories)@, repo@, repo_exists) {
            None => reply matches Reply::Respond(s, Some(b)) && s == StatusCode::NotFound && b@ == error_body(
                repo_not_found_message(),
            ),
            Some(k) => match pr_index(final(repositories)@[k as int].2, pull_number as nat) {
                Some(j) => if final(repositories)@[k as int].2[j].state == PRState::Closed {
                    reply matches Reply::Respond(s, Some(b)) && s == StatusCode::BadRequest && b@ == error_body(
                        PullRequestError::AlreadyClosed.message_view(),
                    )
                } else {
                    reply matches Reply::Merge(i, n, b) && i == k && n == pull_number && b.git_dir@ == git_dir_path(
                        root_dir@,
                        repo@,
                        git_dir_name@,
                    ) && b.source_branch@ == final(repositories)@[k as int].2[j].source_branch
                        && b.target_branch@ == final(repositories)@[k as int].2[j].target_branch
                },
                None => reply matches Reply::Respond(s, Some(b)) && s == StatusCode::NotFound && b@ == error_body(
                    PullRequestError::NotFound.message_view(),
                ),
            },
        },
{
    proof {
        lemma_looked_up(old(repositories)@, repo@, repo_exists);
    }
    match repositories.get(repo, repo_exists) {
        None => repo_not_found(),
        Some(i) => match repositories.repository(i).merge_pull_request(pull_number, root_dir, git_dir_name) {
            Ok(b) => Reply::Merge(i, pull_number, b),
            Err(PullRequestError::NotFound) => Reply::Respond(
                StatusCode::NotFound,
                Some(error_json(PullRequestError::NotFound.message())),
            ),
            Err(PullRequestError::AlreadyClosed) => Reply::Respond(
                StatusCode::BadRequest,
                Some(error_json(PullRequestError::AlreadyClosed.message())),
            ),
        },
    }
}

} // verus!
