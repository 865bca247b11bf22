//! GET requests: listing and showing pull requests.
use vstd::prelude::*;
use crate::api::handlers::route::{
    Reply, Route, error_body, error_json, invalid_number_message, is_pulls_path, pr_not_found_message, pull_number,
    repo_not_found, repo_not_found_message,
};
use crate::api::server::{after_lookup, lemma_looked_up, looked_up, Repositories};
use crate::pull_request::{PullRequest, PullRequestError, git_dir_path, pr_index, sorted_by_number};
use crate::api::utils::request::Request;
use crate::api::utils::status_code::StatusCode;
use crate::text::parse_usize_spec;

verus! {

/// What a GET request asks for: `repos/{repo}/pulls` lists the pull
/// requests, `repos/{repo}/pulls/{n}` shows one, and
/// `repos/{repo}/pulls/{n}/commits` lists its commits; a pull number that is
/// not a number is refused, and any other path is a bad request.
pub fn handle(request: &Request) -> (route: Route)
    ensures
        ({
            let p = request.get_path_parts();
            if p.len() == 3 && p[0] == "repos"@ && p[2] == "pulls"@ {
                route matches Route::ListPulls(r) && r@ == p[1]
            } else if p.len() == 4 && p[0] == "repos"@ && p[2] == "pulls"@ {
                match parse_usize_spec(p[3]) {
                    Some(n) => route matches Route::GetPull(r, k) && r@ == p[1] && k == n,
                    None => route matches Route::Respond(s, Some(b)) && s == StatusCode::BadRequest
                        && b@ == error_body(invalid_number_message()),
                }
            } else if p.len() == 5 && p[0] == "repos"@ && p[2] == "pulls"@ && p[4] == "commits"@ {
                match parse_usize_spec(p[3]) {
                    Some(n) => route matches Route::ListCommits(r, k) && r@ == p[1] && k == n,
                    None => route matches Route::Respond(s, Some(b)) && s == StatusCode::BadRequest
                        && b@ == error_body(invalid_number_message()),
                }
            } else {
                route matches Route::Respond(s, None) && s == StatusCode::BadRequest
            }
        }),
{
    let parts = request.get_path_split();
    if is_pulls_path(&parts, 0) {
        return Route::ListPulls(parts[1].clone());
    }
    if is_pulls_path(&parts, 1) {
        return match pull_number(parts[3].as_str()) {
            Ok(n) => Route::GetPull(parts[1].clone(), n),
            Err(r) => r,
        };
    }
    if is_pulls_path(&parts, 2) && parts[4] == "commits".to_string() {
        return match pull_number(parts[3].as_str()) {
            Ok(n) => Route::ListCommits(parts[1].clone(), n),
            Err(r) => r,
        };
    }
    Route::Respond(StatusCode::BadRequest, None)
}


/// Lists the pull requests of the repository `repo`, in order of their
/// numbers; a repository that the server does not have is not found.
pub fn list_pull_requests(repositories: &mut Repositories, repo: &str, repo_exists: bool) -> (reply: Reply)
    requires
        old(repositories).wf(),
    ensures
        final(repositories).wf(),
        final(repositories)@ == after_lookup(old(repositories)@, repo@, repo_exists),
        match looked_up(old(repositories)@, repo@, repo_exists) {
            None => reply matches Reply::Respond(s, Some(b)) && s == StatusCode::NotFound && b@ == error_body(
                repo_not_found_message(),
            ),
            Some(k) => reply matches Reply::Pulls(prs) && prs@.map_values(|p: PullRequest| p@)
                == final(repositories)@[k as int].2 && sorted_by_number(prs@.map_values(|p: PullRequest| p@)),
        },
{
    proof {
        lemma_looked_up(old(repositories)@, repo@, repo_exists);
    }
    match repositories.get(repo, repo_exists) {
        None => repo_not_found(),
        Some(i) => Reply::Pulls(repositories.repository(i).list_pull_requests()),
    }
}

/// Shows the pull request numbered `pull_number` of the repository `repo`;
/// a repository or a pull request that is missing is not found.
pub fn get_pull_request(repositories: &mut Repositories, repo: &str, pull_number: usize, repo_exists: bool) -> (reply: Reply)
    requires
        old(repositories).wf(),
    ensures
        final(repositories).wf(),
        final(repositories)@ == after_lookup(old(repositories)@, repo@, repo_exists),
        match looked_up(old(repositories)@, repo@, repo_exists) {
            None => reply matches Reply::Respond(s, Some(b)) && s == StatusCode::NotFound && b@ == error_body(
                repo_not_found_message(),
            ),
            Some(k) => match pr_index(final(repositories)@[k as int].2, pull_number as nat) {
                Some(j) => reply matches Reply::Pull(p) && p@ == final(repositories)@[k as int].2[j],
                None => reply matches Reply::Respond(s, Some(b)) && s == StatusCode::NotFound && b@ == error_body(
                    pr_not_found_message(),
                ),
            },
        },
{
    proof {
        lemma_looked_up(old(repositories)@, repo@, repo_exists);
    }
    match repositories.get(repo, repo_exists) {
        None => repo_not_found(),
        Some(i) => match repositories.repository(i).get_pull_request(pull_number) {
            Some(pr) => Reply::Pull(pr.duplicate()),
            None => Reply::Respond(StatusCode::NotFound, Some(error_json("Pull request not found."))),
        },
    }
}

/// Finds the branches whose commits the pull request numbered
/// `pull_number` of the repository `repo` holds, in the repository's git
/// directory under `root_dir`; a repository that is missing is not found,
/// and a pull request that is missing is a bad request.
pub fn list_pull_request_commits(
    repositories: &mut Repositories,
    repo: &str,
    pull_number: usize,
    repo_exists: bool,
    root_dir: &str,
    git_dir_name: &str,
) -> (reply: Reply)
    requires
        old(repositories).wf(),
    ensures
        final(repositories).wf(),
        final(repositories)@ == after_lookup(old(repositories)@, repo@, repo_exists),
        match looked_up(old(repositories)@, repo@, repo_exists) {
            None => reply matches Reply::Respond(s, Some(b)) && s == StatusCode::NotFound && b@ == error_body(
                repo_not_found_message(),
            ),
            Some(k) => match pr_index(final(repositories)@[k as int].2, pull_number as nat) {
                Some(j) => reply matches Reply::Commits(b) && b.git_dir@ == git_dir_path(root_dir@, repo@, git_dir_name@)
                    && b.source_branch@ == final(repositories)@[k as int].2[j].source_branch
                    && b.target_branch@ == final(repositories)@[k as int].2[j].target_branch,
                None => reply matches Reply::Respond(s, Some(b)) && s == StatusCode::BadRequest && b@ == error_body(
                    PullRequestError::NotFound.message_view(),
                ),
            },
        },
{
    proof {
        lemma_looked_up(old(repositories)@, repo@, repo_exists);
    }
    match repositories.get(repo, repo_exists) {
        None => repo_not_found(),
        Some(i) => match repositories.repository(i).list_commits_from_pull_request(pull_number, root_dir, git_dir_name) {
            Ok(b) => Reply::Commits(b),
            Err(e) => Reply::Respond(StatusCode::BadRequest, Some(error_json(e.message()))),
        },
    }
}

} // verus!
