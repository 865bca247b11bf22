//! PATCH requests: changing pull requests.
use vstd::prelude::*;
use crate::api::handlers::route::{
    Reply, Route, error_body, error_json, invalid_number_message, is_pulls_path, pull_number, repo_not_found,
    repo_not_found_message,
};
use crate::api::server::{after_lookup, lemma_looked_up, looked_up, Repositories};
use crate::pull_request::{PullRequestError, PullRequestPatch, patched, pr_index};
use crate::api::utils::request::Request;
use crate::api::utils::status_code::StatusCode;
use crate::text::parse_usize_spec;

verus! {

/// What a PATCH request asks for: `repos/{repo}/pulls/{n}` changes a pull
/// request; a pull number that is not a number is refused, and any other
/// path is a bad request.
pub fn handle(request: &Request) -> (route: Route)
    ensures
        ({
            let p = request.get_path_parts();
            if p.len() == 4 && p[0] == "repos"@ && p[2] == "pulls"@ {
                match parse_usize_spec(p[3]) {
                    Some(n) => route matches Route::UpdatePull(r, k) && r@ == p[1] && k == n,
                    None => route matches Route::Respond(s, Some(b)) && s == StatusCode::BadRequest
                        && b@ == error_body(invalid_number_message()),
                }
            } else {
                route matches Route::Respond(s, None) && s == StatusCode::BadRequest
            }
        }),
{
    let parts = request.get_path_split();
    if is_pulls_path(&parts, 1) {
        return match pull_number(parts[3].as_str()) {
            Ok(n) => Route::UpdatePull(parts[1].clone(), n),
            Err(r) => r,
        };
    }
    Route::Respond(StatusCode::BadRequest, None)
}


/// Changes the pull request numbered `pull_number` of the repository `repo`
/// as `pr_patch` says, now; a repository that is missing is not found, and
/// a pull request that is missing is a bad request.
pub fn update_pull_request(
    repositories: &mut Repositories,
    repo: &str,
    pull_number: usize,
    pr_patch: PullRequestPatch,
    repo_exists: bool,
) -> (reply: Reply)
    requires
        old(repositories).wf(),
    ensures
        final(repositories).wf(),
        ({
            let w = after_lookup(old(repositories)@, repo@, repo_exists);
            match looked_up(old(repositories)@, repo@, repo_exists) {
                None => final(repositories)@ == w && (reply matches Reply::Respond(s, Some(b)) && s
                    == StatusCode::NotFound && b@ == error_body(repo_not_found_message())),
                Some(k) => match pr_index(w[k as int].2, pull_number as nat) {
                    Some(j) => reply matches Reply::Saved(i, pr) && i == k && pr@ == patched(
                        w[k as int].2[j],
                        pr_patch,
                        pr.updated_at@,
                    ) && final(repositories)@ == w.update(
                        k as int,
                        (w[k as int].0, w[k as int].1, w[k as int].2.update(j, pr@)),
                    ),
                    None => final(repositories)@ == w && (reply matches Reply::Respond(s, Some(b)) && s
                        == StatusCode::BadRequest && b@ == error_body(PullRequestError::NotFound.message_view())),
                },
            }
        }),
{
    proof {
        lemma_looked_up(old(repositories)@, repo@, repo_exists);
    }
    let i = match repositories.get(repo, repo_exists) {
        None => return repo_not_found(),
        Some(i) => i,
    };
    let ghost w = repositories@;
    let mut r = repositories.take(i);
    let result = r.patch_pull_request(pull_number, pr_patch);
    repositories.put(i, r);
    match result {
        Ok(pr) => Reply::Saved(i, pr),
        Err(e) => {
            assert(repositories@ =~= w);
            Reply::Respond(StatusCode::BadRequest, Some(error_json(e.message())))
        },
    }
}

} // verus!
