//! POST requests: creating pull requests.
use vstd::prelude::*;
use crate::api::handlers::route::{Reply, Route, error_body, is_pulls_path, repo_not_found, repo_not_found_message};
use crate::api::server::{after_lookup, lemma_looked_up, looked_up, Repositories};
use crate::pull_request::{PullRequestCreate, new_pull_request, pr_index, pr_insert};
use crate::api::utils::request::Request;
use crate::api::utils::status_code::StatusCode;

verus! {

/// What a POST request asks for: `repos/{repo}/pulls` creates a pull
/// request; any other path is a bad request.
pub fn handle(request: &Request) -> (route: Route)
    ensures
        ({
            let p = request.get_path_parts();
            if p.len() == 3 && p[0] == "repos"@ && p[2] == "pulls"@ {
                route matches Route::CreatePull(r) && r@ == p[1]
            } else {
                route matches Route::Respond(s, None) && s == StatusCode::BadRequest
            }
        }),
{
    let parts = request.get_path_split();
    if is_pulls_path(&parts, 0) {
        return Route::CreatePull(parts[1].clone());
    }
    Route::Respond(StatusCode::BadRequest, None)
}


/// Creates a pull request in the repository `repo` from `pr_create`,
/// numbered after the ones created before and opened now; a repository that
/// is missing is not found, and one that has numbered as many pull requests
/// as a number can count creates none.
pub fn create_pull_request(
    repositories: &mut Repositories,
    repo: &str,
    pr_create: PullRequestCreate,
    repo_exists: bool,
) -> (reply: Reply)
    requires
        old(repositories).wf(),
    ensures
        final(repositories).wf(),
        ({
            let w = after_lookup(old(repositories)@, repo@, repo_exists);
            match looked_up(old(repositories)@, repo@, repo_exists) {
                None => final(repositories)@ == w && (reply matches Reply::Respond(s, Some(b)) && s
                    == StatusCode::NotFound && b@ == error_body(repo_not_found_message())),
                Some(k) => if w[k as int].1 == usize::MAX {
                    final(repositories)@ == w && reply == Reply::NumbersExhausted(k as usize)
                } else {
                    reply matches Reply::Saved(i, pr) && i == k && pr@ == new_pull_request(
                        pr_create,
                        w[k as int].1 + 1,
                        pr.created_at@,
                    ) && final(repositories)@ == w.update(
                        k as int,
                        (
                            w[k as int].0,
                            if pr_index(w[k as int].2, w[k as int].1 + 1) is Some {
                                w[k as int].1
                            } else {
                                (w[k as int].1 + 1) as nat
                            },
                            pr_insert(w[k as int].2, pr@),
                        ),
                    )
                },
            }
        }),
{
    proof {
        lemma_looked_up(old(repositories)@, repo@, repo_exists);
    }
    let i = match repositories.get(repo, repo_exists) {
        None => return repo_not_found(),
        Some(i) => i,
    };
    if repositories.repository(i).pr_count() == usize::MAX {
        return Reply::NumbersExhausted(i);
    }
    let mut r = repositories.take(i);
    let pr = r.create_pull_request(pr_create);
    repositories.put(i, r);
    Reply::Saved(i, pr)
}

} // verus!
