//! `git push` and `git pull`.
use vstd::prelude::*;

verus! {

/// The message that logs a `git push` (the remote is `origin` when none is
/// given).
pub fn log_push(branch: &str, local_dir: &str, remote_repo_name: Option<&str>, time: &str) -> (message: String)
    ensures
        message@ == "Command 'git push': Branch '"@ + branch@ + "', Local Directory '"@ + local_dir@
            + "', Remote Repository Name '"@ + (match remote_repo_name {
            Some(r) => r@,
            None => "origin"@,
        }) + "', "@ + time@,
{
    let remote_name = match remote_repo_name {
        Some(r) => r,
        None => "origin",
    };
    let mut message = String::new();
    message.append("Command 'git push': Branch '");
    message.append(branch);
    message.append("', Local Directory '");
    message.append(local_dir);
    message.append("', Remote Repository Name '");
    message.append(remote_name);
    message.append("', ");
    message.append(time);
    message
}

} // verus!
