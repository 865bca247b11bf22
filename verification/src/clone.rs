//! `git clone`.
use vstd::prelude::*;

verus! {

/// The message that logs a `git clone`.
pub fn log_clone(repo_url: &str, destination: &str, time: &str) -> (message: String)
    ensures
        message@ == "Command 'git clone': Repository URL '"@ + repo_url@ + "', Destination '"@ + destination@ + "', "@
            + time@,
{
    let mut message = String::new();
    message.append("Command 'git clone': Repository URL '");
    message.append(repo_url);
    message.append("', Destination '");
    message.append(destination);
    message.append("', ");
    message.append(time);
    message
}

} // verus!
