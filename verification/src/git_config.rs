//! `git config`.
use vstd::prelude::*;
use crate::command_text::{debug_list, debug_strings};

verus! {

/// The message that logs a `git config`, with the command line in its
/// debug form.
pub fn log_config(git_dir: &str, line: &[String], time: &str) -> (message: String)
    ensures
        message@ == "Command 'git config': Git Directory '"@ + git_dir@ + "', Command Line '"@ + debug_list(
            line@.map_values(|s: String| s@),
        ) + "', "@ + time@,
{
    let mut message = String::new();
    message.append("Command 'git config': Git Directory '");
    message.append(git_dir);
    message.append("', Command Line '");
    message.append(debug_strings(line).as_str());
    message.append("', ");
    message.append(time);
    message
}

} // verus!
