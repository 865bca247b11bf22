//! `git add`.
use vstd::prelude::*;
use crate::text::{chars_equal, chars_of};

verus! {

/// The message that logs a `git add`.
pub fn log_add(add_type: &str, file: &str, time: &str) -> (message: String)
    ensures
        message@ == "Command 'git add': Add type: "@ + add_type@ + ", File: "@ + file@ + ", Time: "@ + time@,
{
    let mut message = String::new();
    message.append("Command 'git add': Add type: ");
    message.append(add_type);
    message.append(", File: ");
    message.append(file);
    message.append(", Time: ");
    message.append(time);
    message
}

/// `s` starts with `p`.
pub open spec fn starts_with(s: Seq<char>, p: Seq<char>) -> bool {
    s.len() >= p.len() && s.take(p.len() as int) == p
}

/// Whether `git add .` takes the entry `file_name` of the current
/// directory: the ignore file is taken, and so is every other entry whose
/// name does not start with the name of the git directory.
pub fn add_takes_entry(file_name: &str, git_dir_name: &str, git_ignore_name: &str) -> (taken: bool)
    ensures
        taken == (file_name@ == git_ignore_name@ || !starts_with(file_name@, git_dir_name@)),
{
    let name = chars_of(file_name);
    let dir = chars_of(git_dir_name);
    let ignore = chars_of(git_ignore_name);
    if chars_equal(name.as_slice(), ignore.as_slice()) {
        return true;
    }
    if name.len() < dir.len() {
        return true;
    }
    let prefix = vstd::slice::slice_subrange(name.as_slice(), 0, dir.len());
    assert(prefix@ == name@.take(dir@.len() as int));
    !chars_equal(prefix, dir.as_slice())
}

} // verus!
