//! `git check-ignore`: which of the given paths the ignore file ignores.
use vstd::prelude::*;
use crate::codec::{decimal, to_decimal};
use crate::text::string_from_chars;

verus! {

/// The message that logs a `git check-ignore`.
pub fn log_check_ignore(name_of_ignorer: &str, git_ignore_path: &str, option: &str, time: &str) -> (message: String)
    ensures
        message@ == "Command 'git check-ignore': Name of Ignorer '"@ + name_of_ignorer@ + "', Git Ignore Path '"@
            + git_ignore_path@ + "', Option '"@ + option@ + "', "@ + time@,
{
    let mut message = String::new();
    message.append("Command 'git check-ignore': Name of Ignorer '");
    message.append(name_of_ignorer);
    message.append("', Git Ignore Path '");
    message.append(git_ignore_path);
    message.append("', Option '");
    message.append(option);
    message.append("', ");
    message.append(time);
    message
}

/// Why a check-ignore was refused.
#[derive(Debug, Clone, Copy, PartialEq, Eq, Structural)]
pub enum CheckIgnoreError {
    /// No path was given; the output says `fatal: no path specified`.
    NoPathSpecified,
    /// The option is not `-v`.
    InvalidOption,
}

/// What a refused check-ignore writes to its output before it fails.
pub open spec fn refusal_output(error: CheckIgnoreError) -> Seq<char> {
    match error {
        CheckIgnoreError::NoPathSpecified => "fatal: no path specified\n"@,
        CheckIgnoreError::InvalidOption => seq![],
    }
}

impl CheckIgnoreError {
    /// The text written to the output when a check-ignore is refused for
    /// this reason: `fatal: no path specified` and a newline when no path
    /// was given, nothing for an invalid option.
    pub fn output(&self) -> (text: String)
        ensures
            text@ == refusal_output(*self),
    {
        match self {
            CheckIgnoreError::NoPathSpecified => "fatal: no path specified\n".to_string(),
            CheckIgnoreError::InvalidOption => String::new(),
        }
    }
}

/// The output lines for the paths `paths`, of which those marked in
/// `ignored` are ignored: in verbose form, the ignorer's name, the path's
/// number (from 1) and the path; else the path alone.
pub open spec fn check_ignore_text(name: Seq<char>, paths: Seq<Seq<char>>, ignored: Seq<bool>, verbose: bool) -> Seq<char>
    decreases paths.len(),
{
    if paths.len() == 0 {
        seq![]
    } else {
        let before = check_ignore_text(name, paths.drop_last(), ignored.drop_last(), verbose);
        if ignored.last() {
            if verbose {
                before + name + seq![':'] + decimal(paths.len()) + seq![':'] + paths.last() + seq!['\n']
            } else {
                before + paths.last() + seq!['\n']
            }
        } else {
            before
        }
    }
}

/// The output of `git check-ignore` for the command line `line` (the
/// command's own two words, an optional `-v`, then the paths), where
/// `ignored` tells, for each path, whether the ignore file ignores it.
pub fn git_check_ignore(ignorer_name: &str, line: &Vec<String>, ignored: &Vec<bool>) -> (result: Result<String, CheckIgnoreError>)
    requires
        line@.len() >= 2,
        line@.len() > 2 && line@[2]@ == "-v"@ ==> ignored@.len() == line@.len() - 3,
        line@.len() > 2 && line@[2]@ != "-v"@ ==> ignored@.len() == line@.len() - 2,
    ensures
        line@.len() == 2 || (line@.len() == 3 && line@[2]@ == "-v"@) ==> result == Err::<String, CheckIgnoreError>(
            CheckIgnoreError::NoPathSpecified,
        ),
        line@.len() > 3 && line@[2]@ == "-v"@ ==> (result matches Ok(text) && text@ == check_ignore_text(
            ignorer_name@,
            line@.skip(3).map_values(|s: String| s@),
            ignored@,
            true,
        )),
        line@.len() > 2 && line@[2]@ != "-v"@ && line@[2]@.len() > 0 && line@[2]@[0] == '-' ==> result
            == Err::<String, CheckIgnoreError>(CheckIgnoreError::InvalidOption),
        line@.len() > 2 && line@[2]@ != "-v"@ && !(line@[2]@.len() > 0 && line@[2]@[0] == '-') ==> (result matches Ok(
            text,
        ) && text@ == check_ignore_text(ignorer_name@, line@.skip(2).map_values(|s: String| s@), ignored@, false)),
{
    let v = "-v".to_string();
    if line.len() == 2 || (line.len() == 3 && line[2] == v) {
        return Err(CheckIgnoreError::NoPathSpecified);
    }
    let verbose = line[2] == v;
    let first: usize = if verbose { 3 } else { 2 };
    if !verbose {
        let option = crate::text::chars_of(line[2].as_str());
        if option.len() > 0 && option[0] == '-' {
            return Err(CheckIgnoreError::InvalidOption);
        }
    }
    let ghost paths = line@.skip(first as int).map_values(|s: String| s@);
    let mut text = String::new();
    let mut k: usize = 0;
    let n = line.len() - first;
    while k < n
        invariant
            first + n == line@.len(),
            first + n <= usize::MAX,
            n == ignored@.len(),
            k <= n,
            paths == line@.skip(first as int).map_values(|s: String| s@),
            text@ == check_ignore_text(ignorer_name@, paths.take(k as int), ignored@.take(k as int), verbose),
        decreases n - k,
    {
        assert(paths.take(k + 1).drop_last() == paths.take(k as int));
        assert(ignored@.take(k + 1).drop_last() == ignored@.take(k as int));
        assert(paths.take(k + 1).last() == line@[first + k]@);
        if ignored[k] {
            if verbose {
                text.append(ignorer_name);
                text.append(":");
                text.append(string_from_chars(to_decimal(k + 1).as_slice()).as_str());
                text.append(":");
                text.append(line[first + k].as_str());
                text.append("\n");
            } else {
                text.append(line[first + k].as_str());
                text.append("\n");
            }
            proof {
                reveal_strlit(":");
                reveal_strlit("\n");
            }
        }
        k = k + 1;
    }
    assert(paths.take(n as int) == paths);
    assert(ignored@.take(n as int) == ignored@);
    Ok(text)
}

} // verus!
