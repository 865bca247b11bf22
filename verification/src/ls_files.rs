//! `git ls-files`: which files it lists.
use vstd::prelude::*;
use crate::api::utils::string_map::Pair;
use crate::command_text::{debug_list, debug_strings};
use crate::index::Index;

verus! {

/// The message that logs a `git ls-files`, with the command line in its
/// debug form.
pub fn log_ls_files(working_dir: &str, git_dir: &str, current_directory: &str, line: &[String], time: &str) -> (message: String)
    ensures
        message@ == "Command 'git ls-files': Working Directory '"@ + working_dir@ + "', Git Directory '"@ + git_dir@
            + "', Current Directory '"@ + current_directory@ + "', Line '"@ + debug_list(
            line@.map_values(|s: String| s@),
        ) + "', "@ + time@,
{
    let mut message = String::new();
    message.append("Command 'git ls-files': Working Directory '");
    message.append(working_dir);
    message.append("', Git Directory '");
    message.append(git_dir);
    message.append("', Current Directory '");
    message.append(current_directory);
    message.append("', Line '");
    message.append(debug_strings(line).as_str());
    message.append("', ");
    message.append(time);
    message
}

/// The staged paths, one per line.
pub open spec fn index_paths_text(p: Seq<Pair>) -> Seq<char>
    decreases p.len(),
{
    if p.len() == 0 {
        seq![]
    } else {
        index_paths_text(p.drop_last()) + p.last().0 + seq!['\n']
    }
}

/// Lists the staged paths, one per line.
pub fn list_files_in_index(index: &Index) -> (text: String)
    ensures
        text@ == index_paths_text(index.pairs()),
{
    let entries = index.iter();
    let ghost ev = entries@.map_values(|e: (String, String)| (e.0@, e.1@));
    let mut text = String::new();
    let mut i: usize = 0;
    while i < entries.len()
        invariant
            i <= entries@.len(),
            ev == entries@.map_values(|e: (String, String)| (e.0@, e.1@)),
            text@ == index_paths_text(ev.take(i as int)),
        decreases entries@.len() - i,
    {
        assert(ev.take(i + 1).drop_last() == ev.take(i as int));
        assert(ev.take(i + 1).last() == (entries@[i as int].0@, entries@[i as int].1@));
        text.append(entries[i].0.as_str());
        text.append("\n");
        proof {
            reveal_strlit("\n");
        }
        i = i + 1;
    }
    assert(ev.take(entries@.len() as int) == ev);
    text
}

/// What `git ls-files` does for a command line.
pub enum LsFilesStep {
    /// Print this list of the staged paths.
    Index(String),
    /// List the files that are neither staged nor ignored.
    Untracked,
    /// List the staged files whose content changed.
    Modified,
    /// Nothing to list.
    Nothing,
}

/// Why `git ls-files` failed.
#[derive(Debug, Clone, Copy, PartialEq, Eq, Structural)]
pub enum LsFilesError {
    /// The option is not known.
    Fatal,
}

/// Decides what `git ls-files` does for the command line `line` (the
/// command's own two words, then an optional `-c`, `-o` or `-m`): with no
/// option or `-c` it lists the staged paths.
pub fn git_ls_files(line: &Vec<String>, index: &Index) -> (result: Result<LsFilesStep, LsFilesError>)
    ensures
        (line@.len() == 2 || (line@.len() == 3 && line@[2]@ == "-c"@)) ==> (result matches Ok(LsFilesStep::Index(t))
            && t@ == index_paths_text(index.pairs())),
        (line@.len() == 3 && line@[2]@ != "-c"@ && line@[2]@ == "-o"@) ==> result matches Ok(LsFilesStep::Untracked),
        (line@.len() == 3 && line@[2]@ != "-c"@ && line@[2]@ != "-o"@ && line@[2]@ == "-m"@) ==> result matches Ok(
            LsFilesStep::Modified,
        ),
        (line@.len() == 3 && line@[2]@ != "-c"@ && line@[2]@ != "-o"@ && line@[2]@ != "-m"@) ==> result == Err::<
            LsFilesStep,
            LsFilesError,
        >(LsFilesError::Fatal),
        (line@.len() != 2 && line@.len() != 3) ==> result matches Ok(LsFilesStep::Nothing),
{
    if line.len() == 2 || (line.len() == 3 && line[2] == "-c".to_string()) {
        Ok(LsFilesStep::Index(list_files_in_index(index)))
    } else if line.len() == 3 {
        if line[2] == "-o".to_string() {
            Ok(LsFilesStep::Untracked)
        } else if line[2] == "-m".to_string() {
            Ok(LsFilesStep::Modified)
        } else {
            Err(LsFilesError::Fatal)
        }
    } else {
        Ok(LsFilesStep::Nothing)
    }
}

} // verus!
