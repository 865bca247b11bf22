//! Branches: the decisions of `git branch`, the files that name the current
//! branch, and terminal colors taken out of text.
use vstd::prelude::*;
use crate::text::{char_lines, chars_of, chars_equal, split_char, split_on_char, string_from_chars};

verus! {

/// The text `s` without its ANSI escape codes: each escape character and
/// what follows it up to and including the next `m` are left out.
pub open spec fn without_escapes(s: Seq<char>, in_escape: bool) -> Seq<char>
    decreases s.len(),
{
    if s.len() == 0 {
        seq![]
    } else if in_escape {
        without_escapes(s.drop_first(), s[0] != 'm')
    } else if s[0] == '\x1B' {
        without_escapes(s.drop_first(), true)
    } else {
        seq![s[0]] + without_escapes(s.drop_first(), false)
    }
}

/// Removes ANSI escape codes from the input string.
pub fn remove_ansi_escape_codes(input: &str) -> (output: String)
    ensures
        output@ == without_escapes(input@, false),
{
    let chars = chars_of(input);
    let mut output: Vec<char> = Vec::new();
    let mut in_escape = false;
    let mut i: usize = 0;
    assert(chars@.skip(0) == chars@);
    while i < chars.len()
        invariant
            i <= chars@.len(),
            chars@ == input@,
            output@ + without_escapes(chars@.skip(i as int), in_escape) == without_escapes(input@, false),
        decreases chars@.len() - i,
    {
        let c = chars[i];
        let ghost rest = chars@.skip(i as int);
        assert(rest[0] == c);
        assert(rest.drop_first() == chars@.skip(i + 1));
        if in_escape {
            if c == 'm' {
                in_escape = false;
            }
        } else if c == '\x1B' {
            in_escape = true;
        } else {
            let ghost before = output@;
            output.push(c);
            assert(before + (seq![c] + without_escapes(rest.drop_first(), false)) == output@ + without_escapes(
                rest.drop_first(),
                false,
            ));
        }
        i = i + 1;
    }
    assert(without_escapes(chars@.skip(i as int), in_escape) == Seq::<char>::empty());
    assert(output@ + Seq::<char>::empty() == output@);
    string_from_chars(output.as_slice())
}

/// The path of the current branch that the HEAD file `content` names: the
/// last space-separated part of it, up to its first line break.
pub open spec fn head_branch_path(content: Seq<char>) -> Seq<char> {
    split_char(split_char(content, ' ').last(), '\n')[0]
}

/// The message of an empty HEAD file.
pub open spec fn empty_head_message() -> Seq<char> {
    "HEAD file is empty\n"@
}

/// The path inside the HEAD file `head_content`: the one that names the
/// current branch. An empty HEAD file is an error.
pub fn get_current_branch_path(head_content: &str) -> (path: Result<String, String>)
    ensures
        head_content@.len() == 0 ==> (path matches Err(m) && m@ == empty_head_message()),
        head_content@.len() > 0 ==> (path matches Ok(p) && p@ == head_branch_path(head_content@)),
{
    let chars = chars_of(head_content);
    if chars.len() == 0 {
        return Err("HEAD file is empty\n".to_string());
    }
    let parts = split_on_char(chars.as_slice(), ' ');
    assert(char_lines(parts@).len() > 0);
    let last = &parts[parts.len() - 1];
    let lines = split_on_char(last.as_slice(), '\n');
    assert(char_lines(lines@).len() > 0);
    Ok(string_from_chars(lines[0].as_slice()))
}

/// The commit hash that the file of a branch holds: its first line.
pub fn get_branch_commit_hash(branch_content: &str) -> (hash: String)
    ensures
        hash@ == split_char(branch_content@, '\n')[0],
{
    let chars = chars_of(branch_content);
    let lines = split_on_char(chars.as_slice(), '\n');
    assert(char_lines(lines@).len() > 0);
    string_from_chars(lines[0].as_slice())
}

/// What `git branch` does for its arguments.
#[derive(Debug, Clone, PartialEq, Eq)]
pub enum BranchAction {
    /// List the branches.
    List,
    /// Delete the branch.
    Delete(String),
    /// Rename the branch to the new name.
    Rename(String, String),
    /// Rename the current branch to the new name.
    RenameCurrent(String),
    /// Create the branch from the named one, or from the current one.
    Create(String, Option<String>),
    /// Nothing to do.
    Nothing,
    /// The option is not known.
    InvalidOption,
}

/// The action of `git branch` as a mathematical value.
pub enum BranchActionView {
    List,
    Delete(Seq<char>),
    Rename(Seq<char>, Seq<char>),
    RenameCurrent(Seq<char>),
    Create(Seq<char>, Option<Seq<char>>),
    Nothing,
    InvalidOption,
}

/// An optional text as a mathematical value.
pub open spec fn opt_str(s: Option<&str>) -> Option<Seq<char>> {
    match s {
        Some(v) => Some(v@),
        None => None,
    }
}

impl View for BranchAction {
    type V = BranchActionView;

    open spec fn view(&self) -> BranchActionView {
        match self {
            BranchAction::List => BranchActionView::List,
            BranchAction::Delete(n) => BranchActionView::Delete(n@),
            BranchAction::Rename(n, m) => BranchActionView::Rename(n@, m@),
            BranchAction::RenameCurrent(m) => BranchActionView::RenameCurrent(m@),
            BranchAction::Create(n, f) => BranchActionView::Create(
                n@,
                match f {
                    Some(v) => Some(v@),
                    None => None,
                },
            ),
            BranchAction::Nothing => BranchActionView::Nothing,
            BranchAction::InvalidOption => BranchActionView::InvalidOption,
        }
    }
}

/// The action of `git branch` with a name, an option and a new name: with
/// a name, `-l` lists, `-d` deletes, `-m` renames to the new name, `-c`
/// creates; without an option the branch is created, from the new name when
/// there is one. Without a name, a new name renames the current branch, and
/// otherwise the branches are listed.
pub open spec fn branch_action(name: Option<Seq<char>>, option: Option<Seq<char>>, new_name: Option<Seq<char>>) -> BranchActionView {
    match name {
        Some(n) => match option {
            Some(o) => if o == seq!['-', 'l'] {
                BranchActionView::List
            } else if o == seq!['-', 'd'] {
                BranchActionView::Delete(n)
            } else if o == seq!['-', 'm'] {
                match new_name {
                    Some(m) => BranchActionView::Rename(n, m),
                    None => BranchActionView::Nothing,
                }
            } else if o == seq!['-', 'c'] {
                BranchActionView::Create(n, None)
            } else {
                BranchActionView::InvalidOption
            },
            None => BranchActionView::Create(n, new_name),
        },
        None => match new_name {
            Some(m) => BranchActionView::RenameCurrent(m),
            None => BranchActionView::List,
        },
    }
}

/// What `git branch` writes before failing for the action `action`:
/// `fatal: Invalid option.` and a line break for an unknown option,
/// nothing for the other actions.
pub open spec fn refusal_output(action: BranchActionView) -> Seq<char> {
    match action {
        BranchActionView::InvalidOption => "fatal: Invalid option.\n"@,
        _ => seq![],
    }
}

impl BranchAction {
    /// The text written before the command fails for this action: the
    /// refusal of an unknown option, or nothing.
    pub fn refusal_output(&self) -> (text: String)
        ensures
            text@ == refusal_output(self@),
    {
        match self {
            BranchAction::InvalidOption => "fatal: Invalid option.\n".to_string(),
            _ => String::new(),
        }
    }
}

fn copy_opt(s: Option<&str>) -> (c: Option<String>)
    ensures
        match c {
            Some(v) => opt_str(s) == Some(v@),
            None => s is None,
        },
{
    match s {
        Some(v) => Some(v.to_string()),
        None => None,
    }
}

/// Lists all the branches in the repo or creates a new branch depending on
/// the arguments: decides what `git branch` does.
pub fn git_branch(name: Option<String>, option: Option<&str>, new_name: Option<&str>) -> (action: BranchAction)
    ensures
        action@ == branch_action(
            match name {
                Some(n) => Some(n@),
                None => None,
            },
            opt_str(option),
            opt_str(new_name),
        ),
{
    match name {
        Some(n) => match option {
            Some(o) => {
                let oc = chars_of(o);
                let l = vec!['-', 'l'];
                let d = vec!['-', 'd'];
                let m = vec!['-', 'm'];
                let c = vec!['-', 'c'];
                assert(l@ == seq!['-', 'l']);
                assert(d@ == seq!['-', 'd']);
                assert(m@ == seq!['-', 'm']);
                assert(c@ == seq!['-', 'c']);
                if chars_equal(oc.as_slice(), l.as_slice()) {
                    BranchAction::List
                } else if chars_equal(oc.as_slice(), d.as_slice()) {
                    BranchAction::Delete(n)
                } else if chars_equal(oc.as_slice(), m.as_slice()) {
                    match new_name {
                        Some(nn) => BranchAction::Rename(n, nn.to_string()),
                        None => BranchAction::Nothing,
                    }
                } else if chars_equal(oc.as_slice(), c.as_slice()) {
                    BranchAction::Create(n, None)
                } else {
                    BranchAction::InvalidOption
                }
            },
            None => BranchAction::Create(n, copy_opt(new_name)),
        },
        None => match new_name {
            Some(nn) => BranchAction::RenameCurrent(nn.to_string()),
            None => BranchAction::List,
        },
    }
}

/// What the repository holds that creating a branch depends on.
pub struct BranchProbe {
    /// A branch with the new name exists.
    pub new_branch_exists: bool,
    /// The branch to create from exists.
    pub from_branch_exists: bool,
    /// How many branches the repository has.
    pub branch_count: usize,
}

/// Where the commit of a new branch comes from.
#[derive(Debug, Clone, PartialEq, Eq)]
pub enum BranchSource {
    /// The file of the named branch.
    Branch(String),
    /// The commit of the current branch.
    CurrentCommit,
}

/// The file of the branch `name` in the repository `git_dir`.
pub open spec fn branch_file(git_dir: Seq<char>, name: Seq<char>) -> Seq<char> {
    git_dir + "/refs/heads/"@ + name
}

/// The message of a branch that already exists.
pub open spec fn already_exists_message(name: Seq<char>) -> Seq<char> {
    "fatal: A branch named '"@ + name + "' already exists\n"@
}

/// The message of a branch to create from that does not exist.
pub open spec fn invalid_object_message(from: Seq<char>) -> Seq<char> {
    "fatal: Not a valid object name: '"@ + from + "'.\n"@
}

/// The message of a repository without commits.
pub open spec fn no_commit_message() -> Seq<char> {
    "fatal: Please commit something to create a branch\n"@
}

fn branch_file_exec(git_dir: &str, name: &str) -> (path: String)
    ensures
        path@ == branch_file(git_dir@, name@),
{
    let mut path = git_dir.to_string();
    path.append("/refs/heads/");
    path.append(name);
    path
}

/// Decides how the branch `branch_name` is created in `git_dir`: from the
/// branch `from` when it is given, else from the current branch. Returns
/// the file of the new branch and where its commit comes from, or the
/// message of the failure.
pub fn create_new_branch(git_dir: &str, branch_name: &str, from: Option<&str>, probe: &BranchProbe) -> (result: Result<(String, BranchSource), String>)
    ensures
        match from {
            Some(f) => if probe.new_branch_exists {
                result matches Err(m) && m@ == already_exists_message(branch_name@)
            } else if !probe.from_branch_exists {
                result matches Err(m) && m@ == invalid_object_message(f@)
            } else {
                result matches Ok((path, BranchSource::Branch(source))) && path@ == branch_file(git_dir@, branch_name@)
                    && source@ == branch_file(git_dir@, f@)
            },
            None => if probe.branch_count == 0 {
                result matches Err(m) && m@ == no_commit_message()
            } else if probe.new_branch_exists {
                result matches Err(m) && m@ == already_exists_message(branch_name@)
            } else {
                result matches Ok((path, BranchSource::CurrentCommit)) && path@ == branch_file(git_dir@, branch_name@)
            },
        },
{
    match from {
        Some(f) => {
            if probe.new_branch_exists {
                let mut m = String::new();
                m.append("fatal: A branch named '");
                m.append(branch_name);
                m.append("' already exists\n");
                return Err(m);
            }
            if !probe.from_branch_exists {
                let mut m = String::new();
                m.append("fatal: Not a valid object name: '");
                m.append(f);
                m.append("'.\n");
                return Err(m);
            }
            Ok((branch_file_exec(git_dir, branch_name), BranchSource::Branch(branch_file_exec(git_dir, f))))
        },
        None => {
            if probe.branch_count == 0 {
                let mut m = String::new();
                m.append("fatal: Please commit something to create a branch\n");
                return Err(m);
            }
            if probe.new_branch_exists {
                let mut m = String::new();
                m.append("fatal: A branch named '");
                m.append(branch_name);
                m.append("' already exists\n");
                return Err(m);
            }
            Ok((branch_file_exec(git_dir, branch_name), BranchSource::CurrentCommit))
        },
    }
}

/// The message that logs a command with an option.
pub fn log_command(command: &str, option: &str, time: &str) -> (message: String)
    ensures
        message@ == "Command '"@ + command@ + "': "@ + option@ + " "@ + time@,
{
    let mut message = String::new();
    message.append("Command '");
    message.append(command);
    message.append("': ");
    message.append(option);
    message.append(" ");
    message.append(time);
    message
}


/// The name of the branch that the path `path` names: its last
/// `/`-separated part.
pub fn branch_name_of(path: &str) -> (name: String)
    ensures
        name@ == split_char(path@, '/').last(),
{
    let chars = chars_of(path);
    let parts = split_on_char(chars.as_slice(), '/');
    assert(char_lines(parts@).len() > 0);
    assert(char_lines(parts@).last() == parts@[parts@.len() - 1]@);
    string_from_chars(parts[parts.len() - 1].as_slice())
}

/// The line that lists the branch `name`: marked and coloured when it is
/// the current branch.
pub open spec fn branch_line(name: Seq<char>, current: Seq<char>) -> Seq<char> {
    if name == current {
        "*\x1B[32m "@ + name + "\x1B[0m\n"@
    } else {
        "  "@ + name + "\n"@
    }
}

/// The listing of the branches `names`, one line each, in order.
pub open spec fn branch_list_text(names: Seq<Seq<char>>, current: Seq<char>) -> Seq<char>
    decreases names.len(),
{
    if names.len() == 0 {
        seq![]
    } else {
        branch_list_text(names.drop_last(), current) + branch_line(names.last(), current)
    }
}

/// Lists the branches `branch_names`, marking `current_branch`, the branch
/// that HEAD names.
pub fn list_branches(branch_names: &Vec<String>, current_branch: &str) -> (text: String)
    ensures
        text@ == branch_list_text(branch_names@.map_values(|b: String| b@), current_branch@),
{
    let ghost names = branch_names@.map_values(|b: String| b@);
    let current = chars_of(current_branch);
    let mut text = String::new();
    let mut i: usize = 0;
    while i < branch_names.len()
        invariant
            i <= branch_names@.len(),
            names == branch_names@.map_values(|b: String| b@),
            current@ == current_branch@,
            text@ == branch_list_text(names.take(i as int), current_branch@),
        decreases branch_names@.len() - i,
    {
        assert(names.take(i + 1).drop_last() == names.take(i as int));
        assert(names.take(i + 1).last() == branch_names@[i as int]@);
        let name = branch_names[i].as_str();
        if chars_equal(chars_of(name).as_slice(), current.as_slice()) {
            text.append("*\x1B[32m ");
            text.append(name);
            text.append("\x1B[0m\n");
        } else {
            text.append("  ");
            text.append(name);
            text.append("\n");
        }
        i = i + 1;
    }
    assert(names.take(branch_names@.len() as int) == names);
    text
}

/// What deleting the branch `name` does: the message it writes, and
/// whether the branch's file is removed. A branch that does not exist
/// (`branch_content` is `None`) is not found; the branch that HEAD holds is
/// not deleted; otherwise the message gives the first seven characters of
/// the branch's commit.
pub open spec fn delete_outcome(
    name: Seq<char>,
    branch_content: Option<Seq<char>>,
    head_content: Seq<char>,
    working_dir: Option<Seq<char>>,
) -> (Seq<char>, bool) {
    match branch_content {
        None => ("error: branch '"@ + name + "' not found\n"@, false),
        Some(content) => if head_content == "refs/heads/"@ + name {
            match working_dir {
                Some(w) => ("error: Cannot delete branch "@ + name + " checked out at "@ + w, false),
                None => ("Error getting working dir.\n"@, false),
            }
        } else {
            ("Deleted "@ + name + " (was "@ + content.take(if content.len() < 7 { content.len() as int } else { 7 })
                + "\n)"@, true)
        },
    }
}

/// Decides what deleting the branch `branch_name` does, given the content
/// of its file if it exists, the content of HEAD, and the working
/// directory: the message to write and whether to remove the file.
pub fn delete_branch(
    branch_name: &str,
    branch_content: Option<&str>,
    head_content: &str,
    working_dir: Option<&str>,
) -> (outcome: (String, bool))
    ensures
        (outcome.0@, outcome.1) == delete_outcome(
            branch_name@,
            match branch_content {
                Some(c) => Some(c@),
                None => None,
            },
            head_content@,
            match working_dir {
                Some(w) => Some(w@),
                None => None,
            },
        ),
{
    match branch_content {
        None => {
            let mut m = String::new();
            m.append("error: branch '");
            m.append(branch_name);
            m.append("' not found\n");
            (m, false)
        },
        Some(content) => {
            let mut checked_out = String::new();
            checked_out.append("refs/heads/");
            checked_out.append(branch_name);
            if chars_equal(chars_of(head_content).as_slice(), chars_of(checked_out.as_str()).as_slice()) {
                match working_dir {
                    Some(w) => {
                        let mut m = String::new();
                        m.append("error: Cannot delete branch ");
                        m.append(branch_name);
                        m.append(" checked out at ");
                        m.append(w);
                        (m, false)
                    },
                    None => ("Error getting working dir.\n".to_string(), false),
                }
            } else {
                let chars = chars_of(content);
                let k: usize = if chars.len() < 7 { chars.len() } else { 7 };
                let short = string_from_chars(vstd::slice::slice_subrange(chars.as_slice(), 0, k));
                assert(short@ == content@.take(k as int));
                let mut m = String::new();
                m.append("Deleted ");
                m.append(branch_name);
                m.append(" (was ");
                m.append(short.as_str());
                m.append("\n)");
                (m, true)
            }
        },
    }
}

/// What renaming a branch changes: the branch file moves from `from_path`
/// to `to_path`, and HEAD is rewritten to `new_head` when it named the
/// branch.
pub struct RenamePlan {
    pub from_path: String,
    pub to_path: String,
    pub new_head: Option<String>,
}

/// The message of a branch to rename that does not exist.
pub open spec fn rename_missing_message(from: Seq<char>) -> Seq<char> {
    "error: refname refs/heads/"@ + from + " not found\nfatal: Branch rename failed\n"@
}

/// The message of a new branch name that is taken.
pub open spec fn rename_taken_message(to: Seq<char>) -> Seq<char> {
    "fatal: A branch named "@ + to + " already exists.\n"@
}

/// HEAD names the branch `from`.
pub open spec fn head_names_branch(head_content: Seq<char>, from: Seq<char>) -> bool {
    head_content.len() > 0 && head_branch_path(head_content) == "refs/heads/"@ + from
}

/// Decides how the branch `from` of `git_dir` is renamed to `to`, given
/// whether each of the two branch files exists and the content of HEAD: a
/// missing branch and a taken name are refused with their messages;
/// otherwise the file moves, and HEAD follows when it named the branch.
pub fn rename_branch_plan(
    git_dir: &str,
    from: &str,
    to: &str,
    from_exists: bool,
    to_exists: bool,
    head_content: &str,
) -> (result: Result<RenamePlan, String>)
    ensures
        !from_exists ==> (result matches Err(m) && m@ == rename_missing_message(from@)),
        from_exists && to_exists ==> (result matches Err(m) && m@ == rename_taken_message(to@)),
        from_exists && !to_exists ==> (result matches Ok(plan) && plan.from_path@ == branch_file(git_dir@, from@)
            && plan.to_path@ == branch_file(git_dir@, to@) && match plan.new_head {
            Some(h) => head_names_branch(head_content@, from@) && h@ == "ref: refs/heads/"@ + to@,
            None => !head_names_branch(head_content@, from@),
        }),
{
    if !from_exists {
        let mut m = "error: refname refs/heads/".to_string();
        m.append(from);
        m.append(" not found\nfatal: Branch rename failed\n");
        return Err(m);
    }
    if to_exists {
        let mut m = "fatal: A branch named ".to_string();
        m.append(to);
        m.append(" already exists.\n");
        return Err(m);
    }
    let mut expected = "refs/heads/".to_string();
    expected.append(from);
    let names = match get_current_branch_path(head_content) {
        Ok(p) => chars_equal(chars_of(p.as_str()).as_slice(), chars_of(expected.as_str()).as_slice()),
        Err(_) => false,
    };
    let new_head = if names {
        let mut h = "ref: refs/heads/".to_string();
        h.append(to);
        Some(h)
    } else {
        None
    };
    Ok(RenamePlan { from_path: branch_file_exec(git_dir, from), to_path: branch_file_exec(git_dir, to), new_head })
}

/// Law: what `git branch` does for its arguments. With a name and an
/// option, `-l` lists the branches, `-d` deletes the named branch, `-m`
/// renames it to the new name (and does nothing without one), `-c` creates
/// it from the current branch, and any other option is refused; with a name
/// and no option, the branch is created, from the new name's branch when
/// one is given. Without a name, a new name renames the current branch, and
/// otherwise the branches are listed.
pub proof fn law_branch_actions(n: Seq<char>, o: Seq<char>, m: Option<Seq<char>>)
    ensures
        branch_action(Some(n), Some("-l"@), m) == BranchActionView::List,
        branch_action(Some(n), Some("-d"@), m) == BranchActionView::Delete(n),
        branch_action(Some(n), Some("-m"@), m) == match m {
            Some(k) => BranchActionView::Rename(n, k),
            None => BranchActionView::Nothing,
        },
        branch_action(Some(n), Some("-c"@), m) == BranchActionView::Create(n, None),
        o != "-l"@ && o != "-d"@ && o != "-m"@ && o != "-c"@ ==> branch_action(Some(n), Some(o), m)
            == BranchActionView::InvalidOption,
        branch_action(Some(n), None, m) == BranchActionView::Create(n, m),
        forall|k: Seq<char>| branch_action(None, Some(o), Some(k)) == BranchActionView::RenameCurrent(k),
        branch_action(None, Some(o), None) == BranchActionView::List,
        branch_action(None, None, None) == BranchActionView::List,
        refusal_output(branch_action(Some(n), Some(o), m)).len() > 0 <==> (o != "-l"@ && o != "-d"@ && o != "-m"@
            && o != "-c"@),
{
    reveal_strlit("-l");
    reveal_strlit("-d");
    reveal_strlit("-m");
    reveal_strlit("-c");
    reveal_strlit("fatal: Invalid option.\n");
    assert("-l"@ =~= seq!['-', 'l']);
    assert("-d"@ =~= seq!['-', 'd']);
    assert("-m"@ =~= seq!['-', 'm']);
    assert("-c"@ =~= seq!['-', 'c']);
}

} // verus!
