//! The commands of the command line and the names that select them.
use vstd::prelude::*;
use crate::text::{chars_equal, chars_of};

verus! {

/// Enumeration representing Git commands.
#[derive(Debug, Clone, Copy, PartialEq, Eq, Structural)]
pub enum GitCommand {
    HashObject,
    CatFile,
    Init,
    Status,
    Add,
    Rm,
    Commit,
    Checkout,
    Log,
    Clone,
    Fetch,
    Merge,
    Remote,
    Pull,
    Push,
    Branch,
    ListFiles,
    ListTrees,
    CheckIgnore,
    ShowRef,
    Rebase,
    Tag,
    Config,
}

/// The command that a name selects.
pub open spec fn command_of(name: Seq<char>) -> Option<GitCommand> {
    if name == seq!['h', 'a', 's', 'h', '-', 'o', 'b', 'j', 'e', 'c', 't'] {
        Some(GitCommand::HashObject)
    } else if name == seq!['c', 'a', 't', '-', 'f', 'i', 'l', 'e'] {
        Some(GitCommand::CatFile)
    } else if name == seq!['i', 'n', 'i', 't'] {
        Some(GitCommand::Init)
    } else if name == seq!['s', 't', 'a', 't', 'u', 's'] {
        Some(GitCommand::Status)
    } else if name == seq!['a', 'd', 'd'] {
        Some(GitCommand::Add)
    } else if name == seq!['r', 'm'] {
        Some(GitCommand::Rm)
    } else if name == seq!['c', 'o', 'm', 'm', 'i', 't'] {
        Some(GitCommand::Commit)
    } else if name == seq!['c', 'h', 'e', 'c', 'k', 'o', 'u', 't'] {
        Some(GitCommand::Checkout)
    } else if name == seq!['l', 'o', 'g'] {
        Some(GitCommand::Log)
    } else if name == seq!['c', 'l', 'o', 'n', 'e'] {
        Some(GitCommand::Clone)
    } else if name == seq!['f', 'e', 't', 'c', 'h'] {
        Some(GitCommand::Fetch)
    } else if name == seq!['m', 'e', 'r', 'g', 'e'] {
        Some(GitCommand::Merge)
    } else if name == seq!['r', 'e', 'm', 'o', 't', 'e'] {
        Some(GitCommand::Remote)
    } else if name == seq!['p', 'u', 'l', 'l'] {
        Some(GitCommand::Pull)
    } else if name == seq!['p', 'u', 's', 'h'] {
        Some(GitCommand::Push)
    } else if name == seq!['b', 'r', 'a', 'n', 'c', 'h'] {
        Some(GitCommand::Branch)
    } else if name == seq!['l', 's', '-', 'f', 'i', 'l', 'e', 's'] {
        Some(GitCommand::ListFiles)
    } else if name == seq!['l', 's', '-', 't', 'r', 'e', 'e'] {
        Some(GitCommand::ListTrees)
    } else if name == seq!['c', 'h', 'e', 'c', 'k', '-', 'i', 'g', 'n', 'o', 'r', 'e'] {
        Some(GitCommand::CheckIgnore)
    } else if name == seq!['s', 'h', 'o', 'w', '-', 'r', 'e', 'f'] {
        Some(GitCommand::ShowRef)
    } else if name == seq!['r', 'e', 'b', 'a', 's', 'e'] {
        Some(GitCommand::Rebase)
    } else if name == seq!['t', 'a', 'g'] {
        Some(GitCommand::Tag)
    } else if name == seq!['c', 'o', 'n', 'f', 'i', 'g'] {
        Some(GitCommand::Config)
    } else {
        None
    }
}

/// Parses the name of a Git command; `None` when no command has that name.
pub fn parse_git_command(second_argument: &str) -> (command: Option<GitCommand>)
    ensures
        command == command_of(second_argument@),
{
    let name = chars_of(second_argument);
    let n_hashobject: Vec<char> = vec!['h', 'a', 's', 'h', '-', 'o', 'b', 'j', 'e', 'c', 't'];
    assert(n_hashobject@ == seq!['h', 'a', 's', 'h', '-', 'o', 'b', 'j', 'e', 'c', 't']);
    let n_catfile: Vec<char> = vec!['c', 'a', 't', '-', 'f', 'i', 'l', 'e'];
    assert(n_catfile@ == seq!['c', 'a', 't', '-', 'f', 'i', 'l', 'e']);
    let n_init: Vec<char> = vec!['i', 'n', 'i', 't'];
    assert(n_init@ == seq!['i', 'n', 'i', 't']);
    let n_status: Vec<char> = vec!['s', 't', 'a', 't', 'u', 's'];
    assert(n_status@ == seq!['s', 't', 'a', 't', 'u', 's']);
    let n_add: Vec<char> = vec!['a', 'd', 'd'];
    assert(n_add@ == seq!['a', 'd', 'd']);
    let n_rm: Vec<char> = vec!['r', 'm'];
    assert(n_rm@ == seq!['r', 'm']);
    let n_commit: Vec<char> = vec!['c', 'o', 'm', 'm', 'i', 't'];
    assert(n_commit@ == seq!['c', 'o', 'm', 'm', 'i', 't']);
    let n_checkout: Vec<char> = vec!['c', 'h', 'e', 'c', 'k', 'o', 'u', 't'];
    assert(n_checkout@ == seq!['c', 'h', 'e', 'c', 'k', 'o', 'u', 't']);
    let n_log: Vec<char> = vec!['l', 'o', 'g'];
    assert(n_log@ == seq!['l', 'o', 'g']);
    let n_clone: Vec<char> = vec!['c', 'l', 'o', 'n', 'e'];
    assert(n_clone@ == seq!['c', 'l', 'o', 'n', 'e']);
    let n_fetch: Vec<char> = vec!['f', 'e', 't', 'c', 'h'];
    assert(n_fetch@ == seq!['f', 'e', 't', 'c', 'h']);
    let n_merge: Vec<char> = vec!['m', 'e', 'r', 'g', 'e'];
    assert(n_merge@ == seq!['m', 'e', 'r', 'g', 'e']);
    let n_remote: Vec<char> = vec!['r', 'e', 'm', 'o', 't', 'e'];
    assert(n_remote@ == seq!['r', 'e', 'm', 'o', 't', 'e']);
    let n_pull: Vec<char> = vec!['p', 'u', 'l', 'l'];
    assert(n_pull@ == seq!['p', 'u', 'l', 'l']);
    let n_push: Vec<char> = vec!['p', 'u', 's', 'h'];
    assert(n_push@ == seq!['p', 'u', 's', 'h']);
    let n_branch: Vec<char> = vec!['b', 'r', 'a', 'n', 'c', 'h'];
    assert(n_branch@ == seq!['b', 'r', 'a', 'n', 'c', 'h']);
    let n_listfiles: Vec<char> = vec!['l', 's', '-', 'f', 'i', 'l', 'e', 's'];
    assert(n_listfiles@ == seq!['l', 's', '-', 'f', 'i', 'l', 'e', 's']);
    let n_listtrees: Vec<char> = vec!['l', 's', '-', 't', 'r', 'e', 'e'];
    assert(n_listtrees@ == seq!['l', 's', '-', 't', 'r', 'e', 'e']);
    let n_checkignore: Vec<char> = vec!['c', 'h', 'e', 'c', 'k', '-', 'i', 'g', 'n', 'o', 'r', 'e'];
    assert(n_checkignore@ == seq!['c', 'h', 'e', 'c', 'k', '-', 'i', 'g', 'n', 'o', 'r', 'e']);
    let n_showref: Vec<char> = vec!['s', 'h', 'o', 'w', '-', 'r', 'e', 'f'];
    assert(n_showref@ == seq!['s', 'h', 'o', 'w', '-', 'r', 'e', 'f']);
    let n_rebase: Vec<char> = vec!['r', 'e', 'b', 'a', 's', 'e'];
    assert(n_rebase@ == seq!['r', 'e', 'b', 'a', 's', 'e']);
    let n_tag: Vec<char> = vec!['t', 'a', 'g'];
    assert(n_tag@ == seq!['t', 'a', 'g']);
    let n_config: Vec<char> = vec!['c', 'o', 'n', 'f', 'i', 'g'];
    assert(n_config@ == seq!['c', 'o', 'n', 'f', 'i', 'g']);
    if chars_equal(name.as_slice(), n_hashobject.as_slice()) {
        Some(GitCommand::HashObject)
    } else if chars_equal(name.as_slice(), n_catfile.as_slice()) {
        Some(GitCommand::CatFile)
    } else if chars_equal(name.as_slice(), n_init.as_slice()) {
        Some(GitCommand::Init)
    } else if chars_equal(name.as_slice(), n_status.as_slice()) {
        Some(GitCommand::Status)
    } else if chars_equal(name.as_slice(), n_add.as_slice()) {
        Some(GitCommand::Add)
    } else if chars_equal(name.as_slice(), n_rm.as_slice()) {
        Some(GitCommand::Rm)
    } else if chars_equal(name.as_slice(), n_commit.as_slice()) {
        Some(GitCommand::Commit)
    } else if chars_equal(name.as_slice(), n_checkout.as_slice()) {
        Some(GitCommand::Checkout)
    } else if chars_equal(name.as_slice(), n_log.as_slice()) {
        Some(GitCommand::Log)
    } else if chars_equal(name.as_slice(), n_clone.as_slice()) {
        Some(GitCommand::Clone)
    } else if chars_equal(name.as_slice(), n_fetch.as_slice()) {
        Some(GitCommand::Fetch)
    } else if chars_equal(name.as_slice(), n_merge.as_slice()) {
        Some(GitCommand::Merge)
    } else if chars_equal(name.as_slice(), n_remote.as_slice()) {
        Some(GitCommand::Remote)
    } else if chars_equal(name.as_slice(), n_pull.as_slice()) {
        Some(GitCommand::Pull)
    } else if chars_equal(name.as_slice(), n_push.as_slice()) {
        Some(GitCommand::Push)
    } else if chars_equal(name.as_slice(), n_branch.as_slice()) {
        Some(GitCommand::Branch)
    } else if chars_equal(name.as_slice(), n_listfiles.as_slice()) {
        Some(GitCommand::ListFiles)
    } else if chars_equal(name.as_slice(), n_listtrees.as_slice()) {
        Some(GitCommand::ListTrees)
    } else if chars_equal(name.as_slice(), n_checkignore.as_slice()) {
        Some(GitCommand::CheckIgnore)
    } else if chars_equal(name.as_slice(), n_showref.as_slice()) {
        Some(GitCommand::ShowRef)
    } else if chars_equal(name.as_slice(), n_rebase.as_slice()) {
        Some(GitCommand::Rebase)
    } else if chars_equal(name.as_slice(), n_tag.as_slice()) {
        Some(GitCommand::Tag)
    } else if chars_equal(name.as_slice(), n_config.as_slice()) {
        Some(GitCommand::Config)
    } else {
        None
    }
}


/// One call of `git branch` that the command line makes: the name, the
/// option and the new name handed to `git_branch`, what is printed when
/// the call succeeds, and what is printed in place of its error when it
/// fails (its own error is printed when there is none).
pub struct BranchCall {
    pub name: Option<String>,
    pub option: Option<String>,
    pub new_name: Option<String>,
    pub on_success: Option<String>,
    pub on_error: Option<String>,
}

/// A call of `git branch` as a mathematical value.
pub struct BranchCallView {
    pub name: Option<Seq<char>>,
    pub option: Option<Seq<char>>,
    pub new_name: Option<Seq<char>>,
    pub on_success: Option<Seq<char>>,
    pub on_error: Option<Seq<char>>,
}

/// An optional text as a mathematical value.
pub open spec fn opt_view(s: Option<String>) -> Option<Seq<char>> {
    match s {
        Some(v) => Some(v@),
        None => None,
    }
}

impl View for BranchCall {
    type V = BranchCallView;

    open spec fn view(&self) -> BranchCallView {
        BranchCallView {
            name: opt_view(self.name),
            option: opt_view(self.option),
            new_name: opt_view(self.new_name),
            on_success: opt_view(self.on_success),
            on_error: opt_view(self.on_error),
        }
    }
}

/// The calls as mathematical values.
pub open spec fn calls_view(calls: Seq<BranchCall>) -> Seq<BranchCallView> {
    calls.map_values(|c: BranchCall| c@)
}

/// The arguments as mathematical values.
pub open spec fn args_view(args: Seq<String>) -> Seq<Seq<char>> {
    args.map_values(|a: String| a@)
}

/// The call that lists the branches.
pub open spec fn list_call() -> BranchCallView {
    BranchCallView {
        name: None,
        option: None,
        new_name: None,
        on_success: None,
        on_error: Some("Error showing branches."@),
    }
}

/// The call of `git branch` with the option `option` on `name`, which
/// prints `on_success` when it succeeds.
pub open spec fn option_call(name: Seq<char>, option: Seq<char>, on_success: Option<Seq<char>>) -> BranchCallView {
    BranchCallView { name: Some(name), option: Some(option), new_name: None, on_success, on_error: None }
}

/// What the command line does for `git branch` with the arguments `args`
/// (the program, `branch`, then the arguments of the command): no more
/// arguments, or `-l`, list the branches; one name creates that branch;
/// `-m` renames the current branch, `-c` creates and `-d` deletes the
/// named branch; two names create the first from the second. More
/// arguments go to `branch_option_calls`.
pub open spec fn branch_calls(args: Seq<Seq<char>>) -> Result<Seq<BranchCallView>, Seq<char>> {
    if args.len() == 2 {
        Ok(seq![list_call()])
    } else if args.len() == 3 {
        if args[2] == seq!['-', 'l'] {
            Ok(seq![list_call()])
        } else {
            Ok(
                seq![BranchCallView {
                    name: Some(args[2]),
                    option: None,
                    new_name: None,
                    on_success: Some("Branch "@ + args[2] + " successfully created!"@),
                    on_error: None,
                }],
            )
        }
    } else if args.len() == 4 {
        if args[2] == seq!['-', 'm'] {
            Ok(
                seq![BranchCallView {
                    name: None,
                    option: Some("-m"@),
                    new_name: Some(args[3]),
                    on_success: Some("Current branch name modified to "@ + args[3]),
                    on_error: None,
                }],
            )
        } else if args[2] == seq!['-', 'c'] {
            Ok(seq![option_call(args[3], "-c"@, Some("Branch "@ + args[3] + " successfully created!"@))])
        } else if args[2] == seq!['-', 'd'] {
            Ok(seq![option_call(args[3], "-d"@, None)])
        } else {
            Ok(
                seq![BranchCallView {
                    name: Some(args[2]),
                    option: None,
                    new_name: Some(args[3]),
                    on_success: Some("Branch "@ + args[2] + " succesfully created from "@ + args[3]),
                    on_error: None,
                }],
            )
        }
    } else {
        branch_option_calls(args)
    }
}

/// What the command line does for `git branch` with five or more
/// arguments: `-m` renames the first name to the second and takes no
/// more; `-d` deletes and `-c` creates each name, in order; any other
/// option is refused.
pub open spec fn branch_option_calls(args: Seq<Seq<char>>) -> Result<Seq<BranchCallView>, Seq<char>> {
    if args[2] == seq!['-', 'm'] {
        if args.len() == 5 {
            Ok(
                seq![BranchCallView {
                    name: Some(args[3]),
                    option: Some("-m"@),
                    new_name: Some(args[4]),
                    on_success: Some("Branch "@ + args[3] + " successfully modified to "@ + args[4]),
                    on_error: None,
                }],
            )
        } else {
            Err("fatal: too many arguments for a rename operation"@)
        }
    } else if args[2] == seq!['-', 'd'] {
        Ok(args.skip(3).map_values(|a: Seq<char>| option_call(a, "-d"@, None)))
    } else if args[2] == seq!['-', 'c'] {
        Ok(args.skip(3).map_values(|a: Seq<char>| option_call(a, "-c"@, Some("Branch "@ + a + " succesfully created!"@))))
    } else {
        Err("Invalid option!"@)
    }
}

fn is_flag(arg: &String, flag: char) -> (b: bool)
    ensures
        b == (arg@ == seq!['-', flag]),
{
    let chars = chars_of(arg.as_str());
    let expected: Vec<char> = vec!['-', flag];
    assert(expected@ == seq!['-', flag]);
    chars_equal(chars.as_slice(), expected.as_slice())
}

fn message2(a: &str, b: &str) -> (m: String)
    ensures
        m@ == a@ + b@,
{
    let mut m = String::new();
    m.append(a);
    m.append(b);
    m
}

fn message3(a: &str, b: &str, c: &str) -> (m: String)
    ensures
        m@ == a@ + b@ + c@,
{
    let mut m = String::new();
    m.append(a);
    m.append(b);
    m.append(c);
    m
}

fn message4(a: &str, b: &str, c: &str, d: &str) -> (m: String)
    ensures
        m@ == a@ + b@ + c@ + d@,
{
    let mut m = String::new();
    m.append(a);
    m.append(b);
    m.append(c);
    m.append(d);
    m
}

fn list_branches_call() -> (call: BranchCall)
    ensures
        call@ == list_call(),
{
    BranchCall {
        name: None,
        option: None,
        new_name: None,
        on_success: None,
        on_error: Some("Error showing branches.".to_string()),
    }
}

/// Decides what the command line does for `git branch`: the calls of
/// `git_branch` to make, in order, or the message that refuses the
/// arguments.
pub fn handle_branch(args: &Vec<String>) -> (calls: Result<Vec<BranchCall>, String>)
    requires
        args@.len() >= 2,
    ensures
        match calls {
            Ok(c) => branch_calls(args_view(args@)) == Ok::<Seq<BranchCallView>, Seq<char>>(calls_view(c@)),
            Err(m) => branch_calls(args_view(args@)) == Err::<Seq<BranchCallView>, Seq<char>>(m@),
        },
{
    let ghost a = args_view(args@);
    let n = args.len();
    if n == 2 {
        let calls = vec![list_branches_call()];
        assert(calls_view(calls@) == seq![list_call()]);
        return Ok(calls);
    }
    if n == 3 {
        assert(a[2] == args@[2]@);
        if is_flag(&args[2], 'l') {
            let calls = vec![list_branches_call()];
            assert(calls_view(calls@) == seq![list_call()]);
            return Ok(calls);
        }
        let call = BranchCall {
            name: Some(args[2].clone()),
            option: None,
            new_name: None,
            on_success: Some(message3("Branch ", args[2].as_str(), " successfully created!")),
            on_error: None,
        };
        let calls = vec![call];
        assert(calls_view(calls@) == seq![calls@[0]@]);
        return Ok(calls);
    }
    if n == 4 {
        assert(a[2] == args@[2]@ && a[3] == args@[3]@);
        let call = if is_flag(&args[2], 'm') {
            BranchCall {
                name: None,
                option: Some("-m".to_string()),
                new_name: Some(args[3].clone()),
                on_success: Some(message2("Current branch name modified to ", args[3].as_str())),
                on_error: None,
            }
        } else if is_flag(&args[2], 'c') {
            BranchCall {
                name: Some(args[3].clone()),
                option: Some("-c".to_string()),
                new_name: None,
                on_success: Some(message3("Branch ", args[3].as_str(), " successfully created!")),
                on_error: None,
            }
        } else if is_flag(&args[2], 'd') {
            BranchCall {
                name: Some(args[3].clone()),
                option: Some("-d".to_string()),
                new_name: None,
                on_success: None,
                on_error: None,
            }
        } else {
            BranchCall {
                name: Some(args[2].clone()),
                option: None,
                new_name: Some(args[3].clone()),
                on_success: Some(message4("Branch ", args[2].as_str(), " succesfully created from ", args[3].as_str())),
                on_error: None,
            }
        };
        let calls = vec![call];
        assert(calls_view(calls@) == seq![calls@[0]@]);
        return Ok(calls);
    }
    handle_branch_options(args)
}

/// Decides what the command line does for `git branch` with five or more
/// arguments.
pub fn handle_branch_options(args: &Vec<String>) -> (calls: Result<Vec<BranchCall>, String>)
    requires
        args@.len() >= 5,
    ensures
        match calls {
            Ok(c) => branch_option_calls(args_view(args@)) == Ok::<Seq<BranchCallView>, Seq<char>>(calls_view(c@)),
            Err(m) => branch_option_calls(args_view(args@)) == Err::<Seq<BranchCallView>, Seq<char>>(m@),
        },
{
    let ghost a = args_view(args@);
    let n = args.len();
    assert(a[2] == args@[2]@);
    if is_flag(&args[2], 'm') {
        if n == 5 {
            assert(a[3] == args@[3]@ && a[4] == args@[4]@);
            let call = BranchCall {
                name: Some(args[3].clone()),
                option: Some("-m".to_string()),
                new_name: Some(args[4].clone()),
                on_success: Some(message4("Branch ", args[3].as_str(), " successfully modified to ", args[4].as_str())),
                on_error: None,
            };
            let calls = vec![call];
            assert(calls_view(calls@) == seq![calls@[0]@]);
            return Ok(calls);
        }
        return Err("fatal: too many arguments for a rename operation".to_string());
    }
    let delete = is_flag(&args[2], 'd');
    let create = is_flag(&args[2], 'c');
    if !delete && !create {
        return Err("Invalid option!".to_string());
    }
    let ghost expected = if delete {
        a.skip(3).map_values(|x: Seq<char>| option_call(x, "-d"@, None))
    } else {
        a.skip(3).map_values(|x: Seq<char>| option_call(x, "-c"@, Some("Branch "@ + x + " succesfully created!"@)))
    };
    let mut calls: Vec<BranchCall> = Vec::new();
    let mut i: usize = 3;
    while i < n
        invariant
            3 <= i <= n,
            n == args@.len(),
            a == args_view(args@),
            expected.len() == n - 3,
            delete ==> expected == a.skip(3).map_values(|x: Seq<char>| option_call(x, "-d"@, None)),
            !delete ==> expected == a.skip(3).map_values(
                |x: Seq<char>| option_call(x, "-c"@, Some("Branch "@ + x + " succesfully created!"@)),
            ),
            calls_view(calls@) == expected.take(i - 3),
        decreases n - i,
    {
        assert(a[i as int] == args@[i as int]@);
        assert(a.skip(3)[i - 3] == a[i as int]);
        let call = if delete {
            BranchCall {
                name: Some(args[i].clone()),
                option: Some("-d".to_string()),
                new_name: None,
                on_success: None,
                on_error: None,
            }
        } else {
            BranchCall {
                name: Some(args[i].clone()),
                option: Some("-c".to_string()),
                new_name: None,
                on_success: Some(message3("Branch ", args[i].as_str(), " succesfully created!")),
                on_error: None,
            }
        };
        let ghost before = calls@;
        calls.push(call);
        assert(calls_view(calls@) == calls_view(before).push(call@));
        assert(expected.take(i - 2) == expected.take(i - 3).push(expected[i - 3]));
        i = i + 1;
    }
    assert(expected.take(n - 3) == expected);
    Ok(calls)
}


/// What `git checkout` does with an option and the arguments of the
/// command line.
pub enum CheckoutAction {
    /// `-b`: create the branch and check it out.
    CreateAndCheckoutBranch(String),
    /// `-B`: create the branch, or reset it, and check it out.
    CreateOrResetBranch(String),
    /// `--detach`: check out the commit with a detached head.
    CheckoutCommitDetached(String),
    /// `-f`: check out the branch, discarding local changes.
    ForceCheckout(String),
    /// Any other option names the branch to check out.
    CheckoutBranch(String),
}

/// The options of `git checkout` that take the name that follows them.
pub open spec fn checkout_takes_name(option: Seq<char>) -> bool {
    ||| option == seq!['-', 'b']
    ||| option == seq!['-', 'B']
    ||| option == seq!['-', '-', 'd', 'e', 't', 'a', 'c', 'h']
    ||| option == seq!['-', 'f']
}

/// Decides what `git checkout` does with `option` and the command line
/// `args`, whose fourth argument is the name that an option takes.
pub fn handle_checkout_option(option: &str, args: &Vec<String>) -> (action: CheckoutAction)
    requires
        checkout_takes_name(option@) ==> args@.len() >= 4,
    ensures
        option@ == seq!['-', 'b'] ==> (action matches CheckoutAction::CreateAndCheckoutBranch(n) && n@ == args@[3]@),
        option@ == seq!['-', 'B'] ==> (action matches CheckoutAction::CreateOrResetBranch(n) && n@ == args@[3]@),
        option@ == seq!['-', '-', 'd', 'e', 't', 'a', 'c', 'h'] ==> (action matches CheckoutAction::CheckoutCommitDetached(
            n,
        ) && n@ == args@[3]@),
        option@ == seq!['-', 'f'] ==> (action matches CheckoutAction::ForceCheckout(n) && n@ == args@[3]@),
        !checkout_takes_name(option@) ==> (action matches CheckoutAction::CheckoutBranch(n) && n@ == option@),
{
    let o = chars_of(option);
    let b: Vec<char> = vec!['-', 'b'];
    let big_b: Vec<char> = vec!['-', 'B'];
    let detach: Vec<char> = vec!['-', '-', 'd', 'e', 't', 'a', 'c', 'h'];
    let f: Vec<char> = vec!['-', 'f'];
    assert(b@ == seq!['-', 'b']);
    assert(big_b@ == seq!['-', 'B']);
    assert(detach@ == seq!['-', '-', 'd', 'e', 't', 'a', 'c', 'h']);
    assert(f@ == seq!['-', 'f']);
    if chars_equal(o.as_slice(), b.as_slice()) {
        CheckoutAction::CreateAndCheckoutBranch(args[3].clone())
    } else if chars_equal(o.as_slice(), big_b.as_slice()) {
        CheckoutAction::CreateOrResetBranch(args[3].clone())
    } else if chars_equal(o.as_slice(), detach.as_slice()) {
        CheckoutAction::CheckoutCommitDetached(args[3].clone())
    } else if chars_equal(o.as_slice(), f.as_slice()) {
        CheckoutAction::ForceCheckout(args[3].clone())
    } else {
        CheckoutAction::CheckoutBranch(option.to_string())
    }
}

/// What `Path::parent` gives for a path: the path without its last
/// component, or nothing when the path ends in a root or a prefix or is
/// empty.
pub uninterp spec fn path_parent(path: Seq<char>) -> Option<Seq<char>>;

/// The parent of the path `path`.
///
/// Calls `std::path::Path::parent` on `Path::new(path)` and turns the
/// parent back into a string. The contract names the result `path_parent`
/// of the path.
#[verifier::external_body]
fn parent_path(path: &str) -> (parent: Option<String>)
    ensures
        opt_view(parent) == path_parent(path@),
{
    std::path::Path::new(path).parent().map(|p| p.to_string_lossy().to_string())
}

/// The message of a git directory without a parent.
pub open spec fn working_dir_error() -> Seq<char> {
    "Error al obtener el working dir"@
}

/// The working directory of the git directory `git_dir`: its parent.
pub fn get_working_directory(git_dir: &str) -> (dir: Result<String, String>)
    ensures
        match path_parent(git_dir@) {
            Some(p) => dir matches Ok(d) && d@ == p,
            None => dir matches Err(m) && m@ == working_dir_error(),
        },
{
    match parent_path(git_dir) {
        Some(p) => Ok(p),
        None => Err("Error al obtener el working dir".to_string()),
    }
}

/// The working directory of the git directory `git_dir`, as `git status`
/// looks for it.
pub fn get_working_directory_status(git_dir: &str) -> (dir: Result<String, String>)
    ensures
        match path_parent(git_dir@) {
            Some(p) => dir matches Ok(d) && d@ == p,
            None => dir matches Err(m) && m@ == working_dir_error(),
        },
{
    get_working_directory(git_dir)
}

} // verus!
