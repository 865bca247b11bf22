//! `git init`.
use vstd::prelude::*;

verus! {

/// The message that logs a `git init` of the repository at `git_dir`.
pub fn log_init(git_dir: &str, time: &str) -> (message: String)
    ensures
        message@ == "Command 'git init': Initialized repository at '"@ + git_dir@ + "'"@ + time@,
{
    let mut message = String::new();
    message.append("Command 'git init': Initialized repository at '");
    message.append(git_dir);
    message.append("'");
    message.append(time);
    message
}

/// The parameters of a `git init`: the directory, the initial branch and
/// the template directory.
pub type InitParamsView = (Seq<char>, Seq<char>, Option<Seq<char>>);

/// The parameters that the arguments from position `i` on leave, starting
/// from `params`: `-b` or `--initial-branch` and the next argument name the
/// branch, `--template` and the next one the template directory, and any
/// other argument the directory. A switch without a next argument is
/// passed over.
pub open spec fn init_params_from(args: Seq<Seq<char>>, i: nat, params: InitParamsView) -> InitParamsView
    decreases args.len() - i,
{
    if i >= args.len() {
        params
    } else if args[i as int] == "-b"@ || args[i as int] == "--initial-branch"@ {
        if i + 1 < args.len() {
            init_params_from(args, i + 2, (params.0, args[i + 1 as int], params.2))
        } else {
            init_params_from(args, i + 1, params)
        }
    } else if args[i as int] == "--template"@ {
        if i + 1 < args.len() {
            init_params_from(args, i + 2, (params.0, params.1, Some(args[i + 1 as int])))
        } else {
            init_params_from(args, i + 1, params)
        }
    } else {
        init_params_from(args, i + 1, (args[i as int], params.1, params.2))
    }
}

/// The parameters of `git init` with the command line `args` (the
/// command's own two words first) run from the directory `current_dir`:
/// the directory, `main` and no template unless the arguments say
/// otherwise. Without a current directory, the arguments are not read.
pub open spec fn init_params(args: Seq<Seq<char>>, current_dir: Option<Seq<char>>) -> InitParamsView {
    match current_dir {
        Some(dir) => init_params_from(args, 2, (dir, "main"@, None)),
        None => (Seq::<char>::empty(), "main"@, None),
    }
}

/// Extracts the directory, the initial branch and the template directory
/// of a `git init` from its arguments.
pub fn extract_init_params(args: &Vec<String>, current_dir: Option<String>) -> (params: (String, String, Option<String>))
    ensures
        (params.0@, params.1@, match params.2 {
            Some(t) => Some(t@),
            None => None,
        }) == init_params(args@.map_values(|a: String| a@), match current_dir {
            Some(d) => Some(d@),
            None => None,
        }),
{
    let ghost av = args@.map_values(|a: String| a@);
    let mut current_directory = match current_dir {
        Some(d) => d,
        None => {
            return (String::new(), "main".to_string(), None);
        },
    };
    let ghost start: InitParamsView = (current_directory@, "main"@, None);
    let mut initial_branch = "main".to_string();
    let mut template_directory: Option<String> = None;
    let short_branch = "-b".to_string();
    let long_branch = "--initial-branch".to_string();
    let template = "--template".to_string();
    let mut index: usize = 2;
    while index < args.len()
        invariant
            av == args@.map_values(|a: String| a@),
            short_branch@ == "-b"@,
            long_branch@ == "--initial-branch"@,
            template@ == "--template"@,
            init_params_from(av, 2, start) == init_params_from(
                av,
                index as nat,
                (current_directory@, initial_branch@, match template_directory {
                    Some(t) => Some(t@),
                    None => None,
                }),
            ),
        decreases args@.len() - index,
    {
        let arg = &args[index];
        assert(av[index as int] == arg@);
        if *arg == short_branch || *arg == long_branch {
            if index + 1 < args.len() {
                assert(av[index + 1] == args@[index + 1]@);
                initial_branch = args[index + 1].clone();
                index = index + 1;
            }
        } else if *arg == template {
            if index + 1 < args.len() {
                assert(av[index + 1] == args@[index + 1]@);
                template_directory = Some(args[index + 1].clone());
                index = index + 1;
            }
        } else {
            current_directory = arg.clone();
        }
        index = index + 1;
    }
    (current_directory, initial_branch, template_directory)
}

/// The content of HEAD in a new repository: a reference to the initial
/// branch.
pub fn initial_head_content(initial_branch: &str) -> (content: String)
    ensures
        content@ == "ref: refs/heads/"@ + initial_branch@ + "\n"@,
{
    let mut content = "ref: refs/heads/".to_string();
    content.append(initial_branch);
    content.append("\n");
    content
}

/// The content of the configuration file of a new repository.
pub open spec fn initial_config() -> Seq<char> {
    "[core]\n\trepositoryformatversion = 0\n\tfilemode = true\n\tbare = false\n\tlogallrefupdates = true\n"@
}

/// What `git init` makes in `directory`: the git directory named
/// `git_dir_name` inside it, the directories to create, and the files to
/// create (each with its content) where they do not exist yet.
pub struct InitPlan {
    pub git_dir: String,
    pub directories: Vec<String>,
    pub files: Vec<(String, String)>,
}

/// The git directory of a repository at `directory`.
pub open spec fn init_git_dir(directory: Seq<char>, git_dir_name: Seq<char>) -> Seq<char> {
    directory + "/"@ + git_dir_name
}

/// Plans a `git init` of `directory`, with the git directory
/// `git_dir_name` and the initial branch `initial_branch`: the git
/// directory with `objects`, `refs/heads` and `refs/tags` in it; HEAD on
/// the initial branch, the configuration file, and an empty index.
pub fn git_init_plan(directory: &str, git_dir_name: &str, initial_branch: &str) -> (plan: InitPlan)
    ensures
        plan.git_dir@ == init_git_dir(directory@, git_dir_name@),
        plan.directories@.map_values(|d: String| d@) == seq![
            plan.git_dir@,
            plan.git_dir@ + "/objects"@,
            plan.git_dir@ + "/refs/heads"@,
            plan.git_dir@ + "/refs/tags"@,
        ],
        plan.files@.map_values(|f: (String, String)| (f.0@, f.1@)) == seq![
            (plan.git_dir@ + "/HEAD"@, "ref: refs/heads/"@ + initial_branch@ + "\n"@),
            (plan.git_dir@ + "/config"@, initial_config()),
            (plan.git_dir@ + "/index"@, Seq::<char>::empty()),
        ],
{
    let mut git_dir = directory.to_string();
    git_dir.append("/");
    git_dir.append(git_dir_name);
    let mut objects = git_dir.clone();
    objects.append("/objects");
    let mut heads = git_dir.clone();
    heads.append("/refs/heads");
    let mut tags = git_dir.clone();
    tags.append("/refs/tags");
    let mut head = git_dir.clone();
    head.append("/HEAD");
    let mut config = git_dir.clone();
    config.append("/config");
    let mut index = git_dir.clone();
    index.append("/index");
    let config_content =
        "[core]\n\trepositoryformatversion = 0\n\tfilemode = true\n\tbare = false\n\tlogallrefupdates = true\n".to_string();
    let directories = vec![git_dir.clone(), objects, heads, tags];
    let files = vec![(head, initial_head_content(initial_branch)), (config, config_content), (index, String::new())];
    let plan = InitPlan { git_dir, directories, files };
    assert(plan.directories@.map_values(|d: String| d@) =~= seq![
        plan.git_dir@,
        plan.git_dir@ + "/objects"@,
        plan.git_dir@ + "/refs/heads"@,
        plan.git_dir@ + "/refs/tags"@,
    ]);
    assert(plan.files@.map_values(|f: (String, String)| (f.0@, f.1@)) =~= seq![
        (plan.git_dir@ + "/HEAD"@, "ref: refs/heads/"@ + initial_branch@ + "\n"@),
        (plan.git_dir@ + "/config"@, initial_config()),
        (plan.git_dir@ + "/index"@, Seq::<char>::empty()),
    ]);
    plan
}

/// The message that a successful `git init` of `directory` prints.
pub fn init_success_message(directory: &str) -> (message: String)
    ensures
        message@ == "Git repository initialized successfully in '"@ + directory@ + "'."@,
{
    let mut message = "Git repository initialized successfully in '".to_string();
    message.append(directory);
    message.append("'.");
    message
}

} // verus!
