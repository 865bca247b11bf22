use messi::check_ignore::{git_check_ignore, log_check_ignore, CheckIgnoreError};
use messi::diff::{return_diff, return_object_diff_string};
use messi::fetch::{get_clean_refs, log_fetch, FetchEntry, FetchHead};
use messi::gui::repository_window::{format_branch_history, get_line_for_check_ignore};
use messi::index::Index;
use messi::gui::visual_branches::define_branch_positions;
use messi::log::{accumulate_logs, last_commit_ref, log_log, Log, LogError};
use messi::ls_files::{git_ls_files, list_files_in_index, LsFilesError, LsFilesStep};
use messi::ls_tree::{ls_tree, TreeListing};
use messi::parse_commands::{
    get_working_directory, get_working_directory_status, handle_branch, handle_checkout_option, parse_git_command,
    CheckoutAction, GitCommand,
};
use messi::pull::log_push;
use messi::rebase::{intersection_files_that_changed_between_commits, start_rebase_gui, RebaseError};

fn strings(v: &[&str]) -> Vec<String> {
    v.iter().map(|s| s.to_string()).collect()
}

#[test]
fn fetch_head_text_reads_back() {
    let mut head = FetchHead::new();
    head.add_entry(FetchEntry::new("abc".to_string(), "master".to_string(), "url/repo".to_string()));
    head.add_entry(FetchEntry::new("def".to_string(), "dev".to_string(), "url/repo".to_string()));
    let text = head.content();
    assert_eq!(text, "abc master of url/repo\ndef dev of url/repo\n");
    let loaded = FetchHead::from_text(&text);
    assert_eq!(loaded.get_entries().len(), 2);
    let dev = loaded.get_branch_entry("dev").unwrap();
    assert_eq!(dev.commit_hash, "def");
    assert_eq!(dev.remote_repo_url, "url/repo");
    assert!(loaded.get_branch_entry("none").is_none());
}

#[test]
fn clean_refs_keep_the_last_part() {
    assert_eq!(get_clean_refs(&strings(&["refs/heads/master", "HEAD"])), strings(&["master", "HEAD"]));
    assert_eq!(
        log_fetch(None, "localhost", "/tmp/r", "now"),
        "Command 'git fetch': Remote Repo Name 'origin', Host 'localhost', Local Dir '/tmp/r', now"
    );
    assert_eq!(
        log_push("main", "/tmp/r", Some("up"), "now"),
        "Command 'git push': Branch 'main', Local Directory '/tmp/r', Remote Repository Name 'up', now"
    );
}

#[test]
fn diffs_mark_added_and_removed_lines() {
    let a = strings(&["a", "b", "c"]);
    let b = strings(&["a", "c", "d"]);
    assert_eq!(return_diff(&a, &b), strings(&["a\n", "<<<<<<< b\n", "c\n", ">>>>>>> d\n"]));
    assert_eq!(return_object_diff_string("x\ny", "x\nz"), "x\n<<<<<<< y\n>>>>>>> z\n");
    assert_eq!(return_diff(&vec![], &vec![]), Vec::<String>::new());
}

#[test]
fn commits_are_read_into_logs() {
    let content = "tree 123\nparent 456\nauthor Ana Maria <a@b.c> 1700000000 +0000\ncommitter X\n\nFirst line\nsecond";
    let log = Log::load_from_hash("abcdef1", ".mgit", content).unwrap();
    assert_eq!(log.parent_hash(), Some(&"456".to_string()));
    assert_eq!(log.git_dir(), ".mgit");
    let text = log.to_string();
    assert_eq!(
        text,
        "\x1b[0;33mcommit abcdef1\x1b[0m\nAuthor: Ana Maria <a@b.c>\nDate: Tue Nov 14 22:13:20 2023 +0000\n\n\tFirst linesecond\n"
    );
    let one = Log::load_from_hash("abcdef1", ".mgit", content).unwrap().set_oneline(true);
    assert_eq!(one.to_string(), "\x1b[0;33mabcdef1\x1b[0m \tFirst linesecond");
    assert_eq!(accumulate_logs(&[one]), "\x1b[0;33mabcdef1\x1b[0m \tFirst linesecond\n");
}

#[test]
fn malformed_commits_are_refused() {
    assert_eq!(
        Log::load_from_hash("h", ".mgit", "tree 1").err(),
        Some(LogError::InvalidData("Commit: h".to_string()))
    );
    assert_eq!(
        Log::load_from_hash("h", ".mgit", "author A 1\n\nmsg").err(),
        Some(LogError::InvalidData("Commit: author A 1".to_string()))
    );
    assert_eq!(last_commit_ref("ref: refs/heads/master\n"), "refs/heads/master");
}

#[test]
fn git_commands_are_named() {
    assert_eq!(parse_git_command("ls-files"), Some(GitCommand::ListFiles));
    assert_eq!(parse_git_command("hash-object"), Some(GitCommand::HashObject));
    assert_eq!(parse_git_command("nope"), None);
}

#[test]
fn check_ignore_prints_the_ignored_paths() {
    let line = strings(&["git", "check-ignore", "-v", "a", "b"]);
    assert_eq!(git_check_ignore(".mgitignore", &line, &vec![false, true]), Ok(".mgitignore:2:b\n".to_string()));
    let line = strings(&["git", "check-ignore", "a", "b"]);
    assert_eq!(git_check_ignore(".mgitignore", &line, &vec![true, false]), Ok("a\n".to_string()));
    let line = strings(&["git", "check-ignore", "-v"]);
    assert_eq!(git_check_ignore(".mgitignore", &line, &vec![]), Err(CheckIgnoreError::NoPathSpecified));
    let line = strings(&["git", "check-ignore", "-x", "a"]);
    assert_eq!(git_check_ignore(".mgitignore", &line, &vec![false, false]), Err(CheckIgnoreError::InvalidOption));
    assert_eq!(
        log_check_ignore("n", "p", "o", "t"),
        "Command 'git check-ignore': Name of Ignorer 'n', Git Ignore Path 'p', Option 'o', t"
    );
    assert_eq!(get_line_for_check_ignore(true, "f".to_string()), strings(&["git", "check-ignore", "-v", "f"]));
}

#[test]
fn ls_files_and_ls_tree_choose_their_listing() {
    let mut index = Index::default();
    index.add_file("a.txt", "1").unwrap();
    assert_eq!(list_files_in_index(&index), "a.txt\n");
    match git_ls_files(&strings(&["git", "ls-files"]), &index) {
        Ok(LsFilesStep::Index(text)) => assert_eq!(text, "a.txt\n"),
        _ => panic!("expected the index"),
    }
    assert!(matches!(git_ls_files(&strings(&["git", "ls-files", "-o"]), &index), Ok(LsFilesStep::Untracked)));
    assert_eq!(git_ls_files(&strings(&["git", "ls-files", "-z"]), &index).err(), Some(LsFilesError::Fatal));
    assert_eq!(ls_tree(""), Some(TreeListing::Entries));
    assert_eq!(ls_tree("-r-t"), Some(TreeListing::Recursive));
    assert_eq!(ls_tree("-q"), None);
}

#[test]
fn branch_history_is_abridged() {
    let history = vec![("0123456789".to_string(), "first".to_string())];
    assert_eq!(format_branch_history(history), "012345\tfirst\n");
}

#[test]
fn branch_history_cuts_six_bytes_of_wide_characters() {
    let history = vec![("\u{e9}\u{e9}\u{e9}1234".to_string(), "m".to_string()), ("abcdef".to_string(), "n".to_string())];
    assert_eq!(format_branch_history(history), "\u{e9}\u{e9}\u{e9}\tm\nabcdef\tn\n");
}

#[test]
fn rebase_starts_only_with_conflicts() {
    let both = intersection_files_that_changed_between_commits(&strings(&["a", "b"]), &strings(&["b", "c", "b"]));
    assert_eq!(both, strings(&["b", "b"]));
    assert_eq!(start_rebase_gui("o".to_string(), "t".to_string(), vec![], &both).err(), Some(RebaseError::NoCommits));
    assert_eq!(
        start_rebase_gui("o".to_string(), "t".to_string(), strings(&["c2", "c1"]), &vec![]).err(),
        Some(RebaseError::FastForward)
    );
    let r = start_rebase_gui("o".to_string(), "t".to_string(), strings(&["c2", "c1"]), &both).unwrap();
    assert_eq!(r.active_commit, "c1");
    assert_eq!(r.our_commits, strings(&["c2"]));
    assert_eq!(r.commit_to_rebase, "t");
}

#[test]
fn branch_arguments_choose_the_calls() {
    let calls = handle_branch(&strings(&["git", "branch"])).unwrap();
    assert_eq!(calls.len(), 1);
    assert_eq!(calls[0].name, None);
    assert_eq!(calls[0].on_error.as_deref(), Some("Error showing branches."));

    let calls = handle_branch(&strings(&["git", "branch", "topic"])).unwrap();
    assert_eq!(calls[0].name.as_deref(), Some("topic"));
    assert_eq!(calls[0].on_success.as_deref(), Some("Branch topic successfully created!"));

    let calls = handle_branch(&strings(&["git", "branch", "-m", "main2"])).unwrap();
    assert_eq!(calls[0].name, None);
    assert_eq!(calls[0].option.as_deref(), Some("-m"));
    assert_eq!(calls[0].new_name.as_deref(), Some("main2"));
    assert_eq!(calls[0].on_success.as_deref(), Some("Current branch name modified to main2"));

    let calls = handle_branch(&strings(&["git", "branch", "new", "old"])).unwrap();
    assert_eq!(calls[0].on_success.as_deref(), Some("Branch new succesfully created from old"));

    let calls = handle_branch(&strings(&["git", "branch", "-d", "a", "b"])).unwrap();
    assert_eq!(calls.len(), 2);
    assert_eq!(calls[1].name.as_deref(), Some("b"));
    assert_eq!(calls[1].option.as_deref(), Some("-d"));

    let refused = handle_branch(&strings(&["git", "branch", "-m", "a", "b", "c"]));
    assert_eq!(refused.err().as_deref(), Some("fatal: too many arguments for a rename operation"));
    let refused = handle_branch(&strings(&["git", "branch", "-x", "a", "b"]));
    assert_eq!(refused.err().as_deref(), Some("Invalid option!"));
}

#[test]
fn parent_logs_keep_the_one_line_setting() {
    let content = "tree 123\nparent 456\nauthor Ana <a@b.c> 1700000000 +0000\ncommitter X\n\nchild";
    let log = Log::load_from_hash("abc", ".mgit", content).unwrap().set_oneline(true);
    let parent_content = "tree 789\nauthor Ana <a@b.c> 1600000000 +0000\ncommitter X\n\nparent";
    let parent = log.get_parent_log(parent_content).unwrap();
    assert_eq!(parent.to_string(), "\x1b[0;33m456\x1b[0m \tparent");
    assert!(parent.parent_hash().is_none());
    assert!(parent.get_parent_log(content).is_none());
    assert!(log.get_parent_log("not a commit").is_none());
}

#[test]
fn git_log_is_logged() {
    assert_eq!(
        log_log(".mgit", Some("abc"), "now"),
        "Command 'git log': Commit 'Some(\"abc\")', Git Dir '.mgit', now"
    );
    assert_eq!(log_log(".mgit", None, "now"), "Command 'git log': Commit 'None', Git Dir '.mgit', now");
}

#[test]
fn checkout_options_choose_the_action() {
    let args = strings(&["git", "checkout", "-b", "topic"]);
    assert!(matches!(handle_checkout_option("-b", &args), CheckoutAction::CreateAndCheckoutBranch(n) if n == "topic"));
    assert!(matches!(handle_checkout_option("-B", &args), CheckoutAction::CreateOrResetBranch(n) if n == "topic"));
    assert!(matches!(handle_checkout_option("--detach", &args), CheckoutAction::CheckoutCommitDetached(n) if n == "topic"));
    assert!(matches!(handle_checkout_option("-f", &args), CheckoutAction::ForceCheckout(n) if n == "topic"));
    let args = strings(&["git", "checkout", "main"]);
    assert!(matches!(handle_checkout_option("main", &args), CheckoutAction::CheckoutBranch(n) if n == "main"));
}

#[test]
fn working_directory_is_the_parent_of_the_git_dir() {
    assert_eq!(get_working_directory("/home/ana/repo/.mgit"), Ok("/home/ana/repo".to_string()));
    assert_eq!(get_working_directory_status("repo/.mgit"), Ok("repo".to_string()));
    assert_eq!(get_working_directory("/"), Err("Error al obtener el working dir".to_string()));
}

#[test]
fn master_is_drawn_first() {
    let positions = define_branch_positions(&strings(&["topic", "master", "fix"]));
    let mut sorted = positions.clone();
    sorted.sort();
    assert_eq!(
        sorted,
        vec![("fix".to_string(), 160), ("master".to_string(), 20), ("topic".to_string(), 90)]
    );
    let positions = define_branch_positions(&strings(&["a", "b", "a"]));
    let mut sorted = positions.clone();
    sorted.sort();
    assert_eq!(sorted, vec![("a".to_string(), 160), ("b".to_string(), 90)]);
}

#[test]
fn dates_past_the_clock_cannot_be_shown() {
    let content = "tree 1\nauthor Ana <a@b.c> 9223372036854775807 +0100\ncommitter X\n\nmsg";
    let log = Log::load_from_hash("h", ".mgit", content).unwrap();
    assert!(!log.has_showable_date());
    let content = "tree 1\nauthor Ana <a@b.c> 1700000000 +0100\ncommitter X\n\nmsg";
    let log = Log::load_from_hash("h", ".mgit", content).unwrap();
    assert!(log.has_showable_date());
}

#[test]
fn test_invalid_arguments() {
    let result = git_check_ignore(".mgitignore", &strings(&["git", "check-ignore"]), &vec![]);
    assert!(result.is_err());
    assert_eq!(result.unwrap_err().output(), "fatal: no path specified\n");
}

#[test]
fn test_invalid_arguments_verbose_flag() {
    let result = git_check_ignore(".mgitignore", &strings(&["git", "check-ignore", "-v"]), &vec![]);
    assert!(result.is_err());
    assert_eq!(result.unwrap_err().output(), "fatal: no path specified\n");
}

#[test]
fn test_invalid_arguments_invalid_flag() {
    let result = git_check_ignore(".mgitignore", &strings(&["git", "check-ignore", "-a"]), &vec![false]);
    assert!(result.is_err());
    assert_eq!(result.unwrap_err().output(), "");
}

#[test]
fn test_check_ignore_correct_arguments() {
    let result = git_check_ignore(".mgitignore", &strings(&["git", "check-ignore", "file"]), &vec![true]);
    assert!(result.is_ok());
    assert!(result.unwrap().eq("file\n"));
}

#[test]
fn test_check_ignore_correct_arguments_verbose_flag() {
    let result = git_check_ignore(".mgitignore", &strings(&["git", "check-ignore", "-v", "file"]), &vec![true]);
    assert!(result.is_ok());
    assert!(result.unwrap().contains("file\n"));
}

#[test]
fn an_object_diffed_with_itself_keeps_every_line() {
    assert_eq!(return_object_diff_string("a\nb", "a\nb"), "a\nb\n");
    assert_eq!(return_object_diff_string("", ""), "\n");
    assert_eq!(accumulate_logs(&[]), "");
}

#[test]
fn test_git_init_default_branch() {
    let (directory, branch, template) =
        messi::init::extract_init_params(&strings(&["git", "init"]), Some("/tmp/repo".to_string()));
    assert_eq!((directory.as_str(), branch.as_str(), template), ("/tmp/repo", "main", None));
    let plan = messi::init::git_init_plan(&directory, ".mgit", &branch);
    assert_eq!(plan.git_dir, "/tmp/repo/.mgit");
    assert_eq!(plan.files[0], ("/tmp/repo/.mgit/HEAD".to_string(), "ref: refs/heads/main\n".to_string()));
}

#[test]
fn test_git_init_custom_branch() {
    let args = strings(&["git", "init", "-b", "mybranch", "here", "--template", "tpl"]);
    let (directory, branch, template) = messi::init::extract_init_params(&args, Some("/tmp".to_string()));
    assert_eq!((directory.as_str(), branch.as_str(), template), ("here", "mybranch", Some("tpl".to_string())));
    let plan = messi::init::git_init_plan(&directory, ".mgit", &branch);
    assert_eq!(plan.files[0].1, "ref: refs/heads/mybranch\n");
    assert_eq!(
        plan.directories,
        strings(&["here/.mgit", "here/.mgit/objects", "here/.mgit/refs/heads", "here/.mgit/refs/tags"])
    );
    assert_eq!(plan.files[2], ("here/.mgit/index".to_string(), String::new()));
    assert_eq!(messi::init::init_success_message("here"), "Git repository initialized successfully in 'here'.");
}

#[test]
fn init_without_a_current_directory_reads_no_argument() {
    let (directory, branch, template) =
        messi::init::extract_init_params(&strings(&["git", "init", "-b", "x", "d"]), None);
    assert_eq!((directory.as_str(), branch.as_str(), template), ("", "main", None));
    assert_eq!(
        messi::init::extract_init_params(&strings(&["git", "init", "-b"]), Some("c".to_string())),
        ("c".to_string(), "main".to_string(), None)
    );
}

#[test]
fn adding_everything_skips_the_git_directory() {
    assert!(messi::add::add_takes_entry("src", ".mgit", ".mgitignore"));
    assert!(messi::add::add_takes_entry(".mgitignore", ".mgit", ".mgitignore"));
    assert!(!messi::add::add_takes_entry(".mgit", ".mgit", ".mgitignore"));
    assert!(!messi::add::add_takes_entry(".mgitx", ".mgit", ".mgitignore"));
    assert!(messi::add::add_takes_entry(".mg", ".mgit", ".mgitignore"));
}
