use messi::branch::{
    branch_name_of, create_new_branch, delete_branch, get_branch_commit_hash, get_current_branch_path, git_branch,
    list_branches, log_command, remove_ansi_escape_codes, rename_branch_plan, BranchAction, BranchProbe, BranchSource,
};
use messi::branch_handler::Branch;

#[test]
fn test_remove_ansi_escape_codes() {
    let input = "\x1B[32mThis is green text\x1B[0m";
    let expected_output = "This is green text";
    let output = remove_ansi_escape_codes(input);
    assert_eq!(output, expected_output);
}

#[test]
fn test_remove_ansi_escape_codes_no_escape_codes() {
    let input = "This is plain text";
    let expected_output = "This is plain text";
    let output = remove_ansi_escape_codes(input);
    assert_eq!(output, expected_output);
}

#[test]
fn head_file_names_the_current_branch() {
    assert_eq!(get_current_branch_path("ref: refs/heads/master\n"), Ok("refs/heads/master".to_string()));
    assert_eq!(get_current_branch_path(""), Err("HEAD file is empty\n".to_string()));
    assert_eq!(get_branch_commit_hash("abc123\nrest"), "abc123");
}

#[test]
fn git_branch_decides_the_action() {
    assert_eq!(git_branch(None, None, None), BranchAction::List);
    assert_eq!(git_branch(Some("dev".to_string()), Some("-d"), None), BranchAction::Delete("dev".to_string()));
    assert_eq!(
        git_branch(Some("dev".to_string()), Some("-m"), Some("feature")),
        BranchAction::Rename("dev".to_string(), "feature".to_string())
    );
    assert_eq!(git_branch(Some("dev".to_string()), Some("-m"), None), BranchAction::Nothing);
    assert_eq!(git_branch(Some("dev".to_string()), Some("-x"), None), BranchAction::InvalidOption);
    assert_eq!(
        git_branch(Some("dev".to_string()), None, Some("main")),
        BranchAction::Create("dev".to_string(), Some("main".to_string()))
    );
    assert_eq!(git_branch(None, None, Some("new")), BranchAction::RenameCurrent("new".to_string()));
}

#[test]
fn creating_a_branch_checks_the_repository() {
    let probe = BranchProbe { new_branch_exists: true, from_branch_exists: true, branch_count: 1 };
    assert_eq!(
        create_new_branch(".mgit", "dev", Some("main"), &probe),
        Err("fatal: A branch named 'dev' already exists\n".to_string())
    );
    let probe = BranchProbe { new_branch_exists: false, from_branch_exists: false, branch_count: 1 };
    assert_eq!(
        create_new_branch(".mgit", "dev", Some("main"), &probe),
        Err("fatal: Not a valid object name: 'main'.\n".to_string())
    );
    let probe = BranchProbe { new_branch_exists: false, from_branch_exists: false, branch_count: 0 };
    assert_eq!(
        create_new_branch(".mgit", "dev", None, &probe),
        Err("fatal: Please commit something to create a branch\n".to_string())
    );
    let probe = BranchProbe { new_branch_exists: false, from_branch_exists: true, branch_count: 2 };
    assert_eq!(
        create_new_branch(".mgit", "dev", Some("main"), &probe),
        Ok((".mgit/refs/heads/dev".to_string(), BranchSource::Branch(".mgit/refs/heads/main".to_string())))
    );
    assert_eq!(
        create_new_branch(".mgit", "dev", None, &probe),
        Ok((".mgit/refs/heads/dev".to_string(), BranchSource::CurrentCommit))
    );
}

#[test]
fn branch_log_message() {
    assert_eq!(log_command("git_branch", "-l", "now"), "Command 'git_branch': -l now");
    let b = Branch::new("main".to_string(), "origin".to_string(), "refs/heads/main".to_string());
    assert_eq!(b.name, "main");
}

#[test]
fn test_list_branches() {
    let names: Vec<String> =
        vec!["branch_1".to_string(), "branch_2".to_string(), "current_branch".to_string(), "branch_3".to_string()];
    let output = list_branches(&names, "current_branch");
    assert!(!output.is_empty());
    assert_eq!(output, "  branch_1\n  branch_2\n*\x1B[32m current_branch\x1B[0m\n  branch_3\n");
}

#[test]
fn test_list_branches_empty() {
    let output = list_branches(&vec![], "current_branch");
    assert!(output.is_empty());
}

#[test]
fn branch_name_is_the_last_part_of_its_path() {
    assert_eq!(branch_name_of("refs/heads/main"), "main");
    assert_eq!(branch_name_of("main"), "main");
}

#[test]
fn test_delete_branch_correctly() {
    let (message, remove) = delete_branch("branch", Some("0123456789abcdef"), "ref: refs/heads/current_branch\n", Some("repo"));
    assert!(remove);
    assert_eq!(message, "Deleted branch (was 0123456\n)");
}

#[test]
fn test_deleting_non_existing_branch_prints_error() {
    let (message, remove) = delete_branch("branch", None, "ref: refs/heads/current_branch\n", Some("repo"));
    assert!(!remove);
    assert!(message.contains("error"));
    assert_eq!(message, "error: branch 'branch' not found\n");
}

#[test]
fn test_deleting_checkouted_branch_cant_be_performed() {
    let (message, remove) = delete_branch("current_branch", None, "ref: refs/heads/current_branch\n", Some("repo"));
    assert!(!remove);
    assert!(message.contains("error"));
    let (message, remove) = delete_branch("current_branch", Some("abc"), "refs/heads/current_branch", Some("repo"));
    assert!(!remove);
    assert_eq!(message, "error: Cannot delete branch current_branch checked out at repo");
    let (message, _) = delete_branch("current_branch", Some("abc"), "refs/heads/current_branch", None);
    assert_eq!(message, "Error getting working dir.\n");
}

#[test]
fn test_modify_current_branch_correctly() {
    let plan = rename_branch_plan(".mgit", "current_branch", "branch", true, false, "ref: refs/heads/current_branch")
        .unwrap();
    assert_eq!(plan.from_path, ".mgit/refs/heads/current_branch");
    assert_eq!(plan.to_path, ".mgit/refs/heads/branch");
    assert_eq!(plan.new_head, Some("ref: refs/heads/branch".to_string()));
}

#[test]
fn test_modify_not_current_branch_correctly() {
    let plan =
        rename_branch_plan(".mgit", "branch", "new_branch", true, false, "ref: refs/heads/current_branch").unwrap();
    assert_eq!(plan.to_path, ".mgit/refs/heads/new_branch");
    assert_eq!(plan.new_head, None);
}

#[test]
fn test_modify_non_existing_branch_informs_error() {
    let result = rename_branch_plan(".mgit", "new_branch", "branch", false, true, "");
    assert!(result.is_err());
    assert_eq!(
        result.err(),
        Some("error: refname refs/heads/new_branch not found\nfatal: Branch rename failed\n".to_string())
    );
}

#[test]
fn test_modify_branch_to_an_existing_one_informs_error() {
    let result = rename_branch_plan(".mgit", "new_branch", "branch", true, true, "");
    assert!(result.is_err());
    assert_eq!(result.err(), Some("fatal: A branch named branch already exists.\n".to_string()));
}

#[test]
fn an_unknown_branch_option_is_refused_with_its_message() {
    let action = git_branch(Some("dev".to_string()), Some("-x"), None);
    assert_eq!(action, BranchAction::InvalidOption);
    assert_eq!(action.refusal_output(), "fatal: Invalid option.\n");
    assert_eq!(BranchAction::List.refusal_output(), "");
}
