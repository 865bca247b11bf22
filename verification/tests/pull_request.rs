use messi::pull_request::{PRState, PullRequestCreate, PullRequestError, PullRequestPatch, Repository};

fn create(title: &str) -> PullRequestCreate {
    PullRequestCreate {
        title: title.to_string(),
        description: "d".to_string(),
        source_branch: "feature".to_string(),
        target_branch: "master".to_string(),
    }
}

#[test]
fn pull_requests_are_numbered_and_listed_in_order() {
    let mut repo = Repository::new("repo");
    let first = repo.create_pull_request_at(create("one"), "t1".to_string());
    let second = repo.create_pull_request(create("two"));
    assert_eq!(first.pull_number, 1);
    assert_eq!(second.pull_number, 2);
    assert_eq!(first.created_at, "t1");
    assert_eq!(second.created_at, second.updated_at);
    assert_eq!(repo.pr_count(), 2);
    let list = repo.list_pull_requests();
    assert_eq!(list.len(), 2);
    assert_eq!(list[0].title, "one");
    assert_eq!(list[1].title, "two");
    assert_eq!(repo.get_pull_request(2).unwrap().title, "two");
    assert!(repo.get_pull_request(3).is_none());
}

#[test]
fn patching_changes_only_the_given_fields() {
    let mut repo = Repository::new("repo");
    repo.create_pull_request_at(create("one"), "t1".to_string());
    let patch = PullRequestPatch { title: Some("new".to_string()), description: None, target_branch: None };
    let pr = repo.patch_pull_request_at(1, patch, "t2".to_string()).unwrap();
    assert_eq!(pr.title, "new");
    assert_eq!(pr.description, "d");
    assert_eq!(pr.updated_at, "t2");
    assert_eq!(pr.created_at, "t1");
    let patch = PullRequestPatch { title: None, description: None, target_branch: None };
    assert_eq!(repo.patch_pull_request_at(7, patch, "t3".to_string()).err(), Some(PullRequestError::NotFound));
}

#[test]
fn merging_closes_the_pull_request() {
    let mut repo = Repository::new("repo");
    repo.create_pull_request_at(create("one"), "t1".to_string());
    let job = repo.merge_pull_request(1, "/srv", ".mgit").unwrap();
    assert_eq!(job.git_dir, "/srv/repo/.mgit");
    assert_eq!(job.source_branch, "feature");
    assert_eq!(job.target_branch, "master");
    assert_eq!(repo.record_merge(1, "abc".to_string()), Ok("abc".to_string()));
    let pr = repo.get_pull_request(1).unwrap();
    assert_eq!(pr.state, PRState::Closed);
    assert!(pr.closed_at.is_some());
    assert_eq!(repo.merge_pull_request(1, "/srv", ".mgit").err(), Some(PullRequestError::AlreadyClosed));
    assert_eq!(repo.merge_pull_request(5, "/srv", ".mgit").err(), Some(PullRequestError::NotFound));
    assert_eq!(repo.list_commits_from_pull_request(5, "/srv", ".mgit").err(), Some(PullRequestError::NotFound));
    assert_eq!(PullRequestError::AlreadyClosed.message(), "Pull request is already closed");
}

#[test]
fn repositories_rebuild_from_their_parts() {
    let mut repo = Repository::new("repo");
    let a = repo.create_pull_request_at(create("one"), "t1".to_string());
    let b = repo.create_pull_request_at(create("two"), "t2".to_string());
    let rebuilt = Repository::from_parts("repo", 2, vec![b, a]);
    let list = rebuilt.list_pull_requests();
    assert_eq!(list[0].pull_number, 1);
    assert_eq!(list[1].pull_number, 2);
    assert_eq!(rebuilt.pr_count(), 2);
    assert_eq!(rebuilt.name(), "repo");
}

#[test]
fn pull_requests_are_kept_under_their_numbers() {
    let mut repo = Repository::new("repo");
    for title in ["a", "b", "c"] {
        repo.create_pull_request(PullRequestCreate {
            title: title.to_string(),
            description: String::new(),
            source_branch: "feature".to_string(),
            target_branch: "main".to_string(),
        });
    }
    let map = repo.pull_requests();
    assert_eq!(map.len(), 3);
    assert_eq!(map.get(&2).map(|p| p.title.clone()), Some("b".to_string()));
    assert!(map.get(&4).is_none());
    assert_eq!(repo.pr_count(), 3);
    let numbers: Vec<usize> = repo.list_pull_requests().iter().map(|p| p.pull_number).collect();
    assert_eq!(numbers, vec![1, 2, 3]);
}
