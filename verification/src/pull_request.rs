//! Pull requests of a repository: creating, changing, listing and closing
//! them.
use vstd::prelude::*;
use crate::text::{string_from_chars, chars_of};
use std::collections::HashMap;

verus! {

broadcast use vstd::std_specs::hash::group_hash_axioms;

/// Enum to represent the state of a Pull Request
#[derive(Debug, Clone, Copy, PartialEq, Eq, Structural)]
pub enum PRState {
    Open,
    Closed,
}

/// Data structures to represent Pull Request creation
pub struct PullRequestCreate {
    pub title: String,
    pub description: String,
    pub source_branch: String,
    pub target_branch: String,
}

/// Data structures to represent Pull Request patch
pub struct PullRequestPatch {
    pub title: Option<String>,
    pub description: Option<String>,
    pub target_branch: Option<String>,
}

/// Data structures to represent Pull Request
pub struct PullRequest {
    pub pull_number: usize,
    pub title: String,
    pub description: String,
    pub source_branch: String,
    pub target_branch: String,
    pub author: String,
    pub created_at: String,
    pub updated_at: String,
    pub state: PRState,
    pub reviewers: Vec<String>,
    pub closed_at: Option<String>,
}

/// A pull request as a mathematical value.
pub struct PullRequestView {
    pub pull_number: nat,
    pub title: Seq<char>,
    pub description: Seq<char>,
    pub source_branch: Seq<char>,
    pub target_branch: Seq<char>,
    pub author: Seq<char>,
    pub created_at: Seq<char>,
    pub updated_at: Seq<char>,
    pub state: PRState,
    pub reviewers: Seq<Seq<char>>,
    pub closed_at: Option<Seq<char>>,
}

/// An optional string as a mathematical value.
pub open spec fn opt_view(s: Option<String>) -> Option<Seq<char>> {
    match s {
        Some(v) => Some(v@),
        None => None,
    }
}

impl View for PullRequest {
    type V = PullRequestView;

    open spec fn view(&self) -> PullRequestView {
        PullRequestView {
            pull_number: self.pull_number as nat,
            title: self.title@,
            description: self.description@,
            source_branch: self.source_branch@,
            target_branch: self.target_branch@,
            author: self.author@,
            created_at: self.created_at@,
            updated_at: self.updated_at@,
            state: self.state,
            reviewers: self.reviewers@.map_values(|r: String| r@),
            closed_at: opt_view(self.closed_at),
        }
    }
}

/// The pull request that `create` opens with the number `n` at the time
/// `now`: open, with the other fields empty.
pub open spec fn new_pull_request(create: PullRequestCreate, n: nat, now: Seq<char>) -> PullRequestView {
    PullRequestView {
        pull_number: n,
        title: create.title@,
        description: create.description@,
        source_branch: create.source_branch@,
        target_branch: create.target_branch@,
        author: seq![],
        created_at: now,
        updated_at: now,
        state: PRState::Open,
        reviewers: seq![],
        closed_at: None,
    }
}

/// The pull request `pr` after `patch` at the time `now`: each field that
/// the patch gives is replaced.
pub open spec fn patched(pr: PullRequestView, patch: PullRequestPatch, now: Seq<char>) -> PullRequestView {
    PullRequestView {
        title: match patch.title {
            Some(t) => t@,
            None => pr.title,
        },
        description: match patch.description {
            Some(d) => d@,
            None => pr.description,
        },
        target_branch: match patch.target_branch {
            Some(b) => b@,
            None => pr.target_branch,
        },
        updated_at: now,
        ..pr
    }
}

/// The pull request `pr` once merged: closed, at the times `updated` and
/// `closed`.
pub open spec fn merged(pr: PullRequestView, updated: Seq<char>, closed: Seq<char>) -> PullRequestView {
    PullRequestView { state: PRState::Closed, updated_at: updated, closed_at: Some(closed), ..pr }
}

/// The current date and time, as the local clock gives it.
///
/// Calls `chrono::Local::now` and its `to_string`. The result depends on
/// the clock, so nothing is claimed of it.
#[verifier::external_body]
fn get_current_date() -> (now: String) {
    chrono::Local::now().to_string()
}

fn copy_string(s: &String) -> (c: String)
    ensures
        c@ == s@,
{
    s.clone()
}

fn copy_opt_string(s: &Option<String>) -> (c: Option<String>)
    ensures
        opt_view(c) == opt_view(*s),
{
    match s {
        Some(v) => Some(v.clone()),
        None => None,
    }
}

impl PullRequest {
    /// Returns a new PullRequest with the number `pull_number`, opened at
    /// the time `now`.
    pub fn new(pull_request_create: PullRequestCreate, pull_number: usize, now: String) -> (pr: PullRequest)
        ensures
            pr@ == new_pull_request(pull_request_create, pull_number as nat, now@),
    {
        let updated = copy_string(&now);
        let pr = PullRequest {
            pull_number,
            title: pull_request_create.title,
            description: pull_request_create.description,
            source_branch: pull_request_create.source_branch,
            target_branch: pull_request_create.target_branch,
            author: String::new(),
            created_at: now,
            updated_at: updated,
            state: PRState::Open,
            reviewers: Vec::new(),
            closed_at: None,
        };
        assert(pr@.reviewers =~= Seq::<Seq<char>>::empty());
        pr
    }

    /// A copy of the pull request.
    pub fn duplicate(&self) -> (c: PullRequest)
        ensures
            c@ == self@,
    {
        let mut reviewers: Vec<String> = Vec::new();
        let mut i: usize = 0;
        while i < self.reviewers.len()
            invariant
                i <= self.reviewers@.len(),
                reviewers@.map_values(|r: String| r@) == self.reviewers@.map_values(|r: String| r@).take(i as int),
            decreases self.reviewers@.len() - i,
        {
            let ghost before = reviewers@;
            let c = copy_string(&self.reviewers[i]);
            reviewers.push(c);
            assert(reviewers@.map_values(|r: String| r@) =~= before.map_values(|r: String| r@).push(c@));
            assert(self.reviewers@.map_values(|r: String| r@).take(i + 1)
                =~= self.reviewers@.map_values(|r: String| r@).take(i as int).push(self.reviewers@[i as int]@));
            i = i + 1;
        }
        assert(self.reviewers@.map_values(|r: String| r@).take(self.reviewers@.len() as int)
            == self.reviewers@.map_values(|r: String| r@));
        PullRequest {
            pull_number: self.pull_number,
            title: copy_string(&self.title),
            description: copy_string(&self.description),
            source_branch: copy_string(&self.source_branch),
            target_branch: copy_string(&self.target_branch),
            author: copy_string(&self.author),
            created_at: copy_string(&self.created_at),
            updated_at: copy_string(&self.updated_at),
            state: self.state,
            reviewers,
            closed_at: copy_opt_string(&self.closed_at),
        }
    }

    /// Records that the pull request was merged into its target branch by
    /// the commit `merge_hash`, at the times `updated` and `closed`, and
    /// gives the hash back.
    pub fn merge_at(&mut self, merge_hash: String, updated: String, closed: String) -> (hash: String)
        ensures
            final(self)@ == merged(old(self)@, updated@, closed@),
            hash@ == merge_hash@,
    {
        self.state = PRState::Closed;
        self.updated_at = updated;
        self.closed_at = Some(closed);
        merge_hash
    }

    /// Records that the pull request was merged into its target branch by
    /// the commit `merge_hash`, now, and gives the hash back.
    pub fn merge(&mut self, merge_hash: String) -> (hash: String)
        ensures
            final(self).closed_at is Some,
            final(self)@ == merged(old(self)@, final(self).updated_at@, final(self).closed_at.unwrap()@),
            hash@ == merge_hash@,
    {
        let updated = get_current_date();
        let closed = get_current_date();
        self.merge_at(merge_hash, updated, closed)
    }

    /// Patches the PullRequest with the fields of `pr_patch` that are
    /// given, at the time `now`.
    pub fn patch_at(&mut self, pr_patch: PullRequestPatch, now: String)
        ensures
            final(self)@ == patched(old(self)@, pr_patch, now@),
            pr_patch.title matches Some(t) ==> final(self).title@ == t@,
            pr_patch.description matches Some(d) ==> final(self).description@ == d@,
            pr_patch.target_branch matches Some(b) ==> final(self).target_branch@ == b@,
            pr_patch.title is None ==> final(self).title@ == old(self).title@,
            pr_patch.description is None ==> final(self).description@ == old(self).description@,
            pr_patch.target_branch is None ==> final(self).target_branch@ == old(self).target_branch@,
            final(self).updated_at@ == now@,
    {
        let ghost p = pr_patch;
        if let Some(title) = pr_patch.title {
            self.title = title;
        }
        if let Some(description) = pr_patch.description {
            self.description = description;
        }
        if let Some(target_branch) = pr_patch.target_branch {
            self.target_branch = target_branch;
        }
        self.updated_at = now;
    }

    /// Patches the PullRequest with the fields of `pr_patch` that are
    /// given, now.
    pub fn patch(&mut self, pr_patch: PullRequestPatch)
        ensures
            final(self)@ == patched(old(self)@, pr_patch, final(self).updated_at@),
    {
        let now = get_current_date();
        self.patch_at(pr_patch, now);
    }
}

/// Why a pull request could not be found, changed or merged.
#[derive(Debug, Clone, Copy, PartialEq, Eq, Structural)]
pub enum PullRequestError {
    /// No pull request has the number.
    NotFound,
    /// The pull request is already closed.
    AlreadyClosed,
}

impl PullRequestError {
    /// The message of the error, as a mathematical value.
    pub open spec fn message_view(&self) -> Seq<char> {
        match self {
            PullRequestError::NotFound => "Pull request with the specified pull number doesn't exist"@,
            PullRequestError::AlreadyClosed => "Pull request is already closed"@,
        }
    }

    /// The message of the error.
    pub fn message(&self) -> (m: &'static str)
        ensures
            m@ == self.message_view(),
    {
        match self {
            PullRequestError::NotFound => "Pull request with the specified pull number doesn't exist",
            PullRequestError::AlreadyClosed => "Pull request is already closed",
        }
    }
}

/// The position of the pull request numbered `n` among `prs`.
pub open spec fn pr_index(prs: Seq<PullRequestView>, n: nat) -> Option<int>
    decreases prs.len(),
{
    if prs.len() == 0 {
        None
    } else if prs.last().pull_number == n {
        Some(prs.len() - 1)
    } else {
        pr_index(prs.drop_last(), n)
    }
}

pub proof fn lemma_pr_index(prs: Seq<PullRequestView>, n: nat)
    ensures
        match pr_index(prs, n) {
            Some(i) => 0 <= i < prs.len() && prs[i].pull_number == n,
            None => forall|j: int| 0 <= j < prs.len() ==> prs[j].pull_number != n,
        },
    decreases prs.len(),
{
    if prs.len() > 0 && prs.last().pull_number != n {
        lemma_pr_index(prs.drop_last(), n);
        assert(forall|j: int| 0 <= j < prs.len() - 1 ==> prs.drop_last()[j] == prs[j]);
    }
}

/// The pull requests are in increasing order of their numbers.
pub open spec fn sorted_by_number(prs: Seq<PullRequestView>) -> bool {
    forall|i: int, j: int| 0 <= i < j < prs.len() ==> prs[i].pull_number < prs[j].pull_number
}

/// How many of `prs` have a number below `n`.
pub open spec fn count_below(prs: Seq<PullRequestView>, n: nat) -> nat
    decreases prs.len(),
{
    if prs.len() == 0 {
        0
    } else if prs.last().pull_number < n {
        count_below(prs.drop_last(), n) + 1
    } else {
        count_below(prs.drop_last(), n)
    }
}

/// The pull requests after putting `pr` among them: it replaces the one
/// with its number, or goes where its number keeps them in order.
pub open spec fn pr_insert(prs: Seq<PullRequestView>, pr: PullRequestView) -> Seq<PullRequestView> {
    match pr_index(prs, pr.pull_number) {
        Some(i) => prs.update(i, pr),
        None => prs.take(count_below(prs, pr.pull_number) as int).push(pr) + prs.skip(
            count_below(prs, pr.pull_number) as int,
        ),
    }
}

/// Data structures to represent a Repository for Pull Requests
pub struct Repository {
    name: String,
    pr_count: usize,
    pull_requests: HashMap<usize, PullRequest>,
    /// The numbers of the pull requests, in increasing order.
    numbers: Vec<usize>,
}

impl Repository {
    /// The name of the repository.
    pub closed spec fn name_view(&self) -> Seq<char> {
        self.name@
    }

    /// How many pull requests have been created.
    pub closed spec fn count(&self) -> nat {
        self.pr_count as nat
    }

    /// The pull requests, in increasing order of their numbers.
    pub closed spec fn prs(&self) -> Seq<PullRequestView> {
        self.numbers@.map_values(|n: usize| self.pull_requests@[n]@)
    }

    /// The map holds exactly the numbers listed, each under its own number.
    pub closed spec fn map_matches(&self) -> bool {
        &&& forall|i: int|
            0 <= i < self.numbers@.len() ==> #[trigger] self.pull_requests@.contains_key(self.numbers@[i])
                && self.pull_requests@[self.numbers@[i]].pull_number == self.numbers@[i]
        &&& forall|n: usize|
            #[trigger] self.pull_requests@.contains_key(n) ==> exists|i: int|
                0 <= i < self.numbers@.len() && self.numbers@[i] == n
    }

    /// No two pull requests have the same number, and they are in order.
    pub open spec fn wf(&self) -> bool {
        &&& sorted_by_number(self.prs())
        &&& self.map_matches()
    }

    /// Each listed number is held, under a pull request with that number,
    /// which is the pull request at its place.
    proof fn lemma_numbers(&self)
        requires
            self.wf(),
        ensures
            forall|j: int|
                0 <= j < self.numbers@.len() ==> self.pull_requests@.contains_key(#[trigger] self.numbers@[j])
                    && self.pull_requests@[self.numbers@[j]].pull_number == self.numbers@[j]
                    && self.prs()[j].pull_number == self.numbers@[j],
            self.prs().len() == self.numbers@.len(),
    {
        assert forall|j: int| 0 <= j < self.numbers@.len() implies self.pull_requests@.contains_key(
            #[trigger] self.numbers@[j],
        ) && self.pull_requests@[self.numbers@[j]].pull_number == self.numbers@[j] && self.prs()[j].pull_number
            == self.numbers@[j] by {
            assert(self.pull_requests@.contains_key(self.numbers@[j]));
        }
    }

    /// A number is held exactly when it has a place among the pull
    /// requests, and that place lists it.
    proof fn lemma_number_place(&self, n: usize)
        requires
            self.wf(),
        ensures
            self.pull_requests@.contains_key(n) <==> pr_index(self.prs(), n as nat) is Some,
            match pr_index(self.prs(), n as nat) {
                Some(i) => 0 <= i < self.numbers@.len() && self.numbers@[i] == n && self.prs()[i]
                    == self.pull_requests@[n]@,
                None => true,
            },
    {
        lemma_pr_index(self.prs(), n as nat);
        match pr_index(self.prs(), n as nat) {
            Some(i) => {
                assert(self.prs()[i] == self.pull_requests@[self.numbers@[i]]@);
                assert(self.pull_requests@.contains_key(self.numbers@[i]));
            },
            None => {
                if self.pull_requests@.contains_key(n) {
                    let i = choose|i: int| 0 <= i < self.numbers@.len() && self.numbers@[i] == n;
                    assert(self.prs()[i] == self.pull_requests@[self.numbers@[i]]@);
                    assert(self.pull_requests@.contains_key(self.numbers@[i]));
                }
            },
        }
    }

    /// Returns a new Repository with the specified name and no Pull Requests
    pub fn new(name: &str) -> (r: Repository)
        ensures
            r.wf(),
            r.name_view() == name@,
            r.count() == 0,
            r.prs() == Seq::<PullRequestView>::empty(),
    {
        let r = Repository { name: name.to_string(), pr_count: 0, pull_requests: HashMap::new(), numbers: Vec::new() };
        assert(r.prs() =~= Seq::<PullRequestView>::empty());
        r
    }

    /// The name of the repository.
    pub fn name(&self) -> (n: &str)
        ensures
            n@ == self.name_view(),
    {
        self.name.as_str()
    }

    /// How many pull requests have been created.
    pub fn pr_count(&self) -> (n: usize)
        ensures
            n == self.count(),
    {
        self.pr_count
    }

    /// The pull requests, each under its number.
    pub fn pull_requests(&self) -> (prs: &HashMap<usize, PullRequest>)
        requires
            self.wf(),
        ensures
            forall|n: usize| #[trigger] prs@.contains_key(n) == (pr_index(self.prs(), n as nat) is Some),
            forall|n: usize|
                #[trigger] prs@.contains_key(n) ==> prs@[n]@ == self.prs()[pr_index(self.prs(), n as nat).unwrap()],
    {
        proof {
            assert forall|n: usize| #[trigger] self.pull_requests@.contains_key(n) == (pr_index(self.prs(), n as nat) is Some)
                && (self.pull_requests@.contains_key(n) ==> self.pull_requests@[n]@ == self.prs()[pr_index(
                self.prs(),
                n as nat,
            ).unwrap()]) by {
                self.lemma_number_place(n);
            }
        }
        &self.pull_requests
    }

    /// A repository with the given name and count of pull requests created,
    /// holding the given pull requests (a later one replaces an earlier one
    /// with its number).
    pub fn from_parts(name: &str, pr_count: usize, pull_requests: Vec<PullRequest>) -> (r: Repository)
        ensures
            r.wf(),
            r.name_view() == name@,
            r.count() == pr_count,
    {
        let mut r = Repository::new(name);
        let mut prs = pull_requests;
        while prs.len() > 0
            invariant
                r.wf(),
                r.name_view() == name@,
            decreases prs@.len(),
        {
            let pr = prs.remove(0);
            r.insert_pull_request(pr);
        }
        r.pr_count = pr_count;
        r
    }

    /// Puts `pr` in the place of the pull request with its number `n`.
    fn replace_pull_request(&mut self, n: usize, pr: PullRequest)
        requires
            old(self).wf(),
            pr_index(old(self).prs(), n as nat) is Some,
            pr@.pull_number == n,
        ensures
            final(self).wf(),
            final(self).prs() == old(self).prs().update(pr_index(old(self).prs(), n as nat).unwrap(), pr@),
            final(self).name_view() == old(self).name_view(),
            final(self).count() == old(self).count(),
    {
        let ghost old_prs = self.prs();
        let ghost old_map = self.pull_requests@;
        let ghost v = pr@;
        let ghost i = pr_index(old_prs, n as nat).unwrap();
        proof {
            self.lemma_number_place(n);
            self.lemma_numbers();
        }
        self.pull_requests.insert(n, pr);
        assert forall|j: int| 0 <= j < self.numbers@.len() && j != i implies #[trigger] self.numbers@[j] != n by {
            assert(old_prs[j].pull_number == self.numbers@[j]);
            if j < i {
                assert(old_prs[j].pull_number < old_prs[i].pull_number);
            } else {
                assert(old_prs[i].pull_number < old_prs[j].pull_number);
            }
        }
        assert(self.prs() =~= old_prs.update(i, v));
        assert forall|m: usize| #[trigger] self.pull_requests@.contains_key(m) implies exists|k: int|
            0 <= k < self.numbers@.len() && self.numbers@[k] == m by {
            if m != n {
                assert(old_map.contains_key(m));
            } else {
                assert(self.numbers@[i] == m);
            }
        }
    }

    /// Puts `pr` among the pull requests; the count grows when its number
    /// was not there yet.
    fn insert_pull_request(&mut self, pr: PullRequest)
        requires
            old(self).wf(),
        ensures
            final(self).wf(),
            final(self).prs() == pr_insert(old(self).prs(), pr@),
            final(self).name_view() == old(self).name_view(),
            final(self).count() == (if pr_index(old(self).prs(), pr@.pull_number) is Some {
                old(self).count()
            } else {
                (old(self).count() + 1) as nat
            }) || old(self).count() == usize::MAX,
    {
        let ghost old_prs = self.prs();
        let ghost old_map = self.pull_requests@;
        let ghost v = pr@;
        let n = pr.pull_number;
        let ghost old_numbers = self.numbers@;
        proof {
            self.lemma_number_place(n);
            self.lemma_numbers();
        }
        if self.pull_requests.contains_key(&n) {
            let ghost i = pr_index(old_prs, n as nat).unwrap();
            self.pull_requests.insert(n, pr);
            assert forall|j: int| 0 <= j < self.numbers@.len() && j != i implies #[trigger] self.numbers@[j] != n by {
                assert(old_prs[j].pull_number == self.numbers@[j]);
                if j < i {
                    assert(old_prs[j].pull_number < old_prs[i].pull_number);
                } else {
                    assert(old_prs[i].pull_number < old_prs[j].pull_number);
                }
            }
            assert(self.prs() =~= old_prs.update(i, v));
            assert forall|m: usize| #[trigger] self.pull_requests@.contains_key(m) implies exists|k: int|
                0 <= k < self.numbers@.len() && self.numbers@[k] == m by {
                if m != n {
                    assert(old_map.contains_key(m));
                } else {
                    assert(self.numbers@[i] == m);
                }
            }
        } else {
            let mut k: usize = 0;
            while k < self.numbers.len() && self.numbers[k] < n
                invariant
                    k <= self.numbers@.len(),
                    self.prs() == old_prs,
                    self.pull_requests@ == old_map,
                    sorted_by_number(old_prs),
                    self.numbers@ == old_numbers,
                    old_prs.len() == old_numbers.len(),
                    forall|j: int| 0 <= j < old_numbers.len() ==> old_prs[j].pull_number == #[trigger] old_numbers[j],
                    forall|j: int| 0 <= j < k ==> old_prs[j].pull_number < n,
                decreases self.numbers@.len() - k,
            {
                assert(old_prs[k as int].pull_number == self.numbers@[k as int]);
                k = k + 1;
            }
            proof {
                lemma_pr_index(old_prs, n as nat);
                if k < old_prs.len() {
                    assert(old_prs[k as int].pull_number == self.numbers@[k as int]);
                    assert(old_prs[k as int].pull_number > n);
                }
                lemma_count_below(old_prs, n as nat, k as nat);
            }
            self.numbers.insert(k, n);
            self.pull_requests.insert(n, pr);
            assert forall|j: int| 0 <= j < old_numbers.len() implies #[trigger] old_numbers[j] != n by {
                assert(old_prs[j].pull_number == old_numbers[j]);
            }
            assert(self.prs() =~= old_prs.take(k as int).push(v) + old_prs.skip(k as int)) by {
                assert forall|j: int| 0 <= j < self.numbers@.len() implies #[trigger] self.prs()[j] == (
                old_prs.take(k as int).push(v) + old_prs.skip(k as int))[j] by {
                    if j < k {
                        assert(self.numbers@[j] == old_numbers[j]);
                    } else if j > k {
                        assert(self.numbers@[j] == old_numbers[j - 1]);
                    }
                }
            }
            assert forall|i: int|
                0 <= i < self.numbers@.len() implies #[trigger] self.pull_requests@.contains_key(self.numbers@[i])
                && self.pull_requests@[self.numbers@[i]].pull_number == self.numbers@[i] by {
                if i < k {
                    assert(self.numbers@[i] == old_numbers[i]);
                    assert(old_map.contains_key(old_numbers[i]));
                } else if i > k {
                    assert(self.numbers@[i] == old_numbers[i - 1]);
                    assert(old_map.contains_key(old_numbers[i - 1]));
                }
            }
            assert forall|m: usize| #[trigger] self.pull_requests@.contains_key(m) implies exists|j: int|
                0 <= j < self.numbers@.len() && self.numbers@[j] == m by {
                if m != n {
                    assert(old_map.contains_key(m));
                    let j = choose|j: int| 0 <= j < old_numbers.len() && old_numbers[j] == m;
                    if j < k {
                        assert(self.numbers@[j] == m);
                    } else {
                        assert(self.numbers@[j + 1] == m);
                    }
                } else {
                    assert(self.numbers@[k as int] == m);
                }
            }
            if self.pr_count < usize::MAX {
                self.pr_count = self.pr_count + 1;
            }
        }
    }

    /// Creates a new PullRequest, numbered after the ones created before,
    /// opened at the time `now`, and inserts it into the repository.
    pub fn create_pull_request_at(&mut self, pr_create: PullRequestCreate, now: String) -> (pr: PullRequest)
        requires
            old(self).wf(),
            old(self).count() < usize::MAX,
        ensures
            final(self).wf(),
            pr@ == new_pull_request(pr_create, old(self).count() + 1, now@),
            final(self).prs() == pr_insert(old(self).prs(), pr@),
            final(self).count() == (if pr_index(old(self).prs(), old(self).count() + 1) is Some {
                old(self).count()
            } else {
                (old(self).count() + 1) as nat
            }),
            numbered_in_order(old(self).prs(), old(self).count()) ==> numbered_in_order(
                final(self).prs(),
                final(self).count(),
            ) && final(self).prs() == old(self).prs().push(pr@),
            final(self).name_view() == old(self).name_view(),
    {
        let next_pull_number = self.pr_count + 1;
        let pull_request = PullRequest::new(pr_create, next_pull_number, now);
        let copy = pull_request.duplicate();
        let ghost before = self.prs();
        let ghost count = self.count();
        self.insert_pull_request(copy);
        proof {
            if numbered_in_order(before, count) {
                law_create_keeps_numbering(before, count, pull_request@);
            }
        }
        pull_request
    }

    /// Creates a new PullRequest, numbered after the ones created before,
    /// opened now, and inserts it into the repository.
    pub fn create_pull_request(&mut self, pr_create: PullRequestCreate) -> (pr: PullRequest)
        requires
            old(self).wf(),
            old(self).count() < usize::MAX,
        ensures
            final(self).wf(),
            pr@ == new_pull_request(pr_create, old(self).count() + 1, pr.created_at@),
            final(self).prs() == pr_insert(old(self).prs(), pr@),
            final(self).count() == (if pr_index(old(self).prs(), old(self).count() + 1) is Some {
                old(self).count()
            } else {
                (old(self).count() + 1) as nat
            }),
            numbered_in_order(old(self).prs(), old(self).count()) ==> numbered_in_order(
                final(self).prs(),
                final(self).count(),
            ) && final(self).prs() == old(self).prs().push(pr@),
            final(self).name_view() == old(self).name_view(),
    {
        let now = get_current_date();
        self.create_pull_request_at(pr_create, now)
    }

    /// Patches the PullRequest with the specified pull number at the time
    /// `now`, and returns a copy of it.
    pub fn patch_pull_request_at(&mut self, pull_number: usize, pr_patch: PullRequestPatch, now: String) -> (result: Result<PullRequest, PullRequestError>)
        requires
            old(self).wf(),
        ensures
            final(self).wf(),
            final(self).name_view() == old(self).name_view(),
            final(self).count() == old(self).count(),
            match pr_index(old(self).prs(), pull_number as nat) {
                Some(i) => result matches Ok(pr) && pr@ == patched(old(self).prs()[i], pr_patch, now@)
                    && final(self).prs() == old(self).prs().update(i, pr@),
                None => result == Err::<PullRequest, PullRequestError>(PullRequestError::NotFound)
                    && final(self).prs() == old(self).prs(),
            },
    {
        proof {
            self.lemma_number_place(pull_number);
        }
        let mut pr = match self.pull_requests.get(&pull_number) {
            Some(p) => p.duplicate(),
            None => {
                return Err(PullRequestError::NotFound);
            },
        };
        pr.patch_at(pr_patch, now);
        let copy = pr.duplicate();
        self.replace_pull_request(pull_number, pr);
        Ok(copy)
    }

    /// Patches the PullRequest with the specified pull number now, and
    /// returns a copy of it.
    pub fn patch_pull_request(&mut self, pull_number: usize, pr_patch: PullRequestPatch) -> (result: Result<PullRequest, PullRequestError>)
        requires
            old(self).wf(),
        ensures
            final(self).wf(),
            final(self).name_view() == old(self).name_view(),
            final(self).count() == old(self).count(),
            match pr_index(old(self).prs(), pull_number as nat) {
                Some(i) => result matches Ok(pr) && pr@ == patched(old(self).prs()[i], pr_patch, pr.updated_at@)
                    && final(self).prs() == old(self).prs().update(i, pr@),
                None => result == Err::<PullRequest, PullRequestError>(PullRequestError::NotFound)
                    && final(self).prs() == old(self).prs(),
            },
    {
        let now = get_current_date();
        self.patch_pull_request_at(pull_number, pr_patch, now)
    }

    /// Returns the list of PullRequests in the repository sorted by pull
    /// number
    pub fn list_pull_requests(&self) -> (prs: Vec<PullRequest>)
        requires
            self.wf(),
        ensures
            prs@.map_values(|p: PullRequest| p@) == self.prs(),
            sorted_by_number(prs@.map_values(|p: PullRequest| p@)),
    {
        let mut prs: Vec<PullRequest> = Vec::new();
        let mut i: usize = 0;
        while i < self.numbers.len()
            invariant
                i <= self.numbers@.len(),
                self.wf(),
                prs@.map_values(|p: PullRequest| p@) == self.prs().take(i as int),
            decreases self.numbers@.len() - i,
        {
            let ghost before = prs@;
            assert(self.pull_requests@.contains_key(self.numbers@[i as int]));
            if let Some(p) = self.pull_requests.get(&self.numbers[i]) {
                let c = p.duplicate();
                prs.push(c);
                assert(prs@.map_values(|p: PullRequest| p@) =~= before.map_values(|p: PullRequest| p@).push(c@));
            }
            assert(self.prs().take(i + 1) =~= self.prs().take(i as int).push(self.prs()[i as int]));
            i = i + 1;
        }
        assert(self.prs().take(self.numbers@.len() as int) == self.prs());
        prs
    }

    /// Returns the PullRequest with the specified pull number
    pub fn get_pull_request(&self, pull_number: usize) -> (pr: Option<&PullRequest>)
        requires
            self.wf(),
        ensures
            match pr_index(self.prs(), pull_number as nat) {
                Some(i) => pr matches Some(p) && p@ == self.prs()[i],
                None => pr is None,
            },
    {
        proof {
            self.lemma_number_place(pull_number);
        }
        self.pull_requests.get(&pull_number)
    }

    /// The directory of the repository's git data under `root_dir`.
    fn git_dir(&self, root_dir: &str, git_dir_name: &str) -> (dir: String)
        ensures
            dir@ == git_dir_path(root_dir@, self.name_view(), git_dir_name@),
    {
        let mut dir = root_dir.to_string();
        dir.append("/");
        dir.append(self.name.as_str());
        dir.append("/");
        dir.append(git_dir_name);
        proof {
            reveal_strlit("/");
        }
        dir
    }

    /// What listing the commits of a pull request needs: the repository's
    /// git directory and the pull request's branches.
    pub fn list_commits_from_pull_request(&self, pull_number: usize, root_dir: &str, git_dir_name: &str) -> (result: Result<BranchPair, PullRequestError>)
        requires
            self.wf(),
        ensures
            match pr_index(self.prs(), pull_number as nat) {
                Some(i) => result matches Ok(b) && b.git_dir@ == git_dir_path(root_dir@, self.name_view(), git_dir_name@)
                    && b.source_branch@ == self.prs()[i].source_branch
                    && b.target_branch@ == self.prs()[i].target_branch,
                None => result == Err::<BranchPair, PullRequestError>(PullRequestError::NotFound),
            },
    {
        proof {
            self.lemma_number_place(pull_number);
        }
        match self.pull_requests.get(&pull_number) {
            Some(pr) => {
                Ok(BranchPair {
                    git_dir: self.git_dir(root_dir, git_dir_name),
                    source_branch: copy_string(&pr.source_branch),
                    target_branch: copy_string(&pr.target_branch),
                })
            },
            None => Err(PullRequestError::NotFound),
        }
    }

    /// What merging a pull request needs, if it can be merged: it must
    /// exist and be open.
    pub fn merge_pull_request(&self, pull_number: usize, root_dir: &str, git_dir_name: &str) -> (result: Result<BranchPair, PullRequestError>)
        requires
            self.wf(),
        ensures
            match pr_index(self.prs(), pull_number as nat) {
                Some(i) => if self.prs()[i].state == PRState::Closed {
                    result == Err::<BranchPair, PullRequestError>(PullRequestError::AlreadyClosed)
                } else {
                    result matches Ok(b) && b.git_dir@ == git_dir_path(root_dir@, self.name_view(), git_dir_name@)
                        && b.source_branch@ == self.prs()[i].source_branch
                        && b.target_branch@ == self.prs()[i].target_branch
                },
                None => result == Err::<BranchPair, PullRequestError>(PullRequestError::NotFound),
            },
    {
        proof {
            self.lemma_number_place(pull_number);
        }
        match self.pull_requests.get(&pull_number) {
            Some(pr) => {
                if pr.state == PRState::Closed {
                    return Err(PullRequestError::AlreadyClosed);
                }
                self.list_commits_from_pull_request(pull_number, root_dir, git_dir_name)
            },
            None => Err(PullRequestError::NotFound),
        }
    }

    /// Records that the pull request with the specified number was merged by
    /// the commit `merge_hash`, and gives the hash back.
    pub fn record_merge(&mut self, pull_number: usize, merge_hash: String) -> (result: Result<String, PullRequestError>)
        requires
            old(self).wf(),
        ensures
            final(self).wf(),
            final(self).name_view() == old(self).name_view(),
            final(self).count() == old(self).count(),
            match pr_index(old(self).prs(), pull_number as nat) {
                Some(i) => result matches Ok(h) && h@ == merge_hash@ && final(self).prs().len() == old(self).prs().len()
                    && final(self).prs()[i].closed_at is Some
                    && final(self).prs() == old(self).prs().update(
                        i,
                        merged(old(self).prs()[i], final(self).prs()[i].updated_at, final(self).prs()[i].closed_at.unwrap()),
                    ),
                None => result == Err::<String, PullRequestError>(PullRequestError::NotFound)
                    && final(self).prs() == old(self).prs(),
            },
    {
        proof {
            self.lemma_number_place(pull_number);
        }
        let mut pr = match self.pull_requests.get(&pull_number) {
            Some(p) => p.duplicate(),
            None => {
                return Err(PullRequestError::NotFound);
            },
        };
        let hash = pr.merge(merge_hash);
        self.replace_pull_request(pull_number, pr);
        Ok(hash)
    }
}

/// The git directory of the repository `name` under `root`.
pub open spec fn git_dir_path(root: Seq<char>, name: Seq<char>, git_dir_name: Seq<char>) -> Seq<char> {
    root + seq!['/'] + name + seq!['/'] + git_dir_name
}

/// A pull request's branches, in the repository's git directory.
pub struct BranchPair {
    pub git_dir: String,
    pub source_branch: String,
    pub target_branch: String,
}

proof fn lemma_count_below(prs: Seq<PullRequestView>, n: nat, k: nat)
    requires
        sorted_by_number(prs),
        k <= prs.len(),
        forall|j: int| 0 <= j < k ==> prs[j].pull_number < n,
        k < prs.len() ==> prs[k as int].pull_number > n,
    ensures
        count_below(prs, n) == k,
    decreases prs.len(),
{
    if prs.len() > 0 {
        if k == prs.len() {
            lemma_count_below(prs.drop_last(), n, (k - 1) as nat);
        } else {
            assert(prs.last().pull_number >= prs[k as int].pull_number);
            if k < prs.len() - 1 {
                assert(prs.drop_last()[k as int] == prs[k as int]);
            }
            lemma_count_below(prs.drop_last(), n, k);
        }
    }
}


/// The pull request numbered `n` among `prs`.
pub open spec fn pr_lookup(prs: Seq<PullRequestView>, n: nat) -> Option<PullRequestView> {
    match pr_index(prs, n) {
        Some(i) => Some(prs[i]),
        None => None,
    }
}

proof fn lemma_lookup_unique(prs: Seq<PullRequestView>, n: nat, j: int)
    requires
        sorted_by_number(prs),
        0 <= j < prs.len(),
        prs[j].pull_number == n,
    ensures
        pr_lookup(prs, n) == Some(prs[j]),
{
    lemma_pr_index(prs, n);
    if let Some(i) = pr_index(prs, n) {
        if i < j {
            assert(prs[i].pull_number < prs[j].pull_number);
        } else if i > j {
            assert(prs[j].pull_number < prs[i].pull_number);
        }
    }
}

proof fn lemma_lookup_absent(prs: Seq<PullRequestView>, n: nat)
    requires
        forall|j: int| 0 <= j < prs.len() ==> prs[j].pull_number != n,
    ensures
        pr_lookup(prs, n) is None,
{
    lemma_pr_index(prs, n);
}

proof fn lemma_count_below_splits(prs: Seq<PullRequestView>, n: nat)
    requires
        sorted_by_number(prs),
    ensures
        count_below(prs, n) <= prs.len(),
        forall|j: int| 0 <= j < count_below(prs, n) ==> prs[j].pull_number < n,
        forall|j: int| count_below(prs, n) <= j < prs.len() ==> prs[j].pull_number >= n,
    decreases prs.len(),
{
    if prs.len() > 0 {
        let d = prs.drop_last();
        assert(sorted_by_number(d));
        lemma_count_below_splits(d, n);
        if prs.last().pull_number < n {
            assert forall|j: int| 0 <= j < prs.len() implies prs[j].pull_number < n by {
                if j < prs.len() - 1 {
                    assert(prs[j].pull_number < prs[prs.len() - 1].pull_number);
                }
            }
        } else {
            assert forall|j: int| 0 <= j < count_below(prs, n) implies prs[j].pull_number < n by {
                assert(d[j] == prs[j]);
            }
            assert forall|j: int| count_below(prs, n) <= j < prs.len() implies prs[j].pull_number >= n by {
                if j < prs.len() - 1 {
                    assert(d[j] == prs[j]);
                }
            }
        }
    }
}

/// Putting a pull request among others in order keeps them in order; the
/// pull request is then found by its number, and every other number finds
/// what it found before.
pub proof fn law_pull_request_read_after_write(prs: Seq<PullRequestView>, pr: PullRequestView, n: nat)
    requires
        sorted_by_number(prs),
    ensures
        sorted_by_number(pr_insert(prs, pr)),
        pr_lookup(pr_insert(prs, pr), pr.pull_number) == Some(pr),
        n != pr.pull_number ==> pr_lookup(pr_insert(prs, pr), n) == pr_lookup(prs, n),
{
    let q = pr_insert(prs, pr);
    lemma_pr_index(prs, pr.pull_number);
    match pr_index(prs, pr.pull_number) {
        Some(i) => {
            assert(forall|j: int| 0 <= j < q.len() ==> q[j].pull_number == prs[j].pull_number);
            assert(sorted_by_number(q));
            lemma_lookup_unique(q, pr.pull_number, i);
            if n != pr.pull_number {
                lemma_pr_index(prs, n);
                match pr_index(prs, n) {
                    Some(m) => {
                        lemma_lookup_unique(prs, n, m);
                        assert(q[m] == prs[m]);
                        lemma_lookup_unique(q, n, m);
                    },
                    None => {
                        lemma_lookup_absent(q, n);
                    },
                }
            }
        },
        None => {
            let k = count_below(prs, pr.pull_number);
            lemma_count_below_splits(prs, pr.pull_number);
            assert(q == prs.take(k as int).push(pr) + prs.skip(k as int));
            assert(q.len() == prs.len() + 1);
            assert(forall|j: int| 0 <= j < k ==> q[j] == prs[j]);
            assert(q[k as int] == pr);
            assert(forall|j: int| k < j < q.len() ==> q[j] == prs[j - 1]);
            assert forall|a: int, b: int| 0 <= a < b < q.len() implies q[a].pull_number < q[b].pull_number by {
                if b < k {
                } else if b == k {
                } else if a < k {
                    assert(prs[b - 1].pull_number > pr.pull_number);
                } else if a == k {
                    assert(prs[b - 1].pull_number > pr.pull_number);
                } else {
                    assert(prs[a - 1].pull_number < prs[b - 1].pull_number);
                }
            }
            lemma_lookup_unique(q, pr.pull_number, k as int);
            if n != pr.pull_number {
                lemma_pr_index(prs, n);
                match pr_index(prs, n) {
                    Some(m) => {
                        lemma_lookup_unique(prs, n, m);
                        if m < k {
                            lemma_lookup_unique(q, n, m);
                        } else {
                            assert(q[m + 1] == prs[m]);
                            lemma_lookup_unique(q, n, m + 1);
                        }
                    },
                    None => {
                        assert forall|j: int| 0 <= j < q.len() implies q[j].pull_number != n by {
                            if j < k {
                            } else if j > k {
                                assert(q[j] == prs[j - 1]);
                            }
                        }
                        lemma_lookup_absent(q, n);
                    },
                }
            }
        },
    }
}

/// The pull requests are numbered 1 to `count`, in order.
pub open spec fn numbered_in_order(prs: Seq<PullRequestView>, count: nat) -> bool {
    prs.len() == count && forall|i: int| 0 <= i < prs.len() ==> #[trigger] prs[i].pull_number == i + 1
}

/// Law: in a repository whose pull requests are numbered 1 to its count, a
/// new pull request numbered after the count goes after all of them, and
/// the pull requests are then numbered 1 to the count plus one.
pub proof fn law_create_keeps_numbering(prs: Seq<PullRequestView>, count: nat, pr: PullRequestView)
    requires
        numbered_in_order(prs, count),
        pr.pull_number == count + 1,
    ensures
        pr_index(prs, count + 1) is None,
        pr_insert(prs, pr) == prs.push(pr),
        numbered_in_order(prs.push(pr), count + 1),
{
    lemma_pr_index(prs, count + 1);
    assert(sorted_by_number(prs));
    lemma_count_below(prs, count + 1, prs.len());
    assert(prs.take(prs.len() as int) == prs);
    assert(prs.skip(prs.len() as int) == Seq::<PullRequestView>::empty());
    assert(prs.push(pr) + Seq::<PullRequestView>::empty() == prs.push(pr));
    let q = prs.push(pr);
    assert forall|i: int| 0 <= i < q.len() implies #[trigger] q[i].pull_number == i + 1 by {
        if i < prs.len() {
            assert(q[i] == prs[i]);
        }
    }
}

/// Law: a patch replaces exactly the fields it gives: each of the title,
/// the description and the target branch takes the patch's value when the
/// patch gives one and keeps its own otherwise; the update time becomes the
/// time of the patch; every other field (the number, the source branch,
/// the opening and closing times, the state, who opened it and who is asked
/// to approve it) stays.
pub proof fn law_patch_replaces_given_fields(pr: PullRequestView, patch: PullRequestPatch, now: Seq<char>)
    ensures
        patch.title matches Some(t) ==> patched(pr, patch, now).title == t@,
        patch.description matches Some(d) ==> patched(pr, patch, now).description == d@,
        patch.target_branch matches Some(b) ==> patched(pr, patch, now).target_branch == b@,
        patch.title is None ==> patched(pr, patch, now).title == pr.title,
        patch.description is None ==> patched(pr, patch, now).description == pr.description,
        patch.target_branch is None ==> patched(pr, patch, now).target_branch == pr.target_branch,
        patched(pr, patch, now).updated_at == now,
        patched(pr, patch, now).pull_number == pr.pull_number,
        patched(pr, patch, now).source_branch == pr.source_branch,
        patched(pr, patch, now).author == pr.author,
        patched(pr, patch, now).created_at == pr.created_at,
        patched(pr, patch, now).state == pr.state,
        patched(pr, patch, now).reviewers == pr.reviewers,
        patched(pr, patch, now).closed_at == pr.closed_at,
{
}

/// Law: a new pull request is open under its number, with the title, the
/// description and the branches it was created with, created and updated
/// at the time of its creation, and not closed.
pub proof fn law_new_pull_request_is_open(create: PullRequestCreate, n: nat, now: Seq<char>)
    ensures
        new_pull_request(create, n, now).pull_number == n,
        new_pull_request(create, n, now).state == PRState::Open,
        new_pull_request(create, n, now).title == create.title@,
        new_pull_request(create, n, now).description == create.description@,
        new_pull_request(create, n, now).source_branch == create.source_branch@,
        new_pull_request(create, n, now).target_branch == create.target_branch@,
        new_pull_request(create, n, now).created_at == now,
        new_pull_request(create, n, now).updated_at == now,
        new_pull_request(create, n, now).closed_at is None,
{
}

/// Law: a merged pull request is closed at the time of the merge, and keeps
/// everything else but its update time.
pub proof fn law_merge_closes(pr: PullRequestView, updated: Seq<char>, closed: Seq<char>)
    ensures
        merged(pr, updated, closed).state == PRState::Closed,
        merged(pr, updated, closed).closed_at == Some(closed),
        merged(pr, updated, closed).updated_at == updated,
        merged(pr, updated, closed).pull_number == pr.pull_number,
        merged(pr, updated, closed).title == pr.title,
        merged(pr, updated, closed).description == pr.description,
        merged(pr, updated, closed).source_branch == pr.source_branch,
        merged(pr, updated, closed).target_branch == pr.target_branch,
{
}

} // verus!
