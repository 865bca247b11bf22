//! Rebasing a branch onto another: which files conflict, and the state of
//! a rebase that goes commit by commit.
use vstd::prelude::*;

verus! {

/// Where a rebase stands.
#[derive(Debug, Clone, Copy, PartialEq, Eq, Structural)]
pub enum RebaseState {
    RebaseStepInProgress,
    RebaseStepFinished,
    RebaseFinished,
}

/// The changes of the step of a rebase: each file with its new content.
pub struct RebaseStep {
    pub diffs: Vec<(String, String)>,
}

/// A rebase in progress: our commits still to rebase, the commit being
/// rebased, the commit it goes on top of, and where our branch was.
pub struct Rebase {
    pub our_commits: Vec<String>,
    pub active_commit: String,
    pub commit_to_rebase: String,
    pub original_our_branch_hash: String,
    pub rebase_step: RebaseStep,
}

/// The strings as character sequences.
pub open spec fn strs(v: Seq<String>) -> Seq<Seq<char>> {
    v.map_values(|s: String| s@)
}

/// `f` once for each time it occurs in `b`.
pub open spec fn matches_of(f: Seq<char>, b: Seq<Seq<char>>) -> Seq<Seq<char>>
    decreases b.len(),
{
    if b.len() == 0 {
        seq![]
    } else if b.last() == f {
        matches_of(f, b.drop_last()).push(f)
    } else {
        matches_of(f, b.drop_last())
    }
}

/// Each file of `a`, once for each time it occurs in `b`, in the order of
/// `a`.
pub open spec fn intersection(a: Seq<Seq<char>>, b: Seq<Seq<char>>) -> Seq<Seq<char>>
    decreases a.len(),
{
    if a.len() == 0 {
        seq![]
    } else {
        intersection(a.drop_last(), b) + matches_of(a.last(), b)
    }
}

/// The files that changed on both sides: those of `changed_ours` that are
/// also among `changed_theirs`, as often as they occur there.
pub fn intersection_files_that_changed_between_commits(changed_ours: &Vec<String>, changed_theirs: &Vec<String>) -> (both: Vec<String>)
    ensures
        strs(both@) == intersection(strs(changed_ours@), strs(changed_theirs@)),
{
    let ghost a = strs(changed_ours@);
    let ghost b = strs(changed_theirs@);
    let mut both: Vec<String> = Vec::new();
    let mut i: usize = 0;
    while i < changed_ours.len()
        invariant
            i <= changed_ours@.len(),
            a == strs(changed_ours@),
            b == strs(changed_theirs@),
            strs(both@) == intersection(a.take(i as int), b),
        decreases changed_ours@.len() - i,
    {
        let f = &changed_ours[i];
        assert(a.take(i + 1).drop_last() == a.take(i as int));
        assert(a.take(i + 1).last() == f@);
        let ghost start = strs(both@);
        let mut j: usize = 0;
        while j < changed_theirs.len()
            invariant
                j <= changed_theirs@.len(),
                b == strs(changed_theirs@),
                strs(both@) == start + matches_of(f@, b.take(j as int)),
            decreases changed_theirs@.len() - j,
        {
            assert(b.take(j + 1).drop_last() == b.take(j as int));
            assert(b.take(j + 1).last() == changed_theirs@[j as int]@);
            if *f == changed_theirs[j] {
                let ghost before = strs(both@);
                both.push(f.clone());
                assert(strs(both@) =~= before.push(f@));
            }
            j = j + 1;
        }
        assert(b.take(changed_theirs@.len() as int) == b);
        i = i + 1;
    }
    assert(a.take(changed_ours@.len() as int) == a);
    both
}

/// Why a rebase did not start step by step.
#[derive(Debug, Clone, Copy, PartialEq, Eq, Structural)]
pub enum RebaseError {
    /// Our branch has no commits since the common ancestor.
    NoCommits,
    /// No file changed on both sides: the rebase is a fast forward.
    FastForward,
}

/// Starts a rebase of our branch, at `our_branch_hash`, onto their branch,
/// at `their_branch_hash`: `our_commits` are our commits since the common
/// ancestor, the oldest last, and `conflicting_files` the files that
/// changed on both sides. The oldest of our commits is rebased first.
pub fn start_rebase_gui(our_branch_hash: String, their_branch_hash: String, our_commits: Vec<String>, conflicting_files: &Vec<String>) -> (result: Result<Rebase, RebaseError>)
    ensures
        our_commits@.len() == 0 ==> result == Err::<Rebase, RebaseError>(RebaseError::NoCommits),
        our_commits@.len() > 0 && conflicting_files@.len() == 0 ==> result == Err::<Rebase, RebaseError>(
            RebaseError::FastForward,
        ),
        our_commits@.len() > 0 && conflicting_files@.len() > 0 ==> (result matches Ok(r) && strs(r.our_commits@) == strs(
            our_commits@,
        ).drop_last() && r.active_commit@ == our_commits@.last()@ && r.commit_to_rebase@ == their_branch_hash@
            && r.original_our_branch_hash@ == our_branch_hash@ && r.rebase_step.diffs@.len() == 0),
{
    let mut our_commits = our_commits;
    let ghost before = strs(our_commits@);
    let active_commit = match our_commits.pop() {
        Some(c) => c,
        None => return Err(RebaseError::NoCommits),
    };
    assert(strs(our_commits@) =~= before.drop_last());
    if conflicting_files.len() == 0 {
        return Err(RebaseError::FastForward);
    }
    Ok(Rebase {
        our_commits,
        active_commit,
        commit_to_rebase: their_branch_hash,
        original_our_branch_hash: our_branch_hash,
        rebase_step: RebaseStep { diffs: Vec::new() },
    })
}

} // verus!
