//! The pull requests of the served repositories, and the mime type of the
//! responses.
use vstd::prelude::*;
use crate::api::utils::mime_type::{MimeType, mime_of};
use crate::pull_request::{PullRequestView, Repository};
use crate::text::{char_lines, chars_of, split_char, split_on_char, string_from_chars, trim, trim_spec};

verus! {

/// The first of the accepted types that names a known mime type.
pub open spec fn first_mime(accepted: Seq<Seq<char>>) -> Option<MimeType>
    decreases accepted.len(),
{
    if accepted.len() == 0 {
        None
    } else {
        match mime_of(trim_spec(accepted[0])) {
            Some(m) => Some(m),
            None => first_mime(accepted.drop_first()),
        }
    }
}

/// The mime type of a response to a request with the `Accept` header
/// `accept`: the first of its comma-separated types that is known, or JSON.
pub open spec fn response_mime(accept: Option<Seq<char>>) -> MimeType {
    match accept {
        Some(a) => match first_mime(split_char(a, ',')) {
            Some(m) => m,
            None => MimeType::JSON,
        },
        None => MimeType::JSON,
    }
}

/// The first of the accepted types that names a known mime type.
fn first_known_mime(pieces: &Vec<Vec<char>>) -> (m: Option<MimeType>)
    ensures
        m == first_mime(char_lines(pieces@)),
{
    let ghost pv = char_lines(pieces@);
    let mut i: usize = 0;
    assert(pv.skip(0) == pv);
    while i < pieces.len()
        invariant
            i <= pieces@.len(),
            pv == char_lines(pieces@),
            first_mime(pv) == first_mime(pv.skip(i as int)),
        decreases pieces@.len() - i,
    {
        let trimmed = string_from_chars(trim(pieces[i].as_slice()).as_slice());
        assert(pv.skip(i as int)[0] == pieces@[i as int]@);
        assert(pv.skip(i as int).drop_first() == pv.skip(i + 1));
        match MimeType::try_from_name(trimmed.as_str()) {
            Ok(found) => {
                return Some(found);
            },
            Err(_) => {},
        }
        i = i + 1;
    }
    None
}

/// Get the mime type of the response: the first known type that the
/// `Accept` header lists, or JSON.
pub fn get_mime_type(accept: Option<&str>) -> (m: MimeType)
    ensures
        m == response_mime(
            match accept {
                Some(a) => Some(a@),
                None => None,
            },
        ),
{
    match accept {
        None => MimeType::JSON,
        Some(a) => {
            let chars = chars_of(a);
            let pieces = split_on_char(chars.as_slice(), ',');
            match first_known_mime(&pieces) {
                Some(found) => found,
                None => MimeType::JSON,
            }
        },
    }
}

/// The repositories of the server and their pull requests.
pub struct Repositories {
    repositories: Vec<Repository>,
}

/// A repository as a mathematical value: its name, how many pull requests
/// it created, and its pull requests.
pub open spec fn repo_view(r: Repository) -> (Seq<char>, nat, Seq<PullRequestView>) {
    (r.name_view(), r.count(), r.prs())
}

/// The position of the first repository named `name`.
pub open spec fn position_of(names: Seq<Seq<char>>, name: Seq<char>) -> Option<nat>
    decreases names.len(),
{
    if names.len() == 0 {
        None
    } else {
        match position_of(names.drop_last(), name) {
            Some(k) => Some(k),
            None => if names.last() == name {
                Some((names.len() - 1) as nat)
            } else {
                None
            },
        }
    }
}

proof fn lemma_position_of(names: Seq<Seq<char>>, name: Seq<char>)
    ensures
        match position_of(names, name) {
            Some(k) => k < names.len() && names[k as int] == name && forall|j: int| 0 <= j < k ==> names[j] != name,
            None => forall|j: int| 0 <= j < names.len() ==> names[j] != name,
        },
    decreases names.len(),
{
    if names.len() > 0 {
        lemma_position_of(names.drop_last(), name);
        assert(forall|j: int| 0 <= j < names.len() - 1 ==> names.drop_last()[j] == names[j]);
    }
}

/// The names of the repositories of a view.
pub open spec fn view_names(v: Seq<(Seq<char>, nat, Seq<PullRequestView>)>) -> Seq<Seq<char>> {
    v.map_values(|r: (Seq<char>, nat, Seq<PullRequestView>)| r.0)
}

/// The position of the repository that a request for `repo` is served
/// from: the first one held with that name, else a new one after the others
/// when the repository exists on the server.
pub open spec fn looked_up(v: Seq<(Seq<char>, nat, Seq<PullRequestView>)>, repo: Seq<char>, repo_exists: bool) -> Option<nat> {
    match position_of(view_names(v), repo) {
        Some(k) => Some(k),
        None => if repo_exists {
            Some(v.len())
        } else {
            None
        },
    }
}

/// The repositories once a request for `repo` has looked it up: a new,
/// empty one is added when the repository exists on the server but is not
/// held yet.
pub open spec fn after_lookup(v: Seq<(Seq<char>, nat, Seq<PullRequestView>)>, repo: Seq<char>, repo_exists: bool) -> Seq<
    (Seq<char>, nat, Seq<PullRequestView>),
> {
    match position_of(view_names(v), repo) {
        Some(_) => v,
        None => if repo_exists {
            v.push((repo, 0nat, Seq::<PullRequestView>::empty()))
        } else {
            v
        },
    }
}

/// The repository that a request for `repo` is served from is named `repo`.
pub proof fn lemma_looked_up(v: Seq<(Seq<char>, nat, Seq<PullRequestView>)>, repo: Seq<char>, repo_exists: bool)
    ensures
        looked_up(v, repo, repo_exists) matches Some(k) ==> k < after_lookup(v, repo, repo_exists).len()
            && after_lookup(v, repo, repo_exists)[k as int].0 == repo,
{
    lemma_position_of(view_names(v), repo);
}

impl View for Repositories {
    type V = Seq<(Seq<char>, nat, Seq<PullRequestView>)>;

    closed spec fn view(&self) -> Seq<(Seq<char>, nat, Seq<PullRequestView>)> {
        self.repositories@.map_values(|r: Repository| repo_view(r))
    }
}

impl Repositories {
    /// The names of the repositories held, in order.
    pub open spec fn names(&self) -> Seq<Seq<char>> {
        self@.map_values(|v: (Seq<char>, nat, Seq<PullRequestView>)| v.0)
    }

    /// Every repository held is well formed.
    pub closed spec fn wf(&self) -> bool {
        forall|i: int| 0 <= i < self.repositories@.len() ==> (#[trigger] self.repositories@[i]).wf()
    }

    /// No repositories yet.
    pub fn new() -> (r: Repositories)
        ensures
            r.wf(),
            r@ == Seq::<(Seq<char>, nat, Seq<PullRequestView>)>::empty(),
    {
        let r = Repositories { repositories: Vec::new() };
        assert(r@ =~= Seq::<(Seq<char>, nat, Seq<PullRequestView>)>::empty());
        r
    }

    /// Adds a repository loaded elsewhere.
    pub fn insert(&mut self, repo: Repository)
        requires
            old(self).wf(),
            repo.wf(),
        ensures
            final(self).wf(),
            final(self)@ == old(self)@.push(repo_view(repo)),
    {
        let ghost before = self@;
        let ghost v = repo_view(repo);
        self.repositories.push(repo);
        assert(self@ =~= before.push(v));
    }

    /// Get a repository: the first one held with that name, else a new,
    /// empty one when the repository exists on the server (as `repo_exists`
    /// tells), else none. Gives its position.
    pub fn get(&mut self, repo: &str, repo_exists: bool) -> (i: Option<usize>)
        requires
            old(self).wf(),
        ensures
            final(self).wf(),
            match position_of(old(self).names(), repo@) {
                Some(k) => i == Some(k as usize) && final(self)@ == old(self)@,
                None => if repo_exists {
                    i == Some(old(self)@.len() as usize) && final(self)@ == old(self)@.push(
                        (repo@, 0nat, Seq::<PullRequestView>::empty()),
                    )
                } else {
                    i is None && final(self)@ == old(self)@
                },
            },
            match i {
                Some(k) => looked_up(old(self)@, repo@, repo_exists) == Some(k as nat),
                None => looked_up(old(self)@, repo@, repo_exists) is None,
            },
            final(self)@ == after_lookup(old(self)@, repo@, repo_exists),
    {
        proof {
            lemma_position_of(self.names(), repo@);
        }
        let mut k: usize = 0;
        while k < self.repositories.len()
            invariant
                k <= self.repositories@.len(),
                self.wf(),
                self@ == old(self)@,
                self.names().len() == self.repositories@.len(),
                forall|j: int| 0 <= j < k ==> self.names()[j] != repo@,
            decreases self.repositories@.len() - k,
        {
            assert(self.names()[k as int] == self.repositories@[k as int].name_view());
            let name = self.repositories[k].name();
            if crate::text::chars_equal(chars_of(name).as_slice(), chars_of(repo).as_slice()) {
                proof {
                    lemma_position_of(self.names(), repo@);
                }
                return Some(k);
            }
            k = k + 1;
        }
        assert(position_of(old(self).names(), repo@) is None) by {
            lemma_position_of(old(self).names(), repo@);
        }
        if repo_exists {
            let ghost before = self@;
            let fresh = Repository::new(repo);
            assert(repo_view(fresh) == (repo@, 0nat, Seq::<PullRequestView>::empty()));
            self.insert(fresh);
            assert(self@.len() == self.repositories@.len());
            assert(self@ == before.push((repo@, 0nat, Seq::<PullRequestView>::empty())));
            return Some(self.repositories.len() - 1);
        }
        None
    }

    /// The repository at position `i`.
    pub fn repository(&self, i: usize) -> (r: &Repository)
        requires
            i < self@.len(),
        ensures
            repo_view(*r) == self@[i as int],
            self.wf() ==> r.wf(),
    {
        &self.repositories[i]
    }

    /// Takes the repository at position `i` out, leaving an empty one of the
    /// same name in its place.
    pub fn take(&mut self, i: usize) -> (r: Repository)
        requires
            old(self).wf(),
            i < old(self)@.len(),
        ensures
            final(self).wf(),
            r.wf(),
            repo_view(r) == old(self)@[i as int],
            final(self)@ == old(self)@.update(
                i as int,
                (old(self)@[i as int].0, 0nat, Seq::<PullRequestView>::empty()),
            ),
    {
        let ghost before = self@;
        let empty = Repository::new(self.repositories[i].name());
        let mut r = empty;
        proof {
            assert(self.repositories@[i as int].wf());
        }
        std::mem::swap(&mut r, &mut self.repositories[i]);
        assert(self@ =~= before.update(i as int, (before[i as int].0, 0nat, Seq::<PullRequestView>::empty())));
        r
    }

    /// Puts the repository `repo` at position `i`.
    pub fn put(&mut self, i: usize, repo: Repository)
        requires
            old(self).wf(),
            i < old(self)@.len(),
            repo.wf(),
        ensures
            final(self).wf(),
            final(self)@ == old(self)@.update(i as int, repo_view(repo)),
    {
        let ghost before = self@;
        let ghost v = repo_view(repo);
        self.repositories.set(i, repo);
        assert(self@ =~= before.update(i as int, v));
    }
}

} // verus!
