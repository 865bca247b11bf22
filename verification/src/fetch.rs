//! The FETCH_HEAD file that a fetch writes: the commit of each fetched
//! branch and the remote it came from.
use vstd::prelude::*;
use crate::text::{
    char_lines, chars_of, free_of, join_lines_nl, law_lines_of_joined, lemma_split_after_piece, lemma_split_free, lines,
    lines_spec, split_char, split_on_char, string_from_chars, strip_cr,
};

verus! {

/// Represents a single entry in the "FETCH_HEAD" file: the commit hash of a
/// fetched branch, the branch name, and the URL of the remote it came from.
pub struct FetchEntry {
    pub commit_hash: String,
    pub branch_name: String,
    pub remote_repo_url: String,
}

/// An entry as a mathematical value.
pub struct FetchEntryView {
    pub commit_hash: Seq<char>,
    pub branch_name: Seq<char>,
    pub remote_repo_url: Seq<char>,
}

impl View for FetchEntry {
    type V = FetchEntryView;

    open spec fn view(&self) -> FetchEntryView {
        FetchEntryView {
            commit_hash: self.commit_hash@,
            branch_name: self.branch_name@,
            remote_repo_url: self.remote_repo_url@,
        }
    }
}

impl FetchEntry {
    /// An entry of the commit `commit_hash` of the branch `branch_name`
    /// fetched from `remote_repo_url`.
    pub fn new(commit_hash: String, branch_name: String, remote_repo_url: String) -> (e: FetchEntry)
        ensures
            e@ == (FetchEntryView { commit_hash: commit_hash@, branch_name: branch_name@, remote_repo_url: remote_repo_url@ }),
    {
        FetchEntry { commit_hash, branch_name, remote_repo_url }
    }
}

/// The line of an entry in the file: `hash branch of url`.
pub open spec fn fetch_line(e: FetchEntryView) -> Seq<char> {
    e.commit_hash + seq![' '] + e.branch_name + seq![' ', 'o', 'f', ' '] + e.remote_repo_url
}

/// The text of the file: the line of each entry, each ended by a newline.
pub open spec fn fetch_text(entries: Seq<FetchEntryView>) -> Seq<char>
    decreases entries.len(),
{
    if entries.len() == 0 {
        seq![]
    } else {
        fetch_text(entries.drop_last()) + fetch_line(entries.last()) + seq!['\n']
    }
}

/// A line of the file has at least four space-separated fields.
pub open spec fn fetch_line_readable(line: Seq<char>) -> bool {
    split_char(line, ' ').len() >= 4
}

/// The entry that a line of the file stands for: its first, second and
/// fourth space-separated fields.
pub open spec fn fetch_entry_of(line: Seq<char>) -> FetchEntryView {
    let f = split_char(line, ' ');
    FetchEntryView { commit_hash: f[0], branch_name: f[1], remote_repo_url: f[3] }
}

/// The entries of the file `text`, one per line.
pub open spec fn fetch_entries_of(text: Seq<char>) -> Seq<FetchEntryView> {
    lines_spec(text).map_values(|l: Seq<char>| fetch_entry_of(l))
}

/// Represents the "FETCH_HEAD" file generated during Git fetch operations,
/// containing a list of fetched entries.
pub struct FetchHead {
    entries: Vec<FetchEntry>,
}

impl FetchHead {
    /// The entries, in order.
    pub closed spec fn entries_view(&self) -> Seq<FetchEntryView> {
        self.entries@.map_values(|e: FetchEntry| e@)
    }

    /// Creates a new, empty FetchHead instance.
    pub fn new() -> (f: FetchHead)
        ensures
            f.entries_view() == Seq::<FetchEntryView>::empty(),
    {
        let f = FetchHead { entries: Vec::new() };
        assert(f.entries_view() =~= Seq::<FetchEntryView>::empty());
        f
    }

    /// Adds a FetchEntry at the end.
    pub fn add_entry(&mut self, entry: FetchEntry)
        ensures
            final(self).entries_view() == old(self).entries_view().push(entry@),
    {
        let ghost before = self.entries_view();
        let ghost v = entry@;
        self.entries.push(entry);
        assert(self.entries_view() =~= before.push(v));
    }

    /// The list of fetched entries.
    pub fn get_entries(&self) -> (entries: &Vec<FetchEntry>)
        ensures
            entries@.map_values(|e: FetchEntry| e@) == self.entries_view(),
    {
        &self.entries
    }

    /// The first entry of the branch `branch_name`.
    pub fn get_branch_entry(&self, branch_name: &str) -> (entry: Option<&FetchEntry>)
        ensures
            match entry {
                Some(e) => exists|i: int|
                    0 <= i < self.entries_view().len() && self.entries_view()[i] == e@ && e@.branch_name == branch_name@
                        && forall|j: int| 0 <= j < i ==> self.entries_view()[j].branch_name != branch_name@,
                None => forall|j: int|
                    0 <= j < self.entries_view().len() ==> self.entries_view()[j].branch_name != branch_name@,
            },
    {
        let name = branch_name.to_string();
        let mut i: usize = 0;
        while i < self.entries.len()
            invariant
                i <= self.entries@.len(),
                name@ == branch_name@,
                forall|j: int| 0 <= j < i ==> self.entries_view()[j].branch_name != branch_name@,
            decreases self.entries@.len() - i,
        {
            assert(self.entries_view()[i as int] == self.entries@[i as int]@);
            if self.entries[i].branch_name == name {
                return Some(&self.entries[i]);
            }
            i = i + 1;
        }
        None
    }

    /// The text of the FETCH_HEAD file: a line `hash branch of url` for
    /// each entry.
    pub fn content(&self) -> (text: String)
        ensures
            text@ == fetch_text(self.entries_view()),
    {
        let mut text = String::new();
        let mut i: usize = 0;
        while i < self.entries.len()
            invariant
                i <= self.entries@.len(),
                text@ == fetch_text(self.entries_view().take(i as int)),
            decreases self.entries@.len() - i,
        {
            let e = &self.entries[i];
            assert(self.entries_view().take(i + 1).drop_last() == self.entries_view().take(i as int));
            assert(self.entries_view().take(i + 1).last() == e@);
            text.append(e.commit_hash.as_str());
            text.append(" ");
            text.append(e.branch_name.as_str());
            text.append(" of ");
            text.append(e.remote_repo_url.as_str());
            text.append("\n");
            proof {
                reveal_strlit(" ");
                reveal_strlit(" of ");
                reveal_strlit("\n");
            }
            i = i + 1;
        }
        assert(self.entries_view().take(self.entries@.len() as int) == self.entries_view());
        text
    }

    /// Reads the FETCH_HEAD file `text`: an entry of the first, second and
    /// fourth space-separated fields of each line.
    pub fn from_text(text: &str) -> (f: FetchHead)
        requires
            forall|i: int| 0 <= i < lines_spec(text@).len() ==> fetch_line_readable(#[trigger] lines_spec(text@)[i]),
        ensures
            f.entries_view() == fetch_entries_of(text@),
    {
        let chars = chars_of(text);
        let ls = lines(chars.as_slice());
        let ghost lv = char_lines(ls@);
        let mut fetch_head = FetchHead::new();
        let mut i: usize = 0;
        while i < ls.len()
            invariant
                i <= ls@.len(),
                lv == char_lines(ls@),
                lv == lines_spec(text@),
                forall|k: int| 0 <= k < lv.len() ==> fetch_line_readable(#[trigger] lv[k]),
                fetch_head.entries_view() == lv.take(i as int).map_values(|l: Seq<char>| fetch_entry_of(l)),
            decreases ls@.len() - i,
        {
            let fields = split_on_char(ls[i].as_slice(), ' ');
            assert(fetch_line_readable(lv[i as int]));
            let entry = FetchEntry {
                commit_hash: string_from_chars(fields[0].as_slice()),
                branch_name: string_from_chars(fields[1].as_slice()),
                remote_repo_url: string_from_chars(fields[3].as_slice()),
            };
            assert(entry@ == fetch_entry_of(lv[i as int]));
            fetch_head.add_entry(entry);
            assert(lv.take(i + 1).map_values(|l: Seq<char>| fetch_entry_of(l))
                =~= lv.take(i as int).map_values(|l: Seq<char>| fetch_entry_of(l)).push(fetch_entry_of(lv[i as int])));
            i = i + 1;
        }
        assert(lv.take(ls@.len() as int) == lv);
        fetch_head
    }
}

/// The last part of each reference name, after its last `/`.
pub fn get_clean_refs(refs: &[String]) -> (clean: Vec<String>)
    ensures
        clean@.len() == refs@.len(),
        forall|i: int| 0 <= i < refs@.len() ==> #[trigger] clean@[i]@ == split_char(refs@[i]@, '/').last(),
{
    let mut clean: Vec<String> = Vec::new();
    let mut i: usize = 0;
    while i < refs.len()
        invariant
            i <= refs@.len(),
            clean@.len() == i,
            forall|k: int| 0 <= k < i ==> #[trigger] clean@[k]@ == split_char(refs@[k]@, '/').last(),
        decreases refs@.len() - i,
    {
        let chars = chars_of(refs[i].as_str());
        let parts = split_on_char(chars.as_slice(), '/');
        assert(char_lines(parts@).len() > 0);
        let last = string_from_chars(parts[parts.len() - 1].as_slice());
        clean.push(last);
        i = i + 1;
    }
    clean
}

/// The message that logs a `git fetch`: the remote (`origin` when none is
/// given), the host, the local directory and the time.
pub fn log_fetch(remote_repo_name: Option<&str>, host: &str, local_dir: &str, time: &str) -> (message: String)
    ensures
        message@ == "Command 'git fetch': Remote Repo Name '"@ + (match remote_repo_name {
            Some(r) => r@,
            None => "origin"@,
        }) + "', Host '"@ + host@ + "', Local Dir '"@ + local_dir@ + "', "@ + time@,
{
    let repo_name = match remote_repo_name {
        Some(r) => r,
        None => "origin",
    };
    let mut message = String::new();
    message.append("Command 'git fetch': Remote Repo Name '");
    message.append(repo_name);
    message.append("', Host '");
    message.append(host);
    message.append("', Local Dir '");
    message.append(local_dir);
    message.append("', ");
    message.append(time);
    message
}


/// An entry that its line gives back: no field holds a space or a newline,
/// and the line does not end with a carriage return.
pub open spec fn writable_fetch_entry(e: FetchEntryView) -> bool {
    &&& free_of(e.commit_hash, ' ')
    &&& free_of(e.branch_name, ' ')
    &&& free_of(e.remote_repo_url, ' ')
    &&& free_of(fetch_line(e), '\n')
    &&& strip_cr(fetch_line(e)) == fetch_line(e)
}

proof fn lemma_fetch_text_lines(es: Seq<FetchEntryView>)
    ensures
        fetch_text(es) == join_lines_nl(es.map_values(|e: FetchEntryView| fetch_line(e))),
    decreases es.len(),
{
    if es.len() > 0 {
        lemma_fetch_text_lines(es.drop_last());
        assert(es.map_values(|e: FetchEntryView| fetch_line(e)).drop_last() == es.drop_last().map_values(
            |e: FetchEntryView| fetch_line(e),
        ));
    }
}

proof fn lemma_fetch_line_fields(e: FetchEntryView)
    requires
        free_of(e.commit_hash, ' '),
        free_of(e.branch_name, ' '),
        free_of(e.remote_repo_url, ' '),
    ensures
        split_char(fetch_line(e), ' ') == seq![e.commit_hash, e.branch_name, seq!['o', 'f'], e.remote_repo_url],
{
    let of = seq!['o', 'f'];
    assert(free_of(of, ' '));
    lemma_split_free(e.remote_repo_url, ' ');
    lemma_split_after_piece(of, ' ', e.remote_repo_url);
    lemma_split_after_piece(e.branch_name, ' ', of + seq![' '] + e.remote_repo_url);
    lemma_split_after_piece(e.commit_hash, ' ', e.branch_name + seq![' '] + (of + seq![' '] + e.remote_repo_url));
    assert(fetch_line(e) == e.commit_hash + seq![' '] + (e.branch_name + seq![' '] + (of + seq![' '] + e.remote_repo_url)));
}

/// The text of a FETCH_HEAD file reads back into the same entries, when
/// each entry can be written as a line.
pub proof fn law_fetch_text_reads_back(es: Seq<FetchEntryView>)
    requires
        forall|i: int| 0 <= i < es.len() ==> writable_fetch_entry(#[trigger] es[i]),
    ensures
        fetch_entries_of(fetch_text(es)) == es,
        forall|i: int| 0 <= i < lines_spec(fetch_text(es)).len() ==> fetch_line_readable(#[trigger] lines_spec(fetch_text(es))[i]),
{
    let ls = es.map_values(|e: FetchEntryView| fetch_line(e));
    lemma_fetch_text_lines(es);
    assert forall|i: int| 0 <= i < ls.len() implies free_of(#[trigger] ls[i], '\n') by {
        assert(writable_fetch_entry(es[i]));
    }
    assert forall|i: int| 0 <= i < ls.len() implies strip_cr(#[trigger] ls[i]) == ls[i] by {
        assert(writable_fetch_entry(es[i]));
    }
    law_lines_of_joined(ls);
    assert forall|i: int| 0 <= i < es.len() implies fetch_entry_of(#[trigger] ls[i]) == es[i] && fetch_line_readable(ls[i]) by {
        assert(writable_fetch_entry(es[i]));
        lemma_fetch_line_fields(es[i]);
    }
    assert(ls.map_values(|l: Seq<char>| fetch_entry_of(l)) =~= es);
}

} // verus!
