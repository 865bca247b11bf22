//! The index, a.k.a. the staging area: the staged paths and the hashes of
//! their contents.
use vstd::prelude::*;
use crate::api::utils::string_map::{
    Pair, StringMap, key_index, keys_distinct, law_insert_keeps_keys_distinct, lemma_key_index, lookup, pairs_insert,
    pairs_remove, pairs_view,
};
use crate::text::{
    char_lines, chars_of, find_char, free_of, index_of, join_lines_nl, law_lines_of_joined, lemma_index_of, lines,
    lines_spec, string_from_chars, strip_cr,
};

verus! {

/// The entries that adding the index lines `ls` to `p` gives: each line
/// `hash path` stages `path` with `hash`; a line without a space is skipped.
pub open spec fn add_index_lines(p: Seq<Pair>, ls: Seq<Seq<char>>) -> Seq<Pair>
    decreases ls.len(),
{
    if ls.len() == 0 {
        p
    } else {
        let q = add_index_lines(p, ls.drop_last());
        let line = ls.last();
        match index_of(line, ' ') {
            Some(i) => pairs_insert(q, line.skip((i + 1) as int), line.take(i as int)),
            None => q,
        }
    }
}

/// The text of the index entries `p`: a line `hash path` for each.
pub open spec fn index_text(p: Seq<Pair>) -> Seq<char>
    decreases p.len(),
{
    if p.len() == 0 {
        seq![]
    } else {
        index_text(p.drop_last()) + p.last().1 + seq![' '] + p.last().0 + seq!['\n']
    }
}

/// Why the index refused a change.
#[derive(Debug, Clone, Copy, PartialEq, Eq, Structural)]
pub enum IndexError {
    /// The path is not staged.
    NotFound,
}

/// Index is a structure that will help to manage the index file of
/// a repo a.k.a staging area.
///
/// Will have mapped every staged filename and its hash.
/// Will also have a path where it should read and write and a path to
/// a git directory where the new object will be stored.
pub struct Index {
    map: StringMap,
    path: String,
    git_dir: String,
    gitignore_path: String,
}

impl Index {
    /// The staged entries: a path and its hash each.
    pub closed spec fn pairs(&self) -> Seq<Pair> {
        self.map.pairs()
    }

    /// The staged paths and their hashes.
    pub open spec fn staged(&self) -> Map<Seq<char>, Seq<char>> {
        pairs_view(self.pairs())
    }

    /// No path is staged twice.
    pub open spec fn wf(&self) -> bool {
        keys_distinct(self.pairs())
    }

    /// Where the index is read from and written to.
    pub closed spec fn path_view(&self) -> Seq<char> {
        self.path@
    }

    /// The git directory where the objects are stored.
    pub closed spec fn git_dir_view(&self) -> Seq<char> {
        self.git_dir@
    }

    /// The path of the ignore file that the index was made with.
    pub closed spec fn gitignore_view(&self) -> Seq<char> {
        self.gitignore_path@
    }

    /// Create a new, empty index with the specified paths.
    pub fn new(index_path: &str, git_dir_path: &str, gitignore_path: &str) -> (index: Index)
        ensures
            index.wf(),
            index.pairs() == Seq::<Pair>::empty(),
            index.path_view() == index_path@,
            index.git_dir_view() == git_dir_path@,
            index.gitignore_view() == gitignore_path@,
    {
        Index {
            map: StringMap::new(),
            path: index_path.to_string(),
            git_dir: git_dir_path.to_string(),
            gitignore_path: gitignore_path.to_string(),
        }
    }

    /// An empty index without paths: its paths are empty texts.
    pub fn default() -> (index: Index)
        ensures
            index.wf(),
            index.pairs() == Seq::<Pair>::empty(),
            index.path_view() == Seq::<char>::empty(),
            index.git_dir_view() == Seq::<char>::empty(),
            index.gitignore_view() == Seq::<char>::empty(),
    {
        proof {
            reveal_strlit("");
        }
        Index::new("", "", "")
    }

    /// Create a new index with the specified paths, populated with the
    /// content of an index file.
    pub fn with(index_content: &str, index_path: &str, git_dir_path: &str, gitignore_path: &str) -> (index: Index)
        ensures
            index.wf(),
            index.pairs() == add_index_lines(Seq::empty(), lines_spec(index_content@)),
            index.path_view() == index_path@,
            index.git_dir_view() == git_dir_path@,
            index.gitignore_view() == gitignore_path@,
    {
        let mut index = Index::new(index_path, git_dir_path, gitignore_path);
        index.load_content(index_content);
        index
    }

    /// The path of the ignore file that the index was made with.
    pub fn gitignore_path(&self) -> (p: &str)
        ensures
            p@ == self.gitignore_view(),
    {
        self.gitignore_path.as_str()
    }

    /// The path where the index is written.
    pub fn path(&self) -> (p: &str)
        ensures
            p@ == self.path_view(),
    {
        self.path.as_str()
    }

    /// The git directory where the objects are stored.
    pub fn git_dir(&self) -> (d: &str)
        ensures
            d@ == self.git_dir_view(),
    {
        self.git_dir.as_str()
    }

    /// Loads the lines of an index file: each line `hash path` stages
    /// `path` with `hash`.
    pub fn load_content(&mut self, index_content: &str)
        requires
            old(self).wf(),
        ensures
            final(self).wf(),
            final(self).pairs() == add_index_lines(old(self).pairs(), lines_spec(index_content@)),
            final(self).path_view() == old(self).path_view(),
            final(self).git_dir_view() == old(self).git_dir_view(),
            final(self).gitignore_view() == old(self).gitignore_view(),
    {
        let chars = chars_of(index_content);
        let ls = lines(chars.as_slice());
        let ghost lv = char_lines(ls@);
        let ghost start = self.pairs();
        let mut i: usize = 0;
        while i < ls.len()
            invariant
                i <= ls@.len(),
                lv == char_lines(ls@),
                self.wf(),
                self.pairs() == add_index_lines(start, lv.take(i as int)),
                self.path_view() == old(self).path_view(),
                self.git_dir_view() == old(self).git_dir_view(),
                self.gitignore_view() == old(self).gitignore_view(),
            decreases ls@.len() - i,
        {
            let line = ls[i].as_slice();
            assert(lv.take(i + 1).drop_last() == lv.take(i as int));
            assert(lv.take(i + 1).last() == line@);
            if let Some(k) = find_char(line, ' ') {
                proof {
                    crate::text::lemma_index_of(line@, ' ');
                }
                let n = line.len();
                let hash = string_from_chars(vstd::slice::slice_subrange(line, 0, k));
                let path = string_from_chars(vstd::slice::slice_subrange(line, k + 1, n));
                assert(path@ == line@.skip(k + 1));
                proof {
                    law_insert_keeps_keys_distinct(self.pairs(), path@, hash@);
                }
                self.map.insert(path, hash);
            }
            i = i + 1;
        }
        assert(lv.take(ls@.len() as int) == lv);
    }

    /// Add a file to the index with its corresponding hash, or update its
    /// hash.
    pub fn add_file(&mut self, path: &str, hash: &str) -> (result: Result<(), IndexError>)
        requires
            old(self).wf(),
        ensures
            final(self).wf(),
            final(self).pairs() == pairs_insert(old(self).pairs(), path@, hash@),
            final(self).staged() == old(self).staged().insert(path@, hash@),
            final(self).path_view() == old(self).path_view(),
            final(self).git_dir_view() == old(self).git_dir_view(),
            final(self).gitignore_view() == old(self).gitignore_view(),
            result is Ok,
    {
        proof {
            law_insert_keeps_keys_distinct(self.pairs(), path@, hash@);
            crate::api::utils::string_map::law_insert_view(self.pairs(), path@, hash@);
        }
        self.map.insert(path.to_string(), hash.to_string());
        Ok(())
    }

    /// Remove a file from the index by its path; a path that is not staged
    /// is an error.
    pub fn remove_file(&mut self, path: &str) -> (result: Result<(), IndexError>)
        requires
            old(self).wf(),
        ensures
            final(self).wf(),
            final(self).pairs() == pairs_remove(old(self).pairs(), path@),
            final(self).staged() == old(self).staged().remove(path@),
            final(self).path_view() == old(self).path_view(),
            final(self).git_dir_view() == old(self).git_dir_view(),
            final(self).gitignore_view() == old(self).gitignore_view(),
            result is Ok <==> old(self).staged().contains_key(path@),
            result matches Err(e) ==> e == IndexError::NotFound,
    {
        proof {
            crate::api::utils::string_map::law_remove_view(self.pairs(), path@);
            lemma_key_index(self.pairs(), path@);
        }
        if self.map.remove(&path.to_string()) {
            Ok(())
        } else {
            Err(IndexError::NotFound)
        }
    }

    /// The message of a failed removal of `path`.
    pub fn not_found_message(path: &str) -> (m: String)
        ensures
            m@ == "Path not found in index: "@ + path@ + ". Cannot remove"@,
    {
        let mut m = String::new();
        m.append("Path not found in index: ");
        m.append(path);
        m.append(". Cannot remove");
        m
    }

    /// The staged paths and their hashes, in the order in which they were
    /// first staged.
    pub fn iter(&self) -> (entries: Vec<(String, String)>)
        ensures
            entries@.map_values(|e: (String, String)| (e.0@, e.1@)) == self.pairs(),
    {
        let mut entries: Vec<(String, String)> = Vec::new();
        let n = self.map.len();
        let mut i: usize = 0;
        while i < n
            invariant
                n == self.pairs().len(),
                i <= n,
                entries@.map_values(|e: (String, String)| (e.0@, e.1@)) == self.pairs().take(i as int),
            decreases n - i,
        {
            let (k, v) = self.map.entry(i);
            let ghost before = entries@;
            entries.push((k.to_string(), v.to_string()));
            assert(entries@.map_values(|e: (String, String)| (e.0@, e.1@))
                =~= before.map_values(|e: (String, String)| (e.0@, e.1@)).push((k@, v@)));
            assert(self.pairs().take(i + 1) =~= self.pairs().take(i as int).push(self.pairs()[i as int]));
            i = i + 1;
        }
        assert(self.pairs().take(n as int) == self.pairs());
        entries
    }

    /// The text of the index file: a line `hash path` for each staged path.
    pub fn content(&self) -> (text: String)
        ensures
            text@ == index_text(self.pairs()),
    {
        let mut text = String::new();
        let n = self.map.len();
        let mut i: usize = 0;
        while i < n
            invariant
                n == self.pairs().len(),
                i <= n,
                text@ == index_text(self.pairs().take(i as int)),
            decreases n - i,
        {
            let (k, v) = self.map.entry(i);
            assert(self.pairs().take(i + 1).drop_last() == self.pairs().take(i as int));
            text.append(v);
            text.append(" ");
            text.append(k);
            text.append("\n");
            proof {
                reveal_strlit(" ");
                reveal_strlit("\n");
            }
            i = i + 1;
        }
        assert(self.pairs().take(n as int) == self.pairs());
        text
    }

    /// Check if the index is empty.
    pub fn is_empty(&self) -> (empty: bool)
        ensures
            empty == (self.pairs().len() == 0),
    {
        self.map.len() == 0
    }

    /// Let the user know if a path is staged or not
    pub fn contains(&self, path: &str) -> (staged: bool)
        ensures
            staged == self.staged().contains_key(path@),
    {
        self.map.get(&path.to_string()).is_some()
    }

    /// Given a path, the corresponding hash is returned if the file has been
    /// staged.
    pub fn get_hash(&self, path: &str) -> (hash: Option<&String>)
        ensures
            hash is Some <==> self.staged().contains_key(path@),
            match hash {
                Some(h) => self.staged().contains_key(path@) && self.staged()[path@] == h@,
                None => !self.staged().contains_key(path@),
            },
    {
        self.map.get_string(&path.to_string())
    }
}


/// The line of an index entry: the hash, a space, the path.
pub open spec fn index_line(e: Pair) -> Seq<char> {
    e.1 + seq![' '] + e.0
}

/// An entry that its line gives back: neither part holds a newline, the
/// hash holds no space, and the line does not end with a carriage return.
pub open spec fn writable_entry(e: Pair) -> bool {
    &&& free_of(e.0, '\n')
    &&& free_of(e.1, '\n')
    &&& free_of(e.1, ' ')
    &&& strip_cr(index_line(e)) == index_line(e)
}

proof fn lemma_index_text_lines(p: Seq<Pair>)
    ensures
        index_text(p) == join_lines_nl(p.map_values(|e: Pair| index_line(e))),
    decreases p.len(),
{
    if p.len() > 0 {
        lemma_index_text_lines(p.drop_last());
        assert(p.map_values(|e: Pair| index_line(e)).drop_last() == p.drop_last().map_values(|e: Pair| index_line(e)));
    }
}

proof fn lemma_line_parts(e: Pair)
    requires
        free_of(e.1, ' '),
    ensures
        index_of(index_line(e), ' ') == Some(e.1.len()),
        index_line(e).take(e.1.len() as int) == e.1,
        index_line(e).skip((e.1.len() + 1) as int) == e.0,
{
    let l = index_line(e);
    lemma_index_of(l, ' ');
    match index_of(l, ' ') {
        Some(i) => {
            if i < e.1.len() {
                assert(l[i as int] == e.1[i as int]);
            }
            if i > e.1.len() {
                assert(l[e.1.len() as int] == ' ');
            }
        },
        None => {
            assert(l[e.1.len() as int] == ' ');
        },
    }
    assert(l.take(e.1.len() as int) == e.1);
    assert(l.skip((e.1.len() + 1) as int) == e.0);
}

proof fn lemma_add_lines_of_entries(p: Seq<Pair>)
    requires
        keys_distinct(p),
        forall|i: int| 0 <= i < p.len() ==> free_of(#[trigger] p[i].1, ' '),
    ensures
        add_index_lines(Seq::empty(), p.map_values(|e: Pair| index_line(e))) == p,
    decreases p.len(),
{
    if p.len() > 0 {
        let ls = p.map_values(|e: Pair| index_line(e));
        assert(ls.drop_last() == p.drop_last().map_values(|e: Pair| index_line(e)));
        lemma_add_lines_of_entries(p.drop_last());
        let e = p.last();
        assert(free_of(p[p.len() - 1].1, ' '));
        lemma_line_parts(e);
        assert(ls.last() == index_line(e));
        lemma_key_index(p.drop_last(), e.0);
        if let Some(k) = key_index(p.drop_last(), e.0) {
            assert(p[k].0 == p[p.len() - 1].0);
        }
        assert(p.drop_last().push((e.0, e.1)) == p);
    }
}

/// The text of an index loads back into the same entries, when each entry
/// can be written as a line and no path is staged twice.
pub proof fn law_index_content_loads_back(p: Seq<Pair>)
    requires
        keys_distinct(p),
        forall|i: int| 0 <= i < p.len() ==> writable_entry(#[trigger] p[i]),
    ensures
        add_index_lines(Seq::empty(), lines_spec(index_text(p))) == p,
{
    let ls = p.map_values(|e: Pair| index_line(e));
    lemma_index_text_lines(p);
    assert forall|i: int| 0 <= i < ls.len() implies free_of(#[trigger] ls[i], '\n') by {
        assert(writable_entry(p[i]));
        assert(ls[i] == index_line(p[i]));
        assert forall|k: int| 0 <= k < ls[i].len() implies ls[i][k] != '\n' by {
            if k < p[i].1.len() {
                assert(ls[i][k] == p[i].1[k]);
            } else if k > p[i].1.len() {
                assert(ls[i][k] == p[i].0[k - p[i].1.len() - 1]);
            }
        }
    }
    assert forall|i: int| 0 <= i < ls.len() implies strip_cr(#[trigger] ls[i]) == ls[i] by {
        assert(writable_entry(p[i]));
    }
    law_lines_of_joined(ls);
    assert forall|i: int| 0 <= i < p.len() implies free_of(#[trigger] p[i].1, ' ') by {
        assert(writable_entry(p[i]));
    }
    lemma_add_lines_of_entries(p);
}

/// A path reads back the hash that was last staged for it, and removing it
/// unstages it.
pub proof fn law_index_add_then_get(p: Seq<Pair>, path: Seq<char>, hash: Seq<char>)
    requires
        keys_distinct(p),
    ensures
        pairs_view(pairs_insert(p, path, hash)).contains_key(path),
        pairs_view(pairs_insert(p, path, hash))[path] == hash,
        !pairs_view(pairs_remove(pairs_insert(p, path, hash), path)).contains_key(path),
{
    crate::api::utils::string_map::law_insert_view(p, path, hash);
    law_insert_keeps_keys_distinct(p, path, hash);
    crate::api::utils::string_map::law_remove_view(pairs_insert(p, path, hash), path);
}

/// Law: an index holds a path exactly when some entry of it has that path,
/// and then gives the hash of that entry; an index without entries holds
/// no path. `contains` and `get_hash` both answer from this.
pub proof fn law_index_holds_its_entries(index: &Index, path: Seq<char>)
    ensures
        index.staged().contains_key(path) <==> exists|i: int| 0 <= i < index.pairs().len() && #[trigger] index.pairs()[i].0 == path,
        index.staged().contains_key(path) ==> index.staged()[path] == lookup(index.pairs(), path).unwrap(),
        index.pairs().len() == 0 ==> !index.staged().contains_key(path),
{
    lemma_key_index(index.pairs(), path);
    if let Some(i) = key_index(index.pairs(), path) {
        assert(index.pairs()[i].0 == path);
    }
}

} // verus!
