//! Commit logs: reading a commit's header and message, and the text that
//! `git log` shows for it.
use vstd::prelude::*;
use chrono::TimeZone;
use crate::command_text::{debug_quoted, debug_str};
use crate::text::{
    char_lines, chars_of, find_char, find_pattern, index_of, index_of_pattern, lines, lines_spec, parse_i64,
    parse_i64_spec, split_char, split_on_char, split_on_pattern, split_pattern, string_from_chars, trim, trim_spec,
};

verus! {

/// Log is a structure that will manage all relevant information about each
/// commit.
pub struct Log {
    git_dir: String,
    commit_hash: String,
    tree_hash: String,
    parent_hash: Option<String>,
    message: String,
    author: String,
    date: String,
    committer: String,
    oneline: bool,
}

/// A log as a mathematical value.
pub struct LogView {
    pub git_dir: Seq<char>,
    pub commit_hash: Seq<char>,
    pub tree_hash: Seq<char>,
    pub parent_hash: Option<Seq<char>>,
    pub message: Seq<char>,
    pub author: Seq<char>,
    pub date: Seq<char>,
    pub committer: Seq<char>,
    pub oneline: bool,
}

impl View for Log {
    type V = LogView;

    closed spec fn view(&self) -> LogView {
        LogView {
            git_dir: self.git_dir@,
            commit_hash: self.commit_hash@,
            tree_hash: self.tree_hash@,
            parent_hash: match self.parent_hash {
                Some(p) => Some(p@),
                None => None,
            },
            message: self.message@,
            author: self.author@,
            date: self.date@,
            committer: self.committer@,
            oneline: self.oneline,
        }
    }
}

/// The log of nothing: every field empty.
pub open spec fn empty_log() -> LogView {
    LogView {
        git_dir: seq![],
        commit_hash: seq![],
        tree_hash: seq![],
        parent_hash: None,
        message: seq![],
        author: seq![],
        date: seq![],
        committer: seq![],
        oneline: false,
    }
}

/// Why a commit could not be read.
#[derive(Debug, Clone, PartialEq, Eq)]
pub enum LogError {
    /// The commit is not in the expected format; the message names it.
    InvalidData(String),
}

/// The parts joined with `sep` between them.
pub open spec fn join_with(parts: Seq<Seq<char>>, sep: char) -> Seq<char>
    decreases parts.len(),
{
    if parts.len() == 0 {
        seq![]
    } else if parts.len() == 1 {
        parts[0]
    } else {
        join_with(parts.drop_last(), sep) + seq![sep] + parts.last()
    }
}

/// What a header line of a commit changes in `log`: the `tree`, `parent`
/// and `committer` lines set their field, and the line of the person who
/// made the commit sets the name (any number of words) and the date (the
/// last two words); other lines change nothing. That line with fewer than
/// four words is refused.
pub open spec fn header_update(log: LogView, line: Seq<char>) -> Option<LogView> {
    match index_of(line, ' ') {
        None => Some(log),
        Some(i) => {
            let key = line.take(i as int);
            let rest = line.skip((i + 1) as int);
            if key == "tree"@ {
                Some(LogView { tree_hash: rest, ..log })
            } else if key == "parent"@ {
                Some(LogView { parent_hash: Some(rest), ..log })
            } else if key == "author"@ {
                let fields = split_char(rest, ' ');
                if fields.len() < 4 {
                    None
                } else {
                    Some(
                        LogView {
                            author: join_with(fields.take(fields.len() - 2), ' '),
                            date: join_with(fields.skip(fields.len() - 2), ' '),
                            ..log
                        },
                    )
                }
            } else if key == "committer"@ {
                Some(LogView { committer: rest, ..log })
            } else {
                Some(log)
            }
        },
    }
}

/// The log after the header lines `ls`, or the first line refused.
pub open spec fn headers_update(log: LogView, ls: Seq<Seq<char>>) -> Result<LogView, Seq<char>>
    decreases ls.len(),
{
    if ls.len() == 0 {
        Ok(log)
    } else {
        match headers_update(log, ls.drop_last()) {
            Err(l) => Err(l),
            Ok(l) => match header_update(l, ls.last()) {
                Some(n) => Ok(n),
                None => Err(ls.last()),
            },
        }
    }
}

/// The position of the first empty line of `ls` from `i` on.
pub open spec fn first_empty(ls: Seq<Seq<char>>, i: nat) -> Option<nat>
    decreases ls.len() - i,
{
    if i >= ls.len() {
        None
    } else if ls[i as int].len() == 0 {
        Some(i)
    } else {
        first_empty(ls, i + 1)
    }
}

/// The lines put one after the other.
pub open spec fn joined(ls: Seq<Seq<char>>) -> Seq<char>
    decreases ls.len(),
{
    if ls.len() == 0 {
        seq![]
    } else {
        joined(ls.drop_last()) + ls.last()
    }
}

/// The message of an error about `what`.
pub open spec fn invalid_data_message(what: Seq<char>) -> Seq<char> {
    "Commit: "@ + what
}

/// The log of the commit `hash` whose content is `content`: the header
/// lines up to the first empty line, then the message, its lines joined.
pub open spec fn commit_log(hash: Seq<char>, git_dir: Seq<char>, content: Seq<char>) -> Result<LogView, Seq<char>> {
    let ls = lines_spec(content);
    match first_empty(ls, 0) {
        None => Err(invalid_data_message(hash)),
        Some(n) => match headers_update(empty_log(), ls.take(n as int)) {
            Err(line) => Err(invalid_data_message(line)),
            Ok(log) => Ok(LogView { message: joined(ls.skip(n as int)), git_dir, commit_hash: hash, ..log }),
        },
    }
}

/// The date shown for `t` seconds after the epoch, in UTC, as
/// `%a %b %e %T %Y`; `None` when the time is out of range.
pub uninterp spec fn utc_date_text(t: i64) -> Option<Seq<char>>;

/// Formats `t` seconds after the epoch as a date in UTC.
///
/// Calls `chrono::Utc.timestamp_opt(t, 0)` and, for its single result,
/// `format("%a %b %e %T %Y")`. The contract names the text `utc_date_text`
/// of `t`; which times are out of range is left unsaid.
#[verifier::external_body]
fn utc_date(t: i64) -> (text: Option<String>)
    ensures
        match text {
            Some(s) => utc_date_text(t) == Some(s@),
            None => utc_date_text(t) is None,
        },
{
    match chrono::Utc.timestamp_opt(t, 0) {
        chrono::LocalResult::Single(date) => Some(date.format("%a %b %e %T %Y").to_string()),
        _ => None,
    }
}

/// The seconds and the offset of a date field, or `0` and `0`.
pub open spec fn date_parts(date: Seq<char>) -> (Seq<char>, Seq<char>) {
    match index_of(date, ' ') {
        Some(i) => (date.take(i as int), date.skip((i + 1) as int)),
        None => (seq!['0'], seq!['0']),
    }
}

/// A number that is read as zero when it is not one.
pub open spec fn number_or_zero(s: Seq<char>) -> int {
    match parse_i64_spec(s) {
        Some(v) => v as int,
        None => 0,
    }
}

/// The time of a date field: its seconds, moved by its offset (read as
/// hours and minutes, `hhmm`, times 36 seconds).
pub open spec fn date_time(date: Seq<char>) -> int {
    number_or_zero(date_parts(date).0) + number_or_zero(date_parts(date).1) * 36
}

/// The arithmetic of the date's time stays inside `i64`.
pub open spec fn date_fits(date: Seq<char>) -> bool {
    let offset = number_or_zero(date_parts(date).1) * 36;
    &&& i64::MIN <= offset <= i64::MAX
    &&& i64::MIN <= date_time(date) <= i64::MAX
}

/// The date as `git log` shows it: the formatted time and the offset.
pub open spec fn formatted_date(date: Seq<char>) -> Seq<char> {
    match utc_date_text(date_time(date) as i64) {
        Some(text) => text + seq![' '] + date_parts(date).1,
        None => "Thu Jan 1 00:00:00 1970 +0000"@,
    }
}

/// Each line of the message after a tab.
pub open spec fn tabbed(ls: Seq<Seq<char>>) -> Seq<char>
    decreases ls.len(),
{
    if ls.len() == 0 {
        seq![]
    } else {
        tabbed(ls.drop_last()) + seq!['\t'] + ls.last()
    }
}

/// The text of `s` with each occurrence of `p` taken out.
pub open spec fn without_pattern(s: Seq<char>, p: Seq<char>) -> Seq<char> {
    joined(split_pattern(s, p))
}

/// The text that `git log` shows for a log: in one line, the colored hash
/// and the message; else the colored `commit` line, the name of the person
/// who made the commit, the date, an empty line and the message.
pub open spec fn log_text(log: LogView) -> Seq<char> {
    let commit = "\x1b[0;33mcommit "@ + log.commit_hash + "\x1b[0m"@;
    let message = tabbed(lines_spec(log.message));
    if log.oneline {
        without_pattern(commit, "commit "@) + seq![' '] + message
    } else {
        commit + seq!['\n'] + "Author: "@ + log.author + seq!['\n'] + "Date: "@ + formatted_date(log.date) + seq![
            '\n',
            '\n',
        ] + message + seq!['\n']
    }
}

/// The error about `commit`.
pub fn invalid_data_error(commit: &str) -> (e: LogError)
    ensures
        e matches LogError::InvalidData(m) && m@ == invalid_data_message(commit@),
{
    let mut m = String::new();
    m.append("Commit: ");
    m.append(commit);
    LogError::InvalidData(m)
}

fn join_parts(parts: &[Vec<char>], sep: char) -> (joined: Vec<char>)
    ensures
        joined@ == join_with(char_lines(parts@), sep),
{
    let ghost pv = char_lines(parts@);
    let mut out: Vec<char> = Vec::new();
    let mut i: usize = 0;
    while i < parts.len()
        invariant
            i <= parts@.len(),
            pv == char_lines(parts@),
            out@ == join_with(pv.take(i as int), sep),
        decreases parts@.len() - i,
    {
        assert(pv.take(i + 1).drop_last() == pv.take(i as int));
        assert(pv.take(i + 1).last() == parts@[i as int]@);
        if i > 0 {
            out.push(sep);
        } else {
            assert(pv.take(1).len() == 1);
        }
        let mut piece = parts[i].clone();
        out.append(&mut piece);
        i = i + 1;
    }
    assert(pv.take(parts@.len() as int) == pv);
    out
}

/// The lines put one after the other.
fn join_all(ls: &[Vec<char>]) -> (out: Vec<char>)
    ensures
        out@ == joined(char_lines(ls@)),
{
    let ghost lv = char_lines(ls@);
    let mut out: Vec<char> = Vec::new();
    let mut i: usize = 0;
    while i < ls.len()
        invariant
            i <= ls@.len(),
            lv == char_lines(ls@),
            out@ == joined(lv.take(i as int)),
        decreases ls@.len() - i,
    {
        assert(lv.take(i + 1).drop_last() == lv.take(i as int));
        let mut piece = ls[i].clone();
        out.append(&mut piece);
        i = i + 1;
    }
    assert(lv.take(ls@.len() as int) == lv);
    out
}

/// Each line after a tab.
fn tab_lines(ls: &[Vec<char>]) -> (out: Vec<char>)
    ensures
        out@ == tabbed(char_lines(ls@)),
{
    let ghost lv = char_lines(ls@);
    let mut out: Vec<char> = Vec::new();
    let mut i: usize = 0;
    while i < ls.len()
        invariant
            i <= ls@.len(),
            lv == char_lines(ls@),
            out@ == tabbed(lv.take(i as int)),
        decreases ls@.len() - i,
    {
        assert(lv.take(i + 1).drop_last() == lv.take(i as int));
        out.push('\t');
        let mut piece = ls[i].clone();
        out.append(&mut piece);
        i = i + 1;
    }
    assert(lv.take(ls@.len() as int) == lv);
    out
}

impl Log {
    /// The log of nothing: every field empty.
    pub fn default() -> (log: Log)
        ensures
            log@ == empty_log(),
    {
        Log {
            git_dir: String::new(),
            commit_hash: String::new(),
            tree_hash: String::new(),
            parent_hash: None,
            message: String::new(),
            author: String::new(),
            date: String::new(),
            committer: String::new(),
            oneline: false,
        }
    }

    /// The hash of the commit's parent, if it has one.
    pub fn parent_hash(&self) -> (p: Option<&String>)
        ensures
            match p {
                Some(h) => self@.parent_hash == Some(h@),
                None => self@.parent_hash is None,
            },
    {
        match &self.parent_hash {
            Some(h) => Some(h),
            None => None,
        }
    }

    /// The git directory that the log was read from.
    pub fn git_dir(&self) -> (d: &str)
        ensures
            d@ == self@.git_dir,
    {
        self.git_dir.as_str()
    }

    /// Whether the log is shown in one line.
    pub fn oneline(&self) -> (o: bool)
        ensures
            o == self@.oneline,
    {
        self.oneline
    }

    /// Parse a commit header line and update the relevant fields.
    pub fn parse_commit_header_line(&mut self, line: &str) -> (result: Result<(), LogError>)
        ensures
            match header_update(old(self)@, line@) {
                Some(l) => result is Ok && final(self)@ == l,
                None => result matches Err(LogError::InvalidData(m)) && m@ == invalid_data_message(line@)
                    && final(self)@ == old(self)@,
            },
    {
        let chars = chars_of(line);
        let i = match find_char(chars.as_slice(), ' ') {
            Some(i) => i,
            None => return Ok(()),
        };
        proof {
            crate::text::lemma_index_of(chars@, ' ');
        }
        let n = chars.len();
        let key = string_from_chars(vstd::slice::slice_subrange(chars.as_slice(), 0, i));
        let rest_chars = vstd::slice::slice_subrange(chars.as_slice(), i + 1, n);
        assert(rest_chars@ == line@.skip(i + 1));
        let rest = string_from_chars(rest_chars);
        let tree = "tree".to_string();
        let parent = "parent".to_string();
        let author = "author".to_string();
        let committer = "committer".to_string();
        if key == tree {
            self.tree_hash = rest;
        } else if key == parent {
            self.parent_hash = Some(rest);
        } else if key == author {
            let fields = split_on_char(rest_chars, ' ');
            let len = fields.len();
            if len < 4 {
                return Err(invalid_data_error(line));
            }
            let names = vstd::slice::slice_subrange(fields.as_slice(), 0, len - 2);
            let dates = vstd::slice::slice_subrange(fields.as_slice(), len - 2, len);
            assert(char_lines(names@) == char_lines(fields@).take(len - 2));
            assert(char_lines(dates@) == char_lines(fields@).skip(len - 2));
            self.author = string_from_chars(join_parts(names, ' ').as_slice());
            self.date = string_from_chars(join_parts(dates, ' ').as_slice());
        } else if key == committer {
            self.committer = rest;
        }
        Ok(())
    }

    /// The log of the commit `hash` of `git_dir`, whose content is
    /// `commit_content`: its header lines up to the first empty line, then
    /// its message.
    pub fn load_from_hash(hash: &str, git_dir: &str, commit_content: &str) -> (result: Result<Log, LogError>)
        ensures
            match commit_log(hash@, git_dir@, commit_content@) {
                Ok(l) => result matches Ok(log) && log@ == l,
                Err(m) => result matches Err(LogError::InvalidData(e)) && e@ == m,
            },
    {
        let chars = chars_of(commit_content);
        let ls = lines(chars.as_slice());
        let ghost lv = char_lines(ls@);
        let mut n: usize = 0;
        while n < ls.len() && ls[n].len() > 0
            invariant
                n <= ls@.len(),
                lv == char_lines(ls@),
                first_empty(lv, 0) == first_empty(lv, n as nat),
            decreases ls@.len() - n,
        {
            n = n + 1;
        }
        if n == ls.len() {
            return Err(invalid_data_error(hash));
        }
        assert(first_empty(lv, 0) == Some(n as nat));
        let mut log = Log::default();
        let mut i: usize = 0;
        while i < n
            invariant
                i <= n,
                n < ls@.len(),
                lv == char_lines(ls@),
                lv == lines_spec(commit_content@),
                first_empty(lv, 0) == Some(n as nat),
                headers_update(empty_log(), lv.take(i as int)) == Ok::<LogView, Seq<char>>(log@),
            decreases n - i,
        {
            assert(lv.take(i + 1).drop_last() == lv.take(i as int));
            assert(lv.take(i + 1).last() == lv[i as int]);
            let line = string_from_chars(ls[i].as_slice());
            match log.parse_commit_header_line(line.as_str()) {
                Ok(()) => {},
                Err(e) => {
                    proof {
                        assert(line@ == lv[i as int]);
                        assert(headers_update(empty_log(), lv.take(i + 1)) == Err::<LogView, Seq<char>>(lv[i as int]));
                        assert(lv.take(n as int).take(i + 1) == lv.take(i + 1));
                        lemma_headers_update_err(empty_log(), lv.take(n as int), (i + 1) as nat);
                        assert(lines_spec(commit_content@) == lv);
                        assert(first_empty(lv, 0) == Some(n as nat));
                        assert(headers_update(empty_log(), lv.take(n as int)) == Err::<LogView, Seq<char>>(lv[i as int]));
                        assert(commit_log(hash@, git_dir@, commit_content@) == Err::<LogView, Seq<char>>(invalid_data_message(lv[i as int])));
                    }
                    return Err(e);
                },
            }
            i = i + 1;
        }
        let rest = vstd::slice::slice_subrange(ls.as_slice(), n, ls.len());
        assert(char_lines(rest@) == lv.skip(n as int));
        log.message = string_from_chars(join_all(rest).as_slice());
        log.git_dir = git_dir.to_string();
        log.commit_hash = hash.to_string();
        Ok(log)
    }

    /// The log set to be shown in one line, or not.
    pub fn set_oneline(self, oneline: bool) -> (log: Log)
        ensures
            log@ == (LogView { oneline, ..self@ }),
    {
        let mut log = self;
        log.oneline = oneline;
        log
    }

    /// The log of the parent commit, read from `parent_content`, the content
    /// of the parent's commit object, with the same one-line setting; `None`
    /// when there is no parent or the content is not a commit.
    pub fn get_parent_log(&self, parent_content: &str) -> (parent: Option<Log>)
        ensures
            match self@.parent_hash {
                None => parent is None,
                Some(h) => match commit_log(h, self@.git_dir, parent_content@) {
                    Ok(l) => parent matches Some(p) && p@ == (LogView { oneline: self@.oneline, ..l }),
                    Err(_) => parent is None,
                },
            },
    {
        match &self.parent_hash {
            Some(parent) => match Log::load_from_hash(parent.as_str(), self.git_dir.as_str(), parent_content) {
                Ok(log) => Some(log.set_oneline(self.oneline)),
                Err(_) => None,
            },
            None => None,
        }
    }

    /// Whether the arithmetic of the date's time stays inside `i64`, so that
    /// the date can be shown.
    pub fn has_showable_date(&self) -> (ok: bool)
        ensures
            ok == date_fits(self@.date),
    {
        let chars = chars_of(self.date.as_str());
        let (secs, offset): (Vec<char>, Vec<char>) = match find_char(chars.as_slice(), ' ') {
            Some(i) => {
                proof {
                    crate::text::lemma_index_of(chars@, ' ');
                }
                let n = chars.len();
                (
                    vstd::slice::slice_to_vec(vstd::slice::slice_subrange(chars.as_slice(), 0, i)),
                    vstd::slice::slice_to_vec(vstd::slice::slice_subrange(chars.as_slice(), i + 1, n)),
                )
            },
            None => (vec!['0'], vec!['0']),
        };
        assert(secs@ == date_parts(self@.date).0);
        assert(offset@ == date_parts(self@.date).1);
        let s = match parse_i64(secs.as_slice()) {
            Some(v) => v,
            None => 0,
        };
        let o = match parse_i64(offset.as_slice()) {
            Some(v) => v,
            None => 0,
        };
        let offset_wide = (o as i128) * 36;
        let total = (s as i128) + offset_wide;
        i64::MIN as i128 <= offset_wide && offset_wide <= i64::MAX as i128 && i64::MIN as i128 <= total && total
            <= i64::MAX as i128
    }

    /// The date as `git log` shows it.
    pub fn get_formatted_date(&self) -> (date: String)
        requires
            date_fits(self@.date),
        ensures
            date@ == formatted_date(self@.date),
    {
        let chars = chars_of(self.date.as_str());
        let (secs, offset): (Vec<char>, Vec<char>) = match find_char(chars.as_slice(), ' ') {
            Some(i) => {
                proof {
                    crate::text::lemma_index_of(chars@, ' ');
                }
                let n = chars.len();
                (
                    vstd::slice::slice_to_vec(vstd::slice::slice_subrange(chars.as_slice(), 0, i)),
                    vstd::slice::slice_to_vec(vstd::slice::slice_subrange(chars.as_slice(), i + 1, n)),
                )
            },
            None => (vec!['0'], vec!['0']),
        };
        assert(secs@ == date_parts(self@.date).0);
        assert(offset@ == date_parts(self@.date).1);
        let s = match parse_i64(secs.as_slice()) {
            Some(v) => v,
            None => 0,
        };
        let o = match parse_i64(offset.as_slice()) {
            Some(v) => v,
            None => 0,
        };
        let offset_int = o * 36;
        match utc_date(s + offset_int) {
            Some(text) => {
                let mut out = text;
                out.append(" ");
                out.append(string_from_chars(offset.as_slice()).as_str());
                proof {
                    reveal_strlit(" ");
                }
                out
            },
            None => "Thu Jan 1 00:00:00 1970 +0000".to_string(),
        }
    }

    /// The text that `git log` shows for the log.
    pub fn to_string(&self) -> (text: String)
        requires
            !self@.oneline ==> date_fits(self@.date),
        ensures
            text@ == log_text(self@),
    {
        let message_chars = chars_of(self.message.as_str());
        let message_lines = lines(message_chars.as_slice());
        let message = string_from_chars(tab_lines(message_lines.as_slice()).as_slice());
        let mut commit = String::new();
        commit.append("\x1b[0;33mcommit ");
        commit.append(self.commit_hash.as_str());
        commit.append("\x1b[0m");
        if self.oneline {
            let commit_chars = chars_of(commit.as_str());
            let pattern = chars_of("commit ");
            proof {
                reveal_strlit("commit ");
            }
            let pieces = split_on_pattern(commit_chars.as_slice(), pattern.as_slice());
            let mut text = string_from_chars(join_all(pieces.as_slice()).as_slice());
            text.append(" ");
            text.append(message.as_str());
            proof {
                reveal_strlit(" ");
            }
            return text;
        }
        let mut text = commit;
        text.append("\nAuthor: ");
        text.append(self.author.as_str());
        text.append("\nDate: ");
        text.append(self.get_formatted_date().as_str());
        text.append("\n\n");
        text.append(message.as_str());
        text.append("\n");
        proof {
            reveal_strlit("\nAuthor: ");
            reveal_strlit("Author: ");
            reveal_strlit("\nDate: ");
            reveal_strlit("Date: ");
            reveal_strlit("\n\n");
            reveal_strlit("\n");
        }
        text
    }

    /// An iterator that starts at this log.
    pub fn iter(self) -> (it: LogIter)
        ensures
            it.current() matches Some(l) && l@ == self@,
    {
        LogIter::new(self)
    }
}

proof fn lemma_headers_update_err(log: LogView, ls: Seq<Seq<char>>, k: nat)
    requires
        k <= ls.len(),
        headers_update(log, ls.take(k as int)) is Err,
    ensures
        headers_update(log, ls) == headers_update(log, ls.take(k as int)),
    decreases ls.len() - k,
{
    if k < ls.len() {
        assert(ls.take((k + 1) as int).drop_last() == ls.take(k as int));
        lemma_headers_update_err(log, ls, k + 1);
    } else {
        assert(ls.take(k as int) == ls);
    }
}

/// The reference that the HEAD file `head_content` names: what follows its
/// last `": "`, once trimmed.
pub fn last_commit_ref(head_content: &str) -> (r: String)
    ensures
        r@ == split_pattern(trim_spec(head_content@), seq![':', ' ']).last(),
{
    let chars = chars_of(head_content);
    let trimmed = trim(chars.as_slice());
    let sep = vec![':', ' '];
    assert(sep@ == seq![':', ' ']);
    let pieces = split_on_pattern(trimmed.as_slice(), sep.as_slice());
    assert(char_lines(pieces@).len() > 0);
    string_from_chars(pieces[pieces.len() - 1].as_slice())
}

/// LogIter is a structure that will help to iterate through commit logs:
/// each step gives the current log and moves to its parent, which the
/// caller loads.
pub struct LogIter {
    log: Option<Log>,
}

impl LogIter {
    /// The log that the next step gives.
    pub closed spec fn current(&self) -> Option<Log> {
        self.log
    }

    /// An iterator that starts at `log`.
    pub fn new(log: Log) -> (it: LogIter)
        ensures
            it.current() matches Some(l) && l@ == log@,
    {
        LogIter { log: Some(log) }
    }

    /// The parent hash and the git directory of the current log, which the
    /// caller loads the next log from.
    pub fn parent(&self) -> (p: Option<(String, String)>)
        ensures
            match self.current() {
                Some(l) => match l@.parent_hash {
                    Some(h) => p matches Some((ph, gd)) && ph@ == h && gd@ == l@.git_dir,
                    None => p is None,
                },
                None => p is None,
            },
    {
        match &self.log {
            Some(l) => match &l.parent_hash {
                Some(h) => Some((h.clone(), l.git_dir.clone())),
                None => None,
            },
            None => None,
        }
    }

    /// Gives the current log and moves to `parent`, the log of its parent
    /// (with the same one-line setting) or nothing.
    pub fn advance(&mut self, parent: Option<Log>) -> (log: Option<Log>)
        ensures
            log == old(self).current(),
            final(self).current() == (match old(self).current() {
                Some(_) => parent,
                None => None,
            }),
    {
        match self.log.take() {
            Some(l) => {
                self.log = parent;
                Some(l)
            },
            None => None,
        }
    }
}

/// The logs' texts, each followed by a line break.
pub open spec fn logs_text(logs: Seq<LogView>) -> Seq<char>
    decreases logs.len(),
{
    if logs.len() == 0 {
        seq![]
    } else {
        logs_text(logs.drop_last()) + log_text(logs.last()) + seq!['\n']
    }
}

/// Law: the text of several logs is the concatenation of each one's text
/// with a line break after it: nothing for no logs, one log's text and a
/// line break for one, and the texts of two runs of logs one after the
/// other.
pub proof fn law_logs_text_concatenates(a: Seq<LogView>, b: Seq<LogView>, log: LogView)
    ensures
        logs_text(Seq::<LogView>::empty()) == Seq::<char>::empty(),
        logs_text(seq![log]) == log_text(log) + seq!['\n'],
        logs_text(a + b) == logs_text(a) + logs_text(b),
    decreases b.len(),
{
    assert(seq![log].drop_last() == Seq::<LogView>::empty());
    assert(Seq::<char>::empty() + log_text(log) == log_text(log));
    if b.len() == 0 {
        assert(a + b == a);
        assert(logs_text(a) + Seq::<char>::empty() == logs_text(a));
    } else {
        law_logs_text_concatenates(a, b.drop_last(), log);
        assert((a + b).drop_last() == a + b.drop_last());
        assert((a + b).last() == b.last());
        assert(logs_text(a) + logs_text(b.drop_last()) + log_text(b.last()) + seq!['\n'] == logs_text(a) + (
        logs_text(b.drop_last()) + log_text(b.last()) + seq!['\n']));
    }
}

/// Accumulate logs into a single string, each one's text followed by a
/// line break.
pub fn accumulate_logs(logs: &[Log]) -> (text: String)
    requires
        forall|i: int| 0 <= i < logs@.len() ==> !(#[trigger] logs@[i])@.oneline ==> date_fits(logs@[i]@.date),
    ensures
        text@ == logs_text(logs@.map_values(|l: Log| l@)),
{
    let ghost lv = logs@.map_values(|l: Log| l@);
    let mut text = String::new();
    let mut i: usize = 0;
    while i < logs.len()
        invariant
            i <= logs@.len(),
            lv == logs@.map_values(|l: Log| l@),
            forall|k: int| 0 <= k < logs@.len() ==> !(#[trigger] logs@[k])@.oneline ==> date_fits(logs@[k]@.date),
            text@ == logs_text(lv.take(i as int)),
        decreases logs@.len() - i,
    {
        assert(lv.take(i + 1).drop_last() == lv.take(i as int));
        assert(lv.take(i + 1).last() == logs@[i as int]@);
        let t = logs[i].to_string();
        text.append(t.as_str());
        text.append("\n");
        proof {
            reveal_strlit("\n");
        }
        i = i + 1;
    }
    assert(lv.take(logs@.len() as int) == lv);
    text
}


/// The debug form of an optional commit: `None`, or the quoted commit in
/// `Some(..)`.
pub open spec fn debug_commit(commit: Option<Seq<char>>) -> Seq<char> {
    match commit {
        None => "None"@,
        Some(c) => "Some("@ + debug_quoted(c) + ")"@,
    }
}

/// The message that logs a `git log` of `commit` in `git_dir` at `time`.
pub fn log_log(git_dir: &str, commit: Option<&str>, time: &str) -> (message: String)
    ensures
        message@ == "Command 'git log': Commit '"@ + debug_commit(
            match commit {
                Some(c) => Some(c@),
                None => None,
            },
        ) + "', Git Dir '"@ + git_dir@ + "', "@ + time@,
{
    let mut message = String::new();
    message.append("Command 'git log': Commit '");
    match commit {
        Some(c) => {
            message.append("Some(");
            message.append(debug_str(c).as_str());
            message.append(")");
        },
        None => {
            message.append("None");
        },
    }
    message.append("', Git Dir '");
    message.append(git_dir);
    message.append("', ");
    message.append(time);
    message
}

} // verus!
