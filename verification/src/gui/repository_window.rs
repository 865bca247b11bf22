//! Texts of the repository window: the branch history, the logs, and the
//! command line of a check-ignore.
use vstd::prelude::*;
use crate::log::{Log, date_fits, log_text, logs_text};
use crate::text::{chars_of, string_from_chars};

verus! {

/// How many bytes UTF-8 takes for `c`.
pub open spec fn char_width(c: char) -> int {
    if (c as u32) < 0x80 {
        1
    } else if (c as u32) < 0x800 {
        2
    } else if (c as u32) < 0x10000 {
        3
    } else {
        4
    }
}

/// How many characters of `s` make up its first `bytes` bytes in UTF-8, if
/// a character ends there.
pub open spec fn char_boundary(s: Seq<char>, bytes: int) -> Option<nat>
    decreases s.len(),
{
    if bytes == 0 {
        Some(0)
    } else if bytes < 0 || s.len() == 0 {
        None
    } else {
        match char_boundary(s.drop_first(), bytes - char_width(s[0])) {
            Some(k) => Some(k + 1),
            None => None,
        }
    }
}

/// The first six bytes of `hash` are whole characters, so that they can be
/// cut off.
pub open spec fn abridgeable(hash: Seq<char>) -> bool {
    char_boundary(hash, 6) is Some
}

/// The first six bytes of `hash`.
pub open spec fn abridged(hash: Seq<char>) -> Seq<char> {
    hash.take(char_boundary(hash, 6).unwrap() as int)
}

/// The history entries as text: for each commit, the first six bytes of its
/// hash, a tab, its message and a line break.
pub open spec fn history_text(history: Seq<(Seq<char>, Seq<char>)>) -> Seq<char>
    decreases history.len(),
{
    if history.len() == 0 {
        seq![]
    } else {
        history_text(history.drop_last()) + abridged(history.last().0) + seq!['\t'] + history.last().1 + seq!['\n']
    }
}

fn char_width_of(c: char) -> (w: u8)
    ensures
        w == char_width(c),
{
    let code = c as u32;
    if code < 0x80 {
        1
    } else if code < 0x800 {
        2
    } else if code < 0x10000 {
        3
    } else {
        4
    }
}

/// The first six bytes of `hash`, which are whole characters.
fn abridge(hash: &str) -> (short: String)
    requires
        abridgeable(hash@),
    ensures
        short@ == abridged(hash@),
{
    let chars = chars_of(hash);
    let mut k: usize = 0;
    let mut left: i64 = 6;
    assert(chars@.skip(0) == chars@);
    while left > 0
        invariant
            chars@ == hash@,
            k <= chars@.len(),
            -4 < left <= 6,
            abridgeable(hash@),
            char_boundary(hash@, 6) == match char_boundary(chars@.skip(k as int), left as int) {
                Some(j) => Some((j + k) as nat),
                None => None::<nat>,
            },
        decreases chars@.len() - k,
    {
        if k == chars.len() {
            assert(chars@.skip(k as int).len() == 0);
            assert(false);
        }
        let ghost rest = chars@.skip(k as int);
        assert(rest[0] == chars@[k as int]);
        assert(rest.drop_first() == chars@.skip(k + 1));
        let w = char_width_of(chars[k]);
        left = left - w as i64;
        k = k + 1;
    }
    if left < 0 {
        assert(false);
    }
    string_from_chars(vstd::slice::slice_subrange(chars.as_slice(), 0, k))
}

/// Format a list of branch history entries, each a commit hash and its
/// message, into a single string of one line per entry.
pub fn format_branch_history(history_vec: Vec<(String, String)>) -> (text: String)
    requires
        forall|i: int| 0 <= i < history_vec@.len() ==> abridgeable(#[trigger] history_vec@[i].0@),
    ensures
        text@ == history_text(history_vec@.map_values(|e: (String, String)| (e.0@, e.1@))),
{
    let ghost hv = history_vec@.map_values(|e: (String, String)| (e.0@, e.1@));
    let mut text = String::new();
    let mut i: usize = 0;
    while i < history_vec.len()
        invariant
            i <= history_vec@.len(),
            hv == history_vec@.map_values(|e: (String, String)| (e.0@, e.1@)),
            forall|k: int| 0 <= k < history_vec@.len() ==> abridgeable(#[trigger] history_vec@[k].0@),
            text@ == history_text(hv.take(i as int)),
        decreases history_vec@.len() - i,
    {
        let entry = &history_vec[i];
        assert(hv.take(i + 1).drop_last() == hv.take(i as int));
        assert(hv.take(i + 1).last() == (entry.0@, entry.1@));
        assert(abridgeable(history_vec@[i as int].0@));
        let short = abridge(entry.0.as_str());
        text.append(short.as_str());
        text.append("\t");
        text.append(entry.1.as_str());
        text.append("\n");
        proof {
            reveal_strlit("\t");
            reveal_strlit("\n");
        }
        i = i + 1;
    }
    assert(hv.take(history_vec@.len() as int) == hv);
    text
}

/// The logs as one text, each log's text followed by a line break.
pub fn get_logs_as_string(logs: &[Log]) -> (text: String)
    requires
        forall|i: int| 0 <= i < logs@.len() ==> !(#[trigger] logs@[i])@.oneline ==> date_fits(logs@[i]@.date),
    ensures
        text@ == logs_text(logs@.map_values(|l: Log| l@)),
{
    crate::log::accumulate_logs(logs)
}

/// The command line of a check-ignore of `path`, verbose when the switch
/// is on.
pub fn get_line_for_check_ignore(switch_is_active: bool, path: String) -> (line: Vec<String>)
    ensures
        line@.map_values(|s: String| s@) == if switch_is_active {
            seq!["git"@, "check-ignore"@, "-v"@, path@]
        } else {
            seq!["git"@, "check-ignore"@, path@]
        },
{
    let ghost p = path@;
    let line = if switch_is_active {
        vec!["git".to_string(), "check-ignore".to_string(), "-v".to_string(), path]
    } else {
        vec!["git".to_string(), "check-ignore".to_string(), path]
    };
    assert(line@.map_values(|s: String| s@) =~= if switch_is_active {
        seq!["git"@, "check-ignore"@, "-v"@, p]
    } else {
        seq!["git"@, "check-ignore"@, p]
    });
    line
}

} // verus!
