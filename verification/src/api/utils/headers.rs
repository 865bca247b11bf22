//! The headers of a request or a response.
use vstd::prelude::*;
use crate::api::utils::string_map::{Pair, StringMap, lookup, pairs_insert};
use crate::text::{ascii_lower, char_lines, chars_of, lowercase, split_on_pattern, split_pattern, string_from_chars, to_lowercase};

verus! {

/// The key of a header line: what comes before its first `": "`.
pub open spec fn header_line_key(line: Seq<char>) -> Seq<char> {
    split_pattern(line, seq![':', ' '])[0]
}

/// The value of a header line: what comes between its first and its second
/// `": "`, or nothing.
pub open spec fn header_line_value(line: Seq<char>) -> Seq<char> {
    let pieces = split_pattern(line, seq![':', ' ']);
    if pieces.len() > 1 {
        pieces[1]
    } else {
        seq![]
    }
}

/// The headers as text: each one on a line of its own after a line break,
/// or a single line break when there are none.
pub open spec fn headers_text(p: Seq<Pair>) -> Seq<char> {
    if p.len() == 0 {
        seq!['\r', '\n']
    } else {
        header_lines_text(p)
    }
}

/// Each header after a line break, as `key: value`.
pub open spec fn header_lines_text(p: Seq<Pair>) -> Seq<char>
    decreases p.len(),
{
    if p.len() == 0 {
        seq![]
    } else {
        header_lines_text(p.drop_last()) + seq!['\r', '\n'] + p.last().0 + seq![':', ' '] + p.last().1
    }
}

/// A struct that holds the headers of a request.
pub struct Headers(StringMap);

impl Headers {
    /// The headers, in the order in which they came.
    pub closed spec fn pairs(&self) -> Seq<Pair> {
        self.0.pairs()
    }

    /// Create a new Headers.
    pub fn new() -> (h: Headers)
        ensures
            h.pairs() == Seq::<Pair>::empty(),
    {
        Headers(StringMap::new())
    }

    /// Insert a header, its name and its value in lower case.
    pub fn insert(&mut self, key: &str, value: &str)
        ensures
            final(self).pairs() == pairs_insert(old(self).pairs(), lowercase(key@), lowercase(value@)),
    {
        self.0.insert(to_lowercase(key), to_lowercase(value));
    }

    /// Get a header, whatever the case of its name.
    pub fn get(&self, key: &str) -> (value: Option<&str>)
        ensures
            match value {
                Some(v) => lookup(self.pairs(), lowercase(key@)) == Some(v@),
                None => lookup(self.pairs(), lowercase(key@)) is None,
            },
            vstd::utf8::is_ascii_chars(key@) ==> match value {
                Some(v) => lookup(self.pairs(), ascii_lower(key@)) == Some(v@),
                None => lookup(self.pairs(), ascii_lower(key@)) is None,
            },
    {
        let key = to_lowercase(key);
        self.0.get(&key)
    }

    /// Add a header from a line `key: value`.
    pub fn add(&mut self, line: &str)
        ensures
            final(self).pairs() == pairs_insert(
                old(self).pairs(),
                lowercase(header_line_key(line@)),
                lowercase(header_line_value(line@)),
            ),
    {
        let chars = chars_of(line);
        let separator = vec![':', ' '];
        let pieces = split_on_pattern(chars.as_slice(), separator.as_slice());
        assert(separator@ == seq![':', ' ']);
        assert(char_lines(pieces@).len() > 0);
        let key = string_from_chars(pieces[0].as_slice());
        let value = if pieces.len() > 1 {
            string_from_chars(pieces[1].as_slice())
        } else {
            String::new()
        };
        assert(key@ == header_line_key(line@));
        assert(value@ == header_line_value(line@));
        self.insert(key.as_str(), value.as_str());
    }

    /// The headers as text, each one after a line break.
    pub fn to_string(&self) -> (text: String)
        ensures
            text@ == headers_text(self.pairs()),
    {
        let n = self.0.len();
        if n == 0 {
            let mut text = String::new();
            text.append("\r\n");
            proof {
                reveal_strlit("\r\n");
            }
            return text;
        }
        let mut text = String::new();
        let mut i: usize = 0;
        while i < n
            invariant
                n == self.pairs().len(),
                i <= n,
                text@ == header_lines_text(self.pairs().take(i as int)),
            decreases n - i,
        {
            let (k, v) = self.0.entry(i);
            assert(self.pairs().take(i + 1).drop_last() == self.pairs().take(i as int));
            text.append("\r\n");
            text.append(k);
            text.append(": ");
            text.append(v);
            proof {
                reveal_strlit("\r\n");
                reveal_strlit(": ");
            }
            i = i + 1;
        }
        assert(self.pairs().take(n as int) == self.pairs());
        text
    }
}

/// Law: a header is found whatever the case of its name. For a name in
/// ASCII, the name and its lower-case form look up the same header.
pub proof fn law_header_lookup_ignores_case(headers: &Headers, key: Seq<char>)
    requires
        vstd::utf8::is_ascii_chars(key),
    ensures
        vstd::utf8::is_ascii_chars(ascii_lower(key)),
        lookup(headers.pairs(), ascii_lower(ascii_lower(key))) == lookup(headers.pairs(), ascii_lower(key)),
{
    assert(ascii_lower(ascii_lower(key)) =~= ascii_lower(key));
}

/// Law: new headers hold no header, whatever its name.
pub proof fn law_new_headers_are_empty(key: Seq<char>)
    ensures
        lookup(Seq::<Pair>::empty(), key) is None,
{
}

} // verus!
