//! The query string of a request path.
use vstd::prelude::*;
use crate::api::utils::string_map::{Pair, StringMap, lookup, pairs_insert};
use crate::text::{char_lines, chars_of, split_char, split_on_char, string_from_chars};

verus! {

/// The key of a `key=value` pair: what comes before its first `=`.
pub open spec fn query_key(pair: Seq<char>) -> Seq<char> {
    split_char(pair, '=')[0]
}

/// The value of a `key=value` pair: what comes between its first and its
/// second `=`, or nothing.
pub open spec fn query_value(pair: Seq<char>) -> Seq<char> {
    let pieces = split_char(pair, '=');
    if pieces.len() > 1 {
        pieces[1]
    } else {
        seq![]
    }
}

/// The entries that adding the pairs `pairs` in order to `p` gives.
pub open spec fn add_pairs(p: Seq<Pair>, pairs: Seq<Seq<char>>) -> Seq<Pair>
    decreases pairs.len(),
{
    if pairs.len() == 0 {
        p
    } else {
        let q = add_pairs(p, pairs.drop_last());
        pairs_insert(q, query_key(pairs.last()), query_value(pairs.last()))
    }
}

/// The entries of the query string `s`: its `&`-separated pairs, in order.
pub open spec fn query_pairs(s: Seq<char>) -> Seq<Pair> {
    add_pairs(Seq::empty(), split_char(s, '&'))
}

/// A struct that holds the query strings of a request.
pub struct QueryString(StringMap);

impl QueryString {
    /// The entries, in the order in which their keys came.
    pub closed spec fn pairs(&self) -> Seq<Pair> {
        self.0.pairs()
    }

    /// Create a new QueryString.
    pub fn new() -> (q: QueryString)
        ensures
            q.pairs() == Seq::<Pair>::empty(),
    {
        QueryString(StringMap::new())
    }

    /// Insert a query string into the query strings map.
    pub fn insert(&mut self, key: &str, value: &str)
        ensures
            final(self).pairs() == pairs_insert(old(self).pairs(), key@, value@),
    {
        self.0.insert(key.to_string(), value.to_string());
    }

    /// Get a query string from the query strings map.
    pub fn get(&self, key: &str) -> (value: Option<&str>)
        ensures
            match value {
                Some(v) => lookup(self.pairs(), key@) == Some(v@),
                None => lookup(self.pairs(), key@) is None,
            },
    {
        self.0.get(&key.to_string())
    }

    /// Add a `key=value` pair.
    fn add(&mut self, pair: &[char])
        ensures
            final(self).pairs() == pairs_insert(old(self).pairs(), query_key(pair@), query_value(pair@)),
    {
        let pieces = split_on_char(pair, '=');
        assert(char_lines(pieces@).len() > 0);
        let key = string_from_chars(pieces[0].as_slice());
        let value = if pieces.len() > 1 {
            string_from_chars(pieces[1].as_slice())
        } else {
            String::new()
        };
        self.insert(key.as_str(), value.as_str());
    }

    /// The query string `s`: its `&`-separated `key=value` pairs.
    pub fn from_query(s: &str) -> (q: QueryString)
        ensures
            q.pairs() == query_pairs(s@),
    {
        let chars = chars_of(s);
        QueryString::from_chars(chars.as_slice())
    }

    /// The query string of the characters `s`.
    pub fn from_chars(s: &[char]) -> (q: QueryString)
        ensures
            q.pairs() == query_pairs(s@),
    {
        let mut qs = QueryString::new();
        let pairs = split_on_char(s, '&');
        let ghost pv = char_lines(pairs@);
        let mut i: usize = 0;
        while i < pairs.len()
            invariant
                i <= pairs@.len(),
                pv == char_lines(pairs@),
                pv == split_char(s@, '&'),
                qs.pairs() == add_pairs(Seq::empty(), pv.take(i as int)),
            decreases pairs@.len() - i,
        {
            assert(pv.take(i + 1).drop_last() == pv.take(i as int));
            qs.add(pairs[i].as_slice());
            i = i + 1;
        }
        assert(pv.take(pairs@.len() as int) == pv);
        qs
    }
}

} // verus!
