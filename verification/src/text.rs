//! Conversions between strings and the character vectors that the
//! verified text logic works on.
use vstd::prelude::*;

verus! {

/// The characters of `s`, in order.
pub fn chars_of(s: &str) -> (chars: Vec<char>)
    ensures
        chars@ == s@,
{
    let mut chars: Vec<char> = Vec::new();
    proof {
        broadcast use vstd::string::group_string_axioms;
    }
    for c in iter: s.chars()
        invariant
            iter.seq() == s@,
            chars@ == iter.seq().take(iter.index() as int),
    {
        chars.push(c);
    }
    chars
}

} // verus!

verus! {

/// Tells whether two character strings are equal.
pub fn chars_equal(a: &[char], b: &[char]) -> (eq: bool)
    ensures
        eq == (a@ == b@),
{
    if a.len() != b.len() {
        return false;
    }
    let mut i: usize = 0;
    while i < a.len()
        invariant
            i <= a@.len(),
            a@.len() == b@.len(),
            forall|k: int| 0 <= k < i ==> a@[k] == b@[k],
        decreases a@.len() - i,
    {
        if a[i] != b[i] {
            return false;
        }
        i = i + 1;
    }
    assert(a@ =~= b@);
    true
}

} // verus!

verus! {

/// A string made of the given characters.
///
/// Calls std's `FromIterator<char>` for `String`, which collects the
/// characters in order; the contract claims that the string holds exactly
/// those characters.
#[verifier::external_body]
pub(crate) fn string_from_chars(chars: &[char]) -> (s: String)
    ensures
        s@ == chars@,
{
    chars.iter().collect()
}

/// Decodes UTF-8 bytes into a string.
///
/// Calls std's `String::from_utf8`, which succeeds exactly on valid UTF-8
/// and then holds the decoded characters; the contract claims that, in the
/// terms of vstd's UTF-8 model.
#[verifier::external_body]
pub(crate) fn utf8_to_string(bytes: &[u8]) -> (s: Option<String>)
    ensures
        s is Some <==> vstd::utf8::valid_utf8(bytes@),
        s matches Some(text) ==> text@ == vstd::utf8::decode_utf8(bytes@),
{
    String::from_utf8(bytes.to_vec()).ok()
}

/// The UTF-8 encoding of a string.
pub fn string_to_bytes(s: &str) -> (bytes: Vec<u8>)
    ensures
        bytes@ == vstd::utf8::encode_utf8(s@),
{
    vstd::slice::slice_to_vec(s.as_bytes())
}

/// The white space characters of Unicode, as `char::is_whitespace` lists
/// them.
pub open spec fn is_white_space(c: char) -> bool {
    ||| c == '\t'
    ||| c == '\n'
    ||| c == '\u{0B}'
    ||| c == '\u{0C}'
    ||| c == '\r'
    ||| c == ' '
    ||| c == '\u{85}'
    ||| c == '\u{A0}'
    ||| c == '\u{1680}'
    ||| ('\u{2000}' <= c && c <= '\u{200A}')
    ||| c == '\u{2028}'
    ||| c == '\u{2029}'
    ||| c == '\u{202F}'
    ||| c == '\u{205F}'
    ||| c == '\u{3000}'
}

/// Tells whether `c` is white space.
pub fn white_space(c: char) -> (w: bool)
    ensures
        w == is_white_space(c),
{
    c == '\t' || c == '\n' || c == '\u{0B}' || c == '\u{0C}' || c == '\r' || c == ' ' || c == '\u{85}'
        || c == '\u{A0}' || c == '\u{1680}' || ('\u{2000}' <= c && c <= '\u{200A}') || c == '\u{2028}'
        || c == '\u{2029}' || c == '\u{202F}' || c == '\u{205F}' || c == '\u{3000}'
}

/// `s` without its leading and trailing white space.
pub open spec fn trim_spec(s: Seq<char>) -> Seq<char> {
    trim_end_spec(trim_start_spec(s))
}

/// `s` without its leading white space.
pub open spec fn trim_start_spec(s: Seq<char>) -> Seq<char>
    decreases s.len(),
{
    if s.len() > 0 && is_white_space(s[0]) {
        trim_start_spec(s.drop_first())
    } else {
        s
    }
}

/// `s` without its trailing white space.
pub open spec fn trim_end_spec(s: Seq<char>) -> Seq<char>
    decreases s.len(),
{
    if s.len() > 0 && is_white_space(s.last()) {
        trim_end_spec(s.drop_last())
    } else {
        s
    }
}

/// `s` without the occurrences of `c` at its end.
pub open spec fn trim_end_char_spec(s: Seq<char>, c: char) -> Seq<char>
    decreases s.len(),
{
    if s.len() > 0 && s.last() == c {
        trim_end_char_spec(s.drop_last(), c)
    } else {
        s
    }
}

/// `s` without its leading and trailing white space.
pub fn trim(s: &[char]) -> (t: Vec<char>)
    ensures
        t@ == trim_spec(s@),
{
    let mut start: usize = 0;
    assert(s@.skip(0) == s@);
    while start < s.len() && white_space(s[start])
        invariant
            start <= s@.len(),
            trim_start_spec(s@) == trim_start_spec(s@.skip(start as int)),
        decreases s@.len() - start,
    {
        assert(s@.skip(start as int).drop_first() == s@.skip(start + 1));
        start = start + 1;
    }
    assert(trim_start_spec(s@.skip(start as int)) == s@.skip(start as int));
    let mut end: usize = s.len();
    while end > start && white_space(s[end - 1])
        invariant
            start <= end <= s@.len(),
            trim_end_spec(s@.skip(start as int)) == trim_end_spec(s@.subrange(start as int, end as int)),
        decreases end,
    {
        assert(s@.subrange(start as int, end as int).drop_last() == s@.subrange(start as int, end - 1));
        end = end - 1;
    }
    assert(s@.skip(start as int) == s@.subrange(start as int, s@.len() as int));
    vstd::slice::slice_to_vec(vstd::slice::slice_subrange(s, start, end))
}

/// `s` without the occurrences of `c` at its end.
pub fn trim_end_char(s: &[char], c: char) -> (t: Vec<char>)
    ensures
        t@ == trim_end_char_spec(s@, c),
{
    let mut end: usize = s.len();
    assert(s@.subrange(0, s@.len() as int) == s@);
    while end > 0 && s[end - 1] == c
        invariant
            end <= s@.len(),
            trim_end_char_spec(s@, c) == trim_end_char_spec(s@.subrange(0, end as int), c),
        decreases end,
    {
        assert(s@.subrange(0, end as int).drop_last() == s@.subrange(0, end - 1));
        end = end - 1;
    }
    vstd::slice::slice_to_vec(vstd::slice::slice_subrange(s, 0, end))
}

/// The value of a string of decimal digits.
pub open spec fn digits_value(s: Seq<char>) -> nat
    decreases s.len(),
{
    if s.len() == 0 {
        0
    } else {
        (10 * digits_value(s.drop_last()) + (s.last() as int - '0' as int)) as nat
    }
}

/// Every character of `s` is an ASCII digit.
pub open spec fn all_digits(s: Seq<char>) -> bool {
    forall|i: int| 0 <= i < s.len() ==> '0' <= #[trigger] s[i] <= '9'
}

/// The unsigned number that `s` writes, as `str::parse::<usize>` reads it:
/// an optional `+`, then at least one ASCII digit, and a value that fits.
pub open spec fn parse_usize_spec(s: Seq<char>) -> Option<usize> {
    let digits = if s.len() > 0 && s[0] == '+' { s.drop_first() } else { s };
    if digits.len() > 0 && all_digits(digits) && digits_value(digits) <= usize::MAX {
        Some(digits_value(digits) as usize)
    } else {
        None
    }
}

/// Parses an unsigned number as `str::parse::<usize>` does.
pub fn parse_usize(s: &[char]) -> (n: Option<usize>)
    ensures
        n == parse_usize_spec(s@),
{
    let start: usize = if s.len() > 0 && s[0] == '+' { 1 } else { 0 };
    let ghost digits = if s@.len() > 0 && s@[0] == '+' { s@.drop_first() } else { s@ };
    assert(digits == s@.skip(start as int));
    if start >= s.len() {
        return None;
    }
    let mut value: usize = 0;
    let mut i: usize = start;
    while i < s.len()
        invariant
            start <= i <= s@.len(),
            digits == s@.skip(start as int),
            digits == (if s@.len() > 0 && s@[0] == '+' { s@.drop_first() } else { s@ }),
            all_digits(s@.subrange(start as int, i as int)),
            value == digits_value(s@.subrange(start as int, i as int)),
        decreases s@.len() - i,
    {
        let c = s[i];
        assert(s@.subrange(start as int, i + 1).drop_last() == s@.subrange(start as int, i as int));
        if c < '0' || c > '9' {
            assert(digits[i - start] == c);
            assert(!('0' <= digits[i - start] <= '9'));
            assert(!all_digits(digits));
            return None;
        }
        let d = (c as u32 - '0' as u32) as usize;
        assert(s@.subrange(start as int, i + 1).last() == c);
        if value > (usize::MAX - d) / 10 {
            proof {
                let prefix = s@.subrange(start as int, i + 1);
                assert(prefix == digits.subrange(0, prefix.len() as int));
                assert(digits_value(prefix) == 10 * value + d);
                if all_digits(digits) {
                    lemma_digits_value_grows(prefix, digits);
                }
            }
            return None;
        }
        value = value * 10 + d;
        i = i + 1;
    }
    assert(s@.subrange(start as int, s@.len() as int) == digits);
    Some(value)
}

/// The value of digits bounds the value of the digits that follow them.
pub proof fn lemma_digits_value_grows(prefix: Seq<char>, s: Seq<char>)
    requires
        prefix.len() <= s.len(),
        prefix == s.subrange(0, prefix.len() as int),
        all_digits(s),
    ensures
        digits_value(prefix) <= digits_value(s),
    decreases s.len(),
{
    if prefix.len() < s.len() {
        assert(s.drop_last().subrange(0, prefix.len() as int) == prefix);
        assert(all_digits(s.drop_last())) by {
            assert(forall|i: int| 0 <= i < s.drop_last().len() ==> s.drop_last()[i] == s[i]);
        }
        lemma_digits_value_grows(prefix, s.drop_last());
        assert('0' <= s[s.len() - 1] <= '9');
    } else {
        assert(prefix == s);
    }
}

} // verus!

verus! {

/// The character strings of a vector of character vectors.
pub open spec fn char_lines(v: Seq<Vec<char>>) -> Seq<Seq<char>> {
    v.map_values(|l: Vec<char>| l@)
}

/// The position of the first `c` in `s`.
pub open spec fn index_of(s: Seq<char>, c: char) -> Option<nat>
    decreases s.len(),
{
    if s.len() == 0 {
        None
    } else if s[0] == c {
        Some(0)
    } else {
        match index_of(s.drop_first(), c) {
            Some(i) => Some(i + 1),
            None => None,
        }
    }
}

pub proof fn lemma_index_of(s: Seq<char>, c: char)
    ensures
        match index_of(s, c) {
            Some(i) => i < s.len() && s[i as int] == c && forall|k: int| 0 <= k < i ==> s[k] != c,
            None => forall|k: int| 0 <= k < s.len() ==> s[k] != c,
        },
    decreases s.len(),
{
    if s.len() > 0 && s[0] != c {
        lemma_index_of(s.drop_first(), c);
        assert(forall|k: int| 0 < k < s.len() ==> s[k] == s.drop_first()[k - 1]);
    }
}

/// Finds the first `c` in `s`.
pub fn find_char(s: &[char], c: char) -> (i: Option<usize>)
    ensures
        match i {
            Some(k) => index_of(s@, c) == Some(k as nat),
            None => index_of(s@, c) is None,
        },
{
    let mut k: usize = 0;
    while k < s.len()
        invariant
            k <= s@.len(),
            forall|j: int| 0 <= j < k ==> s@[j] != c,
        decreases s@.len() - k,
    {
        if s[k] == c {
            proof {
                lemma_index_of(s@, c);
                if index_of(s@, c) != Some(k as nat) {
                    if let Some(m) = index_of(s@, c) {
                        assert(m > k ==> s@[k as int] != c);
                    }
                }
            }
            return Some(k);
        }
        k = k + 1;
    }
    proof {
        lemma_index_of(s@, c);
    }
    None
}

/// The pieces of `s` between the occurrences of `c`, as `str::split` gives
/// them.
pub open spec fn split_char(s: Seq<char>, c: char) -> Seq<Seq<char>>
    decreases s.len(),
{
    match index_of(s, c) {
        None => seq![s],
        Some(i) => {
            proof {
                lemma_index_of(s, c);
            }
            seq![s.take(i as int)] + split_char(s.skip((i + 1) as int), c)
        },
    }
}

/// Splits `s` at every `c`.
pub fn split_on_char(s: &[char], c: char) -> (pieces: Vec<Vec<char>>)
    ensures
        char_lines(pieces@) == split_char(s@, c),
{
    let mut pieces: Vec<Vec<char>> = Vec::new();
    let mut start: usize = 0;
    assert(s@.skip(0) == s@);
    loop
        invariant
            start <= s@.len(),
            char_lines(pieces@) + split_char(s@.skip(start as int), c) == split_char(s@, c),
        decreases s@.len() - start,
    {
        let rest = vstd::slice::slice_subrange(s, start, s.len());
        assert(rest@ == s@.skip(start as int));
        let ghost before = pieces@;
        match find_char(rest, c) {
            None => {
                pieces.push(vstd::slice::slice_to_vec(rest));
                assert(char_lines(pieces@) == char_lines(before).push(rest@));
                assert(split_char(rest@, c) == seq![rest@]);
                assert(char_lines(before) + seq![rest@] == char_lines(before).push(rest@));
                return pieces;
            },
            Some(i) => {
                proof {
                    lemma_index_of(rest@, c);
                }
                let piece = vstd::slice::slice_to_vec(vstd::slice::slice_subrange(rest, 0, i));
                pieces.push(piece);
                assert(char_lines(pieces@) == char_lines(before).push(rest@.take(i as int)));
                assert(rest@.skip(i + 1) == s@.skip(start + i + 1));
                assert(split_char(rest@, c) == seq![rest@.take(i as int)] + split_char(rest@.skip(i + 1), c));
                assert(char_lines(before) + (seq![rest@.take(i as int)] + split_char(rest@.skip(i + 1), c))
                    == char_lines(before).push(rest@.take(i as int)) + split_char(rest@.skip(i + 1), c));
                start = start + i + 1;
            },
        }
    }
}

/// The position of the first occurrence of `p` in `s`.
pub open spec fn index_of_pattern(s: Seq<char>, p: Seq<char>) -> Option<nat>
    decreases s.len(),
{
    if s.len() < p.len() {
        None
    } else if s.take(p.len() as int) == p {
        Some(0)
    } else if s.len() == 0 {
        None
    } else {
        match index_of_pattern(s.drop_first(), p) {
            Some(i) => Some(i + 1),
            None => None,
        }
    }
}

pub proof fn lemma_index_of_pattern(s: Seq<char>, p: Seq<char>)
    ensures
        index_of_pattern(s, p) matches Some(i) ==> i + p.len() <= s.len() && s.subrange(i as int, (i + p.len()) as int) == p,
        forall|k: int|
            0 <= k && k + p.len() <= s.len() && (index_of_pattern(s, p) matches Some(i) ==> k < i)
                ==> #[trigger] s.subrange(k, k + p.len()) != p,
    decreases s.len(),
{
    if s.len() >= p.len() && s.take(p.len() as int) != p && s.len() > 0 {
        lemma_index_of_pattern(s.drop_first(), p);
        assert forall|k: int|
            0 <= k && k + p.len() <= s.len() && (index_of_pattern(s, p) matches Some(i) ==> k < i)
                implies #[trigger] s.subrange(k, k + p.len()) != p by {
            if k == 0 {
                assert(s.subrange(0, p.len() as int) == s.take(p.len() as int));
            } else {
                assert(s.drop_first().subrange(k - 1, k - 1 + p.len()) == s.subrange(k, k + p.len()));
            }
        }
        if let Some(i) = index_of_pattern(s, p) {
            assert(s.drop_first().subrange(i - 1, i - 1 + p.len()) == s.subrange(i as int, (i + p.len()) as int));
        }
    } else if s.len() >= p.len() && s.take(p.len() as int) == p {
        assert(s.subrange(0, p.len() as int) == s.take(p.len() as int));
    }
}

/// Finds the first occurrence of `p` in `s`.
pub fn find_pattern(s: &[char], p: &[char]) -> (i: Option<usize>)
    ensures
        match i {
            Some(k) => index_of_pattern(s@, p@) == Some(k as nat),
            None => index_of_pattern(s@, p@) is None,
        },
{
    proof {
        lemma_index_of_pattern(s@, p@);
    }
    if s.len() < p.len() {
        return None;
    }
    if p.len() == 0 {
        assert(s@.take(0) == p@);
        return Some(0);
    }
    let mut k: usize = 0;
    let plen = p.len();
    let slen = s.len();
    let last = slen - plen;
    while k <= last
        invariant
            plen == p@.len(),
            slen == s@.len(),
            p@.len() > 0,
            s@.len() >= p@.len(),
            last == s@.len() - p@.len(),
            k <= last + 1,
            index_of_pattern(s@, p@) matches Some(i) ==> k <= i,
        decreases last + 1 - k,
    {
        proof {
            lemma_index_of_pattern(s@, p@);
        }
        assert(k + p@.len() <= s@.len());
        let window = vstd::slice::slice_subrange(s, k, k + plen);
        if chars_equal(window, p) {
            proof {
                if let Some(i) = index_of_pattern(s@, p@) {
                    if k < i {
                        assert(s@.subrange(k as int, k + p@.len()) != p@);
                    }
                } else {
                    assert(s@.subrange(k as int, k + p@.len()) != p@);
                }
            }
            return Some(k);
        }
        proof {
            if index_of_pattern(s@, p@) == Some(k as nat) {
                assert(s@.subrange(k as int, k + p@.len()) == p@);
            }
        }
        k = k + 1;
    }
    proof {
        if let Some(i) = index_of_pattern(s@, p@) {
            assert(false);
        }
    }
    None
}

/// `s` without one carriage return at its end.
pub open spec fn strip_cr(s: Seq<char>) -> Seq<char> {
    if s.len() > 0 && s.last() == '\r' {
        s.drop_last()
    } else {
        s
    }
}

/// The lines of `s`, as `str::lines` gives them: split at each newline,
/// the carriage return before a newline dropped, and no empty last line
/// after a final newline.
pub open spec fn lines_spec(s: Seq<char>) -> Seq<Seq<char>> {
    let pieces = split_char(s, '\n');
    let ended = pieces.drop_last().map_values(|l: Seq<char>| strip_cr(l));
    if pieces.last().len() == 0 {
        ended
    } else {
        ended.push(pieces.last())
    }
}

proof fn lemma_split_char_nonempty(s: Seq<char>, c: char)
    ensures
        split_char(s, c).len() > 0,
    decreases s.len(),
{
    if let Some(i) = index_of(s, c) {
        lemma_index_of(s, c);
        lemma_split_char_nonempty(s.skip((i + 1) as int), c);
    }
}

/// The lines of `s`.
pub fn lines(s: &[char]) -> (out: Vec<Vec<char>>)
    ensures
        char_lines(out@) == lines_spec(s@),
{
    let pieces = split_on_char(s, '\n');
    proof {
        lemma_split_char_nonempty(s@, '\n');
    }
    let ghost pv = char_lines(pieces@);
    let mut out: Vec<Vec<char>> = Vec::new();
    let mut i: usize = 0;
    while i < pieces.len() - 1
        invariant
            pieces@.len() > 0,
            pv == char_lines(pieces@),
            pv == split_char(s@, '\n'),
            i < pieces@.len(),
            char_lines(out@) == pv.drop_last().map_values(|l: Seq<char>| strip_cr(l)).take(i as int),
        decreases pieces@.len() - i,
    {
        let piece = pieces[i].as_slice();
        let line = if piece.len() > 0 && piece[piece.len() - 1] == '\r' {
            vstd::slice::slice_to_vec(vstd::slice::slice_subrange(piece, 0, piece.len() - 1))
        } else {
            vstd::slice::slice_to_vec(piece)
        };
        let ghost before = out@;
        out.push(line);
        assert(char_lines(out@) =~= char_lines(before).push(strip_cr(pv[i as int])));
        assert(pv.drop_last().map_values(|l: Seq<char>| strip_cr(l)).take(i + 1)
            =~= pv.drop_last().map_values(|l: Seq<char>| strip_cr(l)).take(i as int).push(strip_cr(pv[i as int])));
        i = i + 1;
    }
    assert(pv.drop_last().map_values(|l: Seq<char>| strip_cr(l)).take(i as int)
        == pv.drop_last().map_values(|l: Seq<char>| strip_cr(l)));
    let last = pieces[i].as_slice();
    if last.len() > 0 {
        let ghost before = out@;
        out.push(vstd::slice::slice_to_vec(last));
        assert(char_lines(out@) =~= char_lines(before).push(pv.last()));
    }
    out
}

/// Length of the word at the start of `s`: up to its first white space.
pub open spec fn word_len(s: Seq<char>) -> nat
    decreases s.len(),
{
    if s.len() == 0 || is_white_space(s[0]) {
        0
    } else {
        1 + word_len(s.drop_first())
    }
}

pub proof fn lemma_trim_start(s: Seq<char>)
    ensures
        trim_start_spec(s).len() <= s.len(),
        trim_start_spec(s) == s.skip(s.len() - trim_start_spec(s).len()),
        trim_start_spec(s).len() > 0 ==> !is_white_space(trim_start_spec(s)[0]),
    decreases s.len(),
{
    if s.len() > 0 && is_white_space(s[0]) {
        lemma_trim_start(s.drop_first());
        assert(s.drop_first().skip(s.drop_first().len() - trim_start_spec(s).len())
            == s.skip(s.len() - trim_start_spec(s).len()));
    } else {
        assert(s.skip(0) == s);
    }
}

pub proof fn lemma_word_len(s: Seq<char>)
    ensures
        word_len(s) <= s.len(),
        s.len() > 0 && !is_white_space(s[0]) ==> word_len(s) > 0,
        word_len(s) < s.len() ==> is_white_space(s[word_len(s) as int]),
        forall|k: int| 0 <= k < word_len(s) ==> !is_white_space(s[k]),
    decreases s.len(),
{
    if s.len() > 0 && !is_white_space(s[0]) {
        lemma_word_len(s.drop_first());
        assert(forall|k: int| 0 < k < s.len() ==> s[k] == s.drop_first()[k - 1]);
    }
}

/// The words of `s`, as `str::split_whitespace` gives them.
pub open spec fn words(s: Seq<char>) -> Seq<Seq<char>>
    decreases s.len(),
{
    let t = trim_start_spec(s);
    if t.len() == 0 {
        seq![]
    } else {
        proof {
            lemma_trim_start(s);
            lemma_word_len(t);
        }
        seq![t.take(word_len(t) as int)] + words(t.skip(word_len(t) as int))
    }
}

/// The words of `s`.
pub fn split_whitespace(s: &[char]) -> (out: Vec<Vec<char>>)
    ensures
        char_lines(out@) == words(s@),
{
    let mut out: Vec<Vec<char>> = Vec::new();
    let mut start: usize = 0;
    assert(s@.skip(0) == s@);
    loop
        invariant
            start <= s@.len(),
            char_lines(out@) + words(s@.skip(start as int)) == words(s@),
        decreases s@.len() - start,
    {
        let ghost rest = s@.skip(start as int);
        while start < s.len() && white_space(s[start])
            invariant
                start <= s@.len(),
                trim_start_spec(rest) == trim_start_spec(s@.skip(start as int)),
                words(rest) == words(s@.skip(start as int)),
            decreases s@.len() - start,
        {
            assert(s@.skip(start as int).drop_first() == s@.skip(start + 1));
            assert(trim_start_spec(s@.skip(start as int)) == trim_start_spec(s@.skip(start + 1)));
            start = start + 1;
        }
        let ghost t = s@.skip(start as int);
        assert(trim_start_spec(t) == t);
        if start == s.len() {
            assert(words(rest) == Seq::<Seq<char>>::empty());
            assert(char_lines(out@) + Seq::<Seq<char>>::empty() == char_lines(out@));
            return out;
        }
        let mut end: usize = start;
        while end < s.len() && !white_space(s[end])
            invariant
                start <= end <= s@.len(),
                t == s@.skip(start as int),
                word_len(t) == (end - start) + word_len(s@.skip(end as int)),
            decreases s@.len() - end,
        {
            assert(s@.skip(end as int).drop_first() == s@.skip(end + 1));
            end = end + 1;
        }
        proof {
            lemma_trim_start(rest);
            lemma_word_len(t);
        }
        let ghost before = out@;
        out.push(vstd::slice::slice_to_vec(vstd::slice::slice_subrange(s, start, end)));
        assert(t.take(word_len(t) as int) == s@.subrange(start as int, end as int));
        assert(t.skip(word_len(t) as int) == s@.skip(end as int));
        assert(words(rest) == seq![t.take(word_len(t) as int)] + words(t.skip(word_len(t) as int)));
        assert(char_lines(out@) == char_lines(before).push(s@.subrange(start as int, end as int)));
        assert(char_lines(before) + words(rest) == char_lines(out@) + words(s@.skip(end as int)));
        start = end;
    }
}

} // verus!

verus! {

/// The pieces of `s` between the occurrences of `p`, found from left to
/// right without overlapping, as `str::split` gives them for a pattern of
/// several characters.
pub open spec fn split_pattern(s: Seq<char>, p: Seq<char>) -> Seq<Seq<char>>
    decreases s.len(),
{
    if p.len() == 0 {
        seq![s]
    } else {
        match index_of_pattern(s, p) {
            None => seq![s],
            Some(i) => {
                proof {
                    lemma_index_of_pattern(s, p);
                }
                seq![s.take(i as int)] + split_pattern(s.skip((i + p.len()) as int), p)
            },
        }
    }
}

/// Splits `s` at every occurrence of `p`.
pub fn split_on_pattern(s: &[char], p: &[char]) -> (pieces: Vec<Vec<char>>)
    requires
        p@.len() > 0,
    ensures
        char_lines(pieces@) == split_pattern(s@, p@),
{
    let mut pieces: Vec<Vec<char>> = Vec::new();
    let mut start: usize = 0;
    assert(s@.skip(0) == s@);
    loop
        invariant
            p@.len() > 0,
            start <= s@.len(),
            char_lines(pieces@) + split_pattern(s@.skip(start as int), p@) == split_pattern(s@, p@),
        decreases s@.len() - start,
    {
        let rest = vstd::slice::slice_subrange(s, start, s.len());
        assert(rest@ == s@.skip(start as int));
        let ghost before = pieces@;
        match find_pattern(rest, p) {
            None => {
                pieces.push(vstd::slice::slice_to_vec(rest));
                assert(char_lines(pieces@) == char_lines(before).push(rest@));
                assert(char_lines(before) + seq![rest@] == char_lines(before).push(rest@));
                return pieces;
            },
            Some(i) => {
                proof {
                    lemma_index_of_pattern(rest@, p@);
                }
                pieces.push(vstd::slice::slice_to_vec(vstd::slice::slice_subrange(rest, 0, i)));
                assert(char_lines(pieces@) == char_lines(before).push(rest@.take(i as int)));
                assert(rest@.skip(i + p@.len()) == s@.skip(start + i + p@.len()));
                assert(char_lines(before) + (seq![rest@.take(i as int)] + split_pattern(rest@.skip(i + p@.len()), p@))
                    == char_lines(before).push(rest@.take(i as int)) + split_pattern(rest@.skip(i + p@.len()), p@));
                start = start + i + p.len();
            },
        }
    }
}

/// What `str::to_lowercase` gives for `s`.
pub uninterp spec fn lowercase(s: Seq<char>) -> Seq<char>;

/// `s` with the ASCII capital letters made small.
pub open spec fn ascii_lower(s: Seq<char>) -> Seq<char> {
    s.map_values(|c: char| if 'A' <= c && c <= 'Z' { ((c as u32) + 32) as char } else { c })
}

/// The lower case form of `s`.
///
/// Calls std's `str::to_lowercase`. The contract names the result
/// `lowercase` of the input, and states what the documentation gives for
/// ASCII text: the capital letters become small and nothing else changes.
#[verifier::external_body]
pub(crate) fn to_lowercase(s: &str) -> (lower: String)
    ensures
        lower@ == lowercase(s@),
        vstd::utf8::is_ascii_chars(s@) ==> lower@ == ascii_lower(s@),
{
    s.to_lowercase()
}

} // verus!

verus! {

/// The signed number that `s` writes, as `str::parse::<i64>` reads it: an
/// optional sign, then at least one ASCII digit, and a value that fits.
pub open spec fn parse_i64_spec(s: Seq<char>) -> Option<i64> {
    let negative = s.len() > 0 && s[0] == '-';
    let digits = if s.len() > 0 && (s[0] == '+' || s[0] == '-') { s.drop_first() } else { s };
    if digits.len() > 0 && all_digits(digits) {
        let value: int = if negative { -(digits_value(digits) as int) } else { digits_value(digits) as int };
        if i64::MIN <= value && value <= i64::MAX {
            Some(value as i64)
        } else {
            None
        }
    } else {
        None
    }
}

/// Parses a signed number as `str::parse::<i64>` does.
pub fn parse_i64(s: &[char]) -> (n: Option<i64>)
    ensures
        n == parse_i64_spec(s@),
{
    let negative = s.len() > 0 && s[0] == '-';
    let start: usize = if s.len() > 0 && (s[0] == '+' || s[0] == '-') { 1 } else { 0 };
    let ghost digits = if s@.len() > 0 && (s@[0] == '+' || s@[0] == '-') { s@.drop_first() } else { s@ };
    assert(digits == s@.skip(start as int));
    let len = s.len();
    if start >= len {
        return None;
    }
    let limit: u64 = 9223372036854775808;
    let mut value: u64 = 0;
    let mut i: usize = start;
    while i < len
        invariant
            len == s@.len(),
            start <= i <= len,
            start < len,
            digits == s@.skip(start as int),
            digits == (if s@.len() > 0 && (s@[0] == '+' || s@[0] == '-') { s@.drop_first() } else { s@ }),
            all_digits(s@.subrange(start as int, i as int)),
            value == digits_value(s@.subrange(start as int, i as int)),
            value <= limit,
            limit == 9223372036854775808u64,
        decreases len - i,
    {
        let c = s[i];
        assert(s@.subrange(start as int, i + 1).drop_last() == s@.subrange(start as int, i as int));
        if c < '0' || c > '9' {
            assert(digits[i - start] == c);
            assert(!all_digits(digits));
            return None;
        }
        let d = (c as u32 - '0' as u32) as u64;
        assert(s@.subrange(start as int, i + 1).last() == c);
        if value > (limit - d) / 10 {
            proof {
                let prefix = s@.subrange(start as int, i + 1);
                assert(prefix == digits.subrange(0, prefix.len() as int));
                assert(digits_value(prefix) == 10 * value + d);
                if all_digits(digits) {
                    lemma_digits_value_grows(prefix, digits);
                }
            }
            return None;
        }
        value = value * 10 + d;
        i = i + 1;
    }
    assert(s@.subrange(start as int, len as int) == digits);
    if negative {
        if value == limit {
            Some(-9223372036854775807i64 - 1)
        } else {
            Some(-(value as i64))
        }
    } else if value == limit {
        None
    } else {
        Some(value as i64)
    }
}

} // verus!

verus! {

/// The lines, each followed by a newline.
pub open spec fn join_lines_nl(ls: Seq<Seq<char>>) -> Seq<char>
    decreases ls.len(),
{
    if ls.len() == 0 {
        seq![]
    } else {
        join_lines_nl(ls.drop_last()) + ls.last() + seq!['\n']
    }
}

/// `c` does not occur in `s`.
pub open spec fn free_of(s: Seq<char>, c: char) -> bool {
    forall|i: int| 0 <= i < s.len() ==> s[i] != c
}

proof fn lemma_join_front(ls: Seq<Seq<char>>)
    requires
        ls.len() > 0,
    ensures
        join_lines_nl(ls) == ls[0] + seq!['\n'] + join_lines_nl(ls.drop_first()),
    decreases ls.len(),
{
    if ls.len() == 1 {
        assert(ls.drop_last() == Seq::<Seq<char>>::empty());
        assert(ls.drop_first() == Seq::<Seq<char>>::empty());
        assert(join_lines_nl(ls.drop_last()) == Seq::<char>::empty());
        assert(join_lines_nl(ls.drop_first()) == Seq::<char>::empty());
        assert(ls.last() == ls[0]);
        assert(join_lines_nl(ls) == Seq::<char>::empty() + ls[0] + seq!['\n']);
    } else {
        lemma_join_front(ls.drop_last());
        assert(ls.drop_last().drop_first() == ls.drop_first().drop_last());
        assert(ls.drop_first().last() == ls.last());
        assert(ls.drop_last()[0] == ls[0]);
    }
}

/// Splitting at `c` a text that starts with a piece free of `c` gives
/// that piece first.
pub proof fn lemma_split_after_piece(l: Seq<char>, c: char, rest: Seq<char>)
    requires
        free_of(l, c),
    ensures
        split_char(l + seq![c] + rest, c) == seq![l] + split_char(rest, c),
{
    let s = l + seq![c] + rest;
    lemma_index_of(s, c);
    match index_of(s, c) {
        Some(i) => {
            if i < l.len() {
                assert(s[i as int] == l[i as int]);
            }
            if i > l.len() {
                assert(s[l.len() as int] == c);
            }
            assert(i == l.len());
            assert(s.take(i as int) == l);
            assert(s.skip((i + 1) as int) == rest);
        },
        None => {
            assert(s[l.len() as int] == c);
        },
    }
}

/// Splitting a text free of `c` at `c` gives the text alone.
pub proof fn lemma_split_free(l: Seq<char>, c: char)
    requires
        free_of(l, c),
    ensures
        split_char(l, c) == seq![l],
{
    lemma_index_of(l, c);
}

/// Splitting lines that each end with a newline gives the lines back, and
/// an empty piece after the last newline.
pub proof fn lemma_split_joined(ls: Seq<Seq<char>>)
    requires
        forall|i: int| 0 <= i < ls.len() ==> free_of(#[trigger] ls[i], '\n'),
    ensures
        split_char(join_lines_nl(ls), '\n') == ls.push(Seq::<char>::empty()),
    decreases ls.len(),
{
    if ls.len() == 0 {
        lemma_index_of(Seq::<char>::empty(), '\n');
        assert(split_char(Seq::<char>::empty(), '\n') == seq![Seq::<char>::empty()]);
        assert(ls.push(Seq::<char>::empty()) == seq![Seq::<char>::empty()]);
    } else {
        lemma_join_front(ls);
        assert(free_of(ls[0], '\n'));
        lemma_split_after_piece(ls[0], '\n', join_lines_nl(ls.drop_first()));
        assert forall|i: int| 0 <= i < ls.drop_first().len() implies free_of(#[trigger] ls.drop_first()[i], '\n') by {
            assert(ls.drop_first()[i] == ls[i + 1]);
        }
        lemma_split_joined(ls.drop_first());
        assert(seq![ls[0]] + ls.drop_first().push(Seq::<char>::empty()) == ls.push(Seq::<char>::empty()));
    }
}

/// The lines of text made of lines that each end with a newline are those
/// lines, when none of them holds a newline or ends with a carriage return.
pub proof fn law_lines_of_joined(ls: Seq<Seq<char>>)
    requires
        forall|i: int| 0 <= i < ls.len() ==> free_of(#[trigger] ls[i], '\n'),
        forall|i: int| 0 <= i < ls.len() ==> strip_cr(#[trigger] ls[i]) == ls[i],
    ensures
        lines_spec(join_lines_nl(ls)) == ls,
{
    lemma_split_joined(ls);
    let pieces = ls.push(Seq::<char>::empty());
    assert(pieces.drop_last() == ls);
    assert(pieces.last().len() == 0);
    assert(ls.map_values(|l: Seq<char>| strip_cr(l)) =~= ls);
}

} // verus!
