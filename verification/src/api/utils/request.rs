//! HTTP requests, as the API reads them.
use vstd::prelude::*;
use crate::api::utils::headers::{Headers, header_line_key, header_line_value};
use crate::api::utils::method::{Method, method_of};
use crate::api::utils::mime_type::{MimeType, mime_name};
use crate::api::utils::query_string::{QueryString, query_pairs};
use crate::api::utils::string_map::{Pair, lookup, pairs_insert};
use crate::text::{
    char_lines, chars_equal, chars_of, find_char, find_pattern, index_of, index_of_pattern, lines, lines_spec,
    lowercase, split_on_char, split_on_pattern, split_char, split_pattern, split_whitespace, string_from_chars,
    words,
};

verus! {

/// The lines of `ls` from `i` on, up to the first empty one.
pub open spec fn block(ls: Seq<Seq<char>>, i: nat) -> Seq<Seq<char>>
    decreases ls.len() - i,
{
    if i >= ls.len() || ls[i as int].len() == 0 {
        seq![]
    } else {
        seq![ls[i as int]] + block(ls, i + 1)
    }
}

/// The lines put one after the other.
pub open spec fn concat_lines(ls: Seq<Seq<char>>) -> Seq<char>
    decreases ls.len(),
{
    if ls.len() == 0 {
        seq![]
    } else {
        concat_lines(ls.drop_last()) + ls.last()
    }
}

/// The headers that the header lines `ls` give, in order.
pub open spec fn headers_of_lines(ls: Seq<Seq<char>>) -> Seq<Pair>
    decreases ls.len(),
{
    if ls.len() == 0 {
        seq![]
    } else {
        pairs_insert(
            headers_of_lines(ls.drop_last()),
            lowercase(header_line_key(ls.last())),
            lowercase(header_line_value(ls.last())),
        )
    }
}

/// The `n`-th word of `s`, or nothing.
pub open spec fn word(s: Seq<char>, n: nat) -> Seq<char> {
    if words(s).len() > n {
        words(s)[n as int]
    } else {
        seq![]
    }
}

/// The first line of the request.
pub open spec fn head_line(s: Seq<char>) -> Seq<char> {
    if lines_spec(s).len() > 0 {
        lines_spec(s)[0]
    } else {
        seq![]
    }
}

/// The path of a request target: what comes before its first `?`.
pub open spec fn path_of(target: Seq<char>) -> Seq<char> {
    match index_of(target, '?') {
        Some(i) => target.take(i as int),
        None => target,
    }
}

/// The query of a request target: the entries after its first `?`.
pub open spec fn query_of(target: Seq<char>) -> Seq<Pair> {
    match index_of(target, '?') {
        Some(i) => query_pairs(target.skip((i + 1) as int)),
        None => seq![],
    }
}

/// The header lines of the request `s`: those after the first line, up to
/// an empty line.
pub open spec fn header_lines(s: Seq<char>) -> Seq<Seq<char>> {
    block(lines_spec(s), 1)
}

/// The body of the request `s` as it comes: the lines after the empty line
/// that ends the headers, up to the next empty line, joined without line
/// breaks.
pub open spec fn raw_body(s: Seq<char>) -> Seq<char> {
    concat_lines(block(lines_spec(s), header_lines(s).len() + 2))
}

/// The content between the first `<tag>` and the first `</tag>` of `html`.
pub open spec fn tag_content(html: Seq<char>, tag: Seq<char>) -> Option<Seq<char>> {
    let open = seq!['<'] + tag + seq!['>'];
    let close = seq!['<', '/'] + tag + seq!['>'];
    match (index_of_pattern(html, open), index_of_pattern(html, close)) {
        (Some(start), Some(end)) => Some(html.subrange((start + open.len()) as int, end as int)),
        _ => None,
    }
}

/// The first `<tag>` of `html` does not end after its first `</tag>`
/// starts.
pub open spec fn tag_in_order(html: Seq<char>, tag: Seq<char>) -> bool {
    let open = seq!['<'] + tag + seq!['>'];
    let close = seq!['<', '/'] + tag + seq!['>'];
    match (index_of_pattern(html, open), index_of_pattern(html, close)) {
        (Some(start), Some(end)) => start + open.len() <= end,
        _ => true,
    }
}

/// The pieces of an XML body between runs of three spaces.
pub open spec fn xml_pieces(xml: Seq<char>) -> Seq<Seq<char>> {
    split_pattern(xml, seq![' ', ' ', ' '])
}

/// An XML body that the conversion to JSON can read: at least five pieces,
/// each tag of the four fields in order.
pub open spec fn xml_readable(xml: Seq<char>) -> bool {
    let p = xml_pieces(xml);
    &&& p.len() >= 5
    &&& tag_in_order(p[1], "title"@)
    &&& tag_in_order(p[2], "description"@)
    &&& tag_in_order(p[3], "source_branch"@)
    &&& tag_in_order(p[4], "target_branch"@)
}

/// A field of the JSON body: its content and what follows it, or nothing.
pub open spec fn json_field(content: Option<Seq<char>>, after: Seq<char>) -> Seq<char> {
    match content {
        Some(c) => c + after,
        None => seq![],
    }
}

/// The JSON body that an XML body of a pull request stands for.
pub open spec fn xml_to_json(xml: Seq<char>) -> Seq<char> {
    let p = xml_pieces(xml);
    "{    \"title\": \""@ + json_field(tag_content(p[1], "title"@), "\",    "@) + "\"description\": \""@
        + json_field(tag_content(p[2], "description"@), "\",    "@) + "\"source_branch\": \""@
        + json_field(tag_content(p[3], "source_branch"@), "\",    "@) + "\"target_branch\": \""@
        + json_field(tag_content(p[4], "target_branch"@), "\"}"@)
}

/// The request says that its body is XML.
pub open spec fn body_is_xml(s: Seq<char>) -> bool {
    lookup(headers_of_lines(header_lines(s)), lowercase("Content-Type"@)) == Some(mime_name(MimeType::XML))
}

/// The body of the request `s`, converted to JSON when it is XML.
pub open spec fn body_of(s: Seq<char>) -> Seq<char> {
    if body_is_xml(s) {
        xml_to_json(raw_body(s))
    } else {
        raw_body(s)
    }
}

/// The parts of a path between its slashes, the empty ones left out.
pub open spec fn path_parts(parts: Seq<Seq<char>>) -> Seq<Seq<char>>
    decreases parts.len(),
{
    if parts.len() == 0 {
        seq![]
    } else if parts.last().len() == 0 {
        path_parts(parts.drop_last())
    } else {
        path_parts(parts.drop_last()).push(parts.last())
    }
}

/// A struct that holds the data of an HTTP request
pub struct Request {
    pub method: Method,
    pub path: String,
    pub headers: Headers,
    pub qs: QueryString,
    pub body: String,
}

fn chars_vec(s: &str) -> (v: Vec<char>)
    ensures
        v@ == s@,
{
    chars_of(s)
}

/// The lines from `i` on, up to the first empty one, and where they stop.
fn read_block(ls: &Vec<Vec<char>>, i: usize) -> (r: (Vec<Vec<char>>, usize))
    ensures
        char_lines(r.0@) == block(char_lines(ls@), i as nat),
        r.1 == i + block(char_lines(ls@), i as nat).len() || (i >= ls@.len() && r.1 == i),
        r.1 >= i,
{
    let ghost lv = char_lines(ls@);
    let mut out: Vec<Vec<char>> = Vec::new();
    let mut j: usize = i;
    while j < ls.len() && ls[j].len() > 0
        invariant
            lv == char_lines(ls@),
            i <= j,
            j <= ls@.len() || j == i,
            char_lines(out@) + block(lv, j as nat) == block(lv, i as nat),
            block(lv, i as nat).len() == (j - i) + block(lv, j as nat).len(),
        decreases ls@.len() - j,
    {
        let ghost before = out@;
        out.push(ls[j].clone());
        assert(char_lines(out@) == char_lines(before).push(lv[j as int]));
        assert(block(lv, j as nat) == seq![lv[j as int]] + block(lv, (j + 1) as nat));
        assert(char_lines(before) + (seq![lv[j as int]] + block(lv, (j + 1) as nat))
            == char_lines(before).push(lv[j as int]) + block(lv, (j + 1) as nat));
        j = j + 1;
    }
    assert(block(lv, j as nat) == Seq::<Seq<char>>::empty());
    assert(char_lines(out@) + Seq::<Seq<char>>::empty() == char_lines(out@));
    (out, j)
}

impl Request {
    /// Create a new Request from the text of an HTTP request: the method
    /// and the path in the first line, the headers up to an empty line, then
    /// the body, converted to JSON when it comes as XML.
    pub fn new(request: &str) -> (r: Request)
        requires
            body_is_xml(request@) ==> xml_readable(raw_body(request@)),
        ensures
            r.method == method_of(word(head_line(request@), 0)),
            r.path@ == path_of(word(head_line(request@), 1)),
            r.qs.pairs() == query_of(word(head_line(request@), 1)),
            r.headers.pairs() == headers_of_lines(header_lines(request@)),
            r.body@ == body_of(request@),
    {
        let text = chars_of(request);
        let ls = lines(text.as_slice());
        let ghost lv = char_lines(ls@);
        let head: Vec<char> = if ls.len() > 0 {
            ls[0].clone()
        } else {
            Vec::new()
        };
        assert(head@ == head_line(request@));
        let ws = split_whitespace(head.as_slice());
        let method_name = if ws.len() > 0 {
            string_from_chars(ws[0].as_slice())
        } else {
            String::new()
        };
        assert(method_name@ == word(head@, 0));
        let method = Method::from_name(method_name.as_str());
        let target: Vec<char> = if ws.len() > 1 {
            ws[1].clone()
        } else {
            Vec::new()
        };
        assert(target@ == word(head@, 1));
        let (path, qs) = parse_path(target.as_slice());

        let (headers, raw, is_xml) = Request::headers_and_body(request);
        let body = if is_xml {
            Request::parse_xml_to_json(raw.as_slice())
        } else {
            string_from_chars(raw.as_slice())
        };
        Request { method, path, headers, qs, body }
    }

    /// The headers of the request `request`, its raw body, and whether the
    /// body is XML.
    fn headers_and_body(request: &str) -> (r: (Headers, Vec<char>, bool))
        ensures
            r.0.pairs() == headers_of_lines(header_lines(request@)),
            r.1@ == raw_body(request@),
            r.2 == body_is_xml(request@),
    {
        let text = chars_of(request);
        let ls = lines(text.as_slice());
        let ghost lv = char_lines(ls@);
        let (header_block, end) = read_block(&ls, 1);
        let mut headers = Headers::new();
        let mut i: usize = 0;
        while i < header_block.len()
            invariant
                i <= header_block@.len(),
                headers.pairs() == headers_of_lines(char_lines(header_block@).take(i as int)),
            decreases header_block@.len() - i,
        {
            let line = string_from_chars(header_block[i].as_slice());
            assert(char_lines(header_block@).take(i + 1).drop_last() == char_lines(header_block@).take(i as int));
            headers.add(line.as_str());
            i = i + 1;
        }
        assert(char_lines(header_block@).take(header_block@.len() as int) == char_lines(header_block@));
        assert(char_lines(header_block@) == header_lines(request@));

        let body_start = if end < ls.len() { end + 1 } else { end };
        proof {
            if end >= lv.len() {
                assert(block(lv, body_start as nat) == Seq::<Seq<char>>::empty());
                assert(block(lv, (header_lines(request@).len() + 2) as nat) == Seq::<Seq<char>>::empty());
            }
        }
        let (body_block, _) = read_block(&ls, body_start);
        assert(char_lines(body_block@) == block(lv, (header_lines(request@).len() + 2) as nat));
        let mut raw: Vec<char> = Vec::new();
        let mut k: usize = 0;
        while k < body_block.len()
            invariant
                k <= body_block@.len(),
                raw@ == concat_lines(char_lines(body_block@).take(k as int)),
            decreases body_block@.len() - k,
        {
            assert(char_lines(body_block@).take(k + 1).drop_last() == char_lines(body_block@).take(k as int));
            let mut piece = body_block[k].clone();
            raw.append(&mut piece);
            k = k + 1;
        }
        assert(char_lines(body_block@).take(body_block@.len() as int) == char_lines(body_block@));
        assert(raw@ == raw_body(request@));

        let xml = vec!['a', 'p', 'p', 'l', 'i', 'c', 'a', 't', 'i', 'o', 'n', '/', 'x', 'm', 'l'];
        assert(xml@ == mime_name(MimeType::XML));
        let is_xml = match headers.get("Content-Type") {
            Some(content_type) => {
                let ct = chars_vec(content_type);
                chars_equal(ct.as_slice(), xml.as_slice())
            },
            None => false,
        };
        (headers, raw, is_xml)
    }

    /// Whether the text of an HTTP request can be read: a body that comes as
    /// XML must have the pieces and the tags in order that the conversion to
    /// JSON reads.
    pub fn readable(request: &str) -> (ok: bool)
        ensures
            ok == (body_is_xml(request@) ==> xml_readable(raw_body(request@))),
    {
        let (_, raw, is_xml) = Request::headers_and_body(request);
        if !is_xml {
            return true;
        }
        let sep = vec![' ', ' ', ' '];
        assert(sep@ == seq![' ', ' ', ' ']);
        let pieces = split_on_pattern(raw.as_slice(), sep.as_slice());
        let ghost p = char_lines(pieces@);
        assert(p == xml_pieces(raw@));
        if pieces.len() < 5 {
            return false;
        }
        assert(p[1] == pieces@[1]@ && p[2] == pieces@[2]@ && p[3] == pieces@[3]@ && p[4] == pieces@[4]@);
        Request::tag_is_in_order(pieces[1].as_slice(), "title") && Request::tag_is_in_order(
            pieces[2].as_slice(),
            "description",
        ) && Request::tag_is_in_order(pieces[3].as_slice(), "source_branch") && Request::tag_is_in_order(
            pieces[4].as_slice(),
            "target_branch",
        )
    }

    /// Reads the text of an HTTP request, when it can be read.
    pub fn try_new(request: &str) -> (r: Option<Request>)
        ensures
            match r {
                Some(req) => (body_is_xml(request@) ==> xml_readable(raw_body(request@)))
                    && req.method == method_of(word(head_line(request@), 0))
                    && req.path@ == path_of(word(head_line(request@), 1))
                    && req.qs.pairs() == query_of(word(head_line(request@), 1))
                    && req.headers.pairs() == headers_of_lines(header_lines(request@))
                    && req.body@ == body_of(request@),
                None => !(body_is_xml(request@) ==> xml_readable(raw_body(request@))),
            },
    {
        if Request::readable(request) {
            Some(Request::new(request))
        } else {
            None
        }
    }

    /// Whether the first `<tag>` of `html` does not end after its first
    /// `</tag>` starts.
    fn tag_is_in_order(html: &[char], tag: &str) -> (b: bool)
        ensures
            b == tag_in_order(html@, tag@),
    {
        let name = chars_of(tag);
        let mut open: Vec<char> = vec!['<'];
        let mut open_name = name.clone();
        open.append(&mut open_name);
        open.push('>');
        let mut close: Vec<char> = vec!['<', '/'];
        let mut close_name = name.clone();
        close.append(&mut close_name);
        close.push('>');
        assert(open@ == seq!['<'] + tag@ + seq!['>']);
        assert(close@ == seq!['<', '/'] + tag@ + seq!['>']);
        match find_pattern(html, open.as_slice()) {
            Some(start) => match find_pattern(html, close.as_slice()) {
                Some(end) => {
                    let n = html.len();
                    proof {
                        crate::text::lemma_index_of_pattern(html@, open@);
                    }
                    assert(start + open.len() <= n);
                    start + open.len() <= end
                },
                None => true,
            },
            None => true,
        }
    }


    /// The parts of the request's path between its slashes, the empty ones
    /// left out.
    pub open spec fn get_path_parts(&self) -> Seq<Seq<char>> {
        path_parts(split_char(self.path@, '/'))
    }

    /// Splits the path of the request at its slashes, leaving out the
    /// empty parts.
    pub fn get_path_split(&self) -> (parts: Vec<String>)
        ensures
            parts@.map_values(|p: String| p@) == self.get_path_parts(),
    {
        let chars = chars_of(self.path.as_str());
        let pieces = split_on_char(chars.as_slice(), '/');
        let ghost pv = char_lines(pieces@);
        let mut parts: Vec<String> = Vec::new();
        let mut i: usize = 0;
        while i < pieces.len()
            invariant
                i <= pieces@.len(),
                pv == char_lines(pieces@),
                parts@.map_values(|p: String| p@) == path_parts(pv.take(i as int)),
            decreases pieces@.len() - i,
        {
            assert(pv.take(i + 1).drop_last() == pv.take(i as int));
            let ghost before = parts@;
            if pieces[i].len() > 0 {
                parts.push(string_from_chars(pieces[i].as_slice()));
                assert(parts@.map_values(|p: String| p@) == before.map_values(|p: String| p@).push(pv[i as int]));
            }
            i = i + 1;
        }
        assert(pv.take(pieces@.len() as int) == pv);
        parts
    }

    /// The content between the first `<tag>` and the first `</tag>`.
    fn obtain_tag_content(html: &[char], tag: &str) -> (content: Option<Vec<char>>)
        requires
            tag_in_order(html@, tag@),
        ensures
            match content {
                Some(c) => tag_content(html@, tag@) == Some(c@),
                None => tag_content(html@, tag@) is None,
            },
    {
        let name = chars_of(tag);
        let mut open: Vec<char> = vec!['<'];
        let mut open_name = name.clone();
        open.append(&mut open_name);
        open.push('>');
        let mut close: Vec<char> = vec!['<', '/'];
        let mut close_name = name.clone();
        close.append(&mut close_name);
        close.push('>');
        assert(open@ == seq!['<'] + tag@ + seq!['>']);
        assert(close@ == seq!['<', '/'] + tag@ + seq!['>']);
        match find_pattern(html, open.as_slice()) {
            Some(start) => match find_pattern(html, close.as_slice()) {
                Some(end) => {
                    proof {
                        crate::text::lemma_index_of_pattern(html@, open@);
                        crate::text::lemma_index_of_pattern(html@, close@);
                    }
                    Some(vstd::slice::slice_to_vec(vstd::slice::slice_subrange(html, start + open.len(), end)))
                },
                None => None,
            },
            None => None,
        }
    }

    /// Converts the XML body of a pull request to JSON.
    fn parse_xml_to_json(xml: &[char]) -> (json: String)
        requires
            xml_readable(xml@),
        ensures
            json@ == xml_to_json(xml@),
    {
        let sep = vec![' ', ' ', ' '];
        assert(sep@ == seq![' ', ' ', ' ']);
        let pieces = split_on_pattern(xml, sep.as_slice());
        let ghost p = char_lines(pieces@);
        assert(p == xml_pieces(xml@));
        let mut result = String::new();
        result.append("{    \"title\": \"");
        if let Some(content) = Request::obtain_tag_content(pieces[1].as_slice(), "title") {
            result.append(string_from_chars(content.as_slice()).as_str());
            result.append("\",    ");
        }
        result.append("\"description\": \"");
        if let Some(content) = Request::obtain_tag_content(pieces[2].as_slice(), "description") {
            result.append(string_from_chars(content.as_slice()).as_str());
            result.append("\",    ");
        }
        result.append("\"source_branch\": \"");
        if let Some(content) = Request::obtain_tag_content(pieces[3].as_slice(), "source_branch") {
            result.append(string_from_chars(content.as_slice()).as_str());
            result.append("\",    ");
        }
        result.append("\"target_branch\": \"");
        if let Some(content) = Request::obtain_tag_content(pieces[4].as_slice(), "target_branch") {
            result.append(string_from_chars(content.as_slice()).as_str());
            result.append("\"}");
        }
        result
    }
}

/// Parse the target of a request into its path and its query string.
fn parse_path(target: &[char]) -> (r: (String, QueryString))
    ensures
        r.0@ == path_of(target@),
        r.1.pairs() == query_of(target@),
{
    match find_char(target, '?') {
        Some(i) => {
            proof {
                crate::text::lemma_index_of(target@, '?');
            }
            let path = string_from_chars(vstd::slice::slice_subrange(target, 0, i));
            let n = target.len();
            let rest = vstd::slice::slice_subrange(target, i + 1, n);
            assert(rest@ == target@.skip(i + 1));
            (path, QueryString::from_chars(rest))
        },
        None => (string_from_chars(target), QueryString::new()),
    }
}

} // verus!
