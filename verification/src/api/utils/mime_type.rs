//! The mime types that the API reads and writes.
use vstd::prelude::*;
use crate::text::{chars_equal, chars_of, find_char, index_of, lemma_index_of, string_from_chars};

verus! {

/// A struct that holds the mime type of a request.
///
/// # Supported mime types
///
/// - application/json
/// - application/xml (not implemented yet)
#[derive(Debug, Clone, Copy, PartialEq, Eq, Structural)]
pub enum MimeType {
    JSON,
    XML,
}

/// The characters of `application`.
pub open spec fn application_chars() -> Seq<char> {
    seq!['a', 'p', 'p', 'l', 'i', 'c', 'a', 't', 'i', 'o', 'n']
}

/// The name of a mime type.
pub open spec fn mime_name(m: MimeType) -> Seq<char> {
    match m {
        MimeType::JSON => application_chars() + seq!['/', 'j', 's', 'o', 'n'],
        MimeType::XML => application_chars() + seq!['/', 'x', 'm', 'l'],
    }
}

/// The mime type that `value` names: `application/json` or
/// `application/xml`, split at its first `/`.
pub open spec fn mime_of(value: Seq<char>) -> Option<MimeType> {
    match index_of(value, '/') {
        None => None,
        Some(i) => if value.take(i as int) != application_chars() {
            None
        } else if value.skip((i + 1) as int) == seq!['j', 's', 'o', 'n'] {
            Some(MimeType::JSON)
        } else if value.skip((i + 1) as int) == seq!['x', 'm', 'l'] {
            Some(MimeType::XML)
        } else {
            None
        },
    }
}

/// The message of an unknown mime type.
pub open spec fn mime_error(value: Seq<char>) -> Seq<char> {
    seq!['M', 'i', 'm', 'e', ' ', 't', 'y', 'p', 'e', ' '] + value + seq![' ', 'n', 'o', 't', ' ', 'f', 'o', 'u', 'n', 'd']
}

impl MimeType {
    /// The mime type that `value` names, or the message that it is not
    /// known.
    pub fn try_from_name(value: &str) -> (m: Result<MimeType, String>)
        ensures
            match m {
                Ok(t) => mime_of(value@) == Some(t),
                Err(msg) => mime_of(value@) is None && msg@ == mime_error(value@),
            },
    {
        let chars = chars_of(value);
        let app = vec!['a', 'p', 'p', 'l', 'i', 'c', 'a', 't', 'i', 'o', 'n'];
        let json = vec!['j', 's', 'o', 'n'];
        let xml = vec!['x', 'm', 'l'];
        assert(app@ == application_chars());
        assert(json@ == seq!['j', 's', 'o', 'n']);
        assert(xml@ == seq!['x', 'm', 'l']);
        if let Some(i) = find_char(chars.as_slice(), '/') {
            proof {
                crate::text::lemma_index_of(chars@, '/');
            }
            let before = vstd::slice::slice_subrange(chars.as_slice(), 0, i);
            let n = chars.len();
            let after = vstd::slice::slice_subrange(chars.as_slice(), i + 1, n);
            assert(after@ == chars@.skip(i + 1));
            if chars_equal(before, app.as_slice()) {
                if chars_equal(after, json.as_slice()) {
                    return Ok(MimeType::JSON);
                } else if chars_equal(after, xml.as_slice()) {
                    return Ok(MimeType::XML);
                }
            }
        }
        let mut msg = String::new();
        msg.append("Mime type ");
        msg.append(value);
        msg.append(" not found");
        proof {
            reveal_strlit("Mime type ");
            reveal_strlit(" not found");
        }
        Err(msg)
    }

    /// The name of the mime type.
    pub fn to_string(&self) -> (name: String)
        ensures
            name@ == mime_name(*self),
    {
        let chars = match self {
            MimeType::JSON => vec!['a', 'p', 'p', 'l', 'i', 'c', 'a', 't', 'i', 'o', 'n', '/', 'j', 's', 'o', 'n'],
            MimeType::XML => vec!['a', 'p', 'p', 'l', 'i', 'c', 'a', 't', 'i', 'o', 'n', '/', 'x', 'm', 'l'],
        };
        assert(chars@ == mime_name(*self));
        string_from_chars(chars.as_slice())
    }

    /// The default mime type: JSON.
    pub fn default_mime() -> (m: MimeType)
        ensures
            m == MimeType::JSON,
    {
        MimeType::JSON
    }
}


/// Law: the name of every mime type names that type.
pub proof fn law_mime_name_roundtrip(m: MimeType)
    ensures
        mime_of(mime_name(m)) == Some(m),
{
    let name = mime_name(m);
    lemma_index_of(name, '/');
    assert(name[11] == '/');
    assert(forall|k: int| 0 <= k < 11 ==> name[k] != '/');
    match index_of(name, '/') {
        Some(i) => {
            if i < 11 {
                assert(name[i as int] != '/');
            }
            assert(i == 11);
        },
        None => {
            assert(name[11] != '/');
        },
    }
    assert(name.take(11) == application_chars());
    match m {
        MimeType::JSON => assert(name.skip(12) == seq!['j', 's', 'o', 'n']),
        MimeType::XML => assert(name.skip(12) == seq!['x', 'm', 'l']),
    }
}

} // verus!
