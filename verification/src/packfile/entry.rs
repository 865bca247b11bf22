//! Objects as git stores them: a header with the type and the size, then
//! the content.
use vstd::prelude::*;
use crate::codec::{zlib_decompress, zlib_inflate};
use crate::packfile::error::PackError;
use crate::packfile::object_type::{ObjectType, law_type_name_roundtrip, object_type_name, object_type_of_name};
use crate::codec::{decimal, decimal_digit};
use crate::hash_object::object_bytes;
use crate::text::{
    all_digits, digits_value, is_white_space, parse_usize, parse_usize_spec, trim, trim_end_char, trim_end_char_spec,
    trim_end_spec, trim_spec, trim_start_spec, utf8_to_string, chars_of,
};
use vstd::utf8::{decode_utf8, encode_utf8, valid_utf8};

verus! {

/// A packfile entry.
/// It contains the object type, the size of the object and the decompressed
/// content of the object.
#[derive(Debug)]
pub struct PackfileEntry {
    pub obj_type: ObjectType,
    pub size: usize,
    pub content: Vec<u8>,
}

/// An object as a mathematical value: its type, the size that its header
/// gives, and its content.
pub struct EntryValue {
    pub obj_type: ObjectType,
    pub size: nat,
    pub content: Seq<u8>,
}

impl View for PackfileEntry {
    type V = EntryValue;

    open spec fn view(&self) -> EntryValue {
        EntryValue { obj_type: self.obj_type, size: self.size as nat, content: self.content@ }
    }
}

/// Number of bytes up to and including the first `delim`, or all of `d`.
pub open spec fn until_delim(d: Seq<u8>, delim: u8) -> nat
    decreases d.len(),
{
    if d.len() == 0 {
        0
    } else if d[0] == delim {
        1
    } else {
        1 + until_delim(d.drop_first(), delim)
    }
}

/// The object that the decompressed data of a loose object holds: the
/// type name up to a space, the decimal size up to a zero byte, then the
/// content.
pub open spec fn loose_object(d: Seq<u8>) -> Result<EntryValue, PackError> {
    let type_len = until_delim(d, 32);
    let type_bytes = d.take(type_len as int);
    let rest = d.skip(type_len as int);
    let size_len = until_delim(rest, 0);
    let size_bytes = rest.take(size_len as int);
    let content = rest.skip(size_len as int);
    if !vstd::utf8::valid_utf8(type_bytes) {
        Err(PackError::InvalidUtf8)
    } else {
        match object_type_of_name(trim_spec(vstd::utf8::decode_utf8(type_bytes))) {
            None => Err(PackError::UnsupportedObjectType),
            Some(obj_type) => if !vstd::utf8::valid_utf8(size_bytes) {
                Err(PackError::InvalidUtf8)
            } else {
                match parse_usize_spec(trim_end_char_spec(vstd::utf8::decode_utf8(size_bytes), '\0')) {
                    None => Err(PackError::InvalidSize),
                    Some(size) => Ok(EntryValue { obj_type, size: size as nat, content }),
                }
            },
        }
    }
}

proof fn lemma_until_delim(d: Seq<u8>, delim: u8)
    ensures
        until_delim(d, delim) <= d.len(),
        forall|i: int| 0 <= i < until_delim(d, delim) - 1 ==> d[i] != delim,
        until_delim(d, delim) > 0 ==> (d[until_delim(d, delim) - 1] == delim || until_delim(d, delim) == d.len()),
        until_delim(d, delim) == 0 ==> d.len() == 0,
    decreases d.len(),
{
    if d.len() > 0 && d[0] != delim {
        lemma_until_delim(d.drop_first(), delim);
        assert(forall|i: int| 0 < i < d.len() ==> d[i] == d.drop_first()[i - 1]);
    }
}

proof fn lemma_until_delim_at(d: Seq<u8>, delim: u8, k: nat)
    requires
        k <= d.len(),
        forall|i: int| 0 <= i < k ==> d[i] != delim,
        k == d.len() || d[k as int] == delim,
    ensures
        until_delim(d, delim) == if k == d.len() { k } else { k + 1 },
    decreases k,
{
    if k > 0 {
        assert(forall|i: int| 0 <= i < k - 1 ==> d.drop_first()[i] == d[i + 1]);
        lemma_until_delim_at(d.drop_first(), delim, (k - 1) as nat);
    }
}

/// Position just after the first `delim` at or after `start`, or the end.
fn find_delim_end(d: &[u8], start: usize, delim: u8) -> (end: usize)
    requires
        start <= d@.len(),
    ensures
        end == start + until_delim(d@.skip(start as int), delim),
{
    let mut i = start;
    while i < d.len() && d[i] != delim
        invariant
            start <= i <= d@.len(),
            forall|j: int| start <= j < i ==> d@[j] != delim,
        decreases d@.len() - i,
    {
        i = i + 1;
    }
    proof {
        let rest = d@.skip(start as int);
        assert(forall|j: int| 0 <= j < i - start ==> rest[j] == d@[start + j]);
        if i < d.len() {
            assert(rest[i - start] == d@[i as int]);
        }
        lemma_until_delim_at(rest, delim, (i - start) as nat);
    }
    if i < d.len() {
        i + 1
    } else {
        i
    }
}

impl PackfileEntry {
    /// Create a new packfile entry.
    pub fn new(obj_type: ObjectType, size: usize, content: Vec<u8>) -> (entry: Self)
        ensures
            entry.obj_type == obj_type,
            entry.size == size,
            entry.content@ == content@,
    {
        Self { obj_type, size, content }
    }

    /// Reads an object from the decompressed data of a loose object.
    pub fn from_object_data(data: &[u8]) -> (entry: Result<Self, PackError>)
        ensures
            match entry {
                Ok(e) => loose_object(data@) == Ok::<EntryValue, PackError>(e@),
                Err(err) => loose_object(data@) == Err::<EntryValue, PackError>(err),
            },
    {
        let type_end = find_delim_end(data, 0, 32);
        proof {
            assert(data@.skip(0) == data@);
            lemma_until_delim(data@, 32);
        }
        let size_end = find_delim_end(data, type_end, 0);
        proof {
            lemma_until_delim(data@.skip(type_end as int), 0);
            assert(data@.skip(0) == data@);
        }
        let ghost type_len = until_delim(data@, 32);
        let ghost rest = data@.skip(type_len as int);
        let type_bytes = vstd::slice::slice_subrange(data, 0, type_end);
        assert(type_bytes@ == data@.take(type_len as int));
        let type_str = match utf8_to_string(type_bytes) {
            Some(s) => s,
            None => return Err(PackError::InvalidUtf8),
        };
        let type_chars = chars_of(type_str.as_str());
        let trimmed = trim(type_chars.as_slice());
        let obj_type = match ObjectType::from_name_chars(trimmed.as_slice()) {
            Ok(t) => t,
            Err(_) => return Err(PackError::UnsupportedObjectType),
        };
        let size_bytes = vstd::slice::slice_subrange(data, type_end, size_end);
        assert(size_bytes@ == rest.take(until_delim(rest, 0) as int));
        let size_str = match utf8_to_string(size_bytes) {
            Some(s) => s,
            None => return Err(PackError::InvalidUtf8),
        };
        let size_chars = chars_of(size_str.as_str());
        let size_digits = trim_end_char(size_chars.as_slice(), '\0');
        let size = match parse_usize(size_digits.as_slice()) {
            Some(n) => n,
            None => return Err(PackError::InvalidSize),
        };
        let content = vstd::slice::slice_to_vec(vstd::slice::slice_subrange(data, size_end, data.len()));
        assert(content@ == rest.skip(until_delim(rest, 0) as int));
        Ok(Self::new(obj_type, size, content))
    }

    /// Reads an object from the compressed data of a loose object.
    pub fn from_compressed(compressed: &[u8]) -> (entry: Result<Self, PackError>)
        ensures
            match zlib_inflate(compressed@) {
                None => entry == Err::<PackfileEntry, PackError>(PackError::Decompress),
                Some((d, _)) => match entry {
                    Ok(e) => loose_object(d) == Ok::<EntryValue, PackError>(e@),
                    Err(err) => loose_object(d) == Err::<EntryValue, PackError>(err),
                },
            },
    {
        match zlib_decompress(compressed) {
            None => Err(PackError::Decompress),
            Some((data, _)) => Self::from_object_data(data.as_slice()),
        }
    }
}


/// Characters below 128 are encoded as one byte each, their code.
proof fn lemma_encode_ascii(s: Seq<char>)
    requires
        forall|i: int| 0 <= i < s.len() ==> (#[trigger] s[i] as u32) < 128,
    ensures
        encode_utf8(s).len() == s.len(),
        forall|i: int| 0 <= i < s.len() ==> #[trigger] encode_utf8(s)[i] as u32 == s[i] as u32,
    decreases s.len(),
{
    if s.len() > 0 {
        let c = s[0] as u32;
        assert(c < 128);
        assert((c & 0x7F) as u8 as u32 == c) by (bit_vector)
            requires c < 128;
        let t = s.drop_first();
        assert forall|i: int| 0 <= i < t.len() implies (#[trigger] t[i] as u32) < 128 by {
            assert(t[i] == s[i + 1]);
        }
        lemma_encode_ascii(t);
        let e = encode_utf8(s);
        assert(e == seq![(c & 0x7F) as u8] + encode_utf8(t));
        assert forall|i: int| 0 <= i < s.len() implies #[trigger] encode_utf8(s)[i] as u32 == s[i] as u32 by {
            if i > 0 {
                assert(e[i] == encode_utf8(t)[i - 1]);
                assert(t[i - 1] == s[i]);
            }
        }
    }
}

proof fn lemma_encode_concat(a: Seq<char>, b: Seq<char>)
    ensures
        encode_utf8(a + b) == encode_utf8(a) + encode_utf8(b),
    decreases a.len(),
{
    if a.len() > 0 {
        assert((a + b).drop_first() == a.drop_first() + b);
        assert((a + b)[0] == a[0]);
        lemma_encode_concat(a.drop_first(), b);
        assert(encode_utf8(a) == vstd::utf8::encode_scalar(a[0] as u32) + encode_utf8(a.drop_first()));
    } else {
        assert(a + b == b);
    }
}

proof fn lemma_decimal(n: nat)
    ensures
        decimal(n).len() >= 1,
        all_digits(decimal(n)),
        digits_value(decimal(n)) == n,
    decreases n,
{
    let s = decimal(n);
    if n >= 10 {
        lemma_decimal(n / 10);
        let p = decimal(n / 10);
        assert(s == p + seq![decimal_digit(n % 10)]);
        assert(s.drop_last() == p);
        assert forall|i: int| 0 <= i < s.len() implies '0' <= #[trigger] s[i] <= '9' by {
            if i < p.len() {
                assert(s[i] == p[i]);
            }
        }
    } else {
        assert(s.drop_last().len() == 0);
        assert(digits_value(s.drop_last()) == 0);
    }
}

/// Law: the data that git stores for an object of a loose object type,
/// `object_bytes`, reads back as that object: its type, the size of its
/// content, and its content.
pub proof fn law_loose_object_roundtrip(t: ObjectType, content: Seq<u8>)
    requires
        t != ObjectType::OfsDelta && t != ObjectType::RefDelta,
        content.len() <= usize::MAX,
    ensures
        loose_object(object_bytes(object_type_name(t), content)) == Ok::<EntryValue, PackError>(
            EntryValue { obj_type: t, size: content.len(), content },
        ),
{
    broadcast use vstd::utf8::encode_utf8_valid_utf8, vstd::utf8::encode_utf8_decode_utf8;

    let name = object_type_name(t);
    let dec = decimal(content.len());
    let d = object_bytes(name, content);
    let en = encode_utf8(name);
    let ed = encode_utf8(dec);
    lemma_decimal(content.len());
    assert forall|i: int| 0 <= i < name.len() implies (#[trigger] name[i] as u32) < 128
        && name[i] != ' ' && name[i] != '\0' && !is_white_space(name[i]) by {
    }
    assert forall|i: int| 0 <= i < dec.len() implies (#[trigger] dec[i] as u32) < 128 && dec[i] != '\0' by {
        assert('0' <= dec[i] <= '9');
    }
    lemma_encode_ascii(name);
    lemma_encode_ascii(dec);
    lemma_encode_ascii(seq![' ']);
    lemma_encode_ascii(seq!['\0']);
    lemma_encode_concat(name, seq![' ']);
    lemma_encode_concat(dec, seq!['\0']);
    let k = en.len();
    assert(d == en + seq![32u8] + (ed + seq![0u8] + content));
    assert forall|i: int| 0 <= i < k implies d[i] != 32 by {
        assert(d[i] == en[i]);
        assert(en[i] as u32 == name[i] as u32);
    }
    assert(d[k as int] == 32);
    lemma_until_delim_at(d, 32, k);
    let type_bytes = d.take((k + 1) as int);
    assert(type_bytes == encode_utf8(name + seq![' ']));
    assert(decode_utf8(type_bytes) == name + seq![' ']);
    let typed = name + seq![' '];
    assert(trim_start_spec(typed) == typed);
    assert(typed.drop_last() == name);
    assert(trim_end_spec(typed) == trim_end_spec(name));
    assert(trim_end_spec(name) == name);
    law_type_name_roundtrip(t);
    let rest = d.skip((k + 1) as int);
    assert(rest == ed + seq![0u8] + content);
    let m = ed.len();
    assert forall|i: int| 0 <= i < m implies rest[i] != 0 by {
        assert(rest[i] == ed[i]);
        assert(ed[i] as u32 == dec[i] as u32);
    }
    assert(rest[m as int] == 0);
    lemma_until_delim_at(rest, 0, m);
    let size_bytes = rest.take((m + 1) as int);
    assert(size_bytes == encode_utf8(dec + seq!['\0']));
    assert(decode_utf8(size_bytes) == dec + seq!['\0']);
    assert((dec + seq!['\0']).drop_last() == dec);
    assert(trim_end_char_spec(dec + seq!['\0'], '\0') == trim_end_char_spec(dec, '\0'));
    assert(dec[dec.len() - 1] != '\0');
    assert(trim_end_char_spec(dec, '\0') == dec);
    assert(dec[0] != '+');
    assert(rest.skip((m + 1) as int) == content);
}


/// Law: an object that `store_bytes_array_to_file` or
/// `store_string_to_file` prepares under a loose object type reads back,
/// through the inflated stored data, as that object.
pub proof fn law_stored_object_reads_back(
    obj: crate::hash_object::StoredObject,
    git_dir: Seq<char>,
    t: ObjectType,
    content: Seq<u8>,
)
    requires
        crate::hash_object::stored(obj, git_dir, object_bytes(object_type_name(t), content)),
        t != ObjectType::OfsDelta && t != ObjectType::RefDelta,
        content.len() <= usize::MAX,
    ensures
        zlib_inflate(obj.data@) == Some((object_bytes(object_type_name(t), content), obj.data@.len())),
        loose_object(object_bytes(object_type_name(t), content)) == Ok::<EntryValue, PackError>(
            EntryValue { obj_type: t, size: content.len(), content },
        ),
{
    law_loose_object_roundtrip(t, content);
}

} // verus!
