//! The types of git objects and their codes in packfiles.
use vstd::prelude::*;

verus! {

/// Possible object types.
#[derive(Debug, Clone, Copy, PartialEq, Eq, Structural, Hash)]
pub enum ObjectType {
    Commit,
    Tree,
    Blob,
    Tag,
    OfsDelta,
    RefDelta,
}

/// The code of an object type in packfiles.
pub open spec fn type_code(t: ObjectType) -> u8 {
    match t {
        ObjectType::Commit => 1,
        ObjectType::Tree => 2,
        ObjectType::Blob => 3,
        ObjectType::Tag => 4,
        ObjectType::OfsDelta => 6,
        ObjectType::RefDelta => 7,
    }
}

/// The object type of a packfile code, if the code names one.
pub open spec fn type_of_code(code: u8) -> Option<ObjectType> {
    if code == 1 {
        Some(ObjectType::Commit)
    } else if code == 2 {
        Some(ObjectType::Tree)
    } else if code == 3 {
        Some(ObjectType::Blob)
    } else if code == 4 {
        Some(ObjectType::Tag)
    } else if code == 6 {
        Some(ObjectType::OfsDelta)
    } else if code == 7 {
        Some(ObjectType::RefDelta)
    } else {
        None
    }
}

/// The name of an object type, as git writes it in object headers.
pub open spec fn object_type_name(t: ObjectType) -> Seq<char> {
    match t {
        ObjectType::Commit => seq!['c', 'o', 'm', 'm', 'i', 't'],
        ObjectType::Tree => seq!['t', 'r', 'e', 'e'],
        ObjectType::Blob => seq!['b', 'l', 'o', 'b'],
        ObjectType::Tag => seq!['t', 'a', 'g'],
        ObjectType::OfsDelta => seq!['o', 'f', 's', '-', 'd', 'e', 'l', 't', 'a'],
        ObjectType::RefDelta => seq!['r', 'e', 'f', '-', 'd', 'e', 'l', 't', 'a'],
    }
}

/// The object type whose header name is `name`; only the four types that
/// loose objects have are named.
pub open spec fn object_type_of_name(name: Seq<char>) -> Option<ObjectType> {
    if name == object_type_name(ObjectType::Commit) {
        Some(ObjectType::Commit)
    } else if name == object_type_name(ObjectType::Tree) {
        Some(ObjectType::Tree)
    } else if name == object_type_name(ObjectType::Blob) {
        Some(ObjectType::Blob)
    } else if name == object_type_name(ObjectType::Tag) {
        Some(ObjectType::Tag)
    } else {
        None
    }
}

/// Why a name or a code does not give an object type.
#[derive(Debug, Clone, Copy, PartialEq, Eq, Structural)]
pub enum ObjectTypeError {
    UnsupportedObjectType,
}

impl ObjectType {
    /// Get the byte representation of the object type.
    pub fn as_byte(&self) -> (b: u8)
        ensures
            b == type_code(*self),
    {
        match self {
            ObjectType::Commit => 1,
            ObjectType::Tree => 2,
            ObjectType::Blob => 3,
            ObjectType::Tag => 4,
            ObjectType::OfsDelta => 6,
            ObjectType::RefDelta => 7,
        }
    }

    /// Try to get the object type from a byte.
    pub fn from_byte(value: u8) -> (t: Result<ObjectType, ObjectTypeError>)
        ensures
            match type_of_code(value) {
                Some(ty) => t == Ok::<ObjectType, ObjectTypeError>(ty),
                None => t == Err::<ObjectType, ObjectTypeError>(ObjectTypeError::UnsupportedObjectType),
            },
    {
        match value {
            1 => Ok(ObjectType::Commit),
            2 => Ok(ObjectType::Tree),
            3 => Ok(ObjectType::Blob),
            4 => Ok(ObjectType::Tag),
            6 => Ok(ObjectType::OfsDelta),
            7 => Ok(ObjectType::RefDelta),
            _ => Err(ObjectTypeError::UnsupportedObjectType),
        }
    }

    /// The name of the object type, as characters.
    pub fn name_chars(&self) -> (name: Vec<char>)
        ensures
            name@ == object_type_name(*self),
    {
        match self {
            ObjectType::Commit => vec!['c', 'o', 'm', 'm', 'i', 't'],
            ObjectType::Tree => vec!['t', 'r', 'e', 'e'],
            ObjectType::Blob => vec!['b', 'l', 'o', 'b'],
            ObjectType::Tag => vec!['t', 'a', 'g'],
            ObjectType::OfsDelta => vec!['o', 'f', 's', '-', 'd', 'e', 'l', 't', 'a'],
            ObjectType::RefDelta => vec!['r', 'e', 'f', '-', 'd', 'e', 'l', 't', 'a'],
        }
    }

    /// Try to get the object type from the characters of its name.
    pub fn from_name_chars(name: &[char]) -> (t: Result<ObjectType, ObjectTypeError>)
        ensures
            match object_type_of_name(name@) {
                Some(ty) => t == Ok::<ObjectType, ObjectTypeError>(ty),
                None => t == Err::<ObjectType, ObjectTypeError>(ObjectTypeError::UnsupportedObjectType),
            },
    {
        let types = [ObjectType::Commit, ObjectType::Tree, ObjectType::Blob, ObjectType::Tag];
        let mut i: usize = 0;
        while i < 4
            invariant
                0 <= i <= 4,
                types@ == seq![ObjectType::Commit, ObjectType::Tree, ObjectType::Blob, ObjectType::Tag],
                forall|k: int| 0 <= k < i ==> name@ != object_type_name(#[trigger] types@[k]),
            decreases 4 - i,
        {
            let candidate = types[i];
            let candidate_name = candidate.name_chars();
            if crate::text::chars_equal(name, candidate_name.as_slice()) {
                return Ok(candidate);
            }
            i = i + 1;
        }
        Err(ObjectTypeError::UnsupportedObjectType)
    }
}

/// Law: the code of every object type gives that type back.
pub proof fn law_type_code_roundtrip(t: ObjectType)
    ensures
        type_of_code(type_code(t)) == Some(t),
{
}

/// Law: the name of every type of a loose object gives that type back.
pub proof fn law_type_name_roundtrip(t: ObjectType)
    requires
        t != ObjectType::OfsDelta && t != ObjectType::RefDelta,
    ensures
        object_type_of_name(object_type_name(t)) == Some(t),
{
}

/// Law: the packfile codes are git's: 1 for a commit, 2 for a tree, 3
/// for a blob, 4 for a tag, 6 for an offset delta and 7 for a reference
/// delta; a code names a type exactly when it is that type's code, and 0 and
/// 5 name none.
pub proof fn law_type_codes_are_gits(t: ObjectType, code: u8)
    ensures
        type_code(ObjectType::Commit) == 1,
        type_code(ObjectType::Tree) == 2,
        type_code(ObjectType::Blob) == 3,
        type_code(ObjectType::Tag) == 4,
        type_code(ObjectType::OfsDelta) == 6,
        type_code(ObjectType::RefDelta) == 7,
        type_of_code(code) == Some(t) <==> type_code(t) == code,
        type_of_code(code) is None <==> (code == 0 || code == 5 || code > 7),
{
}

/// Law: the names of the types are git's: `commit`, `tree`, `blob`, `tag`,
/// `ofs-delta` and `ref-delta`; a name gives a type exactly when it is the
/// name of one of the four types that loose objects have.
pub proof fn law_type_names_are_gits(t: ObjectType, name: Seq<char>)
    ensures
        object_type_name(ObjectType::Commit) == "commit"@,
        object_type_name(ObjectType::Tree) == "tree"@,
        object_type_name(ObjectType::Blob) == "blob"@,
        object_type_name(ObjectType::Tag) == "tag"@,
        object_type_name(ObjectType::OfsDelta) == "ofs-delta"@,
        object_type_name(ObjectType::RefDelta) == "ref-delta"@,
        object_type_of_name(name) == Some(t) <==> (t != ObjectType::OfsDelta && t != ObjectType::RefDelta
            && object_type_name(t) == name),
{
    reveal_strlit("commit");
    reveal_strlit("tree");
    reveal_strlit("blob");
    reveal_strlit("tag");
    reveal_strlit("ofs-delta");
    reveal_strlit("ref-delta");
}

} // verus!
