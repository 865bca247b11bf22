//! Git objects: their hashes, where they are stored, and the compressed
//! data that is stored.
use vstd::prelude::*;
use crate::codec::{decimal, hex_lower, sha1, sha1_digest, to_decimal, to_hex, zlib_compress, zlib_deflate, zlib_inflate};
use crate::text::{string_from_chars, string_to_bytes};
use vstd::utf8::encode_utf8;

verus! {

/// The hexadecimal SHA-1 hash of `data`.
pub open spec fn hash_hex(data: Seq<u8>) -> Seq<char> {
    hex_lower(sha1_digest(data))
}

/// The data of an object as git hashes and stores it: the type, a space,
/// the size of the content in decimal, a zero byte, then the content.
pub open spec fn object_bytes(file_type: Seq<char>, content: Seq<u8>) -> Seq<u8> {
    encode_utf8(file_type) + seq![32u8] + encode_utf8(decimal(content.len())) + seq![0u8] + content
}

/// Where an object with the hash `hash` is stored under `git_dir`: the
/// directory named by its first two characters and the file named by the
/// rest.
pub open spec fn object_dir(git_dir: Seq<char>, hash: Seq<char>) -> Seq<char> {
    git_dir + "/objects/"@ + hash.take(2) + "/"@
}

/// The file of an object with the hash `hash` under `git_dir`.
pub open spec fn object_file(git_dir: Seq<char>, hash: Seq<char>) -> Seq<char> {
    object_dir(git_dir, hash) + hash.skip(2)
}

/// The message that logs a `git hash-object`.
pub fn log_hash_object(path: &str, git_dir_path: &str, time: &str) -> (message: String)
    ensures
        message@ == "Command 'git hash-object': Path '"@ + path@ + "', Git Directory '"@ + git_dir_path@ + "', "@
            + time@,
{
    let mut message = String::new();
    message.append("Command 'git hash-object': Path '");
    message.append(path);
    message.append("', Git Directory '");
    message.append(git_dir_path);
    message.append("', ");
    message.append(time);
    message
}

/// Returns the sha1 hash of the given content, in hexadecimal. It does not
/// add any type information to the content.
pub fn hash_string(content: &str) -> (hash: String)
    ensures
        hash@ == hash_hex(encode_utf8(content@)),
{
    let bytes = string_to_bytes(content);
    hash_byte_array(&bytes)
}

/// Hashes a byte array using SHA-1 and returns the hash in hexadecimal.
pub fn hash_byte_array(array: &Vec<u8>) -> (hash: String)
    ensures
        hash@ == hash_hex(array@),
        hash@.len() == 40,
{
    let digest = sha1(array.as_slice());
    let hex = to_hex(digest.as_slice());
    string_from_chars(hex.as_slice())
}

/// The object data of `content` with the type `file_type`.
pub fn object_data(file_type: &str, content: &[u8]) -> (data: Vec<u8>)
    ensures
        data@ == object_bytes(file_type@, content@),
{
    let mut data = string_to_bytes(file_type);
    data.push(32u8);
    let size = string_from_chars(to_decimal(content.len()).as_slice());
    let mut size_bytes = string_to_bytes(size.as_str());
    data.append(&mut size_bytes);
    data.push(0u8);
    let mut rest = vstd::slice::slice_to_vec(content);
    data.append(&mut rest);
    data
}

/// Returns the sha1 hash of the given file content with the type
/// information added as a header: `<type> <size>\0`.
pub fn hash_file_content(content: &str, file_type: &str) -> (hash: String)
    ensures
        hash@ == hash_hex(object_bytes(file_type@, encode_utf8(content@))),
        hash@.len() == 40,
{
    let bytes = string_to_bytes(content);
    let data = object_data(file_type, bytes.as_slice());
    hash_byte_array(&data)
}

/// The directory and the file where the object with the hash `hash` is
/// stored.
fn object_location(git_dir_path: &str, hash: &String) -> (loc: (String, String))
    requires
        hash@.len() == 40,
    ensures
        loc.0@ == object_dir(git_dir_path@, hash@),
        loc.1@ == object_file(git_dir_path@, hash@),
{
    let chars = crate::text::chars_of(hash.as_str());
    let mut dir = git_dir_path.to_string();
    dir.append("/objects/");
    dir.append(string_from_chars(vstd::slice::slice_subrange(chars.as_slice(), 0, 2)).as_str());
    dir.append("/");
    assert(chars@.subrange(0, 2) == hash@.take(2));
    let mut file = dir.clone();
    file.append(string_from_chars(vstd::slice::slice_subrange(chars.as_slice(), 2, 40)).as_str());
    assert(chars@.subrange(2, 40) == hash@.skip(2));
    (dir, file)
}

/// Returns the path to the object of a file with the content `content` in
/// the objects folder of `git_dir_path`.
pub fn get_file_object_path(content: &str, git_dir_path: &str) -> (path: String)
    ensures
        path@ == object_file(git_dir_path@, hash_hex(object_bytes("blob"@, encode_utf8(content@)))),
{
    let hash = hash_file_content(content, "blob");
    let (_, file) = object_location(git_dir_path, &hash);
    file
}

/// An object ready to be stored: its hash, the directory and the file it
/// goes to, and its compressed data.
pub struct StoredObject {
    pub hash: String,
    pub dir: String,
    pub file: String,
    pub data: Vec<u8>,
}

/// How the object data `data` is stored under `git_dir`: its compressed
/// form inflates back to it.
pub open spec fn stored(obj: StoredObject, git_dir: Seq<char>, data: Seq<u8>) -> bool {
    &&& obj.hash@ == hash_hex(data)
    &&& obj.dir@ == object_dir(git_dir, obj.hash@)
    &&& obj.file@ == object_file(git_dir, obj.hash@)
    &&& obj.data@ == zlib_deflate(data)
    &&& zlib_inflate(obj.data@) == Some((data, obj.data@.len()))
}

/// Prepares the object data `data` to be stored.
fn store_data(data: &Vec<u8>, git_dir_path: &str) -> (obj: StoredObject)
    ensures
        stored(obj, git_dir_path@, data@),
{
    let hash = hash_byte_array(data);
    let (dir, file) = object_location(git_dir_path, &hash);
    let compressed = zlib_compress(data.as_slice());
    assert(compressed@ + Seq::<u8>::empty() == compressed@);
    StoredObject { hash, dir, file, data: compressed }
}

/// Prepares a file with the content `content` to be stored as a blob in
/// the objects folder of `git_dir_path`; its hash names it.
pub fn store_file(content: &str, git_dir_path: &str) -> (obj: StoredObject)
    ensures
        stored(obj, git_dir_path@, object_bytes("blob"@, encode_utf8(content@))),
{
    let bytes = string_to_bytes(content);
    let data = object_data("blob", bytes.as_slice());
    store_data(&data, git_dir_path)
}

/// Prepares the content `content` to be stored as an object of the type
/// `file_type`.
pub fn store_string_to_file(content: &str, git_dir_path: &str, file_type: &str) -> (obj: StoredObject)
    ensures
        stored(obj, git_dir_path@, object_bytes(file_type@, encode_utf8(content@))),
{
    let bytes = string_to_bytes(content);
    let data = object_data(file_type, bytes.as_slice());
    store_data(&data, git_dir_path)
}

/// Prepares the bytes `content` to be stored as an object of the type
/// `file_type`.
pub fn store_bytes_array_to_file(content: Vec<u8>, git_dir_path: &str, file_type: &str) -> (obj: StoredObject)
    ensures
        stored(obj, git_dir_path@, object_bytes(file_type@, content@)),
{
    let data = object_data(file_type, content.as_slice());
    store_data(&data, git_dir_path)
}

} // verus!

verus! {

/// An entry of a tree as a mathematical value: its mode, its name and the
/// hash of the object it names.
pub type TreeEntryView = (Seq<char>, Seq<char>, Seq<u8>);

/// The entries of a tree as mathematical values.
pub open spec fn tree_views(entries: Seq<(String, String, Vec<u8>)>) -> Seq<TreeEntryView> {
    entries.map_values(|e: (String, String, Vec<u8>)| (e.0@, e.1@, e.2@))
}

/// `a` comes before `b`, or is `b`, in the order of their characters.
pub open spec fn name_le(a: Seq<char>, b: Seq<char>) -> bool
    decreases a.len(),
{
    if a.len() == 0 {
        true
    } else if b.len() == 0 {
        false
    } else if a[0] != b[0] {
        a[0] < b[0]
    } else {
        name_le(a.drop_first(), b.drop_first())
    }
}

/// The sorted entries `s` with `x` put after every entry whose name is not
/// greater than its own.
pub open spec fn sorted_insert(s: Seq<TreeEntryView>, x: TreeEntryView) -> Seq<TreeEntryView>
    decreases s.len(),
{
    if s.len() == 0 {
        seq![x]
    } else if name_le(s.last().1, x.1) {
        s.push(x)
    } else {
        sorted_insert(s.drop_last(), x).push(s.last())
    }
}

/// The entries sorted by name, entries of equal names kept in their order.
pub open spec fn sort_by_name(s: Seq<TreeEntryView>) -> Seq<TreeEntryView>
    decreases s.len(),
{
    if s.len() == 0 {
        seq![]
    } else {
        sorted_insert(sort_by_name(s.drop_last()), s.last())
    }
}

/// The entries of a tree object: for each, its mode, a space, its name, a
/// zero byte, and the hash.
pub open spec fn tree_entries_bytes(es: Seq<TreeEntryView>) -> Seq<u8>
    decreases es.len(),
{
    if es.len() == 0 {
        seq![]
    } else {
        tree_entries_bytes(es.drop_last()) + encode_utf8(es.last().0) + seq![32u8] + encode_utf8(es.last().1)
            + seq![0u8] + es.last().2
    }
}

/// The data of the tree of the blobs `blobs` and the trees `trees`: all
/// their entries, sorted by name.
pub open spec fn tree_data(blobs: Seq<TreeEntryView>, trees: Seq<TreeEntryView>) -> Seq<u8> {
    object_bytes("tree"@, tree_entries_bytes(sort_by_name(blobs + trees)))
}

/// Tells whether `a` does not come after `b`.
fn chars_le(a: &[char], b: &[char]) -> (le: bool)
    ensures
        le == name_le(a@, b@),
{
    let mut i: usize = 0;
    let alen = a.len();
    let blen = b.len();
    assert(a@.skip(0) == a@);
    assert(b@.skip(0) == b@);
    while i < alen && i < blen && a[i] == b[i]
        invariant
            alen == a@.len(),
            blen == b@.len(),
            i <= alen,
            i <= blen,
            name_le(a@, b@) == name_le(a@.skip(i as int), b@.skip(i as int)),
        decreases alen - i,
    {
        assert(a@.skip(i as int).drop_first() == a@.skip(i + 1));
        assert(b@.skip(i as int).drop_first() == b@.skip(i + 1));
        i = i + 1;
    }
    if i == alen {
        true
    } else if i == blen {
        false
    } else {
        a[i] < b[i]
    }
}

fn copy_entry(e: &(String, String, Vec<u8>)) -> (c: (String, String, Vec<u8>))
    ensures
        (c.0@, c.1@, c.2@) == (e.0@, e.1@, e.2@),
{
    (e.0.clone(), e.1.clone(), vstd::slice::slice_to_vec(e.2.as_slice()))
}

/// The entries sorted by name, entries of equal names kept in their order.
fn sort_entries(entries: &Vec<(String, String, Vec<u8>)>) -> (sorted: Vec<(String, String, Vec<u8>)>)
    ensures
        tree_views(sorted@) == sort_by_name(tree_views(entries@)),
{
    let ghost ev = tree_views(entries@);
    let mut sorted: Vec<(String, String, Vec<u8>)> = Vec::new();
    let mut i: usize = 0;
    while i < entries.len()
        invariant
            i <= entries@.len(),
            ev == tree_views(entries@),
            tree_views(sorted@) == sort_by_name(ev.take(i as int)),
        decreases entries@.len() - i,
    {
        let x = copy_entry(&entries[i]);
        let ghost xv = (x.0@, x.1@, x.2@);
        assert(xv == ev[i as int]);
        assert(ev.take(i + 1).drop_last() == ev.take(i as int));
        let ghost s = tree_views(sorted@);
        let xname = crate::text::chars_of(x.1.as_str());
        let mut j: usize = sorted.len();
        assert(s.take(j as int) == s);
        assert(s.skip(j as int) == Seq::<TreeEntryView>::empty());
        while j > 0 && !chars_le(crate::text::chars_of(sorted[j - 1].1.as_str()).as_slice(), xname.as_slice())
            invariant
                j <= sorted@.len(),
                s == tree_views(sorted@),
                xname@ == xv.1,
                sorted_insert(s, xv) == sorted_insert(s.take(j as int), xv) + s.skip(j as int),
            decreases j,
        {
            assert(s.take(j as int).last() == s[j - 1]);
            assert(s.take(j as int).drop_last() == s.take(j - 1));
            assert(s.skip(j - 1) == seq![s[j - 1]] + s.skip(j as int));
            j = j - 1;
        }
        proof {
            if j > 0 {
                assert(s.take(j as int).last() == s[j - 1]);
            }
        }
        sorted.insert(j, x);
        assert(tree_views(sorted@) =~= s.take(j as int).push(xv) + s.skip(j as int));
        i = i + 1;
    }
    assert(ev.take(entries@.len() as int) == ev);
    sorted
}

/// The entries of a tree object for the sorted entries.
fn entries_bytes(sorted: &Vec<(String, String, Vec<u8>)>) -> (bytes: Vec<u8>)
    ensures
        bytes@ == tree_entries_bytes(tree_views(sorted@)),
{
    let ghost sv = tree_views(sorted@);
    let mut bytes: Vec<u8> = Vec::new();
    let mut i: usize = 0;
    while i < sorted.len()
        invariant
            i <= sorted@.len(),
            sv == tree_views(sorted@),
            bytes@ == tree_entries_bytes(sv.take(i as int)),
        decreases sorted@.len() - i,
    {
        let e = &sorted[i];
        assert(sv.take(i + 1).drop_last() == sv.take(i as int));
        assert(sv.take(i + 1).last() == (e.0@, e.1@, e.2@));
        let mut mode = string_to_bytes(e.0.as_str());
        bytes.append(&mut mode);
        bytes.push(32u8);
        let mut name = string_to_bytes(e.1.as_str());
        bytes.append(&mut name);
        bytes.push(0u8);
        let mut hash = vstd::slice::slice_to_vec(e.2.as_slice());
        bytes.append(&mut hash);
        i = i + 1;
    }
    assert(sv.take(sorted@.len() as int) == sv);
    bytes
}

/// The data of the tree of the blobs `blobs` and the trees `trees`.
fn tree_object(blobs: Vec<(String, String, Vec<u8>)>, trees: Vec<(String, String, Vec<u8>)>) -> (data: Vec<u8>)
    ensures
        data@ == tree_data(tree_views(blobs@), tree_views(trees@)),
{
    let mut all = blobs;
    let mut more = trees;
    let ghost bv = tree_views(all@);
    let ghost tv = tree_views(more@);
    all.append(&mut more);
    assert(tree_views(all@) =~= bv + tv);
    let sorted = sort_entries(&all);
    let entries = entries_bytes(&sorted);
    object_data("tree", entries.as_slice())
}

/// The hash of the tree of the blobs `blobs` and the trees `trees`, each
/// entry given by its mode, its name and the hash of its object.
pub fn get_tree_hash(blobs: Vec<(String, String, Vec<u8>)>, trees: Vec<(String, String, Vec<u8>)>) -> (hash: String)
    ensures
        hash@ == hash_hex(tree_data(tree_views(blobs@), tree_views(trees@))),
{
    let data = tree_object(blobs, trees);
    hash_byte_array(&data)
}

/// Prepares the tree of the blobs `blobs` and the trees `trees` to be
/// stored in the objects folder of `git_dir_path`.
pub fn store_tree_to_file(blobs: Vec<(String, String, Vec<u8>)>, trees: Vec<(String, String, Vec<u8>)>, git_dir_path: &str) -> (obj: StoredObject)
    ensures
        stored(obj, git_dir_path@, tree_data(tree_views(blobs@), tree_views(trees@))),
{
    let data = tree_object(blobs, trees);
    store_data(&data, git_dir_path)
}

/// `a` and `b` agree before position `k`, and there `a` has the smaller
/// character.
pub open spec fn precedes_at(a: Seq<char>, b: Seq<char>, k: int) -> bool {
    &&& 0 <= k < a.len()
    &&& k < b.len()
    &&& a.take(k) == b.take(k)
    &&& a[k] < b[k]
}

/// `a` is the start of `b`.
pub open spec fn is_prefix(a: Seq<char>, b: Seq<char>) -> bool {
    a.len() <= b.len() && b.take(a.len() as int) == a
}

/// Law: names are ordered lexicographically by their characters: `a` comes
/// before `b`, or is `b`, exactly when `a` is a start of `b` (itself
/// included), or at the first position where they differ `a` has the
/// smaller character.
pub proof fn law_name_order_is_lexicographic(a: Seq<char>, b: Seq<char>)
    ensures
        name_le(a, b) <==> (is_prefix(a, b) || exists|k: int| precedes_at(a, b, k)),
    decreases a.len(),
{
    if a.len() == 0 {
        assert(b.take(0) == a);
    } else if b.len() == 0 {
        assert forall|k: int| !precedes_at(a, b, k) by {}
    } else if a[0] != b[0] {
        if a[0] < b[0] {
            assert(a.take(0) == b.take(0));
            assert(precedes_at(a, b, 0));
        } else {
            assert forall|k: int| !precedes_at(a, b, k) by {
                if 0 < k < a.len() && k < b.len() && a.take(k) == b.take(k) {
                    assert(a.take(k)[0] == a[0]);
                    assert(b.take(k)[0] == b[0]);
                }
            }
        }
        if is_prefix(a, b) {
            assert(b.take(a.len() as int)[0] == b[0]);
        }
    } else {
        let a1 = a.drop_first();
        let b1 = b.drop_first();
        law_name_order_is_lexicographic(a1, b1);
        if is_prefix(a1, b1) {
            assert(b.take(a.len() as int) =~= seq![b[0]] + b1.take(a1.len() as int));
            assert(a =~= seq![a[0]] + a1);
        }
        if is_prefix(a, b) {
            assert(b1.take(a1.len() as int) =~= b.take(a.len() as int).drop_first());
        }
        if exists|k: int| precedes_at(a1, b1, k) {
            let k = choose|k: int| precedes_at(a1, b1, k);
            assert(a.take(k + 1) =~= seq![a[0]] + a1.take(k));
            assert(b.take(k + 1) =~= seq![b[0]] + b1.take(k));
            assert(precedes_at(a, b, k + 1));
        }
        if exists|k: int| precedes_at(a, b, k) {
            let k = choose|k: int| precedes_at(a, b, k);
            assert(k != 0);
            assert(a1.take(k - 1) =~= a.take(k).drop_first());
            assert(b1.take(k - 1) =~= b.take(k).drop_first());
            assert(precedes_at(a1, b1, k - 1));
        }
    }
}

/// Of two names, one comes before the other, or they are equal.
pub proof fn lemma_name_le_total(a: Seq<char>, b: Seq<char>)
    ensures
        name_le(a, b) || name_le(b, a),
    decreases a.len(),
{
    if a.len() > 0 && b.len() > 0 && a[0] == b[0] {
        lemma_name_le_total(a.drop_first(), b.drop_first());
    }
}

/// The order of names is transitive.
pub proof fn lemma_name_le_transitive(a: Seq<char>, b: Seq<char>, c: Seq<char>)
    requires
        name_le(a, b),
        name_le(b, c),
    ensures
        name_le(a, c),
    decreases a.len(),
{
    if a.len() > 0 && b.len() > 0 && c.len() > 0 && a[0] == b[0] && b[0] == c[0] {
        lemma_name_le_transitive(a.drop_first(), b.drop_first(), c.drop_first());
    }
}

/// The entries are in order of their names.
pub open spec fn sorted_by_name(s: Seq<TreeEntryView>) -> bool {
    forall|i: int, j: int| 0 <= i < j < s.len() ==> name_le(#[trigger] s[i].1, #[trigger] s[j].1)
}

proof fn lemma_sorted_insert(s: Seq<TreeEntryView>, x: TreeEntryView)
    requires
        sorted_by_name(s),
    ensures
        sorted_by_name(sorted_insert(s, x)),
        sorted_insert(s, x).to_multiset() == s.to_multiset().insert(x),
    decreases s.len(),
{
    broadcast use vstd::seq_lib::group_to_multiset_ensures;

    if s.len() == 0 {
        assert(seq![x] =~= Seq::<TreeEntryView>::empty().push(x));
    } else if name_le(s.last().1, x.1) {
        let r = s.push(x);
        assert forall|i: int, j: int| 0 <= i < j < r.len() implies name_le(#[trigger] r[i].1, #[trigger] r[j].1) by {
            if j == s.len() {
                if i < s.len() - 1 {
                    lemma_name_le_transitive(s[i].1, s[s.len() - 1].1, x.1);
                }
            } else {
                assert(r[i] == s[i] && r[j] == s[j]);
            }
        }
    } else {
        let d = s.drop_last();
        let l = s.last();
        assert forall|i: int, j: int| 0 <= i < j < d.len() implies name_le(#[trigger] d[i].1, #[trigger] d[j].1) by {
            assert(d[i] == s[i] && d[j] == s[j]);
        }
        lemma_sorted_insert(d, x);
        let r1 = sorted_insert(d, x);
        let r = r1.push(l);
        lemma_name_le_total(l.1, x.1);
        assert(s == d.push(l));
        assert forall|i: int, j: int| 0 <= i < j < r.len() implies name_le(#[trigger] r[i].1, #[trigger] r[j].1) by {
            if j == r1.len() {
                let e = r1[i];
                assert(r1.to_multiset().count(e) > 0);
                assert(r1.contains(e));
                if e != x {
                    assert(d.to_multiset().count(e) > 0);
                    assert(d.contains(e));
                    let k = choose|k: int| 0 <= k < d.len() && d[k] == e;
                    assert(s[k] == e);
                    assert(s[s.len() - 1] == l);
                }
            } else {
                assert(r[i] == r1[i] && r[j] == r1[j]);
            }
        }
    }
}

/// Law: sorting tree entries by name gives them in order of their names,
/// and gives each entry as many times as it was given.
pub proof fn law_sort_by_name_sorts(s: Seq<TreeEntryView>)
    ensures
        sorted_by_name(sort_by_name(s)),
        sort_by_name(s).to_multiset() == s.to_multiset(),
    decreases s.len(),
{
    broadcast use vstd::seq_lib::group_to_multiset_ensures;

    if s.len() > 0 {
        law_sort_by_name_sorts(s.drop_last());
        lemma_sorted_insert(sort_by_name(s.drop_last()), s.last());
        assert(s == s.drop_last().push(s.last()));
    }
}

/// Law: the data of a tree lists all its entries, blobs and trees together,
/// in order of their names: the entries it writes are sorted by name and
/// are the given ones, each as many times as it was given.
pub proof fn law_tree_lists_entries_by_name(blobs: Seq<TreeEntryView>, trees: Seq<TreeEntryView>)
    ensures
        exists|written: Seq<TreeEntryView>|
            #![trigger tree_entries_bytes(written)]
            {
                &&& tree_data(blobs, trees) == object_bytes("tree"@, tree_entries_bytes(written))
                &&& sorted_by_name(written)
                &&& written.to_multiset() == (blobs + trees).to_multiset()
            },
{
    law_sort_by_name_sorts(blobs + trees);
    let written = sort_by_name(blobs + trees);
    assert(tree_data(blobs, trees) == object_bytes("tree"@, tree_entries_bytes(written)));
}

} // verus!
