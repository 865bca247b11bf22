//! Compression and hashing, done by the outside crates `flate2` and `sha1`,
//! and the hexadecimal and decimal forms that git writes numbers in.
use vstd::prelude::*;
use sha1::Digest;
use std::io::Read;
use std::io::Write;

verus! {

/// What inflating a zlib stream at the start of `data` gives: the
/// decompressed bytes and the number of bytes of `data` that the stream
/// took; `None` when `data` does not start with a complete zlib stream.
pub uninterp spec fn zlib_inflate(data: Seq<u8>) -> Option<(Seq<u8>, nat)>;

/// The zlib stream that compressing `data` at the default level gives.
pub uninterp spec fn zlib_deflate(data: Seq<u8>) -> Seq<u8>;

/// The SHA-1 digest of `data`.
pub uninterp spec fn sha1_digest(data: Seq<u8>) -> Seq<u8>;

/// Decompresses the zlib stream at the start of `data`.
///
/// Reads through `flate2::bufread::ZlibDecoder` to the end of the stream and
/// takes `total_in` as the number of input bytes that the stream used. The
/// contract names the result `zlib_inflate` of the input and claims that no
/// more input is used than given.
#[verifier::external_body]
pub(crate) fn zlib_decompress(data: &[u8]) -> (result: Option<(Vec<u8>, usize)>)
    ensures
        match result {
            Some((out, used)) => zlib_inflate(data@) == Some((out@, used as nat)) && used <= data@.len(),
            None => zlib_inflate(data@) is None,
        },
{
    let mut decoder = flate2::bufread::ZlibDecoder::new(data);
    let mut out = Vec::new();
    match decoder.read_to_end(&mut out) {
        Ok(_) => Some((out, decoder.total_in() as usize)),
        Err(_) => None,
    }
}

/// Inflating what deflating `data` gives, followed by any other bytes,
/// gives `data` back and takes exactly the compressed bytes.
pub open spec fn inflates_back(data: Seq<u8>) -> bool {
    forall|rest: Seq<u8>| #[trigger] zlib_inflate(zlib_deflate(data) + rest) == Some((data, zlib_deflate(data).len()))
}

/// Compresses `data` into a zlib stream at the default level.
///
/// Writes through `flate2::write::ZlibEncoder` with
/// `flate2::Compression::default()` into a vector. The contract names the
/// result `zlib_deflate` of the input; writing into a vector does not fail.
/// It also claims that a zlib stream ends itself: decompressing the result
/// followed by any other bytes gives `data` back and takes exactly the
/// bytes of the result, as `flate2`'s own tests of its zlib decoder check
/// (`total_in` and `decode_extra_data`).
#[verifier::external_body]
pub(crate) fn zlib_compress(data: &[u8]) -> (compressed: Vec<u8>)
    ensures
        compressed@ == zlib_deflate(data@),
        forall|rest: Seq<u8>| #[trigger] zlib_inflate(compressed@ + rest) == Some((data@, compressed@.len())),
{
    let mut encoder = flate2::write::ZlibEncoder::new(Vec::new(), flate2::Compression::default());
    encoder.write_all(data).unwrap();
    encoder.finish().unwrap()
}

/// The SHA-1 digest of `data`.
///
/// Calls `sha1::Sha1` (`new`, `update`, `finalize`). The contract names the
/// result `sha1_digest` of the input and states that a SHA-1 digest has
/// twenty bytes.
#[verifier::external_body]
pub(crate) fn sha1(data: &[u8]) -> (digest: Vec<u8>)
    ensures
        digest@ == sha1_digest(data@),
        digest@.len() == 20,
{
    let mut hasher = sha1::Sha1::new();
    hasher.update(data);
    hasher.finalize().to_vec()
}

/// The lower case hexadecimal digit of `v`.
pub open spec fn hex_digit(v: nat) -> char {
    if v < 10 {
        ('0' as nat + v) as char
    } else {
        ('a' as nat + v - 10) as char
    }
}

/// The lower case hexadecimal form of `bytes`: two digits per byte.
pub open spec fn hex_lower(bytes: Seq<u8>) -> Seq<char>
    decreases bytes.len(),
{
    if bytes.len() == 0 {
        seq![]
    } else {
        hex_lower(bytes.drop_last()) + seq![hex_digit((bytes.last() / 16) as nat), hex_digit((bytes.last() % 16) as nat)]
    }
}

fn hex_digit_exec(v: u8) -> (c: char)
    requires
        v < 16,
    ensures
        c == hex_digit(v as nat),
{
    if v < 10 {
        ((48u8 + v) as char)
    } else {
        ((87u8 + v) as char)
    }
}

/// The lower case hexadecimal form of `bytes`.
pub fn to_hex(bytes: &[u8]) -> (hex: Vec<char>)
    ensures
        hex@ == hex_lower(bytes@),
        hex@.len() == 2 * bytes@.len(),
{
    let mut hex: Vec<char> = Vec::new();
    let mut i: usize = 0;
    while i < bytes.len()
        invariant
            i <= bytes@.len(),
            hex@ == hex_lower(bytes@.take(i as int)),
            hex@.len() == 2 * i,
        decreases bytes@.len() - i,
    {
        let b = bytes[i];
        assert(bytes@.take(i + 1).drop_last() == bytes@.take(i as int));
        hex.push(hex_digit_exec(b / 16));
        hex.push(hex_digit_exec(b % 16));
        i = i + 1;
    }
    assert(bytes@.take(bytes@.len() as int) == bytes@);
    hex
}

/// The decimal digit of `v`.
pub open spec fn decimal_digit(v: nat) -> char {
    ('0' as nat + v) as char
}

/// The decimal form of `n`, without leading zeros.
pub open spec fn decimal(n: nat) -> Seq<char>
    decreases n,
{
    if n < 10 {
        seq![decimal_digit(n)]
    } else {
        decimal(n / 10) + seq![decimal_digit(n % 10)]
    }
}

/// The decimal form of `n`.
pub fn to_decimal(n: usize) -> (digits: Vec<char>)
    ensures
        digits@ == decimal(n as nat),
{
    let mut reversed: Vec<char> = Vec::new();
    let mut m = n;
    loop
        invariant
            m <= n,
            decimal(n as nat) == decimal(m as nat) + reversed@.reverse(),
        decreases m,
    {
        let d = (m % 10) as u8;
        let c = (48u8 + d) as char;
        let ghost before = reversed@;
        reversed.push(c);
        assert(reversed@.reverse() == seq![c] + before.reverse());
        if m < 10 {
            assert(decimal(m as nat) == seq![c]);
            assert(decimal(n as nat) == Seq::<char>::empty() + reversed@.reverse());
            let mut digits: Vec<char> = Vec::new();
            let len = reversed.len();
            let mut i: usize = len;
            while i > 0
                invariant
                    i <= len,
                    len == reversed@.len(),
                    digits@ == reversed@.subrange(i as int, len as int).reverse(),
                decreases i,
            {
                i = i - 1;
                digits.push(reversed[i]);
                assert(reversed@.subrange(i as int, len as int).reverse()
                    =~= reversed@.subrange(i + 1, len as int).reverse().push(reversed@[i as int]));
            }
            assert(reversed@.subrange(0, len as int) == reversed@);
            assert(Seq::<char>::empty() + reversed@.reverse() == reversed@.reverse());
            return digits;
        }
        assert(decimal(m as nat) == decimal((m / 10) as nat) + seq![c]);
        m = m / 10;
    }
}

} // verus!

verus! {

/// How a JSON string writes the character `c`: the quote and the
/// backslash after a backslash, the control characters that have a short
/// escape as that escape, the other control characters below 0x20 as
/// `\u00` and two lowercase hexadecimal digits, and every other character
/// as it is.
pub open spec fn json_char(c: char) -> Seq<char> {
    if c == '"' {
        seq!['\\', '"']
    } else if c == '\\' {
        seq!['\\', '\\']
    } else if c == '\u{8}' {
        seq!['\\', 'b']
    } else if c == '\t' {
        seq!['\\', 't']
    } else if c == '\n' {
        seq!['\\', 'n']
    } else if c == '\u{c}' {
        seq!['\\', 'f']
    } else if c == '\r' {
        seq!['\\', 'r']
    } else if (c as u32) < 0x20 {
        seq!['\\', 'u', '0', '0', hex_digit((c as u32 / 16) as nat), hex_digit((c as u32 % 16) as nat)]
    } else {
        seq![c]
    }
}

/// The characters of `s`, each written as a JSON string writes it.
pub open spec fn json_escaped(s: Seq<char>) -> Seq<char>
    decreases s.len(),
{
    if s.len() == 0 {
        seq![]
    } else {
        json_escaped(s.drop_last()) + json_char(s.last())
    }
}

/// The JSON string literal of `s`: its escaped characters between quotes.
pub open spec fn json_quoted(s: Seq<char>) -> Seq<char> {
    seq!['"'] + json_escaped(s) + seq!['"']
}

/// The JSON string literal of `s`.
///
/// Calls `serde_json::to_string` on the string, which writes it between
/// quotes with the escapes of `json_char` (serde_json's escape table and its
/// compact formatter); serialising a string does not fail.
#[verifier::external_body]
pub(crate) fn json_string(s: &str) -> (quoted: String)
    ensures
        quoted@ == json_quoted(s@),
{
    serde_json::to_string(s).unwrap()
}

} // verus!
