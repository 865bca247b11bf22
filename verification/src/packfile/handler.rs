//! Packfiles: reading the objects of a packfile, deltas included, and
//! writing a packfile from objects.
use vstd::prelude::*;
use crate::codec::{inflates_back, sha1, sha1_digest, to_hex, zlib_compress, zlib_decompress, zlib_deflate, zlib_inflate};
use crate::packfile::delta_utils::{
    apply_ops, size_value_wide, delta_commands_from_objects, delta_ops, encode_offset, encode_size,
    lemma_pow2_mono, lemma_size_value_bound, lemma_varint_len, offset_encoding, offset_read, ops_encoding,
    ops_in_bounds, ops_of, parse_ops, read_delta_commands, read_offset_encoding, read_size_encoding,
    recreate_from_commands, size_encoding, size_read, size_value, varint_len, Command, DeltaError, DeltaOp,
    bytes_equal, find_line, lines_of, split_lines, split_lines_inclusive,
};
use crate::packfile::entry::{EntryValue, PackfileEntry};
use crate::packfile::roundtrip::{
    lemma_packfile_start, lemma_packfile_steps, payloads_inflate, prefix_upto, readable_entries, record_start,
};
use crate::packfile::error::PackError;
use crate::packfile::object_type::{ObjectType, type_code, type_of_code};
use crate::codec::hex_lower;
use crate::text::{string_from_chars, utf8_to_string};

verus! {

/// The bytes that follow the first byte of an object header: seven bits of
/// the size per byte, the high bit set on every byte but the last. `c` is
/// the byte still to be written and `rest` the size bits still to follow.
pub open spec fn header_groups(c: nat, rest: nat) -> Seq<u8>
    decreases rest,
{
    if rest == 0 {
        seq![c as u8]
    } else {
        seq![(c + 128) as u8] + header_groups(rest % 128, rest / 128)
    }
}

/// The header of an object in a packfile: the type code in bits 4 to 6 of
/// the first byte with the four low bits of the size, then the rest of the
/// size seven bits at a time.
pub open spec fn object_header_bytes(code: u8, size: nat) -> Seq<u8> {
    header_groups(code as nat * 16 + size % 16, size / 16)
}

/// Creates the header for a packfile object.
pub fn object_header(obj_type: ObjectType, obj_size: usize) -> (header: Vec<u8>)
    ensures
        header@ == object_header_bytes(type_code(obj_type), obj_size as nat),
{
    let mut encoded_header: Vec<u8> = Vec::new();
    let code = obj_type.as_byte();
    let low = (obj_size & 0x0F) as u8;
    assert(obj_size & 0x0F == obj_size % 16) by (bit_vector);
    assert((code << 4) | low == code * 16 + low) by (bit_vector)
        requires code <= 7, low < 16;
    let mut c: u8 = (code << 4) | low;
    assert(obj_size >> 4 == obj_size / 16) by (bit_vector);
    let mut size = obj_size >> 4;
    while size > 0
        invariant
            c < 128,
            encoded_header@ + header_groups(c as nat, size as nat) == object_header_bytes(code, obj_size as nat),
        decreases size,
    {
        let ghost before = encoded_header@;
        assert(c | 0x80 == c + 128) by (bit_vector)
            requires c < 128;
        encoded_header.push(c | 0x80);
        assert(size as u8 & 0x7F == size % 128) by (bit_vector);
        assert(size >> 7 == size / 128) by (bit_vector);
        assert(header_groups(c as nat, size as nat) == seq![(c + 128) as u8] + header_groups(
            (size % 128) as nat,
            (size / 128) as nat,
        ));
        assert(encoded_header@ + header_groups((size % 128) as nat, (size / 128) as nat) == before
            + header_groups(c as nat, size as nat));
        c = size as u8 & 0x7F;
        size = size >> 7;
    }
    encoded_header.push(c);
    encoded_header
}

/// What reading an object header at `pos` of `d` gives: the type, the size
/// and the position after the header. A size whose bits go past the width
/// of `usize` is refused.
pub open spec fn header_read(d: Seq<u8>, pos: nat) -> Result<(ObjectType, nat, nat), PackError> {
    if pos >= d.len() {
        Err(PackError::UnexpectedEof)
    } else {
        let b0 = d[pos as int];
        match type_of_code(((b0 / 16) % 8) as u8) {
            None => Err(PackError::UnsupportedObjectType),
            Some(t) => if b0 < 128 {
                Ok((t, (b0 % 16) as nat, pos + 1))
            } else {
                match varint_len(d.skip((pos + 1) as int)) {
                    None => Err(PackError::UnexpectedEof),
                    Some(k) => if 4 + 7 * (k - 1) < usize::BITS {
                        Ok((
                            t,
                            ((b0 % 16) as nat + 16 * size_value(d.subrange((pos + 1) as int, (pos + 1 + k) as int)))
                                % (usize::MAX as nat + 1),
                            pos + 1 + k,
                        ))
                    } else {
                        Err(PackError::SizeTooLong)
                    },
                }
            },
        }
    }
}

/// Reads the object type and size of the object header at `pos`.
pub fn read_object_header(data: &[u8], pos: usize) -> (result: Result<(ObjectType, usize, usize), PackError>)
    ensures
        match result {
            Ok((t, size, next)) => header_read(data@, pos as nat) == Ok::<(ObjectType, nat, nat), PackError>((t, size as nat, next as nat)),
            Err(e) => header_read(data@, pos as nat) == Err::<(ObjectType, nat, nat), PackError>(e),
        },
{
    if pos >= data.len() {
        return Err(PackError::UnexpectedEof);
    }
    let b0 = data[pos];
    assert((b0 & 0x70) >> 4 == (b0 / 16) % 8) by (bit_vector);
    let obj_type = match ObjectType::from_byte((b0 & 0x70) >> 4) {
        Ok(t) => t,
        Err(_) => return Err(PackError::UnsupportedObjectType),
    };
    assert(b0 & 0x0F == b0 % 16) by (bit_vector);
    assert(b0 & 0x80 == 0 <==> b0 < 128) by (bit_vector);
    if b0 & 0x80 == 0 {
        return Ok((obj_type, (b0 & 0x0F) as usize, pos + 1));
    }
    let dlen = data.len();
    let more = read_size_encoding(data, pos + 1);
    proof {
        lemma_varint_len(data@.skip(pos + 1));
    }
    match more {
        Err(DeltaError::UnexpectedEof) => {
            assert(varint_len(data@.skip((pos + 1) as int)) is None);
            assert(data@[pos as int] >= 128);
            assert(type_of_code(((data@[pos as int] / 16) % 8) as u8) == Some(obj_type));
            assert(header_read(data@, pos as nat) == Err::<(ObjectType, nat, nat), PackError>(PackError::UnexpectedEof));
            Err(PackError::UnexpectedEof)
        },
        Err(_) => {
            proof {
                let k = varint_len(data@.skip(pos + 1))->Some_0;
                assert((k - 1) * 7 >= usize::BITS);
            }
            Err(PackError::SizeTooLong)
        },
        Ok((_, next)) => {
            let k = next - (pos + 1);
            if k >= 10 || 4 + 7 * (k - 1) >= usize::BITS as usize {
                return Err(PackError::SizeTooLong);
            }
            let bytes = vstd::slice::slice_subrange(data, pos + 1, next);
            let rest = size_value_wide(bytes);
            proof {
                vstd::arithmetic::power2::lemma2_to64();
                vstd::arithmetic::power2::lemma2_to64_rest();
                lemma_pow2_mono(7 * k as nat, 63);
            }
            let value: u128 = (b0 & 0x0F) as u128 + 16 * (rest as u128);
            let size = value as usize;
            assert(usize::BITS == 64 ==> size as u128 == value % 0x1_0000_0000_0000_0000u128) by (bit_vector)
                requires size == value as usize;
            assert(usize::BITS == 32 ==> size as u128 == value % 0x1_0000_0000u128) by (bit_vector)
                requires size == value as usize;
            Ok((obj_type, size, next))
        },
    }
}

pub proof fn lemma_header_groups_read(c: nat, rest: nat)
    requires
        c < 128,
    ensures
        header_groups(c, rest).len() >= 1,
        rest > 0 ==> header_groups(c, rest)[0] == c + 128,
        rest == 0 ==> header_groups(c, rest)[0] == c,
        rest > 0 ==> varint_len(header_groups(c, rest).drop_first()) == Some(
            (header_groups(c, rest).len() - 1) as nat,
        ),
        rest > 0 ==> size_value(header_groups(c, rest).drop_first()) == rest,
        varint_len(header_groups(c, rest)) == Some(header_groups(c, rest).len()),
        size_value(header_groups(c, rest)) == c + 128 * rest,
    decreases rest,
{
    let g = header_groups(c, rest);
    if rest > 0 {
        lemma_header_groups_read(rest % 128, rest / 128);
        assert(g.drop_first() == header_groups(rest % 128, rest / 128));
    } else {
        assert(g.drop_first() =~= seq![]);
        assert(size_value(g.drop_first()) == 0);
    }
}

proof fn lemma_header_groups_len(c: nat, rest: nat, k: nat)
    requires
        c < 128,
        rest < vstd::arithmetic::power2::pow2(7 * k),
    ensures
        header_groups(c, rest).len() <= k + 1,
    decreases rest,
{
    if rest > 0 {
        if k == 0 {
            vstd::arithmetic::power2::lemma2_to64();
            assert(false);
        }
        vstd::arithmetic::power2::lemma_pow2_adds(7, 7 * (k - 1) as nat);
        vstd::arithmetic::power2::lemma2_to64();
        assert(7 * k == 7 + 7 * (k - 1) as nat);
        let p = vstd::arithmetic::power2::pow2(7 * (k - 1) as nat);
        assert(rest / 128 < p) by (nonlinear_arith)
            requires rest < 128 * p;
        lemma_header_groups_len(rest % 128, rest / 128, (k - 1) as nat);
    }
}

proof fn lemma_header_groups_are_size_encoding(d: nat, r: nat)
    requires
        d < 128,
    ensures
        header_groups(d, r) == size_encoding(d + 128 * r),
    decreases r,
{
    let n = d + 128 * r;
    assert(n % 128 == d && n / 128 == r) by (nonlinear_arith)
        requires n == d + 128 * r, d < 128;
    if r > 0 {
        assert(r % 128 < 128);
        assert(r == r % 128 + 128 * (r / 128)) by (nonlinear_arith);
        lemma_header_groups_are_size_encoding(r % 128, r / 128);
    }
}

/// Law: an object header is git's: its first byte has the high bit set
/// exactly when more bytes follow, the type code in bits 4 to 6 and the
/// four low bits of the size in bits 0 to 3; when the size does not fit in
/// four bits, the rest of the size (the size divided by 16) follows in
/// groups of seven bits, low group first.
pub proof fn law_object_header_layout(code: u8, size: nat)
    requires
        code < 8,
    ensures
        object_header_bytes(code, size) == seq![(if size >= 16 { 128nat } else { 0nat } + code as nat * 16 + size % 16) as u8]
            + if size >= 16 {
            size_encoding(size / 16)
        } else {
            Seq::<u8>::empty()
        },
{
    let c = code as nat * 16 + size % 16;
    let r = size / 16;
    assert(r > 0 <==> size >= 16);
    if r > 0 {
        assert(r == r % 128 + 128 * (r / 128)) by (nonlinear_arith);
        lemma_header_groups_are_size_encoding(r % 128, r / 128);
    } else {
        assert(seq![c as u8] + Seq::<u8>::empty() == seq![c as u8]);
    }
}

/// Law: reading the header that `object_header` writes gives back the type
/// and the size, and the position after the header.
pub proof fn law_object_header_roundtrip(t: ObjectType, size: usize, before: Seq<u8>, after: Seq<u8>)
    ensures
        header_read(before + object_header_bytes(type_code(t), size as nat) + after, before.len())
            == Ok::<(ObjectType, nat, nat), PackError>((
            t,
            size as nat,
            before.len() + object_header_bytes(type_code(t), size as nat).len(),
        )),
{
    let h = object_header_bytes(type_code(t), size as nat);
    let d = before + h + after;
    let pos = before.len();
    let c = type_code(t) as nat * 16 + (size as nat) % 16;
    let rest = (size as nat) / 16;
    lemma_header_groups_read(c, rest);
    assert(d[pos as int] == h[0]);
    if rest > 0 {
        assert(h[0] == c + 128);
        assert(((c + 128) as u8 / 16) % 8 == type_code(t)) by (nonlinear_arith)
            requires c == type_code(t) as nat * 16 + (size as nat) % 16, type_code(t) <= 7;
        let tail = h.drop_first();
        assert(d.skip((pos + 1) as int) == tail + after);
        lemma_varint_prefix(tail, after);
        let k = tail.len();
        assert(d.subrange((pos + 1) as int, (pos + 1 + k) as int) == tail);
        vstd::arithmetic::power2::lemma2_to64();
        vstd::arithmetic::power2::lemma2_to64_rest();
        if usize::BITS == 64 {
            lemma_pow2_mono(60, 63);
            assert(rest < vstd::arithmetic::power2::pow2(60));
            lemma_header_groups_len(c, rest, 9);
        } else {
            assert(rest < vstd::arithmetic::power2::pow2(28));
            lemma_header_groups_len(c, rest, 4);
        }
        assert(((c + 128) as u8 % 16) as nat == (size as nat) % 16);
        assert(size as nat == (size as nat) % 16 + 16 * rest);
        assert(type_of_code(((d[pos as int] / 16) % 8) as u8) == Some(t));
        assert(d[pos as int] >= 128);
        assert(varint_len(d.skip((pos + 1) as int)) == Some(k));
        assert(4 + 7 * (k - 1) < usize::BITS);
        assert(size_value(d.subrange((pos + 1) as int, (pos + 1 + k) as int)) == rest);
        assert(((d[pos as int] % 16) as nat + 16 * rest) == size as nat);
        vstd::arithmetic::div_mod::lemma_small_mod(size as nat, usize::MAX as nat + 1);
        assert(pos + 1 + k == before.len() + h.len());
    } else {
        assert(h[0] == c);
        assert((c as u8 / 16) % 8 == type_code(t)) by (nonlinear_arith)
            requires c == type_code(t) as nat * 16 + (size as nat) % 16, type_code(t) <= 7;
        assert(h.len() == 1);
        assert(type_of_code(((d[pos as int] / 16) % 8) as u8) == Some(t));
        assert(d[pos as int] < 128);
        assert((d[pos as int] % 16) as nat == size as nat);
    }
}

proof fn lemma_varint_prefix(a: Seq<u8>, b: Seq<u8>)
    requires
        varint_len(a) == Some(a.len()),
    ensures
        varint_len(a + b) == Some(a.len()),
    decreases a.len(),
{
    if a.len() > 0 && a[0] >= 128 {
        assert((a + b).drop_first() == a.drop_first() + b);
        lemma_varint_prefix(a.drop_first(), b);
    }
}

} // verus!

verus! {

/// The object that a delta stream makes of `base`: the stream gives the
/// size of the base it was made for, the size of the result, then the
/// commands.
pub open spec fn delta_object(base: EntryValue, delta: Seq<u8>) -> Result<EntryValue, PackError> {
    match size_read(delta, 0) {
        Err(e) => Err(PackError::Delta(e)),
        Ok((base_size, p1)) => if base.size != base_size {
            Err(PackError::BaseSizeMismatch)
        } else {
            match size_read(delta, p1) {
                Err(e) => Err(PackError::Delta(e)),
                Ok((result_size, p2)) => match parse_ops(delta.skip(p2 as int)) {
                    Err(e) => Err(PackError::Delta(e)),
                    Ok(ops) => if !ops_in_bounds(ops, base.content.len()) {
                        Err(PackError::CopyOutOfBounds)
                    } else if apply_ops(base.content, ops).len() != result_size {
                        Err(PackError::ResultSizeMismatch)
                    } else {
                        Ok(EntryValue { obj_type: base.obj_type, size: result_size, content: apply_ops(base.content, ops) })
                    },
                },
            }
        },
    }
}

/// The object whose compressed delta stream starts at `pos`, made of
/// `base`, and the position after the stream.
pub open spec fn delta_entry(base: EntryValue, d: Seq<u8>, pos: nat) -> Result<(EntryValue, nat), PackError> {
    match zlib_inflate(d.skip(pos as int)) {
        None => Err(PackError::Decompress),
        Some((delta, used)) => match delta_object(base, delta) {
            Err(e) => Err(e),
            Ok(e) => Ok((e, pos + used)),
        },
    }
}

/// The object whose compressed data starts at `pos`, of the type and size
/// that its header gave, and the position after the data.
pub open spec fn plain_entry(t: ObjectType, size: nat, d: Seq<u8>, pos: nat) -> Result<(EntryValue, nat), PackError> {
    match zlib_inflate(d.skip(pos as int)) {
        None => Err(PackError::Decompress),
        Some((content, used)) => if content.len() != size {
            Err(PackError::CorruptedSize)
        } else {
            Ok((EntryValue { obj_type: t, size, content }, pos + used))
        },
    }
}

/// The object of the packfile `d` whose header is at `pos`, and the position
/// after it. A delta against an earlier object of the packfile is applied
/// to that object; a delta against an object named by its hash needs that
/// object from elsewhere.
pub open spec fn entry_at(d: Seq<u8>, pos: nat) -> Result<(EntryValue, nat), PackError>
    decreases pos,
{
    match header_read(d, pos) {
        Err(e) => Err(e),
        Ok((t, size, p1)) => if t == ObjectType::OfsDelta {
            match offset_read(d, p1) {
                Err(e) => Err(PackError::Delta(e)),
                Ok((offset, p2)) => if offset == 0 || offset > pos {
                    Err(PackError::InvalidDeltaOffset)
                } else {
                    match entry_at(d, (pos - offset) as nat) {
                        Err(e) => Err(e),
                        Ok((base, _)) => delta_entry(base, d, p2),
                    }
                },
            }
        } else if t == ObjectType::RefDelta {
            if d.len() < p1 + 20 {
                Err(PackError::UnexpectedEof)
            } else {
                Err(PackError::MissingBase)
            }
        } else {
            plain_entry(t, size, d, p1)
        },
    }
}

/// Applies the delta stream `delta` to `base`.
pub fn apply_delta_stream(base: &PackfileEntry, delta: &[u8]) -> (result: Result<PackfileEntry, PackError>)
    ensures
        match result {
            Ok(e) => delta_object(base@, delta@) == Ok::<EntryValue, PackError>(e@),
            Err(err) => delta_object(base@, delta@) == Err::<EntryValue, PackError>(err),
        },
{
    let (base_size, p1) = match read_size_encoding(delta, 0) {
        Ok(r) => r,
        Err(e) => return Err(PackError::Delta(e)),
    };
    if base.size != base_size {
        return Err(PackError::BaseSizeMismatch);
    }
    proof {
        lemma_varint_len(delta@.skip(0));
    }
    let (result_size, p2) = match read_size_encoding(delta, p1) {
        Ok(r) => r,
        Err(e) => return Err(PackError::Delta(e)),
    };
    proof {
        lemma_varint_len(delta@.skip(p1 as int));
    }
    let commands = match read_delta_commands(vstd::slice::slice_subrange(delta, p2, delta.len())) {
        Ok(c) => c,
        Err(e) => return Err(PackError::Delta(e)),
    };
    assert(delta@.subrange(p2 as int, delta@.len() as int) == delta@.skip(p2 as int));
    if !commands_in_bounds(&commands, base.content.len()) {
        return Err(PackError::CopyOutOfBounds);
    }
    let result = recreate_from_commands(base.content.as_slice(), commands.as_slice());
    if result.len() != result_size {
        return Err(PackError::ResultSizeMismatch);
    }
    Ok(PackfileEntry::new(base.obj_type, result_size, result))
}

/// Tells whether every copy command reads inside a base of `len` bytes.
fn commands_in_bounds(commands: &Vec<Command>, len: usize) -> (ok: bool)
    ensures
        ok == ops_in_bounds(ops_of(commands@), len as nat),
{
    let mut i: usize = 0;
    while i < commands.len()
        invariant
            i <= commands@.len(),
            forall|k: int| 0 <= k < i ==> crate::packfile::delta_utils::op_in_bounds(#[trigger] ops_of(commands@)[k], len as nat),
        decreases commands@.len() - i,
    {
        let c = &commands[i];
        assert(ops_of(commands@)[i as int] == c@);
        match c {
            Command::Copy { offset, size } => {
                if *offset > len || *size > len - *offset {
                    return false;
                }
            },
            Command::Insert(_) => {},
        }
        i = i + 1;
    }
    true
}

/// Reads the object of the packfile `data` whose header is at `pos`, and the
/// position after it.
pub fn read_entry_at(data: &[u8], pos: usize) -> (result: Result<(PackfileEntry, usize), PackError>)
    ensures
        match result {
            Ok((e, next)) => entry_at(data@, pos as nat) == Ok::<(EntryValue, nat), PackError>((e@, next as nat))
                && next <= data@.len(),
            Err(err) => entry_at(data@, pos as nat) == Err::<(EntryValue, nat), PackError>(err),
        },
    decreases pos,
{
    let (obj_type, obj_size, p1) = match read_object_header(data, pos) {
        Ok(h) => h,
        Err(e) => return Err(e),
    };
    proof {
        assert(header_read(data@, pos as nat) is Ok);
        lemma_header_read_end(data@, pos as nat);
    }
    match obj_type {
        ObjectType::OfsDelta => {
            let (offset, p2) = match read_offset_encoding(data, p1) {
                Ok(r) => r,
                Err(e) => return Err(PackError::Delta(e)),
            };
            proof {
                lemma_varint_len(data@.skip(p1 as int));
            }
            if offset == 0 || offset > pos as u64 {
                return Err(PackError::InvalidDeltaOffset);
            }
            let base_pos = pos - offset as usize;
            let (base, _) = match read_entry_at(data, base_pos) {
                Ok(r) => r,
                Err(e) => return Err(e),
            };
            read_delta_entry(&base, data, p2)
        },
        ObjectType::RefDelta => {
            if data.len() - p1 < 20 {
                return Err(PackError::UnexpectedEof);
            }
            Err(PackError::MissingBase)
        },
        _ => {
            let (content, used) = match zlib_decompress(vstd::slice::slice_subrange(data, p1, data.len())) {
                Some(r) => r,
                None => return Err(PackError::Decompress),
            };
            assert(data@.subrange(p1 as int, data@.len() as int) == data@.skip(p1 as int));
            if content.len() != obj_size {
                return Err(PackError::CorruptedSize);
            }
            Ok((PackfileEntry::new(obj_type, obj_size, content), p1 + used))
        },
    }
}

/// Reads the compressed delta stream at `pos` and applies it to `base`.
fn read_delta_entry(base: &PackfileEntry, data: &[u8], pos: usize) -> (result: Result<(PackfileEntry, usize), PackError>)
    requires
        pos <= data@.len(),
    ensures
        match result {
            Ok((e, next)) => delta_entry(base@, data@, pos as nat) == Ok::<(EntryValue, nat), PackError>((e@, next as nat))
                && next <= data@.len(),
            Err(err) => delta_entry(base@, data@, pos as nat) == Err::<(EntryValue, nat), PackError>(err),
        },
{
    let (delta, used) = match zlib_decompress(vstd::slice::slice_subrange(data, pos, data.len())) {
        Some(r) => r,
        None => return Err(PackError::Decompress),
    };
    assert(data@.subrange(pos as int, data@.len() as int) == data@.skip(pos as int));
    match apply_delta_stream(base, delta.as_slice()) {
        Ok(e) => Ok((e, pos + used)),
        Err(e) => Err(e),
    }
}

proof fn lemma_header_read_end(d: Seq<u8>, pos: nat)
    ensures
        header_read(d, pos) matches Ok((_, _, next)) ==> pos < next <= d.len(),
{
    if pos < d.len() {
        lemma_varint_len(d.skip((pos + 1) as int));
    }
}

} // verus!

verus! {

/// The number that four bytes write, the most significant first.
pub open spec fn be_u32(b: Seq<u8>) -> nat {
    ((b[0] as nat * 256 + b[1] as nat) * 256 + b[2] as nat) * 256 + b[3] as nat
}

/// The four bytes of `n`, the most significant first.
pub open spec fn be_bytes(n: u32) -> Seq<u8> {
    seq![(n / 16777216) as u8, (n / 65536 % 256) as u8, (n / 256 % 256) as u8, (n % 256) as u8]
}

/// The signature that a packfile starts with: `PACK`.
pub open spec fn pack_signature() -> Seq<u8> {
    seq![80u8, 65u8, 67u8, 75u8]
}

/// What reading the start of the packfile `d` gives: one byte that is
/// skipped, the signature, the version (which must be 2) and the number of
/// objects that the packfile announces.
pub open spec fn pack_start(d: Seq<u8>) -> Result<nat, PackError> {
    if d.len() < 5 {
        Err(PackError::UnexpectedEof)
    } else if d.subrange(1, 5) != pack_signature() {
        if vstd::utf8::valid_utf8(d.subrange(1, 5)) {
            Err(PackError::InvalidSignature)
        } else {
            Err(PackError::InvalidUtf8)
        }
    } else if d.len() < 9 {
        Err(PackError::UnexpectedEof)
    } else if be_u32(d.subrange(5, 9)) != 2 {
        Err(PackError::UnsupportedVersion)
    } else if d.len() < 13 {
        Err(PackError::UnexpectedEof)
    } else {
        Ok(be_u32(d.subrange(9, 13)))
    }
}

/// What the reader gives at one step, as a mathematical value: an object
/// and the position after it, or the hash of a base that the packfile does
/// not hold and the position of the delta stream to apply to it.
pub enum StepValue {
    Entry(EntryValue, nat),
    NeedsBase(Seq<char>, nat),
}

/// What the reader gives for the object whose header is at `pos`.
pub open spec fn step_at(d: Seq<u8>, pos: nat) -> Result<StepValue, PackError> {
    match header_read(d, pos) {
        Ok((t, _, p1)) => if t == ObjectType::RefDelta {
            if d.len() < p1 + 20 {
                Err(PackError::UnexpectedEof)
            } else {
                Ok(StepValue::NeedsBase(hex_lower(d.subrange(p1 as int, (p1 + 20) as int)), p1 + 20))
            }
        } else {
            entry_step(d, pos)
        },
        Err(_) => entry_step(d, pos),
    }
}

/// `entry_at` as a step of the reader.
pub open spec fn entry_step(d: Seq<u8>, pos: nat) -> Result<StepValue, PackError> {
    match entry_at(d, pos) {
        Ok((e, next)) => Ok(StepValue::Entry(e, next)),
        Err(err) => Err(err),
    }
}

/// What one step of the packfile reader gives.
pub enum PackStep {
    /// The next object of the packfile.
    Entry(PackfileEntry),
    /// The next object is a delta against the object with this hash, which
    /// the packfile does not hold: hand that object to `resolve_base`.
    NeedsBase(String),
}

/// A packfile reader.
pub struct Packfile {
    data: Vec<u8>,
    cursor: usize,
    position: u32,
    total: u32,
    git_dir: String,
    pending: Option<usize>,
}

fn read_be_u32(d: &[u8], at: usize) -> (n: u32)
    requires
        at + 4 <= d@.len(),
    ensures
        n as nat == be_u32(d@.subrange(at as int, at + 4)),
{
    let b0 = d[at] as u32;
    let b1 = d[at + 1] as u32;
    let b2 = d[at + 2] as u32;
    let b3 = d[at + 3] as u32;
    ((b0 * 256 + b1) * 256 + b2) * 256 + b3
}

impl Packfile {
    /// The bytes of the packfile.
    pub closed spec fn data(&self) -> Seq<u8> {
        self.data@
    }

    /// Where the next object's header starts.
    pub closed spec fn cursor(&self) -> nat {
        self.cursor as nat
    }

    /// How many objects have been read.
    pub closed spec fn position(&self) -> nat {
        self.position as nat
    }

    /// How many objects the packfile announces.
    pub closed spec fn total(&self) -> nat {
        self.total as nat
    }

    /// The position of a delta stream that waits for its base.
    pub closed spec fn pending(&self) -> Option<nat> {
        match self.pending {
            Some(p) => Some(p as nat),
            None => None,
        }
    }

    /// The directory of the repository that the packfile is read into.
    pub closed spec fn git_dir_view(&self) -> Seq<char> {
        self.git_dir@
    }

    /// The reader's positions lie inside the packfile.
    pub closed spec fn wf(&self) -> bool {
        &&& self.cursor <= self.data@.len()
        &&& self.pending matches Some(p) ==> p <= self.data@.len()
    }

    /// Creates a reader of the packfile `data`, checking its signature and
    /// version and reading the number of objects it announces.
    pub fn reader(data: Vec<u8>, git_dir: &str) -> (result: Result<Packfile, PackError>)
        ensures
            match result {
                Ok(p) => pack_start(data@) == Ok::<nat, PackError>(p.total()) && p.wf() && p.data() == data@
                    && p.cursor() == 13 && p.position() == 0 && p.pending() is None && p.git_dir_view() == git_dir@,
                Err(e) => pack_start(data@) == Err::<nat, PackError>(e),
            },
    {
        if data.len() < 5 {
            return Err(PackError::UnexpectedEof);
        }
        let sig = vstd::slice::slice_subrange(data.as_slice(), 1, 5);
        if !(sig[0] == 80u8 && sig[1] == 65u8 && sig[2] == 67u8 && sig[3] == 75u8) {
            assert(sig@ != pack_signature()) by {
                if sig@ == pack_signature() {
                    assert(sig@[0] == 80u8);
                }
            }
            return match utf8_to_string(sig) {
                Some(_) => Err(PackError::InvalidSignature),
                None => Err(PackError::InvalidUtf8),
            };
        }
        assert(sig@ == pack_signature());
        if data.len() < 9 {
            return Err(PackError::UnexpectedEof);
        }
        if read_be_u32(data.as_slice(), 5) != 2 {
            return Err(PackError::UnsupportedVersion);
        }
        if data.len() < 13 {
            return Err(PackError::UnexpectedEof);
        }
        let total = read_be_u32(data.as_slice(), 9);
        Ok(Packfile { data, cursor: 13, position: 0, total, git_dir: git_dir.to_string(), pending: None })
    }

    /// The directory of the repository that the packfile is read into.
    pub fn git_dir(&self) -> (dir: &str)
        ensures
            dir@ == self.git_dir_view(),
    {
        self.git_dir.as_str()
    }

    /// Reads the next object of the packfile; `None` once as many objects
    /// as the packfile announces have been read.
    pub fn next_step(&mut self) -> (step: Option<Result<PackStep, PackError>>)
        requires
            old(self).wf(),
        ensures
            final(self).wf(),
            final(self).data() == old(self).data(),
            final(self).total() == old(self).total(),
            final(self).git_dir_view() == old(self).git_dir_view(),
            match step {
                None => old(self).position() >= old(self).total() && final(self).position() == old(self).position()
                    && final(self).cursor() == old(self).cursor() && final(self).pending() == old(self).pending(),
                Some(r) => old(self).position() < old(self).total() && final(self).position() == old(self).position() + 1
                    && match r {
                        Ok(PackStep::Entry(e)) => step_at(old(self).data(), old(self).cursor())
                            == Ok::<StepValue, PackError>(StepValue::Entry(e@, final(self).cursor()))
                            && final(self).pending() is None,
                        Ok(PackStep::NeedsBase(h)) => step_at(old(self).data(), old(self).cursor())
                            matches Ok(StepValue::NeedsBase(hash, p)) && h@ == hash
                            && final(self).pending() == Some(p) && final(self).cursor() == old(self).cursor(),
                        Err(e) => step_at(old(self).data(), old(self).cursor()) == Err::<StepValue, PackError>(e)
                            && final(self).cursor() == old(self).cursor() && final(self).pending() is None,
                    },
            },
    {
        if self.position >= self.total {
            return None;
        }
        self.position = self.position + 1;
        self.pending = None;
        let pos = self.cursor;
        if let Ok((t, _, p1)) = read_object_header(self.data.as_slice(), pos) {
            proof {
                lemma_header_read_end(self.data@, pos as nat);
            }
            if t == ObjectType::RefDelta {
                if self.data.len() - p1 < 20 {
                    return Some(Err(PackError::UnexpectedEof));
                }
                let hash = to_hex(vstd::slice::slice_subrange(self.data.as_slice(), p1, p1 + 20));
                self.pending = Some(p1 + 20);
                return Some(Ok(PackStep::NeedsBase(string_from_chars(hash.as_slice()))));
            }
        }
        match read_entry_at(self.data.as_slice(), pos) {
            Ok((e, next)) => {
                self.cursor = next;
                Some(Ok(PackStep::Entry(e)))
            },
            Err(e) => Some(Err(e)),
        }
    }

    /// Applies the delta stream that waits for its base to `base`, the
    /// object that the last step named by its hash.
    pub fn resolve_base(&mut self, base: &PackfileEntry) -> (result: Result<PackfileEntry, PackError>)
        requires
            old(self).wf(),
        ensures
            final(self).wf(),
            final(self).data() == old(self).data(),
            final(self).total() == old(self).total(),
            final(self).position() == old(self).position(),
            final(self).git_dir_view() == old(self).git_dir_view(),
            final(self).pending() is None,
            match old(self).pending() {
                None => result == Err::<PackfileEntry, PackError>(PackError::MissingBase)
                    && final(self).cursor() == old(self).cursor(),
                Some(p) => match result {
                    Ok(e) => delta_entry(base@, old(self).data(), p)
                        == Ok::<(EntryValue, nat), PackError>((e@, final(self).cursor())),
                    Err(err) => delta_entry(base@, old(self).data(), p) == Err::<(EntryValue, nat), PackError>(err)
                        && final(self).cursor() == old(self).cursor(),
                },
            },
    {
        let p = match self.pending {
            Some(p) => p,
            None => return Err(PackError::MissingBase),
        };
        self.pending = None;
        match read_delta_entry(base, self.data.as_slice(), p) {
            Ok((e, next)) => {
                self.cursor = next;
                Ok(e)
            },
            Err(err) => Err(err),
        }
    }
}

} // verus!

verus! {

/// How far apart in size an object and its delta base may be, in percent,
/// and how many lines they must share, in percent of the object's lines
/// (both in integer arithmetic).
pub const TOLERATION: usize = 20;

/// The objects as mathematical values.
pub open spec fn entry_values(entries: Seq<PackfileEntry>) -> Seq<EntryValue> {
    entries.map_values(|e: PackfileEntry| e@)
}

/// The distance between two sizes.
pub open spec fn abs_diff(a: nat, b: nat) -> nat {
    if a >= b {
        (a - b) as nat
    } else {
        (b - a) as nat
    }
}

/// The first of the objects in `done` whose size is the closest to `size`.
pub open spec fn closest_index(size: nat, done: Seq<EntryValue>) -> int
    decreases done.len(),
{
    if done.len() <= 1 {
        0
    } else {
        let i = closest_index(size, done.drop_last());
        if abs_diff(size, done.last().size) < abs_diff(size, done[i].size) {
            done.len() - 1
        } else {
            i
        }
    }
}

pub proof fn lemma_closest_index(size: nat, done: Seq<EntryValue>)
    requires
        done.len() > 0,
    ensures
        0 <= closest_index(size, done) < done.len(),
    decreases done.len(),
{
    if done.len() > 1 {
        lemma_closest_index(size, done.drop_last());
    }
}

/// A line without its newline.
pub open spec fn strip_newline(line: Seq<u8>) -> Seq<u8> {
    if line.len() > 0 && line.last() == 10 {
        line.drop_last()
    } else {
        line
    }
}

/// The pieces of `s` between newlines, as splitting on `\n` gives them:
/// the lines without their newline, and an empty last piece when `s` is
/// empty or ends with a newline.
pub open spec fn pieces(s: Seq<u8>) -> Seq<Seq<u8>> {
    let lines = split_lines(s).map_values(|l: Seq<u8>| strip_newline(l));
    if s.len() == 0 || s.last() == 10 {
        lines.push(Seq::<u8>::empty())
    } else {
        lines
    }
}

/// How many lines of `olines` are found in `clines`, each searched after
/// the line where the previous one was found, from `skip` on.
pub open spec fn coincidences(olines: Seq<Seq<u8>>, clines: Seq<Seq<u8>>, skip: nat) -> nat
    decreases olines.len(),
{
    if olines.len() == 0 {
        0
    } else {
        match find_line(clines, olines[0], skip) {
            Some(j) => 1 + coincidences(olines.drop_first(), clines, j + 1),
            None => coincidences(olines.drop_first(), clines, skip),
        }
    }
}

/// An object and a candidate base share enough lines: more than
/// `(100 - toleration) / 100` times the object's lines.
pub open spec fn enough_coincidences(object: Seq<u8>, candidate: Seq<u8>, toleration: nat) -> bool {
    coincidences(pieces(object), pieces(candidate), 0) > pieces(object).len() * ((100 - toleration) / 100)
}

/// The object among `done` that `object` is written as a delta against:
/// the first one of the closest size, if it has the same type, its size
/// is close enough, and it shares enough lines.
pub open spec fn delta_base(object: EntryValue, done: Seq<EntryValue>) -> Option<int> {
    if done.len() == 0 {
        None
    } else {
        let i = closest_index(object.size, done);
        if object.obj_type != done[i].obj_type {
            None
        } else if abs_diff(object.size, done[i].size) / object.size > TOLERATION / 100 {
            None
        } else if enough_coincidences(object.content, done[i].content, TOLERATION as nat) {
            Some(i)
        } else {
            None
        }
    }
}

/// Writing the object at `i` after the ones before it is defined: when the
/// earlier object closest in size has its type, its size is not zero (the
/// size is a divisor), and when it is written as a delta, it is not empty.
pub open spec fn packable_at(entries: Seq<EntryValue>, i: int) -> bool {
    let done = entries.take(i);
    let object = entries[i];
    &&& done[closest_index(object.size, done)].obj_type == object.obj_type ==> object.size > 0
    &&& delta_base(object, done) is Some ==> object.content.len() > 0
}

/// Every object after the first can be written after the ones before it.
pub open spec fn packable(entries: Seq<EntryValue>) -> bool {
    forall|i: int| 1 <= i < entries.len() ==> #[trigger] packable_at(entries, i)
}

/// The delta stream of `object` against `base`: the size of the base, the
/// size of the object, then the encoded commands.
pub open spec fn delta_stream(base: EntryValue, object: EntryValue) -> Seq<u8> {
    size_encoding(base.size) + size_encoding(object.size) + ops_encoding(delta_ops(base.content, object.content))
}

/// An object written as a delta against `base`, which starts `distance`
/// bytes before it: the header of an offset delta, the distance, and the
/// compressed delta stream.
pub open spec fn delta_record(base: EntryValue, object: EntryValue, distance: nat) -> Seq<u8> {
    object_header_bytes(type_code(ObjectType::OfsDelta), 7) + offset_encoding(distance) + zlib_deflate(
        delta_stream(base, object),
    )
}

/// What is compressed for `object` when it is written after `done`: its
/// delta stream against its base, or its content.
pub open spec fn record_payload(object: EntryValue, done: Seq<EntryValue>) -> Seq<u8> {
    match delta_base(object, done) {
        Some(i) => delta_stream(done[i], object),
        None => object.content,
    }
}

/// An object written whole: its header and its compressed content.
pub open spec fn plain_record(object: EntryValue) -> Seq<u8> {
    object_header_bytes(type_code(object.obj_type), object.size) + zlib_deflate(object.content)
}

/// How `object` is written after the objects `done`, which start at
/// `offsets`, when it starts at `here`.
pub open spec fn pack_record(object: EntryValue, done: Seq<EntryValue>, offsets: Seq<nat>, here: nat) -> Seq<u8> {
    match delta_base(object, done) {
        Some(i) => delta_record(done[i], object, (here - offsets[i]) as nat),
        None => plain_record(object),
    }
}

/// The start of a packfile of `count` objects: `PACK`, version 2, the count.
pub open spec fn pack_header_bytes(count: u32) -> Seq<u8> {
    pack_signature() + seq![0u8, 0u8, 0u8, 2u8] + be_bytes(count)
}

/// The packfile, before its checksum, up to the objects `entries`.
pub open spec fn pack_prefix(entries: Seq<EntryValue>, count: u32) -> Seq<u8>
    decreases entries.len(), 1nat,
{
    if entries.len() == 0 {
        pack_header_bytes(count)
    } else {
        let done = entries.drop_last();
        pack_prefix(done, count) + pack_record(
            entries.last(),
            done,
            record_offsets(done, count),
            pack_prefix(done, count).len(),
        )
    }
}

/// Where each of the objects `entries` starts in the packfile.
pub open spec fn record_offsets(entries: Seq<EntryValue>, count: u32) -> Seq<nat>
    decreases entries.len(), 0nat,
{
    if entries.len() == 0 {
        seq![]
    } else {
        record_offsets(entries.drop_last(), count).push(pack_prefix(entries.drop_last(), count).len())
    }
}

/// The packfile of `entries`: the objects in order, each written whole or
/// as a delta against an earlier one, then the SHA-1 checksum of all that
/// comes before it.
pub open spec fn packfile_bytes(entries: Seq<EntryValue>) -> Seq<u8> {
    let prefix = pack_prefix(entries, entries.len() as u32);
    prefix + sha1_digest(prefix)
}

/// The pieces of `s` between newlines.
fn split_pieces(s: &[u8]) -> (out: Vec<Vec<u8>>)
    ensures
        lines_of(out@) == pieces(s@),
{
    let lines = split_lines_inclusive(s);
    let ghost stripped = split_lines(s@).map_values(|l: Seq<u8>| strip_newline(l));
    let mut out: Vec<Vec<u8>> = Vec::new();
    let mut i: usize = 0;
    while i < lines.len()
        invariant
            i <= lines@.len(),
            lines_of(lines@) == split_lines(s@),
            stripped == split_lines(s@).map_values(|l: Seq<u8>| strip_newline(l)),
            lines_of(out@) == stripped.take(i as int),
        decreases lines@.len() - i,
    {
        let line = lines[i].as_slice();
        assert(line@ == split_lines(s@)[i as int]);
        let piece = if line.len() > 0 && line[line.len() - 1] == 10u8 {
            vstd::slice::slice_to_vec(vstd::slice::slice_subrange(line, 0, line.len() - 1))
        } else {
            vstd::slice::slice_to_vec(line)
        };
        assert(piece@ == stripped[i as int]);
        let ghost before = out@;
        out.push(piece);
        assert(lines_of(out@) =~= lines_of(before).push(stripped[i as int]));
        assert(stripped.take(i + 1) =~= stripped.take(i as int).push(stripped[i as int]));
        i = i + 1;
    }
    assert(stripped.take(lines@.len() as int) == stripped);
    if s.len() == 0 || s[s.len() - 1] == 10u8 {
        out.push(Vec::new());
        assert(lines_of(out@) == stripped.push(Seq::<u8>::empty()));
    }
    out
}

/// Checks if two objects have enough lines in common for one to be written
/// as a delta against the other.
fn enough_candidate_coincidences(object: &PackfileEntry, candidate: &PackfileEntry, toleration: usize) -> (enough: bool)
    requires
        toleration <= 100,
    ensures
        enough == enough_coincidences(object.content@, candidate.content@, toleration as nat),
{
    let olines = split_pieces(object.content.as_slice());
    let clines = split_pieces(candidate.content.as_slice());
    let ghost ov = lines_of(olines@);
    let ghost cv = lines_of(clines@);
    let mut total_lines: usize = 0;
    let mut coincidences_found: usize = 0;
    let mut skip_lines: usize = 0;
    let mut i: usize = 0;
    assert(ov.skip(0) == ov);
    while i < olines.len()
        invariant
            i <= olines@.len(),
            ov == lines_of(olines@),
            cv == lines_of(clines@),
            total_lines == i,
            coincidences_found <= i,
            skip_lines <= clines@.len(),
            coincidences(ov, cv, 0) == coincidences_found + coincidences(ov.skip(i as int), cv, skip_lines as nat),
        decreases olines@.len() - i,
    {
        let line = olines[i].as_slice();
        let ghost rest = ov.skip(i as int);
        assert(rest[0] == line@);
        assert(rest.drop_first() == ov.skip(i + 1));
        total_lines = total_lines + 1;
        let mut j: usize = skip_lines;
        while j < clines.len() && !bytes_equal(clines[j].as_slice(), line)
            invariant
                skip_lines <= j <= clines@.len(),
                cv == lines_of(clines@),
                find_line(cv, line@, skip_lines as nat) == find_line(cv, line@, j as nat),
            decreases clines@.len() - j,
        {
            j = j + 1;
        }
        if j < clines.len() {
            assert(cv[j as int] == line@);
            coincidences_found = coincidences_found + 1;
            skip_lines = j + 1;
        }
        i = i + 1;
    }
    assert(ov.skip(ov.len() as int).len() == 0);
    proof {
        vstd::arithmetic::mul::lemma_mul_upper_bound(total_lines as int, total_lines as int, (100 - toleration) / 100, 1);
    }
    coincidences_found > total_lines * ((100 - toleration) / 100)
}

fn size_distance(a: usize, b: usize) -> (d: usize)
    ensures
        d as nat == abs_diff(a as nat, b as nat),
{
    if a >= b {
        a - b
    } else {
        b - a
    }
}

/// Finds the object among `done` that `object` is best written as a delta
/// against, if there is a good enough one.
fn find_base_object_index(object: &PackfileEntry, done: &[PackfileEntry]) -> (base: Option<usize>)
    requires
        done@.len() > 0 && done@[closest_index(object.size as nat, entry_values(done@))].obj_type == object.obj_type
            ==> object.size > 0,
    ensures
        match base {
            Some(i) => delta_base(object@, entry_values(done@)) == Some(i as int),
            None => delta_base(object@, entry_values(done@)) is None,
        },
{
    let ghost views = entry_values(done@);
    if done.len() == 0 {
        return None;
    }
    let mut best: usize = 0;
    let mut i: usize = 1;
    while i < done.len()
        invariant
            1 <= i <= done@.len(),
            views == entry_values(done@),
            best < i,
            best as int == closest_index(object.size as nat, views.take(i as int)),
        decreases done@.len() - i,
    {
        assert(views.take(i + 1).drop_last() == views.take(i as int));
        proof {
            lemma_closest_index(object.size as nat, views.take(i as int));
        }
        if size_distance(object.size, done[i].size) < size_distance(object.size, done[best].size) {
            best = i;
        }
        i = i + 1;
    }
    assert(views.take(done@.len() as int) == views);
    assert(views[best as int] == done@[best as int]@);
    let candidate = &done[best];
    if object.obj_type != candidate.obj_type {
        return None;
    }
    if size_distance(object.size, candidate.size) / object.size > TOLERATION / 100 {
        return None;
    }
    if enough_candidate_coincidences(object, candidate, TOLERATION) {
        return Some(best);
    }
    None
}

/// Appends the encodings of `commands` to `out`.
fn append_commands(out: &mut Vec<u8>, commands: &Vec<Command>, base_len: usize)
    requires
        ops_in_bounds(ops_of(commands@), base_len as nat),
    ensures
        final(out)@ == old(out)@ + ops_encoding(ops_of(commands@)),
{
    let ghost ops = ops_of(commands@);
    let mut i: usize = 0;
    while i < commands.len()
        invariant
            i <= commands@.len(),
            ops == ops_of(commands@),
            ops_in_bounds(ops, base_len as nat),
            out@ == old(out)@ + ops_encoding(ops.take(i as int)),
        decreases commands@.len() - i,
    {
        assert(ops[i as int] == commands@[i as int]@);
        assert(crate::packfile::delta_utils::op_in_bounds(ops[i as int], base_len as nat));
        proof {
            if let Command::Copy { offset, size } = commands@[i as int] {
                crate::packfile::delta_utils::lemma_copy_offsets_fit(offset as nat, size as nat);
            }
        }
        let mut encoded = commands[i].encode();
        assert(ops.take(i + 1).drop_last() == ops.take(i as int));
        out.append(&mut encoded);
        i = i + 1;
    }
    assert(ops.take(commands@.len() as int) == ops);
}

/// Appends `object`, written as a delta against `base`, which starts at
/// `base_offset`.
fn append_delta_object(packfile: &mut Vec<u8>, base: &PackfileEntry, base_offset: usize, object: &PackfileEntry)
    requires
        0 < base_offset <= old(packfile)@.len(),
        object.content@.len() > 0,
    ensures
        final(packfile)@ == old(packfile)@ + delta_record(
            base@,
            object@,
            (old(packfile)@.len() - base_offset) as nat,
        ),
        inflates_back(delta_stream(base@, object@)),
{
    let offset = packfile.len() - base_offset;
    let mut header = object_header(ObjectType::OfsDelta, 7);
    packfile.append(&mut header);
    let mut encoded_offset = encode_offset(offset);
    packfile.append(&mut encoded_offset);
    let mut stream = encode_size(base.size);
    let mut result_size = encode_size(object.size);
    stream.append(&mut result_size);
    let commands = delta_commands_from_objects(base.content.as_slice(), object.content.as_slice());
    append_commands(&mut stream, &commands, base.content.len());
    let mut compressed = zlib_compress(stream.as_slice());
    packfile.append(&mut compressed);
}

/// Appends `object` written whole.
fn append_object(packfile: &mut Vec<u8>, object: &PackfileEntry)
    ensures
        final(packfile)@ == old(packfile)@ + plain_record(object@),
        inflates_back(object@.content),
{
    let mut header = object_header(object.obj_type, object.size);
    packfile.append(&mut header);
    let mut compressed = zlib_compress(object.content.as_slice());
    packfile.append(&mut compressed);
}

/// Creates a packfile of the given objects, in order: each one is written
/// whole, or as a delta against an earlier one that it resembles.
pub fn create_packfile(entries: &[PackfileEntry]) -> (packfile: Vec<u8>)
    requires
        packable(entry_values(entries@)),
    ensures
        packfile@ == packfile_bytes(entry_values(entries@)),
        packfile@.len() == pack_prefix(entry_values(entries@), entries@.len() as u32).len() + 20,
        entries@.len() <= u32::MAX ==> forall|b: u8|
            #[trigger] pack_start(seq![b] + packfile@) == Ok::<nat, PackError>(entries@.len()),
        readable_entries(entry_values(entries@)) ==> forall|b: u8, k: int|
            0 <= k < entries@.len() ==> #[trigger] step_at(seq![b] + packfile@, 1 + record_start(entry_values(entries@), k))
                == Ok::<StepValue, PackError>(
                StepValue::Entry(entries@[k]@, 1 + record_start(entry_values(entries@), k + 1)),
            ),
{
    let ghost views = entry_values(entries@);
    let count = entries.len() as u32;
    let mut packfile: Vec<u8> = Vec::new();
    packfile.push(80u8);
    packfile.push(65u8);
    packfile.push(67u8);
    packfile.push(75u8);
    packfile.push(0u8);
    packfile.push(0u8);
    packfile.push(0u8);
    packfile.push(2u8);
    assert((count >> 24) as u8 == count / 16777216) by (bit_vector);
    assert(((count >> 16) & 255) as u8 == count / 65536 % 256) by (bit_vector);
    assert(((count >> 8) & 255) as u8 == count / 256 % 256) by (bit_vector);
    assert((count & 255) as u8 == count % 256) by (bit_vector);
    packfile.push((count >> 24) as u8);
    packfile.push(((count >> 16) & 255) as u8);
    packfile.push(((count >> 8) & 255) as u8);
    packfile.push((count & 255) as u8);
    assert(packfile@ == pack_prefix(views.take(0), count));
    let mut offsets: Vec<usize> = Vec::new();
    let mut i: usize = 0;
    while i < entries.len()
        invariant
            i <= entries@.len(),
            views == entry_values(entries@),
            count == entries@.len() as u32,
            packable(views),
            packfile@ == pack_prefix(views.take(i as int), count),
            packfile@.len() >= 12,
            offsets@.len() == i,
            forall|k: int| 0 <= k < i ==> 12 <= #[trigger] offsets@[k] <= packfile@.len(),
            forall|k: int| 0 <= k < i ==> #[trigger] offsets@[k] as nat == record_offsets(views.take(i as int), count)[k],
            record_offsets(views.take(i as int), count).len() == i,
            forall|k: int| 0 <= k < i ==> inflates_back(#[trigger] record_payload(views[k], views.take(k))),
        decreases entries@.len() - i,
    {
        let here = packfile.len();
        let object = &entries[i];
        let done = vstd::slice::slice_subrange(entries, 0, i);
        assert(entry_values(done@) == views.take(i as int));
        assert(views.take(i + 1).drop_last() == views.take(i as int));
        assert(views.take(i + 1).last() == object@);
        let ghost offs = record_offsets(views.take(i as int), count);
        proof {
            if i > 0 {
                assert(packable_at(views, i as int));
                lemma_closest_index(object.size as nat, views.take(i as int));
                let c = closest_index(object.size as nat, views.take(i as int));
                assert(views.take(i as int)[c] == done@[c]@);
            }
        }
        match find_base_object_index(object, done) {
            Some(j) => {
                proof {
                    lemma_closest_index(object.size as nat, views.take(i as int));
                }
                assert(views.take(i as int)[j as int] == entries@[j as int]@);
                assert(offsets@[j as int] as nat == offs[j as int]);
                append_delta_object(&mut packfile, &entries[j], offsets[j], object);
            },
            None => {
                append_object(&mut packfile, object);
            },
        }
        assert(views[i as int] == object@);
        assert(inflates_back(record_payload(views[i as int], views.take(i as int))));
        offsets.push(here);
        assert(record_offsets(views.take(i + 1), count) == offs.push(here as nat));
        i = i + 1;
    }
    assert(views.take(entries@.len() as int) == views);
    let ghost prefix = packfile@;
    let mut checksum = sha1(packfile.as_slice());
    let ghost tail = checksum@;
    packfile.append(&mut checksum);
    // The length of a vector fits in a `usize`, so the distances between
    // records do too.
    let written: usize = packfile.len();
    proof {
        let n = views.len() as int;
        assert(prefix == prefix_upto(views, count, n));
        assert(prefix.len() + 20 == written);
        assert forall|b: u8| #[trigger] pack_start(seq![b] + packfile@) == Ok::<nat, PackError>(count as nat) by {
            lemma_packfile_start(b, views, count, tail);
            assert(seq![b] + packfile@ == seq![b] + prefix + tail);
        }
        if readable_entries(views) {
            assert forall|b: u8, k: int| 0 <= k < entries@.len() implies #[trigger] step_at(
                seq![b] + packfile@,
                1 + record_start(views, k),
            ) == Ok::<StepValue, PackError>(StepValue::Entry(entries@[k]@, 1 + record_start(views, k + 1))) by {
                lemma_packfile_steps(b, views, count, tail, k);
                assert(seq![b] + packfile@ == seq![b] + prefix + tail);
                assert(views[k] == entries@[k]@);
            }
        }
    }
    packfile
}

} // verus!
