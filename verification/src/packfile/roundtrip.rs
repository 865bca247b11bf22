//! Reading back the packfiles that `create_packfile` writes.
use vstd::prelude::*;
use crate::codec::{inflates_back, zlib_deflate, zlib_inflate};
use crate::packfile::entry::EntryValue;
use crate::packfile::handler::{
    delta_base, delta_record, delta_stream, header_read, lemma_closest_index, lemma_header_groups_read,
    law_object_header_roundtrip, object_header_bytes, pack_header_bytes, pack_prefix, pack_record, plain_record,
    record_offsets, record_payload, entry_at, delta_entry, delta_object, plain_entry, step_at, entry_step,
    StepValue, pack_start, pack_signature, be_u32, be_bytes,
};
use crate::packfile::object_type::{type_code, ObjectType};
use crate::packfile::error::PackError;
use crate::packfile::delta_utils::{
    apply_ops, copies_nonempty, delta_ops, law_delta_encoding_roundtrip, law_delta_recreates_object,
    law_offset_roundtrip, law_size_roundtrip, lemma_delta_ops_copies, lemma_encodable_in_small_base, lemma_varint_len_from, offset_acc,
    offset_encoding, offset_groups, offset_read, ops_encoding, ops_in_bounds, ops_pieces, parse_ops, size_encoding,
    size_read, size_value, varint_len, DeltaError, DeltaOp,
};

verus! {

proof fn lemma_varint_exact(e: Seq<u8>, rest: Seq<u8>)
    requires
        e.len() >= 1,
        forall|i: int| 0 <= i < e.len() - 1 ==> e[i] >= 128,
        e[e.len() - 1] < 128,
    ensures
        varint_len(e + rest) == Some(e.len()),
{
    let d = e + rest;
    let k = (e.len() - 1) as nat;
    assert forall|i: int| 0 <= i < k implies d[i] >= 128 by {
        assert(d[i] == e[i]);
    }
    lemma_varint_len_from(d, k);
    assert(d.skip(k as int)[0] == e[k as int]);
    assert(d.skip(k as int).len() > 0);
}

proof fn lemma_size_encoding_bytes(n: nat)
    ensures
        size_encoding(n).len() >= 1,
        forall|i: int| 0 <= i < size_encoding(n).len() - 1 ==> #[trigger] size_encoding(n)[i] >= 128,
        size_encoding(n)[size_encoding(n).len() - 1] < 128,
    decreases n,
{
    if n >= 128 {
        lemma_size_encoding_bytes(n / 128);
        let e = size_encoding(n);
        let t = size_encoding(n / 128);
        assert(e == seq![((n % 128) + 128) as u8] + t);
        assert forall|i: int| 0 <= i < e.len() - 1 implies #[trigger] e[i] >= 128 by {
            if i > 0 {
                assert(e[i] == t[i - 1]);
            }
        }
        assert(e[e.len() - 1] == t[t.len() - 1]);
    }
}

proof fn lemma_offset_groups_bytes(n: nat, last: bool)
    ensures
        offset_groups(n, last).len() >= 1,
        forall|i: int| 0 <= i < offset_groups(n, last).len() - 1 ==> #[trigger] offset_groups(n, last)[i] >= 128,
        (offset_groups(n, last)[offset_groups(n, last).len() - 1] < 128) == last,
    decreases n,
{
    if n >= 128 {
        let m = (n / 128 - 1) as nat;
        lemma_offset_groups_bytes(m, false);
        let g = offset_groups(n, last);
        let h = offset_groups(m, false);
        let b: u8 = if last { (n % 128) as u8 } else { ((n % 128) + 128) as u8 };
        assert(g == h + seq![b]);
        assert forall|i: int| 0 <= i < g.len() - 1 implies #[trigger] g[i] >= 128 by {
            assert(g[i] == h[i]);
        }
        assert(g[g.len() - 1] == b);
    }
}

/// Reading a size encoding that stands at `pre.len()` gives its number.
pub proof fn lemma_size_read_at(pre: Seq<u8>, n: nat, after: Seq<u8>)
    requires
        n <= usize::MAX,
    ensures
        size_read(pre + size_encoding(n) + after, pre.len())
            == Ok::<(nat, nat), DeltaError>((n, pre.len() + size_encoding(n).len())),
{
    let e = size_encoding(n);
    let d = pre + e + after;
    let pos = pre.len();
    assert(d.skip(pos as int) == e + after);
    lemma_size_encoding_bytes(n);
    lemma_varint_exact(e, after);
    law_size_roundtrip(n as usize);
    assert(d.subrange(pos as int, (pos + e.len()) as int) == e);
}

/// Reading an offset encoding that stands at `pre.len()` gives its offset.
pub proof fn lemma_offset_read_at(pre: Seq<u8>, n: nat, after: Seq<u8>)
    requires
        n < usize::MAX,
    ensures
        offset_read(pre + offset_encoding(n) + after, pre.len())
            == Ok::<(nat, nat), DeltaError>((n, pre.len() + offset_encoding(n).len())),
{
    let e = offset_encoding(n);
    let d = pre + e + after;
    let pos = pre.len();
    assert(d.skip(pos as int) == e + after);
    lemma_offset_groups_bytes(n, true);
    lemma_varint_exact(e, after);
    law_offset_roundtrip(n as usize);
    assert(d.subrange(pos as int, (pos + e.len()) as int) == e);
}


/// The packfile up to the first `k` of `entries`.
pub open spec fn prefix_upto(entries: Seq<EntryValue>, count: u32, k: int) -> Seq<u8> {
    pack_prefix(entries.take(k), count)
}

proof fn lemma_record_nonempty(object: EntryValue, done: Seq<EntryValue>, offsets: Seq<nat>, here: nat)
    ensures
        pack_record(object, done, offsets, here).len() >= 1,
{
    match delta_base(object, done) {
        Some(i) => {
            let c = type_code(ObjectType::OfsDelta) as nat * 16 + 7nat % 16;
            lemma_header_groups_read(c, 7nat / 16);
        },
        None => {
            let c = type_code(object.obj_type) as nat * 16 + object.size % 16;
            lemma_header_groups_read(c, object.size / 16);
        },
    }
}

proof fn lemma_prefix_step(entries: Seq<EntryValue>, count: u32, j: int)
    requires
        0 <= j < entries.len(),
    ensures
        prefix_upto(entries, count, j + 1) == prefix_upto(entries, count, j) + pack_record(
            entries[j],
            entries.take(j),
            record_offsets(entries.take(j), count),
            prefix_upto(entries, count, j).len(),
        ),
        record_offsets(entries.take(j + 1), count) == record_offsets(entries.take(j), count).push(
            prefix_upto(entries, count, j).len(),
        ),
        prefix_upto(entries, count, j).len() < prefix_upto(entries, count, j + 1).len(),
{
    let t = entries.take(j + 1);
    assert(t.drop_last() == entries.take(j));
    assert(t.last() == entries[j]);
    lemma_record_nonempty(
        entries[j],
        entries.take(j),
        record_offsets(entries.take(j), count),
        prefix_upto(entries, count, j).len(),
    );
}

proof fn lemma_prefix_of(entries: Seq<EntryValue>, count: u32, k: int, j: int)
    requires
        0 <= k <= j <= entries.len(),
    ensures
        prefix_upto(entries, count, k).len() + (j - k) <= prefix_upto(entries, count, j).len(),
        prefix_upto(entries, count, j).take(prefix_upto(entries, count, k).len() as int) == prefix_upto(
            entries,
            count,
            k,
        ),
    decreases j - k,
{
    if k < j {
        lemma_prefix_of(entries, count, k, j - 1);
        lemma_prefix_step(entries, count, j - 1);
        let a = prefix_upto(entries, count, j - 1);
        let b = prefix_upto(entries, count, j);
        let n = prefix_upto(entries, count, k).len() as int;
        assert(b.take(n) == a.take(n));
    } else {
        let a = prefix_upto(entries, count, j);
        assert(a.take(a.len() as int) == a);
    }
}

proof fn lemma_offsets_at(entries: Seq<EntryValue>, count: u32, m: int, k: int)
    requires
        0 <= m < k <= entries.len(),
    ensures
        record_offsets(entries.take(k), count).len() == k,
        record_offsets(entries.take(k), count)[m] == prefix_upto(entries, count, m).len(),
    decreases k,
{
    lemma_offsets_len(entries, count, k);
    lemma_prefix_step(entries, count, k - 1);
    if m < k - 1 {
        lemma_offsets_at(entries, count, m, k - 1);
    }
}

proof fn lemma_offsets_len(entries: Seq<EntryValue>, count: u32, k: int)
    requires
        0 <= k <= entries.len(),
    ensures
        record_offsets(entries.take(k), count).len() == k,
    decreases k,
{
    if k > 0 {
        lemma_offsets_len(entries, count, k - 1);
        lemma_prefix_step(entries, count, k - 1);
    } else {
        assert(entries.take(0).len() == 0);
    }
}


/// Objects that a packfile carries back as they were written: of a type
/// that is not a delta, with the length of their content as their size,
/// and with contents that four offset bytes can address.
pub open spec fn readable_entries(entries: Seq<EntryValue>) -> bool {
    forall|k: int|
        0 <= k < entries.len() ==> {
            &&& (#[trigger] entries[k]).obj_type != ObjectType::OfsDelta
            &&& entries[k].obj_type != ObjectType::RefDelta
            &&& entries[k].size == entries[k].content.len()
            &&& entries[k].content.len() < 0x1_0000_0000
        }
}

/// What is compressed for each of the first `n` records inflates back.
pub open spec fn payloads_inflate(entries: Seq<EntryValue>, n: int) -> bool {
    forall|m: int| 0 <= m < n ==> inflates_back(#[trigger] record_payload(entries[m], entries.take(m)))
}

/// A delta stream made against `base` turns `base` back into `object`.
proof fn lemma_delta_stream_object(base: EntryValue, object: EntryValue)
    requires
        base.obj_type == object.obj_type,
        base.size == base.content.len() < 0x1_0000_0000,
        object.size == object.content.len() < 0x1_0000_0000,
    ensures
        delta_object(base, delta_stream(base, object)) == Ok::<EntryValue, PackError>(object),
{
    vstd::arithmetic::power2::lemma2_to64();
    assert(usize::MAX >= 0xFFFF_FFFF);
    let ops = delta_ops(base.content, object.content);
    let stream = delta_stream(base, object);
    let s1 = size_encoding(base.size);
    let s2 = size_encoding(object.size);
    assert(stream == Seq::<u8>::empty() + s1 + (s2 + ops_encoding(ops)));
    lemma_size_read_at(Seq::<u8>::empty(), base.size, s2 + ops_encoding(ops));
    assert(stream == s1 + s2 + ops_encoding(ops));
    lemma_size_read_at(s1, object.size, ops_encoding(ops));
    assert(stream.skip((s1.len() + s2.len()) as int) == ops_encoding(ops));
    law_delta_recreates_object(base.content, object.content);
    lemma_delta_ops_copies(base.content, object.content);
    lemma_encodable_in_small_base(ops, base.content.len());
    law_delta_encoding_roundtrip(base.content, ops);
}

/// An object written whole is read back at the start of its record.
proof fn lemma_plain_read(before: Seq<u8>, object: EntryValue, after: Seq<u8>)
    requires
        object.obj_type != ObjectType::OfsDelta,
        object.obj_type != ObjectType::RefDelta,
        object.size == object.content.len() < 0x1_0000_0000,
        inflates_back(object.content),
    ensures
        entry_at(before + plain_record(object) + after, before.len()) == Ok::<(EntryValue, nat), PackError>(
            (object, before.len() + plain_record(object).len()),
        ),
{
    vstd::arithmetic::power2::lemma2_to64();
    assert(usize::MAX >= 0xFFFF_FFFF);
    let h = object_header_bytes(type_code(object.obj_type), object.size);
    let z = zlib_deflate(object.content);
    let d = before + plain_record(object) + after;
    assert(d == before + h + (z + after));
    law_object_header_roundtrip(object.obj_type, object.size as usize, before, z + after);
    let p1 = before.len() + h.len();
    assert(d.skip(p1 as int) == z + after);
    assert(zlib_inflate(z + after) == Some((object.content, z.len())));
    assert(plain_entry(object.obj_type, object.size, d, p1) == Ok::<(EntryValue, nat), PackError>(
        (object, p1 + z.len()),
    ));
}

/// An object written as a delta is read back at the start of its record,
/// once its base is read back `dist` bytes before.
proof fn lemma_delta_read(
    before: Seq<u8>,
    base: EntryValue,
    object: EntryValue,
    dist: nat,
    after: Seq<u8>,
    base_end: nat,
)
    requires
        0 < dist <= before.len(),
        dist < usize::MAX,
        base.obj_type == object.obj_type,
        base.size == base.content.len() < 0x1_0000_0000,
        object.size == object.content.len() < 0x1_0000_0000,
        inflates_back(delta_stream(base, object)),
        entry_at(before + delta_record(base, object, dist) + after, (before.len() - dist) as nat)
            == Ok::<(EntryValue, nat), PackError>((base, base_end)),
    ensures
        entry_at(before + delta_record(base, object, dist) + after, before.len()) == Ok::<
            (EntryValue, nat),
            PackError,
        >((object, before.len() + delta_record(base, object, dist).len())),
{
    let h = object_header_bytes(type_code(ObjectType::OfsDelta), 7);
    let oe = offset_encoding(dist);
    let stream = delta_stream(base, object);
    let z = zlib_deflate(stream);
    let d = before + delta_record(base, object, dist) + after;
    assert(d == before + h + (oe + z + after));
    law_object_header_roundtrip(ObjectType::OfsDelta, 7, before, oe + z + after);
    let p1 = before.len() + h.len();
    assert(d == before + h + oe + (z + after));
    lemma_offset_read_at(before + h, dist, z + after);
    let p2 = p1 + oe.len();
    assert(d.skip(p2 as int) == z + after);
    assert(zlib_inflate(z + after) == Some((stream, z.len())));
    lemma_delta_stream_object(base, object);
    assert(delta_entry(base, d, p2) == Ok::<(EntryValue, nat), PackError>((object, p2 + z.len())));
}

proof fn lemma_entry_readback(pre: Seq<u8>, entries: Seq<EntryValue>, count: u32, tail: Seq<u8>, k: int)
    requires
        0 <= k < entries.len(),
        readable_entries(entries),
        payloads_inflate(entries, entries.len() as int),
        prefix_upto(entries, count, entries.len() as int).len() < usize::MAX,
    ensures
        entry_at(
            pre + prefix_upto(entries, count, entries.len() as int) + tail,
            pre.len() + prefix_upto(entries, count, k).len(),
        ) == Ok::<(EntryValue, nat), PackError>((entries[k], pre.len() + prefix_upto(entries, count, k + 1).len())),
    decreases k,
{
    let n = entries.len() as int;
    let full = prefix_upto(entries, count, n);
    let d = pre + full + tail;
    let pk = prefix_upto(entries, count, k);
    let pk1 = prefix_upto(entries, count, k + 1);
    let object = entries[k];
    let done = entries.take(k);
    let rec = pack_record(object, done, record_offsets(done, count), pk.len());
    lemma_prefix_step(entries, count, k);
    lemma_prefix_of(entries, count, k + 1, n);
    let after = full.skip(pk1.len() as int) + tail;
    assert(full == pk1 + full.skip(pk1.len() as int)) by {
        assert(full.take(pk1.len() as int) == pk1);
        assert(full == full.take(pk1.len() as int) + full.skip(pk1.len() as int));
    }
    assert(d == pre + pk + rec + after);
    assert(object.obj_type != ObjectType::OfsDelta && object.obj_type != ObjectType::RefDelta);
    assert(object.size == object.content.len() && object.content.len() < 0x1_0000_0000);
    assert(inflates_back(record_payload(entries[k], entries.take(k))));
    match delta_base(object, done) {
        Some(j) => {
            lemma_closest_index(object.size, done);
            let base = entries[j];
            assert(done[j] == base);
            assert(base.size == base.content.len() && base.content.len() < 0x1_0000_0000);
            let pj = prefix_upto(entries, count, j);
            lemma_offsets_at(entries, count, j, k);
            lemma_prefix_step(entries, count, j);
            lemma_prefix_of(entries, count, j + 1, k);
            lemma_prefix_of(entries, count, k, n);
            let dist = (pk.len() - pj.len()) as nat;
            lemma_entry_readback(pre, entries, count, tail, j);
            assert(rec == delta_record(base, object, dist));
            lemma_delta_read(pre + pk, base, object, dist, after, pre.len() + prefix_upto(entries, count, j + 1).len());
        },
        None => {
            lemma_plain_read(pre + pk, object, after);
        },
    }
}


/// Where the `k`-th of `entries` starts in the packfile that
/// `create_packfile` writes of them, before its checksum; for
/// `k == entries.len()`, where the checksum starts.
pub open spec fn record_start(entries: Seq<EntryValue>, k: int) -> nat {
    prefix_upto(entries, entries.len() as u32, k).len()
}

/// Every object of a packfile written with `count` announced objects is
/// read back, by a reader that skips one leading byte, at the start of its
/// record, and the reader then stands at the start of the next record.
pub(crate) proof fn lemma_packfile_steps(b: u8, entries: Seq<EntryValue>, count: u32, tail: Seq<u8>, k: int)
    requires
        0 <= k < entries.len(),
        readable_entries(entries),
        payloads_inflate(entries, entries.len() as int),
        prefix_upto(entries, count, entries.len() as int).len() < usize::MAX,
    ensures
        step_at(
            seq![b] + prefix_upto(entries, count, entries.len() as int) + tail,
            1 + prefix_upto(entries, count, k).len(),
        ) == Ok::<StepValue, PackError>(
            StepValue::Entry(entries[k], 1 + prefix_upto(entries, count, k + 1).len()),
        ),
{
    lemma_entry_readback(seq![b], entries, count, tail, k);
}

/// A packfile written with `count` announced objects starts, after one
/// leading byte, with what the reader accepts and announces `count`.
pub(crate) proof fn lemma_packfile_start(b: u8, entries: Seq<EntryValue>, count: u32, tail: Seq<u8>)
    requires
        tail.len() >= 1,
    ensures
        pack_start(seq![b] + prefix_upto(entries, count, entries.len() as int) + tail) == Ok::<nat, PackError>(
            count as nat,
        ),
{
    let n = entries.len() as int;
    let full = prefix_upto(entries, count, n);
    lemma_prefix_of(entries, count, 0, n);
    assert(entries.take(0).len() == 0);
    let h = pack_header_bytes(count);
    assert(prefix_upto(entries, count, 0) == h);
    assert(h.len() == 12);
    let d = seq![b] + full + tail;
    assert(d.subrange(0, 13) == seq![b] + h) by {
        assert(full.take(12) == h);
        assert forall|i: int| 0 <= i < 13 implies #[trigger] d.subrange(0, 13)[i] == (seq![b] + h)[i] by {
            if i > 0 {
                assert(d[i] == full[i - 1]);
                assert(full[i - 1] == full.take(12)[i - 1]);
            }
        }
    }
    assert(d.subrange(1, 5) == pack_signature()) by {
        assert forall|i: int| 0 <= i < 4 implies #[trigger] d.subrange(1, 5)[i] == pack_signature()[i] by {
            assert(d.subrange(1, 5)[i] == d.subrange(0, 13)[i + 1]);
        }
    }
    assert(d.subrange(5, 9) == seq![0u8, 0u8, 0u8, 2u8]) by {
        assert forall|i: int| 0 <= i < 4 implies #[trigger] d.subrange(5, 9)[i] == seq![0u8, 0u8, 0u8, 2u8][i] by {
            assert(d.subrange(5, 9)[i] == d.subrange(0, 13)[i + 5]);
        }
    }
    assert(d.subrange(9, 13) == be_bytes(count)) by {
        assert forall|i: int| 0 <= i < 4 implies #[trigger] d.subrange(9, 13)[i] == be_bytes(count)[i] by {
            assert(d.subrange(9, 13)[i] == d.subrange(0, 13)[i + 9]);
        }
    }
    let c = count as nat;
    assert(be_u32(be_bytes(count)) == c) by (nonlinear_arith)
        requires
            be_bytes(count)[0] == (count / 16777216) as u8,
            be_bytes(count)[1] == (count / 65536 % 256) as u8,
            be_bytes(count)[2] == (count / 256 % 256) as u8,
            be_bytes(count)[3] == (count % 256) as u8,
            be_u32(be_bytes(count)) == ((be_bytes(count)[0] as nat * 256 + be_bytes(count)[1] as nat) * 256
                + be_bytes(count)[2] as nat) * 256 + be_bytes(count)[3] as nat,
            c == count,
    ;
}

} // verus!
