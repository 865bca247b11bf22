//! Delta commands and the variable length integer encodings of packfiles.
use vstd::prelude::*;

verus! {

/// Value of a little-endian base-128 size encoding: the low seven bits of
/// byte `i` weigh `128^i`.
pub open spec fn size_value(bytes: Seq<u8>) -> nat
    decreases bytes.len(),
{
    if bytes.len() == 0 {
        0
    } else {
        (bytes[0] % 128) as nat + 128 * size_value(bytes.drop_first())
    }
}

/// The size encoding of `n`: seven bits per byte, least significant group
/// first, the high bit set on every byte but the last.
pub open spec fn size_encoding(n: nat) -> Seq<u8>
    decreases n,
{
    if n < 128 {
        seq![n as u8]
    } else {
        seq![((n % 128) + 128) as u8] + size_encoding(n / 128)
    }
}

/// Encode an usize with the variable length encoding.
pub fn encode_size(n: usize) -> (encoded: Vec<u8>)
    ensures
        encoded@ == size_encoding(n as nat),
{
    let ghost n0 = n;
    let mut n = n;
    let mut encoded_size: Vec<u8> = Vec::new();
    while n >= 128
        invariant
            encoded_size@ + size_encoding(n as nat) == size_encoding(n0 as nat),
        decreases n,
    {
        assert((n as u8 & 0x7F) | 0x80 == ((n % 128) + 128) as u8) by (bit_vector);
        let ghost before = encoded_size@;
        encoded_size.push(((n as u8) & 0x7F) | 0x80);
        assert(n >> 7 == n / 128) by (bit_vector);
        assert(size_encoding(n as nat) == seq![((n % 128) + 128) as u8] + size_encoding((n / 128) as nat));
        assert(encoded_size@ + size_encoding((n / 128) as nat) == before + size_encoding(n as nat));
        n = n >> 7;
    }
    encoded_size.push(n as u8);
    encoded_size
}

} // verus!

verus! {

/// The value of `k` size-encoding bytes is below `2^(7k)`.
pub proof fn lemma_size_value_bound(bytes: Seq<u8>)
    ensures
        size_value(bytes) < vstd::arithmetic::power2::pow2(7 * bytes.len()),
    decreases bytes.len(),
{
    vstd::arithmetic::power2::lemma_pow2_pos(7 * bytes.len());
    if bytes.len() > 0 {
        lemma_size_value_bound(bytes.drop_first());
        let k = bytes.drop_first().len();
        vstd::arithmetic::power2::lemma_pow2_adds(7, 7 * k);
        vstd::arithmetic::power2::lemma2_to64();
        assert(7 * bytes.len() == 7 + 7 * k);
        let p = vstd::arithmetic::power2::pow2(7 * k);
        assert(size_value(bytes) == (bytes[0] % 128) as nat + 128 * size_value(bytes.drop_first()));
        assert((bytes[0] % 128) as nat + 128 * size_value(bytes.drop_first()) < 128 * p) by (nonlinear_arith)
            requires size_value(bytes.drop_first()) < p, (bytes[0] % 128) < 128;
    }
}

/// Powers of two grow with their exponent.
pub proof fn lemma_pow2_mono(e1: nat, e2: nat)
    requires
        e1 <= e2,
    ensures
        vstd::arithmetic::power2::pow2(e1) <= vstd::arithmetic::power2::pow2(e2),
{
    if e1 < e2 {
        vstd::arithmetic::power2::lemma_pow2_strictly_increases(e1, e2);
    }
}

/// The value of at most ten size-encoding bytes, computed exactly.
pub fn size_value_wide(bytes: &[u8]) -> (value: u128)
    requires
        bytes@.len() <= 10,
    ensures
        value == size_value(bytes@),
        value < vstd::arithmetic::power2::pow2(7 * bytes@.len()),
{
    let len = bytes.len();
    proof {
        lemma_size_value_bound(bytes@);
    }
    let mut acc: u128 = 0;
    let mut i: usize = len;
    while i > 0
        invariant
            len == bytes@.len(),
            len <= 10,
            i <= len,
            acc == size_value(bytes@.skip(i as int)),
        decreases i,
    {
        proof {
            lemma_size_value_bound(bytes@.skip(i as int));
            vstd::arithmetic::power2::lemma2_to64_rest();
            lemma_pow2_mono(7 * (len - i) as nat, 63);
            assert(bytes@.skip(i - 1).drop_first() == bytes@.skip(i as int));
        }
        i = i - 1;
        let b = bytes[i];
        assert(b & 0x7F == b % 128) by (bit_vector);
        acc = ((b & 0x7F) as u128) + 128 * acc;
    }
    assert(bytes@.skip(0) == bytes@);
    acc
}

/// Decode an usize from the bytes of a size encoding. Bits above the width
/// of `usize` are dropped, as the shifts of the encoding drop them.
pub fn decode_size(bytes: &[u8]) -> (n: usize)
    requires
        bytes@.len() == 0 || (bytes@.len() - 1) * 7 < usize::BITS,
    ensures
        n as nat == size_value(bytes@) % (usize::MAX as nat + 1),
{
    let acc = size_value_wide(bytes);
    let n = acc as usize;
    assert(usize::BITS == 64 ==> n as u128 == acc % 0x1_0000_0000_0000_0000u128) by (bit_vector)
        requires n == acc as usize;
    assert(usize::BITS == 32 ==> n as u128 == acc % 0x1_0000_0000u128) by (bit_vector)
        requires n == acc as usize;
    n
}

} // verus!

verus! {

/// Every usize has a size encoding that `decode_size` accepts and decodes
/// back to it.
pub proof fn lemma_size_encoding_length(n: nat, k: nat)
    requires
        k >= 1,
        n < vstd::arithmetic::power2::pow2(7 * k),
    ensures
        size_encoding(n).len() <= k,
    decreases n,
{
    if n >= 128 {
        vstd::arithmetic::power2::lemma_pow2_adds(7, 7 * (k - 1) as nat);
        vstd::arithmetic::power2::lemma2_to64();
        if k == 1 {
            assert(false);
        }
        assert(7 * k == 7 + 7 * (k - 1) as nat);
        let p = vstd::arithmetic::power2::pow2(7 * (k - 1) as nat);
        assert(n / 128 < p) by (nonlinear_arith)
            requires n < 128 * p;
        lemma_size_encoding_length(n / 128, (k - 1) as nat);
    }
}

/// The size encoding decodes back to the number it encodes.
pub proof fn lemma_size_encoding_value(n: nat)
    ensures
        size_value(size_encoding(n)) == n,
    decreases n,
{
    let e = size_encoding(n);
    if n >= 128 {
        lemma_size_encoding_value(n / 128);
        assert(e.drop_first() == size_encoding(n / 128));
        assert(e[0] % 128 == n % 128);
    } else {
        assert(e.drop_first().len() == 0);
        assert(size_value(e.drop_first()) == 0);
    }
    assert(size_value(e) == (e[0] % 128) as nat + 128 * size_value(e.drop_first()));
}

/// Law: `decode_size` accepts what `encode_size` writes and gives back the
/// number that was encoded.
pub proof fn law_size_roundtrip(n: usize)
    ensures
        size_encoding(n as nat).len() >= 1,
        (size_encoding(n as nat).len() - 1) * 7 < usize::BITS,
        size_value(size_encoding(n as nat)) % (usize::MAX as nat + 1) == n,
{
    lemma_size_encoding_value(n as nat);
    vstd::arithmetic::power2::lemma2_to64();
    vstd::arithmetic::power2::lemma2_to64_rest();
    if usize::BITS == 64 {
        lemma_pow2_mono(64, 70);
        assert(n < vstd::arithmetic::power2::pow2(64));
        lemma_size_encoding_length(n as nat, 10);
    } else {
        lemma_pow2_mono(32, 35);
        assert(n < vstd::arithmetic::power2::pow2(32));
        lemma_size_encoding_length(n as nat, 5);
    }
    assert(n < usize::MAX as nat + 1);
}

/// The offset encoding of `n`: seven bits per byte, most significant group
/// first, every group but the last stored minus one, the high bit set on
/// every byte but the last. `last` tells whether this group is the last one.
pub open spec fn offset_groups(n: nat, last: bool) -> Seq<u8>
    decreases n,
{
    let b: u8 = if last { (n % 128) as u8 } else { ((n % 128) + 128) as u8 };
    if n < 128 {
        seq![b]
    } else {
        offset_groups((n / 128 - 1) as nat, false) + seq![b]
    }
}

/// The offset encoding of `n`.
pub open spec fn offset_encoding(n: nat) -> Seq<u8> {
    offset_groups(n, true)
}

/// What the offset decoder has accumulated after reading `bytes`: each byte
/// shifts the 64-bit accumulator seven bits up (dropping what leaves it),
/// adds the low seven bits of the byte, then adds one.
pub open spec fn offset_acc(bytes: Seq<u8>) -> nat
    decreases bytes.len(),
{
    if bytes.len() == 0 {
        0
    } else {
        (offset_acc(bytes.drop_last()) % 0x200_0000_0000_0000) * 128 + (bytes.last() % 128) as nat + 1
    }
}

/// The accumulator of the offset decoder stays below `2^64` at every step.
pub open spec fn offset_fits(bytes: Seq<u8>) -> bool
    decreases bytes.len(),
{
    bytes.len() == 0 || (offset_fits(bytes.drop_last()) && offset_acc(bytes) <= u64::MAX)
}

/// Decode an offset from the bytes of an offset encoding.
pub fn decode_offset(bytes: &[u8]) -> (value: u64)
    requires
        bytes@.len() > 0,
        offset_fits(bytes@),
    ensures
        value == offset_acc(bytes@) - 1,
{
    let mut value: u64 = 0;
    let mut i: usize = 0;
    while i < bytes.len()
        invariant
            i <= bytes@.len(),
            offset_fits(bytes@),
            value == offset_acc(bytes@.take(i as int)),
        decreases bytes@.len() - i,
    {
        proof {
            lemma_offset_fits_prefix(bytes@, i as int + 1);
            assert(bytes@.take(i + 1).drop_last() == bytes@.take(i as int));
        }
        let b = bytes[i];
        let shifted = value << 7;
        assert(shifted == (value % 0x200_0000_0000_0000) * 128) by (bit_vector)
            requires shifted == value << 7;
        assert(shifted | (b & 0x7F) as u64 == shifted + (b % 128) as u64) by (bit_vector)
            requires shifted == value << 7;
        value = shifted | (b & 0x7F) as u64;
        value = value + 1;
        i = i + 1;
    }
    assert(bytes@.take(bytes@.len() as int) == bytes@);
    value - 1
}

/// Every prefix of bytes that fit the offset decoder fits it too.
pub proof fn lemma_offset_fits_prefix(bytes: Seq<u8>, k: int)
    requires
        offset_fits(bytes),
        0 <= k <= bytes.len(),
    ensures
        offset_fits(bytes.take(k)),
        k > 0 ==> offset_acc(bytes.take(k)) <= u64::MAX,
    decreases bytes.len(),
{
    if k < bytes.len() {
        assert(bytes.drop_last().take(k) == bytes.take(k));
        lemma_offset_fits_prefix(bytes.drop_last(), k);
    } else {
        assert(bytes.take(k) == bytes);
    }
}

} // verus!

verus! {

/// The groups that the offset encoder emits, last group first, while it
/// counts `m` down to zero: `m` is one more than the value still to encode.
pub open spec fn offset_groups_reversed(m: nat) -> Seq<u8>
    decreases m,
{
    if m == 0 {
        seq![]
    } else {
        seq![((((m - 1) as nat) % 128) + 128) as u8] + offset_groups_reversed(((m - 1) as nat) / 128)
    }
}

proof fn lemma_offset_groups_reversed(n: nat)
    ensures
        offset_groups_reversed(n + 1).reverse() == offset_groups(n, false),
        offset_groups_reversed(n + 1).len() >= 1,
    decreases n,
{
    let r = offset_groups_reversed(n + 1);
    assert(r == seq![((n % 128) + 128) as u8] + offset_groups_reversed(n / 128));
    if n >= 128 {
        lemma_offset_groups_reversed((n / 128 - 1) as nat);
        assert((n / 128 - 1) as nat + 1 == n / 128);
        assert(r.reverse() == offset_groups_reversed(n / 128).reverse() + seq![((n % 128) + 128) as u8]);
    } else {
        assert(offset_groups_reversed(0) =~= seq![]);
        assert(r.reverse() =~= seq![((n % 128) + 128) as u8]);
    }
}

proof fn lemma_offset_groups_last(n: nat)
    ensures
        offset_groups(n, true) == offset_groups(n, false).update(
            offset_groups(n, false).len() - 1,
            (n % 128) as u8,
        ),
        offset_groups(n, false).len() >= 1,
    decreases n,
{
    if n >= 128 {
        lemma_offset_groups_last((n / 128 - 1) as nat);
        assert(offset_groups(n, true) =~= offset_groups(n, false).update(
            offset_groups(n, false).len() - 1,
            (n % 128) as u8,
        ));
    } else {
        assert(offset_groups(n, true) =~= offset_groups(n, false).update(0, (n % 128) as u8));
    }
}

/// Encode an usize with the offset encoding.
pub fn encode_offset(n: usize) -> (encoded: Vec<u8>)
    requires
        n < usize::MAX,
    ensures
        encoded@ == offset_encoding(n as nat),
{
    let mut reversed: Vec<u8> = Vec::new();
    let mut m = n + 1;
    proof {
        lemma_offset_groups_reversed(n as nat);
    }
    while m > 0
        invariant
            reversed@ + offset_groups_reversed(m as nat) == offset_groups_reversed(n as nat + 1),
        decreases m,
    {
        let ghost before = reversed@;
        m = m - 1;
        assert((m as u8 & 0x7F) | 0x80 == ((m % 128) + 128) as u8) by (bit_vector);
        reversed.push(((m as u8) & 0x7F) | 0x80);
        assert(m >> 7 == m / 128) by (bit_vector);
        assert(offset_groups_reversed(m as nat + 1) == seq![((m % 128) + 128) as u8]
            + offset_groups_reversed((m / 128) as nat));
        assert(reversed@ + offset_groups_reversed((m / 128) as nat) == before
            + offset_groups_reversed(m as nat + 1));
        m = m >> 7;
    }
    assert(reversed@ == offset_groups_reversed(n as nat + 1));
    let first = reversed[0];
    reversed.set(0, first & 0x7F);
    let len = reversed.len();
    let mut encoded: Vec<u8> = Vec::new();
    let mut i: usize = len;
    while i > 0
        invariant
            i <= len,
            len == reversed@.len(),
            encoded@ == reversed@.subrange(i as int, len as int).reverse(),
        decreases i,
    {
        i = i - 1;
        encoded.push(reversed[i]);
        assert(reversed@.subrange(i as int, len as int).reverse()
            =~= reversed@.subrange(i + 1, len as int).reverse().push(reversed@[i as int]));
    }
    proof {
        lemma_offset_groups_last(n as nat);
        let g = offset_groups(n as nat, false);
        assert(reversed@.subrange(0, len as int) == reversed@);
        assert(first % 128 == (n as nat) % 128) by {
            assert(first == ((n % 128) + 128) as u8);
        }
        assert(first & 0x7F == first % 128) by (bit_vector);
        assert(encoded@ =~= g.update(g.len() - 1, (n % 128) as u8));
    }
    encoded
}

proof fn lemma_offset_groups_acc(n: nat, last: bool)
    requires
        n < u64::MAX,
    ensures
        offset_acc(offset_groups(n, last)) == n + 1,
        offset_fits(offset_groups(n, last)),
        offset_groups(n, last).len() >= 1,
    decreases n,
{
    let g = offset_groups(n, last);
    if n >= 128 {
        let p = (n / 128 - 1) as nat;
        lemma_offset_groups_acc(p, false);
        assert(g.drop_last() == offset_groups(p, false));
        assert(p + 1 == n / 128);
        assert(p + 1 < 0x200_0000_0000_0000);
        assert(g.last() % 128 == n % 128);
        assert(offset_acc(g) == ((p + 1) % 0x200_0000_0000_0000) * 128 + (n % 128) + 1);
        assert(n == (n / 128) * 128 + n % 128);
    } else {
        assert(g.drop_last() =~= seq![]);
        assert(offset_acc(g.drop_last()) == 0);
        assert(offset_fits(g.drop_last()));
        assert(g.last() % 128 == n % 128);
        assert(offset_acc(g) == (0nat % 0x200_0000_0000_0000) * 128 + (n % 128) + 1);
    }
}

/// Law: `decode_offset` accepts what `encode_offset` writes and gives back
/// the offset that was encoded.
pub proof fn law_offset_roundtrip(n: usize)
    requires
        n < usize::MAX,
    ensures
        offset_encoding(n as nat).len() > 0,
        offset_fits(offset_encoding(n as nat)),
        offset_acc(offset_encoding(n as nat)) - 1 == n,
{
    lemma_offset_groups_acc(n as nat, true);
}

} // verus!

verus! {

/// Largest size that one copy command can carry.
pub const MAX_COPY_SIZE: usize = 0xFFFFFF;

/// Largest number of bytes that one insert command can carry.
pub const MAX_INSERT_SIZE: usize = 0x7F;

/// Size of a copy command whose size field is absent.
pub const COPY_ZERO_SIZE: usize = 0x10000;

/// A delta command
///
/// * `Copy` - copy `size` bytes of the base object, starting at `offset`
/// * `Insert` - insert the given bytes
#[derive(Debug, Clone)]
pub enum Command {
    Copy { offset: usize, size: usize },
    Insert(Vec<u8>),
}

/// A delta command as a mathematical value.
pub enum DeltaOp {
    Copy { offset: nat, size: nat },
    Insert(Seq<u8>),
}

impl View for Command {
    type V = DeltaOp;

    open spec fn view(&self) -> DeltaOp {
        match self {
            Command::Copy { offset, size } => DeltaOp::Copy { offset: *offset as nat, size: *size as nat },
            Command::Insert(bytes) => DeltaOp::Insert(bytes@),
        }
    }
}

/// The commands of a sequence as mathematical values.
pub open spec fn ops_of(commands: Seq<Command>) -> Seq<DeltaOp> {
    commands.map_values(|c: Command| c@)
}

/// What one command produces from `base`.
pub open spec fn op_output(base: Seq<u8>, op: DeltaOp) -> Seq<u8> {
    match op {
        DeltaOp::Copy { offset, size } => base.subrange(offset as int, (offset + size) as int),
        DeltaOp::Insert(bytes) => bytes,
    }
}

/// A command reads only inside a base of `len` bytes.
pub open spec fn op_in_bounds(op: DeltaOp, len: nat) -> bool {
    match op {
        DeltaOp::Copy { offset, size } => offset + size <= len,
        DeltaOp::Insert(_) => true,
    }
}

/// Every command reads only inside a base of `len` bytes.
pub open spec fn ops_in_bounds(ops: Seq<DeltaOp>, len: nat) -> bool {
    forall|i: int| 0 <= i < ops.len() ==> op_in_bounds(#[trigger] ops[i], len)
}

/// The object that a sequence of commands recreates from `base`.
pub open spec fn apply_ops(base: Seq<u8>, ops: Seq<DeltaOp>) -> Seq<u8>
    decreases ops.len(),
{
    if ops.len() == 0 {
        seq![]
    } else {
        apply_ops(base, ops.drop_last()) + op_output(base, ops.last())
    }
}

/// Appends `src` to `out`.
fn extend_bytes(out: &mut Vec<u8>, src: &[u8])
    ensures
        final(out)@ == old(out)@ + src@,
{
    let mut i: usize = 0;
    while i < src.len()
        invariant
            i <= src@.len(),
            out@ == old(out)@ + src@.take(i as int),
        decreases src@.len() - i,
    {
        out.push(src[i]);
        i = i + 1;
        assert(src@.take(i as int) == src@.take(i - 1).push(src@[i - 1]));
    }
    assert(src@.take(src@.len() as int) == src@);
}

/// Recreate an object from a base and a sequence of commands.
pub fn recreate_from_commands(base: &[u8], commands: &[Command]) -> (recreated: Vec<u8>)
    requires
        ops_in_bounds(ops_of(commands@), base@.len()),
    ensures
        recreated@ == apply_ops(base@, ops_of(commands@)),
{
    let mut recreated: Vec<u8> = Vec::new();
    let mut i: usize = 0;
    while i < commands.len()
        invariant
            i <= commands@.len(),
            ops_in_bounds(ops_of(commands@), base@.len()),
            recreated@ == apply_ops(base@, ops_of(commands@.take(i as int))),
        decreases commands@.len() - i,
    {
        let ghost ops = ops_of(commands@.take(i + 1));
        assert(ops.drop_last() == ops_of(commands@.take(i as int)));
        assert(ops.last() == commands@[i as int]@);
        assert(ops_of(commands@)[i as int] == commands@[i as int]@);
        assert(op_in_bounds(ops_of(commands@)[i as int], base@.len()));
        let c = &commands[i];
        match c {
            Command::Copy { offset, size } => {
                assert(c@ == DeltaOp::Copy { offset: *offset as nat, size: *size as nat });
                assert(*offset as nat + *size as nat <= base@.len());
                let base_len = base.len();
                assert(*offset as nat + *size as nat <= base_len);
                let copied = vstd::slice::slice_subrange(base, *offset, *offset + *size);
                extend_bytes(&mut recreated, copied);
            },
            Command::Insert(bytes) => {
                extend_bytes(&mut recreated, bytes.as_slice());
            },
        }
        i = i + 1;
    }
    assert(commands@.take(commands@.len() as int) == commands@);
    recreated
}

} // verus!

verus! {

/// The `k` lowest bytes of `x`, least significant first.
pub open spec fn le_bytes(x: nat, k: nat) -> Seq<u8>
    decreases k,
{
    if k == 0 {
        seq![]
    } else {
        seq![(x % 256) as u8] + le_bytes(x / 256, (k - 1) as nat)
    }
}

/// The bytes of `bytes` that are not zero, in order.
pub open spec fn nonzero_bytes(bytes: Seq<u8>) -> Seq<u8>
    decreases bytes.len(),
{
    if bytes.len() == 0 {
        seq![]
    } else {
        nonzero_bytes(bytes.drop_last()) + if bytes.last() != 0 { seq![bytes.last()] } else { seq![] }
    }
}

/// The bit mask telling which bytes of `bytes` are not zero: bit `i` is set
/// when byte `i` is not zero.
pub open spec fn presence_mask(bytes: Seq<u8>) -> nat
    decreases bytes.len(),
{
    if bytes.len() == 0 {
        0
    } else {
        presence_mask(bytes.drop_last()) + if bytes.last() != 0 {
            vstd::arithmetic::power2::pow2((bytes.len() - 1) as nat)
        } else {
            0
        }
    }
}

/// The encoding of one copy command whose size fits in three bytes: a
/// header byte with the high bit set, whose low four bits tell which of the
/// four low bytes of the offset follow and whose next three bits tell which
/// of the three low bytes of the size follow; then those bytes.
pub open spec fn copy_encoding_single(offset: nat, size: nat) -> Seq<u8> {
    seq![(128 + presence_mask(le_bytes(offset, 4)) + 16 * presence_mask(le_bytes(size, 3))) as u8]
        + nonzero_bytes(le_bytes(offset, 4)) + nonzero_bytes(le_bytes(size, 3))
}

/// The encoding of a copy command: one that is too large is split into
/// copies of at most `MAX_COPY_SIZE` bytes.
pub open spec fn copy_encoding(offset: nat, size: nat) -> Seq<u8>
    decreases size,
{
    if size > MAX_COPY_SIZE {
        copy_encoding(offset, MAX_COPY_SIZE as nat) + copy_encoding(
            offset + MAX_COPY_SIZE as nat,
            (size - MAX_COPY_SIZE) as nat,
        )
    } else {
        copy_encoding_single(offset, size)
    }
}

/// The encoding of an insert command: the bytes are cut in chunks of at most
/// `MAX_INSERT_SIZE` bytes, each preceded by its length.
pub open spec fn insert_encoding(bytes: Seq<u8>) -> Seq<u8>
    decreases bytes.len(),
{
    if bytes.len() == 0 {
        seq![]
    } else if bytes.len() <= MAX_INSERT_SIZE {
        seq![bytes.len() as u8] + bytes
    } else {
        seq![MAX_INSERT_SIZE as u8] + bytes.take(MAX_INSERT_SIZE as int) + insert_encoding(
            bytes.skip(MAX_INSERT_SIZE as int),
        )
    }
}

/// The encoding of a delta command.
pub open spec fn op_encoding(op: DeltaOp) -> Seq<u8> {
    match op {
        DeltaOp::Copy { offset, size } => copy_encoding(offset, size),
        DeltaOp::Insert(bytes) => insert_encoding(bytes),
    }
}

/// The encodings of delta commands, one after the other.
pub open spec fn ops_encoding(ops: Seq<DeltaOp>) -> Seq<u8>
    decreases ops.len(),
{
    if ops.len() == 0 {
        seq![]
    } else {
        ops_encoding(ops.drop_last()) + op_encoding(ops.last())
    }
}

/// The presence mask of `k` bytes is below `2^k`.
proof fn lemma_presence_mask_bound(bytes: Seq<u8>)
    ensures
        presence_mask(bytes) < vstd::arithmetic::power2::pow2(bytes.len()),
    decreases bytes.len(),
{
    vstd::arithmetic::power2::lemma_pow2_pos(bytes.len());
    if bytes.len() > 0 {
        lemma_presence_mask_bound(bytes.drop_last());
        vstd::arithmetic::power2::lemma_pow2_unfold(bytes.len());
        assert(bytes.drop_last().len() == (bytes.len() - 1) as nat);
    }
}

/// `le_bytes(x, k)` has `k` bytes.
pub proof fn lemma_le_bytes_len(x: nat, k: nat)
    ensures
        le_bytes(x, k).len() == k,
    decreases k,
{
    if k > 0 {
        lemma_le_bytes_len(x / 256, (k - 1) as nat);
    }
}

/// The `k` low bytes of `x`, computed with shifts.
fn low_bytes(x: usize, k: usize) -> (bytes: Vec<u8>)
    ensures
        bytes@ == le_bytes(x as nat, k as nat),
{
    let mut bytes: Vec<u8> = Vec::new();
    let mut rest = x;
    let mut i: usize = 0;
    while i < k
        invariant
            i <= k,
            bytes@ + le_bytes(rest as nat, (k - i) as nat) == le_bytes(x as nat, k as nat),
        decreases k - i,
    {
        let ghost before = bytes@;
        assert(rest as u8 == (rest % 256) as u8) by (bit_vector);
        bytes.push(rest as u8);
        assert(rest >> 8 == rest / 256) by (bit_vector);
        assert(le_bytes(rest as nat, (k - i) as nat) == seq![(rest % 256) as u8] + le_bytes(
            (rest / 256) as nat,
            (k - i - 1) as nat,
        ));
        assert(bytes@ + le_bytes((rest / 256) as nat, (k - i - 1) as nat) == before + le_bytes(
            rest as nat,
            (k - i) as nat,
        ));
        rest = rest >> 8;
        i = i + 1;
    }
    assert(le_bytes(rest as nat, 0) == Seq::<u8>::empty());
    bytes
}

/// Pushes the bytes of `bytes` that are not zero onto `encoded`, and returns
/// the presence mask of `bytes` shifted up by `shift` bits.
fn push_present_bytes(encoded: &mut Vec<u8>, bytes: &Vec<u8>, shift: u8) -> (mask: u8)
    requires
        bytes@.len() + shift <= 7,
    ensures
        final(encoded)@ == old(encoded)@ + nonzero_bytes(bytes@),
        mask as nat == vstd::arithmetic::power2::pow2(shift as nat) * presence_mask(bytes@),
{
    let mut mask: u8 = 0;
    let mut i: usize = 0;
    proof {
        vstd::arithmetic::power2::lemma2_to64();
        assert(bytes@.take(0).len() == 0);
        assert(presence_mask(bytes@.take(0)) == 0);
        assert(nonzero_bytes(bytes@.take(0)) == Seq::<u8>::empty());
    }
    while i < bytes.len()
        invariant
            i <= bytes@.len(),
            bytes@.len() + shift <= 7,
            encoded@ == old(encoded)@ + nonzero_bytes(bytes@.take(i as int)),
            mask as nat == vstd::arithmetic::power2::pow2(shift as nat) * presence_mask(bytes@.take(i as int)),
        decreases bytes@.len() - i,
    {
        let ghost prefix = bytes@.take(i + 1);
        assert(prefix.drop_last() == bytes@.take(i as int));
        assert(prefix.last() == bytes@[i as int]);
        proof {
            lemma_presence_mask_bound(bytes@.take(i as int));
            vstd::arithmetic::power2::lemma_pow2_adds(shift as nat, i as nat);
            vstd::arithmetic::power2::lemma2_to64();
            lemma_pow2_mono(shift as nat + i as nat, 6);
            vstd::arithmetic::mul::lemma_mul_strict_inequality(
                presence_mask(bytes@.take(i as int)) as int,
                vstd::arithmetic::power2::pow2(i as nat) as int,
                vstd::arithmetic::power2::pow2(shift as nat) as int,
            );
            vstd::arithmetic::mul::lemma_mul_is_commutative(
                presence_mask(bytes@.take(i as int)) as int,
                vstd::arithmetic::power2::pow2(shift as nat) as int,
            );
            vstd::arithmetic::mul::lemma_mul_is_commutative(
                vstd::arithmetic::power2::pow2(i as nat) as int,
                vstd::arithmetic::power2::pow2(shift as nat) as int,
            );
        }
        let b = bytes[i];
        if b != 0 {
            encoded.push(b);
            let bit: u8 = 1u8 << (i as u8 + shift);
            proof {
                vstd::bits::lemma_u8_shl_is_mul(1, (i as u8 + shift) as u8);
                vstd::arithmetic::mul::lemma_mul_is_distributive_add(
                    vstd::arithmetic::power2::pow2(shift as nat) as int,
                    presence_mask(bytes@.take(i as int)) as int,
                    vstd::arithmetic::power2::pow2(i as nat) as int,
                );
            }
            assert(mask < bit ==> mask | bit == mask + bit) by (bit_vector)
                requires bit == 1u8 << (i as u8 + shift), i as u8 + shift < 7;
            mask = mask | bit;
        }
        i = i + 1;
    }
    assert(bytes@.take(bytes@.len() as int) == bytes@);
    mask
}

/// Encodes one copy command whose size fits in three bytes.
fn encode_copy_single(offset: usize, size: usize) -> (encoded: Vec<u8>)
    requires
        size <= MAX_COPY_SIZE,
    ensures
        encoded@ == copy_encoding_single(offset as nat, size as nat),
{
    let mut body: Vec<u8> = Vec::new();
    let offset_bytes = low_bytes(offset, 4);
    let size_bytes = low_bytes(size, 3);
    proof {
        lemma_le_bytes_len(offset as nat, 4);
        lemma_le_bytes_len(size as nat, 3);
    }
    let offset_mask = push_present_bytes(&mut body, &offset_bytes, 0);
    let size_mask = push_present_bytes(&mut body, &size_bytes, 4);
    proof {
        vstd::arithmetic::power2::lemma2_to64();
        lemma_presence_mask_bound(offset_bytes@);
        lemma_presence_mask_bound(size_bytes@);
    }
    let mut encoded: Vec<u8> = Vec::new();
    encoded.push(0x80 | offset_mask | size_mask);
    assert(0x80 | offset_mask | size_mask == 128 + offset_mask + size_mask) by (bit_vector)
        requires offset_mask < 16, size_mask < 128, size_mask % 16 == 0;
    extend_bytes(&mut encoded, body.as_slice());
    encoded
}

/// The offsets at which a copy of `size` bytes from `offset` is cut in
/// pieces of `MAX_COPY_SIZE` bytes can be computed in a `usize`: each next
/// piece's offset fits.
pub open spec fn copy_offsets_fit(offset: nat, size: nat) -> bool
    decreases size,
{
    if size > MAX_COPY_SIZE {
        offset + MAX_COPY_SIZE <= usize::MAX && copy_offsets_fit(
            offset + MAX_COPY_SIZE as nat,
            (size - MAX_COPY_SIZE) as nat,
        )
    } else {
        true
    }
}

/// A copy whose end fits in a `usize` can be cut in pieces.
pub proof fn lemma_copy_offsets_fit(offset: nat, size: nat)
    requires
        offset + size <= usize::MAX,
    ensures
        copy_offsets_fit(offset, size),
    decreases size,
{
    if size > MAX_COPY_SIZE {
        lemma_copy_offsets_fit(offset + MAX_COPY_SIZE as nat, (size - MAX_COPY_SIZE) as nat);
    }
}

impl Command {
    /// Encode a command into a vector of bytes.
    pub fn encode(&self) -> (encoded: Vec<u8>)
        requires
            self matches Command::Copy { offset, size } ==> copy_offsets_fit(*offset as nat, *size as nat),
        ensures
            encoded@ == op_encoding(self@),
    {
        match self {
            Command::Copy { offset, size } => Self::encode_copy(*offset, *size),
            Command::Insert(bytes) => Self::encode_insert(bytes.as_slice()),
        }
    }

    fn encode_copy(offset: usize, size: usize) -> (encoded: Vec<u8>)
        requires
            copy_offsets_fit(offset as nat, size as nat),
        ensures
            encoded@ == copy_encoding(offset as nat, size as nat),
        decreases size,
    {
        if size > MAX_COPY_SIZE {
            let size_1 = MAX_COPY_SIZE;
            let size_2 = size - MAX_COPY_SIZE;
            let offset_2 = offset + MAX_COPY_SIZE;
            let mut encoded = Self::encode_copy(offset, size_1);
            let mut encoded_2 = Self::encode_copy(offset_2, size_2);
            encoded.append(&mut encoded_2);
            return encoded;
        }
        encode_copy_single(offset, size)
    }

    fn encode_insert(bytes: &[u8]) -> (encoded: Vec<u8>)
        ensures
            encoded@ == insert_encoding(bytes@),
    {
        let mut encoded: Vec<u8> = Vec::new();
        let mut start: usize = 0;
        let len = bytes.len();
        assert(bytes@.skip(0) == bytes@);
        while start < len
            invariant
                start <= len,
                len == bytes@.len(),
                encoded@ + insert_encoding(bytes@.skip(start as int)) == insert_encoding(bytes@),
            decreases len - start,
        {
            let ghost before = encoded@;
            let ghost rest = bytes@.skip(start as int);
            let end = if len - start > MAX_INSERT_SIZE { start + MAX_INSERT_SIZE } else { len };
            let chunk = vstd::slice::slice_subrange(bytes, start, end);
            let chunk_len = chunk.len();
            let header: u8 = 0x7F & (chunk_len as u8);
            assert(header == chunk_len) by (bit_vector)
                requires header == 0x7F & (chunk_len as u8), chunk_len <= 127;
            encoded.push(header);
            extend_bytes(&mut encoded, chunk);
            if end < len {
                assert(rest.take(MAX_INSERT_SIZE as int) == chunk@);
                assert(rest.skip(MAX_INSERT_SIZE as int) == bytes@.skip(end as int));
            } else {
                assert(rest == chunk@);
                assert(bytes@.skip(end as int).len() == 0);
            }
            start = end;
        }
        assert(bytes@.skip(len as int).len() == 0);
        encoded
    }
}

} // verus!

verus! {

/// Why a delta stream could not be read.
#[derive(Debug, Clone, Copy, PartialEq, Eq, Structural)]
pub enum DeltaError {
    /// A command byte was zero.
    InvalidCommand,
    /// The stream ended inside a command or an encoding.
    UnexpectedEof,
    /// A size encoding was longer than the shifts of `usize` allow.
    SizeTooLong,
    /// An offset encoding overflowed its 64-bit accumulator.
    OffsetOverflow,
}

/// Number of bytes of a variable length encoding at the start of `d`: up
/// to and including the first byte whose high bit is clear.
pub open spec fn varint_len(d: Seq<u8>) -> Option<nat>
    decreases d.len(),
{
    if d.len() == 0 {
        None
    } else if d[0] < 128 {
        Some(1)
    } else {
        match varint_len(d.drop_first()) {
            Some(k) => Some(k + 1),
            None => None,
        }
    }
}

/// What reading a size encoding at `pos` of `d` gives: the size and the
/// position after it.
pub open spec fn size_read(d: Seq<u8>, pos: nat) -> Result<(nat, nat), DeltaError> {
    match varint_len(d.skip(pos as int)) {
        None => Err(DeltaError::UnexpectedEof),
        Some(k) => if (k - 1) * 7 < usize::BITS {
            Ok((size_value(d.subrange(pos as int, (pos + k) as int)) % (usize::MAX as nat + 1), pos + k))
        } else {
            Err(DeltaError::SizeTooLong)
        },
    }
}

/// What reading an offset encoding at `pos` of `d` gives: the offset and
/// the position after it.
pub open spec fn offset_read(d: Seq<u8>, pos: nat) -> Result<(nat, nat), DeltaError> {
    match varint_len(d.skip(pos as int)) {
        None => Err(DeltaError::UnexpectedEof),
        Some(k) => if offset_fits(d.subrange(pos as int, (pos + k) as int)) {
            Ok(((offset_acc(d.subrange(pos as int, (pos + k) as int)) - 1) as nat, pos + k))
        } else {
            Err(DeltaError::OffsetOverflow)
        },
    }
}

pub proof fn lemma_varint_len(d: Seq<u8>)
    ensures
        varint_len(d) matches Some(k) ==> 1 <= k <= d.len() && d[k - 1] < 128 && forall|i: int|
            0 <= i < k - 1 ==> d[i] >= 128,
        varint_len(d) is None ==> forall|i: int| 0 <= i < d.len() ==> d[i] >= 128,
    decreases d.len(),
{
    if d.len() > 0 && d[0] >= 128 {
        lemma_varint_len(d.drop_first());
        assert(forall|i: int| 0 < i < d.len() ==> d[i] == d.drop_first()[i - 1]);
    }
}

pub proof fn lemma_varint_len_from(d: Seq<u8>, k: nat)
    requires
        k <= d.len(),
        forall|i: int| 0 <= i < k ==> d[i] >= 128,
    ensures
        varint_len(d) == (match varint_len(d.skip(k as int)) {
            Some(j) => Some(j + k),
            None => None,
        }),
    decreases k,
{
    if k > 0 {
        assert(d.drop_first().skip(k - 1) == d.skip(k as int));
        lemma_varint_len_from(d.drop_first(), (k - 1) as nat);
    } else {
        assert(d.skip(0) == d);
    }
}

/// Reads the bytes of a variable length encoding that starts at `pos`:
/// returns the position after its last byte.
fn read_encoding_bytes(data: &[u8], pos: usize) -> (end: Option<usize>)
    requires
        pos <= data@.len(),
    ensures
        match varint_len(data@.skip(pos as int)) {
            Some(k) => end == Some((pos + k) as usize),
            None => end is None,
        },
{
    let mut i = pos;
    while i < data.len()
        invariant
            pos <= i <= data@.len(),
            forall|j: int| pos <= j < i ==> data@[j] >= 128,
        decreases data@.len() - i,
    {
        if data[i] & 0x80 == 0 {
            let b = data[i];
            assert(b & 0x80 == 0 ==> b < 128) by (bit_vector);
            proof {
                let d = data@.skip(pos as int);
                lemma_varint_len_from(d, (i - pos) as nat);
                assert(d.skip((i - pos) as int)[0] == b);
            }
            return Some(i + 1);
        }
        let b = data[i];
        assert(b & 0x80 != 0 ==> b >= 128) by (bit_vector);
        i = i + 1;
    }
    proof {
        let d = data@.skip(pos as int);
        lemma_varint_len_from(d, (i - pos) as nat);
        assert(d.skip((i - pos) as int).len() == 0);
    }
    None
}

/// Read an usize encoded with the variable length encoding at `pos`.
/// Returns the size and the position after its encoding.
pub fn read_size_encoding(data: &[u8], pos: usize) -> (result: Result<(usize, usize), DeltaError>)
    requires
        pos <= data@.len(),
    ensures
        match result {
            Ok((n, next)) => size_read(data@, pos as nat) == Ok::<(nat, nat), DeltaError>((n as nat, next as nat)),
            Err(e) => size_read(data@, pos as nat) == Err::<(nat, nat), DeltaError>(e),
        },
{
    let data_len = data.len();
    let found = read_encoding_bytes(data, pos);
    match found {
        None => Err(DeltaError::UnexpectedEof),
        Some(end) => {
            proof {
                lemma_varint_len(data@.skip(pos as int));
                if varint_len(data@.skip(pos as int)) is None {
                    assert(false);
                }
                let k = varint_len(data@.skip(pos as int))->Some_0;
                assert(found == Some((pos + k) as usize));
                assert(pos + k <= data_len);
                assert(end == pos + k);
                assert(1 <= k <= data@.len() - pos);
            }
            if (end - pos - 1) >= 10 || (end - pos - 1) * 7 >= usize::BITS as usize {
                return Err(DeltaError::SizeTooLong);
            }
            let bytes = vstd::slice::slice_subrange(data, pos, end);
            Ok((decode_size(bytes), end))
        },
    }
}

/// Read an offset encoded with the offset encoding at `pos`. Returns the
/// offset and the position after its encoding.
pub fn read_offset_encoding(data: &[u8], pos: usize) -> (result: Result<(u64, usize), DeltaError>)
    requires
        pos <= data@.len(),
    ensures
        match result {
            Ok((n, next)) => offset_read(data@, pos as nat) == Ok::<(nat, nat), DeltaError>((n as nat, next as nat)),
            Err(e) => offset_read(data@, pos as nat) == Err::<(nat, nat), DeltaError>(e),
        },
{
    let data_len = data.len();
    let found = read_encoding_bytes(data, pos);
    match found {
        None => Err(DeltaError::UnexpectedEof),
        Some(end) => {
            proof {
                lemma_varint_len(data@.skip(pos as int));
                if varint_len(data@.skip(pos as int)) is None {
                    assert(false);
                }
                let k = varint_len(data@.skip(pos as int))->Some_0;
                assert(found == Some((pos + k) as usize));
                assert(pos + k <= data_len);
                assert(end == pos + k);
                assert(1 <= k <= data@.len() - pos);
            }
            let bytes = vstd::slice::slice_subrange(data, pos, end);
            if !offset_encoding_fits(bytes) {
                return Err(DeltaError::OffsetOverflow);
            }
            Ok((decode_offset(bytes), end))
        },
    }
}

/// Tells whether the offset decoder's accumulator stays below `2^64` on
/// `bytes`.
fn offset_encoding_fits(bytes: &[u8]) -> (fits: bool)
    ensures
        fits == offset_fits(bytes@),
{
    let mut value: u64 = 0;
    let mut i: usize = 0;
    while i < bytes.len()
        invariant
            i <= bytes@.len(),
            offset_fits(bytes@.take(i as int)),
            value == offset_acc(bytes@.take(i as int)),
        decreases bytes@.len() - i,
    {
        assert(bytes@.take(i + 1).drop_last() == bytes@.take(i as int));
        let b = bytes[i];
        let shifted = value << 7;
        assert(shifted == (value % 0x200_0000_0000_0000) * 128) by (bit_vector)
            requires shifted == value << 7;
        assert(shifted | (b & 0x7F) as u64 == shifted + (b % 128) as u64) by (bit_vector)
            requires shifted == value << 7;
        let low = shifted | (b & 0x7F) as u64;
        if low == u64::MAX {
            proof {
                lemma_offset_fits_extend(bytes@, (i + 1) as int);
            }
            return false;
        }
        value = low + 1;
        i = i + 1;
    }
    assert(bytes@.take(bytes@.len() as int) == bytes@);
    true
}

proof fn lemma_offset_fits_extend(bytes: Seq<u8>, k: int)
    requires
        0 < k <= bytes.len(),
        !offset_fits(bytes.take(k)),
    ensures
        !offset_fits(bytes),
    decreases bytes.len(),
{
    if k < bytes.len() {
        assert(bytes.drop_last().take(k) == bytes.take(k));
        lemma_offset_fits_extend(bytes.drop_last(), k);
    } else {
        assert(bytes.take(k) == bytes);
    }
}

} // verus!

verus! {

/// Number of bits set among the `k` low bits of `bits`.
pub open spec fn set_bits(bits: nat, k: nat) -> nat
    decreases k,
{
    if k == 0 {
        0
    } else {
        (bits % 2) + set_bits(bits / 2, (k - 1) as nat)
    }
}

/// The little-endian integer that a copy command stores at the start of
/// `d`: byte `i` of the integer is present, and then taken from `d` in
/// order, when bit `i` of `bits` is set; absent bytes are zero.
pub open spec fn copy_int(d: Seq<u8>, bits: nat, k: nat) -> nat
    decreases k,
{
    if k == 0 {
        0
    } else if bits % 2 == 1 {
        d[0] as nat + 256 * copy_int(d.drop_first(), bits / 2, (k - 1) as nat)
    } else {
        256 * copy_int(d, bits / 2, (k - 1) as nat)
    }
}

/// Puts `op` in front of the commands of a parse, if it succeeded.
pub open spec fn prepend_op(op: DeltaOp, r: Result<Seq<DeltaOp>, DeltaError>) -> Result<Seq<DeltaOp>, DeltaError> {
    match r {
        Ok(ops) => Ok(seq![op] + ops),
        Err(e) => Err(e),
    }
}

/// The commands of a delta stream, read until it ends.
pub open spec fn parse_ops(d: Seq<u8>) -> Result<Seq<DeltaOp>, DeltaError>
    decreases d.len(),
{
    if d.len() == 0 {
        Ok(seq![])
    } else {
        let c = d[0];
        let rest = d.drop_first();
        if c < 128 {
            if c == 0 {
                Err(DeltaError::InvalidCommand)
            } else if rest.len() < c {
                Err(DeltaError::UnexpectedEof)
            } else {
                prepend_op(DeltaOp::Insert(rest.take(c as int)), parse_ops(rest.skip(c as int)))
            }
        } else {
            let offset_bits = (c % 16) as nat;
            let size_bits = ((c / 16) % 8) as nat;
            let n_offset = set_bits(offset_bits, 4);
            let n_size = set_bits(size_bits, 3);
            if rest.len() < n_offset + n_size {
                Err(DeltaError::UnexpectedEof)
            } else {
                let offset = copy_int(rest, offset_bits, 4);
                let size = copy_int(rest.skip(n_offset as int), size_bits, 3);
                let size = if size == 0 { COPY_ZERO_SIZE as nat } else { size };
                prepend_op(
                    DeltaOp::Copy { offset, size },
                    parse_ops(rest.skip((n_offset + n_size) as int)),
                )
            }
        }
    }
}

/// Joins the commands already read to the result of reading the rest.
pub open spec fn after_ops(prefix: Seq<DeltaOp>, r: Result<Seq<DeltaOp>, DeltaError>) -> Result<Seq<DeltaOp>, DeltaError> {
    match r {
        Ok(ops) => Ok(prefix + ops),
        Err(e) => Err(e),
    }
}

proof fn lemma_copy_int_bound(d: Seq<u8>, bits: nat, k: nat)
    ensures
        copy_int(d, bits, k) < vstd::arithmetic::power2::pow2(8 * k),
    decreases k,
{
    vstd::arithmetic::power2::lemma_pow2_pos(8 * k);
    if k > 0 {
        let p = vstd::arithmetic::power2::pow2(8 * (k - 1) as nat);
        if bits % 2 == 1 {
            lemma_copy_int_bound(d.drop_first(), bits / 2, (k - 1) as nat);
        } else {
            lemma_copy_int_bound(d, bits / 2, (k - 1) as nat);
        }
        vstd::arithmetic::power2::lemma_pow2_adds(8, 8 * (k - 1) as nat);
        vstd::arithmetic::power2::lemma2_to64();
        assert(8 * k == 8 + 8 * (k - 1) as nat);
        let v = copy_int(d, bits, k);
        if bits % 2 == 1 {
            let r = copy_int(d.drop_first(), bits / 2, (k - 1) as nat);
            assert(d[0] as nat + 256 * r < 256 * p) by (nonlinear_arith)
                requires r < p, d[0] < 256;
        } else {
            let r = copy_int(d, bits / 2, (k - 1) as nat);
            assert(256 * r < 256 * p) by (nonlinear_arith)
                requires r < p;
        }
    }
}

/// Reads the integer of a copy command at `pos`: its `k` bytes are present
/// as the low `k` bits of `bits` tell. Returns it and the position after it.
fn read_encoded_copy_int(data: &[u8], pos: usize, bits: u8, k: u8) -> (result: (usize, usize))
    requires
        k <= 4,
        pos + set_bits(bits as nat, k as nat) <= data@.len(),
    ensures
        result.0 == copy_int(data@.skip(pos as int), bits as nat, k as nat),
        result.1 == pos + set_bits(bits as nat, k as nat),
    decreases k,
{
    if k == 0 {
        return (0, pos);
    }
    proof {
        vstd::arithmetic::power2::lemma2_to64();
    }
    assert(bits & 1 == bits % 2) by (bit_vector);
    assert(bits >> 1 == bits / 2) by (bit_vector);
    if bits & 1 != 0 {
        let byte = data[pos];
        let (rest, next) = read_encoded_copy_int(data, pos + 1, bits >> 1, k - 1);
        proof {
            assert(data@.skip(pos as int).drop_first() == data@.skip(pos + 1));
            lemma_copy_int_bound(data@.skip(pos + 1), (bits / 2) as nat, (k - 1) as nat);
            lemma_pow2_mono(8 * (k - 1) as nat, 24);
        }
        (byte as usize + 256 * rest, next)
    } else {
        let (rest, next) = read_encoded_copy_int(data, pos, bits >> 1, k - 1);
        proof {
            lemma_copy_int_bound(data@.skip(pos as int), (bits / 2) as nat, (k - 1) as nat);
            lemma_pow2_mono(8 * (k - 1) as nat, 24);
        }
        (256 * rest, next)
    }
}

proof fn lemma_after_prepend(prefix: Seq<DeltaOp>, op: DeltaOp, r: Result<Seq<DeltaOp>, DeltaError>)
    ensures
        after_ops(prefix, prepend_op(op, r)) == after_ops(prefix.push(op), r),
{
    if let Ok(ops) = r {
        assert(prefix + (seq![op] + ops) == prefix.push(op) + ops);
    }
}

/// Read a sequence of delta commands. The sequence ends with the data.
#[verifier::rlimit(40)]
pub fn read_delta_commands(data: &[u8]) -> (result: Result<Vec<Command>, DeltaError>)
    ensures
        match result {
            Ok(commands) => parse_ops(data@) == Ok::<Seq<DeltaOp>, DeltaError>(ops_of(commands@)),
            Err(e) => parse_ops(data@) == Err::<Seq<DeltaOp>, DeltaError>(e),
        },
{
    let mut commands: Vec<Command> = Vec::new();
    let mut pos: usize = 0;
    let len = data.len();
    assert(data@.skip(0) == data@);
    assert(ops_of(commands@) == Seq::<DeltaOp>::empty());
    assert(after_ops(seq![], parse_ops(data@)) == parse_ops(data@));
    while pos < len
        invariant
            pos <= len,
            len == data@.len(),
            parse_ops(data@) == after_ops(ops_of(commands@), parse_ops(data@.skip(pos as int))),
        decreases len - pos,
    {
        let ghost d = data@.skip(pos as int);
        let ghost prefix = ops_of(commands@);
        let command = data[pos];
        assert(d[0] == command);
        assert(d.drop_first() == data@.skip(pos + 1));
        assert(command & 0x80 == 0 <==> command < 128) by (bit_vector);
        if command & 0x80 == 0 {
            if command == 0 {
                return Err(DeltaError::InvalidCommand);
            }
            let n = command as usize;
            if len - (pos + 1) < n {
                return Err(DeltaError::UnexpectedEof);
            }
            let bytes = vstd::slice::slice_subrange(data, pos + 1, pos + 1 + n);
            let inserted = vstd::slice::slice_to_vec(bytes);
            proof {
                assert(d.drop_first().take(n as int) == bytes@);
                assert(d.drop_first().skip(n as int) == data@.skip(pos + 1 + n));
            }
            let ghost op = DeltaOp::Insert(bytes@);
            proof {
                assert(parse_ops(d) == prepend_op(op, parse_ops(data@.skip(pos + 1 + n))));
                lemma_after_prepend(prefix, op, parse_ops(data@.skip(pos + 1 + n)));
            }
            commands.push(Command::Insert(inserted));
            assert(ops_of(commands@) == prefix.push(op));
            pos = pos + 1 + n;
        } else {
            assert(command & 0x0F == command % 16) by (bit_vector);
            assert((command >> 4) & 0x07 == (command / 16) % 8) by (bit_vector);
            let offset_bits = command & 0x0F;
            let size_bits = (command >> 4) & 0x07;
            let n_offset = count_bits(offset_bits, 4);
            let n_size = count_bits(size_bits, 3);
            if len - (pos + 1) < n_offset + n_size {
                return Err(DeltaError::UnexpectedEof);
            }
            let (offset, after_offset) = read_encoded_copy_int(data, pos + 1, offset_bits, 4);
            let (size, after_size) = read_encoded_copy_int(data, after_offset, size_bits, 3);
            let size = if size == 0 { COPY_ZERO_SIZE } else { size };
            proof {
                assert(d.drop_first() == data@.skip(pos + 1));
                assert(data@.skip(pos + 1).skip(n_offset as int) == data@.skip(after_offset as int));
                assert(data@.skip(pos + 1).skip((n_offset + n_size) as int) == data@.skip(after_size as int));
            }
            let ghost op = DeltaOp::Copy { offset: offset as nat, size: size as nat };
            proof {
                assert(parse_ops(d) == prepend_op(op, parse_ops(data@.skip(after_size as int))));
                lemma_after_prepend(prefix, op, parse_ops(data@.skip(after_size as int)));
            }
            commands.push(Command::Copy { offset, size });
            assert(ops_of(commands@) == prefix.push(op));
            pos = after_size;
        }
    }
    assert(data@.skip(len as int) == Seq::<u8>::empty());
    assert(ops_of(commands@) + seq![] == ops_of(commands@));
    Ok(commands)
}

/// Counts the bits set among the `k` low bits of `bits`.
fn count_bits(bits: u8, k: u8) -> (n: usize)
    requires
        k <= 8,
    ensures
        n == set_bits(bits as nat, k as nat),
        n <= k,
    decreases k,
{
    if k == 0 {
        return 0;
    }
    assert(bits & 1 == bits % 2) by (bit_vector);
    assert(bits >> 1 == bits / 2) by (bit_vector);
    let rest = count_bits(bits >> 1, k - 1);
    (bits & 1) as usize + rest
}

} // verus!

verus! {

/// Length of the first line of `s`, its newline included.
pub open spec fn first_line_len(s: Seq<u8>) -> nat
    decreases s.len(),
{
    if s.len() == 0 {
        0
    } else if s[0] == 10 {
        1
    } else {
        1 + first_line_len(s.drop_first())
    }
}

pub proof fn lemma_first_line_len(s: Seq<u8>)
    ensures
        s.len() > 0 ==> 1 <= first_line_len(s) <= s.len(),
        s.len() == 0 ==> first_line_len(s) == 0,
        forall|i: int| 0 <= i < first_line_len(s) - 1 ==> s[i] != 10,
        first_line_len(s) < s.len() ==> s[first_line_len(s) - 1] == 10,
    decreases s.len(),
{
    if s.len() > 0 && s[0] != 10 {
        lemma_first_line_len(s.drop_first());
        assert(forall|i: int| 0 < i < s.len() ==> s[i] == s.drop_first()[i - 1]);
    }
}

/// The lines of `s`, each with its newline; the last one may lack it.
pub open spec fn split_lines(s: Seq<u8>) -> Seq<Seq<u8>>
    decreases s.len(),
{
    if s.len() == 0 {
        seq![]
    } else {
        proof {
            lemma_first_line_len(s);
        }
        seq![s.take(first_line_len(s) as int)] + split_lines(s.skip(first_line_len(s) as int))
    }
}

/// The lines put back together.
pub open spec fn join_lines(lines: Seq<Seq<u8>>) -> Seq<u8>
    decreases lines.len(),
{
    if lines.len() == 0 {
        seq![]
    } else {
        lines[0] + join_lines(lines.drop_first())
    }
}

/// Where line `j` starts when the lines are put back together.
pub open spec fn line_start(lines: Seq<Seq<u8>>, j: nat) -> nat {
    join_lines(lines.take(j as int)).len()
}

/// The first line from `start` on that equals `line`.
pub open spec fn find_line(lines: Seq<Seq<u8>>, line: Seq<u8>, start: nat) -> Option<nat>
    decreases lines.len() - start,
{
    if start >= lines.len() {
        None
    } else if lines[start as int] == line {
        Some(start)
    } else {
        find_line(lines, line, start + 1)
    }
}

/// The commands that rebuild the lines `olines` from the lines `blines` of
/// a base: a line found in the base, after the last line copied, is copied
/// from there; any other line is inserted.
pub open spec fn line_ops(blines: Seq<Seq<u8>>, olines: Seq<Seq<u8>>, start: nat) -> Seq<DeltaOp>
    decreases olines.len(),
{
    if olines.len() == 0 {
        seq![]
    } else {
        match find_line(blines, olines[0], start) {
            Some(j) => seq![DeltaOp::Copy { offset: line_start(blines, j), size: olines[0].len() }]
                + line_ops(blines, olines.drop_first(), j + 1),
            None => seq![DeltaOp::Insert(olines[0])] + line_ops(blines, olines.drop_first(), start),
        }
    }
}

/// Adds `op` after `ops`, merged into the last command when both copy
/// adjoining ranges or both insert.
pub open spec fn merge_op(ops: Seq<DeltaOp>, op: DeltaOp) -> Seq<DeltaOp> {
    if ops.len() == 0 {
        seq![op]
    } else {
        match (ops.last(), op) {
            (DeltaOp::Copy { offset: o1, size: s1 }, DeltaOp::Copy { offset: o2, size: s2 }) => if o1
                + s1 == o2 {
                ops.drop_last().push(DeltaOp::Copy { offset: o1, size: s1 + s2 })
            } else {
                ops.push(op)
            },
            (DeltaOp::Insert(b1), DeltaOp::Insert(b2)) => ops.drop_last().push(DeltaOp::Insert(b1 + b2)),
            _ => ops.push(op),
        }
    }
}

/// The commands with consecutive copies of adjoining ranges merged, and
/// consecutive inserts merged.
pub open spec fn merge_ops(ops: Seq<DeltaOp>) -> Seq<DeltaOp>
    decreases ops.len(),
{
    if ops.len() == 0 {
        seq![]
    } else {
        merge_op(merge_ops(ops.drop_last()), ops.last())
    }
}

/// Two commands that one command can replace: copies of adjoining ranges,
/// or two inserts.
pub open spec fn mergeable(a: DeltaOp, b: DeltaOp) -> bool {
    match (a, b) {
        (DeltaOp::Copy { offset: o1, size: s1 }, DeltaOp::Copy { offset: o2, .. }) => o1 + s1 == o2,
        (DeltaOp::Insert(_), DeltaOp::Insert(_)) => true,
        _ => false,
    }
}

/// No two neighbouring commands of `ops` could be merged.
pub open spec fn merged(ops: Seq<DeltaOp>) -> bool {
    forall|i: int, j: int|
        #![trigger mergeable(ops[i], ops[j])]
        0 <= i && j == i + 1 && j < ops.len() ==> !mergeable(ops[i], ops[j])
}

proof fn lemma_merge_op_merged(ops: Seq<DeltaOp>, op: DeltaOp)
    requires
        merged(ops),
    ensures
        merged(merge_op(ops, op)),
{
    let m = merge_op(ops, op);
    let n = ops.len() as int;
    if n > 0 {
        let last = ops.last();
        assert(last == ops[n - 1]);
        if mergeable(last, op) {
            assert forall|i: int, j: int| 0 <= i && j == i + 1 && j < m.len() implies !mergeable(
                #[trigger] m[i],
                #[trigger] m[j],
            ) by {
                assert(m[i] == ops[i]);
                if j < n - 1 {
                    assert(m[j] == ops[j]);
                } else {
                    assert(!mergeable(ops[i], ops[j]));
                }
            }
        } else {
            assert(m == ops.push(op));
            assert forall|i: int, j: int| 0 <= i && j == i + 1 && j < m.len() implies !mergeable(
                #[trigger] m[i],
                #[trigger] m[j],
            ) by {
                assert(m[i] == ops[i]);
                if j < n {
                    assert(m[j] == ops[j]);
                    assert(!mergeable(ops[i], ops[j]));
                }
            }
        }
    }
}

/// Merging leaves no two neighbouring commands that could be merged.
pub proof fn lemma_merge_ops_merged(ops: Seq<DeltaOp>)
    ensures
        merged(merge_ops(ops)),
    decreases ops.len(),
{
    if ops.len() > 0 {
        lemma_merge_ops_merged(ops.drop_last());
        lemma_merge_op_merged(merge_ops(ops.drop_last()), ops.last());
    }
}

/// The delta commands that `delta_commands_from_objects` computes.
pub open spec fn delta_ops(base: Seq<u8>, object: Seq<u8>) -> Seq<DeltaOp> {
    merge_ops(line_ops(split_lines(base), split_lines(object), 0))
}

/// The mathematical values of a vector of lines.
pub open spec fn lines_of(lines: Seq<Vec<u8>>) -> Seq<Seq<u8>> {
    lines.map_values(|l: Vec<u8>| l@)
}

/// Splits `s` in lines, each keeping its newline.
pub(crate) fn split_lines_inclusive(s: &[u8]) -> (lines: Vec<Vec<u8>>)
    ensures
        lines_of(lines@) == split_lines(s@),
{
    let mut lines: Vec<Vec<u8>> = Vec::new();
    let mut start: usize = 0;
    let len = s.len();
    assert(s@.skip(0) == s@);
    while start < len
        invariant
            start <= len,
            len == s@.len(),
            lines_of(lines@) + split_lines(s@.skip(start as int)) == split_lines(s@),
        decreases len - start,
    {
        let ghost rest = s@.skip(start as int);
        proof {
            lemma_first_line_len(rest);
        }
        let mut end = start;
        while end < len && s[end] != 10
            invariant
                start <= end <= len,
                len == s@.len(),
                forall|i: int| start <= i < end ==> s@[i] != 10,
            decreases len - end,
        {
            end = end + 1;
        }
        proof {
            assert(forall|i: int| 0 <= i < end - start ==> rest[i] == s@[start + i]);
            if end < len {
                assert(rest[end - start] == s@[end as int]);
            }
            lemma_first_line_len_at(rest, (end - start) as nat);
        }
        if end < len {
            end = end + 1;
        }
        assert(end - start == first_line_len(rest));
        let line = vstd::slice::slice_to_vec(vstd::slice::slice_subrange(s, start, end));
        let ghost before = lines_of(lines@);
        lines.push(line);
        assert(lines_of(lines@) == before.push(line@));
        assert(rest.take((end - start) as int) == line@);
        assert(rest.skip((end - start) as int) == s@.skip(end as int));
        assert(split_lines(rest) == seq![line@] + split_lines(s@.skip(end as int)));
        start = end;
    }
    assert(s@.skip(len as int).len() == 0);
    assert(lines_of(lines@) + Seq::<Seq<u8>>::empty() == lines_of(lines@));
    lines
}

proof fn lemma_first_line_len_at(s: Seq<u8>, k: nat)
    requires
        k <= s.len(),
        forall|i: int| 0 <= i < k ==> s[i] != 10,
        k == s.len() || s[k as int] == 10,
    ensures
        first_line_len(s) == if k == s.len() { k } else { k + 1 },
    decreases k,
{
    if k > 0 {
        assert(forall|i: int| 0 <= i < k - 1 ==> s.drop_first()[i] == s[i + 1]);
        lemma_first_line_len_at(s.drop_first(), (k - 1) as nat);
    }
}

} // verus!

verus! {

pub proof fn lemma_join_push(lines: Seq<Seq<u8>>, line: Seq<u8>)
    ensures
        join_lines(lines.push(line)) == join_lines(lines) + line,
    decreases lines.len(),
{
    if lines.len() == 0 {
        assert(lines.push(line).drop_first() == Seq::<Seq<u8>>::empty());
        assert(join_lines(Seq::<Seq<u8>>::empty()) == Seq::<u8>::empty());
        assert(join_lines(lines.push(line)) == line + Seq::<u8>::empty());
        assert(line + Seq::<u8>::empty() == line);
        assert(Seq::<u8>::empty() + line == line);
    } else {
        assert(lines.push(line).drop_first() == lines.drop_first().push(line));
        lemma_join_push(lines.drop_first(), line);
        assert(lines[0] + (join_lines(lines.drop_first()) + line) == (lines[0] + join_lines(lines.drop_first())) + line);
    }
}

pub proof fn lemma_join_split(s: Seq<u8>)
    ensures
        join_lines(split_lines(s)) == s,
    decreases s.len(),
{
    if s.len() > 0 {
        lemma_first_line_len(s);
        let k = first_line_len(s) as int;
        lemma_join_split(s.skip(k));
        assert(split_lines(s).drop_first() == split_lines(s.skip(k)));
        assert(s.take(k) + s.skip(k) == s);
    }
}

proof fn lemma_line_start_step(lines: Seq<Seq<u8>>, j: nat)
    requires
        j < lines.len(),
    ensures
        line_start(lines, j + 1) == line_start(lines, j) + lines[j as int].len(),
        join_lines(lines.take((j + 1) as int)) == join_lines(lines.take(j as int)) + lines[j as int],
{
    assert(lines.take((j + 1) as int) == lines.take(j as int).push(lines[j as int]));
    lemma_join_push(lines.take(j as int), lines[j as int]);
}

proof fn lemma_line_start_mono(lines: Seq<Seq<u8>>, i: nat, j: nat)
    requires
        i <= j <= lines.len(),
    ensures
        line_start(lines, i) <= line_start(lines, j),
    decreases j - i,
{
    if i < j {
        lemma_line_start_mono(lines, i, (j - 1) as nat);
        lemma_line_start_step(lines, (j - 1) as nat);
    }
}

proof fn lemma_line_start_total(lines: Seq<Seq<u8>>)
    ensures
        line_start(lines, lines.len()) == join_lines(lines).len(),
{
    assert(lines.take(lines.len() as int) == lines);
}

proof fn lemma_find_line(lines: Seq<Seq<u8>>, line: Seq<u8>, start: nat)
    ensures
        find_line(lines, line, start) matches Some(j) ==> start <= j < lines.len() && lines[j as int] == line,
    decreases lines.len() - start,
{
    if start < lines.len() && lines[start as int] != line {
        lemma_find_line(lines, line, start + 1);
    }
}

/// Tells whether two byte strings are equal.
pub(crate) fn bytes_equal(a: &[u8], b: &[u8]) -> (eq: bool)
    ensures
        eq == (a@ == b@),
{
    if a.len() != b.len() {
        return false;
    }
    let mut i: usize = 0;
    while i < a.len()
        invariant
            i <= a@.len(),
            a@.len() == b@.len(),
            forall|k: int| 0 <= k < i ==> a@[k] == b@[k],
        decreases a@.len() - i,
    {
        if a[i] != b[i] {
            return false;
        }
        i = i + 1;
    }
    assert(a@ =~= b@);
    true
}

/// A copy of a command.
fn copy_command(command: &Command) -> (copy: Command)
    ensures
        copy@ == command@,
{
    match command {
        Command::Copy { offset, size } => Command::Copy { offset: *offset, size: *size },
        Command::Insert(bytes) => Command::Insert(vstd::slice::slice_to_vec(bytes.as_slice())),
    }
}

/// Create a sequence of delta commands from two objects: the commands
/// recreate `object` from `base`, line by line.
pub fn delta_commands_from_objects(base: &[u8], object: &[u8]) -> (commands: Vec<Command>)
    requires
        object@.len() > 0,
    ensures
        ops_of(commands@) == delta_ops(base@, object@),
        ops_in_bounds(ops_of(commands@), base@.len()),
        apply_ops(base@, ops_of(commands@)) == object@,
        merged(ops_of(commands@)),
        copies_nonempty(ops_of(commands@)),
{
    let blines = split_lines_inclusive(base);
    let olines = split_lines_inclusive(object);
    let ghost bl = lines_of(blines@);
    let ghost ol = lines_of(olines@);
    proof {
        lemma_join_split(base@);
        lemma_line_start_total(bl);
        assert(ol.len() > 0) by {
            lemma_first_line_len(object@);
        }
    }
    let base_len = base.len();
    let mut commands: Vec<Command> = Vec::new();
    let mut base_lines_read: usize = 0;
    let mut last_offset: usize = 0;
    let mut k: usize = 0;
    assert(ol.skip(0) == ol);
    assert(line_start(bl, 0) == 0) by {
        assert(bl.take(0) == Seq::<Seq<u8>>::empty());
    }
    while k < olines.len()
        invariant
            bl == lines_of(blines@),
            ol == lines_of(olines@),
            base_len == base@.len(),
            join_lines(bl) == base@,
            line_start(bl, bl.len()) == base@.len(),
            k <= ol.len(),
            base_lines_read <= bl.len(),
            last_offset == line_start(bl, base_lines_read as nat),
            line_ops(bl, ol, 0) == ops_of(commands@) + line_ops(bl, ol.skip(k as int), base_lines_read as nat),
            ops_in_bounds(ops_of(commands@), base@.len()),
        decreases ol.len() - k,
    {
        let oline = &olines[k];
        assert(oline@ == ol[k as int]);
        let mut offset: usize = 0;
        let mut lines_read: usize = 0;
        let mut found = false;
        while lines_read < blines.len() - base_lines_read && !found
            invariant
                bl == lines_of(blines@),
                bl.len() == blines@.len(),
                line_start(bl, bl.len()) == base@.len(),
                base_len == base@.len(),
                base_lines_read + lines_read <= bl.len(),
                offset == line_start(bl, (base_lines_read + lines_read) as nat) - line_start(bl, base_lines_read as nat),
                !found ==> find_line(bl, oline@, base_lines_read as nat) == find_line(bl, oline@, (base_lines_read + lines_read) as nat),
                found ==> lines_read > 0 && find_line(bl, oline@, base_lines_read as nat) == Some((base_lines_read + lines_read - 1) as nat),
            decreases bl.len() - base_lines_read - lines_read,
        {
            let j = base_lines_read + lines_read;
            proof {
                lemma_line_start_step(bl, j as nat);
                lemma_line_start_mono(bl, (j + 1) as nat, bl.len());
                lemma_line_start_mono(bl, base_lines_read as nat, j as nat);
            }
            let bline = &blines[j];
            assert(bline@ == bl[j as int]);
            offset = offset + bline.len();
            lines_read = lines_read + 1;
            if bytes_equal(bline.as_slice(), oline.as_slice()) {
                found = true;
            }
        }
        let ghost rest = ol.skip(k as int);
        assert(rest[0] == oline@);
        assert(rest.drop_first() == ol.skip(k + 1));
        let size = oline.len();
        let ghost prefix = ops_of(commands@);
        if found {
            let j = base_lines_read + lines_read - 1;
            let ghost start = base_lines_read as nat;
            proof {
                lemma_find_line(bl, oline@, start);
                lemma_line_start_step(bl, j as nat);
                lemma_line_start_mono(bl, (j + 1) as nat, bl.len());
                lemma_line_start_mono(bl, base_lines_read as nat, j as nat);
            }
            base_lines_read = base_lines_read + lines_read;
            last_offset = last_offset + offset;
            let ghost op = DeltaOp::Copy { offset: line_start(bl, j as nat), size: size as nat };
            assert(line_ops(bl, rest, start) == seq![op] + line_ops(bl, ol.skip(k + 1), base_lines_read as nat));
            commands.push(Command::Copy { offset: last_offset - size, size });
            assert(ops_of(commands@) == prefix.push(op));
            assert(prefix + (seq![op] + line_ops(bl, ol.skip(k + 1), base_lines_read as nat))
                == prefix.push(op) + line_ops(bl, ol.skip(k + 1), base_lines_read as nat));
        } else {
            assert(find_line(bl, oline@, bl.len()) is None);
            let ghost op = DeltaOp::Insert(oline@);
            assert(line_ops(bl, rest, base_lines_read as nat) == seq![op] + line_ops(bl, ol.skip(k + 1), base_lines_read as nat));
            commands.push(Command::Insert(vstd::slice::slice_to_vec(oline.as_slice())));
            assert(ops_of(commands@) == prefix.push(op));
            assert(prefix + (seq![op] + line_ops(bl, ol.skip(k + 1), base_lines_read as nat))
                == prefix.push(op) + line_ops(bl, ol.skip(k + 1), base_lines_read as nat));
        }
        assert(forall|i: int| 0 <= i < prefix.len() ==> ops_of(commands@)[i] == prefix[i]);
        k = k + 1;
    }
    assert(ol.skip(ol.len() as int) == Seq::<Seq<u8>>::empty());
    assert(ops_of(commands@) + Seq::<DeltaOp>::empty() == ops_of(commands@));
    proof {
        lemma_merge_ops(base@, ops_of(commands@));
        assert forall|i: int| 0 <= i < ops_of(commands@).len() implies op_in_bounds(
            #[trigger] ops_of(commands@)[i],
            usize::MAX as nat,
        ) by {
            assert(op_in_bounds(ops_of(commands@)[i], base@.len()));
        }
    }
    let optimized = optimize_delta_commands(&commands);
    proof {
        law_delta_recreates_object(base@, object@);
        lemma_merge_ops_merged(line_ops(split_lines(base@), split_lines(object@), 0));
        lemma_delta_ops_copies(base@, object@);
    }
    optimized
}

/// Merges consecutive copy commands of adjoining ranges and consecutive
/// insert commands.
fn optimize_delta_commands(commands: &Vec<Command>) -> (optimized: Vec<Command>)
    requires
        commands@.len() > 0,
        ops_in_bounds(ops_of(commands@), usize::MAX as nat),
    ensures
        ops_of(optimized@) == merge_ops(ops_of(commands@)),
{
    let mut optimized: Vec<Command> = Vec::new();
    optimized.push(copy_command(&commands[0]));
    let mut i: usize = 0;
    let mut k: usize = 1;
    assert(ops_of(commands@).take(1).drop_last() == Seq::<DeltaOp>::empty());
    assert(merge_ops(Seq::<DeltaOp>::empty()) == Seq::<DeltaOp>::empty());
    assert(ops_of(commands@).take(1).last() == commands@[0]@);
    assert(merge_ops(ops_of(commands@).take(1)) == merge_op(Seq::<DeltaOp>::empty(), commands@[0]@));
    assert(ops_of(optimized@) == seq![commands@[0]@]);
    while k < commands.len()
        invariant
            1 <= k <= commands@.len(),
            i < k,
            ops_in_bounds(ops_of(commands@), usize::MAX as nat),
            optimized@.len() == i + 1,
            ops_of(optimized@) == merge_ops(ops_of(commands@).take(k as int)),
            ops_in_bounds(ops_of(optimized@), usize::MAX as nat),
        decreases commands@.len() - k,
    {
        let ghost before = ops_of(optimized@);
        let ghost op = commands@[k as int]@;
        assert(ops_of(commands@).take(k + 1).drop_last() == ops_of(commands@).take(k as int));
        assert(ops_of(commands@).take(k + 1).last() == op);
        assert(op_in_bounds(ops_of(commands@)[k as int], usize::MAX as nat));
        assert(op_in_bounds(before[i as int], usize::MAX as nat));
        let command = &commands[k];
        let last = &optimized[i];
        assert(last@ == before.last());
        let mut merged: Option<Command> = None;
        match (last, command) {
            (Command::Copy { offset: o1, size: s1 }, Command::Copy { offset: o2, size: s2 }) => {
                if *o1 + *s1 == *o2 {
                    merged = Some(Command::Copy { offset: *o1, size: *s1 + *s2 });
                }
            },
            (Command::Insert(b1), Command::Insert(b2)) => {
                let mut joined = vstd::slice::slice_to_vec(b1.as_slice());
                extend_bytes(&mut joined, b2.as_slice());
                merged = Some(Command::Insert(joined));
            },
            _ => {},
        }
        match merged {
            Some(m) => {
                optimized.set(i, m);
                assert(ops_of(optimized@) == before.drop_last().push(m@));
            },
            None => {
                optimized.push(copy_command(command));
                i = i + 1;
                assert(ops_of(optimized@) == before.push(op));
            },
        }
        k = k + 1;
    }
    assert(ops_of(commands@).take(commands@.len() as int) == ops_of(commands@));
    optimized
}

} // verus!

verus! {

pub proof fn lemma_apply_concat(base: Seq<u8>, a: Seq<DeltaOp>, b: Seq<DeltaOp>)
    ensures
        apply_ops(base, a + b) == apply_ops(base, a) + apply_ops(base, b),
    decreases b.len(),
{
    if b.len() == 0 {
        assert(a + b == a);
        assert(apply_ops(base, b) == Seq::<u8>::empty());
        assert(apply_ops(base, a) + Seq::<u8>::empty() == apply_ops(base, a));
    } else {
        assert((a + b).drop_last() == a + b.drop_last());
        assert((a + b).last() == b.last());
        lemma_apply_concat(base, a, b.drop_last());
        assert(apply_ops(base, a) + apply_ops(base, b.drop_last()) + op_output(base, b.last())
            == apply_ops(base, a) + (apply_ops(base, b.drop_last()) + op_output(base, b.last())));
    }
}

proof fn lemma_apply_single(base: Seq<u8>, op: DeltaOp)
    ensures
        apply_ops(base, seq![op]) == op_output(base, op),
{
    assert(seq![op].drop_last() == Seq::<DeltaOp>::empty());
    assert(apply_ops(base, Seq::<DeltaOp>::empty()) == Seq::<u8>::empty());
    assert(Seq::<u8>::empty() + op_output(base, op) == op_output(base, op));
}

proof fn lemma_merge_op(base: Seq<u8>, ops: Seq<DeltaOp>, op: DeltaOp)
    requires
        ops_in_bounds(ops, base.len()),
        op_in_bounds(op, base.len()),
    ensures
        apply_ops(base, merge_op(ops, op)) == apply_ops(base, ops) + op_output(base, op),
        ops_in_bounds(merge_op(ops, op), base.len()),
{
    let m = merge_op(ops, op);
    if ops.len() == 0 {
        lemma_apply_single(base, op);
        assert(apply_ops(base, ops) == Seq::<u8>::empty());
        assert(Seq::<u8>::empty() + op_output(base, op) == op_output(base, op));
    } else {
        let last = ops.last();
        assert(op_in_bounds(ops[ops.len() - 1], base.len()));
        match (last, op) {
            (DeltaOp::Copy { offset: o1, size: s1 }, DeltaOp::Copy { offset: o2, size: s2 }) => {
                if o1 + s1 == o2 {
                    let merged = DeltaOp::Copy { offset: o1, size: s1 + s2 };
                    assert(m == ops.drop_last().push(merged));
                    assert(m.drop_last() == ops.drop_last());
                    assert(base.subrange(o1 as int, (o1 + s1 + s2) as int) == base.subrange(
                        o1 as int,
                        (o1 + s1) as int,
                    ) + base.subrange(o2 as int, (o2 + s2) as int));
                    assert(apply_ops(base, ops) == apply_ops(base, ops.drop_last()) + op_output(base, last));
                } else {
                    assert(m == ops.push(op));
                    assert(m.drop_last() == ops);
                }
            },
            (DeltaOp::Insert(b1), DeltaOp::Insert(b2)) => {
                let merged = DeltaOp::Insert(b1 + b2);
                assert(m == ops.drop_last().push(merged));
                assert(m.drop_last() == ops.drop_last());
                assert(apply_ops(base, ops) == apply_ops(base, ops.drop_last()) + op_output(base, last));
            },
            _ => {
                assert(m == ops.push(op));
                assert(m.drop_last() == ops);
            },
        }
        assert forall|i: int| 0 <= i < m.len() implies op_in_bounds(#[trigger] m[i], base.len()) by {
            if i < ops.len() - 1 {
                assert(m[i] == ops[i]);
            } else if i == ops.len() - 1 {
                assert(op_in_bounds(ops[i], base.len()));
            }
        }
    }
}

/// Law: merging commands changes neither what they recreate nor where they
/// read.
pub proof fn lemma_merge_ops(base: Seq<u8>, ops: Seq<DeltaOp>)
    requires
        ops_in_bounds(ops, base.len()),
    ensures
        apply_ops(base, merge_ops(ops)) == apply_ops(base, ops),
        ops_in_bounds(merge_ops(ops), base.len()),
    decreases ops.len(),
{
    if ops.len() > 0 {
        assert(ops_in_bounds(ops.drop_last(), base.len())) by {
            assert forall|i: int| 0 <= i < ops.drop_last().len() implies op_in_bounds(
                #[trigger] ops.drop_last()[i],
                base.len(),
            ) by {
                assert(ops.drop_last()[i] == ops[i]);
            }
        }
        lemma_merge_ops(base, ops.drop_last());
        assert(op_in_bounds(ops[ops.len() - 1], base.len()));
        lemma_merge_op(base, merge_ops(ops.drop_last()), ops.last());
    } else {
        assert(merge_ops(ops) == Seq::<DeltaOp>::empty());
    }
}

pub proof fn lemma_join_concat(a: Seq<Seq<u8>>, b: Seq<Seq<u8>>)
    ensures
        join_lines(a + b) == join_lines(a) + join_lines(b),
    decreases a.len(),
{
    if a.len() == 0 {
        assert(a + b == b);
        assert(Seq::<u8>::empty() + join_lines(b) == join_lines(b));
    } else {
        assert((a + b).drop_first() == a.drop_first() + b);
        lemma_join_concat(a.drop_first(), b);
        assert(a[0] + (join_lines(a.drop_first()) + join_lines(b)) == (a[0] + join_lines(
            a.drop_first(),
        )) + join_lines(b));
    }
}

proof fn lemma_line_in_join(lines: Seq<Seq<u8>>, j: nat)
    requires
        j < lines.len(),
    ensures
        join_lines(lines).subrange(
            line_start(lines, j) as int,
            (line_start(lines, j) + lines[j as int].len()) as int,
        ) == lines[j as int],
        line_start(lines, j) + lines[j as int].len() <= join_lines(lines).len(),
{
    lemma_line_start_step(lines, j);
    assert(lines == lines.take((j + 1) as int) + lines.skip((j + 1) as int));
    lemma_join_concat(lines.take((j + 1) as int), lines.skip((j + 1) as int));
    let pre = join_lines(lines.take(j as int));
    let whole = join_lines(lines);
    assert(whole == pre + lines[j as int] + join_lines(lines.skip((j + 1) as int)));
    assert(whole.subrange(pre.len() as int, (pre.len() + lines[j as int].len()) as int) =~= lines[j as int]);
}

proof fn lemma_line_ops(blines: Seq<Seq<u8>>, olines: Seq<Seq<u8>>, start: nat)
    ensures
        apply_ops(join_lines(blines), line_ops(blines, olines, start)) == join_lines(olines),
        ops_in_bounds(line_ops(blines, olines, start), join_lines(blines).len()),
    decreases olines.len(),
{
    let base = join_lines(blines);
    let ops = line_ops(blines, olines, start);
    if olines.len() == 0 {
        assert(ops == Seq::<DeltaOp>::empty());
    } else {
        let line = olines[0];
        let (op, next) = match find_line(blines, line, start) {
            Some(j) => (DeltaOp::Copy { offset: line_start(blines, j), size: line.len() }, j + 1),
            None => (DeltaOp::Insert(line), start),
        };
        lemma_line_ops(blines, olines.drop_first(), next);
        let rest = line_ops(blines, olines.drop_first(), next);
        assert(ops == seq![op] + rest);
        lemma_apply_concat(base, seq![op], rest);
        lemma_apply_single(base, op);
        lemma_find_line(blines, line, start);
        if let Some(j) = find_line(blines, line, start) {
            lemma_line_in_join(blines, j);
        }
        assert(op_output(base, op) == line);
        assert forall|i: int| 0 <= i < ops.len() implies op_in_bounds(#[trigger] ops[i], base.len()) by {
            if i > 0 {
                assert(ops[i] == rest[i - 1]);
            }
        }
    }
}

/// Law: the commands that `delta_commands_from_objects` computes read only
/// inside the base, and recreate the object from it.
pub proof fn law_delta_recreates_object(base: Seq<u8>, object: Seq<u8>)
    ensures
        ops_in_bounds(delta_ops(base, object), base.len()),
        apply_ops(base, delta_ops(base, object)) == object,
{
    lemma_join_split(base);
    lemma_join_split(object);
    lemma_line_ops(split_lines(base), split_lines(object), 0);
    lemma_merge_ops(base, line_ops(split_lines(base), split_lines(object), 0));
}

} // verus!

verus! {

/// The copies that a copy command is read back as: one of at most
/// `MAX_COPY_SIZE` bytes after the other.
pub open spec fn copy_pieces(offset: nat, size: nat) -> Seq<DeltaOp>
    decreases size,
{
    if size > MAX_COPY_SIZE {
        copy_pieces(offset, MAX_COPY_SIZE as nat) + copy_pieces(
            offset + MAX_COPY_SIZE as nat,
            (size - MAX_COPY_SIZE) as nat,
        )
    } else {
        seq![DeltaOp::Copy { offset, size }]
    }
}

/// The inserts that an insert command is read back as: one per chunk of at
/// most `MAX_INSERT_SIZE` bytes.
pub open spec fn insert_pieces(bytes: Seq<u8>) -> Seq<DeltaOp>
    decreases bytes.len(),
{
    if bytes.len() == 0 {
        seq![]
    } else if bytes.len() <= MAX_INSERT_SIZE {
        seq![DeltaOp::Insert(bytes)]
    } else {
        seq![DeltaOp::Insert(bytes.take(MAX_INSERT_SIZE as int))] + insert_pieces(
            bytes.skip(MAX_INSERT_SIZE as int),
        )
    }
}

/// The commands that the encoding of `op` is read back as.
pub open spec fn op_pieces(op: DeltaOp) -> Seq<DeltaOp> {
    match op {
        DeltaOp::Copy { offset, size } => copy_pieces(offset, size),
        DeltaOp::Insert(bytes) => insert_pieces(bytes),
    }
}

/// The commands that the encodings of `ops` are read back as.
pub open spec fn ops_pieces(ops: Seq<DeltaOp>) -> Seq<DeltaOp>
    decreases ops.len(),
{
    if ops.len() == 0 {
        seq![]
    } else {
        ops_pieces(ops.drop_last()) + op_pieces(ops.last())
    }
}

/// A copy that an encoding can carry: at least one byte, from an offset that
/// four bytes can hold; a copy longer than one command can carry is cut in
/// pieces, and then each piece's offset, up to the end, must fit as well.
pub open spec fn copy_encodable(op: DeltaOp) -> bool {
    match op {
        DeltaOp::Copy { offset, size } => size > 0 && offset < 0x1_0000_0000 && (size <= MAX_COPY_SIZE || offset
            + size <= 0x1_0000_0000),
        DeltaOp::Insert(_) => true,
    }
}

/// Every command of `ops` can be encoded.
pub open spec fn ops_encodable(ops: Seq<DeltaOp>) -> bool {
    forall|i: int| 0 <= i < ops.len() ==> copy_encodable(#[trigger] ops[i])
}

/// Commands whose copies carry at least one byte and read inside a base
/// that four offset bytes can address can be encoded.
pub proof fn lemma_encodable_in_small_base(ops: Seq<DeltaOp>, base_len: nat)
    requires
        base_len <= 0x1_0000_0000,
        ops_in_bounds(ops, base_len),
        copies_nonempty(ops),
    ensures
        ops_encodable(ops),
{
    assert forall|i: int| 0 <= i < ops.len() implies copy_encodable(#[trigger] ops[i]) by {
        assert(op_in_bounds(ops[i], base_len));
        assert(ops[i] matches DeltaOp::Copy { size, .. } ==> size > 0);
    }
}

proof fn lemma_mask_cons(b: u8, s: Seq<u8>)
    ensures
        presence_mask(seq![b] + s) == (if b != 0 { 1nat } else { 0nat }) + 2 * presence_mask(s),
        nonzero_bytes(seq![b] + s) == (if b != 0 { seq![b] } else { Seq::<u8>::empty() }) + nonzero_bytes(s),
    decreases s.len(),
{
    let t = seq![b] + s;
    let e = if b != 0 { seq![b] } else { Seq::<u8>::empty() };
    if s.len() == 0 {
        assert(t == seq![b]);
        assert(t.drop_last() == Seq::<u8>::empty());
        assert(t.last() == b);
        vstd::arithmetic::power2::lemma2_to64();
        assert(presence_mask(Seq::<u8>::empty()) == 0);
        assert(presence_mask(s) == 0);
        assert(nonzero_bytes(Seq::<u8>::empty()) == Seq::<u8>::empty());
        assert(nonzero_bytes(s) == Seq::<u8>::empty());
        assert(nonzero_bytes(t) == Seq::<u8>::empty() + e);
        assert(Seq::<u8>::empty() + e == e);
        assert(e + Seq::<u8>::empty() == e);
    } else {
        lemma_mask_cons(b, s.drop_last());
        assert(t.drop_last() == seq![b] + s.drop_last());
        assert(t.last() == s.last());
        vstd::arithmetic::power2::lemma_pow2_unfold(s.len());
        assert(t.len() - 1 == s.len());
        let l = if s.last() != 0 { seq![s.last()] } else { Seq::<u8>::empty() };
        assert(nonzero_bytes(t) == nonzero_bytes(seq![b] + s.drop_last()) + l);
        assert(nonzero_bytes(s) == nonzero_bytes(s.drop_last()) + l);
        assert(e + nonzero_bytes(s.drop_last()) + l == e + (nonzero_bytes(s.drop_last()) + l));
        let p = vstd::arithmetic::power2::pow2((s.len() - 1) as nat);
        assert(presence_mask(t) == presence_mask(seq![b] + s.drop_last()) + if s.last() != 0 {
            2 * p
        } else {
            0
        });
        assert(presence_mask(s) == presence_mask(s.drop_last()) + if s.last() != 0 {
            p
        } else {
            0
        });
    }
}

proof fn lemma_set_bits_mask(bytes: Seq<u8>)
    ensures
        set_bits(presence_mask(bytes), bytes.len()) == nonzero_bytes(bytes).len(),
    decreases bytes.len(),
{
    if bytes.len() > 0 {
        let b = bytes[0];
        let s = bytes.drop_first();
        assert(bytes == seq![b] + s);
        lemma_mask_cons(b, s);
        lemma_set_bits_mask(s);
        let e: nat = if b != 0 { 1 } else { 0 };
        let m = presence_mask(s);
        assert((e + 2 * m) % 2 == e && (e + 2 * m) / 2 == m) by (nonlinear_arith)
            requires e <= 1;
    }
}

proof fn lemma_copy_int_le(x: nat, k: nat, tail: Seq<u8>)
    requires
        x < vstd::arithmetic::power2::pow2(8 * k),
    ensures
        copy_int(nonzero_bytes(le_bytes(x, k)) + tail, presence_mask(le_bytes(x, k)), k) == x,
    decreases k,
{
    if k == 0 {
        vstd::arithmetic::power2::lemma2_to64();
        assert(x == 0);
    } else {
        let b = (x % 256) as u8;
        let s = le_bytes(x / 256, (k - 1) as nat);
        assert(le_bytes(x, k) == seq![b] + s);
        lemma_mask_cons(b, s);
        vstd::arithmetic::power2::lemma_pow2_adds(8, 8 * (k - 1) as nat);
        vstd::arithmetic::power2::lemma2_to64();
        assert(8 * k == 8 + 8 * (k - 1) as nat);
        let p = vstd::arithmetic::power2::pow2(8 * (k - 1) as nat);
        assert(x / 256 < p) by (nonlinear_arith)
            requires x < 256 * p;
        lemma_copy_int_le(x / 256, (k - 1) as nat, tail);
        let e: nat = if b != 0 { 1 } else { 0 };
        let m = presence_mask(s);
        assert((e + 2 * m) % 2 == e && (e + 2 * m) / 2 == m) by (nonlinear_arith)
            requires e <= 1;
        let d = nonzero_bytes(seq![b] + s) + tail;
        assert(x == x % 256 + 256 * (x / 256)) by (nonlinear_arith);
        if b != 0 {
            assert(d == seq![b] + (nonzero_bytes(s) + tail));
            assert(d.drop_first() == nonzero_bytes(s) + tail);
        } else {
            assert(d == nonzero_bytes(s) + tail);
        }
    }
}

proof fn lemma_copy_single_parse(offset: nat, size: nat, rest: Seq<u8>)
    requires
        offset < 0x1_0000_0000,
        1 <= size <= MAX_COPY_SIZE,
    ensures
        parse_ops(copy_encoding_single(offset, size) + rest) == prepend_op(
            DeltaOp::Copy { offset, size },
            parse_ops(rest),
        ),
{
    let ob = le_bytes(offset, 4);
    let sb = le_bytes(size, 3);
    lemma_le_bytes_len(offset, 4);
    lemma_le_bytes_len(size, 3);
    lemma_presence_mask_bound(ob);
    lemma_presence_mask_bound(sb);
    vstd::arithmetic::power2::lemma2_to64();
    let a = presence_mask(ob);
    let b = presence_mask(sb);
    let c = (128 + a + 16 * b) as u8;
    assert(c as nat == 128 + a + 16 * b);
    assert(c % 16 == a && (c / 16) % 8 == b) by (nonlinear_arith)
        requires c == 128 + a + 16 * b, a < 16, b < 8;
    let d = copy_encoding_single(offset, size) + rest;
    let body = nonzero_bytes(ob) + (nonzero_bytes(sb) + rest);
    assert(d == seq![c] + body);
    assert(d[0] == c);
    assert(d.drop_first() == body);
    lemma_set_bits_mask(ob);
    lemma_set_bits_mask(sb);
    lemma_copy_int_le(offset, 4, nonzero_bytes(sb) + rest);
    lemma_copy_int_le(size, 3, rest);
    assert(body.skip(nonzero_bytes(ob).len() as int) == nonzero_bytes(sb) + rest);
    assert(body.skip((nonzero_bytes(ob).len() + nonzero_bytes(sb).len()) as int) == rest);
}

proof fn lemma_after_after(p: Seq<DeltaOp>, q: Seq<DeltaOp>, r: Result<Seq<DeltaOp>, DeltaError>)
    ensures
        after_ops(p, after_ops(q, r)) == after_ops(p + q, r),
{
    if let Ok(ops) = r {
        assert(p + (q + ops) == p + q + ops);
    }
}

proof fn lemma_prepend_after(op: DeltaOp, r: Result<Seq<DeltaOp>, DeltaError>)
    ensures
        prepend_op(op, r) == after_ops(seq![op], r),
{
}

proof fn lemma_copy_parse(offset: nat, size: nat, rest: Seq<u8>)
    requires
        size >= 1,
        offset < 0x1_0000_0000,
        size <= MAX_COPY_SIZE || offset + size <= 0x1_0000_0000,
    ensures
        parse_ops(copy_encoding(offset, size) + rest) == after_ops(copy_pieces(offset, size), parse_ops(rest)),
    decreases size,
{
    if size > MAX_COPY_SIZE {
        let m = MAX_COPY_SIZE as nat;
        let e2 = copy_encoding(offset + m, (size - m) as nat);
        assert(copy_encoding(offset, size) + rest == copy_encoding(offset, m) + (e2 + rest));
        lemma_copy_parse(offset, m, e2 + rest);
        lemma_copy_parse(offset + m, (size - m) as nat, rest);
        lemma_after_after(copy_pieces(offset, m), copy_pieces(offset + m, (size - m) as nat), parse_ops(rest));
    } else {
        lemma_copy_single_parse(offset, size, rest);
        lemma_prepend_after(DeltaOp::Copy { offset, size }, parse_ops(rest));
    }
}

proof fn lemma_insert_parse(bytes: Seq<u8>, rest: Seq<u8>)
    ensures
        parse_ops(insert_encoding(bytes) + rest) == after_ops(insert_pieces(bytes), parse_ops(rest)),
    decreases bytes.len(),
{
    if bytes.len() == 0 {
        assert(insert_encoding(bytes) + rest == rest);
        if let Ok(ops) = parse_ops(rest) {
            assert(Seq::<DeltaOp>::empty() + ops == ops);
        }
    } else if bytes.len() <= MAX_INSERT_SIZE {
        let d = insert_encoding(bytes) + rest;
        assert(d == seq![bytes.len() as u8] + (bytes + rest));
        assert(d.drop_first() == bytes + rest);
        assert((bytes + rest).take(bytes.len() as int) == bytes);
        assert((bytes + rest).skip(bytes.len() as int) == rest);
        lemma_prepend_after(DeltaOp::Insert(bytes), parse_ops(rest));
    } else {
        let m = MAX_INSERT_SIZE as int;
        let head = bytes.take(m);
        let tail_enc = insert_encoding(bytes.skip(m)) + rest;
        let d = insert_encoding(bytes) + rest;
        assert(d == seq![MAX_INSERT_SIZE as u8] + (head + tail_enc));
        assert(d.drop_first() == head + tail_enc);
        assert((head + tail_enc).take(m) == head);
        assert((head + tail_enc).skip(m) == tail_enc);
        lemma_insert_parse(bytes.skip(m), rest);
        lemma_prepend_after(DeltaOp::Insert(head), parse_ops(tail_enc));
        lemma_after_after(seq![DeltaOp::Insert(head)], insert_pieces(bytes.skip(m)), parse_ops(rest));
    }
}

proof fn lemma_ops_parse(ops: Seq<DeltaOp>, rest: Seq<u8>)
    requires
        forall|i: int| 0 <= i < ops.len() ==> copy_encodable(#[trigger] ops[i]),
    ensures
        parse_ops(ops_encoding(ops) + rest) == after_ops(ops_pieces(ops), parse_ops(rest)),
    decreases ops.len(),
{
    if ops.len() == 0 {
        assert(ops_encoding(ops) + rest == rest);
        if let Ok(r) = parse_ops(rest) {
            assert(Seq::<DeltaOp>::empty() + r == r);
        }
    } else {
        let last = ops.last();
        assert(copy_encodable(ops[ops.len() - 1]));
        let tail = op_encoding(last) + rest;
        assert(ops_encoding(ops) + rest == ops_encoding(ops.drop_last()) + tail);
        assert forall|i: int| 0 <= i < ops.drop_last().len() implies copy_encodable(
            #[trigger] ops.drop_last()[i],
        ) by {
            assert(ops.drop_last()[i] == ops[i]);
        }
        lemma_ops_parse(ops.drop_last(), tail);
        match last {
            DeltaOp::Copy { offset, size } => lemma_copy_parse(offset, size, rest),
            DeltaOp::Insert(bytes) => lemma_insert_parse(bytes, rest),
        }
        lemma_after_after(ops_pieces(ops.drop_last()), op_pieces(last), parse_ops(rest));
    }
}


proof fn lemma_in_bounds_concat(a: Seq<DeltaOp>, b: Seq<DeltaOp>, len: nat)
    requires
        ops_in_bounds(a, len),
        ops_in_bounds(b, len),
    ensures
        ops_in_bounds(a + b, len),
{
    assert forall|i: int| 0 <= i < (a + b).len() implies op_in_bounds(#[trigger] (a + b)[i], len) by {
        if i < a.len() {
            assert((a + b)[i] == a[i]);
        } else {
            assert((a + b)[i] == b[i - a.len()]);
        }
    }
}

proof fn lemma_copy_pieces_apply(base: Seq<u8>, offset: nat, size: nat)
    requires
        offset + size <= base.len(),
    ensures
        apply_ops(base, copy_pieces(offset, size)) == base.subrange(offset as int, (offset + size) as int),
        ops_in_bounds(copy_pieces(offset, size), base.len()),
    decreases size,
{
    if size > MAX_COPY_SIZE {
        let m = MAX_COPY_SIZE as nat;
        lemma_copy_pieces_apply(base, offset, m);
        lemma_copy_pieces_apply(base, offset + m, (size - m) as nat);
        lemma_apply_concat(base, copy_pieces(offset, m), copy_pieces(offset + m, (size - m) as nat));
        lemma_in_bounds_concat(copy_pieces(offset, m), copy_pieces(offset + m, (size - m) as nat), base.len());
        assert(base.subrange(offset as int, (offset + m) as int) + base.subrange((offset + m) as int, (offset + size) as int)
            == base.subrange(offset as int, (offset + size) as int));
    } else {
        lemma_apply_single(base, DeltaOp::Copy { offset, size });
        assert(copy_pieces(offset, size)[0] == DeltaOp::Copy { offset, size });
    }
}

proof fn lemma_insert_pieces_apply(base: Seq<u8>, bytes: Seq<u8>)
    ensures
        apply_ops(base, insert_pieces(bytes)) == bytes,
        ops_in_bounds(insert_pieces(bytes), base.len()),
    decreases bytes.len(),
{
    if bytes.len() == 0 {
        assert(apply_ops(base, insert_pieces(bytes)) == Seq::<u8>::empty());
    } else if bytes.len() <= MAX_INSERT_SIZE {
        lemma_apply_single(base, DeltaOp::Insert(bytes));
    } else {
        let m = MAX_INSERT_SIZE as int;
        let head = seq![DeltaOp::Insert(bytes.take(m))];
        lemma_insert_pieces_apply(base, bytes.skip(m));
        lemma_apply_single(base, DeltaOp::Insert(bytes.take(m)));
        lemma_apply_concat(base, head, insert_pieces(bytes.skip(m)));
        lemma_in_bounds_concat(head, insert_pieces(bytes.skip(m)), base.len());
        assert(bytes.take(m) + bytes.skip(m) == bytes);
    }
}

proof fn lemma_ops_pieces_apply(base: Seq<u8>, ops: Seq<DeltaOp>)
    requires
        ops_in_bounds(ops, base.len()),
    ensures
        apply_ops(base, ops_pieces(ops)) == apply_ops(base, ops),
        ops_in_bounds(ops_pieces(ops), base.len()),
    decreases ops.len(),
{
    if ops.len() > 0 {
        let last = ops.last();
        assert(op_in_bounds(ops[ops.len() - 1], base.len()));
        assert forall|i: int| 0 <= i < ops.drop_last().len() implies op_in_bounds(
            #[trigger] ops.drop_last()[i],
            base.len(),
        ) by {
            assert(ops.drop_last()[i] == ops[i]);
        }
        lemma_ops_pieces_apply(base, ops.drop_last());
        match last {
            DeltaOp::Copy { offset, size } => lemma_copy_pieces_apply(base, offset, size),
            DeltaOp::Insert(bytes) => lemma_insert_pieces_apply(base, bytes),
        }
        lemma_apply_concat(base, ops_pieces(ops.drop_last()), op_pieces(last));
        lemma_in_bounds_concat(ops_pieces(ops.drop_last()), op_pieces(last), base.len());
    }
}

/// Law: reading back the encodings of delta commands gives commands that
/// recreate from `base` what the original commands recreate. It holds for
/// commands that can be encoded (each copy carries at least one byte, from
/// an offset that four bytes hold) and read inside `base`: long copies and
/// inserts come back cut in pieces, which recreate the same bytes.
pub proof fn law_delta_encoding_roundtrip(base: Seq<u8>, ops: Seq<DeltaOp>)
    requires
        ops_in_bounds(ops, base.len()),
        ops_encodable(ops),
    ensures
        parse_ops(ops_encoding(ops)) == Ok::<Seq<DeltaOp>, DeltaError>(ops_pieces(ops)),
        ops_in_bounds(ops_pieces(ops), base.len()),
        apply_ops(base, ops_pieces(ops)) == apply_ops(base, ops),
{
    lemma_ops_parse(ops, seq![]);
    assert(ops_encoding(ops) + seq![] == ops_encoding(ops));
    assert(parse_ops(Seq::<u8>::empty()) == Ok::<Seq<DeltaOp>, DeltaError>(seq![]));
    assert(ops_pieces(ops) + Seq::<DeltaOp>::empty() == ops_pieces(ops));
    lemma_ops_pieces_apply(base, ops);
}


/// Every copy among `ops` carries at least one byte.
pub open spec fn copies_nonempty(ops: Seq<DeltaOp>) -> bool {
    forall|i: int| 0 <= i < ops.len() ==> (#[trigger] ops[i] matches DeltaOp::Copy { size, .. } ==> size > 0)
}

proof fn lemma_split_lines_nonempty(s: Seq<u8>)
    ensures
        forall|i: int| 0 <= i < split_lines(s).len() ==> (#[trigger] split_lines(s)[i]).len() > 0,
    decreases s.len(),
{
    if s.len() > 0 {
        lemma_first_line_len(s);
        let k = first_line_len(s) as int;
        lemma_split_lines_nonempty(s.skip(k));
        let lines = split_lines(s);
        assert(lines == seq![s.take(k)] + split_lines(s.skip(k)));
        assert forall|i: int| 0 <= i < lines.len() implies (#[trigger] lines[i]).len() > 0 by {
            if i > 0 {
                assert(lines[i] == split_lines(s.skip(k))[i - 1]);
            }
        }
    }
}

proof fn lemma_line_ops_copies(blines: Seq<Seq<u8>>, olines: Seq<Seq<u8>>, start: nat)
    requires
        forall|i: int| 0 <= i < olines.len() ==> (#[trigger] olines[i]).len() > 0,
    ensures
        copies_nonempty(line_ops(blines, olines, start)),
    decreases olines.len(),
{
    if olines.len() > 0 {
        let next = match find_line(blines, olines[0], start) {
            Some(j) => j + 1,
            None => start,
        };
        assert forall|i: int| 0 <= i < olines.drop_first().len() implies (
        #[trigger] olines.drop_first()[i]).len() > 0 by {
            assert(olines.drop_first()[i] == olines[i + 1]);
        }
        lemma_line_ops_copies(blines, olines.drop_first(), next);
        let ops = line_ops(blines, olines, start);
        let rest = line_ops(blines, olines.drop_first(), next);
        assert(olines[0].len() > 0);
        assert forall|i: int| 0 <= i < ops.len() implies (#[trigger] ops[i] matches DeltaOp::Copy {
            size,
            ..
        } ==> size > 0) by {
            if i > 0 {
                assert(ops[i] == rest[i - 1]);
            }
        }
    }
}

proof fn lemma_merge_copies(ops: Seq<DeltaOp>)
    requires
        copies_nonempty(ops),
    ensures
        copies_nonempty(merge_ops(ops)),
    decreases ops.len(),
{
    if ops.len() > 0 {
        assert forall|i: int| 0 <= i < ops.drop_last().len() implies (#[trigger] ops.drop_last()[i] matches DeltaOp::Copy {
            size,
            ..
        } ==> size > 0) by {
            assert(ops.drop_last()[i] == ops[i]);
        }
        lemma_merge_copies(ops.drop_last());
        let prev = merge_ops(ops.drop_last());
        let op = ops.last();
        assert(op == ops[ops.len() - 1]);
        let m = merge_ops(ops);
        assert(m == merge_op(prev, op));
        if prev.len() == 0 {
            assert(m == seq![op]);
            assert forall|i: int| 0 <= i < m.len() implies (#[trigger] m[i] matches DeltaOp::Copy { size, .. }
                ==> size > 0) by {
                assert(m[i] == op);
            }
        } else {
            assert(prev.last() == prev[prev.len() - 1]);
            assert forall|i: int| 0 <= i < m.len() implies (#[trigger] m[i] matches DeltaOp::Copy { size, .. }
                ==> size > 0) by {
                if i < prev.len() - 1 {
                    assert(m[i] == prev[i]);
                } else if i == prev.len() - 1 {
                    if m.len() > prev.len() {
                        assert(m[i] == prev[i]);
                    }
                } else {
                    assert(m[i] == op);
                }
            }
        }
    }
}

/// The copies among the commands that `delta_commands_from_objects`
/// computes each carry at least one byte.
pub proof fn lemma_delta_ops_copies(base: Seq<u8>, object: Seq<u8>)
    ensures
        copies_nonempty(delta_ops(base, object)),
{
    lemma_split_lines_nonempty(object);
    lemma_line_ops_copies(split_lines(base), split_lines(object), 0);
    lemma_merge_copies(line_ops(split_lines(base), split_lines(object), 0));
}

} // verus!
