//! Wire codecs for coefficients and spins, and the consensus energy.
use vstd::prelude::*;

verus! {

/// The number that `bytes` hold, least significant byte first.
pub open spec fn le_number(bytes: Seq<u8>) -> nat
    decreases bytes.len(),
{
    if bytes.len() == 0 {
        0
    } else {
        bytes[0] as nat + 256 * le_number(bytes.drop_first())
    }
}

/// How many numbers `width` bytes can hold.
pub open spec fn byte_range(width: nat) -> nat
    decreases width,
{
    if width == 0 {
        1
    } else {
        256 * byte_range((width - 1) as nat)
    }
}

/// The number that `bytes` hold in two's complement, least significant byte
/// first.
pub open spec fn le_signed(bytes: Seq<u8>) -> int {
    let n = le_number(bytes) as int;
    let range = byte_range(bytes.len()) as int;
    if 2 * n >= range {
        n - range
    } else {
        n
    }
}

/// The `i`th run of `width` bytes.
pub open spec fn chunk(bytes: Seq<u8>, width: int, i: int) -> Seq<u8> {
    bytes.subrange(i * width, i * width + width)
}

/// Every value that `bytes` hold, `width` bytes each.
pub open spec fn le_values(bytes: Seq<u8>, width: int) -> Seq<int> {
    Seq::new((bytes.len() as int / width) as nat, |i: int| le_signed(chunk(bytes, width, i)))
}

pub proof fn lemma_byte_ranges()
    ensures
        byte_range(0) == 1,
        byte_range(1) == 0x100,
        byte_range(2) == 0x1_0000,
        byte_range(3) == 0x100_0000,
        byte_range(4) == 0x1_0000_0000,
        byte_range(5) == 0x100_0000_0000,
        byte_range(6) == 0x1_0000_0000_0000,
        byte_range(7) == 0x100_0000_0000_0000,
        byte_range(8) == 0x1_0000_0000_0000_0000,
{
    reveal_with_fuel(byte_range, 9);
}

pub proof fn lemma_le_number_bound(bytes: Seq<u8>)
    ensures
        le_number(bytes) < byte_range(bytes.len()),
    decreases bytes.len(),
{
    if bytes.len() > 0 {
        lemma_le_number_bound(bytes.drop_first());
    }
}

/// Read the number that `width` bytes hold from `at` on.
pub fn read_le(bytes: &[u8], at: usize, width: usize) -> (n: u64)
    requires
        width <= 8,
        at + width <= bytes@.len(),
    ensures
        n == le_number(bytes@.subrange(at as int, at + width)),
        n < byte_range(width as nat),
{
    let ghost run = bytes@.subrange(at as int, at + width);
    let len: usize = bytes.len();
    let mut n: u64 = 0;
    let mut k: usize = width;
    assert(run.subrange(width as int, width as int) =~= Seq::<u8>::empty());
    while k > 0
        invariant
            k <= width <= 8,
            at + width <= len,
            len == bytes@.len(),
            run == bytes@.subrange(at as int, at + width),
            n == le_number(run.subrange(k as int, width as int)),
        decreases k,
    {
        let b: u8 = bytes[at + k - 1];
        proof {
            let rest = run.subrange(k as int, width as int);
            let grown = run.subrange(k - 1, width as int);
            assert(grown.drop_first() =~= rest);
            assert(grown[0] == b);
            lemma_le_number_bound(rest);
            lemma_byte_ranges();
            assert(n < byte_range((width - k) as nat));
            assert(n < 0x100_0000_0000_0000);
        }
        n = n * 256 + b as u64;
        k -= 1;
    }
    assert(run.subrange(0, width as int) =~= run);
    proof {
        lemma_le_number_bound(run);
    }
    n
}

/// Read the signed number that `width` bytes hold from `at` on.
pub fn read_signed(bytes: &[u8], at: usize, width: usize) -> (n: i64)
    requires
        1 <= width <= 4,
        at + width <= bytes@.len(),
    ensures
        n == le_signed(bytes@.subrange(at as int, at + width)),
        -0x8000_0000 <= n <= 0x7fff_ffff,
        width == 1 ==> -0x80 <= n <= 0x7f,
        width == 2 ==> -0x8000 <= n <= 0x7fff,
{
    proof {
        lemma_byte_ranges();
    }
    let range: i64 = match width {
        1 => 0x100,
        2 => 0x1_0000,
        3 => 0x100_0000,
        _ => 0x1_0000_0000,
    };
    let n: i64 = read_le(bytes, at, width) as i64;
    if 2 * n >= range {
        n - range
    } else {
        n
    }
}

/// Decode packed little-endian 32-bit integers. Returns `None` when the bytes
/// do not fill the last one.
pub fn decode_i32_le(bytes: &[u8]) -> (values: Option<Vec<i32>>)
    ensures
        values is Some <==> bytes@.len() % 4 == 0,
        values matches Some(v) ==> v@.map_values(|x: i32| x as int) == le_values(bytes@, 4),
{
    if bytes.len() % 4 != 0 {
        return None;
    }
    let len: usize = bytes.len();
    let count: usize = len / 4;
    let mut values: Vec<i32> = Vec::new();
    let mut i: usize = 0;
    while i < count
        invariant
            i <= count,
            count * 4 == len,
            len == bytes@.len(),
            values@.len() == i,
            forall|k: int| 0 <= k < i ==> #[trigger] values@[k] == le_signed(chunk(bytes@, 4, k)),
        decreases count - i,
    {
        let value: i64 = read_signed(bytes, i * 4, 4);
        values.push(value as i32);
        i += 1;
    }
    assert(values@.map_values(|x: i32| x as int) =~= le_values(bytes@, 4));
    Some(values)
}

/// The four bytes of `v`, least significant first.
pub open spec fn le_bytes(v: i32) -> Seq<u8> {
    let n = if v < 0 {
        v + 0x1_0000_0000
    } else {
        v as int
    };
    seq![
        (n % 0x100) as u8,
        (n / 0x100 % 0x100) as u8,
        (n / 0x1_0000 % 0x100) as u8,
        (n / 0x100_0000) as u8,
    ]
}

/// The bytes of every value in turn.
pub open spec fn le_bytes_of(values: Seq<i32>) -> Seq<u8>
    decreases values.len(),
{
    if values.len() == 0 {
        seq![]
    } else {
        le_bytes_of(values.drop_last()) + le_bytes(values.last())
    }
}

/// Encode 32-bit integers as packed little-endian bytes.
pub fn encode_i32_le(values: &[i32]) -> (bytes: Vec<u8>)
    ensures
        bytes@ == le_bytes_of(values@),
{
    let mut bytes: Vec<u8> = Vec::new();
    let mut i: usize = 0;
    assert(values@.take(0) =~= Seq::<i32>::empty());
    while i < values.len()
        invariant
            i <= values@.len(),
            bytes@ == le_bytes_of(values@.take(i as int)),
        decreases values@.len() - i,
    {
        let v: i32 = values[i];
        let n: i64 = if v < 0 {
            v as i64 + 0x1_0000_0000
        } else {
            v as i64
        };
        let ghost before = bytes@;
        bytes.push((n % 0x100) as u8);
        bytes.push((n / 0x100 % 0x100) as u8);
        bytes.push((n / 0x1_0000 % 0x100) as u8);
        bytes.push((n / 0x100_0000) as u8);
        proof {
            assert(values@.take(i + 1).drop_last() =~= values@.take(i as int));
            assert(bytes@ =~= before + le_bytes(v));
        }
        i += 1;
    }
    assert(values@.take(i as int) =~= values@);
    bytes
}

proof fn lemma_le_bytes(v: i32)
    ensures
        le_signed(le_bytes(v)) == v,
{
    let b = le_bytes(v);
    reveal_with_fuel(le_number, 5);
    lemma_byte_ranges();
    assert(b.drop_first().drop_first().drop_first().drop_first() =~= Seq::<u8>::empty());
}

proof fn lemma_le_bytes_of(values: Seq<i32>, k: int)
    requires
        0 <= k < values.len(),
    ensures
        le_bytes_of(values).len() == 4 * values.len(),
        chunk(le_bytes_of(values), 4, k) == le_bytes(values[k]),
    decreases values.len(),
{
    reveal_with_fuel(le_bytes_of, 2);
    let shorter = values.drop_last();
    if shorter.len() > 0 {
        lemma_le_bytes_of(shorter, 0);
    }
    if k < shorter.len() {
        lemma_le_bytes_of(shorter, k);
        assert(chunk(le_bytes_of(values), 4, k) =~= chunk(le_bytes_of(shorter), 4, k));
    } else {
        assert(chunk(le_bytes_of(values), 4, k) =~= le_bytes(values[k]));
    }
}

/// Decoding what was encoded gives the values back.
pub proof fn law_i32_codec_round_trip(values: Seq<i32>)
    ensures
        le_bytes_of(values).len() % 4 == 0,
        le_values(le_bytes_of(values), 4) == values.map_values(|x: i32| x as int),
{
    if values.len() > 0 {
        lemma_le_bytes_of(values, 0);
    }
    assert forall|k: int| 0 <= k < values.len() implies le_values(le_bytes_of(values), 4)[k]
        == values[k] by {
        lemma_le_bytes_of(values, k);
        lemma_le_bytes(values[k]);
    }
    assert(le_values(le_bytes_of(values), 4) =~= values.map_values(|x: i32| x as int));
}

/// A number starts with its lowest byte, and each byte behind it weighs 256
/// times as much as the one before. A signed one lies in its half of the range
/// on either side of zero, and is the unsigned one or a whole range below it.
pub proof fn law_numbers_start_with_their_lowest_byte(bytes: Seq<u8>)
    ensures
        bytes.len() == 1 ==> le_number(bytes) == bytes[0],
        bytes.len() == 2 ==> le_number(bytes) == bytes[0] + 0x100 * bytes[1],
        bytes.len() == 4 ==> le_number(bytes) == bytes[0] + 0x100 * bytes[1] + 0x1_0000 * bytes[2]
            + 0x100_0000 * bytes[3],
        bytes.len() == 8 ==> le_number(bytes) == bytes[0] + 0x100 * bytes[1] + 0x1_0000 * bytes[2]
            + 0x100_0000 * bytes[3] + 0x1_0000_0000 * bytes[4] + 0x100_0000_0000 * bytes[5]
            + 0x1_0000_0000_0000 * bytes[6] + 0x100_0000_0000_0000 * bytes[7],
        bytes.len() == 1 ==> -0x80 <= le_signed(bytes) < 0x80,
        bytes.len() == 2 ==> -0x8000 <= le_signed(bytes) < 0x8000,
        bytes.len() == 4 ==> -0x8000_0000 <= le_signed(bytes) < 0x8000_0000,
        bytes.len() == 1 ==> le_signed(bytes) == le_number(bytes) || le_signed(bytes) == le_number(
            bytes,
        ) - 0x100,
        bytes.len() == 2 ==> le_signed(bytes) == le_number(bytes) || le_signed(bytes) == le_number(
            bytes,
        ) - 0x1_0000,
        bytes.len() == 4 ==> le_signed(bytes) == le_number(bytes) || le_signed(bytes) == le_number(
            bytes,
        ) - 0x1_0000_0000,
{
    reveal_with_fuel(le_number, 9);
    lemma_byte_ranges();
    lemma_le_number_bound(bytes);
}

/// Value `k` of packed 32-bit integers is spelled by its own four bytes, the
/// lowest first.
pub proof fn law_every_value_has_its_own_bytes(bytes: Seq<u8>, k: int)
    requires
        bytes.len() % 4 == 0,
        0 <= k < bytes.len() / 4,
    ensures
        le_values(bytes, 4).len() == bytes.len() / 4,
        ({
            let n = bytes[4 * k] + 0x100 * bytes[4 * k + 1] + 0x1_0000 * bytes[4 * k + 2]
                + 0x100_0000 * bytes[4 * k + 3];
            le_values(bytes, 4)[k] == if n < 0x8000_0000 {
                n
            } else {
                n - 0x1_0000_0000
            }
        }),
{
    law_numbers_start_with_their_lowest_byte(chunk(bytes, 4, k));
}

/// Encoded values stand one behind the other, four bytes each, the lowest byte
/// first.
pub proof fn law_every_value_is_encoded_in_place(values: Seq<i32>, k: int)
    requires
        0 <= k < values.len(),
    ensures
        le_bytes_of(values).len() == 4 * values.len(),
        ({
            let b = le_bytes_of(values);
            b[4 * k] + 0x100 * b[4 * k + 1] + 0x1_0000 * b[4 * k + 2] + 0x100_0000 * b[4 * k + 3]
                == if values[k] < 0 {
                values[k] + 0x1_0000_0000
            } else {
                values[k] as int
            }
        }),
{
    lemma_le_bytes_of(values, k);
    let b = le_bytes_of(values);
    let own = chunk(b, 4, k);
    assert(own[0] == b[4 * k] && own[1] == b[4 * k + 1] && own[2] == b[4 * k + 2] && own[3] == b[4
        * k + 3]);
}

/// How many bytes hold `n` spins, eight to a byte.
pub open spec fn packed_len(n: int) -> int {
    (n + 7) / 8
}

/// Bit `i` of `packed`, counted from the least significant bit of byte 0.
pub open spec fn bit_at(packed: Seq<u8>, i: int) -> bool {
    bit_of(packed[i / 8], i % 8)
}

/// Bit `k` of a byte.
pub open spec fn bit_of(byte: u8, k: int) -> bool {
    (byte >> (k as u8)) & 1u8 == 1u8
}

/// `packed` holds exactly `n` spins: no byte too few or too many, and no bit
/// set past the last spin.
pub open spec fn packs(packed: Seq<u8>, n: int) -> bool {
    &&& packed.len() == packed_len(n)
    &&& forall|i: int| n <= i < 8 * packed.len() ==> !#[trigger] bit_at(packed, i)
}

/// The spin that a bit stands for.
pub open spec fn spin_of(bit: bool) -> i8 {
    if bit {
        1
    } else {
        (-1) as i8
    }
}

/// The spins that `packed` holds.
pub open spec fn unpacked_spins(packed: Seq<u8>, n: int) -> Seq<i8> {
    Seq::new(n as nat, |i: int| spin_of(bit_at(packed, i)))
}

fn read_bit(packed: &[u8], i: usize) -> (bit: bool)
    requires
        i < 8 * packed@.len(),
    ensures
        bit == bit_at(packed@, i as int),
{
    (packed[i / 8] >> ((i % 8) as u8)) & 1u8 == 1u8
}

/// Whether a byte has no bit set from `from` on.
fn clear_from(byte: u8, from: usize) -> (clear: bool)
    requires
        from <= 8,
    ensures
        clear == (forall|k: int| from <= k < 8 ==> !#[trigger] bit_of(byte, k)),
{
    let mut k: usize = from;
    while k < 8
        invariant
            from <= k <= 8,
            forall|m: int| from <= m < k ==> !#[trigger] bit_of(byte, m),
        decreases 8 - k,
    {
        if (byte >> (k as u8)) & 1u8 == 1u8 {
            assert(bit_of(byte, k as int));
            return false;
        }
        assert(!bit_of(byte, k as int));
        k += 1;
    }
    true
}

/// The bits past the last spin are those of the last byte.
proof fn lemma_padding(packed: Seq<u8>, n: int)
    requires
        n % 8 != 0,
        n >= 0,
        packed.len() == packed_len(n),
    ensures
        (forall|i: int| n <= i < 8 * packed.len() ==> !#[trigger] bit_at(packed, i)) <==> (forall|
            k: int,
        |
            n % 8 <= k < 8 ==> !#[trigger] bit_of(packed.last(), k)),
{
    let base = 8 * (packed.len() - 1);
    assert(base == n - n % 8);
    if forall|i: int| n <= i < 8 * packed.len() ==> !#[trigger] bit_at(packed, i) {
        assert forall|k: int| n % 8 <= k < 8 implies !#[trigger] bit_of(packed.last(), k) by {
            assert((base + k) / 8 == packed.len() - 1 && (base + k) % 8 == k);
            assert(!bit_at(packed, base + k));
        }
    }
    if forall|k: int| n % 8 <= k < 8 ==> !#[trigger] bit_of(packed.last(), k) {
        assert forall|i: int| n <= i < 8 * packed.len() implies !#[trigger] bit_at(packed, i) by {
            assert(i / 8 == packed.len() - 1);
            assert(!bit_of(packed.last(), i % 8));
        }
    }
}

/// Decode `n` packed spins. Returns `None` when the bytes do not hold exactly
/// `n` spins.
pub fn decode_spins_packed(packed: &[u8], n: usize) -> (spins: Option<Vec<i8>>)
    ensures
        spins is Some <==> packs(packed@, n as int),
        spins matches Some(s) ==> s@ == unpacked_spins(packed@, n as int),
{
    let bytes: usize = n / 8 + if n % 8 == 0 {
        0
    } else {
        1
    };
    assert(bytes == packed_len(n as int));
    if packed.len() != bytes {
        return None;
    }
    let mut spins: Vec<i8> = Vec::new();
    let mut i: usize = 0;
    while i < n
        invariant
            i <= n,
            packed@.len() == packed_len(n as int),
            spins@.len() == i,
            forall|k: int| 0 <= k < i ==> #[trigger] spins@[k] == spin_of(bit_at(packed@, k)),
        decreases n - i,
    {
        spins.push(if read_bit(packed, i) {
            1
        } else {
            -1
        });
        i += 1;
    }
    // Only the last byte can hold bits past the last spin.
    if n % 8 != 0 {
        let last: u8 = packed[packed.len() - 1];
        let clear: bool = clear_from(last, n % 8);
        proof {
            lemma_padding(packed@, n as int);
            assert(last == packed@.last());
        }
        if !clear {
            return None;
        }
    }
    assert(spins@ =~= unpacked_spins(packed@, n as int));
    Some(spins)
}

/// `packed` holds `spins`: a set bit for each positive one.
pub open spec fn packed_from(packed: Seq<u8>, spins: Seq<i8>) -> bool {
    &&& packs(packed, spins.len() as int)
    &&& forall|i: int| 0 <= i < spins.len() ==> #[trigger] bit_at(packed, i) == (spins[i] > 0)
}

/// Encode spins, eight to a byte, a set bit for each positive one.
pub fn encode_spins_packed(spins: &[i8]) -> (packed: Vec<u8>)
    ensures
        packed_from(packed@, spins@),
{
    let mut packed: Vec<u8> = Vec::new();
    let mut i: usize = 0;
    while i < spins.len()
        invariant
            i <= spins@.len(),
            packed@.len() == packed_len(i as int),
            forall|k: int| 0 <= k < i ==> #[trigger] bit_at(packed@, k) == (spins@[k] > 0),
            forall|k: int| i <= k < 8 * packed@.len() ==> !#[trigger] bit_at(packed@, k),
        decreases spins@.len() - i,
    {
        let ghost before = packed@;
        if i % 8 == 0 {
            packed.push(0);
            proof {
                assert forall|k: int| 0 <= k < i implies #[trigger] bit_at(packed@, k) == (spins@[k]
                    > 0) by {
                    assert(bit_at(packed@, k) == bit_at(before, k));
                }
                assert forall|k: int| i <= k < 8 * packed@.len() implies !#[trigger] bit_at(
                    packed@,
                    k,
                ) by {
                    let s = (k % 8) as u8;
                    assert((0u8 >> s) & 1u8 != 1u8) by (bit_vector)
                        requires
                            s < 8,
                    ;
                }
            }
        }
        if spins[i] > 0 {
            let ghost middle = packed@;
            let at: usize = i / 8;
            let slot: u8 = (i % 8) as u8;
            let old_byte: u8 = packed[at];
            let new_byte: u8 = old_byte | (1u8 << slot);
            packed.set(at, new_byte);
            proof {
                assert forall|k: int| 0 <= k < 8 * packed@.len() && k != i implies #[trigger] bit_at(
                    packed@,
                    k,
                ) == bit_at(middle, k) by {
                    if k / 8 == at {
                        let s = (k % 8) as u8;
                        assert(((old_byte | (1u8 << slot)) >> s) & 1u8 == (old_byte >> s) & 1u8)
                            by (bit_vector)
                            requires
                                s < 8,
                                slot < 8,
                                s != slot,
                        ;
                    }
                }
                assert(((old_byte | (1u8 << slot)) >> slot) & 1u8 == 1u8) by (bit_vector)
                    requires
                        slot < 8,
                ;
                assert(bit_at(packed@, i as int));
            }
        }
        i += 1;
    }
    packed
}

/// Every spin is up or down.
pub open spec fn are_spins(spins: Seq<i8>) -> bool {
    forall|i: int| 0 <= i < spins.len() ==> (#[trigger] spins[i] == 1 || spins[i] == -1)
}

/// Decoding what was encoded gives the spins back.
pub proof fn law_spins_survive_packing(packed: Seq<u8>, spins: Seq<i8>)
    requires
        are_spins(spins),
        packed_from(packed, spins),
    ensures
        packs(packed, spins.len() as int),
        unpacked_spins(packed, spins.len() as int) == spins,
{
    assert forall|i: int| 0 <= i < spins.len() implies spin_of(bit_at(packed, i)) == spins[i] by {
        assert(bit_at(packed, i) == (spins[i] > 0));
    }
    assert(unpacked_spins(packed, spins.len() as int) =~= spins);
}

proof fn lemma_bytes_equal(a: u8, b: u8)
    requires
        forall|k: int| 0 <= k < 8 ==> #[trigger] bit_of(a, k) == bit_of(b, k),
    ensures
        a == b,
{
    assert(bit_of(a, 0) == bit_of(b, 0) && bit_of(a, 1) == bit_of(b, 1) && bit_of(a, 2) == bit_of(
        b,
        2,
    ) && bit_of(a, 3) == bit_of(b, 3) && bit_of(a, 4) == bit_of(b, 4) && bit_of(a, 5) == bit_of(
        b,
        5,
    ) && bit_of(a, 6) == bit_of(b, 6) && bit_of(a, 7) == bit_of(b, 7));
    assert(a == b) by (bit_vector)
        requires
            ((a >> 0u8) & 1u8 == 1u8) == ((b >> 0u8) & 1u8 == 1u8),
            ((a >> 1u8) & 1u8 == 1u8) == ((b >> 1u8) & 1u8 == 1u8),
            ((a >> 2u8) & 1u8 == 1u8) == ((b >> 2u8) & 1u8 == 1u8),
            ((a >> 3u8) & 1u8 == 1u8) == ((b >> 3u8) & 1u8 == 1u8),
            ((a >> 4u8) & 1u8 == 1u8) == ((b >> 4u8) & 1u8 == 1u8),
            ((a >> 5u8) & 1u8 == 1u8) == ((b >> 5u8) & 1u8 == 1u8),
            ((a >> 6u8) & 1u8 == 1u8) == ((b >> 6u8) & 1u8 == 1u8),
            ((a >> 7u8) & 1u8 == 1u8) == ((b >> 7u8) & 1u8 == 1u8),
    ;
}

/// Encoding what was decoded gives the bytes back: no two byte strings hold
/// the same spins.
pub proof fn law_packing_is_unique(packed: Seq<u8>, again: Seq<u8>, n: nat)
    requires
        packs(packed, n as int),
        packed_from(again, unpacked_spins(packed, n as int)),
    ensures
        again == packed,
{
    let spins = unpacked_spins(packed, n as int);
    assert forall|b: int| 0 <= b < packed.len() implies packed[b] == again[b] by {
        assert forall|k: int| 0 <= k < 8 implies #[trigger] bit_of(packed[b], k) == bit_of(
            again[b],
            k,
        ) by {
            let i = 8 * b + k;
            assert(i / 8 == b && i % 8 == k);
            assert(bit_at(packed, i) == bit_of(packed[b], k));
            assert(bit_at(again, i) == bit_of(again[b], k));
            if i < n {
                assert(bit_at(again, i) == (spins[i] > 0));
            }
        }
        lemma_bytes_equal(packed[b], again[b]);
    }
    assert(again =~= packed);
}

/// What bit `k` of a byte weighs.
pub open spec fn weight(k: int) -> u8 {
    if k == 0 {
        1
    } else if k == 1 {
        2
    } else if k == 2 {
        4
    } else if k == 3 {
        8
    } else if k == 4 {
        16
    } else if k == 5 {
        32
    } else if k == 6 {
        64
    } else {
        128
    }
}

proof fn lemma_bits_weigh(byte: u8, k: int)
    requires
        0 <= k < 8,
    ensures
        bit_of(byte, k) == (byte / weight(k) % 2 == 1),
{
    assert(((byte >> 0u8) & 1u8 == 1u8) == (byte / 1 % 2 == 1) && ((byte >> 1u8) & 1u8 == 1u8) == (
    byte / 2 % 2 == 1) && ((byte >> 2u8) & 1u8 == 1u8) == (byte / 4 % 2 == 1) && ((byte >> 3u8) & 1u8
        == 1u8) == (byte / 8 % 2 == 1) && ((byte >> 4u8) & 1u8 == 1u8) == (byte / 16 % 2 == 1) && ((
    byte >> 5u8) & 1u8 == 1u8) == (byte / 32 % 2 == 1) && ((byte >> 6u8) & 1u8 == 1u8) == (byte / 64
        % 2 == 1) && ((byte >> 7u8) & 1u8 == 1u8) == (byte / 128 % 2 == 1)) by (bit_vector);
}

/// Spin `i` is decided by bit `i % 8` of byte `i / 8`, the lowest bit first: up
/// when the bit is set, down when it is not. `n` spins fill just as many bytes
/// as they need.
pub proof fn law_every_spin_has_its_own_bit(packed: Seq<u8>, n: nat, i: int)
    requires
        packs(packed, n as int),
        0 <= i < n,
    ensures
        8 * packed.len() >= n,
        8 * packed.len() < n + 8,
        unpacked_spins(packed, n as int).len() == n,
        unpacked_spins(packed, n as int)[i] == if packed[i / 8] / weight(i % 8) % 2 == 1 {
            1i8
        } else {
            -1i8
        },
{
    lemma_bits_weigh(packed[i / 8], i % 8);
}

/// Encoding sets bit `i % 8` of byte `i / 8` exactly for a positive spin `i`, and
/// no bit past the last spin, in just as many bytes as it takes.
pub proof fn law_every_spin_sets_its_own_bit(packed: Seq<u8>, spins: Seq<i8>, i: int)
    requires
        packed_from(packed, spins),
        0 <= i < 8 * packed.len(),
    ensures
        spins.len() <= 8 * packed.len() < spins.len() + 8,
        packed[i / 8] / weight(i % 8) % 2 == 1 <==> i < spins.len() && spins[i] > 0,
{
    lemma_bits_weigh(packed[i / 8], i % 8);
    if i < spins.len() {
        assert(bit_at(packed, i) == (spins[i] > 0));
    } else {
        assert(!bit_at(packed, i));
    }
}

/// The energy of the first `n` biases, in milli units.
pub open spec fn bias_energy(spins: Seq<i8>, h: Seq<i32>, n: nat) -> int
    decreases n,
{
    if n == 0 {
        0
    } else {
        let i = n - 1;
        bias_energy(spins, h, (n - 1) as nat) + if i < spins.len() && i < h.len() {
            h[i] * spins[i]
        } else {
            0
        }
    }
}

/// The energy of the first `n` edges, in milli units. An edge outside `spins`
/// and an edge without a coupling count nothing.
pub open spec fn edge_energy(
    spins: Seq<i8>,
    j: Seq<i32>,
    edges: Seq<(usize, usize)>,
    n: nat,
) -> int
    decreases n,
{
    if n == 0 {
        0
    } else {
        let (u, v) = edges[n - 1];
        edge_energy(spins, j, edges, (n - 1) as nat) + if n - 1 < j.len() && u < spins.len() && v
            < spins.len() {
            j[n - 1] * (spins[u as int] * spins[v as int])
        } else {
            0
        }
    }
}

/// The energy of `spins` in the problem `(h, j, edges)`, in milli units.
pub open spec fn energy(
    spins: Seq<i8>,
    h: Seq<i32>,
    j: Seq<i32>,
    edges: Seq<(usize, usize)>,
) -> int {
    bias_energy(spins, h, h.len()) + edge_energy(spins, j, edges, edges.len())
}

/// `e`, or the nearer end of the 64-bit range when it lies outside.
pub open spec fn clamp_i64(e: int) -> i64 {
    if e < i64::MIN {
        i64::MIN
    } else if e > i64::MAX {
        i64::MAX
    } else {
        e as i64
    }
}

/// The consensus energy of `spins`, in milli units. Holding a sum that exceeds
/// 64 bits at the nearer end of the range is this library's own choice.
pub fn energy_from_milli(
    spins: &[i8],
    h: &[i32],
    j: &[i32],
    edges: &[(usize, usize)],
) -> (e: i64)
    ensures
        e == clamp_i64(energy(spins@, h@, j@, edges@)),
        i64::MIN <= energy(spins@, h@, j@, edges@) <= i64::MAX ==> e == energy(
            spins@,
            h@,
            j@,
            edges@,
        ),
{
    let mut total: i128 = 0;
    let mut i: usize = 0;
    while i < h.len()
        invariant
            i <= h@.len(),
            total == bias_energy(spins@, h@, i as nat),
            -0x40_0000_0000 * i <= total <= 0x40_0000_0000 * i,
        decreases h@.len() - i,
    {
        if i < spins.len() {
            let a: i32 = h[i];
            let s: i8 = spins[i];
            proof {
                assert(-0x40_0000_0000 <= a * s <= 0x40_0000_0000) by (nonlinear_arith)
                    requires
                        -0x8000_0000 <= a <= 0x7fff_ffff,
                        -128 <= s <= 127,
                ;
            }
            total = total + a as i128 * s as i128;
        }
        i += 1;
    }
    let ghost biases = total;
    let mut k: usize = 0;
    while k < edges.len()
        invariant
            k <= edges@.len(),
            biases == bias_energy(spins@, h@, h@.len()),
            -0x40_0000_0000 * 0x1_0000_0000_0000_0000 <= biases <= 0x40_0000_0000
                * 0x1_0000_0000_0000_0000,
            total == biases + edge_energy(spins@, j@, edges@, k as nat),
            -0x2000_0000_0000 * k <= total - biases <= 0x2000_0000_0000 * k,
        decreases edges@.len() - k,
    {
        let (u, v): (usize, usize) = edges[k];
        if k < j.len() && u < spins.len() && v < spins.len() {
            let a: i32 = j[k];
            let p: i32 = spins[u] as i32;
            let q: i32 = spins[v] as i32;
            proof {
                assert(-0x4000 <= p * q <= 0x4000) by (nonlinear_arith)
                    requires
                        -128 <= p <= 127,
                        -128 <= q <= 127,
                ;
            }
            let pq: i32 = p * q;
            proof {
                assert(-0x2000_0000_0000 <= a * pq <= 0x2000_0000_0000) by (nonlinear_arith)
                    requires
                        -0x8000_0000 <= a <= 0x7fff_ffff,
                        -0x4000 <= pq <= 0x4000,
                ;
            }
            total = total + a as i128 * pq as i128;
        }
        k += 1;
    }
    if total < i64::MIN as i128 {
        i64::MIN
    } else if total > i64::MAX as i128 {
        i64::MAX
    } else {
        total as i64
    }
}

proof fn lemma_bias_prefix(spins: Seq<i8>, h: Seq<i32>, b: i32, n: nat)
    requires
        n <= h.len(),
    ensures
        bias_energy(spins, h.push(b), n) == bias_energy(spins, h, n),
    decreases n,
{
    if n > 0 {
        lemma_bias_prefix(spins, h, b, (n - 1) as nat);
        assert(h.push(b)[n - 1] == h[n - 1]);
    }
}

proof fn lemma_edge_prefix(
    spins: Seq<i8>,
    j: Seq<i32>,
    edges: Seq<(usize, usize)>,
    c: i32,
    edge: (usize, usize),
    n: nat,
)
    requires
        n <= edges.len(),
        n <= j.len(),
    ensures
        edge_energy(spins, j.push(c), edges.push(edge), n) == edge_energy(spins, j, edges, n),
    decreases n,
{
    if n > 0 {
        lemma_edge_prefix(spins, j, edges, c, edge, (n - 1) as nat);
        assert(edges.push(edge)[n - 1] == edges[n - 1]);
        assert(j.push(c)[n - 1] == j[n - 1]);
    }
}

proof fn lemma_bare_edge_prefix(
    spins: Seq<i8>,
    j: Seq<i32>,
    edges: Seq<(usize, usize)>,
    edge: (usize, usize),
    n: nat,
)
    requires
        n <= edges.len(),
    ensures
        edge_energy(spins, j, edges.push(edge), n) == edge_energy(spins, j, edges, n),
    decreases n,
{
    if n > 0 {
        lemma_bare_edge_prefix(spins, j, edges, edge, (n - 1) as nat);
        assert(edges.push(edge)[n - 1] == edges[n - 1]);
    }
}

/// One more edge raises the energy by its own coupling times the spins at its
/// two ends, whatever stands before it. An edge that leaves the spins changes
/// nothing, and neither does one without a coupling.
pub proof fn law_every_edge_adds_its_own_term(
    spins: Seq<i8>,
    h: Seq<i32>,
    j: Seq<i32>,
    edges: Seq<(usize, usize)>,
    u: usize,
    v: usize,
    c: i32,
)
    ensures
        j.len() == edges.len() && u < spins.len() && v < spins.len() ==> energy(
            spins,
            h,
            j.push(c),
            edges.push((u, v)),
        ) == energy(spins, h, j, edges) + c * (spins[u as int] * spins[v as int]),
        j.len() == edges.len() && (u >= spins.len() || v >= spins.len()) ==> energy(
            spins,
            h,
            j.push(c),
            edges.push((u, v)),
        ) == energy(spins, h, j, edges),
        j.len() <= edges.len() ==> energy(spins, h, j, edges.push((u, v))) == energy(
            spins,
            h,
            j,
            edges,
        ),
{
    let more = edges.push((u, v));
    assert(more[edges.len() as int] == (u, v));
    if j.len() == edges.len() {
        lemma_edge_prefix(spins, j, edges, c, (u, v), edges.len());
        assert(j.push(c)[j.len() as int] == c);
    }
    if j.len() <= edges.len() {
        lemma_bare_edge_prefix(spins, j, edges, (u, v), edges.len());
    }
}

/// One more bias raises the energy by the bias times the spin of its own
/// variable, and one past the last spin changes nothing. A problem without
/// biases and edges has energy zero.
pub proof fn law_every_bias_adds_its_own_term(
    spins: Seq<i8>,
    h: Seq<i32>,
    j: Seq<i32>,
    edges: Seq<(usize, usize)>,
    b: i32,
)
    ensures
        h.len() < spins.len() ==> energy(spins, h.push(b), j, edges) == energy(spins, h, j, edges)
            + b * spins[h.len() as int],
        h.len() >= spins.len() ==> energy(spins, h.push(b), j, edges) == energy(
            spins,
            h,
            j,
            edges,
        ),
        energy(spins, Seq::empty(), j, Seq::empty()) == 0,
{
    lemma_bias_prefix(spins, h, b, h.len());
    assert(h.push(b)[h.len() as int] == b);
}

/// What the first `n` edges add to the field at node `i`: the coupling of each
/// edge that has node `i` at one end, times the spin at its other end.
pub open spec fn pull(
    spins: Seq<i8>,
    j: Seq<i32>,
    edges: Seq<(usize, usize)>,
    i: int,
    n: nat,
) -> int
    decreases n,
{
    if n == 0 {
        0
    } else {
        let (u, v) = edges[n - 1];
        pull(spins, j, edges, i, (n - 1) as nat) + if u == i && v != i && v < spins.len() {
            j[n - 1] * spins[v as int]
        } else if v == i && u != i && u < spins.len() {
            j[n - 1] * spins[u as int]
        } else {
            0
        }
    }
}

proof fn lemma_flipped_biases(spins: Seq<i8>, h: Seq<i32>, i: int, n: nat)
    requires
        0 <= i < spins.len(),
        spins[i] > -128,
        n <= h.len(),
    ensures
        bias_energy(spins.update(i, (-spins[i]) as i8), h, n) == bias_energy(spins, h, n) - (if i
            < n {
            2 * (spins[i] * h[i])
        } else {
            0
        }),
    decreases n,
{
    if n > 0 {
        lemma_flipped_biases(spins, h, i, (n - 1) as nat);
        let s = spins[i] as int;
        if n - 1 == i {
            let b = h[i] as int;
            assert(b * (-s) == b * s - 2 * (s * b)) by (nonlinear_arith);
        }
    }
}

proof fn lemma_flipped_edges(
    spins: Seq<i8>,
    j: Seq<i32>,
    edges: Seq<(usize, usize)>,
    i: int,
    n: nat,
)
    requires
        0 <= i < spins.len(),
        spins[i] > -128,
        n <= edges.len(),
        n <= j.len(),
    ensures
        edge_energy(spins.update(i, (-spins[i]) as i8), j, edges, n) == edge_energy(
            spins,
            j,
            edges,
            n,
        ) - 2 * (spins[i] * pull(spins, j, edges, i, n)),
    decreases n,
{
    let s = spins[i] as int;
    if n == 0 {
        assert(s * 0 == 0) by (nonlinear_arith);
    } else {
        lemma_flipped_edges(spins, j, edges, i, (n - 1) as nat);
        let flipped = spins.update(i, (-spins[i]) as i8);
        let (u, v) = edges[n - 1];
        let c = j[n - 1] as int;
        let before = pull(spins, j, edges, i, (n - 1) as nat);
        if u < spins.len() && v < spins.len() {
            let p = spins[u as int] as int;
            let q = spins[v as int] as int;
            if u == i && v == i {
                assert(c * ((-s) * (-s)) == c * (s * s)) by (nonlinear_arith);
            } else if u == i {
                assert(c * ((-s) * q) == c * (s * q) - 2 * (s * (c * q))) by (nonlinear_arith);
                assert(s * (before + c * q) == s * before + s * (c * q)) by (nonlinear_arith);
            } else if v == i {
                assert(c * (p * (-s)) == c * (p * s) - 2 * (s * (c * p))) by (nonlinear_arith);
                assert(s * (before + c * p) == s * before + s * (c * p)) by (nonlinear_arith);
            }
        }
    }
}

/// Flipping one spin changes the energy by minus twice that spin times the
/// field at its node: its own bias and, for each edge there, that edge's own
/// coupling times the spin at the other end.
pub proof fn law_a_flip_costs_twice_the_field(
    spins: Seq<i8>,
    h: Seq<i32>,
    j: Seq<i32>,
    edges: Seq<(usize, usize)>,
    i: int,
)
    requires
        0 <= i < h.len(),
        i < spins.len(),
        spins[i] > -128,
        j.len() == edges.len(),
    ensures
        energy(spins.update(i, (-spins[i]) as i8), h, j, edges) == energy(spins, h, j, edges) - 2 * (
        spins[i] * (h[i] + pull(spins, j, edges, i, edges.len()))),
{
    lemma_flipped_biases(spins, h, i, h.len());
    lemma_flipped_edges(spins, j, edges, i, edges.len());
    let (s, b) = (spins[i] as int, h[i] as int);
    let p = pull(spins, j, edges, i, edges.len());
    assert(s * (b + p) == s * b + s * p) by (nonlinear_arith);
}

proof fn lemma_changed_coupling(
    spins: Seq<i8>,
    j: Seq<i32>,
    edges: Seq<(usize, usize)>,
    k: int,
    c: i32,
    n: nat,
)
    requires
        0 <= k < j.len(),
        n <= edges.len(),
    ensures
        edge_energy(spins, j.update(k, c), edges, n) == edge_energy(spins, j, edges, n) + (if k < n
            && edges[k].0 < spins.len() && edges[k].1 < spins.len() {
            (c - j[k]) * (spins[edges[k].0 as int] * spins[edges[k].1 as int])
        } else {
            0
        }),
    decreases n,
{
    if n > 0 {
        lemma_changed_coupling(spins, j, edges, k, c, (n - 1) as nat);
        if n - 1 == k {
            let (u, v) = edges[k];
            if u < spins.len() && v < spins.len() {
                let w = spins[u as int] * spins[v as int];
                let (new, was) = (c as int, j[k] as int);
                assert(new * w == was * w + (new - was) * w) by (nonlinear_arith);
            }
        }
    }
}

/// Changing one coupling changes the energy by the difference times the spins
/// at the ends of that very edge.
pub proof fn law_a_coupling_acts_on_its_own_edge(
    spins: Seq<i8>,
    h: Seq<i32>,
    j: Seq<i32>,
    edges: Seq<(usize, usize)>,
    k: int,
    c: i32,
)
    requires
        0 <= k < j.len(),
        j.len() <= edges.len(),
        edges[k].0 < spins.len(),
        edges[k].1 < spins.len(),
    ensures
        energy(spins, h, j.update(k, c), edges) == energy(spins, h, j, edges) + (c - j[k]) * (
        spins[edges[k].0 as int] * spins[edges[k].1 as int]),
{
    lemma_changed_coupling(spins, j, edges, k, c, edges.len());
}

/// An energy that fits in 64 bits is reported as it is, and one that does not
/// lies on the same side of every energy that fits.
pub proof fn law_only_huge_energies_are_cut(e: int, fits: int)
    requires
        i64::MIN <= fits <= i64::MAX,
    ensures
        clamp_i64(fits) == fits,
        e <= fits ==> clamp_i64(e) <= fits,
        e >= fits ==> clamp_i64(e) >= fits,
{
}

/// Whether two byte strings are equal.
pub fn same_bytes(a: &[u8], b: &[u8]) -> (same: bool)
    ensures
        same == (a@ == b@),
{
    if a.len() != b.len() {
        return false;
    }
    let mut i: usize = 0;
    while i < a.len()
        invariant
            i <= a@.len(),
            a@.len() == b@.len(),
            forall|k: int| 0 <= k < i ==> a@[k] == b@[k],
        decreases a@.len() - i,
    {
        if a[i] != b[i] {
            return false;
        }
        i += 1;
    }
    assert(a@ =~= b@);
    true
}

/// Copy a byte string.
pub fn copy_bytes(bytes: &[u8]) -> (copy: Vec<u8>)
    ensures
        copy@ == bytes@,
{
    let mut copy: Vec<u8> = Vec::new();
    let mut i: usize = 0;
    while i < bytes.len()
        invariant
            i <= bytes@.len(),
            copy@ == bytes@.take(i as int),
        decreases bytes@.len() - i,
    {
        copy.push(bytes[i]);
        assert(copy@ =~= bytes@.take(i + 1));
        i += 1;
    }
    assert(bytes@.take(i as int) =~= bytes@);
    copy
}

} // verus!
