//! Wire format of Protocol Buffers, as far as vector tiles need it.
//!
//! A message is the sequence of its fields. A field begins with a key,
//! which holds the number of the field and the type of what follows:
//! a number as a varint, or a length as a varint and as many bytes.

use vstd::arithmetic::power2::{
    lemma2_to64,
    lemma2_to64_rest,
    lemma_pow2_adds,
    lemma_pow2_strictly_increases,
    pow2,
};
use vstd::prelude::*;
use vstd::string::StrSliceExecFns;
use vstd::utf8::encode_utf8;

verus! {

/// Type of a field whose value is a varint.
pub const WIRE_TYPE_VARINT: u32 = 0;

/// Type of a field whose value is a length and as many bytes.
pub const WIRE_TYPE_LENGTH_DELIMITED: u32 = 2;

/// Largest number of a field.
pub const MAX_FIELD_NUMBER: u32 = 0x1FFF_FFFF;

/// A number as a varint: seven bits per byte, from the lowest bits up, and
/// the highest bit of every byte but the last set.
pub open spec fn varint(n: nat) -> Seq<u8>
    decreases n,
{
    if n < 128 {
        seq![n as u8]
    } else {
        seq![(n % 128 + 128) as u8] + varint(n / 128)
    }
}

/// A varint tells where it ends: its last byte is the only one whose
/// highest bit is not set. A number of 64 bits takes ten bytes at most.
pub proof fn lemma_varint_ends(n: nat)
    ensures
        varint(n).len() >= 1,
        varint(n).last() < 128,
        forall|i: int| 0 <= i < varint(n).len() - 1 ==> #[trigger] varint(n)[i] >= 128,
        n <= u64::MAX ==> varint(n).len() <= 10,
    decreases n,
{
    if n >= 128 {
        lemma_varint_ends(n / 128);
        let rest = varint(n / 128);
        assert forall|i: int| 0 <= i < varint(n).len() - 1 implies #[trigger] varint(n)[i]
            >= 128 by {
            if i > 0 {
                assert(varint(n)[i] == rest[i - 1]);
            }
        }
        assert(varint(n).last() == rest.last());
        if n <= u64::MAX {
            lemma2_to64_rest();
            lemma_pow2_strictly_increases(64, 70);
            lemma_varint_len(n, 10);
        }
    }
}

/// A number of `7 * k` bits takes `k` bytes at most.
proof fn lemma_varint_len(n: nat, k: nat)
    requires
        k >= 1,
        n < pow2(7 * k),
    ensures
        varint(n).len() <= k,
    decreases k,
{
    lemma2_to64();
    if n >= 128 {
        if k > 1 {
            lemma_pow2_adds(7, (7 * (k - 1)) as nat);
            assert(n / 128 < pow2((7 * (k - 1)) as nat)) by (nonlinear_arith)
                requires
                    n < 128 * pow2((7 * (k - 1)) as nat),
            ;
            lemma_varint_len(n / 128, (k - 1) as nat);
        }
    }
}

/// The 64 bits that stand for a signed number, as an unsigned number.
pub open spec fn twos_complement(n: i64) -> nat {
    if n >= 0 {
        n as nat
    } else {
        (n + 0x1_0000_0000_0000_0000) as nat
    }
}

/// The key of a field.
pub open spec fn field_key(field: u32, wire_type: u32) -> Seq<u8> {
    varint((field * 8 + wire_type) as nat)
}

/// A field whose value is a number.
pub open spec fn varint_field(field: u32, n: nat) -> Seq<u8> {
    field_key(field, WIRE_TYPE_VARINT) + varint(n)
}

/// A field whose value is a sequence of bytes.
pub open spec fn bytes_field(field: u32, bytes: Seq<u8>) -> Seq<u8> {
    field_key(field, WIRE_TYPE_LENGTH_DELIMITED) + varint(bytes.len()) + bytes
}

/// A field whose value is a string: the bytes of the string in UTF-8.
pub open spec fn string_field(field: u32, string: Seq<char>) -> Seq<u8> {
    bytes_field(field, encode_utf8(string))
}

/// What a repeated item adds up to: the encoding of each item, one after
/// the other.
pub open spec fn repeated<T>(items: Seq<T>, encode: spec_fn(T) -> Seq<u8>) -> Seq<u8>
    decreases items.len(),
{
    if items.len() == 0 {
        Seq::<u8>::empty()
    } else {
        repeated(items.drop_last(), encode) + encode(items.last())
    }
}

/// Numbers packed into one sequence of bytes: the varint of each.
pub open spec fn packed(numbers: Seq<u32>) -> Seq<u8> {
    repeated(numbers, |n: u32| varint(n as nat))
}

/// A field whose value is a sequence of numbers, packed. The field is left
/// out if there are no numbers.
pub open spec fn packed_field(field: u32, numbers: Seq<u32>) -> Seq<u8> {
    if numbers.len() == 0 {
        Seq::<u8>::empty()
    } else {
        bytes_field(field, packed(numbers))
    }
}

/// One more item adds its encoding at the end.
pub proof fn lemma_repeated_push<T>(items: Seq<T>, item: T, encode: spec_fn(T) -> Seq<u8>)
    ensures
        repeated(items.push(item), encode) == repeated(items, encode) + encode(item),
{
    assert(items.push(item).drop_last() =~= items);
}

/// Writes a number as a varint.
pub fn write_varint(out: &mut Vec<u8>, value: u64)
    ensures
        final(out)@ == old(out)@ + varint(value as nat),
{
    let mut rest: u64 = value;
    while rest >= 128
        invariant
            out@ + varint(rest as nat) == old(out)@ + varint(value as nat),
        decreases rest,
    {
        let ghost before = out@;
        out.push((rest % 128 + 128) as u8);
        proof {
            assert(before + varint(rest as nat) =~= out@ + varint((rest / 128) as nat));
        }
        rest = rest / 128;
    }
    let ghost before = out@;
    out.push(rest as u8);
    proof {
        assert(before + varint(rest as nat) =~= out@);
    }
}

/// Writes the key of a field.
pub fn write_key(out: &mut Vec<u8>, field: u32, wire_type: u32)
    requires
        field <= MAX_FIELD_NUMBER,
        wire_type < 8,
    ensures
        final(out)@ == old(out)@ + field_key(field, wire_type),
{
    write_varint(out, (field as u64) * 8 + (wire_type as u64));
}

/// Writes a field whose value is a number.
pub fn write_varint_field(out: &mut Vec<u8>, field: u32, value: u64)
    requires
        field <= MAX_FIELD_NUMBER,
    ensures
        final(out)@ == old(out)@ + varint_field(field, value as nat),
{
    write_key(out, field, WIRE_TYPE_VARINT);
    write_varint(out, value);
    proof {
        assert(out@ =~= old(out)@ + varint_field(field, value as nat));
    }
}

/// Writes a field whose value is a sequence of bytes. The bytes move to the
/// output.
pub fn write_bytes_field(out: &mut Vec<u8>, field: u32, bytes: Vec<u8>)
    requires
        field <= MAX_FIELD_NUMBER,
    ensures
        final(out)@ == old(out)@ + bytes_field(field, bytes@),
{
    let ghost payload = bytes@;
    let mut bytes = bytes;
    write_key(out, field, WIRE_TYPE_LENGTH_DELIMITED);
    write_varint(out, bytes.len() as u64);
    out.append(&mut bytes);
    proof {
        assert(out@ =~= old(out)@ + bytes_field(field, payload));
    }
}

/// Writes a field whose value is a string.
pub fn write_string_field(out: &mut Vec<u8>, field: u32, string: &str)
    requires
        field <= MAX_FIELD_NUMBER,
    ensures
        final(out)@ == old(out)@ + string_field(field, string@),
{
    write_bytes_field(out, field, string.as_bytes_vec());
}

/// Writes a field whose value is a sequence of numbers, packed.
pub fn write_packed_field(out: &mut Vec<u8>, field: u32, numbers: &Vec<u32>)
    requires
        field <= MAX_FIELD_NUMBER,
    ensures
        final(out)@ == old(out)@ + packed_field(field, numbers@),
{
    if numbers.len() == 0 {
        proof {
            assert(out@ =~= old(out)@ + packed_field(field, numbers@));
        }
        return ;
    }
    let mut bytes: Vec<u8> = Vec::new();
    let mut i: usize = 0;
    while i < numbers.len()
        invariant
            i <= numbers.len(),
            bytes@ == packed(numbers@.take(i as int)),
        decreases numbers.len() - i,
    {
        proof {
            lemma_repeated_push(numbers@.take(i as int), numbers@[i as int], |n: u32| varint(n as nat));
            assert(numbers@.take(i as int).push(numbers@[i as int]) =~= numbers@.take(i + 1));
        }
        write_varint(&mut bytes, numbers[i] as u64);
        i = i + 1;
    }
    proof {
        assert(numbers@.take(i as int) =~= numbers@);
    }
    write_bytes_field(out, field, bytes);
}

} // verus!
