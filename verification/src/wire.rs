//! Big-endian integers on the wire: their byte sequences, writers and readers.

use vstd::prelude::*;

verus! {

/// Why a buffer was rejected by a parser.
#[derive(Debug, Clone, Copy, PartialEq, Eq, Structural)]
pub enum ParseError {
    /// The buffer ends before the value does.
    Short,
    /// The version byte or a type byte has a value that the format does not know.
    Tag,
    /// A length field is smaller than the fixed part it has to cover.
    Length,
}

/// The two bytes of `x`, most significant first.
pub open spec fn be16(x: u16) -> Seq<u8> {
    seq![(x / 0x100) as u8, (x % 0x100) as u8]
}

/// The four bytes of `x`, most significant first.
pub open spec fn be32(x: u32) -> Seq<u8> {
    seq![
        (x / 0x100_0000) as u8,
        (x / 0x1_0000 % 0x100) as u8,
        (x / 0x100 % 0x100) as u8,
        (x % 0x100) as u8,
    ]
}

/// The eight bytes of `x`, most significant first.
pub open spec fn be64(x: u64) -> Seq<u8> {
    be32((x / 0x1_0000_0000) as u32) + be32((x % 0x1_0000_0000) as u32)
}

/// The unsigned 32-bit pattern of a signed value (two's complement).
pub open spec fn bits_of_i32(x: i32) -> u32 {
    if x >= 0 {
        x as u32
    } else {
        (x + 0x1_0000_0000) as u32
    }
}

/// The signed value of an unsigned 32-bit pattern (two's complement).
pub open spec fn i32_of_bits(x: u32) -> i32 {
    if x < 0x8000_0000 {
        x as i32
    } else {
        (x - 0x1_0000_0000) as i32
    }
}

/// The 16-bit value whose big-endian bytes stand at `s[i]` and `s[i + 1]`.
pub open spec fn u16_at(s: Seq<u8>, i: int) -> u16 {
    (s[i] * 0x100 + s[i + 1]) as u16
}

/// The 32-bit value whose big-endian bytes stand at `s[i] .. s[i + 3]`.
pub open spec fn u32_at(s: Seq<u8>, i: int) -> u32 {
    (s[i] * 0x100_0000 + s[i + 1] * 0x1_0000 + s[i + 2] * 0x100 + s[i + 3]) as u32
}

/// The 64-bit value whose big-endian bytes stand at `s[i] .. s[i + 7]`.
pub open spec fn u64_at(s: Seq<u8>, i: int) -> u64 {
    (u32_at(s, i) * 0x1_0000_0000 + u32_at(s, i + 4)) as u64
}

/// Reading back what `be16` wrote gives the value written.
pub proof fn lemma_be16_read(x: u16, s: Seq<u8>, i: int)
    requires
        0 <= i,
        i + 2 <= s.len(),
        s.subrange(i, i + 2) == be16(x),
    ensures
        u16_at(s, i) == x,
{
    let t = s.subrange(i, i + 2);
    assert(t[0] == s[i] && t[1] == s[i + 1]);
}

/// Reading back what `be32` wrote gives the value written.
pub proof fn lemma_be32_read(x: u32, s: Seq<u8>, i: int)
    requires
        0 <= i,
        i + 4 <= s.len(),
        s.subrange(i, i + 4) == be32(x),
    ensures
        u32_at(s, i) == x,
{
    let t = s.subrange(i, i + 4);
    assert(t[0] == s[i] && t[1] == s[i + 1] && t[2] == s[i + 2] && t[3] == s[i + 3]);
}

/// Reading back what `be64` wrote gives the value written.
pub proof fn lemma_be64_read(x: u64, s: Seq<u8>, i: int)
    requires
        0 <= i,
        i + 8 <= s.len(),
        s.subrange(i, i + 8) == be64(x),
    ensures
        u64_at(s, i) == x,
{
    let hi = (x / 0x1_0000_0000) as u32;
    let lo = (x % 0x1_0000_0000) as u32;
    let t = s.subrange(i, i + 8);
    assert(s.subrange(i, i + 4) =~= be32(hi)) by {
        assert forall|k: int| 0 <= k < 4 implies s.subrange(i, i + 4)[k] == be32(hi)[k] by {
            assert(t[k] == s[i + k]);
        }
    }
    assert(s.subrange(i + 4, i + 8) =~= be32(lo)) by {
        assert forall|k: int| 0 <= k < 4 implies s.subrange(i + 4, i + 8)[k] == be32(lo)[k] by {
            assert(t[k + 4] == s[i + 4 + k]);
        }
    }
    lemma_be32_read(hi, s, i);
    lemma_be32_read(lo, s, i + 4);
}

/// Writing a value that was read gives back the bytes it was read from.
pub proof fn lemma_be16_write(s: Seq<u8>, i: int)
    requires
        0 <= i,
        i + 2 <= s.len(),
    ensures
        be16(u16_at(s, i)) == s.subrange(i, i + 2),
{
    assert(be16(u16_at(s, i)) =~= s.subrange(i, i + 2));
}

/// Writing a value that was read gives back the bytes it was read from.
pub proof fn lemma_be32_write(s: Seq<u8>, i: int)
    requires
        0 <= i,
        i + 4 <= s.len(),
    ensures
        be32(u32_at(s, i)) == s.subrange(i, i + 4),
{
    let a = s[i] as int;
    let b = s[i + 1] as int;
    let c = s[i + 2] as int;
    let d = s[i + 3] as int;
    let x = a * 0x100_0000 + b * 0x1_0000 + c * 0x100 + d;
    assert(u32_at(s, i) == x);
    assert(x / 0x100_0000 == a);
    assert(x / 0x1_0000 % 0x100 == b);
    assert(x / 0x100 % 0x100 == c);
    assert(x % 0x100 == d);
    assert(be32(u32_at(s, i)) =~= s.subrange(i, i + 4));
}

/// Writing a value that was read gives back the bytes it was read from.
pub proof fn lemma_be64_write(s: Seq<u8>, i: int)
    requires
        0 <= i,
        i + 8 <= s.len(),
    ensures
        be64(u64_at(s, i)) == s.subrange(i, i + 8),
{
    let x = u64_at(s, i);
    lemma_be32_write(s, i);
    lemma_be32_write(s, i + 4);
    assert((x / 0x1_0000_0000) as u32 == u32_at(s, i));
    assert((x % 0x1_0000_0000) as u32 == u32_at(s, i + 4));
    assert(s.subrange(i, i + 4) + s.subrange(i + 4, i + 8) =~= s.subrange(i, i + 8));
}

/// The two conversions between a signed value and its bit pattern undo each other.
pub proof fn lemma_i32_bits(x: i32, b: u32)
    ensures
        i32_of_bits(bits_of_i32(x)) == x,
        bits_of_i32(i32_of_bits(b)) == b,
{
}

/// Appends one byte.
pub fn put_u8(buf: &mut Vec<u8>, x: u8)
    ensures
        final(buf)@ == old(buf)@.push(x),
{
    buf.push(x);
}

/// Appends the two bytes of `x`, most significant first.
pub fn put_u16(buf: &mut Vec<u8>, x: u16)
    ensures
        final(buf)@ == old(buf)@ + be16(x),
{
    buf.push((x / 0x100) as u8);
    buf.push((x % 0x100) as u8);
    assert(buf@ =~= old(buf)@ + be16(x));
}

/// Appends the four bytes of `x`, most significant first.
pub fn put_u32(buf: &mut Vec<u8>, x: u32)
    ensures
        final(buf)@ == old(buf)@ + be32(x),
{
    buf.push((x / 0x100_0000) as u8);
    buf.push((x / 0x1_0000 % 0x100) as u8);
    buf.push((x / 0x100 % 0x100) as u8);
    buf.push((x % 0x100) as u8);
    assert(buf@ =~= old(buf)@ + be32(x));
}

/// Appends the eight bytes of `x`, most significant first.
pub fn put_u64(buf: &mut Vec<u8>, x: u64)
    ensures
        final(buf)@ == old(buf)@ + be64(x),
{
    let ghost start = buf@;
    put_u32(buf, (x / 0x1_0000_0000) as u32);
    put_u32(buf, (x % 0x1_0000_0000) as u32);
    assert(buf@ =~= start + be64(x));
}

/// The bit pattern of a signed 32-bit value.
pub fn i32_to_bits(x: i32) -> (b: u32)
    ensures
        b == bits_of_i32(x),
{
    if x >= 0 {
        x as u32
    } else {
        let y: i64 = x as i64 + 0x1_0000_0000i64;
        y as u32
    }
}

/// The signed 32-bit value of a bit pattern.
pub fn i32_from_bits(b: u32) -> (x: i32)
    ensures
        x == i32_of_bits(b),
{
    if b < 0x8000_0000 {
        b as i32
    } else {
        let y: i64 = b as i64 - 0x1_0000_0000i64;
        y as i32
    }
}

/// Reads the 16-bit value at `pos`.
pub fn get_u16(input: &[u8], pos: usize) -> (x: u16)
    requires
        pos + 2 <= input@.len(),
    ensures
        x == u16_at(input@, pos as int),
{
    let hi: u16 = input[pos] as u16;
    let lo: u16 = input[pos + 1] as u16;
    hi * 0x100 + lo
}

/// Reads the 32-bit value at `pos`.
pub fn get_u32(input: &[u8], pos: usize) -> (x: u32)
    requires
        pos + 4 <= input@.len(),
    ensures
        x == u32_at(input@, pos as int),
{
    let a: u32 = input[pos] as u32;
    let b: u32 = input[pos + 1] as u32;
    let c: u32 = input[pos + 2] as u32;
    let d: u32 = input[pos + 3] as u32;
    a * 0x100_0000 + b * 0x1_0000 + c * 0x100 + d
}

/// Reads the 64-bit value at `pos`.
pub fn get_u64(input: &[u8], pos: usize) -> (x: u64)
    requires
        pos + 8 <= input@.len(),
    ensures
        x == u64_at(input@, pos as int),
{
    assert(input.len() == input@.len());
    let hi: u64 = get_u32(input, pos) as u64;
    let lo: u64 = get_u32(input, pos + 4) as u64;
    hi * 0x1_0000_0000 + lo
}

} // verus!
