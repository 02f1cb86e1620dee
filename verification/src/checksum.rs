//! The two checksums of the protocol: Fletcher's, which guards one
//! advertisement, and the one's-complement sum, which guards one packet.

use vstd::prelude::*;
use vstd::arithmetic::div_mod::{lemma_mul_mod_noop_left, lemma_mod_multiples_vanish};

verus! {

/// Fletcher's two running sums over `d`, each reduced modulo 255.
pub open spec fn fletcher_sums(d: Seq<u8>) -> (int, int)
    decreases d.len(),
{
    if d.len() == 0 {
        (0, 0)
    } else {
        let p = fletcher_sums(d.drop_last());
        let c0 = (p.0 + d.last()) % 255;
        (c0, (p.1 + c0) % 255)
    }
}

/// `d` with the two bytes at `offset` and `offset + 1` set to zero.
pub open spec fn blanked(d: Seq<u8>, offset: int) -> Seq<u8> {
    d.update(offset, 0u8).update(offset + 1, 0u8)
}

/// The value in `1 ..= 255` that is congruent to `v` modulo 255.
pub open spec fn check_byte(v: int) -> int {
    if v % 255 == 0 {
        255
    } else {
        v % 255
    }
}

/// The two check bytes for `d`, to stand at `offset` and `offset + 1`. Each
/// lies in `1 ..= 255`. What stands at the two positions does not matter.
pub open spec fn fletcher_check_bytes(d: Seq<u8>, offset: int) -> (int, int) {
    let c = fletcher_sums(blanked(d, offset));
    let mul = (d.len() - offset) * c.0;
    (check_byte(mul - c.0 - c.1), check_byte(c.1 - mul))
}

/// The check bytes for `d` as one 16-bit value, the first in the high byte.
pub open spec fn fletcher16(d: Seq<u8>, offset: int) -> u16 {
    let xy = fletcher_check_bytes(d, offset);
    (xy.0 * 256 + xy.1) as u16
}

/// `d` with the two bytes of `sum` written at `offset`, high byte first.
pub open spec fn with_check_bytes(d: Seq<u8>, offset: int, sum: u16) -> Seq<u8> {
    d.update(offset, (sum / 256) as u8).update(offset + 1, (sum % 256) as u8)
}

/// Both of Fletcher's sums over `d` are zero: `d` carries a correct checksum.
pub open spec fn fletcher_valid(d: Seq<u8>) -> bool {
    fletcher_sums(d) == (0int, 0int)
}

/// The sum of the bytes of `d`.
pub open spec fn byte_sum(d: Seq<u8>) -> int
    decreases d.len(),
{
    if d.len() == 0 {
        0
    } else {
        byte_sum(d.drop_last()) + d.last()
    }
}

/// The sum of the byte sums of all non-empty prefixes of `d`.
pub open spec fn prefix_sum(d: Seq<u8>) -> int
    decreases d.len(),
{
    if d.len() == 0 {
        0
    } else {
        prefix_sum(d.drop_last()) + byte_sum(d)
    }
}

/// Fletcher's sums are the byte sum and the prefix sum, each reduced modulo
/// 255.
proof fn lemma_sums_reduced(d: Seq<u8>)
    ensures
        fletcher_sums(d) == (byte_sum(d) % 255, prefix_sum(d) % 255),
    decreases d.len(),
{
    if d.len() > 0 {
        lemma_sums_reduced(d.drop_last());
    }
}

/// What changing one byte does to the byte sum and to the prefix sum.
proof fn lemma_sums_update(d: Seq<u8>, k: int, v: u8)
    requires
        0 <= k < d.len(),
    ensures
        byte_sum(d.update(k, v)) == byte_sum(d) + v - d[k],
        prefix_sum(d.update(k, v)) == prefix_sum(d) + (d.len() - k) * (v - d[k]),
    decreases d.len(),
{
    let e = d.update(k, v);
    let delta = v - d[k];
    if k == d.len() - 1 {
        assert(e.drop_last() =~= d.drop_last());
        assert(byte_sum(e) == byte_sum(d) + delta);
        assert((d.len() - k) * delta == delta) by (nonlinear_arith)
            requires
                d.len() - k == 1,
        ;
    } else {
        assert(e.drop_last() =~= d.drop_last().update(k, v));
        assert(d.drop_last()[k] == d[k]);
        assert(e.last() == d.last());
        lemma_sums_update(d.drop_last(), k, v);
        assert(byte_sum(e) == byte_sum(d) + delta);
        assert((d.len() - 1 - k) * delta + delta == (d.len() - k) * delta) by (nonlinear_arith);
    }
}

/// A check byte differs from the value it stands for by a multiple of 255;
/// the multiple is handed back.
proof fn lemma_check_byte(v: int) -> (e: int)
    ensures
        check_byte(v) == v + 255 * e,
        1 <= check_byte(v) <= 255,
{
    if v % 255 == 0 {
        1 - v / 255
    } else {
        -(v / 255)
    }
}

/// With the check bytes that `fletcher16` gives written at `offset`, both of
/// Fletcher's sums over the data are zero.
#[verifier::rlimit(40)]
pub proof fn lemma_fletcher_checksum_valid(d: Seq<u8>, offset: int)
    requires
        0 <= offset,
        offset + 2 <= d.len(),
    ensures
        fletcher_valid(with_check_bytes(d, offset, fletcher16(d, offset))),
{
    let d0 = blanked(d, offset);
    let c = fletcher_sums(d0);
    let m = d.len() - offset;
    let mul = m * c.0;
    let xy = fletcher_check_bytes(d, offset);
    let ex = lemma_check_byte(mul - c.0 - c.1);
    let ey = lemma_check_byte(c.1 - mul);
    let sum = fletcher16(d, offset);
    assert(sum / 256 == xy.0 && sum % 256 == xy.1) by {
        assert(xy.0 * 256 + xy.1 <= 0xFFFF);
    }
    let x = xy.0 as u8;
    let y = xy.1 as u8;
    let d1 = d0.update(offset, x);
    let d2 = d1.update(offset + 1, y);
    assert(d2 =~= with_check_bytes(d, offset, sum));
    lemma_sums_reduced(d0);
    lemma_sums_reduced(d2);
    lemma_sums_update(d0, offset, x);
    lemma_sums_update(d1, offset + 1, y);
    let total0 = byte_sum(d0);
    let total1 = prefix_sum(d0);
    let a = total0 / 255;
    let b = total1 / 255;
    assert(total0 == 255 * a + c.0);
    assert(total1 == 255 * b + c.1);
    assert(byte_sum(d2) == total0 + x + y);
    assert(prefix_sum(d2) == total1 + m * x + (m - 1) * y) by {
        assert(d0[offset] == 0 && d1[offset + 1] == 0);
        assert(m * (x - 0) == m * x) by (nonlinear_arith);
        assert((d.len() - (offset + 1)) * (y - 0) == (m - 1) * y) by (nonlinear_arith)
            requires
                m == d.len() - offset,
        ;
    }
    assert(byte_sum(d2) == 255 * (a + ex + ey));
    assert(prefix_sum(d2) == 255 * (b + m * ex + (m - 1) * ey)) by (nonlinear_arith)
        requires
            prefix_sum(d2) == total1 + m * x + (m - 1) * y,
            total1 == 255 * b + c.1,
            x == mul - c.0 - c.1 + 255 * ex,
            y == c.1 - mul + 255 * ey,
            mul == m * c.0,
    ;
    lemma_mod_multiples_vanish(a + ex + ey, 0, 255);
    lemma_mod_multiples_vanish(b + m * ex + (m - 1) * ey, 0, 255);
}

/// The Fletcher check bytes for `data`, to stand at `offset` and
/// `offset + 1`, as one 16-bit value with the first byte high.
pub fn fletcher16_checksum(data: &[u8], offset: usize) -> (sum: u16)
    requires
        offset + 2 <= data@.len(),
    ensures
        sum == fletcher16(data@, offset as int),
{
    let len = data.len();
    let ghost d0 = blanked(data@, offset as int);
    let mut c0: u32 = 0;
    let mut c1: u32 = 0;
    let mut idx: usize = 0;
    assert(d0.take(0) =~= Seq::<u8>::empty());
    while idx < len
        invariant
            idx <= len,
            len == data@.len(),
            offset + 2 <= len,
            d0 == blanked(data@, offset as int),
            c0 < 255,
            c1 < 255,
            fletcher_sums(d0.take(idx as int)) == (c0 as int, c1 as int),
        decreases len - idx,
    {
        let b: u32 = if idx == offset || idx == offset + 1 {
            0
        } else {
            data[idx] as u32
        };
        proof {
            let next = d0.take(idx + 1);
            assert(next.drop_last() =~= d0.take(idx as int));
            assert(next.last() == b);
        }
        c0 = (c0 + b) % 255;
        c1 = (c1 + c0) % 255;
        idx += 1;
    }
    assert(d0.take(idx as int) =~= d0);
    let k: u32 = ((len - offset) % 255) as u32;
    assert(k * c0 <= 254 * 254) by (nonlinear_arith)
        requires
            k <= 254,
            c0 <= 254,
    ;
    let mul: u32 = (k * c0) % 255;
    let xr: u32 = (mul + 510 - c0 - c1) % 255;
    let yr: u32 = (c1 + 255 - mul) % 255;
    let x: u32 = if xr == 0 {
        255
    } else {
        xr
    };
    let y: u32 = if yr == 0 {
        255
    } else {
        yr
    };
    proof {
        let m = len - offset;
        lemma_mul_mod_noop_left(m as int, c0 as int, 255);
        assert(mul as int == (m * c0) % 255);
        let full = m * c0;
        let q = full / 255;
        assert(full == 255 * q + mul);
        assert((mul + 510 - c0 - c1) % 255 == (full - c0 - c1) % 255) by {
            lemma_mod_multiples_vanish(2 - q, full - c0 - c1, 255);
            assert(255 * (2 - q) + (full - c0 - c1) == mul + 510 - c0 - c1);
        }
        assert((c1 + 255 - mul) % 255 == (c1 - full) % 255) by {
            lemma_mod_multiples_vanish(1 + q, c1 - full, 255);
            assert(255 * (1 + q) + (c1 - full) == c1 + 255 - mul);
        }
        assert(x as int == check_byte(full - c0 - c1));
        assert(y as int == check_byte(c1 - full));
    }
    (x * 256 + y) as u16
}

/// Whether both of Fletcher's sums over `data` are zero.
pub fn fletcher16_verify(data: &[u8]) -> (ok: bool)
    ensures
        ok == fletcher_valid(data@),
{
    let len = data.len();
    let mut c0: u32 = 0;
    let mut c1: u32 = 0;
    let mut idx: usize = 0;
    assert(data@.take(0) =~= Seq::<u8>::empty());
    while idx < len
        invariant
            idx <= len,
            len == data@.len(),
            c0 < 255,
            c1 < 255,
            fletcher_sums(data@.take(idx as int)) == (c0 as int, c1 as int),
        decreases len - idx,
    {
        proof {
            let next = data@.take(idx + 1);
            assert(next.drop_last() =~= data@.take(idx as int));
        }
        c0 = (c0 + data[idx] as u32) % 255;
        c1 = (c1 + c0) % 255;
        idx += 1;
    }
    assert(data@.take(idx as int) =~= data@);
    c0 == 0 && c1 == 0
}

/// The 16-bit word number `i` of `d`, high byte first; a missing last byte
/// counts as zero.
pub open spec fn word_at(d: Seq<u8>, i: int) -> int {
    d[2 * i] * 256 + if 2 * i + 1 < d.len() {
        d[2 * i + 1] as int
    } else {
        0
    }
}

/// The number of 16-bit words that `d` fills, the last perhaps by half.
pub open spec fn word_count(d: Seq<u8>) -> nat {
    ((d.len() + 1) / 2) as nat
}

/// One step of end-around carry: the carry out of the low 16 bits is added
/// back in.
pub open spec fn fold16(t: int) -> int {
    t % 0x1_0000 + t / 0x1_0000
}

/// The one's-complement sum of the first `words` 16-bit words of `d`.
pub open spec fn ones_sum(d: Seq<u8>, words: nat) -> int
    decreases words,
{
    if words == 0 {
        0
    } else {
        fold16(ones_sum(d, (words - 1) as nat) + word_at(d, words - 1))
    }
}

/// The checksum of `d`: the complement of the one's-complement sum of its
/// 16-bit words.
pub open spec fn internet_checksum(d: Seq<u8>) -> u16 {
    (0xFFFF - ones_sum(d, word_count(d))) as u16
}

/// The plain sum of the first `words` 16-bit words of `d`.
pub open spec fn word_sum(d: Seq<u8>, words: nat) -> int
    decreases words,
{
    if words == 0 {
        0
    } else {
        word_sum(d, (words - 1) as nat) + word_at(d, words - 1)
    }
}

/// The value in `1 ..= 65535` congruent to `w` modulo 65535, or zero for zero.
pub open spec fn end_around(w: int) -> int {
    if w == 0 {
        0
    } else {
        (w - 1) % 0xFFFF + 1
    }
}

/// The one's-complement sum of words is their plain sum, carried around.
proof fn lemma_ones_sum_is_end_around(d: Seq<u8>, words: nat)
    requires
        words <= word_count(d),
    ensures
        ones_sum(d, words) == end_around(word_sum(d, words)),
        0 <= word_sum(d, words),
        0 <= ones_sum(d, words) <= 0xFFFF,
    decreases words,
{
    if words > 0 {
        lemma_ones_sum_is_end_around(d, (words - 1) as nat);
        let w = word_sum(d, (words - 1) as nat);
        let x = word_at(d, words - 1);
        assert(0 <= x <= 0xFFFF);
        let c = end_around(w);
        let t = c + x;
        if w > 0 {
            let q = (w - 1) / 0xFFFF;
            assert(w - 1 == 0xFFFF * q + (c - 1));
            if t > 0xFFFF {
                assert(w + x - 1 == 0xFFFF * (q + 1) + (t - 0xFFFF - 1));
                assert((w + x - 1) % 0xFFFF == t - 0xFFFF - 1) by {
                    lemma_mod_multiples_vanish(q + 1, t - 0xFFFF - 1, 0xFFFF);
                }
            } else {
                assert(w + x - 1 == 0xFFFF * q + (t - 1));
                assert((w + x - 1) % 0xFFFF == t - 1) by {
                    lemma_mod_multiples_vanish(q, t - 1, 0xFFFF);
                }
            }
        }
    }
}

/// What changing one 16-bit word does to the plain sum of the words.
proof fn lemma_word_sum_update(d: Seq<u8>, e: Seq<u8>, k: int, words: nat)
    requires
        d.len() == e.len(),
        0 <= k,
        2 * k + 1 < d.len(),
        forall|i: int| 0 <= i < d.len() && i != 2 * k && i != 2 * k + 1 ==> d[i] == e[i],
        words <= word_count(d),
    ensures
        word_sum(e, words) == word_sum(d, words) + if k < words {
            word_at(e, k) - word_at(d, k)
        } else {
            0
        },
    decreases words,
{
    if words > 0 {
        lemma_word_sum_update(d, e, k, (words - 1) as nat);
        if words - 1 != k {
            assert(word_at(d, words - 1) == word_at(e, words - 1));
        }
    }
}

/// A buffer whose 16-bit word at `offset` is zero, and into which the checksum
/// of the whole buffer is then written at that word, has checksum zero.
pub proof fn lemma_checksum_filled(d: Seq<u8>, offset: int)
    requires
        0 <= offset,
        offset % 2 == 0,
        offset + 2 <= d.len(),
        d[offset] == 0,
        d[offset + 1] == 0,
    ensures
        internet_checksum(with_check_bytes(d, offset, internet_checksum(d))) == 0,
{
    let n = word_count(d);
    let k = offset / 2;
    let c = internet_checksum(d);
    let e = with_check_bytes(d, offset, c);
    lemma_ones_sum_is_end_around(d, n);
    lemma_ones_sum_is_end_around(e, n);
    lemma_word_sum_update(d, e, k, n);
    let w = word_sum(d, n);
    let s = ones_sum(d, n);
    assert(c == 0xFFFF - s);
    assert(word_at(d, k) == 0);
    assert(word_at(e, k) == c);
    assert(word_sum(e, n) == w + c);
    if w > 0 {
        let q = (w - 1) / 0xFFFF;
        assert(w - 1 == 0xFFFF * q + (s - 1));
        assert(w + c - 1 == 0xFFFF * q + 0xFFFE);
        assert((w + c - 1) % 0xFFFF == 0xFFFE) by {
            lemma_mod_multiples_vanish(q, 0xFFFE, 0xFFFF);
        }
    }
}

/// The checksum of `data`: the complement of the one's-complement sum of its
/// big-endian 16-bit words, an odd last byte padded with a zero byte.
pub fn packet_checksum(data: &[u8]) -> (sum: u16)
    ensures
        sum == internet_checksum(data@),
{
    let len = data.len();
    let pairs = len / 2;
    let mut acc: u32 = 0;
    let mut i: usize = 0;
    while i < pairs
        invariant
            i <= pairs,
            pairs == len / 2,
            len == data@.len(),
            acc <= 0xFFFF,
            acc as int == ones_sum(data@, i as nat),
        decreases pairs - i,
    {
        let w: u32 = data[i * 2] as u32 * 256 + data[i * 2 + 1] as u32;
        assert(w as int == word_at(data@, i as int));
        let t: u32 = acc + w;
        acc = t % 0x1_0000 + t / 0x1_0000;
        i += 1;
    }
    if len % 2 != 0 {
        let w: u32 = data[len - 1] as u32 * 256;
        assert(w as int == word_at(data@, pairs as int));
        let t: u32 = acc + w;
        acc = t % 0x1_0000 + t / 0x1_0000;
        assert(acc as int == ones_sum(data@, (pairs + 1) as nat));
    }
    (0xFFFF - acc) as u16
}

} // verus!
