//! MSB-first bit-granular primitives over `[u8]`.
//!
//! Bits are addressed big-endian within each byte: bit `i` lives at byte
//! `i / 8`, position `7 - (i % 8)`. A byte slice is modelled as the sequence of
//! its bits, [`bits_of`], and every contract below speaks of that sequence.
use vstd::prelude::*;

verus! {

/// Bit `k` of a byte, counted from the most significant one.
pub open spec fn byte_bit(b: u8, k: int) -> bool {
    (b >> ((7 - k) as u8)) & 1 == 1
}

/// The bits of a byte string, in reading order.
pub open spec fn bits_of(bytes: Seq<u8>) -> Seq<bool> {
    Seq::new(8 * bytes.len(), |i: int| byte_bit(bytes[i / 8], i % 8))
}

/// `dst` with `src` written over it from position `at` on.
pub open spec fn splice(dst: Seq<bool>, at: int, src: Seq<bool>) -> Seq<bool> {
    Seq::new(dst.len(), |i: int| if at <= i < at + src.len() { src[i - at] } else { dst[i] })
}

/// Read bit `i` (MSB-first).
pub fn get_bit(bytes: &[u8], i: u64) -> (bit: u8)
    requires
        i / 8 < bytes.len(),
    ensures
        bit == (if bits_of(bytes@)[i as int] { 1u8 } else { 0u8 }),
{
    let b: u8 = bytes[(i / 8) as usize];
    let k: u64 = i % 8;
    proof {
        let s: u8 = (7 - k) as u8;
        assert((b >> s) & 1 == 0 || (b >> s) & 1 == 1) by (bit_vector);
        assert(b >> (7 - k) == b >> s);
    }
    (b >> (7 - k)) & 1
}

proof fn lemma_set_byte_bit(b: u8, s: u8, bit: u8, j: u8)
    by (bit_vector)
    requires
        s < 8,
        j < 8,
    ensures
        ((((b & !(1u8 << s)) | ((bit & 1) << s)) >> j) & 1) == if j == s { bit & 1 } else { (b >> j) & 1 },
{
}

/// Write bit `i` (MSB-first) to `bit & 1`. A true overwrite: the target bit is
/// replaced, whatever it held, and no other bit changes.
pub fn set_bit(bytes: &mut [u8], i: u64, bit: u8)
    requires
        i / 8 < old(bytes).len(),
    ensures
        bits_of(final(bytes)@) == bits_of(old(bytes)@).update(i as int, bit & 1 == 1),
{
    let idx: usize = (i / 8) as usize;
    let shift: u8 = 7 - (i % 8) as u8;
    let b: u8 = bytes[idx];
    let new: u8 = (b & !(1u8 << shift)) | ((bit & 1) << shift);
    bytes[idx] = new;
    proof {
        assert(bytes@ == old(bytes)@.update(idx as int, new));
        assert forall|j: int| 0 <= j < 8 * bytes@.len() implies bits_of(bytes@)[j] == bits_of(
            old(bytes)@,
        ).update(i as int, bit & 1 == 1)[j] by {
            if j / 8 == idx {
                lemma_set_byte_bit(b, shift, bit, (7 - j % 8) as u8);
            }
        }
        assert(bits_of(bytes@) =~= bits_of(old(bytes)@).update(i as int, bit & 1 == 1));
    }
}

proof fn lemma_two_byte_window(hi: u8, lo: u8, s: u8, k: u8)
    by (bit_vector)
    requires
        0 < s < 8,
        k < 8,
    ensures
        (((hi << s) | (lo >> ((8 - s) as u8))) >> ((7 - k) as u8)) & 1 == if k + s < 8 {
            (hi >> ((7 - (k + s)) as u8)) & 1
        } else {
            (lo >> ((7 - (k + s - 8)) as u8)) & 1
        },
{
}

/// Read the 8 bits starting at bit `at` as one byte, MSB-first. Bits past the
/// end of `bytes` read as zero, so a window that straddles the end of the
/// buffer, or lies behind it, is well-defined.
pub fn read_byte(bytes: &[u8], at: u64) -> (byte: u8)
    ensures
        forall|k: int|
            0 <= k < 8 ==> #[trigger] byte_bit(byte, k) == (at + k < bits_of(bytes@).len()
                && bits_of(bytes@)[at + k]),
{
    let shift: u8 = (at % 8) as u8;
    let len: u64 = bytes.len() as u64;
    let at_byte: u64 = at / 8;
    let hi: u8 = if at_byte < len {
        bytes[at_byte as usize]
    } else {
        0
    };
    proof {
        assert forall|k: int| 0 <= k < 8 implies !byte_bit(0u8, k) by {
            let s: u8 = (7 - k) as u8;
            assert((0u8 >> s) & 1 == 0) by (bit_vector)
                requires
                    s < 8,
            ;
        }
    }
    if shift == 0 {
        hi
    } else {
        let lo: u8 = if at_byte < len && at_byte + 1 < len {
            bytes[(at_byte + 1) as usize]
        } else {
            0
        };
        let byte: u8 = (hi << shift) | (lo >> (8 - shift));
        proof {
            assert forall|k: int| 0 <= k < 8 implies #[trigger] byte_bit(byte, k) == (at + k
                < bits_of(bytes@).len() && bits_of(bytes@)[at + k]) by {
                lemma_two_byte_window(hi, lo, shift, k as u8);
                if k + shift < 8 {
                    assert(byte_bit(byte, k) == byte_bit(hi, k + shift));
                } else {
                    assert(byte_bit(byte, k) == byte_bit(lo, k + shift - 8));
                }
            }
        }
        byte
    }
}

/// MSB-first mask selecting the logical bits of a partial trailing byte, or
/// `None` when `bit_len` is a whole number of bytes.
pub fn tail_mask(bit_len: u64) -> (mask: Option<u8>)
    ensures
        mask is None <==> bit_len % 8 == 0,
        mask matches Some(m) ==> forall|k: int|
            0 <= k < 8 ==> (#[trigger] byte_bit(m, k) <==> k < bit_len % 8),
{
    let rem: u8 = (bit_len % 8) as u8;
    if rem == 0 {
        None
    } else {
        let m: u8 = 0xFFu8 << (8 - rem);
        proof {
            assert forall|k: int| 0 <= k < 8 implies (#[trigger] byte_bit(m, k) <==> k < bit_len
                % 8) by {
                let kk: u8 = k as u8;
                assert((((0xFFu8 << ((8 - rem) as u8)) >> ((7 - kk) as u8)) & 1 == 1) == (kk < rem))
                    by (bit_vector)
                    requires
                        0 < rem < 8,
                        kk < 8,
                ;
            }
        }
        Some(m)
    }
}

/// Copy `n` logical bits of `src` starting at bit `src_at` into `dst` starting
/// at bit `dst_at` (MSB-first). Whole bytes are moved as bytes where both sides
/// are byte-aligned; ragged edges go bit by bit. Writes overwrite, so `dst` need
/// not be pre-zeroed, and nothing outside the target window changes.
pub fn copy_bits(dst: &mut [u8], dst_at: u64, src: &[u8], src_at: u64, n: u64)
    requires
        dst_at + n <= 8 * old(dst).len(),
        src_at + n <= 8 * src.len(),
        dst_at + n <= u64::MAX,
        src_at + n <= u64::MAX,
    ensures
        bits_of(final(dst)@) == splice(
            bits_of(old(dst)@),
            dst_at as int,
            bits_of(src@).subrange(src_at as int, src_at + n),
        ),
{
    let ghost before = bits_of(dst@);
    let ghost window = bits_of(src@).subrange(src_at as int, src_at + n);
    let ghost dlen = dst@.len();
    let mut done: u64 = 0;
    if dst_at % 8 == 0 && src_at % 8 == 0 {
        let full: u64 = n / 8;
        let d: u64 = dst_at / 8;
        let s: u64 = src_at / 8;
        let mut j: u64 = 0;
        while j < full
            invariant
                j <= full,
                full == n / 8,
                d == dst_at / 8,
                s == src_at / 8,
                dst_at % 8 == 0,
                src_at % 8 == 0,
                dst_at + n <= 8 * dlen,
                dst@.len() == dlen,
                src_at + n <= 8 * src.len(),
                dst_at + n <= u64::MAX,
                src_at + n <= u64::MAX,
                before.len() == 8 * dlen,
                window == bits_of(src@).subrange(src_at as int, src_at + n),
                bits_of(dst@) == splice(before, dst_at as int, window.take(8 * j)),
            decreases full - j,
        {
            let ghost prev = dst@;
            let b: u8 = src[(s + j) as usize];
            dst[(d + j) as usize] = b;
            proof {
                assert(dst@ == prev.update((d + j) as int, b));
                assert forall|i: int| 0 <= i < 8 * dlen implies bits_of(dst@)[i] == splice(
                    before,
                    dst_at as int,
                    window.take(8 * (j + 1)),
                )[i] by {
                    assert(bits_of(prev)[i] == splice(before, dst_at as int, window.take(8 * j))[i]);
                    if i / 8 == d + j {
                        assert(bits_of(dst@)[i] == byte_bit(b, i % 8));
                        let w = i - dst_at;
                        assert((src_at + w) / 8 == s + j);
                        assert((src_at + w) % 8 == i % 8);
                        assert(window[w] == bits_of(src@)[src_at + w]);
                    } else {
                        assert(bits_of(dst@)[i] == bits_of(prev)[i]);
                    }
                }
                assert(bits_of(dst@) =~= splice(before, dst_at as int, window.take(8 * (j + 1))));
            }
            j = j + 1;
        }
        done = full * 8;
    } else {
        proof {
            assert(bits_of(dst@) =~= splice(before, dst_at as int, window.take(0)));
        }
    }
    let mut i: u64 = done;
    while i < n
        invariant
            i <= n,
            dst_at + n <= 8 * dlen,
            dst@.len() == dlen,
            src_at + n <= 8 * src.len(),
            dst_at + n <= u64::MAX,
            src_at + n <= u64::MAX,
            before.len() == 8 * dlen,
            window == bits_of(src@).subrange(src_at as int, src_at + n),
            bits_of(dst@) == splice(before, dst_at as int, window.take(i as int)),
        decreases n - i,
    {
        let ghost prev = bits_of(dst@);
        let bit: u8 = get_bit(src, src_at + i);
        set_bit(dst, dst_at + i, bit);
        proof {
            assert(1u8 & 1 == 1 && 0u8 & 1 == 0) by (bit_vector);
            assert(bits_of(dst@).len() == prev.len());
            assert(bits_of(dst@) =~= splice(before, dst_at as int, window.take(i + 1)));
        }
        i = i + 1;
    }
    proof {
        assert(window.take(n as int) =~= window);
    }
}

/// Reading a bit back after writing it gives the written bit, and every other
/// bit reads as before.
pub proof fn law_set_then_get(bits: Seq<bool>, i: int, bit: bool, j: int)
    requires
        0 <= i < bits.len(),
        0 <= j < bits.len(),
    ensures
        bits.update(i, bit)[j] == (if j == i { bit } else { bits[j] }),
{
}

/// Bits copied out of a string and then copied back to where they came from
/// leave it as it was.
pub proof fn law_copy_back(src: Seq<bool>, at: int, n: int)
    requires
        0 <= at,
        0 <= n,
        at + n <= src.len(),
    ensures
        splice(src, at, src.subrange(at, at + n)) == src,
{
    assert(splice(src, at, src.subrange(at, at + n)) =~= src);
}

/// Two bit strings copied one behind the other into one buffer are both read
/// back by extracting their windows, whatever the buffer held before.
pub proof fn law_concat_then_extract(buf: Seq<bool>, a: Seq<bool>, b: Seq<bool>)
    requires
        a.len() + b.len() <= buf.len(),
    ensures
        ({
            let joined = splice(splice(buf, 0, a), a.len() as int, b);
            &&& joined.subrange(0, a.len() as int) == a
            &&& joined.subrange(a.len() as int, (a.len() + b.len()) as int) == b
            &&& joined.subrange((a.len() + b.len()) as int, joined.len() as int) == buf.subrange(
                (a.len() + b.len()) as int,
                buf.len() as int,
            )
        }),
{
    let joined = splice(splice(buf, 0, a), a.len() as int, b);
    assert(joined.subrange(0, a.len() as int) =~= a);
    assert(joined.subrange(a.len() as int, (a.len() + b.len()) as int) =~= b);
    assert(joined.subrange((a.len() + b.len()) as int, joined.len() as int) =~= buf.subrange(
        (a.len() + b.len()) as int,
        buf.len() as int,
    ));
}

} // verus!
