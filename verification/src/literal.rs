//! Literals known at compile time: numbers, and the bit strings of binary
//! literals and binary patterns.
use crate::ast::{BinKind, BinSegment, BinSegmentPat, BinUnit, Expr, Pattern, StrId};
use crate::bits::{bits_of, byte_bit, set_bit};
use crate::diag::Message;
use crate::names::{text_of, Interner};
use crate::numbers::{contains_point, has_point, i64_of, is_float, is_float_text, parse_i64};
use crate::op::{Const, ConstView};
use vstd::prelude::*;
use vstd::string::*;
use vstd::utf8::encode_utf8;

verus! {

/// Why a numeric literal has no value.
#[derive(Debug, Clone, Copy, PartialEq, Eq, Structural)]
pub enum NumLitError {
    IntOutOfRange,
    InvalidFloat,
}

/// What is said of a literal without a value.
pub open spec fn literal_fault(e: NumLitError, text: StrId) -> Message {
    match e {
        NumLitError::IntOutOfRange => Message::IntOutOfRange { text },
        NumLitError::InvalidFloat => Message::InvalidNumber { text },
    }
}

/// What stands in for a literal without a value: a zero of the same kind.
pub open spec fn recovery_of(e: NumLitError) -> ConstView {
    match e {
        NumLitError::IntOutOfRange => ConstView::Int(0),
        NumLitError::InvalidFloat => ConstView::ZeroFloat,
    }
}

impl NumLitError {
    /// What is said of the literal.
    pub fn message(self, text: StrId) -> (res: Message)
        ensures
            res == literal_fault(self, text),
    {
        match self {
            NumLitError::IntOutOfRange => Message::IntOutOfRange { text },
            NumLitError::InvalidFloat => Message::InvalidNumber { text },
        }
    }

    /// What stands in for the literal so that compilation can go on.
    pub fn recovery(self) -> (res: Const)
        ensures
            res@ == recovery_of(self),
    {
        match self {
            NumLitError::IntOutOfRange => Const::Int(0),
            NumLitError::InvalidFloat => Const::ZeroFloat,
        }
    }
}

/// The value of a numeric literal: with a decimal point a float, otherwise an
/// integer.
pub open spec fn number_of(names: Seq<Seq<char>>, text: StrId) -> Result<ConstView, NumLitError> {
    let s = text_of(names, text);
    if has_point(s) {
        if is_float(s) {
            Ok(ConstView::Float(text))
        } else {
            Err(NumLitError::InvalidFloat)
        }
    } else {
        match i64_of(s) {
            Some(i) => Ok(ConstView::Int(i)),
            None => Err(NumLitError::IntOutOfRange),
        }
    }
}

/// The value of a numeric literal.
pub fn number_literal_value(names: &Interner, text: StrId) -> (res: Result<Const, NumLitError>)
    ensures
        match res {
            Ok(c) => number_of(names@, text) == Ok::<ConstView, NumLitError>(c@),
            Err(e) => number_of(names@, text) == Err::<ConstView, NumLitError>(e),
        },
{
    let s: &str = names.text(text);
    if contains_point(s) {
        if is_float_text(s) {
            Ok(Const::Float(text))
        } else {
            Err(NumLitError::InvalidFloat)
        }
    } else {
        match parse_i64(s) {
            Some(i) => Ok(Const::Int(i)),
            None => Err(NumLitError::IntOutOfRange),
        }
    }
}

// ---- bit strings -----------------------------------------------------------

/// Bit `i` of a bit string, zero past its end.
pub open spec fn bit_or_zero(bits: Seq<bool>, i: int) -> int {
    if 0 <= i < bits.len() && bits[i] {
        1
    } else {
        0
    }
}

/// The byte that the eight bits from `8 * i` on make up.
pub open spec fn packed_byte(bits: Seq<bool>, i: int) -> u8 {
    (128 * bit_or_zero(bits, 8 * i) + 64 * bit_or_zero(bits, 8 * i + 1) + 32 * bit_or_zero(
        bits,
        8 * i + 2,
    ) + 16 * bit_or_zero(bits, 8 * i + 3) + 8 * bit_or_zero(bits, 8 * i + 4) + 4 * bit_or_zero(
        bits,
        8 * i + 5,
    ) + 2 * bit_or_zero(bits, 8 * i + 6) + bit_or_zero(bits, 8 * i + 7)) as u8
}

/// A bit string as bytes, the last one filled up with zeroes.
pub open spec fn packed(bits: Seq<bool>) -> Seq<u8> {
    Seq::new(((bits.len() + 7) / 8) as nat, |i: int| packed_byte(bits, i))
}

/// Whether `bytes` hold exactly the bit string `bits`.
pub open spec fn holds_bits(bytes: Seq<u8>, bits: Seq<bool>) -> bool {
    &&& bytes.len() == (bits.len() + 7) / 8
    &&& forall|i: int|
        0 <= i < 8 * bytes.len() ==> (#[trigger] bits_of(bytes)[i] == (i < bits.len() && bits[i]))
}

/// The first `n` bits of a byte string.
pub open spec fn held(bytes: Seq<u8>, n: u64) -> Seq<bool> {
    bits_of(bytes).take(n as int)
}

/// Whether `bytes` are as many as `n` bits take up, with zeroes behind them.
pub open spec fn well_packed(bytes: Seq<u8>, n: u64) -> bool {
    n <= 8 * bytes.len() && holds_bits(bytes, held(bytes, n))
}

proof fn lemma_holds_is_held(bytes: Seq<u8>, bits: Seq<bool>)
    requires
        holds_bits(bytes, bits),
        bits.len() <= u64::MAX,
    ensures
        well_packed(bytes, bits.len() as u64),
        held(bytes, bits.len() as u64) == bits,
{
    assert forall|i: int| 0 <= i < bits.len() implies held(bytes, bits.len() as u64)[i] == bits[i] by {
        assert(bits_of(bytes)[i] == (i < bits.len() && bits[i]));
    }
    assert(held(bytes, bits.len() as u64) =~= bits);
}

proof fn lemma_byte_from_bits(b: u8)
    by (bit_vector)
    ensures
        b == 128 * ((b >> 7u8) & 1) + 64 * ((b >> 6u8) & 1) + 32 * ((b >> 5u8) & 1) + 16 * ((b
            >> 4u8) & 1) + 8 * ((b >> 3u8) & 1) + 4 * ((b >> 2u8) & 1) + 2 * ((b >> 1u8) & 1) + ((b
            >> 0u8) & 1),
        (b >> 7u8) & 1 <= 1,
        (b >> 6u8) & 1 <= 1,
        (b >> 5u8) & 1 <= 1,
        (b >> 4u8) & 1 <= 1,
        (b >> 3u8) & 1 <= 1,
        (b >> 2u8) & 1 <= 1,
        (b >> 1u8) & 1 <= 1,
        (b >> 0u8) & 1 <= 1,
{
}

/// Bytes that hold a bit string are its packed form.
pub proof fn law_bits_determine_bytes(bytes: Seq<u8>, bits: Seq<bool>)
    requires
        holds_bits(bytes, bits),
    ensures
        bytes == packed(bits),
{
    assert forall|i: int| 0 <= i < bytes.len() implies bytes[i] == packed_byte(bits, i) by {
        let b = bytes[i];
        lemma_byte_from_bits(b);
        let all = bits_of(bytes);
        assert(all[8 * i] == byte_bit(b, 0));
        assert(all[8 * i + 1] == byte_bit(b, 1));
        assert(all[8 * i + 2] == byte_bit(b, 2));
        assert(all[8 * i + 3] == byte_bit(b, 3));
        assert(all[8 * i + 4] == byte_bit(b, 4));
        assert(all[8 * i + 5] == byte_bit(b, 5));
        assert(all[8 * i + 6] == byte_bit(b, 6));
        assert(all[8 * i + 7] == byte_bit(b, 7));
    }
    assert(bytes =~= packed(bits));
}

/// The low `n` bits of a value, most significant first. Positions past the value
/// are zero.
pub open spec fn int_bits(value: i64, n: nat) -> Seq<bool> {
    Seq::new(n, |i: int| n - 1 - i < 64 && ((value as u64) >> ((n - 1 - i) as u64)) & 1 == 1)
}

/// Append one bit.
pub fn push_literal_bit(bytes: &mut Vec<u8>, bit_len: &mut u64, bit: u8)
    requires
        well_packed(old(bytes)@, *old(bit_len)),
        *old(bit_len) < u64::MAX,
    ensures
        *final(bit_len) == *old(bit_len) + 1,
        well_packed(final(bytes)@, *final(bit_len)),
        held(final(bytes)@, *final(bit_len)) == held(old(bytes)@, *old(bit_len)).push(
            bit & 1 == 1,
        ),
{
    let ghost bits = held(bytes@, *bit_len);
    let at: u64 = *bit_len;
    let idx: u64 = at / 8;
    if idx >= bytes.len() as u64 {
        bytes.push(0);
        proof {
            assert(bytes@ == old(bytes)@.push(0));
            assert forall|i: int| 0 <= i < 8 * bytes@.len() implies (#[trigger] bits_of(bytes@)[i]
                == (i < bits.len() && bits[i])) by {
                if i / 8 < old(bytes)@.len() {
                    assert(bits_of(old(bytes)@)[i] == (i < bits.len() && bits[i]));
                } else {
                    let s: u8 = (7 - i % 8) as u8;
                    assert((0u8 >> s) & 1 == 0) by (bit_vector)
                        requires
                            s < 8,
                    ;
                }
            }
        }
    }
    let ghost before = bytes@;
    set_bit(bytes.as_mut_slice(), at, bit);
    proof {
        let now = bits.push(bit & 1 == 1);
        assert(bits_of(bytes@) == bits_of(before).update(at as int, bit & 1 == 1));
        assert(bits_of(bytes@).len() == bits_of(before).len());
        assert(bytes@.len() == before.len());
        assert forall|i: int| 0 <= i < 8 * bytes@.len() implies (#[trigger] bits_of(bytes@)[i] == (i
            < now.len() && now[i])) by {
            assert(bits_of(before)[i] == (i < bits.len() && bits[i]));
        }
        lemma_holds_is_held(bytes@, now);
    }
    *bit_len = at + 1;
}

/// Append the low `n_bits` of a value, most significant first.
pub fn push_literal_bits(bytes: &mut Vec<u8>, bit_len: &mut u64, value: i64, n_bits: u64)
    requires
        well_packed(old(bytes)@, *old(bit_len)),
        *old(bit_len) + n_bits <= u64::MAX,
    ensures
        *final(bit_len) == *old(bit_len) + n_bits,
        well_packed(final(bytes)@, *final(bit_len)),
        held(final(bytes)@, *final(bit_len)) == held(old(bytes)@, *old(bit_len)) + int_bits(
            value,
            n_bits as nat,
        ),
{
    let ghost bits = held(bytes@, *bit_len);
    let v: u64 = value as u64;
    let ghost all = int_bits(value, n_bits as nat);
    let mut i: u64 = 0;
    assert(bits + all.take(0) =~= bits);
    while i < n_bits
        invariant
            i <= n_bits,
            v == value as u64,
            all == int_bits(value, n_bits as nat),
            bits.len() + n_bits <= u64::MAX,
            well_packed(bytes@, *bit_len),
            held(bytes@, *bit_len) == bits + all.take(i as int),
            *bit_len == bits.len() + i,
        decreases n_bits - i,
    {
        let pos: u64 = n_bits - 1 - i;
        let bit: u8 = if pos < 64 {
            ((v >> pos) & 1) as u8
        } else {
            0
        };
        proof {
            if pos < 64 {
                assert((v >> pos) & 1 == 0 || (v >> pos) & 1 == 1) by (bit_vector);
            }
            assert(0u8 & 1 == 0 && 1u8 & 1 == 1) by (bit_vector);
            assert((bit & 1 == 1) == all[i as int]);
            assert((bits + all.take(i as int)).push(bit & 1 == 1) =~= bits + all.take(i + 1));
        }
        push_literal_bit(bytes, bit_len, bit);
        i = i + 1;
    }
    assert(all.take(n_bits as int) =~= all);
}

proof fn lemma_byte_as_int(b: u8)
    ensures
        int_bits(b as i64, 8) == Seq::new(8, |k: int| byte_bit(b, k)),
{
    assert forall|k: int| 0 <= k < 8 implies int_bits(b as i64, 8)[k] == byte_bit(b, k) by {
        let s: u64 = (7 - k) as u64;
        assert((((b as i64) as u64) >> s) & 1 == ((b >> (s as u8)) & 1) as u64) by (bit_vector)
            requires
                s < 8,
        ;
    }
    assert(int_bits(b as i64, 8) =~= Seq::new(8, |k: int| byte_bit(b, k)));
}

/// Append whole bytes. A byte-aligned accumulator is extended as it is, any
/// other bit by bit.
pub fn push_literal_bytes(bytes: &mut Vec<u8>, bit_len: &mut u64, new: &[u8])
    requires
        well_packed(old(bytes)@, *old(bit_len)),
        *old(bit_len) + 8 * new@.len() <= u64::MAX,
    ensures
        *final(bit_len) == *old(bit_len) + 8 * new@.len(),
        well_packed(final(bytes)@, *final(bit_len)),
        held(final(bytes)@, *final(bit_len)) == held(old(bytes)@, *old(bit_len)) + bits_of(new@),
{
    let ghost bits = held(bytes@, *bit_len);
    let aligned: bool = *bit_len % 8 == 0;
    let mut i: usize = 0;
    assert(new@.take(0) =~= Seq::empty());
    assert(bits + bits_of(new@.take(0)) =~= bits);
    while i < new.len()
        invariant
            i <= new.len(),
            aligned == (bits.len() % 8 == 0),
            bits.len() + 8 * new@.len() <= u64::MAX,
            well_packed(bytes@, *bit_len),
            held(bytes@, *bit_len) == bits + bits_of(new@.take(i as int)),
            *bit_len == bits.len() + 8 * i,
        decreases new.len() - i,
    {
        let b: u8 = new[i];
        let ghost done = bits + bits_of(new@.take(i as int));
        let ghost more = bits + bits_of(new@.take(i + 1));
        proof {
            lemma_byte_as_int(b);
            assert forall|k: int| 0 <= k < more.len() implies more[k] == (done + int_bits(
                b as i64,
                8,
            ))[k] by {
                if k >= bits.len() {
                    let j = k - bits.len();
                    assert(new@.take(i + 1)[j / 8] == new@[j / 8]);
                    if j / 8 < i {
                        assert(new@.take(i as int)[j / 8] == new@[j / 8]);
                    }
                }
            }
            assert(more =~= done + int_bits(b as i64, 8));
        }
        if aligned {
            let ghost before = bytes@;
            bytes.push(b);
            *bit_len = *bit_len + 8;
            proof {
                assert(done.len() % 8 == 0);
                assert forall|k: int| 0 <= k < 8 * bytes@.len() implies (#[trigger] bits_of(
                    bytes@,
                )[k] == (k < more.len() && more[k])) by {
                    if k / 8 < before.len() {
                        assert(bits_of(before)[k] == (k < done.len() && done[k]));
                    } else {
                        assert(k - done.len() == k % 8);
                    }
                }
                lemma_holds_is_held(bytes@, more);
            }
        } else {
            push_literal_bits(bytes, bit_len, b as i64, 8);
        }
        i = i + 1;
    }
    assert(new@.take(new@.len() as int) =~= new@);
}

// ---- widths ----------------------------------------------------------------

/// The number of bits that a literal size stands for; negative sizes count as
/// zero.
pub open spec fn size_bits(size: i64, unit: BinUnit) -> i64 {
    let clamped = if size > 0 {
        size
    } else {
        0
    };
    if unit == BinUnit::Bytes {
        i64::wrapping_mul(clamped, 8)
    } else {
        clamped
    }
}

fn literal_size_bits(size: i64, unit: BinUnit) -> (res: i64)
    ensures
        res == size_bits(size, unit),
{
    let clamped: i64 = if size > 0 {
        size
    } else {
        0
    };
    if unit == BinUnit::Bytes {
        clamped.wrapping_mul(8)
    } else {
        clamped
    }
}

/// The bit width of an integer segment whose size is literal or left out.
pub open spec fn literal_width(names: Seq<Seq<char>>, size: Option<Expr>, unit: BinUnit) -> Option<
    i64,
> {
    match size {
        None => Some(8),
        Some(Expr::Number(n)) => match i64_of(text_of(names, n.text)) {
            Some(w) => Some(size_bits(w, unit)),
            None => None,
        },
        Some(_) => None,
    }
}

fn width_of_literal(names: &Interner, size: &Option<Expr>, unit: BinUnit) -> (res: Option<i64>)
    ensures
        res == literal_width(names@, *size, unit),
{
    match size {
        None => Some(8),
        Some(Expr::Number(n)) => match parse_i64(names.text(n.text)) {
            Some(w) => Some(literal_size_bits(w, unit)),
            None => None,
        },
        Some(_) => None,
    }
}

/// The bits a literal's segment contributes, when all of it is literal.
pub open spec fn segment_bits(names: Seq<Seq<char>>, seg: BinSegment) -> Option<Seq<bool>> {
    match seg.kind {
        BinKind::Utf8 => match seg.value {
            Expr::Str { value, .. } => Some(bits_of(encode_utf8(text_of(names, value)))),
            _ => None,
        },
        BinKind::Int => match seg.value {
            Expr::Number(n) => match i64_of(text_of(names, n.text)) {
                Some(v) => match literal_width(names, seg.size, seg.unit) {
                    Some(w) => Some(int_bits(v, (w as u64) as nat)),
                    None => None,
                },
                None => None,
            },
            _ => None,
        },
        BinKind::Binary => None,
    }
}

/// The bit string of the first `n` segments, when all of them are literal. Its
/// length is 64 bits wide.
pub open spec fn folded(names: Seq<Seq<char>>, segs: Seq<BinSegment>, n: nat) -> Option<Seq<bool>>
    decreases n,
{
    if n == 0 {
        Some(Seq::empty())
    } else {
        match (folded(names, segs, (n - 1) as nat), segment_bits(names, segs[n - 1])) {
            (Some(a), Some(b)) => if a.len() + b.len() <= u64::MAX {
                Some(a + b)
            } else {
                None
            },
            _ => None,
        }
    }
}

proof fn lemma_folded_none(names: Seq<Seq<char>>, segs: Seq<BinSegment>, i: nat, n: nat)
    requires
        i <= n,
        folded(names, segs, i) is None,
    ensures
        folded(names, segs, n) is None,
    decreases n,
{
    if i < n {
        lemma_folded_none(names, segs, i, (n - 1) as nat);
    }
}

/// The bytes of a binary literal that is literal throughout: strings contribute
/// their UTF-8 bytes, integers their value at their width. `None` when a segment
/// needs to be evaluated.
pub fn const_fold_binary_literal(names: &Interner, segs: &Vec<BinSegment>) -> (res: Option<
    (Vec<u8>, u64),
>)
    ensures
        match res {
            Some((bytes, bit_len)) => folded(names@, segs@, segs@.len()) matches Some(bits)
                && bytes@ == packed(bits) && bit_len == bits.len(),
            None => folded(names@, segs@, segs@.len()) is None,
        },
{
    let mut bytes: Vec<u8> = Vec::new();
    let mut bit_len: u64 = 0;
    let ghost mut bits: Seq<bool> = Seq::empty();
    assert(held(bytes@, 0) =~= bits);
    let mut i: usize = 0;
    while i < segs.len()
        invariant
            i <= segs.len(),
            folded(names@, segs@, i as nat) == Some(bits),
            well_packed(bytes@, bit_len),
            held(bytes@, bit_len) == bits,
            bit_len == bits.len(),
        decreases segs.len() - i,
    {
        let seg: &BinSegment = &segs[i];
        proof {
            if folded(names@, segs@, (i + 1) as nat) is None {
                lemma_folded_none(names@, segs@, (i + 1) as nat, segs@.len());
            }
        }
        match seg.kind {
            BinKind::Utf8 => match &seg.value {
                Expr::Str { value, .. } => {
                    let new: &[u8] = names.text(*value).as_bytes();
                    if new.len() as u64 > (u64::MAX - bit_len) / 8 {
                        return None;
                    }
                    push_literal_bytes(&mut bytes, &mut bit_len, new);
                    proof {
                        bits = bits + bits_of(new@);
                    }
                },
                _ => {
                    return None;
                },
            },
            BinKind::Int => {
                let v: i64 = match &seg.value {
                    Expr::Number(n) => match parse_i64(names.text(n.text)) {
                        Some(v) => v,
                        None => {
                            return None;
                        },
                    },
                    _ => {
                        return None;
                    },
                };
                let w: i64 = match width_of_literal(names, &seg.size, seg.unit) {
                    Some(w) => w,
                    None => {
                        return None;
                    },
                };
                if w as u64 > u64::MAX - bit_len {
                    return None;
                }
                push_literal_bits(&mut bytes, &mut bit_len, v, w as u64);
                proof {
                    bits = bits + int_bits(v, (w as u64) as nat);
                }
            },
            BinKind::Binary => {
                return None;
            },
        }
        i = i + 1;
    }
    proof {
        law_bits_determine_bytes(bytes@, bits);
    }
    Some((bytes, bit_len))
}

/// The string of a pattern segment that is a string literal.
pub open spec fn utf8_literal(seg: BinSegmentPat) -> Option<StrId> {
    if seg.kind == BinKind::Utf8 {
        match seg.value {
            Pattern::Str { value, .. } => Some(value),
            _ => None,
        }
    } else {
        None
    }
}

/// The string of a pattern segment that is a string literal.
pub fn utf8_literal_segment(seg: &BinSegmentPat) -> (res: Option<StrId>)
    ensures
        res == utf8_literal(*seg),
{
    if seg.kind != BinKind::Utf8 {
        return None;
    }
    match &seg.value {
        Pattern::Str { value, .. } => Some(*value),
        _ => None,
    }
}

/// The bit width of a pattern segment, when it is known before the program runs:
/// that of a string literal, of an integer of literal or default size, or of a
/// slice of literal size.
pub open spec fn static_width(names: Seq<Seq<char>>, seg: BinSegmentPat) -> Option<i64> {
    match seg.kind {
        BinKind::Utf8 => match utf8_literal(seg) {
            Some(t) => Some(i64::wrapping_mul(encode_utf8(text_of(names, t)).len() as i64, 8)),
            None => None,
        },
        BinKind::Int => literal_width(names, seg.size, seg.unit),
        BinKind::Binary => match seg.size {
            None => None,
            Some(_) => literal_width(names, seg.size, seg.unit),
        },
    }
}

/// The bit width of a pattern segment, when it is known before the program runs.
pub fn static_segment_bits(names: &Interner, seg: &BinSegmentPat) -> (res: Option<i64>)
    ensures
        res == static_width(names@, *seg),
{
    match seg.kind {
        BinKind::Utf8 => match utf8_literal_segment(seg) {
            Some(t) => {
                let bytes: &[u8] = names.text(t).as_bytes();
                Some((bytes.len() as i64).wrapping_mul(8))
            },
            None => None,
        },
        BinKind::Int => width_of_literal(names, &seg.size, seg.unit),
        BinKind::Binary => match &seg.size {
            None => None,
            Some(_) => width_of_literal(names, &seg.size, seg.unit),
        },
    }
}

/// The bits a pattern segment compares against, when it is a literal.
pub open spec fn prefix_bits(names: Seq<Seq<char>>, seg: BinSegmentPat) -> Option<Seq<bool>> {
    match utf8_literal(seg) {
        Some(t) => Some(bits_of(encode_utf8(text_of(names, t)))),
        None => if seg.kind == BinKind::Int {
            match seg.value {
                Pattern::Number { literal: n, .. } => match (
                    i64_of(text_of(names, n.text)),
                    static_width(names, seg),
                ) {
                    (Some(v), Some(w)) => Some(int_bits(v, (w as u64) as nat)),
                    _ => None,
                },
                _ => None,
            }
        } else {
            None
        },
    }
}

/// Where the run of literal segments ends that holds `acc` before `i`: at the
/// first segment that is no literal, or that would make the run longer than a
/// 64-bit length can say.
pub open spec fn run_end(
    names: Seq<Seq<char>>,
    segs: Seq<BinSegmentPat>,
    i: nat,
    acc: Seq<bool>,
) -> (nat, Seq<bool>)
    decreases segs.len() - i,
{
    if i >= segs.len() {
        (i, acc)
    } else {
        match prefix_bits(names, segs[i as int]) {
            Some(b) => if acc.len() + b.len() <= u64::MAX {
                run_end(names, segs, i + 1, acc + b)
            } else {
                (i, acc)
            },
            None => (i, acc),
        }
    }
}

/// The run of literal segments from `from` on: its bits, and how many segments
/// it takes up. `None` when there is none.
pub fn literal_prefix_run(names: &Interner, segs: &Vec<BinSegmentPat>, from: usize) -> (res: Option<
    (Vec<u8>, u64, usize),
>)
    requires
        from <= segs@.len(),
    ensures
        ({
            let (end, bits) = run_end(names@, segs@, from as nat, Seq::empty());
            match res {
                Some((bytes, bit_len, run)) => end > from && run == end - from && bytes@ == packed(
                    bits,
                ) && bit_len == bits.len() && end <= segs@.len(),
                None => end == from,
            }
        }),
{
    let mut bytes: Vec<u8> = Vec::new();
    let mut bit_len: u64 = 0;
    let ghost mut bits: Seq<bool> = Seq::empty();
    assert(held(bytes@, 0) =~= bits);
    let ghost goal = run_end(names@, segs@, from as nat, Seq::empty());
    let mut i: usize = from;
    let mut open: bool = true;
    while open && i < segs.len()
        invariant
            from <= i <= segs.len(),
            well_packed(bytes@, bit_len),
            held(bytes@, bit_len) == bits,
            bit_len == bits.len(),
            open ==> goal == run_end(names@, segs@, i as nat, bits),
            !open ==> goal == (i as nat, bits),
        decreases segs.len() - i, (if open { 1int } else { 0int }),
    {
        let seg: &BinSegmentPat = &segs[i];
        match utf8_literal_segment(seg) {
            Some(t) => {
                let new: &[u8] = names.text(t).as_bytes();
                if new.len() as u64 > (u64::MAX - bit_len) / 8 {
                    open = false;
                } else {
                    push_literal_bytes(&mut bytes, &mut bit_len, new);
                    proof {
                        bits = bits + bits_of(new@);
                    }
                    i = i + 1;
                }
            },
            None => {
                let mut lit: Option<(i64, i64)> = None;
                if seg.kind == BinKind::Int {
                    if let Pattern::Number { literal: n, .. } = &seg.value {
                        if let Some(v) = parse_i64(names.text(n.text)) {
                            if let Some(w) = static_segment_bits(names, seg) {
                                lit = Some((v, w));
                            }
                        }
                    }
                }
                match lit {
                    Some((v, w)) => {
                        if w as u64 > u64::MAX - bit_len {
                            open = false;
                        } else {
                            push_literal_bits(&mut bytes, &mut bit_len, v, w as u64);
                            proof {
                                bits = bits + int_bits(v, (w as u64) as nat);
                            }
                            i = i + 1;
                        }
                    },
                    None => {
                        open = false;
                    },
                }
            },
        }
    }
    proof {
        law_bits_determine_bytes(bytes@, bits);
    }
    if i > from {
        Some((bytes, bit_len, i - from))
    } else {
        None
    }
}

/// Literal segments encode one after the other: folding a literal gives the
/// concatenation of what its parts encode to.
pub proof fn law_folding_concatenates(
    names: Seq<Seq<char>>,
    segs: Seq<BinSegment>,
    n: nat,
    bits: Seq<bool>,
)
    requires
        0 < n <= segs.len(),
        folded(names, segs, n) == Some(bits),
    ensures
        folded(names, segs, (n - 1) as nat) matches Some(a) && segment_bits(
            names,
            segs[n - 1],
        ) matches Some(b) && bits == a + b,
{
}

/// A value that fits its width is encoded without loss: reading the bits back as
/// a binary number gives the value.
pub proof fn law_int_bits_are_binary(value: i64, n: nat)
    requires
        0 < n <= 64,
    ensures
        int_bits(value, n).len() == n,
        int_bits(value, n).last() == ((value as u64) & 1 == 1),
        n > 1 ==> int_bits(value, n).drop_last() == Seq::new(
            (n - 1) as nat,
            |i: int| (((value as u64) >> 1) >> ((n - 2 - i) as u64)) & 1 == 1,
        ),
{
    let v = value as u64;
    assert(v >> 0u64 == v) by (bit_vector);
    if n > 1 {
        assert forall|i: int| 0 <= i < n - 1 implies #[trigger] int_bits(value, n)[i] == ((((v >> 1)
            >> ((n - 2 - i) as u64)) & 1) == 1) by {
            let s = (n - 2 - i) as u64;
            let t = (n - 1 - i) as u64;
            assert(v >> t == (v >> 1) >> s) by (bit_vector)
                requires
                    t == s + 1,
                    t < 64,
            ;
        }
        assert(int_bits(value, n).drop_last() =~= Seq::new(
            (n - 1) as nat,
            |i: int| ((v >> 1) >> ((n - 2 - i) as u64)) & 1 == 1,
        ));
    }
}

} // verus!
