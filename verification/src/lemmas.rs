use vstd::prelude::*;

verus! {

use crate::model::bit_step;
use crate::model::bit_steps;
use crate::model::crc32_spec;
use crate::model::crc_fold;
use crate::model::crc_update;
use crate::model::le_word;
use crate::model::swap_spec;
use crate::model::table0_val;
use crate::model::table_val;
use crate::model::upd0;
use crate::model::updn;
use crate::model::word_fold;
use crate::model::word_update;

/// Applying one more zero-byte update after `k` others is the same as
/// applying it first: `updn` commutes with `upd0`.
pub proof fn lemma_updn_succ(x: u32, k: nat)
    ensures
        updn(x, k + 1) == upd0(updn(x, k)),
    decreases k,
{
    if k == 0 {
        assert(updn(x, 1) == updn(upd0(x), 0));
        assert(updn(upd0(x), 0) == upd0(x));
    } else {
        lemma_updn_succ(upd0(x), (k - 1) as nat);
        assert(updn(x, k + 1) == updn(upd0(x), k));
        assert(updn(x, k) == updn(upd0(x), (k - 1) as nat));
    }
}

/// The four byte fields of a 32-bit word are byte values.
pub(crate) proof fn lemma_low_byte_bound(x: u32)
    by (bit_vector)
    ensures
        x & 0xff < 256,
        (x >> 8u32) & 0xff < 256,
        (x >> 16u32) & 0xff < 256,
        x >> 24u32 < 256,
{
}

/// The eight nibble fields of a 32-bit word are digit values.
pub(crate) proof fn lemma_nibble_bounds(v: u32)
    by (bit_vector)
    ensures
        (v >> 28u32) & 0xf < 16,
        (v >> 24u32) & 0xf < 16,
        (v >> 20u32) & 0xf < 16,
        (v >> 16u32) & 0xf < 16,
        (v >> 12u32) & 0xf < 16,
        (v >> 8u32) & 0xf < 16,
        (v >> 4u32) & 0xf < 16,
        v & 0xf < 16,
{
}

/// A byte shifted up leaves a zero low byte, and shifting it back down
/// recovers it one position lower.
proof fn lemma_shifted_byte(b: u8)
    by (bit_vector)
    ensures
        ((b as u32) << 8u32) & 0xff == 0,
        ((b as u32) << 16u32) & 0xff == 0,
        ((b as u32) << 24u32) & 0xff == 0,
        ((b as u32) << 8u32) >> 8u32 == b as u32,
        ((b as u32) << 16u32) >> 8u32 == (b as u32) << 8u32,
        ((b as u32) << 24u32) >> 8u32 == (b as u32) << 16u32,
{
}

/// Successive right shifts of a word by one byte at a time.
proof fn lemma_word_shift_facts(x: u32)
    by (bit_vector)
    ensures
        (x >> 8u32) >> 8u32 == x >> 16u32,
        (x >> 16u32) >> 8u32 == x >> 24u32,
        ((x >> 24u32) & 0xff) as u8 == (x >> 24u32) as u8,
        (x >> 24u32) >> 8u32 == 0,
{
}

/// XOR with zero changes nothing.
proof fn lemma_xor_zero(y: u32)
    by (bit_vector)
    ensures
        y ^ 0u32 == y,
        0u32 ^ y == y,
{
}

/// One shift-register step is linear over XOR.
proof fn lemma_bit_step_linear(x: u32, y: u32)
    ensures
        bit_step(x ^ y) == bit_step(x) ^ bit_step(y),
{
    assert(bit_step(x ^ y) == bit_step(x) ^ bit_step(y)) by (bit_vector);
}

/// A zero register stays zero under shift-register steps.
proof fn lemma_bit_steps_zero(k: nat)
    ensures
        bit_steps(0, k) == 0,
    decreases k,
{
    assert(bit_step(0) == 0) by (bit_vector);
    if k > 0 {
        lemma_bit_steps_zero((k - 1) as nat);
    }
}

/// `k` shift-register steps are linear over XOR.
proof fn lemma_bit_steps_linear(x: u32, y: u32, k: nat)
    ensures
        bit_steps(x ^ y, k) == bit_steps(x, k) ^ bit_steps(y, k),
    decreases k,
{
    if k > 0 {
        lemma_bit_step_linear(x, y);
        lemma_bit_steps_linear(bit_step(x), bit_step(y), (k - 1) as nat);
    }
}

/// Table 0 maps the zero byte to zero.
proof fn lemma_table0_zero()
    ensures
        table0_val(0) == 0,
{
    lemma_bit_steps_zero(8);
}

/// Table 0 is linear over XOR of byte values.
proof fn lemma_table0_linear(a: u8, b: u8)
    ensures
        table0_val(a ^ b) == table0_val(a) ^ table0_val(b),
{
    assert((a ^ b) as u32 == (a as u32) ^ (b as u32)) by (bit_vector);
    lemma_bit_steps_linear(a as u32, b as u32, 8);
}

/// The zero-byte table update is linear over XOR.
proof fn lemma_upd0_linear(x: u32, y: u32)
    ensures
        upd0(x ^ y) == upd0(x) ^ upd0(y),
{
    assert(((x ^ y) & 0xff) as u8 == ((x & 0xff) as u8) ^ ((y & 0xff) as u8)) by (bit_vector);
    lemma_table0_linear((x & 0xff) as u8, (y & 0xff) as u8);
    let tx = table0_val((x & 0xff) as u8);
    let ty = table0_val((y & 0xff) as u8);
    assert((tx ^ ty) ^ ((x ^ y) >> 8) == (tx ^ (x >> 8)) ^ (ty ^ (y >> 8))) by (bit_vector);
}

/// A value whose low byte is zero passes through one zero-byte update
/// as a plain right shift: the table contributes nothing.
proof fn lemma_upd0_low_zero(x: u32)
    requires
        x & 0xff == 0,
    ensures
        upd0(x) == x >> 8,
{
    assert((x & 0xff) as u8 == 0u8) by (bit_vector)
        requires
            x & 0xff == 0,
    ;
    lemma_table0_zero();
    lemma_xor_zero(x >> 8);
}

/// One data-byte update is the zero-byte update of the register with
/// the byte XORed into its low end.
proof fn lemma_crc_update_upd0(c: u32, b: u8)
    ensures
        crc_update(c, b) == upd0(c ^ (b as u32)),
{
    assert((c ^ (b as u32)) >> 8 == c >> 8) by (bit_vector);
}

/// The table-driven byte step is exactly eight steps of the bitwise
/// polynomial division with the data byte XORed into the register's
/// low end: the lookup table changes nothing of the mathematics.
pub proof fn lemma_byte_step_is_bit_steps(c: u32, b: u8)
    ensures
        crc_update(c, b) == bit_steps(c ^ (b as u32), 8),
{
    let x = c ^ (b as u32);
    let lo = x & 0xff;
    let hi = x & 0xffffff00;
    assert(c ^ (b as u32) == ((c ^ (b as u32)) & 0xff) ^ ((c ^ (b as u32)) & 0xffffff00))
        by (bit_vector);
    lemma_bit_steps_linear(lo, hi, 8);
    // The low byte alone runs through the division as the table entry.
    assert((c ^ (b as u32)) & 0xff == ((((c ^ (b as u32)) & 0xff) as u8)) as u32) by (bit_vector);
    // A register with a zero low byte only shifts, eight times over.
    assert(((c ^ (b as u32)) & 0xffffff00) & 0xff == 0) by (bit_vector);
    assert(bit_steps(hi, 8) == hi >> 8) by (bit_vector)
        requires
            hi & 0xff == 0,
    ;
    assert(((c ^ (b as u32)) & 0xffffff00) >> 8 == c >> 8) by (bit_vector);
}

/// Four single-byte updates equal one whole-word update on the word the
/// four bytes assemble to: the correctness of the slicing-by-4 step.
pub proof fn lemma_word_update_bytes(c: u32, b0: u8, b1: u8, b2: u8, b3: u8)
    ensures
        word_update(c, le_word(b0, b1, b2, b3)) == crc_update(
            crc_update(crc_update(crc_update(c, b0), b1), b2),
            b3,
        ),
{
    let z0 = b0 as u32;
    let z1 = b1 as u32;
    let z2 = b2 as u32;
    let z3 = b3 as u32;
    let w = le_word(b0, b1, b2, b3);
    let c1 = crc_update(c, b0);
    let c2 = crc_update(c1, b1);
    let c3 = crc_update(c2, b2);
    let c4 = crc_update(c3, b3);
    lemma_crc_update_upd0(c, b0);
    lemma_crc_update_upd0(c1, b1);
    lemma_crc_update_upd0(c2, b2);
    lemma_crc_update_upd0(c3, b3);

    // Split the word XOR into the per-byte contributions.
    assert(c ^ le_word(b0, b1, b2, b3) == (c ^ (b0 as u32)) ^ (((b1 as u32) << 8) ^ (((b2 as u32)
        << 16) ^ ((b3 as u32) << 24)))) by (bit_vector);

    // First update: the low byte is consumed, the rest shifts down.
    lemma_shifted_byte(b1);
    lemma_shifted_byte(b2);
    lemma_shifted_byte(b3);
    lemma_upd0_linear(c ^ z0, (z1 << 8) ^ ((z2 << 16) ^ (z3 << 24)));
    lemma_upd0_linear(z1 << 8, (z2 << 16) ^ (z3 << 24));
    lemma_upd0_linear(z2 << 16, z3 << 24);
    lemma_upd0_low_zero(z1 << 8);
    lemma_upd0_low_zero(z2 << 16);
    lemma_upd0_low_zero(z3 << 24);
    assert(upd0(c ^ w) == c1 ^ (z1 ^ ((z2 << 8) ^ (z3 << 16))));

    // Second update.
    let u1 = upd0(c ^ w);
    assert(u1 == (c1 ^ z1) ^ ((z2 << 8) ^ (z3 << 16))) by (bit_vector)
        requires
            u1 == c1 ^ (z1 ^ ((z2 << 8) ^ (z3 << 16))),
    ;
    lemma_upd0_linear(c1 ^ z1, (z2 << 8) ^ (z3 << 16));
    lemma_upd0_linear(z2 << 8, z3 << 16);
    lemma_upd0_low_zero(z2 << 8);
    lemma_upd0_low_zero(z3 << 16);
    assert(upd0(u1) == c2 ^ (z2 ^ (z3 << 8)));

    // Third update.
    let u2 = upd0(u1);
    assert(u2 == (c2 ^ z2) ^ (z3 << 8)) by (bit_vector)
        requires
            u2 == c2 ^ (z2 ^ (z3 << 8)),
    ;
    lemma_upd0_linear(c2 ^ z2, z3 << 8);
    lemma_upd0_low_zero(z3 << 8);
    assert(upd0(u2) == c3 ^ z3);

    // Fourth update closes the word.
    let u3 = upd0(u2);
    assert(upd0(u3) == c4);

    // The four updates are exactly updn(c ^ w, 4).
    assert(updn(c ^ w, 4) == updn(upd0(c ^ w), 3));
    assert(updn(u1, 3) == updn(upd0(u1), 2));
    assert(updn(u2, 2) == updn(upd0(u2), 1));
    assert(updn(u3, 1) == updn(upd0(u3), 0));
    assert(updn(upd0(u3), 0) == upd0(u3));
}

/// Four zero-byte updates of a register decompose into one lookup per
/// byte of the register, combined by XOR: the identity behind reading
/// tables 3, 2, 1 and 0 for one 32-bit word.
pub proof fn lemma_slice4(x: u32)
    ensures
        updn(x, 4) == ((updn(table0_val((x & 0xff) as u8), 3) ^ updn(
            table0_val(((x >> 8) & 0xff) as u8),
            2,
        )) ^ updn(table0_val(((x >> 16) & 0xff) as u8), 1)) ^ table0_val((x >> 24) as u8),
{
    let a0 = table0_val((x & 0xff) as u8);
    let a1 = table0_val(((x >> 8) & 0xff) as u8);
    let a2 = table0_val(((x >> 16) & 0xff) as u8);
    let a3 = table0_val((x >> 24) as u8);

    // Unfold each update into a lookup of the low byte plus a shift.
    lemma_word_shift_facts(x);
    assert(upd0(x) == a0 ^ (x >> 8));
    assert(upd0(x >> 8) == a1 ^ (x >> 16));
    assert(upd0(x >> 16) == a2 ^ (x >> 24));
    lemma_xor_zero(a3);
    assert(upd0(x >> 24) == a3);

    // Push the shifts through by linearity, one update at a time.
    lemma_upd0_linear(a0, x >> 8);
    lemma_upd0_linear(a1, x >> 16);
    lemma_upd0_linear(a2, x >> 24);
    lemma_upd0_linear(upd0(a0), upd0(x >> 8));
    lemma_upd0_linear(upd0(a1), upd0(x >> 16));
    lemma_upd0_linear(upd0(upd0(a0)), upd0(upd0(x >> 8)));

    let b1 = upd0(a0);
    let b2 = upd0(b1);
    let b3 = upd0(b2);
    let d2 = upd0(a1);
    let d3 = upd0(d2);
    let e3 = upd0(a2);

    // Assemble the repeated applications, lookup by lookup.
    assert(upd0(upd0(x)) == b1 ^ (a1 ^ (x >> 16)));
    assert(b1 ^ (a1 ^ (x >> 16)) == (b1 ^ a1) ^ (x >> 16)) by (bit_vector);
    lemma_upd0_linear(b1 ^ a1, x >> 16);
    lemma_upd0_linear(b1, a1);
    assert(upd0(upd0(upd0(x))) == (b2 ^ d2) ^ (a2 ^ (x >> 24)));
    assert((b2 ^ d2) ^ (a2 ^ (x >> 24)) == ((b2 ^ d2) ^ a2) ^ (x >> 24)) by (bit_vector);
    lemma_upd0_linear((b2 ^ d2) ^ a2, x >> 24);
    lemma_upd0_linear(b2 ^ d2, a2);
    lemma_upd0_linear(b2, d2);
    assert(upd0(upd0(upd0(upd0(x)))) == ((b3 ^ d3) ^ e3) ^ a3);

    // Rewrite the nested applications as updn counts.
    lemma_updn_succ(x, 0);
    lemma_updn_succ(x, 1);
    lemma_updn_succ(x, 2);
    lemma_updn_succ(x, 3);
    assert(updn(x, 1) == upd0(updn(x, 0)));
    assert(updn(x, 0) == x);
    assert(updn(x, 4) == ((b3 ^ d3) ^ e3) ^ a3);

    lemma_updn_succ(a0, 0);
    lemma_updn_succ(a0, 1);
    lemma_updn_succ(a0, 2);
    assert(updn(a0, 3) == b3);
    lemma_updn_succ(a1, 0);
    lemma_updn_succ(a1, 1);
    assert(updn(a1, 2) == d3);
    lemma_updn_succ(a2, 0);
    assert(updn(a2, 1) == e3);
}

/// Folding a concatenation is folding the first part and then the
/// second: the register carries the whole state between chunks.
pub proof fn lemma_crc_fold_concat(c: u32, a: Seq<u8>, b: Seq<u8>)
    ensures
        crc_fold(c, a + b) == crc_fold(crc_fold(c, a), b),
    decreases b.len(),
{
    if b.len() == 0 {
        assert(a + b =~= a);
    } else {
        lemma_crc_fold_concat(c, a, b.drop_last());
        assert((a + b).drop_last() =~= a + b.drop_last());
        assert((a + b).last() == b.last());
    }
}

/// Folding one more word extends a word fold at its end.
pub proof fn lemma_word_fold_snoc(c: u32, ws: Seq<u32>, w: u32)
    ensures
        word_fold(c, ws.push(w)) == word_update(word_fold(c, ws), w),
{
    assert(ws.push(w).drop_last() =~= ws);
    assert(ws.push(w).last() == w);
}

/// Folding `m` whole words, each assembled little-endian from four
/// consecutive bytes of `s`, advances the byte fold by `4 * m` bytes.
pub proof fn lemma_words_extend_fold(seed: u32, s: Seq<u8>, ws: Seq<u32>, j: int, m: int)
    requires
        0 <= j,
        0 <= m,
        j + m <= ws.len(),
        4 * ws.len() <= s.len(),
        forall|i: int|
            0 <= i < ws.len() ==> #[trigger] ws[i] == le_word(
                s[4 * i],
                s[4 * i + 1],
                s[4 * i + 2],
                s[4 * i + 3],
            ),
    ensures
        word_fold(crc_fold(seed, s.take(4 * j)), ws.subrange(j, j + m)) == crc_fold(
            seed,
            s.take(4 * j + 4 * m),
        ),
    decreases m,
{
    if m == 0 {
        assert(ws.subrange(j, j) =~= Seq::<u32>::empty());
    } else {
        lemma_words_extend_fold(seed, s, ws, j, m - 1);
        let p = j + m - 1;
        let c0 = crc_fold(seed, s.take(4 * j));
        let base = crc_fold(seed, s.take(4 * p));
        assert(4 * j + 4 * (m - 1) == 4 * p);
        assert(word_fold(c0, ws.subrange(j, p)) == base);
        assert(ws.subrange(j, j + m) =~= ws.subrange(j, p).push(ws[p]));
        lemma_word_fold_snoc(c0, ws.subrange(j, p), ws[p]);
        assert(word_fold(c0, ws.subrange(j, j + m)) == word_update(base, ws[p]));

        // One word is four byte steps of the underlying fold.
        let n = 4 * p;
        assert(ws[p] == le_word(s[n], s[n + 1], s[n + 2], s[n + 3]));
        assert(s.take(n + 1).drop_last() =~= s.take(n));
        assert(s.take(n + 1).last() == s[n]);
        assert(crc_fold(seed, s.take(n + 1)) == crc_update(base, s[n]));
        assert(s.take(n + 2).drop_last() =~= s.take(n + 1));
        assert(s.take(n + 2).last() == s[n + 1]);
        assert(crc_fold(seed, s.take(n + 2)) == crc_update(crc_fold(seed, s.take(n + 1)), s[n + 1]));
        assert(s.take(n + 3).drop_last() =~= s.take(n + 2));
        assert(s.take(n + 3).last() == s[n + 2]);
        assert(crc_fold(seed, s.take(n + 3)) == crc_update(crc_fold(seed, s.take(n + 2)), s[n + 2]));
        assert(s.take(n + 4).drop_last() =~= s.take(n + 3));
        assert(s.take(n + 4).last() == s[n + 3]);
        assert(crc_fold(seed, s.take(n + 4)) == crc_update(crc_fold(seed, s.take(n + 3)), s[n + 3]));
        lemma_word_update_bytes(base, s[n], s[n + 1], s[n + 2], s[n + 3]);
        assert(word_update(base, ws[p]) == crc_fold(seed, s.take(n + 4)));
        assert(4 * j + 4 * m == n + 4);
    }
}

/// The CRC of the empty sequence is the seed itself: in particular,
/// a zero seed over no bytes gives zero.
pub proof fn lemma_crc32_empty(prev: u32)
    ensures
        crc32_spec(prev, Seq::<u8>::empty()) == prev,
{
    let m = 0xffffffffu32;
    assert((prev ^ m) ^ m == prev) by (bit_vector);
}

/// Chaining correctness: seeding a call with the previous chunk's
/// result gives the CRC of the concatenation, for any split and seed.
pub proof fn lemma_crc32_chain(prev: u32, a: Seq<u8>, b: Seq<u8>)
    ensures
        crc32_spec(crc32_spec(prev, a), b) == crc32_spec(prev, a + b),
{
    let m = 0xffffffffu32;
    let fa = crc_fold(prev ^ m, a);
    assert((fa ^ m) ^ m == fa) by (bit_vector);
    lemma_crc_fold_concat(prev ^ m, a, b);
}

/// Reversing the bytes of a word twice gives the word back.
pub proof fn lemma_zswap_involution(x: u32)
    ensures
        swap_spec(swap_spec(x)) == x,
{
    assert(swap_spec(swap_spec(x)) == x) by (bit_vector);
}

/// Each of tables 4 to 7 is the byte reversal of the table four below it.
pub proof fn lemma_table_byteswap(k: int, n: u8)
    requires
        0 <= k < 4,
    ensures
        table_val(k + 4, n) == swap_spec(table_val(k, n)),
{
}

} // verus!
