use vstd::prelude::*;

verus! {

/// Reduction pattern of the CRC-32 generator polynomial
/// x^32+x^26+x^23+x^22+x^16+x^12+x^11+x^10+x^8+x^7+x^5+x^4+x^2+x+1,
/// written in reflected bit order (lowest power in the most significant bit).
pub const POLY: u32 = 0xedb88320;

/// One step of the shift-register polynomial division: multiply the
/// register by x and reduce by the polynomial if a one bit falls out.
pub open spec fn bit_step(c: u32) -> u32 {
    if c & 1 != 0 {
        POLY ^ (c >> 1)
    } else {
        c >> 1
    }
}

/// `k` consecutive shift-register steps applied to `c`.
pub open spec fn bit_steps(c: u32, k: nat) -> u32
    decreases k,
{
    if k == 0 {
        c
    } else {
        bit_steps(bit_step(c), (k - 1) as nat)
    }
}

/// The CRC-32 remainder of the single byte value `n`, processed bit by
/// bit from a zero register: the defining value of entry `n` of table 0.
pub open spec fn table0_val(n: u8) -> u32 {
    bit_steps(n as u32, 8)
}

/// One table-driven register update that consumes a zero input byte:
/// fold the low byte of the register through table 0 and shift.
pub open spec fn upd0(x: u32) -> u32 {
    table0_val((x & 0xff) as u8) ^ (x >> 8)
}

/// `k` consecutive zero-byte updates applied to `x`.
pub open spec fn updn(x: u32, k: nat) -> u32
    decreases k,
{
    if k == 0 {
        x
    } else {
        updn(upd0(x), (k - 1) as nat)
    }
}

/// The four bytes of `n` in reverse order: byte 0 of the result is
/// byte 3 of the input, and so on.
pub open spec fn swap_spec(n: u32) -> u32 {
    ((n & 0xff) << 24) | (((n >> 8) & 0xff) << 16) | (((n >> 16) & 0xff) << 8) | ((n >> 24)
        & 0xff)
}

/// Entry `n` of table `k` of the 8x256 matrix: table 0 is the
/// single-byte CRC table, tables 1 to 3 fold in one, two and three
/// trailing zero bytes, and tables 4 to 7 are the byte-reversed
/// counterparts of tables 0 to 3.
pub open spec fn table_val(k: int, n: u8) -> u32 {
    if k < 4 {
        updn(table0_val(n), k as nat)
    } else {
        swap_spec(updn(table0_val(n), (k - 4) as nat))
    }
}

/// One data byte folded into the running register: the byte-at-a-time
/// CRC step shared by every path of the engine.
pub open spec fn crc_update(c: u32, b: u8) -> u32 {
    table0_val(((c ^ (b as u32)) & 0xff) as u8) ^ (c >> 8)
}

/// The register after folding in every byte of `s`, in order.
pub open spec fn crc_fold(c: u32, s: Seq<u8>) -> u32
    decreases s.len(),
{
    if s.len() == 0 {
        c
    } else {
        crc_update(crc_fold(c, s.drop_last()), s.last())
    }
}

/// The CRC-32 of `s` seeded with `prev`, with the standard
/// one's-complement convention at entry and exit.
pub open spec fn crc32_spec(prev: u32, s: Seq<u8>) -> u32 {
    crc_fold(prev ^ 0xffffffffu32, s) ^ 0xffffffffu32
}

/// Four bytes assembled into one 32-bit word, little-endian: `b0` is
/// the least significant byte.
pub open spec fn le_word(b0: u8, b1: u8, b2: u8, b3: u8) -> u32 {
    (b0 as u32) | ((b1 as u32) << 8) | ((b2 as u32) << 16) | ((b3 as u32) << 24)
}

/// One whole-word register update of the accelerated path: XOR the
/// word in, then run four zero-byte updates.
pub open spec fn word_update(c: u32, w: u32) -> u32 {
    updn(c ^ w, 4)
}

/// The register after folding in every word of `ws`, in order.
pub open spec fn word_fold(c: u32, ws: Seq<u32>) -> u32
    decreases ws.len(),
{
    if ws.len() == 0 {
        c
    } else {
        word_update(word_fold(c, ws.drop_last()), ws.last())
    }
}

/// A well-formed CRC table: an 8x256 matrix whose every entry carries
/// its defining value.
pub open spec fn table_wf(t: Seq<Seq<u32>>) -> bool {
    &&& t.len() == 8
    &&& forall|k: int| 0 <= k < 8 ==> (#[trigger] t[k]).len() == 256
    &&& forall|k: int, n: int|
        0 <= k < 8 && 0 <= n < 256 ==> #[trigger] t[k][n] == table_val(k, n as u8)
}

} // verus!
