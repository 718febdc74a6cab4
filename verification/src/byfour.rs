use vstd::prelude::*;

verus! {

use crate::crc32gen::crc_table_view;
use crate::crc32gen::CrcTable;
use crate::model::crc32_spec;
use crate::model::crc_fold;
use crate::model::crc_update;
use crate::model::le_word;
use crate::model::table0_val;
use crate::model::table_val;
use crate::model::table_wf;
use crate::model::updn;
use crate::model::word_fold;
use crate::model::word_update;

/// Folds one 32-bit word into the register with three XORs and four
/// table lookups, advancing the word cursor by one.
fn dolit4(t: &CrcTable, c: &mut u32, buf4: &[u32], buf4pos: &mut usize)
    requires
        table_wf(crc_table_view(t)),
        *old(buf4pos) < buf4@.len(),
    ensures
        *final(buf4pos) == *old(buf4pos) + 1,
        *final(c) == word_update(*old(c), buf4@[*old(buf4pos) as int]),
{
    let c1 = *c ^ buf4[*buf4pos];
    *buf4pos += 1;
    proof {
        crate::lemmas::lemma_low_byte_bound(c1);
        assert(crc_table_view(t)[0] == t@[0]@);
        assert(crc_table_view(t)[1] == t@[1]@);
        assert(crc_table_view(t)[2] == t@[2]@);
        assert(crc_table_view(t)[3] == t@[3]@);
    }
    let v3 = t[3][(c1 & 0xff) as usize];
    let v2 = t[2][((c1 >> 8u32) & 0xff) as usize];
    let v1 = t[1][((c1 >> 16u32) & 0xff) as usize];
    let v0 = t[0][(c1 >> 24u32) as usize];
    proof {
        assert(v3 == updn(table0_val((c1 & 0xff) as u8), 3));
        assert(v2 == updn(table0_val(((c1 >> 8u32) & 0xff) as u8), 2));
        assert(v1 == updn(table0_val(((c1 >> 16u32) & 0xff) as u8), 1));
        assert(v0 == table_val(0, (c1 >> 24u32) as u8));
        assert(updn(table0_val((c1 >> 24u32) as u8), 0) == table0_val((c1 >> 24u32) as u8));
        crate::lemmas::lemma_slice4(c1);
    }
    *c = v3 ^ v2 ^ v1 ^ v0;
}

/// Folds eight consecutive 32-bit words into the register.
fn dolit32(t: &CrcTable, c: &mut u32, buf4: &[u32], buf4pos: &mut usize)
    requires
        table_wf(crc_table_view(t)),
        *old(buf4pos) + 8 <= buf4@.len(),
    ensures
        *final(buf4pos) == *old(buf4pos) + 8,
        *final(c) == word_fold(*old(c), buf4@.subrange(*old(buf4pos) as int, *old(buf4pos) + 8)),
{
    let ghost c0 = *c;
    let ghost p = *buf4pos as int;
    proof {
        assert(buf4@.subrange(p, p) =~= Seq::<u32>::empty());
    }
    dolit4(t, c, buf4, buf4pos);
    proof {
        assert(buf4@.subrange(p, p + 1) =~= buf4@.subrange(p, p).push(buf4@[p]));
        crate::lemmas::lemma_word_fold_snoc(c0, buf4@.subrange(p, p), buf4@[p]);
    }
    dolit4(t, c, buf4, buf4pos);
    proof {
        assert(buf4@.subrange(p, p + 2) =~= buf4@.subrange(p, p + 1).push(buf4@[p + 1]));
        crate::lemmas::lemma_word_fold_snoc(c0, buf4@.subrange(p, p + 1), buf4@[p + 1]);
    }
    dolit4(t, c, buf4, buf4pos);
    proof {
        assert(buf4@.subrange(p, p + 3) =~= buf4@.subrange(p, p + 2).push(buf4@[p + 2]));
        crate::lemmas::lemma_word_fold_snoc(c0, buf4@.subrange(p, p + 2), buf4@[p + 2]);
    }
    dolit4(t, c, buf4, buf4pos);
    proof {
        assert(buf4@.subrange(p, p + 4) =~= buf4@.subrange(p, p + 3).push(buf4@[p + 3]));
        crate::lemmas::lemma_word_fold_snoc(c0, buf4@.subrange(p, p + 3), buf4@[p + 3]);
    }
    dolit4(t, c, buf4, buf4pos);
    proof {
        assert(buf4@.subrange(p, p + 5) =~= buf4@.subrange(p, p + 4).push(buf4@[p + 4]));
        crate::lemmas::lemma_word_fold_snoc(c0, buf4@.subrange(p, p + 4), buf4@[p + 4]);
    }
    dolit4(t, c, buf4, buf4pos);
    proof {
        assert(buf4@.subrange(p, p + 6) =~= buf4@.subrange(p, p + 5).push(buf4@[p + 5]));
        crate::lemmas::lemma_word_fold_snoc(c0, buf4@.subrange(p, p + 5), buf4@[p + 5]);
    }
    dolit4(t, c, buf4, buf4pos);
    proof {
        assert(buf4@.subrange(p, p + 7) =~= buf4@.subrange(p, p + 6).push(buf4@[p + 6]));
        crate::lemmas::lemma_word_fold_snoc(c0, buf4@.subrange(p, p + 6), buf4@[p + 6]);
    }
    dolit4(t, c, buf4, buf4pos);
    proof {
        assert(buf4@.subrange(p, p + 8) =~= buf4@.subrange(p, p + 7).push(buf4@[p + 7]));
        crate::lemmas::lemma_word_fold_snoc(c0, buf4@.subrange(p, p + 7), buf4@[p + 7]);
    }
}

/// Computes the CRC-32 of `buf` four bytes at a time where the data
/// allows, assembling each word little-endian, and byte by byte at the
/// tail. Returns exactly what the byte-wise path returns, for every
/// input and every seed.
pub fn crc32_little(crc: u32, buf: &[u8]) -> (r: u32)
    ensures
        r == crc32_spec(crc, buf@),
{
    let t = crate::crc32gen::make_crc_table();
    let mut len = buf.len();
    let mut bufpos: usize = 0;

    let mut c: u32 = crc;
    c = !c;
    proof {
        assert(!crc == crc ^ 0xffffffffu32) by (bit_vector);
        assert(buf@.take(0) =~= Seq::<u8>::empty());
    }
    let ghost seed: u32 = c;

    // Assemble the aligned middle region into little-endian words.
    let total_words = len / 4;
    let mut buf4: Vec<u32> = Vec::new();
    let mut w: usize = 0;
    while w < total_words
        invariant
            total_words == buf@.len() / 4,
            w <= total_words,
            buf@.len() == buf.len(),
            buf4@.len() == w,
            forall|i: int|
                0 <= i < w ==> #[trigger] buf4@[i] == le_word(
                    buf@[4 * i],
                    buf@[4 * i + 1],
                    buf@[4 * i + 2],
                    buf@[4 * i + 3],
                ),
        decreases total_words - w,
    {
        let b0 = buf[4 * w];
        let b1 = buf[4 * w + 1];
        let b2 = buf[4 * w + 2];
        let b3 = buf[4 * w + 3];
        let word = (b0 as u32) | ((b1 as u32) << 8u32) | ((b2 as u32) << 16u32) | ((b3 as u32)
            << 24u32);
        proof {
            assert((b0 as u32) | ((b1 as u32) << 8u32) | ((b2 as u32) << 16u32) | ((b3 as u32)
                << 24u32) == le_word(b0, b1, b2, b3)) by (bit_vector);
        }
        buf4.push(word);
        w += 1;
    }

    // Fold the words in, thirty-two bytes at a time, then four.
    let mut buf4pos: usize = 0;
    while len >= 32
        invariant
            table_wf(crc_table_view(&t)),
            buf@.len() == buf.len(),
            total_words == buf@.len() / 4,
            buf4@.len() == total_words,
            forall|i: int|
                0 <= i < buf4@.len() ==> #[trigger] buf4@[i] == le_word(
                    buf@[4 * i],
                    buf@[4 * i + 1],
                    buf@[4 * i + 2],
                    buf@[4 * i + 3],
                ),
            4 * buf4pos + len == buf@.len(),
            c == crc_fold(seed, buf@.take(4 * buf4pos)),
        decreases len,
    {
        let ghost p = buf4pos as int;
        proof {
            assert(4 * (buf4@.len() as int) <= buf@.len());
            assert(p + 8 <= buf4@.len());
        }
        dolit32(&t, &mut c, &buf4, &mut buf4pos);
        proof {
            crate::lemmas::lemma_words_extend_fold(seed, buf@, buf4@, p, 8);
        }
        len -= 32;
    }
    while len >= 4
        invariant
            table_wf(crc_table_view(&t)),
            buf@.len() == buf.len(),
            total_words == buf@.len() / 4,
            buf4@.len() == total_words,
            forall|i: int|
                0 <= i < buf4@.len() ==> #[trigger] buf4@[i] == le_word(
                    buf@[4 * i],
                    buf@[4 * i + 1],
                    buf@[4 * i + 2],
                    buf@[4 * i + 3],
                ),
            4 * buf4pos + len == buf@.len(),
            c == crc_fold(seed, buf@.take(4 * buf4pos)),
        decreases len,
    {
        let ghost p = buf4pos as int;
        proof {
            assert(4 * (buf4@.len() as int) <= buf@.len());
            assert(p < buf4@.len());
        }
        let ghost c0 = c;
        dolit4(&t, &mut c, &buf4, &mut buf4pos);
        proof {
            assert(buf4@.subrange(p, p + 1) =~= buf4@.subrange(p, p).push(buf4@[p]));
            assert(buf4@.subrange(p, p) =~= Seq::<u32>::empty());
            crate::lemmas::lemma_word_fold_snoc(c0, buf4@.subrange(p, p), buf4@[p]);
            crate::lemmas::lemma_words_extend_fold(seed, buf@, buf4@, p, 1);
        }
        len -= 4;
    }

    // Trailing bytes, fewer than four, one at a time.
    bufpos = bufpos + buf4pos * 4;
    while len != 0
        invariant
            table_wf(crc_table_view(&t)),
            buf@.len() == buf.len(),
            bufpos + len == buf@.len(),
            c == crc_fold(seed, buf@.take(bufpos as int)),
        decreases len,
    {
        let b = buf[bufpos];
        let bi = ((c & 0xff) as u8) ^ b;
        proof {
            assert(bi as u32 == (c ^ (b as u32)) & 0xff) by (bit_vector)
                requires
                    bi == ((c & 0xff) as u8) ^ b,
            ;
            assert(bi < 256);
            assert(crc_table_view(&t)[0] == t@[0]@);
        }
        let tval = t[0][bi as usize];
        proof {
            assert(tval == table_val(0, bi));
            assert(updn(table0_val(bi), 0) == table0_val(bi));
            assert(buf@.take(bufpos + 1).drop_last() =~= buf@.take(bufpos as int));
            assert(buf@.take(bufpos + 1).last() == buf@[bufpos as int]);
            assert(tval ^ (c >> 8u32) == crc_update(c, b));
        }
        c = tval ^ (c >> 8u32);
        bufpos += 1;
        len -= 1;
    }
    proof {
        assert(buf@.take(buf@.len() as int) =~= buf@);
    }
    c = !c;
    proof {
        let g = crc_fold(seed, buf@);
        assert(!g == g ^ 0xffffffffu32) by (bit_vector);
    }
    c
}

} // verus!
