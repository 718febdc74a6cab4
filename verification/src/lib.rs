//! CRC-32 checksum (the zlib/gzip/PNG polynomial) over byte sequences,
//! with a verified table generator, a byte-at-a-time engine and a
//! word-at-a-time accelerated engine proved equal to it.

pub mod byfour;
pub mod crc32gen;
pub mod lemmas;
pub mod model;

pub use byfour::crc32_little;
pub use crc32gen::make_crc_table;
pub use crc32gen::write_tables;
pub use crc32gen::zswap32;
pub use crc32gen::CrcTable;

use vstd::prelude::*;

verus! {

use crate::crc32gen::crc_table_view;
use crate::model::crc32_spec;
use crate::model::crc_fold;
use crate::model::crc_update;
use crate::model::table0_val;
use crate::model::table_val;
use crate::model::table_wf;
use crate::model::updn;

/// Computes the CRC-32 of `buf` one byte at a time, seeded with the
/// previous CRC value `start_crc`. Chained calls over successive chunks
/// of one stream give the CRC of their concatenation.
pub fn crc32(start_crc: u32, buf: &[u8]) -> (r: u32)
    ensures
        r == crc32_spec(start_crc, buf@),
{
    let t = crate::crc32gen::make_crc_table();
    let len = buf.len();
    let mut crc = start_crc;
    let mut bufpos: usize = 0;
    let mut remaining_bytes = len;

    crc = crc ^ 0xffffffff;
    let ghost seed: u32 = crc;
    proof {
        assert(buf@.take(0) =~= Seq::<u8>::empty());
    }

    while remaining_bytes > 0
        invariant
            table_wf(crc_table_view(&t)),
            bufpos + remaining_bytes == buf@.len(),
            crc == crc_fold(seed, buf@.take(bufpos as int)),
        decreases remaining_bytes,
    {
        let b = buf[bufpos];
        let b32 = b as u32;
        let b_index = (crc ^ b32) & 0xff;
        proof {
            crate::lemmas::lemma_low_byte_bound(crc ^ b32);
            assert(crc_table_view(&t)[0] == t@[0]@);
        }
        let tval = t[0][b_index as usize];
        proof {
            assert(tval == table_val(0, b_index as u8));
            assert(updn(table0_val(b_index as u8), 0) == table0_val(b_index as u8));
            assert(buf@.take(bufpos + 1).drop_last() =~= buf@.take(bufpos as int));
            assert(buf@.take(bufpos + 1).last() == buf@[bufpos as int]);
            assert(tval ^ (crc >> 8u32) == crc_update(crc, b));
        }
        crc = tval ^ (crc >> 8u32);
        bufpos += 1;
        remaining_bytes -= 1;
    }

    proof {
        assert(buf@.take(buf@.len() as int) =~= buf@);
    }
    crc ^ 0xffffffff
}

} // verus!
