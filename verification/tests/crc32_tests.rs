use crc32::crc32;
use crc32::crc32_little;
use crc32::make_crc_table;
use crc32::write_tables;
use crc32::zswap32;

#[test]
fn crc_of_empty_is_zero() {
    assert_eq!(crc32(0, &[]), 0);
}

#[test]
fn crc_of_empty_keeps_any_seed() {
    for seed in [0u32, 1, 0x12345678, 0xffffffff] {
        assert_eq!(crc32(seed, &[]), seed);
        assert_eq!(crc32_little(seed, &[]), seed);
    }
}

#[test]
fn known_vector_digits() {
    assert_eq!(crc32(0, b"123456789"), 0xCBF43926);
}

#[test]
fn known_vector_fox() {
    assert_eq!(crc32(0, b"The quick brown fox jumps over the lazy dog"), 0x414FA339);
}

#[test]
fn known_vectors_accelerated() {
    assert_eq!(crc32_little(0, b"123456789"), 0xCBF43926);
    assert_eq!(crc32_little(0, b"The quick brown fox jumps over the lazy dog"), 0x414FA339);
}

#[test]
fn chaining_over_every_split() {
    let data = b"The quick brown fox jumps over the lazy dog";
    let whole = crc32(0, data);
    for i in 0..=data.len() {
        let first = crc32(0, &data[..i]);
        assert_eq!(crc32(first, &data[i..]), whole);
    }
}

#[test]
fn chaining_with_nonzero_seed() {
    let data = b"123456789";
    for seed in [0u32, 7, 0xdeadbeef] {
        let whole = crc32(seed, data);
        for i in 0..=data.len() {
            let first = crc32(seed, &data[..i]);
            assert_eq!(crc32(first, &data[i..]), whole);
        }
    }
}

#[test]
fn table_zero_spot_checks() {
    let t = make_crc_table();
    assert_eq!(t[0][0], 0);
    assert_eq!(t[0][128], 0xedb88320);
    assert_eq!(t[0][1], 0x77073096);
    assert_eq!(t[0][255], 0x2d02ef8d);
}

#[test]
fn table_shape() {
    let t = make_crc_table();
    assert_eq!(t.len(), 8);
    for tbl in &t {
        assert_eq!(tbl.len(), 256);
    }
}

#[test]
fn tables_fold_forward_one_zero_byte() {
    // Entry n of table k, for k in 1..4, is the table-0 transform
    // applied to the entry above it: one more trailing zero byte.
    let t = make_crc_table();
    for k in 1..4usize {
        for n in 0..256usize {
            let c = t[k - 1][n];
            let folded = t[0][(c & 0xff) as usize] ^ (c >> 8);
            assert_eq!(t[k][n], folded);
        }
    }
}

#[test]
fn tables_four_to_seven_are_byte_reversed() {
    let t = make_crc_table();
    for k in 0..4usize {
        for n in 0..256usize {
            assert_eq!(t[k + 4][n], zswap32(t[k][n]));
        }
    }
}

#[test]
fn byteswap_known_value() {
    assert_eq!(zswap32(0x12345678), 0x78563412);
    assert_eq!(zswap32(0x000000ff), 0xff000000);
    assert_eq!(zswap32(0), 0);
}

#[test]
fn byteswap_involution() {
    for x in [0u32, 1, 0x12345678, 0xedb88320, 0xffffffff, 0x80000001] {
        assert_eq!(zswap32(zswap32(x)), x);
    }
}

/// A simple deterministic byte generator for differential testing.
fn pseudo_bytes(len: usize, mut state: u32) -> Vec<u8> {
    let mut v = Vec::with_capacity(len);
    for _ in 0..len {
        state = state.wrapping_mul(1664525).wrapping_add(1013904223);
        v.push((state >> 24) as u8);
    }
    v
}

#[test]
fn accelerated_path_equals_byte_wise_path() {
    let seeds = [0u32, 1, 0xffffffff, 0x12345678];
    for len in 0..=100usize {
        let data = pseudo_bytes(len, len as u32 + 1);
        for &seed in &seeds {
            assert_eq!(crc32_little(seed, &data), crc32(seed, &data));
        }
    }
}

#[test]
fn accelerated_path_equals_byte_wise_path_long() {
    for len in [128usize, 333, 1000] {
        let data = pseudo_bytes(len, 0xabcdef01);
        for &seed in &[0u32, 0xffffffff] {
            assert_eq!(crc32_little(seed, &data), crc32(seed, &data));
        }
    }
}

#[test]
fn rendered_tables_head_and_first_line() {
    let t = make_crc_table();
    let s = write_tables(&t);
    let expected_head = "pub static CRC_TABLE: [[u32; 0x100]; 8] = [\n  [\n    \
                         0x00000000, 0x77073096, 0xee0e612c, 0x990951ba, 0x076dc419,\n";
    assert!(s.starts_with(expected_head));
}

#[test]
fn rendered_tables_shape_and_tail() {
    let t = make_crc_table();
    let s = write_tables(&t);
    assert!(s.ends_with("\n  ]\n];\n"));
    // One separating bracket line between each pair of tables.
    assert_eq!(s.matches("  ],\n [\n").count(), 7);
    // Every entry appears as fixed-width lowercase hexadecimal.
    assert_eq!(s.matches("0x").count(), 8 * 256 + 1);
    assert!(s.contains("0xedb88320"));
}

#[test]
fn rendered_tables_match_generated_values() {
    let t = make_crc_table();
    let s = write_tables(&t);
    // The renderer walks the tables in order; formatting each value by
    // hand must find them in the same order.
    let mut pos = 0;
    for tbl in &t {
        for &v in tbl.iter() {
            let formatted = format!("0x{:08x}", v);
            let found = s[pos..].find(&formatted).expect("entry missing");
            pos += found + formatted.len();
        }
    }
}
