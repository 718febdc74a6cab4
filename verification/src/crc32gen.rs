use vstd::prelude::*;

verus! {

use vstd::string::StringExecFns;

use crate::model::bit_step;
use crate::model::bit_steps;
use crate::model::swap_spec;
use crate::model::table0_val;
use crate::model::table_val;
use crate::model::table_wf;
use crate::model::upd0;
use crate::model::updn;
use crate::model::POLY;

/// The 8x256 matrix of 32-bit words that drives the checksum engine.
pub type CrcTable = Vec<Vec<u32>>;

/// The matrix a table holds, row by row.
pub open spec fn crc_table_view(t: &CrcTable) -> Seq<Seq<u32>> {
    Seq::new(t@.len() as nat, |k: int| t@[k]@)
}

/// The term exponent at position `i` of the polynomial's term list
/// (the 14 exponents of the generator polynomial, except x^32).
pub open spec fn term_exp(i: int) -> u8 {
    if i == 0 {
        0
    } else if i == 1 {
        1
    } else if i == 2 {
        2
    } else if i == 3 {
        4
    } else if i == 4 {
        5
    } else if i == 5 {
        7
    } else if i == 6 {
        8
    } else if i == 7 {
        10
    } else if i == 8 {
        11
    } else if i == 9 {
        12
    } else if i == 10 {
        16
    } else if i == 11 {
        22
    } else if i == 12 {
        23
    } else {
        26
    }
}

/// The reduction pattern accumulated from the first `i` term exponents:
/// bit `31 - e` set for each exponent `e` among them.
pub open spec fn poly_prefix(i: int) -> u32
    decreases i,
{
    if i <= 0 {
        0
    } else {
        poly_prefix(i - 1) | (1u32 << ((31 - term_exp(i - 1)) as u32))
    }
}

/// The full reduction pattern is the familiar constant.
proof fn lemma_poly_prefix_value()
    ensures
        poly_prefix(14) == POLY,
{
    assert(poly_prefix(14) == 0xedb88320u32) by (bit_vector);
}

/// The term exponent at position `i` of the polynomial's term list.
fn term_at(i: usize) -> (t: u8)
    requires
        i < 14,
    ensures
        t == term_exp(i as int),
{
    match i {
        0 => 0,
        1 => 1,
        2 => 2,
        3 => 4,
        4 => 5,
        5 => 7,
        6 => 8,
        7 => 10,
        8 => 11,
        9 => 12,
        10 => 16,
        11 => 22,
        12 => 23,
        _ => 26,
    }
}

/// Derives the eight 256-entry tables from the polynomial's term
/// exponents: table 0 by bitwise polynomial division of every byte
/// value, tables 1 to 3 by folding table 0 forward one zero byte at a
/// time, and tables 4 to 7 as the byte-reversed counterparts.
pub fn make_crc_table() -> (t: CrcTable)
    ensures
        table_wf(crc_table_view(&t)),
{
    // Build the reduction pattern from the term exponents.
    let mut poly: u32 = 0;
    let mut i: usize = 0;
    while i < 14
        invariant
            i <= 14,
            poly == poly_prefix(i as int),
        decreases 14 - i,
    {
        let e = term_at(i);
        proof {
            assert(term_exp(i as int) <= 26);
        }
        poly = poly | (1u32 << ((31 - e) as u32));
        i += 1;
    }
    proof {
        lemma_poly_prefix_value();
    }

    // Table 0: the CRC of every 8-bit value, by shift-register division.
    let mut t0: Vec<u32> = Vec::new();
    let mut n: usize = 0;
    while n < 256
        invariant
            n <= 256,
            poly == POLY,
            t0@.len() == n,
            forall|j: int| 0 <= j < n ==> t0@[j] == table0_val(j as u8),
        decreases 256 - n,
    {
        let mut c: u32 = n as u32;
        let mut k: usize = 0;
        proof {
            assert(c == (n as u8) as u32);
        }
        while k < 8
            invariant
                k <= 8,
                n < 256,
                poly == POLY,
                bit_steps(c, (8 - k) as nat) == table0_val(n as u8),
            decreases 8 - k,
        {
            let c0 = c;
            c = if c & 1 != 0 {
                poly ^ (c >> 1u32)
            } else {
                c >> 1u32
            };
            proof {
                assert(c == bit_step(c0));
                assert(bit_steps(c0, (8 - k) as nat) == bit_steps(bit_step(c0), (8 - k - 1) as nat));
            }
            k += 1;
        }
        t0.push(c);
        n += 1;
    }

    // Tables 1 to 3 fold one more zero byte in at each stage; tables 4
    // to 7 are the byte reversals of tables 0 to 3.
    let mut t1: Vec<u32> = Vec::new();
    let mut t2: Vec<u32> = Vec::new();
    let mut t3: Vec<u32> = Vec::new();
    let mut t4: Vec<u32> = Vec::new();
    let mut t5: Vec<u32> = Vec::new();
    let mut t6: Vec<u32> = Vec::new();
    let mut t7: Vec<u32> = Vec::new();
    let mut n: usize = 0;
    while n < 256
        invariant
            n <= 256,
            t0@.len() == 256,
            forall|j: int| 0 <= j < 256 ==> t0@[j] == table0_val(j as u8),
            t1@.len() == n,
            t2@.len() == n,
            t3@.len() == n,
            t4@.len() == n,
            t5@.len() == n,
            t6@.len() == n,
            t7@.len() == n,
            forall|j: int| 0 <= j < n ==> t1@[j] == table_val(1, j as u8),
            forall|j: int| 0 <= j < n ==> t2@[j] == table_val(2, j as u8),
            forall|j: int| 0 <= j < n ==> t3@[j] == table_val(3, j as u8),
            forall|j: int| 0 <= j < n ==> t4@[j] == table_val(4, j as u8),
            forall|j: int| 0 <= j < n ==> t5@[j] == table_val(5, j as u8),
            forall|j: int| 0 <= j < n ==> t6@[j] == table_val(6, j as u8),
            forall|j: int| 0 <= j < n ==> t7@[j] == table_val(7, j as u8),
        decreases 256 - n,
    {
        let mut c: u32 = t0[n];
        t4.push(zswap32(c));
        proof {
            assert(updn(table0_val(n as u8), 0) == table0_val(n as u8));
        }

        proof {
            crate::lemmas::lemma_low_byte_bound(c);
        }
        let c1 = c;
        c = t0[(c & 0xff) as usize] ^ (c >> 8u32);
        proof {
            assert(c == upd0(c1));
            crate::lemmas::lemma_updn_succ(table0_val(n as u8), 0);
        }
        t1.push(c);
        t5.push(zswap32(c));

        proof {
            crate::lemmas::lemma_low_byte_bound(c);
        }
        let c2 = c;
        c = t0[(c & 0xff) as usize] ^ (c >> 8u32);
        proof {
            assert(c == upd0(c2));
            crate::lemmas::lemma_updn_succ(table0_val(n as u8), 1);
        }
        t2.push(c);
        t6.push(zswap32(c));

        proof {
            crate::lemmas::lemma_low_byte_bound(c);
        }
        let c3 = c;
        c = t0[(c & 0xff) as usize] ^ (c >> 8u32);
        proof {
            assert(c == upd0(c3));
            crate::lemmas::lemma_updn_succ(table0_val(n as u8), 2);
        }
        t3.push(c);
        t7.push(zswap32(c));

        n += 1;
    }

    let mut t: CrcTable = Vec::new();
    t.push(t0);
    t.push(t1);
    t.push(t2);
    t.push(t3);
    t.push(t4);
    t.push(t5);
    t.push(t6);
    t.push(t7);
    proof {
        assert forall|k: int, m: int|
            0 <= k < 8 && 0 <= m < 256 implies #[trigger] crc_table_view(&t)[k][m] == table_val(
            k,
            m as u8,
        ) by {
            assert(updn(table0_val(m as u8), 0) == table0_val(m as u8));
        }
    }
    t
}

/// The lowercase character of one hexadecimal digit value.
pub open spec fn hex_char(d: u32) -> char {
    if d == 0 {
        '0'
    } else if d == 1 {
        '1'
    } else if d == 2 {
        '2'
    } else if d == 3 {
        '3'
    } else if d == 4 {
        '4'
    } else if d == 5 {
        '5'
    } else if d == 6 {
        '6'
    } else if d == 7 {
        '7'
    } else if d == 8 {
        '8'
    } else if d == 9 {
        '9'
    } else if d == 10 {
        'a'
    } else if d == 11 {
        'b'
    } else if d == 12 {
        'c'
    } else if d == 13 {
        'd'
    } else if d == 14 {
        'e'
    } else {
        'f'
    }
}

/// The eight lowercase hexadecimal digits of `x`, most significant first.
pub open spec fn hex8_chars(x: u32) -> Seq<char> {
    seq![
        hex_char((x >> 28) & 0xf),
        hex_char((x >> 24) & 0xf),
        hex_char((x >> 20) & 0xf),
        hex_char((x >> 16) & 0xf),
        hex_char((x >> 12) & 0xf),
        hex_char((x >> 8) & 0xf),
        hex_char((x >> 4) & 0xf),
        hex_char(x & 0xf),
    ]
}

/// The text of entry `n` holding value `v`: indentation at the start of
/// each five-entry line, the value in 0x-prefixed fixed-width lowercase
/// hexadecimal, and the separator that follows it.
pub open spec fn entry_chars(n: int, v: u32) -> Seq<char> {
    (if n % 5 == 0 {
        "    "@
    } else {
        Seq::<char>::empty()
    }) + "0x"@ + hex8_chars(v) + (if n == 255 {
        "\n"@
    } else if n % 5 == 4 {
        ",\n"@
    } else {
        ", "@
    })
}

/// The text of the first `n` entries of one table.
pub open spec fn table_prefix_chars(tbl: Seq<u32>, n: int) -> Seq<char>
    decreases n,
{
    if n <= 0 {
        Seq::<char>::empty()
    } else {
        table_prefix_chars(tbl, n - 1) + entry_chars(n - 1, tbl[n - 1])
    }
}

/// The full text of one 256-entry table.
pub open spec fn table_chars(tbl: Seq<u32>) -> Seq<char> {
    table_prefix_chars(tbl, 256)
}

/// The text of the declaration's head and the first `k` tables, each
/// table after the first preceded by its separating bracket line.
pub open spec fn tables_prefix_chars(t: Seq<Seq<u32>>, k: int) -> Seq<char>
    decreases k,
{
    if k <= 0 {
        "pub static CRC_TABLE: [[u32; 0x100]; 8] = [\n  [\n"@
    } else {
        tables_prefix_chars(t, k - 1) + (if k == 1 {
            Seq::<char>::empty()
        } else {
            "  ],\n [\n"@
        }) + table_chars(t[k - 1])
    }
}

/// The full text of the generated table source: eight tables between
/// the declaration's head and its closing brackets.
pub open spec fn tables_chars(t: Seq<Seq<u32>>) -> Seq<char> {
    tables_prefix_chars(t, 8) + "  ]\n];\n"@
}

/// Appends the lowercase character of the hexadecimal digit `d`.
fn append_hex_digit(s: &mut String, d: u32)
    requires
        d < 16,
    ensures
        final(s)@ == old(s)@ + seq![hex_char(d)],
{
    if d == 0 {
        proof {
            reveal_strlit("0");
            assert("0"@ =~= seq![hex_char(d)]);
        }
        s.append("0");
    } else if d == 1 {
        proof {
            reveal_strlit("1");
            assert("1"@ =~= seq![hex_char(d)]);
        }
        s.append("1");
    } else if d == 2 {
        proof {
            reveal_strlit("2");
            assert("2"@ =~= seq![hex_char(d)]);
        }
        s.append("2");
    } else if d == 3 {
        proof {
            reveal_strlit("3");
            assert("3"@ =~= seq![hex_char(d)]);
        }
        s.append("3");
    } else if d == 4 {
        proof {
            reveal_strlit("4");
            assert("4"@ =~= seq![hex_char(d)]);
        }
        s.append("4");
    } else if d == 5 {
        proof {
            reveal_strlit("5");
            assert("5"@ =~= seq![hex_char(d)]);
        }
        s.append("5");
    } else if d == 6 {
        proof {
            reveal_strlit("6");
            assert("6"@ =~= seq![hex_char(d)]);
        }
        s.append("6");
    } else if d == 7 {
        proof {
            reveal_strlit("7");
            assert("7"@ =~= seq![hex_char(d)]);
        }
        s.append("7");
    } else if d == 8 {
        proof {
            reveal_strlit("8");
            assert("8"@ =~= seq![hex_char(d)]);
        }
        s.append("8");
    } else if d == 9 {
        proof {
            reveal_strlit("9");
            assert("9"@ =~= seq![hex_char(d)]);
        }
        s.append("9");
    } else if d == 10 {
        proof {
            reveal_strlit("a");
            assert("a"@ =~= seq![hex_char(d)]);
        }
        s.append("a");
    } else if d == 11 {
        proof {
            reveal_strlit("b");
            assert("b"@ =~= seq![hex_char(d)]);
        }
        s.append("b");
    } else if d == 12 {
        proof {
            reveal_strlit("c");
            assert("c"@ =~= seq![hex_char(d)]);
        }
        s.append("c");
    } else if d == 13 {
        proof {
            reveal_strlit("d");
            assert("d"@ =~= seq![hex_char(d)]);
        }
        s.append("d");
    } else if d == 14 {
        proof {
            reveal_strlit("e");
            assert("e"@ =~= seq![hex_char(d)]);
        }
        s.append("e");
    } else {
        proof {
            reveal_strlit("f");
            assert("f"@ =~= seq![hex_char(d)]);
        }
        s.append("f");
    }
}

/// Appends the eight hexadecimal digits of `v`, most significant first.
fn append_hex8(s: &mut String, v: u32)
    ensures
        final(s)@ == old(s)@ + hex8_chars(v),
{
    proof {
        crate::lemmas::lemma_nibble_bounds(v);
    }
    append_hex_digit(s, (v >> 28u32) & 0xf);
    append_hex_digit(s, (v >> 24u32) & 0xf);
    append_hex_digit(s, (v >> 20u32) & 0xf);
    append_hex_digit(s, (v >> 16u32) & 0xf);
    append_hex_digit(s, (v >> 12u32) & 0xf);
    append_hex_digit(s, (v >> 8u32) & 0xf);
    append_hex_digit(s, (v >> 4u32) & 0xf);
    append_hex_digit(s, v & 0xf);
    proof {
        assert(s@ =~= old(s)@ + hex8_chars(v));
    }
}

/// Appends the text of one 256-entry table, five entries per line.
fn write_table(s: &mut String, table: &Vec<u32>)
    requires
        table@.len() == 256,
    ensures
        final(s)@ == old(s)@ + table_chars(table@),
{
    let mut n: usize = 0;
    while n < 256
        invariant
            table@.len() == 256,
            n <= 256,
            s@ == old(s)@ + table_prefix_chars(table@, n as int),
        decreases 256 - n,
    {
        let ghost before = s@;
        if n % 5 == 0 {
            s.append("    ");
        }
        s.append("0x");
        append_hex8(s, table[n]);
        if n == 255 {
            s.append("\n");
        } else if n % 5 == 4 {
            s.append(",\n");
        } else {
            s.append(", ");
        }
        proof {
            assert(s@ =~= before + entry_chars(n as int, table@[n as int]));
            assert(table_prefix_chars(table@, n + 1) == table_prefix_chars(table@, n as int)
                + entry_chars(n as int, table@[n as int]));
            assert(s@ =~= old(s)@ + table_prefix_chars(table@, n + 1));
        }
        n += 1;
    }
}

/// Renders the whole matrix as Rust source text declaring it as a
/// constant: eight bracketed tables of 256 entries in 0x-prefixed
/// fixed-width lowercase hexadecimal, five per line.
pub fn write_tables(crc_table: &CrcTable) -> (s: String)
    requires
        crc_table@.len() == 8,
        forall|k: int| 0 <= k < 8 ==> (#[trigger] crc_table@[k])@.len() == 256,
    ensures
        s@ == tables_chars(crc_table_view(crc_table)),
{
    let ghost v = crc_table_view(crc_table);
    let mut s = String::new();
    s.append("pub static CRC_TABLE: [[u32; 0x100]; 8] = [\n  [\n");
    proof {
        assert(s@ =~= tables_prefix_chars(v, 0));
        assert(v[0] == crc_table@[0]@);
    }
    write_table(&mut s, &crc_table[0]);
    proof {
        assert(s@ =~= tables_prefix_chars(v, 1));
    }
    let mut k: usize = 1;
    while k < 8
        invariant
            1 <= k <= 8,
            crc_table@.len() == 8,
            forall|j: int| 0 <= j < 8 ==> (#[trigger] crc_table@[j])@.len() == 256,
            v == crc_table_view(crc_table),
            s@ == tables_prefix_chars(v, k as int),
        decreases 8 - k,
    {
        let ghost before = s@;
        s.append("  ],\n [\n");
        proof {
            assert(v[k as int] == crc_table@[k as int]@);
        }
        write_table(&mut s, &crc_table[k]);
        proof {
            assert(s@ =~= before + "  ],\n [\n"@ + table_chars(v[k as int]));
            assert(s@ =~= tables_prefix_chars(v, k + 1));
        }
        k += 1;
    }
    s.append("  ]\n];\n");
    proof {
        assert(s@ =~= tables_chars(v));
    }
    s
}

/// Reverses the byte order of a 32-bit word.
pub fn zswap32(n: u32) -> (r: u32)
    ensures
        r == swap_spec(n),
{
    proof {
        assert((n << 24u32) | ((n << 8u32) & 0x00ff0000u32) | ((n >> 8u32) & 0x0000ff00u32) | ((n
            >> 24u32) & 0x000000ffu32) == swap_spec(n)) by (bit_vector);
    }
    (n << 24u32) | ((n << 8u32) & 0x00ff0000u32) | ((n >> 8u32) & 0x0000ff00u32) | ((n >> 24u32)
        & 0x000000ffu32)
}

} // verus!
