use vstd::prelude::*;

use crate::bits::BitMem;
use crate::bits::bit_seq;

verus! {

/// The character of one digit, decimal or hexadecimal.
pub open spec fn digit_char(d: int) -> char {
    if d == 0 {
        '0'
    } else if d == 1 {
        '1'
    } else if d == 2 {
        '2'
    } else if d == 3 {
        '3'
    } else if d == 4 {
        '4'
    } else if d == 5 {
        '5'
    } else if d == 6 {
        '6'
    } else if d == 7 {
        '7'
    } else if d == 8 {
        '8'
    } else if d == 9 {
        '9'
    } else if d == 10 {
        'a'
    } else if d == 11 {
        'b'
    } else if d == 12 {
        'c'
    } else if d == 13 {
        'd'
    } else if d == 14 {
        'e'
    } else {
        'f'
    }
}

/// The decimal notation of `v`, most significant digit first, without
/// leading zeroes.
pub open spec fn dec_rep(v: nat) -> Seq<char>
    decreases v,
{
    if v < 10 {
        seq![digit_char(v as int)]
    } else {
        dec_rep(v / 10) + seq![digit_char((v % 10) as int)]
    }
}

/// The hexadecimal notation of `v mod 16^w`, in exactly `w` digits.
pub open spec fn hex_rep(v: nat, w: nat) -> Seq<char>
    decreases w,
{
    if w == 0 {
        Seq::empty()
    } else {
        hex_rep(v / 16, (w - 1) as nat) + seq![digit_char((v % 16) as int)]
    }
}

/// The character of the digit `d`.
fn digit_char_of(d: u64) -> (r: char)
    requires
        d < 16,
    ensures
        r == digit_char(d as int),
{
    match d {
        0 => '0',
        1 => '1',
        2 => '2',
        3 => '3',
        4 => '4',
        5 => '5',
        6 => '6',
        7 => '7',
        8 => '8',
        9 => '9',
        10 => 'a',
        11 => 'b',
        12 => 'c',
        13 => 'd',
        14 => 'e',
        _ => 'f',
    }
}

/// Writes `v` in decimal.
pub fn dec_chars(v: u64) -> (r: Vec<char>)
    ensures
        r@ == dec_rep(v as nat),
    decreases v,
{
    if v < 10 {
        let mut out: Vec<char> = Vec::new();
        out.push(digit_char_of(v));
        proof {
            assert(out@ =~= dec_rep(v as nat));
        }
        out
    } else {
        let mut out = dec_chars(v / 10);
        out.push(digit_char_of(v % 10));
        proof {
            assert(out@ =~= dec_rep(v as nat));
        }
        out
    }
}

/// Writes the low `w` hexadecimal digits of `v`.
pub fn hex_chars(v: u64, w: usize) -> (r: Vec<char>)
    ensures
        r@ == hex_rep(v as nat, w as nat),
    decreases w,
{
    if w == 0 {
        let out: Vec<char> = Vec::new();
        proof {
            assert(out@ =~= hex_rep(v as nat, 0));
        }
        out
    } else {
        let mut out = hex_chars(v / 16, w - 1);
        out.push(digit_char_of(v % 16));
        proof {
            assert(out@ =~= hex_rep(v as nat, w as nat));
        }
        out
    }
}

/// Relies on `String`'s `FromIterator<char>`: collecting characters yields
/// the string of exactly those characters, in order.
#[verifier::external_body]
pub fn chars_to_string(v: &Vec<char>) -> (r: String)
    ensures
        r@ == v@,
{
    v.iter().collect()
}

/// One byte of a memory dump: the eight bits at `8 * b` as `0`/`1`
/// characters, padded at the end with `_` where the memory stops short.
pub open spec fn byte_str(m: Seq<bool>, b: int) -> Seq<char> {
    Seq::new(8, |j: int| if 8 * b + j < m.len() {
        if m[8 * b + j] {
            '1'
        } else {
            '0'
        }
    } else {
        '_'
    })
}

/// One line of a memory dump: the address of its first bit in hexadecimal,
/// then its four bytes; `_` pads bytes past the memory's end.
pub open spec fn mem_line(m: Seq<bool>, c: int) -> Seq<char> {
    "[ADDR 0x"@ + hex_rep((c * 32) as nat, 12) + "] "@ + byte_str(m, 4 * c) + " "@ + byte_str(
        m,
        4 * c + 1,
    ) + " "@ + byte_str(m, 4 * c + 2) + " "@ + byte_str(m, 4 * c + 3)
}

/// How many dump lines a memory of `len` bits fills: its bytes, the last
/// one possibly partial, grouped four to a line.
pub open spec fn mem_line_count(len: nat) -> nat {
    ((len + 7) / 8 + 3) / 4
}

fn dump_byte(m: &BitMem, b: usize, out: &mut Vec<char>)
    requires
        b <= u32::MAX,
    ensures
        final(out)@ == old(out)@ + byte_str(bit_seq(*m), b as int),
{
    let n = m.len();
    let mut j: usize = 0;
    while j < 8
        invariant
            j <= 8,
            b <= u32::MAX,
            n == bit_seq(*m).len(),
            out@ == old(out)@ + byte_str(bit_seq(*m), b as int).take(j as int),
        decreases 8 - j,
    {
        let idx = 8 * (b as u64) + j as u64;
        let c: char = if idx < n as u64 {
            if m.get(idx as usize) {
                '1'
            } else {
                '0'
            }
        } else {
            '_'
        };
        out.push(c);
        proof {
            assert(byte_str(bit_seq(*m), b as int).take(j + 1 as int) =~= byte_str(
                bit_seq(*m),
                b as int,
            ).take(j as int).push(byte_str(bit_seq(*m), b as int)[j as int]));
            assert(out@ =~= old(out)@ + byte_str(bit_seq(*m), b as int).take(j + 1 as int));
        }
        j = j + 1;
    }
    proof {
        assert(byte_str(bit_seq(*m), b as int).take(8) =~= byte_str(bit_seq(*m), b as int));
    }
}

/// The memory dump, line by line: each line shows the address of its first
/// bit and four bytes of `0`/`1` characters, with `_` padding past the
/// memory's end.
pub fn get_memory_strs(m: &BitMem) -> (r: Vec<String>)
    requires
        1 <= bit_seq(*m).len() <= u32::MAX,
    ensures
        r@.len() == mem_line_count(bit_seq(*m).len()),
        forall|c: int| 0 <= c < r@.len() ==> (#[trigger] r@[c])@ == mem_line(bit_seq(*m), c),
{
    let n = m.len();
    let num_bytes = (n as u64 + 7) / 8;
    let num_lines = ((num_bytes + 3) / 4) as usize;
    let mut out: Vec<String> = Vec::new();
    let mut c: usize = 0;
    while c < num_lines
        invariant
            c <= num_lines,
            n == bit_seq(*m).len(),
            1 <= n <= u32::MAX,
            num_lines == mem_line_count(n as nat),
            out@.len() == c,
            forall|k: int| 0 <= k < c ==> (#[trigger] out@[k])@ == mem_line(bit_seq(*m), k),
        decreases num_lines - c,
    {
        let mut line: Vec<char> = Vec::new();
        let header = "[ADDR 0x";
        let mut h: usize = 0;
        proof {
            reveal_strlit("[ADDR 0x");
        }
        let hn = header.unicode_len();
        while h < hn
            invariant
                h <= hn,
                hn == header@.len(),
                header@ == "[ADDR 0x"@,
                line@ == header@.take(h as int),
            decreases hn - h,
        {
            line.push(header.get_char(h));
            proof {
                assert(header@.take(h + 1 as int) =~= header@.take(h as int).push(
                    header@[h as int],
                ));
            }
            h = h + 1;
        }
        proof {
            assert(header@.take(hn as int) =~= header@);
        }
        let mut addr_digits = hex_chars((c as u64) * 32, 12);
        line.append(&mut addr_digits);
        line.push(']');
        line.push(' ');
        proof {
            assert("] "@ =~= seq![']', ' ']) by {
                reveal_strlit("] ");
            }
        }
        dump_byte(m, 4 * c, &mut line);
        line.push(' ');
        dump_byte(m, 4 * c + 1, &mut line);
        line.push(' ');
        dump_byte(m, 4 * c + 2, &mut line);
        line.push(' ');
        dump_byte(m, 4 * c + 3, &mut line);
        proof {
            assert(" "@ =~= seq![' ']) by {
                reveal_strlit(" ");
            }
            assert(line@ =~= mem_line(bit_seq(*m), c as int));
        }
        let s = chars_to_string(&line);
        out.push(s);
        c = c + 1;
    }
    out
}

} // verus!
