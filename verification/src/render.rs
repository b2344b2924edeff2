//! Rendering of numbers into filename characters: fixed-width lowercase
//! hexadecimal and zero-padded decimal fields.

use vstd::prelude::*;

verus! {

/// The lowercase hexadecimal digit character for a value below 16.
pub open spec fn hex_digit_char(d: int) -> char {
    if d == 0 {
        '0'
    } else if d == 1 {
        '1'
    } else if d == 2 {
        '2'
    } else if d == 3 {
        '3'
    } else if d == 4 {
        '4'
    } else if d == 5 {
        '5'
    } else if d == 6 {
        '6'
    } else if d == 7 {
        '7'
    } else if d == 8 {
        '8'
    } else if d == 9 {
        '9'
    } else if d == 10 {
        'a'
    } else if d == 11 {
        'b'
    } else if d == 12 {
        'c'
    } else if d == 13 {
        'd'
    } else if d == 14 {
        'e'
    } else {
        'f'
    }
}

/// The decimal digit character for a value below 10.
pub open spec fn dec_digit_char(d: int) -> char {
    hex_digit_char(if 0 <= d < 10 {
        d
    } else {
        0
    })
}

/// The `i`-th hexadecimal digit (from the most significant of 16) of `n`.
pub open spec fn nibble(n: u64, i: int) -> u64 {
    (n >> (((15 - i) * 4) as u64)) & 0xf
}

/// `n` as exactly 16 lowercase hexadecimal digits, zero-padded.
pub open spec fn spec_hex16(n: u64) -> Seq<char> {
    Seq::new(16, |i: int| hex_digit_char(nibble(n, i) as int))
}

/// `n` as exactly two decimal digits, zero-padded (`n` taken modulo 100).
pub open spec fn spec_pad2(n: int) -> Seq<char> {
    seq![dec_digit_char((n / 10) % 10), dec_digit_char(n % 10)]
}

/// `n` as exactly four decimal digits, zero-padded (`n` taken modulo 10000).
pub open spec fn spec_pad4(n: int) -> Seq<char> {
    seq![
        dec_digit_char((n / 1000) % 10),
        dec_digit_char((n / 100) % 10),
        dec_digit_char((n / 10) % 10),
        dec_digit_char(n % 10),
    ]
}

pub fn hex_char(d: u8) -> (r: char)
    requires
        d < 16,
    ensures
        r == hex_digit_char(d as int),
{
    match d {
        0 => '0',
        1 => '1',
        2 => '2',
        3 => '3',
        4 => '4',
        5 => '5',
        6 => '6',
        7 => '7',
        8 => '8',
        9 => '9',
        10 => 'a',
        11 => 'b',
        12 => 'c',
        13 => 'd',
        14 => 'e',
        _ => 'f',
    }
}

pub fn dec_char(d: u8) -> (r: char)
    requires
        d < 10,
    ensures
        r == dec_digit_char(d as int),
{
    hex_char(d)
}

/// Appends the 16-digit lowercase hexadecimal form of `n` to `out`.
pub fn push_hex16(out: &mut Vec<char>, n: u64)
    ensures
        final(out)@ == old(out)@ + spec_hex16(n),
{
    let mut i: usize = 0;
    while i < 16
        invariant
            i <= 16,
            out@ == old(out)@ + spec_hex16(n).take(i as int),
        decreases 16 - i,
    {
        let sh: u64 = (60 - 4 * i) as u64;
        let d: u8 = ((n >> sh) & 0xf) as u8;
        proof {
            assert((n >> sh) & 0xf < 16) by (bit_vector);
            assert(sh == ((15 - i as int) * 4) as u64);
            assert(d == nibble(n, i as int));
        }
        out.push(hex_char(d));
        proof {
            assert(spec_hex16(n).take(i + 1) =~= spec_hex16(n).take(i as int).push(
                hex_digit_char(nibble(n, i as int) as int),
            ));
            assert(out@ =~= old(out)@ + spec_hex16(n).take(i + 1));
        }
        i += 1;
    }
    proof {
        assert(spec_hex16(n).take(16) =~= spec_hex16(n));
    }
}

/// Appends the two-digit zero-padded decimal form of `n` to `out`.
pub fn push_pad2(out: &mut Vec<char>, n: u64)
    requires
        n < 100,
    ensures
        final(out)@ == old(out)@ + spec_pad2(n as int),
{
    out.push(dec_char((n / 10) as u8));
    out.push(dec_char((n % 10) as u8));
    proof {
        assert((n as int / 10) % 10 == n as int / 10);
        assert(out@ =~= old(out)@ + spec_pad2(n as int));
    }
}

/// Appends the four-digit zero-padded decimal form of `n` to `out`.
pub fn push_pad4(out: &mut Vec<char>, n: u64)
    requires
        n < 10000,
    ensures
        final(out)@ == old(out)@ + spec_pad4(n as int),
{
    out.push(dec_char((n / 1000) as u8));
    out.push(dec_char((n / 100 % 10) as u8));
    out.push(dec_char((n / 10 % 10) as u8));
    out.push(dec_char((n % 10) as u8));
    proof {
        assert((n as int / 1000) % 10 == n as int / 1000);
        assert(out@ =~= old(out)@ + spec_pad4(n as int));
    }
}

} // verus!
