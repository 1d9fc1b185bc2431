//! Text helpers: string building and decimal rendering.

use vstd::prelude::*;

verus! {

/// `String::push_str` appends the characters of `other` to the end of `s`.
pub assume_specification[ String::push_str ](s: &mut String, other: &str)
    ensures
        final(s)@ == old(s)@ + other@,
;

/// `str::eq` compares two string slices character by character.
pub assume_specification[ <str as PartialEq>::eq ](a: &str, b: &str) -> (r: bool)
    ensures
        r == (a@ == b@),
;

/// `String::push` appends the one character `c` to the end of `s`.
pub assume_specification[ String::push ](s: &mut String, c: char)
    ensures
        final(s)@ == old(s)@.push(c),
;

/// The character that stands for the decimal digit `d`.
pub open spec fn digit_char(d: nat) -> char {
    if d == 0 {
        '0'
    } else if d == 1 {
        '1'
    } else if d == 2 {
        '2'
    } else if d == 3 {
        '3'
    } else if d == 4 {
        '4'
    } else if d == 5 {
        '5'
    } else if d == 6 {
        '6'
    } else if d == 7 {
        '7'
    } else if d == 8 {
        '8'
    } else {
        '9'
    }
}

/// The decimal numeral of `n`, most significant digit first, without
/// leading zeros (`0` is written "0").
pub open spec fn decimal(n: nat) -> Seq<char>
    decreases n,
{
    if n < 10 {
        seq![digit_char(n)]
    } else {
        decimal(n / 10).push(digit_char(n % 10))
    }
}

fn digit_of(d: u64) -> (c: char)
    requires
        d < 10,
    ensures
        c == digit_char(d as nat),
{
    if d == 0 {
        '0'
    } else if d == 1 {
        '1'
    } else if d == 2 {
        '2'
    } else if d == 3 {
        '3'
    } else if d == 4 {
        '4'
    } else if d == 5 {
        '5'
    } else if d == 6 {
        '6'
    } else if d == 7 {
        '7'
    } else if d == 8 {
        '8'
    } else {
        '9'
    }
}

/// Appends the decimal numeral of `n` to `out`.
pub fn push_decimal(out: &mut String, n: u64)
    ensures
        final(out)@ == old(out)@ + decimal(n as nat),
    decreases n,
{
    if n >= 10 {
        push_decimal(out, n / 10);
    }
    out.push(digit_of(n % 10));
}

/// The decimal numeral of `n` as a string.
pub fn decimal_string(n: u64) -> (s: String)
    ensures
        s@ == decimal(n as nat),
{
    let mut s = String::new();
    push_decimal(&mut s, n);
    s
}

/// The decimal numeral of `n` in ASCII bytes.
pub open spec fn decimal_bytes(n: nat) -> Seq<u8>
    decreases n,
{
    if n < 10 {
        seq![(48 + n) as u8]
    } else {
        decimal_bytes(n / 10).push((48 + n % 10) as u8)
    }
}

/// The decimal numeral of `i` in ASCII bytes, with a minus sign where `i`
/// is negative.
pub open spec fn integer_bytes(i: int) -> Seq<u8> {
    if i < 0 {
        seq![45u8] + decimal_bytes((-i) as nat)
    } else {
        decimal_bytes(i as nat)
    }
}

/// `true` or `false`, in ASCII bytes.
pub open spec fn boolean_bytes(b: bool) -> Seq<u8> {
    if b {
        seq![116u8, 114u8, 117u8, 101u8]
    } else {
        seq![102u8, 97u8, 108u8, 115u8, 101u8]
    }
}

/// The parts in order, with `sep` between each two neighbours.
pub open spec fn joined(parts: Seq<Seq<u8>>, sep: Seq<u8>) -> Seq<u8>
    decreases parts.len(),
{
    if parts.len() == 0 {
        Seq::empty()
    } else if parts.len() == 1 {
        parts[0]
    } else {
        joined(parts.drop_last(), sep) + sep + parts.last()
    }
}

/// The parts in order, one after the other.
pub open spec fn flattened(parts: Seq<Seq<u8>>) -> Seq<u8> {
    joined(parts, Seq::empty())
}

/// What each row of a list holds.
pub open spec fn byte_rows(rows: Seq<Vec<u8>>) -> Seq<Seq<u8>> {
    Seq::new(rows.len(), |i: int| rows[i]@)
}

/// Appends `bytes` to `out`.
pub fn append_bytes(out: &mut Vec<u8>, bytes: &[u8])
    ensures
        final(out)@ == old(out)@ + bytes@,
{
    let mut i: usize = 0;
    while i < bytes.len()
        invariant
            i <= bytes.len(),
            out@ == old(out)@ + bytes@.subrange(0, i as int),
        decreases bytes.len() - i,
    {
        out.push(bytes[i]);
        assert(bytes@.subrange(0, i + 1) =~= bytes@.subrange(0, i as int).push(bytes@[i as int]));
        assert(out@ =~= old(out)@ + bytes@.subrange(0, i + 1));
        i += 1;
    }
    assert(bytes@.subrange(0, i as int) =~= bytes@);
}

/// Appends the decimal numeral of `n`, in ASCII, to `out`.
pub fn push_decimal_bytes(out: &mut Vec<u8>, n: u64)
    ensures
        final(out)@ == old(out)@ + decimal_bytes(n as nat),
    decreases n,
{
    if n >= 10 {
        push_decimal_bytes(out, n / 10);
    }
    let d: u8 = (n % 10) as u8;
    out.push(48 + d);
    assert(out@ =~= old(out)@ + decimal_bytes(n as nat));
}

/// Appends the decimal numeral of `i`, in ASCII, to `out`.
pub fn push_integer_bytes(out: &mut Vec<u8>, i: i64)
    ensures
        final(out)@ == old(out)@ + integer_bytes(i as int),
{
    if i < 0 {
        out.push(45);
        let m: u64 = (-(i + 1)) as u64 + 1;
        push_decimal_bytes(out, m);
        assert(out@ =~= old(out)@ + integer_bytes(i as int));
    } else {
        push_decimal_bytes(out, i as u64);
    }
}

/// Appends `true` or `false`, in ASCII, to `out`.
pub fn push_boolean_bytes(out: &mut Vec<u8>, b: bool)
    ensures
        final(out)@ == old(out)@ + boolean_bytes(b),
{
    if b {
        out.push(116u8);
        out.push(114u8);
        out.push(117u8);
        out.push(101u8);
    } else {
        out.push(102u8);
        out.push(97u8);
        out.push(108u8);
        out.push(115u8);
        out.push(101u8);
    }
    assert(out@ =~= old(out)@ + boolean_bytes(b));
}

/// The parts of `rows` in order, with the byte `sep` between each two
/// neighbours, appended to `out`.
pub fn append_joined(out: &mut Vec<u8>, rows: &Vec<Vec<u8>>, sep: Option<u8>)
    ensures
        final(out)@ == old(out)@ + joined(
            byte_rows(rows@),
            match sep {
                Some(b) => seq![b],
                None => Seq::empty(),
            },
        ),
{
    let ghost parts = byte_rows(rows@);
    let ghost between: Seq<u8> = match sep {
        Some(b) => seq![b],
        None => Seq::empty(),
    };
    let mut i: usize = 0;
    while i < rows.len()
        invariant
            i <= rows.len(),
            parts == byte_rows(rows@),
            between == (match sep {
                Some(b) => seq![b],
                None => Seq::<u8>::empty(),
            }),
            out@ == old(out)@ + joined(parts.subrange(0, i as int), between),
        decreases rows.len() - i,
    {
        let ghost before = out@;
        if i > 0 {
            match sep {
                Some(b) => {
                    out.push(b);
                },
                None => {},
            }
        }
        assert(out@ =~= if i > 0 {
            before + between
        } else {
            before
        });
        append_bytes(out, rows[i].as_slice());
        proof {
            let next = parts.subrange(0, i + 1);
            assert(next.drop_last() =~= parts.subrange(0, i as int));
            assert(next.last() == rows[i as int]@);
            assert(out@ =~= old(out)@ + joined(next, between));
        }
        i += 1;
    }
    assert(parts.subrange(0, i as int) =~= parts);
}

/// Whether `a` and `b` hold the same characters.
pub fn str_eq(a: &str, b: &str) -> (r: bool)
    ensures
        r == (a@ == b@),
{
    a.eq(b)
}

} // verus!
