//! Looking ahead in a cursor, and a hex dump of bytes, sixteen to a row, for
//! the eyes of whoever debugs a log.
use vstd::prelude::*;
use vstd::string::StringExecFns;

use crate::cursor::Cursor;
use crate::decode::Decode;

verus! {

/// The width of the size field of a message.
pub const U32_SIZE: usize = 4;

/// The `u8` at the cursor, which stays where it is.
pub fn peek_u8(buffer: &mut Cursor) -> (n: u8)
    requires
        u8::parse(old(buffer).content(), old(buffer).offset()) is Ok,
    ensures
        final(buffer).content() == old(buffer).content(),
        final(buffer).offset() == old(buffer).offset(),
        u8::parse(old(buffer).content(), old(buffer).offset()) matches Ok((v, _)) && v == n,
{
    let start: usize = buffer.position();
    match u8::decode(buffer) {
        Ok(n) => {
            buffer.set_position(start);
            n
        },
        Err(_) => 0,
    }
}

/// The `u16` at the cursor, which stays where it is.
pub fn peek_u16(buffer: &mut Cursor) -> (n: u16)
    requires
        u16::parse(old(buffer).content(), old(buffer).offset()) is Ok,
    ensures
        final(buffer).content() == old(buffer).content(),
        final(buffer).offset() == old(buffer).offset(),
        u16::parse(old(buffer).content(), old(buffer).offset()) matches Ok((v, _)) && v == n,
{
    let start: usize = buffer.position();
    match u16::decode(buffer) {
        Ok(n) => {
            buffer.set_position(start);
            n
        },
        Err(_) => 0,
    }
}

/// The `u32` at the cursor, which stays where it is.
pub fn peek_u32(buffer: &mut Cursor) -> (n: u32)
    requires
        u32::parse(old(buffer).content(), old(buffer).offset()) is Ok,
    ensures
        final(buffer).content() == old(buffer).content(),
        final(buffer).offset() == old(buffer).offset(),
        u32::parse(old(buffer).content(), old(buffer).offset()) matches Ok((v, _)) && v == n,
{
    let start: usize = buffer.position();
    match u32::decode(buffer) {
        Ok(n) => {
            buffer.set_position(start);
            n
        },
        Err(_) => 0,
    }
}

/// The `u64` at the cursor, which stays where it is.
pub fn peek_u64(buffer: &mut Cursor) -> (n: u64)
    requires
        u64::parse(old(buffer).content(), old(buffer).offset()) is Ok,
    ensures
        final(buffer).content() == old(buffer).content(),
        final(buffer).offset() == old(buffer).offset(),
        u64::parse(old(buffer).content(), old(buffer).offset()) matches Ok((v, _)) && v == n,
{
    let start: usize = buffer.position();
    match u64::decode(buffer) {
        Ok(n) => {
            buffer.set_position(start);
            n
        },
        Err(_) => 0,
    }
}

/// The `i8` at the cursor, which stays where it is.
pub fn peek_i8(buffer: &mut Cursor) -> (n: i8)
    requires
        i8::parse(old(buffer).content(), old(buffer).offset()) is Ok,
    ensures
        final(buffer).content() == old(buffer).content(),
        final(buffer).offset() == old(buffer).offset(),
        i8::parse(old(buffer).content(), old(buffer).offset()) matches Ok((v, _)) && v == n,
{
    let start: usize = buffer.position();
    match i8::decode(buffer) {
        Ok(n) => {
            buffer.set_position(start);
            n
        },
        Err(_) => 0,
    }
}

/// The `i16` at the cursor, which stays where it is.
pub fn peek_i16(buffer: &mut Cursor) -> (n: i16)
    requires
        i16::parse(old(buffer).content(), old(buffer).offset()) is Ok,
    ensures
        final(buffer).content() == old(buffer).content(),
        final(buffer).offset() == old(buffer).offset(),
        i16::parse(old(buffer).content(), old(buffer).offset()) matches Ok((v, _)) && v == n,
{
    let start: usize = buffer.position();
    match i16::decode(buffer) {
        Ok(n) => {
            buffer.set_position(start);
            n
        },
        Err(_) => 0,
    }
}

/// The `i32` at the cursor, which stays where it is.
pub fn peek_i32(buffer: &mut Cursor) -> (n: i32)
    requires
        i32::parse(old(buffer).content(), old(buffer).offset()) is Ok,
    ensures
        final(buffer).content() == old(buffer).content(),
        final(buffer).offset() == old(buffer).offset(),
        i32::parse(old(buffer).content(), old(buffer).offset()) matches Ok((v, _)) && v == n,
{
    let start: usize = buffer.position();
    match i32::decode(buffer) {
        Ok(n) => {
            buffer.set_position(start);
            n
        },
        Err(_) => 0,
    }
}

/// The `i64` at the cursor, which stays where it is.
pub fn peek_i64(buffer: &mut Cursor) -> (n: i64)
    requires
        i64::parse(old(buffer).content(), old(buffer).offset()) is Ok,
    ensures
        final(buffer).content() == old(buffer).content(),
        final(buffer).offset() == old(buffer).offset(),
        i64::parse(old(buffer).content(), old(buffer).offset()) matches Ok((v, _)) && v == n,
{
    let start: usize = buffer.position();
    match i64::decode(buffer) {
        Ok(n) => {
            buffer.set_position(start);
            n
        },
        Err(_) => 0,
    }
}

/// The hexadecimal digit of a number below sixteen, in lower case.
pub open spec fn hex_digit(d: nat) -> char {
    if d == 0 {
        '0'
    } else if d == 1 {
        '1'
    } else if d == 2 {
        '2'
    } else if d == 3 {
        '3'
    } else if d == 4 {
        '4'
    } else if d == 5 {
        '5'
    } else if d == 6 {
        '6'
    } else if d == 7 {
        '7'
    } else if d == 8 {
        '8'
    } else if d == 9 {
        '9'
    } else if d == 10 {
        'a'
    } else if d == 11 {
        'b'
    } else if d == 12 {
        'c'
    } else if d == 13 {
        'd'
    } else if d == 14 {
        'e'
    } else {
        'f'
    }
}

/// The hexadecimal digits of a number, most significant first, without leading zeros.
pub open spec fn hex_digits(n: nat) -> Seq<char>
    decreases n,
{
    if n < 16 {
        seq![hex_digit(n)]
    } else {
        hex_digits(n / 16).push(hex_digit(n % 16))
    }
}

/// A number in hexadecimal with at least two digits.
pub open spec fn hex_text(n: nat) -> Seq<char> {
    if n < 16 {
        seq!['0'] + hex_digits(n)
    } else {
        hex_digits(n)
    }
}

/// The first line of a dump: three spaces, then the column numbers of the
/// first row, each followed by a space.
pub open spec fn dump_header(columns: nat) -> Seq<char>
    decreases columns,
{
    if columns == 0 {
        seq![' ', ' ', ' ']
    } else {
        dump_header((columns - 1) as nat) + hex_text((columns - 1) as nat) + seq![' ']
    }
}

/// The rows of a dump as far as the first `k` bytes fill them. Each byte is
/// followed by a space; in front of every sixteenth byte stands its index
/// and a space, and behind the last byte of a full row a line feed.
pub open spec fn dump_rows(bytes: Seq<u8>, k: nat) -> Seq<char>
    decreases k,
{
    if k == 0 {
        Seq::empty()
    } else {
        let i = (k - 1) as nat;
        dump_rows(bytes, i) + (if i % 16 == 0 {
            hex_text(i) + seq![' ']
        } else {
            Seq::empty()
        }) + hex_text(bytes[i as int] as nat) + seq![' '] + (if k % 16 == 0 {
            seq!['\n']
        } else {
            Seq::empty()
        })
    }
}

/// The dump of bytes: the header line, the rows, and a line feed behind a
/// last row that is not full.
pub open spec fn dump_text(bytes: Seq<u8>) -> Seq<char> {
    dump_header(if bytes.len() < 16 { bytes.len() } else { 16 }) + seq!['\n'] + dump_rows(
        bytes,
        bytes.len(),
    ) + (if bytes.len() % 16 != 0 {
        seq!['\n']
    } else {
        Seq::empty()
    })
}

fn hex_digit_text(d: usize) -> (r: &'static str)
    requires
        d < 16,
    ensures
        r@ == seq![hex_digit(d as nat)],
{
    proof {
        reveal_strlit("0");
        reveal_strlit("1");
        reveal_strlit("2");
        reveal_strlit("3");
        reveal_strlit("4");
        reveal_strlit("5");
        reveal_strlit("6");
        reveal_strlit("7");
        reveal_strlit("8");
        reveal_strlit("9");
        reveal_strlit("a");
        reveal_strlit("b");
        reveal_strlit("c");
        reveal_strlit("d");
        reveal_strlit("e");
        reveal_strlit("f");
    }
    let r = if d == 0 {
        "0"
    } else if d == 1 {
        "1"
    } else if d == 2 {
        "2"
    } else if d == 3 {
        "3"
    } else if d == 4 {
        "4"
    } else if d == 5 {
        "5"
    } else if d == 6 {
        "6"
    } else if d == 7 {
        "7"
    } else if d == 8 {
        "8"
    } else if d == 9 {
        "9"
    } else if d == 10 {
        "a"
    } else if d == 11 {
        "b"
    } else if d == 12 {
        "c"
    } else if d == 13 {
        "d"
    } else if d == 14 {
        "e"
    } else {
        "f"
    };
    assert(r@ =~= seq![hex_digit(d as nat)]);
    r
}

/// Appends the hexadecimal digits of `n`.
fn push_hex_digits(out: &mut String, n: usize)
    ensures
        final(out)@ == old(out)@ + hex_digits(n as nat),
    decreases n,
{
    if n >= 16 {
        push_hex_digits(out, n / 16);
    }
    out.append(hex_digit_text(n % 16));
    assert(out@ =~= old(out)@ + hex_digits(n as nat));
}

/// Appends `n` in hexadecimal with at least two digits.
pub fn push_hex(out: &mut String, n: usize)
    ensures
        final(out)@ == old(out)@ + hex_text(n as nat),
{
    if n < 16 {
        proof {
            reveal_strlit("0");
        }
        out.append("0");
    }
    push_hex_digits(out, n);
    assert(out@ =~= old(out)@ + hex_text(n as nat));
}

/// Lays bytes out as a hex dump: a header of column numbers, then rows of
/// sixteen bytes, each row behind the index of its first byte.
pub fn display_bytes(bytes: &[u8]) -> (s: String)
    ensures
        s@ == dump_text(bytes@),
{
    proof {
        reveal_strlit("   ");
        reveal_strlit(" ");
        reveal_strlit("\n");
    }
    let mut s = String::from_str("   ");
    let columns: usize = if bytes.len() < 16 {
        bytes.len()
    } else {
        16
    };
    let mut i: usize = 0;
    assert(s@ =~= dump_header(0));
    while i < columns
        invariant
            i <= columns,
            s@ == dump_header(i as nat),
            " "@ == seq![' '],
        decreases columns - i,
    {
        push_hex(&mut s, i);
        s.append(" ");
        i = i + 1;
    }
    s.append("\n");
    let ghost head = s@;
    let mut k: usize = 0;
    assert(s@ =~= head + dump_rows(bytes@, 0));
    while k < bytes.len()
        invariant
            k <= bytes@.len(),
            s@ == head + dump_rows(bytes@, k as nat),
            " "@ == seq![' '],
            "\n"@ == seq!['\n'],
        decreases bytes@.len() - k,
    {
        let ghost before = s@;
        if k % 16 == 0 {
            push_hex(&mut s, k);
            s.append(" ");
        }
        push_hex(&mut s, bytes[k] as usize);
        s.append(" ");
        k = k + 1;
        if k % 16 == 0 {
            s.append("\n");
        }
        assert(s@ =~= head + dump_rows(bytes@, k as nat));
    }
    if k % 16 != 0 {
        s.append("\n");
    }
    assert(s@ =~= dump_text(bytes@));
    s
}

} // verus!
