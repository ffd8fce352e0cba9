//! Rendering of values as SQL literals.

use vstd::prelude::*;
use vstd::utf8::{valid_utf8, decode_utf8};
use crate::value::{Value, ValueView};

verus! {

/// Relies on `std::str::from_utf8`: it accepts exactly the valid UTF-8 byte
/// strings, and the characters are those the bytes encode.
#[verifier::external_body]
fn utf8_chars(b: &[u8]) -> (r: Option<Vec<char>>)
    ensures
        r is Some <==> valid_utf8(b@),
        r matches Some(c) ==> c@ == decode_utf8(b@),
{
    std::str::from_utf8(b).ok().map(|s| s.chars().collect())
}

/// Relies on `String`'s `FromIterator<char>`: the string holds the characters
/// in order.
#[verifier::external_body]
fn string_of(c: &Vec<char>) -> (r: String)
    ensures
        r@ == c@,
{
    c.iter().collect()
}

/// The hexadecimal digit of `d`, in upper case.
pub open spec fn hex_digit(d: nat) -> char {
    seq!['0', '1', '2', '3', '4', '5', '6', '7', '8', '9', 'A', 'B', 'C', 'D', 'E', 'F'][d as int]
}

/// The decimal digits of `n`.
pub open spec fn dec_chars(n: nat) -> Seq<char>
    decreases n,
{
    if n < 10 {
        seq![hex_digit(n)]
    } else {
        dec_chars(n / 10).push(hex_digit(n % 10))
    }
}

/// The decimal digits of `n`, with zeros before them up to `w` characters.
#[verifier::opaque]
pub open spec fn padded(n: nat, w: nat) -> Seq<char> {
    let d = dec_chars(n);
    if d.len() >= w {
        d
    } else {
        Seq::new((w - d.len()) as nat, |i: int| '0') + d
    }
}

/// The decimal form of `x`, with a minus sign when it is negative.
pub open spec fn signed_chars(x: int) -> Seq<char> {
    if x < 0 {
        seq!['-'] + dec_chars((-x) as nat)
    } else {
        dec_chars(x as nat)
    }
}

/// `s` with a backslash before each single quote.
pub open spec fn escape_quotes(s: Seq<char>) -> Seq<char>
    decreases s.len(),
{
    if s.len() == 0 {
        Seq::empty()
    } else {
        escape_quotes(s.drop_last()) + if s.last() == '\'' {
            seq!['\\', '\'']
        } else {
            seq![s.last()]
        }
    }
}

/// Two upper-case hexadecimal digits for each byte.
pub open spec fn hex_chars(b: Seq<u8>) -> Seq<char>
    decreases b.len(),
{
    if b.len() == 0 {
        Seq::empty()
    } else {
        hex_chars(b.drop_last()) + seq![hex_digit(b.last() as nat / 16), hex_digit(b.last() as nat % 16)]
    }
}

/// `s` between single quotes.
pub open spec fn quoted(s: Seq<char>) -> Seq<char> {
    seq!['\''] + s + seq!['\'']
}

/// `.ffffff` for non-zero microseconds, nothing for zero.
pub open spec fn micros_chars(u: u32) -> Seq<char> {
    if u == 0 {
        Seq::empty()
    } else {
        seq!['.'] + padded(u as nat, 6)
    }
}

/// `YYYY-MM-DD`, then ` HH:MM:SS[.ffffff]` unless the time of day is zero.
pub open spec fn date_chars(y: u16, m: u8, d: u8, h: u8, i: u8, s: u8, u: u32) -> Seq<char> {
    padded(y as nat, 4) + seq!['-'] + padded(m as nat, 2) + seq!['-'] + padded(d as nat, 2) + if h
        == 0 && i == 0 && s == 0 && u == 0 {
        Seq::empty()
    } else {
        seq![' '] + padded(h as nat, 2) + seq![':'] + padded(i as nat, 2) + seq![':'] + padded(
            s as nat,
            2,
        ) + micros_chars(u)
    }
}

/// `[-]D HHH:MM:SS[.ffffff]`.
pub open spec fn time_chars(neg: bool, d: u32, h: u8, i: u8, s: u8, u: u32) -> Seq<char> {
    (if neg {
        seq!['-']
    } else {
        Seq::empty()
    }) + dec_chars(d as nat) + seq![' '] + padded(h as nat, 3) + seq![':'] + padded(i as nat, 2)
        + seq![':'] + padded(s as nat, 2) + micros_chars(u)
}

/// The SQL text of a value. A double has none here: its decimal form is left
/// to floating-point formatting.
pub open spec fn text_of(v: ValueView) -> Option<Seq<char>> {
    match v {
        ValueView::NULL => Some(seq!['N', 'U', 'L', 'L']),
        ValueView::Bytes(b) => Some(
            if valid_utf8(b) {
                quoted(escape_quotes(decode_utf8(b)))
            } else {
                seq!['0', 'x'] + hex_chars(b)
            },
        ),
        ValueView::Int(x) => Some(signed_chars(x as int)),
        ValueView::UInt(x) => Some(dec_chars(x as nat)),
        ValueView::Float(_) => None,
        ValueView::Date(y, m, d, h, i, s, u) => Some(
            if y == 0 && m == 0 && d == 0 && h == 0 && i == 0 && s == 0 && u == 0 {
                seq!['\'', '\'']
            } else {
                quoted(date_chars(y, m, d, h, i, s, u))
            },
        ),
        ValueView::Time(neg, d, h, i, s, u) => Some(
            if d == 0 && h == 0 && i == 0 && s == 0 && u == 0 {
                seq!['\'', '\'']
            } else {
                quoted(time_chars(neg, d, h, i, s, u))
            },
        ),
    }
}

fn hex_char(d: u8) -> (c: char)
    requires
        d < 16,
    ensures
        c == hex_digit(d as nat),
{
    match d {
        0 => '0',
        1 => '1',
        2 => '2',
        3 => '3',
        4 => '4',
        5 => '5',
        6 => '6',
        7 => '7',
        8 => '8',
        9 => '9',
        10 => 'A',
        11 => 'B',
        12 => 'C',
        13 => 'D',
        14 => 'E',
        _ => 'F',
    }
}

/// Appends the decimal digits of `n`.
fn push_dec(out: &mut Vec<char>, n: u64)
    ensures
        final(out)@ == old(out)@ + dec_chars(n as nat),
    decreases n,
{
    if n >= 10 {
        push_dec(out, n / 10);
    }
    out.push(hex_char((n % 10) as u8));
    assert(out@ =~= old(out)@ + dec_chars(n as nat));
}

/// Appends the decimal digits of `n`, zero-padded to `w` characters.
fn push_padded(out: &mut Vec<char>, n: u64, w: usize)
    ensures
        final(out)@ == old(out)@ + padded(n as nat, w as nat),
{
    let mut digits: Vec<char> = Vec::new();
    push_dec(&mut digits, n);
    assert(digits@ =~= dec_chars(n as nat));
    let mut k: usize = digits.len();
    while k < w
        invariant
            digits@.len() <= k <= w || (k == digits@.len() && k >= w),
            out@ == old(out)@ + Seq::new((k - digits@.len()) as nat, |i: int| '0'),
        decreases w - k,
    {
        out.push('0');
        k = k + 1;
        assert(out@ =~= old(out)@ + Seq::new((k - digits@.len()) as nat, |i: int| '0'));
    }
    let ghost before = out@;
    let mut j: usize = 0;
    while j < digits.len()
        invariant
            j <= digits@.len(),
            out@ == before + digits@.take(j as int),
        decreases digits.len() - j,
    {
        out.push(digits[j]);
        j = j + 1;
        assert(out@ =~= before + digits@.take(j as int));
    }
    assert(digits@.take(digits@.len() as int) =~= digits@);
    reveal(padded);
    assert(out@ =~= old(out)@ + padded(n as nat, w as nat));
}

fn push_colon_time(out: &mut Vec<char>, h: u8, hw: usize, i: u8, s: u8, u: u32)
    ensures
        final(out)@ == old(out)@ + padded(h as nat, hw as nat) + seq![':'] + padded(i as nat, 2)
            + seq![':'] + padded(s as nat, 2) + micros_chars(u),
{
    push_padded(out, h as u64, hw);
    out.push(':');
    push_padded(out, i as u64, 2);
    out.push(':');
    push_padded(out, s as u64, 2);
    if u != 0 {
        out.push('.');
        push_padded(out, u as u64, 6);
    }
    assert(out@ =~= old(out)@ + padded(h as nat, hw as nat) + seq![':'] + padded(i as nat, 2)
        + seq![':'] + padded(s as nat, 2) + micros_chars(u));
}

/// Appends the characters of `b` as UTF-8 text, or as a hexadecimal literal.
fn push_bytes_text(out: &mut Vec<char>, b: &[u8])
    ensures
        text_of(ValueView::Bytes(b@)) == Some(final(out)@.skip(old(out)@.len() as int)),
        final(out)@.take(old(out)@.len() as int) == old(out)@,
{
    let ghost start = out@;
    match utf8_chars(b) {
        Some(chars) => {
            out.push('\'');
            let ghost before = out@;
            let mut i: usize = 0;
            while i < chars.len()
                invariant
                    i <= chars@.len(),
                    out@ == before + escape_quotes(chars@.take(i as int)),
                decreases chars.len() - i,
            {
                let c = chars[i];
                if c == '\'' {
                    out.push('\\');
                    out.push('\'');
                } else {
                    out.push(c);
                }
                proof {
                    assert(chars@.take(i + 1).drop_last() =~= chars@.take(i as int));
                }
                i = i + 1;
                assert(out@ =~= before + escape_quotes(chars@.take(i as int)));
            }
            out.push('\'');
            assert(chars@.take(chars@.len() as int) =~= chars@);
        },
        None => {
            out.push('0');
            out.push('x');
            let ghost before = out@;
            let mut i: usize = 0;
            while i < b.len()
                invariant
                    i <= b@.len(),
                    out@ == before + hex_chars(b@.take(i as int)),
                decreases b.len() - i,
            {
                out.push(hex_char(b[i] / 16));
                out.push(hex_char(b[i] % 16));
                proof {
                    assert(b@.take(i + 1).drop_last() =~= b@.take(i as int));
                }
                i = i + 1;
                assert(out@ =~= before + hex_chars(b@.take(i as int)));
            }
            assert(b@.take(b@.len() as int) =~= b@);
        },
    }
    assert(out@.skip(start.len() as int) =~= text_of(ValueView::Bytes(b@))->0);
    assert(out@.take(start.len() as int) =~= start);
}

fn date_text(y: u16, m: u8, d: u8, h: u8, i: u8, s: u8, u: u32) -> (r: Vec<char>)
    ensures
        r@ == date_chars(y, m, d, h, i, s, u),
{
    let mut out: Vec<char> = Vec::new();
    push_padded(&mut out, y as u64, 4);
    out.push('-');
    push_padded(&mut out, m as u64, 2);
    out.push('-');
    push_padded(&mut out, d as u64, 2);
    let ghost a = out@;
    assert(a =~= padded(y as nat, 4) + seq!['-'] + padded(m as nat, 2) + seq!['-'] + padded(d as nat, 2));
    if !(h == 0 && i == 0 && s == 0 && u == 0) {
        out.push(' ');
        push_colon_time(&mut out, h, 2, i, s, u);
        assert(out@ =~= a + (seq![' '] + padded(h as nat, 2) + seq![':'] + padded(i as nat, 2) + seq![':'] + padded(s as nat, 2) + micros_chars(u)));
    } else {
        assert(out@ =~= a + Seq::<char>::empty());
    }
    out
}

fn time_text(neg: bool, d: u32, h: u8, i: u8, s: u8, u: u32) -> (r: Vec<char>)
    ensures
        r@ == time_chars(neg, d, h, i, s, u),
{
    let mut out: Vec<char> = Vec::new();
    if neg {
        out.push('-');
    }
    let ghost a = out@;
    push_dec(&mut out, d as u64);
    out.push(' ');
    push_colon_time(&mut out, h, 3, i, s, u);
    assert(out@ =~= a + dec_chars(d as nat) + seq![' '] + padded(h as nat, 3) + seq![':'] + padded(i as nat, 2) + seq![':'] + padded(s as nat, 2) + micros_chars(u));
    out
}

/// Appends `body` between single quotes.
fn push_quoted(out: &mut Vec<char>, body: &Vec<char>)
    ensures
        final(out)@ == old(out)@ + quoted(body@),
{
    out.push('\'');
    let ghost before = out@;
    let mut j: usize = 0;
    while j < body.len()
        invariant
            j <= body@.len(),
            out@ == before + body@.take(j as int),
        decreases body.len() - j,
    {
        out.push(body[j]);
        j = j + 1;
        assert(out@ =~= before + body@.take(j as int));
    }
    out.push('\'');
    assert(body@.take(body@.len() as int) =~= body@);
    assert(out@ =~= old(out)@ + quoted(body@));
}

fn push_int_text(out: &mut Vec<char>, x: i64)
    ensures
        final(out)@ == old(out)@ + signed_chars(x as int),
{
    if x < 0 {
        out.push('-');
        let a: u64 = (-(x + 1)) as u64 + 1;
        push_dec(out, a);
    } else {
        push_dec(out, x as u64);
    }
    assert(out@ =~= old(out)@ + signed_chars(x as int));
}

impl Value {
    /// The SQL text of this value; `None` for a double, whose decimal form
    /// takes floating-point formatting.
    pub fn into_str(&self) -> (r: Option<String>)
        ensures
            match r {
                Some(s) => text_of(self@) == Some(s@),
                None => text_of(self@) is None,
            },
    {
        let mut out: Vec<char> = Vec::new();
        match self {
            Value::NULL => {
                out.push('N');
                out.push('U');
                out.push('L');
                out.push('L');
                assert(out@ =~= seq!['N', 'U', 'L', 'L']);
            },
            Value::Bytes(b) => {
                push_bytes_text(&mut out, b.as_slice());
                assert(out@.skip(0) =~= out@);
            },
            Value::Int(x) => {
                push_int_text(&mut out, *x);
                assert(out@ =~= signed_chars(*x as int));
            },
            Value::UInt(x) => {
                push_dec(&mut out, *x);
                assert(out@ =~= dec_chars(*x as nat));
            },
            Value::Float(_) => {
                return None;
            },
            Value::Date(y, m, d, h, i, s, u) => {
                if *y == 0 && *m == 0 && *d == 0 && *h == 0 && *i == 0 && *s == 0 && *u == 0 {
                    out.push('\'');
                    out.push('\'');
                    assert(out@ =~= seq!['\'', '\'']);
                } else {
                    let body = date_text(*y, *m, *d, *h, *i, *s, *u);
                    push_quoted(&mut out, &body);
                    assert(out@ =~= quoted(body@));
                }
            },
            Value::Time(neg, d, h, i, s, u) => {
                if *d == 0 && *h == 0 && *i == 0 && *s == 0 && *u == 0 {
                    out.push('\'');
                    out.push('\'');
                    assert(out@ =~= seq!['\'', '\'']);
                } else {
                    let body = time_text(*neg, *d, *h, *i, *s, *u);
                    push_quoted(&mut out, &body);
                    assert(out@ =~= quoted(body@));
                }
            },
        }
        Some(string_of(&out))
    }
}

} // verus!
