//! The values that travel between the protocol and the application, and
//! their binary encoding.

use vstd::prelude::*;
use crate::bytes::{le_bytes, le_at, lenenc_bytes, lenenc_bytes_at, read_le, write_le};
use crate::bytes::{write_lenenc_bytes, read_lenenc_bytes, lemma_le_round_trip, lemma_pow256_values};
use crate::bytes::{lemma_le_value_bound, lemma_lenenc_bytes_round_trip};
use crate::consts::{MYSQL_TYPE_NULL, MYSQL_TYPE_VAR_STRING, MYSQL_TYPE_LONGLONG, MYSQL_TYPE_DOUBLE};
use crate::consts::{MYSQL_TYPE_DATE, MYSQL_TYPE_TIME, MYSQL_TYPE_LONG, MYSQL_TYPE_INT24, MYSQL_TYPE_FLOAT};
use crate::consts::{MYSQL_TYPE_SHORT, MYSQL_TYPE_YEAR, MYSQL_TYPE_TINY, MYSQL_TYPE_DATETIME};
use crate::consts::MYSQL_TYPE_TIMESTAMP;

verus! {

/// A value of a row or of a statement parameter. A double is held as its
/// IEEE-754 bit pattern.
#[derive(Clone, Debug, PartialEq, Eq)]
pub enum Value {
    NULL,
    Bytes(Vec<u8>),
    Int(i64),
    UInt(u64),
    Float(u64),
    /// year, month, day, hour, minutes, seconds, microseconds
    Date(u16, u8, u8, u8, u8, u8, u32),
    /// negative, days, hours, minutes, seconds, microseconds
    Time(bool, u32, u8, u8, u8, u32),
}

/// A `Value` with its bytes seen as a sequence.
pub enum ValueView {
    NULL,
    Bytes(Seq<u8>),
    Int(i64),
    UInt(u64),
    Float(u64),
    Date(u16, u8, u8, u8, u8, u8, u32),
    Time(bool, u32, u8, u8, u8, u32),
}

impl View for Value {
    type V = ValueView;

    open spec fn view(&self) -> ValueView {
        match self {
            Value::NULL => ValueView::NULL,
            Value::Bytes(b) => ValueView::Bytes(b@),
            Value::Int(x) => ValueView::Int(*x),
            Value::UInt(x) => ValueView::UInt(*x),
            Value::Float(x) => ValueView::Float(*x),
            Value::Date(y, m, d, h, i, s, u) => ValueView::Date(*y, *m, *d, *h, *i, *s, *u),
            Value::Time(n, d, h, i, s, u) => ValueView::Time(*n, *d, *h, *i, *s, *u),
        }
    }
}

/// The binary encoding of a statement parameter.
pub open spec fn bin_of(v: ValueView) -> Seq<u8> {
    match v {
        ValueView::NULL => Seq::empty(),
        ValueView::Bytes(b) => lenenc_bytes(b),
        ValueView::Int(x) => le_bytes(x as u64 as nat, 8),
        ValueView::UInt(x) => le_bytes(x as nat, 8),
        ValueView::Float(x) => le_bytes(x as nat, 8),
        ValueView::Date(y, m, d, h, i, s, u) => if y == 0 && m == 0 && d == 0 && h == 0 && i == 0
            && s == 0 && u == 0 {
            seq![0u8]
        } else if h == 0 && i == 0 && s == 0 && u == 0 {
            seq![4u8] + le_bytes(y as nat, 2) + seq![m, d]
        } else if u == 0 {
            seq![7u8] + le_bytes(y as nat, 2) + seq![m, d, h, i, s]
        } else {
            seq![11u8] + le_bytes(y as nat, 2) + seq![m, d, h, i, s] + le_bytes(u as nat, 4)
        },
        ValueView::Time(n, d, h, i, s, u) => if d == 0 && h == 0 && i == 0 && s == 0 && u == 0 {
            seq![0u8]
        } else {
            let body = seq![
                if n {
                    1u8
                } else {
                    0u8
                },
            ] + le_bytes(d as nat, 4) + seq![h, i, s];
            if u == 0 {
                seq![8u8] + body
            } else {
                seq![12u8] + body + le_bytes(u as nat, 4)
            }
        },
    }
}

/// The parameter type of a value, as `COM_STMT_EXECUTE` announces it: the type
/// byte and whether it is unsigned. A `NULL` takes its column's type.
pub open spec fn column_type(v: ValueView) -> (u8, bool) {
    match v {
        ValueView::NULL => (MYSQL_TYPE_NULL, false),
        ValueView::Bytes(_) => (MYSQL_TYPE_VAR_STRING, false),
        ValueView::Int(_) => (MYSQL_TYPE_LONGLONG, false),
        ValueView::UInt(_) => (MYSQL_TYPE_LONGLONG, true),
        ValueView::Float(_) => (MYSQL_TYPE_DOUBLE, false),
        ValueView::Date(..) => (MYSQL_TYPE_DATE, false),
        ValueView::Time(..) => (MYSQL_TYPE_TIME, false),
    }
}

/// The bit pattern of the double equal to the float with bit pattern `b`.
pub open spec fn widen_float_bits(b: u32) -> u64 {
    let sign: nat = if b >= 0x8000_0000 {
        0x8000_0000_0000_0000
    } else {
        0
    };
    let exp: nat = (b as nat / 0x80_0000) % 256;
    let man: nat = b as nat % 0x80_0000;
    if exp == 255 {
        // infinities keep their form; a NaN comes out quiet
        let quiet: nat = if man == 0 || man >= 0x40_0000 {
            man
        } else {
            man + 0x40_0000
        };
        (sign + 0x7ff0_0000_0000_0000 + quiet * 0x2000_0000) as u64
    } else if exp == 0 && man == 0 {
        sign as u64
    } else if exp == 0 {
        let k = subnormal_shift(man);
        (sign + (897 - k) as nat * 0x10_0000_0000_0000 + (man * pow2(k) - 0x80_0000) * 0x2000_0000) as u64
    } else {
        (sign + (exp + 896) * 0x10_0000_0000_0000 + man * 0x2000_0000) as u64
    }
}

/// `2` to the power `k`.
pub open spec fn pow2(k: nat) -> nat
    decreases k,
{
    if k == 0 {
        1
    } else {
        2 * pow2((k - 1) as nat)
    }
}

proof fn lemma_pow2_mono(a: nat, b: nat)
    requires
        a <= b,
    ensures
        pow2(a) <= pow2(b),
    decreases b,
{
    if a < b {
        lemma_pow2_mono(a, (b - 1) as nat);
    }
}

/// How far a non-zero subnormal float mantissa must move left to reach the
/// implicit bit.
pub open spec fn subnormal_shift(man: nat) -> nat
    decreases 0x100_0000 - man,
{
    if man == 0 || man >= 0x80_0000 {
        0
    } else {
        1 + subnormal_shift(man * 2)
    }
}

/// The fields of a date or timestamp of `len` bytes at `pos` (after its length byte).
pub open spec fn date_at(s: Seq<u8>, pos: int, len: u8) -> Option<ValueView> {
    if len == 0 {
        Some(ValueView::Date(0, 0, 0, 0, 0, 0, 0))
    } else if (len == 4 || len == 7 || len == 11) && pos + len <= s.len() {
        let y = le_value_at(s, pos, 2) as u16;
        let (h, i, sec) = if len >= 7 {
            (s[pos + 4], s[pos + 5], s[pos + 6])
        } else {
            (0u8, 0u8, 0u8)
        };
        let u = if len == 11 {
            le_value_at(s, pos + 7, 4) as u32
        } else {
            0u32
        };
        Some(ValueView::Date(y, s[pos + 2], s[pos + 3], h, i, sec, u))
    } else {
        None
    }
}

/// The fields of a time of `len` bytes at `pos` (after its length byte).
pub open spec fn time_at(s: Seq<u8>, pos: int, len: u8) -> Option<ValueView> {
    if len == 0 {
        Some(ValueView::Time(false, 0, 0, 0, 0, 0))
    } else if (len == 8 || len == 12) && pos + len <= s.len() {
        let u = if len == 12 {
            le_value_at(s, pos + 8, 4) as u32
        } else {
            0u32
        };
        Some(
            ValueView::Time(
                s[pos] == 1,
                le_value_at(s, pos + 1, 4) as u32,
                s[pos + 5],
                s[pos + 6],
                s[pos + 7],
                u,
            ),
        )
    } else {
        None
    }
}

/// The little-endian value of `w` bytes at `pos`.
pub open spec fn le_value_at(s: Seq<u8>, pos: int, w: int) -> nat {
    crate::bytes::le_value(s.subrange(pos, pos + w))
}

/// The width of a fixed-width binary value of column type `t`, if it has one.
pub open spec fn fixed_width(t: u8) -> int {
    if t == MYSQL_TYPE_LONGLONG || t == MYSQL_TYPE_DOUBLE {
        8
    } else if t == MYSQL_TYPE_LONG || t == MYSQL_TYPE_INT24 || t == MYSQL_TYPE_FLOAT {
        4
    } else if t == MYSQL_TYPE_SHORT || t == MYSQL_TYPE_YEAR {
        2
    } else if t == MYSQL_TYPE_TINY {
        1
    } else {
        0
    }
}

/// The value of fixed-width bits `v` in a column of type `t`.
pub open spec fn fixed_value(t: u8, unsigned: bool, v: nat) -> ValueView {
    if t == MYSQL_TYPE_LONGLONG {
        if unsigned {
            ValueView::UInt(v as u64)
        } else {
            ValueView::Int(v as u64 as i64)
        }
    } else if t == MYSQL_TYPE_DOUBLE {
        ValueView::Float(v as u64)
    } else if t == MYSQL_TYPE_FLOAT {
        ValueView::Float(widen_float_bits(v as u32))
    } else if t == MYSQL_TYPE_LONG || t == MYSQL_TYPE_INT24 {
        ValueView::Int(
            if unsigned {
                v as i64
            } else {
                v as u32 as i32 as i64
            },
        )
    } else if t == MYSQL_TYPE_SHORT || t == MYSQL_TYPE_YEAR {
        ValueView::Int(
            if unsigned {
                v as i64
            } else {
                v as u16 as i16 as i64
            },
        )
    } else {
        ValueView::Int(
            if unsigned {
                v as i64
            } else {
                v as u8 as i8 as i64
            },
        )
    }
}

/// Reads a binary value of column type `t` at `pos`: the value and the position
/// after it.
pub open spec fn bin_value_at(s: Seq<u8>, pos: int, t: u8, unsigned: bool) -> Option<(ValueView, int)> {
    if t == MYSQL_TYPE_NULL {
        Some((ValueView::NULL, pos))
    } else if fixed_width(t) > 0 {
        match le_at(s, pos, fixed_width(t)) {
            Some(v) => Some((fixed_value(t, unsigned, v), pos + fixed_width(t))),
            None => None,
        }
    } else if t == MYSQL_TYPE_DATE || t == MYSQL_TYPE_DATETIME || t == MYSQL_TYPE_TIMESTAMP {
        if 0 <= pos < s.len() {
            match date_at(s, pos + 1, s[pos]) {
                Some(d) => Some((d, pos + 1 + s[pos])),
                None => None,
            }
        } else {
            None
        }
    } else if t == MYSQL_TYPE_TIME {
        if 0 <= pos < s.len() {
            match time_at(s, pos + 1, s[pos]) {
                Some(d) => Some((d, pos + 1 + s[pos])),
                None => None,
            }
        } else {
            None
        }
    } else {
        match lenenc_bytes_at(s, pos) {
            Some((b, p)) => Some((ValueView::Bytes(b), p)),
            None => None,
        }
    }
}

/// A time that is negative and zero, which encodes as a plain zero time.
pub open spec fn is_negative_zero_time(v: ValueView) -> bool {
    v == ValueView::Time(true, 0, 0, 0, 0, 0)
}

proof fn lemma_le_piece(n: nat, w: nat, a: Seq<u8>, rest: Seq<u8>)
    requires
        n < crate::bytes::pow256(w),
    ensures
        le_value_at(a + le_bytes(n, w) + rest, a.len() as int, w as int) == n,
        le_bytes(n, w).len() == w,
{
    lemma_le_round_trip(n, w);
    assert((a + le_bytes(n, w) + rest).subrange(a.len() as int, (a.len() + w) as int) =~= le_bytes(n, w));
}

/// Encoding a parameter and decoding it as its own column type gives it back
/// (a negative zero time comes back as a zero time).
pub proof fn lemma_bin_round_trip(v: ValueView, rest: Seq<u8>)
    requires
        v is Bytes ==> v->Bytes_0.len() <= u64::MAX,
        !is_negative_zero_time(v),
    ensures
        bin_value_at(bin_of(v) + rest, 0, column_type(v).0, column_type(v).1) == Some(
            (v, bin_of(v).len() as int),
        ),
{
    lemma_pow256_values();
    let e = bin_of(v);
    let s = e + rest;
    match v {
        ValueView::NULL => {
            assert(bin_value_at(s, 0, MYSQL_TYPE_NULL, false) == Some((v, 0int)));
        },
        ValueView::Bytes(b) => {
            lemma_lenenc_bytes_round_trip(b, rest);
            assert(bin_value_at(s, 0, MYSQL_TYPE_VAR_STRING, false) == Some((v, e.len() as int)));
        },
        ValueView::Int(x) => {
            lemma_le_piece(x as u64 as nat, 8, Seq::empty(), rest);
            assert(Seq::<u8>::empty() + e =~= e);
            assert((x as u64) as i64 == x) by (bit_vector);
            assert(bin_value_at(s, 0, MYSQL_TYPE_LONGLONG, false) == Some((v, e.len() as int)));
        },
        ValueView::UInt(x) => {
            lemma_le_piece(x as nat, 8, Seq::empty(), rest);
            assert(Seq::<u8>::empty() + e =~= e);
        },
        ValueView::Float(x) => {
            lemma_le_piece(x as nat, 8, Seq::empty(), rest);
            assert(Seq::<u8>::empty() + e =~= e);
        },
        ValueView::Date(y, m, d, h, i, sec, u) => {
            lemma_date_round_trip(y, m, d, h, i, sec, u, rest);
        },
        ValueView::Time(n, d, h, i, sec, u) => {
            lemma_time_round_trip(n, d, h, i, sec, u, rest);
        },
    }
}

proof fn lemma_date_round_trip(y: u16, m: u8, d: u8, h: u8, i: u8, sec: u8, u: u32, rest: Seq<u8>)
    ensures
        ({
            let v = ValueView::Date(y, m, d, h, i, sec, u);
            bin_value_at(bin_of(v) + rest, 0, MYSQL_TYPE_DATE, false) == Some(
                (v, bin_of(v).len() as int),
            )
        }),
{
    lemma_pow256_values();
    let v = ValueView::Date(y, m, d, h, i, sec, u);
    let s = bin_of(v) + rest;
    crate::bytes::lemma_le_bytes_len(y as nat, 2);
    crate::bytes::lemma_le_bytes_len(u as nat, 4);
    if y == 0 && m == 0 && d == 0 && h == 0 && i == 0 && sec == 0 && u == 0 {
    } else if h == 0 && i == 0 && sec == 0 && u == 0 {
        lemma_le_piece(y as nat, 2, seq![4u8], seq![m, d] + rest);
        assert(s =~= seq![4u8] + le_bytes(y as nat, 2) + (seq![m, d] + rest));
    } else if u == 0 {
        lemma_le_piece(y as nat, 2, seq![7u8], seq![m, d, h, i, sec] + rest);
        assert(s =~= seq![7u8] + le_bytes(y as nat, 2) + (seq![m, d, h, i, sec] + rest));
    } else {
        let a = seq![11u8] + le_bytes(y as nat, 2) + seq![m, d, h, i, sec];
        let t = seq![m, d, h, i, sec] + le_bytes(u as nat, 4) + rest;
        lemma_le_piece(y as nat, 2, seq![11u8], t);
        assert(s =~= seq![11u8] + le_bytes(y as nat, 2) + t);
        lemma_le_piece(u as nat, 4, a, rest);
        assert(s =~= a + le_bytes(u as nat, 4) + rest);
    }
}

proof fn lemma_time_round_trip(n: bool, d: u32, h: u8, i: u8, sec: u8, u: u32, rest: Seq<u8>)
    requires
        !is_negative_zero_time(ValueView::Time(n, d, h, i, sec, u)),
    ensures
        ({
            let v = ValueView::Time(n, d, h, i, sec, u);
            bin_value_at(bin_of(v) + rest, 0, MYSQL_TYPE_TIME, false) == Some(
                (v, bin_of(v).len() as int),
            )
        }),
{
    lemma_pow256_values();
    let v = ValueView::Time(n, d, h, i, sec, u);
    let s = bin_of(v) + rest;
    crate::bytes::lemma_le_bytes_len(d as nat, 4);
    crate::bytes::lemma_le_bytes_len(u as nat, 4);
    if d == 0 && h == 0 && i == 0 && sec == 0 && u == 0 {
    } else {
        let nb = seq![if n { 1u8 } else { 0u8 }];
        let tail = seq![h, i, sec];
        if u == 0 {
            lemma_le_piece(d as nat, 4, seq![8u8] + nb, tail + rest);
            assert(s =~= seq![8u8] + nb + le_bytes(d as nat, 4) + (tail + rest));
        } else {
            let a = seq![12u8] + nb + le_bytes(d as nat, 4) + tail;
            let t = tail + le_bytes(u as nat, 4) + rest;
            lemma_le_piece(d as nat, 4, seq![12u8] + nb, t);
            assert(s =~= seq![12u8] + nb + le_bytes(d as nat, 4) + t);
            lemma_le_piece(u as nat, 4, a, rest);
            assert(s =~= a + le_bytes(u as nat, 4) + rest);
        }
    }
}

/// The bit pattern of the double equal to the float with bit pattern `b`.
pub fn widen_float(b: u32) -> (r: u64)
    ensures
        r == widen_float_bits(b),
{
    let sign: u64 = if b >= 0x8000_0000 {
        0x8000_0000_0000_0000
    } else {
        0
    };
    let exp: u64 = ((b / 0x80_0000) % 256) as u64;
    let man: u64 = (b % 0x80_0000) as u64;
    if exp == 255 {
        let quiet: u64 = if man == 0 || man >= 0x40_0000 {
            man
        } else {
            man + 0x40_0000
        };
        sign + 0x7ff0_0000_0000_0000 + quiet * 0x2000_0000
    } else if exp == 0 && man == 0 {
        sign
    } else if exp == 0 {
        let mut m: u64 = man;
        let mut k: u64 = 0;
        assert(pow2(0) == 1);
        while m < 0x80_0000
            invariant
                0 < m < 0x100_0000,
                k <= 23,
                m == man * pow2(k as nat),
                subnormal_shift(man as nat) == k + subnormal_shift(m as nat),
                pow2(k as nat) <= m,
            decreases 0x100_0000 - m,
        {
            proof {
                assert(pow2((k + 1) as nat) == 2 * pow2(k as nat));
                assert(man * pow2((k + 1) as nat) == 2 * (man * pow2(k as nat))) by (nonlinear_arith)
                    requires
                        pow2((k + 1) as nat) == 2 * pow2(k as nat),
                ;
            }
            proof {
                if k >= 23 {
                    lemma_pow2_mono(23, k as nat);
                    reveal_with_fuel(pow2, 24);
                }
            }
            m = m * 2;
            k = k + 1;
        }
        sign + (897 - k) * 0x10_0000_0000_0000 + (m - 0x80_0000) * 0x2000_0000
    } else {
        sign + (exp + 896) * 0x10_0000_0000_0000 + man * 0x2000_0000
    }
}

impl Value {
    /// The binary encoding of this value as a statement parameter.
    pub fn to_bin(&self) -> (r: Vec<u8>)
        ensures
            r@ == bin_of(self@),
    {
        let mut out: Vec<u8> = Vec::new();
        match self {
            Value::NULL => {},
            Value::Bytes(x) => {
                write_lenenc_bytes(&mut out, x.as_slice());
            },
            Value::Int(x) => {
                write_le(&mut out, *x as u64, 8);
            },
            Value::UInt(x) => {
                write_le(&mut out, *x, 8);
            },
            Value::Float(x) => {
                write_le(&mut out, *x, 8);
            },
            Value::Date(y, m, d, h, i, s, u) => {
                if *y == 0 && *m == 0 && *d == 0 && *h == 0 && *i == 0 && *s == 0 && *u == 0 {
                    out.push(0);
                } else {
                    let len: u8 = if *h == 0 && *i == 0 && *s == 0 && *u == 0 {
                        4
                    } else if *u == 0 {
                        7
                    } else {
                        11
                    };
                    out.push(len);
                    write_le(&mut out, *y as u64, 2);
                    out.push(*m);
                    out.push(*d);
                    if len >= 7 {
                        out.push(*h);
                        out.push(*i);
                        out.push(*s);
                    }
                    if len == 11 {
                        write_le(&mut out, *u as u64, 4);
                    }
                }
            },
            Value::Time(n, d, h, i, s, u) => {
                if *d == 0 && *h == 0 && *i == 0 && *s == 0 && *u == 0 {
                    out.push(0);
                } else {
                    out.push(
                        if *u == 0 {
                            8
                        } else {
                            12
                        },
                    );
                    out.push(
                        if *n {
                            1
                        } else {
                            0
                        },
                    );
                    write_le(&mut out, *d as u64, 4);
                    out.push(*h);
                    out.push(*i);
                    out.push(*s);
                    if *u != 0 {
                        write_le(&mut out, *u as u64, 4);
                    }
                }
            },
        }
        assert(out@ =~= bin_of(self@));
        out
    }
}

/// Reads a fixed-width value of column type `t` at `pos`.
fn read_fixed(buf: &[u8], pos: usize, t: u8, unsigned: bool) -> (r: Option<(Value, usize)>)
    requires
        fixed_width(t) > 0,
    ensures
        match r {
            Some((v, p)) => le_at(buf@, pos as int, fixed_width(t)) matches Some(x) && v@
                == fixed_value(t, unsigned, x) && p == pos + fixed_width(t),
            None => le_at(buf@, pos as int, fixed_width(t)) is None,
        },
{
    let w: usize = if t == MYSQL_TYPE_LONGLONG || t == MYSQL_TYPE_DOUBLE {
        8
    } else if t == MYSQL_TYPE_LONG || t == MYSQL_TYPE_INT24 || t == MYSQL_TYPE_FLOAT {
        4
    } else if t == MYSQL_TYPE_SHORT || t == MYSQL_TYPE_YEAR {
        2
    } else {
        1
    };
    let x = match read_le(buf, pos, w) {
        Some(x) => x,
        None => {
            return None;
        },
    };
    proof {
        lemma_le_value_bound(buf@.subrange(pos as int, pos + w));
        lemma_pow256_values();
    }
    assert(pos + w <= buf.len());
    let v = if t == MYSQL_TYPE_LONGLONG {
        if unsigned {
            Value::UInt(x)
        } else {
            Value::Int(#[verifier::truncate] (x as i64))
        }
    } else if t == MYSQL_TYPE_DOUBLE {
        Value::Float(x)
    } else if t == MYSQL_TYPE_FLOAT {
        Value::Float(widen_float(x as u32))
    } else if t == MYSQL_TYPE_LONG || t == MYSQL_TYPE_INT24 {
        Value::Int(
            if unsigned {
                x as i64
            } else {
                (#[verifier::truncate] (x as u32 as i32)) as i64
            },
        )
    } else if t == MYSQL_TYPE_SHORT || t == MYSQL_TYPE_YEAR {
        Value::Int(
            if unsigned {
                x as i64
            } else {
                (#[verifier::truncate] (x as u16 as i16)) as i64
            },
        )
    } else {
        Value::Int(
            if unsigned {
                x as i64
            } else {
                (#[verifier::truncate] (x as u8 as i8)) as i64
            },
        )
    };
    Some((v, pos + w))
}

/// Reads a binary value of column type `t` at `pos`: the value and the
/// position after it.
pub fn read_bin_value(buf: &[u8], pos: usize, t: u8, unsigned: bool) -> (r: Option<(Value, usize)>)
    ensures
        match r {
            Some((v, p)) => bin_value_at(buf@, pos as int, t, unsigned) == Some((v@, p as int)),
            None => bin_value_at(buf@, pos as int, t, unsigned) is None,
        },
{
    if t == MYSQL_TYPE_NULL {
        return Some((Value::NULL, pos));
    }
    if t == MYSQL_TYPE_LONGLONG || t == MYSQL_TYPE_DOUBLE || t == MYSQL_TYPE_LONG || t
        == MYSQL_TYPE_INT24 || t == MYSQL_TYPE_FLOAT || t == MYSQL_TYPE_SHORT || t
        == MYSQL_TYPE_YEAR || t == MYSQL_TYPE_TINY {
        return read_fixed(buf, pos, t, unsigned);
    }
    if t == MYSQL_TYPE_DATE || t == MYSQL_TYPE_DATETIME || t == MYSQL_TYPE_TIMESTAMP || t
        == MYSQL_TYPE_TIME {
        if pos >= buf.len() {
            return None;
        }
        let len = buf[pos];
        let p = pos + 1;
        if t == MYSQL_TYPE_TIME {
            if len == 0 {
                return Some((Value::Time(false, 0, 0, 0, 0, 0), p));
            }
            if (len != 8 && len != 12) || buf.len() - p < len as usize {
                return None;
            }
            let days = match read_le(buf, p + 1, 4) {
                Some(x) => x,
                None => {
                    return None;
                },
            };
            let u = if len == 12 {
                match read_le(buf, p + 8, 4) {
                    Some(x) => x,
                    None => {
                        return None;
                    },
                }
            } else {
                0
            };
            proof {
                lemma_le_value_bound(buf@.subrange(p + 1, p + 5));
                lemma_le_value_bound(buf@.subrange(p + 8, p + 12));
                lemma_pow256_values();
            }
            let v = Value::Time(buf[p] == 1, days as u32, buf[p + 5], buf[p + 6], buf[p + 7], u as u32);
            return Some((v, p + len as usize));
        } else {
            if len == 0 {
                return Some((Value::Date(0, 0, 0, 0, 0, 0, 0), p));
            }
            if (len != 4 && len != 7 && len != 11) || buf.len() - p < len as usize {
                return None;
            }
            let y = match read_le(buf, p, 2) {
                Some(x) => x,
                None => {
                    return None;
                },
            };
            let (h, i, s) = if len >= 7 {
                (buf[p + 4], buf[p + 5], buf[p + 6])
            } else {
                (0, 0, 0)
            };
            let u = if len == 11 {
                match read_le(buf, p + 7, 4) {
                    Some(x) => x,
                    None => {
                        return None;
                    },
                }
            } else {
                0
            };
            proof {
                lemma_le_value_bound(buf@.subrange(p as int, p + 2));
                lemma_le_value_bound(buf@.subrange(p + 7, p + 11));
                lemma_pow256_values();
            }
            let v = Value::Date(y as u16, buf[p + 2], buf[p + 3], h, i, s, u as u32);
            return Some((v, p + len as usize));
        }
    }
    match read_lenenc_bytes(buf, pos) {
        Some((b, p)) => Some((Value::Bytes(b), p)),
        None => None,
    }
}

/// The views of a sequence of values.
pub open spec fn views(v: Seq<Value>) -> Seq<ValueView> {
    v.map_values(|x: Value| x@)
}

/// Bit `k` of a bitmap, counting from the low bit of the first byte.
pub open spec fn bit(b: Seq<u8>, k: int) -> bool {
    (b[k / 8] >> ((k % 8) as u8)) & 1u8 == 1u8
}

/// `b` is the null bitmap of `nulls` with its first `offset` bits unused: one
/// bit a value, set exactly for the nulls, in as few bytes as hold them.
pub open spec fn is_null_bitmap(b: Seq<u8>, nulls: Seq<bool>, offset: int) -> bool {
    &&& b.len() == (nulls.len() + offset + 7) / 8
    &&& forall|k: int|
        0 <= k < 8 * b.len() ==> #[trigger] bit(b, k) == (offset <= k < nulls.len() + offset
            && nulls[k - offset])
}

/// Which of the values are `NULL`.
pub open spec fn null_flags(values: Seq<ValueView>) -> Seq<bool> {
    values.map_values(|v: ValueView| v is NULL)
}

/// The values of a text-protocol row from `pos` on: each a length-encoded
/// string, or `NULL` where the byte `0xfb` stands.
pub open spec fn text_row_at(s: Seq<u8>, pos: int) -> Option<Seq<ValueView>>
    decreases s.len() - pos,
{
    if pos < 0 {
        None
    } else if pos >= s.len() {
        Some(Seq::empty())
    } else if s[pos] == 0xfb {
        match text_row_at(s, pos + 1) {
            Some(r) => Some(seq![ValueView::NULL] + r),
            None => None,
        }
    } else {
        match lenenc_bytes_at(s, pos) {
            Some((b, p)) => if p > pos {
                match text_row_at(s, p) {
                    Some(r) => Some(seq![ValueView::Bytes(b)] + r),
                    None => None,
                }
            } else {
                None
            },
            None => None,
        }
    }
}

/// The type byte and signedness of each column, as binary rows decode them.
pub open spec fn column_kinds(columns: Seq<crate::packets::Column>) -> Seq<(u8, bool)> {
    columns.map_values(
        |c: crate::packets::Column| (c.column_type, c.flags & crate::consts::UNSIGNED_FLAG != 0),
    )
}

/// The values of a binary row for columns `i..` with the values from `pos`
/// on; a column whose bit is set in the bitmap (after two unused bits) is `NULL`
/// and takes no bytes.
pub open spec fn bin_row_from(s: Seq<u8>, bitmap: Seq<u8>, kinds: Seq<(u8, bool)>, i: int, pos: int) -> Option<Seq<ValueView>>
    decreases kinds.len() - i,
{
    if i < 0 || i >= kinds.len() {
        Some(Seq::empty())
    } else if bit(bitmap, i + 2) {
        match bin_row_from(s, bitmap, kinds, i + 1, pos) {
            Some(r) => Some(seq![ValueView::NULL] + r),
            None => None,
        }
    } else {
        match bin_value_at(s, pos, kinds[i].0, kinds[i].1) {
            Some((v, p)) => match bin_row_from(s, bitmap, kinds, i + 1, p) {
                Some(r) => Some(seq![v] + r),
                None => None,
            },
            None => None,
        }
    }
}

/// The bytes of the null bitmap of a binary row with `n` columns.
pub open spec fn row_bitmap_len(n: int) -> int {
    (n + 9) / 8
}

/// The values of a binary row: a header byte, the null bitmap, then the values
/// of the columns that are not `NULL`.
pub open spec fn bin_row(s: Seq<u8>, kinds: Seq<(u8, bool)>) -> Option<Seq<ValueView>> {
    let m = row_bitmap_len(kinds.len() as int);
    if s.len() < 1 + m {
        None
    } else {
        bin_row_from(s, s.subrange(1, 1 + m), kinds, 0, 1 + m)
    }
}

/// `r` with `prefix` put before the values it holds.
pub open spec fn prepend_values(prefix: Seq<ValueView>, r: Option<Seq<ValueView>>) -> Option<Seq<ValueView>> {
    match r {
        Some(x) => Some(prefix + x),
        None => None,
    }
}

proof fn lemma_prepend_values(prefix: Seq<ValueView>, v: ValueView, r: Option<Seq<ValueView>>)
    ensures
        prepend_values(prefix, prepend_values(seq![v], r)) == prepend_values(prefix.push(v), r),
        prepend_values(Seq::empty(), r) == r,
{
    if let Some(x) = r {
        assert(prefix + (seq![v] + x) =~= prefix.push(v) + x);
        assert(Seq::<ValueView>::empty() + x =~= x);
    }
}

impl Value {
    /// Decodes a text-protocol row.
    pub fn from_payload(pld: &[u8], columns_count: usize) -> (r: Result<Vec<Value>, crate::error::MyError>)
        ensures
            match r {
                Ok(v) => text_row_at(pld@, 0) == Some(views(v@)),
                Err(e) => text_row_at(pld@, 0) is None && e == crate::error::MyError::Protocol,
            },
    {
        let mut out: Vec<Value> = Vec::with_capacity(columns_count);
        let mut pos: usize = 0;
        proof {
            lemma_prepend_values(Seq::empty(), ValueView::NULL, text_row_at(pld@, 0));
            assert(views(out@) =~= Seq::empty());
        }
        while pos < pld.len()
            invariant
                pos <= pld.len(),
                text_row_at(pld@, 0) == prepend_values(views(out@), text_row_at(pld@, pos as int)),
            decreases pld.len() - pos,
        {
            let ghost before = out@;
            if pld[pos] == 0xfb {
                out.push(Value::NULL);
                proof {
                    lemma_prepend_values(views(before), ValueView::NULL, text_row_at(pld@, pos + 1));
                    assert(views(out@) =~= views(before).push(ValueView::NULL));
                }
                pos = pos + 1;
            } else {
                match read_lenenc_bytes(pld, pos) {
                    Some((b, p)) => {
                        let ghost bv = b@;
                        out.push(Value::Bytes(b));
                        proof {
                            lemma_prepend_values(views(before), ValueView::Bytes(bv), text_row_at(pld@, p as int));
                            assert(views(out@) =~= views(before).push(ValueView::Bytes(bv)));
                        }
                        pos = p;
                    },
                    None => {
                        return Err(crate::error::MyError::Protocol);
                    },
                }
            }
        }
        proof {
            assert(text_row_at(pld@, pos as int) == Some(Seq::<ValueView>::empty()));
            assert(views(out@) + Seq::<ValueView>::empty() =~= views(out@));
        }
        Ok(out)
    }
}

/// How many bytes of parameter values can go inline in an execute packet of
/// at most `max` bytes with `n` parameters.
pub open spec fn inline_cap(max: nat, n: nat) -> nat {
    let overhead = (n + 7) / 8 + 8 * n;
    if max >= overhead {
        (max - overhead) as nat
    } else {
        0
    }
}

/// The inline parameter bytes and the indexes of the parameters sent as long
/// data: a `Bytes` value goes inline while the inline bytes stay under `cap`;
/// a `NULL` takes no bytes; every other value goes inline.
pub open spec fn param_values(values: Seq<ValueView>, cap: nat) -> (Seq<u8>, Seq<u16>)
    decreases values.len(),
{
    if values.len() == 0 {
        (Seq::empty(), Seq::empty())
    } else {
        let (b, ids) = param_values(values.drop_last(), cap);
        let v = values.last();
        let i = (values.len() - 1) as u16;
        match v {
            ValueView::NULL => (b, ids),
            ValueView::Bytes(_) => if b.len() + bin_of(v).len() < cap {
                (b + bin_of(v), ids)
            } else {
                (b, ids.push(i))
            },
            _ => (b + bin_of(v), ids),
        }
    }
}

proof fn lemma_set_bit(b: u8, p: u8, q: u8)
    requires
        p < 8,
        q < 8,
    ensures
        ((b | (1u8 << p)) >> q) & 1u8 == (if p == q {
            1u8
        } else {
            (b >> q) & 1u8
        }),
{
    assert(((b | (1u8 << p)) >> q) & 1u8 == (if p == q {
        1u8
    } else {
        (b >> q) & 1u8
    })) by (bit_vector)
        requires
            p < 8,
            q < 8,
    ;
}

proof fn lemma_zero_bits(q: u8)
    requires
        q < 8,
    ensures
        (0u8 >> q) & 1u8 == 0u8,
{
    assert((0u8 >> q) & 1u8 == 0u8) by (bit_vector);
}

/// The null bitmap of `nulls` with `offset` unused bits first.
pub open spec fn null_bitmap(nulls: Seq<bool>, offset: int) -> Seq<u8> {
    choose|b: Seq<u8>| is_null_bitmap(b, nulls, offset)
}

proof fn lemma_byte_from_bits(a: u8, b: u8)
    requires
        forall|q: u8| q < 8 ==> #[trigger] ((a >> q) & 1u8) == (b >> q) & 1u8,
    ensures
        a == b,
{
    assert((a >> 0u8) & 1u8 == (b >> 0u8) & 1u8);
    assert((a >> 1u8) & 1u8 == (b >> 1u8) & 1u8);
    assert((a >> 2u8) & 1u8 == (b >> 2u8) & 1u8);
    assert((a >> 3u8) & 1u8 == (b >> 3u8) & 1u8);
    assert((a >> 4u8) & 1u8 == (b >> 4u8) & 1u8);
    assert((a >> 5u8) & 1u8 == (b >> 5u8) & 1u8);
    assert((a >> 6u8) & 1u8 == (b >> 6u8) & 1u8);
    assert((a >> 7u8) & 1u8 == (b >> 7u8) & 1u8);
    assert(a == b) by (bit_vector)
        requires
            (a >> 0u8) & 1u8 == (b >> 0u8) & 1u8,
            (a >> 1u8) & 1u8 == (b >> 1u8) & 1u8,
            (a >> 2u8) & 1u8 == (b >> 2u8) & 1u8,
            (a >> 3u8) & 1u8 == (b >> 3u8) & 1u8,
            (a >> 4u8) & 1u8 == (b >> 4u8) & 1u8,
            (a >> 5u8) & 1u8 == (b >> 5u8) & 1u8,
            (a >> 6u8) & 1u8 == (b >> 6u8) & 1u8,
            (a >> 7u8) & 1u8 == (b >> 7u8) & 1u8,
    ;
}

/// A null bitmap is determined by the nulls it marks.
pub proof fn lemma_null_bitmap_unique(b: Seq<u8>, nulls: Seq<bool>, offset: int)
    requires
        is_null_bitmap(b, nulls, offset),
    ensures
        null_bitmap(nulls, offset) == b,
{
    let c = null_bitmap(nulls, offset);
    assert(is_null_bitmap(c, nulls, offset));
    assert forall|j: int| 0 <= j < b.len() implies c[j] == b[j] by {
        assert forall|q: u8| q < 8 implies #[trigger] ((c[j] >> q) & 1u8) == (b[j] >> q) & 1u8 by {
            let k = 8 * j + q;
            assert(k / 8 == j && k % 8 == q as int);
            assert(bit(b, k) == bit(c, k));
            let x = c[j];
            let y = b[j];
            assert((x >> q) & 1u8 <= 1u8 && (y >> q) & 1u8 <= 1u8) by (bit_vector);
        }
        lemma_byte_from_bits(c[j], b[j]);
    }
    assert(c =~= b);
}

impl Value {
    /// Decodes a binary-protocol row for `columns`.
    pub fn from_bin_payload(pld: &[u8], columns: &[crate::packets::Column]) -> (r: Result<Vec<Value>, crate::error::MyError>)
        ensures
            match r {
                Ok(v) => bin_row(pld@, column_kinds(columns@)) == Some(views(v@)),
                Err(e) => bin_row(pld@, column_kinds(columns@)) is None && e
                    == crate::error::MyError::Protocol,
            },
    {
        let ghost kinds = column_kinds(columns@);
        let n = columns.len();
        if pld.len() == 0 || n / 8 >= pld.len() {
            return Err(crate::error::MyError::Protocol);
        }
        let m = n / 8 + (n % 8 + 9) / 8;
        assert(m == row_bitmap_len(n as int)) by (nonlinear_arith)
            requires
                m == n / 8 + (n % 8 + 9) / 8,
        {
            vstd::arithmetic::div_mod::lemma_fundamental_div_mod(n as int, 8);
        }
        if pld.len() - 1 < m {
            return Err(crate::error::MyError::Protocol);
        }
        let bitmap = crate::bytes::copy_range(pld, 1, 1 + m);
        let mut out: Vec<Value> = Vec::with_capacity(n);
        let mut pos: usize = 1 + m;
        let mut i: usize = 0;
        proof {
            lemma_prepend_values(Seq::empty(), ValueView::NULL, bin_row(pld@, kinds));
            assert(views(out@) =~= Seq::empty());
        }
        while i < n
            invariant
                n == columns.len() == kinds.len(),
                kinds == column_kinds(columns@),
                i <= n,
                bitmap@.len() == m,
                m == row_bitmap_len(n as int),
                bin_row(pld@, kinds) == prepend_values(
                    views(out@),
                    bin_row_from(pld@, bitmap@, kinds, i as int, pos as int),
                ),
            decreases n - i,
        {
            let ghost before = out@;
            let byte = i / 8 + (i % 8 + 2) / 8;
            let shift = ((i % 8 + 2) % 8) as u8;
            proof {
                let k = i + 2;
                assert(byte == k / 8 && shift == k % 8 && k / 8 < m) by (nonlinear_arith)
                    requires
                        byte == i / 8 + (i % 8 + 2) / 8,
                        shift == (i % 8 + 2) % 8,
                        k == i + 2,
                        i < n,
                        m == (n + 9) / 8,
                {
                    vstd::arithmetic::div_mod::lemma_fundamental_div_mod(i as int, 8);
                    vstd::arithmetic::div_mod::lemma_fundamental_div_mod(k as int, 8);
                    vstd::arithmetic::div_mod::lemma_fundamental_div_mod(n + 9, 8);
                }
            }
            if (bitmap[byte] >> shift) & 1 == 1 {
                out.push(Value::NULL);
                proof {
                    lemma_prepend_values(views(before), ValueView::NULL, bin_row_from(pld@, bitmap@, kinds, i + 1, pos as int));
                    assert(views(out@) =~= views(before).push(ValueView::NULL));
                }
            } else {
                let c = &columns[i];
                match read_bin_value(pld, pos, c.column_type, c.flags & crate::consts::UNSIGNED_FLAG != 0) {
                    Some((v, p)) => {
                        let ghost vv = v@;
                        out.push(v);
                        proof {
                            lemma_prepend_values(views(before), vv, bin_row_from(pld@, bitmap@, kinds, i + 1, p as int));
                            assert(views(out@) =~= views(before).push(vv));
                        }
                        pos = p;
                    },
                    None => {
                        return Err(crate::error::MyError::Protocol);
                    },
                }
            }
            i = i + 1;
        }
        proof {
            assert(views(out@) + Seq::<ValueView>::empty() =~= views(out@));
        }
        Ok(out)
    }

    /// The parameter block of an execute packet: the null bitmap, the inline
    /// values, and the indexes of the values to send as long data.
    pub fn to_bin_payload(values: &[Value], max_allowed_packet: usize) -> (r: (Vec<u8>, Vec<u8>, Vec<u16>))
        requires
            values.len() <= 0xffff,
        ensures
            is_null_bitmap(r.0@, null_flags(views(values@)), 0),
            r.0@ == null_bitmap(null_flags(views(values@)), 0),
            (r.1@, r.2@) == param_values(
                views(values@),
                inline_cap(max_allowed_packet as nat, values.len() as nat),
            ),
    {
        let n = values.len();
        let ghost vs = views(values@);
        let ghost nulls = null_flags(vs);
        let bitmap_len = (n + 7) / 8;
        let overhead = bitmap_len + 8 * n;
        let cap: usize = if max_allowed_packet >= overhead {
            max_allowed_packet - overhead
        } else {
            0
        };
        let mut bitmap: Vec<u8> = Vec::new();
        let mut j: usize = 0;
        while j < bitmap_len
            invariant
                j <= bitmap_len,
                bitmap@ =~= Seq::new(j as nat, |x: int| 0u8),
            decreases bitmap_len - j,
        {
            bitmap.push(0);
            j = j + 1;
        }
        let mut out: Vec<u8> = Vec::new();
        let mut ids: Vec<u16> = Vec::new();
        let mut i: usize = 0;
        proof {
            assert(vs.take(0) =~= Seq::<ValueView>::empty());
            assert forall|k: int| 0 <= k < 8 * bitmap@.len() implies #[trigger] bit(bitmap@, k) == false by {
                lemma_zero_bits((k % 8) as u8);
            }
        }
        while i < n
            invariant
                n == values.len() <= 0xffff,
                vs == views(values@),
                nulls == null_flags(vs),
                bitmap@.len() == bitmap_len == (n + 7) / 8,
                i <= n,
                cap == inline_cap(max_allowed_packet as nat, n as nat),
                (out@, ids@) == param_values(vs.take(i as int), cap as nat),
                forall|k: int| 0 <= k < 8 * bitmap@.len() ==> #[trigger] bit(bitmap@, k) == (k < i && nulls[k]),
            decreases n - i,
        {
            let ghost before = bitmap@;
            proof {
                assert(vs.take(i + 1).drop_last() =~= vs.take(i as int));
                assert(vs.take(i + 1).last() == values@[i as int]@);
            }
            match &values[i] {
                Value::NULL => {
                    let byte = i / 8;
                    let b = bitmap[byte] | (1u8 << ((i % 8) as u8));
                    bitmap.set(byte, b);
                    proof {
                        assert forall|k: int| 0 <= k < 8 * bitmap@.len() implies #[trigger] bit(bitmap@, k) == (k < i + 1 && nulls[k]) by {
                            if k / 8 == byte {
                                lemma_set_bit(before[byte as int], (i % 8) as u8, (k % 8) as u8);
                                assert(bit(before, k) == (k < i && nulls[k]));
                            } else {
                                assert(bit(bitmap@, k) == bit(before, k));
                            }
                        }
                    }
                },
                Value::Bytes(_) => {
                    let val = values[i].to_bin();
                    if val.len() < cap && out.len() < cap - val.len() {
                        crate::bytes::append_slice(&mut out, val.as_slice());
                    } else {
                        ids.push(i as u16);
                    }
                },
                _ => {
                    let val = values[i].to_bin();
                    crate::bytes::append_slice(&mut out, val.as_slice());
                },
            }
            i = i + 1;
        }
        proof {
            assert(vs.take(n as int) =~= vs);
            assert forall|k: int| 0 <= k < 8 * bitmap@.len() implies #[trigger] bit(bitmap@, k) == (0 <= k < nulls.len() + 0 && nulls[k - 0]) by {}
            lemma_null_bitmap_unique(bitmap@, nulls, 0);
        }
        (bitmap, out, ids)
    }
}

impl Value {
    /// Whether this is a byte string.
    pub fn is_bytes(&self) -> (r: bool)
        ensures
            r == (self is Bytes),
    {
        match self {
            Value::Bytes(..) => true,
            _ => false,
        }
    }

    /// The bytes of a byte string.
    pub fn bytes_ref(&self) -> (r: Option<&[u8]>)
        ensures
            match self {
                Value::Bytes(x) => r matches Some(b) && b@ == x@,
                _ => r is None,
            },
    {
        match self {
            Value::Bytes(x) => Some(x.as_slice()),
            _ => None,
        }
    }

    /// The bytes of a byte string, taken out of the value.
    pub fn unwrap_bytes(self) -> (r: Option<Vec<u8>>)
        ensures
            match self {
                Value::Bytes(x) => r matches Some(b) && b@ == x@,
                _ => r is None,
            },
    {
        match self {
            Value::Bytes(x) => Some(x),
            _ => None,
        }
    }

    /// The bytes of a byte string, or `y` for any other value.
    pub fn unwrap_bytes_or(self, y: Vec<u8>) -> (r: Vec<u8>)
        ensures
            r@ == (match self {
                Value::Bytes(x) => x@,
                _ => y@,
            }),
    {
        match self {
            Value::Bytes(x) => x,
            _ => y,
        }
    }

    /// Whether this is a signed integer.
    pub fn is_int(&self) -> (r: bool)
        ensures
            r == (self is Int),
    {
        match self {
            Value::Int(..) => true,
            _ => false,
        }
    }

    /// The signed integer, if this is one.
    pub fn get_int(&self) -> (r: Option<i64>)
        ensures
            r == (match self {
                Value::Int(x) => Some(*x),
                _ => None::<i64>,
            }),
    {
        match self {
            Value::Int(x) => Some(*x),
            _ => None,
        }
    }

    /// The signed integer, or `y` for any other value.
    pub fn get_int_or(&self, y: i64) -> (r: i64)
        ensures
            r == (match self {
                Value::Int(x) => *x,
                _ => y,
            }),
    {
        match self {
            Value::Int(x) => *x,
            _ => y,
        }
    }

    /// Whether this is an unsigned integer.
    pub fn is_uint(&self) -> (r: bool)
        ensures
            r == (self is UInt),
    {
        match self {
            Value::UInt(..) => true,
            _ => false,
        }
    }

    /// The unsigned integer, if this is one.
    pub fn get_uint(&self) -> (r: Option<u64>)
        ensures
            r == (match self {
                Value::UInt(x) => Some(*x),
                _ => None::<u64>,
            }),
    {
        match self {
            Value::UInt(x) => Some(*x),
            _ => None,
        }
    }

    /// The unsigned integer, or `y` for any other value.
    pub fn get_uint_or(&self, y: u64) -> (r: u64)
        ensures
            r == (match self {
                Value::UInt(x) => *x,
                _ => y,
            }),
    {
        match self {
            Value::UInt(x) => *x,
            _ => y,
        }
    }

    /// Whether this is a double.
    pub fn is_float(&self) -> (r: bool)
        ensures
            r == (self is Float),
    {
        match self {
            Value::Float(..) => true,
            _ => false,
        }
    }

    /// The bit pattern of the double, if this is one.
    pub fn get_float(&self) -> (r: Option<u64>)
        ensures
            r == (match self {
                Value::Float(x) => Some(*x),
                _ => None::<u64>,
            }),
    {
        match self {
            Value::Float(x) => Some(*x),
            _ => None,
        }
    }

    /// The bit pattern of the double, or `y` for any other value.
    pub fn get_float_or(&self, y: u64) -> (r: u64)
        ensures
            r == (match self {
                Value::Float(x) => *x,
                _ => y,
            }),
    {
        match self {
            Value::Float(x) => *x,
            _ => y,
        }
    }

    /// Whether this is a date.
    pub fn is_date(&self) -> (r: bool)
        ensures
            r == (self is Date),
    {
        match self {
            Value::Date(..) => true,
            _ => false,
        }
    }

    /// The year of a date.
    pub fn get_year(&self) -> (r: Option<u16>)
        ensures
            r == (match self {
                Value::Date(y, _, _, _, _, _, _) => Some(*y),
                _ => None::<u16>,
            }),
    {
        match self {
            Value::Date(y, _, _, _, _, _, _) => Some(*y),
            _ => None,
        }
    }

    /// The month of a date.
    pub fn get_month(&self) -> (r: Option<u8>)
        ensures
            r == (match self {
                Value::Date(_, m, _, _, _, _, _) => Some(*m),
                _ => None::<u8>,
            }),
    {
        match self {
            Value::Date(_, m, _, _, _, _, _) => Some(*m),
            _ => None,
        }
    }

    /// The day of a date.
    pub fn get_day(&self) -> (r: Option<u8>)
        ensures
            r == (match self {
                Value::Date(_, _, d, _, _, _, _) => Some(*d),
                _ => None::<u8>,
            }),
    {
        match self {
            Value::Date(_, _, d, _, _, _, _) => Some(*d),
            _ => None,
        }
    }

    /// Whether this is a time.
    pub fn is_time(&self) -> (r: bool)
        ensures
            r == (self is Time),
    {
        match self {
            Value::Time(..) => true,
            _ => false,
        }
    }

    /// Whether a time is negative.
    pub fn is_neg(&self) -> (r: Option<bool>)
        ensures
            r == (match self {
                Value::Time(n, _, _, _, _, _) => Some(*n),
                _ => None::<bool>,
            }),
    {
        match self {
            Value::Time(n, _, _, _, _, _) => Some(*n),
            _ => None,
        }
    }

    /// The days of a time.
    pub fn get_days(&self) -> (r: Option<u32>)
        ensures
            r == (match self {
                Value::Time(_, d, _, _, _, _) => Some(*d),
                _ => None::<u32>,
            }),
    {
        match self {
            Value::Time(_, d, _, _, _, _) => Some(*d),
            _ => None,
        }
    }

    /// The hours of a date or a time.
    pub fn get_hour(&self) -> (r: Option<u8>)
        ensures
            r == (match self {
                Value::Date(_, _, _, h, _, _, _) => Some(*h),
                Value::Time(_, _, h, _, _, _) => Some(*h),
                _ => None::<u8>,
            }),
    {
        match self {
            Value::Date(_, _, _, h, _, _, _) => Some(*h),
            Value::Time(_, _, h, _, _, _) => Some(*h),
            _ => None,
        }
    }

    /// The minutes of a date or a time.
    pub fn get_min(&self) -> (r: Option<u8>)
        ensures
            r == (match self {
                Value::Date(_, _, _, _, i, _, _) => Some(*i),
                Value::Time(_, _, _, i, _, _) => Some(*i),
                _ => None::<u8>,
            }),
    {
        match self {
            Value::Date(_, _, _, _, i, _, _) => Some(*i),
            Value::Time(_, _, _, i, _, _) => Some(*i),
            _ => None,
        }
    }

    /// The seconds of a date or a time.
    pub fn get_sec(&self) -> (r: Option<u8>)
        ensures
            r == (match self {
                Value::Date(_, _, _, _, _, s, _) => Some(*s),
                Value::Time(_, _, _, _, s, _) => Some(*s),
                _ => None::<u8>,
            }),
    {
        match self {
            Value::Date(_, _, _, _, _, s, _) => Some(*s),
            Value::Time(_, _, _, _, s, _) => Some(*s),
            _ => None,
        }
    }

    /// The microseconds of a date or a time.
    pub fn get_usec(&self) -> (r: Option<u32>)
        ensures
            r == (match self {
                Value::Date(_, _, _, _, _, _, u) => Some(*u),
                Value::Time(_, _, _, _, _, u) => Some(*u),
                _ => None::<u32>,
            }),
    {
        match self {
            Value::Date(_, _, _, _, _, _, u) => Some(*u),
            Value::Time(_, _, _, _, _, u) => Some(*u),
            _ => None,
        }
    }
}

} // verus!
