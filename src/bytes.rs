//! Little-endian integers and length-encoded integers and strings.

use vstd::prelude::*;

verus! {

/// The value of a little-endian byte sequence.
pub open spec fn le_value(s: Seq<u8>) -> nat
    decreases s.len(),
{
    if s.len() == 0 {
        0
    } else {
        s[0] as nat + 256 * le_value(s.drop_first())
    }
}

/// The `width` low bytes of `n`, least significant first.
pub open spec fn le_bytes(n: nat, width: nat) -> Seq<u8>
    decreases width,
{
    if width == 0 {
        Seq::empty()
    } else {
        seq![(n % 256) as u8] + le_bytes(n / 256, (width - 1) as nat)
    }
}

/// `256` to the power `w`.
pub open spec fn pow256(w: nat) -> nat
    decreases w,
{
    if w == 0 {
        1
    } else {
        256 * pow256((w - 1) as nat)
    }
}

/// The little-endian value of `w` bytes at `pos`, if they are there.
pub open spec fn le_at(s: Seq<u8>, pos: int, w: int) -> Option<nat> {
    if 0 <= pos && 0 <= w && pos + w <= s.len() {
        Some(le_value(s.subrange(pos, pos + w)))
    } else {
        None
    }
}

/// Writing in `w` bytes gives `w` bytes.
pub proof fn lemma_le_bytes_len(n: nat, w: nat)
    ensures
        le_bytes(n, w).len() == w,
    decreases w,
{
    if w > 0 {
        lemma_le_bytes_len(n / 256, (w - 1) as nat);
    }
}

/// `s` read little-endian is below `256` to the power of its length.
pub proof fn lemma_le_value_bound(s: Seq<u8>)
    ensures
        le_value(s) < pow256(s.len()),
    decreases s.len(),
{
    if s.len() > 0 {
        lemma_le_value_bound(s.drop_first());
    }
}

/// More bytes hold larger values.
pub proof fn lemma_pow256_mono(a: nat, b: nat)
    requires
        a <= b,
    ensures
        pow256(a) <= pow256(b),
    decreases b,
{
    if a < b {
        lemma_pow256_mono(a, (b - 1) as nat);
    }
}

/// The powers of `256` that the fixed-width fields use.
pub proof fn lemma_pow256_values()
    ensures
        pow256(1) == 0x100,
        pow256(2) == 0x10000,
        pow256(3) == 0x1000000,
        pow256(4) == 0x1_0000_0000,
        pow256(8) == 0x1_0000_0000_0000_0000,
{
    reveal_with_fuel(pow256, 9);
}

/// Writing `n` in `w` bytes and reading them back gives `n`, when it fits.
pub proof fn lemma_le_round_trip(n: nat, w: nat)
    requires
        n < pow256(w),
    ensures
        le_value(le_bytes(n, w)) == n,
        le_bytes(n, w).len() == w,
    decreases w,
{
    lemma_le_bytes_len(n, w);
    if w > 0 {
        let rest = le_bytes(n / 256, (w - 1) as nat);
        assert(n / 256 < pow256((w - 1) as nat));
        lemma_le_round_trip(n / 256, (w - 1) as nat);
        assert(le_bytes(n, w).drop_first() =~= rest);
    }
}

/// Appends the `width` low bytes of `n`, least significant first.
pub fn write_le(out: &mut Vec<u8>, n: u64, width: usize)
    ensures
        final(out)@ == old(out)@ + le_bytes(n as nat, width as nat),
{
    let mut x: u64 = n;
    let mut i: usize = 0;
    while i < width
        invariant
            i <= width,
            out@ + le_bytes(x as nat, (width - i) as nat) == old(out)@ + le_bytes(
                n as nat,
                width as nat,
            ),
        decreases width - i,
    {
        let ghost before = out@;
        out.push((x % 256) as u8);
        proof {
            let k = (width - i) as nat;
            assert(le_bytes(x as nat, k) == seq![(x as nat % 256) as u8] + le_bytes(
                x as nat / 256,
                (k - 1) as nat,
            ));
            assert(out@ + le_bytes((x / 256) as nat, (k - 1) as nat) =~= before + le_bytes(
                x as nat,
                k,
            ));
        }
        x = x / 256;
        i = i + 1;
    }
    assert(out@ =~= out@ + le_bytes(x as nat, 0));
}

/// Reads `width` little-endian bytes at `pos`.
pub fn read_le(buf: &[u8], pos: usize, width: usize) -> (r: Option<u64>)
    requires
        width <= 8,
    ensures
        match r {
            Some(v) => le_at(buf@, pos as int, width as int) == Some(v as nat),
            None => le_at(buf@, pos as int, width as int) is None,
        },
{
    if width > buf.len() || pos > buf.len() - width {
        return None;
    }
    let mut acc: u64 = 0;
    let mut i: usize = width;
    proof {
        lemma_pow256_values();
        lemma_pow256_mono(width as nat, 8);
        reveal_with_fuel(le_value, 1);
        assert(buf@.subrange(pos + width, pos + width) =~= Seq::<u8>::empty());
    }
    while i > 0
        invariant
            i <= width <= 8,
            pos + width <= buf.len(),
            acc as nat == le_value(buf@.subrange(pos + i, pos + width)),
            pow256(8) == 0x1_0000_0000_0000_0000,
            pow256(width as nat) <= pow256(8),
        decreases i,
    {
        i = i - 1;
        proof {
            let s = buf@.subrange(pos + i, pos + width);
            assert(s.drop_first() =~= buf@.subrange(pos + i + 1, pos + width));
            lemma_le_value_bound(buf@.subrange(pos + i + 1, pos + width));
            lemma_pow256_mono((width - i) as nat, width as nat);
            assert(pow256((width - i) as nat) == 256 * pow256((width - i - 1) as nat));
            assert(acc * 256 + buf@[pos + i] < pow256((width - i) as nat)) by (nonlinear_arith)
                requires
                    acc < pow256((width - i - 1) as nat),
                    buf@[pos + i] < 256,
                    pow256((width - i) as nat) == 256 * pow256((width - i - 1) as nat),
            ;
        }
        acc = acc * 256 + buf[pos + i] as u64;
    }
    Some(acc)
}

/// The length-encoded form of `n`.
pub open spec fn lenenc_int(n: u64) -> Seq<u8> {
    if n < 251 {
        seq![n as u8]
    } else if n < 0x10000 {
        seq![0xfcu8] + le_bytes(n as nat, 2)
    } else if n < 0x1000000 {
        seq![0xfdu8] + le_bytes(n as nat, 3)
    } else {
        seq![0xfeu8] + le_bytes(n as nat, 8)
    }
}

/// The length-encoded form of a byte string: its length, then the bytes.
pub open spec fn lenenc_bytes(b: Seq<u8>) -> Seq<u8> {
    lenenc_int(b.len() as u64) + b
}

/// Width of the integer that follows a length-encoded integer's first byte.
pub open spec fn lenenc_width(first: u8) -> int {
    if first == 0xfc {
        2
    } else if first == 0xfd {
        3
    } else {
        8
    }
}

/// Reads a length-encoded integer at `pos`: its value and the position after it.
/// `0xfb` and `0xff` start no integer.
pub open spec fn lenenc_int_at(s: Seq<u8>, pos: int) -> Option<(u64, int)> {
    if pos < 0 || pos >= s.len() {
        None
    } else if s[pos] < 0xfb {
        Some((s[pos] as u64, pos + 1))
    } else if s[pos] == 0xfb || s[pos] == 0xff {
        None
    } else {
        match le_at(s, pos + 1, lenenc_width(s[pos])) {
            Some(v) => Some((v as u64, pos + 1 + lenenc_width(s[pos]))),
            None => None,
        }
    }
}

/// Reads a length-encoded string at `pos`: its bytes and the position after it.
pub open spec fn lenenc_bytes_at(s: Seq<u8>, pos: int) -> Option<(Seq<u8>, int)> {
    match lenenc_int_at(s, pos) {
        Some((n, p)) => if p + n <= s.len() {
            Some((s.subrange(p, p + n), p + n))
        } else {
            None
        },
        None => None,
    }
}

/// A length-encoded integer, followed by anything, reads back as itself, and its
/// length is 1, 3, 4 or 9 bytes by its size.
pub proof fn lemma_lenenc_int_round_trip(n: u64, rest: Seq<u8>)
    ensures
        lenenc_int_at(lenenc_int(n) + rest, 0) == Some((n, lenenc_int(n).len() as int)),
        lenenc_int(n).len() == (if n < 251 {
            1int
        } else if n < 0x10000 {
            3
        } else if n < 0x1000000 {
            4
        } else {
            9
        }),
{
    lemma_pow256_values();
    let e = lenenc_int(n);
    let s = e + rest;
    if n >= 251 {
        let w: nat = if n < 0x10000 {
            2
        } else if n < 0x1000000 {
            3
        } else {
            8
        };
        lemma_le_round_trip(n as nat, w);
        assert(e == seq![e[0]] + le_bytes(n as nat, w));
        assert(s.subrange(1, 1 + w as int) =~= le_bytes(n as nat, w));
    }
}

/// A length-encoded string, followed by anything, reads back as itself.
pub proof fn lemma_lenenc_bytes_round_trip(b: Seq<u8>, rest: Seq<u8>)
    requires
        b.len() <= u64::MAX,
    ensures
        lenenc_bytes_at(lenenc_bytes(b) + rest, 0) == Some((b, lenenc_bytes(b).len() as int)),
{
    let h = lenenc_int(b.len() as u64);
    lemma_lenenc_int_round_trip(b.len() as u64, b + rest);
    assert(lenenc_bytes(b) + rest =~= h + (b + rest));
    assert((h + (b + rest)).subrange(h.len() as int, (h.len() + b.len()) as int) =~= b);
}

/// Appends the length-encoded form of `n`.
pub fn write_lenenc_int(out: &mut Vec<u8>, n: u64)
    ensures
        final(out)@ == old(out)@ + lenenc_int(n),
{
    if n < 251 {
        out.push(n as u8);
    } else if n < 0x10000 {
        out.push(0xfc);
        write_le(out, n, 2);
    } else if n < 0x1000000 {
        out.push(0xfd);
        write_le(out, n, 3);
    } else {
        out.push(0xfe);
        write_le(out, n, 8);
    }
    assert(out@ =~= old(out)@ + lenenc_int(n));
}

/// Appends `b` as a length-encoded string.
pub fn write_lenenc_bytes(out: &mut Vec<u8>, b: &[u8])
    ensures
        final(out)@ == old(out)@ + lenenc_bytes(b@),
{
    write_lenenc_int(out, b.len() as u64);
    append_slice(out, b);
    assert(out@ =~= old(out)@ + lenenc_bytes(b@));
}

/// Appends the bytes of `b`.
pub fn append_slice(out: &mut Vec<u8>, b: &[u8])
    ensures
        final(out)@ == old(out)@ + b@,
{
    let mut i: usize = 0;
    while i < b.len()
        invariant
            i <= b.len(),
            out@ == old(out)@ + b@.subrange(0, i as int),
        decreases b.len() - i,
    {
        out.push(b[i]);
        i = i + 1;
        assert(out@ =~= old(out)@ + b@.subrange(0, i as int));
    }
    assert(b@.subrange(0, b.len() as int) =~= b@);
}

/// The bytes of `buf` from `start` to `end`.
pub fn copy_range(buf: &[u8], start: usize, end: usize) -> (r: Vec<u8>)
    requires
        start <= end <= buf.len(),
    ensures
        r@ == buf@.subrange(start as int, end as int),
{
    let mut r: Vec<u8> = Vec::with_capacity(end - start);
    let mut i: usize = start;
    while i < end
        invariant
            start <= i <= end <= buf.len(),
            r@ == buf@.subrange(start as int, i as int),
        decreases end - i,
    {
        r.push(buf[i]);
        i = i + 1;
        assert(r@ =~= buf@.subrange(start as int, i as int));
    }
    r
}

/// Reads a length-encoded integer at `pos`.
pub fn read_lenenc_int(buf: &[u8], pos: usize) -> (r: Option<(u64, usize)>)
    ensures
        match r {
            Some((v, p)) => lenenc_int_at(buf@, pos as int) == Some((v, p as int)),
            None => lenenc_int_at(buf@, pos as int) is None,
        },
{
    if pos >= buf.len() {
        return None;
    }
    let first = buf[pos];
    if first < 0xfb {
        return Some((first as u64, pos + 1));
    }
    if first == 0xfb || first == 0xff {
        return None;
    }
    let width: usize = if first == 0xfc {
        2
    } else if first == 0xfd {
        3
    } else {
        8
    };
    match read_le(buf, pos + 1, width) {
        Some(v) => Some((v, pos + 1 + width)),
        None => None,
    }
}

/// Reads a length-encoded string at `pos`.
pub fn read_lenenc_bytes(buf: &[u8], pos: usize) -> (r: Option<(Vec<u8>, usize)>)
    ensures
        match r {
            Some((b, p)) => lenenc_bytes_at(buf@, pos as int) == Some((b@, p as int)),
            None => lenenc_bytes_at(buf@, pos as int) is None,
        },
{
    match read_lenenc_int(buf, pos) {
        Some((n, p)) => {
            if n > (buf.len() - p) as u64 {
                None
            } else {
                let end = p + n as usize;
                Some((copy_range(buf, p, end), end))
            }
        },
        None => None,
    }
}

/// Reads a little-endian `u16` at `pos`.
pub fn read_u16_le(buf: &[u8], pos: usize) -> (r: Option<u16>)
    ensures
        match r {
            Some(v) => le_at(buf@, pos as int, 2) == Some(v as nat),
            None => le_at(buf@, pos as int, 2) is None,
        },
{
    match read_le(buf, pos, 2) {
        Some(v) => {
            proof {
                lemma_le_value_bound(buf@.subrange(pos as int, pos + 2));
                lemma_pow256_values();
            }
            Some(v as u16)
        },
        None => None,
    }
}

/// Reads a little-endian `u32` at `pos`.
pub fn read_u32_le(buf: &[u8], pos: usize) -> (r: Option<u32>)
    ensures
        match r {
            Some(v) => le_at(buf@, pos as int, 4) == Some(v as nat),
            None => le_at(buf@, pos as int, 4) is None,
        },
{
    match read_le(buf, pos, 4) {
        Some(v) => {
            proof {
                lemma_le_value_bound(buf@.subrange(pos as int, pos + 4));
                lemma_pow256_values();
            }
            Some(v as u32)
        },
        None => None,
    }
}

} // verus!
