//! Framing of logical packets into physical frames: a 3-byte little-endian
//! length, a 1-byte sequence id, then the payload.

use vstd::prelude::*;
use crate::bytes::{le_bytes, le_value, read_le, write_le, append_slice};
use crate::bytes::{lemma_le_round_trip, lemma_le_bytes_len, lemma_pow256_values};

verus! {

/// The largest payload of one physical frame.
pub const MAX_PAYLOAD_LEN: usize = 0xffffff;

/// Why a logical packet could not be read from the bytes at hand.
#[derive(Clone, Copy, Debug, PartialEq, Eq)]
pub enum FrameError {
    /// The bytes end before the packet does.
    Incomplete,
    /// A frame carries another sequence id than the one expected.
    OutOfSync,
}

/// The sequence id `k` steps after `s`, modulo 256.
pub open spec fn next_seq(s: u8, k: nat) -> u8 {
    ((s as nat + k) % 256) as u8
}

/// One frame: the chunk's length in three bytes, the sequence id, the chunk.
pub open spec fn frame(chunk: Seq<u8>, seq_id: u8) -> Seq<u8> {
    le_bytes(chunk.len(), 3) + seq![seq_id] + chunk
}

/// The frames that carry `payload`: full chunks of `MAX_PAYLOAD_LEN` while they
/// last, then one shorter (possibly empty) chunk.
pub open spec fn frames_of(payload: Seq<u8>, seq_id: u8) -> Seq<u8>
    decreases payload.len(),
{
    if payload.len() < MAX_PAYLOAD_LEN {
        frame(payload, seq_id)
    } else {
        frame(payload.take(MAX_PAYLOAD_LEN as int), seq_id) + frames_of(
            payload.skip(MAX_PAYLOAD_LEN as int),
            next_seq(seq_id, 1),
        )
    }
}

/// How many frames carry a payload of `len` bytes.
pub open spec fn frame_count(len: nat) -> nat {
    len / (MAX_PAYLOAD_LEN as nat) + 1
}

/// Reads one logical packet from the front of `wire`, expecting `seq_id` on its
/// first frame: the payload, the bytes consumed, and the next expected id.
pub open spec fn parse_packet(wire: Seq<u8>, seq_id: u8) -> Result<(Seq<u8>, nat, u8), FrameError>
    decreases wire.len(),
{
    if wire.len() < 4 {
        Err(FrameError::Incomplete)
    } else if wire[3] != seq_id {
        Err(FrameError::OutOfSync)
    } else {
        let l = le_value(wire.take(3)) as int;
        if wire.len() < 4 + l {
            Err(FrameError::Incomplete)
        } else if l == MAX_PAYLOAD_LEN {
            match parse_packet(wire.skip(4 + l), next_seq(seq_id, 1)) {
                Ok((p, c, s)) => Ok((wire.subrange(4, 4 + l) + p, (4 + l + c) as nat, s)),
                Err(e) => Err(e),
            }
        } else {
            Ok((wire.subrange(4, 4 + l), (4 + l) as nat, next_seq(seq_id, 1)))
        }
    }
}

/// `r` with `prefix` put before its payload and `consumed` added to its count.
pub open spec fn prepend(
    prefix: Seq<u8>,
    consumed: nat,
    r: Result<(Seq<u8>, nat, u8), FrameError>,
) -> Result<(Seq<u8>, nat, u8), FrameError> {
    match r {
        Ok((p, c, s)) => Ok((prefix + p, consumed + c, s)),
        Err(e) => Err(e),
    }
}

proof fn lemma_prepend_empty(r: Result<(Seq<u8>, nat, u8), FrameError>)
    ensures
        prepend(Seq::empty(), 0, r) == r,
{
    if let Ok((p, c, s)) = r {
        assert(Seq::<u8>::empty() + p =~= p);
    }
}

proof fn lemma_prepend_twice(
    a: Seq<u8>,
    b: Seq<u8>,
    ca: nat,
    cb: nat,
    r: Result<(Seq<u8>, nat, u8), FrameError>,
)
    ensures
        prepend(a, ca, prepend(b, cb, r)) == prepend(a + b, ca + cb, r),
{
    if let Ok((p, c, s)) = r {
        assert(a + (b + p) =~= (a + b) + p);
    }
}

proof fn lemma_frame_header(chunk: Seq<u8>, seq_id: u8, rest: Seq<u8>)
    requires
        chunk.len() <= MAX_PAYLOAD_LEN,
    ensures
        ({
            let w = frame(chunk, seq_id) + rest;
            &&& frame(chunk, seq_id).len() == 4 + chunk.len()
            &&& w[3] == seq_id
            &&& le_value(w.take(3)) == chunk.len()
            &&& w.subrange(4, 4 + chunk.len() as int) == chunk
            &&& w.skip(4 + chunk.len() as int) == rest
        }),
{
    lemma_pow256_values();
    lemma_le_round_trip(chunk.len(), 3);
    let w = frame(chunk, seq_id) + rest;
    assert(w.take(3) =~= le_bytes(chunk.len(), 3));
    assert(w.subrange(4, 4 + chunk.len() as int) =~= chunk);
    assert(w.skip(4 + chunk.len() as int) =~= rest);
}

/// Encoding a payload into frames and reading them back, with anything after
/// them, gives the payload, the frames' length, and the id after the last frame.
pub proof fn lemma_frames_round_trip(payload: Seq<u8>, seq_id: u8, rest: Seq<u8>)
    ensures
        parse_packet(frames_of(payload, seq_id) + rest, seq_id) == Ok::<_, FrameError>(
            (
                payload,
                frames_of(payload, seq_id).len(),
                next_seq(seq_id, frame_count(payload.len())),
            ),
        ),
    decreases payload.len(),
{
    let m = MAX_PAYLOAD_LEN as nat;
    if payload.len() < m {
        lemma_frame_header(payload, seq_id, rest);
        assert(payload.len() / m == 0);
    } else {
        let head = payload.take(m as int);
        let tail = payload.skip(m as int);
        let s1 = next_seq(seq_id, 1);
        lemma_frames_round_trip(tail, s1, rest);
        lemma_frame_header(head, seq_id, frames_of(tail, s1) + rest);
        let w = frames_of(payload, seq_id) + rest;
        assert(w =~= frame(head, seq_id) + (frames_of(tail, s1) + rest));
        assert(head + tail =~= payload);
        assert(tail.len() / m + 1 == payload.len() / m) by {
            vstd::arithmetic::div_mod::lemma_div_plus_one(tail.len() as int, m as int);
        }
        assert(next_seq(s1, frame_count(tail.len())) == next_seq(seq_id, frame_count(payload.len())));
    }
}

/// The frames of a payload take its length plus four bytes a frame.
pub proof fn lemma_frames_len(payload: Seq<u8>, seq_id: u8)
    ensures
        frames_of(payload, seq_id).len() == payload.len() + 4 * frame_count(payload.len()),
    decreases payload.len(),
{
    let m = MAX_PAYLOAD_LEN as nat;
    lemma_le_bytes_len(payload.len(), 3);
    if payload.len() >= m {
        let tail = payload.skip(m as int);
        lemma_frames_len(tail, next_seq(seq_id, 1));
        lemma_le_bytes_len(m, 3);
        vstd::arithmetic::div_mod::lemma_div_plus_one(tail.len() as int, m as int);
    } else {
        assert(payload.len() / m == 0);
    }
}

/// A non-empty payload whose length is a multiple of `MAX_PAYLOAD_LEN` ends
/// with an empty frame.
pub proof fn lemma_frames_trailing_empty(payload: Seq<u8>, seq_id: u8)
    requires
        payload.len() > 0,
        payload.len() % (MAX_PAYLOAD_LEN as nat) == 0,
    ensures
        ({
            let f = frames_of(payload, seq_id);
            let n = f.len() as int;
            f.subrange(n - 4, n) == seq![0u8, 0u8, 0u8, next_seq(
                seq_id,
                payload.len() / (MAX_PAYLOAD_LEN as nat),
            )]
        }),
    decreases payload.len(),
{
    let m = MAX_PAYLOAD_LEN as nat;
    let tail = payload.skip(m as int);
    let s1 = next_seq(seq_id, 1);
    let f = frames_of(payload, seq_id);
    let head = frame(payload.take(m as int), seq_id);
    lemma_frames_len(tail, s1);
    lemma_frames_len(payload, seq_id);
    vstd::arithmetic::div_mod::lemma_div_plus_one(tail.len() as int, m as int);
    vstd::arithmetic::div_mod::lemma_mod_sub_multiples_vanish(payload.len() as int, m as int);
    assert(f == head + frames_of(tail, s1));
    if tail.len() == 0 {
        let e = frames_of(tail, s1);
        lemma_le_bytes_len(0, 3);
        reveal_with_fuel(le_bytes, 4);
        assert(e =~= seq![0u8, 0u8, 0u8, s1]);
        assert(f.subrange(f.len() - 4, f.len() as int) =~= e);
        assert(payload.len() / m == 1) by {
            vstd::arithmetic::div_mod::lemma_div_basics(m as int);
        }
    } else {
        lemma_frames_trailing_empty(tail, s1);
        let g = frames_of(tail, s1);
        assert(f.subrange(f.len() - 4, f.len() as int) =~= g.subrange(g.len() - 4, g.len() as int));
    }
}

/// Frame `i` of a payload carries the sequence id `i` steps after the first,
/// and every frame but the last is a full one.
#[verifier::rlimit(40)]
pub proof fn lemma_frame_seq_ids(payload: Seq<u8>, seq_id: u8, i: nat)
    requires
        i < frame_count(payload.len()),
    ensures
        frames_of(payload, seq_id)[(i * (MAX_PAYLOAD_LEN as nat + 4) + 3) as int] == next_seq(seq_id, i),
    decreases i,
{
    let m = MAX_PAYLOAD_LEN as nat;
    if payload.len() < m {
        assert(payload.len() / m == 0);
        lemma_frame_header(payload, seq_id, Seq::empty());
        assert(frames_of(payload, seq_id) =~= frame(payload, seq_id) + Seq::<u8>::empty());
        assert(i == 0);
        assert(i * (m + 4) + 3 == 3) by (nonlinear_arith)
            requires
                i == 0,
        ;
    } else {
        let tail = payload.skip(m as int);
        let s1 = next_seq(seq_id, 1);
        let head = payload.take(m as int);
        let f = frames_of(payload, seq_id);
        lemma_frame_header(head, seq_id, frames_of(tail, s1));
        assert(f == frame(head, seq_id) + frames_of(tail, s1));
        vstd::arithmetic::div_mod::lemma_div_plus_one(tail.len() as int, m as int);
        if i == 0 {
            assert(f[3] == seq_id);
            assert(i * (m + 4) + 3 == 3) by (nonlinear_arith)
            requires
                i == 0,
        ;
        } else {
            lemma_frame_seq_ids(tail, s1, (i - 1) as nat);
            let j = (i - 1) * (m + 4) + 3;
            assert(i * (m + 4) + 3 == (m + 4) + j) by (nonlinear_arith)
                requires
                    j == (i - 1) * (m + 4) + 3,
                    i >= 1,
            ;
            lemma_frames_len(tail, s1);
            assert(j < frames_of(tail, s1).len()) by (nonlinear_arith)
                requires
                    i - 1 < tail.len() / m + 1,
                    j == (i - 1) * (m + 4) + 3,
                    frames_of(tail, s1).len() == tail.len() + 4 * (tail.len() / m + 1),
                    tail.len() >= m * (tail.len() / m),
                    m > 0,
            {
            }
            assert(tail.len() >= m * (tail.len() / m)) by {
                vstd::arithmetic::div_mod::lemma_fundamental_div_mod(tail.len() as int, m as int);
            }
            assert(f[(m + 4) + j] == frames_of(tail, s1)[j as int]);
            assert(next_seq(s1, (i - 1) as nat) == next_seq(seq_id, i));
        }
    }
}

/// Appends one frame carrying `chunk`.
fn write_frame(out: &mut Vec<u8>, chunk: &[u8], seq_id: u8)
    requires
        chunk.len() <= MAX_PAYLOAD_LEN,
    ensures
        final(out)@ == old(out)@ + frame(chunk@, seq_id),
{
    write_le(out, chunk.len() as u64, 3);
    out.push(seq_id);
    append_slice(out, chunk);
    assert(out@ =~= old(out)@ + frame(chunk@, seq_id));
}

proof fn lemma_encode_step(payload: Seq<u8>, pos: nat, cur: u8, before: Seq<u8>, chunk: Seq<u8>)
    requires
        pos + MAX_PAYLOAD_LEN <= payload.len(),
        chunk == payload.subrange(pos as int, pos + MAX_PAYLOAD_LEN),
    ensures
        before + frame(chunk, cur) + frames_of(payload.skip(pos + MAX_PAYLOAD_LEN), next_seq(cur, 1))
            == before + frames_of(payload.skip(pos as int), cur),
{
    let m = MAX_PAYLOAD_LEN as int;
    let rest = payload.skip(pos as int);
    assert(chunk =~= rest.take(m));
    assert(rest.skip(m) =~= payload.skip(pos + m));
    assert(frames_of(rest, cur) == frame(rest.take(m), cur) + frames_of(rest.skip(m), next_seq(cur, 1)));
    assert(before + frame(chunk, cur) + frames_of(payload.skip(pos + m), next_seq(cur, 1)) =~= before
        + frames_of(rest, cur));
}

/// Encodes `payload` into frames, the first carrying `seq_id`; returns the
/// bytes and the sequence id that the next frame would carry.
#[verifier::rlimit(50)]
pub fn encode_packet(payload: &[u8], seq_id: u8) -> (r: (Vec<u8>, u8))
    ensures
        r.0@ == frames_of(payload@, seq_id),
        r.1 == next_seq(seq_id, frame_count(payload@.len())),
{
    let ghost m = MAX_PAYLOAD_LEN as nat;
    let mut out: Vec<u8> = Vec::new();
    let mut pos: usize = 0;
    let mut cur: u8 = seq_id;
    let ghost mut k: nat = 0;
    assert(out@ + payload@.skip(0) =~= payload@);
    while payload.len() - pos >= MAX_PAYLOAD_LEN
        invariant
            pos <= payload.len(),
            pos == k * m,
            m == MAX_PAYLOAD_LEN,
            cur == next_seq(seq_id, k),
            out@ + frames_of(payload@.skip(pos as int), cur) == frames_of(payload@, seq_id),
            frame_count(payload@.len()) == k + frame_count((payload.len() - pos) as nat),
        decreases payload.len() - pos,
    {
        let end = pos + MAX_PAYLOAD_LEN;
        let chunk = crate::bytes::copy_range(payload, pos, end);
        let ghost before = out@;
        write_frame(&mut out, chunk.as_slice(), cur);
        proof {
            lemma_encode_step(payload@, pos as nat, cur, before, chunk@);
            vstd::arithmetic::div_mod::lemma_div_plus_one(
                (payload.len() - end) as int,
                m as int,
            );
            k = k + 1;
            assert(end == k * m) by (nonlinear_arith)
                requires
                    end == pos + m,
                    pos == (k - 1) * m,
            ;
        }
        cur = if cur == 255 {
            0
        } else {
            cur + 1
        };
        pos = end;
    }
    let last = crate::bytes::copy_range(payload, pos, payload.len());
    let ghost before = out@;
    write_frame(&mut out, last.as_slice(), cur);
    proof {
        assert(last@ =~= payload@.skip(pos as int));
        assert((payload.len() - pos) as nat / m == 0);
    }
    let next = if cur == 255 {
        0
    } else {
        cur + 1
    };
    (out, next)
}

/// Reads one logical packet from the front of `wire`, expecting `seq_id` on its
/// first frame; returns the payload, the bytes consumed, and the next expected id.
#[verifier::rlimit(50)]
pub fn decode_packet(wire: &[u8], seq_id: u8) -> (r: Result<(Vec<u8>, usize, u8), FrameError>)
    ensures
        match r {
            Ok((p, c, s)) => parse_packet(wire@, seq_id) == Ok::<_, FrameError>(
                (p@, c as nat, s),
            ),
            Err(e) => parse_packet(wire@, seq_id) == Err::<(Seq<u8>, nat, u8), _>(e),
        },
{
    let mut out: Vec<u8> = Vec::new();
    let mut pos: usize = 0;
    let mut cur: u8 = seq_id;
    proof {
        assert(wire@.skip(0) =~= wire@);
        lemma_prepend_empty(parse_packet(wire@, seq_id));
    }
    loop
        invariant
            pos <= wire.len(),
            parse_packet(wire@, seq_id) == prepend(
                out@,
                pos as nat,
                parse_packet(wire@.skip(pos as int), cur),
            ),
        decreases wire.len() - pos,
    {
        let ghost w = wire@.skip(pos as int);
        if wire.len() - pos < 4 {
            return Err(FrameError::Incomplete);
        }
        if wire[pos + 3] != cur {
            return Err(FrameError::OutOfSync);
        }
        let len = match read_le(wire, pos, 3) {
            Some(v) => {
                proof {
                    crate::bytes::lemma_le_value_bound(wire@.subrange(pos as int, pos + 3));
                    lemma_pow256_values();
                }
                v as usize
            },
            None => {
                return Err(FrameError::Incomplete);
            },
        };
        proof {
            assert(w.take(3) =~= wire@.subrange(pos as int, pos + 3));
            crate::bytes::lemma_le_value_bound(w.take(3));
            lemma_pow256_values();
        }
        if wire.len() - pos - 4 < len {
            return Err(FrameError::Incomplete);
        }
        let end = pos + 4 + len;
        let next = if cur == 255 {
            0
        } else {
            cur + 1
        };
        let ghost before = out@;
        append_slice(&mut out, &wire[pos + 4..end]);
        proof {
            assert(wire@.subrange(pos + 4, end as int) =~= w.subrange(4, 4 + len));
            assert(w.skip(4 + len) =~= wire@.skip(end as int));
        }
        if len < MAX_PAYLOAD_LEN {
            return Ok((out, end, next));
        }
        proof {
            let chunk = w.subrange(4, 4 + len);
            assert(out@ == before + chunk);
            lemma_prepend_twice(before, chunk, pos as nat, (4 + len) as nat, parse_packet(wire@.skip(end as int), next));
        }
        pos = end;
        cur = next;
    }
}

/// Reading a packet moves the expected sequence id on by one for each frame
/// that carried it: the frames of a response carry consecutive ids.
pub proof fn lemma_inbound_seq(wire: Seq<u8>, seq_id: u8)
    requires
        parse_packet(wire, seq_id) is Ok,
    ensures
        ({
            let (p, c, s) = parse_packet(wire, seq_id)->Ok_0;
            s == next_seq(seq_id, frame_count(p.len()))
        }),
    decreases wire.len(),
{
    let m = MAX_PAYLOAD_LEN as nat;
    let l = le_value(wire.take(3)) as int;
    if l == m {
        let rest = wire.skip(4 + l);
        lemma_inbound_seq(rest, next_seq(seq_id, 1));
        let (p, c, s) = parse_packet(rest, next_seq(seq_id, 1))->Ok_0;
        let chunk = wire.subrange(4, 4 + l);
        assert((chunk + p).len() == p.len() + m);
        vstd::arithmetic::div_mod::lemma_div_plus_one(p.len() as int, m as int);
    } else {
        crate::bytes::lemma_le_value_bound(wire.take(3));
        lemma_pow256_values();
        assert(wire.subrange(4, 4 + l).len() < m);
        assert(wire.subrange(4, 4 + l).len() / m == 0);
    }
}

/// In an exchange, the request's frames carry the ids `0, 1, ...` and the
/// response is read from the next id on; after it, the expected id has moved
/// on by the number of frames of both, modulo 256.
pub proof fn lemma_exchange_seq(request: Seq<u8>, wire: Seq<u8>)
    requires
        parse_packet(wire, next_seq(0, frame_count(request.len()))) is Ok,
    ensures
        forall|i: nat|
            i < frame_count(request.len()) ==> #[trigger] frames_of(request, 0)[(i * (
            MAX_PAYLOAD_LEN as nat + 4) + 3) as int] == (i % 256) as u8,
        ({
            let (p, c, s) = parse_packet(wire, next_seq(0, frame_count(request.len())))->Ok_0;
            s == next_seq(0, frame_count(request.len()) + frame_count(p.len()))
        }),
{
    assert forall|i: nat| i < frame_count(request.len()) implies #[trigger] frames_of(request, 0)[(i
        * (MAX_PAYLOAD_LEN as nat + 4) + 3) as int] == (i % 256) as u8 by {
        lemma_frame_seq_ids(request, 0, i);
    }
    let first = next_seq(0, frame_count(request.len()));
    lemma_inbound_seq(wire, first);
    let (p, c, s) = parse_packet(wire, first)->Ok_0;
    let a = frame_count(request.len()) as int;
    let b = frame_count(p.len()) as int;
    vstd::arithmetic::div_mod::lemma_add_mod_noop(a, b, 256);
    vstd::arithmetic::div_mod::lemma_mod_twice(b, 256);
    assert((a % 256) % 256 == a % 256) by {
        vstd::arithmetic::div_mod::lemma_mod_twice(a, 256);
    }
}

} // verus!
