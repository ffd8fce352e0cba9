//! The callback that answers the server's requests for local files, and the
//! buffer it writes the file's contents into.

use vstd::prelude::*;

verus! {

/// The callback that the connection calls with the requested file name and a
/// `LocalInfile` to write the contents into.
pub struct LocalInfileHandler<F> {
    pub handler: F,
}

impl<F> LocalInfileHandler<F> {
    /// Wraps the callback `f`.
    pub fn new(f: F) -> (r: Self)
        ensures
            r.handler == f,
    {
        LocalInfileHandler { handler: f }
    }
}

/// How many bytes the buffer holds before it becomes a packet.
pub const BUFFER_SIZE: usize = 4096;

/// The bytes of `packets`, one after the other.
pub open spec fn flat(packets: Seq<Vec<u8>>) -> Seq<u8>
    decreases packets.len(),
{
    if packets.len() == 0 {
        Seq::empty()
    } else {
        flat(packets.drop_last()) + packets.last()@
    }
}

/// The contents of a local file on their way to the server: full packets
/// waiting to be sent, and a buffer of at most `BUFFER_SIZE` bytes.
pub struct LocalInfile {
    pub buffer: Vec<u8>,
    pub packets: Vec<Vec<u8>>,
}

impl LocalInfile {
    /// Every packet holds between one and `BUFFER_SIZE` bytes, and so does
    /// the buffer at most.
    pub open spec fn wf(&self) -> bool {
        &&& self.buffer@.len() <= BUFFER_SIZE
        &&& forall|i: int|
            0 <= i < self.packets@.len() ==> 0 < (#[trigger] self.packets@[i])@.len() <= BUFFER_SIZE
    }

    /// Everything written so far, in order.
    pub open spec fn contents(&self) -> Seq<u8> {
        flat(self.packets@) + self.buffer@
    }

    /// An empty buffer with no packets.
    pub fn new() -> (r: LocalInfile)
        ensures
            r.wf(),
            r.contents() == Seq::<u8>::empty(),
            r.packets@.len() == 0,
    {
        let r = LocalInfile { buffer: Vec::new(), packets: Vec::new() };
        assert(r.contents() =~= Seq::<u8>::empty());
        r
    }

    /// Accepts as much of `buf` as the buffer has room for, after turning a
    /// full buffer into a packet; returns how many bytes it took.
    pub fn write(&mut self, buf: &[u8]) -> (r: usize)
        requires
            old(self).wf(),
        ensures
            final(self).wf(),
            final(self).contents() == old(self).contents() + buf@.take(r as int),
            r == (if old(self).buffer@.len() == BUFFER_SIZE {
                if buf@.len() < BUFFER_SIZE { buf@.len() as int } else { BUFFER_SIZE as int }
            } else if buf@.len() < BUFFER_SIZE - old(self).buffer@.len() {
                buf@.len() as int
            } else {
                BUFFER_SIZE - old(self).buffer@.len()
            }),
    {
        if self.buffer.len() == BUFFER_SIZE {
            self.flush();
        }
        let room = BUFFER_SIZE - self.buffer.len();
        let n = if buf.len() < room {
            buf.len()
        } else {
            room
        };
        let ghost before = self.contents();
        let mut i: usize = 0;
        while i < n
            invariant
                i <= n <= buf.len(),
                self.buffer@.len() + n - i <= BUFFER_SIZE,
                self.wf(),
                self.contents() == before + buf@.take(i as int),
            decreases n - i,
        {
            let ghost old_buf = self.buffer@;
            self.buffer.push(buf[i]);
            proof {
                assert(buf@.take(i + 1) =~= buf@.take(i as int).push(buf@[i as int]));
                assert(flat(self.packets@) + old_buf == before + buf@.take(i as int));
                assert(flat(self.packets@) + self.buffer@ =~= (flat(self.packets@) + old_buf).push(buf@[i as int]));
            }
            i = i + 1;
        }
        n
    }

    /// Turns what the buffer holds, if anything, into a packet.
    pub fn flush(&mut self)
        requires
            old(self).wf(),
        ensures
            final(self).wf(),
            final(self).contents() == old(self).contents(),
            final(self).buffer@.len() == 0,
    {
        if self.buffer.len() > 0 {
            let mut full: Vec<u8> = Vec::new();
            std::mem::swap(&mut full, &mut self.buffer);
            let ghost p = self.packets@;
            self.packets.push(full);
            assert(self.packets@.drop_last() =~= p);
        }
        assert(self.contents() =~= old(self).contents());
    }

    /// Hands out the packets that are ready, in order.
    pub fn take_packets(&mut self) -> (r: Vec<Vec<u8>>)
        requires
            old(self).wf(),
        ensures
            final(self).wf(),
            r@ == old(self).packets@,
            final(self).packets@.len() == 0,
            final(self).buffer@ == old(self).buffer@,
    {
        let mut r: Vec<Vec<u8>> = Vec::new();
        std::mem::swap(&mut r, &mut self.packets);
        r
    }
}

} // verus!
