//! Pipes: a ring of 32 bytes between a write end and a read end.
use vstd::prelude::*;

verus! {

/// Number of bytes that a pipe holds at most.
pub const RING_BUFFER_SIZE: usize = 32;

/// Whether the ring is full, empty, or neither.
#[derive(Copy, Clone, PartialEq, Eq, Structural, Debug)]
pub enum RingBufferStatus {
    Full,
    Empty,
    Normal,
}

/// One end of a pipe: whether it is the end that reads or the end that
/// writes, and the ring that it belongs to.
#[derive(Copy, Clone, PartialEq, Eq, Structural, Debug)]
pub struct Pipe {
    pub readable: bool,
    pub writable: bool,
    pub buffer: usize,
}

impl Pipe {
    /// The read end of the pipe with ring `buffer`.
    pub fn read_end_with_buffer(buffer: usize) -> (r: Self)
        ensures
            r == (Pipe { readable: true, writable: false, buffer }),
    {
        Self { readable: true, writable: false, buffer }
    }

    /// The write end of the pipe with ring `buffer`.
    pub fn write_end_with_buffer(buffer: usize) -> (r: Self)
        ensures
            r == (Pipe { readable: false, writable: true, buffer }),
    {
        Self { readable: false, writable: true, buffer }
    }

    pub fn readable(&self) -> (r: bool)
        ensures
            r == self.readable,
    {
        self.readable
    }

    pub fn writable(&self) -> (r: bool)
        ensures
            r == self.writable,
    {
        self.writable
    }
}

/// The ring of a pipe: its bytes, the places of the oldest byte and of the
/// next free byte, whether it is full or empty, and, once the write end is
/// made, the number of holders of the write end.
pub struct PipeRingBuffer {
    pub arr: [u8; 32],
    pub head: usize,
    pub tail: usize,
    pub status: RingBufferStatus,
    pub write_end: Option<usize>,
}

/// The `n` bytes of a ring from place `from` on, going round at the end.
pub open spec fn ring_bytes(arr: Seq<u8>, from: int, n: int) -> Seq<u8> {
    Seq::new(n as nat, |i: int| arr[(from + i) % 32])
}

impl PipeRingBuffer {
    /// Number of bytes in the ring.
    pub open spec fn count(&self) -> int {
        match self.status {
            RingBufferStatus::Empty => 0,
            RingBufferStatus::Full => 32,
            RingBufferStatus::Normal => if self.tail > self.head {
                self.tail - self.head
            } else {
                self.tail + 32 - self.head
            },
        }
    }

    /// The bytes in the ring, the oldest first.
    pub open spec fn contents(&self) -> Seq<u8> {
        ring_bytes(self.arr@, self.head as int, self.count())
    }

    /// Head and tail lie in the ring; they are equal just when the ring is
    /// full or empty.
    pub open spec fn wf(&self) -> bool {
        &&& self.head < 32
        &&& self.tail < 32
        &&& (self.status == RingBufferStatus::Normal) == (self.head != self.tail)
    }

    /// An empty ring whose write end is not made yet.
    pub fn new() -> (r: Self)
        ensures
            r.wf(),
            r.contents() == Seq::<u8>::empty(),
            r.status == RingBufferStatus::Empty,
            r.write_end.is_none(),
    {
        let r = Self {
            arr: [0; 32],
            head: 0,
            tail: 0,
            status: RingBufferStatus::Empty,
            write_end: None,
        };
        assert(r.contents() =~= Seq::<u8>::empty());
        r
    }

    /// Records that the write end is made and has one holder.
    pub fn set_write_end(&mut self)
        ensures
            final(self).write_end == Some(1usize),
            final(self).arr == old(self).arr,
            final(self).head == old(self).head,
            final(self).tail == old(self).tail,
            final(self).status == old(self).status,
    {
        self.write_end = Some(1);
    }

    /// Puts `byte` behind the bytes in the ring, which must not be full.
    pub fn write_byte(&mut self, byte: u8)
        requires
            old(self).wf(),
            old(self).status != RingBufferStatus::Full,
        ensures
            final(self).wf(),
            final(self).contents() == old(self).contents().push(byte),
            final(self).write_end == old(self).write_end,
    {
        self.status = RingBufferStatus::Normal;
        self.arr[self.tail] = byte;
        self.tail = (self.tail + 1) % RING_BUFFER_SIZE;
        if self.tail == self.head {
            self.status = RingBufferStatus::Full;
        }
        proof {
            let n = old(self).count();
            assert(self.count() == n + 1);
            assert forall|i: int| 0 <= i < n + 1 implies self.contents()[i] == old(self).contents().push(byte)[i] by {
                let p = (old(self).head + i) % 32;
                if i < n {
                    assert(p != old(self).tail);
                } else {
                    assert(p == old(self).tail);
                }
            }
            assert(self.contents() =~= old(self).contents().push(byte));
        }
    }

    /// Takes the oldest byte out of the ring, which must not be empty.
    pub fn read_byte(&mut self) -> (c: u8)
        requires
            old(self).wf(),
            old(self).status != RingBufferStatus::Empty,
        ensures
            final(self).wf(),
            c == old(self).contents()[0],
            final(self).contents() == old(self).contents().skip(1),
            final(self).write_end == old(self).write_end,
    {
        self.status = RingBufferStatus::Normal;
        let c = self.arr[self.head];
        self.head = (self.head + 1) % RING_BUFFER_SIZE;
        if self.head == self.tail {
            self.status = RingBufferStatus::Empty;
        }
        proof {
            let n = old(self).count();
            assert(self.count() == n - 1);
            assert forall|i: int| 0 <= i < n - 1 implies self.contents()[i] == old(self).contents().skip(1)[i] by {
                assert((self.head + i) % 32 == (old(self).head + (i + 1)) % 32);
            }
            assert(self.contents() =~= old(self).contents().skip(1));
        }
        c
    }

    /// Number of bytes that can be read from the ring: none from an empty
    /// ring, and else those from the head up to the tail, going round at
    /// the end.
    pub open spec fn readable_bytes(&self) -> int {
        if self.status == RingBufferStatus::Empty {
            0
        } else if self.tail > self.head {
            self.tail - self.head
        } else {
            self.tail + 32 - self.head
        }
    }

    /// Number of bytes that can be written to the ring: none to a full ring,
    /// and else the places that hold no byte to read.
    pub open spec fn writable_bytes(&self) -> int {
        if self.status == RingBufferStatus::Full {
            0
        } else {
            32 - self.readable_bytes()
        }
    }

    /// Number of bytes that can be read.
    pub fn available_read(&self) -> (r: usize)
        requires
            self.wf(),
        ensures
            r == self.readable_bytes(),
            r == self.contents().len(),
            r == self.count(),
            (r == 0) == (self.status == RingBufferStatus::Empty),
    {
        if self.status == RingBufferStatus::Empty {
            0
        } else if self.tail > self.head {
            self.tail - self.head
        } else {
            self.tail + RING_BUFFER_SIZE - self.head
        }
    }

    /// Number of bytes that can be written.
    pub fn available_write(&self) -> (r: usize)
        requires
            self.wf(),
        ensures
            r == self.writable_bytes(),
            r == 32 - self.contents().len(),
            (r == 0) == (self.status == RingBufferStatus::Full),
    {
        if self.status == RingBufferStatus::Full {
            0
        } else {
            RING_BUFFER_SIZE - self.available_read()
        }
    }

    /// Whether nobody holds the write end any more; the write end must have
    /// been made.
    pub fn all_write_ends_closed(&self) -> (r: bool)
        requires
            self.write_end.is_some(),
        ensures
            r == (self.write_end == Some(0usize)),
    {
        match self.write_end {
            Some(n) => n == 0,
            None => false,
        }
    }

    /// Reads up to `max` bytes, the oldest first.
    pub fn read_up_to(&mut self, max: usize) -> (v: Vec<u8>)
        requires
            old(self).wf(),
        ensures
            final(self).wf(),
            final(self).write_end == old(self).write_end,
            v@.len() == if max < old(self).count() {
                max as int
            } else {
                old(self).count()
            },
            v@ == old(self).contents().take(v@.len() as int),
            final(self).contents() == old(self).contents().skip(v@.len() as int),
    {
        let mut v: Vec<u8> = Vec::new();
        let avail = self.available_read();
        let n: usize = if max < avail {
            max
        } else {
            avail
        };
        while v.len() < n
            invariant
                self.wf(),
                self.write_end == old(self).write_end,
                n <= old(self).count(),
                v@.len() <= n,
                self.count() == old(self).count() - v@.len(),
                v@ == old(self).contents().take(v@.len() as int),
                self.contents() == old(self).contents().skip(v@.len() as int),
            decreases n - v@.len(),
        {
            let ghost before = v@;
            let ghost k = v@.len() as int;
            let c = self.read_byte();
            v.push(c);
            proof {
                assert(c == old(self).contents()[k]);
                assert(v@ =~= old(self).contents().take(k + 1));
                assert(self.contents() =~= old(self).contents().skip(k + 1));
            }
        }
        v
    }

    /// Writes the first bytes of `data`, as many as the ring has room for,
    /// and gives their number.
    pub fn write_up_to(&mut self, data: &[u8]) -> (n: usize)
        requires
            old(self).wf(),
        ensures
            final(self).wf(),
            final(self).write_end == old(self).write_end,
            n == if data@.len() < 32 - old(self).count() {
                data@.len() as int
            } else {
                32 - old(self).count()
            },
            final(self).contents() == old(self).contents() + data@.take(n as int),
    {
        let room = self.available_write();
        let n: usize = if data.len() < room {
            data.len()
        } else {
            room
        };
        let mut k: usize = 0;
        while k < n
            invariant
                self.wf(),
                self.write_end == old(self).write_end,
                k <= n <= data@.len(),
                n <= 32 - old(self).count(),
                self.count() == old(self).count() + k,
                self.contents() == old(self).contents() + data@.take(k as int),
            decreases n - k,
        {
            self.write_byte(data[k]);
            proof {
                assert(self.contents() =~= old(self).contents() + data@.take(k as int + 1));
            }
            k += 1;
        }
        proof {
            assert(data@.take(0) =~= Seq::<u8>::empty());
        }
        n
    }
}

/// Pipe capacity: in a ring that is in order, the bytes that can be read
/// and the bytes that can be written are 32 together; the ring is empty
/// just when none can be read and full just when none can be written; and
/// the bytes that can be read are those that the ring holds.
pub proof fn lemma_pipe_capacity(ring: PipeRingBuffer)
    requires
        ring.wf(),
    ensures
        ring.readable_bytes() + ring.writable_bytes() == RING_BUFFER_SIZE,
        0 <= ring.readable_bytes() <= 32,
        0 <= ring.writable_bytes() <= 32,
        (ring.status == RingBufferStatus::Empty) == (ring.readable_bytes() == 0),
        (ring.status == RingBufferStatus::Full) == (ring.writable_bytes() == 0),
        ring.readable_bytes() == ring.contents().len(),
{
}

} // verus!
