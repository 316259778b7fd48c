use vstd::prelude::*;

verus! {

/// `x` taken back into `[0, c)`, for `x < 2 * c`.
pub open spec fn wrap(x: int, c: int) -> int {
    if x < c { x } else { x - c }
}

/// A circular byte buffer. One slot always stays free, so that a full buffer
/// can be told from an empty one.
pub struct ZeroCopyBuffer {
    data: Vec<u8>,
    read_pos: usize,
    write_pos: usize,
    capacity: usize,
}

impl ZeroCopyBuffer {
    pub closed spec fn capacity_spec(&self) -> nat {
        self.capacity as nat
    }

    closed spec fn len_spec(&self) -> int {
        if self.write_pos >= self.read_pos {
            self.write_pos - self.read_pos
        } else {
            self.capacity - self.read_pos + self.write_pos
        }
    }

    /// The bytes held, oldest first.
    pub closed spec fn contents(&self) -> Seq<u8> {
        Seq::new(
            self.len_spec() as nat,
            |i: int| self.data@[wrap(self.read_pos + i, self.capacity as int)],
        )
    }

    pub closed spec fn wf(&self) -> bool {
        &&& self.capacity >= 1
        &&& self.data@.len() == self.capacity
        &&& self.read_pos < self.capacity
        &&& self.write_pos < self.capacity
    }

    /// An empty buffer with `capacity` slots, holding up to `capacity - 1`
    /// bytes.
    pub fn new(capacity: usize) -> (r: ZeroCopyBuffer)
        requires
            capacity >= 1,
        ensures
            r.wf(),
            r.capacity_spec() == capacity,
            r.contents() == Seq::<u8>::empty(),
    {
        let mut data: Vec<u8> = Vec::new();
        let mut i: usize = 0;
        while i < capacity
            invariant
                i <= capacity,
                data@.len() == i,
            decreases capacity - i,
        {
            data.push(0);
            i = i + 1;
        }
        let r = ZeroCopyBuffer { data, read_pos: 0, write_pos: 0, capacity };
        assert(r.contents() =~= Seq::<u8>::empty());
        r
    }

    /// The number of bytes held.
    pub fn available_read_space(&self) -> (r: usize)
        requires
            self.wf(),
        ensures
            r == self.contents().len(),
    {
        if self.write_pos >= self.read_pos {
            self.write_pos - self.read_pos
        } else {
            self.capacity - self.read_pos + self.write_pos
        }
    }

    /// The number of bytes that still fit.
    pub fn available_write_space(&self) -> (r: usize)
        requires
            self.wf(),
        ensures
            r == self.capacity_spec() - 1 - self.contents().len(),
    {
        (if self.write_pos >= self.read_pos {
            self.capacity - self.write_pos + self.read_pos
        } else {
            self.read_pos - self.write_pos
        }) - 1
    }

    /// Whether any byte is held.
    pub fn has_data(&self) -> (r: bool)
        requires
            self.wf(),
        ensures
            r == (self.contents().len() > 0),
    {
        self.available_read_space() > 0
    }

    /// Empties the buffer.
    pub fn clear(&mut self)
        requires
            old(self).wf(),
        ensures
            final(self).wf(),
            final(self).capacity_spec() == old(self).capacity_spec(),
            final(self).contents() == Seq::<u8>::empty(),
    {
        self.read_pos = 0;
        self.write_pos = 0;
        assert(self.contents() =~= Seq::<u8>::empty());
    }

    /// Appends as many bytes of `src` as fit, in order; returns how many.
    pub fn write_slice(&mut self, src: &[u8]) -> (r: usize)
        requires
            old(self).wf(),
        ensures
            final(self).wf(),
            final(self).capacity_spec() == old(self).capacity_spec(),
            r == if src@.len() < old(self).capacity_spec() - 1 - old(self).contents().len() {
                src@.len() as int
            } else {
                old(self).capacity_spec() - 1 - old(self).contents().len()
            },
            final(self).contents() == old(self).contents() + src@.subrange(0, r as int),
    {
        let space = self.available_write_space();
        let n = if src.len() < space { src.len() } else { space };
        let mut i: usize = 0;
        while i < n
            invariant
                self.wf(),
                self.capacity == old(self).capacity,
                n <= src@.len(),
                n <= old(self).capacity - 1 - old(self).contents().len(),
                i <= n,
                self.contents() =~= old(self).contents() + src@.subrange(0, i as int),
            decreases n - i,
        {
            let ghost before = self.contents();
            let w = self.write_pos;
            self.data.set(w, src[i]);
            self.write_pos = if w + 1 == self.capacity { 0 } else { w + 1 };
            proof {
                assert forall|k: int| 0 <= k < before.len() implies self.contents()[k] == before[k] by {
                    assert(wrap(self.read_pos + k, self.capacity as int) != w);
                }
                assert(self.contents()[before.len() as int] == src@[i as int]);
                assert(self.contents() =~= before.push(src@[i as int]));
                assert(src@.subrange(0, i + 1) =~= src@.subrange(0, i as int).push(src@[i as int]));
            }
            i = i + 1;
        }
        n
    }

    /// Removes and returns up to `max` of the oldest bytes.
    pub fn read_bytes(&mut self, max: usize) -> (r: Vec<u8>)
        requires
            old(self).wf(),
        ensures
            final(self).wf(),
            final(self).capacity_spec() == old(self).capacity_spec(),
            r@.len() == if max < old(self).contents().len() { max as int } else { old(self).contents().len() as int },
            r@ == old(self).contents().subrange(0, r@.len() as int),
            final(self).contents() == old(self).contents().subrange(r@.len() as int, old(self).contents().len() as int),
    {
        let held = self.available_read_space();
        let n = if max < held { max } else { held };
        let mut out: Vec<u8> = Vec::new();
        let mut i: usize = 0;
        while i < n
            invariant
                self.wf(),
                self.capacity == old(self).capacity,
                self.data@ == old(self).data@,
                n <= old(self).contents().len(),
                i <= n,
                out@ =~= old(self).contents().subrange(0, i as int),
                self.contents() =~= old(self).contents().subrange(i as int, old(self).contents().len() as int),
            decreases n - i,
        {
            let ghost before = self.contents();
            let r = self.read_pos;
            out.push(self.data[r]);
            self.read_pos = if r + 1 == self.capacity { 0 } else { r + 1 };
            proof {
                assert(before.len() == old(self).contents().len() - i);
                assert(before.len() > 0);
                assert(wrap(r + 0, self.capacity as int) == r);
                assert(before[0] == self.data@[r as int]);
                assert(self.contents().len() == before.len() - 1);
                assert forall|k: int| 0 <= k < self.contents().len() implies self.contents()[k] == before[k + 1] by {
                    assert(wrap(self.read_pos + k, self.capacity as int) == wrap(r + (k + 1), self.capacity as int));
                }
                assert(self.contents() =~= before.subrange(1, before.len() as int));
            }
            i = i + 1;
        }
        out
    }
}

/// What a copy loop does next.
#[derive(Clone, Copy, Debug, PartialEq, Eq, Structural)]
pub enum CopyAction {
    /// Read from the source into the buffer.
    Read,
    /// Write the buffered bytes from `offset` on, `len` of them.
    Write { offset: usize, len: usize },
    /// Stop this direction.
    Finish,
}

/// The bookkeeping of one direction of a relay: bytes read from the source,
/// bytes written to the destination, and those read but not yet written.
pub struct CopyState {
    read_total: u64,
    written_total: u64,
    pending: usize,
    offset: usize,
    finished: bool,
    end_of_stream: bool,
}

impl CopyState {
    pub closed spec fn read_total_spec(&self) -> nat {
        self.read_total as nat
    }

    pub closed spec fn written_total_spec(&self) -> nat {
        self.written_total as nat
    }

    pub closed spec fn pending_spec(&self) -> nat {
        self.pending as nat
    }

    /// How many bytes of the current read have been written already; the
    /// next write starts there.
    pub closed spec fn offset_spec(&self) -> nat {
        self.offset as nat
    }

    pub closed spec fn finished_spec(&self) -> bool {
        self.finished
    }

    /// The source ended cleanly (a zero-length read).
    pub closed spec fn end_of_stream_spec(&self) -> bool {
        self.end_of_stream
    }

    /// Every byte read is either written or still pending.
    pub closed spec fn wf(&self) -> bool {
        &&& self.written_total + self.pending == self.read_total
        &&& self.offset + self.pending <= usize::MAX
        &&& self.pending == 0 ==> self.offset == 0
        &&& self.end_of_stream ==> self.finished && self.pending == 0
    }

    /// A direction that has moved nothing yet; it starts by reading.
    pub fn new() -> (r: CopyState)
        ensures
            r.wf(),
            r.read_total_spec() == 0,
            r.written_total_spec() == 0,
            r.pending_spec() == 0,
            r.offset_spec() == 0,
            !r.finished_spec(),
    {
        CopyState { read_total: 0, written_total: 0, pending: 0, offset: 0, finished: false, end_of_stream: false }
    }

    /// A read of `n` bytes completed: zero means the source ended and the
    /// direction finishes; otherwise the bytes are to be written out in full
    /// before the next read.
    pub fn on_read(&mut self, n: usize) -> (r: CopyAction)
        requires
            old(self).wf(),
            !old(self).finished_spec(),
            old(self).pending_spec() == 0,
            old(self).read_total_spec() + n <= u64::MAX,
        ensures
            final(self).wf(),
            n == 0 ==> r == CopyAction::Finish && final(self).finished_spec() && final(self).end_of_stream_spec()
                && final(self).read_total_spec() == old(self).read_total_spec(),
            n > 0 ==> r == (CopyAction::Write { offset: 0, len: n }) && !final(self).finished_spec()
                && final(self).pending_spec() == n && final(self).offset_spec() == 0
                && final(self).read_total_spec() == old(self).read_total_spec() + n,
            final(self).written_total_spec() == old(self).written_total_spec(),
    {
        if n == 0 {
            self.finished = true;
            self.end_of_stream = true;
            CopyAction::Finish
        } else {
            self.read_total = self.read_total + n as u64;
            self.pending = n;
            self.offset = 0;
            CopyAction::Write { offset: 0, len: n }
        }
    }

    /// A write of `m` bytes completed: zero means the destination is closed
    /// and the direction finishes; otherwise the rest is written, or the
    /// next read starts once nothing is pending.
    pub fn on_written(&mut self, m: usize) -> (r: CopyAction)
        requires
            old(self).wf(),
            !old(self).finished_spec(),
            m <= old(self).pending_spec(),
        ensures
            final(self).wf(),
            final(self).read_total_spec() == old(self).read_total_spec(),
            m == 0 ==> r == CopyAction::Finish && final(self).finished_spec(),
            m > 0 ==> final(self).written_total_spec() == old(self).written_total_spec() + m
                && final(self).pending_spec() == old(self).pending_spec() - m && !final(self).finished_spec(),
            m > 0 && m == old(self).pending_spec() ==> r == CopyAction::Read,
            m > 0 && m < old(self).pending_spec() ==> r == (CopyAction::Write {
                offset: (old(self).offset_spec() + m) as usize,
                len: (old(self).pending_spec() - m) as usize,
            }) && final(self).offset_spec() == old(self).offset_spec() + m,
            m > 0 && m == old(self).pending_spec() ==> final(self).offset_spec() == 0,
    {
        if m == 0 {
            self.finished = true;
            return CopyAction::Finish;
        }
        self.written_total = self.written_total + m as u64;
        self.pending = self.pending - m;
        self.offset = self.offset + m;
        if self.pending == 0 {
            self.offset = 0;
            CopyAction::Read
        } else {
            CopyAction::Write { offset: self.offset, len: self.pending }
        }
    }

    /// An I/O error ended this direction; it is not a failure of the relay.
    pub fn on_error(&mut self) -> (r: CopyAction)
        requires
            old(self).wf(),
        ensures
            final(self).wf(),
            final(self).finished_spec(),
            r == CopyAction::Finish,
            final(self).read_total_spec() == old(self).read_total_spec(),
            final(self).written_total_spec() == old(self).written_total_spec(),
    {
        self.finished = true;
        CopyAction::Finish
    }

    /// Bytes read from the source so far.
    pub fn bytes_read(&self) -> (r: u64)
        ensures
            r == self.read_total_spec(),
    {
        self.read_total
    }

    /// Bytes written to the destination so far.
    pub fn bytes_written(&self) -> (r: u64)
        ensures
            r == self.written_total_spec(),
    {
        self.written_total
    }

    /// Whether this direction has stopped.
    pub fn is_finished(&self) -> (r: bool)
        ensures
            r == self.finished_spec(),
    {
        self.finished
    }
}

/// A direction that ended because its source ended has written every byte
/// it read: the totals on both ends are equal.
pub proof fn law_relay_totals(s: CopyState)
    requires
        s.wf(),
        s.end_of_stream_spec(),
    ensures
        s.written_total_spec() == s.read_total_spec(),
{
}

} // verus!
