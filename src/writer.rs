//! The writer: a fixed-size buffer in front of a file descriptor.

use vstd::prelude::*;
use vstd::slice::{slice_subrange, slice_to_vec};
use crate::model::{
    append_pending, append_writes, cap, flush_writes, full_chunks, full_writes, pending_ok,
    BUFFER_CAPACITY, NEWLINE,
};

verus! {

/// Buffered writer for a file descriptor.
///
/// The descriptor is only carried: the writer never opens, closes or writes
/// to it. Operations that empty the buffer return the chunks that are to be
/// written to it.
pub struct FdWriter {
    fd: i32,
    len: u16,
    buffer: [u8; BUFFER_CAPACITY],
}

impl View for FdWriter {
    type V = Seq<u8>;

    /// The bytes accepted but not yet handed out for writing.
    closed spec fn view(&self) -> Seq<u8> {
        self.buffer@.subrange(0, self.len as int)
    }
}

impl FdWriter {
    /// The buffered length fits the buffer.
    pub closed spec fn len_in_bounds(&self) -> bool {
        self.len <= BUFFER_CAPACITY
    }

    /// Well-formedness: the buffered bytes are a valid pending state.
    pub open spec fn wf(&self) -> bool {
        self.len_in_bounds() && pending_ok(self@)
    }

    /// The descriptor the writer is bound to.
    pub closed spec fn descriptor(&self) -> i32 {
        self.fd
    }

    /// Creates a writer for `fd` with an empty buffer. No I/O is done.
    pub fn new(fd: i32) -> (w: FdWriter)
        ensures
            w.wf(),
            w@ == Seq::<u8>::empty(),
            w.descriptor() == fd,
    {
        let w = FdWriter { fd, len: 0, buffer: [0u8; BUFFER_CAPACITY] };
        assert(w@ =~= Seq::<u8>::empty());
        w
    }

    /// The descriptor the writer is bound to.
    pub fn fd(&self) -> (r: i32)
        ensures
            r == self.descriptor(),
    {
        self.fd
    }

    /// How many bytes are buffered.
    pub fn len(&self) -> (r: usize)
        requires
            self.len_in_bounds(),
        ensures
            r == self@.len(),
    {
        self.len as usize
    }

    /// The buffered bytes that are not yet written.
    pub fn as_slice(&self) -> (r: &[u8])
        requires
            self.len_in_bounds(),
        ensures
            r@ == self@,
    {
        slice_subrange(self.buffer.as_slice(), 0, self.len as usize)
    }

    /// Hands out everything buffered as one chunk and empties the buffer.
    fn inner_flush(&mut self) -> (chunk: Vec<u8>)
        requires
            old(self).len_in_bounds(),
        ensures
            chunk@ == old(self)@,
            final(self)@ == Seq::<u8>::empty(),
            final(self).wf(),
            final(self).descriptor() == old(self).descriptor(),
    {
        let chunk = slice_to_vec(self.as_slice());
        self.len = 0;
        assert(self@ =~= Seq::<u8>::empty());
        chunk
    }
    /// Writes out what is buffered, if anything: returns the buffered bytes as
    /// one chunk when the buffer is not empty, and nothing when it is.
    pub fn flush(&mut self) -> (chunk: Option<Vec<u8>>)
        requires
            old(self).len_in_bounds(),
        ensures
            final(self).wf(),
            final(self)@ == Seq::<u8>::empty(),
            final(self).descriptor() == old(self).descriptor(),
            chunk.is_none() <==> old(self)@.len() == 0,
            chunk matches Some(c) ==> c@ == old(self)@,
    {
        if self.len > 0 {
            Some(self.inner_flush())
        } else {
            assert(self@ =~= Seq::<u8>::empty());
            None
        }
    }

    /// Ends the writer: the chunk that is still to be written, if any.
    pub fn finish(self) -> (writes: Vec<Vec<u8>>)
        requires
            self.len_in_bounds(),
        ensures
            writes.deep_view() == flush_writes(self@),
    {
        let mut w = self;
        let mut writes: Vec<Vec<u8>> = Vec::new();
        match w.flush() {
            Some(chunk) => {
                assert(chunk.deep_view() =~= chunk@);
                writes.push(chunk);
                assert(writes.deep_view() =~= flush_writes(self@));
            },
            None => {
                assert(writes.deep_view() =~= flush_writes(self@));
            },
        }
        writes
    }

    /// Copies as much of `data` as fits into the buffer and returns the part
    /// that did not fit.
    fn copy_data<'a>(&mut self, data: &'a [u8]) -> (rest: &'a [u8])
        requires
            old(self).len_in_bounds(),
        ensures
            final(self).len_in_bounds(),
            final(self).descriptor() == old(self).descriptor(),
            ({
                let w = if data@.len() <= cap() - old(self)@.len() {
                    data@.len() as int
                } else {
                    cap() - old(self)@.len()
                };
                &&& final(self)@ == old(self)@ + data@.subrange(0, w)
                &&& rest@ == data@.subrange(w, data@.len() as int)
            }),
    {
        let room = BUFFER_CAPACITY - self.len as usize;
        let write_len = if room < data.len() {
            room
        } else {
            data.len()
        };
        let start = self.len as usize;
        let mut i: usize = 0;
        while i < write_len
            invariant
                i <= write_len,
                start + write_len <= BUFFER_CAPACITY,
                write_len <= data@.len(),
                start == old(self).len,
                self.len == start,
                self.fd == old(self).fd,
                forall|j: int| 0 <= j < start ==> self.buffer@[j] == old(self).buffer@[j],
                forall|j: int| 0 <= j < i ==> self.buffer@[start + j] == data@[j],
            decreases write_len - i,
        {
            self.buffer[start + i] = data[i];
            i = i + 1;
        }
        self.len = (start + write_len) as u16;
        assert(self@ =~= old(self)@ + data@.subrange(0, write_len as int));
        slice_subrange(data, write_len, data.len())
    }
    /// Appends `data` and returns the chunks to write, in order.
    ///
    /// Whenever the buffer is full and bytes are still to come, the full
    /// buffer is handed out. When everything is copied in and the buffer ends
    /// in a newline, the buffer is handed out too.
    pub fn write_data(&mut self, data: &[u8]) -> (writes: Vec<Vec<u8>>)
        requires
            old(self).wf(),
        ensures
            final(self).wf(),
            final(self).descriptor() == old(self).descriptor(),
            writes.deep_view() == append_writes(old(self)@, data@),
            final(self)@ == append_pending(old(self)@, data@),
    {
        let ghost pending = self@;
        let ghost s = pending + data@;
        let ghost n = data@.len() as int;
        let mut writes: Vec<Vec<u8>> = Vec::new();
        let mut rest = self.copy_data(data);
        assert(self@ =~= s.subrange(0, self@.len() as int));
        assert(writes.deep_view() =~= full_chunks(s, 0));
        while rest.len() > 0
            invariant
                self.len_in_bounds(),
                self.descriptor() == old(self).descriptor(),
                pending == old(self)@,
                s == pending + data@,
                n == data@.len(),
                rest@.len() <= n,
                rest@ == data@.subrange(n - rest@.len(), n),
                writes@.len() * cap() + self@.len() == pending.len() + n - rest@.len(),
                self@ == s.subrange(
                    writes@.len() * cap(),
                    writes@.len() * cap() + self@.len(),
                ),
                writes.deep_view() == full_chunks(s, writes@.len() as nat),
                writes@.len() > 0 ==> self@.len() > 0 || rest@.len() > 0,
                rest@.len() > 0 ==> self@.len() == cap(),
            decreases rest@.len(),
        {
            let ghost j = writes@.len() as int;
            assert((j + 1) * cap() == j * cap() + cap()) by (nonlinear_arith);
            let chunk = self.inner_flush();
            assert(chunk.deep_view() =~= chunk@);
            let ghost written = writes.deep_view();
            writes.push(chunk);
            assert(writes.deep_view() =~= written.push(chunk@));
            assert(writes.deep_view() =~= full_chunks(s, (j + 1) as nat));
            rest = self.copy_data(rest);
            assert((j + 1) * cap() + self@.len() == pending.len() + n - rest@.len());
            assert(self@ =~= s.subrange((j + 1) * cap(), (j + 1) * cap() + self@.len()));
            assert(rest@ =~= data@.subrange(n - rest@.len(), n));
        }
        let ghost k = writes@.len() as int;
        proof {
            if k > 0 {
                vstd::arithmetic::div_mod::lemma_fundamental_div_mod_converse(
                    pending.len() + n - 1,
                    cap(),
                    k,
                    self@.len() - 1,
                );
            }
        }
        assert(k == full_writes(pending.len(), data@.len()));
        assert(self@ =~= s.subrange(k * cap(), s.len() as int));
        if self.len > 0 && self.buffer[self.len as usize - 1] == NEWLINE {
            let chunk = self.inner_flush();
            assert(chunk.deep_view() =~= chunk@);
            let ghost written = writes.deep_view();
            writes.push(chunk);
            assert(writes.deep_view() =~= written.push(chunk@));
            assert(writes.deep_view() =~= append_writes(pending, data@));
        }
        writes
    }
}

} // verus!
