//! Mathematical model of the buffering policy.

use vstd::prelude::*;

verus! {

/// Number of bytes the buffer holds before it must be written out.
pub const BUFFER_CAPACITY: usize = 4096;

/// The byte that makes an append write out what is buffered.
pub const NEWLINE: u8 = 10;

/// The buffer capacity as a mathematical integer.
pub open spec fn cap() -> int {
    BUFFER_CAPACITY as int
}

/// `s` is non-empty and its last byte is a newline.
pub open spec fn ends_with_newline(s: Seq<u8>) -> bool {
    s.len() > 0 && s.last() == NEWLINE
}

/// What a writer may hold between operations: at most a full buffer, never
/// ending in a newline (such a tail is written out at once).
pub open spec fn pending_ok(pending: Seq<u8>) -> bool {
    pending.len() <= cap() && !ends_with_newline(pending)
}

/// How many full buffers are written while `n` new bytes join `l` buffered
/// ones. The buffer is written when it is full and more bytes are still to
/// come, so the last byte of the input always stays in the buffer.
pub open spec fn full_writes(l: nat, n: nat) -> nat {
    if l + n <= cap() {
        0
    } else {
        ((l + n - 1) / cap()) as nat
    }
}

/// The first `k` consecutive capacity-sized pieces of `s`.
pub open spec fn full_chunks(s: Seq<u8>, k: nat) -> Seq<Seq<u8>> {
    Seq::new(k, |i: int| s.subrange(i * cap(), (i + 1) * cap()))
}

/// What is left in the buffer after the full buffers are written, before the
/// newline check.
pub open spec fn tail_after_fill(pending: Seq<u8>, data: Seq<u8>) -> Seq<u8> {
    let s = pending + data;
    s.subrange(full_writes(pending.len(), data.len()) * cap(), s.len() as int)
}

/// The chunks written, in order, when `data` is appended to a writer holding
/// `pending`.
pub open spec fn append_writes(pending: Seq<u8>, data: Seq<u8>) -> Seq<Seq<u8>> {
    let full = full_chunks(pending + data, full_writes(pending.len(), data.len()));
    let tail = tail_after_fill(pending, data);
    if ends_with_newline(tail) {
        full.push(tail)
    } else {
        full
    }
}

/// What the writer holds after `data` is appended to a writer holding
/// `pending`.
pub open spec fn append_pending(pending: Seq<u8>, data: Seq<u8>) -> Seq<u8> {
    let tail = tail_after_fill(pending, data);
    if ends_with_newline(tail) {
        Seq::empty()
    } else {
        tail
    }
}

/// The chunks written by a flush of a writer holding `pending`: none when it
/// is empty, else all of it in one chunk.
pub open spec fn flush_writes(pending: Seq<u8>) -> Seq<Seq<u8>> {
    if pending.len() == 0 {
        Seq::empty()
    } else {
        seq![pending]
    }
}

/// The chunks written by appending each of `inputs` in turn, starting from
/// `pending`.
pub open spec fn appends_writes(pending: Seq<u8>, inputs: Seq<Seq<u8>>) -> Seq<Seq<u8>>
    decreases inputs.len(),
{
    if inputs.len() == 0 {
        Seq::empty()
    } else {
        append_writes(pending, inputs[0]) + appends_writes(
            append_pending(pending, inputs[0]),
            inputs.drop_first(),
        )
    }
}

/// What the writer holds after appending each of `inputs` in turn, starting
/// from `pending`.
pub open spec fn appends_pending(pending: Seq<u8>, inputs: Seq<Seq<u8>>) -> Seq<u8>
    decreases inputs.len(),
{
    if inputs.len() == 0 {
        pending
    } else {
        appends_pending(append_pending(pending, inputs[0]), inputs.drop_first())
    }
}

} // verus!
