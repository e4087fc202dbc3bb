//! Properties of the buffering policy, stated over the model and proved.

use vstd::prelude::*;
use crate::model::{
    append_pending, append_writes, appends_pending, appends_writes, cap, ends_with_newline,
    full_chunks, full_writes, pending_ok, tail_after_fill,
};

verus! {

/// The full buffers written by an append leave at most one buffer's worth,
/// and leave the last byte of a non-empty input in the buffer.
proof fn lemma_fill_bounds(l: nat, n: nat)
    requires
        l <= cap(),
    ensures
        full_writes(l, n) * cap() <= l + n,
        l + n - full_writes(l, n) * cap() <= cap(),
        l + n > 0 ==> full_writes(l, n) * cap() < l + n,
{
    if l + n > cap() {
        vstd::arithmetic::div_mod::lemma_fundamental_div_mod((l + n - 1) as int, cap());
        vstd::arithmetic::div_mod::lemma_mod_bound((l + n - 1) as int, cap());
    }
}

/// The first `k` full pieces of `s`, put back together, are its first
/// `k * cap()` bytes.
proof fn lemma_full_chunks_flatten(s: Seq<u8>, k: nat)
    requires
        k * cap() <= s.len(),
    ensures
        full_chunks(s, k).flatten() == s.subrange(0, k * cap()),
    decreases k,
{
    broadcast use Seq::lemma_flatten_push;

    if k == 0 {
        assert(full_chunks(s, 0) =~= Seq::<Seq<u8>>::empty());
        assert(s.subrange(0, 0) =~= Seq::<u8>::empty());
    } else {
        let j = (k - 1) as nat;
        assert(k * cap() == j * cap() + cap()) by (nonlinear_arith)
            requires
                k == j + 1,
        ;
        lemma_full_chunks_flatten(s, j);
        assert(full_chunks(s, k) =~= full_chunks(s, j).push(
            s.subrange(j * cap(), k * cap()),
        ));
        assert(s.subrange(0, k * cap()) =~= s.subrange(0, j * cap()) + s.subrange(
            j * cap(),
            k * cap(),
        ));
    }
}

/// One append loses, duplicates and reorders nothing: the chunks it writes,
/// followed by what it leaves buffered, are the bytes buffered before it
/// followed by the appended bytes.
pub proof fn lemma_append_preserves_order(pending: Seq<u8>, data: Seq<u8>)
    requires
        pending.len() <= cap(),
    ensures
        append_writes(pending, data).flatten() + append_pending(pending, data) == pending + data,
{
    broadcast use Seq::lemma_flatten_push;

    let s = pending + data;
    let k = full_writes(pending.len(), data.len());
    lemma_fill_bounds(pending.len(), data.len());
    lemma_full_chunks_flatten(s, k);
    let tail = tail_after_fill(pending, data);
    assert(s =~= s.subrange(0, k * cap()) + tail);
    if ends_with_newline(tail) {
        assert(append_writes(pending, data).flatten() =~= s.subrange(0, k * cap()) + tail);
        assert(append_writes(pending, data).flatten() + append_pending(pending, data)
            =~= s);
    }
}

/// Any run of appends loses, duplicates and reorders nothing: all chunks
/// written, followed by what is left buffered, are the bytes buffered at the
/// start followed by every input in order.
pub proof fn lemma_appends_preserve_order(pending: Seq<u8>, inputs: Seq<Seq<u8>>)
    requires
        pending.len() <= cap(),
    ensures
        appends_writes(pending, inputs).flatten() + appends_pending(pending, inputs) == pending
            + inputs.flatten(),
    decreases inputs.len(),
{
    if inputs.len() == 0 {
        assert(appends_writes(pending, inputs) =~= Seq::<Seq<u8>>::empty());
        assert(inputs.flatten() =~= Seq::<u8>::empty());
        assert(pending + Seq::<u8>::empty() =~= pending);
        assert(Seq::<u8>::empty() + pending =~= pending);
    } else {
        let first = inputs[0];
        let next = append_pending(pending, first);
        lemma_fill_bounds(pending.len(), first.len());
        lemma_append_preserves_order(pending, first);
        lemma_appends_preserve_order(next, inputs.drop_first());
        vstd::seq_lib::lemma_flatten_concat(
            append_writes(pending, first),
            appends_writes(next, inputs.drop_first()),
        );
        let w1 = append_writes(pending, first).flatten();
        let w2 = appends_writes(next, inputs.drop_first()).flatten();
        let r = appends_pending(next, inputs.drop_first());
        assert(w1 + next == pending + first);
        assert(w2 + r == next + inputs.drop_first().flatten());
        assert(inputs.flatten() == first + inputs.drop_first().flatten());
        let tail_inputs = inputs.drop_first().flatten();
        assert(w1 + w2 + r =~= w1 + (w2 + r));
        assert(w1 + (next + tail_inputs) =~= (w1 + next) + tail_inputs);
        assert((pending + first) + tail_inputs =~= pending + (first + tail_inputs));
        assert(appends_writes(pending, inputs).flatten() == w1 + w2);
    }
}

/// Every chunk an append writes is non-empty and holds at most a full buffer.
pub proof fn lemma_append_writes_within_capacity(pending: Seq<u8>, data: Seq<u8>)
    requires
        pending.len() <= cap(),
    ensures
        forall|i: int|
            0 <= i < append_writes(pending, data).len() ==> 0 < #[trigger] append_writes(
                pending,
                data,
            )[i].len() <= cap(),
        append_pending(pending, data).len() <= cap(),
{
    let s = pending + data;
    let k = full_writes(pending.len(), data.len());
    lemma_fill_bounds(pending.len(), data.len());
    assert forall|i: int| 0 <= i < k implies #[trigger] full_chunks(s, k)[i].len() == cap() by {
        assert((i + 1) * cap() <= k * cap()) by (nonlinear_arith)
            requires
                i + 1 <= k,
                cap() > 0,
        ;
        assert((i + 1) * cap() == i * cap() + cap()) by (nonlinear_arith);
        assert(0 <= i * cap()) by (nonlinear_arith)
            requires
                0 <= i,
                cap() > 0,
        ;
    }
}

/// Every chunk written by any run of appends is non-empty and holds at most
/// a full buffer.
pub proof fn lemma_appends_write_within_capacity(pending: Seq<u8>, inputs: Seq<Seq<u8>>)
    requires
        pending.len() <= cap(),
    ensures
        forall|i: int|
            0 <= i < appends_writes(pending, inputs).len() ==> 0 < #[trigger] appends_writes(
                pending,
                inputs,
            )[i].len() <= cap(),
    decreases inputs.len(),
{
    if inputs.len() > 0 {
        let first = inputs[0];
        let next = append_pending(pending, first);
        lemma_append_writes_within_capacity(pending, first);
        lemma_appends_write_within_capacity(next, inputs.drop_first());
        let a = append_writes(pending, first);
        let b = appends_writes(next, inputs.drop_first());
        assert forall|i: int| 0 <= i < (a + b).len() implies 0 < #[trigger] (a + b)[i].len()
            <= cap() by {
            if i < a.len() {
                assert((a + b)[i] == a[i]);
            } else {
                assert((a + b)[i] == b[i - a.len()]);
            }
        }
    }
}

/// An append whose input ends in a newline leaves the buffer empty, and
/// writes at least one chunk, the last of which ends in that newline.
pub proof fn lemma_newline_flushes(pending: Seq<u8>, data: Seq<u8>)
    requires
        pending.len() <= cap(),
        ends_with_newline(data),
    ensures
        append_pending(pending, data) == Seq::<u8>::empty(),
        append_writes(pending, data).len() > 0,
        ends_with_newline(append_writes(pending, data).last()),
        append_writes(pending, data).flatten() == pending + data,
{
    let s = pending + data;
    lemma_fill_bounds(pending.len(), data.len());
    lemma_append_preserves_order(pending, data);
    let tail = tail_after_fill(pending, data);
    assert(tail.last() == s.last());
    assert(append_writes(pending, data).flatten() + Seq::<u8>::empty() =~= append_writes(
        pending,
        data,
    ).flatten());
}

/// An input that fits in the room left and does not end in a newline is
/// only buffered: nothing is written.
pub proof fn lemma_short_append_is_buffered(pending: Seq<u8>, data: Seq<u8>)
    requires
        pending_ok(pending),
        data.len() < cap() - pending.len(),
        !ends_with_newline(data),
    ensures
        append_writes(pending, data) == Seq::<Seq<u8>>::empty(),
        append_pending(pending, data) == pending + data,
{
    let s = pending + data;
    assert(s.subrange(0, s.len() as int) =~= s);
    assert(full_chunks(s, 0) =~= Seq::<Seq<u8>>::empty());
    if data.len() == 0 {
        assert(s =~= pending);
    } else {
        assert(s.last() == data.last());
    }
}

/// Appending nothing writes nothing and leaves the buffer as it was.
pub proof fn lemma_empty_append(pending: Seq<u8>)
    requires
        pending_ok(pending),
    ensures
        append_writes(pending, Seq::<u8>::empty()) == Seq::<Seq<u8>>::empty(),
        append_pending(pending, Seq::<u8>::empty()) == pending,
{
    let s = pending + Seq::<u8>::empty();
    assert(s =~= pending);
    assert(s.subrange(0, s.len() as int) =~= pending);
    assert(full_chunks(s, 0) =~= Seq::<Seq<u8>>::empty());
}

} // verus!
