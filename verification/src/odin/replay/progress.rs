//! What is shown to the user while slices are sent: the bytes that the device has taken.

use vstd::prelude::*;

use crate::bytes::signed32;
use crate::odin::error::OdinFault;
use crate::odin::firmware::{file_slices, slices_make_up_file};
use crate::odin::pit::PitEntry;
use crate::odin::protocol::{Command, Response};
use crate::odin::replay::request_answer;
use crate::odin::replay::transfer::{
    announced_step, chunk_answer, chunk_first, chunks_first, index_is_small, shown, slice_step,
    slices_step, streamed_step,
};
use crate::odin::transcript::{
    command_sent, demand, read_result, received, request, response_read, sent, zero_only,
    SessionTerms, Transcript,
};
use crate::odin::transfer::{
    attempt_shown, chunk_fate, chunk_of, chunk_sent, chunk_share, chunks_sent, file_sent,
    raw_plans, slice_sent, slices_sent, SlicePlan, CHUNK_ATTEMPTS,
};
use crate::odin::usb::UsbEvent;

verus! {

/// The progress that `event` shows.
pub open spec fn progress_of(event: UsbEvent) -> int {
    match event {
        UsbEvent::ProgressShown { bytes } => bytes as int,
        _ => 0,
    }
}

/// All progress that was shown.
pub open spec fn progress(t: Transcript) -> int
    decreases t.len(),
{
    if t.len() == 0 {
        0
    } else {
        progress(t.drop_last()) + progress_of(t.last())
    }
}

proof fn progress_push(t: Transcript, event: UsbEvent)
    ensures
        progress(t.push(event)) == progress(t) + progress_of(event),
{
    assert(t.push(event).drop_last() =~= t);
}

proof fn command_is_silent(
    t0: Transcript,
    t1: Transcript,
    cmd: Command,
    timeout: i32,
    skip_empty: bool,
    ok: bool,
)
    requires
        command_sent(t0, t1, cmd, timeout, skip_empty, ok),
    ensures
        progress(t1) == progress(t0),
{
    progress_push(t0, UsbEvent::Sent { data: cmd.packet(), timeout, retry: true, ok });
    if ok && !skip_empty {
        let (t, empty_ok) = choose|t: Transcript, empty_ok: bool| #[trigger]
            sent(t, t1, Seq::empty(), 100, false, empty_ok) && sent(
                t0,
                t,
                cmd.packet(),
                timeout,
                true,
                true,
            );
        progress_push(
            t,
            UsbEvent::Sent { data: Seq::empty(), timeout: 100, retry: false, ok: empty_ok },
        );
    }
}

proof fn response_is_silent(
    t0: Transcript,
    t1: Transcript,
    timeout: i32,
    result: Result<Response, OdinFault>,
)
    requires
        response_read(t0, t1, timeout, result),
    ensures
        progress(t1) == progress(t0),
{
    let (t, size, data) = choose|t: Transcript, size: i32, data: Seq<u8>| #[trigger]
        received(t, t1, 8, timeout, true, size, data) && result == read_result(size, data)
            && if t == t0 {
            size != 0
        } else {
            received(t0, t, 8, timeout, true, 0, Seq::empty())
        };
    progress_push(t, UsbEvent::Received { capacity: 8, timeout, retry: true, size, data });
    if t != t0 {
        progress_push(
            t0,
            UsbEvent::Received { capacity: 8, timeout, retry: true, size: 0, data: Seq::empty() },
        );
    }
}

proof fn demand_is_silent(
    t0: Transcript,
    t1: Transcript,
    cmd: Command,
    timeout: i32,
    skip_empty: bool,
    result: Result<(), OdinFault>,
)
    requires
        demand(t0, t1, cmd, timeout, skip_empty, result),
    ensures
        progress(t1) == progress(t0),
{
    let v = choose|v: Result<u32, OdinFault>| #[trigger]
        request(t0, t1, cmd, timeout, skip_empty, v) && result == zero_only(v);
    if command_sent(t0, t1, cmd, timeout, skip_empty, false) && v == Err::<u32, OdinFault>(
        OdinFault::SendCommandFailed,
    ) {
        command_is_silent(t0, t1, cmd, timeout, skip_empty, false);
    } else {
        let (t, r) = request_answer(t0, t1, cmd, timeout, skip_empty, v);
        command_is_silent(t0, t, cmd, timeout, skip_empty, true);
        response_is_silent(t, t1, timeout, r);
    }
}

proof fn chunk_is_silent(
    t0: Transcript,
    t1: Transcript,
    bytes: Seq<u8>,
    index: nat,
    timeout: i32,
    attempt: u32,
    result: Result<(), OdinFault>,
)
    requires
        chunk_sent(t0, t1, bytes, index, timeout, attempt, result),
    ensures
        progress(t1) == progress(t0),
    decreases CHUNK_ATTEMPTS - attempt,
{
    if attempt < CHUNK_ATTEMPTS {
        let next = (attempt + 1) as u32;
        let (t, ok) = chunk_first(t0, t1, bytes, index, timeout, attempt, result);
        progress_push(t0, UsbEvent::RetryShown);
        progress_push(
            attempt_shown(t0, attempt),
            UsbEvent::Sent { data: bytes, timeout: 3000, retry: true, ok },
        );
        if !ok {
            chunk_is_silent(t, t1, bytes, index, timeout, next, result);
        } else {
            let (u, r) = chunk_answer(t, t1, bytes, index, timeout, attempt, result);
            response_is_silent(t, u, timeout, r);
            if chunk_fate(r, index, attempt) is Again {
                chunk_is_silent(u, t1, bytes, index, timeout, next, result);
            }
        }
    }
}

/// The bytes of a slice from chunk number `index` on.
pub open spec fn bytes_from(len: int, packet_size: int, index: int) -> int {
    if index * packet_size < len {
        len - index * packet_size
    } else {
        0
    }
}

proof fn chunks_progress(
    t0: Transcript,
    t1: Transcript,
    data: Seq<u8>,
    terms: SessionTerms,
    index: nat,
    result: Result<(), OdinFault>,
)
    requires
        chunks_sent(t0, t1, data, terms, index, result),
        result is Ok,
        terms.packet_size > 0,
    ensures
        progress(t1) == progress(t0) + bytes_from(
            data.len() as int,
            terms.packet_size as int,
            index as int,
        ),
    decreases data.len() - index,
{
    let size = terms.packet_size as int;
    if index * terms.packet_size < data.len() {
        index_is_small(index, terms.packet_size as nat, data.len());
        let (t, r) = chunks_first(t0, t1, data, terms, index, result);
        chunk_is_silent(
            t0,
            t,
            chunk_of(data, size, index as int),
            index,
            signed32(terms.slice_timeout),
            0,
            r,
        );
        let u = shown(t, data.len(), terms, index);
        let share = chunk_share(data.len() as int, size, index as int);
        progress_push(t, UsbEvent::ProgressShown { bytes: share as u64 });
        chunks_progress(u, t1, data, terms, index + 1, result);
        assert((index + 1) * size == index * size + size) by (nonlinear_arith);
    }
}

/// The progress that is shown while a slice is sent is the length of the slice: padding
/// is not counted, and no chunk is counted twice.
pub proof fn slice_progress(
    t0: Transcript,
    t1: Transcript,
    plan: SlicePlan,
    terms: SessionTerms,
    skip_empty: bool,
)
    requires
        slice_sent(t0, t1, plan, terms, skip_empty, Ok(())),
        terms.packet_size > 0,
    ensures
        progress(t1) == progress(t0) + plan.data.len(),
{
    let (t, r) = slice_step(t0, t1, plan, terms, skip_empty, Ok(()));
    demand_is_silent(t0, t, plan.init, 3000, skip_empty, r);
    let (u, q) = announced_step(t, t1, plan, terms, skip_empty, Ok(()));
    demand_is_silent(t, u, plan.start, 3000, skip_empty, q);
    let (v, p) = streamed_step(u, t1, plan, terms, skip_empty, Ok(()));
    chunks_progress(u, v, plan.data, terms, 0, p);
    demand_is_silent(v, t1, plan.end, signed32(terms.slice_timeout), skip_empty, Ok(()));
}

/// The bytes of the slices from number `k` on.
pub open spec fn plans_len(plans: Seq<SlicePlan>, k: int) -> int
    decreases plans.len() - k,
{
    if k >= plans.len() {
        0
    } else {
        plans[k].data.len() + plans_len(plans, k + 1)
    }
}

/// The progress that is shown while slices are sent is their length.
pub proof fn slices_progress(
    t0: Transcript,
    t1: Transcript,
    plans: Seq<SlicePlan>,
    terms: SessionTerms,
    skip_empty: bool,
    k: int,
)
    requires
        slices_sent(t0, t1, plans, terms, skip_empty, k, Ok(())),
        terms.packet_size > 0,
    ensures
        progress(t1) == progress(t0) + plans_len(plans, k),
    decreases plans.len() - k,
{
    if k < plans.len() {
        let (t, r) = slices_step(t0, t1, plans, terms, skip_empty, k, Ok(()));
        slice_progress(t0, t, plans[k], terms, skip_empty);
        slices_progress(t, t1, plans, terms, skip_empty, k + 1);
    }
}

proof fn raw_plans_len(slices: Seq<Seq<u8>>, pit_entry: PitEntry, version: u32, k: int)
    requires
        0 <= k <= slices.len(),
    ensures
        plans_len(raw_plans(slices, pit_entry, version), k) == slices.skip(k).flatten().len(),
    decreases slices.len() - k,
{
    if k < slices.len() {
        raw_plans_len(slices, pit_entry, version, k + 1);
        assert(slices.skip(k).drop_first() =~= slices.skip(k + 1));
        assert(slices.skip(k).first() == slices[k]);
    } else {
        assert(slices.skip(k) =~= Seq::empty());
    }
}

/// When a file that is not compressed has been sent, its whole length has been shown as
/// progress.
pub proof fn file_progress(
    t0: Transcript,
    t1: Transcript,
    file: Seq<u8>,
    max: int,
    pit_entry: PitEntry,
    version: u32,
    terms: SessionTerms,
    skip_empty: bool,
)
    requires
        max > 0,
        terms.packet_size > 0,
        file_sent(
            t0,
            t1,
            file.len() as u64,
            raw_plans(file_slices(file, max), pit_entry, version),
            terms,
            skip_empty,
            Ok(()),
        ),
    ensures
        progress(t1) == progress(t0) + file.len(),
{
    let slices = file_slices(file, max);
    progress_push(t0, UsbEvent::LengthShown { bytes: file.len() as u64 });
    slices_progress(
        t0.push(UsbEvent::LengthShown { bytes: file.len() as u64 }),
        t1,
        raw_plans(slices, pit_entry, version),
        terms,
        skip_empty,
        0,
    );
    raw_plans_len(slices, pit_entry, version, 0);
    assert(slices.skip(0) =~= slices);
    slices_make_up_file(file, max);
}

} // verus!
