//! What a transcript decides about the sending of slices.

use vstd::prelude::*;

use crate::bytes::signed32;
use crate::odin::error::OdinFault;
use crate::odin::protocol::Response;
use crate::odin::replay::{
    begins, begins_chain, demand_decided, demand_grows, push_begins, response_decided,
    response_grows, same_event,
};
use crate::odin::transcript::{demand, response_read, sent, SessionTerms, Transcript};
use crate::odin::transfer::{
    attempt_shown, chunk_fate, chunk_of, chunk_sent, chunk_share, chunks_sent, slice_announced,
    slice_sent, slice_streamed, slices_sent, ChunkFate, SlicePlan, CHUNK_ATTEMPTS,
};
use crate::odin::usb::UsbEvent;

verus! {

/// The first attempt of sending a chunk.
pub(crate) proof fn chunk_first(
    t0: Transcript,
    t1: Transcript,
    bytes: Seq<u8>,
    index: nat,
    timeout: i32,
    attempt: u32,
    result: Result<(), OdinFault>,
) -> (step: (Transcript, bool))
    requires
        chunk_sent(t0, t1, bytes, index, timeout, attempt, result),
        attempt < CHUNK_ATTEMPTS,
    ensures
        sent(attempt_shown(t0, attempt), step.0, bytes, 3000, true, step.1),
        !step.1 ==> chunk_sent(step.0, t1, bytes, index, timeout, (attempt + 1) as u32, result),
        step.1 ==> chunk_rest(step.0, t1, bytes, index, timeout, attempt, result),
{
    choose|t: Transcript, ok: bool| #[trigger]
        sent(attempt_shown(t0, attempt), t, bytes, 3000, true, ok) && if !ok {
            chunk_sent(t, t1, bytes, index, timeout, (attempt + 1) as u32, result)
        } else {
            chunk_rest(t, t1, bytes, index, timeout, attempt, result)
        }
}

/// An attempt of sending a chunk, from the answer on.
pub open spec fn chunk_rest(
    t: Transcript,
    t1: Transcript,
    bytes: Seq<u8>,
    index: nat,
    timeout: i32,
    attempt: u32,
    result: Result<(), OdinFault>,
) -> bool {
    exists|u: Transcript, response: Result<Response, OdinFault>| #[trigger]
        response_read(t, u, timeout, response) && chunk_end(
            u,
            t1,
            bytes,
            index,
            timeout,
            attempt,
            response,
            result,
        )
}

/// An attempt of sending a chunk, when the answer is there.
pub open spec fn chunk_end(
    u: Transcript,
    t1: Transcript,
    bytes: Seq<u8>,
    index: nat,
    timeout: i32,
    attempt: u32,
    response: Result<Response, OdinFault>,
    result: Result<(), OdinFault>,
) -> bool {
    match chunk_fate(response, index, attempt) {
        ChunkFate::Taken => t1 == u && result == Ok::<(), OdinFault>(()),
        ChunkFate::Failed(fault) => t1 == u && result == Err::<(), OdinFault>(fault),
        ChunkFate::Again => chunk_sent(
            u,
            t1,
            bytes,
            index,
            timeout,
            (attempt + 1) as u32,
            result,
        ),
    }
}

pub(crate) proof fn chunk_answer(
    t: Transcript,
    t1: Transcript,
    bytes: Seq<u8>,
    index: nat,
    timeout: i32,
    attempt: u32,
    result: Result<(), OdinFault>,
) -> (step: (Transcript, Result<Response, OdinFault>))
    requires
        chunk_rest(t, t1, bytes, index, timeout, attempt, result),
    ensures
        response_read(t, step.0, timeout, step.1),
        chunk_end(step.0, t1, bytes, index, timeout, attempt, step.1, result),
{
    choose|u: Transcript, response: Result<Response, OdinFault>| #[trigger]
        response_read(t, u, timeout, response) && chunk_end(
            u,
            t1,
            bytes,
            index,
            timeout,
            attempt,
            response,
            result,
        )
}

proof fn chunk_grows(
    t0: Transcript,
    t1: Transcript,
    bytes: Seq<u8>,
    index: nat,
    timeout: i32,
    attempt: u32,
    result: Result<(), OdinFault>,
)
    requires
        chunk_sent(t0, t1, bytes, index, timeout, attempt, result),
    ensures
        begins(t0, t1),
    decreases CHUNK_ATTEMPTS - attempt,
{
    if attempt < CHUNK_ATTEMPTS {
        let (t, ok) = chunk_first(t0, t1, bytes, index, timeout, attempt, result);
        let began = attempt_shown(t0, attempt);
        push_begins(t0, UsbEvent::RetryShown);
        push_begins(began, UsbEvent::Sent { data: bytes, timeout: 3000, retry: true, ok });
        begins_chain(t0, began, t);
        if !ok {
            chunk_grows(t, t1, bytes, index, timeout, (attempt + 1) as u32, result);
        } else {
            let (u, r) = chunk_answer(t, t1, bytes, index, timeout, attempt, result);
            response_grows(t, u, timeout, r);
            if chunk_fate(r, index, attempt) is Again {
                chunk_grows(u, t1, bytes, index, timeout, (attempt + 1) as u32, result);
                begins_chain(t, u, t1);
            }
        }
        begins_chain(t0, t, t1);
    }
}

proof fn chunk_decided(
    t0: Transcript,
    a: Transcript,
    b: Transcript,
    whole: Transcript,
    bytes: Seq<u8>,
    index: nat,
    timeout: i32,
    attempt: u32,
    ra: Result<(), OdinFault>,
    rb: Result<(), OdinFault>,
)
    requires
        chunk_sent(t0, a, bytes, index, timeout, attempt, ra),
        chunk_sent(t0, b, bytes, index, timeout, attempt, rb),
        begins(a, whole),
        begins(b, whole),
    ensures
        a == b,
        ra == rb,
    decreases CHUNK_ATTEMPTS - attempt,
{
    if attempt < CHUNK_ATTEMPTS {
        let next = (attempt + 1) as u32;
        let (ta, oka) = chunk_first(t0, a, bytes, index, timeout, attempt, ra);
        let (tb, okb) = chunk_first(t0, b, bytes, index, timeout, attempt, rb);
        if !oka {
            chunk_grows(ta, a, bytes, index, timeout, next, ra);
        } else {
            chunk_rest_grows(ta, a, bytes, index, timeout, attempt, ra);
        }
        if !okb {
            chunk_grows(tb, b, bytes, index, timeout, next, rb);
        } else {
            chunk_rest_grows(tb, b, bytes, index, timeout, attempt, rb);
        }
        begins_chain(ta, a, whole);
        begins_chain(tb, b, whole);
        same_event(
            attempt_shown(t0, attempt),
            UsbEvent::Sent { data: bytes, timeout: 3000, retry: true, ok: oka },
            UsbEvent::Sent { data: bytes, timeout: 3000, retry: true, ok: okb },
            whole,
        );
        if !oka {
            chunk_decided(ta, a, b, whole, bytes, index, timeout, next, ra, rb);
        } else {
            let (ua, qa) = chunk_answer(ta, a, bytes, index, timeout, attempt, ra);
            let (ub, qb) = chunk_answer(tb, b, bytes, index, timeout, attempt, rb);
            chunk_end_grows(ua, a, bytes, index, timeout, attempt, qa, ra);
            chunk_end_grows(ub, b, bytes, index, timeout, attempt, qb, rb);
            begins_chain(ua, a, whole);
            begins_chain(ub, b, whole);
            response_decided(ta, ua, ub, whole, timeout, qa, qb);
            if chunk_fate(qa, index, attempt) is Again {
                chunk_decided(ua, a, b, whole, bytes, index, timeout, next, ra, rb);
            }
        }
    }
}

proof fn chunk_end_grows(
    u: Transcript,
    t1: Transcript,
    bytes: Seq<u8>,
    index: nat,
    timeout: i32,
    attempt: u32,
    response: Result<Response, OdinFault>,
    result: Result<(), OdinFault>,
)
    requires
        chunk_end(u, t1, bytes, index, timeout, attempt, response, result),
        attempt < CHUNK_ATTEMPTS,
    ensures
        begins(u, t1),
{
    if chunk_fate(response, index, attempt) is Again {
        chunk_grows(u, t1, bytes, index, timeout, (attempt + 1) as u32, result);
    }
}

proof fn chunk_rest_grows(
    t: Transcript,
    t1: Transcript,
    bytes: Seq<u8>,
    index: nat,
    timeout: i32,
    attempt: u32,
    result: Result<(), OdinFault>,
)
    requires
        chunk_rest(t, t1, bytes, index, timeout, attempt, result),
        attempt < CHUNK_ATTEMPTS,
    ensures
        begins(t, t1),
{
    let (u, r) = chunk_answer(t, t1, bytes, index, timeout, attempt, result);
    response_grows(t, u, timeout, r);
    chunk_end_grows(u, t1, bytes, index, timeout, attempt, r, result);
    begins_chain(t, u, t1);
}

/// The transcript when chunk number `index` was shown as progress.
pub open spec fn shown(t: Transcript, len: nat, terms: SessionTerms, index: nat) -> Transcript {
    t.push(
        UsbEvent::ProgressShown {
            bytes: chunk_share(len as int, terms.packet_size as int, index as int) as u64,
        },
    )
}

/// The first chunk of those that are left.
pub(crate) proof fn chunks_first(
    t0: Transcript,
    t1: Transcript,
    data: Seq<u8>,
    terms: SessionTerms,
    index: nat,
    result: Result<(), OdinFault>,
) -> (step: (Transcript, Result<(), OdinFault>))
    requires
        chunks_sent(t0, t1, data, terms, index, result),
        terms.packet_size > 0,
        index * terms.packet_size < data.len(),
    ensures
        chunk_sent(
            t0,
            step.0,
            chunk_of(data, terms.packet_size as int, index as int),
            index,
            signed32(terms.slice_timeout),
            0,
            step.1,
        ),
        match step.1 {
            Err(fault) => t1 == step.0 && result == Err::<(), OdinFault>(fault),
            Ok(()) => chunks_sent(
                shown(step.0, data.len(), terms, index),
                t1,
                data,
                terms,
                index + 1,
                result,
            ),
        },
{
    choose|t: Transcript, answer: Result<(), OdinFault>| #[trigger]
        chunk_sent(
            t0,
            t,
            chunk_of(data, terms.packet_size as int, index as int),
            index,
            signed32(terms.slice_timeout),
            0,
            answer,
        ) && match answer {
            Err(fault) => t1 == t && result == Err::<(), OdinFault>(fault),
            Ok(()) => chunks_sent(
                shown(t, data.len(), terms, index),
                t1,
                data,
                terms,
                index + 1,
                result,
            ),
        }
}

pub(crate) proof fn index_is_small(index: nat, size: nat, len: nat)
    requires
        size > 0,
        index * size < len,
    ensures
        index < len,
{
    assert(index <= index * size) by (nonlinear_arith)
        requires
            size > 0,
    ;
}

proof fn chunks_grow(
    t0: Transcript,
    t1: Transcript,
    data: Seq<u8>,
    terms: SessionTerms,
    index: nat,
    result: Result<(), OdinFault>,
)
    requires
        chunks_sent(t0, t1, data, terms, index, result),
    ensures
        begins(t0, t1),
    decreases data.len() - index,
{
    if terms.packet_size > 0 && index * terms.packet_size < data.len() {
        index_is_small(index, terms.packet_size as nat, data.len());
        let (t, r) = chunks_first(t0, t1, data, terms, index, result);
        chunk_grows(
            t0,
            t,
            chunk_of(data, terms.packet_size as int, index as int),
            index,
            signed32(terms.slice_timeout),
            0,
            r,
        );
        if r is Ok {
            let u = shown(t, data.len(), terms, index);
            chunks_grow(u, t1, data, terms, index + 1, result);
            begins_chain(t, u, t1);
        }
        begins_chain(t0, t, t1);
    }
}

proof fn chunks_decided(
    t0: Transcript,
    a: Transcript,
    b: Transcript,
    whole: Transcript,
    data: Seq<u8>,
    terms: SessionTerms,
    index: nat,
    ra: Result<(), OdinFault>,
    rb: Result<(), OdinFault>,
)
    requires
        chunks_sent(t0, a, data, terms, index, ra),
        chunks_sent(t0, b, data, terms, index, rb),
        begins(a, whole),
        begins(b, whole),
    ensures
        a == b,
        ra == rb,
    decreases data.len() - index,
{
    if terms.packet_size > 0 && index * terms.packet_size < data.len() {
        index_is_small(index, terms.packet_size as nat, data.len());
        let bytes = chunk_of(data, terms.packet_size as int, index as int);
        let timeout = signed32(terms.slice_timeout);
        let (ta, qa) = chunks_first(t0, a, data, terms, index, ra);
        let (tb, qb) = chunks_first(t0, b, data, terms, index, rb);
        if qa is Ok {
            let u = shown(ta, data.len(), terms, index);
            chunks_grow(u, a, data, terms, index + 1, ra);
            begins_chain(ta, u, a);
        }
        if qb is Ok {
            let u = shown(tb, data.len(), terms, index);
            chunks_grow(u, b, data, terms, index + 1, rb);
            begins_chain(tb, u, b);
        }
        begins_chain(ta, a, whole);
        begins_chain(tb, b, whole);
        chunk_decided(t0, ta, tb, whole, bytes, index, timeout, 0, qa, qb);
        if qa is Ok {
            let u = shown(ta, data.len(), terms, index);
            chunks_decided(u, a, b, whole, data, terms, index + 1, ra, rb);
        }
    }
}

pub(crate) proof fn streamed_step(
    t0: Transcript,
    t1: Transcript,
    plan: SlicePlan,
    terms: SessionTerms,
    skip_empty: bool,
    result: Result<(), OdinFault>,
) -> (step: (Transcript, Result<(), OdinFault>))
    requires
        slice_streamed(t0, t1, plan, terms, skip_empty, result),
    ensures
        chunks_sent(t0, step.0, plan.data, terms, 0, step.1),
        match step.1 {
            Err(fault) => t1 == step.0 && result == Err::<(), OdinFault>(fault),
            Ok(()) => demand(
                step.0,
                t1,
                plan.end,
                signed32(terms.slice_timeout),
                skip_empty,
                result,
            ),
        },
        begins(step.0, t1),
        begins(t0, t1),
{
    let (t, r) = choose|t: Transcript, answer: Result<(), OdinFault>| #[trigger]
        chunks_sent(t0, t, plan.data, terms, 0, answer) && match answer {
            Err(fault) => t1 == t && result == Err::<(), OdinFault>(fault),
            Ok(()) => demand(
                t,
                t1,
                plan.end,
                signed32(terms.slice_timeout),
                skip_empty,
                result,
            ),
        };
    chunks_grow(t0, t, plan.data, terms, 0, r);
    if r is Ok {
        demand_grows(t, t1, plan.end, signed32(terms.slice_timeout), skip_empty, result);
    }
    begins_chain(t0, t, t1);
    (t, r)
}

pub(crate) proof fn announced_step(
    t0: Transcript,
    t1: Transcript,
    plan: SlicePlan,
    terms: SessionTerms,
    skip_empty: bool,
    result: Result<(), OdinFault>,
) -> (step: (Transcript, Result<(), OdinFault>))
    requires
        slice_announced(t0, t1, plan, terms, skip_empty, result),
    ensures
        demand(t0, step.0, plan.start, 3000, skip_empty, step.1),
        match step.1 {
            Err(fault) => t1 == step.0 && result == Err::<(), OdinFault>(fault),
            Ok(()) => slice_streamed(step.0, t1, plan, terms, skip_empty, result),
        },
        begins(step.0, t1),
        begins(t0, t1),
{
    let (t, r) = choose|t: Transcript, answer: Result<(), OdinFault>| #[trigger]
        demand(t0, t, plan.start, 3000, skip_empty, answer) && match answer {
            Err(fault) => t1 == t && result == Err::<(), OdinFault>(fault),
            Ok(()) => slice_streamed(t, t1, plan, terms, skip_empty, result),
        };
    demand_grows(t0, t, plan.start, 3000, skip_empty, r);
    if r is Ok {
        let step = streamed_step(t, t1, plan, terms, skip_empty, result);
    }
    begins_chain(t0, t, t1);
    (t, r)
}

pub(crate) proof fn slice_step(
    t0: Transcript,
    t1: Transcript,
    plan: SlicePlan,
    terms: SessionTerms,
    skip_empty: bool,
    result: Result<(), OdinFault>,
) -> (step: (Transcript, Result<(), OdinFault>))
    requires
        slice_sent(t0, t1, plan, terms, skip_empty, result),
    ensures
        demand(t0, step.0, plan.init, 3000, skip_empty, step.1),
        match step.1 {
            Err(fault) => t1 == step.0 && result == Err::<(), OdinFault>(fault),
            Ok(()) => slice_announced(step.0, t1, plan, terms, skip_empty, result),
        },
        begins(step.0, t1),
        begins(t0, t1),
{
    let (t, r) = choose|t: Transcript, answer: Result<(), OdinFault>| #[trigger]
        demand(t0, t, plan.init, 3000, skip_empty, answer) && match answer {
            Err(fault) => t1 == t && result == Err::<(), OdinFault>(fault),
            Ok(()) => slice_announced(t, t1, plan, terms, skip_empty, result),
        };
    demand_grows(t0, t, plan.init, 3000, skip_empty, r);
    if r is Ok {
        let step = announced_step(t, t1, plan, terms, skip_empty, result);
    }
    begins_chain(t0, t, t1);
    (t, r)
}

/// What the device said decides what sending a slice came to.
pub proof fn slice_decided(
    t0: Transcript,
    a: Transcript,
    b: Transcript,
    whole: Transcript,
    plan: SlicePlan,
    terms: SessionTerms,
    skip_empty: bool,
    ra: Result<(), OdinFault>,
    rb: Result<(), OdinFault>,
)
    requires
        slice_sent(t0, a, plan, terms, skip_empty, ra),
        slice_sent(t0, b, plan, terms, skip_empty, rb),
        begins(a, whole),
        begins(b, whole),
    ensures
        a == b,
        ra == rb,
{
    let (ta, qa) = slice_step(t0, a, plan, terms, skip_empty, ra);
    let (tb, qb) = slice_step(t0, b, plan, terms, skip_empty, rb);
    begins_chain(ta, a, whole);
    begins_chain(tb, b, whole);
    demand_decided(t0, ta, tb, whole, plan.init, 3000, skip_empty, qa, qb);
    if qa is Ok {
        let (ua, pa) = announced_step(ta, a, plan, terms, skip_empty, ra);
        let (ub, pb) = announced_step(tb, b, plan, terms, skip_empty, rb);
        begins_chain(ua, a, whole);
        begins_chain(ub, b, whole);
        demand_decided(ta, ua, ub, whole, plan.start, 3000, skip_empty, pa, pb);
        if pa is Ok {
            let (va, oa) = streamed_step(ua, a, plan, terms, skip_empty, ra);
            let (vb, ob) = streamed_step(ub, b, plan, terms, skip_empty, rb);
            begins_chain(va, a, whole);
            begins_chain(vb, b, whole);
            chunks_decided(ua, va, vb, whole, plan.data, terms, 0, oa, ob);
            if oa is Ok {
                demand_decided(
                    va,
                    a,
                    b,
                    whole,
                    plan.end,
                    signed32(terms.slice_timeout),
                    skip_empty,
                    ra,
                    rb,
                );
            }
        }
    }
}

pub(crate) proof fn slices_step(
    t0: Transcript,
    t1: Transcript,
    plans: Seq<SlicePlan>,
    terms: SessionTerms,
    skip_empty: bool,
    k: int,
    result: Result<(), OdinFault>,
) -> (step: (Transcript, Result<(), OdinFault>))
    requires
        slices_sent(t0, t1, plans, terms, skip_empty, k, result),
        k < plans.len(),
    ensures
        slice_sent(t0, step.0, plans[k], terms, skip_empty, step.1),
        match step.1 {
            Err(fault) => t1 == step.0 && result == Err::<(), OdinFault>(fault),
            Ok(()) => slices_sent(step.0, t1, plans, terms, skip_empty, k + 1, result),
        },
{
    choose|t: Transcript, answer: Result<(), OdinFault>| #[trigger]
        slice_sent(t0, t, plans[k], terms, skip_empty, answer) && match answer {
            Err(fault) => t1 == t && result == Err::<(), OdinFault>(fault),
            Ok(()) => slices_sent(t, t1, plans, terms, skip_empty, k + 1, result),
        }
}

/// Sending slices only adds to the transcript.
pub proof fn slices_grow(
    t0: Transcript,
    t1: Transcript,
    plans: Seq<SlicePlan>,
    terms: SessionTerms,
    skip_empty: bool,
    k: int,
    result: Result<(), OdinFault>,
)
    requires
        slices_sent(t0, t1, plans, terms, skip_empty, k, result),
    ensures
        begins(t0, t1),
    decreases plans.len() - k,
{
    if k < plans.len() {
        let (t, r) = slices_step(t0, t1, plans, terms, skip_empty, k, result);
        let step = slice_step(t0, t, plans[k], terms, skip_empty, r);
        if r is Ok {
            slices_grow(t, t1, plans, terms, skip_empty, k + 1, result);
        }
        begins_chain(t0, t, t1);
    }
}

/// What the device said decides what sending a file came to.
pub proof fn slices_decided(
    t0: Transcript,
    a: Transcript,
    b: Transcript,
    whole: Transcript,
    plans: Seq<SlicePlan>,
    terms: SessionTerms,
    skip_empty: bool,
    k: int,
    ra: Result<(), OdinFault>,
    rb: Result<(), OdinFault>,
)
    requires
        slices_sent(t0, a, plans, terms, skip_empty, k, ra),
        slices_sent(t0, b, plans, terms, skip_empty, k, rb),
        begins(a, whole),
        begins(b, whole),
    ensures
        a == b,
        ra == rb,
    decreases plans.len() - k,
{
    if k < plans.len() {
        let (ta, qa) = slices_step(t0, a, plans, terms, skip_empty, k, ra);
        let (tb, qb) = slices_step(t0, b, plans, terms, skip_empty, k, rb);
        if qa is Ok {
            slices_grow(ta, a, plans, terms, skip_empty, k + 1, ra);
        }
        if qb is Ok {
            slices_grow(tb, b, plans, terms, skip_empty, k + 1, rb);
        }
        begins_chain(ta, a, whole);
        begins_chain(tb, b, whole);
        slice_decided(t0, ta, tb, whole, plans[k], terms, skip_empty, qa, qb);
        if qa is Ok {
            slices_decided(ta, a, b, whole, plans, terms, skip_empty, k + 1, ra, rb);
        }
    }
}

} // verus!
