//! A device that takes everything: what is sent to it, in which order, and that sending
//! succeeds.

use vstd::prelude::*;

use crate::bytes::{le32, signed32, zeros};
use crate::odin::error::OdinFault;
use crate::odin::packets::response_round_trip;
use crate::odin::protocol::{Command, Response, STREAMING_CHUNK_ACK};
use crate::odin::replay::transfer::{index_is_small, shown, slice_decided};
use crate::odin::transcript::{
    accepted, command_sent, demand, read_result, received, request, response_read, sent,
    zero_only, SessionTerms, Transcript,
};
use crate::odin::transfer::{
    attempt_shown, chunk_fate, chunk_of, chunk_sent, chunks_sent, slice_announced, slice_sent,
    slice_streamed, ChunkFate, SlicePlan,
};
use crate::odin::usb::UsbEvent;

verus! {

/// The device has answered `value` to `number`.
pub open spec fn answered(t: Transcript, number: u32, value: u32, timeout: i32) -> Transcript {
    t.push(
        UsbEvent::Received {
            capacity: 8,
            timeout,
            retry: true,
            size: 8,
            data: le32(number) + le32(value),
        },
    )
}

/// `data` has been sent.
pub open spec fn after_sending(t: Transcript, data: Seq<u8>, timeout: i32) -> Transcript {
    t.push(UsbEvent::Sent { data, timeout, retry: true, ok: true })
}

/// A command has been sent, and answered with its number and zero.
pub open spec fn after_command(t: Transcript, cmd: Command, timeout: i32) -> Transcript {
    answered(after_sending(t, cmd.packet(), timeout), cmd.opcode(), 0, timeout)
}

/// The chunks of a slice from number `index` on have been sent once each, and each has
/// been answered with its number.
pub open spec fn after_chunks(
    t: Transcript,
    data: Seq<u8>,
    terms: SessionTerms,
    index: nat,
) -> Transcript
    decreases data.len() - index,
{
    if terms.packet_size == 0 || index * terms.packet_size >= data.len() {
        t
    } else {
        proof {
            assert(index <= index * terms.packet_size) by (nonlinear_arith)
                requires
                    terms.packet_size >= 1,
            ;
        }
        let chunk = chunk_of(data, terms.packet_size as int, index as int);
        let taken = answered(
            after_sending(t, chunk, 3000),
            STREAMING_CHUNK_ACK,
            index as u32,
            signed32(terms.slice_timeout),
        );
        after_chunks(shown(taken, data.len(), terms, index), data, terms, index + 1)
    }
}

/// A slice has been started, announced, streamed and committed, and nothing was sent
/// twice.
pub open spec fn after_slice(t: Transcript, plan: SlicePlan, terms: SessionTerms) -> Transcript {
    let announced = after_command(after_command(t, plan.init, 3000), plan.start, 3000);
    after_command(
        after_chunks(announced, plan.data, terms, 0),
        plan.end,
        signed32(terms.slice_timeout),
    )
}

pub(crate) proof fn answer_is_read(t: Transcript, number: u32, value: u32, timeout: i32)
    ensures
        response_read(
            t,
            answered(t, number, value, timeout),
            timeout,
            Ok((Response { response_type: number, value })),
        ),
{
    let data = le32(number) + le32(value);
    response_round_trip(Response { response_type: number, value });
    assert(received(t, answered(t, number, value, timeout), 8, timeout, true, 8, data));
    assert(read_result(8, data) == Ok::<Response, OdinFault>(
        Response { response_type: number, value },
    ));
}

pub(crate) proof fn good_command(t: Transcript, cmd: Command, timeout: i32)
    ensures
        demand(t, after_command(t, cmd, timeout), cmd, timeout, true, Ok(())),
{
    let t1 = after_command(t, cmd, timeout);
    let u = after_sending(t, cmd.packet(), timeout);
    let response = Ok::<Response, OdinFault>(Response { response_type: cmd.opcode(), value: 0 });
    answer_is_read(u, cmd.opcode(), 0, timeout);
    assert(command_sent(t, u, cmd, timeout, true, true));
    assert(response_read(u, t1, timeout, response));
    let value = accepted(cmd.opcode(), response);
    assert(request(t, t1, cmd, timeout, true, value));
    assert(zero_only(value) == Ok::<(), OdinFault>(()));
}

pub(crate) proof fn good_chunks(t: Transcript, data: Seq<u8>, terms: SessionTerms, index: nat)
    requires
        terms.packet_size > 0,
        data.len() <= 0x8000_0000 * terms.packet_size,
    ensures
        chunks_sent(t, after_chunks(t, data, terms, index), data, terms, index, Ok(())),
    decreases data.len() - index,
{
    let size = terms.packet_size as int;
    if index * terms.packet_size < data.len() {
        index_is_small(index, terms.packet_size as nat, data.len());
        assert(index < 0x8000_0000) by (nonlinear_arith)
            requires
                index * size < 0x8000_0000 * size,
                size > 0,
        ;
        let timeout = signed32(terms.slice_timeout);
        let chunk = chunk_of(data, size, index as int);
        let u = after_sending(t, chunk, 3000);
        let taken = answered(u, STREAMING_CHUNK_ACK, index as u32, timeout);
        let response = Ok::<Response, OdinFault>(
            Response { response_type: STREAMING_CHUNK_ACK, value: index as u32 },
        );
        answer_is_read(u, STREAMING_CHUNK_ACK, index as u32, timeout);
        assert(sent(attempt_shown(t, 0), u, chunk, 3000, true, true));
        assert(response_read(u, taken, timeout, response));
        assert(chunk_fate(response, index, 0) == ChunkFate::Taken);
        assert(chunk_sent(t, taken, chunk, index, timeout, 0, Ok(())));
        good_chunks(shown(taken, data.len(), terms, index), data, terms, index + 1);
    }
}

/// A device that answers every command with its number and zero, and every chunk with its
/// number, is sent the three commands and every chunk once, in order, and sending the
/// slice succeeds. Slices of so many chunks that their number is no positive 32-bit
/// number are left out.
pub proof fn good_device_takes_slice(
    t0: Transcript,
    plan: SlicePlan,
    terms: SessionTerms,
    result: Result<(), OdinFault>,
)
    requires
        terms.packet_size > 0,
        plan.data.len() <= 0x8000_0000 * terms.packet_size,
    ensures
        slice_sent(t0, after_slice(t0, plan, terms), plan, terms, true, Ok(())),
        slice_sent(t0, after_slice(t0, plan, terms), plan, terms, true, result) ==> result
            == Ok::<(), OdinFault>(()),
{
    let t1 = after_command(t0, plan.init, 3000);
    let t2 = after_command(t1, plan.start, 3000);
    let t3 = after_chunks(t2, plan.data, terms, 0);
    let t4 = after_slice(t0, plan, terms);
    good_command(t0, plan.init, 3000);
    good_command(t1, plan.start, 3000);
    good_chunks(t2, plan.data, terms, 0);
    good_command(t3, plan.end, signed32(terms.slice_timeout));
    assert(slice_streamed(t2, t4, plan, terms, true, Ok(())));
    assert(slice_announced(t1, t4, plan, terms, true, Ok(())));
    assert(slice_sent(t0, t4, plan, terms, true, Ok(())));
    if slice_sent(t0, t4, plan, terms, true, result) {
        slice_decided(t0, t4, t4, t4, plan, terms, true, Ok(()), result);
    }
}

/// What was sent, packet by packet.
pub open spec fn packets(t: Transcript) -> Seq<Seq<u8>>
    decreases t.len(),
{
    if t.len() == 0 {
        Seq::empty()
    } else {
        match t.last() {
            UsbEvent::Sent { data, .. } => packets(t.drop_last()).push(data),
            _ => packets(t.drop_last()),
        }
    }
}

/// The chunks of a slice from number `index` on.
pub open spec fn chunk_packets(data: Seq<u8>, packet_size: int, index: int) -> Seq<Seq<u8>>
    decreases data.len() - index,
{
    if packet_size <= 0 || index < 0 || index * packet_size >= data.len() {
        Seq::empty()
    } else {
        proof {
            assert(index <= index * packet_size) by (nonlinear_arith)
                requires
                    index >= 0,
                    packet_size >= 1,
            ;
        }
        seq![chunk_of(data, packet_size, index)] + chunk_packets(data, packet_size, index + 1)
    }
}

pub(crate) proof fn packets_push(t: Transcript, event: UsbEvent)
    ensures
        packets(t.push(event)) == match event {
            UsbEvent::Sent { data, .. } => packets(t).push(data),
            _ => packets(t),
        },
{
    assert(t.push(event).drop_last() =~= t);
}

pub(crate) proof fn packets_of_command(t: Transcript, cmd: Command, timeout: i32)
    ensures
        packets(after_command(t, cmd, timeout)) == packets(t).push(cmd.packet()),
{
    let u = after_sending(t, cmd.packet(), timeout);
    packets_push(t, UsbEvent::Sent { data: cmd.packet(), timeout, retry: true, ok: true });
    packets_push(u, after_command(t, cmd, timeout).last());
}

proof fn packets_of_chunks(t: Transcript, data: Seq<u8>, terms: SessionTerms, index: nat)
    requires
        terms.packet_size > 0,
    ensures
        packets(after_chunks(t, data, terms, index)) == packets(t) + chunk_packets(
            data,
            terms.packet_size as int,
            index as int,
        ),
    decreases data.len() - index,
{
    let size = terms.packet_size as int;
    if index * terms.packet_size < data.len() {
        index_is_small(index, terms.packet_size as nat, data.len());
        let chunk = chunk_of(data, size, index as int);
        let u = after_sending(t, chunk, 3000);
        let taken = answered(
            u,
            STREAMING_CHUNK_ACK,
            index as u32,
            signed32(terms.slice_timeout),
        );
        packets_push(t, UsbEvent::Sent { data: chunk, timeout: 3000, retry: true, ok: true });
        packets_push(u, taken.last());
        let next = shown(taken, data.len(), terms, index);
        packets_push(taken, next.last());
        packets_of_chunks(next, data, terms, index + 1);
        assert(packets(t).push(chunk) + chunk_packets(data, size, index as int + 1) =~= packets(t)
            + chunk_packets(data, size, index as int));
    } else {
        assert(packets(t) + Seq::empty() =~= packets(t));
    }
}

/// A device that takes everything is sent, for a slice, the command that starts it, the
/// one that announces it, its chunks in order, and the one that commits it.
pub proof fn packets_of_slice(t: Transcript, plan: SlicePlan, terms: SessionTerms)
    requires
        terms.packet_size > 0,
    ensures
        packets(after_slice(t, plan, terms)) == packets(t) + seq![
            plan.init.packet(),
            plan.start.packet(),
        ] + chunk_packets(plan.data, terms.packet_size as int, 0) + seq![plan.end.packet()],
{
    let t1 = after_command(t, plan.init, 3000);
    let t2 = after_command(t1, plan.start, 3000);
    let t3 = after_chunks(t2, plan.data, terms, 0);
    packets_of_command(t, plan.init, 3000);
    packets_of_command(t1, plan.start, 3000);
    packets_of_chunks(t2, plan.data, terms, 0);
    packets_of_command(t3, plan.end, signed32(terms.slice_timeout));
    assert(packets(after_slice(t, plan, terms)) =~= packets(t) + seq![
        plan.init.packet(),
        plan.start.packet(),
    ] + chunk_packets(plan.data, terms.packet_size as int, 0) + seq![plan.end.packet()]);
}

proof fn chunks_from(data: Seq<u8>, packet_size: int, index: int)
    requires
        packet_size > 0,
        0 <= index,
        index * packet_size < data.len() + packet_size,
    ensures
        ({
            let chunks = chunk_packets(data, packet_size, index);
            let end = (index + chunks.len()) * packet_size;
            &&& data.len() <= end < data.len() + packet_size
            &&& forall|i: int| 0 <= i < chunks.len() ==> (#[trigger] chunks[i]).len() == packet_size
            &&& index * packet_size <= data.len() ==> chunks.flatten() == data.skip(
                index * packet_size,
            ) + zeros((end - data.len()) as nat)
            &&& index * packet_size >= data.len() ==> chunks.len() == 0
        }),
    decreases data.len() - index,
{
    let chunks = chunk_packets(data, packet_size, index);
    let at = index * packet_size;
    assert(0 <= index <= at) by (nonlinear_arith)
        requires
            index >= 0,
            packet_size > 0,
            at == index * packet_size,
    ;
    if at < data.len() {
        assert((index + 1) * packet_size == at + packet_size) by (nonlinear_arith)
            requires
                at == index * packet_size,
        ;
        chunks_from(data, packet_size, index + 1);
        let rest = chunk_packets(data, packet_size, index + 1);
        let chunk = chunk_of(data, packet_size, index);
        let end = (index + chunks.len()) * packet_size;
        assert(chunks == seq![chunk] + rest);
        assert(index + chunks.len() == index + 1 + rest.len());
        assert(chunks.drop_first() =~= rest);
        assert(chunks.first() == chunk);
        assert(chunks.flatten() == chunk + rest.flatten());
        if at + packet_size <= data.len() {
            assert(chunk + rest.flatten() =~= data.skip(at) + zeros((end - data.len()) as nat));
        } else {
            assert(rest =~= Seq::empty());
            assert(chunk + rest.flatten() =~= data.skip(at) + zeros((end - data.len()) as nat));
        }
    } else {
        assert(chunks.len() == 0);
        assert(index + chunks.len() == index);
        if at == data.len() {
            assert(chunks.flatten() =~= data.skip(at) + zeros(0));
        }
    }
}

/// The chunks of a slice all have the negotiated length, and one after the other they
/// are the slice, followed by zeros that do not fill a chunk.
pub proof fn chunks_make_up_slice(data: Seq<u8>, packet_size: int)
    requires
        packet_size > 0,
    ensures
        ({
            let chunks = chunk_packets(data, packet_size, 0);
            let padding = chunks.len() * packet_size - data.len();
            &&& 0 <= padding < packet_size
            &&& forall|i: int| 0 <= i < chunks.len() ==> (#[trigger] chunks[i]).len() == packet_size
            &&& chunks.flatten() == data + zeros(padding as nat)
        }),
{
    chunks_from(data, packet_size, 0);
    assert(data.skip(0) =~= data);
}

} // verus!
