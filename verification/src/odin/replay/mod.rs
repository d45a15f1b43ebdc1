//! What a transcript decides.
//!
//! Operations only add to the transcript, and what the device said decides what an
//! operation came to: an operation that is given the same answers again sends the same
//! packets and ends in the same way.

use vstd::prelude::*;

use crate::bytes::signed32;
use crate::odin::error::OdinFault;
use crate::odin::packets::packet_starts_with_opcode;
use crate::odin::protocol::{Command, Response, COMMAND_LEN, STATUS_FAIL};
use crate::odin::transcript::{
    accepted, command_sent, demand, read_result, received, request, response_read, sent,
    zero_only, Transcript,
};
use crate::odin::usb::UsbEvent;

pub mod dialogue;
pub mod dump;
pub mod good;
pub mod progress;
pub mod session;
pub mod transfer;

verus! {

/// `t` is how the transcript `whole` begins.
pub open spec fn begins(t: Transcript, whole: Transcript) -> bool {
    &&& t.len() <= whole.len()
    &&& forall|i: int| 0 <= i < t.len() ==> #[trigger] t[i] == whole[i]
}

pub(crate) proof fn begins_chain(a: Transcript, b: Transcript, c: Transcript)
    requires
        begins(a, b),
        begins(b, c),
    ensures
        begins(a, c),
{
    assert forall|i: int| 0 <= i < a.len() implies #[trigger] a[i] == c[i] by {
        assert(a[i] == b[i]);
        assert(b[i] == c[i]);
    }
}

pub(crate) proof fn same_beginning(a: Transcript, b: Transcript, whole: Transcript)
    requires
        begins(a, whole),
        begins(b, whole),
        a.len() == b.len(),
    ensures
        a == b,
{
    assert forall|i: int| 0 <= i < a.len() implies #[trigger] a[i] == b[i] by {
        assert(a[i] == whole[i]);
        assert(b[i] == whole[i]);
    }
    assert(a =~= b);
}

pub(crate) proof fn push_begins(t: Transcript, e: UsbEvent)
    ensures
        begins(t, t.push(e)),
{
}

pub(crate) proof fn same_event(t: Transcript, a: UsbEvent, b: UsbEvent, whole: Transcript)
    requires
        begins(t.push(a), whole),
        begins(t.push(b), whole),
    ensures
        a == b,
{
    assert(t.push(a)[t.len() as int] == a);
    assert(t.push(b)[t.len() as int] == b);
}

/// After a command 1024 bytes have been sent, and an empty packet behind them if and only
/// if the device wants one.
pub proof fn empty_packet_follows_command(
    t0: Transcript,
    t1: Transcript,
    cmd: Command,
    timeout: i32,
    skip_empty: bool,
)
    requires
        command_sent(t0, t1, cmd, timeout, skip_empty, true),
    ensures
        t1[t0.len() as int] == (UsbEvent::Sent {
            data: cmd.packet(),
            timeout,
            retry: true,
            ok: true,
        }),
        cmd.packet().len() == COMMAND_LEN,
        skip_empty ==> t1.len() == t0.len() + 1,
        !skip_empty ==> t1.len() == t0.len() + 2 && (t1[(t0.len() + 1) as int] matches UsbEvent::Sent {
            data,
            timeout,
            retry,
            ..
        } && data.len() == 0 && timeout == 100 && !retry),
{
    packet_starts_with_opcode(cmd);
    if !skip_empty {
        let (t, ok) = choose|t: Transcript, ok: bool| #[trigger]
            sent(t, t1, Seq::empty(), 100, false, ok) && sent(
                t0,
                t,
                cmd.packet(),
                timeout,
                true,
                true,
            );
        assert(t1[t0.len() as int] == t[t0.len() as int]);
    }
}

pub(crate) proof fn command_grows(
    t0: Transcript,
    t1: Transcript,
    cmd: Command,
    timeout: i32,
    skip_empty: bool,
    ok: bool,
)
    requires
        command_sent(t0, t1, cmd, timeout, skip_empty, ok),
    ensures
        begins(t0, t1),
{
    if ok && !skip_empty {
        let (t, empty_ok) = choose|t: Transcript, empty_ok: bool| #[trigger]
            sent(t, t1, Seq::empty(), 100, false, empty_ok) && sent(
                t0,
                t,
                cmd.packet(),
                timeout,
                true,
                true,
            );
        begins_chain(t0, t, t1);
    }
}

pub(crate) proof fn command_decided(
    t0: Transcript,
    a: Transcript,
    b: Transcript,
    whole: Transcript,
    cmd: Command,
    timeout: i32,
    skip_empty: bool,
    oka: bool,
    okb: bool,
)
    requires
        command_sent(t0, a, cmd, timeout, skip_empty, oka),
        command_sent(t0, b, cmd, timeout, skip_empty, okb),
        begins(a, whole),
        begins(b, whole),
    ensures
        a == b,
        oka == okb,
{
    let i = t0.len() as int;
    assert(a.len() > i && a[i] == (UsbEvent::Sent {
        data: cmd.packet(),
        timeout,
        retry: true,
        ok: oka,
    })) by {
        if oka && !skip_empty {
            empty_packet_follows_command(t0, a, cmd, timeout, skip_empty);
        }
    }
    assert(b.len() > i && b[i] == (UsbEvent::Sent {
        data: cmd.packet(),
        timeout,
        retry: true,
        ok: okb,
    })) by {
        if okb && !skip_empty {
            empty_packet_follows_command(t0, b, cmd, timeout, skip_empty);
        }
    }
    assert(a[i] == whole[i] && b[i] == whole[i]);
    assert(oka == okb);
    if oka && !skip_empty {
        empty_packet_follows_command(t0, a, cmd, timeout, skip_empty);
        empty_packet_follows_command(t0, b, cmd, timeout, skip_empty);
    }
    same_beginning(a, b, whole);
}

pub(crate) proof fn response_grows(
    t0: Transcript,
    t1: Transcript,
    timeout: i32,
    result: Result<Response, OdinFault>,
)
    requires
        response_read(t0, t1, timeout, result),
    ensures
        begins(t0, t1),
{
    let (t, size, data) = choose|t: Transcript, size: i32, data: Seq<u8>| #[trigger]
        received(t, t1, 8, timeout, true, size, data) && result
            == read_result(size, data) && if t == t0 {
            size != 0
        } else {
            received(t0, t, 8, timeout, true, 0, Seq::empty())
        };
    push_begins(t, UsbEvent::Received { capacity: 8, timeout, retry: true, size, data });
    if t != t0 {
        begins_chain(t0, t, t1);
    }
}

pub(crate) proof fn response_decided(
    t0: Transcript,
    a: Transcript,
    b: Transcript,
    whole: Transcript,
    timeout: i32,
    ra: Result<Response, OdinFault>,
    rb: Result<Response, OdinFault>,
)
    requires
        response_read(t0, a, timeout, ra),
        response_read(t0, b, timeout, rb),
        begins(a, whole),
        begins(b, whole),
    ensures
        a == b,
        ra == rb,
{
    let i = t0.len() as int;
    let (ta, sa, da) = choose|t: Transcript, size: i32, data: Seq<u8>| #[trigger]
        received(t, a, 8, timeout, true, size, data) && ra
            == read_result(size, data) && if t == t0 {
            size != 0
        } else {
            received(t0, t, 8, timeout, true, 0, Seq::empty())
        };
    let (tb, sb, db) = choose|t: Transcript, size: i32, data: Seq<u8>| #[trigger]
        received(t, b, 8, timeout, true, size, data) && rb
            == read_result(size, data) && if t == t0 {
            size != 0
        } else {
            received(t0, t, 8, timeout, true, 0, Seq::empty())
        };
    assert(a[i] == whole[i] && b[i] == whole[i]);
    if ta == t0 {
        assert(a[i] == (UsbEvent::Received {
            capacity: 8,
            timeout,
            retry: true,
            size: sa,
            data: da,
        }));
    } else {
        assert(a[i] == ta[i]);
        assert(a[i + 1] == whole[i + 1]);
    }
    if tb == t0 {
        assert(b[i] == (UsbEvent::Received {
            capacity: 8,
            timeout,
            retry: true,
            size: sb,
            data: db,
        }));
    } else {
        assert(b[i] == tb[i]);
        assert(b[i + 1] == whole[i + 1]);
    }
    assert(ta == t0 <==> tb == t0);
    same_beginning(a, b, whole);
}

/// A request only adds to the transcript.
pub proof fn request_grows(
    t0: Transcript,
    t1: Transcript,
    cmd: Command,
    timeout: i32,
    skip_empty: bool,
    result: Result<u32, OdinFault>,
)
    requires
        request(t0, t1, cmd, timeout, skip_empty, result),
    ensures
        begins(t0, t1),
{
    if command_sent(t0, t1, cmd, timeout, skip_empty, false) {
        command_grows(t0, t1, cmd, timeout, skip_empty, false);
    } else {
        let (t, r) = choose|t: Transcript, r: Result<Response, OdinFault>| #[trigger]
            response_read(t, t1, timeout, r) && command_sent(
                t0,
                t,
                cmd,
                timeout,
                skip_empty,
                true,
            ) && result == accepted(cmd.opcode(), r);
        command_grows(t0, t, cmd, timeout, skip_empty, true);
        response_grows(t, t1, timeout, r);
        begins_chain(t0, t, t1);
    }
}

/// The step of a request that reads the answer, if the command was sent.
pub(crate) proof fn request_answer(
    t0: Transcript,
    t1: Transcript,
    cmd: Command,
    timeout: i32,
    skip_empty: bool,
    result: Result<u32, OdinFault>,
) -> (step: (Transcript, Result<Response, OdinFault>))
    requires
        request(t0, t1, cmd, timeout, skip_empty, result),
        !(command_sent(t0, t1, cmd, timeout, skip_empty, false) && result == Err::<
            u32,
            OdinFault,
        >(OdinFault::SendCommandFailed)),
    ensures
        command_sent(t0, step.0, cmd, timeout, skip_empty, true),
        response_read(step.0, t1, timeout, step.1),
        result == accepted(cmd.opcode(), step.1),
        begins(step.0, t1),
{
    let (t, r) = choose|t: Transcript, r: Result<Response, OdinFault>| #[trigger]
        response_read(t, t1, timeout, r) && command_sent(
            t0,
            t,
            cmd,
            timeout,
            skip_empty,
            true,
        ) && result == accepted(cmd.opcode(), r);
    response_grows(t, t1, timeout, r);
    (t, r)
}

/// What the device said decides what a request came to.
pub proof fn request_decided(
    t0: Transcript,
    a: Transcript,
    b: Transcript,
    whole: Transcript,
    cmd: Command,
    timeout: i32,
    skip_empty: bool,
    ra: Result<u32, OdinFault>,
    rb: Result<u32, OdinFault>,
)
    requires
        request(t0, a, cmd, timeout, skip_empty, ra),
        request(t0, b, cmd, timeout, skip_empty, rb),
        begins(a, whole),
        begins(b, whole),
    ensures
        a == b,
        ra == rb,
{
    let failed = Err::<u32, OdinFault>(OdinFault::SendCommandFailed);
    let fa = command_sent(t0, a, cmd, timeout, skip_empty, false) && ra == failed;
    let fb = command_sent(t0, b, cmd, timeout, skip_empty, false) && rb == failed;
    if fa && fb {
        command_decided(t0, a, b, whole, cmd, timeout, skip_empty, false, false);
    } else if fa {
        let (t, r) = request_answer(t0, b, cmd, timeout, skip_empty, rb);
        begins_chain(t, b, whole);
        command_decided(t0, a, t, whole, cmd, timeout, skip_empty, false, true);
    } else if fb {
        let (t, r) = request_answer(t0, a, cmd, timeout, skip_empty, ra);
        begins_chain(t, a, whole);
        command_decided(t0, b, t, whole, cmd, timeout, skip_empty, false, true);
    } else {
        let (ta, qa) = request_answer(t0, a, cmd, timeout, skip_empty, ra);
        let (tb, qb) = request_answer(t0, b, cmd, timeout, skip_empty, rb);
        begins_chain(ta, a, whole);
        begins_chain(tb, b, whole);
        command_decided(t0, ta, tb, whole, cmd, timeout, skip_empty, true, true);
        response_decided(ta, a, b, whole, timeout, qa, qb);
    }
}

/// A command that the device has to answer with zero only adds to the transcript.
pub proof fn demand_grows(
    t0: Transcript,
    t1: Transcript,
    cmd: Command,
    timeout: i32,
    skip_empty: bool,
    result: Result<(), OdinFault>,
)
    requires
        demand(t0, t1, cmd, timeout, skip_empty, result),
    ensures
        begins(t0, t1),
{
    let v = choose|v: Result<u32, OdinFault>| #[trigger]
        request(t0, t1, cmd, timeout, skip_empty, v) && result
            == zero_only(v);
    request_grows(t0, t1, cmd, timeout, skip_empty, v);
}

/// What the device said decides what a command came to that it has to answer with zero.
pub proof fn demand_decided(
    t0: Transcript,
    a: Transcript,
    b: Transcript,
    whole: Transcript,
    cmd: Command,
    timeout: i32,
    skip_empty: bool,
    ra: Result<(), OdinFault>,
    rb: Result<(), OdinFault>,
)
    requires
        demand(t0, a, cmd, timeout, skip_empty, ra),
        demand(t0, b, cmd, timeout, skip_empty, rb),
        begins(a, whole),
        begins(b, whole),
    ensures
        a == b,
        ra == rb,
{
    let va = choose|v: Result<u32, OdinFault>| #[trigger]
        request(t0, a, cmd, timeout, skip_empty, v) && ra
            == zero_only(v);
    let vb = choose|v: Result<u32, OdinFault>| #[trigger]
        request(t0, b, cmd, timeout, skip_empty, v) && rb
            == zero_only(v);
    request_decided(t0, a, b, whole, cmd, timeout, skip_empty, va, vb);
}

/// A command that the device answers with its number and zero succeeds.
pub proof fn zero_answer_succeeds(
    t0: Transcript,
    t: Transcript,
    t1: Transcript,
    cmd: Command,
    timeout: i32,
    skip_empty: bool,
    result: Result<(), OdinFault>,
)
    requires
        command_sent(t0, t, cmd, timeout, skip_empty, true),
        response_read(
            t,
            t1,
            timeout,
            Ok((Response { response_type: cmd.opcode(), value: 0 })),
        ),
        demand(t0, t1, cmd, timeout, skip_empty, result),
    ensures
        result == Ok::<(), OdinFault>(()),
{
    let response = Ok::<Response, OdinFault>(Response { response_type: cmd.opcode(), value: 0 });
    let value = accepted(cmd.opcode(), response);
    assert(request(t0, t1, cmd, timeout, skip_empty, value));
    assert(demand(t0, t1, cmd, timeout, skip_empty, zero_only(value)));
    demand_decided(t0, t1, t1, t1, cmd, timeout, skip_empty, zero_only(value), result);
}

/// A command that the device refuses fails, with the status that the device gives.
pub proof fn refusal_is_reported(
    t0: Transcript,
    t: Transcript,
    t1: Transcript,
    cmd: Command,
    timeout: i32,
    skip_empty: bool,
    status: u32,
    result: Result<u32, OdinFault>,
)
    requires
        command_sent(t0, t, cmd, timeout, skip_empty, true),
        response_read(
            t,
            t1,
            timeout,
            Ok((Response { response_type: STATUS_FAIL, value: status })),
        ),
        request(t0, t1, cmd, timeout, skip_empty, result),
    ensures
        result == Err::<u32, OdinFault>(OdinFault::Loke(signed32(status))),
{
    let response = Ok::<Response, OdinFault>(
        Response { response_type: STATUS_FAIL, value: status },
    );
    let value = accepted(cmd.opcode(), response);
    assert(request(t0, t1, cmd, timeout, skip_empty, value));
    request_decided(t0, t1, t1, t1, cmd, timeout, skip_empty, value, result);
}

} // verus!
