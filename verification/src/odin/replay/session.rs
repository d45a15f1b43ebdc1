//! What a transcript decides about greetings, sessions and what is read from a device.

use vstd::prelude::*;
use vstd::utf8::encode_utf8;

use crate::odin::connection::{
    device_info_asked, greeted, greeting, greeting_answered, mismatch, text_of, text_received,
    text_result,
};
use crate::odin::error::OdinFault;
use crate::odin::protocol::{padded, Command, PitCommand, Response, SessionCommand};
use crate::odin::replay::{
    begins, begins_chain, demand_decided, demand_grows, request_decided, response_decided,
    response_grows, same_event,
};
use crate::odin::transcript::{
    begun, demand, negotiated, pit_acknowledged, pit_announced, pit_sent, pit_streamed, pit_taken,
    received, request, response_read, sent, terms_settled, SessionTerms, Transcript,
};
use crate::odin::usb::UsbEvent;

verus! {

proof fn text_decided(
    t0: Transcript,
    a: Transcript,
    b: Transcript,
    whole: Transcript,
    timeout: i32,
    ra: Result<Seq<char>, OdinFault>,
    rb: Result<Seq<char>, OdinFault>,
)
    requires
        text_received(t0, a, timeout, ra),
        text_received(t0, b, timeout, rb),
        begins(a, whole),
        begins(b, whole),
    ensures
        a == b,
        ra == rb,
{
    let (sa, da) = choose|size: i32, data: Seq<u8>| #[trigger]
        received(t0, a, 1024, timeout, true, size, data) && text_result(size, data, ra);
    let (sb, db) = choose|size: i32, data: Seq<u8>| #[trigger]
        received(t0, b, 1024, timeout, true, size, data) && text_result(size, data, rb);
    same_event(
        t0,
        UsbEvent::Received { capacity: 1024, timeout, retry: true, size: sa, data: da },
        UsbEvent::Received { capacity: 1024, timeout, retry: true, size: sb, data: db },
        whole,
    );
}

proof fn text_grows(
    t0: Transcript,
    t1: Transcript,
    timeout: i32,
    result: Result<Seq<char>, OdinFault>,
)
    requires
        text_received(t0, t1, timeout, result),
    ensures
        begins(t0, t1),
{
}

proof fn greeting_grows(
    t0: Transcript,
    t1: Transcript,
    text: Seq<char>,
    result: Result<(), OdinFault>,
)
    requires
        greeting_answered(t0, t1, text, result),
    ensures
        begins(t0, t1),
{
    if greeting(text) is LeftOver {
        let next = choose|next: Result<Seq<char>, OdinFault>| #[trigger]
            text_received(t0, t1, 500, next);
        text_grows(t0, t1, 500, next);
    }
}

proof fn greeting_decided(
    t0: Transcript,
    a: Transcript,
    b: Transcript,
    whole: Transcript,
    text: Seq<char>,
    ra: Result<(), OdinFault>,
    rb: Result<(), OdinFault>,
)
    requires
        greeting_answered(t0, a, text, ra),
        greeting_answered(t0, b, text, rb),
        begins(a, whole),
        begins(b, whole),
    ensures
        a == b,
        ra == rb,
{
    if greeting(text) is LeftOver {
        let na = choose|next: Result<Seq<char>, OdinFault>| #[trigger]
            text_received(t0, a, 500, next) && ra == if next == Ok::<Seq<char>, OdinFault>(
                "LOKE"@,
            ) {
                Ok(())
            } else {
                Err(mismatch(text))
            };
        let nb = choose|next: Result<Seq<char>, OdinFault>| #[trigger]
            text_received(t0, b, 500, next) && rb == if next == Ok::<Seq<char>, OdinFault>(
                "LOKE"@,
            ) {
                Ok(())
            } else {
                Err(mismatch(text))
            };
        text_decided(t0, a, b, whole, 500, na, nb);
    }
}

/// The rest of a greeting, from the answer on.
spec fn greeting_rest(t: Transcript, t1: Transcript, result: Result<(), OdinFault>) -> bool {
    exists|u: Transcript, answer: Result<Seq<char>, OdinFault>| #[trigger]
        text_received(t, u, 1000, answer) && greeting_end(u, t1, answer, result)
}

spec fn greeting_end(
    u: Transcript,
    t1: Transcript,
    answer: Result<Seq<char>, OdinFault>,
    result: Result<(), OdinFault>,
) -> bool {
    match answer {
        Err(_) => t1 == u && result == Err::<(), OdinFault>(OdinFault::HandshakeReceiveFailed),
        Ok(text) => greeting_answered(u, t1, text, result),
    }
}

proof fn greeted_step(t0: Transcript, t1: Transcript, result: Result<(), OdinFault>) -> (step: (
    Transcript,
    bool,
))
    requires
        greeted(t0, t1, result),
    ensures
        sent(t0.push(UsbEvent::Reset), step.0, encode_utf8("ODIN"@), 1000, true, step.1),
        !step.1 ==> t1 == step.0 && result == Err::<(), OdinFault>(
            OdinFault::HandshakeSendFailed,
        ),
        step.1 ==> greeting_rest(step.0, t1, result),
        begins(step.0, t1),
{
    let (t, ok) = choose|t: Transcript, ok: bool| #[trigger]
        sent(t0.push(UsbEvent::Reset), t, encode_utf8("ODIN"@), 1000, true, ok) && if !ok {
            t1 == t && result == Err::<(), OdinFault>(OdinFault::HandshakeSendFailed)
        } else {
            greeting_rest(t, t1, result)
        };
    if ok {
        let (u, answer) = greeting_step(t, t1, result);
        begins_chain(t, u, t1);
    }
    (t, ok)
}

proof fn greeting_step(t: Transcript, t1: Transcript, result: Result<(), OdinFault>) -> (step: (
    Transcript,
    Result<Seq<char>, OdinFault>,
))
    requires
        greeting_rest(t, t1, result),
    ensures
        text_received(t, step.0, 1000, step.1),
        greeting_end(step.0, t1, step.1, result),
        begins(t, step.0),
        begins(step.0, t1),
{
    let (u, answer) = choose|u: Transcript, answer: Result<Seq<char>, OdinFault>| #[trigger]
        text_received(t, u, 1000, answer) && greeting_end(u, t1, answer, result);
    text_grows(t, u, 1000, answer);
    if answer is Ok {
        greeting_grows(u, t1, answer->Ok_0, result);
    }
    (u, answer)
}

/// What the device said decides what greeting it came to.
pub proof fn greeted_decided(
    t0: Transcript,
    a: Transcript,
    b: Transcript,
    whole: Transcript,
    ra: Result<(), OdinFault>,
    rb: Result<(), OdinFault>,
)
    requires
        greeted(t0, a, ra),
        greeted(t0, b, rb),
        begins(a, whole),
        begins(b, whole),
    ensures
        a == b,
        ra == rb,
{
    let (ta, oka) = greeted_step(t0, a, ra);
    let (tb, okb) = greeted_step(t0, b, rb);
    begins_chain(ta, a, whole);
    begins_chain(tb, b, whole);
    same_event(
        t0.push(UsbEvent::Reset),
        UsbEvent::Sent { data: encode_utf8("ODIN"@), timeout: 1000, retry: true, ok: oka },
        UsbEvent::Sent { data: encode_utf8("ODIN"@), timeout: 1000, retry: true, ok: okb },
        whole,
    );
    if oka {
        let (ua, qa) = greeting_step(ta, a, ra);
        let (ub, qb) = greeting_step(tb, b, rb);
        begins_chain(ua, a, whole);
        begins_chain(ub, b, whole);
        text_decided(ta, ua, ub, whole, 1000, qa, qb);
        if qa is Ok {
            greeting_decided(ua, a, b, whole, qa->Ok_0, ra, rb);
        }
    }
}

/// The rest of asking the device what it is, from the answer on.
spec fn asked_rest(t: Transcript, t1: Transcript, result: Result<Seq<char>, OdinFault>) -> bool {
    exists|size: i32, data: Seq<u8>| #[trigger]
        received(t, t1, 1024, 1000, false, size, data) && result == if size <= 0 {
            Err(OdinFault::DeviceInfoUnavailable)
        } else {
            Ok(text_of(data))
        }
}

proof fn asked_step(t0: Transcript, t1: Transcript, result: Result<Seq<char>, OdinFault>) -> (step: (
    Transcript,
    bool,
))
    requires
        device_info_asked(t0, t1, result),
    ensures
        sent(t0, step.0, encode_utf8("DVIF"@), 1000, false, step.1),
        !step.1 ==> t1 == step.0 && result == Err::<Seq<char>, OdinFault>(
            OdinFault::SendCommandFailed,
        ),
        step.1 ==> asked_rest(step.0, t1, result),
        begins(step.0, t1),
{
    choose|t: Transcript, ok: bool| #[trigger]
        sent(t0, t, encode_utf8("DVIF"@), 1000, false, ok) && if !ok {
            t1 == t && result == Err::<Seq<char>, OdinFault>(OdinFault::SendCommandFailed)
        } else {
            asked_rest(t, t1, result)
        }
}

/// What the device said decides what asking it came to.
pub proof fn asked_decided(
    t0: Transcript,
    a: Transcript,
    b: Transcript,
    whole: Transcript,
    ra: Result<Seq<char>, OdinFault>,
    rb: Result<Seq<char>, OdinFault>,
)
    requires
        device_info_asked(t0, a, ra),
        device_info_asked(t0, b, rb),
        begins(a, whole),
        begins(b, whole),
    ensures
        a == b,
        ra == rb,
{
    let (ta, oka) = asked_step(t0, a, ra);
    let (tb, okb) = asked_step(t0, b, rb);
    begins_chain(ta, a, whole);
    begins_chain(tb, b, whole);
    same_event(
        t0,
        UsbEvent::Sent { data: encode_utf8("DVIF"@), timeout: 1000, retry: false, ok: oka },
        UsbEvent::Sent { data: encode_utf8("DVIF"@), timeout: 1000, retry: false, ok: okb },
        whole,
    );
    if oka {
        let (sa, da) = choose|size: i32, data: Seq<u8>| #[trigger]
            received(ta, a, 1024, 1000, false, size, data) && ra == if size <= 0 {
                Err(OdinFault::DeviceInfoUnavailable)
            } else {
                Ok(text_of(data))
            };
        let (sb, db) = choose|size: i32, data: Seq<u8>| #[trigger]
            received(tb, b, 1024, 1000, false, size, data) && rb == if size <= 0 {
                Err(OdinFault::DeviceInfoUnavailable)
            } else {
                Ok(text_of(data))
            };
        same_event(
            ta,
            UsbEvent::Received { capacity: 1024, timeout: 1000, retry: false, size: sa, data: da },
            UsbEvent::Received { capacity: 1024, timeout: 1000, retry: false, size: sb, data: db },
            whole,
        );
    }
}

proof fn settled_grows(
    t0: Transcript,
    t1: Transcript,
    skip_empty: bool,
    terms: SessionTerms,
    result: Result<SessionTerms, OdinFault>,
)
    requires
        terms_settled(t0, t1, skip_empty, terms, result),
    ensures
        begins(t0, t1),
{
    if terms.bootloader_protocol_version >= 2 {
        let cmd = Command::Session(SessionCommand::PacketSize { size: terms.packet_size as u32 });
        let answer = choose|answer: Result<(), OdinFault>| #[trigger]
            demand(t0, t1, cmd, 3000, skip_empty, answer);
        demand_grows(t0, t1, cmd, 3000, skip_empty, answer);
    }
}

proof fn settled_decided(
    t0: Transcript,
    a: Transcript,
    b: Transcript,
    whole: Transcript,
    skip_empty: bool,
    terms: SessionTerms,
    ra: Result<SessionTerms, OdinFault>,
    rb: Result<SessionTerms, OdinFault>,
)
    requires
        terms_settled(t0, a, skip_empty, terms, ra),
        terms_settled(t0, b, skip_empty, terms, rb),
        begins(a, whole),
        begins(b, whole),
    ensures
        a == b,
        ra == rb,
{
    if terms.bootloader_protocol_version >= 2 {
        let cmd = Command::Session(SessionCommand::PacketSize { size: terms.packet_size as u32 });
        let qa = choose|answer: Result<(), OdinFault>| #[trigger]
            demand(t0, a, cmd, 3000, skip_empty, answer) && ra == match answer {
                Ok(()) => Ok(terms),
                Err(fault) => Err(fault),
            };
        let qb = choose|answer: Result<(), OdinFault>| #[trigger]
            demand(t0, b, cmd, 3000, skip_empty, answer) && rb == match answer {
                Ok(()) => Ok(terms),
                Err(fault) => Err(fault),
            };
        demand_decided(t0, a, b, whole, cmd, 3000, skip_empty, qa, qb);
    }
}

spec fn begin_command() -> Command {
    Command::Session(SessionCommand::Begin { protocol_version: 5 })
}

proof fn begun_step(
    t0: Transcript,
    t1: Transcript,
    skip_empty: bool,
    result: Result<SessionTerms, OdinFault>,
) -> (step: (Transcript, Result<u32, OdinFault>))
    requires
        begun(t0, t1, skip_empty, result),
    ensures
        request(t0, step.0, begin_command(), 3000, skip_empty, step.1),
        match step.1 {
            Err(fault) => t1 == step.0 && result == Err::<SessionTerms, OdinFault>(fault),
            Ok(value) => terms_settled(
                step.0.push(UsbEvent::Waited { millis: 3000 }),
                t1,
                skip_empty,
                negotiated(value),
                result,
            ),
        },
        begins(step.0, t1),
{
    let (t, value) = choose|t: Transcript, value: Result<u32, OdinFault>| #[trigger]
        request(t0, t, begin_command(), 3000, skip_empty, value) && match value {
            Err(fault) => t1 == t && result == Err::<SessionTerms, OdinFault>(fault),
            Ok(value) => terms_settled(
                t.push(UsbEvent::Waited { millis: 3000 }),
                t1,
                skip_empty,
                negotiated(value),
                result,
            ),
        };
    if value is Ok {
        let u = t.push(UsbEvent::Waited { millis: 3000 });
        settled_grows(u, t1, skip_empty, negotiated(value->Ok_0), result);
        begins_chain(t, u, t1);
    }
    (t, value)
}

/// What the device said decides what beginning a session came to, and what was agreed on.
pub proof fn begun_decided(
    t0: Transcript,
    a: Transcript,
    b: Transcript,
    whole: Transcript,
    skip_empty: bool,
    ra: Result<SessionTerms, OdinFault>,
    rb: Result<SessionTerms, OdinFault>,
)
    requires
        begun(t0, a, skip_empty, ra),
        begun(t0, b, skip_empty, rb),
        begins(a, whole),
        begins(b, whole),
    ensures
        a == b,
        ra == rb,
{
    let (ta, qa) = begun_step(t0, a, skip_empty, ra);
    let (tb, qb) = begun_step(t0, b, skip_empty, rb);
    begins_chain(ta, a, whole);
    begins_chain(tb, b, whole);
    request_decided(t0, ta, tb, whole, begin_command(), 3000, skip_empty, qa, qb);
    if qa is Ok {
        let u = ta.push(UsbEvent::Waited { millis: 3000 });
        settled_decided(u, a, b, whole, skip_empty, negotiated(qa->Ok_0), ra, rb);
    }
}

proof fn acknowledged_step(
    t0: Transcript,
    t1: Transcript,
    pit: Seq<u8>,
    skip_empty: bool,
    result: Result<(), OdinFault>,
) -> (step: (Transcript, Result<Response, OdinFault>))
    requires
        pit_acknowledged(t0, t1, pit, skip_empty, result),
    ensures
        response_read(t0, step.0, 3000, step.1),
        match pit_taken(step.1) {
            Err(fault) => t1 == step.0 && result == Err::<(), OdinFault>(fault),
            Ok(()) => demand(
                step.0,
                t1,
                Command::Pit(PitCommand::End { size: pit.len() as u32 }),
                3000,
                skip_empty,
                result,
            ),
        },
        begins(step.0, t1),
        begins(t0, t1),
{
    let end = Command::Pit(PitCommand::End { size: pit.len() as u32 });
    let (t, r) = choose|t: Transcript, response: Result<Response, OdinFault>| #[trigger]
        response_read(t0, t, 3000, response) && match pit_taken(response) {
            Err(fault) => t1 == t && result == Err::<(), OdinFault>(fault),
            Ok(()) => demand(t, t1, end, 3000, skip_empty, result),
        };
    response_grows(t0, t, 3000, r);
    if pit_taken(r) is Ok {
        demand_grows(t, t1, end, 3000, skip_empty, result);
    }
    begins_chain(t0, t, t1);
    (t, r)
}

proof fn streamed_step(
    t0: Transcript,
    t1: Transcript,
    pit: Seq<u8>,
    skip_empty: bool,
    result: Result<(), OdinFault>,
) -> (step: (Transcript, bool))
    requires
        pit_streamed(t0, t1, pit, skip_empty, result),
    ensures
        sent(t0, step.0, padded(pit, (pit.len() as u32) as nat), 3000, true, step.1),
        !step.1 ==> t1 == step.0 && result == Err::<(), OdinFault>(OdinFault::SendCommandFailed),
        step.1 ==> pit_acknowledged(step.0, t1, pit, skip_empty, result),
        begins(step.0, t1),
        begins(t0, t1),
{
    let (t, ok) = choose|t: Transcript, ok: bool| #[trigger]
        sent(t0, t, padded(pit, (pit.len() as u32) as nat), 3000, true, ok) && if !ok {
            t1 == t && result == Err::<(), OdinFault>(OdinFault::SendCommandFailed)
        } else {
            pit_acknowledged(t, t1, pit, skip_empty, result)
        };
    if ok {
        let step = acknowledged_step(t, t1, pit, skip_empty, result);
    }
    begins_chain(t0, t, t1);
    (t, ok)
}

proof fn announced_step(
    t0: Transcript,
    t1: Transcript,
    pit: Seq<u8>,
    skip_empty: bool,
    result: Result<(), OdinFault>,
) -> (step: (Transcript, Result<(), OdinFault>))
    requires
        pit_announced(t0, t1, pit, skip_empty, result),
    ensures
        demand(
            t0,
            step.0,
            Command::Pit(PitCommand::Slice { slice: pit.len() as u32 }),
            3000,
            skip_empty,
            step.1,
        ),
        match step.1 {
            Err(fault) => t1 == step.0 && result == Err::<(), OdinFault>(fault),
            Ok(()) => pit_streamed(step.0, t1, pit, skip_empty, result),
        },
        begins(step.0, t1),
        begins(t0, t1),
{
    let cmd = Command::Pit(PitCommand::Slice { slice: pit.len() as u32 });
    let (t, r) = choose|t: Transcript, answer: Result<(), OdinFault>| #[trigger]
        demand(t0, t, cmd, 3000, skip_empty, answer) && match answer {
            Err(fault) => t1 == t && result == Err::<(), OdinFault>(fault),
            Ok(()) => pit_streamed(t, t1, pit, skip_empty, result),
        };
    demand_grows(t0, t, cmd, 3000, skip_empty, r);
    if r is Ok {
        let step = streamed_step(t, t1, pit, skip_empty, result);
    }
    begins_chain(t0, t, t1);
    (t, r)
}

proof fn pit_step(
    t0: Transcript,
    t1: Transcript,
    pit: Seq<u8>,
    skip_empty: bool,
    result: Result<(), OdinFault>,
) -> (step: (Transcript, Result<(), OdinFault>))
    requires
        pit_sent(t0, t1, pit, skip_empty, result),
    ensures
        demand(t0, step.0, Command::Pit(PitCommand::Flash), 3000, skip_empty, step.1),
        match step.1 {
            Err(fault) => t1 == step.0 && result == Err::<(), OdinFault>(fault),
            Ok(()) => pit_announced(step.0, t1, pit, skip_empty, result),
        },
        begins(step.0, t1),
{
    let cmd = Command::Pit(PitCommand::Flash);
    let (t, r) = choose|t: Transcript, answer: Result<(), OdinFault>| #[trigger]
        demand(t0, t, cmd, 3000, skip_empty, answer) && match answer {
            Err(fault) => t1 == t && result == Err::<(), OdinFault>(fault),
            Ok(()) => pit_announced(t, t1, pit, skip_empty, result),
        };
    if r is Ok {
        let step = announced_step(t, t1, pit, skip_empty, result);
    }
    (t, r)
}

/// What the device said decides what sending a partition table came to.
pub proof fn pit_sent_decided(
    t0: Transcript,
    a: Transcript,
    b: Transcript,
    whole: Transcript,
    pit: Seq<u8>,
    skip_empty: bool,
    ra: Result<(), OdinFault>,
    rb: Result<(), OdinFault>,
)
    requires
        pit_sent(t0, a, pit, skip_empty, ra),
        pit_sent(t0, b, pit, skip_empty, rb),
        begins(a, whole),
        begins(b, whole),
    ensures
        a == b,
        ra == rb,
{
    let (ta, qa) = pit_step(t0, a, pit, skip_empty, ra);
    let (tb, qb) = pit_step(t0, b, pit, skip_empty, rb);
    begins_chain(ta, a, whole);
    begins_chain(tb, b, whole);
    demand_decided(
        t0,
        ta,
        tb,
        whole,
        Command::Pit(PitCommand::Flash),
        3000,
        skip_empty,
        qa,
        qb,
    );
    if qa is Ok {
        pit_announced_decided(ta, a, b, whole, pit, skip_empty, ra, rb);
    }
}

proof fn pit_announced_decided(
    t0: Transcript,
    a: Transcript,
    b: Transcript,
    whole: Transcript,
    pit: Seq<u8>,
    skip_empty: bool,
    ra: Result<(), OdinFault>,
    rb: Result<(), OdinFault>,
)
    requires
        pit_announced(t0, a, pit, skip_empty, ra),
        pit_announced(t0, b, pit, skip_empty, rb),
        begins(a, whole),
        begins(b, whole),
    ensures
        a == b,
        ra == rb,
{
    let data = padded(pit, (pit.len() as u32) as nat);
    let (ta, qa) = announced_step(t0, a, pit, skip_empty, ra);
    let (tb, qb) = announced_step(t0, b, pit, skip_empty, rb);
    begins_chain(ta, a, whole);
    begins_chain(tb, b, whole);
    demand_decided(
        t0,
        ta,
        tb,
        whole,
        Command::Pit(PitCommand::Slice { slice: pit.len() as u32 }),
        3000,
        skip_empty,
        qa,
        qb,
    );
    if qa is Ok {
        let (ua, oka) = streamed_step(ta, a, pit, skip_empty, ra);
        let (ub, okb) = streamed_step(tb, b, pit, skip_empty, rb);
        begins_chain(ua, a, whole);
        begins_chain(ub, b, whole);
        same_event(
            ta,
            UsbEvent::Sent { data, timeout: 3000, retry: true, ok: oka },
            UsbEvent::Sent { data, timeout: 3000, retry: true, ok: okb },
            whole,
        );
        if oka {
            let (va, pa) = acknowledged_step(ua, a, pit, skip_empty, ra);
            let (vb, pb) = acknowledged_step(ub, b, pit, skip_empty, rb);
            begins_chain(va, a, whole);
            begins_chain(vb, b, whole);
            response_decided(ua, va, vb, whole, 3000, pa, pb);
            if pit_taken(pa) is Ok {
                demand_decided(
                    va,
                    a,
                    b,
                    whole,
                    Command::Pit(PitCommand::End { size: pit.len() as u32 }),
                    3000,
                    skip_empty,
                    ra,
                    rb,
                );
            }
        }
    }
}

} // verus!
