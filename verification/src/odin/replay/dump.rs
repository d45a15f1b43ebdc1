//! What a transcript decides about what is read from a device in parts.

use vstd::prelude::*;

use crate::odin::error::OdinFault;
use crate::odin::replay::{
    begins, begins_chain, command_decided, command_grows, demand_decided, demand_grows,
    request_decided, same_event,
};
use crate::odin::transcript::{
    command_sent, demand, device_info_read, dump_ended, part_count, part_len, parts_read,
    pit_parts_read, pit_read, received, request, Dump, Transcript, MAX_DEVICE_INFO,
};
use crate::odin::usb::UsbEvent;

verus! {

/// A part was received, and the rest went on from there.
spec fn part_taken(
    u: Transcript,
    t1: Transcript,
    dump: Dump,
    total: int,
    skip_empty: bool,
    i: int,
    got: Seq<u8>,
    size: i32,
    data: Seq<u8>,
    result: Result<Seq<u8>, OdinFault>,
) -> bool {
    if size < 0 {
        t1 == u && result == Err::<Seq<u8>, OdinFault>(OdinFault::ReceivePacketFailed)
    } else {
        parts_read(u, t1, dump, total, skip_empty, i + 1, got + data, result)
    }
}

/// The request for the next part could not be sent.
spec fn part_unsent(
    t0: Transcript,
    t1: Transcript,
    dump: Dump,
    skip_empty: bool,
    i: int,
    result: Result<Seq<u8>, OdinFault>,
) -> bool {
    command_sent(t0, t1, dump.part(i as u32), 3000, skip_empty, false) && result == Err::<
        Seq<u8>,
        OdinFault,
    >(OdinFault::SendCommandFailed)
}

proof fn part_step(
    t0: Transcript,
    t1: Transcript,
    dump: Dump,
    total: int,
    skip_empty: bool,
    i: int,
    got: Seq<u8>,
    result: Result<Seq<u8>, OdinFault>,
) -> (step: (Transcript, Transcript, i32, Seq<u8>))
    requires
        parts_read(t0, t1, dump, total, skip_empty, i, got, result),
        i < part_count(total),
        !part_unsent(t0, t1, dump, skip_empty, i, result),
    ensures
        command_sent(t0, step.0, dump.part(i as u32), 3000, skip_empty, true),
        received(
            step.0,
            step.1,
            part_len(total, got.len() as int) as nat,
            3000,
            dump.retry(),
            step.2,
            step.3,
        ),
        part_taken(step.1, t1, dump, total, skip_empty, i, got, step.2, step.3, result),
{
    choose|t: Transcript, u: Transcript, size: i32, data: Seq<u8>|
        command_sent(t0, t, dump.part(i as u32), 3000, skip_empty, true) && #[trigger] received(
            t,
            u,
            part_len(total, got.len() as int) as nat,
            3000,
            dump.retry(),
            size,
            data,
        ) && part_taken(u, t1, dump, total, skip_empty, i, got, size, data, result)
}

proof fn parts_grow(
    t0: Transcript,
    t1: Transcript,
    dump: Dump,
    total: int,
    skip_empty: bool,
    i: int,
    got: Seq<u8>,
    result: Result<Seq<u8>, OdinFault>,
)
    requires
        parts_read(t0, t1, dump, total, skip_empty, i, got, result),
    ensures
        begins(t0, t1),
    decreases part_count(total) - i,
{
    if i < part_count(total) {
        if part_unsent(t0, t1, dump, skip_empty, i, result) {
            command_grows(t0, t1, dump.part(i as u32), 3000, skip_empty, false);
        } else {
            let (t, u, size, data) = part_step(t0, t1, dump, total, skip_empty, i, got, result);
            command_grows(t0, t, dump.part(i as u32), 3000, skip_empty, true);
            begins_chain(t0, t, u);
            if size >= 0 {
                parts_grow(u, t1, dump, total, skip_empty, i + 1, got + data, result);
            }
            begins_chain(t0, u, t1);
        }
    }
}

proof fn parts_decided(
    t0: Transcript,
    a: Transcript,
    b: Transcript,
    whole: Transcript,
    dump: Dump,
    total: int,
    skip_empty: bool,
    i: int,
    got: Seq<u8>,
    ra: Result<Seq<u8>, OdinFault>,
    rb: Result<Seq<u8>, OdinFault>,
)
    requires
        parts_read(t0, a, dump, total, skip_empty, i, got, ra),
        parts_read(t0, b, dump, total, skip_empty, i, got, rb),
        begins(a, whole),
        begins(b, whole),
    ensures
        a == b,
        ra == rb,
    decreases part_count(total) - i,
{
    if i < part_count(total) {
        let cmd = dump.part(i as u32);
        let fa = part_unsent(t0, a, dump, skip_empty, i, ra);
        let fb = part_unsent(t0, b, dump, skip_empty, i, rb);
        let ta = sent_until(t0, a, dump, total, skip_empty, i, got, ra);
        let tb = sent_until(t0, b, dump, total, skip_empty, i, got, rb);
        begins_chain(ta, a, whole);
        begins_chain(tb, b, whole);
        command_decided(t0, ta, tb, whole, cmd, 3000, skip_empty, !fa, !fb);
        if !fa {
            let (pa, ua, sa, da) = part_step(t0, a, dump, total, skip_empty, i, got, ra);
            let (pb, ub, sb, db) = part_step(t0, b, dump, total, skip_empty, i, got, rb);
            if sa >= 0 {
                parts_grow(ua, a, dump, total, skip_empty, i + 1, got + da, ra);
            }
            if sb >= 0 {
                parts_grow(ub, b, dump, total, skip_empty, i + 1, got + db, rb);
            }
            begins_chain(ua, a, whole);
            begins_chain(ub, b, whole);
            begins_chain(pa, ua, whole);
            begins_chain(pb, ub, whole);
            command_decided(t0, pa, pb, whole, cmd, 3000, skip_empty, true, true);
            let capacity = part_len(total, got.len() as int) as nat;
            same_event(
                pa,
                UsbEvent::Received {
                    capacity,
                    timeout: 3000,
                    retry: dump.retry(),
                    size: sa,
                    data: da,
                },
                UsbEvent::Received {
                    capacity,
                    timeout: 3000,
                    retry: dump.retry(),
                    size: sb,
                    data: db,
                },
                whole,
            );
            if sa >= 0 {
                parts_decided(
                    ua,
                    a,
                    b,
                    whole,
                    dump,
                    total,
                    skip_empty,
                    i + 1,
                    got + da,
                    ra,
                    rb,
                );
            }
        }
    }
}

/// The transcript when the request for the next part was sent, or could not be sent.
proof fn sent_until(
    t0: Transcript,
    t1: Transcript,
    dump: Dump,
    total: int,
    skip_empty: bool,
    i: int,
    got: Seq<u8>,
    result: Result<Seq<u8>, OdinFault>,
) -> (t: Transcript)
    requires
        parts_read(t0, t1, dump, total, skip_empty, i, got, result),
        i < part_count(total),
    ensures
        command_sent(
            t0,
            t,
            dump.part(i as u32),
            3000,
            skip_empty,
            !part_unsent(t0, t1, dump, skip_empty, i, result),
        ),
        begins(t, t1),
{
    if part_unsent(t0, t1, dump, skip_empty, i, result) {
        t1
    } else {
        let (t, u, size, data) = part_step(t0, t1, dump, total, skip_empty, i, got, result);
        if size >= 0 {
            parts_grow(u, t1, dump, total, skip_empty, i + 1, got + data, result);
        }
        begins_chain(t, u, t1);
        t
    }
}

proof fn ended_grows(
    t0: Transcript,
    t1: Transcript,
    dump: Dump,
    skip_empty: bool,
    data: Seq<u8>,
    result: Result<Seq<u8>, OdinFault>,
)
    requires
        dump_ended(t0, t1, dump, skip_empty, data, result),
    ensures
        begins(t0, t1),
{
    let answer = choose|answer: Result<(), OdinFault>| #[trigger]
        demand(t0, t1, dump.end(), 3000, skip_empty, answer);
    demand_grows(t0, t1, dump.end(), 3000, skip_empty, answer);
}

proof fn ended_decided(
    t0: Transcript,
    a: Transcript,
    b: Transcript,
    whole: Transcript,
    dump: Dump,
    skip_empty: bool,
    data: Seq<u8>,
    ra: Result<Seq<u8>, OdinFault>,
    rb: Result<Seq<u8>, OdinFault>,
)
    requires
        dump_ended(t0, a, dump, skip_empty, data, ra),
        dump_ended(t0, b, dump, skip_empty, data, rb),
        begins(a, whole),
        begins(b, whole),
    ensures
        a == b,
        ra == rb,
{
    let qa = choose|answer: Result<(), OdinFault>| #[trigger]
        demand(t0, a, dump.end(), 3000, skip_empty, answer) && ra == match answer {
            Ok(()) => Ok(data),
            Err(fault) => Err(fault),
        };
    let qb = choose|answer: Result<(), OdinFault>| #[trigger]
        demand(t0, b, dump.end(), 3000, skip_empty, answer) && rb == match answer {
            Ok(()) => Ok(data),
            Err(fault) => Err(fault),
        };
    demand_decided(t0, a, b, whole, dump.end(), 3000, skip_empty, qa, qb);
}

/// The end of reading a partition table, when all parts are there.
spec fn pit_end_read(
    t: Transcript,
    t1: Transcript,
    skip_empty: bool,
    data: Seq<u8>,
    result: Result<Seq<u8>, OdinFault>,
) -> bool {
    exists|u: Transcript, size: i32, rest: Seq<u8>| #[trigger]
        received(t, u, 1, 100, false, size, rest) && dump_ended(
            u,
            t1,
            Dump::Pit,
            skip_empty,
            data,
            result,
        )
}

proof fn pit_end_step(
    t: Transcript,
    t1: Transcript,
    skip_empty: bool,
    data: Seq<u8>,
    result: Result<Seq<u8>, OdinFault>,
) -> (step: (Transcript, i32, Seq<u8>))
    requires
        pit_end_read(t, t1, skip_empty, data, result),
    ensures
        received(t, step.0, 1, 100, false, step.1, step.2),
        dump_ended(step.0, t1, Dump::Pit, skip_empty, data, result),
        begins(step.0, t1),
        begins(t, t1),
{
    let (u, size, rest) = choose|u: Transcript, size: i32, rest: Seq<u8>| #[trigger]
        received(t, u, 1, 100, false, size, rest) && dump_ended(
            u,
            t1,
            Dump::Pit,
            skip_empty,
            data,
            result,
        );
    ended_grows(u, t1, Dump::Pit, skip_empty, data, result);
    begins_chain(t, u, t1);
    (u, size, rest)
}

proof fn pit_parts_step(
    t0: Transcript,
    t1: Transcript,
    skip_empty: bool,
    total: int,
    result: Result<Seq<u8>, OdinFault>,
) -> (step: (Transcript, Result<Seq<u8>, OdinFault>))
    requires
        pit_parts_read(t0, t1, skip_empty, total, result),
    ensures
        parts_read(t0, step.0, Dump::Pit, total, skip_empty, 0, Seq::empty(), step.1),
        match step.1 {
            Err(fault) => t1 == step.0 && result == Err::<Seq<u8>, OdinFault>(fault),
            Ok(data) => pit_end_read(step.0, t1, skip_empty, data, result),
        },
        begins(step.0, t1),
        begins(t0, t1),
{
    let (t, parts) = choose|t: Transcript, parts: Result<Seq<u8>, OdinFault>| #[trigger]
        parts_read(t0, t, Dump::Pit, total, skip_empty, 0, Seq::empty(), parts) && match parts {
            Err(fault) => t1 == t && result == Err::<Seq<u8>, OdinFault>(fault),
            Ok(data) => pit_end_read(t, t1, skip_empty, data, result),
        };
    parts_grow(t0, t, Dump::Pit, total, skip_empty, 0, Seq::empty(), parts);
    if parts is Ok {
        let step = pit_end_step(t, t1, skip_empty, parts->Ok_0, result);
    }
    begins_chain(t0, t, t1);
    (t, parts)
}

proof fn pit_read_step(
    t0: Transcript,
    t1: Transcript,
    skip_empty: bool,
    result: Result<Seq<u8>, OdinFault>,
) -> (step: (Transcript, Result<u32, OdinFault>))
    requires
        pit_read(t0, t1, skip_empty, result),
    ensures
        request(t0, step.0, Dump::Pit.start(), 3000, skip_empty, step.1),
        match step.1 {
            Err(fault) => t1 == step.0 && result == Err::<Seq<u8>, OdinFault>(fault),
            Ok(total) => pit_parts_read(step.0, t1, skip_empty, total as int, result),
        },
        begins(step.0, t1),
{
    let (t, total) = choose|t: Transcript, total: Result<u32, OdinFault>| #[trigger]
        request(t0, t, Dump::Pit.start(), 3000, skip_empty, total) && match total {
            Err(fault) => t1 == t && result == Err::<Seq<u8>, OdinFault>(fault),
            Ok(total) => pit_parts_read(t, t1, skip_empty, total as int, result),
        };
    if total is Ok {
        let step = pit_parts_step(t, t1, skip_empty, total->Ok_0 as int, result);
    }
    (t, total)
}

/// What the device said decides what reading the partition table came to.
pub proof fn pit_read_decided(
    t0: Transcript,
    a: Transcript,
    b: Transcript,
    whole: Transcript,
    skip_empty: bool,
    ra: Result<Seq<u8>, OdinFault>,
    rb: Result<Seq<u8>, OdinFault>,
)
    requires
        pit_read(t0, a, skip_empty, ra),
        pit_read(t0, b, skip_empty, rb),
        begins(a, whole),
        begins(b, whole),
    ensures
        a == b,
        ra == rb,
{
    let (ta, qa) = pit_read_step(t0, a, skip_empty, ra);
    let (tb, qb) = pit_read_step(t0, b, skip_empty, rb);
    begins_chain(ta, a, whole);
    begins_chain(tb, b, whole);
    request_decided(t0, ta, tb, whole, Dump::Pit.start(), 3000, skip_empty, qa, qb);
    if qa is Ok {
        let total = qa->Ok_0 as int;
        let (ua, pa) = pit_parts_step(ta, a, skip_empty, total, ra);
        let (ub, pb) = pit_parts_step(tb, b, skip_empty, total, rb);
        begins_chain(ua, a, whole);
        begins_chain(ub, b, whole);
        parts_decided(
            ta,
            ua,
            ub,
            whole,
            Dump::Pit,
            total,
            skip_empty,
            0,
            Seq::empty(),
            pa,
            pb,
        );
        if pa is Ok {
            let data = pa->Ok_0;
            let (va, sa, da) = pit_end_step(ua, a, skip_empty, data, ra);
            let (vb, sb, db) = pit_end_step(ub, b, skip_empty, data, rb);
            begins_chain(va, a, whole);
            begins_chain(vb, b, whole);
            same_event(
                ua,
                UsbEvent::Received {
                    capacity: 1,
                    timeout: 100,
                    retry: false,
                    size: sa,
                    data: da,
                },
                UsbEvent::Received {
                    capacity: 1,
                    timeout: 100,
                    retry: false,
                    size: sb,
                    data: db,
                },
                whole,
            );
            ended_decided(va, a, b, whole, Dump::Pit, skip_empty, data, ra, rb);
        }
    }
}

/// The rest of reading the device information of `total` bytes.
spec fn info_parts_read(
    t: Transcript,
    t1: Transcript,
    skip_empty: bool,
    total: int,
    result: Result<Seq<u8>, OdinFault>,
) -> bool {
    exists|u: Transcript, parts: Result<Seq<u8>, OdinFault>| #[trigger]
        parts_read(t, u, Dump::DeviceInfo, total, skip_empty, 0, Seq::empty(), parts)
            && match parts {
            Err(fault) => t1 == u && result == Err::<Seq<u8>, OdinFault>(fault),
            Ok(data) => dump_ended(u, t1, Dump::DeviceInfo, skip_empty, data, result),
        }
}

proof fn info_parts_step(
    t: Transcript,
    t1: Transcript,
    skip_empty: bool,
    total: int,
    result: Result<Seq<u8>, OdinFault>,
) -> (step: (Transcript, Result<Seq<u8>, OdinFault>))
    requires
        info_parts_read(t, t1, skip_empty, total, result),
    ensures
        parts_read(t, step.0, Dump::DeviceInfo, total, skip_empty, 0, Seq::empty(), step.1),
        match step.1 {
            Err(fault) => t1 == step.0 && result == Err::<Seq<u8>, OdinFault>(fault),
            Ok(data) => dump_ended(step.0, t1, Dump::DeviceInfo, skip_empty, data, result),
        },
        begins(step.0, t1),
        begins(t, t1),
{
    let (u, parts) = choose|u: Transcript, parts: Result<Seq<u8>, OdinFault>| #[trigger]
        parts_read(t, u, Dump::DeviceInfo, total, skip_empty, 0, Seq::empty(), parts)
            && match parts {
            Err(fault) => t1 == u && result == Err::<Seq<u8>, OdinFault>(fault),
            Ok(data) => dump_ended(u, t1, Dump::DeviceInfo, skip_empty, data, result),
        };
    parts_grow(t, u, Dump::DeviceInfo, total, skip_empty, 0, Seq::empty(), parts);
    if parts is Ok {
        ended_grows(u, t1, Dump::DeviceInfo, skip_empty, parts->Ok_0, result);
    }
    begins_chain(t, u, t1);
    (u, parts)
}

proof fn info_step(
    t0: Transcript,
    t1: Transcript,
    skip_empty: bool,
    result: Result<Seq<u8>, OdinFault>,
) -> (step: (Transcript, Result<u32, OdinFault>))
    requires
        device_info_read(t0, t1, skip_empty, result),
    ensures
        request(t0, step.0, Dump::DeviceInfo.start(), 3000, skip_empty, step.1),
        match step.1 {
            Err(fault) => t1 == step.0 && result == Err::<Seq<u8>, OdinFault>(fault),
            Ok(total) => if total == 0 || total > MAX_DEVICE_INFO {
                t1 == step.0 && result == Err::<Seq<u8>, OdinFault>(
                    OdinFault::DeviceInfoUnavailable,
                )
            } else {
                info_parts_read(step.0, t1, skip_empty, total as int, result)
            },
        },
        begins(step.0, t1),
{
    let (t, total) = choose|t: Transcript, total: Result<u32, OdinFault>| #[trigger]
        request(t0, t, Dump::DeviceInfo.start(), 3000, skip_empty, total) && match total {
            Err(fault) => t1 == t && result == Err::<Seq<u8>, OdinFault>(fault),
            Ok(total) => if total == 0 || total > MAX_DEVICE_INFO {
                t1 == t && result == Err::<Seq<u8>, OdinFault>(OdinFault::DeviceInfoUnavailable)
            } else {
                info_parts_read(t, t1, skip_empty, total as int, result)
            },
        };
    if total is Ok && 0 < total->Ok_0 <= MAX_DEVICE_INFO {
        let step = info_parts_step(t, t1, skip_empty, total->Ok_0 as int, result);
    }
    (t, total)
}

/// What the device said decides what reading the device information came to.
pub proof fn device_info_decided(
    t0: Transcript,
    a: Transcript,
    b: Transcript,
    whole: Transcript,
    skip_empty: bool,
    ra: Result<Seq<u8>, OdinFault>,
    rb: Result<Seq<u8>, OdinFault>,
)
    requires
        device_info_read(t0, a, skip_empty, ra),
        device_info_read(t0, b, skip_empty, rb),
        begins(a, whole),
        begins(b, whole),
    ensures
        a == b,
        ra == rb,
{
    let (ta, qa) = info_step(t0, a, skip_empty, ra);
    let (tb, qb) = info_step(t0, b, skip_empty, rb);
    begins_chain(ta, a, whole);
    begins_chain(tb, b, whole);
    request_decided(t0, ta, tb, whole, Dump::DeviceInfo.start(), 3000, skip_empty, qa, qb);
    if qa is Ok && 0 < qa->Ok_0 <= MAX_DEVICE_INFO {
        let total = qa->Ok_0 as int;
        let (ua, pa) = info_parts_step(ta, a, skip_empty, total, ra);
        let (ub, pb) = info_parts_step(tb, b, skip_empty, total, rb);
        begins_chain(ua, a, whole);
        begins_chain(ub, b, whole);
        parts_decided(
            ta,
            ua,
            ub,
            whole,
            Dump::DeviceInfo,
            total,
            skip_empty,
            0,
            Seq::empty(),
            pa,
            pb,
        );
        if pa is Ok {
            ended_decided(ua, a, b, whole, Dump::DeviceInfo, skip_empty, pa->Ok_0, ra, rb);
        }
    }
}

} // verus!
