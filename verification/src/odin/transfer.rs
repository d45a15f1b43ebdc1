//! Sending firmware files to a device, slice by slice and chunk by chunk.

use vstd::prelude::*;

use crate::bytes::{as_signed32, signed32, u32_at};
use crate::odin::error::{outcome, outcome_of, LokeError, OdinError, OdinFault};
use crate::odin::firmware::{
    contents, file_slices, slices_are_even, slices_make_up_file, FirmwareFile, FirmwareLz4File,
    Lz4Slice,
};
use crate::odin::packets::{
    announced_len_is_aligned, commit_layout, holds_words, packet_layout,
};
use crate::odin::pit::PitEntry;
use crate::odin::protocol::{
    announced_len, padded, Command, DataChunk, Response, TransmitCommand, STATUS_FAIL,
    STREAMING_CHUNK_ACK,
};
use crate::odin::session::OdinSession;
use crate::odin::sparse::smaller;
use crate::odin::transcript::{demand, response_read, sent, SessionTerms, Transcript};
use crate::odin::usb::UsbEvent;

verus! {

/// Longest slice that a device takes: 30 MiB.
pub const MAX_SLICE_SIZE: usize = 31457280;

/// Times that a chunk is sent before it is given up.
pub const CHUNK_ATTEMPTS: u32 = 5;

/// Length of the blocks of a compressed file that a device can decompress.
pub const LZ4_BLOCK_SIZE: usize = 1048576;

/// What the answer to a chunk comes to.
#[allow(inconsistent_fields)]
#[derive(Debug)]
pub enum ChunkReply {
    /// The device has the chunk.
    Taken,
    /// The chunk has to be sent again.
    Again,
    /// The transfer has failed.
    Failed(OdinError),
}

/// The contents of a reply.
pub enum ChunkFate {
    /// See [`ChunkReply::Taken`].
    Taken,
    /// See [`ChunkReply::Again`].
    Again,
    /// See [`ChunkReply::Failed`].
    Failed(OdinFault),
}

impl View for ChunkReply {
    type V = ChunkFate;

    open spec fn view(&self) -> ChunkFate {
        match self {
            ChunkReply::Taken => ChunkFate::Taken,
            ChunkReply::Again => ChunkFate::Again,
            ChunkReply::Failed(error) => ChunkFate::Failed(error@),
        }
    }
}

/// What an answer to chunk number `index` comes to. An answer for another chunk is a
/// failure at the first attempt only: later it may belong to an attempt before.
pub open spec fn chunk_fate(
    response: Result<Response, OdinFault>,
    index: nat,
    attempt: u32,
) -> ChunkFate {
    match response {
        Err(_) => ChunkFate::Again,
        Ok(response) => if response.response_type == STATUS_FAIL {
            ChunkFate::Failed(OdinFault::Loke(signed32(response.value)))
        } else if response.response_type != STREAMING_CHUNK_ACK {
            ChunkFate::Again
        } else if signed32(response.value) < 0 {
            ChunkFate::Failed(OdinFault::Loke(signed32(response.value)))
        } else if response.value == index {
            ChunkFate::Taken
        } else if attempt == 0 {
            ChunkFate::Failed(
                OdinFault::ChunkIndexMismatch { expected: index, received: response.value },
            )
        } else {
            ChunkFate::Again
        },
    }
}

/// What an answer to chunk number `index` comes to.
pub fn judge_chunk(response: Result<Response, OdinError>, index: usize, attempt: u32) -> (reply:
    ChunkReply)
    ensures
        reply@ == chunk_fate(outcome_of(response), index as nat, attempt),
        reply is Taken <==> (response matches Ok(r) && r.response_type == 0 && r.value
            < 0x8000_0000 && r.value == index),
        response is Err ==> reply is Again,
        response matches Ok(r) ==> {
            &&& r.response_type == 0xffff_ffff || (r.response_type == 0 && r.value >= 0x8000_0000)
                ==> reply@ == ChunkFate::Failed(OdinFault::Loke(signed32(r.value)))
            &&& r.response_type != 0xffff_ffff && r.response_type != 0 ==> reply is Again
            &&& r.response_type == 0 && r.value < 0x8000_0000 && r.value != index && attempt == 0
                ==> reply@ == ChunkFate::Failed(
                OdinFault::ChunkIndexMismatch { expected: index as nat, received: r.value },
            )
            &&& r.response_type == 0 && r.value < 0x8000_0000 && r.value != index && attempt > 0
                ==> reply is Again
        },
{
    match response {
        Err(_) => ChunkReply::Again,
        Ok(response) => {
            if response.is_fail() {
                return ChunkReply::Failed(
                    OdinError::Loke(LokeError::from_status(response.signed_value())),
                );
            }
            if response.response_type != STREAMING_CHUNK_ACK {
                return ChunkReply::Again;
            }
            if response.signed_value() < 0 {
                return ChunkReply::Failed(
                    OdinError::Loke(LokeError::from_status(response.signed_value())),
                );
            }
            if response.value as u64 == index as u64 {
                ChunkReply::Taken
            } else if attempt == 0 {
                ChunkReply::Failed(
                    OdinError::ChunkIndexMismatch { expected: index, received: response.value },
                )
            } else {
                ChunkReply::Again
            }
        },
    }
}

/// The transcript when attempt number `attempt` to send a chunk begins: all but the first
/// are shown.
pub open spec fn attempt_shown(t: Transcript, attempt: u32) -> Transcript {
    if attempt > 0 {
        t.push(UsbEvent::RetryShown)
    } else {
        t
    }
}

/// Chunk number `index`, with the bytes `bytes`, was sent, from attempt number `attempt`
/// on, until it was taken, refused or given up.
pub open spec fn chunk_sent(
    t0: Transcript,
    t1: Transcript,
    bytes: Seq<u8>,
    index: nat,
    timeout: i32,
    attempt: u32,
    result: Result<(), OdinFault>,
) -> bool
    decreases CHUNK_ATTEMPTS - attempt,
{
    if attempt >= CHUNK_ATTEMPTS {
        t1 == t0 && result == Err::<(), OdinFault>(OdinFault::ChunkResponseReceiveFailed)
    } else {
        exists|t: Transcript, ok: bool| #[trigger]
            sent(attempt_shown(t0, attempt), t, bytes, 3000, true, ok) && if !ok {
                chunk_sent(t, t1, bytes, index, timeout, (attempt + 1) as u32, result)
            } else {
                exists|u: Transcript, response: Result<Response, OdinFault>| #[trigger]
                    response_read(t, u, timeout, response) && match chunk_fate(
                        response,
                        index,
                        attempt,
                    ) {
                        ChunkFate::Taken => t1 == u && result == Ok::<(), OdinFault>(()),
                        ChunkFate::Failed(fault) => t1 == u && result == Err::<(), OdinFault>(
                            fault,
                        ),
                        ChunkFate::Again => chunk_sent(
                            u,
                            t1,
                            bytes,
                            index,
                            timeout,
                            (attempt + 1) as u32,
                            result,
                        ),
                    }
            }
    }
}

/// The bytes of chunk number `index` of a slice.
pub open spec fn chunk_of(data: Seq<u8>, packet_size: int, index: int) -> Seq<u8> {
    padded(data.skip(index * packet_size), packet_size as nat)
}

/// The bytes of a slice of `len` bytes that chunk number `index` holds, padding left out.
pub open spec fn chunk_share(len: int, packet_size: int, index: int) -> int {
    smaller(len - index * packet_size, packet_size)
}

/// The chunks of a slice from number `index` on were sent. Each chunk that the device has
/// taken is shown as progress, without its padding.
pub open spec fn chunks_sent(
    t0: Transcript,
    t1: Transcript,
    data: Seq<u8>,
    terms: SessionTerms,
    index: nat,
    result: Result<(), OdinFault>,
) -> bool
    decreases data.len() - index,
{
    if terms.packet_size == 0 || index * terms.packet_size >= data.len() {
        t1 == t0 && result == Ok::<(), OdinFault>(())
    } else {
        proof {
            assert(index <= index * terms.packet_size) by (nonlinear_arith)
                requires
                    terms.packet_size >= 1,
            ;
        }
        exists|t: Transcript, answer: Result<(), OdinFault>| #[trigger]
            chunk_sent(
                t0,
                t,
                chunk_of(data, terms.packet_size as int, index as int),
                index,
                signed32(terms.slice_timeout),
                0,
                answer,
            ) && match answer {
                Err(fault) => t1 == t && result == Err::<(), OdinFault>(fault),
                Ok(()) => chunks_sent(
                    t.push(
                        UsbEvent::ProgressShown {
                            bytes: chunk_share(
                                data.len() as int,
                                terms.packet_size as int,
                                index as int,
                            ) as u64,
                        },
                    ),
                    t1,
                    data,
                    terms,
                    index + 1,
                    result,
                ),
            }
    }
}

/// What is said about a slice, and the slice.
pub struct SlicePlan {
    /// Starts the slice.
    pub init: Command,
    /// Announces the slice.
    pub start: Command,
    /// Commits the slice.
    pub end: Command,
    /// The slice.
    pub data: Seq<u8>,
}

/// A slice was sent: started, announced, streamed and committed.
pub open spec fn slice_sent(
    t0: Transcript,
    t1: Transcript,
    plan: SlicePlan,
    terms: SessionTerms,
    skip_empty: bool,
    result: Result<(), OdinFault>,
) -> bool {
    exists|t: Transcript, answer: Result<(), OdinFault>| #[trigger]
        demand(t0, t, plan.init, 3000, skip_empty, answer) && match answer {
            Err(fault) => t1 == t && result == Err::<(), OdinFault>(fault),
            Ok(()) => slice_announced(t, t1, plan, terms, skip_empty, result),
        }
}

/// The rest of sending a slice, from announcing it on.
pub open spec fn slice_announced(
    t0: Transcript,
    t1: Transcript,
    plan: SlicePlan,
    terms: SessionTerms,
    skip_empty: bool,
    result: Result<(), OdinFault>,
) -> bool {
    exists|t: Transcript, answer: Result<(), OdinFault>| #[trigger]
        demand(t0, t, plan.start, 3000, skip_empty, answer) && match answer {
            Err(fault) => t1 == t && result == Err::<(), OdinFault>(fault),
            Ok(()) => slice_streamed(t, t1, plan, terms, skip_empty, result),
        }
}

/// The rest of sending a slice, from its chunks on.
pub open spec fn slice_streamed(
    t0: Transcript,
    t1: Transcript,
    plan: SlicePlan,
    terms: SessionTerms,
    skip_empty: bool,
    result: Result<(), OdinFault>,
) -> bool {
    exists|t: Transcript, answer: Result<(), OdinFault>| #[trigger]
        chunks_sent(t0, t, plan.data, terms, 0, answer) && match answer {
            Err(fault) => t1 == t && result == Err::<(), OdinFault>(fault),
            Ok(()) => demand(
                t,
                t1,
                plan.end,
                signed32(terms.slice_timeout),
                skip_empty,
                result,
            ),
        }
}

/// The slices from number `k` on were sent, one after the other.
pub open spec fn slices_sent(
    t0: Transcript,
    t1: Transcript,
    plans: Seq<SlicePlan>,
    terms: SessionTerms,
    skip_empty: bool,
    k: int,
    result: Result<(), OdinFault>,
) -> bool
    decreases plans.len() - k,
{
    if k >= plans.len() {
        t1 == t0 && result == Ok::<(), OdinFault>(())
    } else {
        exists|t: Transcript, answer: Result<(), OdinFault>| #[trigger]
            slice_sent(t0, t, plans[k], terms, skip_empty, answer) && match answer {
                Err(fault) => t1 == t && result == Err::<(), OdinFault>(fault),
                Ok(()) => slices_sent(t, t1, plans, terms, skip_empty, k + 1, result),
            }
    }
}

/// A file of `len` bytes was sent: its length was shown, and then its slices were sent.
pub open spec fn file_sent(
    t0: Transcript,
    t1: Transcript,
    len: u64,
    plans: Seq<SlicePlan>,
    terms: SessionTerms,
    skip_empty: bool,
    result: Result<(), OdinFault>,
) -> bool {
    slices_sent(
        t0.push(UsbEvent::LengthShown { bytes: len }),
        t1,
        plans,
        terms,
        skip_empty,
        0,
        result,
    )
}

/// What is said about slice number `k` of a file that is not compressed.
pub open spec fn raw_plan(
    slices: Seq<Seq<u8>>,
    k: int,
    pit_entry: PitEntry,
    version: u32,
) -> SlicePlan {
    let size = slices[k].len() as u32;
    SlicePlan {
        init: Command::flash(false),
        start: Command::Transmit(
            TransmitCommand::Slice { slice_byte_count: announced_len(size) },
        ),
        end: Command::commit(size, pit_entry, k == slices.len() - 1, false, version),
        data: slices[k],
    }
}

/// What is said about the slices of a file that is not compressed.
pub open spec fn raw_plans(slices: Seq<Seq<u8>>, pit_entry: PitEntry, version: u32) -> Seq<
    SlicePlan,
> {
    Seq::new(slices.len(), |k: int| raw_plan(slices, k, pit_entry, version))
}

/// What is said about slice number `k` of a compressed file.
pub open spec fn lz4_plan(
    slices: Seq<Lz4Slice<'_>>,
    k: int,
    pit_entry: PitEntry,
    version: u32,
) -> SlicePlan {
    let size = slices[k].decompressed_size as u32;
    SlicePlan {
        init: Command::flash(true),
        start: Command::Transmit(
            TransmitCommand::Lz4Slice {
                compressed_size: slices[k].data@.len() as u32,
                uncompressed_size: size,
            },
        ),
        end: Command::commit(size, pit_entry, k == slices.len() - 1, true, version),
        data: slices[k].data@,
    }
}

/// What is said about the slices of a compressed file.
pub open spec fn lz4_plans(slices: Seq<Lz4Slice<'_>>, pit_entry: PitEntry, version: u32) -> Seq<
    SlicePlan,
> {
    Seq::new(slices.len(), |k: int| lz4_plan(slices, k, pit_entry, version))
}

/// What is said about the slices of a compressed file: they are sent as they are where
/// the device can decompress them, else decompressed.
pub open spec fn lz4_file_plans(
    info: FirmwareLz4File<'_>,
    lz4_supported: bool,
    version: u32,
) -> Seq<SlicePlan> {
    if lz4_supported && info.header.block_max_size == LZ4_BLOCK_SIZE {
        lz4_plans(info.slices@, *info.pit_entry, version)
    } else {
        raw_plans(contents(info.decompressed_slices@), *info.pit_entry, version)
    }
}

/// The length that is shown of a compressed file: what is sent of it.
pub open spec fn lz4_file_len(info: FirmwareLz4File<'_>, lz4_supported: bool) -> u64 {
    if lz4_supported && info.header.block_max_size == LZ4_BLOCK_SIZE {
        info.file@.len() as u64
    } else {
        info.header.content_size
    }
}

impl OdinSession {
    /// Sends a chunk until it is taken, refused or given up.
    fn send_chunk_reliably(&mut self, buffer: &[u8], index: usize) -> (result: Result<
        (),
        OdinError,
    >)
        ensures
            chunk_sent(
                old(self).trace(),
                final(self).trace(),
                padded(buffer@, old(self).packet_size as nat),
                index as nat,
                signed32(old(self).slice_timeout),
                0,
                outcome(result),
            ),
            final(self).continues(*old(self)),
    {
        let ghost t0 = self.trace();
        let ghost bytes = padded(buffer@, self.packet_size as nat);
        let timeout: i32 = as_signed32(self.slice_timeout);
        let mut attempt: u32 = 0;
        while attempt < CHUNK_ATTEMPTS
            invariant
                attempt <= CHUNK_ATTEMPTS,
                self.continues(*old(self)),
                t0 == old(self).trace(),
                bytes == padded(buffer@, old(self).packet_size as nat),
                timeout == signed32(old(self).slice_timeout),
                forall|t1: Transcript, result: Result<(), OdinFault>|
                    chunk_sent(
                        self.trace(),
                        t1,
                        bytes,
                        index as nat,
                        timeout,
                        attempt,
                        result,
                    ) ==> #[trigger] chunk_sent(
                        t0,
                        t1,
                        bytes,
                        index as nat,
                        timeout,
                        0,
                        result,
                    ),
            decreases CHUNK_ATTEMPTS - attempt,
        {
            let ghost ta = self.trace();
            if attempt > 0 {
                self.connection.link.usb.show_retry();
            }
            assert(self.trace() == attempt_shown(ta, attempt));
            let chunk = DataChunk::new(buffer, self.packet_size);
            let ok: bool = self.send_chunk(&chunk, 3000).is_ok();
            let ghost t = self.trace();
            assert(sent(attempt_shown(ta, attempt), t, bytes, 3000, true, ok));
            if ok {
                let response: Result<Response, OdinError> = self.receive_response(timeout);
                let ghost u = self.trace();
                let ghost read = outcome_of(response);
                assert(response_read(t, u, timeout, read));
                match judge_chunk(response, index, attempt) {
                    ChunkReply::Taken => {
                        assert(chunk_sent(
                            ta,
                            u,
                            bytes,
                            index as nat,
                            timeout,
                            attempt,
                            Ok(()),
                        ));
                        return Ok(());
                    },
                    ChunkReply::Failed(error) => {
                        assert(chunk_sent(
                            ta,
                            u,
                            bytes,
                            index as nat,
                            timeout,
                            attempt,
                            Err(error@),
                        ));
                        return Err(error);
                    },
                    ChunkReply::Again => {},
                }
            }
            assert forall|t1: Transcript, result: Result<(), OdinFault>|
                chunk_sent(
                    self.trace(),
                    t1,
                    bytes,
                    index as nat,
                    timeout,
                    (attempt + 1) as u32,
                    result,
                ) implies #[trigger] chunk_sent(
                t0,
                t1,
                bytes,
                index as nat,
                timeout,
                0,
                result,
            ) by {
                assert(chunk_sent(ta, t1, bytes, index as nat, timeout, attempt, result));
            }
            attempt += 1;
        }
        assert(chunk_sent(
            self.trace(),
            self.trace(),
            bytes,
            index as nat,
            timeout,
            attempt,
            Err(OdinFault::ChunkResponseReceiveFailed),
        ));
        Err(OdinError::ChunkResponseReceiveFailed)
    }

    /// Sends the chunks of a slice.
    fn send_chunks(&mut self, data: &[u8]) -> (result: Result<(), OdinError>)
        requires
            old(self).packet_size > 0,
        ensures
            chunks_sent(
                old(self).trace(),
                final(self).trace(),
                data@,
                old(self).terms(),
                0,
                outcome(result),
            ),
            final(self).continues(*old(self)),
    {
        let ghost t0 = self.trace();
        let ghost terms = self.terms();
        let packet_size: usize = self.packet_size;
        let len: usize = data.len();
        let mut pos: usize = 0;
        let mut index: usize = 0;
        while pos < len
            invariant
                self.continues(*old(self)),
                packet_size == old(self).packet_size,
                packet_size > 0,
                terms == old(self).terms(),
                t0 == old(self).trace(),
                len == data@.len(),
                pos <= len,
                pos < len ==> pos == index * packet_size,
                pos == len ==> index * packet_size >= len,
                index <= pos,
                forall|t1: Transcript, result: Result<(), OdinFault>|
                    chunks_sent(self.trace(), t1, data@, terms, index as nat, result)
                        ==> #[trigger] chunks_sent(t0, t1, data@, terms, 0, result),
            decreases len - pos,
        {
            let ghost ti = self.trace();
            let rest: &[u8] = &data[pos..len];
            assert(rest@ =~= data@.skip(index * packet_size));
            let answer: Result<(), OdinError> = self.send_chunk_reliably(rest, index);
            let ghost t = self.trace();
            assert(chunk_sent(
                ti,
                t,
                chunk_of(data@, terms.packet_size as int, index as int),
                index as nat,
                signed32(terms.slice_timeout),
                0,
                outcome(answer),
            ));
            if answer.is_err() {
                assert(chunks_sent(ti, t, data@, terms, index as nat, outcome(answer)));
                return answer;
            }
            let share: usize = if len - pos < packet_size {
                len - pos
            } else {
                packet_size
            };
            self.connection.link.usb.show_progress(share as u64);
            let ghost shown = self.trace();
            assert(shown == t.push(
                UsbEvent::ProgressShown {
                    bytes: chunk_share(len as int, packet_size as int, index as int) as u64,
                },
            ));
            assert forall|t1: Transcript, result: Result<(), OdinFault>|
                chunks_sent(shown, t1, data@, terms, (index + 1) as nat, result) implies
                #[trigger] chunks_sent(t0, t1, data@, terms, 0, result) by {
                assert(chunks_sent(ti, t1, data@, terms, index as nat, result));
            }
            assert((index + 1) * packet_size == index * packet_size + packet_size)
                by (nonlinear_arith);
            if len - pos > packet_size {
                pos += packet_size;
            } else {
                pos = len;
            }
            index += 1;
        }
        assert(chunks_sent(self.trace(), self.trace(), data@, terms, index as nat, Ok(())));
        Ok(())
    }

    /// Sends a slice.
    pub fn transmit_slice(
        &mut self,
        init_cmd: &Command,
        start_cmd: &Command,
        end_cmd: &Command,
        slice_data: &[u8],
    ) -> (result: Result<(), OdinError>)
        requires
            old(self).packet_size > 0,
        ensures
            slice_sent(
                old(self).trace(),
                final(self).trace(),
                (SlicePlan {
                    init: *init_cmd,
                    start: *start_cmd,
                    end: *end_cmd,
                    data: slice_data@,
                }),
                old(self).terms(),
                old(self).skip_empty(),
                outcome(result),
            ),
            final(self).continues(*old(self)),
    {
        let ghost skip = self.skip_empty();
        let ghost terms = self.terms();
        let ghost plan = SlicePlan {
            init: *init_cmd,
            start: *start_cmd,
            end: *end_cmd,
            data: slice_data@,
        };
        let ghost t0 = self.trace();
        let answer: Result<(), OdinError> = self.demand_zero(init_cmd, 3000);
        let ghost t1 = self.trace();
        assert(demand(t0, t1, plan.init, 3000, skip, outcome(answer)));
        if answer.is_err() {
            return answer;
        }
        let answer: Result<(), OdinError> = self.demand_zero(start_cmd, 3000);
        let ghost t2 = self.trace();
        assert(demand(t1, t2, plan.start, 3000, skip, outcome(answer)));
        if answer.is_err() {
            assert(slice_announced(t1, t2, plan, terms, skip, outcome(answer)));
            return answer;
        }
        let answer: Result<(), OdinError> = self.send_chunks(slice_data);
        let ghost t3 = self.trace();
        assert(chunks_sent(t2, t3, plan.data, terms, 0, outcome(answer)));
        if answer.is_err() {
            assert(slice_streamed(t2, t3, plan, terms, skip, outcome(answer)));
            assert(slice_announced(t1, t3, plan, terms, skip, outcome(answer)));
            return answer;
        }
        let timeout: i32 = as_signed32(self.slice_timeout);
        let result: Result<(), OdinError> = self.demand_zero(end_cmd, timeout);
        assert(slice_streamed(t2, self.trace(), plan, terms, skip, outcome(result)));
        assert(slice_announced(t1, self.trace(), plan, terms, skip, outcome(result)));
        result
    }

    /// Sends slices that are not compressed.
    pub fn transmit_slices(&mut self, slices: &[&[u8]], pit_entry: &PitEntry) -> (result: Result<
        (),
        OdinError,
    >)
        requires
            old(self).packet_size > 0,
        ensures
            slices_sent(
                old(self).trace(),
                final(self).trace(),
                raw_plans(
                    contents(slices@),
                    *pit_entry,
                    old(self).bootloader_protocol_version,
                ),
                old(self).terms(),
                old(self).skip_empty(),
                0,
                outcome(result),
            ),
            final(self).continues(*old(self)),
    {
        let ghost skip = self.skip_empty();
        let ghost terms = self.terms();
        let ghost t0 = self.trace();
        let ghost version = self.bootloader_protocol_version;
        let ghost plans = raw_plans(contents(slices@), *pit_entry, version);
        let mut k: usize = 0;
        while k < slices.len()
            invariant
                k <= slices@.len(),
                self.continues(*old(self)),
                old(self).packet_size > 0,
                skip == old(self).skip_empty(),
                terms == old(self).terms(),
                t0 == old(self).trace(),
                version == old(self).bootloader_protocol_version,
                plans == raw_plans(contents(slices@), *pit_entry, version),
                forall|t1: Transcript, result: Result<(), OdinFault>|
                    slices_sent(self.trace(), t1, plans, terms, skip, k as int, result)
                        ==> #[trigger] slices_sent(t0, t1, plans, terms, skip, 0, result),
            decreases slices@.len() - k,
        {
            let ghost tk = self.trace();
            let slice_data: &[u8] = slices[k];
            let size: u32 = #[verifier::truncate] (slice_data.len() as u32);
            let init_cmd = Command::transmit_flash(false);
            let start_cmd = Command::start_slice_transmission(size);
            let end_cmd = Command::commit_slice(
                size,
                pit_entry,
                k == slices.len() - 1,
                false,
                self.bootloader_protocol_version,
            );
            let answer: Result<(), OdinError> = self.transmit_slice(
                &init_cmd,
                &start_cmd,
                &end_cmd,
                slice_data,
            );
            let ghost t = self.trace();
            assert(contents(slices@)[k as int] == slice_data@);
            assert(slice_sent(tk, t, plans[k as int], terms, skip, outcome(answer)));
            if answer.is_err() {
                assert(slices_sent(tk, t, plans, terms, skip, k as int, outcome(answer)));
                return answer;
            }
            assert forall|t1: Transcript, result: Result<(), OdinFault>|
                slices_sent(t, t1, plans, terms, skip, k + 1, result) implies
                #[trigger] slices_sent(t0, t1, plans, terms, skip, 0, result) by {
                assert(slices_sent(tk, t1, plans, terms, skip, k as int, result));
            }
            k += 1;
        }
        assert(slices_sent(self.trace(), self.trace(), plans, terms, skip, k as int, Ok(())));
        Ok(())
    }

    /// Sends a file that is not compressed.
    pub fn send_file(&mut self, info: &FirmwareFile<'_>) -> (result: Result<(), OdinError>)
        requires
            old(self).packet_size > 0,
        ensures
            file_sent(
                old(self).trace(),
                final(self).trace(),
                info.file@.len() as u64,
                raw_plans(
                    file_slices(info.file@, MAX_SLICE_SIZE as int),
                    *info.pit_entry,
                    old(self).bootloader_protocol_version,
                ),
                old(self).terms(),
                old(self).skip_empty(),
                outcome(result),
            ),
            final(self).continues(*old(self)),
    {
        self.connection.link.usb.show_length(info.file.len() as u64);
        let slices: Vec<&[u8]> = info.slices(MAX_SLICE_SIZE);
        self.transmit_slices(slices.as_slice(), info.pit_entry)
    }

    /// Sends the slices of a compressed file as they are.
    fn transmit_lz4_slices(&mut self, slices: &[Lz4Slice<'_>], pit_entry: &PitEntry) -> (result:
        Result<(), OdinError>)
        requires
            old(self).packet_size > 0,
        ensures
            slices_sent(
                old(self).trace(),
                final(self).trace(),
                lz4_plans(slices@, *pit_entry, old(self).bootloader_protocol_version),
                old(self).terms(),
                old(self).skip_empty(),
                0,
                outcome(result),
            ),
            final(self).continues(*old(self)),
    {
        let ghost skip = self.skip_empty();
        let ghost terms = self.terms();
        let ghost t0 = self.trace();
        let ghost version = self.bootloader_protocol_version;
        let ghost plans = lz4_plans(slices@, *pit_entry, version);
        let mut k: usize = 0;
        while k < slices.len()
            invariant
                k <= slices@.len(),
                self.continues(*old(self)),
                old(self).packet_size > 0,
                skip == old(self).skip_empty(),
                terms == old(self).terms(),
                t0 == old(self).trace(),
                version == old(self).bootloader_protocol_version,
                plans == lz4_plans(slices@, *pit_entry, version),
                forall|t1: Transcript, result: Result<(), OdinFault>|
                    slices_sent(self.trace(), t1, plans, terms, skip, k as int, result)
                        ==> #[trigger] slices_sent(t0, t1, plans, terms, skip, 0, result),
            decreases slices@.len() - k,
        {
            let ghost tk = self.trace();
            let slice_data: &[u8] = slices[k].data;
            let size: u32 = #[verifier::truncate] (slices[k].decompressed_size as u32);
            let compressed: u32 = #[verifier::truncate] (slice_data.len() as u32);
            let init_cmd = Command::transmit_flash(true);
            let start_cmd = Command::start_lz4_slice_transmission(compressed, size);
            let end_cmd = Command::commit_slice(
                size,
                pit_entry,
                k == slices.len() - 1,
                true,
                self.bootloader_protocol_version,
            );
            let answer: Result<(), OdinError> = self.transmit_slice(
                &init_cmd,
                &start_cmd,
                &end_cmd,
                slice_data,
            );
            let ghost t = self.trace();
            assert(slice_sent(tk, t, plans[k as int], terms, skip, outcome(answer)));
            if answer.is_err() {
                assert(slices_sent(tk, t, plans, terms, skip, k as int, outcome(answer)));
                return answer;
            }
            assert forall|t1: Transcript, result: Result<(), OdinFault>|
                slices_sent(t, t1, plans, terms, skip, k + 1, result) implies
                #[trigger] slices_sent(t0, t1, plans, terms, skip, 0, result) by {
                assert(slices_sent(tk, t1, plans, terms, skip, k as int, result));
            }
            k += 1;
        }
        assert(slices_sent(self.trace(), self.trace(), plans, terms, skip, k as int, Ok(())));
        Ok(())
    }

    /// Sends a compressed file.
    pub fn send_lz4_file(&mut self, info: &FirmwareLz4File<'_>) -> (result: Result<(), OdinError>)
        requires
            old(self).packet_size > 0,
        ensures
            file_sent(
                old(self).trace(),
                final(self).trace(),
                lz4_file_len(*info, old(self).lz4_supported),
                lz4_file_plans(
                    *info,
                    old(self).lz4_supported,
                    old(self).bootloader_protocol_version,
                ),
                old(self).terms(),
                old(self).skip_empty(),
                outcome(result),
            ),
            final(self).continues(*old(self)),
    {
        if !self.lz4_supported || info.header.block_max_size != LZ4_BLOCK_SIZE {
            self.connection.link.usb.show_length(info.header.content_size);
            return self.transmit_slices(info.decompressed_slices, info.pit_entry);
        }
        self.connection.link.usb.show_length(info.file.len() as u64);
        self.transmit_lz4_slices(info.slices, info.pit_entry)
    }
}

/// Every chunk has the negotiated length, and holds its part of the slice, with zeros
/// behind the end of the slice.
pub proof fn chunk_holds_its_part(data: Seq<u8>, packet_size: int, index: int, i: int)
    requires
        packet_size > 0,
        0 <= index,
        index * packet_size < data.len(),
        0 <= i < packet_size,
    ensures
        chunk_of(data, packet_size, index).len() == packet_size,
        chunk_of(data, packet_size, index)[i] == if index * packet_size + i < data.len() {
            data[index * packet_size + i]
        } else {
            0
        },
{
    assert(index * packet_size >= 0) by (nonlinear_arith)
        requires
            index >= 0,
            packet_size > 0,
    ;
}

/// The last slice of a file, and no other, is committed as its end.
pub proof fn last_slice_ends_file(
    slices: Seq<Seq<u8>>,
    k: int,
    pit_entry: PitEntry,
    version: u32,
)
    requires
        0 <= k < slices.len(),
    ensures
        raw_plans(slices, pit_entry, version)[k].end == Command::commit(
            slices[k].len() as u32,
            pit_entry,
            k == slices.len() - 1,
            false,
            version,
        ),
        raw_plans(slices, pit_entry, version)[k].data == slices[k],
        slices[k].len() <= u32::MAX ==> commits(
            raw_plans(slices, pit_entry, version)[k].end.packet(),
            3,
            slices[k].len() as u32,
            pit_entry,
            version,
            k == slices.len() - 1,
        ),
{
    commit_layout(
        slices[k].len() as u32,
        pit_entry,
        k == slices.len() - 1,
        false,
        version,
    );
}

/// `packet` commits a slice of `size` bytes to the partition `entry`: word `what` of the
/// transfer commands, the partition, and whether the file ends, which is word 7 of the
/// packet, or word 6 of that of a modem partition before version 3.
pub open spec fn commits(
    packet: Seq<u8>,
    what: u32,
    size: u32,
    entry: PitEntry,
    version: u32,
    ends_file: bool,
) -> bool {
    let legacy = version < 3 && entry.binary_type is CommunicationProcessor;
    &&& packet.len() == 1024
    &&& u32_at(packet, 0) == 0x66
    &&& u32_at(packet, 4) == what
    &&& u32_at(packet, 8) == if legacy {
        1u32
    } else {
        0
    }
    &&& u32_at(packet, 12) == size
    &&& u32_at(packet, 16) == entry.binary_type.spec_code()
    &&& u32_at(packet, 20) == entry.device_type.spec_code()
    &&& u32_at(
        packet,
        if legacy {
            32
        } else {
            24
        },
    ) == entry.partition_id
    &&& u32_at(
        packet,
        if legacy {
            24
        } else {
            28
        },
    ) == if ends_file {
        1u32
    } else {
        0
    }
}

/// What is sent around a slice of a file that is not compressed: it is started, announced
/// with its length rounded up to 128 KiB, and committed with its length; the last slice,
/// and no other, is committed as the end of the file.
pub proof fn raw_slice_packets(
    slices: Seq<Seq<u8>>,
    k: int,
    pit_entry: PitEntry,
    version: u32,
)
    requires
        0 <= k < slices.len(),
        slices[k].len() <= 0xFFFE_0000,
    ensures
        ({
            let plan = raw_plans(slices, pit_entry, version)[k];
            let start = plan.start.packet();
            &&& plan.data == slices[k]
            &&& holds_words(plan.init.packet(), seq![0x66, 0])
            &&& u32_at(start, 0) == 0x66
            &&& u32_at(start, 4) == 2
            &&& u32_at(start, 8) % 0x20000 == 0
            &&& slices[k].len() <= u32_at(start, 8) < slices[k].len() + 0x20000
            &&& commits(
                plan.end.packet(),
                3,
                slices[k].len() as u32,
                pit_entry,
                version,
                k == slices.len() - 1,
            )
        }),
{
    let plan = raw_plans(slices, pit_entry, version)[k];
    let size = slices[k].len() as u32;
    packet_layout(plan.init);
    packet_layout(plan.start);
    announced_len_is_aligned(size);
    assert(seq![0x66u32, 2, announced_len(size)][0] == 0x66);
    assert(seq![0x66u32, 2, announced_len(size)][1] == 2);
    assert(seq![0x66u32, 2, announced_len(size)][2] == announced_len(size));
    last_slice_ends_file(slices, k, pit_entry, version);
}

/// What is sent around a slice of a compressed file that is sent as it is: it is started,
/// announced with its length and its decompressed length, and committed with its
/// decompressed length; the last slice, and no other, is committed as the end of the file.
pub proof fn lz4_slice_packets(
    slices: Seq<Lz4Slice<'_>>,
    k: int,
    pit_entry: PitEntry,
    version: u32,
)
    requires
        0 <= k < slices.len(),
        slices[k].data@.len() <= u32::MAX,
        slices[k].decompressed_size <= u32::MAX,
    ensures
        ({
            let plan = lz4_plans(slices, pit_entry, version)[k];
            &&& plan.data == slices[k].data@
            &&& holds_words(plan.init.packet(), seq![0x66, 5])
            &&& holds_words(
                plan.start.packet(),
                seq![
                    0x66,
                    6,
                    slices[k].data@.len() as u32,
                    slices[k].decompressed_size as u32,
                ],
            )
            &&& commits(
                plan.end.packet(),
                7,
                slices[k].decompressed_size as u32,
                pit_entry,
                version,
                k == slices.len() - 1,
            )
        }),
{
    let plan = lz4_plans(slices, pit_entry, version)[k];
    packet_layout(plan.init);
    packet_layout(plan.start);
    commit_layout(
        slices[k].decompressed_size as u32,
        pit_entry,
        k == slices.len() - 1,
        true,
        version,
    );
}

/// Which slices of a compressed file are sent: the compressed ones if and only if the device
/// takes them and the blocks of the file are 1 MiB long, else the decompressed ones. The
/// length that is shown is that of what is sent.
pub proof fn lz4_file_is_sent_as_it_can_be(
    info: FirmwareLz4File<'_>,
    lz4_supported: bool,
    version: u32,
)
    ensures
        lz4_supported && info.header.block_max_size == 1048576 ==> {
            let plans = lz4_file_plans(info, lz4_supported, version);
            &&& plans.len() == info.slices@.len()
            &&& forall|k: int|
                0 <= k < plans.len() ==> (#[trigger] plans[k]).data == info.slices@[k].data@
                    && holds_words(plans[k].init.packet(), seq![0x66, 5])
            &&& lz4_file_len(info, lz4_supported) == info.file@.len() as u64
        },
        !lz4_supported || info.header.block_max_size != 1048576 ==> {
            let plans = lz4_file_plans(info, lz4_supported, version);
            &&& plans.len() == info.decompressed_slices@.len()
            &&& forall|k: int|
                0 <= k < plans.len() ==> (#[trigger] plans[k]).data
                    == info.decompressed_slices@[k]@ && holds_words(
                    plans[k].init.packet(),
                    seq![0x66, 0],
                )
            &&& lz4_file_len(info, lz4_supported) == info.header.content_size
        },
{
    packet_layout(Command::flash(true));
    packet_layout(Command::flash(false));
}

/// The slices of a file that is not compressed are 30 MiB long, but for the last, which may
/// be shorter; none is empty, and one after the other they are the file.
pub proof fn file_is_cut_into_slices(file: Seq<u8>, k: int)
    requires
        0 <= k < file_slices(file, MAX_SLICE_SIZE as int).len(),
    ensures
        file_slices(file, MAX_SLICE_SIZE as int).flatten() == file,
        0 < file_slices(file, MAX_SLICE_SIZE as int)[k].len() <= 31457280,
        k + 1 < file_slices(file, MAX_SLICE_SIZE as int).len() ==> file_slices(
            file,
            MAX_SLICE_SIZE as int,
        )[k].len() == 31457280,
{
    slices_make_up_file(file, MAX_SLICE_SIZE as int);
    slices_are_even(file, MAX_SLICE_SIZE as int, k);
}

/// What an answer to a chunk comes to: with its number the chunk is taken, and a failure or
/// a negative number ends the transfer. Another number ends it at the first attempt and is
/// passed over later, as any other answer is, and none.
pub proof fn chunk_fates(response: Response, index: nat, attempt: u32)
    ensures
        chunk_fate(Ok(response), index, attempt) is Taken <==> response.response_type == 0
            && response.value == index && response.value < 0x8000_0000,
        response.response_type == 0xffff_ffff || (response.response_type == 0 && response.value
            >= 0x8000_0000) ==> chunk_fate(Ok(response), index, attempt) == ChunkFate::Failed(
            OdinFault::Loke(signed32(response.value)),
        ),
        response.response_type == 0 && response.value < 0x8000_0000 && response.value != index ==> (
        if attempt == 0 {
            chunk_fate(Ok(response), index, attempt) == ChunkFate::Failed(
                OdinFault::ChunkIndexMismatch { expected: index, received: response.value },
            )
        } else {
            chunk_fate(Ok(response), index, attempt) is Again
        }),
        response.response_type != 0 && response.response_type != 0xffff_ffff ==> chunk_fate(
            Ok(response),
            index,
            attempt,
        ) is Again,
        forall|fault: OdinFault|
            #[trigger] chunk_fate(Err::<Response, OdinFault>(fault), index, attempt) is Again,
{
}

} // verus!
