//! The chunks of a download and the workers that share them.
//!
//! Every worker takes a chunk from the queue, downloads it and comes back. A worker
//! whose connection stalls puts the rest of its chunk back and retires, unless it is
//! the last one: the last worker goes on until it gets nowhere any more.

use std::collections::VecDeque;
use vstd::prelude::*;

verus! {

/// Stalls in a row without progress after which the last worker gives up.
pub const MAX_DEAD_STALLS: u32 = 4;

/// Why a download failed.
#[derive(Debug, Clone, Copy, PartialEq, Eq)]
pub enum DownloadError {
    /// No connection makes progress any more.
    Stalled {
        /// Offset in the file at which the last connection stalled.
        offset: u64,
    },
}

/// A part of the file that one connection downloads.
pub struct Chunk<'a> {
    /// Where the bytes go.
    pub buf: &'a mut [u8],
    /// Offset in the file of the first byte.
    pub start: u64,
    /// Offset in the file of the last byte, or `None` for all bytes up to the end.
    pub end: Option<u64>,
}

/// Which part of the file a chunk is.
pub struct ChunkSpan {
    /// Offset in the file of the first byte.
    pub start: int,
    /// Offset in the file of the last byte, or `None` for all bytes up to the end.
    pub end: Option<u64>,
    /// The number of bytes.
    pub len: nat,
}

impl ChunkSpan {
    /// What is left of the part when its first `decrypted` bytes are done.
    pub open spec fn rest(self, decrypted: nat) -> ChunkSpan {
        ChunkSpan {
            start: self.start + decrypted,
            end: self.end,
            len: (self.len - decrypted) as nat,
        }
    }
}

impl<'a> View for Chunk<'a> {
    type V = ChunkSpan;

    open spec fn view(&self) -> ChunkSpan {
        ChunkSpan { start: self.start as int, end: self.end, len: self.len() }
    }
}

impl<'a> Chunk<'a> {
    /// The number of bytes of the chunk.
    pub open spec fn len(self) -> nat {
        self.buf@.len()
    }

    /// What is left of the chunk when its first `decrypted` bytes are done.
    pub fn remainder(self, decrypted: usize) -> (rest: Chunk<'a>)
        requires
            decrypted <= self.len(),
            self.start + decrypted <= u64::MAX,
        ensures
            rest.start == self.start + decrypted,
            rest.end == self.end,
            rest.buf@ == old(self.buf)@.skip(decrypted as int),
            final(self.buf)@ == old(self.buf)@.take(decrypted as int) + final(rest.buf)@,
            rest@ == self@.rest(decrypted as nat),
    {
        let Chunk { buf, start, end } = self;
        let (_done, rest) = buf.split_at_mut(decrypted);
        Chunk { buf: rest, start: start + decrypted as u64, end }
    }
}

/// The chunks that wait, and the workers.
pub struct PoolInner<'a> {
    /// Chunks that no worker has.
    pub queue: VecDeque<Chunk<'a>>,
    /// Workers that have a chunk.
    pub in_flight: usize,
    /// Workers that have not stopped.
    pub live: usize,
    /// Why the download failed, if it did.
    pub error: Option<DownloadError>,
}

/// What a worker without a chunk does.
pub enum Acquired<'a> {
    /// Stops.
    Exit,
    /// Downloads a chunk.
    Take(Chunk<'a>),
    /// Waits until the pool changes.
    Wait,
}

/// What a worker does whose connection stalled.
#[derive(Debug, Clone, Copy, PartialEq, Eq)]
pub enum AfterStall {
    /// Stops: the download failed.
    Exit,
    /// Stops: others go on.
    Retire {
        /// Workers that go on.
        remaining: usize,
    },
    /// Goes on: it is the last worker.
    Stay,
}

/// What a worker without a chunk does, and with which part of the file.
pub enum Answer {
    /// Stops.
    Exit,
    /// Downloads a chunk.
    Take(ChunkSpan),
    /// Waits until the pool changes.
    Wait,
}

impl<'a> View for Acquired<'a> {
    type V = Answer;

    open spec fn view(&self) -> Answer {
        match self {
            Acquired::Exit => Answer::Exit,
            Acquired::Take(chunk) => Answer::Take(chunk@),
            Acquired::Wait => Answer::Wait,
        }
    }
}

/// The chunks that wait, and the workers, as far as decisions depend on them.
#[verifier::ext_equal]
pub struct PoolState {
    /// Parts of the file that no worker has.
    pub queue: Seq<ChunkSpan>,
    /// Workers that have a chunk.
    pub in_flight: int,
    /// Workers that have not stopped.
    pub live: int,
    /// Why the download failed, if it did.
    pub error: Option<DownloadError>,
}

impl<'a> View for PoolInner<'a> {
    type V = PoolState;

    open spec fn view(&self) -> PoolState {
        PoolState {
            queue: Seq::new(self.queue@.len(), |i: int| self.queue@[i]@),
            in_flight: self.in_flight as int,
            live: self.live as int,
            error: self.error,
        }
    }
}

impl PoolState {
    /// Only live workers have chunks, and while the download has not failed somebody is
    /// there to take the chunks that wait.
    pub open spec fn wf(self) -> bool {
        &&& 0 <= self.in_flight <= self.live
        &&& self.error is None && self.queue.len() > 0 ==> self.live > 0
    }

    /// A worker asks for a chunk.
    pub open spec fn asked(self) -> (PoolState, Answer) {
        if self.error is Some {
            (PoolState { live: self.live - 1, ..self }, Answer::Exit)
        } else if self.queue.len() > 0 {
            (
                PoolState {
                    queue: self.queue.drop_first(),
                    in_flight: self.in_flight + 1,
                    ..self
                },
                Answer::Take(self.queue.first()),
            )
        } else if self.in_flight == 0 {
            (PoolState { live: self.live - 1, ..self }, Answer::Exit)
        } else {
            (self, Answer::Wait)
        }
    }

    /// A worker has downloaded its chunk.
    pub open spec fn completed(self) -> PoolState {
        PoolState { in_flight: self.in_flight - 1, ..self }
    }

    /// The connection of a worker stalled, with `rest` left of its chunk.
    pub open spec fn stalled(self, rest: ChunkSpan) -> (PoolState, AfterStall) {
        if self.error is Some {
            (
                PoolState { in_flight: self.in_flight - 1, live: self.live - 1, ..self },
                AfterStall::Exit,
            )
        } else if self.live > 1 {
            (
                PoolState {
                    queue: self.queue.push(rest),
                    in_flight: self.in_flight - 1,
                    live: self.live - 1,
                    ..self
                },
                AfterStall::Retire { remaining: (self.live - 1) as usize },
            )
        } else {
            (
                PoolState {
                    queue: self.queue.push(rest),
                    in_flight: self.in_flight - 1,
                    ..self
                },
                AfterStall::Stay,
            )
        }
    }

    /// A worker gives the download up.
    pub open spec fn given_up(self, offset: u64) -> PoolState {
        PoolState {
            live: self.live - 1,
            error: Some(DownloadError::Stalled { offset }),
            ..self
        }
    }
}

impl<'a> PoolInner<'a> {
    /// Only live workers have chunks, and while the download has not failed somebody is
    /// there to take the chunks that wait.
    pub open spec fn wf(self) -> bool {
        &&& self.in_flight <= self.live
        &&& self.error is None && self.queue@.len() > 0 ==> self.live > 0
    }

    /// A pool of `workers` workers that share `queue`.
    pub fn new(queue: VecDeque<Chunk<'a>>, workers: usize) -> (pool: PoolInner<'a>)
        requires
            queue@.len() > 0 ==> workers > 0,
        ensures
            pool.wf(),
            pool.queue@ == queue@,
            pool.in_flight == 0,
            pool.live == workers,
            pool.error is None,
            pool@.wf(),
    {
        PoolInner { queue, in_flight: 0, live: workers, error: None }
    }

    /// A worker without a chunk asks for one.
    pub fn acquire(&mut self) -> (next: Acquired<'a>)
        requires
            old(self).wf(),
            old(self).in_flight < old(self).live,
        ensures
            final(self).wf(),
            final(self).error == old(self).error,
            match next {
                Acquired::Exit => {
                    &&& old(self).error is Some || (old(self).queue@.len() == 0 && old(
                        self,
                    ).in_flight == 0)
                    &&& final(self).queue@ == old(self).queue@
                    &&& final(self).in_flight == old(self).in_flight
                    &&& final(self).live == old(self).live - 1
                },
                Acquired::Take(chunk) => {
                    &&& old(self).error is None
                    &&& old(self).queue@ == seq![chunk] + final(self).queue@
                    &&& final(self).in_flight == old(self).in_flight + 1
                    &&& final(self).live == old(self).live
                },
                Acquired::Wait => {
                    &&& old(self).error is None
                    &&& old(self).queue@.len() == 0
                    &&& old(self).in_flight > 0
                    &&& final(self).queue@ == old(self).queue@
                    &&& final(self).in_flight == old(self).in_flight
                    &&& final(self).live == old(self).live
                },
            },
            final(self)@ == old(self)@.asked().0,
            next@ == old(self)@.asked().1,
    {
        if self.error.is_some() {
            self.live -= 1;
            return Acquired::Exit;
        }
        if let Some(chunk) = self.queue.pop_front() {
            self.in_flight += 1;
            assert(old(self).queue@ =~= seq![chunk] + self.queue@);
            return Acquired::Take(chunk);
        }
        if self.in_flight == 0 {
            self.live -= 1;
            return Acquired::Exit;
        }
        Acquired::Wait
    }

    /// A worker has downloaded its chunk.
    pub fn complete(&mut self)
        requires
            old(self).wf(),
            old(self).in_flight > 0,
        ensures
            final(self).wf(),
            final(self).queue@ == old(self).queue@,
            final(self).in_flight == old(self).in_flight - 1,
            final(self).live == old(self).live,
            final(self).error == old(self).error,
            final(self)@ == old(self)@.completed(),
    {
        self.in_flight -= 1;
    }

    /// The connection of a worker stalled; `remainder` is what is left of its chunk.
    pub fn stall(&mut self, remainder: Chunk<'a>) -> (next: AfterStall)
        requires
            old(self).wf(),
            old(self).in_flight > 0,
        ensures
            final(self).wf(),
            final(self).error == old(self).error,
            final(self).in_flight == old(self).in_flight - 1,
            next == (if old(self).error is Some {
                AfterStall::Exit
            } else if old(self).live > 1 {
                AfterStall::Retire { remaining: (old(self).live - 1) as usize }
            } else {
                AfterStall::Stay
            }),
            final(self).live == old(self).live - (if next is Stay {
                0int
            } else {
                1int
            }),
            next is Exit ==> final(self).queue@ == old(self).queue@,
            !(next is Exit) ==> final(self).queue@ == old(self).queue@.push(remainder),
            final(self)@ == old(self)@.stalled(remainder@).0,
            next == old(self)@.stalled(remainder@).1,
    {
        self.in_flight -= 1;
        if self.error.is_some() {
            self.live -= 1;
            return AfterStall::Exit;
        }
        self.queue.push_back(remainder);
        if self.live > 1 {
            self.live -= 1;
            return AfterStall::Retire { remaining: self.live };
        }
        AfterStall::Stay
    }

    /// A worker without a chunk gives the download up at `offset`.
    pub fn give_up(&mut self, offset: u64)
        requires
            old(self).wf(),
            old(self).in_flight < old(self).live,
        ensures
            final(self).wf(),
            final(self).queue@ == old(self).queue@,
            final(self).in_flight == old(self).in_flight,
            final(self).live == old(self).live - 1,
            final(self).error == Some(DownloadError::Stalled { offset }),
            final(self)@ == old(self)@.given_up(offset),
    {
        self.error = Some(DownloadError::Stalled { offset });
        self.live -= 1;
    }
}

/// When all workers have stopped and the download has not failed, nothing is left to
/// download: no chunk waits, and no worker has one.
pub proof fn stopped_pool_is_done(pool: PoolInner<'_>)
    requires
        pool.wf(),
        pool.live == 0,
        pool.error is None,
    ensures
        pool.queue@.len() == 0,
        pool.in_flight == 0,
{
}

/// How far the download was when a worker's connection last stalled.
#[derive(Debug, Clone, Copy, PartialEq, Eq)]
pub struct WorkerState {
    /// Bytes that were downloaded in all.
    pub last_progress: u64,
    /// Stalls in a row without progress.
    pub dead_stalls: u32,
}

impl WorkerState {
    /// The worker has not given up.
    pub open spec fn wf(self) -> bool {
        self.dead_stalls <= MAX_DEAD_STALLS
    }

    /// The worker has downloaded a chunk.
    pub open spec fn done(self) -> WorkerState {
        WorkerState { dead_stalls: 0, ..self }
    }

    /// The connection of the last worker stalled when `pos` bytes were downloaded in all,
    /// and whether it gives up.
    pub open spec fn stalled(self, pos: u64) -> (WorkerState, bool) {
        if pos > self.last_progress {
            (WorkerState { last_progress: pos, dead_stalls: 0 }, false)
        } else {
            (
                WorkerState { dead_stalls: (self.dead_stalls + 1) as u32, ..self },
                self.dead_stalls == MAX_DEAD_STALLS,
            )
        }
    }

    /// A worker that starts.
    pub fn new() -> (state: WorkerState)
        ensures
            state == (WorkerState { last_progress: 0, dead_stalls: 0 }),
            state.wf(),
    {
        WorkerState { last_progress: 0, dead_stalls: 0 }
    }

    /// The worker has downloaded a chunk.
    pub fn on_done(&mut self)
        ensures
            *final(self) == old(self).done(),
            final(self).dead_stalls == 0,
            final(self).last_progress == old(self).last_progress,
            final(self).wf(),
    {
        self.dead_stalls = 0;
    }

    /// The connection of the last worker stalled when `pos` bytes were downloaded in all.
    /// Says whether to give up.
    pub fn on_stall(&mut self, pos: u64) -> (give_up: bool)
        requires
            old(self).wf(),
        ensures
            (*final(self), give_up) == old(self).stalled(pos),
            pos > old(self).last_progress ==> !give_up && final(self).last_progress == pos
                && final(self).dead_stalls == 0,
            pos <= old(self).last_progress ==> final(self).last_progress == old(self).last_progress
                && final(self).dead_stalls == old(self).dead_stalls + 1,
            give_up <==> pos <= old(self).last_progress && old(self).dead_stalls == 4,
            !give_up ==> final(self).wf(),
    {
        if pos > self.last_progress {
            self.last_progress = pos;
            self.dead_stalls = 0;
            return false;
        }
        self.dead_stalls += 1;
        self.dead_stalls > MAX_DEAD_STALLS
    }
}

/// What a worker is about.
pub enum Phase {
    /// It has no chunk.
    Idle,
    /// It has a chunk.
    Busy(ChunkSpan),
    /// It has no chunk and gives the download up.
    GivingUp {
        /// Where its connection stalled.
        offset: u64,
    },
    /// It has stopped.
    Stopped,
}

/// A worker in the course of its run.
pub struct Worker {
    /// What it is about.
    pub phase: Phase,
    /// What it remembers.
    pub state: WorkerState,
}

impl Worker {
    /// The chunks it has.
    pub open spec fn held(self) -> int {
        if self.phase is Busy {
            1
        } else {
            0
        }
    }
}

/// What a worker does to the pool.
pub enum PoolStep {
    /// It asks for a chunk.
    Ask,
    /// It has downloaded its chunk.
    Complete,
    /// Its connection stalled, with this left of its chunk.
    Stall(ChunkSpan),
    /// It gives the download up.
    GiveUp {
        /// Where its connection stalled.
        offset: u64,
    },
}

impl PoolState {
    /// The pool after `step`.
    pub open spec fn after(self, step: PoolStep) -> PoolState {
        match step {
            PoolStep::Ask => self.asked().0,
            PoolStep::Complete => self.completed(),
            PoolStep::Stall(rest) => self.stalled(rest).0,
            PoolStep::GiveUp { offset } => self.given_up(offset),
        }
    }
}

/// What happens during the run of a worker.
pub enum RunStep {
    /// The worker asks for a chunk.
    Ask,
    /// Its chunk is downloaded.
    Done,
    /// Its connection stalls.
    Stall {
        /// Bytes of the chunk that are done.
        decrypted: nat,
        /// Bytes that were downloaded in all.
        pos: u64,
    },
    /// It gives the download up.
    GiveUp,
    /// Another worker does something.
    Other(PoolStep),
}

/// The step can come next: the worker is where it takes such a step, or one of the other
/// live workers is.
pub open spec fn can_step(pool: PoolState, worker: Worker, step: RunStep) -> bool {
    let others_live = pool.live - 1;
    let others_held = pool.in_flight - worker.held();
    match step {
        RunStep::Ask => worker.phase is Idle,
        RunStep::Done => worker.phase is Busy,
        RunStep::Stall { decrypted, .. } => worker.phase matches Phase::Busy(chunk) && decrypted
            <= chunk.len,
        RunStep::GiveUp => worker.phase is GivingUp,
        RunStep::Other(step) => !(worker.phase is Stopped) && match step {
            PoolStep::Ask | PoolStep::GiveUp { .. } => others_held < others_live,
            PoolStep::Complete | PoolStep::Stall(_) => others_held > 0,
        },
    }
}

/// The pool and the worker after the step.
pub open spec fn stepped(pool: PoolState, worker: Worker, step: RunStep) -> (PoolState, Worker) {
    match step {
        RunStep::Ask => {
            let phase = match pool.asked().1 {
                Answer::Exit => Phase::Stopped,
                Answer::Take(chunk) => Phase::Busy(chunk),
                Answer::Wait => Phase::Idle,
            };
            (pool.asked().0, Worker { phase, ..worker })
        },
        RunStep::Done => (
            pool.completed(),
            Worker { phase: Phase::Idle, state: worker.state.done() },
        ),
        RunStep::Stall { decrypted, pos } => {
            let rest = worker.phase->Busy_0.rest(decrypted);
            let (next, answer) = pool.stalled(rest);
            let (state, gives_up) = worker.state.stalled(pos);
            if !(answer is Stay) {
                (next, Worker { phase: Phase::Stopped, ..worker })
            } else if gives_up {
                (next, Worker { phase: Phase::GivingUp { offset: rest.start as u64 }, state })
            } else {
                (next, Worker { phase: Phase::Idle, state })
            }
        },
        RunStep::GiveUp => (
            pool.given_up(worker.phase->GivingUp_offset),
            Worker { phase: Phase::Stopped, ..worker },
        ),
        RunStep::Other(step) => (pool.after(step), worker),
    }
}

/// The pool and the worker after the steps of a run.
pub open spec fn after_run(pool: PoolState, worker: Worker, steps: Seq<RunStep>) -> (
    PoolState,
    Worker,
)
    decreases steps.len(),
{
    if steps.len() == 0 {
        (pool, worker)
    } else {
        let (before, at) = after_run(pool, worker, steps.drop_last());
        stepped(before, at, steps.last())
    }
}

/// The steps can follow each other.
pub open spec fn can_run(pool: PoolState, worker: Worker, steps: Seq<RunStep>) -> bool
    decreases steps.len(),
{
    steps.len() == 0 || {
        let (before, at) = after_run(pool, worker, steps.drop_last());
        can_run(pool, worker, steps.drop_last()) && can_step(before, at, steps.last())
    }
}

/// By how much the other workers changed the number of live workers, and that of workers
/// with a chunk.
pub open spec fn others_changed(pool: PoolState, worker: Worker, steps: Seq<RunStep>) -> (int, int)
    decreases steps.len(),
{
    if steps.len() == 0 {
        (0, 0)
    } else {
        let (live, in_flight) = others_changed(pool, worker, steps.drop_last());
        let before = after_run(pool, worker, steps.drop_last()).0;
        match steps.last() {
            RunStep::Other(step) => (
                live + before.after(step).live - before.live,
                in_flight + before.after(step).in_flight - before.in_flight,
            ),
            _ => (live, in_flight),
        }
    }
}

proof fn run_keeps_count(pool: PoolState, worker: Worker, steps: Seq<RunStep>)
    requires
        pool.wf(),
        pool.in_flight < pool.live,
        worker.phase is Idle,
        can_run(pool, worker, steps),
    ensures
        ({
            let (end, at) = after_run(pool, worker, steps);
            let (live, in_flight) = others_changed(pool, worker, steps);
            &&& end.wf()
            &&& end.live == pool.live + live - (if at.phase is Stopped {
                1int
            } else {
                0int
            })
            &&& end.in_flight == pool.in_flight + in_flight + at.held()
            &&& !(at.phase is Stopped) ==> 0 <= end.in_flight - at.held() <= end.live - 1
            &&& at.phase is GivingUp ==> end.live == 1
        }),
    decreases steps.len(),
{
    if steps.len() > 0 {
        run_keeps_count(pool, worker, steps.drop_last());
    }
}

/// A worker that stops leaves one live worker less and as many chunks in hand as there
/// were, whatever the other workers did meanwhile; and if it is the last one, no chunk
/// waits or the download has failed.
pub proof fn worker_run_balances(pool: PoolState, worker: Worker, steps: Seq<RunStep>)
    requires
        pool.wf(),
        pool.in_flight < pool.live,
        worker.phase is Idle,
        can_run(pool, worker, steps),
        after_run(pool, worker, steps).1.phase is Stopped,
    ensures
        ({
            let end = after_run(pool, worker, steps).0;
            let (live, in_flight) = others_changed(pool, worker, steps);
            &&& end.wf()
            &&& end.live == pool.live + live - 1
            &&& end.in_flight == pool.in_flight + in_flight
            &&& end.live == 0 ==> end.queue.len() == 0 || end.error is Some
        }),
{
    run_keeps_count(pool, worker, steps);
}

/// No other worker does anything during the run.
pub open spec fn alone(steps: Seq<RunStep>) -> bool {
    forall|i: int| 0 <= i < steps.len() ==> !((#[trigger] steps[i]) is Other)
}

proof fn alone_nothing_changes(pool: PoolState, worker: Worker, steps: Seq<RunStep>)
    requires
        alone(steps),
    ensures
        others_changed(pool, worker, steps) == (0int, 0int),
    decreases steps.len(),
{
    if steps.len() > 0 {
        assert(alone(steps.drop_last()));
        alone_nothing_changes(pool, worker, steps.drop_last());
    }
}

proof fn failed_run_is_short(pool: PoolState, worker: Worker, steps: Seq<RunStep>)
    requires
        worker.phase is Idle,
        pool.error is Some,
        alone(steps),
        can_run(pool, worker, steps),
        steps.len() > 0,
    ensures
        steps == seq![RunStep::Ask],
        after_run(pool, worker, steps) == stepped(pool, worker, RunStep::Ask),
    decreases steps.len(),
{
    let earlier = steps.drop_last();
    assert(alone(earlier));
    if earlier.len() > 0 {
        failed_run_is_short(pool, worker, earlier);
    } else {
        assert(earlier =~= Seq::empty());
        assert(steps =~= seq![steps.last()]);
    }
}

proof fn first_stall_ends_run(pool: PoolState, worker: Worker, steps: Seq<RunStep>)
    requires
        pool.wf(),
        pool.in_flight == 0,
        pool.live > 1,
        pool.error is None,
        worker.phase is Idle,
        alone(steps),
        can_run(pool, worker, steps),
    ensures
        ({
            let (end, at) = after_run(pool, worker, steps);
            &&& end.error is None
            &&& !(at.phase is Stopped) ==> end.live == pool.live
            &&& forall|i: int|
                0 <= i < steps.len() && (#[trigger] steps[i]) is Stall ==> at.phase is Stopped && i
                    == steps.len() - 1
        }),
    decreases steps.len(),
{
    if steps.len() > 0 {
        let earlier = steps.drop_last();
        assert(alone(earlier));
        assert(!(steps[steps.len() - 1] is Other));
        first_stall_ends_run(pool, worker, earlier);
        run_keeps_count(pool, worker, earlier);
        assert forall|i: int|
            0 <= i < steps.len() && (#[trigger] steps[i]) is Stall implies after_run(
            pool,
            worker,
            steps,
        ).1.phase is Stopped && i == steps.len() - 1 by {
            if i < steps.len() - 1 {
                assert(earlier[i] is Stall);
            }
        }
    }
}

/// What the run of a worker comes to while no other worker does anything: afterwards one
/// live worker less is there, and no worker has a chunk. The last worker leaves no chunk
/// waiting, or the download has failed. In a download that has failed already, the worker
/// takes no chunk and changes nothing else. A worker that is not the last one stops at
/// its first stall, which is no failure of the download; what is left of its chunk then
/// waits behind all others.
pub proof fn lone_worker_run(pool: PoolState, worker: Worker, steps: Seq<RunStep>)
    requires
        pool.wf(),
        pool.live >= 1,
        pool.in_flight == 0,
        worker.phase is Idle,
        alone(steps),
        can_run(pool, worker, steps),
        after_run(pool, worker, steps).1.phase is Stopped,
    ensures
        ({
            let end = after_run(pool, worker, steps).0;
            &&& end.live == pool.live - 1
            &&& end.in_flight == 0
            &&& pool.live == 1 ==> end.queue.len() == 0 || end.error is Some
            &&& pool.error is Some ==> {
                &&& steps == seq![RunStep::Ask]
                &&& end.queue == pool.queue
                &&& end.error == pool.error
            }
            &&& pool.live > 1 && pool.error is None ==> {
                &&& end.error is None
                &&& forall|i: int|
                    0 <= i < steps.len() ==> ((#[trigger] steps[i]) matches RunStep::Stall {
                        decrypted,
                        ..
                    } ==> {
                        &&& i == steps.len() - 1
                        &&& after_run(pool, worker, steps.take(i)).1.phase matches Phase::Busy(
                            chunk,
                        ) && end.queue.last() == chunk.rest(decrypted)
                    })
            }
        }),
{
    worker_run_balances(pool, worker, steps);
    alone_nothing_changes(pool, worker, steps);
    if pool.error is Some {
        failed_run_is_short(pool, worker, steps);
    }
    if pool.live > 1 && pool.error is None {
        first_stall_ends_run(pool, worker, steps);
        let end = after_run(pool, worker, steps).0;
        assert forall|i: int| 0 <= i < steps.len() && (#[trigger] steps[i]) is Stall implies i
            == steps.len() - 1 && after_run(pool, worker, steps.take(i)).1.phase is Busy
            && end.queue.last() == after_run(
            pool,
            worker,
            steps.take(i),
        ).1.phase->Busy_0.rest(steps[i]->decrypted) by {
            let earlier = steps.drop_last();
            assert(steps.take(i) =~= earlier);
            assert(alone(earlier));
            first_stall_ends_run(pool, worker, earlier);
        }
    }
}

/// The last worker gives up at the fifth stall in a row without progress, and not before;
/// progress starts the count anew.
pub proof fn fifth_dead_stall_gives_up(worker: WorkerState, pos: u64)
    requires
        worker.wf(),
    ensures
        worker.stalled(pos).1 <==> pos <= worker.last_progress && worker.dead_stalls == 4,
        pos > worker.last_progress ==> worker.stalled(pos).0.dead_stalls == 0
            && worker.stalled(pos).0.last_progress == pos,
        pos <= worker.last_progress ==> worker.stalled(pos).0.dead_stalls == worker.dead_stalls + 1
            && worker.stalled(pos).0.last_progress == worker.last_progress,
        worker.done().dead_stalls == 0,
{
}

/// The chunks are taken in the order in which they wait, and what is left of a chunk waits
/// behind all others.
pub proof fn queue_is_first_in_first_out(pool: PoolState, rest: ChunkSpan)
    requires
        pool.error is None,
    ensures
        pool.queue.len() > 0 ==> pool.asked().1 == Answer::Take(pool.queue[0])
            && pool.asked().0.queue == pool.queue.skip(1),
        pool.stalled(rest).0.queue.len() == pool.queue.len() + 1,
        pool.stalled(rest).0.queue.last() == rest,
        pool.stalled(rest).0.queue.take(pool.queue.len() as int) == pool.queue,
{
    if pool.queue.len() > 0 {
        assert(pool.queue.drop_first() =~= pool.queue.skip(1));
    }
    assert(pool.queue.push(rest).take(pool.queue.len() as int) =~= pool.queue);
}

} // verus!
