//! The outbound half of a session: which queue it serves next, and what it
//! sends for each finished job.
use crate::cancel::{abandons, CancelToken};
use crate::dispatch::{finalize_result, finalized, one_more};
use crate::display::{duration_text, energy_units, format_duration_ms};
use crate::error::SampleError;
use crate::ising::SamplerResult;
use crate::job::ExactEnergy;
use crate::message::{credits_in, replies, MinerMsg, RejectReason, Reply};
use crate::pending::PendingJob;
use crate::stream::{StreamOutcome, StreamResult};
use crate::text::{
    contains_text, decimal, hex, law_a_longer_text_still_holds, law_a_text_holds_its_middle,
    law_hex_digits_stand_for_their_byte, push_decimal, push_hex, push_signed, signed_decimal,
};
use crate::wire::{clamp_i64, copy_bytes, energy, packed_from};
use vstd::prelude::*;
use vstd::string::*;

verus! {

/// Emit a progress line every so many completed jobs.
pub const PROGRESS_LOG_INTERVAL: u64 = 10;

/// How many results the writer handles back-to-back before it serves the
/// control queue.
///
/// Results come first so a busy sampler never backs up, but a coordinator that
/// waits for an acknowledgement is entitled to it while the miner is at full
/// tilt.
pub const RESULT_BATCH: u32 = 8;

/// What can be had from a queue without waiting.
#[derive(Clone, Copy, Debug, PartialEq, Eq, Structural)]
pub enum Queue {
    /// A message.
    Ready,
    /// Nothing yet.
    Empty,
    /// Nothing, and nothing will come.
    Finished,
}

/// What the writer does next.
#[derive(Clone, Copy, Debug, PartialEq, Eq, Structural)]
pub enum Turn {
    /// Handle one result.
    TakeResult,
    /// Send one control reply.
    TakeControl,
    /// Send every control reply that is already queued.
    DrainControl,
    /// Wait for either queue.
    Wait,
    /// Both queues are finished, or a device fault was reported.
    Stop,
}

/// The outbound half of a session.
#[derive(Clone, Copy, Debug, PartialEq, Eq, Structural)]
pub struct Writer {
    /// The read loop may still queue control replies.
    pub ctrl_open: bool,
    /// Results handled since the control queue was last served.
    pub streak: u32,
    /// Lowest energy of any read, and the largest number before the first.
    pub best_energy_milli: i64,
    /// Jobs that completed with reads.
    pub done: u64,
    /// A device fault has been reported.
    pub faulted: bool,
}

impl Writer {
    /// The streak never outgrows a batch.
    pub open spec fn wf(self) -> bool {
        self.streak <= RESULT_BATCH
    }

    /// What [`Writer::next`] does.
    pub open spec fn turned(self, results: Queue, ctrl: Queue) -> (Writer, Turn) {
        if self.faulted {
            (self, Turn::Stop)
        } else {
            self.turned_in_health(results, ctrl)
        }
    }

    /// What [`Writer::next`] does as long as no device fault was reported.
    pub open spec fn turned_in_health(self, results: Queue, ctrl: Queue) -> (Writer, Turn) {
        let served = if self.streak >= RESULT_BATCH {
            Writer { streak: 0, ..self }
        } else {
            self
        };
        if self.streak >= RESULT_BATCH && self.ctrl_open && ctrl == Queue::Ready {
            (served, Turn::DrainControl)
        } else if results == Queue::Ready {
            (Writer { streak: (served.streak + 1) as u32, ..served }, Turn::TakeResult)
        } else if self.ctrl_open && ctrl == Queue::Ready {
            (Writer { streak: 0, ..served }, Turn::TakeControl)
        } else {
            let open = self.ctrl_open && ctrl != Queue::Finished;
            (
                Writer { ctrl_open: open, ..served },
                if !open && results == Queue::Finished {
                    Turn::Stop
                } else {
                    Turn::Wait
                },
            )
        }
    }

    /// A writer that has sent nothing.
    pub fn new() -> (writer: Self)
        ensures
            writer == (Writer {
                ctrl_open: true,
                streak: 0,
                best_energy_milli: i64::MAX,
                done: 0,
                faulted: false,
            }),
    {
        Writer {
            ctrl_open: true,
            streak: 0,
            best_energy_milli: i64::MAX,
            done: 0,
            faulted: false,
        }
    }

    /// Choose what to do, given what each queue holds.
    ///
    /// Results go first, except that after a batch of them every control reply
    /// already queued is sent. A control queue that is finished is not looked
    /// at again, so waiting for results does not spin on it. Results that are
    /// already queued are handled before the writer stops. Nothing follows the
    /// report of a device fault.
    pub fn next(&mut self, results: Queue, ctrl: Queue) -> (turn: Turn)
        requires
            old(self).wf(),
        ensures
            final(self).wf(),
            (*final(self), turn) == old(self).turned(results, ctrl),
    {
        if self.faulted {
            return Turn::Stop;
        }
        if self.streak >= RESULT_BATCH {
            self.streak = 0;
            if self.ctrl_open && ctrl == Queue::Ready {
                return Turn::DrainControl;
            }
        }
        if results == Queue::Ready {
            self.streak = self.streak + 1;
            return Turn::TakeResult;
        }
        if self.ctrl_open && ctrl == Queue::Ready {
            self.streak = 0;
            return Turn::TakeControl;
        }
        if ctrl == Queue::Finished {
            self.ctrl_open = false;
        }
        if !self.ctrl_open && results == Queue::Finished {
            Turn::Stop
        } else {
            Turn::Wait
        }
    }
}

impl Writer {
    /// Remember that a device fault has been reported from outside the results
    /// of plain jobs.
    pub fn note_fault(&mut self)
        ensures
            *final(self) == (Writer { faulted: true, ..*old(self) }),
    {
        self.faulted = true;
    }
}

/// `states` is a run of the writer on these queues.
pub open spec fn is_run(
    states: Seq<Writer>,
    turns: Seq<Turn>,
    results: Seq<Queue>,
    ctrl: Seq<Queue>,
) -> bool {
    &&& states.len() == turns.len() + 1
    &&& results.len() == turns.len()
    &&& ctrl.len() == turns.len()
    &&& states[0].wf()
    &&& forall|i: int|
        0 <= i < turns.len() ==> #[trigger] states[i].turned(results[i], ctrl[i]) == (
            states[i + 1],
            turns[i],
        )
}

proof fn lemma_streak_grows(
    states: Seq<Writer>,
    turns: Seq<Turn>,
    results: Seq<Queue>,
    ctrl: Seq<Queue>,
    n: int,
)
    requires
        is_run(states, turns, results, ctrl),
        0 <= n <= turns.len(),
        states[0].ctrl_open,
        forall|i: int|
            0 <= i < turns.len() ==> turns[i] == Turn::TakeResult && #[trigger] ctrl[i]
                == Queue::Ready,
    ensures
        states[n].ctrl_open,
        states[n].wf(),
        states[n].streak == states[0].streak + n,
    decreases n,
{
    if n > 0 {
        lemma_streak_grows(states, turns, results, ctrl, n - 1);
        assert(ctrl[n - 1] == Queue::Ready && turns[n - 1] == Turn::TakeResult);
        assert(states[n - 1].turned(results[n - 1], ctrl[n - 1]) == (
            states[n - 1 + 1],
            turns[n - 1],
        ));
    }
}

/// A control reply that is queued waits behind at most one batch of results.
pub proof fn law_control_replies_are_not_starved(
    states: Seq<Writer>,
    turns: Seq<Turn>,
    results: Seq<Queue>,
    ctrl: Seq<Queue>,
)
    requires
        is_run(states, turns, results, ctrl),
        states[0].ctrl_open,
        forall|i: int| 0 <= i < turns.len() ==> #[trigger] ctrl[i] == Queue::Ready,
        forall|i: int| 0 <= i < turns.len() ==> #[trigger] turns[i] == Turn::TakeResult,
    ensures
        turns.len() <= RESULT_BATCH,
{
    assert forall|i: int| 0 <= i < turns.len() implies turns[i] == Turn::TakeResult
        && #[trigger] ctrl[i] == Queue::Ready by {
        assert(turns[i] == Turn::TakeResult);
    }
    lemma_streak_grows(states, turns, results, ctrl, turns.len() as int);
}

/// A writer without a device fault stops only when both queues are finished,
/// and while a control reply or a result is queued it never waits.
pub proof fn law_the_writer_stops_only_when_both_queues_are_finished(
    writer: Writer,
    results: Queue,
    ctrl: Queue,
)
    requires
        !writer.faulted,
    ensures
        ({
            let (after, turn) = writer.turned(results, ctrl);
            &&& turn == Turn::Stop ==> results == Queue::Finished && (ctrl == Queue::Finished
                || !writer.ctrl_open)
            &&& results == Queue::Ready ==> turn == Turn::TakeResult || turn == Turn::DrainControl
            &&& writer.ctrl_open && ctrl == Queue::Ready ==> turn != Turn::Wait && turn
                != Turn::Stop
            &&& !writer.ctrl_open ==> !after.ctrl_open && turn != Turn::TakeControl && turn
                != Turn::DrainControl
        }),
{
}

/// `after` is `before` with the energies that `exact` gives.
pub open spec fn rescored(
    before: Seq<SamplerResult>,
    after: Seq<SamplerResult>,
    exact: Option<ExactEnergy>,
) -> bool {
    &&& after.len() == before.len()
    &&& forall|i: int|
        0 <= i < before.len() ==> {
            &&& (#[trigger] after[i]).spins@ == before[i].spins@
            &&& after[i].energy_milli == match exact {
                None => before[i].energy_milli,
                Some(e) => clamp_i64(energy(before[i].spins@, e.h@, e.j@, e.edges@)),
            }
        }
}

/// The job's generation has been abandoned.
pub open spec fn is_stale(entry: Option<PendingJob>, point: u64) -> bool {
    match entry {
        None => false,
        Some(e) => abandons(point, e.watermark),
    }
}

/// `shown` is what the coordinator learns of `sr`: the job under its own id,
/// nothing of the reads of an abandoned generation, and the consensus energies
/// of the others. An error is left alone: a device fault is about the device,
/// not the job.
pub open spec fn shows(
    shown: StreamResult,
    sr: StreamResult,
    entry: Option<PendingJob>,
    point: u64,
) -> bool {
    &&& shown.job_id@ == match entry {
        Some(e) => e.job_id@,
        None => sr.job_id@,
    }
    &&& shown.device_access_time_us == sr.device_access_time_us
    &&& match sr.outcome {
        StreamOutcome::Completed(Ok(reads)) => if is_stale(entry, point) {
            shown.outcome is Cancelled
        } else {
            shown.outcome matches StreamOutcome::Completed(Ok(kept)) && rescored(
                reads@,
                kept@,
                match entry {
                    Some(e) => e.exact_energy,
                    None => None,
                },
            )
        },
        _ => shown.outcome == sr.outcome,
    }
}

/// What the coordinator learns of a finished job.
pub fn show(sr: StreamResult, entry: &Option<PendingJob>, cancel: &CancelToken) -> (shown:
    StreamResult)
    ensures
        shows(shown, sr, *entry, cancel.point),
{
    let StreamResult { job_id: held, outcome, device_access_time_us } = sr;
    let job_id: Vec<u8> = match entry {
        Some(e) => copy_bytes(e.job_id.as_slice()),
        None => held,
    };
    match outcome {
        StreamOutcome::Completed(Ok(reads)) => {
            let mut kept: Vec<SamplerResult> = reads;
            match entry {
                None => {},
                Some(e) => {
                    if cancel.is_cancelled(e.watermark) {
                        return StreamResult {
                            job_id,
                            outcome: StreamOutcome::Cancelled,
                            device_access_time_us,
                        };
                    }
                    match &e.exact_energy {
                        None => {},
                        Some(exact) => {
                            exact.rescore(&mut kept);
                        },
                    }
                },
            }
            StreamResult {
                job_id,
                outcome: StreamOutcome::Completed(Ok(kept)),
                device_access_time_us,
            }
        },
        other => StreamResult { job_id, outcome: other, device_access_time_us },
    }
}

/// `m` is the lowest energy of `reads`, and `None` of no reads.
pub open spec fn is_lowest(reads: Seq<SamplerResult>, m: Option<i64>) -> bool {
    match m {
        None => reads.len() == 0,
        Some(e) => {
            &&& exists|i: int| 0 <= i < reads.len() && (#[trigger] reads[i]).energy_milli == e
            &&& forall|i: int| 0 <= i < reads.len() ==> e <= (#[trigger] reads[i]).energy_milli
        },
    }
}

/// The lowest energy of any read.
pub fn lowest_energy(reads: &[SamplerResult]) -> (lowest: Option<i64>)
    ensures
        is_lowest(reads@, lowest),
{
    if reads.len() == 0 {
        return None;
    }
    let mut best: i64 = reads[0].energy_milli;
    let mut i: usize = 1;
    assert(reads@[0].energy_milli == best);
    while i < reads.len()
        invariant
            1 <= i <= reads@.len(),
            exists|k: int| 0 <= k < reads@.len() && (#[trigger] reads@[k]).energy_milli == best,
            forall|k: int| 0 <= k < i ==> best <= (#[trigger] reads@[k]).energy_milli,
        decreases reads@.len() - i,
    {
        if reads[i].energy_milli < best {
            best = reads[i].energy_milli;
            assert(reads@[i as int].energy_milli == best);
        }
        i += 1;
    }
    Some(best)
}

/// How many of the first `n` reads are at or below `max`.
pub open spec fn count_within(reads: Seq<SamplerResult>, max: i64, n: nat) -> nat
    decreases n,
{
    if n == 0 {
        0
    } else {
        count_within(reads, max, (n - 1) as nat) + if reads[n - 1].energy_milli <= max {
            1nat
        } else {
            0
        }
    }
}

/// The reads that an attempt is scored on: those at or below the threshold,
/// and all of them when there is none.
pub open spec fn valid_reads(reads: Seq<SamplerResult>, max: Option<i64>) -> nat {
    match max {
        Some(m) => count_within(reads, m, reads.len()),
        None => reads.len(),
    }
}

/// Count the reads that an attempt is scored on.
pub fn count_valid(reads: &[SamplerResult], max: Option<i64>) -> (valid: usize)
    ensures
        valid == valid_reads(reads@, max),
{
    match max {
        None => reads.len(),
        Some(m) => {
            let mut valid: usize = 0;
            let mut i: usize = 0;
            while i < reads.len()
                invariant
                    valid <= i <= reads@.len(),
                    valid == count_within(reads@, m, i as nat),
                decreases reads@.len() - i,
            {
                if reads[i].energy_milli <= m {
                    valid += 1;
                }
                i += 1;
            }
            valid
        },
    }
}

/// What the writer does for one finished job.
#[derive(Debug)]
pub struct Handled {
    /// Send these, in order. A `Fatal` among them is the last thing to send.
    pub out: Vec<MinerMsg>,
    /// The session is over.
    pub fatal: bool,
    /// Time for a progress line.
    pub progress: bool,
}

/// The best energy after the reads of `shown`.
pub open spec fn best_after(best: i64, shown: StreamResult, new: i64) -> bool {
    match shown.outcome {
        StreamOutcome::Completed(Ok(reads)) => {
            ||| reads@.len() == 0 && new == best
            ||| exists|m: i64| #[trigger]
                is_lowest(reads@, Some(m)) && new == if m < best {
                    m
                } else {
                    best
                }
        },
        _ => new == best,
    }
}

/// `handled` and `after` are what becomes of `before` when `shown` is sent.
pub open spec fn handles(
    before: Writer,
    shown: StreamResult,
    reads: u32,
    sweeps: u32,
    after: Writer,
    handled: Handled,
) -> bool {
    let fatal = shown.outcome matches StreamOutcome::Completed(Err(e)) && e is DeviceFault;
    &&& finalized(replies(handled.out@), shown, reads, sweeps)
    &&& handled.fatal == fatal
    &&& best_after(before.best_energy_milli, shown, after.best_energy_milli)
    &&& after == (Writer {
        best_energy_milli: after.best_energy_milli,
        done: if shown.outcome matches StreamOutcome::Completed(Ok(_)) {
            one_more(before.done)
        } else {
            before.done
        },
        faulted: before.faulted || fatal,
        ..before
    })
    &&& handled.progress == (shown.outcome is Completed && !fatal && after.done > 0 && after.done
        % PROGRESS_LOG_INTERVAL == 0)
}

impl Writer {
    /// Account for one job as the coordinator learns of it.
    pub fn send_shown(&mut self, shown: StreamResult, num_reads: u32, num_sweeps: u32) -> (handled:
        Handled)
        ensures
            handles(*old(self), shown, num_reads, num_sweeps, *final(self), handled),
    {
        let mut fatal: bool = false;
        let mut completed: bool = true;
        match &shown.outcome {
            StreamOutcome::Completed(Ok(reads)) => {
                match lowest_energy(reads.as_slice()) {
                    None => {},
                    Some(m) => {
                        assert(is_lowest(reads@, Some(m)));
                        if m < self.best_energy_milli {
                            self.best_energy_milli = m;
                        }
                    },
                }
            },
            StreamOutcome::Completed(Err(e)) => {
                fatal = e.is_fatal();
            },
            StreamOutcome::Cancelled => {
                completed = false;
            },
        }
        let mut done: u64 = self.done;
        let out: Vec<MinerMsg> = finalize_result(shown, num_reads, num_sweeps, &mut done);
        self.done = done;
        if fatal {
            self.faulted = true;
        }
        let progress: bool = completed && !fatal && done > 0 && done % PROGRESS_LOG_INTERVAL == 0;
        Handled { out, fatal, progress }
    }

    /// Handle one finished job that is not part of a salt range. `entry` is
    /// what was recorded when it was prepared.
    pub fn on_result(
        &mut self,
        sr: StreamResult,
        entry: &Option<PendingJob>,
        cancel: &CancelToken,
    ) -> (handled: Handled)
        ensures
            exists|shown: StreamResult|
                #![trigger shows(shown, sr, *entry, cancel.point)]
                {
                    &&& shows(shown, sr, *entry, cancel.point)
                    &&& handles(
                        *old(self),
                        shown,
                        match *entry {
                            Some(e) => e.num_reads,
                            None => 0,
                        },
                        match *entry {
                            Some(e) => e.num_sweeps,
                            None => 0,
                        },
                        *final(self),
                        handled,
                    )
                },
    {
        let (num_reads, num_sweeps): (u32, u32) = match entry {
            Some(e) => (e.num_reads, e.num_sweeps),
            None => (0, 0),
        };
        let shown: StreamResult = show(sr, entry, cancel);
        assert(shows(shown, sr, *entry, cancel.point));
        self.send_shown(shown, num_reads, num_sweeps)
    }
}

/// No `Result` reaches the wire for a generation that was abandoned, whatever
/// the backend produced: such a job gives back its credit and says nothing
/// else.
pub proof fn law_no_result_for_an_abandoned_generation(
    shown: StreamResult,
    sr: StreamResult,
    entry: Option<PendingJob>,
    point: u64,
    out: Seq<Reply>,
    reads: u32,
    sweeps: u32,
)
    requires
        shows(shown, sr, entry, point),
        finalized(out, shown, reads, sweeps),
        is_stale(entry, point),
        sr.outcome matches StreamOutcome::Completed(Ok(_)),
    ensures
        out == seq![Reply::Credits(1)],
{
}

/// A device fault is reported even for an abandoned generation.
pub proof fn law_a_device_fault_outlives_a_cancel(
    shown: StreamResult,
    sr: StreamResult,
    entry: Option<PendingJob>,
    point: u64,
    out: Seq<Reply>,
    reads: u32,
    sweeps: u32,
)
    requires
        shows(shown, sr, entry, point),
        finalized(out, shown, reads, sweeps),
        sr.outcome matches StreamOutcome::Completed(Err(e)) && e is DeviceFault,
    ensures
        out.len() == 2,
        out[1] is Fatal,
{
}

/// Once a device fault is reported nothing more is sent, whatever is queued: the
/// result that carries the fault is the last one the writer handles.
pub proof fn law_nothing_follows_a_device_fault(
    before: Writer,
    shown: StreamResult,
    reads: u32,
    sweeps: u32,
    after: Writer,
    handled: Handled,
    results: Queue,
    ctrl: Queue,
)
    requires
        handles(before, shown, reads, sweeps, after, handled),
        handled.fatal || before.faulted,
    ensures
        after.turned(results, ctrl) == (after, Turn::Stop),
        handled.fatal ==> replies(handled.out@).last() is Fatal && credits_in(
            replies(handled.out@),
        ) == 0,
{
    if handled.fatal {
        let out = replies(handled.out@);
        reveal_with_fuel(credits_in, 3);
        assert(out.len() == 2);
        assert(out.drop_last().drop_last() =~= Seq::<Reply>::empty());
    }
}

/// The leading eight bytes of a job id, and a mark when there are more.
pub open spec fn short_id(job_id: Seq<u8>) -> Seq<char> {
    if job_id.len() > 8 {
        hex(job_id.take(8)) + ".."@
    } else {
        hex(job_id)
    }
}

/// Render the leading bytes of a job id for logs.
pub fn short_job_id(job_id: &[u8]) -> (text: String)
    ensures
        text@ == short_id(job_id@),
{
    let mut text: String = "".to_owned();
    proof {
        reveal_strlit("");
    }
    let mut head: Vec<u8> = Vec::new();
    let mut i: usize = 0;
    while i < job_id.len() && i < 8
        invariant
            i <= job_id@.len(),
            i <= 8,
            head@ == job_id@.take(i as int),
        decreases job_id@.len() - i,
    {
        head.push(job_id[i]);
        assert(head@ =~= job_id@.take(i + 1));
        i += 1;
    }
    push_hex(&mut text, head.as_slice());
    assert(text@ =~= hex(head@));
    if job_id.len() > 8 {
        text.append("..");
    } else {
        assert(job_id@.take(i as int) =~= job_id@);
    }
    text
}

/// What an attempt was measured against.
pub open spec fn requirement_text(entry: Option<PendingJob>) -> Seq<char> {
    match entry {
        Some(e) => match e.max_energy_milli {
            Some(max) => "requires energy<="@ + signed_decimal(max as int / 1000)
                + ", solutions>="@ + decimal(e.min_solutions as nat),
            None => "no target set"@,
        },
        None => "no target set"@,
    }
}

/// Requirement text of the progress line.
pub fn format_requirement(entry: &Option<PendingJob>) -> (text: String)
    ensures
        text@ == requirement_text(*entry),
{
    match entry {
        None => "no target set".to_owned(),
        Some(e) => match e.max_energy_milli {
            None => "no target set".to_owned(),
            Some(max) => {
                let mut text: String = "requires energy<=".to_owned();
                push_signed(&mut text, energy_units(max));
                text.append(", solutions>=");
                push_decimal(&mut text, e.min_solutions as u64);
                text
            },
        },
    }
}

/// An energy in whole units, or a mark for none.
pub open spec fn energy_text(lowest: Option<i64>) -> Seq<char> {
    match lowest {
        Some(e) => signed_decimal(e as int / 1000),
        None => "n/a"@,
    }
}

/// Render the best energy of an attempt.
pub fn format_energy(lowest: Option<i64>) -> (text: String)
    ensures
        text@ == energy_text(lowest),
{
    match lowest {
        None => "n/a".to_owned(),
        Some(e) => {
            let mut text: String = "".to_owned();
            proof {
                reveal_strlit("");
            }
            push_signed(&mut text, energy_units(e));
            assert(text@ =~= energy_text(lowest));
            text
        },
    }
}

/// How an attempt is logged.
pub open spec fn attempt_text(
    backend: Seq<char>,
    sr: StreamResult,
    max: Option<i64>,
    lowest: Option<i64>,
    elapsed_ms: u64,
) -> Seq<char> {
    let head = "[quip-miner-"@ + backend + "] attempt "@ + short_id(sr.job_id@) + ": "@;
    match sr.outcome {
        StreamOutcome::Completed(Ok(reads)) => head + "energy "@ + energy_text(lowest) + ", valid "@
            + decimal(valid_reads(reads@, max)) + "/"@ + decimal(reads@.len()) + " | "@
            + duration_text(elapsed_ms as nat) + " wall, "@ + duration_text(
            (sr.device_access_time_us / 1000) as nat,
        ) + " device"@,
        StreamOutcome::Completed(Err(e)) => head + "rejected "@ + e.text() + " | "@ + duration_text(
            elapsed_ms as nat,
        ) + " wall"@,
        StreamOutcome::Cancelled => head + "cancelled after "@ + duration_text(elapsed_ms as nat),
    }
}

/// The log line of one finished attempt.
///
/// Every terminal outcome has one: a miner that works but does not win would
/// otherwise look like one that is stuck.
pub fn attempt_line(
    backend: &str,
    sr: &StreamResult,
    entry: &Option<PendingJob>,
    elapsed_ms: u64,
) -> (line: String)
    ensures
        exists|lowest: Option<i64>|
            #![trigger energy_text(lowest)]
            {
                &&& sr.outcome matches StreamOutcome::Completed(Ok(reads)) ==> is_lowest(
                    reads@,
                    lowest,
                )
                &&& line@ == attempt_text(
                    backend@,
                    *sr,
                    match *entry {
                        Some(e) => e.max_energy_milli,
                        None => None,
                    },
                    lowest,
                    elapsed_ms,
                )
            },
{
    let max: Option<i64> = match entry {
        Some(e) => e.max_energy_milli,
        None => None,
    };
    let mut line: String = "[quip-miner-".to_owned();
    line.append(backend);
    line.append("] attempt ");
    line.append(short_job_id(sr.job_id.as_slice()).as_str());
    line.append(": ");
    let wall: String = format_duration_ms(elapsed_ms);
    match &sr.outcome {
        StreamOutcome::Completed(Ok(reads)) => {
            let lowest: Option<i64> = lowest_energy(reads.as_slice());
            line.append("energy ");
            line.append(format_energy(lowest).as_str());
            line.append(", valid ");
            push_decimal(&mut line, count_valid(reads.as_slice(), max) as u64);
            line.append("/");
            push_decimal(&mut line, reads.len() as u64);
            line.append(" | ");
            line.append(wall.as_str());
            line.append(" wall, ");
            line.append(format_duration_ms(sr.device_access_time_us / 1000).as_str());
            line.append(" device");
            assert(line@ == attempt_text(backend@, *sr, max, lowest, elapsed_ms));
            assert(energy_text(lowest) == energy_text(lowest));
        },
        StreamOutcome::Completed(Err(e)) => {
            line.append("rejected ");
            line.append(e.to_string().as_str());
            line.append(" | ");
            line.append(wall.as_str());
            line.append(" wall");
            assert(line@ == attempt_text(backend@, *sr, max, None, elapsed_ms));
            assert(energy_text(None) == "n/a"@);
        },
        StreamOutcome::Cancelled => {
            line.append("cancelled after ");
            line.append(wall.as_str());
            assert(line@ == attempt_text(backend@, *sr, max, None, elapsed_ms));
            assert(energy_text(None) == "n/a"@);
        },
    }
    line
}

proof fn lemma_counted_reads(reads: Seq<SamplerResult>, max: i64, n: nat)
    requires
        n <= reads.len(),
    ensures
        count_within(reads, max, n) == reads.take(n as int).filter(
            |r: SamplerResult| r.energy_milli <= max,
        ).len(),
    decreases n,
{
    reveal(Seq::filter);
    if n > 0 {
        lemma_counted_reads(reads, max, (n - 1) as nat);
        assert(reads.take(n as int).drop_last() =~= reads.take(n - 1));
    }
}

/// An attempt is scored on the reads whose own energy is at or below the
/// threshold, each of them once, and on all reads when there is no threshold.
pub proof fn law_valid_reads_are_those_within(reads: Seq<SamplerResult>, max: i64)
    ensures
        valid_reads(reads, Some(max)) == reads.filter(
            |r: SamplerResult| r.energy_milli <= max,
        ).len(),
        valid_reads(reads, None) == reads.len(),
{
    lemma_counted_reads(reads, max, reads.len());
    assert(reads.take(reads.len() as int) =~= reads);
}

/// A job that completed in a generation still in force sends one solution for
/// every read, in order, under the coordinator's own id: the spins of that read,
/// and its energy by the wire coefficients when those were kept, and as the
/// sampler gave it when they were not. Then it gives back one credit.
pub proof fn law_every_read_of_a_live_job_is_sent(
    shown: StreamResult,
    sr: StreamResult,
    entry: PendingJob,
    reads: Vec<SamplerResult>,
    point: u64,
    out: Seq<Reply>,
    num_reads: u32,
    num_sweeps: u32,
)
    requires
        shows(shown, sr, Some(entry), point),
        finalized(out, shown, num_reads, num_sweeps),
        sr.outcome == StreamOutcome::Completed(Ok(reads)),
        entry.watermark matches Some(w) ==> w > point,
    ensures
        out.len() == 2,
        out[1] == Reply::Credits(1),
        out[0] is Result,
        out[0] matches Reply::Result { job_id, salt, nonce, solutions, meta } ==> {
            &&& job_id == entry.job_id@
            &&& salt.len() == 0
            &&& nonce.len() == 0
            &&& meta.reads == num_reads
            &&& meta.sweeps == num_sweeps
            &&& meta.device_access_time_us == sr.device_access_time_us
            &&& solutions.len() == reads@.len()
            &&& forall|i: int|
                0 <= i < reads@.len() ==> packed_from(
                    (#[trigger] solutions[i]).0,
                    reads@[i].spins@,
                ) && solutions[i].1 == match entry.exact_energy {
                    None => reads@[i].energy_milli,
                    Some(e) => clamp_i64(energy(reads@[i].spins@, e.h@, e.j@, e.edges@)),
                }
        },
{
}

/// A job that failed is refused under the coordinator's own id, as too large when
/// it exceeds the device and as coming at a bad time otherwise. It gives back one
/// credit, unless its device cannot be trusted: then the session ends with what
/// the error says.
pub proof fn law_every_failed_job_is_refused(
    shown: StreamResult,
    sr: StreamResult,
    entry: PendingJob,
    error: SampleError,
    point: u64,
    out: Seq<Reply>,
    num_reads: u32,
    num_sweeps: u32,
)
    requires
        shows(shown, sr, Some(entry), point),
        finalized(out, shown, num_reads, num_sweeps),
        sr.outcome == StreamOutcome::Completed(Err(error)),
    ensures
        out.len() == 2,
        error is Capacity ==> out[0] == Reply::Reject(entry.job_id@, RejectReason::TooLarge),
        !(error is Capacity) ==> out[0] == Reply::Reject(entry.job_id@, RejectReason::Overloaded),
        !(error is DeviceFault) ==> out[1] == Reply::Credits(1),
        error is DeviceFault ==> out[1] == (Reply::Fatal {
            exit_code: 70,
            reason: error.text(),
            restart_required: true,
        }),
{
}

/// The writer's tally follows what it sends: the best energy never rises, no
/// read sent is lower, it is one that was sent, and the number of jobs done
/// grows by one exactly for a job with reads. Neither touches the queues.
pub proof fn law_the_tally_follows_the_results(
    before: Writer,
    shown: StreamResult,
    num_reads: u32,
    num_sweeps: u32,
    after: Writer,
    handled: Handled,
)
    requires
        handles(before, shown, num_reads, num_sweeps, after, handled),
    ensures
        after.streak == before.streak,
        after.ctrl_open == before.ctrl_open,
        after.best_energy_milli <= before.best_energy_milli,
        shown.outcome matches StreamOutcome::Completed(Ok(reads)) ==> {
            &&& forall|i: int|
                0 <= i < reads@.len() ==> after.best_energy_milli <= (
                #[trigger] reads@[i]).energy_milli
            &&& after.best_energy_milli == before.best_energy_milli || exists|i: int|
                0 <= i < reads@.len() && (#[trigger] reads@[i]).energy_milli
                    == after.best_energy_milli
            &&& before.done < u64::MAX ==> after.done == before.done + 1
        },
        !(shown.outcome matches StreamOutcome::Completed(Ok(_))) ==> after.done == before.done
            && after.best_energy_milli == before.best_energy_milli,
        handled.fatal ==> after.faulted,
        !handled.fatal ==> after.faulted == before.faulted,
        handled.fatal <==> (shown.outcome matches StreamOutcome::Completed(Err(e)) && e
            is DeviceFault),
        handled.progress <==> !(shown.outcome is Cancelled) && !handled.fatal && after.done != 0
            && after.done % 10 == 0,
{
    match shown.outcome {
        StreamOutcome::Completed(Ok(reads)) => {
            if reads@.len() > 0 {
                let best = before.best_energy_milli;
                let m = choose|m: i64| #[trigger]
                    is_lowest(reads@, Some(m)) && after.best_energy_milli == if m < best {
                        m
                    } else {
                        best
                    };
                assert(is_lowest(reads@, Some(m)));
            }
        },
        _ => {},
    }
}

/// Results go first: before a batch is full a queued result is always taken,
/// and only a full batch makes room for all control replies. A control reply
/// starts a new batch, and a result counts one in it.
pub proof fn law_results_go_first(writer: Writer, results: Queue, ctrl: Queue)
    requires
        !writer.faulted,
    ensures
        ({
            let (after, turn) = writer.turned(results, ctrl);
            &&& results == Queue::Ready && writer.streak < RESULT_BATCH ==> turn
                == Turn::TakeResult && after.streak == writer.streak + 1
            &&& turn == Turn::DrainControl ==> writer.streak >= RESULT_BATCH && after.streak == 0
            &&& turn == Turn::TakeControl ==> results != Queue::Ready && after.streak == 0
            &&& turn == Turn::TakeResult && writer.streak >= RESULT_BATCH ==> after.streak == 1
            &&& after.done == writer.done && after.best_energy_milli == writer.best_energy_milli
            &&& results == Queue::Finished && ctrl == Queue::Finished ==> turn == Turn::Stop
            &&& results == Queue::Empty && ctrl != Queue::Ready ==> turn == Turn::Wait
        }),
{
}

/// Two ids of at most eight bytes that read alike in a log line are the same.
pub proof fn law_short_ids_tell_jobs_apart(a: Seq<u8>, b: Seq<u8>)
    requires
        short_id(a) == short_id(b),
        a.len() <= 8,
        b.len() <= 8,
    ensures
        a == b,
{
    law_hex_digits_stand_for_their_byte(a);
    law_hex_digits_stand_for_their_byte(b);
    assert forall|k: int| 0 <= k < a.len() implies a[k] == b[k] by {
        assert(hex(a)[2 * k] == hex(b)[2 * k]);
        assert(a[k] == b[k]);
    }
    assert(a =~= b);
}

/// A long id shows its leading eight bytes, sixteen digits, and a mark.
pub proof fn law_long_ids_show_their_head(a: Seq<u8>)
    requires
        a.len() > 8,
    ensures
        short_id(a) == short_id(a.take(8)) + ".."@,
        short_id(a.take(8)).len() == 16,
{
    law_hex_digits_stand_for_their_byte(a.take(8));
}

proof fn lemma_three_behind(p: Seq<char>, a: Seq<char>, b: Seq<char>, c: Seq<char>)
    ensures
        contains_text(p + a + b + c, a + b + c),
{
    let behind = Seq::<char>::empty();
    assert(p + a + b + c =~= p + (a + b + c) + behind);
    law_a_text_holds_its_middle(p, a + b + c, behind, p);
}

proof fn lemma_five_behind(
    p: Seq<char>,
    a: Seq<char>,
    b: Seq<char>,
    c: Seq<char>,
    d: Seq<char>,
    e: Seq<char>,
)
    ensures
        contains_text(p + a + b + c + d + e, a + b + c + d + e),
{
    let behind = Seq::<char>::empty();
    assert(p + a + b + c + d + e =~= p + (a + b + c + d + e) + behind);
    law_a_text_holds_its_middle(p, a + b + c + d + e, behind, p);
}

proof fn lemma_line_grows(line: Seq<char>, part: Seq<char>, a: Seq<char>, b: Seq<char>)
    requires
        contains_text(line, part),
    ensures
        contains_text(line + a + b, part),
{
    law_a_longer_text_still_holds(line, a, part);
    law_a_longer_text_still_holds(line + a, b, part);
}

proof fn lemma_line_ends(timed: Seq<char>, part: Seq<char>, device: Seq<char>)
    requires
        contains_text(timed, part),
    ensures
        contains_text(timed + " wall, "@ + device + " device"@, part),
{
    lemma_line_grows(timed, part, " wall, "@, device);
    law_a_longer_text_still_holds(timed + " wall, "@ + device, " device"@, part);
}

/// The log line of a finished attempt tells its best energy, how many of its
/// reads meet the requirement out of how many, and how long it took, each as the
/// attempt has it.
pub proof fn law_the_log_line_tells_the_attempt(
    backend: Seq<char>,
    sr: StreamResult,
    reads: Vec<SamplerResult>,
    max: i64,
    lowest: i64,
    elapsed_ms: u64,
)
    requires
        sr.outcome == StreamOutcome::Completed(Ok(reads)),
    ensures
        ({
            let line = attempt_text(backend, sr, Some(max), Some(lowest), elapsed_ms);
            let valid = reads@.filter(|r: SamplerResult| r.energy_milli <= max).len();
            let wall = duration_text(elapsed_ms as nat);
            let device = duration_text((sr.device_access_time_us / 1000) as nat);
            &&& contains_text(line, "] attempt "@ + short_id(sr.job_id@) + ": "@)
            &&& contains_text(
                line,
                "energy "@ + signed_decimal(lowest as int / 1000) + ", valid "@,
            )
            &&& contains_text(
                line,
                ", valid "@ + decimal(valid) + "/"@ + decimal(reads@.len()) + " | "@,
            )
            &&& contains_text(line, " | "@ + wall + " wall, "@)
            &&& contains_text(line, " wall, "@ + device + " device"@)
        }),
{
    law_valid_reads_are_those_within(reads@, max);
    let id = short_id(sr.job_id@);
    let energy = signed_decimal(lowest as int / 1000);
    let good = decimal(valid_reads(reads@, Some(max)));
    let all = decimal(reads@.len());
    let wall = duration_text(elapsed_ms as nat);
    let device = duration_text((sr.device_access_time_us / 1000) as nat);
    let named = "[quip-miner-"@ + backend;
    let head = named + "] attempt "@ + id + ": "@;
    let told = head + "energy "@ + energy;
    let counted = told + ", valid "@ + good + "/"@ + all;
    let timed = counted + " | "@ + wall;
    let line = timed + " wall, "@ + device + " device"@;
    lemma_three_behind(named, "] attempt "@, id, ": "@);
    lemma_three_behind(head, "energy "@, energy, ", valid "@);
    lemma_five_behind(told, ", valid "@, good, "/"@, all, " | "@);
    lemma_three_behind(counted, " | "@, wall, " wall, "@);
    lemma_three_behind(timed, " wall, "@, device, " device"@);
    let (stem, to_head, to_energy) = (
        told + ", valid "@,
        "] attempt "@ + id + ": "@,
        "energy "@ + energy + ", valid "@,
    );
    lemma_line_grows(head, to_head, "energy "@, energy);
    lemma_line_grows(told, to_head, ", valid "@, good);
    lemma_line_grows(stem + good, to_head, "/"@, all);
    lemma_line_grows(stem, to_energy, good, "/"@);
    law_a_longer_text_still_holds(stem + good + "/"@, all, to_energy);
    lemma_line_grows(counted, to_head, " | "@, wall);
    lemma_line_grows(counted, to_energy, " | "@, wall);
    let to_count = ", valid "@ + good + "/"@ + all + " | "@;
    law_a_longer_text_still_holds(counted + " | "@, wall, to_count);
    lemma_line_ends(timed, to_head, device);
    lemma_line_ends(timed, to_energy, device);
    lemma_line_ends(timed, to_count, device);
    lemma_line_grows(timed + " wall, "@, " | "@ + wall + " wall, "@, device, " device"@);
}

/// The requirement in a log line is the target's threshold in whole units and
/// its number of solutions, and without a threshold there is none.
pub proof fn law_the_requirement_tells_the_target(entry: PendingJob, units: int)
    ensures
        entry.max_energy_milli matches Some(max) ==> (1000 * units <= max < 1000 * units + 1000 ==> {
            &&& contains_text(
                requirement_text(Some(entry)),
                "energy<="@ + signed_decimal(units) + ", "@,
            )
            &&& contains_text(
                requirement_text(Some(entry)),
                "solutions>="@ + decimal(entry.min_solutions as nat),
            )
        }),
        entry.max_energy_milli is None ==> requirement_text(Some(entry)) == requirement_text(None),
{
    match entry.max_energy_milli {
        Some(max) => {
            if 1000 * units <= max < 1000 * units + 1000 {
                assert(max as int / 1000 == units);
                let text = requirement_text(Some(entry));
                let (u, n) = (signed_decimal(units), decimal(entry.min_solutions as nat));
                reveal_strlit("requires energy<=");
                reveal_strlit("energy<=");
                reveal_strlit(", solutions>=");
                reveal_strlit(", ");
                reveal_strlit("solutions>=");
                let (open, seam) = ("requires energy<="@, ", solutions>="@);
                assert(open.skip(9) =~= "energy<="@);
                assert(seam.take(2) =~= ", "@);
                assert(seam.skip(2) =~= "solutions>="@);
                let m = open.skip(9) + u + seam.take(2);
                assert(text =~= open.take(9) + m + (seam.skip(2) + n));
                law_a_text_holds_its_middle(open.take(9), m, seam.skip(2) + n, text);
                let m = seam.skip(2) + n;
                let before = open + u + seam.take(2);
                assert(text =~= before + m + Seq::empty());
                law_a_text_holds_its_middle(before, m, Seq::empty(), text);
            }
        },
        None => {},
    }
}

} // verus!
