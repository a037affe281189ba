//! Per-table flush scheduling: a state machine that admits at most one
//! flush at a time, fails fast after a background failure, and reports
//! write stalls.
//!
//! The asynchronous shell around this machine (the notifier wait, the
//! spawned background job) performs no decision of its own: every
//! transition it may take is one of the functions below.

use vstd::prelude::*;

verus! {

/// A table identifier.
pub type TableId = u64;

/// The flushing condition of one table.
#[derive(Debug, Clone, PartialEq, Eq)]
pub enum FlushState {
    /// No flush is running; a new one may be admitted.
    Ready,
    /// Exactly one flush job is running.
    Flushing,
    /// A background flush failed; new schedules fail fast with its message.
    Failed { err_msg: String },
}

/// What a caller asking to flush must do next.
#[derive(Debug, Clone, PartialEq, Eq)]
pub enum ScheduleDecision {
    /// The caller now owns the single running flush job.
    Start,
    /// Another flush is running; wait for the notifier and ask again.
    Wait,
    /// A previous background flush failed; give up with its message.
    Fail { err_msg: String },
}

/// Controls the flush procedure of one table and ensures multiple flush
/// procedures to be sequential: at most one flush is admitted at a time.
pub struct TableFlushScheduler {
    state: FlushState,
    /// How many times callers observed a running flush and had to wait.
    stall_count: u64,
}

impl TableFlushScheduler {
    /// The scheduler's current state.
    pub closed spec fn spec_state(&self) -> FlushState {
        self.state
    }

    /// How many flush jobs are running: one exactly while `Flushing`.
    pub open spec fn flushes_in_flight(&self) -> int {
        if self.spec_state() is Flushing {
            1
        } else {
            0
        }
    }

    /// The recorded number of write stalls.
    pub closed spec fn spec_stall_count(&self) -> u64 {
        self.stall_count
    }

    pub fn new() -> (r: Self)
        ensures
            r.spec_state() == FlushState::Ready,
            r.spec_stall_count() == 0,
    {
        Self { state: FlushState::Ready, stall_count: 0 }
    }

    pub fn state(&self) -> (r: &FlushState)
        ensures
            *r == self.spec_state(),
    {
        &self.state
    }

    pub fn stall_count(&self) -> (r: u64)
        ensures
            r == self.spec_stall_count(),
    {
        self.stall_count
    }

    /// Ask to run a flush.
    ///
    /// Admission happens if and only if the scheduler is `Ready`, and then
    /// the scheduler is `Flushing` until [`Self::on_flush_finished`]; a
    /// running flush makes the caller wait and counts a stall; a failed
    /// background flush is reported and the state kept, so later callers
    /// fail fast too.
    pub fn try_schedule(&mut self) -> (r: ScheduleDecision)
        ensures
            r is Start <==> old(self).spec_state() is Ready,
            r is Wait <==> old(self).spec_state() is Flushing,
            r is Start ==> final(self).spec_state() == FlushState::Flushing
                && final(self).spec_stall_count() == old(self).spec_stall_count(),
            r is Wait ==> final(self).spec_state() == old(self).spec_state()
                && final(self).spec_stall_count() == vstd::math::min(
                old(self).spec_stall_count() + 1,
                u64::MAX as int,
            ),
            r matches ScheduleDecision::Fail { err_msg } ==> old(self).spec_state() == (
            FlushState::Failed { err_msg }) && *final(self) == *old(self),
            !(r is Start) ==> final(self).flushes_in_flight() == old(self).flushes_in_flight(),
    {
        match &self.state {
            FlushState::Ready => {
                // Mark the worker is flushing.
                self.state = FlushState::Flushing;
                ScheduleDecision::Start
            },
            FlushState::Flushing => {
                if self.stall_count < u64::MAX {
                    self.stall_count = self.stall_count + 1;
                }
                ScheduleDecision::Wait
            },
            FlushState::Failed { err_msg } => ScheduleDecision::Fail { err_msg: err_msg.clone() },
        }
    }

    /// Record the outcome of the single running flush job.
    ///
    /// Success readies the scheduler for the next flush; failure parks it
    /// in `Failed` with the job's message.
    pub fn on_flush_finished(&mut self, result: Result<(), String>)
        requires
            old(self).spec_state() is Flushing,
        ensures
            result is Ok ==> final(self).spec_state() == FlushState::Ready,
            result matches Result::Err(e) ==> final(self).spec_state() == (FlushState::Failed {
                err_msg: e,
            }),
            final(self).spec_stall_count() == old(self).spec_stall_count(),
            final(self).flushes_in_flight() == 0,
    {
        match result {
            Ok(()) => {
                self.state = FlushState::Ready;
            },
            Err(e) => {
                self.state = FlushState::Failed { err_msg: e };
            },
        }
    }

    /// Reset a failed scheduler, as reopening the table does.
    pub fn reset(&mut self)
        requires
            !(old(self).spec_state() is Flushing),
        ensures
            final(self).spec_state() == FlushState::Ready,
            final(self).spec_stall_count() == old(self).spec_stall_count(),
    {
        self.state = FlushState::Ready;
    }
}

impl Default for TableFlushScheduler {
    /// A scheduler that is ready to admit a flush.
    fn default() -> (r: Self)
        ensures
            r.spec_state() == FlushState::Ready,
            r.spec_stall_count() == 0,
    {
        Self::new()
    }
}

/// All operations on a table must hold the mutable reference of this
/// [`TableOpSerialExecutor`]: holding it serializes the write path, schema
/// and option changes, drops, and flush scheduling of one table.
pub struct TableOpSerialExecutor {
    table_id: TableId,
    flush_scheduler: TableFlushScheduler,
}

impl TableOpSerialExecutor {
    pub fn new(table_id: TableId) -> (r: Self)
        ensures
            r.spec_table_id() == table_id,
            r.spec_scheduler().spec_state() == FlushState::Ready,
    {
        Self { table_id, flush_scheduler: TableFlushScheduler::new() }
    }

    /// The table this executor serializes.
    pub closed spec fn spec_table_id(&self) -> TableId {
        self.table_id
    }

    /// The flush scheduler owned by this executor.
    pub closed spec fn spec_scheduler(&self) -> TableFlushScheduler {
        self.flush_scheduler
    }

    #[inline]
    pub fn table_id(&self) -> (r: TableId)
        ensures
            r == self.spec_table_id(),
    {
        self.table_id
    }

    /// Ask to run a flush on this table; see
    /// [`TableFlushScheduler::try_schedule`].
    pub fn schedule_flush(&mut self) -> (r: ScheduleDecision)
        ensures
            final(self).spec_table_id() == old(self).spec_table_id(),
            r is Start <==> old(self).spec_scheduler().spec_state() is Ready,
            r is Wait <==> old(self).spec_scheduler().spec_state() is Flushing,
            r is Start ==> final(self).spec_scheduler().spec_state() == FlushState::Flushing,
            r matches ScheduleDecision::Fail { err_msg } ==> old(
                self,
            ).spec_scheduler().spec_state() == (FlushState::Failed { err_msg }),
            !(r is Start) ==> final(self).spec_scheduler().spec_state() == old(
                self,
            ).spec_scheduler().spec_state(),
    {
        self.flush_scheduler.try_schedule()
    }

    /// Record the outcome of this table's single running flush job; see
    /// [`TableFlushScheduler::on_flush_finished`].
    pub fn finish_flush(&mut self, result: Result<(), String>)
        requires
            old(self).spec_scheduler().spec_state() is Flushing,
        ensures
            final(self).spec_table_id() == old(self).spec_table_id(),
            result is Ok ==> final(self).spec_scheduler().spec_state() == FlushState::Ready,
            result matches Result::Err(e) ==> final(self).spec_scheduler().spec_state() == (
            FlushState::Failed { err_msg: e }),
    {
        self.flush_scheduler.on_flush_finished(result)
    }
}

/// At most one flush job runs per table: a second request made while one
/// flush is running is never admitted, it is told to wait.
///
/// Two requests are admitted only with a completed flush in between.
pub proof fn lemma_at_most_one_flush(
    s0: TableFlushScheduler,
    s1: TableFlushScheduler,
    d0: ScheduleDecision,
    d1: ScheduleDecision,
)
    requires
        // the first request was admitted and moved the scheduler from s0 to s1
        d0 is Start ==> s1.spec_state() == FlushState::Flushing,
        // the second request observes s1 unchanged (no flush finished between)
        d1 is Start <==> s1.spec_state() is Ready,
    ensures
        !(d0 is Start && d1 is Start),
{
}

} // verus!
