//! What a client records of a stream of batches: how long it was in which state, and how much it
//! handed out.
//!
//! Moments are nanoseconds on a clock that the caller reads. Sums wrap around.

use vstd::prelude::*;

verus! {

/// A sum after something was added to it.
pub open spec fn wrapped_sum(sum: u64, more: int) -> u64 {
    ((sum + more) % 0x1_0000_0000_0000_0000) as u64
}

/// The time from one moment to another, and at least one nanosecond.
pub open spec fn elapsed_nanos(start: u64, now: u64) -> u64 {
    if now > start {
        (now - start) as u64
    } else {
        1
    }
}

/// A timer that can be started and stopped.
#[derive(Clone, Copy, Debug, PartialEq, Eq, Structural)]
pub struct StartableTime {
    /// The time between all starts and stops so far.
    pub metrics: u64,
    /// The moment of the last start, while the timer runs.
    pub start: Option<u64>,
}

impl StartableTime {
    /// The timer after it was stopped.
    pub open spec fn stopped(self, now: u64) -> StartableTime {
        match self.start {
            None => self,
            Some(start) => StartableTime {
                metrics: wrapped_sum(self.metrics, elapsed_nanos(start, now) as int),
                start: None,
            },
        }
    }

    /// A timer that has not run yet.
    pub fn new() -> (time: Self)
        ensures
            time == (StartableTime { metrics: 0, start: None }),
    {
        StartableTime { metrics: 0, start: None }
    }

    /// Starts the timer, which must not run.
    pub fn start(&mut self, now: u64)
        requires
            old(self).start is None,
        ensures
            *final(self) == (StartableTime { start: Some(now), ..*old(self) }),
    {
        self.start = Some(now);
    }

    /// Stops the timer, if it runs, and adds the time since its start.
    pub fn stop(&mut self, now: u64)
        ensures
            *final(self) == old(self).stopped(now),
    {
        if let Some(start) = self.start {
            let elapsed: u64 = if now > start {
                now - start
            } else {
                1
            };
            self.metrics = self.metrics.wrapping_add(elapsed);
            self.start = None;
        }
    }
}

/// What a client records of a stream of batches.
#[derive(Clone, Copy, Debug, PartialEq, Eq, Structural)]
pub struct FlightStreamMetrics {
    /// The time spent in polls.
    pub time_processing: StartableTime,
    /// The time from the first poll to the end of the stream.
    pub time_reading_total: StartableTime,
    /// The number of polls of the remote stream.
    pub poll_count: u64,
    /// The number of rows handed out.
    pub output_rows: u64,
    /// The number of bytes handed out.
    pub bytes_decoded: u64,
    /// The time between polls while nothing was ready.
    pub time_pending: StartableTime,
    /// The time spent in mapping schemas.
    pub time_schema_mapping: StartableTime,
    /// The number of polls after which nothing was ready.
    pub pending_count: u64,
    /// The moment since when nothing has been ready.
    pub last_pending_start: Option<u64>,
    /// The time from the connection to the first poll of the remote stream.
    pub get_stream_time: StartableTime,
    /// The time after the first poll of the remote stream.
    pub processing_stream_time: StartableTime,
    /// The time until the connection.
    pub init_stream_time: StartableTime,
    /// The moment of the connection, until the first poll of the remote stream.
    pub last_get_stream: Option<u64>,
    /// The moment of the first poll of the remote stream.
    pub last_processing_stream_time: Option<u64>,
    /// The moment of the first poll, until the connection.
    pub last_init_stream_time: Option<u64>,
}

impl FlightStreamMetrics {
    /// Whether each timer runs exactly while its moment is on record.
    pub open spec fn wf(self) -> bool {
        &&& self.time_pending.start == self.last_pending_start
        &&& self.get_stream_time.start == self.last_get_stream
        &&& self.processing_stream_time.start == self.last_processing_stream_time
        &&& self.init_stream_time.start == self.last_init_stream_time
    }

    /// Nothing recorded yet.
    pub open spec fn initial() -> FlightStreamMetrics {
        let unused = StartableTime { metrics: 0, start: None };
        FlightStreamMetrics {
            time_processing: unused,
            time_reading_total: unused,
            poll_count: 0,
            output_rows: 0,
            bytes_decoded: 0,
            time_pending: unused,
            time_schema_mapping: unused,
            pending_count: 0,
            last_pending_start: None,
            get_stream_time: unused,
            processing_stream_time: unused,
            init_stream_time: unused,
            last_get_stream: None,
            last_processing_stream_time: None,
            last_init_stream_time: None,
        }
    }

    /// Nothing recorded yet.
    pub fn new() -> (metrics: Self)
        ensures
            metrics.wf(),
            metrics == FlightStreamMetrics::initial(),
    {
        FlightStreamMetrics {
            time_processing: StartableTime::new(),
            time_reading_total: StartableTime::new(),
            poll_count: 0,
            output_rows: 0,
            bytes_decoded: 0,
            time_pending: StartableTime::new(),
            time_schema_mapping: StartableTime::new(),
            pending_count: 0,
            last_pending_start: None,
            get_stream_time: StartableTime::new(),
            processing_stream_time: StartableTime::new(),
            init_stream_time: StartableTime::new(),
            last_get_stream: None,
            last_processing_stream_time: None,
            last_init_stream_time: None,
        }
    }

    /// The record after the time from the connection started to count.
    pub open spec fn get_started(self, now: u64) -> FlightStreamMetrics {
        if self.get_stream_time.start is Some {
            self
        } else {
            FlightStreamMetrics {
                get_stream_time: StartableTime { start: Some(now), ..self.get_stream_time },
                last_get_stream: Some(now),
                ..self
            }
        }
    }

    /// The record after the time from the connection stopped to count.
    pub open spec fn get_ended(self, now: u64) -> FlightStreamMetrics {
        if self.last_get_stream is None {
            self
        } else {
            FlightStreamMetrics {
                get_stream_time: self.get_stream_time.stopped(now),
                last_get_stream: None,
                ..self
            }
        }
    }

    /// The record after the time of processing started to count.
    pub open spec fn processing_started(self, now: u64) -> FlightStreamMetrics {
        if self.processing_stream_time.start is Some {
            self
        } else {
            FlightStreamMetrics {
                processing_stream_time: StartableTime {
                    start: Some(now),
                    ..self.processing_stream_time
                },
                last_processing_stream_time: Some(now),
                ..self
            }
        }
    }

    /// The record after the time of processing stopped to count.
    pub open spec fn processing_ended(self, now: u64) -> FlightStreamMetrics {
        if self.last_processing_stream_time is None {
            self
        } else {
            FlightStreamMetrics {
                processing_stream_time: self.processing_stream_time.stopped(now),
                last_processing_stream_time: None,
                ..self
            }
        }
    }

    /// The record after the time until the connection started to count.
    pub open spec fn init_started(self, now: u64) -> FlightStreamMetrics {
        if self.init_stream_time.start is Some {
            self
        } else {
            FlightStreamMetrics {
                init_stream_time: StartableTime { start: Some(now), ..self.init_stream_time },
                last_init_stream_time: Some(now),
                ..self
            }
        }
    }

    /// The record after the time until the connection stopped to count.
    pub open spec fn init_ended(self, now: u64) -> FlightStreamMetrics {
        if self.last_init_stream_time is None {
            self
        } else {
            FlightStreamMetrics {
                init_stream_time: self.init_stream_time.stopped(now),
                last_init_stream_time: None,
                ..self
            }
        }
    }

    /// The record after a poll found nothing ready.
    pub open spec fn pending_started(self, now: u64) -> FlightStreamMetrics {
        let counted = FlightStreamMetrics { pending_count: wrapped_sum(self.pending_count, 1), ..self };
        if self.time_pending.start is Some {
            counted
        } else {
            FlightStreamMetrics {
                time_pending: StartableTime { start: Some(now), ..self.time_pending },
                last_pending_start: Some(now),
                ..counted
            }
        }
    }

    /// The record after something was ready.
    pub open spec fn pending_stopped(self, now: u64) -> FlightStreamMetrics {
        if self.last_pending_start is None {
            self
        } else {
            FlightStreamMetrics {
                time_pending: self.time_pending.stopped(now),
                last_pending_start: None,
                ..self
            }
        }
    }

    /// Starts to count the time from the connection, unless that is counted already.
    pub fn start_get_stream(&mut self, now: u64)
        ensures
            *final(self) == old(self).get_started(now),
            old(self).wf() ==> final(self).wf(),
    {
        if self.get_stream_time.start.is_none() {
            self.get_stream_time.start(now);
            self.last_get_stream = Some(now);
        }
    }

    /// Stops to count the time from the connection, if it is counted.
    pub fn end_get_stream(&mut self, now: u64)
        ensures
            *final(self) == old(self).get_ended(now),
            old(self).wf() ==> final(self).wf(),
    {
        if self.last_get_stream.is_some() {
            self.get_stream_time.stop(now);
            self.last_get_stream = None;
        }
    }

    /// Starts to count the time of processing, unless that is counted already.
    pub fn start_processing_stream_time(&mut self, now: u64)
        ensures
            *final(self) == old(self).processing_started(now),
            old(self).wf() ==> final(self).wf(),
    {
        if self.processing_stream_time.start.is_none() {
            self.processing_stream_time.start(now);
            self.last_processing_stream_time = Some(now);
        }
    }

    /// Stops to count the time of processing, if it is counted.
    pub fn end_processing_stream_time(&mut self, now: u64)
        ensures
            *final(self) == old(self).processing_ended(now),
            old(self).wf() ==> final(self).wf(),
    {
        if self.last_processing_stream_time.is_some() {
            self.processing_stream_time.stop(now);
            self.last_processing_stream_time = None;
        }
    }

    /// Starts to count the time until the connection, unless that is counted already.
    pub fn start_init_stream_time(&mut self, now: u64)
        ensures
            *final(self) == old(self).init_started(now),
            old(self).wf() ==> final(self).wf(),
    {
        if self.init_stream_time.start.is_none() {
            self.init_stream_time.start(now);
            self.last_init_stream_time = Some(now);
        }
    }

    /// Stops to count the time until the connection, if it is counted.
    pub fn end_init_stream_time(&mut self, now: u64)
        ensures
            *final(self) == old(self).init_ended(now),
            old(self).wf() ==> final(self).wf(),
    {
        if self.last_init_stream_time.is_some() {
            self.init_stream_time.stop(now);
            self.last_init_stream_time = None;
        }
    }

    /// Counts a poll that found nothing ready, and starts to count the time until something is,
    /// unless that is counted already.
    pub fn start_pending(&mut self, now: u64)
        ensures
            *final(self) == old(self).pending_started(now),
            old(self).wf() ==> final(self).wf(),
    {
        self.pending_count = self.pending_count.wrapping_add(1);
        if self.time_pending.start.is_none() {
            self.time_pending.start(now);
            self.last_pending_start = Some(now);
        }
    }

    /// Stops to count the time until something is ready, if it is counted.
    pub fn stop_pending(&mut self, now: u64)
        ensures
            *final(self) == old(self).pending_stopped(now),
            old(self).wf() ==> final(self).wf(),
    {
        if self.last_pending_start.is_some() {
            self.time_pending.stop(now);
            self.last_pending_start = None;
        }
    }

    /// What was recorded of the time in which nothing was ready. Some time must have been recorded
    /// of the whole stream.
    pub fn get_pending_stats(&self) -> (stats: PendingStats)
        requires
            self.time_reading_total.metrics > 0,
        ensures
            stats.total_pending_time == self.time_pending.metrics,
            stats.pending_count == self.pending_count,
            stats.pending_ratio == self.time_pending.metrics / self.time_reading_total.metrics,
    {
        PendingStats {
            total_pending_time: self.time_pending.metrics,
            pending_count: self.pending_count,
            pending_ratio: self.time_pending.metrics / self.time_reading_total.metrics,
        }
    }
}

/// What was recorded of the time in which nothing was ready.
#[derive(Clone, Copy, Debug, PartialEq, Eq, Structural)]
pub struct PendingStats {
    /// The time in nanoseconds.
    pub total_pending_time: u64,
    /// The number of polls after which nothing was ready.
    pub pending_count: u64,
    /// How many times the whole time goes into it.
    pub pending_ratio: u64,
}

/// Starting and stopping a timer that does not run adds the time in between, and at least one
/// nanosecond; stopping it again adds nothing.
pub proof fn timer_adds_what_passed(time: StartableTime, start: u64, stop: u64, again: u64)
    requires
        time.start is None,
        start < stop,
        time.metrics + (stop - start) <= u64::MAX,
    ensures
        ({
            let stopped = (StartableTime { start: Some(start), ..time }).stopped(stop);
            &&& stopped.metrics == time.metrics + (stop - start)
            &&& stopped.start is None
            &&& stopped.stopped(again) == stopped
        }),
{
}

/// Stopping a timer adds the time since its start, at least one nanosecond even where the clock stood
/// still or went back, and wraps around; a timer that does not run stays as it is.
pub proof fn stopping_adds_elapsed_time(time: StartableTime, now: u64)
    ensures
        time.start is None ==> time.stopped(now) == time,
        time.start is Some ==> {
            let start = time.start->0;
            let elapsed = if now > start {
                now - start
            } else {
                1
            };
            &&& time.stopped(now).start is None
            &&& elapsed >= 1
            &&& time.metrics + elapsed <= u64::MAX ==> time.stopped(now).metrics == time.metrics
                + elapsed
            &&& time.metrics + elapsed > u64::MAX ==> time.stopped(now).metrics == time.metrics
                + elapsed - u64::MAX - 1
        },
{
}

/// A sum that wraps around is the sum, less two to the power of 64 where it is too large.
pub proof fn sums_wrap_around(sum: u64, more: u64)
    ensures
        sum + more <= u64::MAX ==> wrapped_sum(sum, more as int) == sum + more,
        sum + more > u64::MAX ==> wrapped_sum(sum, more as int) == sum + more - u64::MAX - 1,
{
}

/// Of the whole record, starting to count the time from the connection sets its timer going at that moment, unless it
/// runs already; stopping it adds the time since then. Nothing else is touched, and starting a
/// second time, or stopping one, changes nothing.
pub proof fn get_timer_is_on_its_own(record: FlightStreamMetrics, now: u64, later: u64)
    requires
        record.wf(),
    ensures
        record.get_stream_time.start is None ==> record.get_started(now) == (FlightStreamMetrics {
            get_stream_time: StartableTime { metrics: record.get_stream_time.metrics, start: Some(now) },
            last_get_stream: Some(now),
            ..record
        }),
        record.get_stream_time.start is Some ==> record.get_started(now) == record,
        record.get_started(now).get_started(later) == record.get_started(now),
        record.get_stream_time.start is None ==> record.get_ended(now) == record,
        record.get_stream_time.start is Some ==> record.get_ended(now) == (FlightStreamMetrics {
            get_stream_time: record.get_stream_time.stopped(now),
            last_get_stream: None,
            ..record
        }),
        record.get_ended(now).get_ended(later) == record.get_ended(now),
        record.get_stream_time.start is None && now < later && record.get_stream_time.metrics + (later - now)
            <= u64::MAX ==> record.get_started(now).get_ended(later) == (FlightStreamMetrics {
            get_stream_time: StartableTime {
                metrics: (record.get_stream_time.metrics + (later - now)) as u64,
                start: None,
            },
            last_get_stream: None,
            ..record
        }),
{
}

/// Of the whole record, starting to count the time of processing sets its timer going at that moment, unless it
/// runs already; stopping it adds the time since then. Nothing else is touched, and starting a
/// second time, or stopping one, changes nothing.
pub proof fn processing_timer_is_on_its_own(record: FlightStreamMetrics, now: u64, later: u64)
    requires
        record.wf(),
    ensures
        record.processing_stream_time.start is None ==> record.processing_started(now) == (FlightStreamMetrics {
            processing_stream_time: StartableTime { metrics: record.processing_stream_time.metrics, start: Some(now) },
            last_processing_stream_time: Some(now),
            ..record
        }),
        record.processing_stream_time.start is Some ==> record.processing_started(now) == record,
        record.processing_started(now).processing_started(later) == record.processing_started(now),
        record.processing_stream_time.start is None ==> record.processing_ended(now) == record,
        record.processing_stream_time.start is Some ==> record.processing_ended(now) == (FlightStreamMetrics {
            processing_stream_time: record.processing_stream_time.stopped(now),
            last_processing_stream_time: None,
            ..record
        }),
        record.processing_ended(now).processing_ended(later) == record.processing_ended(now),
        record.processing_stream_time.start is None && now < later && record.processing_stream_time.metrics + (later - now)
            <= u64::MAX ==> record.processing_started(now).processing_ended(later) == (FlightStreamMetrics {
            processing_stream_time: StartableTime {
                metrics: (record.processing_stream_time.metrics + (later - now)) as u64,
                start: None,
            },
            last_processing_stream_time: None,
            ..record
        }),
{
}

/// Of the whole record, starting to count the time until the connection sets its timer going at that moment, unless it
/// runs already; stopping it adds the time since then. Nothing else is touched, and starting a
/// second time, or stopping one, changes nothing.
pub proof fn init_timer_is_on_its_own(record: FlightStreamMetrics, now: u64, later: u64)
    requires
        record.wf(),
    ensures
        record.init_stream_time.start is None ==> record.init_started(now) == (FlightStreamMetrics {
            init_stream_time: StartableTime { metrics: record.init_stream_time.metrics, start: Some(now) },
            last_init_stream_time: Some(now),
            ..record
        }),
        record.init_stream_time.start is Some ==> record.init_started(now) == record,
        record.init_started(now).init_started(later) == record.init_started(now),
        record.init_stream_time.start is None ==> record.init_ended(now) == record,
        record.init_stream_time.start is Some ==> record.init_ended(now) == (FlightStreamMetrics {
            init_stream_time: record.init_stream_time.stopped(now),
            last_init_stream_time: None,
            ..record
        }),
        record.init_ended(now).init_ended(later) == record.init_ended(now),
        record.init_stream_time.start is None && now < later && record.init_stream_time.metrics + (later - now)
            <= u64::MAX ==> record.init_started(now).init_ended(later) == (FlightStreamMetrics {
            init_stream_time: StartableTime {
                metrics: (record.init_stream_time.metrics + (later - now)) as u64,
                start: None,
            },
            last_init_stream_time: None,
            ..record
        }),
{
}

/// Each poll that finds nothing ready is counted, the time until something is ready is counted from
/// the first of them on, and nothing else is touched.
pub proof fn pending_time_counts_from_the_first_poll(
    record: FlightStreamMetrics,
    now: u64,
    later: u64,
)
    requires
        record.wf(),
    ensures
        record.pending_count < u64::MAX ==> record.pending_started(now).pending_count
            == record.pending_count + 1,
        record.time_pending.start is None ==> record.pending_started(now) == (FlightStreamMetrics {
            pending_count: record.pending_started(now).pending_count,
            time_pending: StartableTime { metrics: record.time_pending.metrics, start: Some(now) },
            last_pending_start: Some(now),
            ..record
        }),
        record.time_pending.start is Some ==> record.pending_started(now) == (FlightStreamMetrics {
            pending_count: record.pending_started(now).pending_count,
            ..record
        }),
        record.time_pending.start is None ==> record.pending_stopped(now) == record,
        record.time_pending.start is Some ==> record.pending_stopped(now) == (FlightStreamMetrics {
            time_pending: record.time_pending.stopped(now),
            last_pending_start: None,
            ..record
        }),
        record.time_pending.start is None && now < later && record.time_pending.metrics + (later
            - now) <= u64::MAX ==> record.pending_started(now).pending_stopped(later).time_pending
            == (StartableTime {
            metrics: (record.time_pending.metrics + (later - now)) as u64,
            start: None,
        }),
{
}

/// A new record has counted nothing, and none of its timers runs.
pub proof fn new_records_are_empty()
    ensures
        ({
            let record = FlightStreamMetrics::initial();
            let unused = StartableTime { metrics: 0, start: None };
            &&& record.wf()
            &&& record.poll_count == 0 && record.output_rows == 0 && record.bytes_decoded == 0
            &&& record.pending_count == 0
            &&& record.time_processing == unused && record.time_reading_total == unused
            &&& record.time_pending == unused && record.time_schema_mapping == unused
            &&& record.get_stream_time == unused && record.processing_stream_time == unused
            &&& record.init_stream_time == unused
        }),
{
}

} // verus!
