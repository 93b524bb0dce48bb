//! A record of the accesses to the cache.

use crate::ids::CacheEntryID;
use arrow::array::RecordBatch;
use arrow::error::ArrowError;
use std::time::SystemTime;
use std::time::SystemTimeError;
use vstd::prelude::*;

verus! {

/// A point in time of the system clock.
#[verifier::external_type_specification]
#[verifier::external_body]
pub struct ExSystemTime(SystemTime);

/// The error of a point in time that lies before another.
#[verifier::external_type_specification]
#[verifier::external_body]
pub struct ExSystemTimeError(SystemTimeError);

/// A table of columns of the crate `arrow`.
#[verifier::external_body]
pub struct ArrowTable {
    /// The table.
    pub inner: RecordBatch,
}

/// The names and values of the columns of a table in which all values are unsigned 64-bit integers
/// and none is null.
pub uninterp spec fn batch_columns(table: ArrowTable) -> Seq<(Seq<char>, Seq<u64>)>;

/// `SystemTime::now` reads the system clock. Nothing is known of what it shows.
pub assume_specification[ SystemTime::now ]() -> (now: SystemTime)
;

/// `SystemTime::duration_since`, with the Unix epoch, is the time since then. Nothing is known of
/// it, as nothing is known of the clock.
#[verifier::external_body]
fn since_epoch(time: &SystemTime) -> (elapsed: Result<std::time::Duration, SystemTimeError>) {
    time.duration_since(std::time::UNIX_EPOCH)
}

/// `Duration::as_nanos` is the span of time in nanoseconds. Nothing is known of it, as nothing is
/// known of the span.
pub assume_specification[ std::time::Duration::as_nanos ](span: &std::time::Duration) -> (nanos: u128)
;

/// `RecordBatch::try_new`, with columns of unsigned 64-bit integers, none of them null, holds these
/// columns under their names. It fails where the columns differ in length or there is none.
#[verifier::external_body]
fn table_of_columns(names: Vec<String>, columns: Vec<Vec<u64>>) -> (batch: Result<
    ArrowTable,
    ArrowError,
>)
    requires
        names@.len() == columns@.len(),
        names@.len() > 0,
        forall|i: int| 0 <= i < columns@.len() ==> (#[trigger] columns@[i])@.len() == columns@[0]@.len(),
    ensures
        batch is Ok,
        batch_columns(batch->Ok_0) == Seq::new(
            names@.len(),
            |i: int| (names@[i]@, columns@[i]@),
        ),
{
    let fields: Vec<arrow::datatypes::Field> = names.into_iter()
        .map(|name| arrow::datatypes::Field::new(name, arrow::datatypes::DataType::UInt64, false))
        .collect();
    let arrays: Vec<arrow::array::ArrayRef> = columns.into_iter()
        .map(|c| std::sync::Arc::new(arrow::array::UInt64Array::from(c)) as arrow::array::ArrayRef)
        .collect();
    RecordBatch::try_new(std::sync::Arc::new(arrow::datatypes::Schema::new(fields)), arrays)
        .map(|inner| ArrowTable { inner })
}

/// One access to the cache.
#[derive(Clone, Copy, Debug, PartialEq, Eq, Structural)]
pub struct TraceEvent {
    /// The entry that was asked for.
    pub entry_id: CacheEntryID,
    /// The memory that the cache held at that moment.
    pub cache_memory_bytes: usize,
    /// The moment, in nanoseconds since the Unix epoch.
    pub time_stamp_nanos: u128,
}

/// Records accesses to the cache while it is enabled.
pub struct CacheTracer {
    enabled: bool,
    entries: Vec<TraceEvent>,
}

/// One column of a table of events.
pub open spec fn event_column(events: Seq<TraceEvent>, f: spec_fn(TraceEvent) -> u64) -> Seq<u64> {
    events.map_values(f)
}

/// The table of events: one row for each, with time stamps cut to 64 bits.
pub open spec fn event_table(events: Seq<TraceEvent>) -> Seq<(Seq<char>, Seq<u64>)> {
    seq![
        ("file_id"@, event_column(events, |e: TraceEvent| e.entry_id.file_id as u64)),
        ("row_group_id"@, event_column(events, |e: TraceEvent| e.entry_id.rg_id as u64)),
        ("column_id"@, event_column(events, |e: TraceEvent| e.entry_id.row_id as u64)),
        ("batch_id"@, event_column(events, |e: TraceEvent| e.entry_id.batch_id.v as u64)),
        ("cache_memory_bytes"@, event_column(events, |e: TraceEvent| e.cache_memory_bytes as u64)),
        ("time_stamp_nanos"@, event_column(events, |e: TraceEvent| e.time_stamp_nanos as u64)),
    ]
}

impl CacheTracer {
    /// Whether accesses are recorded.
    pub closed spec fn is_enabled(&self) -> bool {
        self.enabled
    }

    /// The accesses recorded since the last flush.
    pub closed spec fn events(&self) -> Seq<TraceEvent> {
        self.entries@
    }

    /// A tracer that is not enabled and has recorded nothing.
    pub fn new() -> (tracer: Self)
        ensures
            !tracer.is_enabled(),
            tracer.events() == Seq::<TraceEvent>::empty(),
    {
        CacheTracer { enabled: false, entries: Vec::new() }
    }

    /// Starts recording.
    pub fn enable(&mut self)
        ensures
            final(self).is_enabled(),
            final(self).events() == old(self).events(),
    {
        self.enabled = true;
    }

    /// Stops recording.
    pub fn disable(&mut self)
        ensures
            !final(self).is_enabled(),
            final(self).events() == old(self).events(),
    {
        self.enabled = false;
    }

    /// Whether accesses are recorded.
    pub fn enabled(&self) -> (enabled: bool)
        ensures
            enabled == self.is_enabled(),
    {
        self.enabled
    }

    /// The accesses recorded since the last flush.
    pub fn entries(&self) -> (entries: &Vec<TraceEvent>)
        ensures
            entries@ == self.events(),
    {
        &self.entries
    }

    /// Records an access at a given moment, if the tracer is enabled.
    pub fn record(
        &mut self,
        entry_id: CacheEntryID,
        cache_memory_bytes: usize,
        time_stamp_nanos: u128,
    )
        ensures
            final(self).is_enabled() == old(self).is_enabled(),
            final(self).events() == if old(self).is_enabled() {
                old(self).events().push(
                    TraceEvent { entry_id, cache_memory_bytes, time_stamp_nanos },
                )
            } else {
                old(self).events()
            },
    {
        if !self.enabled() {
            return ;
        }
        self.entries.push(TraceEvent { entry_id, cache_memory_bytes, time_stamp_nanos });
    }

    /// Records an access at the present moment, if the tracer is enabled. A time before the Unix
    /// epoch counts as the epoch.
    pub fn trace_get(&mut self, entry_id: CacheEntryID, cache_memory_bytes: usize)
        ensures
            final(self).is_enabled() == old(self).is_enabled(),
            !old(self).is_enabled() ==> final(self).events() == old(self).events(),
            old(self).is_enabled() ==> exists|time_stamp_nanos: u128|
                final(self).events() == old(self).events().push(
                    TraceEvent { entry_id, cache_memory_bytes, time_stamp_nanos },
                ),
    {
        if !self.enabled() {
            return ;
        }
        let now = SystemTime::now();
        let time_stamp_nanos: u128 = match since_epoch(&now) {
            Ok(elapsed) => elapsed.as_nanos(),
            Err(_) => 0,
        };
        self.record(entry_id, cache_memory_bytes, time_stamp_nanos);
    }

    /// Hands out the recorded accesses as a table, and forgets them. There is no table where nothing
    /// was recorded.
    pub fn flush(&mut self) -> (batch: Option<ArrowTable>)
        ensures
            final(self).is_enabled() == old(self).is_enabled(),
            final(self).events() == Seq::<TraceEvent>::empty(),
            batch is Some <==> old(self).events().len() > 0,
            batch is Some ==> batch_columns(batch->0) == event_table(old(self).events()),
            batch is Some ==> batch_columns(batch->0).len() == 6 && forall|c: int|
                0 <= c < 6 ==> (#[trigger] batch_columns(batch->0)[c]).1.len()
                    == old(self).events().len(),
    {
        let ghost events = self.entries@;
        if self.entries.len() == 0 {
            assert(events =~= Seq::<TraceEvent>::empty());
            return None;
        }
        let num_rows: usize = self.entries.len();
        let mut file_ids: Vec<u64> = Vec::with_capacity(num_rows);
        let mut row_group_ids: Vec<u64> = Vec::with_capacity(num_rows);
        let mut column_ids: Vec<u64> = Vec::with_capacity(num_rows);
        let mut batch_ids: Vec<u64> = Vec::with_capacity(num_rows);
        let mut cache_memory_bytes: Vec<u64> = Vec::with_capacity(num_rows);
        let mut time_stamps: Vec<u64> = Vec::with_capacity(num_rows);
        let mut i: usize = 0;
        while i < num_rows
            invariant
                i <= num_rows,
                num_rows == self.entries@.len(),
                file_ids@.len() == i,
                row_group_ids@.len() == i,
                column_ids@.len() == i,
                batch_ids@.len() == i,
                cache_memory_bytes@.len() == i,
                time_stamps@.len() == i,
                forall|j: int|
                    #![trigger self.entries@[j]]
                    0 <= j < i ==> {
                        let e = self.entries@[j];
                        &&& file_ids@[j] == e.entry_id.file_id
                        &&& row_group_ids@[j] == e.entry_id.rg_id
                        &&& column_ids@[j] == e.entry_id.row_id
                        &&& batch_ids@[j] == e.entry_id.batch_id.v
                        &&& cache_memory_bytes@[j] == e.cache_memory_bytes as u64
                        &&& time_stamps@[j] == e.time_stamp_nanos as u64
                    },
            decreases num_rows - i,
        {
            let event: TraceEvent = self.entries[i];
            file_ids.push(event.entry_id.file_id_inner());
            row_group_ids.push(event.entry_id.row_group_id_inner());
            column_ids.push(event.entry_id.column_id_inner());
            batch_ids.push(event.entry_id.batch_id_inner());
            cache_memory_bytes.push(event.cache_memory_bytes as u64);
            #[verifier::truncate]
            let stamp: u64 = event.time_stamp_nanos as u64;
            time_stamps.push(stamp);
            i += 1;
        }
        let mut names: Vec<String> = Vec::new();
        names.push("file_id".to_owned());
        names.push("row_group_id".to_owned());
        names.push("column_id".to_owned());
        names.push("batch_id".to_owned());
        names.push("cache_memory_bytes".to_owned());
        names.push("time_stamp_nanos".to_owned());
        let mut columns: Vec<Vec<u64>> = Vec::new();
        columns.push(file_ids);
        columns.push(row_group_ids);
        columns.push(column_ids);
        columns.push(batch_ids);
        columns.push(cache_memory_bytes);
        columns.push(time_stamps);
        proof {
            assert(forall|j: int|
                0 <= j < events.len() ==> (#[trigger] self.entries@[j]) == events[j]);
            let t = event_table(events);
            assert(file_ids@ =~= t[0].1);
            assert(row_group_ids@ =~= t[1].1);
            assert(column_ids@ =~= t[2].1);
            assert(batch_ids@ =~= t[3].1);
            assert(cache_memory_bytes@ =~= t[4].1);
            assert(time_stamps@ =~= t[5].1);
            assert(Seq::new(names@.len(), |i: int| (names@[i]@, columns@[i]@)) =~= t);
        }
        let batch = table_of_columns(names, columns).unwrap();
        self.entries.clear();
        assert(self.entries@ =~= Seq::<TraceEvent>::empty());
        Some(batch)
    }
}

/// The table of all events is the tables of the first events and of the later ones put together, so
/// that flushing twice loses and repeats nothing.
pub proof fn tables_join(first: Seq<TraceEvent>, later: Seq<TraceEvent>, i: int)
    requires
        0 <= i < 6,
    ensures
        event_table(first + later)[i].0 == event_table(first)[i].0,
        event_table(first + later)[i].1 == event_table(first)[i].1 + event_table(later)[i].1,
{
    assert(event_table(first + later)[i].1 =~= event_table(first)[i].1 + event_table(later)[i].1);
}

/// Each recorded access is one row of the table, in order, with its file, row group, column and
/// batch, the memory in use and the lowest 64 bits of the moment, each in the column of that name.
pub proof fn each_event_is_a_row(events: Seq<TraceEvent>, i: int)
    requires
        0 <= i < events.len(),
    ensures
        ({
            let table = event_table(events);
            let event = events[i];
            &&& table.len() == 6
            &&& forall|c: int| 0 <= c < 6 ==> (#[trigger] table[c]).1.len() == events.len()
            &&& table[0].0 == "file_id"@ && table[0].1[i] == event.entry_id.file_id
            &&& table[1].0 == "row_group_id"@ && table[1].1[i] == event.entry_id.rg_id
            &&& table[2].0 == "column_id"@ && table[2].1[i] == event.entry_id.row_id
            &&& table[3].0 == "batch_id"@ && table[3].1[i] == event.entry_id.batch_id.v
            &&& table[4].0 == "cache_memory_bytes"@ && table[4].1[i] == event.cache_memory_bytes
            &&& table[5].0 == "time_stamp_nanos"@ && table[5].1[i] == event.time_stamp_nanos
                % 0x1_0000_0000_0000_0000
        }),
{
    let stamp = events[i].time_stamp_nanos;
    assert(stamp as u64 == stamp % 0x1_0000_0000_0000_0000) by (bit_vector);
}

} // verus!
