//! One cached column: where its batches lie, how they get there, and how predicates are evaluated
//! on them.

use crate::arrays::array_slots;
use crate::arrays::array_type;
use crate::arrays::can_be_filtered;
use crate::arrays::select_rows;
use crate::arrays::selected;
use crate::arrays::selected_len;
use crate::arrays::selecting_all_gives_all;
use crate::arrays::try_select_rows;
use crate::arrays::ArrowArray;
use crate::bits::array_bits;
use crate::bits::array_validity;
use crate::bits::array_values;
use crate::bits::buffer_bits;
use crate::bits::count_true;
use crate::bits::positions;
use crate::ids::BatchID;
use crate::ids::CacheConfig;
use crate::ids::CacheEntryID;
use crate::ids::CachePath;
use crate::ids::column_components;
use crate::ids::ColumnAccessPath;
use crate::modes::LiquidCacheMode;
use crate::reader::nulls_as_false;
use crate::reader::rows_where_true;
use crate::reader::AblationStudyMode;
use crate::schema::Field;
use arrow::array::BooleanArray;
use arrow::buffer::BooleanBuffer;
use std::sync::Arc;
use vstd::prelude::*;

verus! {

/// In which form, and where, the cache holds a batch.
#[derive(Clone, Copy, Debug, PartialEq, Eq, Structural)]
pub enum CachedBatch {
    /// An Arrow array in memory.
    MemoryArrow,
    /// A liquid array in memory.
    MemoryLiquid,
    /// A liquid array on disk.
    DiskLiquid,
    /// An Arrow array on disk.
    DiskArrow,
}

impl CachedBatch {
    /// Whether the batch is in memory.
    pub open spec fn in_memory(self) -> bool {
        self == CachedBatch::MemoryArrow || self == CachedBatch::MemoryLiquid
    }

    /// Whether the batch is a liquid array.
    pub open spec fn is_liquid(self) -> bool {
        self == CachedBatch::MemoryLiquid || self == CachedBatch::DiskLiquid
    }

    /// The memory that the batch takes, where its array takes `array_bytes`.
    pub fn memory_usage_bytes(&self, array_bytes: usize) -> (bytes: usize)
        ensures
            bytes == if self.in_memory() {
                array_bytes
            } else {
                0
            },
            *self == CachedBatch::MemoryArrow || *self == CachedBatch::MemoryLiquid ==> bytes
                == array_bytes,
            *self == CachedBatch::DiskLiquid || *self == CachedBatch::DiskArrow ==> bytes == 0,
    {
        match self {
            CachedBatch::MemoryArrow => array_bytes,
            CachedBatch::MemoryLiquid => array_bytes,
            CachedBatch::DiskLiquid => 0,
            CachedBatch::DiskArrow => 0,
        }
    }

    /// The number of references to the batch's array, where the array in memory has
    /// `strong_count`.
    pub fn reference_count(&self, strong_count: usize) -> (count: usize)
        ensures
            count == if self.in_memory() {
                strong_count
            } else {
                0
            },
            *self == CachedBatch::MemoryArrow || *self == CachedBatch::MemoryLiquid ==> count
                == strong_count,
            *self == CachedBatch::DiskLiquid || *self == CachedBatch::DiskArrow ==> count == 0,
    {
        match self {
            CachedBatch::MemoryArrow => strong_count,
            CachedBatch::MemoryLiquid => strong_count,
            CachedBatch::DiskLiquid => 0,
            CachedBatch::DiskArrow => 0,
        }
    }

    /// The name of the form.
    pub open spec fn name(self) -> Seq<char> {
        match self {
            CachedBatch::MemoryArrow => "MemoryArrow"@,
            CachedBatch::MemoryLiquid => "MemoryLiquid"@,
            CachedBatch::DiskLiquid => "DiskLiquid"@,
            CachedBatch::DiskArrow => "DiskArrow"@,
        }
    }

    /// The name of the form.
    pub fn to_string(&self) -> (text: String)
        ensures
            text@ == self.name(),
    {
        let name: &str = match self {
            CachedBatch::MemoryArrow => "MemoryArrow",
            CachedBatch::MemoryLiquid => "MemoryLiquid",
            CachedBatch::DiskLiquid => "DiskLiquid",
            CachedBatch::DiskArrow => "DiskArrow",
        };
        name.to_owned()
    }
}

/// Why an array was not inserted.
#[derive(Clone, Copy, Debug, PartialEq, Eq, Structural)]
pub enum InsertArrowArrayError {
    /// The batch is cached already.
    AlreadyCached,
}

/// How an array is inserted.
#[derive(Clone, Copy, Debug, PartialEq, Eq, Structural)]
pub enum InsertAction {
    /// Store the array as it is.
    StoreArrow,
    /// Store the array as it is, and transcode it in the background.
    StoreArrowAndTranscode,
    /// Transcode the array, and store the outcome.
    TranscodeAndStore,
}

/// Where an array is taken from.
pub enum ArraySource {
    /// From memory.
    Memory,
    /// From the file with this path.
    File(CachePath),
}

impl ArraySource {
    /// The components of the file, where there is one.
    pub open spec fn components(self) -> Option<Seq<Seq<char>>> {
        match self {
            ArraySource::Memory => None,
            ArraySource::File(path) => Some(path@),
        }
    }
}

/// How a predicate is evaluated on the selected rows of an array.
#[derive(Clone, Copy, Debug, PartialEq, Eq, Structural)]
pub enum Evaluation {
    /// Select rows of the Arrow array, and evaluate; nulls count as false.
    OnArrow,
    /// Decode the liquid array, select rows, and evaluate.
    DecodeThenSelect,
    /// Select rows of the liquid array, decode them, and evaluate.
    SelectThenDecode,
    /// Select rows of the liquid array and evaluate on them; where that cannot be done, decode them
    /// first.
    OnEncoded,
}

/// How the selected rows of an array become an Arrow array.
#[derive(Clone, Copy, Debug, PartialEq, Eq, Structural)]
pub enum Retrieval {
    /// Select rows of the Arrow array.
    SelectArrow,
    /// Decode the liquid array, and select rows.
    DecodeThenSelect,
    /// Select rows of the liquid array, and decode them into the Arrow type that suits them best.
    SelectThenDecode,
}

/// How a predicate is evaluated on a batch.
pub struct EvaluationPlan {
    /// Where the array is taken from.
    pub source: ArraySource,
    /// How the predicate is evaluated on it.
    pub evaluation: Evaluation,
}

/// How selected rows of a batch are retrieved.
pub struct RetrievalPlan {
    /// Where the array is taken from.
    pub source: ArraySource,
    /// How its rows become an Arrow array.
    pub retrieval: Retrieval,
}

/// How one disjunct of a predicate is evaluated on a batch.
pub enum DisjunctPlan {
    /// The batch is not cached.
    Missing,
    /// On the selected rows of the liquid array from this place.
    Encoded(ArraySource),
    /// Not on the batch as it is held.
    NotEncoded,
}

/// How a predicate is evaluated on a batch in some form.
pub open spec fn spec_evaluation(cached: CachedBatch, mode: AblationStudyMode) -> Evaluation {
    match cached {
        CachedBatch::MemoryArrow => Evaluation::OnArrow,
        CachedBatch::DiskArrow => Evaluation::OnArrow,
        CachedBatch::DiskLiquid => Evaluation::OnEncoded,
        CachedBatch::MemoryLiquid => match mode {
            AblationStudyMode::FullDecoding => Evaluation::DecodeThenSelect,
            AblationStudyMode::SelectiveDecoding => Evaluation::SelectThenDecode,
            AblationStudyMode::SelectiveWithLateMaterialization => Evaluation::SelectThenDecode,
            AblationStudyMode::EvaluateOnEncodedData => Evaluation::OnEncoded,
            AblationStudyMode::EvaluateOnPartialEncodedData => Evaluation::OnEncoded,
        },
    }
}

/// How the selected rows of a batch in some form become an Arrow array.
pub open spec fn spec_retrieval(cached: CachedBatch, mode: AblationStudyMode) -> Retrieval {
    if !cached.is_liquid() {
        Retrieval::SelectArrow
    } else if cached.in_memory() && mode == AblationStudyMode::FullDecoding {
        Retrieval::DecodeThenSelect
    } else {
        Retrieval::SelectThenDecode
    }
}

/// Whether a predicate is evaluated on an array of all rows, from which the selected ones are still
/// to be taken.
pub open spec fn evaluation_selects(evaluation: Evaluation) -> bool {
    evaluation == Evaluation::OnArrow || evaluation == Evaluation::DecodeThenSelect
}

/// Whether rows are retrieved from an array of all rows, from which the selected ones are still to
/// be taken.
pub open spec fn retrieval_selects(retrieval: Retrieval) -> bool {
    retrieval == Retrieval::SelectArrow || retrieval == Retrieval::DecodeThenSelect
}

/// The selected values of an array at hand, unless it was made from selected rows only.
pub open spec fn rows_at_hand<T>(selects: bool, slots: Seq<T>, selection: Seq<bool>) -> Seq<T> {
    if selects {
        selected(slots, selection)
    } else {
        slots
    }
}

/// The rows for which a predicate is true, from its value on the selected rows.
pub open spec fn evaluation_values(evaluation: Evaluation, mask: BooleanArray) -> Seq<bool> {
    if evaluation == Evaluation::OnArrow {
        nulls_as_false(mask)
    } else {
        array_bits(mask)
    }
}

/// The rows on which a predicate is evaluated, from the array at hand: the selected ones, unless it
/// was made from selected rows only.
pub fn rows_for_evaluation(
    evaluation: Evaluation,
    array: ArrowArray,
    selection: &BooleanBuffer,
) -> (rows: ArrowArray)
    requires
        evaluation_selects(evaluation) ==> {
            &&& buffer_bits(*selection).len() <= array_slots(array).len()
            &&& can_be_filtered(array_type(array), buffer_bits(*selection))
        },
    ensures
        array_type(rows) == array_type(array),
        array_slots(rows) == rows_at_hand(
            evaluation_selects(evaluation),
            array_slots(array),
            buffer_bits(*selection),
        ),
{
    match evaluation {
        Evaluation::OnArrow | Evaluation::DecodeThenSelect => select_rows(&array, selection),
        _ => array,
    }
}

/// The rows on which a predicate is evaluated; nothing where they would have to be selected from an
/// array that is too short or of a type whose rows cannot be selected. See [rows_for_evaluation].
pub fn try_rows_for_evaluation(
    evaluation: Evaluation,
    array: ArrowArray,
    selection: &BooleanBuffer,
) -> (rows: Option<ArrowArray>)
    ensures
        rows is Some <==> (evaluation_selects(evaluation) ==> {
            &&& buffer_bits(*selection).len() <= array_slots(array).len()
            &&& can_be_filtered(array_type(array), buffer_bits(*selection))
        }),
        rows is Some ==> array_type(rows->0) == array_type(array),
        rows is Some ==> array_slots(rows->0) == rows_at_hand(
            evaluation_selects(evaluation),
            array_slots(array),
            buffer_bits(*selection),
        ),
{
    match evaluation {
        Evaluation::OnArrow | Evaluation::DecodeThenSelect => try_select_rows(&array, selection),
        _ => Some(rows_for_evaluation(evaluation, array, selection)),
    }
}

/// The rows that are retrieved, from the array at hand: the selected ones, unless it was made from
/// selected rows only.
pub fn retrieved_rows(
    retrieval: Retrieval,
    array: ArrowArray,
    selection: &BooleanBuffer,
) -> (rows: ArrowArray)
    requires
        retrieval_selects(retrieval) ==> {
            &&& buffer_bits(*selection).len() <= array_slots(array).len()
            &&& can_be_filtered(array_type(array), buffer_bits(*selection))
        },
    ensures
        array_type(rows) == array_type(array),
        array_slots(rows) == rows_at_hand(
            retrieval_selects(retrieval),
            array_slots(array),
            buffer_bits(*selection),
        ),
{
    match retrieval {
        Retrieval::SelectArrow | Retrieval::DecodeThenSelect => select_rows(&array, selection),
        _ => array,
    }
}

/// The rows that are retrieved; nothing where they would have to be selected from an array that is
/// too short or of a type whose rows cannot be selected. See [retrieved_rows].
pub fn try_retrieved_rows(
    retrieval: Retrieval,
    array: ArrowArray,
    selection: &BooleanBuffer,
) -> (rows: Option<ArrowArray>)
    ensures
        rows is Some <==> (retrieval_selects(retrieval) ==> {
            &&& buffer_bits(*selection).len() <= array_slots(array).len()
            &&& can_be_filtered(array_type(array), buffer_bits(*selection))
        }),
        rows is Some ==> array_type(rows->0) == array_type(array),
        rows is Some ==> array_slots(rows->0) == rows_at_hand(
            retrieval_selects(retrieval),
            array_slots(array),
            buffer_bits(*selection),
        ),
{
    match retrieval {
        Retrieval::SelectArrow | Retrieval::DecodeThenSelect => try_select_rows(&array, selection),
        _ => Some(retrieved_rows(retrieval, array, selection)),
    }
}

/// The rows for which a predicate is true, from its value on the selected rows.
pub fn finish_evaluation(evaluation: Evaluation, mask: BooleanArray) -> (buffer: BooleanBuffer)
    ensures
        buffer_bits(buffer) == evaluation_values(evaluation, mask),
        buffer_bits(buffer).len() == array_bits(mask).len(),
        forall|i: int|
            0 <= i < array_bits(mask).len() ==> (#[trigger] buffer_bits(buffer)[i]
                <==> array_bits(mask)[i] && (evaluation != Evaluation::OnArrow || array_validity(
                mask,
            ) is None || array_validity(mask)->0[i])),
{
    match evaluation {
        Evaluation::OnArrow => rows_where_true(mask),
        _ => array_values(mask),
    }
}

/// What comes of evaluating a predicate on encoded rows: its value, or, where it cannot be evaluated
/// on them, the need to decode them.
pub fn encoded_outcome(mask: Option<BooleanArray>) -> (buffer: Option<BooleanBuffer>)
    ensures
        buffer is Some <==> mask is Some,
        buffer is Some ==> buffer_bits(buffer->0) == array_bits(mask->0),
{
    match mask {
        Some(mask) => Some(array_values(mask)),
        None => None,
    }
}

/// One column of one row group of one file.
pub struct LiquidCachedColumn {
    config: Arc<CacheConfig>,
    field: Arc<Field>,
    column_path: ColumnAccessPath,
}

/// A shared column.
pub type LiquidCachedColumnRef = Arc<LiquidCachedColumn>;

impl LiquidCachedColumn {
    /// The configuration of the cache.
    pub closed spec fn spec_config(&self) -> CacheConfig {
        *self.config
    }

    /// The column's name and type, as held in the cache.
    pub closed spec fn spec_field(&self) -> Field {
        *self.field
    }

    /// The column's place in the cache.
    pub closed spec fn path(&self) -> ColumnAccessPath {
        self.column_path
    }

    /// A column, by the numbers of its column, row group and file.
    pub fn new(
        field: Arc<Field>,
        config: Arc<CacheConfig>,
        column_id: u64,
        row_group_id: u64,
        file_id: u64,
    ) -> (column: Self)
        requires
            column_id <= u16::MAX,
            row_group_id <= u16::MAX,
            file_id <= u16::MAX,
        ensures
            column.spec_config() == *config,
            column.spec_field() == *field,
            column.path().file_id == file_id,
            column.path().rg_id == row_group_id,
            column.path().col_id == column_id,
    {
        let column_path = ColumnAccessPath::new(file_id, row_group_id, column_id);
        LiquidCachedColumn { config, field, column_path }
    }

    /// The directory that holds the column's batches.
    pub fn directory(&self) -> (path: CachePath)
        ensures
            path@ == self.spec_config().spec_cache_root_dir() + column_components(
                self.path().file_id,
                self.path().rg_id,
                self.path().col_id,
            ),
    {
        self.column_path.directory(self.config.cache_root_dir())
    }

    /// The column's name and type, as held in the cache.
    pub fn field(&self) -> (field: &Arc<Field>)
        ensures
            **field == self.spec_field(),
    {
        &self.field
    }

    /// The entry of one of the column's batches.
    pub fn entry_id(&self, batch_id: BatchID) -> (id: CacheEntryID)
        ensures
            id == self.path().entry(batch_id),
    {
        self.column_path.entry_id(batch_id)
    }

    /// How arrays are held.
    pub fn cache_mode(&self) -> (mode: &LiquidCacheMode)
        ensures
            *mode == self.spec_config().spec_cache_mode(),
    {
        self.config.cache_mode()
    }

    /// The number of rows in a batch.
    pub fn batch_size(&self) -> (n: usize)
        ensures
            n == self.spec_config().spec_batch_size(),
    {
        self.config.batch_size()
    }

    /// Where the array of a batch in some form is taken from.
    pub open spec fn source(&self, batch_id: BatchID, cached: CachedBatch) -> Option<Seq<Seq<char>>> {
        let root = self.spec_config().spec_cache_root_dir();
        let entry = self.path().entry(batch_id);
        match cached {
            CachedBatch::MemoryArrow => None,
            CachedBatch::MemoryLiquid => None,
            CachedBatch::DiskLiquid => Some(root + entry.disk_components(".liquid"@)),
            CachedBatch::DiskArrow => Some(root + entry.disk_components(".arrow"@)),
        }
    }

    fn array_source(&self, batch_id: BatchID, cached: CachedBatch) -> (source: ArraySource)
        ensures
            source.components() == self.source(batch_id, cached),
    {
        match cached {
            CachedBatch::MemoryArrow | CachedBatch::MemoryLiquid => ArraySource::Memory,
            CachedBatch::DiskLiquid => ArraySource::File(
                self.entry_id(batch_id).on_disk_path(self.config.cache_root_dir()),
            ),
            CachedBatch::DiskArrow => ArraySource::File(
                self.entry_id(batch_id).on_disk_arrow_path(self.config.cache_root_dir()),
            ),
        }
    }

    /// How a predicate is evaluated on a batch that the cache holds in the given form, if it holds
    /// it.
    pub fn eval_selection_with_predicate(
        &self,
        batch_id: BatchID,
        cached: Option<CachedBatch>,
        mode: AblationStudyMode,
    ) -> (plan: Option<EvaluationPlan>)
        ensures
            plan is Some <==> cached is Some,
            plan is Some ==> plan->0.source.components() == self.source(batch_id, cached->0),
            plan is Some ==> plan->0.evaluation == spec_evaluation(cached->0, mode),
    {
        let cached: CachedBatch = match cached {
            Some(cached) => cached,
            None => {
                return None;
            },
        };
        let evaluation: Evaluation = match cached {
            CachedBatch::MemoryArrow | CachedBatch::DiskArrow => Evaluation::OnArrow,
            CachedBatch::DiskLiquid => Evaluation::OnEncoded,
            CachedBatch::MemoryLiquid => match mode {
                AblationStudyMode::FullDecoding => Evaluation::DecodeThenSelect,
                AblationStudyMode::SelectiveDecoding
                | AblationStudyMode::SelectiveWithLateMaterialization => {
                    Evaluation::SelectThenDecode
                },
                AblationStudyMode::EvaluateOnEncodedData
                | AblationStudyMode::EvaluateOnPartialEncodedData => Evaluation::OnEncoded,
            },
        };
        Some(EvaluationPlan { source: self.array_source(batch_id, cached), evaluation })
    }

    /// How the selected rows of a batch that the cache holds in the given form, if it holds it,
    /// become an Arrow array.
    pub fn get_arrow_array_with_filter(
        &self,
        batch_id: BatchID,
        cached: Option<CachedBatch>,
        mode: AblationStudyMode,
    ) -> (plan: Option<RetrievalPlan>)
        ensures
            plan is Some <==> cached is Some,
            plan is Some ==> plan->0.source.components() == self.source(batch_id, cached->0),
            plan is Some ==> plan->0.retrieval == spec_retrieval(cached->0, mode),
    {
        let cached: CachedBatch = match cached {
            Some(cached) => cached,
            None => {
                return None;
            },
        };
        let retrieval: Retrieval = match cached {
            CachedBatch::MemoryArrow | CachedBatch::DiskArrow => Retrieval::SelectArrow,
            CachedBatch::DiskLiquid => Retrieval::SelectThenDecode,
            CachedBatch::MemoryLiquid => match mode {
                AblationStudyMode::FullDecoding => Retrieval::DecodeThenSelect,
                _ => Retrieval::SelectThenDecode,
            },
        };
        Some(RetrievalPlan { source: self.array_source(batch_id, cached), retrieval })
    }

    /// How one disjunct of a predicate is evaluated on a batch that the cache holds in the given
    /// form, if it holds it: on liquid arrays only.
    pub fn disjunct_plan(&self, batch_id: BatchID, cached: Option<CachedBatch>) -> (plan:
        DisjunctPlan)
        ensures
            plan is Missing <==> cached is None,
            plan is Encoded <==> cached is Some && cached->0.is_liquid(),
            plan is Encoded ==> plan->Encoded_0.components() == self.source(batch_id, cached->0),
            plan is Encoded <==> cached == Some(CachedBatch::MemoryLiquid) || cached == Some(
                CachedBatch::DiskLiquid,
            ),
    {
        match cached {
            None => DisjunctPlan::Missing,
            Some(CachedBatch::MemoryLiquid) => DisjunctPlan::Encoded(
                self.array_source(batch_id, CachedBatch::MemoryLiquid),
            ),
            Some(CachedBatch::DiskLiquid) => DisjunctPlan::Encoded(
                self.array_source(batch_id, CachedBatch::DiskLiquid),
            ),
            _ => DisjunctPlan::NotEncoded,
        }
    }

    /// How an array is inserted, where it is known whether the batch is cached already.
    pub fn insert(&self, is_cached: bool) -> (action: Result<InsertAction, InsertArrowArrayError>)
        ensures
            is_cached <==> action is Err,
            is_cached ==> action->Err_0 == InsertArrowArrayError::AlreadyCached,
            !is_cached ==> action->Ok_0 == match self.spec_config().spec_cache_mode() {
                LiquidCacheMode::Arrow => InsertAction::StoreArrow,
                LiquidCacheMode::Liquid { transcode_in_background } => {
                    if transcode_in_background {
                        InsertAction::StoreArrowAndTranscode
                    } else {
                        InsertAction::TranscodeAndStore
                    }
                },
            },
    {
        if is_cached {
            return Err(InsertArrowArrayError::AlreadyCached);
        }
        match self.cache_mode() {
            LiquidCacheMode::Arrow => Ok(InsertAction::StoreArrow),
            LiquidCacheMode::Liquid { transcode_in_background } => {
                if *transcode_in_background {
                    Ok(InsertAction::StoreArrowAndTranscode)
                } else {
                    Ok(InsertAction::TranscodeAndStore)
                }
            },
        }
    }

    /// In which form a batch is stored after an attempt to transcode it in the foreground: as a
    /// liquid array, or, where its type cannot be transcoded, as it is.
    pub fn insert_as_liquid_foreground(transcoded: bool) -> (stored: CachedBatch)
        ensures
            stored == if transcoded {
                CachedBatch::MemoryLiquid
            } else {
                CachedBatch::MemoryArrow
            },
    {
        if transcoded {
            CachedBatch::MemoryLiquid
        } else {
            CachedBatch::MemoryArrow
        }
    }

    /// What replaces a batch after an attempt to transcode it in the background: a liquid array,
    /// or, where its type cannot be transcoded, nothing.
    pub fn transcode_to_liquid(transcoded: bool) -> (stored: Option<CachedBatch>)
        ensures
            stored == if transcoded {
                Some(CachedBatch::MemoryLiquid)
            } else {
                None
            },
    {
        if transcoded {
            Some(CachedBatch::MemoryLiquid)
        } else {
            None
        }
    }
}

/// A batch on disk is read from the file into which an entry of its form is written, and a batch in
/// memory is not read from a file.
pub proof fn source_is_file_of_form(
    column: &LiquidCachedColumn,
    batch_id: BatchID,
    cached: CachedBatch,
)
    ensures
        cached.in_memory() <==> column.source(batch_id, cached) is None,
        !cached.in_memory() ==> column.source(batch_id, cached)->0
            == column.spec_config().spec_cache_root_dir() + column.path().entry(
            batch_id,
        ).disk_components(
            if cached.is_liquid() {
                ".liquid"@
            } else {
                ".arrow"@
            },
        ),
{
}

/// Predicates see the same array, in the same way, whether it is evaluated on or retrieved: what is
/// decoded whole for the one is decoded whole for the other, and Arrow arrays are never decoded.
pub proof fn evaluation_agrees_with_retrieval(cached: CachedBatch, mode: AblationStudyMode)
    ensures
        spec_evaluation(cached, mode) == Evaluation::OnArrow <==> spec_retrieval(cached, mode)
            == Retrieval::SelectArrow,
        spec_evaluation(cached, mode) == Evaluation::DecodeThenSelect <==> spec_retrieval(
            cached,
            mode,
        ) == Retrieval::DecodeThenSelect,
{
}

/// Whether an array at hand is what the form of a batch and the mode ask for: all rows of the batch
/// where the selected ones are still to be taken, and else the selected ones.
pub open spec fn is_at_hand<T>(
    selects: bool,
    at_hand: Seq<T>,
    batch: Seq<T>,
    selection: Seq<bool>,
) -> bool {
    at_hand == if selects {
        batch
    } else {
        selected(batch, selection)
    }
}

/// Whether no value is null, with or without a record of it.
pub open spec fn has_no_null(mask: BooleanArray) -> bool {
    match array_validity(mask) {
        None => true,
        Some(valid) => forall|i: int| 0 <= i < array_bits(mask).len() ==> #[trigger] valid[i],
    }
}

/// In whichever form a batch is held, and whichever mode is in use, a predicate without nulls gives
/// one value for each selected row: whether it holds on that row.
///
/// `at_hand` is the array that the form and the mode ask for, `mask` what the predicate gives on the
/// rows that are evaluated, where it is evaluated row by row.
pub proof fn evaluation_is_the_same_for_all_forms(
    cached: CachedBatch,
    mode: AblationStudyMode,
    batch: Seq<Option<Seq<u8>>>,
    at_hand: Seq<Option<Seq<u8>>>,
    selection: Seq<bool>,
    holds: spec_fn(Option<Seq<u8>>) -> bool,
    mask: BooleanArray,
)
    requires
        selection.len() == batch.len(),
        is_at_hand(
            evaluation_selects(spec_evaluation(cached, mode)),
            at_hand,
            batch,
            selection,
        ),
        has_no_null(mask),
        array_bits(mask) == rows_at_hand(
            evaluation_selects(spec_evaluation(cached, mode)),
            at_hand,
            selection,
        ).map_values(holds),
    ensures
        evaluation_values(spec_evaluation(cached, mode), mask) == selected(
            batch,
            selection,
        ).map_values(holds),
        evaluation_values(spec_evaluation(cached, mode), mask).len() == count_true(selection),
        forall|j: int|
            0 <= j < count_true(selection) ==> #[trigger] evaluation_values(
                spec_evaluation(cached, mode),
                mask,
            )[j] == holds(batch[positions(selection)[j]]),
{
    selected_len(batch, selection);
    assert(nulls_as_false(mask) =~= array_bits(mask));
}

/// In whichever form a batch is held, and whichever mode is in use, the rows that are retrieved are
/// the selected ones; where all are selected, they are all rows of the batch. So a batch whose array
/// is held, or comes back when it is decoded, is read as it was inserted.
pub proof fn retrieval_is_the_same_for_all_forms(
    cached: CachedBatch,
    mode: AblationStudyMode,
    batch: Seq<Option<Seq<u8>>>,
    at_hand: Seq<Option<Seq<u8>>>,
    selection: Seq<bool>,
)
    requires
        selection.len() == batch.len(),
        is_at_hand(retrieval_selects(spec_retrieval(cached, mode)), at_hand, batch, selection),
    ensures
        rows_at_hand(retrieval_selects(spec_retrieval(cached, mode)), at_hand, selection)
            == selected(batch, selection),
        (forall|i: int| 0 <= i < selection.len() ==> selection[i]) ==> rows_at_hand(
            retrieval_selects(spec_retrieval(cached, mode)),
            at_hand,
            selection,
        ) == batch,
{
    if forall|i: int| 0 <= i < selection.len() ==> selection[i] {
        assert(selection =~= Seq::new(batch.len(), |i: int| true));
        selecting_all_gives_all(batch);
    }
}

/// Two of the four forms are in memory and two on disk; two hold Arrow arrays and two liquid ones;
/// and no two are alike in both.
pub proof fn forms_differ_in_place_or_format(a: CachedBatch, b: CachedBatch)
    ensures
        CachedBatch::MemoryArrow.in_memory() && !CachedBatch::MemoryArrow.is_liquid(),
        CachedBatch::MemoryLiquid.in_memory() && CachedBatch::MemoryLiquid.is_liquid(),
        !CachedBatch::DiskLiquid.in_memory() && CachedBatch::DiskLiquid.is_liquid(),
        !CachedBatch::DiskArrow.in_memory() && !CachedBatch::DiskArrow.is_liquid(),
        a.in_memory() == b.in_memory() && a.is_liquid() == b.is_liquid() ==> a == b,
        CachedBatch::MemoryArrow.name() == "MemoryArrow"@,
        CachedBatch::MemoryLiquid.name() == "MemoryLiquid"@,
        CachedBatch::DiskLiquid.name() == "DiskLiquid"@,
        CachedBatch::DiskArrow.name() == "DiskArrow"@,
{
}

/// Arrow arrays are evaluated on and retrieved from as they are, in every mode. Liquid arrays on disk
/// are never decoded whole. Liquid arrays in memory are decoded whole in the least clever mode only,
/// and evaluated on as they are in the two most clever ones only.
pub proof fn how_forms_are_read(cached: CachedBatch, mode: AblationStudyMode)
    ensures
        cached == CachedBatch::MemoryArrow || cached == CachedBatch::DiskArrow ==> spec_evaluation(
            cached,
            mode,
        ) == Evaluation::OnArrow && spec_retrieval(cached, mode) == Retrieval::SelectArrow,
        cached == CachedBatch::DiskLiquid ==> spec_evaluation(cached, mode) == Evaluation::OnEncoded
            && spec_retrieval(cached, mode) == Retrieval::SelectThenDecode,
        cached == CachedBatch::MemoryLiquid ==> {
            &&& mode == AblationStudyMode::FullDecoding ==> spec_evaluation(cached, mode)
                == Evaluation::DecodeThenSelect && spec_retrieval(cached, mode)
                == Retrieval::DecodeThenSelect
            &&& mode == AblationStudyMode::SelectiveDecoding || mode
                == AblationStudyMode::SelectiveWithLateMaterialization ==> spec_evaluation(
                cached,
                mode,
            ) == Evaluation::SelectThenDecode && spec_retrieval(cached, mode)
                == Retrieval::SelectThenDecode
            &&& mode == AblationStudyMode::EvaluateOnEncodedData || mode
                == AblationStudyMode::EvaluateOnPartialEncodedData ==> spec_evaluation(cached, mode)
                == Evaluation::OnEncoded && spec_retrieval(cached, mode)
                == Retrieval::SelectThenDecode
        },
{
}

/// Rows are still to be selected exactly where an array of all rows is at hand: an Arrow array, or a
/// liquid one that was decoded whole.
pub proof fn rows_are_selected_once()
    ensures
        evaluation_selects(Evaluation::OnArrow),
        evaluation_selects(Evaluation::DecodeThenSelect),
        !evaluation_selects(Evaluation::SelectThenDecode),
        !evaluation_selects(Evaluation::OnEncoded),
        retrieval_selects(Retrieval::SelectArrow),
        retrieval_selects(Retrieval::DecodeThenSelect),
        !retrieval_selects(Retrieval::SelectThenDecode),
{
}

/// Where rows are still to be selected, the selected ones of those at hand are taken, each at its
/// place among the selected ones; else all that are at hand.
pub proof fn rows_taken_are_the_selected_ones<T>(at_hand: Seq<T>, selection: Seq<bool>, k: int)
    requires
        selection.len() == at_hand.len(),
    ensures
        rows_at_hand(false, at_hand, selection) == at_hand,
        rows_at_hand(true, at_hand, selection).len() == count_true(selection),
        0 <= k < count_true(selection) ==> {
            let p = positions(selection)[k];
            &&& 0 <= p < at_hand.len()
            &&& selection[p]
            &&& rows_at_hand(true, at_hand, selection)[k] == at_hand[p]
        },
{
    selected_len(at_hand, selection);
    crate::bits::positions_are_those_of_true_values(selection);
    if 0 <= k < count_true(selection) {
        assert(positions(selection).contains(positions(selection)[k]));
    }
}

/// Only on Arrow arrays a null counts as false; elsewhere the value that stands in its place counts.
pub proof fn nulls_count_as_false_on_arrow_arrays(evaluation: Evaluation, mask: BooleanArray, i: int)
    requires
        0 <= i < array_bits(mask).len(),
    ensures
        evaluation_values(evaluation, mask).len() == array_bits(mask).len(),
        evaluation == Evaluation::OnArrow ==> (evaluation_values(evaluation, mask)[i] <==> array_bits(
            mask,
        )[i] && (array_validity(mask) is None || array_validity(mask)->0[i])),
        evaluation != Evaluation::OnArrow ==> evaluation_values(evaluation, mask)[i] == array_bits(
            mask,
        )[i],
{
}

/// Liquid arrays on disk lie in the file of their entry in liquid format, Arrow arrays in the one in
/// Arrow format, and what is in memory in neither.
pub proof fn files_hold_their_format(column: &LiquidCachedColumn, batch_id: BatchID)
    ensures
        column.source(batch_id, CachedBatch::MemoryArrow) is None,
        column.source(batch_id, CachedBatch::MemoryLiquid) is None,
        column.source(batch_id, CachedBatch::DiskLiquid) == Some(
            column.spec_config().spec_cache_root_dir() + column.path().entry(
                batch_id,
            ).disk_components(".liquid"@),
        ),
        column.source(batch_id, CachedBatch::DiskArrow) == Some(
            column.spec_config().spec_cache_root_dir() + column.path().entry(
                batch_id,
            ).disk_components(".arrow"@),
        ),
{
}

/// What is taken from memory has no file, and what is taken from a file has that file's path.
pub proof fn sources_have_their_paths(path: CachePath)
    ensures
        ArraySource::Memory.components() is None,
        ArraySource::File(path).components() == Some(path@),
{
}

} // verus!
