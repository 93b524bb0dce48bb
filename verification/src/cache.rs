//! The cache's files, row groups and columns, and the evaluation of predicates on a row group.

use crate::bits::array_bits;
use crate::bits::array_values;
use crate::bits::boolean_buffer_or;
use crate::bits::buffer_bits;
use crate::bits::or_bits;
use crate::column::LiquidCachedColumn;
use crate::column::LiquidCachedColumnRef;
use crate::ids::CacheConfig;
use crate::ids::CachePath;
use crate::modes::LiquidCacheMode;
use crate::schema::cached_type;
use crate::schema::coerce_from_parquet_to_liquid_type;
use crate::schema::DataType;
use crate::schema::Field;
use crate::text::decimal;
use crate::text::labelled;
use crate::tracer::batch_columns;
use crate::tracer::event_table;
use crate::tracer::ArrowTable;
use crate::tracer::CacheTracer;
use crate::tracer::TraceEvent;
use ahash::AHashMap;
use arrow::array::BooleanArray;
use arrow::buffer::BooleanBuffer;
use std::sync::Arc;
use vstd::arithmetic::power2::pow2;
use vstd::prelude::*;

verus! {

/// The hasher state of the crate `ahash`.
#[verifier::external_type_specification]
#[verifier::external_body]
pub struct ExRandomState(ahash::RandomState);

/// The hash map of the crate `ahash`.
#[verifier::external_type_specification]
#[verifier::external_body]
#[verifier::reject_recursive_types(K)]
#[verifier::reject_recursive_types(V)]
#[verifier::reject_recursive_types(S)]
pub struct ExAHashMap<K, V, S>(AHashMap<K, V, S>);

/// What a hash map holds under numbers.
pub uninterp spec fn number_map(places: AHashMap<u64, usize>) -> Map<u64, usize>;

/// What a hash map holds under texts.
pub uninterp spec fn text_map(places: AHashMap<String, usize>) -> Map<Seq<char>, usize>;

/// `AHashMap::new` is empty.
#[verifier::external_body]
fn new_number_map() -> (places: AHashMap<u64, usize>)
    ensures
        (number_map(places) == Map::<u64, usize>::empty()),
{
    AHashMap::new()
}

/// `get` of the map finds what is held under a key.
#[verifier::external_body]
fn find_number(places: &AHashMap<u64, usize>, key: u64) -> (place: Option<usize>)
    ensures
        place is Some <==> number_map(*places).contains_key(key),
        place is Some ==> place->0 == number_map(*places)[key],
{
    places.get(&key).copied()
}

/// `insert` of the map holds a value under a key, in place of what was held there.
#[verifier::external_body]
fn put_number(places: &mut AHashMap<u64, usize>, key: u64, place: usize)
    ensures
        number_map(*final(places)) == number_map(*old(places)).insert(key, place),
{
    places.insert(key, place);
}

/// See [new_number_map]; here the keys are texts.
#[verifier::external_body]
fn new_text_map() -> (places: AHashMap<String, usize>)
    ensures
        (text_map(places) == Map::<Seq<char>, usize>::empty()),
{
    AHashMap::new()
}

/// See [find_number]; here the keys are texts.
#[verifier::external_body]
fn find_text(places: &AHashMap<String, usize>, key: &String) -> (place: Option<usize>)
    ensures
        place is Some <==> text_map(*places).contains_key(key@),
        place is Some ==> place->0 == text_map(*places)[key@],
{
    places.get(key).copied()
}

/// See [put_number]; here the keys are texts.
#[verifier::external_body]
fn put_text(places: &mut AHashMap<String, usize>, key: String, place: usize)
    ensures
        text_map(*final(places)) == text_map(*old(places)).insert(key@, place),
{
    places.insert(key, place);
}

/// The columns of one row group.
pub struct LiquidCachedRowGroup {
    columns: AHashMap<u64, usize>,
    slots: Vec<Arc<LiquidCachedColumn>>,
    config: Arc<CacheConfig>,
    row_group_id: u64,
    file_id: u64,
}

impl View for LiquidCachedRowGroup {
    type V = Map<u64, LiquidCachedColumn>;

    /// The columns by number.
    closed spec fn view(&self) -> Map<u64, LiquidCachedColumn> {
        Map::new(
            |id: u64| number_map(self.columns).contains_key(id),
            |id: u64| *self.slots@[number_map(self.columns)[id] as int],
        )
    }
}

/// The column as the cache holds it: text views in the type in which text is held.
pub open spec fn held_field(field: Field, mode: LiquidCacheMode) -> Field {
    field.typed(cached_type(field.data_type, mode))
}

impl LiquidCachedRowGroup {
    /// The configuration of the cache.
    pub closed spec fn spec_config(&self) -> CacheConfig {
        *self.config
    }

    /// The number of the row group.
    pub closed spec fn id(&self) -> u64 {
        self.row_group_id
    }

    /// The number of the file.
    pub closed spec fn file(&self) -> u64 {
        self.file_id
    }

    /// Whether the records agree with each other: each column is where its number says.
    pub closed spec fn wf(&self) -> bool {
        forall|id: u64| #[trigger]
            number_map(self.columns).contains_key(id) ==> {
                let place = number_map(self.columns)[id] as int;
                &&& place < self.slots@.len()
                &&& self.slots@[place].spec_config() == *self.config
                &&& self.slots@[place].path().file_id == self.file_id
                &&& self.slots@[place].path().rg_id == self.row_group_id
                &&& self.slots@[place].path().col_id == id
            }
    }

    /// A column lies in its row group, under its number, and has the configuration of the cache.
    pub proof fn columns_are_in_place(&self, id: u64)
        requires
            self.wf(),
            self@.contains_key(id),
        ensures
            self@[id].spec_config() == self.spec_config(),
            self@[id].path().file_id == self.file(),
            self@[id].path().rg_id == self.id(),
            self@[id].path().col_id == id,
    {
    }

    /// A row group without columns.
    pub fn new(config: Arc<CacheConfig>, row_group_id: u64, file_id: u64) -> (group: Self)
        ensures
            group.wf(),
            group@ == Map::<u64, LiquidCachedColumn>::empty(),
            group.spec_config() == *config,
            group.id() == row_group_id,
            group.file() == file_id,
    {
        let group = LiquidCachedRowGroup {
            columns: new_number_map(),
            slots: Vec::new(),
            config,
            row_group_id,
            file_id,
        };
        assert(group@ =~= Map::<u64, LiquidCachedColumn>::empty());
        group
    }

    /// The directory that holds the row group's columns.
    pub fn directory(&self) -> (path: CachePath)
        ensures
            path@ == self.spec_config().spec_cache_root_dir() + seq![
                "file_"@ + decimal(self.file() as nat),
                "rg_"@ + decimal(self.id() as nat),
            ],
    {
        let path = self.config.cache_root_dir().join(labelled("file_", self.file_id)).join(
            labelled("rg_", self.row_group_id),
        );
        assert(path@ =~= self.spec_config().spec_cache_root_dir() + seq![
            "file_"@ + decimal(self.file() as nat),
            "rg_"@ + decimal(self.id() as nat),
        ]);
        path
    }

    /// The column with a number, which is created where there is none. Plain text is never handed
    /// over by a reader. A column that is there must be the same as the one asked for.
    pub fn create_column(&mut self, column_id: u64, field: Arc<Field>) -> (column:
        LiquidCachedColumnRef)
        requires
            old(self).wf(),
            column_id <= u16::MAX,
            old(self).id() <= u16::MAX,
            old(self).file() <= u16::MAX,
            !(field.data_type is Utf8),
            !(field.data_type is LargeUtf8),
            old(self)@.contains_key(column_id) ==> old(self)@[column_id].spec_field() == held_field(
                *field,
                old(self).spec_config().spec_cache_mode(),
            ),
        ensures
            final(self).wf(),
            final(self)@ == old(self)@.insert(column_id, *column),
            old(self)@.contains_key(column_id) ==> *column == old(self)@[column_id],
            column.spec_field() == held_field(*field, old(self).spec_config().spec_cache_mode()),
            column.spec_config() == old(self).spec_config(),
            column.path().file_id == old(self).file(),
            column.path().rg_id == old(self).id(),
            column.path().col_id == column_id,
            final(self).spec_config() == old(self).spec_config(),
            final(self).id() == old(self).id(),
            final(self).file() == old(self).file(),
    {
        let ghost before = self@;
        let field: Arc<Field> = match field.data_type {
            DataType::Utf8View => {
                let mut held: Field = (*field).clone();
                held.data_type =
                coerce_from_parquet_to_liquid_type(&field.data_type, self.config.cache_mode());
                Arc::new(held)
            },
            _ => field,
        };
        match find_number(&self.columns, column_id) {
            Some(place) => {
                let column = self.slots[place].clone();
                assert(self@.insert(column_id, *column) =~= self@);
                column
            },
            None => {
                let column = Arc::new(
                    LiquidCachedColumn::new(
                        field,
                        self.config.clone(),
                        column_id,
                        self.row_group_id,
                        self.file_id,
                    ),
                );
                let place: usize = self.slots.len();
                self.slots.push(column.clone());
                put_number(&mut self.columns, column_id, place);
                assert(self@ =~= before.insert(column_id, *column));
                column
            },
        }
    }

    /// The column with a number, where there is one.
    pub fn get_column(&self, column_id: u64) -> (column: Option<LiquidCachedColumnRef>)
        requires
            self.wf(),
        ensures
            column is Some <==> self@.contains_key(column_id),
            column is Some ==> *column->0 == self@[column_id],
    {
        match find_number(&self.columns, column_id) {
            Some(place) => Some(self.slots[place].clone()),
            None => None,
        }
    }

    /// Which of the given columns there are.
    fn known_columns(&self, column_ids: &Vec<u64>) -> (known: Vec<bool>)
        ensures
            known@.len() == column_ids@.len(),
            forall|i: int|
                0 <= i < known@.len() ==> #[trigger] known@[i] == self@.contains_key(column_ids@[i]),
    {
        let n: usize = column_ids.len();
        let mut known: Vec<bool> = Vec::new();
        let mut i: usize = 0;
        while i < n
            invariant
                i <= n,
                n == column_ids@.len(),
                known@.len() == i,
                forall|j: int|
                    0 <= j < i ==> #[trigger] known@[j] == self@.contains_key(column_ids@[j]),
            decreases n - i,
        {
            known.push(find_number(&self.columns, column_ids[i]).is_some());
            i += 1;
        }
        known
    }

    /// Starts the evaluation of a predicate that reads the given columns. `disjuncts` are the
    /// columns of its disjuncts, where it is a disjunction of predicates on one column each.
    pub fn evaluate_selection_with_predicate(
        &self,
        column_ids: Vec<u64>,
        disjuncts: Option<Vec<u64>>,
    ) -> (evaluation: PredicateEvaluation)
        requires
            column_ids@.len() > 0,
        ensures
            evaluation.wf(),
            evaluation.columns() == column_ids@,
            evaluation.disjunct_columns() == match disjuncts {
                None => Seq::<u64>::empty(),
                Some(ids) => ids@,
            },
            evaluation.knows(self@.dom()),
            evaluation.spec_stage() == if column_ids@.len() == 1 {
                EvaluationStage::Column
            } else if disjuncts is Some && disjuncts->0@.len() > 0 {
                EvaluationStage::Disjuncts
            } else {
                EvaluationStage::Retrieval
            },
            evaluation.done() == 0,
    {
        let disjuncts: Vec<u64> = match disjuncts {
            Some(ids) => ids,
            None => Vec::new(),
        };
        let stage: EvaluationStage = if column_ids.len() == 1 {
            EvaluationStage::Column
        } else if disjuncts.len() > 0 {
            EvaluationStage::Disjuncts
        } else {
            EvaluationStage::Retrieval
        };
        let known_columns = self.known_columns(&column_ids);
        let known_disjuncts = self.known_columns(&disjuncts);
        PredicateEvaluation {
            column_ids,
            known_columns,
            disjuncts,
            known_disjuncts,
            stage,
            next: 0,
            combined: None,
        }
    }
}

/// What is to be done next to evaluate a predicate on a row group.
#[derive(Clone, Copy, Debug, PartialEq, Eq, Structural)]
pub enum EvaluationAction {
    /// Evaluate the predicate on its only column.
    EvaluateColumn {
        /// The column.
        column_id: u64,
    },
    /// Evaluate one disjunct of the predicate on its column, as it is encoded.
    EvaluateDisjunct {
        /// The disjunct.
        disjunct: usize,
        /// Its column.
        column_id: u64,
    },
    /// Retrieve the selected rows of a column as an Arrow array.
    RetrieveColumn {
        /// The column.
        column_id: u64,
    },
    /// Evaluate the predicate on the retrieved columns.
    EvaluateRetrieved,
    /// Give up, since the row group has no such column.
    GiveUp,
}

/// What came of an action.
pub enum EvaluationEvent {
    /// The batch of the column is not in the cache.
    Missing,
    /// The predicate, or the disjunct, has these values on the selected rows.
    Values(BooleanBuffer),
    /// The disjunct cannot be evaluated on the column as it is.
    NotEncoded,
    /// The column has been retrieved.
    Retrieved,
    /// The predicate has these values on the retrieved columns.
    Evaluated(BooleanArray),
}

/// How far the evaluation of a predicate has come.
pub enum EvaluationOutcome {
    /// There is more to do.
    Continue,
    /// The cache does not hold what the predicate reads.
    NotCached,
    /// The values of the predicate on the selected rows.
    Values(BooleanBuffer),
}

/// The way in which a predicate is evaluated.
#[derive(Clone, Copy, Debug, PartialEq, Eq, Structural)]
pub enum EvaluationStage {
    /// On its only column.
    Column,
    /// Disjunct by disjunct, on encoded columns.
    Disjuncts,
    /// On retrieved columns.
    Retrieval,
}

/// The evaluation of a predicate on the selected rows of one batch of a row group.
///
/// A predicate on one column is evaluated on that column. One on several columns that is a
/// disjunction of predicates on one column each is evaluated disjunct by disjunct on the encoded
/// columns, as long as that can be done. Otherwise all columns are retrieved first.
pub struct PredicateEvaluation {
    column_ids: Vec<u64>,
    known_columns: Vec<bool>,
    disjuncts: Vec<u64>,
    known_disjuncts: Vec<bool>,
    stage: EvaluationStage,
    next: usize,
    combined: Option<BooleanBuffer>,
}

impl PredicateEvaluation {
    /// The columns that the predicate reads.
    pub closed spec fn columns(&self) -> Seq<u64> {
        self.column_ids@
    }

    /// The columns of the disjuncts.
    pub closed spec fn disjunct_columns(&self) -> Seq<u64> {
        self.disjuncts@
    }

    /// For each column, whether the row group has it.
    pub closed spec fn column_flags(&self) -> Seq<bool> {
        self.known_columns@
    }

    /// For each disjunct, whether the row group has its column.
    pub closed spec fn disjunct_flags(&self) -> Seq<bool> {
        self.known_disjuncts@
    }

    /// Whether exactly the columns in a set are taken to be there.
    pub open spec fn knows(&self, ids: Set<u64>) -> bool {
        &&& forall|i: int|
            0 <= i < self.columns().len() ==> #[trigger] self.column_flags()[i] == ids.contains(
                self.columns()[i],
            )
        &&& forall|i: int|
            0 <= i < self.disjunct_columns().len() ==> #[trigger] self.disjunct_flags()[i]
                == ids.contains(self.disjunct_columns()[i])
    }

    /// The way in which the predicate is evaluated.
    pub closed spec fn spec_stage(&self) -> EvaluationStage {
        self.stage
    }

    /// The number of disjuncts that have been evaluated, or of columns that have been retrieved.
    pub closed spec fn done(&self) -> nat {
        self.next as nat
    }

    proof fn lemma_done_fits(&self)
        ensures
            self.done() <= usize::MAX,
    {
    }

    /// The disjunction of the values so far.
    pub closed spec fn spec_combined(&self) -> Option<Seq<bool>> {
        match self.combined {
            None => None,
            Some(buffer) => Some(buffer_bits(buffer)),
        }
    }

    /// Whether the records agree with each other.
    pub open spec fn wf(&self) -> bool {
        &&& self.columns().len() > 0
        &&& self.column_flags().len() == self.columns().len()
        &&& self.disjunct_flags().len() == self.disjunct_columns().len()
        &&& self.spec_stage() == EvaluationStage::Column ==> self.columns().len() == 1
            && self.done() == 0
        &&& self.spec_stage() == EvaluationStage::Disjuncts ==> self.done()
            < self.disjunct_columns().len()
        &&& self.spec_stage() == EvaluationStage::Retrieval ==> self.done() <= self.columns().len()
        &&& self.spec_combined() is Some <==> self.spec_stage() == EvaluationStage::Disjuncts
            && self.done() > 0
    }

    /// The action that comes next.
    pub open spec fn spec_next_action(&self) -> EvaluationAction {
        let k = self.done() as int;
        match self.spec_stage() {
            EvaluationStage::Column => if self.column_flags()[0] {
                EvaluationAction::EvaluateColumn { column_id: self.columns()[0] }
            } else {
                EvaluationAction::GiveUp
            },
            EvaluationStage::Disjuncts => if self.disjunct_flags()[k] {
                EvaluationAction::EvaluateDisjunct {
                    disjunct: k as usize,
                    column_id: self.disjunct_columns()[k],
                }
            } else {
                EvaluationAction::GiveUp
            },
            EvaluationStage::Retrieval => if k >= self.columns().len() {
                EvaluationAction::EvaluateRetrieved
            } else if self.column_flags()[k] {
                EvaluationAction::RetrieveColumn { column_id: self.columns()[k] }
            } else {
                EvaluationAction::GiveUp
            },
        }
    }

    /// What is to be done next.
    pub fn next_action(&self) -> (action: EvaluationAction)
        requires
            self.wf(),
        ensures
            action == self.spec_next_action(),
            // The predicate on its only column.
            self.spec_stage() == EvaluationStage::Column && self.column_flags()[0] ==> action
                == (EvaluationAction::EvaluateColumn { column_id: self.columns()[0] }),
            // The first disjunct that has not been evaluated, on the column it came with.
            self.spec_stage() == EvaluationStage::Disjuncts && self.disjunct_flags()[self.done() as int]
                ==> action is EvaluateDisjunct && action->disjunct == self.done()
                && action->EvaluateDisjunct_column_id == self.disjunct_columns()[self.done() as int],
            // The first column that has not been retrieved.
            self.spec_stage() == EvaluationStage::Retrieval && self.done() < self.columns().len()
                && self.column_flags()[self.done() as int] ==> action
                == (EvaluationAction::RetrieveColumn {
                column_id: self.columns()[self.done() as int],
            }),
            action is EvaluateRetrieved <==> self.spec_stage() == EvaluationStage::Retrieval
                && self.done() == self.columns().len(),
            // It is given up exactly where the column that would be looked at is not there.
            action is GiveUp <==> match self.spec_stage() {
                EvaluationStage::Column => !self.column_flags()[0],
                EvaluationStage::Disjuncts => !self.disjunct_flags()[self.done() as int],
                EvaluationStage::Retrieval => self.done() < self.columns().len()
                    && !self.column_flags()[self.done() as int],
            },
    {
        match self.stage {
            EvaluationStage::Column => if self.known_columns[0] {
                EvaluationAction::EvaluateColumn { column_id: self.column_ids[0] }
            } else {
                EvaluationAction::GiveUp
            },
            EvaluationStage::Disjuncts => if self.known_disjuncts[self.next] {
                EvaluationAction::EvaluateDisjunct {
                    disjunct: self.next,
                    column_id: self.disjuncts[self.next],
                }
            } else {
                EvaluationAction::GiveUp
            },
            EvaluationStage::Retrieval => if self.next >= self.column_ids.len() {
                EvaluationAction::EvaluateRetrieved
            } else if self.known_columns[self.next] {
                EvaluationAction::RetrieveColumn { column_id: self.column_ids[self.next] }
            } else {
                EvaluationAction::GiveUp
            },
        }
    }

    /// Whether an event can come of the next action. The values of all disjuncts are of one length.
    pub open spec fn expects(&self, event: EvaluationEvent) -> bool {
        &&& !(self.spec_next_action() is GiveUp)
        &&& match event {
            EvaluationEvent::Missing => !(self.spec_next_action() is EvaluateRetrieved),
            EvaluationEvent::Values(buffer) => match self.spec_stage() {
                EvaluationStage::Column => true,
                EvaluationStage::Disjuncts => self.spec_combined() is Some ==> buffer_bits(
                    buffer,
                ).len() == self.spec_combined()->0.len(),
                EvaluationStage::Retrieval => false,
            },
            EvaluationEvent::NotEncoded => self.spec_stage() == EvaluationStage::Disjuncts,
            EvaluationEvent::Retrieved => self.spec_next_action() is RetrieveColumn,
            EvaluationEvent::Evaluated(_) => self.spec_next_action() is EvaluateRetrieved,
        }
    }

    /// The disjunction of the values so far with those of one more disjunct.
    pub open spec fn with_values(&self, values: Seq<bool>) -> Seq<bool> {
        match self.spec_combined() {
            None => values,
            Some(combined) => or_bits(combined, values),
        }
    }

    /// The number of actions that are left at most.
    pub open spec fn left(&self) -> int {
        match self.spec_stage() {
            EvaluationStage::Column => 1,
            EvaluationStage::Disjuncts => self.disjunct_columns().len() - self.done()
                + self.columns().len() + 1,
            EvaluationStage::Retrieval => self.columns().len() - self.done() + 1,
        }
    }

    /// What an event leads to.
    pub open spec fn leads_to(
        &self,
        event: EvaluationEvent,
        outcome: EvaluationOutcome,
        after: &PredicateEvaluation,
    ) -> bool {
        &&& after.columns() == self.columns()
        &&& after.disjunct_columns() == self.disjunct_columns()
        &&& after.column_flags() == self.column_flags()
        &&& after.disjunct_flags() == self.disjunct_flags()
        &&& outcome is Continue ==> after.wf() && 0 < after.left() < self.left()
        &&& match event {
            EvaluationEvent::Missing => outcome is NotCached,
            EvaluationEvent::Values(buffer) => if self.spec_stage() == EvaluationStage::Column {
                outcome is Values && buffer_bits(outcome->Values_0) == buffer_bits(buffer)
            } else if self.done() + 1 == self.disjunct_columns().len() {
                outcome is Values && buffer_bits(outcome->Values_0) == self.with_values(
                    buffer_bits(buffer),
                )
            } else {
                &&& outcome is Continue
                &&& after.spec_stage() == EvaluationStage::Disjuncts
                &&& after.done() == self.done() + 1
                &&& after.spec_combined() == Some(self.with_values(buffer_bits(buffer)))
            },
            EvaluationEvent::NotEncoded => {
                &&& outcome is Continue
                &&& after.spec_stage() == EvaluationStage::Retrieval
                &&& after.done() == 0
            },
            EvaluationEvent::Retrieved => {
                &&& outcome is Continue
                &&& after.spec_stage() == EvaluationStage::Retrieval
                &&& after.done() == self.done() + 1
            },
            EvaluationEvent::Evaluated(mask) => outcome is Values && buffer_bits(outcome->Values_0)
                == array_bits(mask),
        }
    }

    /// Takes note of what came of the last action.
    pub fn step(&mut self, event: EvaluationEvent) -> (outcome: EvaluationOutcome)
        requires
            old(self).wf(),
            old(self).expects(event),
        ensures
            old(self).leads_to(event, outcome, final(self)),
    {
        match event {
            EvaluationEvent::Missing => EvaluationOutcome::NotCached,
            EvaluationEvent::Values(buffer) => {
                match self.stage {
                    EvaluationStage::Disjuncts => {},
                    _ => {
                        return EvaluationOutcome::Values(buffer);
                    },
                }
                let combined: BooleanBuffer = match &self.combined {
                    None => buffer,
                    Some(existing) => boolean_buffer_or(existing, &buffer),
                };
                let count: usize = self.disjuncts.len();
                if self.next + 1 == count {
                    return EvaluationOutcome::Values(combined);
                }
                self.combined = Some(combined);
                self.next += 1;
                EvaluationOutcome::Continue
            },
            EvaluationEvent::NotEncoded => {
                self.combined = None;
                self.stage = EvaluationStage::Retrieval;
                self.next = 0;
                EvaluationOutcome::Continue
            },
            EvaluationEvent::Retrieved => {
                let count: usize = self.column_ids.len();
                assert(self.next < count);
                self.next += 1;
                EvaluationOutcome::Continue
            },
            EvaluationEvent::Evaluated(mask) => EvaluationOutcome::Values(array_values(mask)),
        }
    }
}

/// The disjunction of the values of several disjuncts.
pub open spec fn disjunction(values: Seq<Seq<bool>>) -> Seq<bool>
    decreases values.len(),
{
    if values.len() <= 1 {
        values[0]
    } else {
        or_bits(disjunction(values.drop_last()), values.last())
    }
}

/// The values of all disjuncts, put together one after the other, are true exactly where one of them
/// is.
pub proof fn disjunction_is_exists(values: Seq<Seq<bool>>, i: int)
    requires
        values.len() > 0,
        forall|k: int| 0 <= k < values.len() ==> (#[trigger] values[k]).len() == values[0].len(),
        0 <= i < values[0].len(),
    ensures
        disjunction(values).len() == values[0].len(),
        disjunction(values)[i] <==> exists|k: int|
            0 <= k < values.len() && (#[trigger] values[k])[i],
    decreases values.len(),
{
    if values.len() == 1 {
        if values[0][i] {
            assert(values[0][i]);
        }
    } else {
        let init = values.drop_last();
        assert forall|k: int| 0 <= k < init.len() implies (#[trigger] init[k]).len()
            == init[0].len() by {
            assert(init[k] == values[k]);
        }
        disjunction_is_exists(init, i);
        if disjunction(init)[i] {
            let k = choose|k: int| 0 <= k < init.len() && (#[trigger] init[k])[i];
            assert(values[k][i]);
        }
        if values.last()[i] {
            assert(values[values.len() - 1][i]);
        }
        if exists|k: int| 0 <= k < values.len() && (#[trigger] values[k])[i] {
            let k = choose|k: int| 0 <= k < values.len() && (#[trigger] values[k])[i];
            if k < init.len() {
                assert(init[k][i]);
            }
        }
    }
}

/// Where the values so far are the disjunction of those of some disjuncts, they are that of one more
/// with the values of that one.
pub proof fn evaluation_builds_disjunction(
    evaluation: &PredicateEvaluation,
    values: Seq<Seq<bool>>,
    more: Seq<bool>,
)
    requires
        evaluation.spec_combined() == if values.len() == 0 {
            None::<Seq<bool>>
        } else {
            Some(disjunction(values))
        },
    ensures
        evaluation.with_values(more) == disjunction(values.push(more)),
{
    assert(values.push(more).drop_last() =~= values);
}

/// What holds of a predicate on the selected rows of a batch, as far as its evaluation reads it.
///
/// Each value is that of an expression on columns that are named: which columns it is evaluated on
/// makes a difference.
pub struct PredicateFacts {
    /// The columns that the row group has.
    pub created: Set<u64>,
    /// The columns whose batch is cached.
    pub cached: Set<u64>,
    /// The values of the predicate.
    pub values: Seq<bool>,
    /// The values of the predicate when it is evaluated on one column.
    pub on_column: spec_fn(u64) -> Seq<bool>,
    /// The values of the predicate when it is evaluated on columns in an order.
    pub on_columns: spec_fn(Seq<u64>) -> Seq<bool>,
    /// The values of one of its disjuncts when that is evaluated on a column.
    pub disjunct_on: spec_fn(int, u64) -> Seq<bool>,
}

impl PredicateFacts {
    /// Whether a column can be read.
    pub open spec fn can_read(self, column_id: u64) -> bool {
        self.created.contains(column_id) && self.cached.contains(column_id)
    }

    /// The values of the disjuncts, each on the column that it came with.
    pub open spec fn disjuncts(self, columns: Seq<u64>) -> Seq<Seq<bool>> {
        Seq::new(columns.len(), |k: int| (self.disjunct_on)(k, columns[k]))
    }

    /// Whether the facts are those of a predicate that reads the given columns, and whose disjuncts,
    /// where it is a disjunction of predicates on one column each, come with the given columns.
    pub open spec fn describe(self, columns: Seq<u64>, disjuncts: Seq<u64>) -> bool {
        &&& columns.len() == 1 ==> (self.on_column)(columns[0]) == self.values
        &&& (self.on_columns)(columns) == self.values
        &&& disjuncts.len() > 0 ==> {
            &&& disjuncts.to_set() == columns.to_set()
            &&& forall|k: int|
                0 <= k < disjuncts.len() ==> #[trigger] (self.disjunct_on)(k, disjuncts[k]).len()
                    == self.values.len()
            &&& forall|i: int|
                0 <= i < self.values.len() ==> (#[trigger] self.values[i] <==> exists|k: int|
                    0 <= k < disjuncts.len() && #[trigger] (self.disjunct_on)(k, disjuncts[k])[i])
        }
    }

    /// Whether the facts are those of the predicate that is evaluated.
    pub open spec fn describes(self, evaluation: &PredicateEvaluation) -> bool {
        &&& evaluation.knows(self.created)
        &&& self.describe(evaluation.columns(), evaluation.disjunct_columns())
    }

    /// Whether an event is what truly comes of an action, after the given columns were retrieved.
    pub open spec fn answers(
        self,
        action: EvaluationAction,
        retrieved: Seq<u64>,
        event: EvaluationEvent,
    ) -> bool {
        match action {
            EvaluationAction::EvaluateColumn { column_id } => match event {
                EvaluationEvent::Missing => !self.cached.contains(column_id),
                EvaluationEvent::Values(buffer) => self.cached.contains(column_id) && buffer_bits(
                    buffer,
                ) == (self.on_column)(column_id),
                _ => false,
            },
            EvaluationAction::EvaluateDisjunct { disjunct, column_id } => match event {
                EvaluationEvent::Missing => !self.cached.contains(column_id),
                EvaluationEvent::Values(buffer) => self.cached.contains(column_id) && buffer_bits(
                    buffer,
                ) == (self.disjunct_on)(disjunct as int, column_id),
                EvaluationEvent::NotEncoded => self.cached.contains(column_id),
                _ => false,
            },
            EvaluationAction::RetrieveColumn { column_id } => match event {
                EvaluationEvent::Missing => !self.cached.contains(column_id),
                EvaluationEvent::Retrieved => self.cached.contains(column_id),
                _ => false,
            },
            EvaluationAction::EvaluateRetrieved => match event {
                EvaluationEvent::Evaluated(mask) => array_bits(mask) == (self.on_columns)(retrieved),
                _ => false,
            },
            EvaluationAction::GiveUp => false,
        }
    }

    /// What holds at each point of an evaluation: what was looked at so far could be read, and the
    /// values so far are those of the disjuncts so far.
    spec fn inv(self, evaluation: &PredicateEvaluation, retrieved: Seq<u64>) -> bool {
        let done = evaluation.done() as int;
        let disjuncts = evaluation.disjunct_columns();
        &&& evaluation.wf()
        &&& done <= usize::MAX
        &&& self.describes(evaluation)
        &&& match evaluation.spec_stage() {
            EvaluationStage::Column => retrieved.len() == 0,
            EvaluationStage::Disjuncts => {
                &&& retrieved.len() == 0
                &&& forall|i: int| 0 <= i < done ==> self.can_read(#[trigger] disjuncts[i])
                &&& done > 0 ==> evaluation.spec_combined() == Some(
                    disjunction(self.disjuncts(disjuncts).take(done)),
                )
            },
            EvaluationStage::Retrieval => {
                &&& retrieved == evaluation.columns().take(done)
                &&& forall|i: int|
                    0 <= i < done ==> self.can_read(#[trigger] evaluation.columns()[i])
            },
        }
    }
}

/// The columns that were retrieved by the events before a point of an evaluation, in order.
pub open spec fn retrieved_columns(
    states: Seq<PredicateEvaluation>,
    events: Seq<EvaluationEvent>,
    t: int,
) -> Seq<u64>
    decreases t,
{
    if t <= 0 {
        Seq::empty()
    } else {
        let before = retrieved_columns(states, events, t - 1);
        match states[t - 1].spec_next_action() {
            EvaluationAction::RetrieveColumn { column_id } => if events[t - 1] is Retrieved {
                before.push(column_id)
            } else {
                before
            },
            _ => before,
        }
    }
}

/// An evaluation of a predicate from its start: the states that it goes through, and the events
/// that lead from each to the next.
pub open spec fn is_evaluation(
    states: Seq<PredicateEvaluation>,
    events: Seq<EvaluationEvent>,
    facts: PredicateFacts,
) -> bool {
    &&& states.len() == events.len() + 1
    &&& states[0].wf()
    &&& states[0].done() == 0
    &&& facts.describes(&states[0])
    &&& forall|t: int|
        #![trigger events[t]]
        0 <= t < events.len() ==> {
            &&& states[t].expects(events[t])
            &&& facts.answers(
                states[t].spec_next_action(),
                retrieved_columns(states, events, t),
                events[t],
            )
            &&& states[t].leads_to(events[t], EvaluationOutcome::Continue, &states[t + 1])
        }
}

/// The disjunct that is evaluated next is the first that has not been evaluated, on the column that
/// it came with; the column that is retrieved next is the first that has not been retrieved.
pub proof fn next_action_takes_up_where_the_last_ended(evaluation: &PredicateEvaluation)
    requires
        evaluation.wf(),
    ensures
        match evaluation.spec_next_action() {
            EvaluationAction::EvaluateColumn { column_id } => evaluation.spec_stage()
                == EvaluationStage::Column && evaluation.columns() == seq![column_id],
            EvaluationAction::EvaluateDisjunct { disjunct, column_id } => {
                &&& evaluation.spec_stage() == EvaluationStage::Disjuncts
                &&& disjunct == evaluation.done()
                &&& disjunct < evaluation.disjunct_columns().len()
                &&& column_id == evaluation.disjunct_columns()[disjunct as int]
            },
            EvaluationAction::RetrieveColumn { column_id } => {
                &&& evaluation.spec_stage() == EvaluationStage::Retrieval
                &&& evaluation.done() < evaluation.columns().len()
                &&& column_id == evaluation.columns()[evaluation.done() as int]
            },
            EvaluationAction::EvaluateRetrieved => evaluation.spec_stage()
                == EvaluationStage::Retrieval && evaluation.done() == evaluation.columns().len(),
            EvaluationAction::GiveUp => exists|i: int|
                0 <= i < evaluation.columns().len() && !#[trigger] evaluation.column_flags()[i]
                    || 0 <= i < evaluation.disjunct_columns().len()
                    && !evaluation.disjunct_flags()[i],
        },
{
    evaluation.lemma_done_fits();
    let k = evaluation.done() as int;
    if evaluation.spec_stage() == EvaluationStage::Column {
        assert(evaluation.columns() =~= seq![evaluation.columns()[0]]);
    }
    if evaluation.spec_next_action() is GiveUp {
        let flag = evaluation.column_flags()[k];
    }
}

proof fn lemma_disjunction_so_far(
    facts: PredicateFacts,
    evaluation: &PredicateEvaluation,
    more: Seq<bool>,
)
    requires
        facts.inv(evaluation, Seq::empty()),
        evaluation.spec_stage() == EvaluationStage::Disjuncts,
        more == (facts.disjunct_on)(
            evaluation.done() as int,
            evaluation.disjunct_columns()[evaluation.done() as int],
        ),
    ensures
        evaluation.with_values(more) == disjunction(
            facts.disjuncts(evaluation.disjunct_columns()).take((evaluation.done() + 1) as int),
        ),
{
    let parts = facts.disjuncts(evaluation.disjunct_columns());
    let done = evaluation.done() as int;
    evaluation_builds_disjunction(evaluation, parts.take(done), more);
    assert(parts.take(done).push(more) =~= parts.take(done + 1));
}

proof fn lemma_evaluation(
    states: Seq<PredicateEvaluation>,
    events: Seq<EvaluationEvent>,
    facts: PredicateFacts,
    t: int,
)
    requires
        is_evaluation(states, events, facts),
        0 <= t < states.len(),
    ensures
        facts.inv(&states[t], retrieved_columns(states, events, t)),
        states[t].columns() == states[0].columns(),
    decreases t,
{
    states[t].lemma_done_fits();
    if t > 0 {
        lemma_evaluation(states, events, facts, t - 1);
        let before = states[t - 1];
        let event = events[t - 1];
        let done = before.done() as int;
        let retrieved = retrieved_columns(states, events, t - 1);
        next_action_takes_up_where_the_last_ended(&before);
        assert(facts.answers(before.spec_next_action(), retrieved, event));
        assert(before.leads_to(event, EvaluationOutcome::Continue, &states[t]));
        if event is Values {
            assert(retrieved =~= Seq::empty());
            lemma_disjunction_so_far(facts, &before, buffer_bits(event->Values_0));
            assert(before.disjunct_flags()[done]);
        }
        if event is NotEncoded {
            assert(retrieved =~= Seq::empty());
            assert(states[t].columns().take(0) =~= Seq::empty());
        }
        if event is Retrieved {
            assert(before.column_flags()[done]);
            assert(before.columns().take(done).push(before.columns()[done])
                =~= before.columns().take(done + 1));
        }
    } else {
        assert(states[0].columns().take(0) =~= Seq::empty());
    }
}

/// However a predicate is evaluated, disjunct by disjunct on encoded columns, on its only column or
/// on retrieved ones: the answer is that it is not cached exactly if one of its columns was never
/// created or has no cached batch, and else the values of the predicate on the selected rows. Each
/// expression is evaluated on the columns that it came with.
pub proof fn evaluation_gives_predicate(
    states: Seq<PredicateEvaluation>,
    events: Seq<EvaluationEvent>,
    facts: PredicateFacts,
    last: EvaluationEvent,
    outcome: EvaluationOutcome,
    after: &PredicateEvaluation,
)
    requires
        is_evaluation(states, events, facts),
    ensures
        states.last().spec_next_action() is GiveUp ==> exists|i: int|
            0 <= i < states[0].columns().len() && !facts.can_read(
                #[trigger] states[0].columns()[i],
            ),
        states.last().expects(last) && facts.answers(
            states.last().spec_next_action(),
            retrieved_columns(states, events, events.len() as int),
            last,
        ) && states.last().leads_to(last, outcome, after) ==> {
            &&& outcome is NotCached ==> exists|i: int|
                0 <= i < states[0].columns().len() && !facts.can_read(
                    #[trigger] states[0].columns()[i],
                )
            &&& outcome is Values ==> {
                &&& buffer_bits(outcome->Values_0) == facts.values
                &&& forall|i: int|
                    0 <= i < states[0].columns().len() ==> facts.can_read(
                        #[trigger] states[0].columns()[i],
                    )
            }
        },
{
    lemma_evaluation(states, events, facts, states.len() - 1);
    let now = states.last();
    let columns = now.columns();
    let disjuncts = now.disjunct_columns();
    let done = now.done() as int;
    let retrieved = retrieved_columns(states, events, events.len() as int);
    next_action_takes_up_where_the_last_ended(&now);
    if now.spec_stage() == EvaluationStage::Disjuncts {
        assert(disjuncts.to_set().contains(disjuncts[done]));
        assert(columns.contains(disjuncts[done]));
        let i = choose|i: int| 0 <= i < columns.len() && columns[i] == disjuncts[done];
        assert(columns[i] == disjuncts[done]);
        assert(now.disjunct_flags()[done] == facts.created.contains(disjuncts[done]));
        if last is Values && now.expects(last) && facts.answers(
            now.spec_next_action(),
            retrieved,
            last,
        ) && now.leads_to(last, outcome, after) && outcome is Values {
            let parts = facts.disjuncts(disjuncts);
            assert(retrieved =~= Seq::empty());
            lemma_disjunction_so_far(facts, &now, buffer_bits(last->Values_0));
            assert(parts.take(done + 1) =~= parts);
            lemma_disjunction_is_predicate(facts, columns, disjuncts);
            assert forall|i: int| 0 <= i < columns.len() implies facts.can_read(
                #[trigger] columns[i],
            ) by {
                assert(columns.to_set().contains(columns[i]));
                assert(disjuncts.contains(columns[i]));
            }
        }
    } else if done < columns.len() {
        assert(now.column_flags()[done] == facts.created.contains(columns[done]));
        assert(columns[done] == states[0].columns()[done]);
    } else {
        assert(columns.take(done) =~= columns);
    }
}

/// A predicate is the disjunction of its disjuncts.
proof fn lemma_disjunction_is_predicate(
    facts: PredicateFacts,
    columns: Seq<u64>,
    disjuncts: Seq<u64>,
)
    requires
        disjuncts.len() > 0,
        facts.describe(columns, disjuncts),
    ensures
        disjunction(facts.disjuncts(disjuncts)) == facts.values,
{
    let parts = facts.disjuncts(disjuncts);
    assert forall|k: int| 0 <= k < parts.len() implies (#[trigger] parts[k]).len()
        == facts.values.len() by {
        assert((facts.disjunct_on)(k, disjuncts[k]).len() == facts.values.len());
    }
    lemma_disjunction_len(parts);
    assert forall|i: int| 0 <= i < facts.values.len() implies #[trigger] disjunction(parts)[i]
        == facts.values[i] by {
        disjunction_is_exists(parts, i);
        if facts.values[i] {
            let k = choose|k: int|
                0 <= k < disjuncts.len() && #[trigger] (facts.disjunct_on)(k, disjuncts[k])[i];
            assert(parts[k][i]);
        }
        if disjunction(parts)[i] {
            let k = choose|k: int| 0 <= k < parts.len() && (#[trigger] parts[k])[i];
            assert((facts.disjunct_on)(k, disjuncts[k])[i]);
        }
    }
    assert(disjunction(parts) =~= facts.values);
}

proof fn lemma_disjunction_len(parts: Seq<Seq<bool>>)
    requires
        parts.len() > 0,
        forall|k: int| 0 <= k < parts.len() ==> (#[trigger] parts[k]).len() == parts[0].len(),
    ensures
        disjunction(parts).len() == parts[0].len(),
    decreases parts.len(),
{
    if parts.len() > 1 {
        let init = parts.drop_last();
        assert forall|k: int| 0 <= k < init.len() implies (#[trigger] init[k]).len()
            == init[0].len() by {
            assert(init[k] == parts[k]);
        }
        lemma_disjunction_len(init);
    }
}

/// One file and its row groups.
pub struct LiquidCachedFile {
    row_groups: AHashMap<u64, usize>,
    slots: Vec<LiquidCachedRowGroup>,
    config: Arc<CacheConfig>,
    file_id: u64,
}

impl View for LiquidCachedFile {
    type V = Map<u64, LiquidCachedRowGroup>;

    /// The row groups by number.
    closed spec fn view(&self) -> Map<u64, LiquidCachedRowGroup> {
        Map::new(
            |id: u64| number_map(self.row_groups).contains_key(id),
            |id: u64| self.slots@[number_map(self.row_groups)[id] as int],
        )
    }
}

impl LiquidCachedFile {
    /// The configuration of the cache.
    pub closed spec fn spec_config(&self) -> CacheConfig {
        *self.config
    }

    /// The number of the file.
    pub closed spec fn id(&self) -> u64 {
        self.file_id
    }

    /// Whether the records agree with each other: each row group is in a place of its own.
    pub closed spec fn wf(&self) -> bool {
        &&& forall|id: u64| #[trigger]
            number_map(self.row_groups).contains_key(id) ==> {
                let place = number_map(self.row_groups)[id] as int;
                &&& place < self.slots@.len()
                &&& self.slots@[place].wf()
                &&& self.slots@[place].id() == id
                &&& self.slots@[place].file() == self.file_id
                &&& self.slots@[place].spec_config() == *self.config
            }
        &&& forall|a: u64, b: u64|
            #![trigger number_map(self.row_groups)[a], number_map(self.row_groups)[b]]
            number_map(self.row_groups).contains_key(a) && number_map(self.row_groups).contains_key(
                b,
            ) && a != b ==> number_map(self.row_groups)[a] != number_map(self.row_groups)[b]
    }

    /// A file without row groups.
    pub fn new(config: Arc<CacheConfig>, file_id: u64) -> (file: Self)
        ensures
            file.wf(),
            file@ == Map::<u64, LiquidCachedRowGroup>::empty(),
            file.spec_config() == *config,
            file.id() == file_id,
    {
        let file = LiquidCachedFile {
            row_groups: new_number_map(),
            slots: Vec::new(),
            config,
            file_id,
        };
        assert(file@ =~= Map::<u64, LiquidCachedRowGroup>::empty());
        file
    }

    /// The row group with a number, which is created, without columns, where there is none.
    pub fn row_group(&mut self, row_group_id: u64) -> (group: &mut LiquidCachedRowGroup)
        requires
            old(self).wf(),
        ensures
            old(self)@.contains_key(row_group_id) ==> *group == old(self)@[row_group_id],
            !old(self)@.contains_key(row_group_id) ==> group@ == Map::<
                u64,
                LiquidCachedColumn,
            >::empty(),
            group.wf(),
            group.spec_config() == old(self).spec_config(),
            group.id() == row_group_id,
            group.file() == old(self).id(),
            final(group).wf() && final(group).spec_config() == group.spec_config() && final(
                group).id() == group.id() && final(group).file() == group.file() ==> final(
                self).wf(),
            final(self)@ == old(self)@.insert(row_group_id, *final(group)),
            final(self).spec_config() == old(self).spec_config(),
            final(self).id() == old(self).id(),
    {
        let ghost before = *self;
        let place: usize = match find_number(&self.row_groups, row_group_id) {
            Some(place) => place,
            None => {
                let place: usize = self.slots.len();
                self.slots.push(
                    LiquidCachedRowGroup::new(self.config.clone(), row_group_id, self.file_id),
                );
                put_number(&mut self.row_groups, row_group_id, place);
                place
            },
        };
        proof {
            assert forall|group: LiquidCachedRowGroup|
                #![trigger self.slots@.update(place as int, group)]
                Map::new(
                    |id: u64| number_map(self.row_groups).contains_key(id),
                    |id: u64|
                        self.slots@.update(
                            place as int,
                            group,
                        )[number_map(self.row_groups)[id] as int],
                ) == before@.insert(row_group_id, group) by {
                assert(Map::new(
                    |id: u64| number_map(self.row_groups).contains_key(id),
                    |id: u64|
                        self.slots@.update(
                            place as int,
                            group,
                        )[number_map(self.row_groups)[id] as int],
                ) =~= before@.insert(row_group_id, group));
            }
        }
        &mut self.slots[place]
    }

    /// How arrays are held.
    pub fn cache_mode(&self) -> (mode: &LiquidCacheMode)
        ensures
            *mode == self.spec_config().spec_cache_mode(),
    {
        self.config.cache_mode()
    }

    /// The number of the file.
    pub fn file_id(&self) -> (id: u64)
        ensures
            id == self.id(),
    {
        self.file_id
    }
}

/// Whether a number is a power of two.
pub open spec fn is_power_of_two(n: nat) -> bool {
    exists|k: nat| n == #[trigger] pow2(k)
}

/// Whether each file is in the place that its number says.
spec fn files_in_place(
    places: Map<Seq<char>, usize>,
    slots: Seq<LiquidCachedFile>,
    config: CacheConfig,
    next_id: u64,
) -> bool {
    &&& next_id == slots.len()
    &&& forall|path: Seq<char>| #[trigger]
        places.contains_key(path) ==> {
            let place = places[path] as int;
            &&& place < slots.len()
            &&& slots[place].wf()
            &&& slots[place].id() == place
            &&& slots[place].spec_config() == config
        }
    &&& forall|a: Seq<char>, b: Seq<char>|
        #![trigger places[a], places[b]]
        places.contains_key(a) && places.contains_key(b) && a != b ==> places[a] != places[b]
}

/// The files of the cache, and the record of accesses.
pub struct LiquidCache {
    files: AHashMap<String, usize>,
    slots: Vec<LiquidCachedFile>,
    config: Arc<CacheConfig>,
    current_file_id: u64,
    tracer: CacheTracer,
}

impl View for LiquidCache {
    type V = Map<Seq<char>, LiquidCachedFile>;

    /// The files by path.
    closed spec fn view(&self) -> Map<Seq<char>, LiquidCachedFile> {
        Map::new(
            |path: Seq<char>| text_map(self.files).contains_key(path),
            |path: Seq<char>| self.slots@[text_map(self.files)[path] as int],
        )
    }
}

impl LiquidCache {
    /// The configuration of the cache.
    pub closed spec fn spec_config(&self) -> CacheConfig {
        *self.config
    }

    /// The number that the next new file gets.
    pub closed spec fn next_file_id(&self) -> u64 {
        self.current_file_id
    }

    /// Whether accesses are recorded.
    pub closed spec fn is_traced(&self) -> bool {
        self.tracer.is_enabled()
    }

    /// The accesses recorded since the last flush.
    pub closed spec fn trace(&self) -> Seq<TraceEvent> {
        self.tracer.events()
    }

    /// Whether the records agree with each other.
    pub closed spec fn wf(&self) -> bool {
        files_in_place(text_map(self.files), self.slots@, *self.config, self.current_file_id)
    }

    /// Different files have different numbers, all of them given out before, and share the
    /// configuration of the cache.
    pub proof fn files_have_distinct_numbers(&self, a: Seq<char>, b: Seq<char>)
        requires
            self.wf(),
            self@.contains_key(a),
            self@.contains_key(b),
        ensures
            self@[a].id() == self@[b].id() <==> a == b,
            self@[a].id() < self.next_file_id(),
            self@[a].spec_config() == self.spec_config(),
            self@[a].wf(),
    {
        assert(text_map(self.files)[a] == text_map(self.files)[b] ==> a == b);
    }

    /// A cache without files, whose accesses are not recorded. The batch size must be a power of
    /// two.
    pub fn new(
        batch_size: usize,
        max_cache_bytes: usize,
        cache_dir: CachePath,
        cache_mode: LiquidCacheMode,
    ) -> (cache: Self)
        requires
            is_power_of_two(batch_size as nat),
        ensures
            cache.wf(),
            cache@ == Map::<Seq<char>, LiquidCachedFile>::empty(),
            cache.spec_config().spec_batch_size() == batch_size,
            cache.spec_config().spec_max_cache_bytes() == max_cache_bytes,
            cache.spec_config().spec_cache_root_dir() == cache_dir@,
            cache.spec_config().spec_cache_mode() == cache_mode,
            cache.next_file_id() == 0,
            !cache.is_traced(),
            cache.trace() == Seq::<TraceEvent>::empty(),
    {
        let config = CacheConfig::new(batch_size, max_cache_bytes, cache_dir, cache_mode);
        let cache = LiquidCache {
            files: new_text_map(),
            slots: Vec::new(),
            config: Arc::new(config),
            current_file_id: 0,
            tracer: CacheTracer::new(),
        };
        assert(cache@ =~= Map::<Seq<char>, LiquidCachedFile>::empty());
        cache
    }

    /// The file with a path, which is registered under the next number where it is new.
    pub fn register_or_get_file(&mut self, file_path: String) -> (file: &mut LiquidCachedFile)
        requires
            old(self).wf(),
        ensures
            file.wf(),
            old(self)@.contains_key(file_path@) ==> *file == old(self)@[file_path@]
                && final(self).next_file_id() == old(self).next_file_id(),
            !old(self)@.contains_key(file_path@) ==> {
                &&& file@ == Map::<u64, LiquidCachedRowGroup>::empty()
                &&& file.spec_config() == old(self).spec_config()
                &&& file.id() == old(self).next_file_id()
                &&& final(self).next_file_id() == old(self).next_file_id() + 1
            },
            final(file).wf() && final(file).id() == file.id() && final(file).spec_config()
                == file.spec_config() ==> final(self).wf(),
            final(self)@ == old(self)@.insert(file_path@, *final(file)),
            final(self).spec_config() == old(self).spec_config(),
            final(self).is_traced() == old(self).is_traced(),
            final(self).trace() == old(self).trace(),
    {
        let ghost before = *self;
        let ghost path = file_path@;
        let place: usize = match find_text(&self.files, &file_path) {
            Some(place) => place,
            None => {
                let place: usize = self.slots.len();
                self.slots.push(LiquidCachedFile::new(self.config.clone(), self.current_file_id));
                let count: usize = self.slots.len();
                assert(count == place + 1);
                self.current_file_id = self.current_file_id + 1;
                put_text(&mut self.files, file_path, place);
                place
            },
        };
        proof {
            assert forall|file: LiquidCachedFile|
                #![trigger self.slots@.update(place as int, file)]
                Map::new(
                    |p: Seq<char>| text_map(self.files).contains_key(p),
                    |p: Seq<char>|
                        self.slots@.update(place as int, file)[text_map(self.files)[p] as int],
                ) == before@.insert(path, file) by {
                assert(Map::new(
                    |p: Seq<char>| text_map(self.files).contains_key(p),
                    |p: Seq<char>|
                        self.slots@.update(place as int, file)[text_map(self.files)[p] as int],
                ) =~= before@.insert(path, file));
            }
        }
        &mut self.slots[place]
    }

    /// The number of rows in a batch.
    pub fn batch_size(&self) -> (n: usize)
        ensures
            n == self.spec_config().spec_batch_size(),
    {
        self.config.batch_size()
    }

    /// The memory that the cache may use.
    pub fn max_cache_bytes(&self) -> (n: usize)
        ensures
            n == self.spec_config().spec_max_cache_bytes(),
    {
        self.config.max_cache_bytes()
    }

    /// How arrays are held.
    pub fn cache_mode(&self) -> (mode: &LiquidCacheMode)
        ensures
            *mode == self.spec_config().spec_cache_mode(),
    {
        self.config.cache_mode()
    }

    /// Starts recording accesses.
    pub fn enable_trace(&mut self)
        ensures
            final(self).is_traced(),
            final(self).trace() == old(self).trace(),
            final(self)@ == old(self)@,
            final(self).wf() == old(self).wf(),
            final(self).spec_config() == old(self).spec_config(),
            final(self).next_file_id() == old(self).next_file_id(),
    {
        self.tracer.enable();
    }

    /// Stops recording accesses.
    pub fn disable_trace(&mut self)
        ensures
            !final(self).is_traced(),
            final(self).trace() == old(self).trace(),
            final(self)@ == old(self)@,
            final(self).wf() == old(self).wf(),
            final(self).spec_config() == old(self).spec_config(),
            final(self).next_file_id() == old(self).next_file_id(),
    {
        self.tracer.disable();
    }

    /// Hands out the recorded accesses as a table, and forgets them.
    pub fn flush_trace(&mut self) -> (batch: Option<ArrowTable>)
        ensures
            batch is Some <==> old(self).trace().len() > 0,
            batch is Some ==> batch_columns(batch->0) == event_table(old(self).trace()),
            final(self).trace() == Seq::<TraceEvent>::empty(),
            final(self).is_traced() == old(self).is_traced(),
            final(self)@ == old(self)@,
            final(self).wf() == old(self).wf(),
            final(self).spec_config() == old(self).spec_config(),
            final(self).next_file_id() == old(self).next_file_id(),
    {
        self.tracer.flush()
    }

    /// The record of accesses.
    pub fn tracer(&mut self) -> (tracer: &mut CacheTracer)
        ensures
            tracer.is_enabled() == old(self).is_traced(),
            tracer.events() == old(self).trace(),
            final(self).is_traced() == final(tracer).is_enabled(),
            final(self).trace() == final(tracer).events(),
            final(self)@ == old(self)@,
            final(self).wf() == old(self).wf(),
            final(self).spec_config() == old(self).spec_config(),
            final(self).next_file_id() == old(self).next_file_id(),
    {
        &mut self.tracer
    }
}

/// A column is held under its name and with all its properties; only text views are held in another
/// type.
pub proof fn columns_are_held_with_their_properties(field: Field, mode: LiquidCacheMode)
    ensures
        held_field(field, mode).name == field.name,
        held_field(field, mode).nullable == field.nullable,
        held_field(field, mode).dict_id == field.dict_id,
        held_field(field, mode).dict_is_ordered == field.dict_is_ordered,
        held_field(field, mode).metadata == field.metadata,
        field.data_type != DataType::Utf8View ==> held_field(field, mode) == field,
        field.data_type == DataType::Utf8View && mode is Arrow ==> held_field(field, mode).data_type
            == DataType::Utf8,
        field.data_type == DataType::Utf8View && mode is Liquid ==> held_field(
            field,
            mode,
        ).data_type == DataType::Dictionary(Arc::new(DataType::UInt16), Arc::new(DataType::Utf8)),
{
}

/// The powers of two are 1, 2, 4 and so on; each may be the size of a batch.
pub proof fn powers_of_two_may_be_batch_sizes(k: nat)
    ensures
        is_power_of_two(1),
        is_power_of_two(pow2(k)),
        is_power_of_two(2 * pow2(k)),
        !is_power_of_two(0),
        k > 0 ==> !is_power_of_two(pow2(k) + 1),
{
    vstd::arithmetic::power2::lemma2_to64();
    assert(1 == pow2(0));
    vstd::arithmetic::power2::lemma_pow2_unfold(k + 1);
    assert(2 * pow2(k) == pow2(k + 1));
    if is_power_of_two(0) {
        let j = choose|j: nat| 0 == #[trigger] pow2(j);
        vstd::arithmetic::power2::lemma_pow2_pos(j);
    }
    if k > 0 && is_power_of_two(pow2(k) + 1) {
        let j = choose|j: nat| pow2(k) + 1 == #[trigger] pow2(j);
        vstd::arithmetic::power2::lemma_pow2_unfold(k);
        if j == 0 {
            vstd::arithmetic::power2::lemma_pow2_pos(k);
        } else {
            vstd::arithmetic::power2::lemma_pow2_unfold(j);
        }
    }
}

/// Whatever can come of an action is expected: that the batch is not cached, the values, that the
/// disjunct cannot be evaluated on the column as it is, the retrieved column, and the values on the
/// retrieved columns, each of the actions that it can come of.
pub proof fn evaluation_expects_what_can_come(
    evaluation: &PredicateEvaluation,
    values: BooleanBuffer,
    mask: BooleanArray,
)
    requires
        evaluation.wf(),
    ensures
        match evaluation.spec_next_action() {
            EvaluationAction::EvaluateColumn { .. } => {
                &&& evaluation.expects(EvaluationEvent::Missing)
                &&& evaluation.expects(EvaluationEvent::Values(values))
            },
            EvaluationAction::EvaluateDisjunct { .. } => {
                &&& evaluation.expects(EvaluationEvent::Missing)
                &&& evaluation.expects(EvaluationEvent::NotEncoded)
                &&& evaluation.expects(EvaluationEvent::Values(values)) <==> evaluation.done() == 0
                    || buffer_bits(values).len() == evaluation.spec_combined()->0.len()
            },
            EvaluationAction::RetrieveColumn { .. } => {
                &&& evaluation.expects(EvaluationEvent::Missing)
                &&& evaluation.expects(EvaluationEvent::Retrieved)
            },
            EvaluationAction::EvaluateRetrieved => evaluation.expects(
                EvaluationEvent::Evaluated(mask),
            ),
            EvaluationAction::GiveUp => true,
        },
{
}

/// An evaluation ends: it goes through no more events than there are disjuncts and columns, and one
/// more.
pub proof fn evaluations_end(
    states: Seq<PredicateEvaluation>,
    events: Seq<EvaluationEvent>,
    facts: PredicateFacts,
)
    requires
        is_evaluation(states, events, facts),
    ensures
        events.len() <= states[0].disjunct_columns().len() + states[0].columns().len() + 1,
{
    lemma_fewer_actions_left(states, events, facts, events.len() as int);
}

proof fn lemma_fewer_actions_left(
    states: Seq<PredicateEvaluation>,
    events: Seq<EvaluationEvent>,
    facts: PredicateFacts,
    t: int,
)
    requires
        is_evaluation(states, events, facts),
        0 <= t < states.len(),
    ensures
        states[t].left() + t <= states[0].left(),
        states[t].left() > 0,
    decreases t,
{
    if t > 0 {
        lemma_fewer_actions_left(states, events, facts, t - 1);
        let before = states[t - 1];
        let event = events[t - 1];
        assert(before.leads_to(event, EvaluationOutcome::Continue, &states[t]));
    }
}

/// Where a disjunct cannot be evaluated on its column as it is, or all columns have been retrieved,
/// the evaluation does not end there; where a batch is missing it does, and nothing else ends it
/// without values.
pub proof fn events_end_or_continue(
    evaluation: &PredicateEvaluation,
    event: EvaluationEvent,
    outcome: EvaluationOutcome,
    after: &PredicateEvaluation,
)
    requires
        evaluation.wf(),
        evaluation.expects(event),
        evaluation.leads_to(event, outcome, after),
    ensures
        outcome is NotCached <==> event is Missing,
        event is NotEncoded ==> outcome is Continue && after.spec_stage()
            == EvaluationStage::Retrieval && after.done() == 0,
        event is Retrieved ==> outcome is Continue && after.spec_stage() == evaluation.spec_stage()
            && after.done() == evaluation.done() + 1,
        event is Evaluated ==> outcome is Values && buffer_bits(outcome->Values_0) == array_bits(
            event->Evaluated_0,
        ),
        event is Values && evaluation.spec_stage() == EvaluationStage::Column ==> outcome is Values
            && buffer_bits(outcome->Values_0) == buffer_bits(event->Values_0),
        event is Values && evaluation.spec_stage() == EvaluationStage::Disjuncts ==> (
        outcome is Continue <==> evaluation.done() + 1 < evaluation.disjunct_columns().len()),
        event is Values && outcome is Continue ==> after.spec_stage() == EvaluationStage::Disjuncts
            && after.done() == evaluation.done() + 1 && after.spec_combined() == Some(
            evaluation.with_values(buffer_bits(event->Values_0)),
        ),
        after.columns() == evaluation.columns(),
        after.disjunct_columns() == evaluation.disjunct_columns(),
        after.column_flags() == evaluation.column_flags(),
        after.disjunct_flags() == evaluation.disjunct_flags(),
{
}

/// The values so far are joined with those of the next disjunct row by row.
pub proof fn values_are_joined_row_by_row(
    evaluation: &PredicateEvaluation,
    values: Seq<bool>,
    i: int,
)
    requires
        0 <= i < values.len(),
        evaluation.spec_combined() is Some ==> evaluation.spec_combined()->0.len() == values.len(),
    ensures
        evaluation.with_values(values).len() == values.len(),
        evaluation.spec_combined() is None ==> evaluation.with_values(values)[i] == values[i],
        evaluation.spec_combined() is Some ==> (evaluation.with_values(values)[i]
            <==> evaluation.spec_combined()->0[i] || values[i]),
{
}

} // verus!
