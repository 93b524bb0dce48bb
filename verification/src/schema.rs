//! Column types, and how they change on the way from a Parquet file into the cache.

use crate::modes::LiquidCacheMode;
use crate::text::append_decimal;
use crate::text::decimal;
use std::sync::Arc;
use vstd::prelude::*;

verus! {

/// The unit of a time value.
#[derive(Clone, Copy, Debug, PartialEq, Eq, Structural)]
pub enum TimeUnit {
    /// Seconds.
    Second,
    /// Milliseconds.
    Millisecond,
    /// Microseconds.
    Microsecond,
    /// Nanoseconds.
    Nanosecond,
}

/// The unit of a calendar interval.
#[derive(Clone, Copy, Debug, PartialEq, Eq, Structural)]
pub enum IntervalUnit {
    /// Years and months.
    YearMonth,
    /// Days and milliseconds.
    DayTime,
    /// Months, days and nanoseconds.
    MonthDayNano,
}

/// The type of a column's values.
#[derive(Debug, PartialEq, Eq)]
pub enum DataType {
    /// Nothing but nulls.
    Null,
    /// True or false.
    Boolean,
    /// A signed 8-bit integer.
    Int8,
    /// A signed 16-bit integer.
    Int16,
    /// A signed 32-bit integer.
    Int32,
    /// A signed 64-bit integer.
    Int64,
    /// An unsigned 8-bit integer.
    UInt8,
    /// An unsigned 16-bit integer.
    UInt16,
    /// An unsigned 32-bit integer.
    UInt32,
    /// An unsigned 64-bit integer.
    UInt64,
    /// A 16-bit floating point number.
    Float16,
    /// A 32-bit floating point number.
    Float32,
    /// A 64-bit floating point number.
    Float64,
    /// A point in time, with an optional time zone.
    Timestamp(TimeUnit, Option<Arc<String>>),
    /// A date in days.
    Date32,
    /// A date in milliseconds.
    Date64,
    /// A 32-bit time of day.
    Time32(TimeUnit),
    /// A 64-bit time of day.
    Time64(TimeUnit),
    /// An elapsed time.
    Duration(TimeUnit),
    /// A calendar interval.
    Interval(IntervalUnit),
    /// Bytes.
    Binary,
    /// Bytes of one length.
    FixedSizeBinary(i32),
    /// Bytes, with large offsets.
    LargeBinary,
    /// Bytes, as views.
    BinaryView,
    /// Text.
    Utf8,
    /// Text, with large offsets.
    LargeUtf8,
    /// Text, as views.
    Utf8View,
    /// A list.
    List(Arc<Field>),
    /// A list, as views.
    ListView(Arc<Field>),
    /// A list of one length.
    FixedSizeList(Arc<Field>, i32),
    /// A list, with large offsets.
    LargeList(Arc<Field>),
    /// A list, as views with large offsets.
    LargeListView(Arc<Field>),
    /// Named fields side by side.
    Struct(Arc<Vec<Arc<Field>>>),
    /// One of several fields, by type id; sparse where the flag is set.
    Union(Arc<Vec<(i8, Arc<Field>)>>, bool),
    /// Keys of the first type into values of the second.
    Dictionary(Arc<DataType>, Arc<DataType>),
    /// A 128-bit decimal with precision and scale.
    Decimal128(u8, i8),
    /// A 256-bit decimal with precision and scale.
    Decimal256(u8, i8),
    /// Key and value pairs; sorted by key where the flag is set.
    Pairs(Arc<Field>, bool),
    /// Run ends and values.
    RunEndEncoded(Arc<Field>, Arc<Field>),
}

impl Clone for DataType {
    fn clone(&self) -> (copy: Self)
        ensures
            copy == *self,
    {
        match self {
            DataType::Null => DataType::Null,
            DataType::Boolean => DataType::Boolean,
            DataType::Int8 => DataType::Int8,
            DataType::Int16 => DataType::Int16,
            DataType::Int32 => DataType::Int32,
            DataType::Int64 => DataType::Int64,
            DataType::UInt8 => DataType::UInt8,
            DataType::UInt16 => DataType::UInt16,
            DataType::UInt32 => DataType::UInt32,
            DataType::UInt64 => DataType::UInt64,
            DataType::Float16 => DataType::Float16,
            DataType::Float32 => DataType::Float32,
            DataType::Float64 => DataType::Float64,
            DataType::Timestamp(unit, None) => DataType::Timestamp(*unit, None),
            DataType::Timestamp(unit, Some(zone)) => DataType::Timestamp(*unit, Some(zone.clone())),
            DataType::Date32 => DataType::Date32,
            DataType::Date64 => DataType::Date64,
            DataType::Time32(unit) => DataType::Time32(*unit),
            DataType::Time64(unit) => DataType::Time64(*unit),
            DataType::Duration(unit) => DataType::Duration(*unit),
            DataType::Interval(unit) => DataType::Interval(*unit),
            DataType::Binary => DataType::Binary,
            DataType::FixedSizeBinary(n) => DataType::FixedSizeBinary(*n),
            DataType::LargeBinary => DataType::LargeBinary,
            DataType::BinaryView => DataType::BinaryView,
            DataType::Utf8 => DataType::Utf8,
            DataType::LargeUtf8 => DataType::LargeUtf8,
            DataType::Utf8View => DataType::Utf8View,
            DataType::List(item) => DataType::List(item.clone()),
            DataType::ListView(item) => DataType::ListView(item.clone()),
            DataType::FixedSizeList(item, n) => DataType::FixedSizeList(item.clone(), *n),
            DataType::LargeList(item) => DataType::LargeList(item.clone()),
            DataType::LargeListView(item) => DataType::LargeListView(item.clone()),
            DataType::Struct(fields) => DataType::Struct(fields.clone()),
            DataType::Union(fields, sparse) => DataType::Union(fields.clone(), *sparse),
            DataType::Dictionary(key, value) => DataType::Dictionary(key.clone(), value.clone()),
            DataType::Decimal128(p, s) => DataType::Decimal128(*p, *s),
            DataType::Decimal256(p, s) => DataType::Decimal256(*p, *s),
            DataType::Pairs(entry, sorted) => DataType::Pairs(entry.clone(), *sorted),
            DataType::RunEndEncoded(ends, values) => DataType::RunEndEncoded(
                ends.clone(),
                values.clone(),
            ),
        }
    }
}

/// A named column.
#[derive(Debug, PartialEq, Eq)]
pub struct Field {
    /// The name.
    pub name: String,
    /// The type of the values.
    pub data_type: DataType,
    /// Whether values may be null.
    pub nullable: bool,
    /// The number of the dictionary, where there is one.
    pub dict_id: i64,
    /// Whether the dictionary is ordered.
    pub dict_is_ordered: bool,
    /// Further properties, by name.
    pub metadata: Arc<Vec<(String, String)>>,
}

impl Clone for Field {
    fn clone(&self) -> (copy: Self)
        ensures
            copy == *self,
    {
        Field {
            name: self.name.clone(),
            data_type: self.data_type.clone(),
            nullable: self.nullable,
            dict_id: self.dict_id,
            dict_is_ordered: self.dict_is_ordered,
            metadata: self.metadata.clone(),
        }
    }
}

impl Field {
    /// A column without further properties.
    pub fn new(name: String, data_type: DataType, nullable: bool) -> (field: Self)
        ensures
            field.name == name,
            field.data_type == data_type,
            field.nullable == nullable,
            field.dict_id == 0,
            !field.dict_is_ordered,
            field.metadata@.len() == 0,
    {
        Field {
            name,
            data_type,
            nullable,
            dict_id: 0,
            dict_is_ordered: false,
            metadata: Arc::new(Vec::new()),
        }
    }

    /// The column with another type.
    pub open spec fn typed(self, data_type: DataType) -> Field {
        Field { data_type, ..self }
    }
}

/// The columns of a table.
#[derive(Debug, PartialEq, Eq)]
pub struct Schema {
    /// The columns.
    pub fields: Vec<Arc<Field>>,
    /// Further properties, by name.
    pub metadata: Arc<Vec<(String, String)>>,
}

/// A shared schema.
pub type SchemaRef = Arc<Schema>;

impl Schema {
    /// The columns, each with the type that `f` gives for the type it had.
    pub open spec fn retyped(self, f: spec_fn(DataType) -> DataType) -> Seq<Arc<Field>> {
        self.fields@.map_values(|field: Arc<Field>| Arc::new((*field).typed(f(field.data_type))))
    }
}

impl Clone for Schema {
    fn clone(&self) -> (copy: Self)
        ensures
            copy.fields@ == self.fields@,
            copy.metadata == self.metadata,
    {
        let mut fields: Vec<Arc<Field>> = Vec::new();
        let n: usize = self.fields.len();
        let mut i: usize = 0;
        while i < n
            invariant
                i <= n,
                n == self.fields@.len(),
                fields@ == self.fields@.take(i as int),
            decreases n - i,
        {
            fields.push(self.fields[i].clone());
            i += 1;
            assert(fields@ =~= self.fields@.take(i as int));
        }
        assert(fields@ =~= self.fields@);
        Schema { fields, metadata: self.metadata.clone() }
    }
}

/// The column with another type and all other properties as they were.
fn field_with_new_type(field: &Arc<Field>, new_type: DataType) -> (result: Arc<Field>)
    ensures
        *result == (**field).typed(new_type),
{
    let mut copy: Field = (**field).clone();
    copy.data_type = new_type;
    Arc::new(copy)
}

/// Whether values are text.
pub open spec fn is_text(data_type: DataType) -> bool {
    data_type is Utf8 || data_type is LargeUtf8 || data_type is Utf8View
}

/// Whether values are bytes of any length.
pub open spec fn is_bytes(data_type: DataType) -> bool {
    data_type is Binary || data_type is LargeBinary || data_type is BinaryView
}

/// Keys of sixteen bits into distinct texts.
pub open spec fn liquid_text() -> DataType {
    DataType::Dictionary(Arc::new(DataType::UInt16), Arc::new(DataType::Utf8))
}

/// The type in which the cache hands out values of a type.
pub open spec fn liquid_type(data_type: DataType, mode: LiquidCacheMode) -> DataType {
    if mode is Liquid && (is_text(data_type) || is_bytes(data_type)) {
        liquid_text()
    } else {
        data_type
    }
}

/// The type in which the cache holds values that a Parquet reader hands over in a type.
pub open spec fn cached_type(data_type: DataType, mode: LiquidCacheMode) -> DataType {
    if data_type is Utf8View {
        if mode is Liquid {
            liquid_text()
        } else {
            DataType::Utf8
        }
    } else {
        data_type
    }
}

/// Text in place of bytes.
pub open spec fn text_for_bytes(data_type: DataType) -> DataType {
    if is_bytes(data_type) {
        DataType::Utf8
    } else {
        data_type
    }
}

/// Text views in place of plain text.
pub open spec fn view_for_text(data_type: DataType) -> DataType {
    if data_type is Utf8 || data_type is LargeUtf8 {
        DataType::Utf8View
    } else {
        data_type
    }
}

/// The type in which a Parquet reader hands over values: text and bytes as views.
pub open spec fn reader_type(data_type: DataType) -> DataType {
    if is_text(data_type) {
        DataType::Utf8View
    } else if is_bytes(data_type) {
        DataType::BinaryView
    } else {
        data_type
    }
}

fn dictionary_of_text() -> (data_type: DataType)
    ensures
        data_type == liquid_text(),
{
    DataType::Dictionary(Arc::new(DataType::UInt16), Arc::new(DataType::Utf8))
}

/// The type in which the cache hands out values of a type: text and bytes as a dictionary of text,
/// unless arrays are held as they were read.
pub fn coerce_string_to_liquid_type(data_type: &DataType, mode: &LiquidCacheMode) -> (result:
    DataType)
    ensures
        result == liquid_type(*data_type, *mode),
        *mode is Arrow ==> result == *data_type,
        *mode is Liquid && (*data_type is Utf8 || *data_type is LargeUtf8 || *data_type is Utf8View
            || *data_type is Binary || *data_type is LargeBinary || *data_type is BinaryView)
            ==> result == DataType::Dictionary(
            Arc::new(DataType::UInt16),
            Arc::new(DataType::Utf8),
        ),
{
    match mode {
        LiquidCacheMode::Arrow => data_type.clone(),
        LiquidCacheMode::Liquid { .. } => match data_type {
            DataType::Utf8
            | DataType::LargeUtf8
            | DataType::Utf8View
            | DataType::Binary
            | DataType::LargeBinary
            | DataType::BinaryView => dictionary_of_text(),
            _ => data_type.clone(),
        },
    }
}

/// The schema in which the cache hands out a table. See [coerce_string_to_liquid_type].
pub fn coerce_to_liquid_cache_types(schema: &Schema, mode: &LiquidCacheMode) -> (result: Schema)
    ensures
        result.fields@ == schema.retyped(|t: DataType| liquid_type(t, *mode)),
        result.metadata == schema.metadata,
{
    match mode {
        LiquidCacheMode::Arrow => {
            let result = schema.clone();
            assert(result.fields@ =~= schema.retyped(|t: DataType| liquid_type(t, *mode)));
            result
        },
        LiquidCacheMode::Liquid { .. } => {
            let ghost f = |t: DataType| liquid_type(t, *mode);
            let mut fields: Vec<Arc<Field>> = Vec::new();
            let n: usize = schema.fields.len();
            let mut i: usize = 0;
            while i < n
                invariant
                    i <= n,
                    n == schema.fields@.len(),
                    f == (|t: DataType| liquid_type(t, *mode)),
                    fields@ == schema.retyped(f).take(i as int),
                decreases n - i,
            {
                let field = &schema.fields[i];
                fields.push(
                    field_with_new_type(
                        field,
                        coerce_string_to_liquid_type(&field.data_type, mode),
                    ),
                );
                i += 1;
                assert(fields@ =~= schema.retyped(f).take(i as int));
            }
            assert(fields@ =~= schema.retyped(f));
            Schema { fields, metadata: schema.metadata.clone() }
        },
    }
}

/// The type in which the cache holds values that a Parquet reader hands over in a type.
pub fn coerce_from_parquet_to_liquid_type(data_type: &DataType, cache_mode: &LiquidCacheMode) -> (
result: DataType)
    ensures
        result == cached_type(*data_type, *cache_mode),
        *data_type != DataType::Utf8View ==> result == *data_type,
        *data_type == DataType::Utf8View && *cache_mode is Arrow ==> result == DataType::Utf8,
        *data_type == DataType::Utf8View && *cache_mode is Liquid ==> result
            == DataType::Dictionary(Arc::new(DataType::UInt16), Arc::new(DataType::Utf8)),
{
    match (cache_mode, data_type) {
        (LiquidCacheMode::Arrow, DataType::Utf8View) => DataType::Utf8,
        (LiquidCacheMode::Liquid { .. }, DataType::Utf8View) => dictionary_of_text(),
        _ => data_type.clone(),
    }
}

/// The schema in which the cache holds a table that a Parquet reader hands over. See
/// [coerce_from_parquet_to_liquid_type].
pub fn coerce_from_parquet_reader_to_liquid_types(
    schema: &Schema,
    cache_mode: &LiquidCacheMode,
) -> (result: Schema)
    ensures
        result.fields@ == schema.retyped(|t: DataType| cached_type(t, *cache_mode)),
        result.metadata == schema.metadata,
{
    let ghost f = |t: DataType| cached_type(t, *cache_mode);
    let mut fields: Vec<Arc<Field>> = Vec::new();
    let n: usize = schema.fields.len();
    let mut i: usize = 0;
    while i < n
        invariant
            i <= n,
            n == schema.fields@.len(),
            f == (|t: DataType| cached_type(t, *cache_mode)),
            fields@ == schema.retyped(f).take(i as int),
        decreases n - i,
    {
        let field = &schema.fields[i];
        fields.push(
            field_with_new_type(
                field,
                coerce_from_parquet_to_liquid_type(&field.data_type, cache_mode),
            ),
        );
        i += 1;
        assert(fields@ =~= schema.retyped(f).take(i as int));
    }
    assert(fields@ =~= schema.retyped(f));
    Schema { fields, metadata: schema.metadata.clone() }
}

/// The schema with text in place of bytes.
pub fn coerce_binary_to_string(schema: &Schema) -> (result: Schema)
    ensures
        result.fields@ == schema.retyped(|t: DataType| text_for_bytes(t)),
        result.metadata == schema.metadata,
{
    let ghost f = |t: DataType| text_for_bytes(t);
    let mut fields: Vec<Arc<Field>> = Vec::new();
    let n: usize = schema.fields.len();
    let mut i: usize = 0;
    while i < n
        invariant
            i <= n,
            n == schema.fields@.len(),
            f == (|t: DataType| text_for_bytes(t)),
            fields@ == schema.retyped(f).take(i as int),
        decreases n - i,
    {
        let field = &schema.fields[i];
        let coerced: Arc<Field> = match field.data_type {
            DataType::Binary | DataType::LargeBinary | DataType::BinaryView => field_with_new_type(
                field,
                DataType::Utf8,
            ),
            _ => field.clone(),
        };
        fields.push(coerced);
        i += 1;
        assert(fields@ =~= schema.retyped(f).take(i as int));
    }
    assert(fields@ =~= schema.retyped(f));
    Schema { fields, metadata: schema.metadata.clone() }
}

/// The schema with text views in place of plain text.
pub fn coerce_string_to_view(schema: &Schema) -> (result: Schema)
    ensures
        result.fields@ == schema.retyped(|t: DataType| view_for_text(t)),
        result.metadata == schema.metadata,
{
    let ghost f = |t: DataType| view_for_text(t);
    let mut fields: Vec<Arc<Field>> = Vec::new();
    let n: usize = schema.fields.len();
    let mut i: usize = 0;
    while i < n
        invariant
            i <= n,
            n == schema.fields@.len(),
            f == (|t: DataType| view_for_text(t)),
            fields@ == schema.retyped(f).take(i as int),
        decreases n - i,
    {
        let field = &schema.fields[i];
        let coerced: Arc<Field> = match field.data_type {
            DataType::Utf8 | DataType::LargeUtf8 => field_with_new_type(field, DataType::Utf8View),
            _ => field.clone(),
        };
        fields.push(coerced);
        i += 1;
        assert(fields@ =~= schema.retyped(f).take(i as int));
    }
    assert(fields@ =~= schema.retyped(f));
    Schema { fields, metadata: schema.metadata.clone() }
}

/// The schema in which a Parquet reader hands over a table.
pub struct ParquetReaderSchema {}

impl ParquetReaderSchema {
    /// The schema in which a Parquet reader hands over a table with the given schema: text and
    /// bytes as views.
    pub fn from(schema: &Schema) -> (result: SchemaRef)
        ensures
            result.fields@ == schema.retyped(|t: DataType| reader_type(t)),
            result.metadata == schema.metadata,
    {
        let ghost f = |t: DataType| reader_type(t);
        let mut fields: Vec<Arc<Field>> = Vec::new();
        let n: usize = schema.fields.len();
        let mut i: usize = 0;
        while i < n
            invariant
                i <= n,
                n == schema.fields@.len(),
                f == (|t: DataType| reader_type(t)),
                fields@ == schema.retyped(f).take(i as int),
            decreases n - i,
        {
            let field = &schema.fields[i];
            let coerced: Arc<Field> = match field.data_type {
                DataType::Utf8 | DataType::LargeUtf8 | DataType::Utf8View => field_with_new_type(
                    field,
                    DataType::Utf8View,
                ),
                DataType::Binary | DataType::LargeBinary | DataType::BinaryView => {
                    field_with_new_type(field, DataType::BinaryView)
                },
                _ => field.clone(),
            };
            fields.push(coerced);
            i += 1;
            assert(fields@ =~= schema.retyped(f).take(i as int));
        }
        assert(fields@ =~= schema.retyped(f));
        Arc::new(Schema { fields, metadata: schema.metadata.clone() })
    }
}

/// The message for a column that does not exist.
pub open spec fn out_of_bounds(index: nat, columns: nat) -> Seq<char> {
    "project index "@ + decimal(index) + " out of bounds, max field "@ + decimal(columns)
}

/// The columns at the given places; a message about the first place at which there is none.
pub fn project(schema: &Schema, indices: &[usize]) -> (result: Result<Schema, String>)
    ensures
        result is Ok <==> forall|i: int|
            0 <= i < indices@.len() ==> (#[trigger] indices@[i]) < schema.fields@.len(),
        result is Ok ==> result->Ok_0.fields@ == indices@.map_values(
            |i: usize| schema.fields@[i as int],
        ) && result->Ok_0.metadata == schema.metadata,
        result is Err ==> exists|k: int|
            0 <= k < indices@.len() && (#[trigger] indices@[k]) >= schema.fields@.len() && (
            forall|i: int| 0 <= i < k ==> (#[trigger] indices@[i]) < schema.fields@.len())
                && result->Err_0@ == out_of_bounds(indices@[k] as nat, schema.fields@.len()),
{
    let columns: usize = schema.fields.len();
    let mut fields: Vec<Arc<Field>> = Vec::new();
    let n: usize = indices.len();
    let mut k: usize = 0;
    let ghost wanted = indices@.map_values(|i: usize| schema.fields@[i as int]);
    while k < n
        invariant
            k <= n,
            n == indices@.len(),
            columns == schema.fields@.len(),
            wanted == indices@.map_values(|i: usize| schema.fields@[i as int]),
            forall|i: int| 0 <= i < k ==> (#[trigger] indices@[i]) < columns,
            fields@ == wanted.take(k as int),
        decreases n - k,
    {
        let index: usize = indices[k];
        if index >= columns {
            let mut message = String::new();
            message.append("project index ");
            append_decimal(&mut message, index as u64);
            message.append(" out of bounds, max field ");
            append_decimal(&mut message, columns as u64);
            assert(message@ =~= out_of_bounds(index as nat, columns as nat));
            assert(indices@[k as int] >= columns);
            return Err(message);
        }
        fields.push(schema.fields[index].clone());
        k += 1;
        assert(fields@ =~= wanted.take(k as int));
    }
    assert(fields@ =~= wanted);
    Ok(Schema { fields, metadata: schema.metadata.clone() })
}

/// Each change of type leaves alone what it made.
pub proof fn coercions_are_idempotent(data_type: DataType, mode: LiquidCacheMode)
    ensures
        liquid_type(liquid_type(data_type, mode), mode) == liquid_type(data_type, mode),
        cached_type(cached_type(data_type, mode), mode) == cached_type(data_type, mode),
        text_for_bytes(text_for_bytes(data_type)) == text_for_bytes(data_type),
        view_for_text(view_for_text(data_type)) == view_for_text(data_type),
        reader_type(reader_type(data_type)) == reader_type(data_type),
{
}

/// Where arrays are held as they were read, the cache hands them out in the type they had.
pub proof fn arrow_mode_keeps_types(data_type: DataType)
    ensures
        liquid_type(data_type, LiquidCacheMode::Arrow) == data_type,
{
}

/// Text is held in the type in which the cache hands it out, by whichever type it was read.
pub proof fn held_text_is_handed_out_as_is(data_type: DataType, mode: LiquidCacheMode)
    requires
        mode is Liquid,
        is_text(data_type),
    ensures
        cached_type(reader_type(data_type), mode) == liquid_type(data_type, mode),
{
}

/// No change of type touches a column that holds neither text nor bytes.
pub proof fn other_types_stay(data_type: DataType, mode: LiquidCacheMode)
    requires
        !is_text(data_type),
        !is_bytes(data_type),
    ensures
        liquid_type(data_type, mode) == data_type,
        cached_type(data_type, mode) == data_type,
        text_for_bytes(data_type) == data_type,
        view_for_text(data_type) == data_type,
        reader_type(data_type) == data_type,
{
}

/// In every liquid mode, wherever the transcoding happens, text and bytes of every sort are handed
/// out as keys of sixteen bits into text.
pub proof fn liquid_modes_hand_out_dictionaries(data_type: DataType, background: bool)
    requires
        data_type is Utf8 || data_type is LargeUtf8 || data_type is Utf8View || data_type is Binary
            || data_type is LargeBinary || data_type is BinaryView,
    ensures
        liquid_type(data_type, LiquidCacheMode::Liquid { transcode_in_background: background })
            == DataType::Dictionary(Arc::new(DataType::UInt16), Arc::new(DataType::Utf8)),
{
}

/// When arrays are transcoded makes no difference to any type.
pub proof fn types_do_not_depend_on_when_arrays_are_transcoded(data_type: DataType, a: bool, b: bool)
    ensures
        liquid_type(data_type, LiquidCacheMode::Liquid { transcode_in_background: a })
            == liquid_type(data_type, LiquidCacheMode::Liquid { transcode_in_background: b }),
        cached_type(data_type, LiquidCacheMode::Liquid { transcode_in_background: a })
            == cached_type(data_type, LiquidCacheMode::Liquid { transcode_in_background: b }),
{
}

/// Text views are held as plain text where arrays are held as they were read, and else as keys of
/// sixteen bits into text; everything else is held in the type in which it was read.
pub proof fn only_text_views_are_held_in_another_type(data_type: DataType, background: bool)
    ensures
        cached_type(DataType::Utf8View, LiquidCacheMode::Arrow) == DataType::Utf8,
        cached_type(
            DataType::Utf8View,
            LiquidCacheMode::Liquid { transcode_in_background: background },
        ) == DataType::Dictionary(Arc::new(DataType::UInt16), Arc::new(DataType::Utf8)),
        data_type != DataType::Utf8View ==> cached_type(data_type, LiquidCacheMode::Arrow)
            == data_type && cached_type(
            data_type,
            LiquidCacheMode::Liquid { transcode_in_background: background },
        ) == data_type,
{
}

/// Parquet readers hand over text of every sort as text views and bytes of every sort as byte views.
/// Bytes taken for text become plain text, and plain text taken for views becomes text views.
pub proof fn text_and_bytes_change_as_one(data_type: DataType)
    ensures
        data_type is Utf8 || data_type is LargeUtf8 || data_type is Utf8View ==> reader_type(
            data_type,
        ) == DataType::Utf8View && text_for_bytes(data_type) == data_type && view_for_text(
            data_type,
        ) == DataType::Utf8View,
        data_type is Binary || data_type is LargeBinary || data_type is BinaryView ==> reader_type(
            data_type,
        ) == DataType::BinaryView && text_for_bytes(data_type) == DataType::Utf8 && view_for_text(
            data_type,
        ) == data_type,
{
}

/// A type that is neither text nor bytes of any length is the same before and after each change, in
/// every mode.
pub proof fn numbers_and_nested_types_stay(data_type: DataType, mode: LiquidCacheMode)
    requires
        !(data_type is Utf8),
        !(data_type is LargeUtf8),
        !(data_type is Utf8View),
        !(data_type is Binary),
        !(data_type is LargeBinary),
        !(data_type is BinaryView),
    ensures
        liquid_type(data_type, mode) == data_type,
        cached_type(data_type, mode) == data_type,
        text_for_bytes(data_type) == data_type,
        view_for_text(data_type) == data_type,
        reader_type(data_type) == data_type,
{
}

/// A change of types keeps the columns in their places, and of each column everything but its type.
pub proof fn retyping_changes_nothing_but_types(
    schema: Schema,
    f: spec_fn(DataType) -> DataType,
    i: int,
)
    requires
        0 <= i < schema.fields@.len(),
    ensures
        schema.retyped(f).len() == schema.fields@.len(),
        schema.retyped(f)[i].data_type == f(schema.fields@[i].data_type),
        schema.retyped(f)[i].name == schema.fields@[i].name,
        schema.retyped(f)[i].nullable == schema.fields@[i].nullable,
        schema.retyped(f)[i].dict_id == schema.fields@[i].dict_id,
        schema.retyped(f)[i].dict_is_ordered == schema.fields@[i].dict_is_ordered,
        schema.retyped(f)[i].metadata == schema.fields@[i].metadata,
{
}

/// A change of types, after another one, is the change to the last types.
pub proof fn retyping_twice_is_retyping_once(
    schema: Schema,
    between: Schema,
    f: spec_fn(DataType) -> DataType,
    g: spec_fn(DataType) -> DataType,
)
    requires
        between.fields@ == schema.retyped(f),
    ensures
        between.retyped(g) == schema.retyped(|t: DataType| g(f(t))),
{
    assert(between.retyped(g) =~= schema.retyped(|t: DataType| g(f(t))));
}

/// The message names the column that was asked for, and the number of columns, after fixed words.
pub proof fn message_names_index_and_columns(index: nat, columns: nat)
    ensures
        ({
            let first = "project index "@;
            let second = " out of bounds, max field "@;
            let message = out_of_bounds(index, columns);
            let m = first.len() + decimal(index).len();
            &&& message.take(first.len() as int) == first
            &&& message.subrange(first.len() as int, m as int) == decimal(index)
            &&& message.subrange(m as int, (m + second.len()) as int) == second
            &&& message.skip((m + second.len()) as int) == decimal(columns)
        }),
{
    let first = "project index "@;
    let second = " out of bounds, max field "@;
    let message = out_of_bounds(index, columns);
    let m = (first.len() + decimal(index).len()) as int;
    assert(message.take(first.len() as int) =~= first);
    assert(message.subrange(first.len() as int, m) =~= decimal(index));
    assert(message.subrange(m, m + second.len()) =~= second);
    assert(message.skip(m + second.len()) =~= decimal(columns));
}

} // verus!
