//! Arrow arrays: the rows that a selection keeps, and the type in which text is held.

use crate::bits::and_then_bits;
use crate::bits::buffer_bits;
use crate::bits::count_true;
use crate::bits::lemma_positions;
use crate::bits::lemma_rank_bounds;
use crate::bits::lemma_rank_in_range;
use crate::bits::lemma_rank_of_ones;
use crate::bits::narrowed_count;
use crate::bits::positions;
use crate::bits::positions_below;
use crate::bits::rank;
use crate::bits::rank_of_narrowed;
use crate::modes::LiquidCacheMode;
use crate::schema::cached_type;
use crate::schema::liquid_text;
use crate::schema::liquid_type;
use crate::schema::reader_type;
use crate::schema::DataType;
use crate::schema::Field;
use arrow::array::ArrayRef;
use arrow::buffer::BooleanBuffer;
use arrow::datatypes::DataType as ArrowType;
use arrow::datatypes::UnionMode;
use arrow::error::ArrowError;
use std::sync::Arc;
use vstd::prelude::*;

verus! {

/// An array of the crate `arrow`.
#[verifier::external_body]
pub struct ArrowArray {
    /// The array.
    pub inner: ArrayRef,
}

/// The values of an array in order: `None` for a null, and otherwise the value written down as
/// bytes, text in UTF-8 and all other values in some fixed way.
pub uninterp spec fn array_slots(array: ArrowArray) -> Seq<Option<Seq<u8>>>;

/// The type of an array.
pub uninterp spec fn array_type(array: ArrowArray) -> DataType;

/// The values of a sequence at the positions where a selection is true.
pub open spec fn selected<T>(values: Seq<T>, bits: Seq<bool>) -> Seq<T> {
    positions(bits).map_values(|p: int| values[p])
}

/// The different values of a sequence, nulls left out, each where it comes first.
pub open spec fn distinct<T>(slots: Seq<Option<T>>) -> Seq<T>
    decreases slots.len(),
{
    if slots.len() == 0 {
        Seq::empty()
    } else {
        let before = distinct(slots.drop_last());
        match slots.last() {
            None => before,
            Some(value) => if before.contains(value) {
                before
            } else {
                before.push(value)
            },
        }
    }
}

/// The number of bytes in a list of byte strings.
pub open spec fn total_bytes(values: Seq<Seq<u8>>) -> nat
    decreases values.len(),
{
    if values.len() == 0 {
        0
    } else {
        total_bytes(values.drop_last()) + values.last().len()
    }
}

/// The values of a sequence that are not null.
pub open spec fn non_null<T>(slots: Seq<Option<T>>) -> Seq<T>
    decreases slots.len(),
{
    if slots.len() == 0 {
        Seq::empty()
    } else {
        match slots.last() {
            None => non_null(slots.drop_last()),
            Some(value) => non_null(slots.drop_last()).push(value),
        }
    }
}

/// How the rows of a new array come about.
#[derive(Clone, Copy, Debug, PartialEq, Eq, Structural)]
pub enum Transfer {
    /// They are picked from an array whose rows stand one after the other.
    Pick,
    /// They are copied, each at most once, into memory that is set aside before.
    Copy,
    /// They are copied, any of them any number of times, into memory that is set aside before.
    Repeat,
    /// There are none.
    Clear,
    /// They stay where they are.
    Keep,
}

/// Whether so many values of a size can be set aside, rounded up and doubled.
pub open spec fn fits_in_memory(count: nat, size: int) -> bool {
    4 * (count * size + 256) <= isize::MAX
}

/// Whether rows of a type can be transferred, as far as the arrays inside are not concerned.
///
/// Nothing is made from run ends and values or from list views. A dictionary is not copied, since
/// the number of its values may not fit into its keys. A union has a first field; where it has
/// offsets, of 32 bits, it is not copied either, since their number inside a list is not bounded.
/// Rows that are repeated may hold more bytes, or more rows, than an offset of 32 bits can count.
pub open spec fn outside_can_be_filled(data_type: DataType, rows: nat, how: Transfer) -> bool {
    match data_type {
        DataType::RunEndEncoded(_, _) => false,
        DataType::ListView(_) => false,
        DataType::LargeListView(_) => false,
        DataType::List(_) => how != Transfer::Repeat && fits_in_memory(rows, 32),
        DataType::Pairs(_, _) => how != Transfer::Repeat && fits_in_memory(rows, 32),
        DataType::LargeList(_) => fits_in_memory(rows, 32),
        DataType::FixedSizeList(_, n) => n >= 0 && fits_in_memory(rows, n as int),
        DataType::Struct(_) => true,
        DataType::Union(fields, sparse) => fields@.len() > 0 && if sparse {
            how == Transfer::Pick || fits_in_memory(rows, 32)
        } else {
            (how == Transfer::Pick || how == Transfer::Clear) && rows <= i32::MAX
                && fits_in_memory(rows, 32)
        },
        DataType::Dictionary(_, _) => how == Transfer::Pick || how == Transfer::Clear,
        DataType::Utf8 => how == Transfer::Pick || how != Transfer::Repeat && fits_in_memory(
            rows,
            32,
        ),
        DataType::Binary => how == Transfer::Pick || how != Transfer::Repeat && fits_in_memory(
            rows,
            32,
        ),
        DataType::FixedSizeBinary(n) => how == Transfer::Pick || n >= 0 && fits_in_memory(
            rows,
            n as int,
        ),
        _ => how == Transfer::Pick || fits_in_memory(rows, 32),
    }
}

/// The number of rows that are set aside for in the arrays inside an array of a type.
pub open spec fn rows_inside(data_type: DataType, rows: nat) -> nat {
    match data_type {
        DataType::FixedSizeList(_, n) => (rows * n) as nat,
        DataType::Dictionary(_, _) => 0,
        _ => rows,
    }
}

/// How the rows of the arrays inside an array of a type come about.
pub open spec fn transfer_inside(data_type: DataType, how: Transfer) -> Transfer {
    if how == Transfer::Clear {
        Transfer::Clear
    } else {
        match data_type {
            DataType::Struct(_) => how,
            DataType::Union(_, sparse) => if sparse {
                how
            } else {
                Transfer::Repeat
            },
            DataType::Dictionary(_, _) => Transfer::Keep,
            _ => if how == Transfer::Repeat {
                Transfer::Repeat
            } else {
                Transfer::Copy
            },
        }
    }
}

/// Whether rows of a type can be transferred.
pub open spec fn can_be_filled(data_type: DataType, rows: nat, how: Transfer) -> bool
    decreases data_type,
    via children_are_smaller
{
    how == Transfer::Keep || outside_can_be_filled(data_type, rows, how) && forall|j: int|
        0 <= j < child_types(data_type).len() ==> can_be_filled(
            #[trigger] child_types(data_type)[j],
            rows_inside(data_type, rows),
            transfer_inside(data_type, how),
        )
}

#[via_fn]
proof fn children_are_smaller(data_type: DataType, rows: nat, how: Transfer) {
    lemma_children_are_smaller(data_type);
}

/// The arrays inside an array have smaller types.
proof fn lemma_children_are_smaller(data_type: DataType)
    ensures
        forall|j: int|
            0 <= j < child_types(data_type).len() ==> decreases_to!(data_type =>
                #[trigger] child_types(data_type)[j]),
{
    match data_type {
        DataType::Struct(fields) => {
            assert forall|j: int| 0 <= j < fields@.len() implies #[trigger] child_types(
                data_type,
            )[j] == fields@[j].data_type by {}
        },
        DataType::Union(fields, _) => {
            assert forall|j: int| 0 <= j < fields@.len() implies #[trigger] child_types(
                data_type,
            )[j] == fields@[j].1.data_type by {}
        },
        _ => {},
    }
}

/// Whether rows of a type can be selected: always where all are, since nothing is copied then.
pub open spec fn can_be_filtered(data_type: DataType, selection: Seq<bool>) -> bool {
    if count_true(selection) == 0 {
        can_be_filled(data_type, 0, Transfer::Clear)
    } else {
        count_true(selection) == selection.len() || can_be_filled(
            data_type,
            count_true(selection),
            Transfer::Pick,
        )
    }
}

/// The types in which text is held.
#[derive(Clone, Copy, Debug, PartialEq, Eq, Structural)]
pub enum TextType {
    /// Plain text.
    Plain,
    /// Keys of sixteen bits into distinct texts.
    Dictionary,
}

impl TextType {
    /// The type of the column.
    pub open spec fn data_type(self) -> DataType {
        match self {
            TextType::Plain => DataType::Utf8,
            TextType::Dictionary => liquid_text(),
        }
    }
}

/// Whether an array is one of text views.
fn is_text_view(array: &ArrowArray) -> (is: bool)
    ensures
        is == (array_type(*array) == DataType::Utf8View),
{
    array_leaf(array) == ArrayLeaf::Utf8View
}

/// `cast` from text views keeps the values. Into a dictionary it fails where there are more
/// different values than keys, and only there; into plain text it does not fail. It panics where
/// the bytes, those of the different values for a dictionary, go past what an offset can hold.
#[verifier::external_body]
fn cast_text(array: &ArrowArray, to: TextType) -> (result: Result<ArrowArray, ArrowError>)
    requires
        array_type(*array) == DataType::Utf8View,
        to == TextType::Plain ==> total_bytes(non_null(array_slots(*array))) <= i32::MAX,
        to == TextType::Dictionary ==> total_bytes(distinct(array_slots(*array))) <= i32::MAX,
    ensures
        result is Ok <==> to == TextType::Plain || distinct(array_slots(*array)).len() <= 65536,
        result is Ok ==> array_slots(result->Ok_0) == array_slots(*array) && array_type(
            result->Ok_0,
        ) == to.data_type(),
{
    let utf8 = ArrowType::Utf8;
    let to_type = match to {
        TextType::Plain => utf8,
        TextType::Dictionary => ArrowType::Dictionary(
            Box::new(ArrowType::UInt16),
            Box::new(utf8),
        ),
    };
    arrow::compute::kernels::cast(&array.inner, &to_type).map(|inner| ArrowArray { inner })
}

/// Whether an array can be cast into the type in which the cache holds it.
pub open spec fn can_be_held(array: ArrowArray, cache_mode: LiquidCacheMode) -> bool {
    array_type(array) == DataType::Utf8View ==> if cache_mode is Liquid {
        distinct(array_slots(array)).len() <= 65536 && total_bytes(distinct(array_slots(array)))
            <= i32::MAX
    } else {
        total_bytes(non_null(array_slots(array))) <= i32::MAX
    }
}

/// Casts an array that a Parquet reader hands over into the type in which the cache holds it.
pub fn cast_from_parquet_to_liquid_type(array: ArrowArray, cache_mode: &LiquidCacheMode) -> (result:
    ArrowArray)
    requires
        can_be_held(array, *cache_mode),
    ensures
        array_slots(result) == array_slots(array),
        array_type(result) == cached_type(array_type(array), *cache_mode),
{
    if !is_text_view(&array) {
        return array;
    }
    let to: TextType = match cache_mode {
        LiquidCacheMode::Arrow => TextType::Plain,
        LiquidCacheMode::Liquid { .. } => TextType::Dictionary,
    };
    match cast_text(&array, to) {
        Ok(result) => result,
        Err(_) => {
            assert(false);
            array
        },
    }
}

/// The values behind references to bytes.
pub open spec fn viewed(slots: Seq<Option<&[u8]>>) -> Seq<Option<Seq<u8>>> {
    slots.map_values(
        |slot: Option<&[u8]>|
            match slot {
                Some(bytes) => Some(bytes@),
                None => None,
            },
    )
}

/// `StringViewArray`, iterated over, hands out the texts in order, and `None` for a null.
#[verifier::external_body]
fn read_text_views(array: &ArrowArray) -> (slots: Vec<Option<&[u8]>>)
    requires
        array_type(*array) == DataType::Utf8View,
    ensures
        viewed(slots@) == array_slots(*array),
{
    let texts = arrow::array::AsArray::as_string_view(&array.inner);
    texts.iter().map(|slot| slot.map(|text| text.as_bytes())).collect()
}

/// Fewer values have no more bytes.
proof fn lemma_fewer_bytes(slots: Seq<Option<Seq<u8>>>, n: int)
    requires
        0 <= n <= slots.len(),
    ensures
        total_bytes(non_null(slots.take(n))) <= total_bytes(non_null(slots)),
        total_bytes(distinct(slots.take(n))) <= total_bytes(distinct(slots)),
    decreases slots.len(),
{
    if n == slots.len() {
        assert(slots.take(n) =~= slots);
    } else {
        let before = slots.drop_last();
        lemma_fewer_bytes(before, n);
        assert(before.take(n) =~= slots.take(n));
        if let Some(value) = slots.last() {
            assert(non_null(before).push(value).drop_last() =~= non_null(before));
            assert(distinct(before).push(value).drop_last() =~= distinct(before));
        }
    }
}

/// Different values have no more bytes than all values.
proof fn lemma_distinct_bytes(slots: Seq<Option<Seq<u8>>>)
    ensures
        total_bytes(distinct(slots)) <= total_bytes(non_null(slots)),
    decreases slots.len(),
{
    if slots.len() > 0 {
        let before = slots.drop_last();
        lemma_distinct_bytes(before);
        if let Some(value) = slots.last() {
            assert(non_null(before).push(value).drop_last() =~= non_null(before));
            assert(distinct(before).push(value).drop_last() =~= distinct(before));
        }
    }
}

/// Whether the bytes of all values can be counted in 31 bits.
fn all_bytes_fit(slots: &Vec<Option<&[u8]>>) -> (is: bool)
    ensures
        is == (total_bytes(non_null(viewed(slots@))) <= i32::MAX),
{
    let ghost all = viewed(slots@);
    let limit: usize = i32::MAX as usize;
    let mut bytes: usize = 0;
    let mut i: usize = 0;
    while i < slots.len()
        invariant
            i <= slots@.len(),
            all == viewed(slots@),
            limit == i32::MAX,
            bytes <= limit,
            bytes == total_bytes(non_null(all.take(i as int))),
        decreases slots@.len() - i,
    {
        proof {
            assert(all.take(i + 1).drop_last() =~= all.take(i as int));
            lemma_fewer_bytes(all, i + 1);
        }
        if let Some(value) = slots[i] {
            proof {
                let before = non_null(all.take(i as int));
                assert(before.push(value@).drop_last() =~= before);
            }
            if value.len() > limit - bytes {
                return false;
            }
            bytes += value.len();
        }
        i += 1;
    }
    assert(all.take(i as int) =~= all);
    true
}

/// Whether two byte strings are the same.
fn same_bytes(a: &[u8], b: &[u8]) -> (is: bool)
    ensures
        is == (a@ == b@),
{
    if a.len() != b.len() {
        return false;
    }
    let mut i: usize = 0;
    while i < a.len()
        invariant
            i <= a@.len(),
            a@.len() == b@.len(),
            forall|j: int| 0 <= j < i ==> a@[j] == b@[j],
        decreases a@.len() - i,
    {
        if a[i] != b[i] {
            return false;
        }
        i += 1;
    }
    assert(a@ =~= b@);
    true
}

/// Whether a value is among others.
fn is_among(values: &Vec<&[u8]>, value: &[u8]) -> (is: bool)
    ensures
        is == values@.map_values(|v: &[u8]| v@).contains(value@),
{
    let ghost all = values@.map_values(|v: &[u8]| v@);
    let mut i: usize = 0;
    while i < values.len()
        invariant
            i <= values@.len(),
            all == values@.map_values(|v: &[u8]| v@),
            forall|j: int| 0 <= j < i ==> #[trigger] all[j] != value@,
        decreases values@.len() - i,
    {
        if same_bytes(values[i], value) {
            assert(all[i as int] == value@);
            return true;
        }
        i += 1;
    }
    false
}

/// Whether the bytes of the different values can be counted in 31 bits.
fn distinct_bytes_fit(slots: &Vec<Option<&[u8]>>) -> (is: bool)
    ensures
        is == (total_bytes(distinct(viewed(slots@))) <= i32::MAX),
{
    let ghost all = viewed(slots@);
    let limit: usize = i32::MAX as usize;
    let mut values: Vec<&[u8]> = Vec::new();
    let mut bytes: usize = 0;
    let mut i: usize = 0;
    assert(values@.map_values(|v: &[u8]| v@) =~= distinct(all.take(0)));
    while i < slots.len()
        invariant
            i <= slots@.len(),
            all == viewed(slots@),
            limit == i32::MAX,
            bytes <= limit,
            values@.map_values(|v: &[u8]| v@) == distinct(all.take(i as int)),
            bytes == total_bytes(distinct(all.take(i as int))),
        decreases slots@.len() - i,
    {
        proof {
            assert(all.take(i + 1).drop_last() =~= all.take(i as int));
            lemma_fewer_bytes(all, i + 1);
        }
        if let Some(value) = slots[i] {
            if !is_among(&values, value) {
                proof {
                    let before = distinct(all.take(i as int));
                    assert(before.push(value@).drop_last() =~= before);
                    assert(values@.push(value).map_values(|v: &[u8]| v@) =~= before.push(value@));
                }
                if value.len() > limit - bytes {
                    return false;
                }
                bytes += value.len();
                values.push(value);
            }
        }
        i += 1;
    }
    assert(all.take(i as int) =~= all);
    true
}

/// Casts an array that a Parquet reader hands over into the type in which the cache holds it;
/// nothing where its texts are too many or too long for that type. See
/// [cast_from_parquet_to_liquid_type].
pub fn try_cast_from_parquet_to_liquid_type(
    array: ArrowArray,
    cache_mode: &LiquidCacheMode,
) -> (result: Option<ArrowArray>)
    ensures
        result is Some <==> can_be_held(array, *cache_mode),
        array_type(array) != DataType::Utf8View ==> result is Some,
        array_type(array) == DataType::Utf8View && *cache_mode is Arrow ==> (result is Some
            <==> total_bytes(non_null(array_slots(array))) <= i32::MAX),
        array_type(array) == DataType::Utf8View && *cache_mode is Liquid ==> (result is Some
            <==> distinct(array_slots(array)).len() <= 65536 && total_bytes(
            distinct(array_slots(array)),
        ) <= i32::MAX),
        result is Some ==> array_slots(result->0) == array_slots(array),
        result is Some ==> array_type(result->0) == cached_type(array_type(array), *cache_mode),
{
    if !is_text_view(&array) {
        return Some(array);
    }
    let slots = read_text_views(&array);
    proof {
        lemma_distinct_bytes(array_slots(array));
    }
    let to: TextType = match cache_mode {
        LiquidCacheMode::Arrow => TextType::Plain,
        LiquidCacheMode::Liquid { .. } => TextType::Dictionary,
    };
    if !all_bytes_fit(&slots) && (to == TextType::Plain || !distinct_bytes_fit(&slots)) {
        return None;
    }
    match cast_text(&array, to) {
        Ok(result) => Some(result),
        Err(_) => None,
    }
}

/// `filter` keeps the values at the positions where the selection is true, in order. The selection
/// must not be longer than the array.
///
/// Where some rows are selected and others are not, most nested arrays are copied through
/// `MutableArrayData`, which sets memory aside by the type, counts in the offsets of the type and
/// panics where one of these does not suffice, where a dictionary has as many values as its keys can
/// tell apart, and on list views. Where no row is selected, an empty array is made, which panics on
/// list views and on unions without fields. Run ends and values are left out in both cases, since
/// `filter` misreads them where they are sliced and names their fields anew.
#[verifier::external_body]
fn filter(values: &ArrowArray, selection: &BooleanBuffer) -> (result: Result<
    ArrowArray,
    ArrowError,
>)
    requires
        buffer_bits(*selection).len() <= array_slots(*values).len(),
        can_be_filtered(array_type(*values), buffer_bits(*selection)),
    ensures
        result is Ok,
        array_slots(result->Ok_0) == selected(array_slots(*values), buffer_bits(*selection)),
        array_type(result->Ok_0) == array_type(*values),
{
    let mask = arrow::array::BooleanArray::new(selection.clone(), None);
    arrow::compute::filter(&values.inner, &mask).map(|inner| ArrowArray { inner })
}

/// The rows of an array that a selection keeps.
pub fn select_rows(array: &ArrowArray, selection: &BooleanBuffer) -> (result: ArrowArray)
    requires
        buffer_bits(*selection).len() <= array_slots(*array).len(),
        can_be_filtered(array_type(*array), buffer_bits(*selection)),
    ensures
        array_slots(result) == selected(array_slots(*array), buffer_bits(*selection)),
        array_type(result) == array_type(*array),
{
    filter(array, selection).unwrap()
}

/// How an array is put together.
#[derive(Clone, Copy, Debug, PartialEq, Eq, Structural)]
pub enum ArrayShape {
    /// From values.
    Leaf,
    /// From lists.
    List,
    /// From lists, with wide offsets.
    LargeList,
    /// From lists of one size.
    FixedSizeList(i32),
    /// From views of lists.
    ListView,
    /// From views of lists, with wide offsets.
    LargeListView,
    /// From fields side by side.
    Struct,
    /// From one of several fields, all of them as long as the array.
    SparseUnion,
    /// From one of several fields, with offsets into them.
    DenseUnion,
    /// From keys into values.
    Dictionary,
    /// From key and value pairs.
    Pairs,
    /// From run ends and values.
    RunEnds,
}

/// How an array of a type is put together.
pub open spec fn shape_of(data_type: DataType) -> ArrayShape {
    match data_type {
        DataType::List(_) => ArrayShape::List,
        DataType::LargeList(_) => ArrayShape::LargeList,
        DataType::FixedSizeList(_, n) => ArrayShape::FixedSizeList(n),
        DataType::ListView(_) => ArrayShape::ListView,
        DataType::LargeListView(_) => ArrayShape::LargeListView,
        DataType::Struct(_) => ArrayShape::Struct,
        DataType::Union(_, true) => ArrayShape::SparseUnion,
        DataType::Union(_, false) => ArrayShape::DenseUnion,
        DataType::Dictionary(_, _) => ArrayShape::Dictionary,
        DataType::Pairs(_, _) => ArrayShape::Pairs,
        DataType::RunEndEncoded(_, _) => ArrayShape::RunEnds,
        _ => ArrayShape::Leaf,
    }
}

/// What an array holds as values, as far as it matters here.
#[derive(Clone, Copy, Debug, PartialEq, Eq, Structural)]
pub enum ArrayLeaf {
    /// Text.
    Utf8,
    /// Text, as views.
    Utf8View,
    /// Bytes.
    Binary,
    /// Bytes of one length.
    FixedSizeBinary(i32),
    /// Something else.
    Other,
}

/// What an array of a type holds as values.
pub open spec fn leaf_of(data_type: DataType) -> ArrayLeaf {
    match data_type {
        DataType::Utf8 => ArrayLeaf::Utf8,
        DataType::Utf8View => ArrayLeaf::Utf8View,
        DataType::Binary => ArrayLeaf::Binary,
        DataType::FixedSizeBinary(n) => ArrayLeaf::FixedSizeBinary(n),
        _ => ArrayLeaf::Other,
    }
}

/// The types of the arrays inside an array of a type.
pub open spec fn child_types(data_type: DataType) -> Seq<DataType> {
    match data_type {
        DataType::List(item) => seq![item.data_type],
        DataType::LargeList(item) => seq![item.data_type],
        DataType::FixedSizeList(item, _) => seq![item.data_type],
        DataType::ListView(item) => seq![item.data_type],
        DataType::LargeListView(item) => seq![item.data_type],
        DataType::Struct(fields) => fields@.map_values(|field: Arc<Field>| field.data_type),
        DataType::Union(fields, _) => fields@.map_values(
            |field: (i8, Arc<Field>)| field.1.data_type,
        ),
        DataType::Dictionary(_, value) => seq![*value],
        DataType::Pairs(entry, _) => seq![entry.data_type],
        DataType::RunEndEncoded(ends, values) => seq![ends.data_type, values.data_type],
        _ => Seq::empty(),
    }
}

/// `Array::len` is the number of values.
#[verifier::external_body]
fn array_len(array: &ArrowArray) -> (n: usize)
    ensures
        n == array_slots(*array).len(),
{
    array.inner.len()
}

/// `Array::data_type`, its variants with arrays inside told apart.
#[verifier::external_body]
fn array_shape(array: &ArrowArray) -> (shape: ArrayShape)
    ensures
        shape == shape_of(array_type(*array)),
{
    match array.inner.data_type() {
        ArrowType::List(_) => ArrayShape::List,
        ArrowType::LargeList(_) => ArrayShape::LargeList,
        ArrowType::FixedSizeList(_, n) => ArrayShape::FixedSizeList(*n),
        ArrowType::ListView(_) => ArrayShape::ListView,
        ArrowType::LargeListView(_) => ArrayShape::LargeListView,
        ArrowType::Struct(_) => ArrayShape::Struct,
        ArrowType::Union(_, UnionMode::Sparse) => ArrayShape::SparseUnion,
        ArrowType::Union(_, UnionMode::Dense) => ArrayShape::DenseUnion,
        ArrowType::Dictionary(_, _) => ArrayShape::Dictionary,
        ArrowType::Map(_, _) => ArrayShape::Pairs,
        ArrowType::RunEndEncoded(_, _) => ArrayShape::RunEnds,
        _ => ArrayShape::Leaf,
    }
}

/// `Array::data_type`, some of its variants without arrays inside told apart.
#[verifier::external_body]
fn array_leaf(array: &ArrowArray) -> (leaf: ArrayLeaf)
    ensures
        leaf == leaf_of(array_type(*array)),
{
    match array.inner.data_type() {
        ArrowType::Utf8 => ArrayLeaf::Utf8,
        ArrowType::Utf8View => ArrayLeaf::Utf8View,
        ArrowType::Binary => ArrayLeaf::Binary,
        ArrowType::FixedSizeBinary(n) => ArrayLeaf::FixedSizeBinary(*n),
        _ => ArrayLeaf::Other,
    }
}

/// `Array::to_data` and `ArrayData::child_data` hold the arrays inside an array, in the order in
/// which its type lists them; `make_array` turns each into an array again.
#[verifier::external_body]
fn array_children(array: &ArrowArray) -> (children: Vec<ArrowArray>)
    ensures
        children@.map_values(|child: ArrowArray| array_type(child)) == child_types(
            array_type(*array),
        ),
{
    let data = array.inner.to_data();
    data.child_data()
        .iter()
        .map(|child| ArrowArray { inner: arrow::array::make_array(child.clone()) })
        .collect()
}

/// Whether so many values of a size can be set aside.
fn values_fit(count: usize, size: usize) -> (is: bool)
    ensures
        is == fits_in_memory(count as nat, size as int),
{
    match count.checked_mul(size) {
        Some(bytes) => bytes <= (isize::MAX as usize) / 4 - 256,
        None => false,
    }
}

/// Whether rows of an array can be transferred, as far as the arrays inside are not concerned.
fn outside_is_fillable(array: &ArrowArray, children: usize, rows: usize, how: Transfer) -> (is: bool)
    requires
        children == child_types(array_type(*array)).len(),
    ensures
        is == outside_can_be_filled(array_type(*array), rows as nat, how),
{
    match array_shape(array) {
        ArrayShape::RunEnds | ArrayShape::ListView | ArrayShape::LargeListView => false,
        ArrayShape::List | ArrayShape::Pairs => how != Transfer::Repeat && values_fit(rows, 32),
        ArrayShape::LargeList => values_fit(rows, 32),
        ArrayShape::FixedSizeList(n) => n >= 0 && values_fit(rows, n as usize),
        ArrayShape::Struct => true,
        ArrayShape::SparseUnion => children > 0 && (how == Transfer::Pick || values_fit(rows, 32)),
        ArrayShape::DenseUnion => children > 0 && (how == Transfer::Pick || how == Transfer::Clear)
            && rows <= i32::MAX as usize && values_fit(rows, 32),
        ArrayShape::Dictionary => how == Transfer::Pick || how == Transfer::Clear,
        ArrayShape::Leaf => how == Transfer::Pick || match array_leaf(array) {
            ArrayLeaf::Utf8 | ArrayLeaf::Binary => how != Transfer::Repeat && values_fit(rows, 32),
            ArrayLeaf::FixedSizeBinary(n) => n >= 0 && values_fit(rows, n as usize),
            _ => values_fit(rows, 32),
        },
    }
}

/// Whether rows of an array can be transferred.
fn is_fillable(array: &ArrowArray, rows: usize, how: Transfer) -> (is: bool)
    ensures
        is == can_be_filled(array_type(*array), rows as nat, how),
    decreases array_type(*array),
{
    if how == Transfer::Keep {
        return true;
    }
    let ghost t = array_type(*array);
    let children = array_children(array);
    let n: usize = children.len();
    assert(children@.map_values(|child: ArrowArray| array_type(child)).len() == n);
    if !outside_is_fillable(array, n, rows, how) {
        return false;
    }
    let shape = array_shape(array);
    let inside: usize = match shape {
        ArrayShape::FixedSizeList(size) => rows * size as usize,
        ArrayShape::Dictionary => 0,
        _ => rows,
    };
    let how_inside = match (how, shape) {
        (Transfer::Clear, _) => Transfer::Clear,
        (_, ArrayShape::Dictionary) => Transfer::Keep,
        (_, ArrayShape::Struct) => how,
        (_, ArrayShape::SparseUnion) => how,
        (_, ArrayShape::DenseUnion) => Transfer::Repeat,
        (Transfer::Repeat, _) => Transfer::Repeat,
        _ => Transfer::Copy,
    };
    proof {
        lemma_children_are_smaller(t);
    }
    let mut i: usize = 0;
    while i < n
        invariant
            i <= n,
            n == children@.len(),
            n == child_types(t).len(),
            t == array_type(*array),
            children@.map_values(|child: ArrowArray| array_type(child)) == child_types(t),
            how != Transfer::Keep,
            outside_can_be_filled(t, rows as nat, how),
            n > 0 ==> inside == rows_inside(t, rows as nat) && how_inside == transfer_inside(
                t,
                how,
            ),
            forall|j: int|
                0 <= j < i ==> can_be_filled(
                    #[trigger] child_types(t)[j],
                    inside as nat,
                    how_inside,
                ),
            forall|j: int|
                0 <= j < child_types(t).len() ==> decreases_to!(t => #[trigger] child_types(t)[j]),
        decreases n - i,
    {
        assert(child_types(t)[i as int] == array_type(children@[i as int]));
        if !is_fillable(&children[i], inside, how_inside) {
            return false;
        }
        i += 1;
    }
    true
}

/// Whether the rows that a selection keeps can be taken from an array.
pub fn is_filterable(array: &ArrowArray, selection: &BooleanBuffer) -> (is: bool)
    ensures
        is == can_be_filtered(array_type(*array), buffer_bits(*selection)),
{
    let count: usize = selection.count_set_bits();
    if count == 0 {
        is_fillable(array, 0, Transfer::Clear)
    } else {
        count == selection.len() || is_fillable(array, count, Transfer::Pick)
    }
}

/// The rows of an array that a selection keeps; nothing where the selection is longer than the array
/// or rows of its type cannot be selected.
pub fn try_select_rows(array: &ArrowArray, selection: &BooleanBuffer) -> (result: Option<ArrowArray>)
    ensures
        result is Some <==> buffer_bits(*selection).len() <= array_slots(*array).len()
            && can_be_filtered(array_type(*array), buffer_bits(*selection)),
        result is Some ==> array_slots(result->0) == selected(
            array_slots(*array),
            buffer_bits(*selection),
        ) && array_type(result->0) == array_type(*array),
{
    if selection.len() <= array_len(array) && is_filterable(array, selection) {
        Some(select_rows(array, selection))
    } else {
        None
    }
}

/// Selecting all rows gives all rows.
pub proof fn selecting_all_gives_all<T>(values: Seq<T>)
    ensures
        selected(values, Seq::new(values.len(), |i: int| true)) == values,
{
    let ones = Seq::new(values.len(), |i: int| true);
    lemma_positions(ones, ones.len() as int);
    assert forall|i: int| 0 <= i < values.len() implies #[trigger] positions(ones)[i] == i by {
        lemma_rank_of_ones(ones, i);
        assert(ones[i]);
        assert(positions(ones)[rank(ones, i) as int] == i);
    }
    lemma_rank_of_ones(ones, ones.len() as int);
    assert(selected(values, ones) =~= values);
}

/// The number of kept rows is the number of true values of the selection.
pub proof fn selected_len<T>(values: Seq<T>, bits: Seq<bool>)
    ensures
        selected(values, bits).len() == count_true(bits),
{
    lemma_positions(bits, bits.len() as int);
}

/// Keeping rows of the kept rows is keeping rows of all by the narrowed selection.
pub proof fn selecting_twice_is_narrowing<T>(values: Seq<T>, left: Seq<bool>, right: Seq<bool>)
    requires
        left.len() <= values.len(),
        count_true(left) == right.len(),
    ensures
        selected(selected(values, left), right) == selected(values, and_then_bits(left, right)),
{
    let both = and_then_bits(left, right);
    let p = positions(left);
    let q = positions(right);
    let n = positions(both);
    lemma_positions(left, left.len() as int);
    lemma_positions(right, right.len() as int);
    lemma_positions(both, both.len() as int);
    narrowed_count(left, right);
    assert forall|k: int| 0 <= k < n.len() implies n[k] == p[#[trigger] q[k]] by {
        let i = n[k];
        assert(both[i] && rank(both, i) == k);
        rank_of_narrowed(left, right, i);
        let j = rank(left, i) as int;
        lemma_rank_in_range(left, i);
        assert(right[j] && rank(right, j) == k);
        assert(q[rank(right, j) as int] == j);
        assert(p[rank(left, i) as int] == i);
    }
    assert(selected(selected(values, left), right) =~= selected(values, both));
}

/// Whether values of a type hold no arrays inside: text, bytes, numbers, booleans, dates, times and
/// the like.
pub open spec fn is_flat(data_type: DataType) -> bool {
    match data_type {
        DataType::List(_) => false,
        DataType::LargeList(_) => false,
        DataType::FixedSizeList(_, _) => false,
        DataType::ListView(_) => false,
        DataType::LargeListView(_) => false,
        DataType::Struct(_) => false,
        DataType::Union(_, _) => false,
        DataType::Dictionary(_, _) => false,
        DataType::Pairs(_, _) => false,
        DataType::RunEndEncoded(_, _) => false,
        DataType::FixedSizeBinary(n) => n >= 0,
        _ => true,
    }
}

/// Rows of text, bytes, numbers, booleans, dates, times and decimals can be selected, whichever and
/// however many.
pub proof fn rows_of_flat_types_can_be_selected(data_type: DataType, selection: Seq<bool>)
    requires
        is_flat(data_type),
    ensures
        can_be_filtered(data_type, selection),
{
    assert(child_types(data_type) =~= Seq::<DataType>::empty());
    assert(fits_in_memory(0, 32));
    if let DataType::FixedSizeBinary(n) = data_type {
        assert(0 * (n as int) == 0) by (nonlinear_arith);
    }
    assert(can_be_filled(data_type, 0, Transfer::Clear));
    assert(can_be_filled(data_type, count_true(selection), Transfer::Pick));
}

/// Rows of dictionaries of flat values can be selected, whichever and however many.
pub proof fn rows_of_dictionaries_can_be_selected(
    key: Arc<DataType>,
    value: Arc<DataType>,
    selection: Seq<bool>,
)
    requires
        is_flat(*value),
    ensures
        can_be_filtered(DataType::Dictionary(key, value), selection),
{
    let t = DataType::Dictionary(key, value);
    assert(child_types(t) =~= seq![*value]);
    let inside = child_types(t)[0];
    rows_of_flat_types_can_be_selected(inside, Seq::empty());
    assert(can_be_filled(*value, 0, Transfer::Clear));
    assert(can_be_filled(*value, 0, Transfer::Keep));
    assert(can_be_filled(t, 0, Transfer::Clear));
    assert(can_be_filled(t, count_true(selection), Transfer::Pick));
}

/// Rows of a flat column can be selected from what the cache holds of it, in every mode.
pub proof fn rows_of_cached_columns_can_be_selected(
    data_type: DataType,
    mode: LiquidCacheMode,
    selection: Seq<bool>,
)
    requires
        is_flat(data_type),
    ensures
        can_be_filtered(cached_type(reader_type(data_type), mode), selection),
        can_be_filtered(cached_type(data_type, mode), selection),
        can_be_filtered(liquid_type(data_type, mode), selection),
{
    rows_of_flat_types_can_be_selected(reader_type(data_type), selection);
    rows_of_flat_types_can_be_selected(data_type, selection);
    rows_of_flat_types_can_be_selected(DataType::Utf8, selection);
    rows_of_dictionaries_can_be_selected(
        Arc::new(DataType::UInt16),
        Arc::new(DataType::Utf8),
        selection,
    );
}

/// Where all rows are selected, of at least one, they can be selected whatever their type.
pub proof fn all_rows_can_be_selected(data_type: DataType, selection: Seq<bool>)
    requires
        selection.len() > 0,
        forall|i: int| 0 <= i < selection.len() ==> selection[i],
    ensures
        can_be_filtered(data_type, selection),
{
    lemma_rank_of_ones(selection, selection.len() as int);
}

/// Unless all are, rows of fields side by side can be selected exactly if they can be of each field.
pub proof fn rows_of_structs_can_be_selected(fields: Arc<Vec<Arc<Field>>>, selection: Seq<bool>)
    requires
        count_true(selection) < selection.len() || selection.len() == 0,
    ensures
        can_be_filtered(DataType::Struct(fields), selection) <==> forall|i: int|
            0 <= i < fields@.len() ==> can_be_filtered(
                (#[trigger] fields@[i]).data_type,
                selection,
            ),
{
    let t = DataType::Struct(fields);
    let n = count_true(selection);
    let how = if n == 0 {
        Transfer::Clear
    } else {
        Transfer::Pick
    };
    lemma_rank_bounds(selection, selection.len() as int);
    assert(child_types(t) =~= fields@.map_values(|field: Arc<Field>| field.data_type));
    assert forall|j: int| 0 <= j < fields@.len() implies #[trigger] child_types(t)[j]
        == fields@[j].data_type by {}
    if can_be_filtered(t, selection) {
        assert forall|i: int| 0 <= i < fields@.len() implies can_be_filtered(
            (#[trigger] fields@[i]).data_type,
            selection,
        ) by {
            assert(can_be_filled(child_types(t)[i], n, how));
        }
    }
    if forall|i: int|
        0 <= i < fields@.len() ==> can_be_filtered((#[trigger] fields@[i]).data_type, selection) {
        assert forall|j: int| 0 <= j < child_types(t).len() implies can_be_filled(
            #[trigger] child_types(t)[j],
            n,
            how,
        ) by {
            assert(can_be_filtered(fields@[j].data_type, selection));
        }
    }
}

/// Rows of lists of flat values can be selected as long as so many values can be set aside.
pub proof fn rows_of_lists_can_be_selected(
    item: Arc<Field>,
    size: i32,
    sorted: bool,
    selection: Seq<bool>,
)
    requires
        is_flat(item.data_type),
        !(item.data_type is FixedSizeBinary),
        4 * (32 * count_true(selection) + 256) <= isize::MAX,
    ensures
        can_be_filtered(DataType::List(item), selection),
        can_be_filtered(DataType::LargeList(item), selection),
        can_be_filtered(DataType::Pairs(item, sorted), selection),
        size >= 0 && 4 * (32 * (count_true(selection) * size) + 256) <= isize::MAX
            ==> can_be_filtered(DataType::FixedSizeList(item, size), selection),
{
    let n = count_true(selection);
    let inside = child_types(DataType::List(item))[0];
    rows_of_flat_types_can_be_selected(inside, Seq::empty());
    assert(child_types(item.data_type) =~= Seq::<DataType>::empty());
    assert(can_be_filled(item.data_type, 0, Transfer::Clear));
    assert(can_be_filled(item.data_type, n, Transfer::Copy));
    assert(child_types(DataType::List(item)) =~= seq![item.data_type]);
    assert(child_types(DataType::LargeList(item)) =~= seq![item.data_type]);
    assert(child_types(DataType::Pairs(item, sorted)) =~= seq![item.data_type]);
    assert(can_be_filled(DataType::List(item), 0, Transfer::Clear));
    assert(can_be_filled(DataType::List(item), n, Transfer::Pick));
    assert(can_be_filled(DataType::LargeList(item), 0, Transfer::Clear));
    assert(can_be_filled(DataType::LargeList(item), n, Transfer::Pick));
    assert(can_be_filled(DataType::Pairs(item, sorted), 0, Transfer::Clear));
    assert(can_be_filled(DataType::Pairs(item, sorted), n, Transfer::Pick));
    if size >= 0 && 4 * (32 * (n * size) + 256) <= isize::MAX {
        let t = DataType::FixedSizeList(item, size);
        assert(n * size >= 0) by (nonlinear_arith)
            requires
                size >= 0,
        ;
        assert(0 * (size as int) == 0) by (nonlinear_arith);
        assert(child_types(t) =~= seq![item.data_type]);
        assert(can_be_filled(item.data_type, (n * size) as nat, Transfer::Copy));
        assert(can_be_filled(t, 0, Transfer::Clear));
        assert(can_be_filled(t, n, Transfer::Pick));
    }
}

/// Rows of unions of flat fields, of at least one, can be selected as long as so many values can be
/// set aside; where the union has offsets, its fields must have values of one size.
pub proof fn rows_of_unions_can_be_selected(
    fields: Arc<Vec<(i8, Arc<Field>)>>,
    selection: Seq<bool>,
)
    requires
        fields@.len() > 0,
        forall|i: int| 0 <= i < fields@.len() ==> is_flat((#[trigger] fields@[i]).1.data_type),
    ensures
        can_be_filtered(DataType::Union(fields, true), selection),
        count_true(selection) <= i32::MAX && 4 * (32 * count_true(selection) + 256) <= isize::MAX && (
        forall|i: int|
            0 <= i < fields@.len() ==> {
                let t = (#[trigger] fields@[i]).1.data_type;
                !(t is Utf8) && !(t is Binary) && !(t is FixedSizeBinary)
            }) ==> can_be_filtered(DataType::Union(fields, false), selection),
{
    let n = count_true(selection);
    let sparse = DataType::Union(fields, true);
    let dense = DataType::Union(fields, false);
    assert forall|j: int| 0 <= j < fields@.len() implies #[trigger] child_types(sparse)[j]
        == fields@[j].1.data_type by {}
    assert forall|j: int| 0 <= j < fields@.len() implies #[trigger] child_types(dense)[j]
        == fields@[j].1.data_type by {}
    assert forall|j: int| 0 <= j < child_types(sparse).len() implies can_be_filled(
        #[trigger] child_types(sparse)[j],
        0,
        Transfer::Clear,
    ) && can_be_filled(child_types(sparse)[j], n, Transfer::Pick) by {
        let t = fields@[j].1.data_type;
        rows_of_flat_types_can_be_selected(t, Seq::empty());
        assert(child_types(t) =~= Seq::<DataType>::empty());
    }
    assert(fits_in_memory(0, 32));
    assert(can_be_filled(sparse, 0, Transfer::Clear));
    assert(can_be_filled(sparse, n, Transfer::Pick));
    assert forall|j: int| 0 <= j < child_types(dense).len() implies can_be_filled(
        #[trigger] child_types(dense)[j],
        0,
        Transfer::Clear,
    ) by {
        assert(child_types(dense)[j] == child_types(sparse)[j]);
    }
    assert(can_be_filled(dense, 0, Transfer::Clear));
    if n <= i32::MAX && fits_in_memory(n, 32) && forall|i: int|
        0 <= i < fields@.len() ==> {
            let t = (#[trigger] fields@[i]).1.data_type;
            !(t is Utf8) && !(t is Binary) && !(t is FixedSizeBinary)
        } {
        assert forall|j: int| 0 <= j < child_types(dense).len() implies can_be_filled(
            #[trigger] child_types(dense)[j],
            n,
            Transfer::Repeat,
        ) by {
            let t = fields@[j].1.data_type;
            assert(child_types(t) =~= Seq::<DataType>::empty());
        }
        assert(can_be_filled(dense, n, Transfer::Pick));
    }
}

/// Unless all rows are selected, none can be of run ends and values, of list views and of unions
/// without fields, nor, where some are, of lists of dictionaries.
pub proof fn rows_that_cannot_be_selected(
    a: Arc<Field>,
    b: Arc<Field>,
    none: Arc<Vec<(i8, Arc<Field>)>>,
    sparse: bool,
    selection: Seq<bool>,
)
    requires
        count_true(selection) < selection.len() || selection.len() == 0,
        none@.len() == 0,
    ensures
        !can_be_filtered(DataType::RunEndEncoded(a, b), selection),
        !can_be_filtered(DataType::ListView(a), selection),
        !can_be_filtered(DataType::LargeListView(a), selection),
        !can_be_filtered(DataType::Union(none, sparse), selection),
        count_true(selection) > 0 && a.data_type is Dictionary ==> !can_be_filtered(
            DataType::List(a),
            selection,
        ) && !can_be_filtered(DataType::LargeList(a), selection),
{
    let n = count_true(selection);
    let inside = child_types(DataType::List(a))[0];
    if n > 0 && inside is Dictionary {
        assert(!can_be_filled(a.data_type, n, Transfer::Copy));
        assert(child_types(DataType::List(a))[0] == a.data_type);
        assert(child_types(DataType::LargeList(a))[0] == a.data_type);
    }
}

/// Of one value more, exactly the selected ones and, if it is selected, that one are taken, in order.
pub proof fn selecting_goes_value_by_value<T>(values: Seq<T>, bits: Seq<bool>, value: T, bit: bool)
    requires
        values.len() == bits.len(),
    ensures
        selected(Seq::<T>::empty(), Seq::empty()).len() == 0,
        selected(values.push(value), bits.push(bit)) == if bit {
            selected(values, bits).push(value)
        } else {
            selected(values, bits)
        },
{
    let n = bits.len() as int;
    let more = bits.push(bit);
    lemma_positions_local(bits, more, n);
    lemma_positions(bits, n);
    assert(more[n] == bit);
    let before = positions(bits);
    assert forall|k: int| 0 <= k < before.len() implies values.push(value)[#[trigger] before[k]]
        == values[before[k]] by {}
    if bit {
        assert(positions(more) == before.push(n));
        assert(selected(values.push(value), more) =~= selected(values, bits).push(value));
    } else {
        assert(positions(more) == before);
        assert(selected(values.push(value), more) =~= selected(values, bits));
    }
}

proof fn lemma_positions_local(a: Seq<bool>, b: Seq<bool>, n: int)
    requires
        n <= a.len(),
        n <= b.len(),
        forall|i: int| 0 <= i < n ==> a[i] == b[i],
    ensures
        positions_below(a, n) == positions_below(b, n),
    decreases n,
{
    if n > 0 {
        lemma_positions_local(a, b, n - 1);
    }
}

/// The different values stand in the order in which they come first: wherever one stands before
/// another, some occurrence of the first comes before all occurrences of the second.
pub proof fn distinct_values_stand_as_they_come<T>(slots: Seq<Option<T>>, i: int, j: int)
    requires
        0 <= i < j < distinct(slots).len(),
    ensures
        exists|p: int|
            0 <= p < slots.len() && #[trigger] slots[p] == Some(distinct(slots)[i]) && forall|q: int|
                0 <= q <= p ==> slots[q] != Some(distinct(slots)[j]),
    decreases slots.len(),
{
    let init = slots.drop_last();
    let before = distinct(init);
    crate::dictionary::lemma_distinct(init);
    if j < before.len() {
        distinct_values_stand_as_they_come(init, i, j);
        let p = choose|p: int|
            0 <= p < init.len() && #[trigger] init[p] == Some(before[i]) && forall|q: int|
                0 <= q <= p ==> init[q] != Some(before[j]);
        assert(slots[p] == Some(distinct(slots)[i]));
        assert forall|q: int| 0 <= q <= p implies slots[q] != Some(distinct(slots)[j]) by {
            assert(slots[q] == init[q]);
        }
    } else {
        assert(before.contains(before[i]));
        let p = choose|p: int| 0 <= p < init.len() && init[p] == Some(before[i]);
        assert(slots[p] == Some(distinct(slots)[i]));
        assert(!before.contains(distinct(slots)[j]));
        assert forall|q: int| 0 <= q <= p implies slots[q] != Some(distinct(slots)[j]) by {
            if slots[q] == Some(distinct(slots)[j]) {
                assert(init[q] == Some(distinct(slots)[j]));
                assert(init.contains(Some(distinct(slots)[j])));
            }
        }
    }
}

/// Bytes are counted over all values, and nulls are left out, whatever stands before and after.
pub proof fn bytes_add_up(a: Seq<Seq<u8>>, b: Seq<u8>, slots: Seq<Option<Seq<u8>>>)
    ensures
        total_bytes(Seq::empty()) == 0,
        total_bytes(a.push(b)) == total_bytes(a) + b.len(),
        non_null(Seq::<Option<Seq<u8>>>::empty()).len() == 0,
        non_null(slots.push(None)) == non_null(slots),
        non_null(slots.push(Some(b))) == non_null(slots).push(b),
{
    assert(a.push(b).drop_last() =~= a);
    assert(slots.push(None).drop_last() =~= slots);
    assert(slots.push(Some(b)).drop_last() =~= slots);
}

/// Everything but text views can be held as it is. Text views can be held as plain text exactly if
/// offsets of 32 bits can count their bytes, and as a dictionary exactly if besides keys of sixteen
/// bits can tell them apart, bytes of a value that comes again not being counted again.
pub proof fn what_can_be_held(array: ArrowArray, background: bool)
    ensures
        array_type(array) != DataType::Utf8View ==> can_be_held(array, LiquidCacheMode::Arrow)
            && can_be_held(array, LiquidCacheMode::Liquid { transcode_in_background: background }),
        array_type(array) == DataType::Utf8View ==> {
            &&& can_be_held(array, LiquidCacheMode::Arrow) <==> total_bytes(
                non_null(array_slots(array)),
            ) < 0x8000_0000
            &&& can_be_held(
                array,
                LiquidCacheMode::Liquid { transcode_in_background: background },
            ) <==> distinct(array_slots(array)).len() <= 0x1_0000 && total_bytes(
                distinct(array_slots(array)),
            ) < 0x8000_0000
        },
{
}

/// Rows of flat types can be copied as long as so many values can be set aside; rows of structs if
/// those of each field can; rows of lists if besides their items can, one for each row; rows of lists
/// of one size if all their items can. Dictionaries, run ends and values, views of lists and unions
/// with offsets are never copied.
pub proof fn copies_go_through_nested_types(
    flat: DataType,
    item: Arc<Field>,
    fields: Arc<Vec<Arc<Field>>>,
    rows: nat,
    size: i32,
    sorted: bool,
)
    requires
        is_flat(flat),
        !(flat is FixedSizeBinary),
    ensures
        can_be_filled(flat, rows, Transfer::Copy) <==> 4 * (32 * rows + 256) <= isize::MAX,
        can_be_filled(DataType::Struct(fields), rows, Transfer::Copy) <==> forall|i: int|
            0 <= i < fields@.len() ==> can_be_filled(
                (#[trigger] fields@[i]).data_type,
                rows,
                Transfer::Copy,
            ),
        can_be_filled(DataType::List(item), rows, Transfer::Copy) <==> 4 * (32 * rows + 256)
            <= isize::MAX && can_be_filled(item.data_type, rows, Transfer::Copy),
        can_be_filled(DataType::LargeList(item), rows, Transfer::Copy) <==> 4 * (32 * rows + 256)
            <= isize::MAX && can_be_filled(item.data_type, rows, Transfer::Copy),
        can_be_filled(DataType::Pairs(item, sorted), rows, Transfer::Copy) <==> 4 * (32 * rows + 256)
            <= isize::MAX && can_be_filled(item.data_type, rows, Transfer::Copy),
        can_be_filled(DataType::FixedSizeList(item, size), rows, Transfer::Copy) <==> size >= 0 && 4
            * (rows * size + 256) <= isize::MAX && can_be_filled(
            item.data_type,
            (rows * size) as nat,
            Transfer::Copy,
        ),
        can_be_filled(DataType::FixedSizeBinary(size), rows, Transfer::Copy) <==> size >= 0 && 4 * (
        rows * size + 256) <= isize::MAX,
        !can_be_filled(DataType::RunEndEncoded(item, item), rows, Transfer::Copy),
        !can_be_filled(DataType::ListView(item), rows, Transfer::Copy),
        !can_be_filled(DataType::LargeListView(item), rows, Transfer::Copy),
{
    let all = DataType::Struct(fields);
    assert(child_types(flat) =~= Seq::<DataType>::empty());
    assert(child_types(DataType::FixedSizeBinary(size)) =~= Seq::<DataType>::empty());
    assert forall|j: int| 0 <= j < fields@.len() implies #[trigger] child_types(all)[j]
        == fields@[j].data_type by {}
    if can_be_filled(all, rows, Transfer::Copy) {
        assert forall|i: int| 0 <= i < fields@.len() implies can_be_filled(
            (#[trigger] fields@[i]).data_type,
            rows,
            Transfer::Copy,
        ) by {
            assert(can_be_filled(child_types(all)[i], rows, Transfer::Copy));
        }
    }
    if forall|i: int|
        0 <= i < fields@.len() ==> can_be_filled(
            (#[trigger] fields@[i]).data_type,
            rows,
            Transfer::Copy,
        ) {
        assert forall|j: int| 0 <= j < child_types(all).len() implies can_be_filled(
            #[trigger] child_types(all)[j],
            rows,
            Transfer::Copy,
        ) by {
            assert(can_be_filled(fields@[j].data_type, rows, Transfer::Copy));
        }
    }
    assert(child_types(DataType::List(item)) =~= seq![item.data_type]);
    assert(child_types(DataType::LargeList(item)) =~= seq![item.data_type]);
    assert(child_types(DataType::Pairs(item, sorted)) =~= seq![item.data_type]);
    assert(child_types(DataType::FixedSizeList(item, size)) =~= seq![item.data_type]);
    assert(child_types(DataType::List(item))[0] == item.data_type);
    assert(child_types(DataType::LargeList(item))[0] == item.data_type);
    assert(child_types(DataType::Pairs(item, sorted))[0] == item.data_type);
    assert(child_types(DataType::FixedSizeList(item, size))[0] == item.data_type);
}

/// Some rows of lists, of key and value pairs and of lists of one size can be selected exactly if
/// they can be copied.
pub proof fn lists_are_copied(item: Arc<Field>, size: i32, sorted: bool, selection: Seq<bool>)
    requires
        0 < count_true(selection) < selection.len(),
    ensures
        ({
            let n = count_true(selection);
            &&& can_be_filtered(DataType::List(item), selection) <==> can_be_filled(
                DataType::List(item),
                n,
                Transfer::Copy,
            )
            &&& can_be_filtered(DataType::LargeList(item), selection) <==> can_be_filled(
                DataType::LargeList(item),
                n,
                Transfer::Copy,
            )
            &&& can_be_filtered(DataType::Pairs(item, sorted), selection) <==> can_be_filled(
                DataType::Pairs(item, sorted),
                n,
                Transfer::Copy,
            )
            &&& can_be_filtered(DataType::FixedSizeList(item, size), selection) <==> can_be_filled(
                DataType::FixedSizeList(item, size),
                n,
                Transfer::Copy,
            )
        }),
{
    assert(child_types(DataType::List(item)) =~= seq![item.data_type]);
    assert(child_types(DataType::LargeList(item)) =~= seq![item.data_type]);
    assert(child_types(DataType::Pairs(item, sorted)) =~= seq![item.data_type]);
    assert(child_types(DataType::FixedSizeList(item, size)) =~= seq![item.data_type]);
}

/// Some rows of a dictionary can be selected whatever its values are; none can exactly if an empty
/// array of its values can be made.
pub proof fn values_of_dictionaries_stay(
    key: Arc<DataType>,
    value: Arc<DataType>,
    selection: Seq<bool>,
)
    ensures
        count_true(selection) > 0 ==> can_be_filtered(DataType::Dictionary(key, value), selection),
        count_true(selection) == 0 ==> (can_be_filtered(DataType::Dictionary(key, value), selection)
            <==> can_be_filtered(*value, selection)),
{
    let t = DataType::Dictionary(key, value);
    assert(child_types(t) =~= seq![*value]);
    assert(child_types(t)[0] == *value);
    assert(can_be_filled(*value, 0, Transfer::Keep));
}

/// Empty arrays of nested types can be made if those of the arrays inside can, and, of unions, if
/// there is a first field.
pub proof fn empty_arrays_of_nested_types(
    item: Arc<Field>,
    fields: Arc<Vec<(i8, Arc<Field>)>>,
    size: i32,
    sorted: bool,
    sparse: bool,
    none: Seq<bool>,
)
    requires
        count_true(none) == 0,
    ensures
        can_be_filtered(DataType::List(item), none) <==> can_be_filtered(item.data_type, none),
        can_be_filtered(DataType::LargeList(item), none) <==> can_be_filtered(item.data_type, none),
        can_be_filtered(DataType::Pairs(item, sorted), none) <==> can_be_filtered(
            item.data_type,
            none,
        ),
        can_be_filtered(DataType::FixedSizeList(item, size), none) <==> size >= 0
            && can_be_filtered(item.data_type, none),
        can_be_filtered(DataType::Union(fields, sparse), none) <==> fields@.len() > 0 && forall|i: int|
            0 <= i < fields@.len() ==> can_be_filtered(
                (#[trigger] fields@[i]).1.data_type,
                none,
            ),
{
    let union = DataType::Union(fields, sparse);
    assert(0 * (size as int) == 0) by (nonlinear_arith);
    assert(fits_in_memory(0, 32));
    assert(fits_in_memory(0, size as int));
    assert(child_types(DataType::List(item)) =~= seq![item.data_type]);
    assert(child_types(DataType::LargeList(item)) =~= seq![item.data_type]);
    assert(child_types(DataType::Pairs(item, sorted)) =~= seq![item.data_type]);
    assert(child_types(DataType::FixedSizeList(item, size)) =~= seq![item.data_type]);
    assert(child_types(DataType::List(item))[0] == item.data_type);
    assert(child_types(DataType::LargeList(item))[0] == item.data_type);
    assert(child_types(DataType::Pairs(item, sorted))[0] == item.data_type);
    assert(child_types(DataType::FixedSizeList(item, size))[0] == item.data_type);
    assert forall|j: int| 0 <= j < fields@.len() implies #[trigger] child_types(union)[j]
        == fields@[j].1.data_type by {}
    if can_be_filtered(union, none) {
        assert forall|i: int| 0 <= i < fields@.len() implies can_be_filtered(
            (#[trigger] fields@[i]).1.data_type,
            none,
        ) by {
            assert(can_be_filled(child_types(union)[i], 0, Transfer::Clear));
        }
    }
    if fields@.len() > 0 && forall|i: int|
        0 <= i < fields@.len() ==> can_be_filtered((#[trigger] fields@[i]).1.data_type, none) {
        assert forall|j: int| 0 <= j < child_types(union).len() implies can_be_filled(
            #[trigger] child_types(union)[j],
            0,
            Transfer::Clear,
        ) by {
            assert(can_be_filtered(fields@[j].1.data_type, none));
        }
    }
}

/// Dictionaries and unions with offsets are never copied, nor are dictionaries, lists, text and bytes
/// with 32-bit offsets repeated.
pub proof fn what_is_never_copied(
    key: Arc<DataType>,
    value: Arc<DataType>,
    item: Arc<Field>,
    fields: Arc<Vec<(i8, Arc<Field>)>>,
    rows: nat,
    sorted: bool,
)
    ensures
        !can_be_filled(DataType::Dictionary(key, value), rows, Transfer::Copy),
        !can_be_filled(DataType::Dictionary(key, value), rows, Transfer::Repeat),
        !can_be_filled(DataType::Union(fields, false), rows, Transfer::Copy),
        !can_be_filled(DataType::Union(fields, false), rows, Transfer::Repeat),
        !can_be_filled(DataType::List(item), rows, Transfer::Repeat),
        !can_be_filled(DataType::Pairs(item, sorted), rows, Transfer::Repeat),
        !can_be_filled(DataType::Utf8, rows, Transfer::Repeat),
        !can_be_filled(DataType::Binary, rows, Transfer::Repeat),
{
}

/// Some rows of a union without offsets can be selected exactly if it has fields and they can be of
/// each; of one with offsets, if the rows of each field can be repeated and 32-bit offsets and memory
/// suffice.
pub proof fn rows_of_unions_are_those_of_their_fields(
    fields: Arc<Vec<(i8, Arc<Field>)>>,
    selection: Seq<bool>,
)
    requires
        0 < count_true(selection) < selection.len(),
    ensures
        can_be_filtered(DataType::Union(fields, true), selection) <==> fields@.len() > 0 && forall|
            i: int,
        |
            0 <= i < fields@.len() ==> can_be_filtered(
                (#[trigger] fields@[i]).1.data_type,
                selection,
            ),
        can_be_filtered(DataType::Union(fields, false), selection) <==> fields@.len() > 0
            && count_true(selection) <= i32::MAX && 4 * (32 * count_true(selection) + 256)
            <= isize::MAX && forall|i: int|
            0 <= i < fields@.len() ==> can_be_filled(
                (#[trigger] fields@[i]).1.data_type,
                count_true(selection),
                Transfer::Repeat,
            ),
{
    let n = count_true(selection);
    lemma_union_fields(fields, true, n, Transfer::Pick);
    lemma_union_fields(fields, false, n, Transfer::Repeat);
    if forall|i: int|
        0 <= i < fields@.len() ==> can_be_filtered(
            (#[trigger] fields@[i]).1.data_type,
            selection,
        ) {
        assert forall|i: int| 0 <= i < fields@.len() implies can_be_filled(
            (#[trigger] fields@[i]).1.data_type,
            n,
            Transfer::Pick,
        ) by {
            assert(can_be_filtered(fields@[i].1.data_type, selection));
        }
    }
    if forall|i: int|
        0 <= i < fields@.len() ==> can_be_filled(
            (#[trigger] fields@[i]).1.data_type,
            n,
            Transfer::Pick,
        ) {
        assert forall|i: int| 0 <= i < fields@.len() implies can_be_filtered(
            (#[trigger] fields@[i]).1.data_type,
            selection,
        ) by {
            assert(can_be_filled(fields@[i].1.data_type, n, Transfer::Pick));
        }
    }
}

proof fn lemma_union_fields(
    fields: Arc<Vec<(i8, Arc<Field>)>>,
    sparse: bool,
    rows: nat,
    how: Transfer,
)
    ensures
        (forall|j: int|
            0 <= j < child_types(DataType::Union(fields, sparse)).len() ==> can_be_filled(
                #[trigger] child_types(DataType::Union(fields, sparse))[j],
                rows,
                how,
            )) <==> (forall|i: int|
            0 <= i < fields@.len() ==> can_be_filled(
                (#[trigger] fields@[i]).1.data_type,
                rows,
                how,
            )),
{
    let t = DataType::Union(fields, sparse);
    assert forall|j: int| 0 <= j < fields@.len() implies #[trigger] child_types(t)[j]
        == fields@[j].1.data_type by {}
    if forall|j: int|
        0 <= j < child_types(t).len() ==> can_be_filled(#[trigger] child_types(t)[j], rows, how) {
        assert forall|i: int| 0 <= i < fields@.len() implies can_be_filled(
            (#[trigger] fields@[i]).1.data_type,
            rows,
            how,
        ) by {
            assert(can_be_filled(child_types(t)[i], rows, how));
        }
    }
    if forall|i: int|
        0 <= i < fields@.len() ==> can_be_filled((#[trigger] fields@[i]).1.data_type, rows, how) {
        assert forall|j: int| 0 <= j < child_types(t).len() implies can_be_filled(
            #[trigger] child_types(t)[j],
            rows,
            how,
        ) by {
            assert(can_be_filled(fields@[j].1.data_type, rows, how));
        }
    }
}

/// Text is held as plain text or as keys of sixteen bits into text.
pub proof fn text_is_held_in_two_types()
    ensures
        TextType::Plain.data_type() == DataType::Utf8,
        TextType::Dictionary.data_type() == DataType::Dictionary(
            Arc::new(DataType::UInt16),
            Arc::new(DataType::Utf8),
        ),
{
}

} // verus!
