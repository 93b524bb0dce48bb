//! Dictionary-encoded columns whose dictionary holds no value twice.

use crate::arrays::distinct;
use crate::arrays::total_bytes;
use crate::schema::DataType;
use arrow::array::DictionaryArray;
use arrow::datatypes::UInt16Type;
use vstd::prelude::*;
use vstd::utf8::encode_utf8;

verus! {

/// A value that a dictionary can hold.
pub enum DictionaryValue {
    /// Bytes, or text in UTF-8.
    Bytes(Seq<u8>),
    /// The unscaled value of a decimal.
    Number(int),
}

/// A dictionary-encoded array of the crate `arrow` with keys of sixteen bits.
#[verifier::external_body]
pub struct ArrowDictionary {
    /// The array.
    pub inner: DictionaryArray<UInt16Type>,
}

/// The keys of a dictionary-encoded array, `None` for a null.
pub uninterp spec fn dictionary_keys(array: ArrowDictionary) -> Seq<Option<u16>>;

/// The values that the keys lead to, `None` for a null.
pub uninterp spec fn dictionary_values(array: ArrowDictionary) -> Seq<Option<DictionaryValue>>;

/// The type of the values that the keys lead to.
pub uninterp spec fn dictionary_value_type(array: ArrowDictionary) -> DataType;

/// The values of a dictionary-encoded array.
pub open spec fn dictionary_slots(array: ArrowDictionary) -> Seq<Option<DictionaryValue>> {
    decoded(dictionary_keys(array), dictionary_values(array))
}

/// The values that keys stand for.
pub open spec fn decoded(
    keys: Seq<Option<u16>>,
    values: Seq<Option<DictionaryValue>>,
) -> Seq<Option<DictionaryValue>> {
    keys.map_values(
        |key: Option<u16>|
            match key {
                None => None,
                Some(k) => values[k as int],
            },
    )
}

/// Whether an array encodes values with a dictionary that lists each of them where it first comes.
pub open spec fn encodes(array: ArrowDictionary, slots: Seq<Option<DictionaryValue>>) -> bool {
    &&& dictionary_values(array) == distinct(slots).map_values(|v: DictionaryValue| Some(v))
    &&& dictionary_keys(array) == slots.map_values(
        |slot: Option<DictionaryValue>|
            match slot {
                None => None,
                Some(v) => Some(distinct(slots).index_of(v) as u16),
            },
    )
}

/// Whether values can be encoded: there are enough keys.
pub open spec fn keys_suffice(slots: Seq<Option<DictionaryValue>>) -> bool {
    distinct(slots).len() <= 65536
}

/// Whether the different values fit into an array with 32-bit offsets.
pub open spec fn offsets_suffice(slots: Seq<Option<DictionaryValue>>) -> bool {
    total_bytes(
        distinct(slots).map_values(
            |v: DictionaryValue|
                match v {
                    DictionaryValue::Bytes(bytes) => bytes,
                    DictionaryValue::Number(_) => Seq::empty(),
                },
        ),
    ) <= i32::MAX
}

/// Byte strings as values of a dictionary.
pub open spec fn byte_slots(slots: Seq<Option<Vec<u8>>>) -> Seq<Option<DictionaryValue>> {
    slots.map_values(
        |slot: Option<Vec<u8>>|
            match slot {
                None => None,
                Some(bytes) => Some(DictionaryValue::Bytes(bytes@)),
            },
    )
}

/// Texts as values of a dictionary.
pub open spec fn text_slots(slots: Seq<Option<String>>) -> Seq<Option<DictionaryValue>> {
    slots.map_values(
        |slot: Option<String>|
            match slot {
                None => None,
                Some(text) => Some(DictionaryValue::Bytes(encode_utf8(text@))),
            },
    )
}

/// 128-bit decimals as values of a dictionary.
pub open spec fn decimal128_slots(slots: Seq<Option<i128>>) -> Seq<Option<DictionaryValue>> {
    slots.map_values(
        |slot: Option<i128>|
            match slot {
                None => None,
                Some(n) => Some(DictionaryValue::Number(n as int)),
            },
    )
}

/// 256-bit decimals, as low and high halves, as values of a dictionary.
pub open spec fn decimal256_slots(slots: Seq<Option<(u128, i128)>>) -> Seq<Option<DictionaryValue>> {
    slots.map_values(
        |slot: Option<(u128, i128)>|
            match slot {
                None => None,
                Some(n) => Some(DictionaryValue::Number(n.0 + n.1 * (u128::MAX + 1))),
            },
    )
}

/// The types of values that a dictionary can be checked for.
#[derive(Clone, Copy, Debug, PartialEq, Eq, Structural)]
pub enum ValueKind {
    /// Bytes.
    Binary,
    /// Text.
    Utf8,
    /// Anything else.
    Other,
}

/// `DictionaryArray::values` and `Array::data_type` tell the type of the values.
#[verifier::external_body]
fn value_kind(array: &ArrowDictionary) -> (kind: ValueKind)
    ensures
        kind == ValueKind::Binary <==> dictionary_value_type(*array) == DataType::Binary,
        kind == ValueKind::Utf8 <==> dictionary_value_type(*array) == DataType::Utf8,
{
    match arrow::array::Array::data_type(array.inner.values()) {
        arrow::datatypes::DataType::Binary => ValueKind::Binary,
        arrow::datatypes::DataType::Utf8 => ValueKind::Utf8,
        _ => ValueKind::Other,
    }
}

/// `DictionaryArray::values` and `Array::len` tell the number of values.
#[verifier::external_body]
fn value_count(array: &ArrowDictionary) -> (n: usize)
    ensures
        n == dictionary_values(*array).len(),
{
    arrow::array::Array::len(array.inner.values())
}

/// The derived `clone` of `DictionaryArray` has the same keys and values.
#[verifier::external_body]
fn clone_dictionary(array: &ArrowDictionary) -> (copy: ArrowDictionary)
    ensures
        dictionary_keys(copy) == dictionary_keys(*array),
        dictionary_values(copy) == dictionary_values(*array),
        dictionary_value_type(copy) == dictionary_value_type(*array),
{
    ArrowDictionary { inner: array.inner.clone() }
}

/// `DictionaryArray::downcast_dict`, iterated over, hands out the value of each key, and `None`
/// where the key or its value is null. The different values all lie in an array with 32-bit
/// offsets, so they fit into one.
#[verifier::external_body]
fn read_bytes(array: &ArrowDictionary) -> (slots: Vec<Option<Vec<u8>>>)
    requires
        dictionary_value_type(*array) == DataType::Binary,
    ensures
        byte_slots(slots@) == dictionary_slots(*array),
        offsets_suffice(byte_slots(slots@)),
{
    let typed = array.inner.downcast_dict::<arrow::array::BinaryArray>().unwrap();
    typed.into_iter().map(|slot| slot.map(|bytes| bytes.to_vec())).collect()
}

/// See [read_bytes]; here the values are texts.
#[verifier::external_body]
fn read_texts(array: &ArrowDictionary) -> (slots: Vec<Option<String>>)
    requires
        dictionary_value_type(*array) == DataType::Utf8,
    ensures
        text_slots(slots@) == dictionary_slots(*array),
        offsets_suffice(text_slots(slots@)),
{
    let typed = array.inner.downcast_dict::<arrow::array::StringArray>().unwrap();
    typed.into_iter().map(|slot| slot.map(|text| text.to_string())).collect()
}

/// `GenericByteDictionaryBuilder`, extended by options, gives each value the key of its first
/// occurrence and a null no key. It panics where keys or offsets run out.
#[verifier::external_body]
fn encode_bytes(slots: &Vec<Option<Vec<u8>>>) -> (array: ArrowDictionary)
    requires
        keys_suffice(byte_slots(slots@)),
        offsets_suffice(byte_slots(slots@)),
    ensures
        encodes(array, byte_slots(slots@)),
        dictionary_value_type(array) == DataType::Binary,
{
    let n = slots.len();
    let mut builder =
        arrow::array::BinaryDictionaryBuilder::<UInt16Type>::with_capacity(n, n, n);
    builder.extend(slots.iter().map(|slot| slot.as_deref()));
    ArrowDictionary { inner: builder.finish() }
}

/// See [encode_bytes]; here the values are texts.
#[verifier::external_body]
fn encode_texts(slots: &Vec<Option<String>>) -> (array: ArrowDictionary)
    requires
        keys_suffice(text_slots(slots@)),
        offsets_suffice(text_slots(slots@)),
    ensures
        encodes(array, text_slots(slots@)),
        dictionary_value_type(array) == DataType::Utf8,
{
    let n = slots.len();
    let mut builder =
        arrow::array::StringDictionaryBuilder::<UInt16Type>::with_capacity(n, n, n);
    builder.extend(slots.iter().map(|slot| slot.as_deref()));
    ArrowDictionary { inner: builder.finish() }
}

/// See [encode_bytes]; here the offsets have 64 bits and cannot run out.
#[verifier::external_body]
fn encode_large_bytes(slots: &Vec<Option<Vec<u8>>>) -> (array: ArrowDictionary)
    requires
        keys_suffice(byte_slots(slots@)),
    ensures
        encodes(array, byte_slots(slots@)),
        dictionary_value_type(array) == DataType::LargeBinary,
{
    let n = slots.len();
    let mut builder =
        arrow::array::LargeBinaryDictionaryBuilder::<UInt16Type>::with_capacity(n, n, n);
    builder.extend(slots.iter().map(|slot| slot.as_deref()));
    ArrowDictionary { inner: builder.finish() }
}

/// See [encode_bytes]; here the values are texts and the offsets have 64 bits.
#[verifier::external_body]
fn encode_large_texts(slots: &Vec<Option<String>>) -> (array: ArrowDictionary)
    requires
        keys_suffice(text_slots(slots@)),
    ensures
        encodes(array, text_slots(slots@)),
        dictionary_value_type(array) == DataType::LargeUtf8,
{
    let n = slots.len();
    let mut builder =
        arrow::array::LargeStringDictionaryBuilder::<UInt16Type>::with_capacity(n, n, n);
    builder.extend(slots.iter().map(|slot| slot.as_deref()));
    ArrowDictionary { inner: builder.finish() }
}

/// `PrimitiveDictionaryBuilder`, extended by options, gives each value the key of its first
/// occurrence and a null no key. It panics where keys run out. The values have the type that the
/// builder starts out with, whatever precision and scale they had.
#[verifier::external_body]
fn encode_decimals128(slots: &Vec<Option<i128>>) -> (array: ArrowDictionary)
    requires
        keys_suffice(decimal128_slots(slots@)),
    ensures
        encodes(array, decimal128_slots(slots@)),
        dictionary_value_type(array) == DataType::Decimal128(38, 10),
{
    let n = slots.len();
    let mut builder = arrow::array::PrimitiveDictionaryBuilder::<
        UInt16Type,
        arrow::datatypes::Decimal128Type,
    >::with_capacity(n, n);
    builder.extend(slots.iter().copied());
    ArrowDictionary { inner: builder.finish() }
}

/// See [encode_decimals128]; here the values have 256 bits.
#[verifier::external_body]
fn encode_decimals256(slots: &Vec<Option<(u128, i128)>>) -> (array: ArrowDictionary)
    requires
        keys_suffice(decimal256_slots(slots@)),
    ensures
        encodes(array, decimal256_slots(slots@)),
        dictionary_value_type(array) == DataType::Decimal256(76, 10),
{
    let n = slots.len();
    let mut builder = arrow::array::PrimitiveDictionaryBuilder::<
        UInt16Type,
        arrow::datatypes::Decimal256Type,
    >::with_capacity(n, n);
    let parts = slots.iter().map(|slot| slot.map(|n| arrow::datatypes::i256::from_parts(n.0, n.1)));
    builder.extend(parts);
    ArrowDictionary { inner: builder.finish() }
}

/// A column of bytes or text.
pub enum ByteColumn {
    /// Bytes.
    Binary(Vec<Option<Vec<u8>>>),
    /// Bytes, with large offsets.
    LargeBinary(Vec<Option<Vec<u8>>>),
    /// Text.
    Utf8(Vec<Option<String>>),
    /// Text, with large offsets.
    LargeUtf8(Vec<Option<String>>),
}

impl ByteColumn {
    /// The values.
    pub open spec fn slots(self) -> Seq<Option<DictionaryValue>> {
        match self {
            ByteColumn::Binary(slots) => byte_slots(slots@),
            ByteColumn::LargeBinary(slots) => byte_slots(slots@),
            ByteColumn::Utf8(slots) => text_slots(slots@),
            ByteColumn::LargeUtf8(slots) => text_slots(slots@),
        }
    }

    /// The type of the values.
    pub open spec fn data_type(self) -> DataType {
        match self {
            ByteColumn::Binary(_) => DataType::Binary,
            ByteColumn::LargeBinary(_) => DataType::LargeBinary,
            ByteColumn::Utf8(_) => DataType::Utf8,
            ByteColumn::LargeUtf8(_) => DataType::LargeUtf8,
        }
    }
}

/// A column of decimals.
pub enum DecimalColumn {
    /// 128-bit decimals.
    Decimal128(Vec<Option<i128>>),
    /// 256-bit decimals, as low and high halves.
    Decimal256(Vec<Option<(u128, i128)>>),
}

impl DecimalColumn {
    /// The values.
    pub open spec fn slots(self) -> Seq<Option<DictionaryValue>> {
        match self {
            DecimalColumn::Decimal128(slots) => decimal128_slots(slots@),
            DecimalColumn::Decimal256(slots) => decimal256_slots(slots@),
        }
    }

    /// The type that the values have in a dictionary.
    pub open spec fn data_type(self) -> DataType {
        match self {
            DecimalColumn::Decimal128(_) => DataType::Decimal128(38, 10),
            DecimalColumn::Decimal256(_) => DataType::Decimal256(76, 10),
        }
    }
}

/// A dictionary-encoded array whose dictionary holds no value twice, so that the first match in the
/// dictionary is the only one.
pub struct CheckedDictionaryArray {
    val: ArrowDictionary,
}

/// Whether a dictionary holds no value twice and no null.
pub open spec fn values_are_unique(array: ArrowDictionary) -> bool {
    &&& dictionary_values(array).no_duplicates()
    &&& forall|i: int|
        0 <= i < dictionary_values(array).len() ==> #[trigger] dictionary_values(array)[i] is Some
}

impl View for CheckedDictionaryArray {
    type V = ArrowDictionary;

    closed spec fn view(&self) -> ArrowDictionary {
        self.val
    }
}

impl CheckedDictionaryArray {
    /// Whether the dictionary is without duplicates.
    #[verifier::type_invariant]
    closed spec fn inv(self) -> bool {
        values_are_unique(self.val)
    }

    /// Encodes an array anew: values that stand twice in its dictionary, or that no key leads to,
    /// are dropped.
    pub fn new_checked(array: &ArrowDictionary) -> (result: Self)
        requires
            dictionary_value_type(*array) == DataType::Binary || dictionary_value_type(*array)
                == DataType::Utf8,
        ensures
            encodes(result@, dictionary_slots(*array)),
            dictionary_value_type(result@) == dictionary_value_type(*array),
            values_are_unique(result@),
    {
        gc_dictionary_array(array)
    }

    /// Encodes a column of bytes or text.
    pub fn from_byte_array(array: &ByteColumn) -> (result: Self)
        requires
            keys_suffice(array.slots()),
            (array is Binary || array is Utf8) ==> offsets_suffice(array.slots()),
        ensures
            encodes(result@, array.slots()),
            dictionary_value_type(result@) == array.data_type(),
            values_are_unique(result@),
    {
        proof {
            encoding_has_unique_values(array.slots());
        }
        let val = match array {
            ByteColumn::Binary(slots) => encode_bytes(slots),
            ByteColumn::LargeBinary(slots) => encode_large_bytes(slots),
            ByteColumn::Utf8(slots) => encode_texts(slots),
            ByteColumn::LargeUtf8(slots) => encode_large_texts(slots),
        };
        CheckedDictionaryArray { val }
    }

    /// Encodes a column of texts.
    pub fn from_string_view_array(array: &Vec<Option<String>>) -> (result: Self)
        requires
            keys_suffice(text_slots(array@)),
            offsets_suffice(text_slots(array@)),
        ensures
            encodes(result@, text_slots(array@)),
            dictionary_value_type(result@) == DataType::Utf8,
            values_are_unique(result@),
    {
        proof {
            encoding_has_unique_values(text_slots(array@));
        }
        CheckedDictionaryArray { val: encode_texts(array) }
    }

    /// Encodes a column of decimals.
    pub fn from_decimal_array(array: &DecimalColumn) -> (result: Self)
        requires
            keys_suffice(array.slots()),
        ensures
            encodes(result@, array.slots()),
            dictionary_value_type(result@) == array.data_type(),
            values_are_unique(result@),
    {
        proof {
            encoding_has_unique_values(array.slots());
        }
        let val = match array {
            DecimalColumn::Decimal128(slots) => encode_decimals128(slots),
            DecimalColumn::Decimal256(slots) => encode_decimals256(slots),
        };
        CheckedDictionaryArray { val }
    }

    /// Takes an array as it is. Its dictionary must hold no value twice and no null.
    pub fn new_unchecked_i_know_what_i_am_doing(array: &ArrowDictionary) -> (result: Self)
        requires
            values_are_unique(*array),
        ensures
            dictionary_keys(result@) == dictionary_keys(*array),
            dictionary_values(result@) == dictionary_values(*array),
            dictionary_value_type(result@) == dictionary_value_type(*array),
            values_are_unique(result@),
    {
        CheckedDictionaryArray { val: clone_dictionary(array) }
    }

    /// The array.
    pub fn into_inner(self) -> (array: ArrowDictionary)
        ensures
            array == self@,
            values_are_unique(array),
    {
        proof {
            use_type_invariant(&self);
        }
        self.val
    }

    /// The array.
    pub fn as_ref(&self) -> (array: &ArrowDictionary)
        ensures
            *array == self@,
            values_are_unique(*array),
    {
        proof {
            use_type_invariant(self);
        }
        &self.val
    }

    /// The number of bits in which the number of values can be written.
    pub fn bit_width_for_key(&self) -> (width: u8)
        ensures
            is_bit_width(dictionary_values(self@).len(), width as nat),
    {
        let distinct_count: usize = value_count(self.as_ref());
        get_bit_width(distinct_count as u64)
    }
}

fn gc_dictionary_array(array: &ArrowDictionary) -> (result: CheckedDictionaryArray)
    requires
        dictionary_value_type(*array) == DataType::Binary || dictionary_value_type(*array)
            == DataType::Utf8,
    ensures
        encodes(result@, dictionary_slots(*array)),
        dictionary_value_type(result@) == dictionary_value_type(*array),
        values_are_unique(result@),
{
    proof {
        encoding_has_unique_values(dictionary_slots(*array));
        encoded_columns_can_be_encoded(dictionary_keys(*array), dictionary_values(*array));
    }
    let val = match value_kind(array) {
        ValueKind::Binary => encode_bytes(&read_bytes(array)),
        _ => encode_texts(&read_texts(array)),
    };
    CheckedDictionaryArray { val }
}

/// Whether `width` is the least number of bits, at least one, in which `n` can be written.
pub open spec fn is_bit_width(n: nat, width: nat) -> bool {
    &&& 1 <= width <= 64
    &&& n < vstd::arithmetic::power2::pow2(width)
    &&& width > 1 ==> n >= vstd::arithmetic::power2::pow2((width - 1) as nat)
}

/// The least number of bits, at least one, in which a number can be written.
pub fn get_bit_width(max_value: u64) -> (width: u8)
    ensures
        is_bit_width(max_value as nat, width as nat),
{
    let mut width: u8 = 1;
    let mut rest: u64 = max_value / 2;
    proof {
        vstd::arithmetic::power2::lemma2_to64();
        vstd::arithmetic::power2::lemma_pow2_unfold(1);
    }
    while rest > 0
        invariant
            1 <= width <= 64,
            rest == max_value as nat / vstd::arithmetic::power2::pow2(width as nat),
            width > 1 ==> max_value >= vstd::arithmetic::power2::pow2((width - 1) as nat),
            rest > 0 ==> width < 64,
        decreases rest,
    {
        proof {
            let p = vstd::arithmetic::power2::pow2(width as nat) as int;
            vstd::arithmetic::power2::lemma_pow2_pos(width as nat);
            vstd::arithmetic::power2::lemma_pow2_unfold((width + 1) as nat);
            vstd::arithmetic::div_mod::lemma_div_denominator(max_value as int, p, 2);
            assert(max_value as int / p >= 1);
            assert(max_value >= p) by {
                if max_value < p {
                    vstd::arithmetic::div_mod::lemma_basic_div(max_value as int, p);
                }
            }
            if width == 63 {
                vstd::arithmetic::power2::lemma2_to64_rest();
                assert(max_value as int / (p * 2) == 0) by {
                    vstd::arithmetic::div_mod::lemma_basic_div(max_value as int, p * 2);
                }
            }
        }
        rest = rest / 2;
        width += 1;
    }
    proof {
        let p = vstd::arithmetic::power2::pow2(width as nat) as int;
        vstd::arithmetic::power2::lemma_pow2_pos(width as nat);
        vstd::arithmetic::div_mod::lemma_fundamental_div_mod(max_value as int, p);
        vstd::arithmetic::div_mod::lemma_mod_bound(max_value as int, p);
        assert(p * (max_value as int / p) == 0) by (nonlinear_arith)
            requires
                max_value as int / p == 0,
        ;
    }
    width
}

/// The different values of a sequence are different, each of them occurs, and none is missing.
pub proof fn lemma_distinct<T>(slots: Seq<Option<T>>)
    ensures
        distinct(slots).no_duplicates(),
        distinct(slots).len() <= slots.len(),
        forall|v: T| #[trigger] distinct(slots).contains(v) <==> slots.contains(Some(v)),
    decreases slots.len(),
{
    if slots.len() > 0 {
        let init = slots.drop_last();
        lemma_distinct(init);
        let d0 = distinct(init);
        let d1 = distinct(slots);
        assert forall|v: T| #[trigger] d1.contains(v) <==> slots.contains(Some(v)) by {
            assert(d0.contains(v) <==> init.contains(Some(v)));
            if d1.contains(v) {
                if d0.contains(v) {
                    let i = choose|i: int| 0 <= i < init.len() && init[i] == Some(v);
                    assert(slots[i] == Some(v));
                } else {
                    let i = choose|i: int| 0 <= i < d1.len() && d1[i] == v;
                    if i < d0.len() {
                        assert(d0[i] == v);
                    }
                    assert(slots[slots.len() - 1] == Some(v));
                }
            }
            if slots.contains(Some(v)) {
                let i = choose|i: int| 0 <= i < slots.len() && slots[i] == Some(v);
                if i < init.len() {
                    assert(init[i] == Some(v));
                    let j = choose|j: int| 0 <= j < d0.len() && d0[j] == v;
                    assert(d1[j] == v);
                } else if d0.contains(v) {
                    let j = choose|j: int| 0 <= j < d0.len() && d0[j] == v;
                    assert(d1[j] == v);
                } else {
                    assert(d1[d1.len() - 1] == v);
                }
            }
        }
        assert(d1.no_duplicates());
    }
}

/// Whatever values an array encodes, its dictionary holds none twice.
pub proof fn encoding_has_unique_values(slots: Seq<Option<DictionaryValue>>)
    ensures
        forall|array: ArrowDictionary| #[trigger]
            encodes(array, slots) ==> values_are_unique(array),
{
    lemma_distinct(slots);
}

/// There are never more different values in an encoded column than there are keys.
pub proof fn encoded_columns_can_be_encoded(
    keys: Seq<Option<u16>>,
    values: Seq<Option<DictionaryValue>>,
)
    ensures
        keys_suffice(decoded(keys, values)),
{
    let slots = decoded(keys, values);
    let d = distinct(slots);
    lemma_distinct(slots);
    let somes = d.map_values(|v: DictionaryValue| Some(v));
    let reachable = Seq::new(65536, |k: int| values[k]);
    assert(somes.no_duplicates());
    assert forall|i: int| 0 <= i < somes.len() implies reachable.contains(#[trigger] somes[i]) by {
        assert(d.contains(d[i]));
        assert(slots.contains(Some(d[i])));
        let j = choose|j: int| 0 <= j < slots.len() && slots[j] == Some(d[i]);
        assert(keys[j] is Some);
        assert(reachable[keys[j]->0 as int] == somes[i]);
    }
    somes.unique_seq_to_set();
    vstd::seq_lib::seq_to_set_is_finite(somes);
    vstd::seq_lib::seq_to_set_is_finite(reachable);
    assert(somes.to_set().subset_of(reachable.to_set()));
    vstd::set_lib::lemma_len_subset(somes.to_set(), reachable.to_set());
    reachable.lemma_cardinality_of_set();
}

/// Decoding an encoded column gives the column back.
pub proof fn encoding_is_lossless(array: ArrowDictionary, slots: Seq<Option<DictionaryValue>>)
    requires
        keys_suffice(slots),
        encodes(array, slots),
    ensures
        dictionary_slots(array) == slots,
{
    lemma_distinct(slots);
    let d = distinct(slots);
    assert forall|i: int| 0 <= i < slots.len() implies #[trigger] dictionary_slots(array)[i]
        == slots[i] by {
        match slots[i] {
            None => {},
            Some(v) => {
                assert(slots.contains(Some(v)));
                assert(d.contains(v));
                let k = d.index_of(v);
                assert(0 <= k < d.len() && d[k] == v);
                assert(dictionary_keys(array)[i] == Some(k as u16));
            },
        }
    }
    assert(dictionary_slots(array) =~= slots);
}

/// Encoding a column that was encoded changes nothing.
pub proof fn encoding_again_changes_nothing(
    array: ArrowDictionary,
    again: ArrowDictionary,
    slots: Seq<Option<DictionaryValue>>,
)
    requires
        keys_suffice(slots),
        encodes(array, slots),
        encodes(again, dictionary_slots(array)),
    ensures
        dictionary_keys(again) == dictionary_keys(array),
        dictionary_values(again) == dictionary_values(array),
{
    encoding_is_lossless(array, slots);
}

/// A bit width is the least number of bits, at least one, that suffices: there is one for each number
/// of 64 bits, no smaller one will do, and no number has two.
pub proof fn bit_width_is_least(n: nat, width: nat, other: nat)
    requires
        is_bit_width(n, width),
    ensures
        1 <= width <= 64,
        n < vstd::arithmetic::power2::pow2(width),
        1 <= other < width ==> n >= vstd::arithmetic::power2::pow2(other),
        is_bit_width(n, other) ==> other == width,
{
    if 1 <= other < width {
        let less = (width - 1) as nat;
        if other < less {
            vstd::arithmetic::power2::lemma_pow2_strictly_increases(other, less);
        }
    }
    if is_bit_width(n, other) && width < other {
        let less = (other - 1) as nat;
        if width < less {
            vstd::arithmetic::power2::lemma_pow2_strictly_increases(width, less);
        }
    }
}

/// Each key stands for the value at its place, and no key for no value.
pub proof fn keys_stand_for_values(
    keys: Seq<Option<u16>>,
    values: Seq<Option<DictionaryValue>>,
    i: int,
)
    requires
        0 <= i < keys.len(),
    ensures
        decoded(keys, values).len() == keys.len(),
        keys[i] is None ==> decoded(keys, values)[i] is None,
        keys[i] is Some ==> decoded(keys, values)[i] == values[keys[i]->0 as int],
{
}

/// In an encoded column two values have the same key exactly if they are the same, and the keys are
/// handed out one after the other as values first come.
pub proof fn keys_are_the_same_for_the_same_values(
    array: ArrowDictionary,
    slots: Seq<Option<DictionaryValue>>,
    i: int,
    j: int,
)
    requires
        keys_suffice(slots),
        encodes(array, slots),
        0 <= i < slots.len(),
        0 <= j < slots.len(),
    ensures
        dictionary_keys(array).len() == slots.len(),
        dictionary_keys(array)[i] is None <==> slots[i] is None,
        dictionary_keys(array)[i] == dictionary_keys(array)[j] <==> slots[i] == slots[j],
        slots[i] is Some ==> dictionary_values(array)[dictionary_keys(array)[i]->0 as int]
            == slots[i],
        dictionary_values(array).len() == distinct(slots).len(),
{
    lemma_distinct(slots);
    let d = distinct(slots);
    encoding_is_lossless(array, slots);
    if let Some(v) = slots[i] {
        assert(slots.contains(Some(v)));
        assert(d.contains(v));
        assert(0 <= d.index_of(v) < d.len() && d[d.index_of(v)] == v);
    }
    if let Some(v) = slots[j] {
        assert(slots.contains(Some(v)));
        assert(d.contains(v));
        assert(0 <= d.index_of(v) < d.len() && d[d.index_of(v)] == v);
    }
}

/// Columns can be encoded exactly if keys of sixteen bits can tell their values apart.
pub proof fn keys_tell_values_apart(slots: Seq<Option<DictionaryValue>>)
    ensures
        keys_suffice(slots) <==> distinct(slots).len() <= 0x1_0000,
        slots.len() <= 0x1_0000 ==> keys_suffice(slots),
{
    lemma_distinct(slots);
}

/// A dictionary is without duplicates exactly if no value is null, and no two places hold the same
/// value.
pub proof fn unique_values_stand_once(array: ArrowDictionary)
    ensures
        values_are_unique(array) <==> {
            let values = dictionary_values(array);
            &&& forall|i: int| 0 <= i < values.len() ==> #[trigger] values[i] is Some
            &&& forall|i: int, j: int|
                0 <= i < j < values.len() ==> #[trigger] values[i] != #[trigger] values[j]
        },
{
}

/// The values of a column of bytes or text are its bytes, or its texts in UTF-8, one by one, and have
/// the type of the column.
pub proof fn byte_columns_hold_their_values(
    bytes: Vec<Option<Vec<u8>>>,
    strings: Vec<Option<String>>,
    i: int,
)
    ensures
        ByteColumn::Binary(bytes).data_type() == DataType::Binary,
        ByteColumn::LargeBinary(bytes).data_type() == DataType::LargeBinary,
        ByteColumn::Utf8(strings).data_type() == DataType::Utf8,
        ByteColumn::LargeUtf8(strings).data_type() == DataType::LargeUtf8,
        ByteColumn::Binary(bytes).slots() == ByteColumn::LargeBinary(bytes).slots(),
        ByteColumn::Utf8(strings).slots() == ByteColumn::LargeUtf8(strings).slots(),
        ByteColumn::Binary(bytes).slots().len() == bytes@.len(),
        ByteColumn::Utf8(strings).slots().len() == strings@.len(),
        0 <= i < bytes@.len() ==> match bytes@[i] {
            None => ByteColumn::Binary(bytes).slots()[i] is None,
            Some(value) => ByteColumn::Binary(bytes).slots()[i] == Some(
                DictionaryValue::Bytes(value@),
            ),
        },
        0 <= i < strings@.len() ==> match strings@[i] {
            None => ByteColumn::Utf8(strings).slots()[i] is None,
            Some(value) => ByteColumn::Utf8(strings).slots()[i] == Some(
                DictionaryValue::Bytes(encode_utf8(value@)),
            ),
        },
{
}

/// The values of a column of decimals are its numbers, one by one; those of 256 bits are put together
/// from a low and a high half.
pub proof fn decimal_columns_hold_their_values(
    short: Vec<Option<i128>>,
    long: Vec<Option<(u128, i128)>>,
    i: int,
)
    ensures
        DecimalColumn::Decimal128(short).data_type() == DataType::Decimal128(38, 10),
        DecimalColumn::Decimal256(long).data_type() == DataType::Decimal256(76, 10),
        DecimalColumn::Decimal128(short).slots().len() == short@.len(),
        DecimalColumn::Decimal256(long).slots().len() == long@.len(),
        0 <= i < short@.len() ==> match short@[i] {
            None => DecimalColumn::Decimal128(short).slots()[i] is None,
            Some(value) => DecimalColumn::Decimal128(short).slots()[i] == Some(
                DictionaryValue::Number(value as int),
            ),
        },
        0 <= i < long@.len() ==> match long@[i] {
            None => DecimalColumn::Decimal256(long).slots()[i] is None,
            Some(value) => DecimalColumn::Decimal256(long).slots()[i] == Some(
                DictionaryValue::Number(
                    value.0 + value.1 * 0x1_0000_0000_0000_0000_0000_0000_0000_0000,
                ),
            ),
        },
{
}

/// The different values of a column of bytes fit into an array with 32-bit offsets exactly if their
/// bytes can be counted in 31 bits, those of a value that comes again not being counted again; those
/// of a column of numbers always fit.
pub proof fn offsets_count_bytes_of_different_values(slots: Seq<Option<DictionaryValue>>)
    ensures
        offsets_suffice(slots) <==> total_bytes(
            distinct(slots).map_values(
                |v: DictionaryValue|
                    match v {
                        DictionaryValue::Bytes(bytes) => bytes,
                        DictionaryValue::Number(_) => Seq::empty(),
                    },
            ),
        ) < 0x8000_0000,
        forall|array: ArrowDictionary|
            values_are_unique(array) && #[trigger] dictionary_slots(array) == slots ==> keys_suffice(
                slots,
            ),
{
    assert forall|array: ArrowDictionary|
        values_are_unique(array) && #[trigger] dictionary_slots(array) == slots implies keys_suffice(
        slots,
    ) by {
        encoded_columns_can_be_encoded(dictionary_keys(array), dictionary_values(array));
    }
}

} // verus!
