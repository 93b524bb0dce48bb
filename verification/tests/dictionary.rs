use arrow::array::Array;
use arrow::array::BinaryArray;
use arrow::array::Decimal128Array;
use arrow::array::Decimal256Array;
use arrow::array::DictionaryArray;
use arrow::array::LargeBinaryArray;
use arrow::array::LargeStringArray;
use arrow::array::StringArray;
use arrow::array::UInt16Array;
use arrow::datatypes::i256;
use arrow::datatypes::UInt16Type;
use liquid_cache::dictionary::get_bit_width;
use liquid_cache::dictionary::ArrowDictionary;
use liquid_cache::dictionary::ByteColumn;
use liquid_cache::dictionary::CheckedDictionaryArray;
use liquid_cache::dictionary::DecimalColumn;
use std::sync::Arc;

fn create_test_dictionary(values: Vec<&[u8]>) -> ArrowDictionary {
    let binary_array = BinaryArray::from_iter_values(values);
    ArrowDictionary {
        inner: DictionaryArray::new(vec![0u16, 1, 2, 3].into(), Arc::new(binary_array)),
    }
}

fn keys(array: &DictionaryArray<UInt16Type>) -> Vec<Option<u16>> {
    array.keys().iter().collect()
}

#[test]
fn test_gc_behavior() {
    // Test duplicate removal
    let dup_dict = create_test_dictionary(vec![b"a", b"a", b"b", b"b"]);
    let checked = CheckedDictionaryArray::new_checked(&dup_dict);
    let dict_values = checked.as_ref().inner.values();
    assert_eq!(dict_values.len(), 2);
    assert_eq!(
        dict_values
            .as_any()
            .downcast_ref::<BinaryArray>()
            .unwrap()
            .value(0),
        b"a"
    );
    assert_eq!(
        dict_values
            .as_any()
            .downcast_ref::<BinaryArray>()
            .unwrap()
            .value(1),
        b"b"
    );

    // Test already unique values
    let unique_dict = create_test_dictionary(vec![b"a", b"b", b"c", b"d"]);
    let checked_unique = CheckedDictionaryArray::new_checked(&unique_dict);
    assert_eq!(checked_unique.as_ref().inner.values().len(), 4);
}

#[test]
fn text_dictionary_drops_unused_and_null_values() {
    let values = StringArray::from(vec![Some("x"), None, Some("y"), Some("x"), Some("unused")]);
    let keys_in = UInt16Array::from(vec![Some(3), Some(1), None, Some(2), Some(0)]);
    let dict = ArrowDictionary { inner: DictionaryArray::new(keys_in, Arc::new(values)) };
    let checked = CheckedDictionaryArray::new_checked(&dict).into_inner();
    let values = checked.inner.values().as_any().downcast_ref::<StringArray>().unwrap();
    assert_eq!(values, &StringArray::from(vec!["x", "y"]));
    assert_eq!(keys(&checked.inner), vec![Some(0), None, None, Some(1), Some(0)]);
    // The values that the keys stand for are the ones before.
    let before = dict.inner.downcast_dict::<StringArray>().unwrap();
    let after = checked.inner.downcast_dict::<StringArray>().unwrap();
    assert_eq!(
        before.into_iter().collect::<Vec<_>>(),
        after.into_iter().collect::<Vec<_>>()
    );
    // Encoding once more changes nothing.
    let again = CheckedDictionaryArray::new_checked(&checked);
    assert_eq!(again.as_ref().inner, checked.inner);
}

#[test]
fn unchecked_dictionary_is_taken_as_it_is() {
    let dict = create_test_dictionary(vec![b"b", b"a", b"d", b"c"]);
    let taken = CheckedDictionaryArray::new_unchecked_i_know_what_i_am_doing(&dict);
    assert_eq!(taken.as_ref().inner, dict.inner);
}

#[test]
fn unused_values_stay_in_an_unchecked_dictionary() {
    let values: Vec<&[u8]> = vec![b"a", b"b", b"c", b"d"];
    let dict = ArrowDictionary {
        inner: DictionaryArray::new(
            vec![0u16, 1, 2, 2].into(),
            Arc::new(BinaryArray::from_iter_values(values.clone())),
        ),
    };
    let taken = CheckedDictionaryArray::new_unchecked_i_know_what_i_am_doing(&dict).into_inner();
    assert_eq!(keys(&taken.inner), vec![Some(0), Some(1), Some(2), Some(2)]);
    assert_eq!(
        taken.inner.values().as_any().downcast_ref::<BinaryArray>().unwrap(),
        &BinaryArray::from_iter_values(values)
    );
}

#[test]
fn byte_columns_keep_their_types() {
    let bytes = vec![Some(b"q".to_vec()), None, Some(b"".to_vec()), Some(b"q".to_vec())];
    let expected_keys = vec![Some(0), None, Some(1), Some(0)];

    let binary = CheckedDictionaryArray::from_byte_array(&ByteColumn::Binary(bytes.clone()));
    let array = binary.into_inner().inner;
    assert_eq!(keys(&array), expected_keys);
    assert!(array.values().as_any().downcast_ref::<BinaryArray>().is_some());

    let large = CheckedDictionaryArray::from_byte_array(&ByteColumn::LargeBinary(bytes));
    let array = large.into_inner().inner;
    assert_eq!(keys(&array), expected_keys);
    assert!(array.values().as_any().downcast_ref::<LargeBinaryArray>().is_some());

    let texts = vec![Some("q".to_string()), None, Some(String::new()), Some("q".to_string())];
    let utf8 = CheckedDictionaryArray::from_byte_array(&ByteColumn::Utf8(texts.clone()));
    let array = utf8.into_inner().inner;
    assert_eq!(keys(&array), expected_keys);
    assert!(array.values().as_any().downcast_ref::<StringArray>().is_some());

    let large = CheckedDictionaryArray::from_byte_array(&ByteColumn::LargeUtf8(texts.clone()));
    let array = large.into_inner().inner;
    assert_eq!(keys(&array), expected_keys);
    assert!(array.values().as_any().downcast_ref::<LargeStringArray>().is_some());

    let views = CheckedDictionaryArray::from_string_view_array(&texts);
    assert_eq!(keys(&views.into_inner().inner), expected_keys);
}

#[test]
fn decimals_are_encoded() {
    let column = DecimalColumn::Decimal128(vec![Some(-5), Some(7), None, Some(-5)]);
    let array = CheckedDictionaryArray::from_decimal_array(&column).into_inner().inner;
    assert_eq!(keys(&array), vec![Some(0), Some(1), None, Some(0)]);
    let values = array.values().as_any().downcast_ref::<Decimal128Array>().unwrap();
    assert_eq!(values.values().to_vec(), vec![-5, 7]);
    assert_eq!((values.precision(), values.scale()), (38, 10));

    let column = DecimalColumn::Decimal256(vec![Some((1, 2)), Some((0, -1)), Some((1, 2))]);
    let array = CheckedDictionaryArray::from_decimal_array(&column).into_inner().inner;
    assert_eq!(keys(&array), vec![Some(0), Some(1), Some(0)]);
    let values = array.values().as_any().downcast_ref::<Decimal256Array>().unwrap();
    assert_eq!(values.value(0), i256::from_parts(1, 2));
    assert_eq!(values.value(1), i256::from_parts(0, -1));
    assert_eq!((values.precision(), values.scale()), (76, 10));
}

#[test]
fn bit_widths() {
    assert_eq!(get_bit_width(0), 1);
    assert_eq!(get_bit_width(1), 1);
    assert_eq!(get_bit_width(2), 2);
    assert_eq!(get_bit_width(255), 8);
    assert_eq!(get_bit_width(256), 9);
    assert_eq!(get_bit_width(u64::MAX), 64);
    let dict = create_test_dictionary(vec![b"a", b"b", b"c", b"d"]);
    assert_eq!(CheckedDictionaryArray::new_checked(&dict).bit_width_for_key(), 3);
}
