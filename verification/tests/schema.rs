use arrow::array::Array;
use arrow::array::ArrayRef;
use arrow::array::FixedSizeListArray;
use arrow::array::Int32Array;
use arrow::array::ListArray;
use arrow::array::RunArray;
use arrow::array::StringArray;
use arrow::array::StringViewArray;
use arrow::array::StructArray;
use arrow::array::UnionArray;
use arrow::buffer::BooleanBuffer;
use arrow::datatypes::Int32Type;
use arrow::datatypes::UInt16Type;
use arrow::datatypes::UInt8Type;
use liquid_cache::bits::boolean_buffer_and_then;
use liquid_cache::arrays::cast_from_parquet_to_liquid_type;
use liquid_cache::arrays::select_rows;
use liquid_cache::arrays::try_cast_from_parquet_to_liquid_type;
use liquid_cache::arrays::try_select_rows;
use liquid_cache::arrays::ArrowArray;
use liquid_cache::modes::CacheMode;
use liquid_cache::modes::LiquidCacheMode;
use liquid_cache::schema::coerce_binary_to_string;
use liquid_cache::schema::coerce_from_parquet_reader_to_liquid_types;
use liquid_cache::schema::coerce_from_parquet_to_liquid_type;
use liquid_cache::schema::coerce_string_to_liquid_type;
use liquid_cache::schema::coerce_string_to_view;
use liquid_cache::schema::coerce_to_liquid_cache_types;
use liquid_cache::schema::project;
use liquid_cache::schema::DataType;
use liquid_cache::schema::Field;
use liquid_cache::schema::ParquetReaderSchema;
use liquid_cache::schema::Schema;
use std::sync::Arc;

const LIQUID: LiquidCacheMode = LiquidCacheMode::Liquid { transcode_in_background: true };

fn dictionary() -> DataType {
    DataType::Dictionary(Arc::new(DataType::UInt16), Arc::new(DataType::Utf8))
}

fn all_types() -> Vec<DataType> {
    vec![
        DataType::Utf8,
        DataType::LargeUtf8,
        DataType::Utf8View,
        DataType::Binary,
        DataType::LargeBinary,
        DataType::BinaryView,
        DataType::Int32,
    ]
}

fn schema() -> Schema {
    let mut fields = Vec::new();
    for (i, data_type) in all_types().into_iter().enumerate() {
        let mut field = Field::new(format!("c{i}"), data_type, i % 2 == 0);
        field.metadata = Arc::new(vec![("k".to_string(), format!("{i}"))]);
        fields.push(Arc::new(field));
    }
    Schema { fields, metadata: Arc::new(vec![("origin".to_string(), "test".to_string())]) }
}

fn types(schema: &Schema) -> Vec<DataType> {
    schema.fields.iter().map(|f| f.data_type.clone()).collect()
}

fn same_apart_from_types(a: &Schema, b: &Schema) {
    assert_eq!(a.metadata, b.metadata);
    assert_eq!(a.fields.len(), b.fields.len());
    for (x, y) in a.fields.iter().zip(b.fields.iter()) {
        assert_eq!((&x.name, x.nullable, &x.metadata), (&y.name, y.nullable, &y.metadata));
    }
}

#[test]
fn liquid_types_of_text_and_bytes() {
    for data_type in all_types() {
        let expected = if data_type == DataType::Int32 { DataType::Int32 } else { dictionary() };
        assert_eq!(coerce_string_to_liquid_type(&data_type, &LIQUID), expected);
        assert_eq!(coerce_string_to_liquid_type(&data_type, &LiquidCacheMode::Arrow), data_type);
    }
    let coerced = coerce_to_liquid_cache_types(&schema(), &LIQUID);
    same_apart_from_types(&coerced, &schema());
    assert_eq!(types(&coerced)[0], dictionary());
    assert_eq!(types(&coerced)[6], DataType::Int32);
    assert_eq!(coerce_to_liquid_cache_types(&schema(), &LiquidCacheMode::Arrow), schema());
}

#[test]
fn cached_types_of_what_a_reader_hands_over() {
    assert_eq!(coerce_from_parquet_to_liquid_type(&DataType::Utf8View, &LIQUID), dictionary());
    assert_eq!(
        coerce_from_parquet_to_liquid_type(&DataType::Utf8View, &LiquidCacheMode::Arrow),
        DataType::Utf8
    );
    assert_eq!(
        coerce_from_parquet_to_liquid_type(&DataType::BinaryView, &LIQUID),
        DataType::BinaryView
    );
    let coerced = coerce_from_parquet_reader_to_liquid_types(&schema(), &LIQUID);
    same_apart_from_types(&coerced, &schema());
    let mut expected = all_types();
    expected[2] = dictionary();
    assert_eq!(types(&coerced), expected);
}

#[test]
fn bytes_become_text() {
    let coerced = coerce_binary_to_string(&schema());
    same_apart_from_types(&coerced, &schema());
    let mut expected = all_types();
    expected[3] = DataType::Utf8;
    expected[4] = DataType::Utf8;
    expected[5] = DataType::Utf8;
    assert_eq!(types(&coerced), expected);
}

#[test]
fn text_becomes_views() {
    let coerced = coerce_string_to_view(&schema());
    same_apart_from_types(&coerced, &schema());
    let mut expected = all_types();
    expected[0] = DataType::Utf8View;
    expected[1] = DataType::Utf8View;
    assert_eq!(types(&coerced), expected);
}

#[test]
fn readers_hand_over_views() {
    let coerced = ParquetReaderSchema::from(&schema());
    same_apart_from_types(&coerced, &schema());
    assert_eq!(
        types(&coerced),
        vec![
            DataType::Utf8View,
            DataType::Utf8View,
            DataType::Utf8View,
            DataType::BinaryView,
            DataType::BinaryView,
            DataType::BinaryView,
            DataType::Int32,
        ]
    );
    assert_eq!(types(&ParquetReaderSchema::from(&coerced)), types(&coerced));
}

#[test]
fn projection_picks_columns() {
    let picked = project(&schema(), &[6, 0]).unwrap();
    assert_eq!(types(&picked), vec![DataType::Int32, DataType::Utf8]);
    assert_eq!(picked.metadata, schema().metadata);
    assert_eq!(
        project(&schema(), &[1, 7]).unwrap_err(),
        "project index 7 out of bounds, max field 7"
    );
}

#[test]
fn text_views_are_cast() {
    let views = || ArrowArray {
        inner: Arc::new(StringViewArray::from(vec![Some("b"), None, Some("a"), Some("b")])),
    };
    let plain = cast_from_parquet_to_liquid_type(views(), &LiquidCacheMode::Arrow);
    assert_eq!(
        plain.inner.as_any().downcast_ref::<StringArray>().unwrap(),
        &StringArray::from(vec![Some("b"), None, Some("a"), Some("b")])
    );
    let encoded = cast_from_parquet_to_liquid_type(views(), &LIQUID);
    let dict = encoded
        .inner
        .as_any()
        .downcast_ref::<arrow::array::DictionaryArray<UInt16Type>>()
        .unwrap();
    assert_eq!(dict.keys().iter().collect::<Vec<_>>(), vec![Some(0), None, Some(1), Some(0)]);
    assert_eq!(dict.values().len(), 2);
    let numbers = ArrowArray { inner: Arc::new(Int32Array::from(vec![1, 2])) };
    let same = cast_from_parquet_to_liquid_type(numbers, &LIQUID);
    assert_eq!(
        same.inner.as_any().downcast_ref::<Int32Array>().unwrap(),
        &Int32Array::from(vec![1, 2])
    );
}

#[test]
fn selected_rows_of_an_array() {
    let array = ArrowArray { inner: Arc::new(Int32Array::from(vec![10, 20, 30, 40])) };
    let selection = BooleanBuffer::from(vec![true, false, false, true]);
    let rows = select_rows(&array, &selection);
    assert_eq!(
        rows.inner.as_any().downcast_ref::<Int32Array>().unwrap(),
        &Int32Array::from(vec![10, 40])
    );
}

#[test]
fn selecting_twice_is_selecting_by_the_narrowed() {
    let array = ArrowArray { inner: Arc::new(Int32Array::from((0..100).collect::<Vec<i32>>())) };
    let left = BooleanBuffer::collect_bool(100, |i| i % 3 != 0);
    let right = BooleanBuffer::collect_bool(left.count_set_bits(), |i| i % 4 == 1);
    let twice = select_rows(&select_rows(&array, &left), &right);
    let once = select_rows(&array, &boolean_buffer_and_then(&left, &right));
    assert_eq!(
        twice.inner.as_any().downcast_ref::<Int32Array>().unwrap(),
        once.inner.as_any().downcast_ref::<Int32Array>().unwrap()
    );
    assert_eq!(once.inner.len(), right.count_set_bits());
}

#[test]
fn rows_are_selected_where_that_can_be_done() {
    let numbers: ArrayRef = Arc::new(Int32Array::from(vec![10, 20, 30]));
    let short = BooleanBuffer::from(vec![false, true]);
    let long = BooleanBuffer::from(vec![true; 4]);
    let rows = |array: &ArrayRef, selection: &BooleanBuffer| {
        try_select_rows(&ArrowArray { inner: array.clone() }, selection).map(|rows| rows.inner)
    };
    assert_eq!(rows(&numbers, &short).unwrap().as_ref(), &Int32Array::from(vec![20]));
    assert!(rows(&numbers, &long).is_none());

    let ends = Int32Array::from(vec![2, 3]);
    let runs: ArrayRef = Arc::new(
        RunArray::<Int32Type>::try_new(&ends, &Int32Array::from(vec![1, 2])).unwrap(),
    );
    let nested = |child: ArrayRef| -> ArrayRef {
        let field = arrow::datatypes::Field::new("x", child.data_type().clone(), true);
        Arc::new(StructArray::new(vec![field].into(), vec![child], None))
    };
    assert!(rows(&runs, &short).is_none());
    assert!(rows(&nested(runs.clone()), &short).is_none());
    let all = BooleanBuffer::from(vec![true; 3]);
    assert_eq!(rows(&runs, &all).unwrap().as_ref(), runs.as_ref());
    let kept = rows(&nested(nested(numbers.clone())), &short).unwrap();
    assert_eq!(kept.as_ref(), nested(nested(Arc::new(Int32Array::from(vec![20])))).as_ref());
}

fn lists(child: ArrayRef, ends: Vec<i32>) -> ArrayRef {
    let field = arrow::datatypes::Field::new("x", child.data_type().clone(), true);
    let offsets = arrow::buffer::OffsetBuffer::new(ends.into());
    Arc::new(ListArray::new(Arc::new(field), offsets, child, None))
}

fn union(mode: bool) -> ArrayRef {
    let fields: arrow::datatypes::UnionFields = [(
        0i8,
        Arc::new(arrow::datatypes::Field::new("n", arrow::datatypes::DataType::Int32, true)),
    )]
    .into_iter()
    .collect();
    let offsets = if mode { None } else { Some(vec![1, 1, 0].into()) };
    let child: ArrayRef = Arc::new(Int32Array::from(vec![1, 2, 3]));
    Arc::new(UnionArray::try_new(fields, vec![0i8, 0, 0].into(), offsets, vec![child]).unwrap())
}

#[test]
fn nested_rows_are_selected_where_that_can_be_done() {
    let rows = |array: &ArrayRef, selection: Vec<bool>| {
        let selection = BooleanBuffer::from(selection);
        try_select_rows(&ArrowArray { inner: array.clone() }, &selection).map(|rows| rows.inner)
    };
    // As many values as the keys can tell apart.
    let texts: Vec<String> = (0..256).map(|i| i.to_string()).collect();
    let full: ArrayRef = Arc::new(arrow::array::DictionaryArray::<UInt8Type>::new(
        vec![255u8, 0, 7].into(),
        Arc::new(StringArray::from(texts)),
    ));
    assert_eq!(rows(&full, vec![true, false, true]).unwrap().len(), 2);
    let listed = lists(full.clone(), vec![0, 2, 2, 3]);
    assert!(rows(&listed, vec![true, false, true]).is_none());
    assert_eq!(rows(&listed, vec![true, true, true]).unwrap().as_ref(), listed.as_ref());
    assert_eq!(rows(&listed, vec![false, false, false]).unwrap().len(), 0);
    let numbers: ArrayRef = Arc::new(Int32Array::from(vec![10, 20, 30]));
    let listed = lists(numbers.clone(), vec![0, 2, 2, 3]);
    let kept = rows(&listed, vec![true, false, true]).unwrap();
    assert_eq!(kept.as_ref(), lists(numbers, vec![0, 2, 3]).as_ref());

    // Unions, of which one without fields has no rows.
    for sparse in [true, false] {
        let kept = rows(&union(sparse), vec![false, true, true]).unwrap();
        assert_eq!(kept.as_ref(), union(sparse).slice(1, 2).as_ref());
        assert_eq!(rows(&union(sparse), vec![false, false]).unwrap().len(), 0);
    }
    let none: ArrayRef = Arc::new(
        UnionArray::try_new(
            arrow::datatypes::UnionFields::empty(),
            Vec::<i8>::new().into(),
            None,
            vec![],
        )
        .unwrap(),
    );
    assert!(rows(&none, vec![]).is_none());
    assert!(rows(&lists(none, vec![0, 0, 0, 0]), vec![false, false, false]).is_none());

    // Lists of lists so long that two rows cannot be set aside.
    let long = |child: ArrayRef| -> ArrayRef {
        let field = arrow::datatypes::Field::new("x", child.data_type().clone(), true);
        Arc::new(FixedSizeListArray::new(Arc::new(field), 1 << 30, child, None))
    };
    let empty: ArrayRef = Arc::new(Int32Array::from(Vec::<i32>::new()));
    let listed = lists(long(long(empty.clone())), vec![0, 0, 0]);
    assert!(rows(&listed, vec![true, false]).is_none());
    assert_eq!(rows(&listed, vec![false, false]).unwrap().len(), 0);
    let listed = lists(empty, vec![0, 0, 0]);
    assert_eq!(rows(&listed, vec![true, false]).unwrap().len(), 1);
}

#[test]
fn text_views_are_cast_where_they_fit() {
    let views = |texts: Vec<Option<String>>| ArrowArray {
        inner: Arc::new(StringViewArray::from(texts)),
    };
    let many = |n: usize| views((0..n).map(|i| Some(i.to_string())).collect());
    for mode in [LIQUID, LiquidCacheMode::Arrow] {
        let few = vec![Some("b".to_string()), None, Some("a".to_string()), Some("b".to_string())];
        let cast = try_cast_from_parquet_to_liquid_type(views(few.clone()), &mode).unwrap();
        let same = cast_from_parquet_to_liquid_type(views(few), &mode);
        assert_eq!(cast.inner.as_ref(), same.inner.as_ref());
        let numbers = ArrowArray { inner: Arc::new(Int32Array::from(vec![1, 2])) };
        let cast = try_cast_from_parquet_to_liquid_type(numbers, &mode).unwrap();
        assert_eq!(cast.inner.as_ref(), &Int32Array::from(vec![1, 2]));
        assert!(try_cast_from_parquet_to_liquid_type(many(65536), &mode).is_some());
    }
    assert!(try_cast_from_parquet_to_liquid_type(many(65537), &LIQUID).is_none());
    let arrow = LiquidCacheMode::Arrow;
    assert!(try_cast_from_parquet_to_liquid_type(many(65537), &arrow).is_some());
}

#[test]
fn coercing_twice_changes_nothing() {
    for mode in [LIQUID, LiquidCacheMode::Arrow] {
        for data_type in all_types() {
            let once = coerce_string_to_liquid_type(&data_type, &mode);
            assert_eq!(coerce_string_to_liquid_type(&once, &mode), once);
            let once = coerce_from_parquet_to_liquid_type(&data_type, &mode);
            assert_eq!(coerce_from_parquet_to_liquid_type(&once, &mode), once);
        }
    }
    let view = coerce_string_to_view(&schema());
    assert_eq!(coerce_string_to_view(&view), view);
}

#[test]
fn cache_mode_names() {
    let modes = vec![
        (CacheMode::Parquet, "parquet"),
        (CacheMode::Liquid, "liquid"),
        (CacheMode::LiquidEagerTranscode, "liquid_eager_transcode"),
        (CacheMode::Arrow, "arrow"),
        (CacheMode::StaticFileServer, "static_file_server"),
    ];
    for (mode, name) in modes {
        assert_eq!(mode.to_string(), name);
        assert_eq!(name.parse::<CacheMode>(), Ok(mode));
    }
    assert_eq!(CacheMode::default(), CacheMode::Liquid);
    assert_eq!(
        "lru".parse::<CacheMode>().unwrap_err(),
        "Invalid cache mode: lru, must be one of: parquet, liquid, liquid_eager_transcode, arrow, static_file_server"
    );
}

#[test]
fn cache_modes_that_hold_arrays() {
    assert_eq!(LiquidCacheMode::from_cache_mode(CacheMode::Arrow), LiquidCacheMode::Arrow);
    assert_eq!(LiquidCacheMode::from_cache_mode(CacheMode::Liquid), LIQUID);
    assert_eq!(
        LiquidCacheMode::from_cache_mode(CacheMode::LiquidEagerTranscode),
        LiquidCacheMode::Liquid { transcode_in_background: false }
    );
    assert_eq!(LiquidCacheMode::default(), LIQUID);
}
