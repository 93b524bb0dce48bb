use arrow::array::BooleanBufferBuilder;
use arrow::buffer::BooleanBuffer;
use liquid_cache::bits::boolean_buffer_and_then;
use liquid_cache::bits::boolean_buffer_and_then_bmi2;
use liquid_cache::bits::boolean_buffer_and_then_fallback;
use liquid_cache::bits::boolean_buffer_or;

fn buffer(pattern: &str) -> BooleanBuffer {
    pattern.chars().map(|c| c == 'Y').collect()
}

#[test]
fn test_boolean_buffer_and_then_bmi2_large() {
    // Test with larger buffer (more than 64 bits)
    let size = 128;
    let mut left_builder = BooleanBufferBuilder::new(size);
    let mut right_bits = Vec::new();

    // Create a pattern where every 3rd bit is set in left
    for i in 0..size {
        let is_set = i % 3 == 0;
        left_builder.append(is_set);
        if is_set {
            // For right buffer, alternate between true/false
            right_bits.push(right_bits.len() % 2 == 0);
        }
    }
    let left = left_builder.finish();

    let mut right_builder = BooleanBufferBuilder::new(right_bits.len());
    for bit in right_bits {
        right_builder.append(bit);
    }
    let right = right_builder.finish();

    let result_bmi2 = boolean_buffer_and_then_bmi2(&left, &right);
    let result_orig = boolean_buffer_and_then_fallback(&left, &right);

    assert_eq!(result_bmi2.len(), result_orig.len());
    assert_eq!(result_bmi2.len(), size);

    // Verify they produce the same result
    for i in 0..size {
        assert_eq!(
            result_bmi2.value(i),
            result_orig.value(i),
            "Mismatch at position {}",
            i
        );
    }
}

#[test]
fn test_boolean_buffer_and_then_bmi2_edge_cases() {
    // Test case: all bits set in left, alternating pattern in right
    let mut left_builder = BooleanBufferBuilder::new(16);
    for _ in 0..16 {
        left_builder.append(true);
    }
    let left = left_builder.finish();

    let mut right_builder = BooleanBufferBuilder::new(16);
    for i in 0..16 {
        right_builder.append(i % 2 == 0);
    }
    let right = right_builder.finish();

    let result_bmi2 = boolean_buffer_and_then_bmi2(&left, &right);
    let result_orig = boolean_buffer_and_then_fallback(&left, &right);

    assert_eq!(result_bmi2.len(), result_orig.len());
    for i in 0..16 {
        assert_eq!(
            result_bmi2.value(i),
            result_orig.value(i),
            "Mismatch at position {}",
            i
        );
        // Should be true for even indices, false for odd
        assert_eq!(result_bmi2.value(i), i % 2 == 0);
    }

    // Test case: no bits set in left
    let mut left_empty_builder = BooleanBufferBuilder::new(8);
    for _ in 0..8 {
        left_empty_builder.append(false);
    }
    let left_empty = left_empty_builder.finish();
    let right_empty = BooleanBufferBuilder::new(0).finish();

    let result_bmi2_empty = boolean_buffer_and_then_bmi2(&left_empty, &right_empty);
    let result_orig_empty = boolean_buffer_and_then_fallback(&left_empty, &right_empty);

    assert_eq!(result_bmi2_empty.len(), result_orig_empty.len());
    assert_eq!(result_bmi2_empty.len(), 8);
    for i in 0..8 {
        assert_eq!(result_bmi2_empty.value(i), false);
        assert_eq!(result_orig_empty.value(i), false);
    }
}

#[test]
fn and_then_example() {
    let left = buffer("NNYYYNNYYNYN");
    let right = buffer("YNYNYN");
    let expected = buffer("NNYNYNNNYNNN");
    assert_eq!(boolean_buffer_and_then(&left, &right), expected);
    assert_eq!(boolean_buffer_and_then_bmi2(&left, &right), expected);
    assert_eq!(boolean_buffer_and_then_fallback(&left, &right), expected);
}

#[test]
fn and_then_of_all_rows_is_the_right_side() {
    let left = BooleanBuffer::new_set(70);
    let right = BooleanBuffer::collect_bool(70, |i| i % 7 == 3);
    assert_eq!(boolean_buffer_and_then(&left, &right), right);
    assert_eq!(boolean_buffer_and_then_fallback(&left, &right), right);
}

#[test]
fn and_then_of_every_length() {
    for len in 0..200 {
        let left = BooleanBuffer::collect_bool(len, |i| (i * i + i / 3) % 5 < 3);
        let right = BooleanBuffer::collect_bool(left.count_set_bits(), |i| (i * 7 + 1) % 4 < 2);
        let mut k = 0;
        let mut expected = Vec::new();
        for i in 0..len {
            if left.value(i) {
                expected.push(right.value(k));
                k += 1;
            } else {
                expected.push(false);
            }
        }
        let expected = BooleanBuffer::from(expected);
        assert_eq!(boolean_buffer_and_then(&left, &right), expected);
        assert_eq!(boolean_buffer_and_then_bmi2(&left, &right), expected);
        assert_eq!(boolean_buffer_and_then_fallback(&left, &right), expected);
        assert_eq!(expected.count_set_bits(), right.count_set_bits());
    }
}

#[test]
fn and_then_of_slices() {
    let long = BooleanBuffer::collect_bool(300, |i| i % 3 != 1);
    let left = long.slice(5, 190);
    let right = long.slice(11, left.count_set_bits());
    let expected = boolean_buffer_and_then_fallback(&left, &right);
    assert_eq!(boolean_buffer_and_then_bmi2(&left, &right), expected);
    let mut k = 0;
    for i in 0..left.len() {
        let kept = left.value(i) && right.value(k);
        if left.value(i) {
            k += 1;
        }
        assert_eq!(expected.value(i), kept);
    }
}

#[test]
fn and_then_is_associative() {
    let a = BooleanBuffer::collect_bool(150, |i| i % 2 == 0);
    let b = BooleanBuffer::collect_bool(a.count_set_bits(), |i| i % 3 != 0);
    let c = BooleanBuffer::collect_bool(b.count_set_bits(), |i| i % 5 < 2);
    assert_eq!(
        boolean_buffer_and_then(&boolean_buffer_and_then(&a, &b), &c),
        boolean_buffer_and_then(&a, &boolean_buffer_and_then(&b, &c))
    );
}

#[test]
fn or_of_selections() {
    let left = buffer("YYNN");
    let right = buffer("YNYN");
    assert_eq!(boolean_buffer_or(&left, &right), buffer("YYYN"));
    assert_eq!(boolean_buffer_or(&buffer(""), &buffer("")).len(), 0);
}
