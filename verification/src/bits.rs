//! Row selections as packed booleans: disjunction, and the narrowing of one selection by another.

use arrow::array::BooleanArray;
use arrow::array::BooleanBufferBuilder;
use arrow::buffer::BooleanBuffer;
use arrow::error::ArrowError;
use vstd::prelude::*;

verus! {

/// The number of true values among the first `n`.
pub open spec fn rank(bits: Seq<bool>, n: int) -> nat
    decreases n,
{
    if n <= 0 {
        0
    } else {
        rank(bits, n - 1) + if bits[n - 1] {
            1nat
        } else {
            0nat
        }
    }
}

/// The number of true values.
pub open spec fn count_true(bits: Seq<bool>) -> nat {
    rank(bits, bits.len() as int)
}

/// The positions of the true values among the first `n`, in ascending order.
pub open spec fn positions_below(bits: Seq<bool>, n: int) -> Seq<int>
    decreases n,
{
    if n <= 0 {
        Seq::empty()
    } else if bits[n - 1] {
        positions_below(bits, n - 1).push(n - 1)
    } else {
        positions_below(bits, n - 1)
    }
}

/// The positions of the true values, in ascending order.
pub open spec fn positions(bits: Seq<bool>) -> Seq<int> {
    positions_below(bits, bits.len() as int)
}

/// Position by position disjunction.
pub open spec fn or_bits(left: Seq<bool>, right: Seq<bool>) -> Seq<bool> {
    Seq::new(left.len(), |i: int| left[i] || right[i])
}

/// The rows of `left` that `right` keeps, where `right` has one value for each row of `left`:
/// its first value decides on the first row that `left` selects, and so on.
pub open spec fn and_then_bits(left: Seq<bool>, right: Seq<bool>) -> Seq<bool> {
    Seq::new(left.len(), |i: int| left[i] && right[rank(left, i) as int])
}

/// Bit `i` of a word, counted from the lowest.
pub open spec fn word_bit(w: u64, i: int) -> bool {
    (w >> (i as u64)) & 1 == 1
}

/// Bit `i` of a byte, counted from the lowest.
pub open spec fn byte_bit(b: u8, i: int) -> bool {
    (b >> (i as u8)) & 1 == 1
}

/// The bits of a word, the lowest first.
pub open spec fn word_bits(w: u64) -> Seq<bool> {
    Seq::new(64, |i: int| word_bit(w, i))
}

/// Packed booleans of the crate `arrow`.
#[verifier::external_type_specification]
#[verifier::external_body]
pub struct ExBooleanBuffer(BooleanBuffer);

/// The builder of packed booleans of the crate `arrow`.
#[verifier::external_type_specification]
#[verifier::external_body]
pub struct ExBooleanBufferBuilder(BooleanBufferBuilder);

/// The array of nullable booleans of the crate `arrow`.
#[verifier::external_type_specification]
#[verifier::external_body]
pub struct ExBooleanArray(BooleanArray);

/// The error of the crate `arrow`.
#[verifier::external_type_specification]
#[verifier::external_body]
pub struct ExArrowError(ArrowError);

/// The values of packed booleans, in order.
pub uninterp spec fn buffer_bits(buffer: BooleanBuffer) -> Seq<bool>;

/// The values that a builder has been given so far, in order.
pub uninterp spec fn builder_bits(builder: BooleanBufferBuilder) -> Seq<bool>;

/// The values of an array of booleans, in order, with some value or other where it is null.
pub uninterp spec fn array_bits(array: BooleanArray) -> Seq<bool>;

/// Which values of an array of booleans are not null; `None` where it keeps no record of nulls.
pub uninterp spec fn array_validity(array: BooleanArray) -> Option<Seq<bool>>;

/// `BooleanBuffer::len` is the number of values.
pub assume_specification[ BooleanBuffer::len ](buffer: &BooleanBuffer) -> (n: usize)
    ensures
        n == buffer_bits(*buffer).len(),
;

/// `BooleanBuffer::value` is the value at a position; it panics past the end.
pub assume_specification[ BooleanBuffer::value ](buffer: &BooleanBuffer, idx: usize) -> (b: bool)
    requires
        idx < buffer_bits(*buffer).len(),
    ensures
        b == buffer_bits(*buffer)[idx as int],
;

/// `BooleanBuffer::count_set_bits` is the number of true values.
pub assume_specification[ BooleanBuffer::count_set_bits ](buffer: &BooleanBuffer) -> (n: usize)
    ensures
        n == count_true(buffer_bits(*buffer)),
;

/// The derived `clone` of `BooleanBuffer` holds the same values.
pub assume_specification[ <BooleanBuffer as Clone>::clone ](buffer: &BooleanBuffer) -> (copy:
    BooleanBuffer)
    ensures
        buffer_bits(copy) == buffer_bits(*buffer),
;

/// `BooleanBufferBuilder::new` is an empty builder.
pub assume_specification[ BooleanBufferBuilder::new ](capacity: usize) -> (builder:
    BooleanBufferBuilder)
    ensures
        builder_bits(builder) == Seq::<bool>::empty(),
;

/// `BooleanBufferBuilder::append_n` adds a value a number of times; the length must not overflow.
pub assume_specification[ BooleanBufferBuilder::append_n ](
    builder: &mut BooleanBufferBuilder,
    additional: usize,
    v: bool,
)
    requires
        builder_bits(*old(builder)).len() + additional <= usize::MAX,
    ensures
        builder_bits(*final(builder)) == builder_bits(*old(builder)) + Seq::new(
            additional as nat,
            |i: int| v,
        ),
;

/// `BooleanBufferBuilder::append_buffer` adds the values of a buffer; the length must not
/// overflow.
pub assume_specification[ BooleanBufferBuilder::append_buffer ](
    builder: &mut BooleanBufferBuilder,
    buffer: &BooleanBuffer,
)
    requires
        builder_bits(*old(builder)).len() + buffer_bits(*buffer).len() <= usize::MAX,
    ensures
        builder_bits(*final(builder)) == builder_bits(*old(builder)) + buffer_bits(*buffer),
;

/// `BooleanBufferBuilder::set_bit` replaces the value at a position; it may panic past the end.
pub assume_specification[ BooleanBufferBuilder::set_bit ](
    builder: &mut BooleanBufferBuilder,
    index: usize,
    v: bool,
)
    requires
        index < builder_bits(*old(builder)).len(),
    ensures
        builder_bits(*final(builder)) == builder_bits(*old(builder)).update(index as int, v),
;

/// `BooleanBufferBuilder::finish` hands out the values and leaves the builder empty.
pub assume_specification[ BooleanBufferBuilder::finish ](builder: &mut BooleanBufferBuilder) -> (
buffer: BooleanBuffer)
    ensures
        buffer_bits(buffer) == builder_bits(*old(builder)),
        builder_bits(*final(builder)) == Seq::<bool>::empty(),
;

/// `BooleanBuffer::set_indices` runs through the positions of the true values in ascending order.
#[verifier::external_body]
fn set_indices(buffer: &BooleanBuffer) -> (indices: Vec<usize>)
    ensures
        indices@.map_values(|i: usize| i as int) == positions(buffer_bits(*buffer)),
{
    buffer.set_indices().collect()
}

/// `BooleanBuffer::bit_chunks` and its `iter_padded` cut the values into words of 64, the first
/// value in the lowest bit. After the full words comes one that holds the remaining values, fewer
/// than 64 and possibly none, with zeros above them.
#[verifier::external_body]
fn padded_words(buffer: &BooleanBuffer) -> (words: Vec<u64>)
    ensures
        words@.len() == buffer_bits(*buffer).len() / 64 + 1,
        forall|w: int, i: int|
            0 <= w < words@.len() && 0 <= i < 64 ==> #[trigger] word_bit(words@[w], i) == (64 * w
                + i < buffer_bits(*buffer).len() && buffer_bits(*buffer)[64 * w + i]),
{
    buffer.bit_chunks().iter_padded().collect()
}

/// `BooleanBuffer::new`, without an offset, reads values from the bits of bytes, the lowest bit
/// first; it panics where there are too few bytes.
#[verifier::external_body]
fn buffer_of_bytes(bytes: Vec<u8>, len: usize) -> (buffer: BooleanBuffer)
    requires
        len <= 8 * bytes@.len(),
    ensures
        buffer_bits(buffer) == Seq::new(len as nat, |i: int| byte_bit(bytes@[i / 8], i % 8)),
{
    BooleanBuffer::new(arrow::buffer::Buffer::from(bytes), 0, len)
}

/// `BooleanArray::new` without nulls holds the values of the buffer.
#[verifier::external_body]
fn array_of_buffer(values: BooleanBuffer) -> (array: BooleanArray)
    ensures
        array_bits(array) == buffer_bits(values),
        array_validity(array) is None,
{
    BooleanArray::new(values, None)
}

/// `or_kleene` on arrays without nulls is the disjunction, again without nulls; it fails where the
/// lengths differ and only there.
#[verifier::external_body]
fn or_kleene(left: &BooleanArray, right: &BooleanArray) -> (array: Result<BooleanArray, ArrowError>)
    requires
        array_validity(*left) is None,
        array_validity(*right) is None,
    ensures
        array is Ok <==> array_bits(*left).len() == array_bits(*right).len(),
        array is Ok ==> array_bits(array->Ok_0) == or_bits(array_bits(*left), array_bits(*right))
            && array_validity(array->Ok_0) is None,
{
    arrow::compute::kernels::boolean::or_kleene(left, right)
}

/// `null_count` of a `BooleanArray` is the number of nulls, each value being null or not.
#[verifier::external_body]
pub(crate) fn null_count(array: &BooleanArray) -> (n: usize)
    ensures
        array_validity(*array) is None ==> n == 0,
        array_validity(*array) is Some ==> n == array_validity(*array)->0.len() - count_true(
            array_validity(*array)->0,
        ) && n == array_bits(*array).len() - count_true(array_validity(*array)->0),
{
    arrow::array::Array::null_count(array)
}

/// `prep_null_mask_filter` turns nulls into `false`; it panics without a record of nulls.
#[verifier::external_body]
pub(crate) fn prep_null_mask_filter(filter: &BooleanArray) -> (array: BooleanArray)
    requires
        array_validity(*filter) is Some,
    ensures
        array_bits(array) == Seq::new(
            array_bits(*filter).len(),
            |i: int| array_bits(*filter)[i] && array_validity(*filter)->0[i],
        ),
        array_validity(array) is None,
{
    arrow::compute::prep_null_mask_filter(filter)
}

/// `BooleanArray::into_parts` gives the values, and the record of nulls, which is not needed here.
#[verifier::external_body]
pub(crate) fn array_values(array: BooleanArray) -> (buffer: BooleanBuffer)
    ensures
        buffer_bits(buffer) == array_bits(array),
{
    array.into_parts().0
}

/// Position by position disjunction of two selections of the same length.
pub fn boolean_buffer_or(left: &BooleanBuffer, right: &BooleanBuffer) -> (result: BooleanBuffer)
    requires
        buffer_bits(*left).len() == buffer_bits(*right).len(),
    ensures
        buffer_bits(result) == or_bits(buffer_bits(*left), buffer_bits(*right)),
        buffer_bits(result).len() == buffer_bits(*left).len(),
        forall|i: int|
            0 <= i < buffer_bits(*left).len() ==> (#[trigger] buffer_bits(result)[i]
                <==> buffer_bits(*left)[i] || buffer_bits(*right)[i]),
{
    let lhs = array_of_buffer(left.clone());
    let rhs = array_of_buffer(right.clone());
    match or_kleene(&lhs, &rhs) {
        Ok(array) => array_values(array),
        Err(_) => {
            assert(false);
            left.clone()
        },
    }
}

pub proof fn lemma_rank_bounds(bits: Seq<bool>, n: int)
    ensures
        rank(bits, n) <= if n < 0 {
            0
        } else {
            n
        },
    decreases n,
{
    if n > 0 {
        lemma_rank_bounds(bits, n - 1);
    }
}

pub proof fn lemma_rank_monotonic(bits: Seq<bool>, m: int, n: int)
    requires
        m <= n,
    ensures
        rank(bits, m) <= rank(bits, n),
    decreases n - m,
{
    if m < n {
        lemma_rank_monotonic(bits, m, n - 1);
    }
}

/// The rank of a true position is smaller than the number of true values.
pub proof fn lemma_rank_in_range(bits: Seq<bool>, i: int)
    requires
        0 <= i < bits.len(),
        bits[i],
    ensures
        rank(bits, i) < count_true(bits),
{
    lemma_rank_monotonic(bits, i + 1, bits.len() as int);
}

/// The rank looks only at the values before the position.
pub proof fn lemma_rank_local(a: Seq<bool>, b: Seq<bool>, n: int)
    requires
        n <= a.len(),
        n <= b.len(),
        forall|i: int| 0 <= i < n ==> a[i] == b[i],
    ensures
        rank(a, n) == rank(b, n),
    decreases n,
{
    if n > 0 {
        lemma_rank_local(a, b, n - 1);
    }
}

/// Where all values are true the rank of a position is the position.
pub proof fn lemma_rank_full(bits: Seq<bool>, n: int)
    requires
        0 <= n <= bits.len(),
        count_true(bits) == bits.len(),
    ensures
        rank(bits, n) == n,
        n < bits.len() ==> bits[n],
{
    lemma_rank_bounds(bits, n);
    lemma_rank_tail(bits, n);
    if n < bits.len() {
        lemma_rank_tail(bits, n + 1);
        lemma_rank_bounds(bits, n);
    }
}

proof fn lemma_rank_tail(bits: Seq<bool>, n: int)
    requires
        0 <= n <= bits.len(),
    ensures
        count_true(bits) - rank(bits, n) <= bits.len() - n,
    decreases bits.len() - n,
{
    if n < bits.len() {
        lemma_rank_tail(bits, n + 1);
    }
}

proof fn lemma_full_and_then(left: Seq<bool>, right: Seq<bool>)
    requires
        count_true(left) == right.len(),
        left.len() == right.len(),
    ensures
        and_then_bits(left, right) == right,
{
    assert forall|i: int| 0 <= i < left.len() implies #[trigger] and_then_bits(left, right)[i]
        == right[i] by {
        lemma_rank_full(left, i);
    }
    assert(and_then_bits(left, right) =~= right);
}

/// The list of positions has one element for each true value.
pub proof fn lemma_positions(bits: Seq<bool>, n: int)
    requires
        0 <= n <= bits.len(),
    ensures
        positions_below(bits, n).len() == rank(bits, n),
        forall|k: int|
            0 <= k < positions_below(bits, n).len() ==> {
                let p = #[trigger] positions_below(bits, n)[k];
                0 <= p < n && bits[p] && rank(bits, p) == k
            },
        forall|i: int|
            0 <= i < n && bits[i] ==> positions_below(bits, n)[rank(bits, i) as int] == i,
    decreases n,
{
    if n > 0 {
        lemma_positions(bits, n - 1);
        let p1 = positions_below(bits, n);
        assert forall|i: int| 0 <= i < n && bits[i] implies p1[rank(bits, i) as int] == i by {
            if i < n - 1 {
                lemma_rank_monotonic(bits, i + 1, n - 1);
            }
        }
    }
}

/// Narrows a selection, clearing one position at a time. See [boolean_buffer_and_then].
pub fn boolean_buffer_and_then_fallback(left: &BooleanBuffer, right: &BooleanBuffer) -> (result:
    BooleanBuffer)
    requires
        count_true(buffer_bits(*left)) == buffer_bits(*right).len(),
    ensures
        buffer_bits(result) == and_then_bits(buffer_bits(*left), buffer_bits(*right)),
        buffer_bits(result).len() == buffer_bits(*left).len(),
        forall|i: int|
            0 <= i < buffer_bits(*left).len() ==> (#[trigger] buffer_bits(result)[i]
                <==> buffer_bits(*left)[i] && buffer_bits(*right)[rank(
                buffer_bits(*left),
                i,
            ) as int]),
{
    let ghost l = buffer_bits(*left);
    let ghost r = buffer_bits(*right);
    if left.len() == right.len() {
        proof {
            lemma_full_and_then(l, r);
        }
        return right.clone();
    }
    let mut builder = BooleanBufferBuilder::new(left.len());
    builder.append_buffer(left);
    assert(builder_bits(builder) =~= l);
    let indices = set_indices(left);
    let n: usize = indices.len();
    proof {
        lemma_positions(l, l.len() as int);
        assert(indices@.map_values(|i: usize| i as int).len() == n);
    }
    let mut k: usize = 0;
    while k < n
        invariant
            k <= n,
            n == indices@.len(),
            n == r.len(),
            r == buffer_bits(*right),
            indices@.map_values(|i: usize| i as int) == positions(l),
            positions(l).len() == n,
            forall|j: int|
                0 <= j < n ==> 0 <= #[trigger] positions(l)[j] < l.len() && rank(
                    l,
                    positions(l)[j],
                ) == j,
            builder_bits(builder).len() == l.len(),
            forall|i: int|
                0 <= i < l.len() ==> #[trigger] builder_bits(builder)[i] == (l[i] && (rank(l, i)
                    < k ==> r[rank(l, i) as int])),
            forall|i: int| 0 <= i < l.len() && #[trigger] l[i] ==> positions(l)[rank(l, i) as int] == i,
        decreases n - k,
    {
        let bit_idx: usize = indices[k];
        assert(indices@.map_values(|i: usize| i as int)[k as int] == bit_idx as int);
        assert(positions(l)[k as int] == bit_idx);
        let ghost before = builder_bits(builder);
        if !right.value(k) {
            builder.set_bit(bit_idx, false);
        }
        assert forall|i: int| 0 <= i < l.len() implies #[trigger] builder_bits(builder)[i] == (l[i]
            && (rank(l, i) < k + 1 ==> r[rank(l, i) as int])) by {
            assert(before[i] == (l[i] && (rank(l, i) < k ==> r[rank(l, i) as int])));
            if i != bit_idx && l[i] {
                assert(positions(l)[rank(l, i) as int] == i);
                assert(rank(l, i) != k);
            }
        }
        k += 1;
    }
    proof {
        assert forall|i: int| 0 <= i < l.len() implies #[trigger] builder_bits(builder)[i]
            == and_then_bits(l, r)[i] by {
            if l[i] {
                lemma_rank_in_range(l, i);
            }
        }
        assert(builder_bits(builder) =~= and_then_bits(l, r));
    }
    builder.finish()
}

proof fn lemma_set_word_bit(w: u64, i: u64)
    requires
        i < 64,
    ensures
        forall|j: int|
            0 <= j < 64 ==> #[trigger] word_bit(w | (1u64 << i), j) == (word_bit(w, j) || j == i),
{
    assert forall|j: int| 0 <= j < 64 implies #[trigger] word_bit(w | (1u64 << i), j) == (word_bit(
        w,
        j,
    ) || j == i) by {
        let k = j as u64;
        assert((((w | (1u64 << i)) >> k) & 1 == 1) == ((w >> k) & 1 == 1 || k == i)) by (bit_vector)
            requires
                i < 64,
                k < 64,
        ;
    }
}

/// Deposits the low bits of `source` at the set positions of `mask`, and counts those positions.
fn deposit_bits(source: u64, mask: u64) -> (r: (u64, u32))
    ensures
        word_bits(r.0) == and_then_bits(word_bits(mask), word_bits(source)),
        r.1 == count_true(word_bits(mask)),
{
    let ghost m = word_bits(mask);
    let ghost s = word_bits(source);
    let mut result: u64 = 0;
    let mut taken: u32 = 0;
    let mut i: u32 = 0;
    proof {
        assert forall|j: int| 0 <= j < 64 implies !#[trigger] word_bit(0, j) by {
            let k = j as u64;
            assert((0u64 >> k) & 1 == 0) by (bit_vector);
        }
    }
    while i < 64
        invariant
            i <= 64,
            m == word_bits(mask),
            s == word_bits(source),
            taken == rank(m, i as int),
            taken <= i,
            forall|j: int|
                0 <= j < 64 ==> #[trigger] word_bit(result, j) == (j < i && m[j] && s[rank(
                    m,
                    j,
                ) as int]),
        decreases 64 - i,
    {
        assert(m[i as int] == word_bit(mask, i as int));
        assert(((mask >> i) & 1 == 1) == ((mask >> (i as u64)) & 1 == 1)) by (bit_vector)
            requires
                i < 64,
        ;
        if (mask >> i) & 1 == 1 {
            assert(s[taken as int] == word_bit(source, taken as int));
            assert(((source >> taken) & 1 == 1) == ((source >> (taken as u64)) & 1 == 1))
                by (bit_vector)
                requires
                    taken < 64,
            ;
            if (source >> taken) & 1 == 1 {
                proof {
                    lemma_set_word_bit(result, i as u64);
                    assert(1u64 << i == 1u64 << (i as u64)) by (bit_vector)
                        requires
                            i < 64,
                    ;
                }
                result = result | (1u64 << i);
            }
            taken += 1;
        }
        i += 1;
    }
    assert(word_bits(result) =~= and_then_bits(m, s));
    (result, taken)
}

/// The word of 64 values that starts at position `start`.
fn word_at(words: &Vec<u64>, start: usize) -> (word: u64)
    ensures
        forall|i: int|
            0 <= i < 64 && (start + i) / 64 < words@.len() ==> #[trigger] word_bit(word, i)
                == word_bit(words@[(start + i) / 64], (start + i) % 64),
{
    let q: usize = start / 64;
    let s: u32 = (start % 64) as u32;
    let low: u64 = if q < words.len() {
        words[q]
    } else {
        0
    };
    let high: u64 = if s != 0 && q + 1 < words.len() {
        words[q + 1]
    } else {
        0
    };
    let word: u64 = if s == 0 {
        low
    } else {
        (low >> s) | (high << (64 - s))
    };
    assert forall|i: int| 0 <= i < 64 && (start + i) / 64 < words@.len() implies #[trigger] word_bit(
        word,
        i,
    ) == word_bit(words@[(start + i) / 64], (start + i) % 64) by {
        let k = i as u64;
        let t = s as u64;
        if s != 0 {
            let u: u32 = (64 - s) as u32;
            assert(k + t < 64 ==> ((((low >> s) | (high << u)) >> k) & 1 == 1) == ((low >> ((k + t)
                as u64)) & 1 == 1)) by (bit_vector)
                requires
                    0 < s < 64,
                    t == s as u64,
                    u == 64 - s,
                    k < 64,
            ;
            assert(k + t >= 64 ==> ((((low >> s) | (high << u)) >> k) & 1 == 1) == ((high >> ((k + t
                - 64) as u64)) & 1 == 1)) by (bit_vector)
                requires
                    0 < s < 64,
                    t == s as u64,
                    u == 64 - s,
                    k < 64,
            ;
        }
        if s + i < 64 {
            assert((start + i) / 64 == q && (start + i) % 64 == s + i);
        } else {
            assert((start + i) / 64 == q + 1 && (start + i) % 64 == s + i - 64);
        }
    }
    word
}

/// The rank within a word of a longer sequence.
proof fn lemma_rank_in_word(bits: Seq<bool>, word: Seq<bool>, w: int, j: int)
    requires
        0 <= w,
        64 * w <= bits.len(),
        word.len() == 64,
        0 <= j <= 64,
        forall|i: int|
            0 <= i < 64 ==> #[trigger] word[i] == (64 * w + i < bits.len() && bits[64 * w + i]),
    ensures
        64 * w + j <= bits.len() ==> rank(word, j) == rank(bits, 64 * w + j) - rank(bits, 64 * w),
        64 * w + j > bits.len() ==> rank(word, j) == count_true(bits) - rank(bits, 64 * w),
    decreases j,
{
    if j > 0 {
        lemma_rank_in_word(bits, word, w, j - 1);
        assert(word[j - 1] == (64 * w + (j - 1) < bits.len() && bits[64 * w + (j - 1)]));
    }
}

/// The bytes of words, the lowest byte first.
fn bytes_of_words(words: &Vec<u64>, len: usize) -> (bytes: Vec<u8>)
    requires
        len <= 8 * words@.len(),
    ensures
        bytes@.len() == len,
        forall|b: int, i: int|
            0 <= b < len && 0 <= i < 8 ==> #[trigger] byte_bit(bytes@[b], i) == word_bit(
                words@[b / 8],
                8 * (b % 8) + i,
            ),
{
    let mut bytes: Vec<u8> = Vec::new();
    let mut n: usize = 0;
    while n < len
        invariant
            n <= len,
            len <= 8 * words@.len(),
            bytes@.len() == n,
            forall|b: int, i: int|
                0 <= b < n && 0 <= i < 8 ==> #[trigger] byte_bit(bytes@[b], i) == word_bit(
                    words@[b / 8],
                    8 * (b % 8) + i,
                ),
        decreases len - n,
    {
        let word: u64 = words[n / 8];
        let shift: u32 = 8 * ((n % 8) as u32);
        #[verifier::truncate]
        let byte: u8 = (word >> shift) as u8;
        assert forall|i: int| 0 <= i < 8 implies #[trigger] byte_bit(byte, i) == word_bit(
            word,
            8 * (n as int % 8) + i,
        ) by {
            let k = i as u8;
            let p = (shift + i) as u64;
            assert(((byte >> k) & 1 == 1) == ((word >> p) & 1 == 1)) by (bit_vector)
                requires
                    byte == (word >> shift) as u8,
                    shift <= 56,
                    k < 8,
                    p == shift + k,
            ;
        }
        bytes.push(byte);
        n += 1;
    }
    bytes
}

/// Narrows a selection, 64 positions at a time. See [boolean_buffer_and_then].
pub fn boolean_buffer_and_then_bmi2(left: &BooleanBuffer, right: &BooleanBuffer) -> (result:
    BooleanBuffer)
    requires
        count_true(buffer_bits(*left)) == buffer_bits(*right).len(),
    ensures
        buffer_bits(result) == and_then_bits(buffer_bits(*left), buffer_bits(*right)),
        buffer_bits(result).len() == buffer_bits(*left).len(),
        forall|i: int|
            0 <= i < buffer_bits(*left).len() ==> (#[trigger] buffer_bits(result)[i]
                <==> buffer_bits(*left)[i] && buffer_bits(*right)[rank(
                buffer_bits(*left),
                i,
            ) as int]),
{
    let ghost l = buffer_bits(*left);
    let ghost r = buffer_bits(*right);
    let bit_len: usize = left.len();
    let left_words = padded_words(left);
    let right_words = padded_words(right);
    let word_len: usize = left_words.len();
    let mut out: Vec<u64> = Vec::new();
    let mut right_bit_idx: usize = 0;
    let mut w: usize = 0;
    proof {
        lemma_rank_bounds(l, l.len() as int);
    }
    while w < word_len
        invariant
            w <= word_len,
            word_len == l.len() / 64 + 1,
            left_words@.len() == word_len,
            right_words@.len() == r.len() / 64 + 1,
            l.len() == bit_len,
            count_true(l) == r.len(),
            r.len() <= l.len(),
            out@.len() == w,
            right_bit_idx == if 64 * w <= l.len() {
                rank(l, 64 * w)
            } else {
                count_true(l)
            },
            forall|v: int, i: int|
                0 <= v < left_words@.len() && 0 <= i < 64 ==> #[trigger] word_bit(left_words@[v], i)
                    == (64 * v + i < l.len() && l[64 * v + i]),
            forall|v: int, i: int|
                0 <= v < right_words@.len() && 0 <= i < 64 ==> #[trigger] word_bit(
                    right_words@[v],
                    i,
                ) == (64 * v + i < r.len() && r[64 * v + i]),
            forall|v: int, i: int|
                0 <= v < w && 0 <= i < 64 ==> #[trigger] word_bit(out@[v], i) == (64 * v + i
                    < l.len() && and_then_bits(l, r)[64 * v + i]),
        decreases word_len - w,
    {
        let mask: u64 = left_words[w];
        let source: u64 = word_at(&right_words, right_bit_idx);
        let (deposited, need) = deposit_bits(source, mask);
        proof {
            let m = word_bits(mask);
            let s = word_bits(source);
            assert(64 * w <= l.len());
            assert forall|i: int| 0 <= i < 64 implies #[trigger] m[i] == (64 * w + i < l.len()
                && l[64 * w + i]) by {
                assert(m[i] == word_bit(left_words@[w as int], i));
            }
            assert forall|i: int| 0 <= i < 64 implies #[trigger] word_bit(deposited, i) == (64 * w
                + i < l.len() && and_then_bits(l, r)[64 * w + i]) by {
                assert(word_bits(deposited)[i] == word_bit(deposited, i));
                lemma_rank_in_word(l, m, w as int, i);
                if m[i] {
                    let p = 64 * w + i;
                    lemma_rank_in_range(l, p);
                    lemma_rank_bounds(m, i);
                    let k = rank(m, i) as int;
                    assert(rank(l, p) == right_bit_idx + k);
                    let pos = right_bit_idx + k;
                    assert(pos / 64 < right_words@.len());
                    assert(s[k] == word_bit(source, k));
                    assert(word_bit(right_words@[pos / 64], pos % 64) == (64 * (pos / 64) + pos % 64
                        < r.len() && r[64 * (pos / 64) + pos % 64]));
                    assert(64 * (pos / 64) + pos % 64 == pos);
                }
            }
            lemma_rank_in_word(l, m, w as int, 64);
            if 64 * w + 64 <= l.len() {
                lemma_rank_monotonic(l, 64 * w + 64, l.len() as int);
            }
            assert(right_bit_idx + need <= r.len());
        }
        out.push(deposited);
        right_bit_idx += need as usize;
        w += 1;
    }
    let byte_len: usize = if bit_len % 8 == 0 {
        bit_len / 8
    } else {
        bit_len / 8 + 1
    };
    let bytes = bytes_of_words(&out, byte_len);
    let result = buffer_of_bytes(bytes, bit_len);
    proof {
        assert forall|i: int| 0 <= i < l.len() implies #[trigger] buffer_bits(result)[i]
            == and_then_bits(l, r)[i] by {
            let b = i / 8;
            assert(byte_bit(bytes@[b], i % 8) == word_bit(out@[b / 8], 8 * (b % 8) + i % 8));
            assert(b / 8 == i / 64 && 8 * (b % 8) + i % 8 == i % 64);
            assert(word_bit(out@[i / 64], i % 64) == (64 * (i / 64) + i % 64 < l.len()
                && and_then_bits(l, r)[64 * (i / 64) + i % 64]));
            assert(64 * (i / 64) + i % 64 == i);
        }
        assert(buffer_bits(result) =~= and_then_bits(l, r));
    }
    result
}

/// Narrows the selection `left` by `right`, which has one value for each row that `left` selects.
///
/// Only those rows of `left` stay for which `right` is true:
///
/// ```text
/// left:   NNYYYNNYYNYN
/// right:    YNY  NY N
/// result: NNYNYNNNYNNN
/// ```
pub fn boolean_buffer_and_then(left: &BooleanBuffer, right: &BooleanBuffer) -> (result:
    BooleanBuffer)
    requires
        count_true(buffer_bits(*left)) == buffer_bits(*right).len(),
    ensures
        buffer_bits(result) == and_then_bits(buffer_bits(*left), buffer_bits(*right)),
        buffer_bits(result).len() == buffer_bits(*left).len(),
        forall|i: int|
            0 <= i < buffer_bits(*left).len() ==> (#[trigger] buffer_bits(result)[i]
                <==> buffer_bits(*left)[i] && buffer_bits(*right)[rank(
                buffer_bits(*left),
                i,
            ) as int]),
{
    if left.len() == right.len() {
        proof {
            lemma_full_and_then(buffer_bits(*left), buffer_bits(*right));
        }
        return right.clone();
    }
    boolean_buffer_and_then_bmi2(left, right)
}

/// The rank in a narrowed selection is the rank in the narrowing one of the rank in the first.
pub proof fn rank_of_narrowed(left: Seq<bool>, right: Seq<bool>, n: int)
    requires
        count_true(left) == right.len(),
        0 <= n <= left.len(),
    ensures
        rank(and_then_bits(left, right), n) == rank(right, rank(left, n) as int),
    decreases n,
{
    if n > 0 {
        rank_of_narrowed(left, right, n - 1);
        if left[n - 1] {
            lemma_rank_in_range(left, n - 1);
        }
    }
}

/// A narrowed selection has as many rows as the narrowing one keeps.
pub proof fn narrowed_count(left: Seq<bool>, right: Seq<bool>)
    requires
        count_true(left) == right.len(),
    ensures
        and_then_bits(left, right).len() == left.len(),
        count_true(and_then_bits(left, right)) == count_true(right),
{
    rank_of_narrowed(left, right, left.len() as int);
}

/// A narrowed selection selects nothing that the first did not.
pub proof fn narrowed_is_subset(left: Seq<bool>, right: Seq<bool>, i: int)
    requires
        count_true(left) == right.len(),
        0 <= i < left.len(),
        and_then_bits(left, right)[i],
    ensures
        left[i],
{
}

/// Narrowing twice is the same as narrowing once by the narrowed narrowing.
pub proof fn narrowing_is_associative(a: Seq<bool>, b: Seq<bool>, c: Seq<bool>)
    requires
        count_true(a) == b.len(),
        count_true(b) == c.len(),
    ensures
        count_true(and_then_bits(a, b)) == c.len(),
        count_true(a) == and_then_bits(b, c).len(),
        and_then_bits(and_then_bits(a, b), c) == and_then_bits(a, and_then_bits(b, c)),
{
    narrowed_count(a, b);
    assert forall|i: int| 0 <= i < a.len() implies #[trigger] and_then_bits(
        and_then_bits(a, b),
        c,
    )[i] == and_then_bits(a, and_then_bits(b, c))[i] by {
        rank_of_narrowed(a, b, i);
        if a[i] {
            lemma_rank_in_range(a, i);
        }
    }
    assert(and_then_bits(and_then_bits(a, b), c) =~= and_then_bits(a, and_then_bits(b, c)));
}

/// Narrowing by a selection of everything changes nothing, and narrowing everything gives the
/// narrowing selection.
pub proof fn narrowing_has_unit(bits: Seq<bool>)
    ensures
        and_then_bits(bits, Seq::new(count_true(bits), |i: int| true)) == bits,
        count_true(Seq::new(bits.len(), |i: int| true)) == bits.len(),
        and_then_bits(Seq::new(bits.len(), |i: int| true), bits) == bits,
{
    let ones = Seq::new(bits.len(), |i: int| true);
    lemma_rank_of_ones(ones, bits.len() as int);
    lemma_full_and_then(ones, bits);
    let all = Seq::new(count_true(bits), |i: int| true);
    assert forall|i: int| 0 <= i < bits.len() implies #[trigger] and_then_bits(bits, all)[i]
        == bits[i] by {
        if bits[i] {
            lemma_rank_in_range(bits, i);
        }
    }
    assert(and_then_bits(bits, all) =~= bits);
}

pub proof fn lemma_rank_of_ones(bits: Seq<bool>, n: int)
    requires
        0 <= n <= bits.len(),
        forall|i: int| 0 <= i < n ==> bits[i],
    ensures
        rank(bits, n) == n,
    decreases n,
{
    if n > 0 {
        lemma_rank_of_ones(bits, n - 1);
    }
}

/// The rank of a position is the number of true values before it.
pub proof fn rank_counts_true_values(bits: Seq<bool>, n: int)
    requires
        0 <= n <= bits.len(),
    ensures
        rank(bits, n) == bits.take(n).filter(|b: bool| b).len(),
        count_true(bits) == bits.filter(|b: bool| b).len(),
    decreases n,
{
    lemma_rank_is_filter(bits, n);
    lemma_rank_is_filter(bits, bits.len() as int);
    assert(bits.take(bits.len() as int) =~= bits);
}

proof fn lemma_rank_is_filter(bits: Seq<bool>, n: int)
    requires
        0 <= n <= bits.len(),
    ensures
        rank(bits, n) == bits.take(n).filter(|b: bool| b).len(),
    decreases n,
{
    reveal(Seq::filter);
    if n > 0 {
        lemma_rank_is_filter(bits, n - 1);
        assert(bits.take(n).drop_last() =~= bits.take(n - 1));
    }
}

/// The positions of the true values rise, each of them is one of a true value, and none is missing.
pub proof fn positions_are_those_of_true_values(bits: Seq<bool>)
    ensures
        positions(bits).len() == count_true(bits),
        forall|i: int, j: int|
            0 <= i < j < positions(bits).len() ==> #[trigger] positions(bits)[i]
                < #[trigger] positions(bits)[j],
        forall|p: int| #[trigger]
            positions(bits).contains(p) <==> 0 <= p < bits.len() && bits[p],
{
    lemma_positions(bits, bits.len() as int);
    let all = positions(bits);
    assert forall|i: int, j: int| 0 <= i < j < all.len() implies #[trigger] all[i]
        < #[trigger] all[j] by {
        if all[i] >= all[j] {
            lemma_rank_monotonic(bits, all[j], all[i]);
        }
    }
    assert forall|p: int| #[trigger] all.contains(p) <==> 0 <= p < bits.len() && bits[p] by {
        if 0 <= p < bits.len() && bits[p] {
            lemma_rank_in_range(bits, p);
            assert(all[rank(bits, p) as int] == p);
        }
    }
}

/// The value at place `k` of the narrowing selection decides on row `k` of those that the first
/// selects, and on no other; rows that the first does not select stay out.
pub proof fn narrowing_decides_row_by_row(left: Seq<bool>, right: Seq<bool>)
    requires
        count_true(left) == right.len(),
    ensures
        and_then_bits(left, right).len() == left.len(),
        forall|k: int|
            0 <= k < right.len() ==> and_then_bits(left, right)[#[trigger] positions(left)[k]]
                == right[k],
        forall|i: int| 0 <= i < left.len() && !left[i] ==> !#[trigger] and_then_bits(left, right)[i],
{
    lemma_positions(left, left.len() as int);
    assert forall|k: int| 0 <= k < right.len() implies and_then_bits(
        left,
        right,
    )[#[trigger] positions(left)[k]] == right[k] by {
        assert(rank(left, positions(left)[k]) == k);
    }
}

/// The disjunction of two selections of one length has a row exactly if one of them has.
pub proof fn disjunction_has_rows_of_both(left: Seq<bool>, right: Seq<bool>, i: int)
    requires
        left.len() == right.len(),
        0 <= i < left.len(),
    ensures
        or_bits(left, right).len() == left.len(),
        or_bits(left, right)[i] <==> left[i] || right[i],
        or_bits(left, right) == or_bits(right, left),
        or_bits(left, left) == left,
{
    assert(or_bits(left, right) =~= or_bits(right, left));
    assert(or_bits(left, left) =~= left);
}

} // verus!
