use vstd::prelude::*;

use crate::error::VerifyError;
use std::collections::HashSet;

verus! {

/// Number of bytes in `s` equal to `v`.
pub open spec fn count_of(s: Seq<u8>, v: u8) -> nat
    decreases s.len(),
{
    if s.len() == 0 {
        0
    } else {
        count_of(s.drop_last(), v) + if s.last() == v { 1nat } else { 0nat }
    }
}

/// Sum of the byte values of `s`.
pub open spec fn sum_of(s: Seq<u8>) -> nat
    decreases s.len(),
{
    if s.len() == 0 {
        0
    } else {
        sum_of(s.drop_last()) + s.last() as nat
    }
}

/// Sum of the squared byte values of `s`.
pub open spec fn sum_of_squares(s: Seq<u8>) -> nat
    decreases s.len(),
{
    if s.len() == 0 {
        0
    } else {
        sum_of_squares(s.drop_last()) + (s.last() as nat) * (s.last() as nat)
    }
}

/// `a / b` rounded to the nearest integer, halves rounded up.
pub open spec fn round_div(a: int, b: int) -> int {
    (2 * a + b) / (2 * b)
}

/// Completeness: a step function of the length.
pub open spec fn completeness_spec(s: Seq<u8>) -> int {
    if s.len() <= 1023 {
        10
    } else if s.len() <= 10240 {
        50
    } else if s.len() <= 102400 {
        80
    } else {
        100
    }
}

/// Consistency: the share of non-zero bytes as a rounded percentage.
pub open spec fn consistency_spec(s: Seq<u8>) -> int {
    if s.len() == 0 {
        0
    } else {
        round_div(100 * (s.len() - count_of(s, 0)), s.len() as int)
    }
}

proof fn lemma_count_of_take(s: Seq<u8>, i: int, v: u8)
    requires
        0 <= i < s.len(),
    ensures
        count_of(s.take(i + 1), v) == count_of(s.take(i), v) + if s[i] == v { 1nat } else { 0nat },
        count_of(s.take(i), v) <= i,
{
    assert(s.take(i + 1).drop_last() =~= s.take(i));
    lemma_count_of_le(s.take(i), v);
}

proof fn lemma_count_of_le(s: Seq<u8>, v: u8)
    ensures
        count_of(s, v) <= s.len(),
    decreases s.len(),
{
    if s.len() > 0 {
        lemma_count_of_le(s.drop_last(), v);
    }
}

/// Completeness score: 10, 50, 80 or 100 as the input passes 1 KiB, 10 KiB and 100 KiB.
pub fn check_data_completeness(data: &[u8]) -> (r: u32)
    ensures
        r as int == completeness_spec(data@),
{
    let sz = data.len();
    if sz <= 1023 {
        10
    } else if sz <= 10 * 1024 {
        50
    } else if sz <= 100 * 1024 {
        80
    } else {
        100
    }
}

/// Consistency score: `round(100 * (1 - zeros / len))`, and 0 for an empty input.
pub fn check_metadata_consistency(data: &[u8]) -> (r: u32)
    ensures
        r as int == consistency_spec(data@),
        r <= 100,
{
    let n = data.len();
    if n == 0 {
        return 0;
    }
    let mut zeros: usize = 0;
    let mut i: usize = 0;
    while i < n
        invariant
            n == data@.len(),
            i <= n,
            zeros == count_of(data@.take(i as int), 0),
            zeros <= i,
        decreases n - i,
    {
        proof {
            lemma_count_of_take(data@, i as int, 0);
        }
        if data[i] == 0 {
            zeros = zeros + 1;
        }
        i = i + 1;
    }
    assert(data@.take(n as int) =~= data@);
    let nonzero = (n - zeros) as u128;
    let n128 = n as u128;
    let r = (200 * nonzero + n128) / (2 * n128);
    assert(r <= 100) by (nonlinear_arith)
        requires
            r == (200 * nonzero + n128) / (2 * n128),
            nonzero <= n128,
            n128 > 0,
    ;
    r as u32
}


/// Largest input the scorer takes: the variance is computed exactly in 128-bit arithmetic.
pub const MAX_SCORED_LEN: u64 = 0x1_0000_0000_0000;

/// `n * sum(b^2) - sum(b)^2`, which is `n^2` times the population variance.
pub open spec fn scaled_variance(s: Seq<u8>) -> int {
    s.len() * sum_of_squares(s) - sum_of(s) * sum_of(s)
}

/// Bias: variance over the largest variance of bytes (255^2 / 4), as a rounded, clamped percentage.
pub open spec fn bias_spec(s: Seq<u8>) -> int {
    if s.len() == 0 {
        0
    } else {
        let r = round_div(400 * scaled_variance(s), (65025 * s.len() * s.len()) as int);
        if r > 100 {
            100
        } else {
            r
        }
    }
}

/// Sum of `(b - x)^2` over the bytes `b` of `s`.
pub open spec fn squared_deviation(s: Seq<u8>, x: int) -> int
    decreases s.len(),
{
    if s.len() == 0 {
        0
    } else {
        squared_deviation(s.drop_last(), x) + (s.last() - x) * (s.last() - x)
    }
}

proof fn lemma_squared_deviation(s: Seq<u8>, x: int)
    ensures
        squared_deviation(s, x) == sum_of_squares(s) - 2 * x * sum_of(s) + s.len() * x * x,
        squared_deviation(s, x) >= 0,
    decreases s.len(),
{
    if s.len() > 0 {
        let t = s.drop_last();
        let y = s.last() as int;
        lemma_squared_deviation(t, x);
        let a = sum_of(t) as int;
        let b = sum_of_squares(t) as int;
        let n = t.len() as int;
        assert(sum_of(s) == a + y);
        assert(sum_of_squares(s) == b + y * y);
        assert(squared_deviation(s, x) == squared_deviation(t, x) + (y - x) * (y - x));
        assert(squared_deviation(t, x) == b - 2 * x * a + n * x * x);
        assert((y - x) * (y - x) >= 0) by (nonlinear_arith);
        assert(squared_deviation(s, x) == sum_of_squares(s) - 2 * x * sum_of(s) + s.len() * x * x)
            by (nonlinear_arith)
            requires
                squared_deviation(s, x) == squared_deviation(t, x) + (y - x) * (y - x),
                squared_deviation(t, x) == b - 2 * x * a + n * x * x,
                sum_of(s) == a + y,
                sum_of_squares(s) == b + y * y,
                s.len() == n + 1,
        ;
    } else {
        assert(squared_deviation(s, x) == sum_of_squares(s) - 2 * x * sum_of(s) + s.len() * x * x)
            by (nonlinear_arith)
            requires
                squared_deviation(s, x) == 0,
                sum_of(s) == 0,
                sum_of_squares(s) == 0,
                s.len() == 0,
        ;
    }
}

proof fn lemma_scaled_variance_nonneg(s: Seq<u8>)
    ensures
        scaled_variance(s) >= 0,
    decreases s.len(),
{
    if s.len() > 0 {
        let t = s.drop_last();
        let y = s.last() as int;
        lemma_scaled_variance_nonneg(t);
        lemma_squared_deviation(t, y);
        let n = t.len() as int;
        let a = sum_of(t) as int;
        let b = sum_of_squares(t) as int;
        assert((n + 1) * (b + y * y) - (a + y) * (a + y) == (n * b - a * a) + (b - 2 * y * a + n * y
            * y)) by (nonlinear_arith);
    }
}

proof fn lemma_sums_take(s: Seq<u8>, i: int)
    requires
        0 <= i < s.len(),
    ensures
        sum_of(s.take(i + 1)) == sum_of(s.take(i)) + s[i] as nat,
        sum_of_squares(s.take(i + 1)) == sum_of_squares(s.take(i)) + (s[i] as nat) * (s[i] as nat),
{
    assert(s.take(i + 1).drop_last() =~= s.take(i));
}

/// Bias score: the population variance of the bytes, normalised by `255^2 / 4`, as a
/// rounded percentage clamped to 100.
pub fn check_bias_indicators(data: &[u8]) -> (r: u32)
    requires
        data@.len() <= MAX_SCORED_LEN,
    ensures
        r as int == bias_spec(data@),
        r <= 100,
{
    let n = data.len();
    if n == 0 {
        return 0;
    }
    let mut sum: u128 = 0;
    let mut sum_sq: u128 = 0;
    let mut i: usize = 0;
    while i < n
        invariant
            n == data@.len(),
            n <= MAX_SCORED_LEN,
            i <= n,
            sum == sum_of(data@.take(i as int)),
            sum_sq == sum_of_squares(data@.take(i as int)),
            sum <= 255 * i,
            sum_sq <= 65025 * i,
        decreases n - i,
    {
        proof {
            lemma_sums_take(data@, i as int);
        }
        let b = data[i] as u128;
        assert(b * b <= 65025) by (nonlinear_arith)
            requires
                b <= 255,
        ;
        sum = sum + b;
        sum_sq = sum_sq + b * b;
        i = i + 1;
    }
    assert(data@.take(n as int) =~= data@);
    let n128 = n as u128;
    proof {
        lemma_scaled_variance_nonneg(data@);
        assert(n128 * sum_sq <= 65025 * 0x1_0000_0000_0000 * 0x1_0000_0000_0000) by (nonlinear_arith)
            requires
                n128 <= 0x1_0000_0000_0000,
                sum_sq <= 65025 * n128,
        ;
        assert(sum * sum <= 65025 * 0x1_0000_0000_0000 * 0x1_0000_0000_0000) by (nonlinear_arith)
            requires
                n128 <= 0x1_0000_0000_0000,
                sum <= 255 * n128,
        ;
        assert(n128 * n128 <= 0x1_0000_0000_0000 * 0x1_0000_0000_0000) by (nonlinear_arith)
            requires
                n128 <= 0x1_0000_0000_0000,
        ;
        assert(65025 * n128 * n128 <= 65025 * 0x1_0000_0000_0000 * 0x1_0000_0000_0000) by (nonlinear_arith)
            requires
                n128 <= 0x1_0000_0000_0000,
        ;
        assert(n128 * n128 > 0) by (nonlinear_arith)
            requires
                n128 > 0,
        ;
    }
    let var = n128 * sum_sq - sum * sum;
    let denom = 65025 * n128 * n128;
    assert(denom > 0) by (nonlinear_arith)
        requires
            denom == 65025 * n128 * n128,
            n128 > 0,
    ;
    let rounded = (800 * var + denom) / (2 * denom);
    if rounded > 100 {
        100
    } else {
        rounded as u32
    }
}

/// The four bytes of the window at `i`, packed into one integer, first byte lowest.
pub open spec fn window_key(s: Seq<u8>, i: int) -> u32 {
    (s[i] as u32) | ((s[i + 1] as u32) << 8u32) | ((s[i + 2] as u32) << 16u32) | ((s[i + 3]
        as u32) << 24u32)
}

/// The window at `i` repeats, byte for byte, a window that starts earlier.
pub open spec fn is_repeated_window(s: Seq<u8>, i: int) -> bool {
    exists|j: int| 0 <= j < i && #[trigger] s.subrange(j, j + 4) == s.subrange(i, i + 4)
}

/// Number of windows among the first `k` that repeat an earlier one.
pub open spec fn repeated_windows(s: Seq<u8>, k: int) -> nat
    decreases k,
{
    if k <= 0 {
        0
    } else {
        repeated_windows(s, k - 1) + if is_repeated_window(s, k - 1) { 1nat } else { 0nat }
    }
}

/// Authenticity: 50 for inputs under 8 bytes, else 100 minus the rounded percentage of
/// 4-byte windows (stride 1) that repeat an earlier window.
pub open spec fn authenticity_spec(s: Seq<u8>) -> int {
    if s.len() < 8 {
        50
    } else {
        let total = s.len() - 3;
        100 - round_div((100 * repeated_windows(s, total)) as int, total)
    }
}

proof fn lemma_pack_injective(a: u32, b: u32, c: u32, d: u32, e: u32, f: u32, g: u32, h: u32)
    requires
        a < 256,
        b < 256,
        c < 256,
        d < 256,
        e < 256,
        f < 256,
        g < 256,
        h < 256,
        (a | (b << 8u32) | (c << 16u32) | (d << 24u32)) == (e | (f << 8u32) | (g << 16u32) | (h
            << 24u32)),
    ensures
        a == e && b == f && c == g && d == h,
{
    assert(a == e && b == f && c == g && d == h) by (bit_vector)
        requires
            a < 256,
            b < 256,
            c < 256,
            d < 256,
            e < 256,
            f < 256,
            g < 256,
            h < 256,
            (a | (b << 8u32) | (c << 16u32) | (d << 24u32)) == (e | (f << 8u32) | (g << 16u32) | (
            h << 24u32)),
    ;
}

proof fn lemma_window_key_eq(s: Seq<u8>, i: int, j: int)
    requires
        0 <= i,
        0 <= j,
        i + 4 <= s.len(),
        j + 4 <= s.len(),
    ensures
        (window_key(s, i) == window_key(s, j)) == (s.subrange(i, i + 4) == s.subrange(j, j + 4)),
{
    if window_key(s, i) == window_key(s, j) {
        lemma_pack_injective(
            s[i] as u32,
            s[i + 1] as u32,
            s[i + 2] as u32,
            s[i + 3] as u32,
            s[j] as u32,
            s[j + 1] as u32,
            s[j + 2] as u32,
            s[j + 3] as u32,
        );
        assert(s.subrange(i, i + 4) =~= s.subrange(j, j + 4));
    }
    if s.subrange(i, i + 4) == s.subrange(j, j + 4) {
        assert(s[i] == s.subrange(i, i + 4)[0]);
        assert(s[i + 1] == s.subrange(i, i + 4)[1]);
        assert(s[i + 2] == s.subrange(i, i + 4)[2]);
        assert(s[i + 3] == s.subrange(i, i + 4)[3]);
        assert(s[j] == s.subrange(j, j + 4)[0]);
        assert(s[j + 1] == s.subrange(j, j + 4)[1]);
        assert(s[j + 2] == s.subrange(j, j + 4)[2]);
        assert(s[j + 3] == s.subrange(j, j + 4)[3]);
    }
}

proof fn lemma_repeated_windows_le(s: Seq<u8>, k: int)
    requires
        k >= 0,
    ensures
        repeated_windows(s, k) <= k,
    decreases k,
{
    if k > 0 {
        lemma_repeated_windows_le(s, k - 1);
    }
}

/// Authenticity score: repeated 4-byte windows lower it; inputs under 8 bytes score 50.
pub fn detect_synthetic_patterns(data: &[u8]) -> (r: u32)
    ensures
        r as int == authenticity_spec(data@),
        r <= 100,
{
    broadcast use vstd::std_specs::hash::group_hash_axioms;

    let n = data.len();
    if n < 8 {
        return 50;
    }
    let window: usize = 4;
    let total_windows = n - window + 1;
    let mut seen: HashSet<u32> = HashSet::with_capacity(total_windows);
    let mut duplicates: usize = 0;
    let mut i: usize = 0;
    while i < total_windows
        invariant
            n == data@.len(),
            n >= 8,
            total_windows == n - 3,
            i <= total_windows,
            duplicates == repeated_windows(data@, i as int),
            forall|k: u32|
                seen@.contains(k) <==> exists|j: int| 0 <= j < i && #[trigger] window_key(data@, j) == k,
        decreases total_windows - i,
    {
        let key: u32 = (data[i] as u32) | ((data[i + 1] as u32) << 8u32) | ((data[i + 2] as u32)
            << 16u32) | ((data[i + 3] as u32) << 24u32);
        assert(key == window_key(data@, i as int));
        let fresh = seen.insert(key);
        proof {
            if is_repeated_window(data@, i as int) {
                let j = choose|j: int|
                    0 <= j < i && #[trigger] data@.subrange(j, j + 4) == data@.subrange(
                        i as int,
                        i + 4,
                    );
                lemma_window_key_eq(data@, i as int, j);
                assert(!fresh);
            }
            if !fresh {
                let j = choose|j: int| 0 <= j < i && #[trigger] window_key(data@, j) == key;
                lemma_window_key_eq(data@, i as int, j);
                assert(data@.subrange(j, j + 4) == data@.subrange(i as int, i + 4));
            }
            lemma_repeated_windows_le(data@, i as int);
        }
        if !fresh {
            duplicates = duplicates + 1;
        }
        i = i + 1;
        assert forall|k: u32|
            seen@.contains(k) <==> exists|j: int| 0 <= j < i && #[trigger] window_key(data@, j) == k by {
            if seen@.contains(k) && k != key {
                let j0 = choose|j: int| 0 <= j < i - 1 && #[trigger] window_key(data@, j) == k;
                assert(0 <= j0 < i);
            }
            if k == key {
                assert(window_key(data@, i - 1) == k);
            }
        }
    }
    proof {
        lemma_repeated_windows_le(data@, total_windows as int);
    }
    let tw = total_windows as u128;
    let dup = duplicates as u128;
    let rounded = (200 * dup + tw) / (2 * tw);
    assert(rounded <= 100) by (nonlinear_arith)
        requires
            rounded == (200 * dup + tw) / (2 * tw),
            dup <= tw,
            tw > 0,
    ;
    (100 - rounded) as u32
}


/// Number of byte values below `k` with a non-zero count in `counts`.
pub open spec fn present_symbols(counts: Seq<usize>, k: int) -> nat
    decreases k,
{
    if k <= 0 {
        0
    } else {
        present_symbols(counts, k - 1) + if counts[k - 1] > 0 { 1nat } else { 0nat }
    }
}

/// How often each byte value occurs: entry `v` counts the bytes equal to `v`.
pub fn symbol_counts(data: &[u8]) -> (r: Vec<usize>)
    ensures
        r@.len() == 256,
        forall|v: int| 0 <= v < 256 ==> r@[v] == count_of(data@, v as u8),
{
    let mut counts: Vec<usize> = Vec::new();
    let mut v: usize = 0;
    while v < 256
        invariant
            v <= 256,
            counts@.len() == v,
            forall|w: int| 0 <= w < v ==> counts@[w] == 0,
        decreases 256 - v,
    {
        counts.push(0);
        v = v + 1;
    }
    let n = data.len();
    let mut i: usize = 0;
    while i < n
        invariant
            n == data@.len(),
            i <= n,
            counts@.len() == 256,
            forall|w: int| 0 <= w < 256 ==> #[trigger] counts@[w] == count_of(data@.take(i as int), w as u8),
            forall|w: int| 0 <= w < 256 ==> #[trigger] counts@[w] <= i,
        decreases n - i,
    {
        let b = data[i] as usize;
        proof {
            assert forall|w: int| 0 <= w < 256 implies #[trigger] count_of(data@.take(i + 1), w as u8)
                == count_of(data@.take(i as int), w as u8) + if data@[i as int] == w as u8 { 1nat } else { 0nat } by {
                lemma_count_of_take(data@, i as int, w as u8);
            }
        }
        let c = counts[b];
        counts.set(b, c + 1);
        i = i + 1;
    }
    assert(data@.take(n as int) =~= data@);
    counts
}

/// Number of distinct byte values that occur, given the counts of [`symbol_counts`].
pub fn distinct_symbols(counts: &[usize]) -> (r: usize)
    ensures
        r == present_symbols(counts@, counts@.len() as int),
        r <= counts@.len(),
{
    let mut r: usize = 0;
    let mut v: usize = 0;
    while v < counts.len()
        invariant
            v <= counts@.len(),
            r == present_symbols(counts@, v as int),
            r <= v,
        decreases counts@.len() - v,
    {
        if counts[v] > 0 {
            r = r + 1;
        }
        v = v + 1;
    }
    r
}

/// The weighted combination of the five sub-scores, floored and capped at 100.
pub open spec fn aggregate_spec(
    diversity: int,
    bias: int,
    authenticity: int,
    completeness: int,
    consistency: int,
) -> int {
    let raw = (diversity * 25 + bias * 20 + authenticity * 30 + completeness * 15 + consistency
        * 10) / 100;
    if raw > 100 {
        100
    } else {
        raw
    }
}

/// The quality score of `s`, given its diversity score.
pub open spec fn quality_score_spec(s: Seq<u8>, diversity: int) -> int {
    aggregate_spec(
        diversity,
        bias_spec(s),
        authenticity_spec(s),
        completeness_spec(s),
        consistency_spec(s),
    )
}

/// Combines the five sub-scores with weights 25/20/30/15/10 into one score in `0..=100`.
pub fn aggregate_score(
    diversity: u32,
    bias: u32,
    authenticity: u32,
    completeness: u32,
    consistency: u32,
) -> (r: u8)
    requires
        diversity <= 100,
        bias <= 100,
        authenticity <= 100,
        completeness <= 100,
        consistency <= 100,
    ensures
        r as int == aggregate_spec(
            diversity as int,
            bias as int,
            authenticity as int,
            completeness as int,
            consistency as int,
        ),
        r <= 100,
{
    let score = (diversity * 25 + bias * 20 + authenticity * 30 + completeness * 15 + consistency
        * 10) / 100;
    if score > 100 {
        100
    } else {
        score as u8
    }
}

/// Scores `data` from 0 to 100; `diversity` is its entropy-based diversity score.
/// An empty input has no score.
pub fn validate_dataset_quality(data: &[u8], diversity: u32) -> (r: Result<u8, VerifyError>)
    requires
        data@.len() <= MAX_SCORED_LEN,
        diversity <= 100,
    ensures
        data@.len() == 0 <==> r is Err,
        r is Err ==> r == Err::<u8, VerifyError>(VerifyError::ValidationFailed),
        r matches Ok(score) ==> score as int == quality_score_spec(data@, diversity as int),
        r matches Ok(score) ==> 0 <= score <= 100,
{
    if data.len() == 0 {
        return Err(VerifyError::ValidationFailed);
    }
    let bias = check_bias_indicators(data);
    let authenticity = detect_synthetic_patterns(data);
    let completeness = check_data_completeness(data);
    let consistency = check_metadata_consistency(data);
    Ok(aggregate_score(diversity, bias, authenticity, completeness, consistency))
}


/// Every byte of `s` is zero.
pub open spec fn all_zero(s: Seq<u8>) -> bool {
    forall|i: int| 0 <= i < s.len() ==> s[i] == 0
}

/// The bytes of `s` alternate 0, 255, 0, 255, ... starting with 0.
pub open spec fn alternating_extremes(s: Seq<u8>) -> bool {
    forall|i: int| 0 <= i < s.len() ==> s[i] == if i % 2 == 0 { 0u8 } else { 255u8 }
}

proof fn lemma_all_zero_sums(s: Seq<u8>)
    requires
        all_zero(s),
    ensures
        count_of(s, 0) == s.len(),
        sum_of(s) == 0,
        sum_of_squares(s) == 0,
    decreases s.len(),
{
    if s.len() > 0 {
        lemma_all_zero_sums(s.drop_last());
    }
}

/// An all-zero buffer has consistency 0: none of its bytes is non-zero.
pub proof fn lemma_zero_buffer_consistency(s: Seq<u8>)
    requires
        all_zero(s),
    ensures
        consistency_spec(s) == 0,
{
    lemma_all_zero_sums(s);
    if s.len() > 0 {
        let n = s.len() as int;
        assert((2 * (100 * (n - n)) + n) / (2 * n) == 0) by (nonlinear_arith)
            requires
                n > 0,
        ;
    }
}

/// An all-zero buffer has bias 0: its variance is zero.
pub proof fn lemma_zero_buffer_bias(s: Seq<u8>)
    requires
        all_zero(s),
    ensures
        bias_spec(s) == 0,
{
    lemma_all_zero_sums(s);
    if s.len() > 0 {
        let n = s.len() as int;
        let d = 65025 * n * n;
        assert(scaled_variance(s) == 0) by (nonlinear_arith)
            requires
                sum_of(s) == 0,
                sum_of_squares(s) == 0,
        ;
        assert(d > 0) by (nonlinear_arith)
            requires
                d == 65025 * n * n,
                n > 0,
        ;
        assert((2 * (400 * 0) + d) / (2 * d) == 0) by (nonlinear_arith)
            requires
                d > 0,
        ;
    }
}

proof fn lemma_alternating_sums(s: Seq<u8>)
    requires
        alternating_extremes(s),
        s.len() % 2 == 0,
    ensures
        sum_of(s) == 255 * (s.len() / 2),
        sum_of_squares(s) == 65025 * (s.len() / 2),
    decreases s.len(),
{
    if s.len() > 0 {
        let t = s.drop_last();
        let u = t.drop_last();
        assert(alternating_extremes(u));
        lemma_alternating_sums(u);
        assert(s.last() == 255u8);
        assert(t.last() == 0u8);
        assert(t.len() > 0);
        assert(sum_of(s) == sum_of(t) + 255);
        assert(sum_of(t) == sum_of(u));
        assert(sum_of_squares(s) == sum_of_squares(t) + 65025);
        assert(sum_of_squares(t) == sum_of_squares(u));
        assert(u.len() / 2 + 1 == s.len() / 2);
    }
}

/// A buffer of even, non-zero length alternating 0 and 255 has bias 100: its variance is
/// the largest a byte population can have.
pub proof fn lemma_alternating_buffer_bias(s: Seq<u8>)
    requires
        alternating_extremes(s),
        s.len() % 2 == 0,
        s.len() > 0,
    ensures
        bias_spec(s) == 100,
{
    lemma_alternating_sums(s);
    let m = (s.len() / 2) as int;
    let n = s.len() as int;
    assert(n == 2 * m);
    let q = 65025 * m * m;
    assert(q > 0) by (nonlinear_arith)
        requires
            q == 65025 * m * m,
            m > 0,
    ;
    assert(scaled_variance(s) == q) by (nonlinear_arith)
        requires
            sum_of(s) == 255 * m,
            sum_of_squares(s) == 65025 * m,
            s.len() == 2 * m,
            q == 65025 * m * m,
    ;
    assert(65025 * s.len() * s.len() == 4 * q) by (nonlinear_arith)
        requires
            s.len() == 2 * m,
            q == 65025 * m * m,
    ;
    assert((2 * (400 * q) + 4 * q) / (2 * (4 * q)) == 100) by (nonlinear_arith)
        requires
            q > 0,
    ;
}


/// Every byte of `s` is `c`.
pub open spec fn constant_bytes(s: Seq<u8>, c: u8) -> bool {
    forall|i: int| 0 <= i < s.len() ==> s[i] == c
}

proof fn lemma_constant_counts(s: Seq<u8>, c: u8, v: u8)
    requires
        constant_bytes(s, c),
    ensures
        count_of(s, v) == if v == c { s.len() } else { 0 },
    decreases s.len(),
{
    if s.len() > 0 {
        lemma_constant_counts(s.drop_last(), c, v);
    }
}

proof fn lemma_present_single(counts: Seq<usize>, c: int, k: int)
    requires
        0 <= c < 256,
        0 <= k <= 256,
        counts.len() == 256,
        forall|v: int| 0 <= v < 256 ==> (#[trigger] counts[v] > 0 <==> v == c),
    ensures
        present_symbols(counts, k) == if k > c { 1nat } else { 0nat },
    decreases k,
{
    if k > 0 {
        lemma_present_single(counts, c, k - 1);
    }
}

/// A non-empty buffer of one repeated byte has exactly one distinct symbol, the case in
/// which diversity is 0.
pub proof fn lemma_constant_buffer_one_symbol(s: Seq<u8>, c: u8, counts: Seq<usize>)
    requires
        constant_bytes(s, c),
        s.len() > 0,
        counts.len() == 256,
        forall|v: int| 0 <= v < 256 ==> #[trigger] counts[v] == count_of(s, v as u8),
    ensures
        present_symbols(counts, 256) == 1,
{
    assert forall|v: int| 0 <= v < 256 implies (#[trigger] counts[v] > 0 <==> v == c as int) by {
        lemma_constant_counts(s, c, v as u8);
    }
    lemma_present_single(counts, c as int, 256);
}

} // verus!
