use vstd::prelude::*;

verus! {

/// Sum of the readings.
pub open spec fn seq_sum(s: Seq<u64>) -> int
    decreases s.len(),
{
    if s.len() == 0 {
        0
    } else {
        seq_sum(s.drop_last()) + s.last()
    }
}

/// Sum of the squares of the readings.
pub open spec fn seq_sum_sq(s: Seq<u64>) -> int
    decreases s.len(),
{
    if s.len() == 0 {
        0
    } else {
        seq_sum_sq(s.drop_last()) + s.last() * s.last()
    }
}

/// Sum over the readings of `(a * x - b)^2`. With `a` the number of readings and
/// `b` their sum, this is `a^2` times the sum of squared deviations from the mean.
pub open spec fn scaled_sq_dev(s: Seq<u64>, a: int, b: int) -> int
    decreases s.len(),
{
    if s.len() == 0 {
        0
    } else {
        scaled_sq_dev(s.drop_last(), a, b) + (a * s.last() - b) * (a * s.last() - b)
    }
}

/// `n * sum(x^2) - sum(x)^2`: the population variance is this divided by `n^2`.
pub open spec fn spread_of(s: Seq<u64>) -> int {
    s.len() * seq_sum_sq(s) - seq_sum(s) * seq_sum(s)
}

pub open spec fn is_minimum(s: Seq<u64>, m: u64) -> bool {
    s.contains(m) && forall|i: int| 0 <= i < s.len() ==> m <= s[i]
}

pub open spec fn is_maximum(s: Seq<u64>, m: u64) -> bool {
    s.contains(m) && forall|i: int| 0 <= i < s.len() ==> s[i] <= m
}

/// Descriptive statistics of a non-empty set of readings, kept as exact integers.
/// The mean is `total / count`; the population variance is `spread / count^2`.
pub struct Summary {
    pub count: usize,
    pub min: u64,
    pub max: u64,
    pub total: u128,
    pub total_of_squares: u128,
    pub spread: u128,
}

impl Summary {
    /// The statistics that `summarize` owes for the readings `s`.
    pub open spec fn describes(&self, s: Seq<u64>) -> bool {
        &&& self.count == s.len()
        &&& is_minimum(s, self.min)
        &&& is_maximum(s, self.max)
        &&& self.total == seq_sum(s)
        &&& self.total_of_squares == seq_sum_sq(s)
        &&& self.spread == spread_of(s)
    }
}

proof fn lemma_sums_nonneg(s: Seq<u64>)
    ensures
        0 <= seq_sum(s),
        0 <= seq_sum_sq(s),
    decreases s.len(),
{
    if s.len() > 0 {
        lemma_sums_nonneg(s.drop_last());
        assert(0 <= s.last() * s.last()) by (nonlinear_arith);
    }
}

proof fn lemma_sum_bound(s: Seq<u64>)
    ensures
        seq_sum(s) <= s.len() * (u64::MAX as int),
    decreases s.len(),
{
    if s.len() > 0 {
        lemma_sum_bound(s.drop_last());
        assert((s.len() - 1) * (u64::MAX as int) + u64::MAX == s.len() * (u64::MAX as int))
            by (nonlinear_arith);
    }
}

proof fn lemma_sum_sq_prefix(s: Seq<u64>, i: int)
    requires
        0 <= i <= s.len(),
    ensures
        seq_sum_sq(s.take(i)) <= seq_sum_sq(s),
    decreases s.len(),
{
    if i < s.len() {
        assert(s.drop_last().take(i) =~= s.take(i));
        lemma_sum_sq_prefix(s.drop_last(), i);
        assert(0 <= s.last() * s.last()) by (nonlinear_arith);
    } else {
        assert(s.take(i) =~= s);
    }
}

proof fn lemma_scaled_sq_dev_expand(s: Seq<u64>, a: int, b: int)
    ensures
        scaled_sq_dev(s, a, b) == a * a * seq_sum_sq(s) - 2 * a * b * seq_sum(s) + s.len() * (b
            * b),
    decreases s.len(),
{
    if s.len() > 0 {
        lemma_scaled_sq_dev_expand(s.drop_last(), a, b);
        let x = s.last() as int;
        let q = seq_sum_sq(s.drop_last());
        let t = seq_sum(s.drop_last());
        let n = s.drop_last().len() as int;
        assert((a * x - b) * (a * x - b) + a * a * q - 2 * a * b * t + n * (b * b) == a * a * (q
            + x * x) - 2 * a * b * (t + x) + (n + 1) * (b * b)) by (nonlinear_arith);
    }
}

proof fn lemma_scaled_sq_dev_nonneg(s: Seq<u64>, a: int, b: int)
    ensures
        0 <= scaled_sq_dev(s, a, b),
    decreases s.len(),
{
    if s.len() > 0 {
        lemma_scaled_sq_dev_nonneg(s.drop_last(), a, b);
        let d = a * s.last() - b;
        assert(0 <= d * d) by (nonlinear_arith);
    }
}

/// The spread is the population variance scaled by `n^2`: for `n` readings with
/// sum `t`, `n * spread` is the sum over the readings of `(n * x - t)^2`, that is
/// `n^3` times the mean squared deviation from the mean. In particular it is never
/// negative.
pub proof fn lemma_spread_is_scaled_variance(s: Seq<u64>)
    requires
        s.len() > 0,
    ensures
        s.len() * spread_of(s) == scaled_sq_dev(s, s.len() as int, seq_sum(s)),
        0 <= spread_of(s),
{
    let n = s.len() as int;
    let t = seq_sum(s);
    let q = seq_sum_sq(s);
    lemma_scaled_sq_dev_expand(s, n, t);
    lemma_scaled_sq_dev_nonneg(s, n, t);
    assert(n * (n * q - t * t) == n * n * q - 2 * n * t * t + n * (t * t)) by (nonlinear_arith);
    assert(0 <= n * (n * q - t * t) && n > 0 ==> 0 <= n * q - t * t) by (nonlinear_arith);
}

/// Whether `summarize` can keep the statistics of these readings exactly: there is
/// at least one reading, and `n` times the sum of squares fits in 128 bits.
pub fn can_summarize(samples: &Vec<u64>) -> (r: bool)
    ensures
        r == (samples@.len() > 0 && samples@.len() * seq_sum_sq(samples@) <= u128::MAX),
{
    let ghost s = samples@;
    let n = samples.len();
    if n == 0 {
        return false;
    }
    let mut squares: u128 = 0;
    let mut i: usize = 0;
    proof {
        lemma_sums_nonneg(s);
    }
    while i < n
        invariant
            s == samples@,
            n == s.len(),
            0 <= i <= n,
            squares == seq_sum_sq(s.take(i as int)),
        decreases n - i,
    {
        let x = samples[i];
        proof {
            let p = s.take(i as int + 1);
            assert(p.drop_last() =~= s.take(i as int));
            lemma_sum_sq_prefix(s, i as int + 1);
            assert((x as int) * (x as int) <= u128::MAX) by (nonlinear_arith)
                requires
                    x <= u64::MAX,
            ;
        }
        let sq: u128 = (x as u128) * (x as u128);
        if squares > u128::MAX - sq {
            proof {
                lemma_sums_nonneg(s);
                assert(seq_sum_sq(s) <= n * seq_sum_sq(s)) by (nonlinear_arith)
                    requires
                        n >= 1,
                        seq_sum_sq(s) >= 0,
                ;
            }
            return false;
        }
        squares = squares + sq;
        i = i + 1;
    }
    assert(s.take(n as int) =~= s);
    let limit: u128 = u128::MAX / (n as u128);
    proof {
        lemma_sums_nonneg(s);
        let q = seq_sum_sq(s);
        let m = u128::MAX as int;
        vstd::arithmetic::div_mod::lemma_fundamental_div_mod(m, n as int);
        assert(m == n * limit + m % (n as int));
        assert(0 <= m % (n as int) < n);
        assert(q <= limit <==> n * q <= m) by (nonlinear_arith)
            requires
                n >= 1,
                q >= 0,
                m == n * limit + m % (n as int),
                0 <= m % (n as int) < n,
        ;
    }
    squares <= limit
}

/// Computes the minimum, maximum, sum, sum of squares and spread of the readings.
pub fn summarize(samples: &Vec<u64>) -> (r: Summary)
    requires
        samples@.len() > 0,
        samples@.len() * seq_sum_sq(samples@) <= u128::MAX,
    ensures
        r.describes(samples@),
{
    let ghost s = samples@;
    let n = samples.len();
    let mut min: u64 = samples[0];
    let mut max: u64 = samples[0];
    let mut total: u128 = 0;
    let mut squares: u128 = 0;
    let mut i: usize = 0;
    proof {
        lemma_sums_nonneg(s);
    }
    while i < n
        invariant
            s == samples@,
            n == s.len(),
            0 <= i <= n,
            n * seq_sum_sq(s) <= u128::MAX,
            total == seq_sum(s.take(i as int)),
            squares == seq_sum_sq(s.take(i as int)),
            s.contains(min),
            s.contains(max),
            forall|j: int| 0 <= j < i ==> min <= s[j] && s[j] <= max,
        decreases n - i,
    {
        let x = samples[i];
        proof {
            let p = s.take(i as int + 1);
            assert(p.drop_last() =~= s.take(i as int));
            lemma_sum_bound(p);
            lemma_sum_sq_prefix(s, i as int + 1);
            lemma_sums_nonneg(s);
            assert(seq_sum_sq(s) <= n * seq_sum_sq(s)) by (nonlinear_arith)
                requires
                    n >= 1,
                    seq_sum_sq(s) >= 0,
            ;
            assert(p.len() * (u64::MAX as int) <= u128::MAX) by (nonlinear_arith)
                requires
                    p.len() <= usize::MAX,
            ;
        }
        total = total + x as u128;
        squares = squares + (x as u128) * (x as u128);
        if x < min {
            min = x;
        }
        if x > max {
            max = x;
        }
        i = i + 1;
    }
    proof {
        assert(s.take(n as int) =~= s);
        lemma_spread_is_scaled_variance(s);
        lemma_sums_nonneg(s);
    }
    let scaled: u128 = (n as u128) * squares;
    let spread: u128 = scaled - total * total;
    Summary { count: n, min, max, total, total_of_squares: squares, spread }
}

} // verus!
