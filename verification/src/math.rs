use vstd::prelude::*;
use vstd::arithmetic::div_mod::{lemma_div_is_ordered, lemma_div_multiples_vanish};

verus! {

/// Fixed-point probability scale: a normalized weight vector sums to exactly
/// this value, which stands for probability one.
pub const PROB_ONE: u64 = 1_000_000;

/// Entropy value of a cell that no propagation step has touched yet; every
/// computed entropy is strictly smaller.
pub const ENTROPY_INIT: u64 = u64::MAX;

/// Sum of a weight vector, as an unbounded integer.
pub open spec fn sum64(s: Seq<u64>) -> int
    decreases s.len(),
{
    if s.len() == 0 {
        0
    } else {
        sum64(s.drop_last()) + s.last()
    }
}

/// Sum of the squares of a weight vector, as an unbounded integer.
pub open spec fn sum_sq(s: Seq<u64>) -> int
    decreases s.len(),
{
    if s.len() == 0 {
        0
    } else {
        sum_sq(s.drop_last()) + s.last() * s.last()
    }
}

/// The value a compatibility signal contributes to one weight entry: a banned
/// entry contributes nothing.
pub open spec fn signal_value(o: Option<u64>) -> int {
    match o {
        Option::None => 0,
        Option::Some(v) => v as int,
    }
}

/// Total contribution of a signal vector.
pub open spec fn sum_signal(s: Seq<Option<u64>>) -> int
    decreases s.len(),
{
    if s.len() == 0 {
        0
    } else {
        sum_signal(s.drop_last()) + signal_value(s.last())
    }
}

pub proof fn lemma_sum64_nonneg(s: Seq<u64>)
    ensures
        sum64(s) >= 0,
    decreases s.len(),
{
    if s.len() > 0 {
        lemma_sum64_nonneg(s.drop_last());
    }
}

pub proof fn lemma_sum_signal_nonneg(s: Seq<Option<u64>>)
    ensures
        sum_signal(s) >= 0,
    decreases s.len(),
{
    if s.len() > 0 {
        lemma_sum_signal_nonneg(s.drop_last());
    }
}

/// A prefix of a weight vector sums to no more than the whole vector.
pub proof fn lemma_sum64_take_le(s: Seq<u64>, i: int)
    requires
        0 <= i <= s.len(),
    ensures
        sum64(s.take(i)) <= sum64(s),
    decreases s.len() - i,
{
    if i == s.len() {
        assert(s.take(i) =~= s);
    } else {
        lemma_sum64_take_le(s, i + 1);
        assert(s.take(i + 1).drop_last() =~= s.take(i));
        assert(sum64(s.take(i)) <= sum64(s.take(i + 1)));
    }
}

/// Every entry of a weight vector is bounded by the vector's sum.
pub proof fn lemma_sum64_entry(s: Seq<u64>, i: int)
    requires
        0 <= i < s.len(),
    ensures
        s[i] <= sum64(s),
    decreases s.len(),
{
    if i == s.len() - 1 {
        lemma_sum64_nonneg(s.drop_last());
    } else {
        lemma_sum64_entry(s.drop_last(), i);
    }
}

/// A weight vector sums to zero exactly when every entry is zero.
pub proof fn lemma_sum64_zero(s: Seq<u64>)
    ensures
        (sum64(s) == 0) <==> (forall|i: int| 0 <= i < s.len() ==> s[i] == 0),
    decreases s.len(),
{
    if s.len() > 0 {
        lemma_sum64_zero(s.drop_last());
        lemma_sum64_nonneg(s.drop_last());
        if sum64(s) == 0 {
            assert forall|i: int| 0 <= i < s.len() implies s[i] == 0 by {
                if i < s.len() - 1 {
                    assert(s.drop_last()[i] == s[i]);
                }
            }
        }
        if forall|i: int| 0 <= i < s.len() ==> s[i] == 0 {
            assert forall|i: int| 0 <= i < s.drop_last().len() implies s.drop_last()[i] == 0 by {
                assert(s.drop_last()[i] == s[i]);
            }
        }
    }
}

pub proof fn lemma_sum_sq_take_le(s: Seq<u64>, i: int)
    requires
        0 <= i <= s.len(),
    ensures
        sum_sq(s.take(i)) <= sum_sq(s),
    decreases s.len() - i,
{
    if i == s.len() {
        assert(s.take(i) =~= s);
    } else {
        lemma_sum_sq_take_le(s, i + 1);
        assert(s.take(i + 1).drop_last() =~= s.take(i));
        assert(s.take(i + 1).last() * s.take(i + 1).last() >= 0) by (nonlinear_arith);
    }
}

/// The sum of squares is bounded by the square of the sum.
pub proof fn lemma_sum_sq_le_sq_sum(s: Seq<u64>)
    ensures
        sum_sq(s) <= sum64(s) * sum64(s),
    decreases s.len(),
{
    if s.len() > 0 {
        let d = s.drop_last();
        let l = s.last() as int;
        lemma_sum_sq_le_sq_sum(d);
        lemma_sum64_nonneg(d);
        assert(sum64(d) * sum64(d) + l * l <= (sum64(d) + l) * (sum64(d) + l)) by (nonlinear_arith)
            requires
                sum64(d) >= 0,
                l >= 0,
        ;
    }
}

/// The impurity a cell's entropy is measured by: zero exactly on a one-hot
/// vector, largest on a uniform one.
pub open spec fn spec_entropy(s: Seq<u64>) -> int {
    PROB_ONE * PROB_ONE - sum_sq(s)
}

/// Adds a compatibility signal into a weight vector, entry by entry; a banned
/// entry of the signal leaves the corresponding weight untouched.
pub fn add(weights: &mut Vec<u64>, signal: &Vec<Option<u64>>)
    requires
        old(weights).len() == signal.len(),
        sum64(old(weights)@) + sum_signal(signal@) <= u64::MAX,
    ensures
        final(weights).len() == old(weights).len(),
        forall|j: int|
            0 <= j < final(weights).len() ==> final(weights)@[j] == old(weights)@[j] + signal_value(
                signal@[j],
            ),
        sum64(final(weights)@) == sum64(old(weights)@) + sum_signal(signal@),
{
    let n = weights.len();
    let ghost w0 = weights@;
    for i in 0..n
        invariant
            weights.len() == n,
            signal.len() == n,
            w0.len() == n,
            sum64(w0) + sum_signal(signal@) <= u64::MAX,
            forall|j: int| 0 <= j < i ==> weights@[j] == w0[j] + signal_value(signal@[j]),
            forall|j: int| i <= j < n ==> weights@[j] == w0[j],
            sum64(weights@.take(i as int)) == sum64(w0.take(i as int)) + sum_signal(
                signal@.take(i as int),
            ),
    {
        proof {
            lemma_sum64_entry(w0, i as int);
            lemma_sum64_take_le(w0, i as int);
            lemma_sum64_nonneg(w0.take(i as int));
            lemma_sum_signal_nonneg(signal@.take(i as int));
            lemma_sum_signal_entry_bound(signal@, i as int);
        }
        let boost: u64 = match signal[i] {
            Option::Some(v) => v,
            Option::None => 0,
        };
        proof {
            lemma_sum64_split(w0, i as int);
            lemma_sum_signal_split(signal@, i as int);
        }
        let wi = weights[i];
        let ghost pre = weights@;
        weights.set(i, wi + boost);
        proof {
            assert(weights@.take(i as int) =~= pre.take(i as int));
            assert(weights@.take(i + 1).drop_last() =~= weights@.take(i as int));
            assert(w0.take(i + 1).drop_last() =~= w0.take(i as int));
            assert(signal@.take(i + 1).drop_last() =~= signal@.take(i as int));
        }
    }
    proof {
        assert(weights@.take(n as int) =~= weights@);
        assert(w0.take(n as int) =~= w0);
        assert(signal@.take(n as int) =~= signal@);
    }
}

/// The sum of a whole vector is the sum of a prefix plus the remaining entries.
proof fn lemma_sum64_split(s: Seq<u64>, i: int)
    requires
        0 <= i < s.len(),
    ensures
        sum64(s.take(i)) + s[i] + sum64(s.skip(i + 1)) == sum64(s),
    decreases s.len(),
{
    if i == s.len() - 1 {
        assert(s.take(i) =~= s.drop_last());
        assert(s.skip(i + 1) =~= Seq::<u64>::empty());
    } else {
        lemma_sum64_split(s.drop_last(), i);
        assert(s.drop_last().take(i) =~= s.take(i));
        assert(s.skip(i + 1).drop_last() =~= s.drop_last().skip(i + 1));
    }
}

proof fn lemma_sum_signal_split(s: Seq<Option<u64>>, i: int)
    requires
        0 <= i < s.len(),
    ensures
        sum_signal(s.take(i)) + signal_value(s[i]) + sum_signal(s.skip(i + 1)) == sum_signal(s),
    decreases s.len(),
{
    if i == s.len() - 1 {
        assert(s.take(i) =~= s.drop_last());
        assert(s.skip(i + 1) =~= Seq::<Option<u64>>::empty());
    } else {
        lemma_sum_signal_split(s.drop_last(), i);
        assert(s.drop_last().take(i) =~= s.take(i));
        assert(s.skip(i + 1).drop_last() =~= s.drop_last().skip(i + 1));
    }
}

proof fn lemma_sum_signal_entry_bound(s: Seq<Option<u64>>, i: int)
    requires
        0 <= i < s.len(),
    ensures
        signal_value(s[i]) <= sum_signal(s),
    decreases s.len(),
{
    if i == s.len() - 1 {
        lemma_sum_signal_nonneg(s.drop_last());
    } else {
        lemma_sum_signal_entry_bound(s.drop_last(), i);
    }
}

/// Rescales a weight vector so that it sums to exactly `PROB_ONE`, by scaling
/// the running prefix sums: entry `j` becomes the scaled prefix through `j`
/// minus the scaled prefix before `j`, so the total telescopes to `PROB_ONE`
/// exactly and a zero entry stays zero.
pub fn normalize(weights: &mut Vec<u64>)
    requires
        sum64(old(weights)@) > 0,
        sum64(old(weights)@) * PROB_ONE <= u64::MAX,
    ensures
        final(weights).len() == old(weights).len(),
        sum64(final(weights)@) == PROB_ONE,
        forall|j: int|
            0 <= j < final(weights).len() ==> final(weights)@[j] == scaled_prefix(
                old(weights)@,
                j + 1,
            ) - scaled_prefix(old(weights)@, j),
        forall|j: int|
            0 <= j < final(weights).len() && old(weights)@[j] == 0 ==> final(weights)@[j] == 0,
{
    let ghost w0 = weights@;
    let total = vec_sum(weights);
    let n = weights.len();
    let mut prefix: u64 = 0;
    let mut prev_scaled: u64 = 0;
    for i in 0..n
        invariant
            weights.len() == n,
            w0.len() == n,
            sum64(w0) > 0,
            sum64(w0) * PROB_ONE <= u64::MAX,
            total == sum64(w0),
            prefix == sum64(w0.take(i as int)),
            prev_scaled == scaled_prefix(w0, i as int),
            sum64(weights@.take(i as int)) == prev_scaled,
            forall|j: int|
                0 <= j < i ==> weights@[j] == scaled_prefix(w0, j + 1) - scaled_prefix(w0, j),
            forall|j: int| 0 <= j < i && w0[j] == 0 ==> weights@[j] == 0,
            forall|j: int| i <= j < n ==> weights@[j] == w0[j],
    {
        proof {
            lemma_sum64_take_le(w0, i + 1);
            lemma_sum64_nonneg(w0.take(i as int));
            assert(w0.take(i + 1).drop_last() =~= w0.take(i as int));
            assert(sum64(w0.take(i + 1)) == prefix + w0[i as int]);
            assert((prefix + w0[i as int]) * PROB_ONE <= sum64(w0) * PROB_ONE) by (nonlinear_arith)
                requires
                    prefix + w0[i as int] <= sum64(w0),
                    prefix + w0[i as int] >= 0,
            ;
        }
        let next_prefix: u64 = prefix + weights[i];
        let scaled: u64 = (next_prefix as u64).checked_mul(PROB_ONE).unwrap_or(u64::MAX) / total;
        proof {
            assert(next_prefix * PROB_ONE <= u64::MAX);
            lemma_scaled_prefix_monotone(w0, i as int);
            assert(scaled == scaled_prefix(w0, i + 1));
        }
        let q: u64 = scaled - prev_scaled;
        let ghost pre = weights@;
        weights.set(i, q);
        proof {
            assert(weights@.take(i as int) =~= pre.take(i as int));
            assert(weights@.take(i + 1).drop_last() =~= weights@.take(i as int));
            assert(sum64(weights@.take(i + 1)) == scaled);
        }
        prefix = next_prefix;
        prev_scaled = scaled;
    }
    proof {
        assert(w0.take(n as int) =~= w0);
        assert(weights@.take(n as int) =~= weights@);
        lemma_div_multiples_vanish(PROB_ONE as int, sum64(w0));
        assert(scaled_prefix(w0, n as int) == (sum64(w0) * PROB_ONE) / sum64(w0));
        assert(sum64(w0) * PROB_ONE == PROB_ONE * sum64(w0)) by (nonlinear_arith);
    }
}

/// The prefix through `k` of a weight vector, scaled from its total to
/// `PROB_ONE` with the division rounding down.
pub open spec fn scaled_prefix(s: Seq<u64>, k: int) -> int {
    (sum64(s.take(k)) * PROB_ONE) / sum64(s)
}

proof fn lemma_scaled_prefix_monotone(s: Seq<u64>, i: int)
    requires
        0 <= i < s.len(),
        sum64(s) > 0,
    ensures
        scaled_prefix(s, i) <= scaled_prefix(s, i + 1),
{
    assert(s.take(i + 1).drop_last() =~= s.take(i));
    assert(sum64(s.take(i + 1)) == sum64(s.take(i)) + s[i]);
    assert(sum64(s.take(i)) * PROB_ONE <= sum64(s.take(i + 1)) * PROB_ONE) by (nonlinear_arith)
        requires
            sum64(s.take(i)) <= sum64(s.take(i + 1)),
    ;
    lemma_div_is_ordered(
        sum64(s.take(i)) * PROB_ONE,
        sum64(s.take(i + 1)) * PROB_ONE,
        sum64(s),
    );
}

/// Sums a weight vector, requiring that the total fits in the word.
pub fn vec_sum(weights: &Vec<u64>) -> (s: u64)
    requires
        sum64(weights@) <= u64::MAX,
    ensures
        s == sum64(weights@),
{
    let mut acc: u64 = 0;
    let n = weights.len();
    for i in 0..n
        invariant
            weights.len() == n,
            sum64(weights@) <= u64::MAX,
            acc == sum64(weights@.take(i as int)),
    {
        proof {
            lemma_sum64_take_le(weights@, i + 1);
            lemma_sum64_nonneg(weights@.take(i as int));
            assert(weights@.take(i + 1).drop_last() =~= weights@.take(i as int));
        }
        acc = acc + weights[i];
    }
    proof {
        assert(weights@.take(n as int) =~= weights@);
    }
    acc
}

/// Computes the entropy of a normalized weight vector: the fixed-point
/// impurity `PROB_ONE^2` minus the sum of squared weights. It is zero exactly
/// on a one-hot vector and always below `ENTROPY_INIT`.
pub fn entropy(weights: &Vec<u64>) -> (e: u64)
    requires
        sum64(weights@) == PROB_ONE,
    ensures
        e == spec_entropy(weights@),
        e <= PROB_ONE * PROB_ONE,
        e < ENTROPY_INIT,
{
    let mut acc: u64 = 0;
    let n = weights.len();
    proof {
        lemma_sum_sq_le_sq_sum(weights@);
    }
    for i in 0..n
        invariant
            weights.len() == n,
            sum64(weights@) == PROB_ONE,
            acc == sum_sq(weights@.take(i as int)),
            sum_sq(weights@) <= PROB_ONE * PROB_ONE,
    {
        proof {
            lemma_sum_sq_take_le(weights@, i + 1);
            lemma_sum_sq_nonneg(weights@.take(i as int));
            lemma_sum64_entry(weights@, i as int);
            assert(weights@.take(i + 1).drop_last() =~= weights@.take(i as int));
            assert(weights@[i as int] * weights@[i as int] <= PROB_ONE * PROB_ONE)
                by (nonlinear_arith)
                requires
                    0 <= weights@[i as int] <= PROB_ONE,
            ;
            assert(weights@.take(i + 1).last() == weights@[i as int]);
        }
        let wi = weights[i];
        acc = acc + wi * wi;
    }
    proof {
        assert(weights@.take(n as int) =~= weights@);
        lemma_sum_sq_nonneg(weights@);
    }
    PROB_ONE * PROB_ONE - acc
}

/// A weight vector that puts the whole probability mass on one entry.
pub open spec fn is_one_hot(s: Seq<u64>, t: int) -> bool {
    &&& 0 <= t < s.len()
    &&& s[t] == PROB_ONE
    &&& forall|j: int| 0 <= j < s.len() && j != t ==> s[j] == 0
}

/// If every entry but `t` is zero, the sum is the entry at `t`.
pub proof fn lemma_sum64_single(s: Seq<u64>, t: int)
    requires
        0 <= t < s.len(),
        forall|j: int| 0 <= j < s.len() && j != t ==> s[j] == 0,
    ensures
        sum64(s) == s[t],
    decreases s.len(),
{
    if t == s.len() - 1 {
        lemma_sum64_zero(s.drop_last());
        assert(forall|j: int| 0 <= j < s.drop_last().len() ==> s.drop_last()[j] == s[j]);
    } else {
        lemma_sum64_single(s.drop_last(), t);
    }
}

/// If every entry but `t` is zero, the sum of squares is that entry squared.
pub proof fn lemma_sum_sq_single(s: Seq<u64>, t: int)
    requires
        0 <= t < s.len(),
        forall|j: int| 0 <= j < s.len() && j != t ==> s[j] == 0,
    ensures
        sum_sq(s) == s[t] * s[t],
    decreases s.len(),
{
    if t == s.len() - 1 {
        lemma_sum_sq_zero(s.drop_last());
        assert(forall|j: int| 0 <= j < s.drop_last().len() ==> s.drop_last()[j] == s[j]);
    } else {
        lemma_sum_sq_single(s.drop_last(), t);
    }
}

proof fn lemma_sum_sq_zero(s: Seq<u64>)
    requires
        forall|j: int| 0 <= j < s.len() ==> s[j] == 0,
    ensures
        sum_sq(s) == 0,
    decreases s.len(),
{
    if s.len() > 0 {
        lemma_sum_sq_zero(s.drop_last());
        assert(forall|j: int| 0 <= j < s.drop_last().len() ==> s.drop_last()[j] == s[j]);
    }
}

/// A one-hot vector sums to `PROB_ONE` and has zero entropy.
pub proof fn lemma_one_hot_entropy(s: Seq<u64>, t: int)
    requires
        is_one_hot(s, t),
    ensures
        sum64(s) == PROB_ONE,
        spec_entropy(s) == 0,
{
    lemma_sum64_single(s, t);
    lemma_sum_sq_single(s, t);
}

/// A vector of `len` weights with the whole mass at `t`.
pub fn one_hot(len: usize, t: usize) -> (w: Vec<u64>)
    requires
        t < len,
    ensures
        w.len() == len,
        is_one_hot(w@, t as int),
        sum64(w@) == PROB_ONE,
        spec_entropy(w@) == 0,
{
    let mut w: Vec<u64> = Vec::new();
    let mut i: usize = 0;
    while i < len
        invariant
            i <= len,
            w.len() == i,
            forall|j: int| 0 <= j < i && j != t ==> w@[j] == 0,
            (t as int) < i ==> w@[t as int] == PROB_ONE,
        decreases len - i,
    {
        if i == t {
            w.push(PROB_ONE);
        } else {
            w.push(0);
        }
        i = i + 1;
    }
    proof {
        lemma_one_hot_entropy(w@, t as int);
    }
    w
}

/// A vector of `len` zero weights.
pub fn zero_weights(len: usize) -> (w: Vec<u64>)
    ensures
        w.len() == len,
        forall|j: int| 0 <= j < len ==> w@[j] == 0,
        sum64(w@) == 0,
{
    let mut w: Vec<u64> = Vec::new();
    let mut i: usize = 0;
    while i < len
        invariant
            i <= len,
            w.len() == i,
            forall|j: int| 0 <= j < i ==> w@[j] == 0,
        decreases len - i,
    {
        w.push(0);
        i = i + 1;
    }
    proof {
        lemma_sum64_zero(w@);
    }
    w
}

/// A fresh copy of a weight vector.
pub fn copy_weights(v: &Vec<u64>) -> (w: Vec<u64>)
    ensures
        w@ == v@,
{
    let mut w: Vec<u64> = Vec::new();
    let n = v.len();
    let mut i: usize = 0;
    while i < n
        invariant
            i <= n,
            n == v.len(),
            w.len() == i,
            forall|j: int| 0 <= j < i ==> w@[j] == v@[j],
        decreases n - i,
    {
        w.push(v[i]);
        i = i + 1;
    }
    proof {
        assert(w@ =~= v@);
    }
    w
}

/// A signal vector whose entries are bounded contributes at most the bound
/// per entry.
pub proof fn lemma_sum_signal_bound(s: Seq<Option<u64>>, b: int)
    requires
        forall|j: int| 0 <= j < s.len() ==> signal_value(s[j]) <= b,
        b >= 0,
    ensures
        sum_signal(s) <= s.len() * b,
    decreases s.len(),
{
    if s.len() > 0 {
        lemma_sum_signal_bound(s.drop_last(), b);
        assert(forall|j: int|
            0 <= j < s.drop_last().len() ==> s.drop_last()[j] == s[j]);
        assert((s.len() - 1) * b + b == s.len() * b) by (nonlinear_arith);
    }
}

proof fn lemma_sum_sq_nonneg(s: Seq<u64>)
    ensures
        sum_sq(s) >= 0,
    decreases s.len(),
{
    if s.len() > 0 {
        lemma_sum_sq_nonneg(s.drop_last());
        assert(s.last() * s.last() >= 0) by (nonlinear_arith);
    }
}

} // verus!
