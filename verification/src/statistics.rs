//! Order statistics and moments of whole numbers.

use crate::heap::{Entry, MinHeap};
use vstd::multiset::Multiset;
use vstd::prelude::*;
use vstd::relations::{sorted_by, total_ordering};

verus! {

/// The order of numbers by size.
pub open spec fn ascending() -> spec_fn(u64, u64) -> bool {
    |a: u64, b: u64| a <= b
}

/// The numbers from the least to the greatest.
pub open spec fn sorted(values: Seq<u64>) -> Seq<u64> {
    values.sort_by(ascending())
}

/// Sum of the numbers.
pub open spec fn sum(values: Seq<u64>) -> int
    decreases values.len(),
{
    if values.len() == 0 {
        0
    } else {
        sum(values.drop_last()) + values.last()
    }
}

/// Arithmetic mean, rounded to the nearest whole number, up where two are as near.
pub open spec fn mean(values: Seq<u64>) -> int {
    (2 * sum(values) + values.len()) / (2 * values.len() as int)
}

/// Square of the distance of two numbers.
pub open spec fn square_of_distance(a: int, b: int) -> int {
    (a - b) * (a - b)
}

/// Sum of the squares of the distances from `center`.
pub open spec fn sum_of_squares(values: Seq<u64>, center: int) -> int
    decreases values.len(),
{
    if values.len() == 0 {
        0
    } else {
        sum_of_squares(values.drop_last(), center) + square_of_distance(
            values.last() as int,
            center,
        )
    }
}

/// Whether `root` is the whole part of the square root of `square`.
pub open spec fn is_root(root: int, square: int) -> bool {
    0 <= root && root * root <= square && square < (root + 1) * (root + 1)
}

/// The position, counted from zero, of the number that `per_mille` thousandths of `count` ordered
/// numbers do not exceed.
pub open spec fn rank(count: int, per_mille: int) -> int {
    (count * per_mille + 999) / 1000 - 1
}

/// Law: the whole part of a square root is unique.
pub proof fn law_root_is_unique(a: int, b: int, square: int)
    requires
        is_root(a, square),
        is_root(b, square),
    ensures
        a == b,
{
    if a < b {
        assert((a + 1) * (a + 1) <= b * b) by (nonlinear_arith)
            requires
                0 <= a,
                a + 1 <= b,
        ;
    }
    if b < a {
        assert((b + 1) * (b + 1) <= a * a) by (nonlinear_arith)
            requires
                0 <= b,
                b + 1 <= a,
        ;
    }
}

pub proof fn lemma_ascending_is_total()
    ensures
        total_ordering(ascending()),
{
}

/// Law: sorting neither adds nor loses a number and leaves them in order.
pub proof fn law_sorting_keeps_the_numbers(values: Seq<u64>)
    ensures
        sorted(values).len() == values.len(),
        sorted(values).to_multiset() == values.to_multiset(),
        forall|i: int, j: int|
            0 <= i <= j < values.len() ==> #[trigger] sorted(values)[i] <= #[trigger] sorted(
                values,
            )[j],
{
    lemma_ascending_is_total();
    values.lemma_sort_by_ensures(ascending());
    vstd::seq_lib::to_multiset_len(values);
    vstd::seq_lib::to_multiset_len(sorted(values));
    assert forall|i: int, j: int| 0 <= i <= j < values.len() implies #[trigger] sorted(values)[i]
        <= #[trigger] sorted(values)[j] by {
        if i < j {
            assert(ascending()(sorted(values)[i], sorted(values)[j]));
        }
    }
}

/// Law: a larger share of the numbers has a rank no lower, and every rank is a position.
pub proof fn law_ranks_are_ordered(count: int, low: int, high: int)
    requires
        0 < count,
        0 < low <= high <= 1000,
    ensures
        0 <= rank(count, low) <= rank(count, high) < count,
{
    assert(count * low <= count * high <= count * 1000 && count <= count * low) by (nonlinear_arith)
        requires
            0 < count,
            0 < low <= high <= 1000,
    ;
}

/// How many of the numbers are at most `bound`.
pub open spec fn at_most(values: Seq<u64>, bound: u64) -> nat
    decreases values.len(),
{
    if values.len() == 0 {
        0
    } else {
        at_most(values.drop_last(), bound) + (if values.last() <= bound {
            1nat
        } else {
            0
        })
    }
}

proof fn lemma_at_most_by_multiset(values: Seq<u64>, bound: u64)
    ensures
        at_most(values, bound) == values.to_multiset().filter(|v: u64| v <= bound).len(),
    decreases values.len(),
{
    broadcast use vstd::multiset::group_multiset_axioms;

    let f = |v: u64| v <= bound;
    if values.len() == 0 {
        vstd::seq_lib::to_multiset_len(values);
        assert(values.to_multiset().filter(f) =~= Multiset::<u64>::empty());
    } else {
        let rest = values.drop_last();
        let last = values.last();
        lemma_at_most_by_multiset(rest, bound);
        assert(rest.push(last) =~= values);
        vstd::seq_lib::to_multiset_build(rest, last);
        if last <= bound {
            assert(values.to_multiset().filter(f) =~= rest.to_multiset().filter(f).insert(last));
        } else {
            assert(values.to_multiset().filter(f) =~= rest.to_multiset().filter(f));
        }
    }
}

proof fn lemma_at_most_in_order(ordered: Seq<u64>, rank: int, bound: u64)
    requires
        forall|i: int, j: int| 0 <= i <= j < ordered.len() ==> ordered[i] <= ordered[j],
        0 <= rank < ordered.len(),
    ensures
        ordered[rank] <= bound ==> at_most(ordered, bound) >= rank + 1,
        ordered[rank] > bound ==> at_most(ordered, bound) <= rank,
    decreases ordered.len(),
{
    let rest = ordered.drop_last();
    if rank < rest.len() {
        lemma_at_most_in_order(rest, rank, bound);
        assert(ordered[rank] <= ordered.last());
    } else {
        lemma_at_most_is_part(rest, bound);
        if rank > 0 {
            lemma_at_most_in_order(rest, rank - 1, bound);
            assert(ordered[rank - 1] <= ordered[rank]);
        }
    }
}

proof fn lemma_at_most_is_part(values: Seq<u64>, bound: u64)
    ensures
        at_most(values, bound) <= values.len(),
    decreases values.len(),
{
    if values.len() > 0 {
        lemma_at_most_is_part(values.drop_last(), bound);
    }
}

/// Law: the number at the rank of a share is the least of the numbers that so many of them do not
/// exceed.
pub proof fn law_rank_marks_the_share(values: Seq<u64>, per_mille: int)
    requires
        values.len() > 0,
        0 < per_mille <= 1000,
    ensures
        ({
            let x = sorted(values)[rank(values.len() as int, per_mille)];
            &&& values.contains(x)
            &&& 1000 * at_most(values, x) >= per_mille * values.len()
            &&& forall|y: u64|
                #[trigger] values.contains(y) && y < x ==> 1000 * at_most(values, y) < per_mille
                    * values.len()
        }),
{
    let n = values.len() as int;
    let s = sorted(values);
    let r = rank(n, per_mille);
    law_sorting_keeps_the_numbers(values);
    law_ranks_are_ordered(n, per_mille, 1000);
    vstd::seq_lib::to_multiset_len(values);
    vstd::seq_lib::to_multiset_len(s);
    let x = s[r];
    assert(values.contains(x)) by {
        vstd::seq_lib::to_multiset_contains(s, x);
        vstd::seq_lib::to_multiset_contains(values, x);
        assert(s.contains(x));
    }
    assert(n * per_mille == per_mille * n) by (nonlinear_arith);
    lemma_at_most_by_multiset(values, x);
    lemma_at_most_by_multiset(s, x);
    lemma_at_most_in_order(s, r, x);
    assert forall|y: u64| #[trigger] values.contains(y) && y < x implies 1000 * at_most(values, y)
        < per_mille * n by {
        lemma_at_most_by_multiset(values, y);
        lemma_at_most_by_multiset(s, y);
        lemma_at_most_in_order(s, r, y);
    }
}

proof fn lemma_sum_is_bounded(values: Seq<u64>)
    ensures
        0 <= sum(values) <= values.len() * u64::MAX,
    decreases values.len(),
{
    if values.len() > 0 {
        lemma_sum_is_bounded(values.drop_last());
        assert((values.len() - 1) * u64::MAX + u64::MAX == values.len() * u64::MAX)
            by (nonlinear_arith);
    }
}

/// Adds up the numbers.
pub fn compute_sum(values: &Vec<u64>) -> (total: u128)
    ensures
        total == sum(values@),
{
    let mut total: u128 = 0;
    let mut i: usize = 0;
    while i < values.len()
        invariant
            i <= values@.len(),
            total == sum(values@.take(i as int)),
        decreases values@.len() - i,
    {
        proof {
            assert(values@.take(i + 1).drop_last() =~= values@.take(i as int));
            lemma_sum_is_bounded(values@.take(i as int));
            lemma_sum_is_bounded(values@.take(i + 1));
            assert((i + 1) * u64::MAX <= u128::MAX) by (nonlinear_arith)
                requires
                    i + 1 <= usize::MAX,
                    usize::MAX <= u64::MAX,
            ;
        }
        total = total + values[i] as u128;
        i = i + 1;
    }
    assert(values@.take(i as int) =~= values@);
    total
}

/// Computes [`mean`].
pub fn compute_mean(values: &Vec<u64>) -> (average: u64)
    requires
        values@.len() > 0,
    ensures
        average == mean(values@),
{
    let total: u128 = compute_sum(values);
    let n: u128 = values.len() as u128;
    let q: u128 = total / n;
    let r: u128 = total % n;
    proof {
        lemma_sum_is_bounded(values@);
        assert(total == n * q + r) by (nonlinear_arith)
            requires
                n > 0,
                q == total / n,
                r == total % n,
        ;
        // The mean is at most the greatest number there is.
        assert(q <= u64::MAX) by (nonlinear_arith)
            requires
                n > 0,
                total == n * q + r,
                0 <= r,
                total <= n * u64::MAX,
        ;
        assert(q == u64::MAX ==> r == 0) by (nonlinear_arith)
            requires
                n > 0,
                total == n * q + r,
                0 <= r,
                total <= n * u64::MAX,
        ;
        if 2 * r >= n {
            assert((2 * total + n) / (2 * n as int) == q + 1) by (nonlinear_arith)
                requires
                    n > 0,
                    total == n * q + r,
                    r < n,
                    2 * r >= n,
            ;
        } else {
            assert((2 * total + n) / (2 * n as int) == q) by (nonlinear_arith)
                requires
                    n > 0,
                    total == n * q + r,
                    0 <= r,
                    2 * r < n,
            ;
        }
    }
    if 2 * r >= n {
        (q + 1) as u64
    } else {
        q as u64
    }
}

/// The whole part of a square root.
pub fn square_root(square: u128) -> (root: u64)
    ensures
        is_root(root as int, square as int),
{
    let mut low: u128 = 0;
    let mut high: u128 = 0x1_0000_0000_0000_0000;
    while high - low > 1
        invariant
            low < high <= 0x1_0000_0000_0000_0000,
            low * low <= square < high * high,
        decreases high - low,
    {
        let middle: u128 = low + (high - low) / 2;
        assert(middle * middle <= 0xFFFF_FFFF_FFFF_FFFF * 0xFFFF_FFFF_FFFF_FFFF)
            by (nonlinear_arith)
            requires
                middle <= 0xFFFF_FFFF_FFFF_FFFF,
        ;
        if middle * middle <= square {
            low = middle;
        } else {
            high = middle;
        }
    }
    low as u64
}

/// The variance times the square of how many numbers there are: that many times the sum of the
/// squares, less the square of the sum.
pub open spec fn scaled_variance(values: Seq<u64>) -> int {
    values.len() * sum_of_squares(values, 0) - sum(values) * sum(values)
}

/// Four times the variance, rounded down.
pub open spec fn quadruple_variance(values: Seq<u64>) -> int {
    4 * scaled_variance(values) / (values.len() * values.len() as int)
}

/// Whether `deviation` is the standard deviation, to the nearest whole number.
pub open spec fn is_deviation(deviation: int, values: Seq<u64>) -> bool {
    exists|root: int| #[trigger]
        is_root(root, quadruple_variance(values)) && deviation == (root + 1) / 2
}

proof fn lemma_squares_are_positive(values: Seq<u64>, center: int)
    ensures
        0 <= sum_of_squares(values, center),
    decreases values.len(),
{
    if values.len() > 0 {
        lemma_squares_are_positive(values.drop_last(), center);
        let d = values.last() - center;
        assert(0 <= d * d) by (nonlinear_arith);
    }
}

proof fn lemma_squares_grow(values: Seq<u64>, center: int, count: int)
    requires
        0 <= count <= values.len(),
    ensures
        sum_of_squares(values.take(count), center) <= sum_of_squares(values, center),
    decreases values.len() - count,
{
    if count < values.len() {
        lemma_squares_grow(values, center, count + 1);
        assert(values.take(count + 1).drop_last() =~= values.take(count));
        let d = values[count] - center;
        assert(0 <= d * d) by (nonlinear_arith);
    } else {
        assert(values.take(count) =~= values);
    }
}

proof fn lemma_squares_shift(values: Seq<u64>, center: int)
    ensures
        sum_of_squares(values, center) == sum_of_squares(values, 0) - 2 * center * sum(values)
            + values.len() * center * center,
    decreases values.len(),
{
    if values.len() > 0 {
        let rest = values.drop_last();
        lemma_squares_shift(rest, center);
        let x = values.last() as int;
        let n = rest.len() as int;
        let t = sum(rest);
        assert((x - center) * (x - center) == (x - 0) * (x - 0) - 2 * center * x + center * center)
            by (nonlinear_arith);
        assert(2 * center * (t + x) == 2 * center * t + 2 * center * x) by (nonlinear_arith);
        assert((n + 1) * center * center == n * center * center + center * center)
            by (nonlinear_arith);
    } else {
        assert(2 * center * 0 == 0 && 0 * center * center == 0) by (nonlinear_arith);
    }
}

proof fn lemma_variance_is_positive(values: Seq<u64>)
    ensures
        0 <= scaled_variance(values),
    decreases values.len(),
{
    if values.len() > 0 {
        let rest = values.drop_last();
        lemma_variance_is_positive(rest);
        let x = values.last() as int;
        let n = rest.len() as int;
        let q = sum_of_squares(rest, 0);
        let t = sum(rest);
        lemma_squares_shift(rest, x);
        lemma_squares_are_positive(rest, x);
        assert((n + 1) * (q + (x - 0) * (x - 0)) - (t + x) * (t + x) == (n * q - t * t) + (q - 2 * x
            * t + n * x * x)) by (nonlinear_arith);
    }
}

proof fn lemma_squares_are_bounded(values: Seq<u64>)
    ensures
        sum_of_squares(values, 0) <= u64::MAX * sum(values),
    decreases values.len(),
{
    if values.len() > 0 {
        let rest = values.drop_last();
        lemma_squares_are_bounded(rest);
        let x = values.last() as int;
        let t = sum(rest);
        assert((x - 0) * (x - 0) <= u64::MAX * x) by (nonlinear_arith)
            requires
                0 <= x <= u64::MAX,
        ;
        assert(u64::MAX * (t + x) == u64::MAX * t + u64::MAX * x) by (nonlinear_arith);
    }
}

/// The sum of the squares of the distances from the whole part of the mean is not much more than
/// the greatest variance.
proof fn lemma_centered_squares(values: Seq<u64>, center: int, rest: int)
    requires
        values.len() > 0,
        sum(values) == values.len() * center + rest,
        0 <= rest < values.len(),
    ensures
        scaled_variance(values) == values.len() * sum_of_squares(values, center) - rest * rest,
        4 * sum_of_squares(values, center) <= values.len() * (u64::MAX * u64::MAX + 4),
{
    let n = values.len() as int;
    let q = sum_of_squares(values, 0);
    let s = sum_of_squares(values, center);
    let t = sum(values);
    let m = u64::MAX as int;
    lemma_squares_shift(values, center);
    lemma_squares_are_bounded(values);
    assert(n * q - t * t == n * s - rest * rest) by (nonlinear_arith)
        requires
            s == q - 2 * center * t + n * center * center,
            t == n * center + rest,
    ;
    assert(n * q <= n * (m * t)) by (nonlinear_arith)
        requires
            q <= m * t,
            n > 0,
    ;
    assert(0 <= (n * m - 2 * t) * (n * m - 2 * t)) by (nonlinear_arith);
    assert((n * m - 2 * t) * (n * m - 2 * t) == (n * m) * (n * m) - 4 * (n * (m * t)) + 4 * (t * t))
        by (nonlinear_arith);
    assert(n * (4 * s) <= n * (n * (m * m + 4))) by (nonlinear_arith)
        requires
            4 * (n * s - rest * rest) <= (n * m) * (n * m),
            0 <= rest < n,
    ;
    assert(4 * s <= n * (m * m + 4)) by (nonlinear_arith)
        requires
            n * (4 * s) <= n * (n * (m * m + 4)),
            n > 0,
    ;
}

/// How often `unit` goes into four times `part`, and what is left.
fn quarters(part: u128, unit: u128) -> (result: (i8, u128))
    requires
        part < unit,
    ensures
        0 <= result.0 <= 3,
        4 * part == result.0 * unit + result.1,
        result.1 < unit,
{
    let (half, left): (i8, u128) = if part >= unit - part {
        (1, part - (unit - part))
    } else {
        (0, part + part)
    };
    assert(2 * part == half * unit + left);
    let (quarter, last): (i8, u128) = if left >= unit - left {
        (1, left - (unit - left))
    } else {
        (0, left + left)
    };
    assert(2 * left == quarter * unit + last);
    assert((2 * half + quarter) * unit == 2 * (half * unit) + quarter * unit) by (nonlinear_arith);
    (2 * half + quarter, last)
}

/// How often `unit` goes into four times `more - less`, rounded down.
fn signed_quarters(more: u128, less: u128, unit: u128) -> (quotient: i8)
    requires
        more < unit,
        less < unit,
    ensures
        -4 <= quotient <= 3,
        quotient * unit <= 4 * (more - less) < (quotient + 1) * unit,
{
    if more >= less {
        let (quotient, left) = quarters(more - less, unit);
        assert((quotient + 1) * unit == quotient * unit + unit) by (nonlinear_arith);
        quotient
    } else {
        let (quotient, left) = quarters(less - more, unit);
        assert((-quotient) * unit == -(quotient * unit)) by (nonlinear_arith);
        assert((-quotient - 1) * unit == -(quotient * unit) - unit) by (nonlinear_arith);
        assert((-quotient + 1) * unit == -(quotient * unit) + unit) by (nonlinear_arith);
        if left == 0 {
            -quotient
        } else {
            -quotient - 1
        }
    }
}

/// Computes the standard deviation of at least one number.
pub fn compute_deviation(values: &Vec<u64>) -> (deviation: u64)
    requires
        values@.len() > 0,
    ensures
        is_deviation(deviation as int, values@),
{
    let n: u128 = values.len() as u128;
    let total: u128 = compute_sum(values);
    let center: u128 = total / n;
    let rest: u128 = total % n;
    let ghost squares = sum_of_squares(values@, center as int);
    let ghost most = u64::MAX * u64::MAX + 4;
    proof {
        lemma_sum_is_bounded(values@);
        assert(total == n * center + rest) by (nonlinear_arith)
            requires
                n > 0,
                center == total / n,
                rest == total % n,
        ;
        assert(center <= u64::MAX) by (nonlinear_arith)
            requires
                n > 0,
                total == n * center + rest,
                0 <= rest,
                total <= n * u64::MAX,
        ;
        lemma_centered_squares(values@, center as int, rest as int);
        lemma_variance_is_positive(values@);
    }
    // The sum of the squares is `whole * n + part`.
    let mut whole: u128 = 0;
    let mut part: u128 = 0;
    let mut i: usize = 0;
    while i < values.len()
        invariant
            i <= values@.len(),
            n == values@.len(),
            n > 0,
            n <= u64::MAX,
            center <= u64::MAX,
            part < n,
            whole * n + part == sum_of_squares(values@.take(i as int), center as int),
            squares == sum_of_squares(values@, center as int),
            most == u64::MAX * u64::MAX + 4,
            4 * squares <= n * most,
        decreases values@.len() - i,
    {
        let value: u128 = values[i] as u128;
        let distance: u128 = if value >= center {
            value - center
        } else {
            center - value
        };
        assert(0 <= distance * distance <= 0xFFFF_FFFF_FFFF_FFFF * 0xFFFF_FFFF_FFFF_FFFF)
            by (nonlinear_arith)
            requires
                0 <= distance <= 0xFFFF_FFFF_FFFF_FFFF,
        ;
        let square: u128 = distance * distance;
        let more: u128 = square / n;
        let over: u128 = square % n;
        proof {
            assert(values@.take(i + 1).drop_last() =~= values@.take(i as int));
            let d = value - center;
            assert((-d) * (-d) == d * d) by (nonlinear_arith);
            assert(square == square_of_distance(value as int, center as int));
            lemma_squares_grow(values@, center as int, i + 1);
            assert(square == n * more + over && 0 <= over < n) by (nonlinear_arith)
                requires
                    n > 0,
                    more == square / n,
                    over == square % n,
            ;
            assert((whole + more) * n + (part + over) == sum_of_squares(
                values@.take(i + 1),
                center as int,
            )) by (nonlinear_arith)
                requires
                    whole * n + part + square == sum_of_squares(values@.take(i + 1), center as int),
                    square == n * more + over,
            ;
            assert(4 * (whole + more) <= most) by (nonlinear_arith)
                requires
                    (whole + more) * n + (part + over) <= squares,
                    4 * squares <= n * most,
                    0 <= part,
                    0 <= over,
                    n > 0,
            ;
            assert((whole + more + 1) * n == (whole + more) * n + n) by (nonlinear_arith);
        }
        whole = whole + more;
        part = part + over;
        if part >= n {
            part = part - n;
            whole = whole + 1;
        }
        i = i + 1;
    }
    proof {
        assert(values@.take(i as int) =~= values@);
        assert(4 * whole <= most) by (nonlinear_arith)
            requires
                whole * n + part == squares,
                4 * squares <= n * most,
                0 <= part,
                n > 0,
        ;
        assert(0 <= part * n < n * n && n * n <= u128::MAX) by (nonlinear_arith)
            requires
                0 <= part < n,
                0 < n <= u64::MAX,
        ;
        assert(0 <= rest * rest < n * n) by (nonlinear_arith)
            requires
                0 <= rest < n,
        ;
    }
    let unit: u128 = n * n;
    let f: i8 = signed_quarters(part * n, rest * rest, unit);
    proof {
        let v = scaled_variance(values@);
        let w = 4 * whole + f;
        assert(v == whole * unit + part * n - rest * rest) by (nonlinear_arith)
            requires
                v == n * squares - rest * rest,
                squares == whole * n + part,
                unit == n * n,
        ;
        assert(w * unit == 4 * (whole * unit) + f * unit) by (nonlinear_arith)
            requires
                w == 4 * whole + f,
        ;
        assert((f + 1) * unit == f * unit + unit) by (nonlinear_arith);
        let left = 4 * v - w * unit;
        assert(0 <= left < unit);
        vstd::arithmetic::div_mod::lemma_fundamental_div_mod_converse(
            4 * v,
            unit as int,
            w,
            left,
        );
        assert(w == quadruple_variance(values@));
        assert(w >= 0) by {
            vstd::arithmetic::div_mod::lemma_div_pos_is_pos(4 * v, unit as int);
        }
    }
    let quadruple: u128 = if f >= 0 {
        4 * whole + f as u128
    } else {
        4 * whole - ((-f) as u128)
    };
    let root: u64 = square_root(quadruple);
    assert(is_root(root as int, quadruple_variance(values@)));
    (root / 2) + (root % 2)
}

/// A number as a heap entry.
spec fn entry_of(value: u64) -> Entry<u64> {
    Entry { key: value as i128, item: value }
}

spec fn entries_of(values: Seq<u64>) -> Multiset<Entry<u64>> {
    values.map_values(|value: u64| entry_of(value)).to_multiset()
}

proof fn lemma_entries_push(values: Seq<u64>, value: u64)
    ensures
        entries_of(values.push(value)) == entries_of(values).insert(entry_of(value)),
{
    let f = |value: u64| entry_of(value);
    assert(values.push(value).map_values(f) =~= values.map_values(f).push(f(value)));
    vstd::seq_lib::to_multiset_build(values.map_values(f), f(value));
}

proof fn lemma_entries_count(values: Seq<u64>, value: u64)
    ensures
        entries_of(values).count(entry_of(value)) == values.to_multiset().count(value),
    decreases values.len(),
{
    broadcast use vstd::multiset::group_multiset_axioms;

    if values.len() == 0 {
        vstd::seq_lib::to_multiset_len(values);
        vstd::seq_lib::to_multiset_len(values.map_values(|value: u64| entry_of(value)));
    } else {
        let rest = values.drop_last();
        lemma_entries_count(rest, value);
        lemma_entries_push(rest, values.last());
        vstd::seq_lib::to_multiset_build(rest, values.last());
        assert(values =~= rest.push(values.last()));
    }
}

proof fn lemma_same_entries(a: Seq<u64>, b: Seq<u64>)
    requires
        entries_of(a) == entries_of(b),
    ensures
        a.to_multiset() == b.to_multiset(),
{
    broadcast use vstd::multiset::group_multiset_axioms;

    assert forall|value: u64| a.to_multiset().count(value) == b.to_multiset().count(value) by {
        lemma_entries_count(a, value);
        lemma_entries_count(b, value);
    }
    assert(a.to_multiset() =~= b.to_multiset());
}

/// Puts the numbers in order.
pub fn sort(values: &Vec<u64>) -> (ordered: Vec<u64>)
    ensures
        ordered@ == sorted(values@),
{
    broadcast use vstd::multiset::group_multiset_axioms;

    let mut heap: MinHeap<u64> = MinHeap::new();
    let mut i: usize = 0;
    proof {
        vstd::seq_lib::to_multiset_len(values@.take(0).map_values(|value: u64| entry_of(value)));
        assert(heap@ =~= entries_of(values@.take(0)));
    }
    while i < values.len()
        invariant
            i <= values@.len(),
            heap.wf(),
            heap@ == entries_of(values@.take(i as int)),
        decreases values@.len() - i,
    {
        proof {
            assert(values@.take(i + 1) =~= values@.take(i as int).push(values@[i as int]));
            lemma_entries_push(values@.take(i as int), values@[i as int]);
        }
        heap.push(values[i] as i128, values[i]);
        i = i + 1;
    }
    let ghost all = heap@;
    let mut ordered: Vec<u64> = Vec::new();
    proof {
        assert(values@.take(i as int) =~= values@);
        vstd::seq_lib::to_multiset_len(ordered@.map_values(|value: u64| entry_of(value)));
        assert(all =~= heap@.add(entries_of(ordered@)));
        assert forall|e: Entry<u64>| #[trigger] all.count(e) > 0 implies e == entry_of(
            e.item,
        ) by {
            let mapped = values@.map_values(|value: u64| entry_of(value));
            vstd::seq_lib::to_multiset_contains(mapped, e);
        }
    }
    let mut more: bool = true;
    while more
        invariant
            heap.wf(),
            all == entries_of(values@),
            all == heap@.add(entries_of(ordered@)),
            forall|e: Entry<u64>| #[trigger] all.count(e) > 0 ==> e == entry_of(e.item),
            sorted_by(ordered@, ascending()),
            ordered@.len() > 0 ==> forall|e: Entry<u64>| #[trigger]
                heap@.count(e) > 0 ==> ordered@.last() <= e.key,
            !more ==> heap@.len() == 0,
        decreases (if more { 1int } else { 0 }), heap@.len(),
    {
        let ghost heap1 = heap@;
        let ghost ordered1 = ordered@;
        match heap.pop() {
            Some(entry) => {
                assert(all.count(entry) > 0);
                let value: u64 = entry.item;
                ordered.push(value);
                proof {
                    assert(entry == entry_of(value));
                    lemma_entries_push(ordered1, value);
                    assert(all =~= heap@.add(entries_of(ordered@)));
                    assert forall|a: int, b: int| 0 <= a < b < ordered@.len() implies #[trigger] ascending()(
                        ordered@[a],
                        ordered@[b],
                    ) by {
                        if b < ordered1.len() {
                            assert(ascending()(ordered1[a], ordered1[b]));
                        } else if a < ordered1.len() - 1 {
                            assert(ascending()(ordered1[a], ordered1[ordered1.len() - 1]));
                        }
                    }
                    assert forall|e: Entry<u64>| #[trigger] heap@.count(e) > 0 implies ordered@.last()
                        <= e.key by {
                        assert(heap1.count(e) > 0);
                    }
                }
            },
            None => {
                more = false;
            },
        }
    }
    proof {
        assert(heap@.add(entries_of(ordered@)) =~= entries_of(ordered@));
        lemma_same_entries(ordered@, values@);
        lemma_ascending_is_total();
        values@.lemma_sort_by_ensures(ascending());
        vstd::seq_lib::lemma_sorted_unique(ordered@, sorted(values@), ascending());
    }
    ordered
}

/// Computes [`rank`].
pub fn compute_rank(count: usize, per_mille: u64) -> (position: usize)
    requires
        0 < count,
        0 < per_mille <= 1000,
    ensures
        position == rank(count as int, per_mille as int),
        position < count,
{
    proof {
        law_ranks_are_ordered(count as int, per_mille as int, per_mille as int);
        assert(count * per_mille <= count * 1000) by (nonlinear_arith)
            requires
                per_mille <= 1000,
        ;
        assert((count as u128) * (per_mille as u128) == count * per_mille) by (nonlinear_arith);
    }
    (((count as u128) * (per_mille as u128) + 999) / 1000 - 1) as usize
}

/// The least of the numbers.
pub open spec fn is_least(least: u64, values: Seq<u64>) -> bool {
    values.contains(least) && forall|i: int| 0 <= i < values.len() ==> least <= #[trigger] values[i]
}

/// The greatest of the numbers.
pub open spec fn is_greatest(greatest: u64, values: Seq<u64>) -> bool {
    values.contains(greatest) && forall|i: int|
        0 <= i < values.len() ==> #[trigger] values[i] <= greatest
}

/// Finds the least of the numbers.
pub fn find_least(values: &Vec<u64>) -> (least: u64)
    requires
        values@.len() > 0,
    ensures
        is_least(least, values@),
{
    let mut least: u64 = values[0];
    let mut i: usize = 1;
    while i < values.len()
        invariant
            1 <= i <= values@.len(),
            values@.contains(least),
            forall|j: int| 0 <= j < i ==> least <= #[trigger] values@[j],
        decreases values@.len() - i,
    {
        if values[i] < least {
            least = values[i];
        }
        i = i + 1;
    }
    least
}

/// Finds the greatest of the numbers.
pub fn find_greatest(values: &Vec<u64>) -> (greatest: u64)
    requires
        values@.len() > 0,
    ensures
        is_greatest(greatest, values@),
{
    let mut greatest: u64 = values[0];
    let mut i: usize = 1;
    while i < values.len()
        invariant
            1 <= i <= values@.len(),
            values@.contains(greatest),
            forall|j: int| 0 <= j < i ==> #[trigger] values@[j] <= greatest,
        decreases values@.len() - i,
    {
        if values[i] > greatest {
            greatest = values[i];
        }
        i = i + 1;
    }
    greatest
}

/// Law: each number has its place between the least and the greatest when they are in order.
pub proof fn law_order_runs_from_least_to_greatest(
    values: Seq<u64>,
    least: u64,
    greatest: u64,
    position: int,
)
    requires
        is_least(least, values),
        is_greatest(greatest, values),
        0 <= position < values.len(),
    ensures
        least <= sorted(values)[position] <= greatest,
        sorted(values)[0] == least,
        sorted(values)[values.len() - 1] == greatest,
{
    law_sorting_keeps_the_numbers(values);
    let s = sorted(values);
    assert forall|i: int| 0 <= i < s.len() implies least <= #[trigger] s[i] <= greatest by {
        assert(s.contains(s[i]));
        vstd::seq_lib::to_multiset_contains(s, s[i]);
        vstd::seq_lib::to_multiset_contains(values, s[i]);
    }
    vstd::seq_lib::to_multiset_contains(values, least);
    vstd::seq_lib::to_multiset_contains(s, least);
    vstd::seq_lib::to_multiset_contains(values, greatest);
    vstd::seq_lib::to_multiset_contains(s, greatest);
    let a = choose|i: int| 0 <= i < s.len() && s[i] == least;
    let b = choose|i: int| 0 <= i < s.len() && s[i] == greatest;
    assert(s[0] <= s[a]);
    assert(s[b] <= s[values.len() - 1]);
}

/// Law: sums and counts take in one number after the other: each number adds itself to the sum, the
/// square of its distance to the sum of squares, and one to the count where it is within the bound.
pub proof fn law_numbers_add_up(values: Seq<u64>, value: u64, center: int, bound: u64)
    ensures
        sum(Seq::empty()) == 0,
        sum(values.push(value)) == sum(values) + value,
        sum_of_squares(Seq::empty(), center) == 0,
        sum_of_squares(values.push(value), center) == sum_of_squares(values, center) + (value
            - center) * (value - center),
        at_most(Seq::empty(), bound) == 0,
        at_most(values.push(value), bound) == at_most(values, bound) + (if value <= bound {
            1nat
        } else {
            0
        }),
{
    assert(values.push(value).drop_last() =~= values);
}

/// Law: the mean times the number of values differs from their sum by no more than half that number,
/// and where it differs by half, it is the larger.
pub proof fn law_mean_is_the_nearest(values: Seq<u64>)
    requires
        values.len() > 0,
    ensures
        -(values.len() as int) < 2 * (mean(values) * values.len() - sum(values)) <= values.len(),
{
    let n = values.len() as int;
    let m = mean(values);
    let s = sum(values);
    assert(m * (2 * n) <= 2 * s + n && 2 * s + n < m * (2 * n) + 2 * n) by (nonlinear_arith)
        requires
            n > 0,
            m == (2 * s + n) / (2 * n),
    ;
    assert(m * (2 * n) == 2 * (m * n)) by (nonlinear_arith);
}

proof fn lemma_squares_about(values: Seq<u64>, center: int)
    ensures
        sum_of_squares(values, center) == sum_of_squares(values, 0) - 2 * (center * sum(values))
            + values.len() * (center * center),
    decreases values.len(),
{
    if values.len() > 0 {
        let rest = values.drop_last();
        let x = values.last() as int;
        lemma_squares_about(rest, center);
        let s = sum(rest);
        let n = rest.len() as int;
        assert((x - center) * (x - center) == (x - 0) * (x - 0) - 2 * (center * x) + center
            * center) by (nonlinear_arith);
        assert(center * (s + x) == center * s + center * x) by (nonlinear_arith);
        assert((n + 1) * (center * center) == n * (center * center) + center * center)
            by (nonlinear_arith);
    } else {
        assert(center * 0 == 0) by (nonlinear_arith);
        assert(0 * (center * center) == 0) by (nonlinear_arith);
    }
}

/// Law: the spread of the numbers does not depend on where it is measured from: about any point, the
/// sum of the squares times the number of values, less the square of the sum of the distances, is
/// the same. So it is that about the mean.
pub proof fn law_variance_is_about_the_mean(values: Seq<u64>, center: int)
    ensures
        values.len() * sum_of_squares(values, center) - (sum(values) - values.len() * center) * (sum(
            values,
        ) - values.len() * center) == scaled_variance(values),
{
    lemma_squares_about(values, center);
    let n = values.len() as int;
    let s = sum(values);
    let q = sum_of_squares(values, 0);
    let c = center;
    let k = c * s;
    let d = n * (c * c);
    assert(n * (q - 2 * k + d) - (s - n * c) * (s - n * c) == n * q - s * s) by (nonlinear_arith)
        requires
            k == c * s,
            d == n * (c * c),
    ;
}

/// Law: a standard deviation is within half of the exact one: the square of what is half less is no
/// more than the variance, and the square of what is half more exceeds it.
pub proof fn law_deviation_is_the_nearest(deviation: int, values: Seq<u64>)
    requires
        values.len() > 0,
        is_deviation(deviation, values),
    ensures
        deviation >= 0,
        deviation > 0 ==> (2 * deviation - 1) * (2 * deviation - 1) * (values.len() * values.len())
            <= 4 * scaled_variance(values),
        4 * scaled_variance(values) < (2 * deviation + 1) * (2 * deviation + 1) * (values.len()
            * values.len()),
{
    let root = choose|root: int| #[trigger]
        is_root(root, quadruple_variance(values)) && deviation == (root + 1) / 2;
    let v = 4 * scaled_variance(values);
    let nn = values.len() * values.len() as int;
    assert(nn > 0) by (nonlinear_arith)
        requires
            nn == values.len() * values.len() as int,
            values.len() > 0,
    ;
    let q = quadruple_variance(values);
    assert(q * nn <= v && v < (q + 1) * nn) by (nonlinear_arith)
        requires
            nn > 0,
            q == v / nn,
    ;
    let less = 2 * deviation - 1;
    let more = 2 * deviation + 1;
    assert(root + 1 <= more);
    assert((root + 1) * (root + 1) <= more * more) by (nonlinear_arith)
        requires
            0 <= root,
            root + 1 <= more,
    ;
    assert((q + 1) * nn <= more * more * nn) by (nonlinear_arith)
        requires
            q + 1 <= more * more,
            nn > 0,
    ;
    if deviation > 0 {
        assert(less * less <= root * root) by (nonlinear_arith)
            requires
                0 <= less <= root,
        ;
        assert(less * less * nn <= q * nn) by (nonlinear_arith)
            requires
                less * less <= q,
                nn > 0,
        ;
    }
}

/// Law: the least and the greatest number are among the numbers, and none is below or above them.
pub proof fn law_extremes_bound_the_numbers(
    values: Seq<u64>,
    least: u64,
    greatest: u64,
    position: int,
)
    requires
        is_least(least, values),
        is_greatest(greatest, values),
        0 <= position < values.len(),
    ensures
        values.contains(least),
        values.contains(greatest),
        least <= values[position] <= greatest,
{
}

} // verus!
