//! Identifier codec: factorial-number-system evaluation of index arrays,
//! its inverse digit decomposition, permutation ranking/unranking over a
//! shrinking identity copy, and fixed-width base-3 packing.

use vstd::prelude::*;
use vstd::arithmetic::div_mod::lemma_fundamental_div_mod;
use vstd::arithmetic::mul::lemma_mul_increases;
use vstd::arithmetic::mul::lemma_mul_inequality;
use vstd::arithmetic::mul::lemma_mul_nonnegative;

verus! {

/// `n!` (factorial).
pub open spec fn spec_fact(n: nat) -> nat
    decreases n,
{
    if n == 0 {
        1
    } else {
        n * spec_fact((n - 1) as nat)
    }
}

pub proof fn lemma_fact_pos(n: nat)
    ensures
        spec_fact(n) >= 1,
    decreases n,
{
    if n > 0 {
        lemma_fact_pos((n - 1) as nat);
        lemma_mul_increases(n as int, spec_fact((n - 1) as nat) as int);
    }
}

pub proof fn lemma_fact_monotonic(m: nat, n: nat)
    requires
        m <= n,
    ensures
        spec_fact(m) <= spec_fact(n),
    decreases n,
{
    if m < n {
        lemma_fact_monotonic(m, (n - 1) as nat);
        lemma_fact_pos((n - 1) as nat);
        lemma_mul_increases(n as int, spec_fact((n - 1) as nat) as int);
    }
}

pub proof fn lemma_fact_7()
    ensures
        spec_fact(7) == 5040,
{
    assert(spec_fact(0) == 1);
    assert(spec_fact(1) == 1);
    assert(spec_fact(2) == 2);
    assert(spec_fact(3) == 6);
    assert(spec_fact(4) == 24);
    assert(spec_fact(5) == 120);
    assert(spec_fact(6) == 720);
    assert(spec_fact(7) == 5040);
}

pub proof fn lemma_fact_12()
    ensures
        spec_fact(12) == 479001600,
{
    assert(spec_fact(0) == 1);
    assert(spec_fact(1) == 1);
    assert(spec_fact(2) == 2);
    assert(spec_fact(3) == 6);
    assert(spec_fact(4) == 24);
    assert(spec_fact(5) == 120);
    assert(spec_fact(6) == 720);
    assert(spec_fact(7) == 5040);
    assert(spec_fact(8) == 40320);
    assert(spec_fact(9) == 362880);
    assert(spec_fact(10) == 3628800);
    assert(spec_fact(11) == 39916800);
    assert(spec_fact(12) == 479001600);
}

/// A valid factorial-base index array: the digit at position `i` of an
/// array of length `n` has radix `n - i`.
pub open spec fn spec_digits_ok(s: Seq<u32>) -> bool {
    forall|i: int| 0 <= i < s.len() ==> (#[trigger] s[i]) < s.len() - i
}

/// Factorial-number-system evaluation: the digit at position `i` of an
/// array of length `n` has place value `(n - 1 - i)!`.
pub open spec fn spec_index_arr_to_id(s: Seq<u32>) -> int
    decreases s.len(),
{
    if s.len() == 0 {
        0
    } else {
        s[0] * spec_fact((s.len() - 1) as nat) + spec_index_arr_to_id(s.drop_first())
    }
}

pub proof fn lemma_index_arr_to_id_nonneg(s: Seq<u32>)
    ensures
        spec_index_arr_to_id(s) >= 0,
    decreases s.len(),
{
    if s.len() > 0 {
        lemma_index_arr_to_id_nonneg(s.drop_first());
        lemma_mul_nonnegative(s[0] as int, spec_fact((s.len() - 1) as nat) as int);
    }
}

pub proof fn lemma_index_arr_to_id_bound(s: Seq<u32>)
    requires
        spec_digits_ok(s),
    ensures
        0 <= spec_index_arr_to_id(s) < spec_fact(s.len() as nat),
    decreases s.len(),
{
    lemma_index_arr_to_id_nonneg(s);
    if s.len() > 0 {
        let n = s.len() as int;
        let t = s.drop_first();
        let f = spec_fact((n - 1) as nat) as int;
        assert forall|i: int| 0 <= i < t.len() implies (#[trigger] t[i]) < t.len() - i by {
            assert(t[i] == s[i + 1]);
        }
        lemma_index_arr_to_id_bound(t);
        lemma_mul_inequality(s[0] as int, n - 1, f);
        assert((n - 1) * f + f == n * f) by (nonlinear_arith);
    }
}

/// Factorial-base evaluation is injective on valid index arrays: two
/// valid arrays of the same length with the same value are equal.
pub proof fn lemma_index_arr_to_id_injective(s1: Seq<u32>, s2: Seq<u32>)
    requires
        s1.len() == s2.len(),
        spec_digits_ok(s1),
        spec_digits_ok(s2),
        spec_index_arr_to_id(s1) == spec_index_arr_to_id(s2),
    ensures
        s1 == s2,
    decreases s1.len(),
{
    if s1.len() == 0 {
        assert(s1 =~= s2);
    } else {
        let n = s1.len() as int;
        let f = spec_fact((n - 1) as nat) as int;
        let t1 = s1.drop_first();
        let t2 = s2.drop_first();
        assert forall|i: int| 0 <= i < t1.len() implies (#[trigger] t1[i]) < t1.len() - i by {
            assert(t1[i] == s1[i + 1]);
        }
        assert forall|i: int| 0 <= i < t2.len() implies (#[trigger] t2[i]) < t2.len() - i by {
            assert(t2[i] == s2[i + 1]);
        }
        lemma_index_arr_to_id_bound(t1);
        lemma_index_arr_to_id_bound(t2);
        lemma_fact_pos((n - 1) as nat);
        let v = spec_index_arr_to_id(s1);
        // The leading digit is the quotient of the value by (n-1)!, so
        // equal values force equal leading digits and equal remainders.
        vstd::arithmetic::div_mod::lemma_fundamental_div_mod_converse(
            v,
            f,
            s1[0] as int,
            spec_index_arr_to_id(t1),
        );
        vstd::arithmetic::div_mod::lemma_fundamental_div_mod_converse(
            v,
            f,
            s2[0] as int,
            spec_index_arr_to_id(t2),
        );
        assert(s1[0] == s2[0]);
        lemma_index_arr_to_id_injective(t1, t2);
        assert forall|i: int| 0 <= i < s1.len() implies s1[i] == s2[i] by {
            if i > 0 {
                assert(s1[i] == t1[i - 1]);
                assert(s2[i] == t2[i - 1]);
            }
        }
        assert(s1 =~= s2);
    }
}

/// Base-3 evaluation is injective on digit arrays of a fixed width.
pub proof fn lemma_base3_eval_injective(s1: Seq<u32>, s2: Seq<u32>)
    requires
        s1.len() == s2.len(),
        forall|i: int| 0 <= i < s1.len() ==> (#[trigger] s1[i]) < 3,
        forall|i: int| 0 <= i < s2.len() ==> (#[trigger] s2[i]) < 3,
        spec_base3_eval(s1) == spec_base3_eval(s2),
    ensures
        s1 == s2,
    decreases s1.len(),
{
    if s1.len() == 0 {
        assert(s1 =~= s2);
    } else {
        let n = s1.len() as int;
        let p = spec_pow3((n - 1) as nat) as int;
        let t1 = s1.drop_first();
        let t2 = s2.drop_first();
        assert forall|i: int| 0 <= i < t1.len() implies (#[trigger] t1[i]) < 3 by {
            assert(t1[i] == s1[i + 1]);
        }
        assert forall|i: int| 0 <= i < t2.len() implies (#[trigger] t2[i]) < 3 by {
            assert(t2[i] == s2[i + 1]);
        }
        lemma_base3_eval_bound(t1);
        lemma_base3_eval_bound(t2);
        lemma_pow3_pos((n - 1) as nat);
        let v = spec_base3_eval(s1);
        vstd::arithmetic::div_mod::lemma_fundamental_div_mod_converse(
            v,
            p,
            s1[0] as int,
            spec_base3_eval(t1),
        );
        vstd::arithmetic::div_mod::lemma_fundamental_div_mod_converse(
            v,
            p,
            s2[0] as int,
            spec_base3_eval(t2),
        );
        assert(s1[0] == s2[0]);
        lemma_base3_eval_injective(t1, t2);
        assert forall|i: int| 0 <= i < s1.len() implies s1[i] == s2[i] by {
            if i > 0 {
                assert(s1[i] == t1[i - 1]);
                assert(s2[i] == t2[i - 1]);
            }
        }
        assert(s1 =~= s2);
    }
}

/// The digits produced by repeated division with increasing radices
/// `mul, mul + 1, ..., len`, least-significant first; mirrors the
/// computation of [`id_to_index_arr`] before its final reversal.
pub open spec fn spec_digits_from(id: int, mul: nat, len: nat) -> Seq<u32>
    decreases len + 1 - mul,
{
    if mul > len {
        Seq::empty()
    } else {
        seq![(id % (mul as int)) as u32] + spec_digits_from(id / (mul as int), mul + 1, len)
    }
}

/// The inverse of [`spec_index_arr_to_id`]: the factorial-base digits of
/// `id`, most-significant first, zero-padded to width `len`.
pub open spec fn spec_id_to_index_arr(id: int, len: nat) -> Seq<u32> {
    spec_digits_from(id, 1, len).reverse()
}

/// Least-significant-first evaluation, where the first element has radix
/// `mul` and hence place value `(mul - 1)!`.
pub open spec fn spec_eval_lsb(s: Seq<u32>, mul: nat) -> int
    decreases s.len(),
{
    if s.len() == 0 {
        0
    } else {
        s[0] * spec_fact((mul - 1) as nat) + spec_eval_lsb(s.drop_first(), mul + 1)
    }
}

proof fn lemma_eval_lsb_drop_last(s: Seq<u32>, mul: nat)
    requires
        s.len() >= 1,
        mul >= 1,
    ensures
        spec_eval_lsb(s, mul) == spec_eval_lsb(s.drop_last(), mul) + s.last() * spec_fact(
            (mul + s.len() - 2) as nat,
        ),
    decreases s.len(),
{
    if s.len() == 1 {
        assert(s.drop_last() =~= Seq::<u32>::empty());
        assert(s[0] == s.last());
        assert(s.drop_first() =~= Seq::<u32>::empty());
        assert(spec_eval_lsb(Seq::<u32>::empty(), mul + 1) == 0);
        assert(spec_eval_lsb(s, mul) == s[0] * spec_fact((mul - 1) as nat));
        assert(spec_eval_lsb(s.drop_last(), mul) == 0);
    } else {
        let t = s.drop_first();
        lemma_eval_lsb_drop_last(t, mul + 1);
        assert(t.drop_last() =~= s.drop_last().drop_first());
        assert(t.last() == s.last());
        assert(s.drop_last()[0] == s[0]);
        assert(s.drop_last().len() == s.len() - 1);
        assert(spec_eval_lsb(s, mul) == s[0] * spec_fact((mul - 1) as nat) + spec_eval_lsb(
            t,
            mul + 1,
        ));
        assert(spec_eval_lsb(s.drop_last(), mul) == s[0] * spec_fact((mul - 1) as nat)
            + spec_eval_lsb(s.drop_last().drop_first(), mul + 1));
        assert((mul + 1 + t.len() - 2) as nat == (mul + s.len() - 2) as nat);
    }
}

proof fn lemma_eval_reverse(s: Seq<u32>)
    ensures
        spec_index_arr_to_id(s.reverse()) == spec_eval_lsb(s, 1),
    decreases s.len(),
{
    if s.len() == 0 {
        assert(s.reverse() =~= Seq::<u32>::empty());
    } else {
        let t = s.drop_last();
        lemma_eval_reverse(t);
        lemma_eval_lsb_drop_last(s, 1);
        assert(s.reverse().drop_first() =~= t.reverse());
        assert(s.reverse()[0] == s.last());
        assert(s.reverse().len() == s.len());
    }
}

proof fn lemma_digits_from_eval(id: int, mul: nat, len: nat)
    requires
        1 <= mul,
        mul <= len + 1,
        len <= 12,
        0 <= id,
        id * spec_fact((mul - 1) as nat) < spec_fact(len),
    ensures
        spec_eval_lsb(spec_digits_from(id, mul, len), mul) == id * spec_fact((mul - 1) as nat),
    decreases len + 1 - mul,
{
    let f = spec_fact((mul - 1) as nat) as int;
    lemma_fact_pos((mul - 1) as nat);
    if mul > len {
        // Here mul == len + 1, so the digit list is empty and the bound
        // forces id == 0.
        lemma_fact_monotonic(len, (mul - 1) as nat);
        if id >= 1 {
            lemma_mul_increases(id, f);
            assert(false);
        }
        assert(id * f == 0) by (nonlinear_arith)
            requires id == 0;
    } else {
        let m = mul as int;
        let d = id % m;
        let q = id / m;
        lemma_fundamental_div_mod(id, m);
        assert(0 <= d < m);
        assert(0 <= q) by (nonlinear_arith)
            requires id == m * q + d, 0 <= id, 0 <= d < m, 1 <= m;
        let digits = spec_digits_from(id, mul, len);
        let rest = spec_digits_from(q, mul + 1, len);
        assert(digits.drop_first() =~= rest);
        assert(d < 13);
        assert(digits[0] == d as u32);
        assert((d as u32) as int == d);
        // (mul)! == mul * (mul - 1)! and q * mul <= id give the bound
        // needed for the recursive call.
        assert(spec_fact(mul) == mul * spec_fact((mul - 1) as nat));
        assert(q * spec_fact(mul) <= id * f) by (nonlinear_arith)
            requires
                id == m * q + d,
                0 <= d,
                0 <= q,
                1 <= f,
                mul == m,
                spec_fact(mul) == m * f;
        lemma_digits_from_eval(q, mul + 1, len);
        assert(d * f + q * spec_fact(mul) == id * f) by (nonlinear_arith)
            requires
                id == m * q + d,
                mul == m,
                spec_fact(mul) == m * f;
        assert(spec_eval_lsb(digits, mul) == d * f + spec_eval_lsb(rest, mul + 1));
    }
}

proof fn lemma_digits_from_props(id: int, mul: nat, len: nat)
    requires
        1 <= mul,
        0 <= id,
        len <= 12,
    ensures
        spec_digits_from(id, mul, len).len() == if mul <= len {
            len + 1 - mul
        } else {
            0
        },
        forall|j: int|
            0 <= j < spec_digits_from(id, mul, len).len() ==> (#[trigger] spec_digits_from(
                id,
                mul,
                len,
            )[j]) < mul + j,
    decreases len + 1 - mul,
{
    if mul <= len {
        let m = mul as int;
        lemma_fundamental_div_mod(id, m);
        assert(0 <= id / m) by (nonlinear_arith)
            requires id == m * (id / m) + id % m, 0 <= id, 0 <= id % m < m, 1 <= m;
        lemma_digits_from_props(id / m, mul + 1, len);
        let digits = spec_digits_from(id, mul, len);
        let rest = spec_digits_from(id / m, mul + 1, len);
        assert forall|j: int| 0 <= j < digits.len() implies (#[trigger] digits[j]) < mul + j by {
            if j > 0 {
                assert(digits[j] == rest[j - 1]);
            } else {
                assert(0 <= id % m < m);
                assert(digits[0] == (id % m) as u32);
                assert(((id % m) as u32) as int == id % m);
            }
        }
    }
}

/// The factorial-base digits of any `id` in `[0, len!)` form a valid index
/// array of length `len` that evaluates back to `id`.
pub proof fn lemma_id_to_index_arr_props(id: int, len: nat)
    requires
        0 <= id < spec_fact(len),
        len <= 12,
    ensures
        spec_id_to_index_arr(id, len).len() == len,
        spec_digits_ok(spec_id_to_index_arr(id, len)),
        spec_index_arr_to_id(spec_id_to_index_arr(id, len)) == id,
{
    let digits = spec_digits_from(id, 1, len);
    let arr = spec_id_to_index_arr(id, len);
    lemma_digits_from_props(id, 1, len);
    assert(arr.len() == len);
    assert forall|i: int| 0 <= i < arr.len() implies (#[trigger] arr[i]) < arr.len() - i by {
        assert(arr[i] == digits[len - 1 - i]);
        assert(digits[len - 1 - i] < 1 + (len - 1 - i));
    }
    assert(id * spec_fact(0) == id) by (nonlinear_arith)
        requires spec_fact(0) == 1;
    lemma_digits_from_eval(id, 1, len);
    lemma_eval_reverse(digits);
}

/// Evaluates a factorial-base index array: digits are combined with
/// descending place values `(n-1)!, (n-2)!, ..., 0!` for an array of
/// length `n`.
pub fn index_arr_to_id(index_arr: &Vec<u32>) -> (id: u32)
    requires
        index_arr@.len() <= 12,
        spec_digits_ok(index_arr@),
    ensures
        id == spec_index_arr_to_id(index_arr@),
        0 <= id < spec_fact(index_arr@.len() as nat),
{
    proof {
        lemma_index_arr_to_id_bound(index_arr@);
        lemma_fact_monotonic(index_arr@.len() as nat, 12);
        lemma_fact_12();
    }
    let ghost s = index_arr@;
    let n = index_arr.len();
    let mut sum: u32 = 0;
    let mut mul: u32 = n as u32;
    let mut i: usize = 0;
    proof {
        assert(s.skip(0) =~= s);
        assert(0 * spec_fact((n - 0) as nat) == 0) by (nonlinear_arith);
    }
    while i < n
        invariant
            i <= n,
            n == s.len(),
            n <= 12,
            s == index_arr@,
            spec_digits_ok(s),
            mul == n - i,
            spec_index_arr_to_id(s) < spec_fact(n as nat),
            spec_fact(n as nat) <= 479001600,
            spec_index_arr_to_id(s) == sum * spec_fact((n - i) as nat) + spec_index_arr_to_id(
                s.skip(i as int),
            ),
        decreases n - i,
    {
        proof {
            let rest = s.skip(i as int);
            assert(rest.drop_first() =~= s.skip(i as int + 1));
            assert(rest[0] == s[i as int]);
            assert(rest.len() == n - i);
            lemma_index_arr_to_id_nonneg(s.skip(i as int + 1));
            lemma_index_arr_to_id_nonneg(rest);
            lemma_index_arr_to_id_bound(s);
            lemma_fact_pos((n - i - 1) as nat);
            // rest evaluates with leading place value (n - i - 1)!.
            assert(spec_index_arr_to_id(rest) == s[i as int] * spec_fact((n - i - 1) as nat)
                + spec_index_arr_to_id(s.skip(i as int + 1)));
            assert(spec_fact((n - i) as nat) == (n - i) * spec_fact((n - i - 1) as nat));
            // The updated accumulator keeps the loop invariant and stays
            // below n!.
            assert((sum * (n - i) + s[i as int]) * spec_fact((n - i - 1) as nat) == sum
                * spec_fact((n - i) as nat) + s[i as int] * spec_fact((n - i - 1) as nat))
                by (nonlinear_arith)
                requires spec_fact((n - i) as nat) == (n - i) * spec_fact((n - i - 1) as nat);
            assert((sum * (n - i) + s[i as int]) * spec_fact((n - i - 1) as nat)
                <= spec_index_arr_to_id(s)) by (nonlinear_arith)
                requires
                    (sum * (n - i) + s[i as int]) * spec_fact((n - i - 1) as nat) == sum
                        * spec_fact((n - i) as nat) + s[i as int] * spec_fact((n - i - 1) as nat),
                    spec_index_arr_to_id(s) == sum * spec_fact((n - i) as nat)
                        + spec_index_arr_to_id(s.skip(i as int)),
                    spec_index_arr_to_id(s.skip(i as int)) == s[i as int] * spec_fact(
                        (n - i - 1) as nat,
                    ) + spec_index_arr_to_id(s.skip(i as int + 1)),
                    spec_index_arr_to_id(s.skip(i as int + 1)) >= 0;
            assert(sum * (n - i) + s[i as int] <= (sum * (n - i) + s[i as int]) * spec_fact(
                (n - i - 1) as nat,
            )) by (nonlinear_arith)
                requires
                    spec_fact((n - i - 1) as nat) >= 1,
                    sum >= 0,
                    s[i as int] >= 0,
                    i < n,
            ;
        }
        sum = sum * mul;
        sum = sum + index_arr[i];
        mul = mul - 1;
        i = i + 1;
    }
    proof {
        assert(s.skip(n as int) =~= Seq::<u32>::empty());
        assert(spec_fact((n - n) as nat) == 1);
        assert(sum * 1 == sum) by (nonlinear_arith);
    }
    sum
}

/// Decomposes `id` into its factorial-base index array of width `length`:
/// repeated remainder/quotient with radices `1, 2, ..., length`, then a
/// reversal to most-significant-first order.
pub fn id_to_index_arr(id: u32, length: u32) -> (arr: Vec<u32>)
    requires
        length <= 12,
        (id as int) < spec_fact(length as nat),
    ensures
        arr@ == spec_id_to_index_arr(id as int, length as nat),
        arr@.len() == length,
        spec_digits_ok(arr@),
        spec_index_arr_to_id(arr@) == id,
{
    proof {
        lemma_id_to_index_arr_props(id as int, length as nat);
    }
    let ghost target = spec_digits_from(id as int, 1, length as nat);
    let mut digits: Vec<u32> = Vec::new();
    let mut cur: u32 = id;
    let mut mul: u32 = 1;
    proof {
        assert(Seq::<u32>::empty() + target =~= target);
    }
    while mul <= length
        invariant
            length <= 12,
            1 <= mul <= length + 1,
            digits@.len() == mul - 1,
            digits@ + spec_digits_from(cur as int, mul as nat, length as nat) == target,
            target == spec_digits_from(id as int, 1, length as nat),
        decreases length + 1 - mul,
    {
        let rem = cur % mul;
        proof {
            let prefix = digits@;
            let m = mul as int;
            let rest = spec_digits_from(cur as int, mul as nat, length as nat);
            assert(rest == seq![((cur as int) % m) as u32] + spec_digits_from(
                (cur as int) / m,
                mul as nat + 1,
                length as nat,
            ));
            assert(rem == (cur as int) % m);
            assert((prefix + seq![rem]) + spec_digits_from(
                (cur as int) / m,
                mul as nat + 1,
                length as nat,
            ) =~= prefix + rest);
        }
        cur = cur / mul;
        digits.push(rem);
        mul = mul + 1;
    }
    proof {
        assert(spec_digits_from(cur as int, mul as nat, length as nat) =~= Seq::<u32>::empty());
        assert(digits@ + Seq::<u32>::empty() =~= digits@);
        assert(digits@ == target);
    }
    let n = digits.len();
    let mut arr: Vec<u32> = Vec::new();
    let mut i: usize = 0;
    while i < n
        invariant
            i <= n,
            n == digits@.len(),
            arr@.len() == i,
            forall|k: int| 0 <= k < i ==> arr@[k] == digits@[n - 1 - k],
        decreases n - i,
    {
        arr.push(digits[n - 1 - i]);
        i = i + 1;
    }
    proof {
        assert(arr@ =~= digits@.reverse());
    }
    arr
}

/// `3^n`.
pub open spec fn spec_pow3(n: nat) -> nat
    decreases n,
{
    if n == 0 {
        1
    } else {
        3 * spec_pow3((n - 1) as nat)
    }
}

pub proof fn lemma_pow3_pos(n: nat)
    ensures
        spec_pow3(n) >= 1,
    decreases n,
{
    if n > 0 {
        lemma_pow3_pos((n - 1) as nat);
    }
}

pub proof fn lemma_pow3_6()
    ensures
        spec_pow3(6) == 729,
{
    assert(spec_pow3(0) == 1);
    assert(spec_pow3(1) == 3);
    assert(spec_pow3(2) == 9);
    assert(spec_pow3(3) == 27);
    assert(spec_pow3(4) == 81);
    assert(spec_pow3(5) == 243);
    assert(spec_pow3(6) == 729);
}

/// The base-3 digits of `id`, least-significant first, truncated or
/// zero-padded to width `k`; mirrors the computation of
/// [`smushed_to_array`] before its final reversal.
pub open spec fn spec_base3_from(id: int, k: nat) -> Seq<u32>
    decreases k,
{
    if k == 0 {
        Seq::empty()
    } else {
        seq![(id % 3) as u32] + spec_base3_from(id / 3, (k - 1) as nat)
    }
}

/// The base-3 digits of `id`, most-significant first, zero-padded on the
/// most-significant side to width `k`.
pub open spec fn spec_smushed_to_array(id: int, k: nat) -> Seq<u32> {
    spec_base3_from(id, k).reverse()
}

/// Fixed-width base-3 evaluation: the digit at position `i` of an array
/// of length `n` has place value `3^(n - 1 - i)`.
pub open spec fn spec_base3_eval(s: Seq<u32>) -> int
    decreases s.len(),
{
    if s.len() == 0 {
        0
    } else {
        s[0] * spec_pow3((s.len() - 1) as nat) + spec_base3_eval(s.drop_first())
    }
}

pub proof fn lemma_base3_eval_nonneg(s: Seq<u32>)
    ensures
        spec_base3_eval(s) >= 0,
    decreases s.len(),
{
    if s.len() > 0 {
        lemma_base3_eval_nonneg(s.drop_first());
        lemma_mul_nonnegative(s[0] as int, spec_pow3((s.len() - 1) as nat) as int);
    }
}

pub proof fn lemma_base3_eval_bound(s: Seq<u32>)
    requires
        forall|i: int| 0 <= i < s.len() ==> (#[trigger] s[i]) < 3,
    ensures
        0 <= spec_base3_eval(s) < spec_pow3(s.len() as nat),
    decreases s.len(),
{
    lemma_base3_eval_nonneg(s);
    if s.len() > 0 {
        let t = s.drop_first();
        let p = spec_pow3((s.len() - 1) as nat) as int;
        assert forall|i: int| 0 <= i < t.len() implies (#[trigger] t[i]) < 3 by {
            assert(t[i] == s[i + 1]);
        }
        lemma_base3_eval_bound(t);
        lemma_mul_inequality(s[0] as int, 2, p);
        assert(2 * p + p == 3 * p) by (nonlinear_arith);
    }
}

proof fn lemma_eval3_lsb_drop_last(s: Seq<u32>, e: nat)
    requires
        s.len() >= 1,
    ensures
        spec_eval3_lsb(s, e) == spec_eval3_lsb(s.drop_last(), e) + s.last() * spec_pow3(
            (e + s.len() - 1) as nat,
        ),
    decreases s.len(),
{
    if s.len() == 1 {
        assert(s.drop_last() =~= Seq::<u32>::empty());
        assert(s.drop_first() =~= Seq::<u32>::empty());
        assert(s[0] == s.last());
        assert(spec_eval3_lsb(Seq::<u32>::empty(), e + 1) == 0);
        assert(spec_eval3_lsb(s, e) == s[0] * spec_pow3(e));
        assert(spec_eval3_lsb(s.drop_last(), e) == 0);
    } else {
        let t = s.drop_first();
        lemma_eval3_lsb_drop_last(t, e + 1);
        assert(t.drop_last() =~= s.drop_last().drop_first());
        assert(t.last() == s.last());
        assert(s.drop_last()[0] == s[0]);
        assert(s.drop_last().len() == s.len() - 1);
        assert(spec_eval3_lsb(s, e) == s[0] * spec_pow3(e) + spec_eval3_lsb(t, e + 1));
        assert(spec_eval3_lsb(s.drop_last(), e) == s[0] * spec_pow3(e) + spec_eval3_lsb(
            s.drop_last().drop_first(),
            e + 1,
        ));
        assert((e + 1 + t.len() - 1) as nat == (e + s.len() - 1) as nat);
    }
}

/// Least-significant-first base-3 evaluation, where the first element has
/// place value `3^e`.
pub open spec fn spec_eval3_lsb(s: Seq<u32>, e: nat) -> int
    decreases s.len(),
{
    if s.len() == 0 {
        0
    } else {
        s[0] * spec_pow3(e) + spec_eval3_lsb(s.drop_first(), e + 1)
    }
}

proof fn lemma_eval3_reverse(s: Seq<u32>)
    ensures
        spec_base3_eval(s.reverse()) == spec_eval3_lsb(s, 0),
    decreases s.len(),
{
    if s.len() == 0 {
        assert(s.reverse() =~= Seq::<u32>::empty());
    } else {
        let t = s.drop_last();
        lemma_eval3_reverse(t);
        lemma_eval3_lsb_drop_last(s, 0);
        assert(s.reverse().drop_first() =~= t.reverse());
        assert(s.reverse()[0] == s.last());
        assert(s.reverse().len() == s.len());
    }
}

proof fn lemma_base3_from_eval(id: int, e: nat, k: nat)
    requires
        0 <= id < spec_pow3(k),
    ensures
        spec_eval3_lsb(spec_base3_from(id, k), e) == id * spec_pow3(e),
    decreases k,
{
    lemma_pow3_pos(e);
    let p = spec_pow3(e) as int;
    if k == 0 {
        assert(id == 0);
        assert(id * p == 0) by (nonlinear_arith)
            requires id == 0;
    } else {
        let d = id % 3;
        let q = id / 3;
        lemma_fundamental_div_mod(id, 3);
        assert(0 <= d < 3);
        assert(0 <= q) by (nonlinear_arith)
            requires id == 3 * q + d, 0 <= id, 0 <= d < 3;
        assert(q < spec_pow3((k - 1) as nat)) by (nonlinear_arith)
            requires
                id == 3 * q + d,
                0 <= d < 3,
                0 <= q,
                id < spec_pow3(k),
                spec_pow3(k) == 3 * spec_pow3((k - 1) as nat);
        lemma_base3_from_eval(q, e + 1, (k - 1) as nat);
        let digits = spec_base3_from(id, k);
        let rest = spec_base3_from(q, (k - 1) as nat);
        assert(digits.drop_first() =~= rest);
        assert(digits[0] == d as u32);
        assert((d as u32) as int == d);
        assert(spec_eval3_lsb(digits, e) == d * p + spec_eval3_lsb(rest, e + 1));
        assert(d * p + q * spec_pow3(e + 1) == id * p) by (nonlinear_arith)
            requires
                id == 3 * q + d,
                spec_pow3(e + 1) == 3 * spec_pow3(e),
                p == spec_pow3(e);
    }
}

proof fn lemma_base3_from_props(id: int, k: nat)
    requires
        0 <= id,
    ensures
        spec_base3_from(id, k).len() == k,
        forall|j: int| 0 <= j < k ==> (#[trigger] spec_base3_from(id, k)[j]) < 3,
    decreases k,
{
    if k > 0 {
        lemma_fundamental_div_mod(id, 3);
        assert(0 <= id / 3) by (nonlinear_arith)
            requires id == 3 * (id / 3) + id % 3, 0 <= id, 0 <= id % 3 < 3;
        lemma_base3_from_props(id / 3, (k - 1) as nat);
        let digits = spec_base3_from(id, k);
        let rest = spec_base3_from(id / 3, (k - 1) as nat);
        assert forall|j: int| 0 <= j < k implies (#[trigger] digits[j]) < 3 by {
            if j > 0 {
                assert(digits[j] == rest[j - 1]);
            } else {
                assert(digits[0] == (id % 3) as u32);
            }
        }
    }
}

/// The fixed-width base-3 digits of any `id` in `[0, 3^k)` are digits in
/// `[0, 3)` that evaluate back to `id`.
pub proof fn lemma_smushed_round_trip(id: int, k: nat)
    requires
        0 <= id < spec_pow3(k),
    ensures
        spec_smushed_to_array(id, k).len() == k,
        forall|j: int| 0 <= j < k ==> (#[trigger] spec_smushed_to_array(id, k)[j]) < 3,
        spec_base3_eval(spec_smushed_to_array(id, k)) == id,
{
    let digits = spec_base3_from(id, k);
    let arr = spec_smushed_to_array(id, k);
    lemma_base3_from_props(id, k);
    assert forall|j: int| 0 <= j < k implies (#[trigger] arr[j]) < 3 by {
        assert(arr[j] == digits[k - 1 - j]);
    }
    assert(id * spec_pow3(0) == id) by (nonlinear_arith)
        requires spec_pow3(0) == 1;
    lemma_base3_from_eval(id, 0, k);
    lemma_eval3_reverse(digits);
}

/// Unpacks `id` into `count` base-3 digits, most-significant first,
/// zero-padded on the most-significant side; digits beyond the width are
/// discarded.
pub fn smushed_to_array(id: u32, count: usize) -> (arr: Vec<u32>)
    ensures
        arr@ == spec_smushed_to_array(id as int, count as nat),
        arr@.len() == count,
        forall|j: int| 0 <= j < count ==> (#[trigger] arr@[j]) < 3,
{
    proof {
        lemma_base3_from_props(id as int, count as nat);
    }
    let ghost target = spec_base3_from(id as int, count as nat);
    let mut digits: Vec<u32> = Vec::new();
    let mut cur: u32 = id;
    let mut i: usize = 0;
    proof {
        assert(Seq::<u32>::empty() + target =~= target);
    }
    while i < count
        invariant
            i <= count,
            digits@.len() == i,
            digits@ + spec_base3_from(cur as int, (count - i) as nat) == target,
            target == spec_base3_from(id as int, count as nat),
        decreases count - i,
    {
        let rem = cur % 3;
        proof {
            let prefix = digits@;
            let rest = spec_base3_from(cur as int, (count - i) as nat);
            assert(rest == seq![((cur as int) % 3) as u32] + spec_base3_from(
                (cur as int) / 3,
                (count - i - 1) as nat,
            ));
            assert(rem == (cur as int) % 3);
            assert((prefix + seq![rem]) + spec_base3_from(
                (cur as int) / 3,
                (count - i - 1) as nat,
            ) =~= prefix + rest);
        }
        cur = cur / 3;
        digits.push(rem);
        i = i + 1;
    }
    proof {
        assert(spec_base3_from(cur as int, (count - count) as nat) =~= Seq::<u32>::empty());
        assert(digits@ + Seq::<u32>::empty() =~= digits@);
        assert(digits@ == target);
    }
    let n = digits.len();
    let mut arr: Vec<u32> = Vec::new();
    let mut j: usize = 0;
    while j < n
        invariant
            j <= n,
            n == digits@.len(),
            arr@.len() == j,
            forall|k: int| 0 <= k < j ==> arr@[k] == digits@[n - 1 - k],
        decreases n - j,
    {
        arr.push(digits[n - 1 - j]);
        j = j + 1;
    }
    proof {
        assert(arr@ =~= digits@.reverse());
        assert forall|k: int| 0 <= k < count implies (#[trigger] arr@[k]) < 3 by {
            assert(arr@[k] == target[count - 1 - k]);
        }
    }
    arr
}

/// Index of the first occurrence of `x` in `s` (equal to `s.len()` when
/// `x` does not occur).
pub open spec fn spec_find(s: Seq<u32>, x: u32) -> int
    decreases s.len(),
{
    if s.len() == 0 {
        0
    } else if s[0] == x {
        0
    } else {
        1 + spec_find(s.drop_first(), x)
    }
}

proof fn lemma_find_props(s: Seq<u32>, x: u32)
    requires
        s.contains(x),
    ensures
        0 <= spec_find(s, x) < s.len(),
        s[spec_find(s, x)] == x,
        forall|k: int| 0 <= k < spec_find(s, x) ==> s[k] != x,
    decreases s.len(),
{
    if s[0] != x {
        let t = s.drop_first();
        assert(t.contains(x)) by {
            let ghost w = choose|w: int| 0 <= w < s.len() && s[w] == x;
            assert(t[w - 1] == x);
        }
        lemma_find_props(t, x);
        assert forall|k: int| 0 <= k < spec_find(s, x) implies s[k] != x by {
            if k > 0 {
                assert(t[k - 1] == s[k]);
            }
        }
    }
}

proof fn lemma_find_unique(s: Seq<u32>, x: u32, i: int)
    requires
        0 <= i < s.len(),
        s[i] == x,
        forall|k: int| 0 <= k < i ==> s[k] != x,
    ensures
        spec_find(s, x) == i,
    decreases s.len(),
{
    if s[0] == x {
        assert(i == 0);
    } else {
        let t = s.drop_first();
        assert(t[i - 1] == x);
        assert forall|k: int| 0 <= k < i - 1 implies t[k] != x by {
            assert(t[k] == s[k + 1]);
        }
        lemma_find_unique(t, x, i - 1);
    }
}

/// The rank of the arrangement `perm` against the arrangement `ident`:
/// for each element of `perm` in turn, the index where it stands in a
/// shrinking copy of `ident` from which found elements are removed.
pub open spec fn spec_rank(ident: Seq<u32>, perm: Seq<u32>) -> Seq<u32>
    decreases perm.len(),
{
    if perm.len() == 0 {
        Seq::empty()
    } else {
        let i = spec_find(ident, perm[0]);
        seq![i as u32] + spec_rank(ident.remove(i), perm.drop_first())
    }
}

/// The inverse of [`spec_rank`]: processes the index array from its last
/// element backward, inserting each element of `ident` at the decoded
/// index into a growing result.
pub open spec fn spec_unrank(ident: Seq<u32>, idx: Seq<u32>) -> Seq<u32>
    decreases ident.len(),
{
    if ident.len() == 0 {
        Seq::empty()
    } else {
        spec_unrank(ident.drop_first(), idx.drop_first()).insert(idx[0] as int, ident[0])
    }
}

/// Unranking any valid index array over `ident` rearranges exactly the
/// elements of `ident`.
pub proof fn lemma_unrank_multiset(ident: Seq<u32>, idx: Seq<u32>)
    requires
        idx.len() == ident.len(),
        spec_digits_ok(idx),
    ensures
        spec_unrank(ident, idx).len() == ident.len(),
        spec_unrank(ident, idx).to_multiset() == ident.to_multiset(),
    decreases ident.len(),
{
    broadcast use vstd::seq_lib::group_to_multiset_ensures;
    broadcast use vstd::multiset::group_multiset_axioms;

    if ident.len() > 0 {
        let ti = ident.drop_first();
        let tx = idx.drop_first();
        assert forall|k: int| 0 <= k < tx.len() implies (#[trigger] tx[k]) < tx.len() - k by {
            assert(tx[k] == idx[k + 1]);
        }
        lemma_unrank_multiset(ti, tx);
        let u = spec_unrank(ti, tx);
        let i0 = idx[0] as int;
        assert(0 <= i0 <= u.len());
        assert(u.insert(i0, ident[0]).to_multiset() == u.to_multiset().insert(ident[0]));
        assert(ident.remove(0) =~= ti);
        assert(ident.remove(0).to_multiset() == ident.to_multiset().remove(ident[0]));
        assert(ident.to_multiset().contains(ident[0]));
        assert(ti.to_multiset().insert(ident[0]) =~= ident.to_multiset());
    }
}

/// Ranking the result of unranking a valid index array gives back exactly
/// that index array.
pub proof fn lemma_rank_unrank(ident: Seq<u32>, idx: Seq<u32>)
    requires
        idx.len() == ident.len(),
        ident.len() <= 12,
        ident.no_duplicates(),
        spec_digits_ok(idx),
    ensures
        spec_rank(spec_unrank(ident, idx), ident) == idx,
    decreases ident.len(),
{
    broadcast use vstd::seq_lib::group_to_multiset_ensures;
    broadcast use vstd::multiset::group_multiset_axioms;

    if ident.len() > 0 {
        let x = ident[0];
        let ti = ident.drop_first();
        let tx = idx.drop_first();
        let i0 = idx[0] as int;
        assert forall|k: int| 0 <= k < tx.len() implies (#[trigger] tx[k]) < tx.len() - k by {
            assert(tx[k] == idx[k + 1]);
        }
        assert(ti.no_duplicates()) by {
            assert(forall|p: int, q: int|
                0 <= p < q < ti.len() ==> ti[p] == ident[p + 1] && ti[q] == ident[q + 1]);
        }
        lemma_unrank_multiset(ti, tx);
        let u1 = spec_unrank(ti, tx);
        let u = spec_unrank(ident, idx);
        assert(u == u1.insert(i0, x));
        assert(0 <= i0 <= u1.len());
        u1.insert_ensures(i0, x);
        assert(u[i0] == x);
        // x does not occur in u1: u1 rearranges ident's tail, which by
        // distinctness does not contain ident[0].
        assert(!ti.contains(x)) by {
            assert(forall|k: int| 0 <= k < ti.len() ==> ti[k] == ident[k + 1]);
        }
        assert(!u1.contains(x)) by {
            assert(ti.contains(x) <==> ti.to_multiset().count(x) > 0);
            assert(u1.contains(x) <==> u1.to_multiset().count(x) > 0);
        }
        assert forall|k: int| 0 <= k < i0 implies u[k] != x by {
            assert(u[k] == u1[k]);
            assert(u1.contains(u1[k]));
        }
        lemma_find_unique(u, x, i0);
        assert(u.remove(i0) =~= u1);
        lemma_rank_unrank(ti, tx);
        assert(spec_rank(u, ident) == seq![idx[0]] + spec_rank(u1, ti));
        assert(seq![idx[0]] + tx =~= idx);
    }
}

/// Unranking the rank of any arrangement of `ident`'s elements gives back
/// that arrangement, and the rank is a valid index array.
pub proof fn lemma_unrank_rank(ident: Seq<u32>, perm: Seq<u32>)
    requires
        ident.no_duplicates(),
        ident.len() <= 12,
        perm.to_multiset() == ident.to_multiset(),
    ensures
        spec_rank(perm, ident).len() == ident.len(),
        spec_digits_ok(spec_rank(perm, ident)),
        spec_unrank(ident, spec_rank(perm, ident)) == perm,
    decreases ident.len(),
{
    broadcast use vstd::seq_lib::group_to_multiset_ensures;
    broadcast use vstd::multiset::group_multiset_axioms;

    assert(perm.len() == ident.len()) by {
        assert(perm.len() == perm.to_multiset().len());
        assert(ident.len() == ident.to_multiset().len());
    }
    if ident.len() > 0 {
        let x = ident[0];
        let ti = ident.drop_first();
        assert(ident.contains(x));
        assert(perm.to_multiset().contains(x));
        assert(perm.contains(x));
        lemma_find_props(perm, x);
        let i0 = spec_find(perm, x);
        let rest = perm.remove(i0);
        assert(ti.no_duplicates()) by {
            assert(forall|p: int, q: int|
                0 <= p < q < ti.len() ==> ti[p] == ident[p + 1] && ti[q] == ident[q + 1]);
        }
        assert(!ti.contains(x)) by {
            assert(forall|k: int| 0 <= k < ti.len() ==> ti[k] == ident[k + 1]);
        }
        assert(rest.to_multiset() == perm.to_multiset().remove(x));
        assert(ident.remove(0) =~= ti);
        assert(ti.to_multiset() == ident.to_multiset().remove(x));
        lemma_unrank_rank(ti, rest);
        let r = spec_rank(perm, ident);
        let tr = spec_rank(rest, ti);
        assert(r == seq![i0 as u32] + tr);
        assert(r.len() == ident.len());
        assert forall|j: int| 0 <= j < r.len() implies (#[trigger] r[j]) < r.len() - j by {
            if j == 0 {
                assert(r[0] == i0 as u32);
            } else {
                assert(r[j] == tr[j - 1]);
            }
        }
        assert(r.drop_first() =~= tr);
        assert(r[0] == i0 as u32);
        assert((i0 as u32) as int == i0);
        let u = spec_unrank(ident, r);
        assert(u == spec_unrank(ti, tr).insert(i0, x));
        assert(u == rest.insert(i0, x));
        assert(rest.insert(i0, x) =~= perm);
    } else {
        assert(spec_rank(perm, ident) =~= Seq::<u32>::empty());
        assert(spec_unrank(ident, Seq::<u32>::empty()) =~= Seq::<u32>::empty());
        assert(perm =~= Seq::<u32>::empty());
    }
}

/// Finds the first index of `x` in `v`.
fn find_index(v: &Vec<u32>, x: u32) -> (idx: usize)
    requires
        v@.contains(x),
    ensures
        idx < v@.len(),
        v@[idx as int] == x,
        idx == spec_find(v@, x),
{
    let mut i: usize = 0;
    while i < v.len()
        invariant
            i <= v@.len(),
            v@.contains(x),
            forall|k: int| 0 <= k < i ==> v@[k] != x,
        decreases v@.len() - i,
    {
        if v[i] == x {
            proof {
                lemma_find_unique(v@, x, i as int);
            }
            return i;
        }
        i = i + 1;
    }
    proof {
        let ghost w = choose|w: int| 0 <= w < v@.len() && v@[w] == x;
        assert(v@[w] != x);
        assert(false);
    }
    0
}

/// Ranks `permutated_arr` against `identity_arr`: for each element of the
/// permutated sequence, finds and removes its position in a shrinking copy
/// of the identity sequence, producing one index per element.
pub fn permutation_to_index_arr(identity_arr: &Vec<u32>, permutated_arr: &Vec<u32>) -> (index_arr:
    Vec<u32>)
    requires
        identity_arr@.to_multiset() == permutated_arr@.to_multiset(),
        identity_arr@.len() < 0x1_0000_0000,
    ensures
        index_arr@ == spec_rank(identity_arr@, permutated_arr@),
{
    broadcast use vstd::seq_lib::group_to_multiset_ensures;
    broadcast use vstd::multiset::group_multiset_axioms;

    let ghost ident0 = identity_arr@;
    let ghost perm = permutated_arr@;
    let n = permutated_arr.len();
    proof {
        assert(perm.to_multiset().len() == ident0.to_multiset().len());
        assert(perm.skip(0) =~= perm);
    }
    let mut identity_copy: Vec<u32> = Vec::new();
    let mut j: usize = 0;
    while j < identity_arr.len()
        invariant
            j <= identity_arr@.len(),
            identity_copy@ =~= identity_arr@.take(j as int),
        decreases identity_arr@.len() - j,
    {
        identity_copy.push(identity_arr[j]);
        j = j + 1;
    }
    proof {
        assert(identity_copy@ =~= ident0);
    }
    let mut index_arr: Vec<u32> = Vec::new();
    let mut i: usize = 0;
    while i < n
        invariant
            i <= n,
            n == perm.len(),
            perm == permutated_arr@,
            ident0.len() == n,
            ident0.len() < 0x1_0000_0000,
            index_arr@.len() == i,
            identity_copy@.len() == n - i,
            identity_copy@.to_multiset() == perm.skip(i as int).to_multiset(),
            spec_rank(ident0, perm) == index_arr@ + spec_rank(identity_copy@, perm.skip(i as int)),
        decreases n - i,
    {
        let x = permutated_arr[i];
        proof {
            broadcast use vstd::seq_lib::group_to_multiset_ensures;
            broadcast use vstd::multiset::group_multiset_axioms;

            let rest = perm.skip(i as int);
            assert(rest[0] == x);
            assert(rest.contains(x));
            assert(rest.contains(x) <==> rest.to_multiset().count(x) > 0);
            assert(identity_copy@.contains(x) <==> identity_copy@.to_multiset().count(x) > 0);
            assert(identity_copy@.contains(x));
        }
        let index = find_index(&identity_copy, x);
        let ghost copy_before = identity_copy@;
        identity_copy.remove(index);
        index_arr.push(index as u32);
        proof {
            broadcast use vstd::seq_lib::group_to_multiset_ensures;
            broadcast use vstd::multiset::group_multiset_axioms;

            let rest = perm.skip(i as int);
            let rest1 = perm.skip(i as int + 1);
            assert(rest.drop_first() =~= rest1);
            assert(spec_rank(copy_before, rest) == seq![(index as int) as u32] + spec_rank(
                copy_before.remove(index as int),
                rest1,
            ));
            assert((index as int) as u32 == index as u32);
            assert((index_arr@.drop_last() + seq![index as u32]) + spec_rank(
                identity_copy@,
                rest1,
            ) =~= index_arr@.drop_last() + (seq![index as u32] + spec_rank(identity_copy@, rest1)));
            assert(index_arr@.drop_last() =~= index_arr@.subrange(0, index_arr@.len() - 1));
            // The removed element matches the one consumed from `perm`,
            // so the multiset invariant carries to the next iteration.
            assert(copy_before.remove(index as int).to_multiset() == copy_before.to_multiset()
                .remove(x));
            assert(rest1.to_multiset().insert(x) =~= rest.to_multiset()) by {
                assert(rest.remove(0) =~= rest1);
                assert(rest.remove(0).to_multiset() == rest.to_multiset().remove(rest[0]));
            }
            assert(copy_before.remove(index as int).to_multiset() =~= rest1.to_multiset());
        }
        i = i + 1;
    }
    proof {
        assert(perm.skip(n as int) =~= Seq::<u32>::empty());
        assert(spec_rank(identity_copy@, Seq::<u32>::empty()) =~= Seq::<u32>::empty());
        assert(index_arr@ + Seq::<u32>::empty() =~= index_arr@);
    }
    index_arr
}

/// Rebuilds the arrangement from an index array: processes the index
/// array from its final element backward, inserting each identity element
/// at the decoded index into a growing result sequence.
pub fn index_arr_to_permutation(identity_arr: &Vec<u32>, index_arr: &Vec<u32>) -> (arr: Vec<u32>)
    requires
        index_arr@.len() == identity_arr@.len(),
        spec_digits_ok(index_arr@),
    ensures
        arr@ == spec_unrank(identity_arr@, index_arr@),
        arr@.len() == identity_arr@.len(),
{
    let ghost ident = identity_arr@;
    let ghost idx = index_arr@;
    let n = identity_arr.len();
    let mut arr: Vec<u32> = Vec::new();
    proof {
        assert(ident.skip(n as int) =~= Seq::<u32>::empty());
        assert(idx.skip(n as int) =~= Seq::<u32>::empty());
    }
    let mut i: usize = 0;
    while i < n
        invariant
            i <= n,
            n == ident.len(),
            ident == identity_arr@,
            idx == index_arr@,
            idx.len() == n,
            spec_digits_ok(idx),
            arr@.len() == i,
            arr@ == spec_unrank(ident.skip((n - i) as int), idx.skip((n - i) as int)),
        decreases n - i,
    {
        let j = n - 1 - i;
        let index = index_arr[j];
        let elm = identity_arr[j];
        proof {
            assert(idx[j as int] < idx.len() - j);
        }
        arr.insert(index as usize, elm);
        proof {
            let si = ident.skip(j as int);
            let sx = idx.skip(j as int);
            assert(si.drop_first() =~= ident.skip(j as int + 1));
            assert(sx.drop_first() =~= idx.skip(j as int + 1));
            assert(si[0] == ident[j as int]);
            assert(sx[0] == idx[j as int]);
            assert(spec_unrank(si, sx) == spec_unrank(
                ident.skip(j as int + 1),
                idx.skip(j as int + 1),
            ).insert(sx[0] as int, si[0]));
        }
        i = i + 1;
    }
    proof {
        assert(ident.skip(0) =~= ident);
        assert(idx.skip(0) =~= idx);
    }
    arr
}

} // verus!
