//! Evaluating a sequence of single operations, strictly left to right:
//! `v0 op0 v1 op1 v2 ...` with `+`, `-`, `x` (multiplication) and `/`
//! (only where the division is exact), and rendering it as text.

use crate::text::{
    chars_of, decimal, digit_value, is_digit, push_decimal, split_chars, split_on, string_of_chars,
};
use itertools::Itertools;
use vstd::prelude::*;

verus! {

pub open spec fn is_op(c: char) -> bool {
    c == '+' || c == '-' || c == 'x' || c == '/'
}

/// One step: `Some(result)`, or `None` for a division by zero or one that
/// leaves a remainder.
pub open spec fn apply_op(acc: int, op: char, v: int) -> Option<int> {
    if op == '+' {
        Some(acc + v)
    } else if op == '-' {
        Some(acc - v)
    } else if op == 'x' {
        Some(acc * v)
    } else if v == 0 || abs(acc) % abs(v) != 0 {
        None
    } else {
        Some(trunc_div(acc, v))
    }
}

pub open spec fn abs(x: int) -> nat {
    if x < 0 {
        (-x) as nat
    } else {
        x as nat
    }
}

/// Quotient rounded toward zero, as integer division does.
pub open spec fn trunc_div(a: int, v: int) -> int {
    if (a < 0) == (v < 0) {
        (abs(a) / abs(v)) as int
    } else {
        -(abs(a) / abs(v))
    }
}

/// The value after the first `k` operations, or `None` once a division
/// failed.
pub open spec fn eval_prefix(vals: Seq<int>, ops: Seq<char>, k: nat) -> Option<int>
    decreases k,
{
    if k == 0 {
        Some(vals[0])
    } else {
        match eval_prefix(vals, ops, (k - 1) as nat) {
            Some(acc) => apply_op(acc, ops[k - 1], vals[k as int]),
            None => None,
        }
    }
}

/// Inputs that evaluate without a fault: at least one value, an operation
/// for each value after the first, every operation reached is a known one
/// and every intermediate value fits in an `i32`.
pub open spec fn well_posed(vals: Seq<int>, ops: Seq<char>) -> bool {
    &&& vals.len() >= 1
    &&& ops.len() + 1 >= vals.len()
    &&& forall|k: int|
        0 <= k < vals.len() - 1 ==> (#[trigger] eval_prefix(vals, ops, k as nat) is Some
            ==> is_op(ops[k]))
    &&& forall|k: int|
        0 <= k < vals.len() ==> match #[trigger] eval_prefix(vals, ops, k as nat) {
            Some(v) => i32::MIN <= v <= i32::MAX,
            None => true,
        }
}

/// The text of the first `k` operations: `v0 op0 v1 ... v(k)`.
pub open spec fn expr_text(vals: Seq<int>, ops: Seq<char>, k: nat) -> Seq<char>
    decreases k,
{
    if k == 0 {
        decimal(vals[0])
    } else {
        expr_text(vals, ops, (k - 1) as nat) + seq![' ', ops[k - 1], ' '] + decimal(
            vals[k as int],
        )
    }
}

pub open spec fn values_of(seq: Seq<&i32>) -> Seq<int> {
    seq.map_values(|x: &i32| *x as int)
}

pub open spec fn ops_of(op: Seq<&char>) -> Seq<char> {
    op.map_values(|c: &char| *c)
}

/// Evaluates `v0 op0 v1 op1 ...` left to right. Returns `None` when a
/// division is by zero or leaves a remainder, and otherwise the value
/// together with the expression written out with single spaces.
pub fn compute_operation(str: (&Vec<&i32>, &Vec<&char>)) -> (r: Option<(i32, String)>)
    requires
        well_posed(values_of(str.0@), ops_of(str.1@)),
    ensures
        match eval_prefix(values_of(str.0@), ops_of(str.1@), (str.0@.len() - 1) as nat) {
            Some(v) => match r {
                Some((x, text)) => x == v && text@ == expr_text(
                    values_of(str.0@),
                    ops_of(str.1@),
                    (str.0@.len() - 1) as nat,
                ),
                None => false,
            },
            None => r is None,
        },
{
    let seq = str.0;
    let op = str.1;
    let ghost vals = values_of(seq@);
    let ghost ops = ops_of(op@);
    let mut init_value: i32 = *seq[0];
    let mut text: Vec<char> = Vec::new();
    push_decimal(&mut text, init_value);
    let n = seq.len();
    let mut i: usize = 1;
    while i < n
        invariant
            seq == str.0,
            op == str.1,
            n == seq@.len(),
            vals == values_of(seq@),
            ops == ops_of(op@),
            well_posed(vals, ops),
            1 <= i <= n,
            eval_prefix(vals, ops, (i - 1) as nat) == Some(init_value as int),
            text@ == expr_text(vals, ops, (i - 1) as nat),
        decreases n - i,
    {
        let o = *op[i - 1];
        let value = *seq[i];
        let ghost k = (i - 1) as int;
        assert(eval_prefix(vals, ops, k as nat) is Some);
        assert(is_op(ops[k]));
        assert(vals[i as int] == value as int);
        assert(ops[k] == o);
        let ghost ki: int = i as int;
        let ghost next = eval_prefix(vals, ops, ki as nat);
        assert(eval_prefix(vals, ops, ki as nat) == apply_op(init_value as int, o, value as int));
        if o == '/' {
            if value == 0 {
                assert(next is None);
                proof { lemma_failure_sticks(vals, ops, ki as nat, (str.0@.len() - 1) as nat); }
                return None;
            }
            let a: u64 = if init_value < 0 {
                (-(init_value as i64)) as u64
            } else {
                init_value as u64
            };
            let b: u64 = if value < 0 {
                (-(value as i64)) as u64
            } else {
                value as u64
            };
            if a % b != 0 {
                assert(next is None);
                proof { lemma_failure_sticks(vals, ops, ki as nat, (str.0@.len() - 1) as nat); }
                return None;
            }
            let q: u64 = a / b;
            assert(i32::MIN <= next->0 <= i32::MAX);
            init_value = if (init_value < 0) == (value < 0) {
                q as i32
            } else {
                (-(q as i64)) as i32
            };
        } else if o == '+' {
            assert(i32::MIN <= next->0 <= i32::MAX);
            init_value = init_value + value;
        } else if o == '-' {
            assert(i32::MIN <= next->0 <= i32::MAX);
            init_value = init_value - value;
        } else {
            assert(i32::MIN <= next->0 <= i32::MAX);
            init_value = init_value * value;
        }
        text.push(' ');
        text.push(o);
        text.push(' ');
        push_decimal(&mut text, value);
        assert(text@ =~= expr_text(vals, ops, i as nat));
        i = i + 1;
    }
    Some((init_value, string_of_chars(&text)))
}

proof fn lemma_failure_sticks(vals: Seq<int>, ops: Seq<char>, k: nat, m: nat)
    requires
        eval_prefix(vals, ops, k) is None,
        k <= m,
    ensures
        eval_prefix(vals, ops, m) is None,
    decreases m - k,
{
    if k < m {
        lemma_failure_sticks(vals, ops, k, (m - 1) as nat);
    }
}

/// The texts of the candidates, in order, whose value is ten.
pub open spec fn solutions(slice: Seq<(&Vec<&i32>, &Vec<&char>)>) -> Seq<Seq<char>>
    decreases slice.len(),
{
    if slice.len() == 0 {
        Seq::empty()
    } else {
        let rest = solutions(slice.drop_last());
        let last = slice.last();
        let vals = values_of(last.0@);
        let ops = ops_of(last.1@);
        let k = (last.0@.len() - 1) as nat;
        if eval_prefix(vals, ops, k) == Some(10int) {
            rest.push(expr_text(vals, ops, k))
        } else {
            rest
        }
    }
}

/// The texts of the candidates that evaluate to ten, in their order.
pub fn solve(slice: &[(&Vec<&i32>, &Vec<&char>)]) -> (r: Vec<String>)
    requires
        forall|i: int|
            0 <= i < slice@.len() ==> well_posed(
                values_of((#[trigger] slice@[i]).0@),
                ops_of(slice@[i].1@),
            ),
    ensures
        r@.len() == solutions(slice@).len(),
        forall|i: int| 0 <= i < r@.len() ==> (#[trigger] r@[i])@ == solutions(slice@)[i],
{
    let mut col: Vec<String> = Vec::new();
    let mut i: usize = 0;
    while i < slice.len()
        invariant
            i <= slice@.len(),
            forall|j: int|
                0 <= j < slice@.len() ==> well_posed(
                    values_of((#[trigger] slice@[j]).0@),
                    ops_of(slice@[j].1@),
                ),
            col@.len() == solutions(slice@.take(i as int)).len(),
            forall|j: int|
                0 <= j < col@.len() ==> (#[trigger] col@[j])@ == solutions(
                    slice@.take(i as int),
                )[j],
        decreases slice@.len() - i,
    {
        let res = compute_operation(slice[i]);
        assert(slice@.take(i + 1).drop_last() =~= slice@.take(i as int));
        match res {
            Some((value, text)) => {
                if value == 10 {
                    col.push(text);
                }
            },
            None => {},
        }
        i = i + 1;
    }
    assert(slice@.take(slice@.len() as int) =~= slice@);
    col
}

/// What itertools' `permutations(k)` yields for the values `v`.
pub uninterp spec fn permutations_of(v: Seq<i32>, k: nat) -> Seq<Seq<i32>>;

/// What itertools' `combinations_with_replacement(k)` yields for `ops`.
pub uninterp spec fn op_combinations_of(ops: Seq<char>, k: nat) -> Seq<Seq<char>>;

pub open spec fn vec_views<A>(v: Seq<Vec<A>>) -> Seq<Seq<A>> {
    v.map_values(|x: Vec<A>| x@)
}

pub open spec fn pair_views(v: Seq<(Vec<i32>, Vec<char>)>) -> Seq<(Seq<i32>, Seq<char>)> {
    v.map_values(|x: (Vec<i32>, Vec<char>)| (x.0@, x.1@))
}

/// Every pair of an element of `p` with one of `c`, the first component
/// varying slowest.
pub open spec fn product(p: Seq<Seq<i32>>, c: Seq<Seq<char>>) -> Seq<(Seq<i32>, Seq<char>)>
    decreases p.len(),
{
    if p.len() == 0 {
        Seq::empty()
    } else {
        product(p.drop_last(), c) + c.map_values(|o: Seq<char>| (p.last(), o))
    }
}

/// Relies on itertools' `Itertools::permutations`: the `k`-permutations of
/// the values taken by position, each a vector of `k` of the values.
#[verifier::external_body]
fn permutations(v: &Vec<i32>, k: usize) -> (r: Vec<Vec<i32>>)
    ensures
        vec_views(r@) == permutations_of(v@, k as nat),
        forall|i: int| 0 <= i < r@.len() ==> (#[trigger] r@[i])@.len() == k,
        forall|i: int, j: int|
            0 <= i < r@.len() && 0 <= j < k ==> v@.contains(#[trigger] r@[i]@[j]),
{
    v.iter().copied().permutations(k).collect()
}

/// Relies on itertools' `Itertools::combinations_with_replacement`: the
/// `k`-length combinations of the operations with repetition, each a
/// vector of `k` of them.
#[verifier::external_body]
fn op_combinations(ops: &Vec<char>, k: usize) -> (r: Vec<Vec<char>>)
    ensures
        vec_views(r@) == op_combinations_of(ops@, k as nat),
        forall|i: int| 0 <= i < r@.len() ==> (#[trigger] r@[i])@.len() == k,
        forall|i: int, j: int|
            0 <= i < r@.len() && 0 <= j < k ==> ops@.contains(#[trigger] r@[i]@[j]),
{
    ops.iter().copied().combinations_with_replacement(k).collect()
}

/// Relies on itertools' `Itertools::cartesian_product`: every pair of an
/// element of `p` with one of `c`, the first component varying slowest.
#[verifier::external_body]
fn cartesian(p: &Vec<Vec<i32>>, c: &Vec<Vec<char>>) -> (r: Vec<(Vec<i32>, Vec<char>)>)
    ensures
        pair_views(r@) == product(vec_views(p@), vec_views(c@)),
{
    p.iter().cloned().cartesian_product(c.iter().cloned()).collect()
}

proof fn lemma_product_members(p: Seq<Seq<i32>>, c: Seq<Seq<char>>, i: int)
    requires
        0 <= i < product(p, c).len(),
    ensures
        exists|a: int, b: int|
            0 <= a < p.len() && 0 <= b < c.len() && product(p, c)[i] == (p[a], c[b]),
    decreases p.len(),
{
    if p.len() > 0 {
        let rest = product(p.drop_last(), c);
        if i < rest.len() {
            lemma_product_members(p.drop_last(), c, i);
            let (a, b) = choose|a: int, b: int|
                0 <= a < p.drop_last().len() && 0 <= b < c.len() && rest[i] == (
                    p.drop_last()[a],
                    c[b],
                );
            assert(product(p, c)[i] == (p[a], c[b]));
        } else {
            let b = i - rest.len();
            assert(product(p, c)[i] == (p[p.len() - 1], c[b]));
        }
    }
}

pub open spec fn the_ops() -> Seq<char> {
    seq!['+', '-', 'x', '/']
}

pub open spec fn is_digit_value(v: int) -> bool {
    0 <= v <= 9
}

/// Every way to write the five values in some order with four operations
/// between them, operations taken as multisets of `+ - x /`: each
/// permutation of the values paired with each combination of operations.
/// When the values are single digits, every candidate evaluates without a
/// fault.
pub fn ten_candidates(values: &Vec<i32>) -> (r: Vec<(Vec<i32>, Vec<char>)>)
    ensures
        pair_views(r@) == product(permutations_of(values@, 5), op_combinations_of(the_ops(), 4)),
        forall|i: int|
            0 <= i < r@.len() ==> (#[trigger] r@[i]).0@.len() == 5 && r@[i].1@.len() == 4,
        (forall|j: int| 0 <= j < values@.len() ==> is_digit_value(#[trigger] values@[j] as int))
            ==> forall|i: int|
            0 <= i < r@.len() ==> well_posed(
                (#[trigger] r@[i]).0@.map_values(|x: i32| x as int),
                r@[i].1@,
            ),
{
    let ops: Vec<char> = vec!['+', '-', 'x', '/'];
    assert(ops@ == the_ops());
    let perms = permutations(values, 5);
    let combs = op_combinations(&ops, 4);
    let r = cartesian(&perms, &combs);
    assert forall|i: int| 0 <= i < r@.len() implies (#[trigger] r@[i]).0@.len() == 5
        && r@[i].1@.len() == 4 && ((forall|j: int|
        0 <= j < values@.len() ==> is_digit_value(#[trigger] values@[j] as int)) ==> well_posed(
        r@[i].0@.map_values(|x: i32| x as int),
        r@[i].1@,
    )) by {
        assert(pair_views(r@)[i] == (r@[i].0@, r@[i].1@));
        lemma_product_members(vec_views(perms@), vec_views(combs@), i);
        let (a, b) = choose|a: int, b: int|
            0 <= a < vec_views(perms@).len() && 0 <= b < vec_views(combs@).len() && product(
                vec_views(perms@),
                vec_views(combs@),
            )[i] == (vec_views(perms@)[a], vec_views(combs@)[b]);
        assert(r@[i].0@ == perms@[a]@);
        assert(r@[i].1@ == combs@[b]@);
        if forall|j: int| 0 <= j < values@.len() ==> is_digit_value(#[trigger] values@[j] as int) {
            let vals = r@[i].0@.map_values(|x: i32| x as int);
            let os = r@[i].1@;
            assert forall|j: int| 0 <= j < 5 implies is_digit_value(#[trigger] vals[j]) by {
                assert(values@.contains(perms@[a]@[j]));
            }
            assert forall|j: int| 0 <= j < vals.len() - 1 implies is_op(#[trigger] os[j]) by {
                assert(ops@.contains(combs@[b]@[j]));
            }
            lemma_digits_well_posed(vals, os);
        }
    }
    r
}

/// Up to nine single-digit values with known operations between them
/// evaluate without a fault: after `k` operations the value stays within
/// `10^(k+1)` in magnitude, which fits in an `i32`.
pub proof fn lemma_digits_well_posed(vals: Seq<int>, ops: Seq<char>)
    requires
        1 <= vals.len() <= 9,
        ops.len() + 1 >= vals.len(),
        forall|j: int| 0 <= j < vals.len() ==> is_digit_value(#[trigger] vals[j]),
        forall|j: int| 0 <= j < vals.len() - 1 ==> is_op(#[trigger] ops[j]),
    ensures
        well_posed(vals, ops),
{
    assert forall|k: int| 0 <= k < vals.len() implies match #[trigger] eval_prefix(
        vals,
        ops,
        k as nat,
    ) {
        Some(v) => i32::MIN <= v <= i32::MAX,
        None => true,
    } by {
        lemma_eval_bound(vals, ops, k as nat);
        lemma_bound_grows(k as nat, 8);
        assert(bound(8) == 1000000000) by {
            reveal_with_fuel(bound, 9);
        }
    }
}

proof fn lemma_bound_grows(k: nat, m: nat)
    requires
        k <= m,
    ensures
        bound(k) <= bound(m),
        bound(k) >= 10,
    decreases m,
{
    if k < m {
        lemma_bound_grows(k, (m - 1) as nat);
    } else if k > 0 {
        lemma_bound_grows((k - 1) as nat, (k - 1) as nat);
    }
}

pub open spec fn bound(k: nat) -> int
    decreases k,
{
    if k == 0 {
        10
    } else {
        10 * bound((k - 1) as nat)
    }
}

proof fn lemma_eval_bound(vals: Seq<int>, ops: Seq<char>, k: nat)
    requires
        k < vals.len() <= ops.len() + 1,
        forall|j: int| 0 <= j < vals.len() ==> is_digit_value(#[trigger] vals[j]),
        forall|j: int| 0 <= j < vals.len() - 1 ==> is_op(#[trigger] ops[j]),
    ensures
        eval_prefix(vals, ops, k) matches Some(v) ==> -bound(k) <= v <= bound(k),
        bound(k) >= 10,
    decreases k,
{
    if k > 0 {
        lemma_eval_bound(vals, ops, (k - 1) as nat);
        let b = bound((k - 1) as nat);
        match eval_prefix(vals, ops, (k - 1) as nat) {
            Some(acc) => {
                let v = vals[k as int];
                let o = ops[k - 1];
                assert(is_digit_value(v));
                assert(is_op(o));
                if o == 'x' {
                    assert(-10 * b <= acc * v <= 10 * b) by (nonlinear_arith)
                        requires
                            -b <= acc <= b,
                            0 <= v <= 9,
                            b >= 10,
                    ;
                } else if o == '/' {
                    if v != 0 && abs(acc) % abs(v) == 0 {
                        assert(abs(acc) / abs(v) <= abs(acc)) by (nonlinear_arith)
                            requires
                                abs(v) >= 1,
                                abs(acc) >= 0,
                        ;
                    }
                }
            },
            None => {},
        }
    }
}

/// Reads the values of a sequence like `7 2 1 2 2`: the words separated by
/// single spaces, taken from last to first, each valued by its first
/// character, which must be a decimal digit. `None` when a word is empty or
/// does not start with a digit.
pub fn parse_digits(seq: &str) -> (r: Option<Vec<i32>>)
    ensures
        ({
            let words = split_on(seq@, ' ').reverse();
            let ok = forall|i: int|
                0 <= i < words.len() ==> (#[trigger] words[i]).len() > 0 && is_digit(words[i][0]);
            &&& ok <==> r is Some
            &&& r matches Some(v) ==> v@.len() == words.len() && forall|i: int|
                0 <= i < words.len() ==> #[trigger] v@[i] as int == digit_value(words[i][0])
        }),
{
    let t = chars_of(seq);
    let parts = split_chars(&t, ' ');
    let ghost words = split_on(seq@, ' ').reverse();
    let n = parts.len();
    let mut out: Vec<i32> = Vec::new();
    let mut i: usize = 0;
    while i < n
        invariant
            n == parts@.len(),
            n == split_on(seq@, ' ').len(),
            words == split_on(seq@, ' ').reverse(),
            forall|k: int| 0 <= k < n ==> (#[trigger] parts@[k])@ == split_on(seq@, ' ')[k],
            i <= n,
            out@.len() == i,
            forall|k: int|
                0 <= k < i ==> (#[trigger] words[k]).len() > 0 && is_digit(words[k][0]),
            forall|k: int| 0 <= k < i ==> #[trigger] out@[k] as int == digit_value(words[k][0]),
        decreases n - i,
    {
        let w = &parts[n - 1 - i];
        assert(words[i as int] == split_on(seq@, ' ')[n - 1 - i]);
        if w.len() == 0 {
            return None;
        }
        let c = w[0];
        if !('0' <= c && c <= '9') {
            return None;
        }
        out.push((c as u32 - '0' as u32) as i32);
        i = i + 1;
    }
    Some(out)
}

} // verus!
