//! Algebraic facts about the overflow column.
use vstd::prelude::*;
use vstd::arithmetic::div_mod::{lemma_mul_mod_noop_left, lemma_mul_mod_noop_right, lemma_small_mod};
use crate::field::{inv_of, is_felt, is_unit, p};
use crate::stack::{
    all_units, build_spec, column_spec, combine, count_upto, degenerate, dims_ok,
    lemma_count_upto, lemma_count_upto_bounds, log_ok, running, step_factor, AuxTraceError, HintKind,
    Matrix, OverflowHint, NUM_CHALLENGES,
};

verus! {

/// A log whose hints pair up: the last hint is a remove, some earlier insert carries the same
/// payload, and the log without those two hints pairs up as well.
pub open spec fn balanced(hs: Seq<OverflowHint>) -> bool
    decreases hs.len(),
{
    if hs.len() == 0 {
        true
    } else {
        &&& hs.last().kind == HintKind::Remove
        &&& exists|j: int|
            0 <= j < hs.len() - 1 && #[trigger] hs[j].kind == HintKind::Insert && hs[j].addr
                == hs.last().addr && hs[j].value == hs.last().value && balanced(
                hs.drop_last().remove(j),
            )
    }
}

/// Integer product of a sequence.
pub open spec fn prod(s: Seq<int>) -> int
    decreases s.len(),
{
    if s.len() == 0 {
        1
    } else {
        prod(s.drop_last()) * s.last()
    }
}

/// The step factors of a log, hint by hint.
pub open spec fn factors_of(hs: Seq<OverflowHint>, ch: Seq<u64>) -> Seq<int> {
    hs.map_values(|h: OverflowHint| step_factor(ch, h))
}

proof fn lemma_running_prod(hs: Seq<OverflowHint>, ch: Seq<u64>, k: nat)
    requires
        k <= hs.len(),
    ensures
        running(hs, ch, k) == prod(factors_of(hs, ch).take(k as int)) % p(),
    decreases k,
{
    let fs = factors_of(hs, ch);
    if k == 0 {
        assert(fs.take(0).len() == 0);
    } else {
        lemma_running_prod(hs, ch, (k - 1) as nat);
        assert(fs.take(k as int).drop_last() =~= fs.take(k - 1));
        lemma_mul_mod_noop_left(prod(fs.take(k - 1)), step_factor(ch, hs[k - 1]), p());
    }
}

proof fn lemma_prod_remove(s: Seq<int>, j: int)
    requires
        0 <= j < s.len(),
    ensures
        prod(s) == prod(s.remove(j)) * s[j],
    decreases s.len(),
{
    if j == s.len() - 1 {
        assert(s.remove(j) =~= s.drop_last());
    } else {
        lemma_prod_remove(s.drop_last(), j);
        assert(s.remove(j).drop_last() =~= s.drop_last().remove(j));
        let a = prod(s.drop_last().remove(j));
        assert(a * s[j] * s.last() == a * s.last() * s[j]) by (nonlinear_arith);
    }
}

proof fn lemma_unit_inverse(x: int)
    requires
        is_unit(x),
    ensures
        (x * inv_of(x)) % p() == 1,
        is_felt(inv_of(x)),
{
}

/// `(a * x * y) % p` is `a % p` when `x * y` is 1 in the field.
proof fn lemma_cancel(a: int, x: int, y: int)
    requires
        (x * y) % p() == 1,
    ensures
        (a * x * y) % p() == a % p(),
{
    assert(a * x * y == a * (x * y)) by (nonlinear_arith);
    lemma_mul_mod_noop_right(a, x * y, p());
}

proof fn lemma_balanced_prod(hs: Seq<OverflowHint>, ch: Seq<u64>)
    requires
        balanced(hs),
        all_units(hs, ch),
    ensures
        prod(factors_of(hs, ch)) % p() == 1,
    decreases hs.len(),
{
    let fs = factors_of(hs, ch);
    if hs.len() == 0 {
        lemma_small_mod(1, p() as nat);
    } else {
        let j = choose|j: int|
            0 <= j < hs.len() - 1 && #[trigger] hs[j].kind == HintKind::Insert && hs[j].addr
                == hs.last().addr && hs[j].value == hs.last().value && balanced(
                hs.drop_last().remove(j),
            );
        let rest = hs.drop_last().remove(j);
        assert forall|i: int| 0 <= i < rest.len() implies is_unit(#[trigger] combine(ch, rest[i])) by {
            if i < j {
                assert(rest[i] == hs[i]);
            } else {
                assert(rest[i] == hs[i + 1]);
            }
        }
        lemma_balanced_prod(rest, ch);
        assert(fs.drop_last() =~= factors_of(hs.drop_last(), ch));
        lemma_prod_remove(factors_of(hs.drop_last(), ch), j);
        assert(factors_of(hs.drop_last(), ch).remove(j) =~= factors_of(rest, ch));
        let f = combine(ch, hs[j]);
        assert(combine(ch, hs.last()) == f);
        assert(is_unit(combine(ch, hs[hs.len() - 1])));
        lemma_unit_inverse(f);
        lemma_cancel(prod(factors_of(rest, ch)), f, inv_of(f));
    }
}

proof fn lemma_imbalanced_prod(hs: Seq<OverflowHint>, ch: Seq<u64>, d: int)
    requires
        balanced(hs),
        all_units(hs, ch),
        0 <= d < hs.len(),
        hs[d].kind == HintKind::Remove,
    ensures
        prod(factors_of(hs.remove(d), ch)) % p() == combine(ch, hs[d]),
{
    lemma_balanced_prod(hs, ch);
    let fs = factors_of(hs, ch);
    lemma_prod_remove(fs, d);
    assert(fs.remove(d) =~= factors_of(hs.remove(d), ch));
    let a = prod(factors_of(hs.remove(d), ch));
    let f = combine(ch, hs[d]);
    let g = inv_of(f);
    lemma_unit_inverse(f);
    // a * g is 1, so a is a * g * f, that is f
    assert(f * g == g * f) by (nonlinear_arith);
    lemma_cancel(a, g, f);
    lemma_mul_mod_noop_left(a * g, f, p());
    assert(1 * f == f);
    assert(is_felt(f)) by {
        vstd::arithmetic::div_mod::lemma_mod_bound(
            ch[0] as int + ch[1] as int * hs[d].addr as int + ch[2] as int * hs[d].value as int,
            p(),
        );
    }
    lemma_small_mod(f as nat, p() as nat);
}

/// The last column value is the running product over the whole log.
proof fn lemma_terminal(m: Matrix, hs: Seq<OverflowHint>, ch: Seq<u64>)
    requires
        build_spec(m, hs, ch) is Ok,
    ensures
        column_spec(hs, ch, m.num_rows as nat).last() == prod(factors_of(hs, ch)) % p(),
{
    let n = m.num_rows as int;
    assert forall|j: int| 0 <= j < hs.len() implies #[trigger] hs[j].row <= n - 1 by {}
    lemma_count_upto(hs, n - 1, 0, hs.len() as int);
    lemma_running_prod(hs, ch, hs.len());
    assert(factors_of(hs, ch).take(hs.len() as int) =~= factors_of(hs, ch));
    assert(is_felt(prod(factors_of(hs, ch)) % p()));
}

/// Building is a function of the trace, the log and the challenges: equal inputs give equal
/// columns or equal errors.
pub proof fn lemma_build_deterministic(
    m1: Matrix,
    m2: Matrix,
    hs1: Seq<OverflowHint>,
    hs2: Seq<OverflowHint>,
    ch1: Seq<u64>,
    ch2: Seq<u64>,
)
    requires
        m1 == m2,
        hs1 == hs2,
        ch1 == ch2,
    ensures
        build_spec(m1, hs1, ch1) == build_spec(m2, hs2, ch2),
{
}

/// When every insert is matched by a later remove of the same payload, the column ends at 1.
/// Every combined payload is to be invertible, as `build_aux_column` ensures whenever it
/// succeeds (in this prime field that is every nonzero value).
pub proof fn lemma_balanced_log_closes(m: Matrix, hs: Seq<OverflowHint>, ch: Seq<u64>)
    requires
        build_spec(m, hs, ch) is Ok,
        all_units(hs, ch),
        balanced(hs),
    ensures
        build_spec(m, hs, ch)->Ok_0.last() == 1,
{
    lemma_terminal(m, hs, ch);
    lemma_balanced_prod(hs, ch);
}

/// Dropping one remove from a balanced log leaves the column ending at the combination of that
/// remove's payload, which is not 1 unless the challenges map that payload to 1. Every
/// combined payload is to be invertible, as `build_aux_column` ensures whenever it succeeds.
pub proof fn lemma_missing_remove_shows(m: Matrix, hs: Seq<OverflowHint>, ch: Seq<u64>, d: int)
    requires
        build_spec(m, hs, ch) is Ok,
        all_units(hs, ch),
        balanced(hs),
        0 <= d < hs.len(),
        hs[d].kind == HintKind::Remove,
    ensures
        build_spec(m, hs.remove(d), ch) is Ok,
        build_spec(m, hs.remove(d), ch)->Ok_0.last() == combine(ch, hs[d]),
{
    let hs2 = hs.remove(d);
    lemma_terminal(m, hs, ch);
    assert forall|i: int| 0 <= i < hs2.len() implies is_unit(#[trigger] combine(ch, hs2[i])) by {
        if i < d {
            assert(hs2[i] == hs[i]);
        } else {
            assert(hs2[i] == hs[i + 1]);
        }
    }
    assert forall|i: int, j: int| 0 <= i < j < hs2.len() implies #[trigger] hs2[i].row
        < #[trigger] hs2[j].row by {
        let a = if i < d { i } else { i + 1 };
        let b = if j < d { j } else { j + 1 };
        assert(hs2[i] == hs[a] && hs2[j] == hs[b]);
    }
    assert forall|i: int| 0 <= i < hs2.len() implies 1 <= #[trigger] hs2[i].row < m.num_rows by {
        let a = if i < d { i } else { i + 1 };
        assert(hs2[i] == hs[a]);
    }
    assert(log_ok(hs2, m.num_rows as nat));
    assert forall|i: int| 0 <= i < hs2.len() implies #[trigger] combine(ch, hs2[i]) != 0 by {
        let a = if i < d { i } else { i + 1 };
        assert(hs2[i] == hs[a]);
    }
    assert(!degenerate(hs2, ch));
    lemma_terminal(m, hs2, ch);
    lemma_imbalanced_prod(hs, ch, d);
}

/// A row that carries no hint repeats the value of the row before it.
pub proof fn lemma_quiet_row_copies(m: Matrix, hs: Seq<OverflowHint>, ch: Seq<u64>, r: int)
    requires
        build_spec(m, hs, ch) is Ok,
        1 <= r < m.num_rows,
        forall|i: int| 0 <= i < hs.len() ==> #[trigger] hs[i].row != r,
    ensures
        build_spec(m, hs, ch)->Ok_0[r] == build_spec(m, hs, ch)->Ok_0[r - 1],
{
    lemma_count_upto_bounds(hs, r - 1, 0);
    let c = count_upto(hs, r - 1, 0) as int;
    assert forall|j: int| 0 <= j < c implies #[trigger] hs[j].row <= r by {}
    lemma_count_upto(hs, r, 0, c);
}

/// With an empty log every row of the column is 1.
pub proof fn lemma_empty_log_is_identity(m: Matrix, ch: Seq<u64>)
    requires
        dims_ok(m),
        ch.len() >= NUM_CHALLENGES,
    ensures
        build_spec(m, Seq::<OverflowHint>::empty(), ch) == Ok::<Seq<u64>, AuxTraceError>(
            Seq::new(m.num_rows as nat, |r: int| 1u64),
        ),
{
    let hs = Seq::<OverflowHint>::empty();
    assert(column_spec(hs, ch, m.num_rows as nat) =~= Seq::new(m.num_rows as nat, |r: int| 1u64));
}

} // verus!

verus! {

proof fn lemma_prod_update(s: Seq<int>, a: int, x: int)
    requires
        0 <= a < s.len(),
    ensures
        prod(s.update(a, x)) * s[a] == prod(s) * x,
    decreases s.len(),
{
    let u = s.update(a, x);
    if a == s.len() - 1 {
        assert(u.drop_last() =~= s.drop_last());
        let q = prod(s.drop_last());
        assert(q * x * s[a] == q * s[a] * x) by (nonlinear_arith);
    } else {
        lemma_prod_update(s.drop_last(), a, x);
        assert(u.drop_last() =~= s.drop_last().update(a, x));
        let q = prod(s.drop_last().update(a, x));
        let r = prod(s.drop_last());
        assert(q * s[a] == r * x);
        assert(q * s.last() * s[a] == (q * s[a]) * s.last()) by (nonlinear_arith);
        assert(r * s.last() * x == (r * x) * s.last()) by (nonlinear_arith);
    }
}

/// The log with the values of the hints at `a` and `b` exchanged.
pub open spec fn swap_values(hs: Seq<OverflowHint>, a: int, b: int) -> Seq<OverflowHint> {
    hs.update(a, OverflowHint { value: hs[b].value, ..hs[a] }).update(
        b,
        OverflowHint { value: hs[a].value, ..hs[b] },
    )
}

/// Exchanging the values of two inserts of a balanced log: the new column ends at a value `t`
/// with `t * f(a) * f(b) == f'(a) * f'(b)` in the field, where `f` are the two inserts'
/// combined payloads before the exchange and `f'` after it. So the log stays balanced only
/// when the challenges make both products equal.
pub proof fn lemma_swapped_values_unbalance(m: Matrix, hs: Seq<OverflowHint>, ch: Seq<u64>, a: int, b: int)
    requires
        build_spec(m, hs, ch) is Ok,
        all_units(hs, ch),
        balanced(hs),
        0 <= a < hs.len(),
        0 <= b < hs.len(),
        a != b,
        hs[a].kind == HintKind::Insert,
        hs[b].kind == HintKind::Insert,
        build_spec(m, swap_values(hs, a, b), ch) is Ok,
    ensures
        (build_spec(m, swap_values(hs, a, b), ch)->Ok_0.last() as int * combine(ch, hs[a]) * combine(
            ch,
            hs[b],
        )) % p() == (combine(ch, swap_values(hs, a, b)[a]) * combine(ch, swap_values(hs, a, b)[b])) % p(),
{
    let hs2 = swap_values(hs, a, b);
    let fs = factors_of(hs, ch);
    let x = combine(ch, hs2[a]);
    let y = combine(ch, hs2[b]);
    let s1 = fs.update(a, x);
    lemma_prod_update(fs, a, x);
    lemma_prod_update(s1, b, y);
    assert(s1.update(b, y) =~= factors_of(hs2, ch));
    lemma_balanced_prod(hs, ch);
    lemma_terminal(m, hs, ch);
    lemma_terminal(m, hs2, ch);
    let t2 = prod(factors_of(hs2, ch));
    let t = prod(fs);
    let fa = fs[a];
    let fb = fs[b];
    // t2 * fa * fb == t * x * y
    assert(t2 * fb == prod(s1) * y);
    assert(prod(s1) * fa == t * x);
    assert(t2 * fa * fb == t * x * y) by (nonlinear_arith)
        requires
            t2 * fb == prod(s1) * y,
            prod(s1) * fa == t * x,
    ;
    assert(t * x * y == t * (x * y)) by (nonlinear_arith);
    lemma_mul_mod_noop_left(t, x * y, p());
    lemma_mul_mod_noop_left(t2, fa * fb, p());
    assert(t2 * fa * fb == t2 * (fa * fb)) by (nonlinear_arith);
    assert((t2 % p()) * fa * fb == (t2 % p()) * (fa * fb)) by (nonlinear_arith);
}

} // verus!
