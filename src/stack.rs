//! The stack-overflow virtual table: its hint log and the running-product column `p1`.
use vstd::prelude::*;
use crate::field::{affine3, felt_affine3, felt_mul, felt_try_inv, inv_of, is_felt, is_unit, p};

verus! {

/// Whether a hint adds a row to the overflow table or takes one out.
#[derive(Clone, Copy, Debug, PartialEq, Eq, Structural)]
pub enum HintKind {
    Insert,
    Remove,
}

/// One overflow-table event: at trace row `row`, the pair `(addr, value)` is inserted or removed.
#[derive(Clone, Copy, Debug, PartialEq, Eq, Structural)]
pub struct OverflowHint {
    pub row: usize,
    pub kind: HintKind,
    pub addr: u64,
    pub value: u64,
}

/// The hint log of the overflow table, in the order the events happened.
pub struct AuxTraceHints {
    pub hints: Vec<OverflowHint>,
}

/// The main trace: `num_rows` rows, stored column by column. The overflow column reads only
/// the number of rows.
pub struct Matrix {
    pub num_rows: usize,
    pub columns: Vec<Vec<u64>>,
}

/// Why an auxiliary column could not be built.
#[derive(Clone, Copy, Debug, PartialEq, Eq, Structural)]
pub enum AuxTraceError {
    /// A hint names row 0 or a row past the trace, or rows do not strictly increase.
    MalformedHintLog,
    /// The combination of a payload with the challenges is zero.
    DegenerateChallenge,
    /// The trace has no rows, or there are too few challenges.
    DimensionMismatch,
}

/// Number of challenges the overflow column consumes.
pub const NUM_CHALLENGES: usize = 3;

/// The combination `c0 + c1 * addr + c2 * value` of a hint's payload with the challenges.
pub open spec fn combine(ch: Seq<u64>, h: OverflowHint) -> int {
    affine3(ch[0] as int, ch[1] as int, ch[2] as int, h.addr as int, h.value as int)
}

/// The factor a hint multiplies the running product by.
pub open spec fn step_factor(ch: Seq<u64>, h: OverflowHint) -> int {
    match h.kind {
        HintKind::Insert => combine(ch, h),
        HintKind::Remove => inv_of(combine(ch, h)),
    }
}

/// The running product after the first `k` hints.
pub open spec fn running(hs: Seq<OverflowHint>, ch: Seq<u64>, k: nat) -> int
    decreases k,
{
    if k == 0 || k > hs.len() {
        1
    } else {
        (running(hs, ch, (k - 1) as nat) * step_factor(ch, hs[k - 1])) % p()
    }
}

/// Length of the run of hints from index `i` on whose rows are at most `r`.
pub open spec fn count_upto(hs: Seq<OverflowHint>, r: int, i: int) -> nat
    decreases hs.len() - i,
{
    if i < 0 || i >= hs.len() {
        0
    } else if hs[i].row <= r {
        1 + count_upto(hs, r, i + 1)
    } else {
        0
    }
}

/// The column value at row `r`: the running product over the hints at rows `1..=r`.
pub open spec fn col_value(hs: Seq<OverflowHint>, ch: Seq<u64>, r: int) -> u64 {
    running(hs, ch, count_upto(hs, r, 0)) as u64
}

/// The whole column for a trace of `n` rows.
pub open spec fn column_spec(hs: Seq<OverflowHint>, ch: Seq<u64>, n: nat) -> Seq<u64> {
    Seq::new(n, |r: int| col_value(hs, ch, r))
}

/// The trace has rows.
pub open spec fn dims_ok(m: Matrix) -> bool {
    m.num_rows > 0
}

/// Every hint lies on a row in `1..n`, and rows strictly increase along the log.
pub open spec fn log_ok(hs: Seq<OverflowHint>, n: nat) -> bool {
    &&& forall|i: int| 0 <= i < hs.len() ==> 1 <= #[trigger] hs[i].row < n
    &&& forall|i: int, j: int| 0 <= i < j < hs.len() ==> #[trigger] hs[i].row < #[trigger] hs[j].row
}

/// Some hint's payload combines to zero.
pub open spec fn degenerate(hs: Seq<OverflowHint>, ch: Seq<u64>) -> bool {
    exists|i: int| 0 <= i < hs.len() && #[trigger] combine(ch, hs[i]) == 0
}

/// What building the overflow column yields, errors checked in this order.
pub open spec fn build_spec(m: Matrix, hs: Seq<OverflowHint>, ch: Seq<u64>) -> Result<
    Seq<u64>,
    AuxTraceError,
> {
    if !dims_ok(m) || ch.len() < NUM_CHALLENGES {
        Err(AuxTraceError::DimensionMismatch)
    } else if !log_ok(hs, m.num_rows as nat) {
        Err(AuxTraceError::MalformedHintLog)
    } else if degenerate(hs, ch) {
        Err(AuxTraceError::DegenerateChallenge)
    } else {
        Ok(column_spec(hs, ch, m.num_rows as nat))
    }
}

/// The view of a built column.
pub open spec fn column_view(r: Result<Vec<u64>, AuxTraceError>) -> Result<Seq<u64>, AuxTraceError> {
    match r {
        Ok(c) => Ok(c@),
        Err(e) => Err(e),
    }
}

/// Every hint combines its payload into a unit.
pub open spec fn all_units(hs: Seq<OverflowHint>, ch: Seq<u64>) -> bool {
    forall|i: int| 0 <= i < hs.len() ==> is_unit(#[trigger] combine(ch, hs[i]))
}

/// The run of hints with rows at most `r` from `i` on ends at `k`.
pub proof fn lemma_count_upto(hs: Seq<OverflowHint>, r: int, i: int, k: int)
    requires
        0 <= i <= k <= hs.len(),
        forall|j: int| i <= j < k ==> #[trigger] hs[j].row <= r,
        k == hs.len() || hs[k].row > r,
    ensures
        count_upto(hs, r, i) == k - i,
    decreases k - i,
{
    if i < k {
        lemma_count_upto(hs, r, i + 1, k);
    }
}

/// Where the run of hints with rows at most `r` ends.
pub proof fn lemma_count_upto_bounds(hs: Seq<OverflowHint>, r: int, i: int)
    requires
        0 <= i <= hs.len(),
    ensures
        i + count_upto(hs, r, i) <= hs.len(),
        forall|j: int| i <= j < i + count_upto(hs, r, i) ==> #[trigger] hs[j].row <= r,
        i + count_upto(hs, r, i) == hs.len() || hs[i + count_upto(hs, r, i)].row > r,
    decreases hs.len() - i,
{
    if i < hs.len() && hs[i].row <= r {
        lemma_count_upto_bounds(hs, r, i + 1);
    }
}

/// The running product is a canonical field value.
pub proof fn lemma_running_felt(hs: Seq<OverflowHint>, ch: Seq<u64>, k: nat)
    ensures
        is_felt(running(hs, ch, k)),
    decreases k,
{
    if k > 0 && k <= hs.len() {
        lemma_running_felt(hs, ch, (k - 1) as nat);
    }
}

/// Checks the rows of the hint log against a trace of `n` rows.
fn check_log(hs: &Vec<OverflowHint>, n: usize) -> (r: bool)
    ensures
        r == log_ok(hs@, n as nat),
{
    let mut k: usize = 0;
    while k < hs.len()
        invariant
            k <= hs@.len(),
            forall|i: int| 0 <= i < k ==> 1 <= #[trigger] hs@[i].row < n,
            forall|i: int, j: int| 0 <= i < j < k ==> #[trigger] hs@[i].row < #[trigger] hs@[j].row,
        decreases hs@.len() - k,
    {
        let row = hs[k].row;
        if row < 1 || row >= n {
            return false;
        }
        if k > 0 && hs[k - 1].row >= row {
            assert(!(hs@[k - 1].row < hs@[k as int].row));
            return false;
        }
        k += 1;
    }
    true
}

/// Computes `combine` for one hint.
fn combine_exec(ch: &[u64], h: &OverflowHint) -> (r: u64)
    requires
        ch@.len() >= NUM_CHALLENGES,
    ensures
        r as int == combine(ch@, *h),
        is_felt(r as int),
{
    let r = felt_affine3(ch[0], ch[1], ch[2], h.addr, h.value);
    r
}

/// The step factor of every hint, or `None` when some hint's combination has no inverse.
fn step_factors(hs: &Vec<OverflowHint>, ch: &[u64]) -> (r: Option<Vec<u64>>)
    requires
        ch@.len() >= NUM_CHALLENGES,
    ensures
        r is None <==> degenerate(hs@, ch@),
        r matches Some(f) ==> f@.len() == hs@.len() && all_units(hs@, ch@) && forall|i: int|
            0 <= i < hs@.len() ==> #[trigger] f@[i] as int == step_factor(ch@, hs@[i]) && is_felt(
                f@[i] as int,
            ),
{
    let mut out: Vec<u64> = Vec::new();
    let mut k: usize = 0;
    while k < hs.len()
        invariant
            ch@.len() >= NUM_CHALLENGES,
            k <= hs@.len(),
            out@.len() == k,
            forall|i: int| 0 <= i < k ==> is_unit(#[trigger] combine(ch@, hs@[i])),
            forall|i: int|
                0 <= i < k ==> #[trigger] out@[i] as int == step_factor(ch@, hs@[i]) && is_felt(
                    out@[i] as int,
                ),
        decreases hs@.len() - k,
    {
        let h = hs[k];
        let f = combine_exec(ch, &h);
        match felt_try_inv(f) {
            None => {
                assert(combine(ch@, hs@[k as int]) == 0);
                return None;
            },
            Some(g) => {
                match h.kind {
                    HintKind::Insert => out.push(f),
                    HintKind::Remove => out.push(g),
                }
            },
        }
        k += 1;
    }
    Some(out)
}

impl AuxTraceHints {
    /// Builds the overflow-table column `p1`: 1 at row 0, then at each row the previous value
    /// times the combined payload of an insert at that row, times its inverse for a remove,
    /// and unchanged where the row has no hint.
    pub fn build_aux_column(&self, main_trace: &Matrix, rand_elements: &[u64]) -> (r: Result<
        Vec<u64>,
        AuxTraceError,
    >)
        ensures
            column_view(r) == build_spec(*main_trace, self.hints@, rand_elements@),
            r is Ok ==> all_units(self.hints@, rand_elements@),
    {
        let hs = &self.hints;
        if main_trace.num_rows == 0 || rand_elements.len() < NUM_CHALLENGES {
            return Err(AuxTraceError::DimensionMismatch);
        }
        let n = main_trace.num_rows;
        if !check_log(hs, n) {
            return Err(AuxTraceError::MalformedHintLog);
        }
        let factors = match step_factors(hs, rand_elements) {
            None => {
                return Err(AuxTraceError::DegenerateChallenge);
            },
            Some(f) => f,
        };
        let ghost ch = rand_elements@;
        let mut col: Vec<u64> = Vec::new();
        let mut cur: u64 = 1;
        col.push(cur);
        proof {
            lemma_count_upto_bounds(hs@, 0, 0);
            if hs@.len() > 0 {
                assert(hs@[0].row >= 1);
            }
            lemma_count_upto(hs@, 0, 0, 0);
        }
        let mut row: usize = 1;
        let mut k: usize = 0;
        while row < n
            invariant
                1 <= row <= n,
                n == main_trace.num_rows,
                hs == &self.hints,
                ch == rand_elements@,
                log_ok(hs@, n as nat),
                factors@.len() == hs@.len(),
                forall|i: int|
                    0 <= i < hs@.len() ==> #[trigger] factors@[i] as int == step_factor(
                        ch,
                        hs@[i],
                    ) && is_felt(factors@[i] as int),
                k <= hs@.len(),
                forall|i: int| 0 <= i < k ==> #[trigger] hs@[i].row < row,
                k == hs@.len() || hs@[k as int].row >= row,
                cur as int == running(hs@, ch, k as nat),
                col@.len() == row,
                forall|j: int| 0 <= j < row ==> #[trigger] col@[j] == col_value(hs@, ch, j),
            decreases n - row,
        {
            proof {
                lemma_running_felt(hs@, ch, k as nat);
            }
            if k < hs.len() && hs[k].row == row {
                cur = felt_mul(cur, factors[k]);
                k += 1;
            }
            proof {
                if k < hs@.len() {
                    if k > 0 {
                        assert(hs@[k - 1].row < hs@[k as int].row);
                    }
                }
                assert forall|j: int| 0 <= j < k implies #[trigger] hs@[j].row <= row by {}
                lemma_count_upto(hs@, row as int, 0, k as int);
            }
            col.push(cur);
            row += 1;
        }
        proof {
            assert(col@ =~= column_spec(hs@, ch, n as nat));
        }
        Ok(col)
    }
}

} // verus!

verus! {

/// Builds the stack's auxiliary columns; the overflow table contributes the single column `p1`.
pub fn build_aux_columns(main_trace: &Matrix, aux_trace_hints: &AuxTraceHints, rand_elements: &[u64]) -> (r:
    Result<Vec<Vec<u64>>, AuxTraceError>)
    ensures
        match (r, build_spec(*main_trace, aux_trace_hints.hints@, rand_elements@)) {
            (Ok(cols), Ok(p1)) => cols@.len() == 1 && cols@[0]@ == p1,
            (Err(e), Err(f)) => e == f,
            _ => false,
        },
{
    let p1 = aux_trace_hints.build_aux_column(main_trace, rand_elements)?;
    Ok(vec![p1])
}

} // verus!
