use vstd::prelude::*;
use vstd::pervasive::VecAdditionalExecFns;
use crate::poll::{Poll, PollView, VotingAlgorithm, find_name};
use crate::matrix::{grid_of, grid_get, grid_new, grid_set, matrix_of, discovered_voters, build_vote_matrix, lemma_discovered_voters_wf};
use crate::rp_error::{RPError, RPErrorView};
use crate::desc::{date_str_of, format_deadline};

verus! {

// ---------------------------------------------------------------------------
// The tally result.
// ---------------------------------------------------------------------------

/// An exact score: the fraction `num / den`, with `den >= 1`.  The engine
/// avoids machine floats; a caller that wants one divides at the edge.
#[derive(Debug, PartialEq, Eq, Clone, Copy, Structural)]
pub struct ScoreFrac {
    pub num: u64,
    pub den: u64,
}

/// The outcome of tallying one poll: the ranked choice names with their
/// scores, a reference maximum for display scaling, and the `pending` flag
/// that replaces the ranking when completeness is required but unmet.
#[derive(Debug, PartialEq, Clone)]
pub struct PollResult {
    pub name: String,
    pub desc: String,
    /// Filled by the caller for user feedback; the engine leaves it empty.
    pub user: String,
    pub algorithm: String,
    pub deadline_date: String,
    /// The poll's allowed participants.
    pub voters: Vec<String>,
    /// The choice names, best first.
    pub votes: Vec<String>,
    /// The scores, parallel to `votes`.
    pub score: Vec<ScoreFrac>,
    pub score_max: u64,
    /// The distinguished "no ranking yet" success value.
    pub pending: bool,
}

pub struct PollResultView {
    pub name: Seq<char>,
    pub desc: Seq<char>,
    pub user: Seq<char>,
    pub algorithm: Seq<char>,
    pub deadline_date: Seq<char>,
    pub voters: Seq<Seq<char>>,
    pub votes: Seq<Seq<char>>,
    pub score: Seq<ScoreFrac>,
    pub score_max: int,
    pub pending: bool,
}

impl View for PollResult {
    type V = PollResultView;

    open spec fn view(&self) -> PollResultView {
        PollResultView {
            name: self.name@,
            desc: self.desc@,
            user: self.user@,
            algorithm: self.algorithm@,
            deadline_date: self.deadline_date@,
            voters: self.voters.deep_view(),
            votes: self.votes.deep_view(),
            score: self.score@,
            score_max: self.score_max as int,
            pending: self.pending,
        }
    }
}

// ---------------------------------------------------------------------------
// Per-algorithm scoring rules, over the mathematical matrix.
// ---------------------------------------------------------------------------

/// Sum of column `c` over the first `n` rows.
pub open spec fn col_sum_upto(g: Seq<Seq<u32>>, c: int, n: int) -> int
    decreases n,
{
    if n <= 0 {
        0
    } else {
        col_sum_upto(g, c, n - 1) + g[n - 1][c]
    }
}

pub open spec fn col_sum(g: Seq<Seq<u32>>, c: int) -> int {
    col_sum_upto(g, c, g.len() as int)
}

/// The largest column sum among the first `n` columns (0 when there are none).
pub open spec fn max_col_sum_upto(g: Seq<Seq<u32>>, n: int) -> int
    decreases n,
{
    if n <= 0 {
        0
    } else {
        let prev = max_col_sum_upto(g, n - 1);
        if col_sum(g, n - 1) > prev {
            col_sum(g, n - 1)
        } else {
            prev
        }
    }
}

/// How many of the first `n` cells of `row` are strictly below `v`.
pub open spec fn count_less_upto(row: Seq<u32>, v: u32, n: int) -> int
    decreases n,
{
    if n <= 0 {
        0
    } else {
        count_less_upto(row, v, n - 1) + (if row[n - 1] < v { 1int } else { 0int })
    }
}

/// A cell's normalized rank under the Bordat rule: 1 for the row's smallest
/// raw score, up to the column count for its largest.  Well defined when the
/// row's raw scores are pairwise distinct, which the engine checks first.
pub open spec fn bordat_rank(row: Seq<u32>, c: int) -> int {
    1 + count_less_upto(row, row[c], row.len() as int)
}

/// The matrix with every row's raw scores replaced by their ranks.
pub open spec fn norm_grid(g: Seq<Seq<u32>>) -> Seq<Seq<u32>> {
    Seq::new(g.len(), |r: int| Seq::new(g[r].len(), |c: int| bordat_rank(g[r], c) as u32))
}

/// Over the first `n` rows: in how many does choice `c1` outscore `c2`?
pub open spec fn count_greater_upto(g: Seq<Seq<u32>>, c1: int, c2: int, n: int) -> int
    decreases n,
{
    if n <= 0 {
        0
    } else {
        count_greater_upto(g, c1, c2, n - 1) + (if g[n - 1][c1] > g[n - 1][c2] { 1int } else { 0int })
    }
}

/// Choice `c1` wins its duel against `c2` when it outscores `c2` in more than
/// half of all rows.  A choice never beats itself.
pub open spec fn beats(g: Seq<Seq<u32>>, c1: int, c2: int) -> bool {
    count_greater_upto(g, c1, c2, g.len() as int) > g.len() as int / 2
}

/// How many duels choice `c` wins against the first `n` choices.
pub open spec fn duel_count_upto(g: Seq<Seq<u32>>, c: int, n: int) -> int
    decreases n,
{
    if n <= 0 {
        0
    } else {
        duel_count_upto(g, c, n - 1) + (if beats(g, c, n - 1) { 1int } else { 0int })
    }
}

/// The first index holding the maximum among the first `n` cells of `row`
/// (`n >= 1`).
pub open spec fn first_max_upto(row: Seq<u32>, n: int) -> int
    decreases n,
{
    if n <= 1 {
        0
    } else {
        let prev = first_max_upto(row, n - 1);
        if row[n - 1] > row[prev] {
            n - 1
        } else {
            prev
        }
    }
}

/// How many of the first `n` rows have choice `c` as their first-ranked
/// (maximal) choice.
pub open spec fn fc_count_upto(g: Seq<Seq<u32>>, c: int, n: int) -> int
    decreases n,
{
    if n <= 0 {
        0
    } else {
        fc_count_upto(g, c, n - 1) + (if first_max_upto(g[n - 1], g[n - 1].len() as int) == c { 1int } else { 0int })
    }
}

/// Some voter gave the same raw score to two choices in this row.
pub open spec fn row_has_dup(row: Seq<u32>) -> bool {
    exists|i: int, j: int| 0 <= i < j < row.len() && row[i] == row[j]
}

pub open spec fn has_dup_row(g: Seq<Seq<u32>>) -> bool {
    exists|r: int| 0 <= r < g.len() && row_has_dup(#[trigger] g[r])
}

/// The rules that demand pairwise-distinct raw scores per voter.
pub open spec fn needs_distinct(a: VotingAlgorithm) -> bool {
    a is Bordat || a is Condorcet || a is FirstChoice
}

/// The declared-but-unimplemented rules.
pub open spec fn unimplemented_alg(a: VotingAlgorithm) -> bool {
    a is FrenchSystem || a is SuccessiveElimination
}

pub open spec fn algorithm_name(a: VotingAlgorithm) -> Seq<char> {
    match a {
        VotingAlgorithm::Max => "Max"@,
        VotingAlgorithm::Binary => "Binary"@,
        VotingAlgorithm::Bordat => "Bordat"@,
        VotingAlgorithm::Condorcet => "Condorcet"@,
        VotingAlgorithm::FirstChoice => "FirstChoice"@,
        VotingAlgorithm::FrenchSystem => "FrenchSystem"@,
        VotingAlgorithm::SuccessiveElimination => "SuccessiveElimination"@,
    }
}

/// The raw (unsorted) score of every choice, as exact fractions, under the
/// poll's algorithm.  Empty for the unimplemented rules.
pub open spec fn scores_of(p: PollView) -> Seq<(int, int)> {
    let g = matrix_of(p);
    let rows = g.len() as int;
    let cols = p.choices.len() as int;
    let den = if rows == 0 { 1int } else { rows };
    match p.voting_algorithm {
        VotingAlgorithm::Max => Seq::new(p.choices.len(), |c: int| (col_sum(g, c), den)),
        VotingAlgorithm::Binary => Seq::new(p.choices.len(), |c: int| (col_sum(g, c), 1int)),
        VotingAlgorithm::Bordat => Seq::new(p.choices.len(), |c: int| (col_sum(norm_grid(g), c), den)),
        VotingAlgorithm::Condorcet => Seq::new(p.choices.len(), |c: int| (duel_count_upto(g, c, cols), 1int)),
        VotingAlgorithm::FirstChoice => Seq::new(p.choices.len(), |c: int| (fc_count_upto(g, c, rows), 1int)),
        VotingAlgorithm::FrenchSystem => Seq::empty(),
        VotingAlgorithm::SuccessiveElimination => Seq::empty(),
    }
}

/// The reference maximum reported beside the scores.
pub open spec fn score_max_of(p: PollView) -> int {
    let g = matrix_of(p);
    match p.voting_algorithm {
        VotingAlgorithm::Max => 5,
        VotingAlgorithm::Bordat => 5,
        VotingAlgorithm::Binary => max_col_sum_upto(g, p.choices.len() as int),
        VotingAlgorithm::Condorcet => p.choices.len() as int,
        VotingAlgorithm::FirstChoice => p.choices.len() as int,
        VotingAlgorithm::FrenchSystem => 0,
        VotingAlgorithm::SuccessiveElimination => 0,
    }
}

// ---------------------------------------------------------------------------
// The stable descending order on fractional scores.
// ---------------------------------------------------------------------------

pub open spec fn frac_gt(a: (int, int), b: (int, int)) -> bool {
    a.0 * b.1 > b.0 * a.1
}

pub open spec fn frac_eq(a: (int, int), b: (int, int)) -> bool {
    a.0 * b.1 == b.0 * a.1
}

/// Choice index `x` must precede index `y` in the ranking: its score is
/// strictly higher, or the scores tie and `x` is declared earlier.
pub open spec fn ord_before(s: Seq<(int, int)>, x: int, y: int) -> bool {
    frac_gt(s[x], s[y]) || (frac_eq(s[x], s[y]) && x < y)
}

pub open spec fn to_int_seq(u: Seq<usize>) -> Seq<int> {
    u.map_values(|x: usize| x as int)
}

pub open spec fn frac_seq(s: Seq<ScoreFrac>) -> Seq<(int, int)> {
    s.map_values(|f: ScoreFrac| (f.num as int, f.den as int))
}

/// `ord` is the ranking order of the scores `s`: a permutation of the choice
/// indices, sorted by descending score, ties kept in declaration order.
/// There is exactly one such order.
pub open spec fn stable_desc_order(ord: Seq<int>, s: Seq<(int, int)>) -> bool {
    &&& ord.len() == s.len()
    &&& forall|k: int| 0 <= k < ord.len() ==> 0 <= #[trigger] ord[k] < s.len()
    &&& ord.no_duplicates()
    &&& forall|k: int, l: int| 0 <= k < l < ord.len() ==> ord_before(s, ord[k], ord[l])
}

/// Transitivity of the fraction order, for positive denominators.
pub proof fn lemma_frac_trans(a: (int, int), b: (int, int), c: (int, int))
    requires
        a.1 >= 1,
        b.1 >= 1,
        c.1 >= 1,
    ensures
        frac_gt(a, b) && frac_gt(b, c) ==> frac_gt(a, c),
        frac_gt(a, b) && frac_eq(b, c) ==> frac_gt(a, c),
        frac_eq(a, b) && frac_gt(b, c) ==> frac_gt(a, c),
        frac_eq(a, b) && frac_eq(b, c) ==> frac_eq(a, c),
{
    assert((a.0 * b.1 >= b.0 * a.1 && b.0 * c.1 >= c.0 * b.1 ==> a.0 * c.1 >= c.0 * a.1)
        && (a.0 * b.1 > b.0 * a.1 && b.0 * c.1 >= c.0 * b.1 ==> a.0 * c.1 > c.0 * a.1)
        && (a.0 * b.1 >= b.0 * a.1 && b.0 * c.1 > c.0 * b.1 ==> a.0 * c.1 > c.0 * a.1)
        && (a.0 * b.1 == b.0 * a.1 && b.0 * c.1 == c.0 * b.1 ==> a.0 * c.1 == c.0 * a.1))
        by (nonlinear_arith)
        requires
            a.1 >= 1,
            b.1 >= 1,
            c.1 >= 1,
    {}
}

/// Any two stable descending orders of the same scores are the same order:
/// the ranking a tally reports is uniquely determined.
pub proof fn lemma_stable_order_unique(s: Seq<(int, int)>, ord1: Seq<int>, ord2: Seq<int>)
    requires
        stable_desc_order(ord1, s),
        stable_desc_order(ord2, s),
    ensures
        ord1 == ord2,
{
    lemma_stable_order_agree(s, ord1, ord2, ord1.len() as int);
    assert(ord1 =~= ord2);
}

/// Helper: every value in `0..s.len()` occurs in a stable order, and its
/// position is returned.
proof fn lemma_perm_position(ord: Seq<int>, s: Seq<(int, int)>, v: int) -> (k: int)
    requires
        stable_desc_order(ord, s),
        0 <= v < s.len(),
    ensures
        0 <= k < ord.len() && ord[k] == v,
{
    broadcast use vstd::set::group_set_axioms;
    // ord is a duplicate-free sequence of values in 0..n of length n, so it
    // hits every value: otherwise its set would sit inside 0..n minus one
    // value, which is too small.
    let n = s.len() as int;
    let range = vstd::set_lib::set_int_range(0, n);
    ord.unique_seq_to_set();
    vstd::set_lib::lemma_int_range(0, n);
    if !ord.contains(v) {
        assert(ord.to_set().subset_of(range.remove(v))) by {
            assert forall|x: int| ord.to_set().contains(x) implies range.remove(v).contains(x) by {
                assert(ord.contains(x));
                let i = choose|i: int| 0 <= i < ord.len() && ord[i] == x;
            }
        }
        vstd::set_lib::lemma_len_subset(ord.to_set(), range.remove(v));
        assert(range.remove(v).len() == n - 1);
        assert(false);
    }
    let k = choose|k: int| 0 <= k < ord.len() && ord[k] == v;
    k
}

/// Two rankings cannot disagree: `ord_before` orders every distinct pair one
/// way only, so the orders agree position by position.
proof fn lemma_stable_order_agree(s: Seq<(int, int)>, ord1: Seq<int>, ord2: Seq<int>, k: int)
    requires
        stable_desc_order(ord1, s),
        stable_desc_order(ord2, s),
        0 <= k <= ord1.len(),
    ensures
        forall|j: int| 0 <= j < k ==> ord1[j] == ord2[j],
    decreases k,
{
    if k > 0 {
        lemma_stable_order_agree(s, ord1, ord2, k - 1);
        let kk = k - 1;
        if ord1[kk] != ord2[kk] {
            let v1 = ord1[kk];
            let v2 = ord2[kk];
            let p12 = lemma_perm_position(ord2, s, v1);
            let p21 = lemma_perm_position(ord1, s, v2);
            // v1 cannot sit before kk in ord2: the orders agree there, and
            // ord1 has no duplicates.  Likewise for v2 in ord1.
            if p12 < kk {
                assert(ord1[p12] == ord2[p12]);
                assert(false);
            }
            if p21 < kk {
                assert(ord2[p21] == ord1[p21]);
                assert(false);
            }
            assert(p12 != kk && p21 != kk);
            // So ord2 puts v2 strictly before v1, and ord1 puts v1 strictly
            // before v2; ord_before cannot hold both ways.
            assert(ord_before(s, v2, v1));
            assert(ord_before(s, v1, v2));
            assert(false);
        }
    }
}

// ---------------------------------------------------------------------------
// Small verified helpers.
// ---------------------------------------------------------------------------

/// The displayed name of an algorithm.
pub fn algorithm_label(a: VotingAlgorithm) -> (r: String)
    ensures
        r@ == algorithm_name(a),
{
    match a {
        VotingAlgorithm::Max => String::from_str("Max"),
        VotingAlgorithm::Binary => String::from_str("Binary"),
        VotingAlgorithm::Bordat => String::from_str("Bordat"),
        VotingAlgorithm::Condorcet => String::from_str("Condorcet"),
        VotingAlgorithm::FirstChoice => String::from_str("FirstChoice"),
        VotingAlgorithm::FrenchSystem => String::from_str("FrenchSystem"),
        VotingAlgorithm::SuccessiveElimination => String::from_str("SuccessiveElimination"),
    }
}

/// `a > b` on exact fractions, by cross-multiplication in 128 bits.
fn frac_gt_exec(a: &ScoreFrac, b: &ScoreFrac) -> (r: bool)
    ensures
        r == frac_gt((a.num as int, a.den as int), (b.num as int, b.den as int)),
{
    proof {
        assert((a.num as int) * (b.den as int) <= u128::MAX && (b.num as int) * (a.den as int) <= u128::MAX)
            by (nonlinear_arith)
            requires
                a.num <= u64::MAX,
                b.num <= u64::MAX,
                a.den <= u64::MAX,
                b.den <= u64::MAX,
        {}
    }
    (a.num as u128) * (b.den as u128) > (b.num as u128) * (a.den as u128)
}


// ---------------------------------------------------------------------------
// Bounds lemmas for the counting specs.
// ---------------------------------------------------------------------------

proof fn lemma_count_less_bound(row: Seq<u32>, v: u32, n: int)
    ensures
        0 <= count_less_upto(row, v, n) <= (if n >= 0 { n } else { 0 }),
    decreases n,
{
    if n > 0 {
        lemma_count_less_bound(row, v, n - 1);
    }
}

/// The cell a rank is computed for never counts itself, so a rank is at most
/// the number of columns.
proof fn lemma_count_less_excludes(row: Seq<u32>, c: int, n: int)
    requires
        0 <= c < n <= row.len(),
    ensures
        count_less_upto(row, row[c], n) <= n - 1,
    decreases n,
{
    lemma_count_less_bound(row, row[c], n - 1);
    if c < n - 1 {
        lemma_count_less_excludes(row, c, n - 1);
    }
}

proof fn lemma_first_max_range(row: Seq<u32>, n: int)
    requires
        n >= 1,
    ensures
        0 <= first_max_upto(row, n) < n,
    decreases n,
{
    if n > 1 {
        lemma_first_max_range(row, n - 1);
    }
}

// ---------------------------------------------------------------------------
// The completeness and distinct-scores checks.
// ---------------------------------------------------------------------------

/// Whether every allowed participant has a non-zero recorded score for every
/// choice.
fn check_complete(poll: &Poll) -> (b: bool)
    requires
        poll@.wf(),
    ensures
        b == poll@.complete(),
{
    let ghost p = poll@;
    let na = poll.allowed_participant.len();
    let nc = poll.choices.len();
    for a in 0..na
        invariant
            p == poll@,
            p.wf(),
            na == p.allowed_participant.len(),
            nc == p.choices.len(),
            forall|aa: int, cc: int|
                0 <= aa < a && 0 <= cc < nc
                    ==> (#[trigger] p.choices[cc]).score_of(#[trigger] p.allowed_participant[aa]) != 0,
    {
        for c in 0..nc
            invariant
                p == poll@,
                p.wf(),
                a < na,
                na == p.allowed_participant.len(),
                nc == p.choices.len(),
                forall|aa: int, cc: int|
                    0 <= aa < a && 0 <= cc < nc
                        ==> (#[trigger] p.choices[cc]).score_of(#[trigger] p.allowed_participant[aa]) != 0,
                forall|cc: int|
                    0 <= cc < c
                        ==> (#[trigger] p.choices[cc]).score_of(p.allowed_participant[a as int]) != 0,
        {
            let ghost ch = p.choices[c as int];
            let ghost who = p.allowed_participant[a as int];
            proof {
                assert(ch.wf(p.allowed_participant));
                ch.voter.index_of_first_ensures(who);
            }
            match find_name(&poll.choices[c].voter, &poll.allowed_participant[a]) {
                Some(i) => {
                    if poll.choices[c].vote[i] == 0 {
                        proof {
                            assert(ch.score_of(who) == 0);
                        }
                        return false;
                    }
                    proof {
                        assert(ch.score_of(who) == ch.vote[i as int]);
                    }
                },
                None => {
                    proof {
                        assert(ch.score_of(who) == 0);
                    }
                    return false;
                },
            }
        }
    }
    true
}

/// Whether one row holds the same value twice.
fn row_dup(grid: &array2d::Array2D<u32>, r: usize, cols: usize) -> (b: bool)
    requires
        r < grid_of(*grid).len(),
        grid_of(*grid)[r as int].len() == cols,
    ensures
        b == row_has_dup(grid_of(*grid)[r as int]),
{
    let ghost row = grid_of(*grid)[r as int];
    for i in 0..cols
        invariant
            r < grid_of(*grid).len(),
            row == grid_of(*grid)[r as int],
            row.len() == cols,
            forall|x: int, y: int| 0 <= x < y < cols && x < i ==> row[x] != row[y],
    {
        let ghost ii = i as int;
        let vi = grid_get(grid, r, i);
        let mut j = i + 1;
        while j < cols
            invariant
                r < grid_of(*grid).len(),
                row == grid_of(*grid)[r as int],
                row.len() == cols,
                ii == i as int,
                i < cols,
                vi == row[ii],
                i < j,
                forall|y: int| ii < y < j ==> row[ii] != row[y],
            decreases cols - j,
        {
            if grid_get(grid, r, j) == vi {
                proof {
                    assert(row[ii] == row[j as int]);
                }
                return true;
            }
            j = j + 1;
        }
    }
    false
}

/// Finds the first row holding a duplicated value, if any.
fn find_dup_row(grid: &array2d::Array2D<u32>, rows: usize, cols: usize) -> (r: Option<usize>)
    requires
        grid_of(*grid).len() == rows,
        forall|rr: int| 0 <= rr < rows ==> (#[trigger] grid_of(*grid)[rr]).len() == cols,
    ensures
        match r {
            Some(rr) => {
                &&& (rr as int) < rows
                &&& row_has_dup(grid_of(*grid)[rr as int])
                &&& forall|q: int| 0 <= q < (rr as int) ==> !row_has_dup(#[trigger] grid_of(*grid)[q])
            },
            None => !has_dup_row(grid_of(*grid)),
        },
{
    for rr in 0..rows
        invariant
            grid_of(*grid).len() == rows,
            forall|r2: int| 0 <= r2 < rows ==> (#[trigger] grid_of(*grid)[r2]).len() == cols,
            forall|q: int| 0 <= q < rr ==> !row_has_dup(#[trigger] grid_of(*grid)[q]),
    {
        if row_dup(grid, rr, cols) {
            return Some(rr);
        }
    }
    None
}

// ---------------------------------------------------------------------------
// Per-algorithm scoring.
// ---------------------------------------------------------------------------

/// The sum of every column, exactly.
fn column_sums(grid: &array2d::Array2D<u32>, rows: usize, cols: usize) -> (r: Vec<u64>)
    requires
        grid_of(*grid).len() == rows,
        forall|rr: int| 0 <= rr < rows ==> (#[trigger] grid_of(*grid)[rr]).len() == cols,
        rows <= u32::MAX,
    ensures
        r@.len() == cols,
        forall|c: int| 0 <= c < cols ==> (#[trigger] r@[c]) as int == col_sum(grid_of(*grid), c),
{
    let ghost g = grid_of(*grid);
    let mut sums: Vec<u64> = Vec::new();
    for c in 0..cols
        invariant
            g == grid_of(*grid),
            g.len() == rows,
            forall|rr: int| 0 <= rr < rows ==> (#[trigger] g[rr]).len() == cols,
            rows <= u32::MAX,
            sums@.len() == c,
            forall|cc: int| 0 <= cc < c ==> (#[trigger] sums@[cc]) as int == col_sum(g, cc),
    {
        let mut sum: u64 = 0;
        for rr in 0..rows
            invariant
                g == grid_of(*grid),
                g.len() == rows,
                forall|r2: int| 0 <= r2 < rows ==> (#[trigger] g[r2]).len() == cols,
                rows <= u32::MAX,
                c < cols,
                sum as int == col_sum_upto(g, c as int, rr as int),
                sum as int <= (rr as int) * 0xffff_ffff,
        {
            let v = grid_get(grid, rr, c);
            proof {
                assert((rr as int) * 0xffff_ffff + 0xffff_ffff == ((rr as int) + 1) * 0xffff_ffff) by (nonlinear_arith) {}
                assert(((rr as int) + 1) * 0xffff_ffff <= 0xffff_ffffint * 0xffff_ffff) by (nonlinear_arith)
                    requires (rr as int) + 1 <= 0xffff_ffff,
                {}
            }
            sum = sum + (v as u64);
        }
        sums.push(sum);
    }
    sums
}

/// The Bordat-normalized grid: each cell replaced by its rank within its row.
fn bordat_normalize(grid: &array2d::Array2D<u32>, rows: usize, cols: usize) -> (r: array2d::Array2D<u32>)
    requires
        grid_of(*grid).len() == rows,
        forall|rr: int| 0 <= rr < rows ==> (#[trigger] grid_of(*grid)[rr]).len() == cols,
        cols <= u32::MAX,
        rows * cols <= usize::MAX,
    ensures
        grid_of(r) == norm_grid(grid_of(*grid)),
{
    let ghost g = grid_of(*grid);
    let mut out = grid_new(rows, cols);
    for rr in 0..rows
        invariant
            g == grid_of(*grid),
            g.len() == rows,
            forall|r2: int| 0 <= r2 < rows ==> (#[trigger] g[r2]).len() == cols,
            cols <= u32::MAX,
            grid_of(out).len() == rows,
            forall|r2: int| 0 <= r2 < rows ==> (#[trigger] grid_of(out)[r2]).len() == cols,
            forall|r2: int, c2: int|
                0 <= r2 < rr && 0 <= c2 < cols
                    ==> grid_of(out)[r2][c2] == (bordat_rank(g[r2], c2) as u32),
    {
        for c in 0..cols
            invariant
                g == grid_of(*grid),
                g.len() == rows,
                forall|r2: int| 0 <= r2 < rows ==> (#[trigger] g[r2]).len() == cols,
                cols <= u32::MAX,
                rr < rows,
                grid_of(out).len() == rows,
                forall|r2: int| 0 <= r2 < rows ==> (#[trigger] grid_of(out)[r2]).len() == cols,
                forall|r2: int, c2: int|
                    0 <= r2 < rr && 0 <= c2 < cols
                        ==> grid_of(out)[r2][c2] == (bordat_rank(g[r2], c2) as u32),
                forall|c2: int|
                    0 <= c2 < c ==> grid_of(out)[rr as int][c2] == (bordat_rank(g[rr as int], c2) as u32),
        {
            let b = grid_get(grid, rr, c);
            let mut count: u64 = 0;
            for cc in 0..cols
                invariant
                    g == grid_of(*grid),
                    g.len() == rows,
                    forall|r2: int| 0 <= r2 < rows ==> (#[trigger] g[r2]).len() == cols,
                    rr < rows,
                    c < cols,
                    b == g[rr as int][c as int],
                    count as int == count_less_upto(g[rr as int], b, cc as int),
                    count as int <= cc as int,
            {
                let a = grid_get(grid, rr, cc);
                if a < b {
                    count = count + 1;
                }
            }
            proof {
                lemma_count_less_excludes(g[rr as int], c as int, cols as int);
            }
            let ghost old_out = grid_of(out);
            grid_set(&mut out, rr, c, (count + 1) as u32);
            proof {
                assert(count + 1 <= cols);
                assert(grid_of(out)[rr as int][c as int] == (bordat_rank(g[rr as int], c as int) as u32));
            }
        }
    }
    proof {
        assert(grid_of(out) =~= norm_grid(g)) by {
            assert forall|r2: int| 0 <= r2 < rows implies grid_of(out)[r2] =~= norm_grid(g)[r2] by {
                assert(norm_grid(g)[r2].len() == g[r2].len());
                assert forall|c2: int| 0 <= c2 < cols implies grid_of(out)[r2][c2] == norm_grid(g)[r2][c2] by {}
            }
        }
    }
    out
}

/// Condorcet duel wins per choice.
fn condorcet_scores(grid: &array2d::Array2D<u32>, rows: usize, cols: usize) -> (r: Vec<u64>)
    requires
        grid_of(*grid).len() == rows,
        forall|rr: int| 0 <= rr < rows ==> (#[trigger] grid_of(*grid)[rr]).len() == cols,
    ensures
        r@.len() == cols,
        forall|c: int| 0 <= c < cols ==> (#[trigger] r@[c]) as int == duel_count_upto(grid_of(*grid), c, cols as int),
{
    let ghost g = grid_of(*grid);
    let threshold = rows / 2;
    let mut out: Vec<u64> = Vec::new();
    for c in 0..cols
        invariant
            g == grid_of(*grid),
            g.len() == rows,
            forall|r2: int| 0 <= r2 < rows ==> (#[trigger] g[r2]).len() == cols,
            threshold == rows / 2,
            out@.len() == c,
            forall|cc: int| 0 <= cc < c ==> (#[trigger] out@[cc]) as int == duel_count_upto(g, cc, cols as int),
    {
        let mut duel: u64 = 0;
        for c2 in 0..cols
            invariant
                g == grid_of(*grid),
                g.len() == rows,
                forall|r2: int| 0 <= r2 < rows ==> (#[trigger] g[r2]).len() == cols,
                threshold == rows / 2,
                c < cols,
                duel as int == duel_count_upto(g, c as int, c2 as int),
                duel as int <= c2 as int,
        {
            let mut count: u64 = 0;
            for rr in 0..rows
                invariant
                    g == grid_of(*grid),
                    g.len() == rows,
                    forall|r2: int| 0 <= r2 < rows ==> (#[trigger] g[r2]).len() == cols,
                    c < cols,
                    c2 < cols,
                    count as int == count_greater_upto(g, c as int, c2 as int, rr as int),
                    count as int <= rr as int,
            {
                if grid_get(grid, rr, c) > grid_get(grid, rr, c2) {
                    count = count + 1;
                }
            }
            if count > threshold as u64 {
                duel = duel + 1;
            }
        }
        out.push(duel);
    }
    out
}

/// First-choice tallies: one point per row, to the row's first maximal cell.
fn firstchoice_scores(grid: &array2d::Array2D<u32>, rows: usize, cols: usize) -> (r: Vec<u64>)
    requires
        grid_of(*grid).len() == rows,
        forall|rr: int| 0 <= rr < rows ==> (#[trigger] grid_of(*grid)[rr]).len() == cols,
        rows > 0 ==> cols > 0,
    ensures
        r@.len() == cols,
        forall|c: int| 0 <= c < cols ==> (#[trigger] r@[c]) as int == fc_count_upto(grid_of(*grid), c, rows as int),
{
    let ghost g = grid_of(*grid);
    let mut counts: Vec<u64> = Vec::new();
    for c in 0..cols
        invariant
            counts@.len() == c,
            forall|cc: int| 0 <= cc < c ==> (#[trigger] counts@[cc]) == 0u64,
    {
        counts.push(0);
    }
    proof {
        assert forall|cc: int| 0 <= cc < cols implies (#[trigger] counts@[cc]) as int == fc_count_upto(g, cc, 0) by {}
    }
    for rr in 0..rows
        invariant
            g == grid_of(*grid),
            g.len() == rows,
            forall|r2: int| 0 <= r2 < rows ==> (#[trigger] g[r2]).len() == cols,
            rows > 0 ==> cols > 0,
            counts@.len() == cols,
            forall|cc: int| 0 <= cc < cols ==> (#[trigger] counts@[cc]) as int == fc_count_upto(g, cc, rr as int),
            forall|cc: int| 0 <= cc < cols ==> (#[trigger] counts@[cc]) as int <= rr as int,
    {
        let mut best: usize = 0;
        let mut c: usize = 1;
        while c < cols
            invariant
                g == grid_of(*grid),
                g.len() == rows,
                forall|r2: int| 0 <= r2 < rows ==> (#[trigger] g[r2]).len() == cols,
                rr < rows,
                cols > 0,
                1 <= c,
                best < cols,
                c <= cols,
                best as int == first_max_upto(g[rr as int], c as int),
            decreases cols - c,
        {
            proof {
                lemma_first_max_range(g[rr as int], c as int);
            }
            if grid_get(grid, rr, c) > grid_get(grid, rr, best) {
                best = c;
            }
            c = c + 1;
        }
        proof {
            assert(g[rr as int].len() == cols);
            assert(best as int == first_max_upto(g[rr as int], g[rr as int].len() as int));
        }
        let ghost old_counts = counts@;
        let prev = counts[best];
        counts.set(best, prev + 1);
        proof {
            assert forall|cc: int| 0 <= cc < cols implies (#[trigger] counts@[cc]) as int == fc_count_upto(g, cc, rr + 1) by {
                if cc == best as int {
                    assert(counts@[cc] == old_counts[cc] + 1);
                } else {
                    assert(counts@[cc] == old_counts[cc]);
                }
            }
        }
    }
    counts
}


// ---------------------------------------------------------------------------
// The stable sort.
// ---------------------------------------------------------------------------

/// The ranking order of the given scores: the choice indices, sorted by
/// descending score with ties kept in declaration order (an insertion sort,
/// which swaps only on a strictly better score).
fn sort_indices(scores: &Vec<ScoreFrac>) -> (ord: Vec<usize>)
    requires
        forall|k: int| 0 <= k < scores@.len() ==> (#[trigger] scores@[k]).den >= 1,
    ensures
        stable_desc_order(to_int_seq(ord@), frac_seq(scores@)),
{
    let ghost s = frac_seq(scores@);
    proof {
        assert forall|k: int| 0 <= k < s.len() implies (#[trigger] s[k]).1 >= 1 by {
            assert(s[k] == (scores@[k].num as int, scores@[k].den as int));
        }
    }
    let n = scores.len();
    let mut ord: Vec<usize> = Vec::new();
    let mut i: usize = 0;
    while i < n
        invariant
            ord@.len() == i,
            i <= n,
            forall|k: int| 0 <= k < i ==> (#[trigger] ord@[k]) == k,
        decreases n - i,
    {
        ord.push(i);
        i = i + 1;
    }
    if n == 0 {
        proof {
            assert(to_int_seq(ord@).len() == 0);
            assert(to_int_seq(ord@).no_duplicates());
        }
        return ord;
    }
    let mut i: usize = 1;
    while i < n
        invariant
            n == scores@.len(),
            s == frac_seq(scores@),
            forall|k: int| 0 <= k < s.len() ==> (#[trigger] s[k]).1 >= 1,
            1 <= i <= n,
            ord@.len() == n,
            forall|k: int| 0 <= k < i ==> (#[trigger] ord@[k]) < i,
            forall|k: int| i <= k < n ==> (#[trigger] ord@[k]) == k,
            forall|k: int, l: int| 0 <= k < l < n ==> ord@[k] != ord@[l],
            forall|k: int, l: int|
                0 <= k < l < i ==> ord_before(s, ord@[k] as int, ord@[l] as int),
        decreases n - i,
    {
        // Insert the element at position i (the index i itself, the largest
        // so far) into the sorted prefix.
        let mut j: usize = i;
        proof {
            assert(ord@[i as int] == i);
        }
        while j > 0 && frac_gt_exec(&scores[ord[j]], &scores[ord[j - 1]])
            invariant
                n == scores@.len(),
                s == frac_seq(scores@),
                forall|k: int| 0 <= k < s.len() ==> (#[trigger] s[k]).1 >= 1,
                1 <= i < n,
                0 <= j <= i,
                ord@.len() == n,
                ord@[j as int] == i,
                forall|k: int| 0 <= k <= i ==> (#[trigger] ord@[k]) <= i,
                forall|k: int| i < k < n ==> (#[trigger] ord@[k]) == k,
                forall|k: int, l: int| 0 <= k < l < n ==> ord@[k] != ord@[l],
                forall|k: int, l: int|
                    0 <= k < l <= i && k != j && l != j
                        ==> ord_before(s, ord@[k] as int, ord@[l] as int),
                forall|l: int| j < l <= i ==> ord_before(s, i as int, ord@[l] as int),
            decreases j,
        {
            let ghost before = ord@;
            let a = ord[j - 1];
            let b = ord[j];
            ord.set(j - 1, b);
            ord.set(j, a);
            proof {
                assert(ord@ =~= before.update(j - 1, before[j as int]).update(j as int, before[j - 1]));
                // The moved element beat its predecessor strictly.
                assert(frac_gt(s[i as int], s[a as int]));
                assert(ord_before(s, i as int, a as int));
                assert forall|k: int, l: int|
                    0 <= k < l <= i && k != j - 1 && l != j - 1 implies ord_before(
                    s,
                    ord@[k] as int,
                    ord@[l] as int,
                ) by {
                    if k == j && l == j {
                    } else if l == j {
                        // ord@[l] is the old predecessor a; pair (k, j-1) held before.
                        assert(ord@[k] == before[k]);
                        assert(ord@[l] == a);
                        assert(ord_before(s, before[k] as int, before[j - 1] as int));
                    } else if k == j {
                        assert(ord@[k] == a);
                        assert(ord@[l] == before[l]);
                        assert(ord_before(s, before[j - 1] as int, before[l] as int));
                    } else {
                        assert(ord@[k] == before[k] && ord@[l] == before[l]);
                    }
                }
            }
            j = j - 1;
        }
        proof {
            // The prefix 0..=i is now sorted: positions away from j were
            // already pairwise ordered, and the inserted element fits at j.
            if j > 0 {
                let pidx = ord@[j - 1] as int;
                assert(!frac_gt(s[i as int], s[pidx]));
                assert(pidx != i);
                assert(pidx < i);
                // Totality of the cross-product comparison gives the reverse
                // direction, strictly or by a tie that respects declaration
                // order.
                assert(ord_before(s, pidx, i as int));
                assert forall|k: int| 0 <= k < j implies ord_before(s, ord@[k] as int, i as int) by {
                    if k < j - 1 {
                        assert(ord_before(s, ord@[k] as int, pidx));
                        lemma_frac_trans(s[ord@[k] as int], s[pidx], s[i as int]);
                        assert(ord@[k] as int != i);
                        assert(ord@[k] < i);
                    }
                }
            }
            assert forall|k: int, l: int| 0 <= k < l <= i implies ord_before(
                s,
                ord@[k] as int,
                ord@[l] as int,
            ) by {
                if l == j as int && k < j {
                    assert(ord_before(s, ord@[k] as int, i as int));
                } else if k == j as int && l > j {
                } else {
                }
            }
        }
        i = i + 1;
    }
    proof {
        let t = to_int_seq(ord@);
        assert(t.len() == s.len());
        assert forall|k: int| 0 <= k < t.len() implies 0 <= #[trigger] t[k] < s.len() by {
            assert(t[k] == ord@[k] as int);
        }
        assert(t.no_duplicates()) by {
            assert forall|k: int, l: int| 0 <= k < l < t.len() implies t[k] != t[l] by {
                assert(ord@[k] != ord@[l]);
            }
        }
        assert forall|k: int, l: int| 0 <= k < l < t.len() implies ord_before(s, t[k], t[l]) by {
            assert(ord_before(s, ord@[k] as int, ord@[l] as int));
        }
    }
    ord
}


// ---------------------------------------------------------------------------
// The tally itself.
// ---------------------------------------------------------------------------

/// The tally must answer with the pending placeholder instead of a ranking.
pub open spec fn tally_pending(p: PollView) -> bool {
    p.opts().show_only_complete_result && !p.complete()
}

/// The tally must fail: the algorithm has no rule, or it demands
/// pairwise-distinct scores and some voter tied two choices.  (An incomplete
/// poll under `show_only_complete_result` is answered with the pending
/// result first, not an error.)
pub open spec fn tally_err(p: PollView) -> bool {
    &&& !tally_pending(p)
    &&& (unimplemented_alg(p.voting_algorithm) || (needs_distinct(p.voting_algorithm) && has_dup_row(matrix_of(p))))
}

/// The descriptive fields every successful tally carries.
pub open spec fn tally_base_ok(resv: PollResultView, p: PollView) -> bool {
    &&& resv.name == p.name
    &&& resv.desc == p.desc
    &&& resv.user == Seq::<char>::empty()
    &&& resv.algorithm == algorithm_name(p.voting_algorithm)
    &&& resv.deadline_date == date_str_of(p.deadline_date)
    &&& resv.voters == p.allowed_participant
}

/// A ranked tally follows the order `ord`: choice names and exact scores in
/// that order.  Together with `stable_desc_order` (of which there is exactly
/// one, by `lemma_stable_order_unique`) this pins the ranking.
pub open spec fn ranked_result(resv: PollResultView, p: PollView, ord: Seq<int>) -> bool {
    let s = scores_of(p);
    &&& stable_desc_order(ord, s)
    &&& resv.votes.len() == s.len()
    &&& resv.score.len() == s.len()
    &&& forall|k: int| 0 <= k < s.len() ==> resv.votes[k] == p.choices[#[trigger] ord[k]].name
    &&& forall|k: int|
        0 <= k < s.len() ==> ((#[trigger] resv.score[k]).num as int, resv.score[k].den as int) == s[ord[k]]
}

/// The view of a tally outcome.
pub open spec fn tally_result_view(r: Result<PollResult, RPError>) -> Result<PollResultView, RPErrorView> {
    match r {
        Ok(res) => Ok(res.view()),
        Err(e) => Err(e.view()),
    }
}

/// Everything a tally outcome promises: it fails exactly under `tally_err`;
/// a success carries the poll's descriptive fields and either the pending
/// placeholder or the uniquely determined ranking; a failure names either
/// the unimplemented algorithm or the first voter with tied scores.
pub open spec fn tally_post(r: Result<PollResultView, RPErrorView>, p: PollView) -> bool {
    &&& (r is Err) == tally_err(p)
    &&& match r {
        Ok(resv) => {
            &&& tally_base_ok(resv, p)
            &&& resv.pending == tally_pending(p)
            &&& if tally_pending(p) {
                resv.votes.len() == 0 && resv.score.len() == 0 && resv.score_max == 0
            } else {
                &&& resv.score_max == score_max_of(p)
                &&& exists|ord: Seq<int>| #[trigger] ranked_result(resv, p, ord)
            }
        },
        Err(ev) => {
            if unimplemented_alg(p.voting_algorithm) {
                ev == RPErrorView::Unimplemented(algorithm_name(p.voting_algorithm))
            } else {
                exists|rr: int| {
                    &&& 0 <= rr < matrix_of(p).len()
                    &&& row_has_dup(#[trigger] matrix_of(p)[rr])
                    &&& forall|q: int| 0 <= q < rr ==> !row_has_dup(#[trigger] matrix_of(p)[q])
                    &&& ev == RPErrorView::DuplicateRank(discovered_voters(p.choices)[rr])
                }
            }
        },
    }
}

/// A rank-based rule refuses tied scores.  Whenever the selected algorithm
/// demands pairwise-distinct scores, some voter's matrix row holds a
/// duplicate, and the completeness policy has not already answered with the
/// pending placeholder, the tally is exactly the `DuplicateRank` error
/// naming the first such voter: it never silently produces a ranking.
pub proof fn lemma_duplicate_rank_refused(r: Result<PollResultView, RPErrorView>, p: PollView)
    requires
        tally_post(r, p),
        needs_distinct(p.voting_algorithm),
        has_dup_row(matrix_of(p)),
        !tally_pending(p),
    ensures
        r is Err,
        exists|rr: int| {
            &&& 0 <= rr < matrix_of(p).len()
            &&& row_has_dup(#[trigger] matrix_of(p)[rr])
            &&& forall|q: int| 0 <= q < rr ==> !row_has_dup(#[trigger] matrix_of(p)[q])
            &&& r->Err_0 == RPErrorView::DuplicateRank(discovered_voters(p.choices)[rr])
        },
{
    // A rule that demands distinct scores is implemented, so `tally_err`
    // holds through its duplicate-row case and `tally_post`'s error branch
    // names the first offending voter.
    assert(!unimplemented_alg(p.voting_algorithm));
    assert(tally_err(p));
}

/// Tallies one poll: builds the vote matrix, enforces the completeness and
/// distinct-score policies, scores every choice under the poll's algorithm,
/// and ranks the choices by descending score with ties in declaration order.
/// The preconditions are the poll invariant and the machine limit on the
/// matrix size; `is_well_formed` and a checked multiplication establish them
/// for a freshly loaded record.
pub fn compute_poll_result(poll: &Poll) -> (r: Result<PollResult, RPError>)
    requires
        poll@.wf(),
        poll@.allowed_participant.len() * poll@.choices.len() <= usize::MAX,
    ensures
        tally_post(tally_result_view(r), poll@),
{
    let ghost p = poll@;
    let ghost g = matrix_of(p);
    let (mvoters, grid) = build_vote_matrix(poll);
    let rows = mvoters.len();
    let cols = poll.choices.len();
    proof {
        lemma_discovered_voters_wf(p);
        assert(rows == g.len());
        assert forall|rr: int| 0 <= rr < rows implies (#[trigger] g[rr]).len() == cols by {}
    }

    // Completeness policy: without a complete poll, no ranking is shown.
    let complete_only = match &poll.options {
        Some(o) => o.show_only_complete_result,
        None => false,
    };
    if complete_only && !check_complete(poll) {
        return Ok(PollResult {
            name: poll.name.clone(),
            desc: poll.desc.clone(),
            user: String::new(),
            algorithm: algorithm_label(poll.voting_algorithm),
            deadline_date: format_deadline(poll.deadline_date),
            voters: poll.allowed_participant.clone(),
            votes: Vec::new(),
            score: Vec::new(),
            score_max: 0,
            pending: true,
        });
    }

    // Declared-but-unimplemented rules fail explicitly; they never fall back.
    match poll.voting_algorithm {
        VotingAlgorithm::FrenchSystem | VotingAlgorithm::SuccessiveElimination => {
            return Err(RPError::Unimplemented(algorithm_label(poll.voting_algorithm)));
        },
        _ => {},
    }

    // The rank-based rules demand pairwise-distinct scores per voter.
    let distinct_needed = match poll.voting_algorithm {
        VotingAlgorithm::Bordat | VotingAlgorithm::Condorcet | VotingAlgorithm::FirstChoice => true,
        _ => false,
    };
    if distinct_needed {
        match find_dup_row(&grid, rows, cols) {
            Some(rr) => {
                let e = RPError::DuplicateRank(mvoters[rr].clone());
                proof {
                    assert(mvoters.deep_view()[rr as int] == discovered_voters(p.choices)[rr as int]);
                }
                return Err(e);
            },
            None => {},
        }
    }

    // Score every choice under the selected rule.
    let den: u64 = if rows == 0 { 1 } else { rows as u64 };
    let mut score_max: u64 = 5;
    let nums: Vec<u64>;
    match poll.voting_algorithm {
        VotingAlgorithm::Max => {
            nums = column_sums(&grid, rows, cols);
        },
        VotingAlgorithm::Binary => {
            nums = column_sums(&grid, rows, cols);
            let mut mx: u64 = 0;
            let mut c: usize = 0;
            while c < cols
                invariant
                    c <= cols,
                    nums@.len() == cols,
                    forall|cc: int| 0 <= cc < cols ==> (#[trigger] nums@[cc]) as int == col_sum(g, cc),
                    mx as int == max_col_sum_upto(g, c as int),
                decreases cols - c,
            {
                if nums[c] > mx {
                    mx = nums[c];
                }
                c = c + 1;
            }
            score_max = mx;
        },
        VotingAlgorithm::Bordat => {
            proof {
                assert(rows * cols <= usize::MAX) by (nonlinear_arith)
                    requires
                        rows <= p.allowed_participant.len(),
                        cols == p.choices.len(),
                        p.allowed_participant.len() * p.choices.len() <= usize::MAX,
                        rows >= 0,
                        cols >= 0,
                {}
            }
            let norm = bordat_normalize(&grid, rows, cols);
            nums = column_sums(&norm, rows, cols);
        },
        VotingAlgorithm::Condorcet => {
            nums = condorcet_scores(&grid, rows, cols);
            score_max = cols as u64;
        },
        VotingAlgorithm::FirstChoice => {
            proof {
                if rows > 0 {
                    crate::matrix::lemma_all_voter_ids_membership(p.choices, p.choices.len() as int);
                    crate::matrix::lemma_dedup_prefix_props(
                        crate::matrix::all_voter_ids(p.choices),
                        crate::matrix::all_voter_ids(p.choices).len() as int,
                    );
                    let vs = discovered_voters(p.choices);
                    assert(vs.contains(vs[0]));
                    assert(crate::matrix::all_voter_ids(p.choices).take(
                        crate::matrix::all_voter_ids(p.choices).len() as int,
                    ) =~= crate::matrix::all_voter_ids(p.choices));
                    assert(cols > 0);
                }
            }
            nums = firstchoice_scores(&grid, rows, cols);
            score_max = cols as u64;
        },
        VotingAlgorithm::FrenchSystem | VotingAlgorithm::SuccessiveElimination => {
            proof {
                assert(false);
            }
            nums = Vec::new();
        },
    }

    // Assemble the exact fractions; the denominator is the voter count for
    // the averaged rules and 1 for the counted ones.
    let fden: u64 = match poll.voting_algorithm {
        VotingAlgorithm::Max | VotingAlgorithm::Bordat => den,
        _ => 1,
    };
    let mut raw: Vec<ScoreFrac> = Vec::new();
    let mut c: usize = 0;
    while c < cols
        invariant
            c <= cols,
            nums@.len() == cols,
            fden >= 1,
            raw@.len() == c,
            forall|cc: int| 0 <= cc < c ==> (#[trigger] raw@[cc]) == (ScoreFrac { num: nums@[cc], den: fden }),
        decreases cols - c,
    {
        raw.push(ScoreFrac { num: nums[c], den: fden });
        c = c + 1;
    }
    proof {
        assert(frac_seq(raw@) =~= scores_of(p)) by {
            assert(scores_of(p).len() == cols);
            assert forall|cc: int| 0 <= cc < cols implies frac_seq(raw@)[cc] == scores_of(p)[cc] by {
                assert(frac_seq(raw@)[cc] == (raw@[cc].num as int, raw@[cc].den as int));
            }
        }
    }

    // Rank: descending score, ties in declaration order.
    let order = sort_indices(&raw);
    let ghost ordi = to_int_seq(order@);
    let mut votes: Vec<String> = Vec::new();
    let mut score: Vec<ScoreFrac> = Vec::new();
    let mut k: usize = 0;
    while k < cols
        invariant
            k <= cols,
            cols == p.choices.len(),
            cols == poll.choices@.len(),
            p == poll@,
            raw@.len() == cols,
            order@.len() == cols,
            ordi == to_int_seq(order@),
            stable_desc_order(ordi, frac_seq(raw@)),
            votes@.len() == k,
            score@.len() == k,
            forall|kk: int| 0 <= kk < k ==> (#[trigger] votes@[kk])@ == p.choices[ordi[kk]].name,
            forall|kk: int| 0 <= kk < k ==> (#[trigger] score@[kk]) == raw@[ordi[kk]],
        decreases cols - k,
    {
        let idx = order[k];
        proof {
            assert(ordi[k as int] == order@[k as int] as int);
            assert(0 <= ordi[k as int] < cols);
        }
        votes.push(poll.choices[idx].name.clone());
        score.push(raw[idx]);
        k = k + 1;
    }

    let cloned_ap = poll.allowed_participant.clone();
    proof {
        assert forall|i: int| 0 <= i < cloned_ap@.len() implies cloned_ap@[i] == poll.allowed_participant@[i] by {
            assert(cloned::<String>(poll.allowed_participant@[i], cloned_ap@[i]));
        }
        assert(cloned_ap.deep_view() =~= p.allowed_participant);
    }
    let res = PollResult {
        name: poll.name.clone(),
        desc: poll.desc.clone(),
        user: String::new(),
        algorithm: algorithm_label(poll.voting_algorithm),
        deadline_date: format_deadline(poll.deadline_date),
        voters: cloned_ap,
        votes,
        score,
        score_max,
        pending: false,
    };
    proof {
        assert(res@.voters == p.allowed_participant);
        assert(ranked_result(res@, p, ordi)) by {
            let sc = scores_of(p);
            assert(sc == frac_seq(raw@));
            assert forall|kk: int| 0 <= kk < sc.len() implies res@.votes[kk] == p.choices[#[trigger] ordi[kk]].name by {
                assert(res@.votes[kk] == res.votes@[kk]@);
            }
            assert forall|kk: int| 0 <= kk < sc.len() implies ((#[trigger] res@.score[kk]).num as int, res@.score[kk].den as int) == sc[ordi[kk]] by {
                assert(res@.score[kk] == raw@[ordi[kk]]);
                assert(frac_seq(raw@)[ordi[kk]] == (raw@[ordi[kk]].num as int, raw@[ordi[kk]].den as int));
            }
        }
        assert(res@.score_max == score_max_of(p));
        assert(tally_base_ok(res@, p));
        assert(res@.pending == tally_pending(p));
        assert(exists|ord: Seq<int>| #[trigger] ranked_result(res@, p, ord));
        assert(!tally_err(p));
    }
    Ok(res)
}

} // verus!
