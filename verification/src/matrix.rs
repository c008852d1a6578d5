use vstd::prelude::*;
use crate::poll::{ChoiceView, Poll, PollView, contains_name, find_name};

verus! {

// ---------------------------------------------------------------------------
// The dense voter-by-choice grid is kept in an `array2d::Array2D`, which
// Verus cannot look into.  `grid_of` names its contents: row-major, one inner
// sequence per row.  The wrappers below state, over that name, what the
// crate's methods do, as its source shows.
// ---------------------------------------------------------------------------

#[verifier::external_type_specification]
#[verifier::external_body]
#[verifier::reject_recursive_types(T)]
pub struct ExArray2D<T>(array2d::Array2D<T>);

/// The rows of the grid, outermost sequence first.
pub uninterp spec fn grid_of(m: array2d::Array2D<u32>) -> Seq<Seq<u32>>;

/// Relies on array2d::Array2D::filled_with: a rows x cols grid with every
/// cell set to the given element.
#[verifier::external_body]
pub(crate) fn grid_new(rows: usize, cols: usize) -> (m: array2d::Array2D<u32>)
    requires
        rows * cols <= usize::MAX,
    ensures
        grid_of(m).len() == rows,
        forall|r: int| 0 <= r < rows ==> (#[trigger] grid_of(m)[r]).len() == cols,
        forall|r: int, c: int| 0 <= r < rows && 0 <= c < cols ==> grid_of(m)[r][c] == 0u32,
{
    array2d::Array2D::filled_with(0u32, rows, cols)
}

/// Relies on array2d::Array2D's Index impl: the element at (row, column).
#[verifier::external_body]
pub(crate) fn grid_get(m: &array2d::Array2D<u32>, r: usize, c: usize) -> (v: u32)
    requires
        r < grid_of(*m).len(),
        c < grid_of(*m)[r as int].len(),
    ensures
        v == grid_of(*m)[r as int][c as int],
{
    m[(r, c)]
}

/// Relies on array2d::Array2D::set: replaces the element at (row, column)
/// and leaves every other cell alone.
#[verifier::external_body]
pub(crate) fn grid_set(m: &mut array2d::Array2D<u32>, r: usize, c: usize, v: u32)
    requires
        r < grid_of(*old(m)).len(),
        c < grid_of(*old(m))[r as int].len(),
    ensures
        grid_of(*final(m)) == grid_of(*old(m)).update(
            r as int,
            grid_of(*old(m))[r as int].update(c as int, v),
        ),
{
    let _ = m.set(r, c, v);
}

// ---------------------------------------------------------------------------
// The mathematical matrix of a poll.
// ---------------------------------------------------------------------------

/// All voter ids of the first `n` choices, in order of appearance, with
/// repetitions.
pub open spec fn all_voter_ids_upto(choices: Seq<ChoiceView>, n: int) -> Seq<Seq<char>>
    decreases n,
{
    if n <= 0 {
        Seq::empty()
    } else {
        all_voter_ids_upto(choices, n - 1) + choices[n - 1].voter
    }
}

pub open spec fn all_voter_ids(choices: Seq<ChoiceView>) -> Seq<Seq<char>> {
    all_voter_ids_upto(choices, choices.len() as int)
}

/// The first `n` items of `items` with duplicates dropped, keeping the first
/// appearance of each.
pub open spec fn dedup_prefix(items: Seq<Seq<char>>, n: int) -> Seq<Seq<char>>
    decreases n,
{
    if n <= 0 {
        Seq::empty()
    } else {
        let prev = dedup_prefix(items, n - 1);
        if prev.contains(items[n - 1]) {
            prev
        } else {
            prev.push(items[n - 1])
        }
    }
}

/// The matrix's row labels: every voter id that appears in any choice, in
/// order of first appearance.  This order is a function of the poll alone,
/// so the matrix is reproducible.
pub open spec fn discovered_voters(choices: Seq<ChoiceView>) -> Seq<Seq<char>> {
    dedup_prefix(all_voter_ids(choices), all_voter_ids(choices).len() as int)
}

/// The dense vote matrix of a poll: one row per discovered voter, one column
/// per choice (in declaration order), and in each cell the voter's score for
/// the choice, 0 when the voter has not voted there.
pub open spec fn matrix_of(p: PollView) -> Seq<Seq<u32>> {
    let vs = discovered_voters(p.choices);
    Seq::new(vs.len(), |r: int| Seq::new(p.choices.len(), |c: int| p.choices[c].score_of(vs[r]) ))
}

// ---------------------------------------------------------------------------
// Lemmas about the discovered-voter order.
// ---------------------------------------------------------------------------

pub proof fn lemma_dedup_prefix_props(items: Seq<Seq<char>>, n: int)
    requires
        0 <= n <= items.len(),
    ensures
        dedup_prefix(items, n).no_duplicates(),
        forall|x: Seq<char>| dedup_prefix(items, n).contains(x) <==> items.take(n).contains(x),
    decreases n,
{
    if n > 0 {
        lemma_dedup_prefix_props(items, n - 1);
        let prev = dedup_prefix(items, n - 1);
        let cur = dedup_prefix(items, n);
        assert forall|x: Seq<char>| cur.contains(x) implies items.take(n).contains(x) by {
            if prev.contains(x) {
                assert(items.take(n - 1).contains(x));
                let i = choose|i: int| 0 <= i < n - 1 && #[trigger] items.take(n - 1)[i] == x;
                assert(items.take(n)[i] == x);
            } else {
                assert(x == items[n - 1]);
                assert(items.take(n)[n - 1] == x);
            }
        }
        assert forall|x: Seq<char>| items.take(n).contains(x) implies cur.contains(x) by {
            let i = choose|i: int| 0 <= i < n && #[trigger] items.take(n)[i] == x;
            if i < n - 1 {
                assert(items.take(n - 1)[i] == x);
                assert(prev.contains(x));
                if !prev.contains(items[n - 1]) {
                    assert(cur == prev.push(items[n - 1]));
                    let j = choose|j: int| 0 <= j < prev.len() && prev[j] == x;
                    assert(cur[j] == x);
                }
            } else {
                assert(x == items[n - 1]);
                if prev.contains(x) {
                } else {
                    assert(cur[cur.len() - 1] == x);
                }
            }
        }
        if !prev.contains(items[n - 1]) {
            assert(cur.drop_last() == prev);
            assert(cur.no_duplicates()) by {
                assert forall|i: int, j: int| 0 <= i < j < cur.len() implies cur[i] != cur[j] by {
                    if j < cur.len() - 1 {
                        assert(prev[i] == cur[i] && prev[j] == cur[j]);
                    } else {
                        assert(cur[j] == items[n - 1]);
                        assert(prev[i] == cur[i]);
                        assert(prev.contains(prev[i]));
                    }
                }
            }
        }
    }
}

/// Every voter entry of every choice appears among the ids gathered from the
/// first `n` choices, and conversely.
pub proof fn lemma_all_voter_ids_membership(choices: Seq<ChoiceView>, n: int)
    requires
        0 <= n <= choices.len(),
    ensures
        forall|c: int, j: int|
            0 <= c < n && 0 <= j < choices[c].voter.len()
                ==> all_voter_ids_upto(choices, n).contains(#[trigger] choices[c].voter[j]),
        forall|x: Seq<char>|
            all_voter_ids_upto(choices, n).contains(x)
                ==> exists|c: int, j: int| 0 <= c < n && 0 <= j < choices[c].voter.len() && choices[c].voter[j] == x,
    decreases n,
{
    if n > 0 {
        lemma_all_voter_ids_membership(choices, n - 1);
        let prev = all_voter_ids_upto(choices, n - 1);
        let cur = all_voter_ids_upto(choices, n);
        assert(cur == prev + choices[n - 1].voter);
        assert forall|c: int, j: int|
            0 <= c < n && 0 <= j < choices[c].voter.len() implies cur.contains(
            #[trigger] choices[c].voter[j],
        ) by {
            if c < n - 1 {
                let i = choose|i: int| 0 <= i < prev.len() && prev[i] == choices[c].voter[j];
                assert(cur[i] == choices[c].voter[j]);
            } else {
                assert(cur[prev.len() + j] == choices[c].voter[j]);
            }
        }
        assert forall|x: Seq<char>| cur.contains(x) implies exists|c: int, j: int|
            0 <= c < n && 0 <= j < choices[c].voter.len() && choices[c].voter[j] == x by {
            let i = choose|i: int| 0 <= i < cur.len() && cur[i] == x;
            if i < prev.len() {
                assert(prev[i] == x);
                assert(prev.contains(x));
            } else {
                let c = n - 1;
                let j = i - prev.len();
                assert(choices[c].voter[j] == x);
            }
        }
    }
}

/// For a well-formed poll: the discovered voters are distinct, each is an
/// allowed participant, and there are no more of them than allowed
/// participants.
pub proof fn lemma_discovered_voters_wf(p: PollView)
    requires
        p.wf(),
    ensures
        discovered_voters(p.choices).no_duplicates(),
        forall|i: int|
            0 <= i < discovered_voters(p.choices).len()
                ==> p.allowed_participant.contains(#[trigger] discovered_voters(p.choices)[i]),
        discovered_voters(p.choices).len() <= p.allowed_participant.len(),
        forall|c: int, j: int|
            0 <= c < p.choices.len() && 0 <= j < p.choices[c].voter.len()
                ==> discovered_voters(p.choices).contains(#[trigger] p.choices[c].voter[j]),
{
    let ids = all_voter_ids(p.choices);
    let vs = discovered_voters(p.choices);
    lemma_dedup_prefix_props(ids, ids.len() as int);
    lemma_all_voter_ids_membership(p.choices, p.choices.len() as int);
    assert(ids.take(ids.len() as int) == ids);
    assert forall|i: int| 0 <= i < vs.len() implies p.allowed_participant.contains(
        #[trigger] vs[i],
    ) by {
        assert(vs.contains(vs[i]));
        assert(ids.contains(vs[i]));
        let (c, j): (int, int) = choose|c: int, j: int|
            0 <= c < p.choices.len() && 0 <= j < p.choices[c].voter.len() && p.choices[c].voter[j] == vs[i];
        assert(p.choices[c].wf(p.allowed_participant));
    }
    vs.unique_seq_to_set();
    p.allowed_participant.unique_seq_to_set();
    assert(vs.to_set().subset_of(p.allowed_participant.to_set())) by {
        assert forall|v: Seq<char>| vs.to_set().contains(v) implies p.allowed_participant.to_set().contains(v) by {
            assert(vs.contains(v));
            let i = choose|i: int| 0 <= i < vs.len() && vs[i] == v;
            assert(p.allowed_participant.contains(v));
        }
    }
    vstd::set_lib::lemma_len_subset(vs.to_set(), p.allowed_participant.to_set());
}

/// Two matrices built from the same poll are identical: the matrix is a
/// function of the poll alone.
pub proof fn lemma_matrix_build_deterministic(p: PollView, g1: Seq<Seq<u32>>, g2: Seq<Seq<u32>>)
    requires
        g1 == matrix_of(p),
        g2 == matrix_of(p),
    ensures
        g1 == g2,
{
}

// ---------------------------------------------------------------------------
// The builder.
// ---------------------------------------------------------------------------

/// Gathers every voter id appearing in any choice, in order, with repeats.
fn collect_voter_ids(poll: &Poll) -> (r: Vec<String>)
    ensures
        r.deep_view() == all_voter_ids(poll@.choices),
{
    let mut flat: Vec<String> = Vec::new();
    let ghost choices = poll@.choices;
    let nc = poll.choices.len();
    for c in 0..nc
        invariant
            nc == poll.choices.len(),
            choices == poll@.choices,
            flat.deep_view() == all_voter_ids_upto(choices, c as int),
    {
        let ghost flat_at_choice = flat.deep_view();
        let nv = poll.choices[c].voter.len();
        for j in 0..nv
            invariant
                nc == poll.choices.len(),
                c < nc,
                nv == poll.choices[c as int].voter.len(),
                choices == poll@.choices,
                flat_at_choice == all_voter_ids_upto(choices, c as int),
                flat.deep_view() == flat_at_choice + choices[c as int].voter.take(j as int),
        {
            let ghost before = flat.deep_view();
            flat.push(poll.choices[c].voter[j].clone());
            proof {
                let target = flat_at_choice + choices[c as int].voter.take(j + 1);
                assert(choices[c as int] == poll.choices@[c as int].deep_view());
                assert(choices[c as int].voter.len() == poll.choices[c as int].voter.len());
                assert(choices[c as int].voter.take(j + 1).len() == j + 1);
                assert(flat.deep_view().len() == flat@.len());
                assert(flat@.len() == before.len() + 1);
                assert(before.len() == flat_at_choice.len() + j);
                assert(flat.deep_view().len() == target.len());
                assert forall|k: int| 0 <= k < target.len() implies flat.deep_view()[k] == target[k] by {
                    if k < before.len() {
                        assert(flat.deep_view()[k] == before[k]);
                        assert(before[k] == (flat_at_choice + choices[c as int].voter.take(j as int))[k]);
                        if k >= flat_at_choice.len() {
                            assert(choices[c as int].voter.take(j as int)[k - flat_at_choice.len()]
                                == choices[c as int].voter.take(j + 1)[k - flat_at_choice.len()]);
                        }
                    } else {
                        assert(flat.deep_view()[k] == flat@[k]@);
                        assert(flat@[k] == poll.choices@[c as int].voter@[j as int]);
                        assert(target[k] == choices[c as int].voter.take(j + 1)[j as int]);
                    }
                }
                assert(flat.deep_view() =~= target);
            }
        }
        proof {
            assert(choices[c as int].voter.take(nv as int) == choices[c as int].voter);
            assert(flat.deep_view() =~= all_voter_ids_upto(choices, c + 1));
        }
    }
    flat
}

/// The matrix row labels: `all_voter_ids` with later repeats dropped.
fn dedup_voter_ids(flat: Vec<String>) -> (r: Vec<String>)
    ensures
        r.deep_view() == dedup_prefix(flat.deep_view(), flat.deep_view().len() as int),
{
    let mut voters: Vec<String> = Vec::new();
    let n = flat.len();
    for i in 0..n
        invariant
            n == flat@.len(),
            voters.deep_view() == dedup_prefix(flat.deep_view(), i as int),
    {
        proof {
            lemma_dedup_prefix_props(flat.deep_view(), i as int);
            assert(flat.deep_view()[i as int] == flat@[i as int]@);
        }
        if !contains_name(&voters, &flat[i]) {
            voters.push(flat[i].clone());
            proof {
                assert(voters.deep_view() =~= dedup_prefix(flat.deep_view(), i + 1));
            }
        } else {
            proof {
                assert(voters.deep_view() =~= dedup_prefix(flat.deep_view(), i + 1));
            }
        }
    }
    voters
}

/// Builds the dense vote matrix of a poll: rows are the discovered voters in
/// first-appearance order, columns the choices in declaration order, each
/// cell the voter's recorded score or 0.  The result is a function of the
/// poll alone, so building twice yields identical matrices.  The product
/// bound only keeps the grid addressable in memory; `is_well_formed` plus a
/// checked multiplication establish both preconditions at run time.
pub fn build_vote_matrix(poll: &Poll) -> (r: (Vec<String>, array2d::Array2D<u32>))
    requires
        poll@.wf(),
        poll@.allowed_participant.len() * poll@.choices.len() <= usize::MAX,
    ensures
        r.0.deep_view() == discovered_voters(poll@.choices),
        grid_of(r.1) == matrix_of(poll@),
{
    let ghost pv = poll@;
    let flat = collect_voter_ids(poll);
    let voters = dedup_voter_ids(flat);
    let ghost vs = discovered_voters(pv.choices);
    proof {
        lemma_discovered_voters_wf(pv);
        assert(voters.deep_view() == vs);
        assert(voters@.len() * poll@.choices.len() <= poll@.allowed_participant.len() * poll@.choices.len())
            by (nonlinear_arith)
            requires
                voters@.len() <= poll@.allowed_participant.len(),
                voters@.len() == voters.deep_view().len(),
        {}
    }
    let rows = voters.len();
    let cols = poll.choices.len();
    let mut grid = grid_new(rows, cols);
    let nc = poll.choices.len();
    for c in 0..nc
        invariant
            pv == poll@,
            vs == discovered_voters(pv.choices),
            pv.wf(),
            voters.deep_view() == vs,
            rows == vs.len(),
            nc == cols,
            cols == pv.choices.len(),
            grid_of(grid).len() == rows,
            forall|r: int| 0 <= r < rows ==> (#[trigger] grid_of(grid)[r]).len() == cols,
            forall|r: int, cc: int|
                0 <= r < rows && 0 <= cc < c ==> grid_of(grid)[r][cc] == matrix_of(pv)[r][cc],
            forall|r: int, cc: int|
                0 <= r < rows && c <= cc < cols ==> grid_of(grid)[r][cc] == 0u32,
    {
        let ghost ch = pv.choices[c as int];
        let nv = poll.choices[c].voter.len();
        proof {
            lemma_discovered_voters_wf(pv);
        }
        for j in 0..nv
            invariant
                pv == poll@,
                vs == discovered_voters(pv.choices),
                pv.wf(),
                voters.deep_view() == vs,
                rows == vs.len(),
                nc == cols,
                cols == pv.choices.len(),
                c < nc,
                ch == pv.choices[c as int],
                nv == ch.voter.len(),
                nv == poll.choices[c as int].voter.len(),
                vs.no_duplicates(),
                forall|jj: int| 0 <= jj < ch.voter.len() ==> vs.contains(#[trigger] ch.voter[jj]),
                grid_of(grid).len() == rows,
                forall|r: int| 0 <= r < rows ==> (#[trigger] grid_of(grid)[r]).len() == cols,
                forall|r: int, cc: int|
                    0 <= r < rows && 0 <= cc < c ==> grid_of(grid)[r][cc] == matrix_of(pv)[r][cc],
                forall|r: int, cc: int|
                    0 <= r < rows && (c as int) < cc < cols ==> grid_of(grid)[r][cc] == 0u32,
                forall|r: int|
                    0 <= r < rows ==> grid_of(grid)[r][c as int] == (match ch.voter.index_of_first(
                        #[trigger] vs[r],
                    ) {
                        Some(i) => if 0 <= i < j { ch.vote[i] } else { 0u32 },
                        None => 0u32,
                    }),
        {
            let row_opt = find_name(&voters, &poll.choices[c].voter[j]);
            proof {
                assert(ch.voter[j as int] == poll.choices@[c as int].voter@[j as int]@);
                assert(vs.contains(ch.voter[j as int]));
                vs.index_of_first_ensures(ch.voter[j as int]);
            }
            let row = match row_opt {
                Some(row) => row,
                None => {
                    proof {
                        assert(false);
                    }
                    0
                },
            };
            let ghost old_grid = grid_of(grid);
            grid_set(&mut grid, row, c, poll.choices[c].vote[j]);
            proof {
                let v = ch.voter[j as int];
                assert(vs[row as int] == v);
                // The written row's first-index characterization: j is the
                // first (and only) occurrence of v in ch.voter.
                ch.voter.index_of_first_ensures(v);
                assert(ch.voter.contains(v)) by {
                    assert(ch.voter[j as int] == v);
                }
                let fi = ch.voter.index_of_first(v)->Some_0;
                assert(ch.voter[fi] == v);
                assert(pv.choices[c as int].wf(pv.allowed_participant));
                assert(ch.voter.no_duplicates());
                assert(fi == j) by {
                    if fi < j {
                        assert(ch.voter[fi] == ch.voter[j as int]);
                    }
                }
                assert forall|r: int| 0 <= r < rows implies grid_of(grid)[r][c as int] == (match ch.voter.index_of_first(
                    #[trigger] vs[r],
                ) {
                    Some(i) => if 0 <= i < j + 1 { ch.vote[i] } else { 0u32 },
                    None => 0u32,
                }) by {
                    if r == row as int {
                        assert(grid_of(grid)[r][c as int] == ch.vote[j as int]);
                    } else {
                        assert(vs[r] != v);
                        assert(grid_of(grid)[r][c as int] == old_grid[r][c as int]);
                        match ch.voter.index_of_first(vs[r]) {
                            Some(i) => {
                                ch.voter.index_of_first_ensures(vs[r]);
                                assert(ch.voter[i] == vs[r]);
                                assert(i != j);
                            },
                            None => {},
                        }
                    }
                }
            }
        }
        proof {
            assert forall|r: int| 0 <= r < rows implies grid_of(grid)[r][c as int] == matrix_of(
                pv,
            )[r][c as int] by {
                ch.voter.index_of_first_ensures(vs[r]);
                assert(matrix_of(pv)[r][c as int] == ch.score_of(vs[r]));
            }
        }
    }
    proof {
        assert(grid_of(grid) =~= matrix_of(pv)) by {
            assert forall|r: int| 0 <= r < rows implies grid_of(grid)[r] =~= matrix_of(pv)[r] by {
                assert forall|cc: int| 0 <= cc < cols implies grid_of(grid)[r][cc] == matrix_of(pv)[r][cc] by {}
            }
        }
    }
    (voters, grid)
}

} // verus!
