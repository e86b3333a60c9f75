//! The table view: the state set as a dense adjacency matrix, one cell per
//! ordered pair of states, holding the throw height of the transition between
//! them if one exists.

use vstd::prelude::*;

verus! {

use vstd::arithmetic::power2::pow2;
use vstd::pervasive::unreached;
use crate::combinatorics::{binom, popcount};
use crate::compute::{
    compute_transitions, edge_seq, transition_triples, lemma_edge_seq_pair_unique,
};
use crate::params::{Params, ParamsError};
use crate::state::{State, gen_seq};

/// The number of filled cells in one row.
pub open spec fn row_some_count(row: Seq<Option<u8>>) -> nat
    decreases row.len(),
{
    if row.len() == 0 {
        0
    } else {
        row_some_count(row.drop_last()) + if row.last() is Some {
            1 as nat
        } else {
            0 as nat
        }
    }
}

/// The number of filled cells in the whole matrix.
pub open spec fn grid_some_count(cells: Seq<Seq<Option<u8>>>) -> nat
    decreases cells.len(),
{
    if cells.len() == 0 {
        0
    } else {
        grid_some_count(cells.drop_last()) + row_some_count(cells.last())
    }
}

/// The rows of the matrix as sequences.
pub open spec fn grid_view(cells: Seq<Vec<Option<u8>>>) -> Seq<Seq<Option<u8>>> {
    cells.map_values(|row: Vec<Option<u8>>| row@)
}

/// Filling one empty cell raises the row's count by one.
proof fn lemma_row_count_update(row: Seq<Option<u8>>, j: int, v: u8)
    requires
        0 <= j < row.len(),
        row[j] is None,
    ensures
        row_some_count(row.update(j, Some(v))) == row_some_count(row) + 1,
    decreases row.len(),
{
    let updated = row.update(j, Some(v));
    if j == row.len() - 1 {
        assert(updated.drop_last() =~= row.drop_last());
        assert(updated.last() is Some);
    } else {
        lemma_row_count_update(row.drop_last(), j, v);
        assert(updated.drop_last() =~= row.drop_last().update(j, Some(v)));
        assert(updated.last() == row.last());
    }
}

/// Replacing one row shifts the matrix count by the difference of the rows.
proof fn lemma_grid_count_update(cells: Seq<Seq<Option<u8>>>, i: int, newrow: Seq<Option<u8>>)
    requires
        0 <= i < cells.len(),
    ensures
        grid_some_count(cells.update(i, newrow)) + row_some_count(cells[i]) == grid_some_count(
            cells,
        ) + row_some_count(newrow),
    decreases cells.len(),
{
    let updated = cells.update(i, newrow);
    if i == cells.len() - 1 {
        assert(updated.drop_last() =~= cells.drop_last());
        assert(updated.last() == newrow);
    } else {
        lemma_grid_count_update(cells.drop_last(), i, newrow);
        assert(updated.drop_last() =~= cells.drop_last().update(i, newrow));
        assert(updated.last() == cells.last());
    }
}

/// An all-empty row has count zero.
proof fn lemma_row_count_blank(row: Seq<Option<u8>>)
    requires
        forall|j: int| 0 <= j < row.len() ==> row[j] is None,
    ensures
        row_some_count(row) == 0,
    decreases row.len(),
{
    if row.len() > 0 {
        lemma_row_count_blank(row.drop_last());
    }
}

/// A state transition table: an `N x N` matrix over the state list, where
/// `cells[i][j]` holds the throw height of the transition from `states[i]` to
/// `states[j]`, or `None` if there is none.
#[derive(Debug)]
pub struct StateTable {
    /// All valid states, in the same order as the graph view.
    pub states: Vec<State>,
    /// `cells[from][to]` is the throw height of that transition, or `None`.
    pub cells: Vec<Vec<Option<u8>>>,
    /// The ground state (lowest bits set): always the first state.
    pub ground_state: State,
    /// The number of props this table was generated for.
    pub num_props: u8,
    /// The maximum throw height this table was generated for.
    pub max_height: u8,
}

impl StateTable {
    /// What `compute_table` guarantees of a table built for `params`: the same
    /// state set as the shared core, a square matrix over it, a cell filled
    /// with height `h` exactly when the corresponding transition exists, and
    /// as many filled cells as there are transitions.
    pub open spec fn wf(&self, params: Params) -> bool {
        let es = edge_seq(self.states@, params.max_height as nat);
        let grid = grid_view(self.cells@);
        &&& self.num_props == params.num_props
        &&& self.max_height == params.max_height
        &&& self.states@.len() == binom(params.max_height as nat, params.num_props as nat)
        &&& self.states@.len() >= 1
        &&& forall|i: int|
            0 <= i < self.states@.len() ==> (#[trigger] self.states@[i]@ as nat) == gen_seq(
                params.max_height as nat,
                0,
                params.num_props as nat,
                0,
            )[i]
        &&& forall|i: int|
            0 <= i < self.states@.len() ==> (#[trigger] self.states@[i]@ as nat) < pow2(
                params.max_height as nat,
            )
        &&& forall|i: int|
            0 <= i < self.states@.len() ==> popcount(#[trigger] self.states@[i]@ as nat)
                == params.num_props as nat
        &&& forall|i: int, j: int| 0 <= i < j < self.states@.len() ==> self.states@[i]@ != self.states@[j]@
        &&& self.ground_state == self.states@[0]
        &&& (self.ground_state@ as nat) == pow2(params.num_props as nat) - 1
        &&& self.cells@.len() == self.states@.len()
        &&& forall|i: int| 0 <= i < self.cells@.len() ==> (#[trigger] grid[i]).len() == self.states@.len()
        &&& forall|i: int, j: int|
            0 <= i < grid.len() && 0 <= j < grid.len() ==> ((#[trigger] grid[i][j]) matches Some(h)
                ==> es.contains(((self.states@[i]@ as nat), (h as nat), (self.states@[j]@ as nat))))
        &&& forall|k: int, i: int, j: int|
            0 <= k < es.len() && 0 <= i < grid.len() && 0 <= j < grid.len() && (#[trigger] es[k]).0
                == (#[trigger] self.states@[i]@ as nat) && es[k].2 == (
            #[trigger] self.states@[j]@ as nat) ==> grid[i][j] == Some(es[k].1 as u8)
        &&& grid_some_count(grid) == es.len()
    }
}

/// A table and a graph built for the same parameters agree cell for edge:
/// they list the same states in the same order, a cell holds height `h`
/// exactly when the graph holds the corresponding edge with that height, and
/// the table has as many filled cells as the graph has edges.
pub proof fn lemma_table_matches_graph(
    table: &StateTable,
    graph: &crate::graph::StateGraph,
    params: Params,
)
    requires
        table.wf(params),
        graph.wf(params),
    ensures
        table.states@.len() == graph.states@.len(),
        forall|i: int| 0 <= i < table.states@.len() ==> table.states@[i] == graph.states@[i],
        forall|i: int, j: int, h: u8|
            #![trigger crate::graph::edge_triples(graph.edges@).contains(
                ((table.states@[i]@ as nat), (h as nat), (table.states@[j]@ as nat)),
            )]
            0 <= i < table.states@.len() && 0 <= j < table.states@.len() ==> (grid_view(
                table.cells@,
            )[i][j] == Some(h) <==> crate::graph::edge_triples(graph.edges@).contains(
                ((table.states@[i]@ as nat), (h as nat), (table.states@[j]@ as nat)),
            )),
        grid_some_count(grid_view(table.cells@)) == graph.edges@.len(),
{
    let n = table.states@.len() as int;
    assert forall|i: int| 0 <= i < n implies table.states@[i] == graph.states@[i] by {
        crate::state::lemma_state_eq(table.states@[i], graph.states@[i]);
    }
    assert(table.states@ =~= graph.states@);
    let es = edge_seq(table.states@, params.max_height as nat);
    assert(crate::graph::edge_triples(graph.edges@) == es);
    let grid = grid_view(table.cells@);
    assert forall|i: int, j: int, h: u8|
        #![trigger crate::graph::edge_triples(graph.edges@).contains(
            ((table.states@[i]@ as nat), (h as nat), (table.states@[j]@ as nat)),
        )]
        0 <= i < n && 0 <= j < n implies (grid[i][j] == Some(h) <==> es.contains(
        ((table.states@[i]@ as nat), (h as nat), (table.states@[j]@ as nat)),
    )) by {
        if grid[i][j] == Some(h) {
            assert(es.contains(
                ((table.states@[i]@ as nat), (h as nat), (table.states@[j]@ as nat)),
            ));
        }
        if es.contains(((table.states@[i]@ as nat), (h as nat), (table.states@[j]@ as nat))) {
            let k = choose|k: int|
                0 <= k < es.len() && es[k] == (
                    (table.states@[i]@ as nat),
                    (h as nat),
                    (table.states@[j]@ as nat),
                );
            assert(grid[i][j] == Some(es[k].1 as u8));
        }
    }
}

/// The position of `s` in `states`; callers guarantee that it occurs.
fn index_of(states: &Vec<State>, s: State) -> (r: usize)
    requires
        exists|i: int| 0 <= i < states@.len() && states@[i] == s,
    ensures
        r < states@.len(),
        states@[r as int] == s,
{
    let mut i: usize = 0;
    while i < states.len()
        invariant
            i <= states@.len(),
            exists|k: int| 0 <= k < states@.len() && states@[k] == s,
            forall|k: int| 0 <= k < i ==> states@[k] != s,
        decreases states@.len() - i,
    {
        if states[i] == s {
            return i;
        }
        i = i + 1;
    }
    proof {
        let w = choose|k: int| 0 <= k < states@.len() && states@[k] == s;
        assert(states@[w] != s);
    }
    unreached()
}

/// Computes the state transition table for the given parameters, building the
/// matrix from the shared computation core. Rejects invalid parameters with
/// the same error that `Params::validate` reports.
#[verifier::rlimit(100)]
pub fn compute_table(params: &Params) -> (r: Result<StateTable, ParamsError>)
    ensures
        r is Ok <==> params.valid(),
        (r matches Ok(t) ==> t.wf(*params)),
        (r matches Err(e) ==> !params.valid() && e == params.validation_error()),
{
    let ts = match compute_transitions(params) {
        Ok(ts) => ts,
        Err(e) => {
            return Err(e);
        },
    };
    let ghost mh = params.max_height as nat;
    let ghost es = edge_seq(ts.states@, mh);
    let n = ts.states.len();
    let mut cells: Vec<Vec<Option<u8>>> = Vec::new();
    let mut bi: usize = 0;
    while bi < n
        invariant
            cells@.len() == bi,
            bi <= n,
            forall|i: int|
                0 <= i < bi ==> (#[trigger] grid_view(cells@)[i]).len() == n && forall|j: int|
                    0 <= j < n ==> grid_view(cells@)[i][j] is None,
        decreases n - bi,
    {
        let mut row: Vec<Option<u8>> = Vec::new();
        let mut bj: usize = 0;
        while bj < n
            invariant
                row@.len() == bj,
                bj <= n,
                forall|j: int| 0 <= j < bj ==> row@[j] is None,
            decreases n - bj,
        {
            row.push(None);
            bj = bj + 1;
        }
        let ghost before_push = cells@;
        cells.push(row);
        proof {
            assert(grid_view(cells@) =~= grid_view(before_push).push(row@));
            assert forall|i: int| 0 <= i < cells@.len() implies (#[trigger] grid_view(cells@)[i]).len()
                == n && forall|j: int| 0 <= j < n ==> grid_view(cells@)[i][j] is None by {
                if i < before_push.len() {
                    assert(grid_view(cells@)[i] == grid_view(before_push)[i]);
                } else {
                    assert(grid_view(cells@)[i] == row@);
                }
            }
        }
        bi = bi + 1;
    }
    proof {
        assert(grid_some_count(grid_view(cells@)) == 0) by {
            lemma_grid_count_blank(grid_view(cells@));
        }
        assert(transition_triples(ts.transitions@) == es);
        lemma_edge_seq_pair_unique(ts.states@, mh);
    }
    let mut k: usize = 0;
    while k < ts.transitions.len()
        invariant
            k <= ts.transitions@.len(),
            ts.wf(*params),
            mh == params.max_height as nat,
            es == edge_seq(ts.states@, mh),
            n == ts.states@.len(),
            cells@.len() == n,
            forall|i: int| 0 <= i < n ==> (#[trigger] grid_view(cells@)[i]).len() == n,
            forall|k1: int, k2: int|
                0 <= k1 < k2 < es.len() ==> !((#[trigger] es[k1]).0 == (#[trigger] es[k2]).0
                    && es[k1].2 == es[k2].2),
            forall|i: int, j: int|
                0 <= i < n && 0 <= j < n ==> ((#[trigger] grid_view(cells@)[i][j]) matches Some(h)
                    ==> exists|k2: int|
                    0 <= k2 < k && (#[trigger] es[k2]) == (
                        (ts.states@[i]@ as nat),
                        (h as nat),
                        (ts.states@[j]@ as nat),
                    )),
            forall|k2: int, i: int, j: int|
                0 <= k2 < k && 0 <= i < n && 0 <= j < n && (#[trigger] es[k2]).0 == (
                #[trigger] ts.states@[i]@ as nat) && es[k2].2 == (#[trigger] ts.states@[j]@ as nat)
                    ==> grid_view(cells@)[i][j] == Some(es[k2].1 as u8),
            grid_some_count(grid_view(cells@)) == k,
        decreases ts.transitions@.len() - k,
    {
        let t = &ts.transitions[k];
        proof {
            assert(transition_triples(ts.transitions@)[k as int] == es[k as int]);
        }
        let fi = index_of(&ts.states, t.from());
        let ti = index_of(&ts.states, t.to());
        let height = t.throw_height();
        let ghost old_grid = grid_view(cells@);
        proof {
            assert(es[k as int] == (
                (t.spec_from()@ as nat),
                (t.spec_throw_height() as nat),
                (t.spec_to()@ as nat),
            ));
            // the cell must still be empty: an earlier transition filling it
            // would share both endpoints with this one
            if old_grid[fi as int][ti as int] is Some {
                let h = old_grid[fi as int][ti as int]->Some_0;
                let k2 = choose|k2: int|
                    0 <= k2 < k && (#[trigger] es[k2]) == (
                        (ts.states@[fi as int]@ as nat),
                        (h as nat),
                        (ts.states@[ti as int]@ as nat),
                    );
                assert(!(es[k2].0 == es[k as int].0 && es[k2].2 == es[k as int].2));
                assert(false);
            }
        }
        let ghost old_cells = cells@;
        let mut row = cells.remove(fi);
        row[ti] = Some(height);
        cells.insert(fi, row);
        proof {
            let newrow = old_grid[fi as int].update(ti as int, Some(height));
            assert(row@ == newrow);
            assert(cells@ =~= old_cells.update(fi as int, row));
            let grid = grid_view(cells@);
            assert(grid =~= old_grid.update(fi as int, newrow));
            lemma_row_count_update(old_grid[fi as int], ti as int, height);
            lemma_grid_count_update(old_grid, fi as int, newrow);
            assert(grid_some_count(grid) == k + 1);
            let kk = k as int;
            assert(es[kk] == (
                (ts.states@[fi as int]@ as nat),
                (height as nat),
                (ts.states@[ti as int]@ as nat),
            ));
            assert forall|i: int, j: int|
                0 <= i < n && 0 <= j < n implies ((#[trigger] grid[i][j]) matches Some(h)
                ==> exists|k2: int|
                0 <= k2 < kk + 1 && (#[trigger] es[k2]) == (
                    (ts.states@[i]@ as nat),
                    (h as nat),
                    (ts.states@[j]@ as nat),
                )) by {
                if grid[i][j] is Some {
                    let h = grid[i][j]->Some_0;
                    if i == fi as int && j == ti as int {
                        assert(h == height);
                        assert(es[kk] == (
                            (ts.states@[i]@ as nat),
                            (h as nat),
                            (ts.states@[j]@ as nat),
                        ));
                    } else {
                        assert(grid[i][j] == old_grid[i][j]);
                        let k2 = choose|k2: int|
                            0 <= k2 < kk && (#[trigger] es[k2]) == (
                                (ts.states@[i]@ as nat),
                                (h as nat),
                                (ts.states@[j]@ as nat),
                            );
                        assert(0 <= k2 < kk + 1);
                    }
                }
            }
            assert forall|k2: int, i: int, j: int|
                0 <= k2 < kk + 1 && 0 <= i < n && 0 <= j < n && (#[trigger] es[k2]).0 == (
                #[trigger] ts.states@[i]@ as nat) && es[k2].2 == (
            #[trigger] ts.states@[j]@ as nat) implies grid[i][j] == Some(es[k2].1 as u8) by {
                if k2 == kk {
                    // the endpoints pin the indices, because states are distinct
                    assert(ts.states@[i]@ == ts.states@[fi as int]@);
                    if i != fi as int {
                        assert(ts.states@[i]@ != ts.states@[fi as int]@);
                    }
                    assert(i == fi as int);
                    if j != ti as int {
                        assert(ts.states@[j]@ != ts.states@[ti as int]@);
                    }
                    assert(j == ti as int);
                    assert(grid[i][j] == Some(height));
                } else {
                    assert(old_grid[i][j] == Some(es[k2].1 as u8));
                    if i == fi as int && j == ti as int {
                        assert(!(es[k2].0 == es[kk].0 && es[k2].2 == es[kk].2));
                        assert(false);
                    }
                    assert(grid[i][j] == old_grid[i][j]);
                }
            }
        }
        k = k + 1;
    }
    proof {
        assert(k == es.len());
    }
    let ground_state = ts.ground_state;
    let table = StateTable {
        states: ts.states,
        cells,
        ground_state,
        num_props: ts.num_props,
        max_height: ts.max_height,
    };
    Ok(table)
}

/// An all-empty matrix has count zero.
proof fn lemma_grid_count_blank(cells: Seq<Seq<Option<u8>>>)
    requires
        forall|i: int|
            0 <= i < cells.len() ==> forall|j: int|
                0 <= j < (#[trigger] cells[i]).len() ==> cells[i][j] is None,
    ensures
        grid_some_count(cells) == 0,
    decreases cells.len(),
{
    if cells.len() > 0 {
        lemma_grid_count_blank(cells.drop_last());
        lemma_row_count_blank(cells.last());
    }
}

} // verus!
