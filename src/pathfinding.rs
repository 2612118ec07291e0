use vstd::prelude::*;
use crate::grid::{adjacent, distinct_cells, in_bounds, in_bounds_spec, manhattan, manhattan_spec, neighbours_4, GridCoord};
use vstd::set_lib::{lemma_int_range, lemma_len_subset, lemma_subset_equality, set_int_range};

verus! {

/// What the planner may walk on, and what each step costs.
pub trait AStarPolicy {
    /// Whether the policy's own data is consistent.
    spec fn well_formed(&self) -> bool;

    /// Whether a cell may be entered.
    spec fn passable_spec(&self, c: GridCoord) -> bool;

    fn passable(&self, c: GridCoord) -> (r: bool)
        requires
            self.well_formed(),
        ensures
            r == self.passable_spec(c),
    ;

    /// The cost of a step.
    spec fn cost_spec(&self, from: GridCoord, to: GridCoord) -> u32;

    /// The non-negative cost of stepping from `from` to the adjacent `to`.
    fn cost(&self, from: GridCoord, to: GridCoord) -> (r: u32)
        requires
            self.well_formed(),
        ensures
            r == self.cost_spec(from, to),
    ;
}

/// `p` leads from `s` to `g` through 4-adjacent cells, each after the first
/// lying in `[0, width) x [0, height)` and passable.
pub open spec fn is_path(p: Seq<GridCoord>, s: GridCoord, g: GridCoord, passable: spec_fn(GridCoord) -> bool, width: int, height: int) -> bool {
    &&& p.len() >= 1
    &&& p[0] == s
    &&& p[p.len() - 1] == g
    &&& forall|i: int| 0 <= i < p.len() - 1 ==> #[trigger] adjacent(p[i], p[i + 1])
    &&& forall|i: int| 1 <= i < p.len() ==> in_bounds_spec(#[trigger] p[i], width, height) && passable(p[i])
}

/// `p` is a path from `s` to `g` and no path from `s` to `g` has fewer cells.
pub open spec fn is_shortest_path(p: Seq<GridCoord>, s: GridCoord, g: GridCoord, passable: spec_fn(GridCoord) -> bool, width: int, height: int) -> bool {
    &&& is_path(p, s, g, passable, width, height)
    &&& forall|q: Seq<GridCoord>| #[trigger] is_path(q, s, g, passable, width, height) ==> p.len() <= q.len()
}

/// Every step of the policy costs 1.
pub open spec fn unit_cost<P: AStarPolicy>(policy: P) -> bool {
    forall|a: GridCoord, b: GridCoord| #[trigger] policy.cost_spec(a, b) == 1
}

/// Some path leads from `s` to `g`.
pub open spec fn reachable(s: GridCoord, g: GridCoord, passable: spec_fn(GridCoord) -> bool, width: int, height: int) -> bool {
    exists|p: Seq<GridCoord>| is_path(p, s, g, passable, width, height)
}

/// The passability test of a policy, as a function.
pub open spec fn passable_of<P: AStarPolicy>(policy: P) -> spec_fn(GridCoord) -> bool {
    |c: GridCoord| policy.passable_spec(c)
}

/// A goal whose every neighbour is the start's opposite: neither the start nor
/// an in-bounds passable cell.
pub open spec fn walled_off(s: GridCoord, g: GridCoord, passable: spec_fn(GridCoord) -> bool, width: int, height: int) -> bool {
    &&& s != g
    &&& forall|n: GridCoord| #[trigger] adjacent(n, g) ==> n != s && !(in_bounds_spec(n, width, height) && passable(n))
}

/// A goal that differs from the start and whose neighbours are all walls (or
/// off the grid) cannot be reached, so `astar` returns `None` for it.
pub proof fn walled_off_goal_is_unreachable(s: GridCoord, g: GridCoord, passable: spec_fn(GridCoord) -> bool, width: int, height: int)
    requires
        walled_off(s, g, passable, width, height),
    ensures
        !reachable(s, g, passable, width, height),
{
    assert forall|p: Seq<GridCoord>| !is_path(p, s, g, passable, width, height) by {
        if is_path(p, s, g, passable, width, height) {
            let k = p.len() - 2;
            assert(p.len() >= 2);
            assert(adjacent(p[k], p[k + 1]));
            if k == 0 {
                assert(p[k] == s);
            } else {
                assert(in_bounds_spec(p[k], width, height) && passable(p[k]));
            }
            assert(adjacent(p[k], g));
        }
    };
}

/// One discovered cell of the search. `depth` is the number of parent links
/// from the cell back to the start.
#[derive(Clone, Copy)]
struct SearchNode {
    pos: GridCoord,
    g: u64,
    f: u64,
    parent: usize,
    open: bool,
    depth: Ghost<nat>,
}

/// Row-major number of an in-bounds cell.
spec fn cell_index(c: GridCoord, width: int) -> int {
    c.y * width + c.x
}

proof fn lemma_cell_index(a: GridCoord, b: GridCoord, width: int, height: int)
    requires
        in_bounds_spec(a, width, height),
        in_bounds_spec(b, width, height),
    ensures
        0 <= cell_index(a, width) < width * height,
        cell_index(a, width) == cell_index(b, width) ==> a == b,
{
    let (ax, ay, bx, by) = (a.x as int, a.y as int, b.x as int, b.y as int);
    assert(0 <= ay * width + ax < width * height) by (nonlinear_arith)
        requires
            0 <= ax < width,
            0 <= ay < height,
    ;
    assert(ay * width + ax == by * width + bx ==> ay == by) by (nonlinear_arith)
        requires
            0 <= ax < width,
            0 <= bx < width,
    ;
}

/// Some node stands on `c`.
spec fn discovered(nodes: Seq<SearchNode>, c: GridCoord) -> bool {
    exists|j: int| 0 <= j < nodes.len() && #[trigger] nodes[j].pos == c
}

/// Every in-bounds passable neighbour of `c` has a node.
spec fn neighbours_discovered(
    nodes: Seq<SearchNode>,
    c: GridCoord,
    passable: spec_fn(GridCoord) -> bool,
    width: int,
    height: int,
) -> bool {
    forall|n: GridCoord| #[trigger] adjacent(c, n) && in_bounds_spec(n, width, height) && passable(n) ==> discovered(nodes, n)
}

/// The numbers of the cells of the expanded (closed) nodes.
spec fn closed_cells(nodes: Seq<SearchNode>, width: int) -> Set<int> {
    Set::new(|i: int| exists|k: int| 0 <= k < nodes.len() && !nodes[k].open && #[trigger] cell_index(nodes[k].pos, width) == i)
}

/// Parent links lead from every non-start node to an adjacent expanded node
/// one step closer to the start; every non-start node lies on the grid and
/// is passable.
spec fn nodes_ok(nodes: Seq<SearchNode>, start: GridCoord, passable: spec_fn(GridCoord) -> bool, width: int, height: int) -> bool {
    &&& nodes.len() >= 1
    &&& nodes[0].pos == start
    &&& nodes[0].depth@ == 0
    &&& forall|i: int| 1 <= i < nodes.len() ==> {
        &&& (#[trigger] nodes[i]).parent < nodes.len()
        &&& adjacent(nodes[nodes[i].parent as int].pos, nodes[i].pos)
        &&& in_bounds_spec(nodes[i].pos, width, height)
        &&& passable(nodes[i].pos)
        &&& !nodes[nodes[i].parent as int].open
        &&& nodes[i].depth@ == nodes[nodes[i].parent as int].depth@ + 1
    }
}

/// The search invariant. `pending` is the one expanded node whose neighbours
/// may still be missing (or -1).
#[verifier::opaque]
spec fn search_inv(
    nodes: Seq<SearchNode>,
    start: GridCoord,
    goal: GridCoord,
    passable: spec_fn(GridCoord) -> bool,
    width: int,
    height: int,
    pending: int,
    expanded: int,
) -> bool {
    &&& nodes_ok(nodes, start, passable, width, height)
    &&& in_bounds_spec(start, width, height)
    &&& in_bounds_spec(goal, width, height)
    &&& forall|a: int, b: int| 0 <= a < b < nodes.len() ==> #[trigger] nodes[a].pos != #[trigger] nodes[b].pos
    &&& forall|k: int| 0 <= k < nodes.len() && !(#[trigger] nodes[k]).open ==> nodes[k].pos != goal
    &&& forall|k: int| 0 <= k < nodes.len() && !(#[trigger] nodes[k]).open && k != pending
        ==> neighbours_discovered(nodes, nodes[k].pos, passable, width, height)
    &&& closed_cells(nodes, width).finite()
    &&& closed_cells(nodes, width).len() == expanded
}

proof fn lemma_node_in_bounds(nodes: Seq<SearchNode>, start: GridCoord, passable: spec_fn(GridCoord) -> bool, width: int, height: int, k: int)
    requires
        nodes_ok(nodes, start, passable, width, height),
        in_bounds_spec(start, width, height),
        0 <= k < nodes.len(),
    ensures
        in_bounds_spec(nodes[k].pos, width, height),
{
    reveal(search_inv);
    reveal(opt_inv);
    if k > 0 {
        assert(in_bounds_spec(nodes[k].pos, width, height));
    }
}

/// Expanding the open node `best` keeps the invariant, with `best` pending.
proof fn lemma_close(
    nodes: Seq<SearchNode>,
    start: GridCoord,
    goal: GridCoord,
    passable: spec_fn(GridCoord) -> bool,
    width: int,
    height: int,
    expanded: int,
    best: int,
)
    requires
        search_inv(nodes, start, goal, passable, width, height, -1, expanded),
        0 <= best < nodes.len(),
        nodes[best].open,
        nodes[best].pos != goal,
    ensures
        search_inv(nodes.update(best, SearchNode { open: false, ..nodes[best] }), start, goal, passable, width, height, best, expanded + 1),
{
    reveal(search_inv);
    reveal(opt_inv);
    let n2 = nodes.update(best, SearchNode { open: false, ..nodes[best] });
    let c = cell_index(nodes[best].pos, width);
    assert forall|i: int| 1 <= i < n2.len() implies {
        &&& (#[trigger] n2[i]).parent < n2.len()
        &&& adjacent(n2[n2[i].parent as int].pos, n2[i].pos)
        &&& in_bounds_spec(n2[i].pos, width, height)
        &&& passable(n2[i].pos)
        &&& !n2[n2[i].parent as int].open
        &&& n2[i].depth@ == n2[n2[i].parent as int].depth@ + 1
    } by {
        assert(nodes[i].parent < nodes.len());
    };
    assert forall|a: int, b: int| 0 <= a < b < n2.len() implies #[trigger] n2[a].pos != #[trigger] n2[b].pos by {
        assert(nodes[a].pos != nodes[b].pos);
    };
    assert forall|k: int| 0 <= k < n2.len() && !(#[trigger] n2[k]).open && k != best
        implies neighbours_discovered(n2, n2[k].pos, passable, width, height) by {
        assert(!nodes[k].open);
        assert forall|n: GridCoord| #[trigger] adjacent(n2[k].pos, n) && in_bounds_spec(n, width, height) && passable(n)
            implies discovered(n2, n) by {
            assert(neighbours_discovered(nodes, nodes[k].pos, passable, width, height));
            assert(discovered(nodes, n));
            let j = choose|j: int| 0 <= j < nodes.len() && #[trigger] nodes[j].pos == n;
            assert(n2[j].pos == n);
        };
    };
    let old_set = closed_cells(nodes, width);
    let new_set = closed_cells(n2, width);
    assert(new_set =~= old_set.insert(c)) by {
        assert forall|i: int| new_set.contains(i) implies old_set.insert(c).contains(i) by {
            let k = choose|k: int| 0 <= k < n2.len() && !n2[k].open && #[trigger] cell_index(n2[k].pos, width) == i;
            if k != best {
                assert(cell_index(nodes[k].pos, width) == i);
            }
        };
        assert forall|i: int| old_set.insert(c).contains(i) implies new_set.contains(i) by {
            if i == c {
                assert(cell_index(n2[best].pos, width) == i);
            } else {
                let k = choose|k: int| 0 <= k < nodes.len() && !nodes[k].open && #[trigger] cell_index(nodes[k].pos, width) == i;
                assert(cell_index(n2[k].pos, width) == i);
            }
        };
    };
    assert(!old_set.contains(c)) by {
        if old_set.contains(c) {
            let k = choose|k: int| 0 <= k < nodes.len() && !nodes[k].open && #[trigger] cell_index(nodes[k].pos, width) == c;
            lemma_node_in_bounds(nodes, start, passable, width, height, k);
            lemma_node_in_bounds(nodes, start, passable, width, height, best);
            lemma_cell_index(nodes[k].pos, nodes[best].pos, width, height);
            assert(nodes[k].pos == nodes[best].pos);
            if k < best {
                assert(nodes[k].pos != nodes[best].pos);
            } else if k > best {
                assert(nodes[best].pos != nodes[k].pos);
            }
        }
    };
}

/// Giving the open non-start node `j` the new parent `best` keeps the
/// invariant and every node's cell.
proof fn lemma_relink(
    nodes: Seq<SearchNode>,
    start: GridCoord,
    goal: GridCoord,
    passable: spec_fn(GridCoord) -> bool,
    width: int,
    height: int,
    expanded: int,
    best: int,
    j: int,
    node: SearchNode,
)
    requires
        search_inv(nodes, start, goal, passable, width, height, best, expanded),
        0 <= best < nodes.len(),
        !nodes[best].open,
        1 <= j < nodes.len(),
        nodes[j].open,
        node.pos == nodes[j].pos,
        node.parent == best,
        node.open,
        node.depth@ == nodes[best].depth@ + 1,
        adjacent(nodes[best].pos, node.pos),
    ensures
        search_inv(nodes.update(j, node), start, goal, passable, width, height, best, expanded),
        forall|k: int| 0 <= k < nodes.len() ==> #[trigger] nodes.update(j, node)[k].pos == nodes[k].pos,
{
    reveal(search_inv);
    reveal(opt_inv);
    let n2 = nodes.update(j, node);
    assert(best != j);
    assert forall|i: int| 1 <= i < n2.len() implies {
        &&& (#[trigger] n2[i]).parent < n2.len()
        &&& adjacent(n2[n2[i].parent as int].pos, n2[i].pos)
        &&& in_bounds_spec(n2[i].pos, width, height)
        &&& passable(n2[i].pos)
        &&& !n2[n2[i].parent as int].open
        &&& n2[i].depth@ == n2[n2[i].parent as int].depth@ + 1
    } by {
        assert(nodes[i].parent < nodes.len());
        if i != j {
            assert(nodes[i].parent != j);
        }
    };
    assert forall|a: int, b: int| 0 <= a < b < n2.len() implies #[trigger] n2[a].pos != #[trigger] n2[b].pos by {
        assert(nodes[a].pos != nodes[b].pos);
    };
    assert forall|k: int| 0 <= k < n2.len() && !(#[trigger] n2[k]).open && k != best
        implies neighbours_discovered(n2, n2[k].pos, passable, width, height) by {
        assert(!nodes[k].open);
        assert forall|n: GridCoord| #[trigger] adjacent(n2[k].pos, n) && in_bounds_spec(n, width, height) && passable(n)
            implies discovered(n2, n) by {
            assert(neighbours_discovered(nodes, nodes[k].pos, passable, width, height));
            assert(discovered(nodes, n));
            let i = choose|i: int| 0 <= i < nodes.len() && #[trigger] nodes[i].pos == n;
            assert(n2[i].pos == n);
        };
    };
    assert(closed_cells(n2, width) =~= closed_cells(nodes, width)) by {
        assert forall|i: int| closed_cells(n2, width).contains(i) implies closed_cells(nodes, width).contains(i) by {
            let k = choose|k: int| 0 <= k < n2.len() && !n2[k].open && #[trigger] cell_index(n2[k].pos, width) == i;
            assert(cell_index(nodes[k].pos, width) == i);
        };
        assert forall|i: int| closed_cells(nodes, width).contains(i) implies closed_cells(n2, width).contains(i) by {
            let k = choose|k: int| 0 <= k < nodes.len() && !nodes[k].open && #[trigger] cell_index(nodes[k].pos, width) == i;
            assert(cell_index(n2[k].pos, width) == i);
        };
    };
}

/// Adding an open node for an undiscovered in-bounds passable neighbour of
/// `best` keeps the invariant and every earlier node.
proof fn lemma_discover(
    nodes: Seq<SearchNode>,
    start: GridCoord,
    goal: GridCoord,
    passable: spec_fn(GridCoord) -> bool,
    width: int,
    height: int,
    expanded: int,
    best: int,
    node: SearchNode,
)
    requires
        search_inv(nodes, start, goal, passable, width, height, best, expanded),
        0 <= best < nodes.len(),
        !nodes[best].open,
        !discovered(nodes, node.pos),
        node.parent == best,
        node.open,
        node.depth@ == nodes[best].depth@ + 1,
        adjacent(nodes[best].pos, node.pos),
        in_bounds_spec(node.pos, width, height),
        passable(node.pos),
    ensures
        search_inv(nodes.push(node), start, goal, passable, width, height, best, expanded),
        forall|k: int| 0 <= k < nodes.len() ==> #[trigger] nodes.push(node)[k] == nodes[k],
{
    reveal(search_inv);
    reveal(opt_inv);
    let n2 = nodes.push(node);
    let m = nodes.len() as int;
    assert forall|i: int| 1 <= i < n2.len() implies {
        &&& (#[trigger] n2[i]).parent < n2.len()
        &&& adjacent(n2[n2[i].parent as int].pos, n2[i].pos)
        &&& in_bounds_spec(n2[i].pos, width, height)
        &&& passable(n2[i].pos)
        &&& !n2[n2[i].parent as int].open
        &&& n2[i].depth@ == n2[n2[i].parent as int].depth@ + 1
    } by {
        if i < m {
            assert(n2[i] == nodes[i]);
            assert(nodes[i].parent < nodes.len());
        }
    };
    assert forall|a: int, b: int| 0 <= a < b < n2.len() implies #[trigger] n2[a].pos != #[trigger] n2[b].pos by {
        if b < m {
            assert(nodes[a].pos != nodes[b].pos);
        } else {
            assert(n2[a].pos == nodes[a].pos);
        }
    };
    assert forall|k: int| 0 <= k < n2.len() && !(#[trigger] n2[k]).open && k != best
        implies neighbours_discovered(n2, n2[k].pos, passable, width, height) by {
        assert(k < m);
        assert(n2[k] == nodes[k]);
        assert forall|n: GridCoord| #[trigger] adjacent(n2[k].pos, n) && in_bounds_spec(n, width, height) && passable(n)
            implies discovered(n2, n) by {
            assert(neighbours_discovered(nodes, nodes[k].pos, passable, width, height));
            assert(discovered(nodes, n));
            let i = choose|i: int| 0 <= i < nodes.len() && #[trigger] nodes[i].pos == n;
            assert(n2[i].pos == n);
        };
    };
    assert(closed_cells(n2, width) =~= closed_cells(nodes, width)) by {
        assert forall|i: int| closed_cells(n2, width).contains(i) implies closed_cells(nodes, width).contains(i) by {
            let k = choose|k: int| 0 <= k < n2.len() && !n2[k].open && #[trigger] cell_index(n2[k].pos, width) == i;
            assert(k < m);
            assert(cell_index(nodes[k].pos, width) == i);
        };
        assert forall|i: int| closed_cells(nodes, width).contains(i) implies closed_cells(n2, width).contains(i) by {
            let k = choose|k: int| 0 <= k < nodes.len() && !nodes[k].open && #[trigger] cell_index(nodes[k].pos, width) == i;
            assert(n2[k] == nodes[k]);
            assert(cell_index(n2[k].pos, width) == i);
        };
    };
}

/// With every node expanded, every path from the start stays on discovered
/// cells, so the goal, which is never expanded, is unreachable.
proof fn lemma_exhausted(
    nodes: Seq<SearchNode>,
    start: GridCoord,
    goal: GridCoord,
    passable: spec_fn(GridCoord) -> bool,
    width: int,
    height: int,
    expanded: int,
)
    requires
        search_inv(nodes, start, goal, passable, width, height, -1, expanded),
        forall|k: int| 0 <= k < nodes.len() ==> !(#[trigger] nodes[k]).open,
    ensures
        !reachable(start, goal, passable, width, height),
{
    reveal(search_inv);
    reveal(opt_inv);
    if reachable(start, goal, passable, width, height) {
        let p = choose|p: Seq<GridCoord>| is_path(p, start, goal, passable, width, height);
        assert forall|i: int| 0 <= i < p.len() implies discovered(nodes, #[trigger] p[i]) by {
            lemma_path_discovered(nodes, start, goal, passable, width, height, expanded, p, i);
        };
        assert(discovered(nodes, p[p.len() - 1]));
        let k = choose|k: int| 0 <= k < nodes.len() && #[trigger] nodes[k].pos == goal;
        assert(!nodes[k].open);
    }
}

proof fn lemma_path_discovered(
    nodes: Seq<SearchNode>,
    start: GridCoord,
    goal: GridCoord,
    passable: spec_fn(GridCoord) -> bool,
    width: int,
    height: int,
    expanded: int,
    p: Seq<GridCoord>,
    i: int,
)
    requires
        search_inv(nodes, start, goal, passable, width, height, -1, expanded),
        forall|k: int| 0 <= k < nodes.len() ==> !(#[trigger] nodes[k]).open,
        is_path(p, start, goal, passable, width, height),
        0 <= i < p.len(),
    ensures
        discovered(nodes, p[i]),
    decreases i,
{
    reveal(search_inv);
    reveal(opt_inv);
    if i == 0 {
        assert(nodes[0].pos == p[0]);
    } else {
        lemma_path_discovered(nodes, start, goal, passable, width, height, expanded, p, i - 1);
        let k = choose|k: int| 0 <= k < nodes.len() && #[trigger] nodes[k].pos == p[i - 1];
        assert(!nodes[k].open);
        assert(neighbours_discovered(nodes, nodes[k].pos, passable, width, height));
        let q = i - 1;
        assert(adjacent(p[q], p[q + 1]));
        assert(p[q + 1] == p[i]);
        assert(in_bounds_spec(p[i], width, height) && passable(p[i]));
    }
}

/// The closed cells are distinct in-bounds cells other than the goal, so
/// there are fewer of them than cells.
proof fn lemma_budget(
    nodes: Seq<SearchNode>,
    start: GridCoord,
    goal: GridCoord,
    passable: spec_fn(GridCoord) -> bool,
    width: int,
    height: int,
    expanded: int,
)
    requires
        search_inv(nodes, start, goal, passable, width, height, -1, expanded),
        0 < width,
        0 < height,
    ensures
        expanded < width * height,
{
    reveal(search_inv);
    reveal(opt_inv);
    let s = closed_cells(nodes, width);
    let all = set_int_range(0, width * height);
    assert(0 < width * height) by (nonlinear_arith)
        requires
            0 < width,
            0 < height,
    ;
    lemma_int_range(0, width * height);
    lemma_cell_index(goal, goal, width, height);
    let g = cell_index(goal, width);
    assert(!s.contains(g)) by {
        if s.contains(g) {
            let k = choose|k: int| 0 <= k < nodes.len() && !nodes[k].open && #[trigger] cell_index(nodes[k].pos, width) == g;
            lemma_node_in_bounds(nodes, start, passable, width, height, k);
            lemma_cell_index(nodes[k].pos, goal, width, height);
        }
    };
    assert(s.subset_of(all.remove(g))) by {
        assert forall|i: int| s.contains(i) implies all.remove(g).contains(i) by {
            let k = choose|k: int| 0 <= k < nodes.len() && !nodes[k].open && #[trigger] cell_index(nodes[k].pos, width) == i;
            lemma_node_in_bounds(nodes, start, passable, width, height, k);
            lemma_cell_index(nodes[k].pos, nodes[k].pos, width, height);
        };
    };
    lemma_len_subset(s, all.remove(g));
}

/// Some expanded node stands on `c`.
spec fn closed_at(nodes: Seq<SearchNode>, c: GridCoord) -> bool {
    exists|k: int| 0 <= k < nodes.len() && !nodes[k].open && #[trigger] nodes[k].pos == c
}

/// With unit costs: g counts the parent links and f adds the Manhattan
/// distance to the goal; expanded nodes carry least step counts; an open
/// node next to an expanded one (other than `pending`) is at most one step
/// further.
#[verifier::opaque]
spec fn opt_inv(
    nodes: Seq<SearchNode>,
    start: GridCoord,
    goal: GridCoord,
    passable: spec_fn(GridCoord) -> bool,
    width: int,
    height: int,
    pending: int,
    expanded: int,
) -> bool {
    &&& forall|k: int| 0 <= k < nodes.len() ==> {
        &&& (#[trigger] nodes[k]).g == nodes[k].depth@
        &&& nodes[k].depth@ <= expanded
        &&& !nodes[k].open ==> nodes[k].depth@ < expanded
        &&& nodes[k].f == nodes[k].g + manhattan_spec(nodes[k].pos, goal)
    }
    &&& expanded == 0 ==> nodes.len() == 1 && nodes[0].open
    &&& expanded > 0 ==> !nodes[0].open
    &&& forall|k: int, q: Seq<GridCoord>|
        0 <= k < nodes.len() && !nodes[k].open && #[trigger] is_path(q, start, nodes[k].pos, passable, width, height)
            ==> nodes[k].g <= q.len() - 1
    &&& forall|m: int, j: int|
        0 <= m < nodes.len() && 0 <= j < nodes.len() && !(#[trigger] nodes[m]).open && m != pending
            && (#[trigger] nodes[j]).open && adjacent(nodes[m].pos, nodes[j].pos) ==> nodes[j].g <= nodes[m].g + 1
}

proof fn lemma_heuristic_along(q: Seq<GridCoord>, i: int, goal: GridCoord)
    requires
        0 <= i < q.len(),
        forall|t: int| 0 <= t < q.len() - 1 ==> #[trigger] adjacent(q[t], q[t + 1]),
    ensures
        manhattan_spec(q[i], goal) <= (q.len() - 1 - i) + manhattan_spec(q[q.len() - 1], goal),
    decreases q.len() - i,
{
    if i < q.len() - 1 {
        lemma_heuristic_along(q, i + 1, goal);
        assert(adjacent(q[i], q[i + 1]));
    }
}

proof fn lemma_prefix_path(q: Seq<GridCoord>, s: GridCoord, g: GridCoord, passable: spec_fn(GridCoord) -> bool, width: int, height: int, i: int)
    requires
        is_path(q, s, g, passable, width, height),
        0 <= i < q.len(),
    ensures
        is_path(q.subrange(0, i + 1), s, q[i], passable, width, height),
{
    let p = q.subrange(0, i + 1);
    assert forall|t: int| 0 <= t < p.len() - 1 implies #[trigger] adjacent(p[t], p[t + 1]) by {
        assert(p[t] == q[t] && p[t + 1] == q[t + 1]);
    };
    assert forall|t: int| 1 <= t < p.len() implies in_bounds_spec(#[trigger] p[t], width, height) && passable(p[t]) by {
        assert(p[t] == q[t]);
    };
}

proof fn first_exit(nodes: Seq<SearchNode>, q: Seq<GridCoord>, i: int) -> (r: int)
    requires
        0 <= i < q.len(),
        closed_at(nodes, q[i]),
        !closed_at(nodes, q[q.len() - 1]),
    ensures
        i < r < q.len(),
        closed_at(nodes, q[r - 1]),
        !closed_at(nodes, q[r]),
    decreases q.len() - i,
{
    if !closed_at(nodes, q[i + 1]) {
        i + 1
    } else {
        first_exit(nodes, q, i + 1)
    }
}

/// The open node `v` that comes first in the frontier order carries the
/// least step count over all paths to its cell.
proof fn lemma_frontier(
    nodes: Seq<SearchNode>,
    start: GridCoord,
    goal: GridCoord,
    passable: spec_fn(GridCoord) -> bool,
    width: int,
    height: int,
    expanded: int,
    v: int,
    q: Seq<GridCoord>,
)
    requires
        search_inv(nodes, start, goal, passable, width, height, -1, expanded),
        opt_inv(nodes, start, goal, passable, width, height, -1, expanded),
        0 <= v < nodes.len(),
        nodes[v].open,
        forall|k: int| 0 <= k < nodes.len() && (#[trigger] nodes[k]).open ==> !before_spec(nodes[k], nodes[v]),
        is_path(q, start, nodes[v].pos, passable, width, height),
    ensures
        nodes[v].g <= q.len() - 1,
{
    reveal(search_inv);
    reveal(opt_inv);
    if v != 0 {
        assert(expanded > 0);
        assert(nodes[0].pos == q[0]);
        assert(closed_at(nodes, q[0]));
        let last = q.len() - 1;
        assert(!closed_at(nodes, q[last])) by {
            if closed_at(nodes, q[last]) {
                let k = choose|k: int| 0 <= k < nodes.len() && !nodes[k].open && #[trigger] nodes[k].pos == q[last];
                if k < v {
                    assert(nodes[k].pos != nodes[v].pos);
                } else if k > v {
                    assert(nodes[v].pos != nodes[k].pos);
                }
            }
        };
        let i = first_exit(nodes, q, 0);
        let m = choose|k: int| 0 <= k < nodes.len() && !nodes[k].open && #[trigger] nodes[k].pos == q[i - 1];
        lemma_prefix_path(q, start, nodes[v].pos, passable, width, height, i - 1);
        let pre = q.subrange(0, i);
        assert(is_path(pre, start, nodes[m].pos, passable, width, height));
        assert(nodes[m].g <= pre.len() - 1);
        let t = i - 1;
        assert(adjacent(q[t], q[t + 1]));
        assert(in_bounds_spec(q[i], width, height) && passable(q[i]));
        assert(neighbours_discovered(nodes, nodes[m].pos, passable, width, height));
        assert(discovered(nodes, q[i]));
        let j = choose|j: int| 0 <= j < nodes.len() && #[trigger] nodes[j].pos == q[i];
        assert(nodes[j].open);
        assert(nodes[j].g <= nodes[m].g + 1);
        lemma_heuristic_along(q, i, goal);
        assert(!before_spec(nodes[j], nodes[v]));
    }
}

/// Expanding the first open node keeps the optimality facts, with it pending.
proof fn lemma_opt_close(
    nodes: Seq<SearchNode>,
    start: GridCoord,
    goal: GridCoord,
    passable: spec_fn(GridCoord) -> bool,
    width: int,
    height: int,
    expanded: int,
    best: int,
)
    requires
        search_inv(nodes, start, goal, passable, width, height, -1, expanded),
        opt_inv(nodes, start, goal, passable, width, height, -1, expanded),
        0 <= best < nodes.len(),
        nodes[best].open,
        forall|k: int| 0 <= k < nodes.len() && (#[trigger] nodes[k]).open ==> !before_spec(nodes[k], nodes[best]),
    ensures
        opt_inv(nodes.update(best, SearchNode { open: false, ..nodes[best] }), start, goal, passable, width, height, best, expanded + 1),
{
    reveal(search_inv);
    reveal(opt_inv);
    let n2 = nodes.update(best, SearchNode { open: false, ..nodes[best] });
    assert forall|k: int, q: Seq<GridCoord>|
        0 <= k < n2.len() && !n2[k].open && #[trigger] is_path(q, start, n2[k].pos, passable, width, height)
            implies n2[k].g <= q.len() - 1 by {
        if k == best {
            lemma_frontier(nodes, start, goal, passable, width, height, expanded, best, q);
        } else {
            assert(n2[k] == nodes[k]);
        }
    };
    assert forall|m: int, j: int|
        0 <= m < n2.len() && 0 <= j < n2.len() && !(#[trigger] n2[m]).open && m != best
            && (#[trigger] n2[j]).open && adjacent(n2[m].pos, n2[j].pos) implies n2[j].g <= n2[m].g + 1 by {
        assert(n2[m] == nodes[m] && n2[j] == nodes[j]);
    };
    assert forall|k: int| 0 <= k < n2.len() implies {
        &&& (#[trigger] n2[k]).g == n2[k].depth@
        &&& n2[k].depth@ <= expanded + 1
        &&& !n2[k].open ==> n2[k].depth@ < expanded + 1
        &&& n2[k].f == n2[k].g + manhattan_spec(n2[k].pos, goal)
    } by {
        assert(nodes[k].depth@ <= expanded);
    };
}

/// Relinking an open node to the expanded `best` at one more step keeps the
/// optimality facts.
proof fn lemma_opt_relink(
    nodes: Seq<SearchNode>,
    start: GridCoord,
    goal: GridCoord,
    passable: spec_fn(GridCoord) -> bool,
    width: int,
    height: int,
    expanded: int,
    best: int,
    j: int,
    node: SearchNode,
)
    requires
        search_inv(nodes, start, goal, passable, width, height, best, expanded),
        opt_inv(nodes, start, goal, passable, width, height, best, expanded),
        0 <= best < nodes.len(),
        !nodes[best].open,
        0 <= j < nodes.len(),
        nodes[j].open,
        node.pos == nodes[j].pos,
        node.open,
        node.g < nodes[j].g,
        node.g == nodes[best].g + 1,
        node.depth@ == nodes[best].depth@ + 1,
        node.f == node.g + manhattan_spec(node.pos, goal),
    ensures
        opt_inv(nodes.update(j, node), start, goal, passable, width, height, best, expanded),
{
    reveal(search_inv);
    reveal(opt_inv);
    let n2 = nodes.update(j, node);
    assert forall|k: int, q: Seq<GridCoord>|
        0 <= k < n2.len() && !n2[k].open && #[trigger] is_path(q, start, n2[k].pos, passable, width, height)
            implies n2[k].g <= q.len() - 1 by {
        assert(k != j);
        assert(n2[k] == nodes[k]);
    };
    assert forall|m: int, i: int|
        0 <= m < n2.len() && 0 <= i < n2.len() && !(#[trigger] n2[m]).open && m != best
            && (#[trigger] n2[i]).open && adjacent(n2[m].pos, n2[i].pos) implies n2[i].g <= n2[m].g + 1 by {
        assert(m != j);
        assert(n2[m] == nodes[m]);
        assert(nodes[i].open);
        assert(nodes[i].g <= nodes[m].g + 1);
    };
    assert forall|k: int| 0 <= k < n2.len() implies {
        &&& (#[trigger] n2[k]).g == n2[k].depth@
        &&& n2[k].depth@ <= expanded
        &&& !n2[k].open ==> n2[k].depth@ < expanded
        &&& n2[k].f == n2[k].g + manhattan_spec(n2[k].pos, goal)
    } by {
        assert(nodes[best].depth@ < expanded);
    };
    assert(expanded > 0);
    assert(!n2[0].open) by {
        assert(!nodes[0].open);
        assert(j != 0);
    };
}

/// Adding an undiscovered neighbour of the expanded `best` at one more step
/// keeps the optimality facts.
proof fn lemma_opt_discover(
    nodes: Seq<SearchNode>,
    start: GridCoord,
    goal: GridCoord,
    passable: spec_fn(GridCoord) -> bool,
    width: int,
    height: int,
    expanded: int,
    best: int,
    node: SearchNode,
)
    requires
        search_inv(nodes, start, goal, passable, width, height, best, expanded),
        opt_inv(nodes, start, goal, passable, width, height, best, expanded),
        0 <= best < nodes.len(),
        !nodes[best].open,
        !discovered(nodes, node.pos),
        in_bounds_spec(node.pos, width, height),
        passable(node.pos),
        node.open,
        node.g == nodes[best].g + 1,
        node.depth@ == nodes[best].depth@ + 1,
        node.f == node.g + manhattan_spec(node.pos, goal),
    ensures
        opt_inv(nodes.push(node), start, goal, passable, width, height, best, expanded),
{
    reveal(search_inv);
    reveal(opt_inv);
    let n2 = nodes.push(node);
    let last = nodes.len() as int;
    assert forall|k: int, q: Seq<GridCoord>|
        0 <= k < n2.len() && !n2[k].open && #[trigger] is_path(q, start, n2[k].pos, passable, width, height)
            implies n2[k].g <= q.len() - 1 by {
        assert(k < last);
        assert(n2[k] == nodes[k]);
    };
    assert forall|m: int, i: int|
        0 <= m < n2.len() && 0 <= i < n2.len() && !(#[trigger] n2[m]).open && m != best
            && (#[trigger] n2[i]).open && adjacent(n2[m].pos, n2[i].pos) implies n2[i].g <= n2[m].g + 1 by {
        assert(m < last);
        assert(n2[m] == nodes[m]);
        if i == last {
            assert(neighbours_discovered(nodes, nodes[m].pos, passable, width, height));
            assert(discovered(nodes, node.pos));
        } else {
            assert(n2[i] == nodes[i]);
        }
    };
    assert forall|k: int| 0 <= k < n2.len() implies {
        &&& (#[trigger] n2[k]).g == n2[k].depth@
        &&& n2[k].depth@ <= expanded
        &&& !n2[k].open ==> n2[k].depth@ < expanded
        &&& n2[k].f == n2[k].g + manhattan_spec(n2[k].pos, goal)
    } by {
        assert(nodes[best].depth@ < expanded);
        if k < last {
            assert(n2[k] == nodes[k]);
        }
    };
    assert(expanded > 0);
    assert(n2[0] == nodes[0]);
}

/// Every node of the search lies on the grid; the start node is node 0.
proof fn lemma_inv_node(
    nodes: Seq<SearchNode>,
    start: GridCoord,
    goal: GridCoord,
    passable: spec_fn(GridCoord) -> bool,
    width: int,
    height: int,
    pending: int,
    expanded: int,
    k: int,
)
    requires
        search_inv(nodes, start, goal, passable, width, height, pending, expanded),
        0 <= k < nodes.len(),
    ensures
        in_bounds_spec(nodes[k].pos, width, height),
        nodes[0].pos == start,
        nodes_ok(nodes, start, passable, width, height),
        forall|a: int, b: int| 0 <= a < b < nodes.len() ==> #[trigger] nodes[a].pos != #[trigger] nodes[b].pos,
{
    reveal(search_inv);
    lemma_node_in_bounds(nodes, start, passable, width, height, k);
}

/// Once every neighbour of the pending node has a node, nothing is pending.
proof fn lemma_settle(
    nodes: Seq<SearchNode>,
    start: GridCoord,
    goal: GridCoord,
    passable: spec_fn(GridCoord) -> bool,
    width: int,
    height: int,
    expanded: int,
    best: int,
)
    requires
        search_inv(nodes, start, goal, passable, width, height, best, expanded),
        0 <= best < nodes.len(),
        neighbours_discovered(nodes, nodes[best].pos, passable, width, height),
    ensures
        search_inv(nodes, start, goal, passable, width, height, -1, expanded),
{
    reveal(search_inv);
    assert forall|k: int| 0 <= k < nodes.len() && !(#[trigger] nodes[k]).open && k != -1
        implies neighbours_discovered(nodes, nodes[k].pos, passable, width, height) by {
        if k != best {
            assert(neighbours_discovered(nodes, nodes[k].pos, passable, width, height));
        }
    };
}

/// Index of the node at `c`, if any.
fn find_node(nodes: &Vec<SearchNode>, c: GridCoord) -> (r: Option<usize>)
    ensures
        match r {
            Some(j) => j < nodes@.len() && nodes@[j as int].pos == c,
            None => !discovered(nodes@, c),
        },
{
    let mut j: usize = 0;
    while j < nodes.len()
        invariant
            j <= nodes@.len(),
            forall|i: int| 0 <= i < j ==> nodes@[i].pos != c,
        decreases nodes@.len() - j,
    {
        if nodes[j].pos == c {
            return Some(j);
        }
        j += 1;
    }
    None
}

/// The frontier order: lower f, then lower x, then lower y.
spec fn before_spec(a: SearchNode, b: SearchNode) -> bool {
    a.f < b.f || (a.f == b.f && (a.pos.x < b.pos.x || (a.pos.x == b.pos.x && a.pos.y < b.pos.y)))
}

/// `a` comes before `b` in the frontier: lower f, then lower x, then lower y.
fn frontier_before(a: &SearchNode, b: &SearchNode) -> (r: bool)
    ensures
        r == before_spec(*a, *b),
{
    if a.f != b.f {
        a.f < b.f
    } else if a.pos.x != b.pos.x {
        a.pos.x < b.pos.x
    } else {
        a.pos.y < b.pos.y
    }
}

/// The open node that comes first in the frontier order, if any.
fn pick_open(nodes: &Vec<SearchNode>) -> (r: Option<usize>)
    ensures
        match r {
            Some(j) => j < nodes@.len() && nodes@[j as int].open && forall|k: int|
                0 <= k < nodes@.len() && (#[trigger] nodes@[k]).open ==> !before_spec(nodes@[k], nodes@[j as int]),
            None => forall|k: int| 0 <= k < nodes@.len() ==> !(#[trigger] nodes@[k]).open,
        },
{
    let mut best: Option<usize> = None;
    let mut j: usize = 0;
    while j < nodes.len()
        invariant
            j <= nodes@.len(),
            match best {
                Some(b) => b < nodes@.len() && nodes@[b as int].open && forall|k: int|
                    0 <= k < j && (#[trigger] nodes@[k]).open ==> !before_spec(nodes@[k], nodes@[b as int]),
                None => forall|k: int| 0 <= k < j ==> !(#[trigger] nodes@[k]).open,
            },
        decreases nodes@.len() - j,
    {
        if nodes[j].open {
            match best {
                Some(b) => {
                    if frontier_before(&nodes[j], &nodes[b]) {
                        best = Some(j);
                    }
                },
                None => {
                    best = Some(j);
                },
            }
        }
        j += 1;
    }
    best
}

/// Follows parent links from node `last` back to the start and returns the
/// path from start to that node's cell.
fn reconstruct(
    nodes: &Vec<SearchNode>,
    last: usize,
    start: GridCoord,
    goal: GridCoord,
    Ghost(passable): Ghost<spec_fn(GridCoord) -> bool>,
    width: i32,
    height: i32,
) -> (r: Vec<GridCoord>)
    requires
        nodes_ok(nodes@, start, passable, width as int, height as int),
        1 <= last < nodes@.len(),
        nodes@[last as int].pos == goal,
        forall|a: int, b: int| 0 <= a < b < nodes@.len() ==> #[trigger] nodes@[a].pos != #[trigger] nodes@[b].pos,
    ensures
        is_path(r@, start, goal, passable, width as int, height as int),
        distinct_cells(r@),
        r@.len() == nodes@[last as int].depth@ + 1,
{
    let mut back: Vec<GridCoord> = Vec::new();
    back.push(nodes[last].pos);
    let mut cur: usize = last;
    let ghost mut ks: Seq<int> = seq![last as int];
    while cur != 0
        invariant
            nodes_ok(nodes@, start, passable, width as int, height as int),
            forall|a: int, b: int| 0 <= a < b < nodes@.len() ==> #[trigger] nodes@[a].pos != #[trigger] nodes@[b].pos,
            cur < nodes@.len(),
            ks.len() == back@.len(),
            ks[ks.len() - 1] == cur,
            back@.len() + nodes@[cur as int].depth@ == nodes@[last as int].depth@ + 1,
            forall|i: int| 0 <= i < ks.len() ==> 0 <= #[trigger] ks[i] < nodes@.len() && back@[i] == nodes@[ks[i]].pos,
            forall|i: int, j: int| 0 <= i < j < ks.len() ==> nodes@[#[trigger] ks[i]].depth@ > nodes@[#[trigger] ks[j]].depth@,
            back@.len() >= 1,
            back@[0] == goal,
            back@[back@.len() - 1] == nodes@[cur as int].pos,
            forall|i: int| 0 <= i < back@.len() - 1 ==> #[trigger] adjacent(back@[i + 1], back@[i]),
            forall|i: int| 0 <= i < back@.len() - 1 ==> in_bounds_spec(#[trigger] back@[i], width as int, height as int)
                && passable(back@[i]),
            cur != 0 ==> in_bounds_spec(nodes@[cur as int].pos, width as int, height as int)
                && passable(nodes@[cur as int].pos),
        decreases nodes@[cur as int].depth@,
    {
        let ghost old_back = back@;
        let p = nodes[cur].parent;
        assert(1 <= cur < nodes@.len());
        assert(adjacent(nodes@[p as int].pos, nodes@[cur as int].pos));
        back.push(nodes[p].pos);
        proof {
            let old_ks = ks;
            ks = ks.push(p as int);
            assert(nodes@[p as int].depth@ < nodes@[cur as int].depth@);
            assert forall|i: int, j: int| 0 <= i < j < ks.len() implies nodes@[#[trigger] ks[i]].depth@ > nodes@[#[trigger] ks[j]].depth@ by {
                if j == ks.len() - 1 {
                    if i < old_ks.len() - 1 {
                        assert(nodes@[old_ks[i]].depth@ > nodes@[old_ks[old_ks.len() - 1]].depth@);
                    }
                } else {
                    assert(ks[i] == old_ks[i] && ks[j] == old_ks[j]);
                }
            };
            assert forall|i: int| 0 <= i < ks.len() implies 0 <= #[trigger] ks[i] < nodes@.len() && back@[i] == nodes@[ks[i]].pos by {
                if i < old_ks.len() {
                    assert(ks[i] == old_ks[i]);
                    assert(back@[i] == old_back[i]);
                }
            };
        }
        assert forall|i: int| 0 <= i < back@.len() - 1 implies #[trigger] adjacent(back@[i + 1], back@[i]) by {
            if i < old_back.len() - 1 {
                assert(back@[i] == old_back[i] && back@[i + 1] == old_back[i + 1]);
            }
        };
        assert forall|i: int| 0 <= i < back@.len() - 1 implies in_bounds_spec(#[trigger] back@[i], width as int, height as int)
            && passable(back@[i]) by {
            if i < old_back.len() - 1 {
                assert(back@[i] == old_back[i]);
            }
        };
        cur = p;
    }
    assert(distinct_cells(back@)) by {
        assert forall|i: int, j: int| 0 <= i < j < back@.len() implies back@[i] != back@[j] by {
            assert(nodes@[ks[i]].depth@ > nodes@[ks[j]].depth@);
            if ks[i] < ks[j] {
                assert(nodes@[ks[i]].pos != nodes@[ks[j]].pos);
            } else {
                assert(nodes@[ks[j]].pos != nodes@[ks[i]].pos);
            }
        };
    };
    let n = back.len();
    let mut path: Vec<GridCoord> = Vec::new();
    let mut k: usize = 0;
    while k < n
        invariant
            n == back@.len(),
            k <= n,
            path@.len() == k,
            forall|j: int| 0 <= j < k ==> path@[j] == back@[n - 1 - j],
        decreases n - k,
    {
        path.push(back[n - 1 - k]);
        k += 1;
    }
    assert forall|i: int| 0 <= i < path@.len() - 1 implies #[trigger] adjacent(path@[i], path@[i + 1]) by {
        assert(path@[i] == back@[n - 1 - i]);
        assert(path@[i + 1] == back@[n - 1 - (i + 1)]);
        assert(adjacent(back@[(n - 2 - i) + 1], back@[n - 2 - i]));
    };
    assert forall|i: int| 1 <= i < path@.len() implies in_bounds_spec(#[trigger] path@[i], width as int, height as int)
        && passable(path@[i]) by {
        assert(path@[i] == back@[n - 1 - i]);
    };
    assert forall|i: int, j: int| 0 <= i < j < path@.len() implies path@[i] != path@[j] by {
        assert(path@[i] == back@[n - 1 - i] && path@[j] == back@[n - 1 - j]);
    };
    path
}

/// Facts about node `k` under the optimality invariant.
proof fn lemma_opt_node(
    nodes: Seq<SearchNode>,
    start: GridCoord,
    goal: GridCoord,
    passable: spec_fn(GridCoord) -> bool,
    width: int,
    height: int,
    pending: int,
    expanded: int,
    k: int,
)
    requires
        opt_inv(nodes, start, goal, passable, width, height, pending, expanded),
        0 <= k < nodes.len(),
    ensures
        nodes[k].g == nodes[k].depth@,
        nodes[k].depth@ <= expanded,
        !nodes[k].open ==> nodes[k].depth@ < expanded,
        nodes[k].f == nodes[k].g + manhattan_spec(nodes[k].pos, goal),
        expanded > 0 ==> !nodes[0].open,
{
    reveal(opt_inv);
}

/// Once every open neighbour of the pending node is at most one step
/// further, nothing is pending.
proof fn lemma_opt_settle(
    nodes: Seq<SearchNode>,
    start: GridCoord,
    goal: GridCoord,
    passable: spec_fn(GridCoord) -> bool,
    width: int,
    height: int,
    expanded: int,
    best: int,
)
    requires
        opt_inv(nodes, start, goal, passable, width, height, best, expanded),
        0 <= best < nodes.len(),
        forall|j: int| 0 <= j < nodes.len() && (#[trigger] nodes[j]).open && adjacent(nodes[best].pos, nodes[j].pos)
            ==> nodes[j].g <= nodes[best].g + 1,
    ensures
        opt_inv(nodes, start, goal, passable, width, height, -1, expanded),
{
    reveal(opt_inv);
    assert forall|m: int, j: int|
        0 <= m < nodes.len() && 0 <= j < nodes.len() && !(#[trigger] nodes[m]).open && m != -1
            && (#[trigger] nodes[j]).open && adjacent(nodes[m].pos, nodes[j].pos) implies nodes[j].g <= nodes[m].g + 1 by {
        if m != best {
            assert(nodes[j].g <= nodes[m].g + 1);
        }
    };
}

/// An open node next to the expanded `best` lies on the grid and is
/// passable (it is not the start, which is expanded first).
proof fn lemma_open_neighbour(
    nodes: Seq<SearchNode>,
    start: GridCoord,
    goal: GridCoord,
    passable: spec_fn(GridCoord) -> bool,
    width: int,
    height: int,
    pending: int,
    expanded: int,
    j: int,
)
    requires
        search_inv(nodes, start, goal, passable, width, height, pending, expanded),
        opt_inv(nodes, start, goal, passable, width, height, pending, expanded),
        expanded > 0,
        0 <= j < nodes.len(),
        nodes[j].open,
    ensures
        in_bounds_spec(nodes[j].pos, width, height),
        passable(nodes[j].pos),
{
    reveal(search_inv);
    reveal(opt_inv);
}

/// Discovers `n`, a neighbour of the just expanded node `best`, or gives
/// its open node a shorter route through `best`.
#[verifier::spinoff_prover]
fn visit_neighbour<P: AStarPolicy>(
    nodes: &mut Vec<SearchNode>,
    best: usize,
    n: GridCoord,
    goal: GridCoord,
    policy: &P,
    width: i32,
    height: i32,
    Ghost(start): Ghost<GridCoord>,
    Ghost(expanded): Ghost<int>,
)
    requires
        policy.well_formed(),
        0 < width,
        0 < height,
        0 < expanded <= width * height,
        best < old(nodes)@.len(),
        !old(nodes)@[best as int].open,
        adjacent(old(nodes)@[best as int].pos, n),
        search_inv(old(nodes)@, start, goal, passable_of(*policy), width as int, height as int, best as int, expanded),
        unit_cost(*policy) ==> opt_inv(old(nodes)@, start, goal, passable_of(*policy), width as int, height as int, best as int, expanded),
    ensures
        search_inv(final(nodes)@, start, goal, passable_of(*policy), width as int, height as int, best as int, expanded),
        unit_cost(*policy) ==> opt_inv(final(nodes)@, start, goal, passable_of(*policy), width as int, height as int, best as int, expanded),
        final(nodes)@.len() >= old(nodes)@.len(),
        final(nodes)@[best as int] == old(nodes)@[best as int],
        forall|j: int| 0 <= j < old(nodes)@.len() ==> #[trigger] final(nodes)@[j].pos == old(nodes)@[j].pos
            && final(nodes)@[j].open == old(nodes)@[j].open && final(nodes)@[j].g <= old(nodes)@[j].g,
        forall|j: int| old(nodes)@.len() <= j < final(nodes)@.len() ==> (#[trigger] final(nodes)@[j]).pos == n,
        in_bounds_spec(n, width as int, height as int) && passable_of(*policy)(n) ==> discovered(final(nodes)@, n),
        unit_cost(*policy) ==> forall|j: int| 0 <= j < final(nodes)@.len() && (#[trigger] final(nodes)@[j]).open
            && final(nodes)@[j].pos == n ==> final(nodes)@[j].g <= old(nodes)@[best as int].g + 1,
{
    let ghost passable = passable_of(*policy);
    let ghost unit = unit_cost(*policy);
    let cur_pos = nodes[best].pos;
    let cur_g = nodes[best].g;
    let ghost before = nodes@;
    proof {
        lemma_inv_node(nodes@, start, goal, passable, width as int, height as int, best as int, expanded, best as int);
        if unit {
            lemma_opt_node(nodes@, start, goal, passable, width as int, height as int, best as int, expanded, best as int);
            assert(width as int * height as int <= 0x4000_0000_0000_0000) by (nonlinear_arith)
                requires
                    0 < width,
                    0 < height,
            ;
        }
    }
    if !in_bounds(n, width, height) || !policy.passable(n) {
        proof {
            if unit {
                assert forall|j: int| 0 <= j < nodes@.len() && (#[trigger] nodes@[j]).open && nodes@[j].pos == n
                    implies nodes@[j].g <= cur_g + 1 by {
                    lemma_open_neighbour(nodes@, start, goal, passable, width as int, height as int, best as int, expanded, j);
                };
            }
        }
        return;
    }
    let step_cost = policy.cost(cur_pos, n);
    let tentative = cur_g.saturating_add(step_cost as u64);
    let f = tentative.saturating_add(manhattan(n, goal));
    assert(unit ==> tentative == cur_g + 1 && f == tentative + manhattan_spec(n, goal));
    let depth = Ghost(nodes@[best as int].depth@ + 1);
    match find_node(&nodes, n) {
        Some(j) => {
            if nodes[j].open && tentative < nodes[j].g && j != 0 {
                let node = SearchNode { pos: n, g: tentative, f, parent: best, open: true, depth };
                proof {
                    if unit {
                        lemma_opt_relink(nodes@, start, goal, passable, width as int, height as int, expanded, best as int, j as int, node);
                    }
                    lemma_relink(nodes@, start, goal, passable, width as int, height as int, expanded, best as int, j as int, node);
                }
                nodes.set(j, node);
            }
            assert(nodes@[j as int].pos == n);
            proof {
                if unit {
                    assert forall|j2: int| 0 <= j2 < nodes@.len() && (#[trigger] nodes@[j2]).open && nodes@[j2].pos == n
                        implies nodes@[j2].g <= cur_g + 1 by {
                        if j2 != j {
                            assert(nodes@[j2] == before[j2]);
                            if j2 < j {
                                assert(before[j2].pos != before[j as int].pos);
                            } else {
                                assert(before[j as int].pos != before[j2].pos);
                            }
                        } else if j == 0 {
                            lemma_opt_node(before, start, goal, passable, width as int, height as int, best as int, expanded, 0);
                        }
                    };
                }
            }
        },
        None => {
            let node = SearchNode { pos: n, g: tentative, f, parent: best, open: true, depth };
            proof {
                if unit {
                    lemma_opt_discover(nodes@, start, goal, passable, width as int, height as int, expanded, best as int, node);
                }
                lemma_discover(nodes@, start, goal, passable, width as int, height as int, expanded, best as int, node);
            }
            nodes.push(node);
            assert(nodes@[before.len() as int].pos == n);
            proof {
                if unit {
                    assert forall|j2: int| 0 <= j2 < nodes@.len() && (#[trigger] nodes@[j2]).open && nodes@[j2].pos == n
                        implies nodes@[j2].g <= cur_g + 1 by {
                        if j2 < before.len() {
                            assert(nodes@[j2] == before[j2]);
                            assert(before[j2].pos == n);
                        }
                    };
                }
            }
        },
    }
}

/// Discovers or relinks every in-bounds passable neighbour of the just
/// expanded node `best`.
#[verifier::spinoff_prover]
fn expand_neighbours<P: AStarPolicy>(
    nodes: &mut Vec<SearchNode>,
    best: usize,
    goal: GridCoord,
    policy: &P,
    width: i32,
    height: i32,
    Ghost(start): Ghost<GridCoord>,
    Ghost(expanded): Ghost<int>,
)
    requires
        policy.well_formed(),
        0 < width,
        0 < height,
        0 < expanded <= width * height,
        best < old(nodes)@.len(),
        !old(nodes)@[best as int].open,
        search_inv(old(nodes)@, start, goal, passable_of(*policy), width as int, height as int, best as int, expanded),
        unit_cost(*policy) ==> opt_inv(old(nodes)@, start, goal, passable_of(*policy), width as int, height as int, best as int, expanded),
    ensures
        search_inv(final(nodes)@, start, goal, passable_of(*policy), width as int, height as int, -1, expanded),
        unit_cost(*policy) ==> opt_inv(final(nodes)@, start, goal, passable_of(*policy), width as int, height as int, -1, expanded),
{
    let ghost passable = passable_of(*policy);
    let ghost unit = unit_cost(*policy);
    let cur_pos = nodes[best].pos;
    let cur_g = nodes[best].g;
    proof {
        lemma_inv_node(nodes@, start, goal, passable, width as int, height as int, best as int, expanded, best as int);
        if unit {
            lemma_opt_node(nodes@, start, goal, passable, width as int, height as int, best as int, expanded, best as int);
            assert(width as int * height as int <= 0x4000_0000_0000_0000) by (nonlinear_arith)
                requires
                    0 < width,
                    0 < height,
            ;
        }
    }
    let neigh = neighbours_4(cur_pos);
    let mut k: usize = 0;
    while k < 4
        invariant
            policy.well_formed(),
            passable == passable_of(*policy),
            unit == unit_cost(*policy),
            unit ==> cur_g < 0x4000_0000_0000_0000,
            0 < expanded <= width * height,
            k <= 4,
            best < nodes@.len(),
            nodes@[best as int].pos == cur_pos,
            nodes@[best as int].g == cur_g,
            !nodes@[best as int].open,
            in_bounds_spec(cur_pos, width as int, height as int),
            neigh@ == seq![
                GridCoord { x: (cur_pos.x + 1) as i32, y: cur_pos.y },
                GridCoord { x: (cur_pos.x - 1) as i32, y: cur_pos.y },
                GridCoord { x: cur_pos.x, y: (cur_pos.y + 1) as i32 },
                GridCoord { x: cur_pos.x, y: (cur_pos.y - 1) as i32 },
            ],
            forall|i: int| 0 <= i < 4 ==> adjacent(cur_pos, #[trigger] neigh@[i]),
            search_inv(nodes@, start, goal, passable, width as int, height as int, best as int, expanded),
            unit ==> opt_inv(nodes@, start, goal, passable, width as int, height as int, best as int, expanded),
            forall|i: int| 0 <= i < k && in_bounds_spec(neigh@[i], width as int, height as int) && passable(neigh@[i])
                ==> discovered(nodes@, #[trigger] neigh@[i]),
            unit ==> forall|i: int, j: int| 0 <= i < k && 0 <= j < nodes@.len() && (#[trigger] nodes@[j]).open
                && nodes@[j].pos == #[trigger] neigh@[i] ==> nodes@[j].g <= cur_g + 1,
        decreases 4 - k,
    {
        let n = neigh[k];
        k += 1;
        let ghost before = nodes@;
        visit_neighbour(nodes, best, n, goal, policy, width, height, Ghost(start), Ghost(expanded));
        assert forall|i: int| 0 <= i < k && in_bounds_spec(neigh@[i], width as int, height as int) && passable(neigh@[i])
            implies discovered(nodes@, #[trigger] neigh@[i]) by {
            if i < k - 1 {
                assert(discovered(before, neigh@[i]));
                let j = choose|j: int| 0 <= j < before.len() && #[trigger] before[j].pos == neigh@[i];
                assert(nodes@[j].pos == neigh@[i]);
            }
        };
        proof {
            if unit {
                assert forall|i: int, j: int| 0 <= i < k && 0 <= j < nodes@.len() && (#[trigger] nodes@[j]).open
                    && nodes@[j].pos == #[trigger] neigh@[i] implies nodes@[j].g <= cur_g + 1 by {
                    if i < k - 1 && j < before.len() {
                        assert(before[j].open && before[j].pos == neigh@[i]);
                    }
                };
            }
        }
    }
    proof {
        assert(neighbours_discovered(nodes@, cur_pos, passable, width as int, height as int)) by {
            assert forall|n: GridCoord| #[trigger] adjacent(cur_pos, n) && in_bounds_spec(n, width as int, height as int) && passable(n)
                implies discovered(nodes@, n) by {
                if n.x == cur_pos.x + 1 {
                    assert(n == neigh@[0]);
                } else if n.x == cur_pos.x - 1 {
                    assert(n == neigh@[1]);
                } else if n.y == cur_pos.y + 1 {
                    assert(n == neigh@[2]);
                } else {
                    assert(n == neigh@[3]);
                }
            };
        };
        if unit {
            assert forall|j: int| 0 <= j < nodes@.len() && (#[trigger] nodes@[j]).open && adjacent(nodes@[best as int].pos, nodes@[j].pos)
                implies nodes@[j].g <= nodes@[best as int].g + 1 by {
                let c = nodes@[j].pos;
                if c.x == cur_pos.x + 1 {
                    assert(c == neigh@[0]);
                } else if c.x == cur_pos.x - 1 {
                    assert(c == neigh@[1]);
                } else if c.y == cur_pos.y + 1 {
                    assert(c == neigh@[2]);
                } else {
                    assert(c == neigh@[3]);
                }
            };
            lemma_opt_settle(nodes@, start, goal, passable, width as int, height as int, expanded, best as int);
        }
        lemma_settle(nodes@, start, goal, passable, width as int, height as int, expanded, best as int);
    }
}

/// A* search from `start` to `goal` over the 4-connected grid
/// `[0, width) x [0, height)`, with the Manhattan distance as heuristic.
///
/// The frontier is ordered by `f = g + h`; ties go to the lower x, then the
/// lower y. Each cell is expanded at most once, and a discovered cell's g is
/// replaced only by a strictly smaller one. The returned path holds both
/// `start` and `goal`. From a start on the grid a path is found exactly when
/// one exists; from a start off the grid only `start == goal` succeeds.
pub fn astar<P: AStarPolicy>(start: GridCoord, goal: GridCoord, policy: &P, width: i32, height: i32) -> (r: Option<Vec<GridCoord>>)
    requires
        policy.well_formed(),
    ensures
        start == goal ==> (r matches Some(p) && p@ == seq![start]),
        r matches Some(p) ==> is_path(p@, start, goal, passable_of(*policy), width as int, height as int),
        r matches Some(p) ==> distinct_cells(p@),
        unit_cost(*policy) ==> (r matches Some(p) ==> is_shortest_path(p@, start, goal, passable_of(*policy), width as int, height as int)),
        !reachable(start, goal, passable_of(*policy), width as int, height as int) ==> r is None,
        in_bounds_spec(start, width as int, height as int) && reachable(start, goal, passable_of(*policy), width as int, height as int)
            ==> r is Some,
{
    let ghost passable = passable_of(*policy);
    if start == goal {
        let mut p: Vec<GridCoord> = Vec::new();
        p.push(start);
        assert(is_path(p@, start, goal, passable, width as int, height as int));
        assert(is_shortest_path(p@, start, goal, passable, width as int, height as int));
        return Some(p);
    }
    if width <= 0 || height <= 0 || !in_bounds(start, width, height) {
        return None;
    }
    if !in_bounds(goal, width, height) {
        proof {
            if reachable(start, goal, passable, width as int, height as int) {
                let p = choose|p: Seq<GridCoord>| is_path(p, start, goal, passable, width as int, height as int);
                assert(p.len() >= 2);
                assert(in_bounds_spec(p[p.len() - 1], width as int, height as int));
            }
        }
        return None;
    }
    assert((width as u64) * (height as u64) <= (i32::MAX as u64) * (i32::MAX as u64)) by (nonlinear_arith)
        requires
            0 < width,
            0 < height,
    ;
    let budget: u64 = width as u64 * height as u64;
    let mut nodes: Vec<SearchNode> = Vec::new();
    nodes.push(SearchNode { pos: start, g: 0, f: manhattan(start, goal), parent: 0, open: true, depth: Ghost(0) });
    let mut expanded: u64 = 0;
    proof {
        reveal(search_inv);
        reveal(opt_inv);
        assert(closed_cells(nodes@, width as int) =~= Set::empty());
    }
    while expanded < budget
        invariant
            policy.well_formed(),
            passable == passable_of(*policy),
            start != goal,
            0 < width,
            0 < height,
            budget == width * height,
            search_inv(nodes@, start, goal, passable, width as int, height as int, -1, expanded as int),
            unit_cost(*policy) ==> opt_inv(nodes@, start, goal, passable, width as int, height as int, -1, expanded as int),
        decreases budget - expanded,
    {
        let best = match pick_open(&nodes) {
            Some(b) => b,
            None => {
                proof {
                    lemma_exhausted(nodes@, start, goal, passable, width as int, height as int, expanded as int);
                }
                return None;
            },
        };
        let cur = nodes[best];
        let cur_pos = cur.pos;
        proof {
            lemma_inv_node(nodes@, start, goal, passable, width as int, height as int, -1, expanded as int, best as int);
        }
        if cur_pos == goal {
            assert(best != 0);
            let path = reconstruct(&nodes, best, start, goal, Ghost(passable), width, height);
            proof {
                if unit_cost(*policy) {
                    assert forall|q: Seq<GridCoord>| #[trigger] is_path(q, start, goal, passable, width as int, height as int)
                        implies path@.len() <= q.len() by {
                        lemma_frontier(nodes@, start, goal, passable, width as int, height as int, expanded as int, best as int, q);
                        lemma_opt_node(nodes@, start, goal, passable, width as int, height as int, -1, expanded as int, best as int);
                    };
                }
            }
            return Some(path);
        }
        proof {
            if unit_cost(*policy) {
                lemma_opt_close(nodes@, start, goal, passable, width as int, height as int, expanded as int, best as int);
            }
            lemma_close(nodes@, start, goal, passable, width as int, height as int, expanded as int, best as int);
        }
        nodes.set(best, SearchNode { open: false, ..cur });
        expanded += 1;
        expand_neighbours(&mut nodes, best, goal, policy, width, height, Ghost(start), Ghost(expanded as int));
    }
    proof {
        lemma_budget(nodes@, start, goal, passable, width as int, height as int, expanded as int);
    }
    None
}

} // verus!
