use vstd::prelude::*;

use crate::grid::{
    climb_cost, impassable, lemma_neighbors_len, lemma_path_stays_in, max_step, GridModel, HexGrid,
    TerrainType,
};
use crate::position::{contains_position, distance_wide, HexPosition};

verus! {

/// An entry of the open set: a position and its estimated total cost.
struct Node {
    position: HexPosition,
    cost: i128,
    priority: i128,
}

/// What the search knows of a reached position: its best cost so far and the
/// position it was reached from (none for the start).
struct Visit {
    position: HexPosition,
    cost: i128,
    parent: Option<HexPosition>,
}

/// `vis` holds exactly the entries of `g` and `par`, one per position.
spec fn tracks(vis: Seq<Visit>, g: Map<HexPosition, int>, par: Map<HexPosition, HexPosition>) -> bool {
    &&& forall|i: int, j: int| 0 <= i < j < vis.len() ==> vis[i].position != vis[j].position
    &&& forall|i: int|
        #![trigger vis[i]]
        0 <= i < vis.len() ==> g.contains_key(vis[i].position) && g[vis[i].position] == vis[i].cost
            && vis[i].parent == (if par.contains_key(vis[i].position) {
            Some(par[vis[i].position])
        } else {
            None::<HexPosition>
        })
    &&& forall|p: HexPosition| #[trigger]
        g.contains_key(p) ==> exists|i: int| 0 <= i < vis.len() && vis[i].position == p
    &&& forall|p: HexPosition| #[trigger] par.contains_key(p) ==> g.contains_key(p)
}

fn find_visit(vis: &Vec<Visit>, p: &HexPosition) -> (r: Option<usize>)
    ensures
        match r {
            Some(i) => i < vis@.len() && vis@[i as int].position == *p,
            None => forall|i: int| 0 <= i < vis@.len() ==> vis@[i].position != *p,
        },
{
    let mut i: usize = 0;
    while i < vis.len()
        invariant
            i <= vis@.len(),
            forall|j: int| 0 <= j < i ==> vis@[j].position != *p,
        decreases vis@.len() - i,
    {
        if vis[i].position == *p {
            return Some(i);
        }
        i = i + 1;
    }
    None
}

/// Index of the first entry of least priority.
fn min_index(open: &Vec<Node>) -> (r: usize)
    requires
        open@.len() > 0,
    ensures
        r < open@.len(),
        forall|j: int| 0 <= j < open@.len() ==> open@[r as int].priority <= open@[j].priority,
        forall|j: int| 0 <= j < r ==> open@[r as int].priority < open@[j].priority,
{
    let mut best: usize = 0;
    let mut i: usize = 1;
    while i < open.len()
        invariant
            1 <= i <= open@.len(),
            best < i,
            forall|j: int| 0 <= j < i ==> open@[best as int].priority <= open@[j].priority,
            forall|j: int| 0 <= j < best ==> open@[best as int].priority < open@[j].priority,
        decreases open@.len() - i,
    {
        if open[i].priority < open[best].priority {
            best = i;
        }
        i = i + 1;
    }
    best
}

proof fn lemma_tracks_set(vis: Seq<Visit>, g: Map<HexPosition, int>, par: Map<HexPosition, HexPosition>, i: int, e: Visit)
    requires
        tracks(vis, g, par),
        0 <= i < vis.len(),
        vis[i].position == e.position,
        e.parent is Some,
    ensures
        tracks(vis.update(i, e), g.insert(e.position, e.cost as int), par.insert(e.position, e.parent->Some_0)),
{
    let nv = vis.update(i, e);
    let ng = g.insert(e.position, e.cost as int);
    assert forall|p: HexPosition| #[trigger] ng.contains_key(p) implies exists|k: int|
        0 <= k < nv.len() && nv[k].position == p by {
        if p == e.position {
            assert(nv[i].position == p);
        } else {
            let k = choose|k: int| 0 <= k < vis.len() && vis[k].position == p;
            assert(nv[k].position == p);
        }
    }
}

proof fn lemma_tracks_push(vis: Seq<Visit>, g: Map<HexPosition, int>, par: Map<HexPosition, HexPosition>, e: Visit)
    requires
        tracks(vis, g, par),
        forall|i: int| 0 <= i < vis.len() ==> vis[i].position != e.position,
        e.parent is Some,
    ensures
        tracks(vis.push(e), g.insert(e.position, e.cost as int), par.insert(e.position, e.parent->Some_0)),
{
    let nv = vis.push(e);
    let ng = g.insert(e.position, e.cost as int);
    assert forall|p: HexPosition| #[trigger] ng.contains_key(p) implies exists|k: int|
        0 <= k < nv.len() && nv[k].position == p by {
        if p == e.position {
            assert(nv[vis.len() as int].position == p);
        } else {
            let k = choose|k: int| 0 <= k < vis.len() && vis[k].position == p;
            assert(nv[k].position == p);
        }
    }
    assert forall|i: int| 0 <= i < vis.len() implies !g.contains_key(e.position) || vis[i].position != e.position by {}
    if g.contains_key(e.position) {
        let k = choose|k: int| 0 <= k < vis.len() && vis[k].position == e.position;
        assert(vis[k].position == e.position);
    }
}


/// The state of one search: the open set, what is known of each reached
/// position, and the positions already finalised.
struct Search {
    open: Vec<Node>,
    came: Vec<Visit>,
    closed: Vec<HexPosition>,
    g: Ghost<Map<HexPosition, int>>,
    par: Ghost<Map<HexPosition, HexPosition>>,
}

/// Every reached position is finalised, waiting in the open set, or `except`.
#[verifier::opaque]
spec fn frontier(g: Map<HexPosition, int>, closed: Seq<HexPosition>, open: Seq<Node>, except: Option<HexPosition>) -> bool {
    forall|p: HexPosition| #[trigger]
        g.contains_key(p) ==> closed.contains(p) || except == Some(p) || exists|j: int|
            0 <= j < open.len() && open[j].position == p
}

/// Every step out of a finalised position other than `pending` leads to a
/// reached position.
#[verifier::opaque]
spec fn closure(m: GridModel, closed: Seq<HexPosition>, g: Map<HexPosition, int>, pending: Option<HexPosition>) -> bool {
    forall|u: HexPosition, v: HexPosition| #[trigger]
        closed.contains(u) && #[trigger] m.is_edge(u, v) && pending != Some(u) ==> g.contains_key(v)
}

impl Search {
    #[verifier::opaque]
    spec fn sound(&self, m: GridModel, start: HexPosition, goal: HexPosition, n: nat) -> bool {
        let g = self.g@;
        let par = self.par@;
        let closed = self.closed@;
        &&& tracks(self.came@, g, par)
        &&& g.contains_key(start)
        &&& g[start] == 0
        &&& !par.contains_key(start)
        &&& forall|p: HexPosition| #[trigger] g.contains_key(p) ==> p == start || m.cells.contains_key(p)
        &&& forall|p: HexPosition| #[trigger] g.contains_key(p) ==> 0 <= g[p] <= closed.len() * max_step()
        &&& forall|p: HexPosition| #[trigger] g.contains_key(p) && p != start ==> par.contains_key(p)
        &&& forall|p: HexPosition| #[trigger]
            par.contains_key(p) ==> m.is_edge(par[p], p) && closed.contains(par[p]) && g.contains_key(par[p])
                && g[p] == g[par[p]] + m.edge_weight(par[p], p)
        &&& closed.no_duplicates()
        &&& forall|k: int| 0 <= k < closed.len() ==> g.contains_key(#[trigger] closed[k])
        &&& !closed.contains(goal)
        &&& closed.len() <= n + 1
        &&& forall|j: int| 0 <= j < self.open@.len() ==> g.contains_key(#[trigger] self.open@[j].position)
    }

    proof fn lemma_sound_facts(&self, m: GridModel, start: HexPosition, goal: HexPosition, n: nat)
        requires
            self.sound(m, start, goal, n),
        ensures
            self.closed@.len() <= n + 1,
            forall|p: HexPosition| #[trigger] self.closed@.contains(p) ==> self.g@.contains_key(p),
            forall|p: HexPosition| #[trigger] self.g@.contains_key(p) ==> 0 <= self.g@[p] <= self.closed@.len() * max_step(),
            self.g@.contains_key(start),
            !self.closed@.contains(goal),
    {
        reveal(Search::sound);
        assert forall|p: HexPosition| #[trigger] self.closed@.contains(p) implies self.g@.contains_key(p) by {
            let k = choose|k: int| 0 <= k < self.closed@.len() && self.closed@[k] == p;
            assert(self.g@.contains_key(self.closed@[k]));
        }
    }

    /// The best known cost of `p`, if it was reached.
    fn cost_of(&self, p: &HexPosition, Ghost(m): Ghost<GridModel>, Ghost(start): Ghost<HexPosition>, Ghost(goal): Ghost<HexPosition>, Ghost(n): Ghost<nat>) -> (r: Option<i128>)
        requires
            self.sound(m, start, goal, n),
        ensures
            match r {
                Some(c) => self.g@.contains_key(*p) && c == self.g@[*p],
                None => !self.g@.contains_key(*p),
            },
    {
        proof {
            reveal(Search::sound);
        }
        match find_visit(&self.came, p) {
            Some(i) => {
                assert(self.came@[i as int].position == *p);
                Some(self.came[i].cost)
            },
            None => {
                proof {
                    if self.g@.contains_key(*p) {
                        let k = choose|k: int| 0 <= k < self.came@.len() && self.came@[k].position == *p;
                        assert(self.came@[k].position == *p);
                    }
                }
                None
            },
        }
    }

    /// Removes the first entry of least priority from the open set.
    fn pop(&mut self, Ghost(m): Ghost<GridModel>, Ghost(start): Ghost<HexPosition>, Ghost(goal): Ghost<HexPosition>, Ghost(n): Ghost<nat>) -> (r: Node)
        requires
            old(self).sound(m, start, goal, n),
            frontier(old(self).g@, old(self).closed@, old(self).open@, None),
            old(self).open@.len() > 0,
        ensures
            final(self).sound(m, start, goal, n),
            frontier(final(self).g@, final(self).closed@, final(self).open@, Some(r.position)),
            final(self).open@.len() == old(self).open@.len() - 1,
            final(self).closed@ == old(self).closed@,
            final(self).g@ == old(self).g@,
            final(self).g@.contains_key(r.position),
    {
        proof {
            reveal(Search::sound);
            reveal(frontier);
        }
        let j = min_index(&self.open);
        let ghost before = self.open@;
        let current = self.open.remove(j);
        proof {
            assert(before[j as int].position == current.position);
            assert forall|k: int| 0 <= k < self.open@.len() implies self.g@.contains_key(#[trigger] self.open@[k].position) by {
                if k < j {
                    assert(self.open@[k] == before[k]);
                } else {
                    assert(self.open@[k] == before[k + 1]);
                }
            }
            assert forall|q: HexPosition| #[trigger] self.g@.contains_key(q) implies self.closed@.contains(q)
                || Some(current.position) == Some(q) || exists|k: int| 0 <= k < self.open@.len() && self.open@[k].position == q by {
                if !self.closed@.contains(q) && q != current.position {
                    let jj = choose|jj: int| 0 <= jj < before.len() && before[jj].position == q;
                    if jj < j {
                        assert(self.open@[jj].position == q);
                    } else {
                        assert(jj > j);
                        assert(self.open@[jj - 1].position == q);
                    }
                }
            }
        }
        current
    }

    /// Finalises `u`.
    fn close(&mut self, grid: &HexGrid, u: HexPosition, Ghost(start): Ghost<HexPosition>, Ghost(goal): Ghost<HexPosition>)
        requires
            grid.wf(),
            old(self).sound(grid@, start, goal, grid.cell_count()),
            frontier(old(self).g@, old(self).closed@, old(self).open@, Some(u)),
            closure(grid@, old(self).closed@, old(self).g@, None),
            old(self).g@.contains_key(u),
            !old(self).closed@.contains(u),
            u != goal,
        ensures
            final(self).sound(grid@, start, goal, grid.cell_count()),
            frontier(final(self).g@, final(self).closed@, final(self).open@, None),
            closure(grid@, final(self).closed@, final(self).g@, Some(u)),
            final(self).closed@ == old(self).closed@.push(u),
            final(self).g@ == old(self).g@,
            final(self).open@ == old(self).open@,
            old(self).g@[u] <= (final(self).closed@.len() - 1) * max_step(),
    {
        proof {
            reveal(Search::sound);
            reveal(frontier);
            reveal(closure);
        }
        let ghost before = self.closed@;
        self.closed.push(u);
        proof {
            let m = grid@;
            let closed = self.closed@;
            assert(closed[before.len() as int] == u);
            assert forall|a: int, b: int| 0 <= a < closed.len() && 0 <= b < closed.len() && a != b implies closed[a]
                != closed[b] by {
                if a < before.len() && b < before.len() {
                    assert(before[a] != before[b]);
                } else if a < before.len() {
                    assert(before.contains(before[a]));
                } else {
                    assert(before.contains(before[b]));
                }
            }
            assert forall|k: int| 0 <= k < closed.len() implies closed[k] == start || m.cells.contains_key(#[trigger] closed[k]) by {
                if k < before.len() {
                    assert(self.g@.contains_key(before[k]));
                }
            }
            grid.lemma_closed_bound(closed, start);
            assert forall|k: int| 0 <= k < closed.len() implies self.g@.contains_key(#[trigger] closed[k]) by {
                if k < before.len() {
                    assert(closed[k] == before[k]);
                }
            }
            assert forall|p: HexPosition| #[trigger] self.par@.contains_key(p) implies closed.contains(self.par@[p]) by {
                let k = choose|k: int| 0 <= k < before.len() && before[k] == self.par@[p];
                assert(closed[k] == self.par@[p]);
            }
            assert forall|p: HexPosition| #[trigger] before.contains(p) implies closed.contains(p) by {
                let k = choose|k: int| 0 <= k < before.len() && before[k] == p;
                assert(closed[k] == p);
            }
            assert(!closed.contains(goal)) by {
                if closed.contains(goal) {
                    let k = choose|k: int| 0 <= k < closed.len() && closed[k] == goal;
                    if k < before.len() {
                        assert(before.contains(before[k]));
                    }
                }
            }
            assert forall|u2: HexPosition, v: HexPosition| #[trigger] closed.contains(u2) && #[trigger] m.is_edge(u2, v)
                && Some(u) != Some(u2) implies self.g@.contains_key(v) by {
                let k = choose|k: int| 0 <= k < closed.len() && closed[k] == u2;
                assert(before[k] == u2);
                assert(before.contains(u2));
            }
        }
    }

    /// Records that `v` is reached from the finalised `u` at cost `t`, and
    /// queues it.
    fn relax(&mut self, grid: &HexGrid, u: HexPosition, v: HexPosition, t: i128, Ghost(start): Ghost<HexPosition>, goal: &HexPosition)
        requires
            grid.wf(),
            grid.cell_count() <= usize::MAX,
            old(self).sound(grid@, start, *goal, grid.cell_count()),
            frontier(old(self).g@, old(self).closed@, old(self).open@, None),
            closure(grid@, old(self).closed@, old(self).g@, Some(u)),
            old(self).closed@.contains(u),
            !old(self).closed@.contains(v),
            grid@.is_edge(u, v),
            old(self).g@.contains_key(u),
            old(self).g@[u] <= (old(self).closed@.len() - 1) * max_step(),
            t == old(self).g@[u] + grid@.edge_weight(u, v),
            !old(self).g@.contains_key(v) || t < old(self).g@[v],
        ensures
            final(self).sound(grid@, start, *goal, grid.cell_count()),
            frontier(final(self).g@, final(self).closed@, final(self).open@, None),
            closure(grid@, final(self).closed@, final(self).g@, Some(u)),
            final(self).closed@ == old(self).closed@,
            final(self).g@ == old(self).g@.insert(v, t as int),
            final(self).open@.len() == old(self).open@.len() + 1,
    {
        proof {
            reveal(Search::sound);
            reveal(frontier);
            reveal(closure);
            grid.lemma_weight_positive(u, v);
        }
        let e = Visit { position: v, cost: t, parent: Some(u) };
        let vi = find_visit(&self.came, &v);
        proof {
            match vi {
                Some(k) => {
                    lemma_tracks_set(self.came@, self.g@, self.par@, k as int, e);
                },
                None => {
                    lemma_tracks_push(self.came@, self.g@, self.par@, e);
                },
            }
        }
        match vi {
            Some(k) => {
                self.came.set(k, e);
            },
            None => {
                self.came.push(e);
            },
        }
        let ghost old_g = self.g@;
        let ghost old_par = self.par@;
        self.g = Ghost(self.g@.insert(v, t as int));
        self.par = Ghost(self.par@.insert(v, u));
        let h = distance_wide(&v, goal);
        let ghost open_prev = self.open@;
        self.open.push(Node { position: v, cost: t, priority: t + h as i128 });
        proof {
            let g = self.g@;
            let par = self.par@;
            assert(self.open@[self.open@.len() - 1].position == v);
            assert forall|k: int| 0 <= k < self.open@.len() implies g.contains_key(#[trigger] self.open@[k].position) by {
                if k < open_prev.len() {
                    assert(self.open@[k] == open_prev[k]);
                }
            }
            assert forall|p: HexPosition| #[trigger] g.contains_key(p) implies self.closed@.contains(p) || None::<HexPosition> == Some(p)
                || exists|j: int| 0 <= j < self.open@.len() && self.open@[j].position == p by {
                if p != v && !self.closed@.contains(p) {
                    assert(old_g.contains_key(p));
                    let jj = choose|jj: int| 0 <= jj < open_prev.len() && open_prev[jj].position == p;
                    assert(self.open@[jj].position == p);
                }
            }
            assert forall|p: HexPosition| #[trigger] par.contains_key(p) implies grid@.is_edge(par[p], p)
                && self.closed@.contains(par[p]) && g.contains_key(par[p]) && g[p] == g[par[p]] + grid@.edge_weight(par[p], p) by {
                if p != v {
                    assert(old_par.contains_key(p));
                    assert(old_par[p] != v);
                }
            }
            assert forall|p: HexPosition| #[trigger] g.contains_key(p) implies 0 <= g[p] <= self.closed@.len() * max_step() by {
                if p != v {
                    assert(old_g.contains_key(p));
                }
            }
            assert forall|k: int| 0 <= k < self.closed@.len() implies g.contains_key(#[trigger] self.closed@[k]) by {
                assert(old_g.contains_key(self.closed@[k]));
            }
        }
    }

    /// The path from the start to `goal`, and its cost.
    fn path_to(&self, grid: &HexGrid, Ghost(start): Ghost<HexPosition>, goal: HexPosition) -> (r: (Vec<HexPosition>, i128))
        requires
            grid.wf(),
            self.sound(grid@, start, goal, grid.cell_count()),
            self.g@.contains_key(goal),
        ensures
            grid@.is_path(r.0@),
            r.0@[0] == start,
            r.0@.last() == goal,
            r.0@.no_duplicates(),
            r.1 == grid@.path_weight(r.0@),
    {
        proof {
            reveal(Search::sound);
        }
        let path = grid.reconstruct_path(&self.came, goal, self.g, self.par, Ghost(start));
        let cost = match self.cost_of(&goal, Ghost(grid@), Ghost(start), Ghost(goal), Ghost(grid.cell_count())) {
            Some(c) => c,
            None => {
                assert(false);
                0
            },
        };
        (path, cost)
    }
}

proof fn lemma_frontier_settled(g: Map<HexPosition, int>, closed: Seq<HexPosition>, open: Seq<Node>, u: HexPosition)
    requires
        frontier(g, closed, open, Some(u)),
        closed.contains(u),
    ensures
        frontier(g, closed, open, None),
{
    reveal(frontier);
}

proof fn lemma_closure_done(m: GridModel, closed: Seq<HexPosition>, g: Map<HexPosition, int>, u: HexPosition, nbrs: Seq<HexPosition>)
    requires
        closure(m, closed, g, Some(u)),
        nbrs == m.neighbors(u),
        forall|k: int|
            0 <= k < nbrs.len() && (#[trigger] m.landing(u, nbrs[k])) is Some && m.is_edge(u, m.landing(u, nbrs[k])->Some_0)
                ==> g.contains_key(m.landing(u, nbrs[k])->Some_0),
    ensures
        closure(m, closed, g, None),
{
    reveal(closure);
    assert forall|a: HexPosition, b: HexPosition| #[trigger] closed.contains(a) && #[trigger] m.is_edge(a, b)
        && None::<HexPosition> != Some(a) implies g.contains_key(b) by {
        if a == u {
            let k = choose|k: int| 0 <= k < m.neighbors(u).len() && #[trigger] m.landing(u, m.neighbors(u)[k]) == Some(b);
            assert(m.landing(u, nbrs[k]) == Some(b));
        }
    }
}

proof fn lemma_exhausted(s: Search, m: GridModel, start: HexPosition, goal: HexPosition, n: nat)
    requires
        s.sound(m, start, goal, n),
        frontier(s.g@, s.closed@, s.open@, None),
        closure(m, s.closed@, s.g@, None),
        s.open@.len() == 0,
    ensures
        !m.reachable(start, goal),
{
    reveal(frontier);
    reveal(closure);
    s.lemma_sound_facts(m, start, goal, n);
    let c = Set::new(|p: HexPosition| s.closed@.contains(p));
    assert forall|a: HexPosition, b: HexPosition| #[trigger] c.contains(a) && #[trigger] m.is_edge(a, b) implies c.contains(b) by {
        assert(s.g@.contains_key(b));
    }
    if m.reachable(start, goal) {
        let path = choose|path: Seq<HexPosition>| m.is_path(path) && path[0] == start && path.last() == goal;
        assert(c.contains(path[0]));
        lemma_path_stays_in(m, c, path, path.len() - 1);
    }
}

impl HexGrid {
    /// The climb cost between two placed cells, or `None` where either cell is
    /// missing or is wall or lava.
    fn elevation_cost(&self, from: &HexPosition, to: &HexPosition) -> (r: Option<i64>)
        requires
            self.wf(),
        ensures
            r == (if self@.cells.contains_key(*from) && self@.cells.contains_key(*to) && !impassable(
                self@.cells[*from].terrain,
            ) && !impassable(self@.cells[*to].terrain) {
                Some(climb_cost(self@.cells[*from], self@.cells[*to]) as i64)
            } else {
                None
            }),
            r matches Some(c) ==> 0 <= c <= 0x4_0000_0000,
    {
        let a = match self.get_cell(from) {
            Some(c) => *c,
            None => return None,
        };
        let b = match self.get_cell(to) {
            Some(c) => *c,
            None => return None,
        };
        if a.terrain == TerrainType::Wall || a.terrain == TerrainType::Lava || b.terrain == TerrainType::Wall
            || b.terrain == TerrainType::Lava {
            return None;
        }
        let d = b.elevation as i64 - a.elevation as i64;
        let d = if d < 0 {
            -d
        } else {
            d
        };
        let base = if d <= 1 {
            d
        } else {
            2 * d
        };
        let c = if a.terrain == TerrainType::Water || b.terrain == TerrainType::Water {
            2 * base
        } else if a.terrain == TerrainType::Snow || b.terrain == TerrainType::Snow {
            2 * base
        } else if a.terrain == TerrainType::Rough || b.terrain == TerrainType::Rough {
            (3 * base) / 2
        } else {
            base
        };
        Some(c)
    }

    /// Follows the recorded parents from `current` back to the start and
    /// returns the positions from the start to `current`.
    fn reconstruct_path(
        &self,
        came_from: &Vec<Visit>,
        current: HexPosition,
        Ghost(g): Ghost<Map<HexPosition, int>>,
        Ghost(par): Ghost<Map<HexPosition, HexPosition>>,
        Ghost(start): Ghost<HexPosition>,
    ) -> (path: Vec<HexPosition>)
        requires
            self.wf(),
            tracks(came_from@, g, par),
            g.contains_key(current),
            g.contains_key(start),
            !par.contains_key(start),
            forall|p: HexPosition| #[trigger] g.contains_key(p) ==> g[p] >= 0,
            forall|p: HexPosition| #[trigger] g.contains_key(p) && p != start ==> par.contains_key(p),
            forall|p: HexPosition| #[trigger]
                par.contains_key(p) ==> self@.is_edge(par[p], p) && g.contains_key(par[p]) && g[p]
                    == g[par[p]] + self@.edge_weight(par[p], p),
        ensures
            self@.is_path(path@),
            path@[0] == start,
            path@.last() == current,
            self@.path_weight(path@) == g[current] - g[start],
            forall|i: int| 0 <= i < path@.len() - 1 ==> #[trigger] par[path@[i + 1]] == path@[i] && par.contains_key(path@[i + 1]),
            path@.no_duplicates(),
    {
        let mut path: Vec<HexPosition> = vec![current];
        let mut cur = current;
        loop
            invariant
                self.wf(),
                tracks(came_from@, g, par),
                g.contains_key(cur),
                g.contains_key(start),
                !par.contains_key(start),
                forall|p: HexPosition| #[trigger] g.contains_key(p) ==> g[p] >= 0,
                forall|p: HexPosition| #[trigger] g.contains_key(p) && p != start ==> par.contains_key(p),
                forall|p: HexPosition| #[trigger]
                    par.contains_key(p) ==> self@.is_edge(par[p], p) && g.contains_key(par[p]) && g[p]
                        == g[par[p]] + self@.edge_weight(par[p], p),
                self@.is_path(path@),
                path@[0] == cur,
                path@.last() == current,
                self@.path_weight(path@) == g[current] - g[cur],
                forall|k: int| 0 <= k < path@.len() ==> g.contains_key(#[trigger] path@[k]),
                forall|k: int| 0 <= k < path@.len() - 1 ==> #[trigger] par[path@[k + 1]] == path@[k] && par.contains_key(path@[k + 1]),
                forall|a: int, b: int| 0 <= a < b < path@.len() ==> g[path@[a]] < g[path@[b]],
            decreases g[cur],
        {
            let i = match find_visit(came_from, &cur) {
                Some(i) => i,
                None => {
                    assert(false);
                    return path;
                },
            };
            assert(came_from@[i as int].position == cur);
            match came_from[i].parent {
                Some(prev) => {
                    assert(par.contains_key(cur) && par[cur] == prev);
                    let ghost old_path = path@;
                    path.insert(0, prev);
                    assert(path@.drop_first() =~= old_path);
                    assert(self@.is_edge(prev, cur));
                    assert forall|k: int| 0 <= k < path@.len() - 1 implies #[trigger] self@.is_edge(
                        path@[k],
                        path@[k + 1],
                    ) by {
                        if k > 0 {
                            assert(path@[k] == old_path[k - 1]);
                            assert(self@.is_edge(old_path[k - 1], old_path[k]));
                        }
                    }
                    assert(self@.edge_weight(prev, cur) >= 1) by {
                        self.lemma_weight_positive(prev, cur);
                    }
                    assert forall|k: int| 0 <= k < path@.len() implies g.contains_key(#[trigger] path@[k]) by {
                        if k > 0 {
                            assert(path@[k] == old_path[k - 1]);
                        }
                    }
                    assert forall|k: int| 0 <= k < path@.len() - 1 implies #[trigger] par[path@[k + 1]] == path@[k]
                        && par.contains_key(path@[k + 1]) by {
                        if k > 0 {
                            assert(path@[k] == old_path[k - 1]);
                            assert(path@[k + 1] == old_path[k]);
                            assert(par[old_path[(k - 1) + 1]] == old_path[k - 1]);
                        }
                    }
                    assert forall|a: int, b: int| 0 <= a < b < path@.len() implies g[path@[a]] < g[path@[b]] by {
                        if a > 0 {
                            assert(path@[a] == old_path[a - 1]);
                            assert(path@[b] == old_path[b - 1]);
                        } else {
                            assert(path@[b] == old_path[b - 1]);
                            if b > 1 {
                                assert(g[old_path[0]] < g[old_path[b - 1]]);
                            }
                        }
                    }
                    cur = prev;
                },
                None => {
                    assert(!par.contains_key(cur));
                    assert(cur == start);
                    assert forall|a: int, b: int| 0 <= a < path@.len() && 0 <= b < path@.len() && a != b implies path@[a]
                        != path@[b] by {
                        if a < b {
                            assert(g[path@[a]] < g[path@[b]]);
                        } else {
                            assert(g[path@[b]] < g[path@[a]]);
                        }
                    }
                    return path;
                },
            }
        }
    }

    /// Weighted A* search from `start` to `goal`. Returns the path, both ends
    /// included, and its total weight; `None` when an end is out of bounds or
    /// the goal cannot be reached.
    pub fn find_path_with_cost(&self, start: HexPosition, goal: HexPosition) -> (r: Option<(Vec<HexPosition>, i128)>)
        requires
            self.wf(),
        ensures
            match r {
                Some((path, cost)) => {
                    &&& self@.in_bounds(start)
                    &&& self@.in_bounds(goal)
                    &&& self@.is_path(path@)
                    &&& path@[0] == start
                    &&& path@.last() == goal
                    &&& path@.no_duplicates()
                    &&& cost == self@.path_weight(path@)
                },
                None => !(self@.in_bounds(start) && self@.in_bounds(goal) && self@.reachable(start, goal)),
            },
    {
        if !self.is_in_bounds(&start) || !self.is_in_bounds(&goal) {
            return None;
        }
        let stored = self.cells_len();
        let ghost n = stored as nat;
        let ghost m = self@;
        let ghost g0 = Map::<HexPosition, int>::empty().insert(start, 0int);
        let mut s = Search {
            open: vec![Node { position: start, cost: 0, priority: 0 }],
            came: vec![Visit { position: start, cost: 0, parent: None }],
            closed: Vec::new(),
            g: Ghost(g0),
            par: Ghost(Map::empty()),
        };
        proof {
            reveal(Search::sound);
            reveal(frontier);
            reveal(closure);
            assert(s.open@[0].position == start);
            assert(s.came@[0].position == start);
            assert(frontier(s.g@, s.closed@, s.open@, None));
        }
        while s.open.len() > 0
            invariant
                self.wf(),
                m == self@,
                n == self.cell_count(),
                n <= usize::MAX,
                self@.in_bounds(start),
                self@.in_bounds(goal),
                s.sound(m, start, goal, n),
                frontier(s.g@, s.closed@, s.open@, None),
                closure(m, s.closed@, s.g@, None),
            decreases 9 * (n + 1 - s.closed@.len()) + s.open@.len(),
        {
            proof {
                s.lemma_sound_facts(m, start, goal, n);
            }
            let current = s.pop(Ghost(m), Ghost(start), Ghost(goal), Ghost(n));
            let u = current.position;
            if u == goal {
                let (path, cost) = s.path_to(self, Ghost(start), goal);
                return Some((path, cost));
            }
            if contains_position(&s.closed, &u) {
                proof {
                    lemma_frontier_settled(s.g@, s.closed@, s.open@, u);
                }
                continue;
            }
            let gu = match s.cost_of(&u, Ghost(m), Ghost(start), Ghost(goal), Ghost(n)) {
                Some(c) => c,
                None => {
                    assert(false);
                    0
                },
            };
            s.close(self, u, Ghost(start), Ghost(goal));
            proof {
                s.lemma_sound_facts(m, start, goal, n);
                lemma_neighbors_len(m, u, 8);
                assert(s.closed@[s.closed@.len() - 1] == u);
            }
            let nbrs = self.get_neighbors(u);
            let ghost open_start = s.open@.len();
            let ghost closed_now = s.closed@;
            let mut i: usize = 0;
            while i < nbrs.len()
                invariant
                    self.wf(),
                    m == self@,
                    n == self.cell_count(),
                    n <= usize::MAX,
                    self@.in_bounds(start),
                    self@.in_bounds(goal),
                    s.sound(m, start, goal, n),
                    frontier(s.g@, s.closed@, s.open@, None),
                    closure(m, s.closed@, s.g@, Some(u)),
                    s.closed@ == closed_now,
                    closed_now.contains(u),
                    closed_now.len() <= n + 1,
                    s.g@.contains_key(u),
                    s.g@[u] == gu,
                    gu <= (closed_now.len() - 1) * max_step(),
                    nbrs@ == m.neighbors(u),
                    nbrs@.len() <= 8,
                    i <= nbrs@.len(),
                    s.open@.len() <= open_start + i,
                    forall|k: int|
                        0 <= k < i && (#[trigger] m.landing(u, nbrs@[k])) is Some && m.is_edge(
                            u,
                            m.landing(u, nbrs@[k])->Some_0,
                        ) ==> s.g@.contains_key(m.landing(u, nbrs@[k])->Some_0),
                decreases nbrs@.len() - i,
            {
                let next = nbrs[i];
                proof {
                    s.lemma_sound_facts(m, start, goal, n);
                }
                match self.landing(&u, &next) {
                    Some(v) => {
                        if !contains_position(&s.closed, &v) {
                            match self.elevation_cost(&u, &v) {
                                Some(ec) => {
                                    let mc: i32 = match self.get_cell(&v) {
                                        Some(c) => c.movement_cost,
                                        None => {
                                            assert(false);
                                            0
                                        },
                                    };
                                    proof {
                                        assert(nbrs@[i as int] == next);
                                        assert(m.landing(u, m.neighbors(u)[i as int]) == Some(v));
                                        assert(m.steps_to(u, v));
                                        assert(m.is_edge(u, v));
                                        self.lemma_weight_positive(u, v);
                                    }
                                    let t: i128 = gu + mc as i128 + ec as i128;
                                    let better = match s.cost_of(&v, Ghost(m), Ghost(start), Ghost(goal), Ghost(n)) {
                                        None => true,
                                        Some(gv) => t < gv,
                                    };
                                    if better {
                                        s.relax(self, u, v, t, Ghost(start), &goal);
                                    }
                                },
                                None => {},
                            }
                        }
                    },
                    None => {},
                }
                i = i + 1;
            }
            proof {
                lemma_closure_done(m, s.closed@, s.g@, u, nbrs@);
            }
        }
        proof {
            lemma_exhausted(s, m, start, goal, n);
        }
        None
    }

    /// The path that the search finds from `start` to `goal`, both ends
    /// included; `None` when an end is out of bounds or the goal cannot be
    /// reached. No position of the path between its ends is wall or lava.
    pub fn find_path(&self, start: HexPosition, goal: HexPosition) -> (r: Option<Vec<HexPosition>>)
        requires
            self.wf(),
        ensures
            match r {
                Some(path) => {
                    &&& self@.in_bounds(start)
                    &&& self@.in_bounds(goal)
                    &&& self@.is_path(path@)
                    &&& path@[0] == start
                    &&& path@.last() == goal
                    &&& path@.no_duplicates()
                    &&& forall|i: int|
                        #![trigger path@[i]]
                        0 < i < path@.len() - 1 ==> self@.cells.contains_key(path@[i]) && !impassable(
                            self@.cells[path@[i]].terrain,
                        )
                },
                None => !(self@.in_bounds(start) && self@.in_bounds(goal) && self@.reachable(start, goal)),
            },
    {
        match self.find_path_with_cost(start, goal) {
            Some((path, _cost)) => {
                proof {
                    if path@.len() >= 2 {
                        crate::grid::lemma_path_avoids_impassable(self@, path@);
                    }
                }
                Some(path)
            },
            None => None,
        }
    }
}

} // verus!
