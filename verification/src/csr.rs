//! CSR (compressed sparse row) representation of an Ising graph for upload.
//!
//! Couplings are stored once per directed half-edge so local-field walks are
//! O(degree).
use crate::coefficient::{nearest_step, Coefficient};
use crate::ising::IsingGraph;
use crate::job::copy_edges;
use vstd::prelude::*;

verus! {

/// Ising problem with CSR adjacency.
#[derive(Debug)]
pub struct CsrGraph<C> {
    /// Linear biases.
    pub h: Vec<C>,
    /// Couplings aligned with `edges`.
    pub j: Vec<C>,
    /// Undirected edge list `(u, v)` in received order.
    pub edges: Vec<(usize, usize)>,
    /// CSR row pointers, length `N + 1`.
    pub row_ptr: Vec<i32>,
    /// CSR column indices, length `nnz`.
    pub col_ind: Vec<i32>,
    /// CSR coupling values (symmetric half-edges), length `nnz`.
    pub j_csr: Vec<C>,
}

/// A directed half-edge: the neighbour and the coupling to it.
pub type HalfEdge<C> = (usize, C);

/// An edge that the adjacency holds: both ends inside the graph, and no
/// self-loop.
pub open spec fn is_kept(edge: (usize, usize), n: nat) -> bool {
    edge.0 < n && edge.1 < n && edge.0 != edge.1
}

/// The coupling of edge `k`; `zero` where there is none.
pub open spec fn coupling<C>(j: Seq<C>, k: int, zero: C) -> C {
    if k < j.len() {
        j[k]
    } else {
        zero
    }
}

/// The half-edges of node `i` among the first `k` edges, in edge order.
pub open spec fn half_edges<C>(
    edges: Seq<(usize, usize)>,
    j: Seq<C>,
    n: nat,
    zero: C,
    i: int,
    k: nat,
) -> Seq<HalfEdge<C>>
    decreases k,
{
    if k == 0 {
        Seq::empty()
    } else {
        let before = half_edges(edges, j, n, zero, i, (k - 1) as nat);
        let (u, v) = edges[k - 1];
        if !is_kept(edges[k - 1], n) {
            before
        } else if u == i {
            before.push((v, coupling(j, k - 1, zero)))
        } else if v == i {
            before.push((u, coupling(j, k - 1, zero)))
        } else {
            before
        }
    }
}

/// The half-edges to neighbour `x`, in order.
pub open spec fn to_neighbour<C>(row: Seq<HalfEdge<C>>, x: usize) -> Seq<HalfEdge<C>>
    decreases row.len(),
{
    if row.len() == 0 {
        Seq::empty()
    } else {
        let rest = to_neighbour(row.drop_last(), x);
        if row.last().0 == x {
            rest.push(row.last())
        } else {
            rest
        }
    }
}

/// Neighbours do not decrease along the row.
pub open spec fn in_order<C>(row: Seq<HalfEdge<C>>) -> bool {
    forall|a: int, b: int|
        0 <= a < b < row.len() ==> (#[trigger] row[a]).0 <= (#[trigger] row[b]).0
}

/// `row` is `list` sorted by neighbour, the half-edges to one neighbour
/// keeping their order.
pub open spec fn sorts<C>(row: Seq<HalfEdge<C>>, list: Seq<HalfEdge<C>>) -> bool {
    &&& in_order(row)
    &&& forall|x: usize| #[trigger] to_neighbour(row, x) == to_neighbour(list, x)
}

/// All rows, one behind the other.
pub open spec fn flat<C>(rows: Seq<Seq<HalfEdge<C>>>) -> Seq<HalfEdge<C>>
    decreases rows.len(),
{
    if rows.len() == 0 {
        Seq::empty()
    } else {
        flat(rows.drop_last()) + rows.last()
    }
}

/// The sorted rows of a graph.
pub open spec fn are_rows<C: Coefficient>(
    rows: Seq<Seq<HalfEdge<C>>>,
    graph: IsingGraph<C>,
    zero: C,
) -> bool {
    &&& zero.stored() == 0
    &&& rows.len() == graph.h@.len()
    &&& forall|i: int|
        0 <= i < rows.len() ==> sorts(
            #[trigger] rows[i],
            half_edges(
                graph.edges@,
                graph.j@,
                graph.h@.len(),
                zero,
                i,
                graph.edges@.len(),
            ),
        )
}

/// `csr` holds `rows`.
pub open spec fn holds_rows<C>(csr: CsrGraph<C>, rows: Seq<Seq<HalfEdge<C>>>) -> bool {
    let all = flat(rows);
    &&& csr.row_ptr@.len() == rows.len() + 1
    &&& forall|i: int|
        0 <= i <= rows.len() ==> #[trigger] csr.row_ptr@[i] == flat(rows.take(i)).len() as i32
    &&& csr.col_ind@.len() == all.len()
    &&& csr.j_csr@.len() == all.len()
    &&& forall|e: int| 0 <= e < all.len() ==> #[trigger] csr.col_ind@[e] == all[e].0 as i32
    &&& forall|e: int| 0 <= e < all.len() ==> #[trigger] csr.j_csr@[e] == all[e].1
}

proof fn lemma_to_neighbour_join<C>(a: Seq<HalfEdge<C>>, b: Seq<HalfEdge<C>>, x: usize)
    ensures
        to_neighbour(a + b, x) == to_neighbour(a, x) + to_neighbour(b, x),
    decreases b.len(),
{
    if b.len() == 0 {
        assert(a + b =~= a);
        assert(to_neighbour(a, x) + to_neighbour(b, x) =~= to_neighbour(a, x));
    } else {
        assert((a + b).drop_last() =~= a + b.drop_last());
        assert((a + b).last() == b.last());
        lemma_to_neighbour_join(a, b.drop_last(), x);
        assert(to_neighbour(a + b, x) =~= to_neighbour(a, x) + to_neighbour(b, x));
    }
}

proof fn lemma_to_neighbour_absent<C>(row: Seq<HalfEdge<C>>, x: usize)
    requires
        forall|a: int| 0 <= a < row.len() ==> (#[trigger] row[a]).0 != x,
    ensures
        to_neighbour(row, x) == Seq::<HalfEdge<C>>::empty(),
    decreases row.len(),
{
    if row.len() > 0 {
        assert forall|a: int| 0 <= a < row.drop_last().len() implies (
            #[trigger] row.drop_last()[a]).0 != x by {
            assert(row[a].0 != x);
        }
        lemma_to_neighbour_absent(row.drop_last(), x);
        assert(row[row.len() - 1].0 != x);
    }
}

proof fn lemma_to_neighbour_single<C>(item: HalfEdge<C>)
    ensures
        to_neighbour(seq![item], item.0) == seq![item],
{
    reveal_with_fuel(to_neighbour, 2);
    assert(seq![item].drop_last() =~= Seq::<HalfEdge<C>>::empty());
    assert(to_neighbour(seq![item], item.0) =~= seq![item]);
}

/// Insert a half-edge behind every one whose neighbour is not larger.
fn insert_sorted<C: Copy>(row: &mut Vec<HalfEdge<C>>, item: HalfEdge<C>)
    requires
        in_order(old(row)@),
    ensures
        in_order(final(row)@),
        forall|x: usize| #[trigger]
            to_neighbour(final(row)@, x) == to_neighbour(old(row)@.push(item), x),
{
    let ghost start = row@;
    let mut at: usize = row.len();
    while at > 0 && row[at - 1].0 > item.0
        invariant
            row@ == start,
            in_order(start),
            at <= start.len(),
            forall|b: int| at <= b < start.len() ==> (#[trigger] start[b]).0 > item.0,
        decreases at,
    {
        at -= 1;
    }
    row.insert(at, item);
    proof {
        let head = start.take(at as int);
        let tail = start.skip(at as int);
        assert(start =~= head + tail);
        assert(row@ =~= head + seq![item] + tail);
        assert forall|a: int, b: int| 0 <= a < b < row@.len() implies (#[trigger] row@[a]).0 <= (
        #[trigger] row@[b]).0 by {
            if a < at {
                assert(row@[a] == start[a]);
                if b < at {
                    assert(row@[b] == start[b]);
                } else if b == at {
                    if a < at - 1 {
                        assert(start[a].0 <= start[at - 1].0);
                    }
                } else {
                    assert(row@[b] == start[b - 1]);
                    assert(start[a].0 <= start[b - 1].0);
                }
            } else {
                assert(row@[b] == start[b - 1]);
                if a > at {
                    assert(row@[a] == start[a - 1]);
                }
            }
        }
        assert forall|x: usize| #[trigger] to_neighbour(row@, x) == to_neighbour(
            start.push(item),
            x,
        ) by {
            lemma_to_neighbour_join(head + seq![item], tail, x);
            lemma_to_neighbour_join(head, seq![item], x);
            lemma_to_neighbour_join(head, tail, x);
            lemma_to_neighbour_join(start, seq![item], x);
            assert(start.push(item) =~= start + seq![item]);
            let one = to_neighbour(seq![item], x);
            if item.0 == x {
                assert forall|a: int| 0 <= a < tail.len() implies (#[trigger] tail[a]).0 != x by {
                    assert(start[at + a].0 > item.0);
                }
                lemma_to_neighbour_absent(tail, x);
                assert(to_neighbour(row@, x) =~= to_neighbour(start.push(item), x));
            } else {
                assert forall|a: int| 0 <= a < seq![item].len() implies (
                    #[trigger] seq![item][a]).0 != x by {}
                lemma_to_neighbour_absent(seq![item], x);
                assert(to_neighbour(row@, x) =~= to_neighbour(start.push(item), x));
            }
        }
    }
}

proof fn lemma_sorts_push<C>(
    row: Seq<HalfEdge<C>>,
    grown: Seq<HalfEdge<C>>,
    list: Seq<HalfEdge<C>>,
    item: HalfEdge<C>,
)
    requires
        sorts(row, list),
        in_order(grown),
        forall|x: usize| #[trigger] to_neighbour(grown, x) == to_neighbour(row.push(item), x),
    ensures
        sorts(grown, list.push(item)),
{
    assert forall|x: usize| #[trigger] to_neighbour(grown, x) == to_neighbour(
        list.push(item),
        x,
    ) by {
        assert(row.push(item).drop_last() =~= row);
        assert(list.push(item).drop_last() =~= list);
        assert(to_neighbour(row, x) == to_neighbour(list, x));
    }
}

fn copy_coefficients<C: Copy>(values: &[C]) -> (copy: Vec<C>)
    ensures
        copy@ == values@,
{
    let mut copy: Vec<C> = Vec::new();
    let mut i: usize = 0;
    while i < values.len()
        invariant
            i <= values@.len(),
            copy@ == values@.take(i as int),
        decreases values@.len() - i,
    {
        copy.push(values[i]);
        assert(copy@ =~= values@.take(i + 1));
        i += 1;
    }
    assert(values@.take(i as int) =~= values@);
    copy
}

/// What a list of rows says.
pub open spec fn row_views<C>(rows: Seq<Vec<HalfEdge<C>>>) -> Seq<Seq<HalfEdge<C>>> {
    Seq::new(rows.len(), |i: int| rows[i]@)
}

/// The sorted rows of a graph.
fn build_rows<C: Coefficient>(graph: &IsingGraph<C>, zero: C) -> (rows: Vec<Vec<HalfEdge<C>>>)
    requires
        zero.stored() == 0,
    ensures
        are_rows(row_views(rows@), *graph, zero),
{
    let n: usize = graph.h.len();
    let mut rows: Vec<Vec<HalfEdge<C>>> = Vec::new();
    let mut i: usize = 0;
    while i < n
        invariant
            i <= n,
            rows@.len() == i,
            forall|a: int| 0 <= a < i ==> (#[trigger] rows@[a])@ == Seq::<HalfEdge<C>>::empty(),
        decreases n - i,
    {
        rows.push(Vec::new());
        i += 1;
    }
    let ghost edges = graph.edges@;
    let ghost j = graph.j@;
    let mut k: usize = 0;
    while k < graph.edges.len()
        invariant
            n == graph.h@.len(),
            edges == graph.edges@,
            j == graph.j@,
            k <= edges.len(),
            rows@.len() == n,
            forall|a: int|
                0 <= a < n ==> sorts(
                    (#[trigger] rows@[a])@,
                    half_edges(edges, j, n as nat, zero, a, k as nat),
                ),
        decreases edges.len() - k,
    {
        let (u, v): (usize, usize) = graph.edges[k];
        let ghost before = rows@;
        if u < n && v < n && u != v {
            let c: C = if k < graph.j.len() {
                graph.j[k]
            } else {
                zero
            };
            let mut row_u: Vec<HalfEdge<C>> = Vec::new();
            std::mem::swap(&mut row_u, &mut rows[u]);
            let ghost old_u = row_u@;
            assert(old_u == before[u as int]@);
            insert_sorted(&mut row_u, (v, c));
            proof {
                lemma_sorts_push(
                    old_u,
                    row_u@,
                    half_edges(edges, j, n as nat, zero, u as int, k as nat),
                    (v, c),
                );
            }
            rows.set(u, row_u);
            let mut row_v: Vec<HalfEdge<C>> = Vec::new();
            std::mem::swap(&mut row_v, &mut rows[v]);
            let ghost old_v = row_v@;
            assert(old_v == before[v as int]@);
            insert_sorted(&mut row_v, (u, c));
            proof {
                lemma_sorts_push(
                    old_v,
                    row_v@,
                    half_edges(edges, j, n as nat, zero, v as int, k as nat),
                    (u, c),
                );
            }
            rows.set(v, row_v);
        }
        proof {
            assert forall|a: int| 0 <= a < n implies sorts(
                (#[trigger] rows@[a])@,
                half_edges(edges, j, n as nat, zero, a, (k + 1) as nat),
            ) by {
                assert(edges[k as int] == (u, v));
                if is_kept((u, v), n as nat) && (a == u || a == v) {
                } else {
                    assert(rows@[a] == before[a]);
                }
            }
        }
        k += 1;
    }
    proof {
        assert forall|a: int| 0 <= a < row_views(rows@).len() implies sorts(
            #[trigger] row_views(rows@)[a],
            half_edges(edges, j, n as nat, zero, a, edges.len()),
        ) by {
            assert(sorts(rows@[a]@, half_edges(edges, j, n as nat, zero, a, edges.len())));
        }
    }
    rows
}

proof fn lemma_flat_take<C>(rows: Seq<Seq<HalfEdge<C>>>, i: int)
    requires
        0 <= i < rows.len(),
    ensures
        flat(rows.take(i + 1)) == flat(rows.take(i)) + rows[i],
{
    assert(rows.take(i + 1).drop_last() =~= rows.take(i));
}

impl<C: Coefficient> CsrGraph<C> {
    /// Build CSR adjacency from the base problem.
    ///
    /// Edges whose endpoints are out of range are skipped, as the consensus
    /// energy skips them. Self-loops are skipped too: in a neighbour row one
    /// would inject a spurious self-force into that node's local field.
    /// Couplings shorter than edges are treated as 0 for the missing entries.
    #[must_use]
    pub fn from_base(graph: &IsingGraph<C>) -> (csr: Self)
        requires
            C::scale() > 0,
        ensures
            csr.h@ == graph.h@,
            csr.j@ == graph.j@,
            csr.edges@ == graph.edges@,
            exists|rows: Seq<Seq<HalfEdge<C>>>, zero: C| #[trigger]
                are_rows(rows, *graph, zero) && holds_rows(csr, rows),
    {
        let zero: C = C::from_milli(0);
        proof {
            C::exact_holds_every_milli();
            assert(nearest_step(0, C::scale() as int) == 0) by (nonlinear_arith);
        }
        let rows: Vec<Vec<HalfEdge<C>>> = build_rows(graph, zero);
        let ghost views = row_views(rows@);
        let mut row_ptr: Vec<i32> = Vec::new();
        let mut col_ind: Vec<i32> = Vec::new();
        let mut j_csr: Vec<C> = Vec::new();
        row_ptr.push(0);
        let mut i: usize = 0;
        assert(views.take(0) =~= Seq::empty());
        while i < rows.len()
            invariant
                i <= rows@.len(),
                views == row_views(rows@),
                row_ptr@.len() == i + 1,
                forall|a: int|
                    0 <= a <= i ==> #[trigger] row_ptr@[a] == flat(views.take(a)).len() as i32,
                col_ind@.len() == flat(views.take(i as int)).len(),
                j_csr@.len() == col_ind@.len(),
                forall|e: int|
                    0 <= e < col_ind@.len() ==> #[trigger] col_ind@[e] == flat(
                        views.take(i as int),
                    )[e].0 as i32,
                forall|e: int|
                    0 <= e < j_csr@.len() ==> #[trigger] j_csr@[e] == flat(
                        views.take(i as int),
                    )[e].1,
            decreases rows@.len() - i,
        {
            let ghost done = flat(views.take(i as int));
            let row: &Vec<HalfEdge<C>> = &rows[i];
            let mut e: usize = 0;
            while e < row.len()
                invariant
                    e <= row@.len(),
                    col_ind@.len() == done.len() + e,
                    j_csr@.len() == col_ind@.len(),
                    forall|a: int|
                        0 <= a < done.len() ==> #[trigger] col_ind@[a] == done[a].0 as i32,
                    forall|a: int| 0 <= a < done.len() ==> #[trigger] j_csr@[a] == done[a].1,
                    forall|a: int|
                        0 <= a < e ==> col_ind@[done.len() + a] == (#[trigger] row@[a]).0 as i32,
                    forall|a: int|
                        0 <= a < e ==> j_csr@[done.len() + a] == (#[trigger] row@[a]).1,
                decreases row@.len() - e,
            {
                let (neighbour, c): HalfEdge<C> = row[e];
                col_ind.push(neighbour as i32);
                j_csr.push(c);
                e += 1;
            }
            row_ptr.push(col_ind.len() as i32);
            proof {
                lemma_flat_take(views, i as int);
                assert(views[i as int] == row@);
                let more = flat(views.take(i + 1));
                assert forall|a: int| 0 <= a < col_ind@.len() implies #[trigger] col_ind@[a]
                    == more[a].0 as i32 by {
                    if a >= done.len() {
                        assert(row@[a - done.len()] == more[a]);
                        assert(col_ind@[done.len() + (a - done.len())] == row@[a
                            - done.len()].0 as i32);
                    }
                }
                assert forall|a: int| 0 <= a < j_csr@.len() implies #[trigger] j_csr@[a]
                    == more[a].1 by {
                    if a >= done.len() {
                        assert(row@[a - done.len()] == more[a]);
                        assert(j_csr@[done.len() + (a - done.len())] == row@[a - done.len()].1);
                    }
                }
            }
            i += 1;
        }
        let csr: CsrGraph<C> = CsrGraph {
            h: copy_coefficients(graph.h.as_slice()),
            j: copy_coefficients(graph.j.as_slice()),
            edges: copy_edges(graph.edges.as_slice()),
            row_ptr,
            col_ind,
            j_csr,
        };
        proof {
            assert(views.take(i as int) =~= views);
            assert(are_rows(views, *graph, zero));
            assert(holds_rows(csr, views));
        }
        csr
    }

    /// Number of variables (length of `h`).
    #[must_use]
    pub fn num_nodes(&self) -> (nodes: usize)
        ensures
            nodes == self.h@.len(),
    {
        self.h.len()
    }

    /// Number of directed half-edges in the CSR (`col_ind` length).
    #[must_use]
    pub fn nnz(&self) -> (count: usize)
        ensures
            count == self.col_ind@.len(),
    {
        self.col_ind.len()
    }
}

proof fn lemma_same_total<C>(row: Seq<HalfEdge<C>>, list: Seq<HalfEdge<C>>)
    requires
        sorts(row, list),
    ensures
        row.len() == list.len(),
    decreases row.len(),
{
    if row.len() == 0 {
        if list.len() > 0 {
            let x = list.last().0;
            assert(to_neighbour(list, x).len() > 0);
            assert(to_neighbour(row, x) == to_neighbour(list, x));
        }
    } else {
        // Take the last half-edge to the largest neighbour out of both.
        let x = row.last().0;
        assert(to_neighbour(row, x).len() > 0);
        assert(to_neighbour(row, x) == to_neighbour(list, x));
        lemma_last_to(list, x);
        let at = choose|at: int|
            0 <= at < list.len() && (#[trigger] list[at]).0 == x && forall|b: int|
                at < b < list.len() ==> (#[trigger] list[b]).0 != x;
        let less = list.remove(at);
        let short = row.drop_last();
        assert(in_order(short)) by {
            assert forall|a: int, b: int| 0 <= a < b < short.len() implies (#[trigger] short[a]).0
                <= (#[trigger] short[b]).0 by {
                assert(row[a].0 <= row[b].0);
            }
        }
        assert forall|y: usize| #[trigger] to_neighbour(short, y) == to_neighbour(less, y) by {
            assert(to_neighbour(row, y) == to_neighbour(list, y));
            let head = list.take(at);
            let tail = list.skip(at + 1);
            assert(list =~= head + seq![list[at]] + tail);
            assert(less =~= head + tail);
            lemma_to_neighbour_join(head + seq![list[at]], tail, y);
            lemma_to_neighbour_join(head, seq![list[at]], y);
            lemma_to_neighbour_join(head, tail, y);
            if y == x {
                assert forall|a: int| 0 <= a < tail.len() implies (#[trigger] tail[a]).0 != x by {
                    assert(list[at + 1 + a].0 != x);
                }
                lemma_to_neighbour_absent(tail, x);
                lemma_to_neighbour_single(list[at]);
                assert(to_neighbour(list, x) =~= to_neighbour(head, x).push(list[at]));
                assert(to_neighbour(row, x) == to_neighbour(short, x).push(row.last()));
                assert(to_neighbour(short, x) =~= to_neighbour(list, x).drop_last());
                assert(to_neighbour(less, x) =~= to_neighbour(head, x));
                assert(to_neighbour(list, x).drop_last() =~= to_neighbour(head, x));
            } else {
                assert forall|a: int| 0 <= a < seq![list[at]].len() implies (
                    #[trigger] seq![list[at]][a]).0 != y by {}
                lemma_to_neighbour_absent(seq![list[at]], y);
                assert(to_neighbour(list, y) =~= to_neighbour(less, y));
            }
        }
        lemma_same_total(short, less);
    }
}

proof fn lemma_last_to<C>(list: Seq<HalfEdge<C>>, x: usize)
    requires
        to_neighbour(list, x).len() > 0,
    ensures
        exists|at: int|
            0 <= at < list.len() && (#[trigger] list[at]).0 == x && forall|b: int|
                at < b < list.len() ==> (#[trigger] list[b]).0 != x,
    decreases list.len(),
{
    if list.len() > 0 {
        if list.last().0 == x {
            let at = list.len() - 1;
            assert(list[at].0 == x);
        } else {
            let shorter = list.drop_last();
            lemma_last_to(shorter, x);
            let at = choose|at: int|
                0 <= at < shorter.len() && (#[trigger] shorter[at]).0 == x && forall|b: int|
                    at < b < shorter.len() ==> (#[trigger] shorter[b]).0 != x;
            assert(list[at].0 == x);
            assert forall|b: int| at < b < list.len() implies (#[trigger] list[b]).0 != x by {
                if b < shorter.len() {
                    assert(shorter[b].0 != x);
                }
            }
        }
    }
}

/// How many of the first `k` edges the adjacency holds.
pub open spec fn kept_edges(edges: Seq<(usize, usize)>, n: nat, k: nat) -> nat
    decreases k,
{
    if k == 0 {
        0
    } else {
        kept_edges(edges, n, (k - 1) as nat) + if is_kept(edges[k - 1], n) {
            1nat
        } else {
            0
        }
    }
}

/// How many half-edges the first `m` nodes have among the first `k` edges.
pub open spec fn half_edge_total<C>(
    edges: Seq<(usize, usize)>,
    j: Seq<C>,
    n: nat,
    zero: C,
    m: nat,
    k: nat,
) -> nat
    decreases m,
{
    if m == 0 {
        0
    } else {
        half_edge_total(edges, j, n, zero, (m - 1) as nat, k) + half_edges(
            edges,
            j,
            n,
            zero,
            m - 1,
            k,
        ).len()
    }
}

proof fn lemma_one_more_edge<C>(
    edges: Seq<(usize, usize)>,
    j: Seq<C>,
    n: nat,
    zero: C,
    m: nat,
    k: nat,
)
    requires
        0 < k <= edges.len(),
        m <= n,
    ensures
        ({
            let (u, v) = edges[k - 1];
            half_edge_total(edges, j, n, zero, m, k) == half_edge_total(
                edges,
                j,
                n,
                zero,
                m,
                (k - 1) as nat,
            ) + if is_kept(edges[k - 1], n) {
                (if u < m {
                    1int
                } else {
                    0
                }) + (if v < m {
                    1int
                } else {
                    0
                })
            } else {
                0
            }
        }),
    decreases m,
{
    if m > 0 {
        lemma_one_more_edge(edges, j, n, zero, (m - 1) as nat, k);
    }
}

proof fn lemma_two_per_edge<C>(
    edges: Seq<(usize, usize)>,
    j: Seq<C>,
    n: nat,
    zero: C,
    k: nat,
)
    requires
        k <= edges.len(),
    ensures
        half_edge_total(edges, j, n, zero, n, k) == 2 * kept_edges(edges, n, k),
    decreases k,
{
    if k == 0 {
        lemma_no_edges(edges, j, n, zero, n);
    } else {
        lemma_two_per_edge(edges, j, n, zero, (k - 1) as nat);
        lemma_one_more_edge(edges, j, n, zero, n, k);
    }
}

proof fn lemma_no_edges<C>(edges: Seq<(usize, usize)>, j: Seq<C>, n: nat, zero: C, m: nat)
    ensures
        half_edge_total(edges, j, n, zero, m, 0) == 0,
    decreases m,
{
    if m > 0 {
        lemma_no_edges(edges, j, n, zero, (m - 1) as nat);
    }
}

proof fn lemma_flat_total<C: Coefficient>(
    rows: Seq<Seq<HalfEdge<C>>>,
    graph: IsingGraph<C>,
    zero: C,
    m: int,
)
    requires
        are_rows(rows, graph, zero),
        0 <= m <= rows.len(),
    ensures
        flat(rows.take(m)).len() == half_edge_total(
            graph.edges@,
            graph.j@,
            graph.h@.len(),
            zero,
            m as nat,
            graph.edges@.len(),
        ),
    decreases m,
{
    if m == 0 {
        assert(rows.take(0) =~= Seq::empty());
    } else {
        lemma_flat_total(rows, graph, zero, m - 1);
        lemma_flat_take(rows, m - 1);
        lemma_same_total(
            rows[m - 1],
            half_edges(
                graph.edges@,
                graph.j@,
                graph.h@.len(),
                zero,
                m - 1,
                graph.edges@.len(),
            ),
        );
    }
}

proof fn lemma_kept_edges(edges: Seq<(usize, usize)>, n: nat, k: nat)
    requires
        k <= edges.len(),
    ensures
        kept_edges(edges, n, k) == edges.take(k as int).filter(
            |e: (usize, usize)| e.0 < n && e.1 < n && e.0 != e.1,
        ).len(),
    decreases k,
{
    reveal(Seq::filter);
    if k > 0 {
        lemma_kept_edges(edges, n, (k - 1) as nat);
        assert(edges.take(k as int).drop_last() =~= edges.take(k - 1));
    }
}

/// Every kept edge gives exactly two half-edges, and nothing else gives any.
pub proof fn law_two_half_edges_per_edge<C: Coefficient>(
    csr: CsrGraph<C>,
    rows: Seq<Seq<HalfEdge<C>>>,
    graph: IsingGraph<C>,
    zero: C,
)
    requires
        are_rows(rows, graph, zero),
        holds_rows(csr, rows),
    ensures
        csr.col_ind@.len() == 2 * kept_edges(graph.edges@, graph.h@.len(), graph.edges@.len()),
        csr.col_ind@.len() == 2 * graph.edges@.filter(
            |e: (usize, usize)| e.0 < graph.h@.len() && e.1 < graph.h@.len() && e.0 != e.1,
        ).len(),
{
    assert(rows.take(rows.len() as int) =~= rows);
    lemma_kept_edges(graph.edges@, graph.h@.len(), graph.edges@.len());
    assert(graph.edges@.take(graph.edges@.len() as int) =~= graph.edges@);
    lemma_flat_total(rows, graph, zero, rows.len() as int);
    lemma_two_per_edge(graph.edges@, graph.j@, graph.h@.len(), zero, graph.edges@.len());
}

/// The couplings from one node to another.
pub open spec fn couplings<C>(list: Seq<HalfEdge<C>>) -> Seq<C> {
    Seq::new(list.len(), |i: int| list[i].1)
}

proof fn lemma_symmetric<C>(
    edges: Seq<(usize, usize)>,
    j: Seq<C>,
    n: nat,
    zero: C,
    a: usize,
    b: usize,
    k: nat,
)
    requires
        k <= edges.len(),
        a != b,
    ensures
        couplings(to_neighbour(half_edges(edges, j, n, zero, a as int, k), b)) == couplings(
            to_neighbour(half_edges(edges, j, n, zero, b as int, k), a),
        ),
    decreases k,
{
    if k > 0 {
        lemma_symmetric(edges, j, n, zero, a, b, (k - 1) as nat);
        let of_a = half_edges(edges, j, n, zero, a as int, (k - 1) as nat);
        let of_b = half_edges(edges, j, n, zero, b as int, (k - 1) as nat);
        let (u, v) = edges[k - 1];
        let c = coupling(j, k - 1, zero);
        let to_b = to_neighbour(of_a, b);
        let to_a = to_neighbour(of_b, a);
        if is_kept(edges[k - 1], n) {
            assert(of_a.push((v, c)).drop_last() =~= of_a);
            assert(of_a.push((u, c)).drop_last() =~= of_a);
            assert(of_b.push((v, c)).drop_last() =~= of_b);
            assert(of_b.push((u, c)).drop_last() =~= of_b);
            assert(couplings(to_b.push((b, c))) =~= couplings(to_b).push(c));
            assert(couplings(to_a.push((a, c))) =~= couplings(to_a).push(c));
        }
    } else {
        assert(couplings(Seq::<HalfEdge<C>>::empty()) =~= couplings(Seq::<HalfEdge<C>>::empty()));
    }
}

/// The adjacency is symmetric: two nodes see the same couplings, in the same
/// order, toward each other.
pub proof fn law_adjacency_is_symmetric<C: Coefficient>(
    rows: Seq<Seq<HalfEdge<C>>>,
    graph: IsingGraph<C>,
    zero: C,
    a: usize,
    b: usize,
)
    requires
        are_rows(rows, graph, zero),
        a < rows.len(),
        b < rows.len(),
        a != b,
    ensures
        couplings(to_neighbour(rows[a as int], b)) == couplings(to_neighbour(rows[b as int], a)),
{
    lemma_symmetric(
        graph.edges@,
        graph.j@,
        graph.h@.len(),
        zero,
        a,
        b,
        graph.edges@.len(),
    );
    assert(sorts(
        rows[a as int],
        half_edges(
            graph.edges@,
            graph.j@,
            graph.h@.len(),
            zero,
            a as int,
            graph.edges@.len(),
        ),
    ));
    assert(sorts(
        rows[b as int],
        half_edges(
            graph.edges@,
            graph.j@,
            graph.h@.len(),
            zero,
            b as int,
            graph.edges@.len(),
        ),
    ));
}

proof fn lemma_no_self<C>(
    edges: Seq<(usize, usize)>,
    j: Seq<C>,
    n: nat,
    zero: C,
    a: usize,
    k: nat,
)
    requires
        k <= edges.len(),
    ensures
        to_neighbour(half_edges(edges, j, n, zero, a as int, k), a).len() == 0,
    decreases k,
{
    if k > 0 {
        lemma_no_self(edges, j, n, zero, a, (k - 1) as nat);
        let before = half_edges(edges, j, n, zero, a as int, (k - 1) as nat);
        let (u, v) = edges[k - 1];
        let c = coupling(j, k - 1, zero);
        assert(before.push((v, c)).drop_last() =~= before);
        assert(before.push((u, c)).drop_last() =~= before);
    }
}

/// No node is its own neighbour.
pub proof fn law_no_node_is_its_own_neighbour<C: Coefficient>(
    rows: Seq<Seq<HalfEdge<C>>>,
    graph: IsingGraph<C>,
    zero: C,
    a: usize,
)
    requires
        are_rows(rows, graph, zero),
        a < rows.len(),
    ensures
        to_neighbour(rows[a as int], a).len() == 0,
{
    lemma_no_self(graph.edges@, graph.j@, graph.h@.len(), zero, a, graph.edges@.len());
    assert(sorts(
        rows[a as int],
        half_edges(
            graph.edges@,
            graph.j@,
            graph.h@.len(),
            zero,
            a as int,
            graph.edges@.len(),
        ),
    ));
}

proof fn lemma_to_neighbour_filters<C>(row: Seq<HalfEdge<C>>, x: usize)
    ensures
        to_neighbour(row, x) == row.filter(|e: HalfEdge<C>| e.0 == x),
    decreases row.len(),
{
    reveal(Seq::filter);
    if row.len() > 0 {
        lemma_to_neighbour_filters(row.drop_last(), x);
    }
}

proof fn lemma_same_members<C>(row: Seq<HalfEdge<C>>, list: Seq<HalfEdge<C>>, item: HalfEdge<C>)
    requires
        sorts(row, list),
    ensures
        row.contains(item) <==> list.contains(item),
{
    let x = item.0;
    let to_it = |e: HalfEdge<C>| e.0 == x;
    lemma_to_neighbour_filters(row, x);
    lemma_to_neighbour_filters(list, x);
    assert(to_neighbour(row, x) == to_neighbour(list, x));
    assert(row.filter(to_it) == list.filter(to_it));
    if list.contains(item) {
        let at = choose|at: int| 0 <= at < list.len() && list[at] == item;
        list.lemma_filter_contains(to_it, at);
        row.lemma_filter_contains_rev(to_it, item);
    }
    if row.contains(item) {
        let at = choose|at: int| 0 <= at < row.len() && row[at] == item;
        row.lemma_filter_contains(to_it, at);
        list.lemma_filter_contains_rev(to_it, item);
    }
}

proof fn lemma_edge_is_listed<C>(
    edges: Seq<(usize, usize)>,
    j: Seq<C>,
    n: nat,
    zero: C,
    i: int,
    e: int,
    k: nat,
)
    requires
        0 <= e < k <= edges.len(),
        is_kept(edges[e], n),
    ensures
        edges[e].0 == i ==> half_edges(edges, j, n, zero, i, k).contains(
            (edges[e].1, coupling(j, e, zero)),
        ),
        edges[e].1 == i ==> half_edges(edges, j, n, zero, i, k).contains(
            (edges[e].0, coupling(j, e, zero)),
        ),
    decreases k,
{
    let list = half_edges(edges, j, n, zero, i, k);
    let before = half_edges(edges, j, n, zero, i, (k - 1) as nat);
    if e == k - 1 {
        if edges[e].0 == i || edges[e].1 == i {
            let at = before.len() as int;
            assert(list[at] == list.last());
        }
    } else {
        lemma_edge_is_listed(edges, j, n, zero, i, e, (k - 1) as nat);
        assert forall|item: HalfEdge<C>| #[trigger] before.contains(item) implies list.contains(
            item,
        ) by {
            let at = choose|at: int| 0 <= at < before.len() && before[at] == item;
            assert(list[at] == item);
        }
    }
}

proof fn lemma_listed_is_edge<C>(
    edges: Seq<(usize, usize)>,
    j: Seq<C>,
    n: nat,
    zero: C,
    i: int,
    item: HalfEdge<C>,
    k: nat,
)
    requires
        k <= edges.len(),
        half_edges(edges, j, n, zero, i, k).contains(item),
    ensures
        exists|e: int|
            0 <= e < k && is_kept(#[trigger] edges[e], n) && item.1 == coupling(j, e, zero) && ((
            edges[e].0 == i && edges[e].1 == item.0) || (edges[e].1 == i && edges[e].0 == item.0)),
    decreases k,
{
    if k > 0 {
        let list = half_edges(edges, j, n, zero, i, k);
        let before = half_edges(edges, j, n, zero, i, (k - 1) as nat);
        let at = choose|at: int| 0 <= at < list.len() && list[at] == item;
        if at < before.len() {
            assert(before[at] == item);
            lemma_listed_is_edge(edges, j, n, zero, i, item, (k - 1) as nat);
        } else {
            assert(is_kept(edges[k - 1], n));
        }
    }
}

proof fn lemma_flat_prefix<C>(rows: Seq<Seq<HalfEdge<C>>>, a: int, b: int)
    requires
        0 <= a <= b <= rows.len(),
    ensures
        flat(rows.take(a)).len() <= flat(rows.take(b)).len(),
        forall|e: int|
            0 <= e < flat(rows.take(a)).len() ==> #[trigger] flat(rows.take(b))[e] == flat(
                rows.take(a),
            )[e],
    decreases b - a,
{
    if a < b {
        lemma_flat_prefix(rows, a, b - 1);
        lemma_flat_take(rows, b - 1);
    }
}

proof fn lemma_row_stands<C>(rows: Seq<Seq<HalfEdge<C>>>, i: int)
    requires
        0 <= i < rows.len(),
    ensures
        flat(rows.take(i + 1)).len() == flat(rows.take(i)).len() + rows[i].len(),
        flat(rows.take(i + 1)).len() <= flat(rows).len(),
        forall|p: int|
            0 <= p < rows[i].len() ==> flat(rows)[flat(rows.take(i)).len() + p]
                == #[trigger] rows[i][p],
{
    lemma_flat_take(rows, i);
    lemma_flat_prefix(rows, i + 1, rows.len() as int);
    assert(rows.take(rows.len() as int) =~= rows);
    let start = flat(rows.take(i)).len();
    assert forall|p: int| 0 <= p < rows[i].len() implies flat(rows)[start + p]
        == #[trigger] rows[i][p] by {
        assert(flat(rows.take(rows.len() as int))[start + p] == flat(rows.take(i + 1))[start + p]);
    }
}

/// Entry `e` of the arrays lies in the row of node `i` and leads to `x` with the
/// coupling `c`.
pub open spec fn leads<C>(csr: CsrGraph<C>, i: int, e: int, x: usize, c: C) -> bool {
    &&& csr.row_ptr@[i] <= e < csr.row_ptr@[i + 1]
    &&& csr.col_ind@[e] == x
    &&& csr.j_csr@[e] == c
}

/// Every edge inside the graph that is no self-loop stands in the rows of both
/// its ends, each time with its own coupling, and with zero where it has none.
pub proof fn law_every_edge_stands_in_both_rows<C: Coefficient>(
    csr: CsrGraph<C>,
    rows: Seq<Seq<HalfEdge<C>>>,
    graph: IsingGraph<C>,
    zero: C,
    k: int,
    u: usize,
    v: usize,
    c: C,
)
    requires
        are_rows(rows, graph, zero),
        holds_rows(csr, rows),
        csr.col_ind@.len() <= i32::MAX,
        graph.h@.len() <= i32::MAX,
        0 <= k < graph.edges@.len(),
        graph.edges@[k] == (u, v),
        u < graph.h@.len(),
        v < graph.h@.len(),
        u != v,
        k < graph.j@.len() ==> c == graph.j@[k],
        k >= graph.j@.len() ==> c == zero,
    ensures
        exists|e: int| #[trigger] leads(csr, u as int, e, v, c),
        exists|e: int| #[trigger] leads(csr, v as int, e, u, c),
        zero.stored() == 0,
{
    lemma_stands(csr, rows, graph, zero, k, u, v, c);
    lemma_stands(csr, rows, graph, zero, k, v, u, c);
}

proof fn lemma_stands<C: Coefficient>(
    csr: CsrGraph<C>,
    rows: Seq<Seq<HalfEdge<C>>>,
    graph: IsingGraph<C>,
    zero: C,
    k: int,
    i: usize,
    x: usize,
    c: C,
)
    requires
        are_rows(rows, graph, zero),
        holds_rows(csr, rows),
        csr.col_ind@.len() <= i32::MAX,
        graph.h@.len() <= i32::MAX,
        0 <= k < graph.edges@.len(),
        is_kept(graph.edges@[k], graph.h@.len()),
        graph.edges@[k] == (i, x) || graph.edges@[k] == (x, i),
        c == coupling(graph.j@, k, zero),
    ensures
        exists|e: int| #[trigger] leads(csr, i as int, e, x, c),
{
    let n = graph.h@.len();
    let m = graph.edges@.len();
    let list = half_edges(graph.edges@, graph.j@, n, zero, i as int, m);
    let row = rows[i as int];
    lemma_edge_is_listed(graph.edges@, graph.j@, n, zero, i as int, k, m);
    assert(sorts(row, list));
    lemma_same_members(row, list, (x, c));
    let p = choose|p: int| 0 <= p < row.len() && row[p] == (x, c);
    lemma_row_stands(rows, i as int);
    let e = flat(rows.take(i as int)).len() + p;
    assert(flat(rows)[e] == row[p]);
    assert(csr.row_ptr@[i as int] == flat(rows.take(i as int)).len() as i32);
    assert(csr.row_ptr@[i + 1] == flat(rows.take(i + 1)).len() as i32);
    assert(csr.col_ind@[e] == x as i32);
    assert(leads(csr, i as int, e, x, c));
}

/// Every entry of a row comes from an edge between its node and the neighbour
/// that it leads to, and holds that edge's coupling. Along a row the neighbours
/// do not decrease, and the rows follow each other without a gap.
pub proof fn law_every_entry_comes_from_an_edge<C: Coefficient>(
    csr: CsrGraph<C>,
    rows: Seq<Seq<HalfEdge<C>>>,
    graph: IsingGraph<C>,
    zero: C,
    i: int,
    e: int,
)
    requires
        are_rows(rows, graph, zero),
        holds_rows(csr, rows),
        csr.col_ind@.len() <= i32::MAX,
        graph.h@.len() <= i32::MAX,
        0 <= i < graph.h@.len(),
        csr.row_ptr@[i] <= e < csr.row_ptr@[i + 1],
    ensures
        csr.row_ptr@[0] == 0,
        csr.row_ptr@.len() == graph.h@.len() + 1,
        csr.row_ptr@[graph.h@.len() as int] == csr.col_ind@.len(),
        csr.col_ind@.len() == csr.j_csr@.len(),
        0 <= csr.row_ptr@[i] <= csr.row_ptr@[i + 1] <= csr.col_ind@.len(),
        e + 1 < csr.row_ptr@[i + 1] ==> csr.col_ind@[e] <= csr.col_ind@[e + 1],
        exists|k: int|
            0 <= k < graph.edges@.len() && csr.j_csr@[e] == (if k < graph.j@.len() {
                graph.j@[k]
            } else {
                zero
            }) && (((#[trigger] graph.edges@[k]).0 == i && graph.edges@[k].1 == csr.col_ind@[e])
                || (graph.edges@[k].1 == i && graph.edges@[k].0 == csr.col_ind@[e])),
{
    let n = graph.h@.len();
    let m = graph.edges@.len();
    let list = half_edges(graph.edges@, graph.j@, n, zero, i, m);
    let row = rows[i];
    assert(rows.take(0) =~= Seq::empty());
    assert(rows.take(n as int) =~= rows);
    assert(csr.row_ptr@[0] == flat(rows.take(0)).len() as i32);
    assert(csr.row_ptr@[n as int] == flat(rows.take(n as int)).len() as i32);
    assert(csr.row_ptr@[i] == flat(rows.take(i)).len() as i32);
    assert(csr.row_ptr@[i + 1] == flat(rows.take(i + 1)).len() as i32);
    lemma_row_stands(rows, i);
    assert(sorts(row, list));
    let p = e - csr.row_ptr@[i];
    assert(flat(rows)[e] == row[p]);
    assert(row.contains(row[p]));
    lemma_same_members(row, list, row[p]);
    lemma_listed_is_edge(graph.edges@, graph.j@, n, zero, i, row[p], m);
    let k = choose|k: int|
        0 <= k < m && is_kept(#[trigger] graph.edges@[k], n) && row[p].1 == coupling(
            graph.j@,
            k,
            zero,
        ) && ((graph.edges@[k].0 == i && graph.edges@[k].1 == row[p].0) || (graph.edges@[k].1 == i
            && graph.edges@[k].0 == row[p].0));
    assert(csr.col_ind@[e] == row[p].0 as i32);
    assert(csr.j_csr@[e] == row[p].1);
    if e + 1 < csr.row_ptr@[i + 1] {
        assert(flat(rows)[e + 1] == row[p + 1]);
        assert(row[p].0 <= row[p + 1].0);
        assert(row.contains(row[p + 1]));
        lemma_same_members(row, list, row[p + 1]);
        lemma_listed_is_edge(graph.edges@, graph.j@, n, zero, i, row[p + 1], m);
        assert(csr.col_ind@[e + 1] == row[p + 1].0 as i32);
    }
}

proof fn lemma_half_edges_prefix<C>(
    edges: Seq<(usize, usize)>,
    j: Seq<C>,
    n: nat,
    zero: C,
    i: int,
    edge: (usize, usize),
    c: C,
    k: nat,
)
    requires
        k <= edges.len(),
        k <= j.len(),
    ensures
        half_edges(edges.push(edge), j.push(c), n, zero, i, k) == half_edges(
            edges,
            j,
            n,
            zero,
            i,
            k,
        ),
    decreases k,
{
    if k > 0 {
        lemma_half_edges_prefix(edges, j, n, zero, i, edge, c, (k - 1) as nat);
        assert(edges.push(edge)[k - 1] == edges[k - 1]);
        assert(j.push(c)[k - 1] == j[k - 1]);
    }
}

/// One more edge inside the graph adds one half-edge to the row of each end,
/// behind those that lead to the same neighbour, and leaves every other row and
/// every other neighbour as they were. Without edges all rows are empty.
pub proof fn law_one_more_edge_adds_two_half_edges<C: Coefficient>(
    fewer: Seq<Seq<HalfEdge<C>>>,
    more: Seq<Seq<HalfEdge<C>>>,
    a: IsingGraph<C>,
    b: IsingGraph<C>,
    zero: C,
    u: usize,
    v: usize,
    c: C,
    i: int,
    x: usize,
)
    requires
        are_rows(fewer, a, zero),
        are_rows(more, b, zero),
        a.j@.len() == a.edges@.len(),
        b.h@ == a.h@,
        b.edges@ == a.edges@.push((u, v)),
        b.j@ == a.j@.push(c),
        u < a.h@.len(),
        v < a.h@.len(),
        u != v,
        0 <= i < a.h@.len(),
    ensures
        more[i].filter(|e: HalfEdge<C>| e.0 == x) == if (i == u && x == v) || (i == v && x == u) {
            fewer[i].filter(|e: HalfEdge<C>| e.0 == x).push((x, c))
        } else {
            fewer[i].filter(|e: HalfEdge<C>| e.0 == x)
        },
        a.edges@.len() == 0 ==> fewer[i].len() == 0,
{
    let n = a.h@.len();
    let m = a.edges@.len();
    let before = half_edges(a.edges@, a.j@, n, zero, i, m);
    let after = half_edges(b.edges@, b.j@, n, zero, i, m + 1);
    lemma_half_edges_prefix(a.edges@, a.j@, n, zero, i, (u, v), c, m);
    assert(b.edges@[m as int] == (u, v));
    assert(b.j@[m as int] == c);
    assert(sorts(fewer[i], before));
    assert(sorts(more[i], after));
    lemma_to_neighbour_filters(fewer[i], x);
    lemma_to_neighbour_filters(more[i], x);
    assert(to_neighbour(fewer[i], x) == to_neighbour(before, x));
    assert(to_neighbour(more[i], x) == to_neighbour(after, x));
    assert(before.push((v, c)).drop_last() =~= before);
    assert(before.push((u, c)).drop_last() =~= before);
    if m == 0 {
        lemma_same_total(fewer[i], before);
    }
}

} // verus!
