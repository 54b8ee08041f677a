//! The magnitudes that an annealing schedule starts from.
//!
//! The hot end of a schedule is set by the largest field that a variable can
//! feel, and the cold end by the smallest gap that a variable can have. Both
//! are whole numbers of coefficient steps.
use crate::coefficient::Coefficient;
use crate::ising::IsingGraph;
use vstd::prelude::*;

verus! {

/// The magnitude of a coefficient, in steps.
pub open spec fn magnitude<C: Coefficient>(c: C) -> nat {
    if c.stored() < 0 {
        (-c.stored()) as nat
    } else {
        c.stored() as nat
    }
}

/// The magnitude of the coupling of edge `k`, and zero where there is none.
pub open spec fn edge_magnitude<C: Coefficient>(graph: IsingGraph<C>, k: int) -> nat {
    if k < graph.j@.len() {
        magnitude(graph.j@[k])
    } else {
        0
    }
}

/// Both ends of the edge are nodes.
pub open spec fn in_graph<C: Coefficient>(graph: IsingGraph<C>, k: int) -> bool {
    graph.edges@[k].0 < graph.h@.len() && graph.edges@[k].1 < graph.h@.len()
}

/// How often node `i` ends edge `k`.
pub open spec fn ends_at<C: Coefficient>(graph: IsingGraph<C>, k: int, i: int) -> nat {
    if !in_graph(graph, k) {
        0
    } else {
        (if graph.edges@[k].0 == i {
            1nat
        } else {
            0
        }) + (if graph.edges@[k].1 == i {
            1nat
        } else {
            0
        })
    }
}

/// The largest field that node `i` can feel from its bias and the first `k`
/// edges.
pub open spec fn field<C: Coefficient>(graph: IsingGraph<C>, i: int, k: nat) -> nat
    decreases k,
{
    if k == 0 {
        magnitude(graph.h@[i])
    } else {
        field(graph, i, (k - 1) as nat) + ends_at(graph, k - 1, i) * edge_magnitude(graph, k - 1)
    }
}

/// The lesser of a gap so far and a magnitude that is not zero.
pub open spec fn narrowed(gap: Option<nat>, a: nat) -> Option<nat> {
    if a == 0 {
        gap
    } else {
        match gap {
            Some(g) => if g <= a {
                gap
            } else {
                Some(a)
            },
            None => Some(a),
        }
    }
}

/// The smallest magnitude other than zero among node `i`'s bias and its
/// couplings in the first `k` edges.
pub open spec fn gap<C: Coefficient>(graph: IsingGraph<C>, i: int, k: nat) -> Option<nat>
    decreases k,
{
    if k == 0 {
        narrowed(None, magnitude(graph.h@[i]))
    } else {
        let before = gap(graph, i, (k - 1) as nat);
        if ends_at(graph, k - 1, i) > 0 {
            narrowed(before, edge_magnitude(graph, k - 1))
        } else {
            before
        }
    }
}

/// Node `i`'s largest field over the whole graph.
pub open spec fn node_field<C: Coefficient>(graph: IsingGraph<C>, i: int) -> nat {
    field(graph, i, graph.edges@.len())
}

/// Node `i`'s smallest gap over the whole graph.
pub open spec fn node_gap<C: Coefficient>(graph: IsingGraph<C>, i: int) -> Option<nat> {
    gap(graph, i, graph.edges@.len())
}

/// How many of the first `n` nodes have exactly this gap.
pub open spec fn nodes_with_gap<C: Coefficient>(graph: IsingGraph<C>, g: nat, n: nat) -> nat
    decreases n,
{
    if n == 0 {
        0
    } else {
        nodes_with_gap(graph, g, (n - 1) as nat) + if node_gap(graph, n - 1) == Some(g) {
            1nat
        } else {
            0
        }
    }
}

/// The magnitudes that a schedule starts from, in steps.
#[derive(Clone, Copy, Debug, PartialEq, Eq, Structural)]
pub struct FieldRange {
    /// Largest field of any variable.
    pub max_field: u128,
    /// Smallest gap of any variable.
    pub min_gap: u32,
    /// How many variables have that gap.
    pub min_gap_count: usize,
}

/// `range` holds the extremes of `graph`.
pub open spec fn is_field_range<C: Coefficient>(graph: IsingGraph<C>, range: FieldRange) -> bool {
    let n = graph.h@.len();
    &&& exists|i: int| 0 <= i < n && #[trigger] node_field(graph, i) == range.max_field
    &&& forall|i: int| 0 <= i < n ==> #[trigger] node_field(graph, i) <= range.max_field
    &&& exists|i: int| 0 <= i < n && #[trigger] node_gap(graph, i) == Some(range.min_gap as nat)
    &&& forall|i: int|
        0 <= i < n ==> match #[trigger] node_gap(graph, i) {
            Some(g) => range.min_gap <= g,
            None => true,
        }
    &&& range.min_gap_count == nodes_with_gap(graph, range.min_gap as nat, n)
}

fn steps_magnitude<C: Coefficient>(c: C) -> (m: u32)
    ensures
        m == magnitude(c),
        m <= 0x8000_0000,
{
    let steps: i64 = c.to_stored() as i64;
    if steps < 0 {
        (-steps) as u32
    } else {
        steps as u32
    }
}

fn narrow(gap: Option<u32>, a: u32) -> (narrower: Option<u32>)
    ensures
        gap_view(narrower) == narrowed(gap_view(gap), a as nat),
{
    if a == 0 {
        gap
    } else {
        match gap {
            Some(g) => if g <= a {
                gap
            } else {
                Some(a)
            },
            None => Some(a),
        }
    }
}

/// A gap as a number.
pub open spec fn gap_view(gap: Option<u32>) -> Option<nat> {
    match gap {
        Some(g) => Some(g as nat),
        None => None,
    }
}

/// Every node's field and gap.
fn node_extremes<C: Coefficient>(graph: &IsingGraph<C>) -> (extremes: (
    Vec<u128>,
    Vec<Option<u32>>,
))
    ensures
        extremes.0@.len() == graph.h@.len(),
        extremes.1@.len() == graph.h@.len(),
        forall|i: int|
            0 <= i < graph.h@.len() ==> #[trigger] extremes.0@[i] == node_field(*graph, i),
        forall|i: int|
            0 <= i < graph.h@.len() ==> gap_view(#[trigger] extremes.1@[i]) == node_gap(*graph, i),
{
    let n: usize = graph.h.len();
    let mut fields: Vec<u128> = Vec::new();
    let mut gaps: Vec<Option<u32>> = Vec::new();
    let mut i: usize = 0;
    while i < n
        invariant
            i <= n,
            n == graph.h@.len(),
            fields@.len() == i,
            gaps@.len() == i,
            forall|a: int| 0 <= a < i ==> #[trigger] fields@[a] == field(*graph, a, 0),
            forall|a: int| 0 <= a < i ==> fields@[a] <= 0x8000_0000,
            forall|a: int| 0 <= a < i ==> gap_view(#[trigger] gaps@[a]) == gap(*graph, a, 0),
        decreases n - i,
    {
        let a: u32 = steps_magnitude(graph.h[i]);
        fields.push(a as u128);
        gaps.push(narrow(None, a));
        i += 1;
    }
    let mut k: usize = 0;
    while k < graph.edges.len()
        invariant
            n == graph.h@.len(),
            k <= graph.edges@.len(),
            fields@.len() == n,
            gaps@.len() == n,
            forall|a: int| 0 <= a < n ==> #[trigger] fields@[a] == field(*graph, a, k as nat),
            forall|a: int| 0 <= a < n ==> fields@[a] <= 0x8000_0000 + 0x1_0000_0000 * k,
            forall|a: int|
                0 <= a < n ==> gap_view(#[trigger] gaps@[a]) == gap(*graph, a, k as nat),
        decreases graph.edges@.len() - k,
    {
        let (u, v): (usize, usize) = graph.edges[k];
        let ghost old_fields = fields@;
        let ghost old_gaps = gaps@;
        if u < n && v < n {
            let a: u32 = if k < graph.j.len() {
                steps_magnitude(graph.j[k])
            } else {
                0
            };
            fields.set(u, fields[u] + a as u128);
            fields.set(v, fields[v] + a as u128);
            gaps.set(u, narrow(gaps[u], a));
            gaps.set(v, narrow(gaps[v], a));
            proof {
                assert forall|b: int| 0 <= b < n implies #[trigger] fields@[b] == field(
                    *graph,
                    b,
                    (k + 1) as nat,
                ) && fields@[b] <= 0x8000_0000 + 0x1_0000_0000 * (k + 1) by {
                    assert(old_fields[b] == field(*graph, b, k as nat));
                    let times = ends_at(*graph, k as int, b);
                    assert(times == 0 || times == 1 || times == 2);
                    assert(times * a == if times == 0 {
                        0int
                    } else if times == 1 {
                        a as int
                    } else {
                        2 * a
                    }) by (nonlinear_arith)
                        requires
                            times == 0 || times == 1 || times == 2,
                    ;
                }
                assert forall|b: int| 0 <= b < n implies gap_view(#[trigger] gaps@[b]) == gap(
                    *graph,
                    b,
                    (k + 1) as nat,
                ) by {
                    assert(gap_view(old_gaps[b]) == gap(*graph, b, k as nat));
                }
            }
        } else {
            proof {
                assert forall|b: int| 0 <= b < n implies #[trigger] fields@[b] == field(
                    *graph,
                    b,
                    (k + 1) as nat,
                ) by {
                    assert(ends_at(*graph, k as int, b) == 0);
                    assert(0 * edge_magnitude(*graph, k as int) == 0) by (nonlinear_arith);
                }
                assert forall|b: int| 0 <= b < n implies gap_view(#[trigger] gaps@[b]) == gap(
                    *graph,
                    b,
                    (k + 1) as nat,
                ) by {
                    assert(ends_at(*graph, k as int, b) == 0);
                }
            }
        }
        k += 1;
    }
    (fields, gaps)
}

/// The magnitudes that a schedule for `graph` starts from, or `None` when every
/// coefficient is zero and nothing sets a scale.
///
/// Edges whose endpoints are out of range count nothing, and couplings shorter
/// than edges are treated as 0 for the missing entries.
#[must_use]
pub fn field_range<C: Coefficient>(graph: &IsingGraph<C>) -> (range: Option<FieldRange>)
    ensures
        match range {
            None => forall|i: int| 0 <= i < graph.h@.len() ==> #[trigger] node_gap(*graph, i) is None,
            Some(r) => is_field_range(*graph, r),
        },
{
    let n: usize = graph.h.len();
    let (fields, gaps): (Vec<u128>, Vec<Option<u32>>) = node_extremes(graph);
    let mut max_field: u128 = 0;
    let mut min_gap: Option<u32> = None;
    let mut count: usize = 0;
    let mut i: usize = 0;
    while i < n
        invariant
            n == graph.h@.len(),
            i <= n,
            fields@.len() == n,
            gaps@.len() == n,
            forall|a: int| 0 <= a < n ==> #[trigger] fields@[a] == node_field(*graph, a),
            forall|a: int| 0 <= a < n ==> gap_view(#[trigger] gaps@[a]) == node_gap(*graph, a),
            forall|a: int| 0 <= a < i ==> #[trigger] node_field(*graph, a) <= max_field,
            i > 0 ==> exists|a: int|
                0 <= a < i && #[trigger] node_field(*graph, a) == max_field,
            i == 0 ==> max_field == 0,
            count <= i,
            match min_gap {
                None => forall|a: int| 0 <= a < i ==> #[trigger] node_gap(*graph, a) is None,
                Some(m) => {
                    &&& exists|a: int|
                        0 <= a < i && #[trigger] node_gap(*graph, a) == Some(m as nat)
                    &&& forall|a: int|
                        0 <= a < i ==> match #[trigger] node_gap(*graph, a) {
                            Some(g) => m <= g,
                            None => true,
                        }
                    &&& count == nodes_with_gap(*graph, m as nat, i as nat)
                },
            },
        decreases n - i,
    {
        let ghost before = min_gap;
        assert(fields@[i as int] == node_field(*graph, i as int));
        assert(gap_view(gaps@[i as int]) == node_gap(*graph, i as int));
        if fields[i] >= max_field {
            max_field = fields[i];
        }
        match gaps[i] {
            None => {},
            Some(g) => match min_gap {
                None => {
                    min_gap = Some(g);
                    count = 1;
                    proof {
                        lemma_none_so_far(*graph, g as nat, i as nat);
                    }
                },
                Some(m) => {
                    if g < m {
                        min_gap = Some(g);
                        count = 1;
                        proof {
                            lemma_none_so_far(*graph, g as nat, i as nat);
                        }
                    } else if g == m {
                        count += 1;
                    }
                },
            },
        }
        i += 1;
    }
    match min_gap {
        None => None,
        Some(m) => Some(FieldRange { max_field, min_gap: m, min_gap_count: count }),
    }
}

proof fn lemma_none_so_far<C: Coefficient>(graph: IsingGraph<C>, g: nat, n: nat)
    requires
        forall|a: int| 0 <= a < n ==> #[trigger] node_gap(graph, a) != Some(g),
    ensures
        nodes_with_gap(graph, g, n) == 0,
    decreases n,
{
    if n > 0 {
        assert(node_gap(graph, n - 1) != Some(g));
        lemma_none_so_far(graph, g, (n - 1) as nat);
    }
}

proof fn lemma_gap_below_field<C: Coefficient>(graph: IsingGraph<C>, i: int, k: nat)
    ensures
        gap(graph, i, k) matches Some(g) ==> 0 < g <= field(graph, i, k),
    decreases k,
{
    if k > 0 {
        lemma_gap_below_field(graph, i, (k - 1) as nat);
        let times = ends_at(graph, k - 1, i);
        let a = edge_magnitude(graph, k - 1);
        assert(times > 0 ==> a <= times * a) by (nonlinear_arith);
        assert(0 <= times * a) by (nonlinear_arith);
    }
}

/// A schedule starts from a gap that is not zero and never exceeds the largest
/// field, and at least one variable has it.
pub proof fn law_gaps_lie_within_fields<C: Coefficient>(graph: IsingGraph<C>, range: FieldRange)
    requires
        is_field_range(graph, range),
    ensures
        0 < range.min_gap <= range.max_field,
        0 < range.min_gap_count <= graph.h@.len(),
{
    let n = graph.h@.len();
    let i = choose|i: int| 0 <= i < n && #[trigger] node_gap(graph, i) == Some(range.min_gap as nat);
    lemma_gap_below_field(graph, i, graph.edges@.len());
    assert(node_field(graph, i) <= range.max_field);
    lemma_counted(graph, range.min_gap as nat, i, n);
}

proof fn lemma_counted<C: Coefficient>(graph: IsingGraph<C>, g: nat, i: int, n: nat)
    ensures
        nodes_with_gap(graph, g, n) <= n,
        0 <= i < n && node_gap(graph, i) == Some(g) ==> 0 < nodes_with_gap(graph, g, n),
    decreases n,
{
    if n > 0 {
        lemma_counted(graph, g, i, (n - 1) as nat);
    }
}

/// `b` is `a` with the signs of some coefficients flipped.
pub open spec fn flips_signs<C: Coefficient>(a: IsingGraph<C>, b: IsingGraph<C>) -> bool {
    &&& b.h@.len() == a.h@.len()
    &&& b.j@.len() == a.j@.len()
    &&& b.edges@ == a.edges@
    &&& forall|i: int|
        0 <= i < a.h@.len() ==> (#[trigger] b.h@[i]).stored() == a.h@[i].stored()
            || b.h@[i].stored() == -a.h@[i].stored()
    &&& forall|k: int|
        0 <= k < a.j@.len() ==> (#[trigger] b.j@[k]).stored() == a.j@[k].stored()
            || b.j@[k].stored() == -a.j@[k].stored()
}

proof fn lemma_flipped_node<C: Coefficient>(a: IsingGraph<C>, b: IsingGraph<C>, i: int, k: nat)
    requires
        flips_signs(a, b),
        0 <= i < a.h@.len(),
        k <= a.edges@.len(),
    ensures
        field(b, i, k) == field(a, i, k),
        gap(b, i, k) == gap(a, i, k),
    decreases k,
{
    if k == 0 {
        assert(magnitude(b.h@[i]) == magnitude(a.h@[i]));
    } else {
        lemma_flipped_node(a, b, i, (k - 1) as nat);
        assert(ends_at(b, k - 1, i) == ends_at(a, k - 1, i));
        if k - 1 < a.j@.len() {
            assert(magnitude(b.j@[k - 1]) == magnitude(a.j@[k - 1]));
        }
    }
}

/// Two graphs whose nodes have the same fields and gaps have the same range.
proof fn lemma_same_nodes_same_range<C: Coefficient>(
    a: IsingGraph<C>,
    b: IsingGraph<C>,
    range: FieldRange,
)
    requires
        b.h@.len() == a.h@.len(),
        forall|i: int|
            0 <= i < a.h@.len() ==> #[trigger] node_field(b, i) == node_field(a, i),
        forall|i: int| 0 <= i < a.h@.len() ==> #[trigger] node_gap(b, i) == node_gap(a, i),
        is_field_range(a, range),
    ensures
        is_field_range(b, range),
{
    let n = a.h@.len();
    let top = choose|i: int| 0 <= i < n && #[trigger] node_field(a, i) == range.max_field;
    assert(node_field(b, top) == range.max_field);
    let low = choose|i: int| 0 <= i < n && #[trigger] node_gap(a, i) == Some(range.min_gap as nat);
    assert(node_gap(b, low) == Some(range.min_gap as nat));
    assert forall|i: int| 0 <= i < n implies #[trigger] node_field(b, i) <= range.max_field by {
        assert(node_field(a, i) <= range.max_field);
    }
    assert forall|i: int| 0 <= i < n implies match #[trigger] node_gap(b, i) {
        Some(g) => range.min_gap <= g,
        None => true,
    } by {
        assert(node_gap(b, i) == node_gap(a, i));
    }
    lemma_same_count(a, b, range.min_gap as nat, n);
}

proof fn lemma_same_count<C: Coefficient>(a: IsingGraph<C>, b: IsingGraph<C>, g: nat, n: nat)
    requires
        forall|i: int| 0 <= i < n ==> #[trigger] node_gap(b, i) == node_gap(a, i),
    ensures
        nodes_with_gap(b, g, n) == nodes_with_gap(a, g, n),
    decreases n,
{
    if n > 0 {
        assert(node_gap(b, n - 1) == node_gap(a, n - 1));
        lemma_same_count(a, b, g, (n - 1) as nat);
    }
}

/// Flipping signs changes no node's field or gap, so a schedule starts from the
/// same magnitudes.
pub proof fn law_signs_do_not_matter<C: Coefficient>(
    a: IsingGraph<C>,
    b: IsingGraph<C>,
    range: FieldRange,
)
    requires
        flips_signs(a, b),
    ensures
        forall|i: int|
            0 <= i < a.h@.len() ==> #[trigger] node_field(b, i) == node_field(a, i),
        forall|i: int| 0 <= i < a.h@.len() ==> #[trigger] node_gap(b, i) == node_gap(a, i),
        is_field_range(b, range) <==> is_field_range(a, range),
{
    assert forall|i: int| 0 <= i < a.h@.len() implies #[trigger] node_field(b, i) == node_field(
        a,
        i,
    ) by {
        lemma_flipped_node(a, b, i, a.edges@.len());
    }
    assert forall|i: int| 0 <= i < a.h@.len() implies #[trigger] node_gap(b, i) == node_gap(
        a,
        i,
    ) by {
        lemma_flipped_node(a, b, i, a.edges@.len());
    }
    lemma_ranges_agree(a, b, range);
}

proof fn lemma_ranges_agree<C: Coefficient>(
    a: IsingGraph<C>,
    b: IsingGraph<C>,
    range: FieldRange,
)
    requires
        b.h@.len() == a.h@.len(),
        forall|i: int|
            0 <= i < a.h@.len() ==> #[trigger] node_field(b, i) == node_field(a, i),
        forall|i: int| 0 <= i < a.h@.len() ==> #[trigger] node_gap(b, i) == node_gap(a, i),
    ensures
        is_field_range(b, range) <==> is_field_range(a, range),
{
    if is_field_range(a, range) {
        lemma_same_nodes_same_range(a, b, range);
    }
    if is_field_range(b, range) {
        assert forall|i: int| 0 <= i < b.h@.len() implies #[trigger] node_field(a, i)
            == node_field(b, i) by {
            assert(node_field(b, i) == node_field(a, i));
        }
        assert forall|i: int| 0 <= i < b.h@.len() implies #[trigger] node_gap(a, i) == node_gap(
            b,
            i,
        ) by {
            assert(node_gap(b, i) == node_gap(a, i));
        }
        lemma_same_nodes_same_range(b, a, range);
    }
}

/// `b` is `a` without edge `k` and its coupling.
pub open spec fn drops_edge<C: Coefficient>(a: IsingGraph<C>, b: IsingGraph<C>, k: int) -> bool {
    &&& b.h@ == a.h@
    &&& b.edges@ == a.edges@.remove(k)
    &&& b.j@ == if k < a.j@.len() {
        a.j@.remove(k)
    } else {
        a.j@
    }
}

proof fn lemma_node_without_edge<C: Coefficient>(
    a: IsingGraph<C>,
    b: IsingGraph<C>,
    k: int,
    i: int,
    n: nat,
)
    requires
        0 <= k < a.edges@.len(),
        drops_edge(a, b, k),
        !in_graph(a, k),
        n <= a.edges@.len(),
    ensures
        n <= k ==> field(b, i, n) == field(a, i, n) && gap(b, i, n) == gap(a, i, n),
        n > k ==> field(b, i, (n - 1) as nat) == field(a, i, n) && gap(b, i, (n - 1) as nat) == gap(
            a,
            i,
            n,
        ),
    decreases n,
{
    if n > 0 {
        let e = n - 1;
        lemma_node_without_edge(a, b, k, i, e as nat);
        if e < k {
            assert(b.edges@[e] == a.edges@[e]);
            assert(edge_magnitude(b, e) == edge_magnitude(a, e));
        } else if e == k {
            assert(ends_at(a, k, i) == 0);
            assert(0 * edge_magnitude(a, k) == 0) by (nonlinear_arith);
        } else {
            assert(b.edges@[e - 1] == a.edges@[e]);
            assert(edge_magnitude(b, e - 1) == edge_magnitude(a, e));
            assert(ends_at(b, e - 1, i) == ends_at(a, e, i));
        }
    }
}

/// An edge that leaves the graph counts nothing: without it a schedule starts
/// from the same magnitudes.
pub proof fn law_stray_edges_do_not_matter<C: Coefficient>(
    a: IsingGraph<C>,
    b: IsingGraph<C>,
    k: int,
    range: FieldRange,
)
    requires
        0 <= k < a.edges@.len(),
        !in_graph(a, k),
        drops_edge(a, b, k),
    ensures
        forall|i: int|
            0 <= i < a.h@.len() ==> #[trigger] node_field(b, i) == node_field(a, i),
        forall|i: int| 0 <= i < a.h@.len() ==> #[trigger] node_gap(b, i) == node_gap(a, i),
        is_field_range(b, range) <==> is_field_range(a, range),
{
    assert forall|i: int| 0 <= i < a.h@.len() implies #[trigger] node_field(b, i) == node_field(
        a,
        i,
    ) by {
        lemma_node_without_edge(a, b, k, i, a.edges@.len());
    }
    assert forall|i: int| 0 <= i < a.h@.len() implies #[trigger] node_gap(b, i) == node_gap(
        a,
        i,
    ) by {
        lemma_node_without_edge(a, b, k, i, a.edges@.len());
    }
    lemma_ranges_agree(a, b, range);
}

proof fn lemma_no_gap<C: Coefficient>(graph: IsingGraph<C>, i: int, k: nat)
    ensures
        gap(graph, i, k) is None <==> magnitude(graph.h@[i]) == 0 && forall|e: int|
            0 <= e < k && ends_at(graph, e, i) > 0 ==> #[trigger] edge_magnitude(graph, e) == 0,
    decreases k,
{
    if k > 0 {
        lemma_no_gap(graph, i, (k - 1) as nat);
        if gap(graph, i, k) is None {
            assert forall|e: int| 0 <= e < k && ends_at(graph, e, i) > 0 implies #[trigger]
                edge_magnitude(graph, e) == 0 by {}
        }
    }
}

/// Nothing sets a scale exactly when every bias is zero and so is the coupling of
/// every edge inside the graph.
pub proof fn law_only_zeros_set_no_scale<C: Coefficient>(graph: IsingGraph<C>)
    ensures
        (forall|i: int| 0 <= i < graph.h@.len() ==> #[trigger] node_gap(graph, i) is None) <==> {
            &&& forall|i: int| 0 <= i < graph.h@.len() ==> magnitude(#[trigger] graph.h@[i]) == 0
            &&& forall|k: int|
                0 <= k < graph.edges@.len() && in_graph(graph, k) ==> #[trigger] edge_magnitude(
                    graph,
                    k,
                ) == 0
        },
{
    let n = graph.edges@.len();
    if forall|i: int| 0 <= i < graph.h@.len() ==> #[trigger] node_gap(graph, i) is None {
        assert forall|i: int| 0 <= i < graph.h@.len() implies magnitude(#[trigger] graph.h@[i])
            == 0 by {
            assert(node_gap(graph, i) is None);
            lemma_no_gap(graph, i, n);
        }
        assert forall|k: int| 0 <= k < n && in_graph(graph, k) implies #[trigger] edge_magnitude(
            graph,
            k,
        ) == 0 by {
            let i = graph.edges@[k].0 as int;
            assert(node_gap(graph, i) is None);
            lemma_no_gap(graph, i, n);
            assert(ends_at(graph, k, i) > 0);
        }
    }
    if (forall|i: int| 0 <= i < graph.h@.len() ==> magnitude(#[trigger] graph.h@[i]) == 0) && (
    forall|k: int|
        0 <= k < n && in_graph(graph, k) ==> #[trigger] edge_magnitude(graph, k) == 0) {
        assert forall|i: int| 0 <= i < graph.h@.len() implies #[trigger] node_gap(graph, i)
            is None by {
            lemma_no_gap(graph, i, n);
            assert(magnitude(graph.h@[i]) == 0);
            assert forall|e: int| 0 <= e < n && ends_at(graph, e, i) > 0 implies #[trigger]
                edge_magnitude(graph, e) == 0 by {
                assert(in_graph(graph, e));
            }
        }
    }
}

/// `b` is `a` with one more edge, from `u` to `v`, and its coupling `c`.
pub open spec fn gains_edge<C: Coefficient>(
    a: IsingGraph<C>,
    b: IsingGraph<C>,
    u: usize,
    v: usize,
    c: C,
) -> bool {
    &&& b.h@ == a.h@
    &&& b.edges@ == a.edges@.push((u, v))
    &&& b.j@ == a.j@.push(c)
}

proof fn lemma_node_before_edge<C: Coefficient>(
    a: IsingGraph<C>,
    b: IsingGraph<C>,
    u: usize,
    v: usize,
    c: C,
    i: int,
    n: nat,
)
    requires
        gains_edge(a, b, u, v, c),
        a.j@.len() == a.edges@.len(),
        n <= a.edges@.len(),
    ensures
        field(b, i, n) == field(a, i, n),
        gap(b, i, n) == gap(a, i, n),
    decreases n,
{
    if n > 0 {
        lemma_node_before_edge(a, b, u, v, c, i, (n - 1) as nat);
        assert(b.edges@[n - 1] == a.edges@[n - 1]);
        assert(b.j@[n - 1] == a.j@[n - 1]);
        assert(ends_at(b, n - 1, i) == ends_at(a, n - 1, i));
    }
}

/// One more edge between two nodes raises the field of both by the magnitude of
/// its coupling, brings the gap of both down to that magnitude where it is
/// smaller and not zero, and touches no other node. An edge from a node to
/// itself counts twice there.
pub proof fn law_every_edge_adds_to_both_ends<C: Coefficient>(
    a: IsingGraph<C>,
    b: IsingGraph<C>,
    u: usize,
    v: usize,
    c: C,
    i: int,
)
    requires
        gains_edge(a, b, u, v, c),
        a.j@.len() == a.edges@.len(),
        u < a.h@.len(),
        v < a.h@.len(),
        0 <= i < a.h@.len(),
    ensures
        ({
            let size = if c.stored() < 0 {
                -c.stored()
            } else {
                c.stored()
            };
            &&& u != v && (i == u || i == v) ==> node_field(b, i) == node_field(a, i) + size
            &&& u == v && i == u ==> node_field(b, i) == node_field(a, i) + 2 * size
            &&& i != u && i != v ==> node_field(b, i) == node_field(a, i) && node_gap(b, i)
                == node_gap(a, i)
            &&& c.stored() == 0 ==> node_gap(b, i) == node_gap(a, i)
            &&& c.stored() != 0 && (i == u || i == v) ==> node_gap(b, i) == match node_gap(a, i) {
                Some(g) if g <= size => Some(g),
                _ => Some(size as nat),
            }
        }),
{
    let n = a.edges@.len();
    lemma_node_before_edge(a, b, u, v, c, i, n);
    assert(b.edges@[n as int] == (u, v));
    assert(b.j@[n as int] == c);
    let times = ends_at(b, n as int, i);
    let size = edge_magnitude(b, n as int);
    assert(times == 0 || times == 1 || times == 2);
    assert(times * size == if times == 0 {
        0
    } else if times == 1 {
        size
    } else {
        2 * size
    }) by (nonlinear_arith)
        requires
            times == 0 || times == 1 || times == 2,
    ;
}

/// Without edges a node's field is the magnitude of its bias, and so is its gap,
/// unless the bias is zero.
pub proof fn law_a_lone_node_feels_its_bias<C: Coefficient>(graph: IsingGraph<C>, i: int)
    requires
        graph.edges@.len() == 0,
        0 <= i < graph.h@.len(),
    ensures
        graph.h@[i].stored() >= 0 ==> node_field(graph, i) == graph.h@[i].stored(),
        graph.h@[i].stored() < 0 ==> node_field(graph, i) == -graph.h@[i].stored(),
        graph.h@[i].stored() == 0 ==> node_gap(graph, i) is None,
        graph.h@[i].stored() != 0 ==> node_gap(graph, i) == Some(node_field(graph, i)),
{
}

proof fn lemma_gap_count<C: Coefficient>(graph: IsingGraph<C>, g: nat, n: nat)
    ensures
        Set::new(|i: int| 0 <= i < n && node_gap(graph, i) == Some(g)).finite(),
        nodes_with_gap(graph, g, n) == Set::new(
            |i: int| 0 <= i < n && node_gap(graph, i) == Some(g),
        ).len(),
    decreases n,
{
    let all = Set::new(|i: int| 0 <= i < n && node_gap(graph, i) == Some(g));
    if n == 0 {
        assert(all =~= Set::empty());
    } else {
        let m = (n - 1) as nat;
        lemma_gap_count(graph, g, m);
        let fewer = Set::new(|i: int| 0 <= i < m && node_gap(graph, i) == Some(g));
        if node_gap(graph, n - 1) == Some(g) {
            assert(all =~= fewer.insert(n - 1));
        } else {
            assert(all =~= fewer);
        }
    }
}

/// A range holds the largest field, the smallest gap and the number of nodes
/// that have that gap, so a graph has no two different ranges.
pub proof fn law_a_range_holds_the_extremes<C: Coefficient>(
    graph: IsingGraph<C>,
    range: FieldRange,
    other: FieldRange,
)
    requires
        is_field_range(graph, range),
        is_field_range(graph, other),
    ensures
        forall|i: int|
            0 <= i < graph.h@.len() ==> #[trigger] node_field(graph, i) <= range.max_field,
        exists|i: int|
            0 <= i < graph.h@.len() && #[trigger] node_field(graph, i) == range.max_field,
        forall|i: int|
            0 <= i < graph.h@.len() && #[trigger] node_gap(graph, i) is Some ==> range.min_gap
                <= node_gap(graph, i)->0,
        range.min_gap_count == Set::new(
            |i: int| 0 <= i < graph.h@.len() && node_gap(graph, i) == Some(range.min_gap as nat),
        ).len(),
        range == other,
{
    let n = graph.h@.len();
    lemma_gap_count(graph, range.min_gap as nat, n);
    let top = choose|i: int| 0 <= i < n && #[trigger] node_field(graph, i) == range.max_field;
    let other_top = choose|i: int| 0 <= i < n && #[trigger] node_field(graph, i) == other.max_field;
    assert(node_field(graph, top) <= other.max_field);
    assert(node_field(graph, other_top) <= range.max_field);
    let low = choose|i: int| 0 <= i < n && #[trigger] node_gap(graph, i) == Some(range.min_gap as nat);
    let other_low = choose|i: int|
        0 <= i < n && #[trigger] node_gap(graph, i) == Some(other.min_gap as nat);
    assert(node_gap(graph, low) is Some && node_gap(graph, other_low) is Some);
}

/// An edge with an end outside the graph adds nothing, neither at its other end
/// nor anywhere else.
pub proof fn law_an_edge_outside_adds_nothing<C: Coefficient>(
    a: IsingGraph<C>,
    b: IsingGraph<C>,
    u: usize,
    v: usize,
    c: C,
    i: int,
)
    requires
        gains_edge(a, b, u, v, c),
        a.j@.len() == a.edges@.len(),
        u >= a.h@.len() || v >= a.h@.len(),
        0 <= i < a.h@.len(),
    ensures
        node_field(b, i) == node_field(a, i),
        node_gap(b, i) == node_gap(a, i),
{
    let n = a.edges@.len();
    lemma_node_before_edge(a, b, u, v, c, i, n);
    assert(b.edges@[n as int] == (u, v));
    assert(ends_at(b, n as int, i) == 0);
    assert(0 * edge_magnitude(b, n as int) == 0) by (nonlinear_arith);
}

} // verus!
