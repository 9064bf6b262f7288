//! Ordering of names by dependency.
//!
//! A plan maps each name to the names that it needs.
use vstd::prelude::*;
use vstd::string::*;
use crate::graph::{
    ascending, blocked, closed_graph, cyclic, dependencies_first, edge, greatest_first,
    group_nodes, groups_by_level, is_cycle, is_leveling, lemma_cyclic_iff_blocked,
    lemma_distinct_below, lemma_leveled_acyclic, lemma_left_out_iff_blocked, level_right, listed,
    ready, rest_waits, sort_nodes, waits_on, waits_within,
};
use crate::text::{lemma_precedes_total, lemma_precedes_transitive, precedes, same, views};

verus! {

/// Whether `a` needs `b` directly.
pub open spec fn needs(m: Map<Seq<char>, Seq<Seq<char>>>, a: Seq<char>, b: Seq<char>) -> bool {
    m.contains_key(a) && m[a].contains(b)
}

/// Whether `a` needs the name `b`, which the plan lacks.
pub open spec fn lacks(m: Map<Seq<char>, Seq<Seq<char>>>, a: Seq<char>, b: Seq<char>) -> bool {
    needs(m, a, b) && !m.contains_key(b)
}

/// Whether the plan has all names that are needed.
pub open spec fn complete(m: Map<Seq<char>, Seq<Seq<char>>>) -> bool {
    forall|a: Seq<char>, b: Seq<char>| #[trigger] needs(m, a, b) ==> m.contains_key(b)
}

/// Whether each name of the list needs the next one.
pub open spec fn is_chain(m: Map<Seq<char>, Seq<Seq<char>>>, c: Seq<Seq<char>>) -> bool {
    forall|j: int| 0 <= j < c.len() - 1 ==> needs(m, #[trigger] c[j], c[j + 1])
}

/// Whether the list is a cycle: each name needs the next one, and the last needs the first.
pub open spec fn is_ring(m: Map<Seq<char>, Seq<Seq<char>>>, c: Seq<Seq<char>>) -> bool {
    c.len() > 0 && is_chain(m, c) && needs(m, c.last(), c[0])
}

/// Whether there is a cycle.
pub open spec fn circular(m: Map<Seq<char>, Seq<Seq<char>>>) -> bool {
    exists|c: Seq<Seq<char>>| #[trigger] is_ring(m, c)
}

/// Whether the name stands on a cycle.
pub open spec fn on_ring(m: Map<Seq<char>, Seq<Seq<char>>>, a: Seq<char>) -> bool {
    exists|c: Seq<Seq<char>>| #[trigger] is_ring(m, c) && c[0] == a
}

/// Whether `a` needs a name of the set.
pub open spec fn awaits(
    m: Map<Seq<char>, Seq<Seq<char>>>,
    s: Set<Seq<char>>,
    a: Seq<char>,
) -> bool {
    exists|b: Seq<char>| #[trigger] needs(m, a, b) && s.contains(b)
}

/// Whether each name of the set needs a name of the set.
pub open spec fn waiting(m: Map<Seq<char>, Seq<Seq<char>>>, s: Set<Seq<char>>) -> bool {
    forall|a: Seq<char>| s.contains(a) ==> #[trigger] awaits(m, s, a)
}

/// Whether the name belongs to a set of names that wait for each other, so that it can never
/// come.
pub open spec fn stuck(m: Map<Seq<char>, Seq<Seq<char>>>, a: Seq<char>) -> bool {
    exists|s: Set<Seq<char>>| #[trigger] waiting(m, s) && s.contains(a)
}

/// Whether the list holds all names of the plan once, each after the names that it needs.
pub open spec fn is_order(m: Map<Seq<char>, Seq<Seq<char>>>, order: Seq<Seq<char>>) -> bool {
    &&& order.no_duplicates()
    &&& forall|a: Seq<char>| #[trigger] order.contains(a) <==> m.contains_key(a)
    &&& forall|p: int, b: Seq<char>|
        0 <= p < order.len() && #[trigger] needs(m, order[p], b) ==> exists|q: int|
            0 <= q < p && order[q] == b
}

/// Whether a name can come after these: it is not among them, and all that it needs is.
pub open spec fn can_follow(
    m: Map<Seq<char>, Seq<Seq<char>>>,
    before: Seq<Seq<char>>,
    a: Seq<char>,
) -> bool {
    &&& m.contains_key(a)
    &&& !before.contains(a)
    &&& forall|b: Seq<char>| #[trigger] needs(m, a, b) ==> before.contains(b)
}

/// Whether at each place comes the greatest of the names that can come there.
pub open spec fn last_names_first(
    m: Map<Seq<char>, Seq<Seq<char>>>,
    order: Seq<Seq<char>>,
) -> bool {
    forall|p: int, a: Seq<char>|
        0 <= p < order.len() && #[trigger] can_follow(m, order.take(p), a) ==> a == order[p]
            || precedes(a, order[p])
}

/// A plan has only one order in which at each place comes the greatest of the names that can
/// come there.
pub proof fn law_order_unique(
    m: Map<Seq<char>, Seq<Seq<char>>>,
    first: Seq<Seq<char>>,
    second: Seq<Seq<char>>,
)
    requires
        is_order(m, first),
        last_names_first(m, first),
        is_order(m, second),
        last_names_first(m, second),
    ensures
        first == second,
{
    lemma_same_start(m, first, second, first.len() as int);
    lemma_same_start(m, second, first, second.len() as int);
    assert(first.take(first.len() as int) =~= first);
    assert(second.take(second.len() as int) =~= second);
    assert(first.len() == second.len());
}

/// The name at a place of an order can come there.
proof fn lemma_placed_can_follow(
    m: Map<Seq<char>, Seq<Seq<char>>>,
    order: Seq<Seq<char>>,
    p: int,
)
    requires
        is_order(m, order),
        0 <= p < order.len(),
    ensures
        can_follow(m, order.take(p), order[p]),
{
    let before = order.take(p);
    assert(order.contains(order[p]));
    if before.contains(order[p]) {
        let q = before.index_of(order[p]);
        assert(order[q] == order[p]);
    }
    assert forall|b: Seq<char>| #[trigger] needs(m, order[p], b) implies before.contains(b) by {
        let q = choose|q: int| 0 <= q < p && order[q] == b;
        assert(before[q] == b);
    }
}

proof fn lemma_same_start(
    m: Map<Seq<char>, Seq<Seq<char>>>,
    first: Seq<Seq<char>>,
    second: Seq<Seq<char>>,
    n: int,
)
    requires
        is_order(m, first),
        last_names_first(m, first),
        is_order(m, second),
        last_names_first(m, second),
        0 <= n <= first.len(),
    ensures
        n <= second.len(),
        first.take(n) == second.take(n),
    decreases n,
{
    if n == 0 {
        assert(first.take(0) =~= second.take(0));
    } else {
        let p = n - 1;
        lemma_same_start(m, first, second, p);
        let a = first[p];
        lemma_placed_can_follow(m, first, p);
        assert(second.contains(a));
        let q = second.index_of(a);
        assert(q >= p) by {
            if q < p {
                assert(second.take(p)[q] == a);
                assert(first.take(p).contains(a));
            }
        }
        assert(p < second.len());
        let b = second[p];
        lemma_placed_can_follow(m, second, p);
        assert(can_follow(m, second.take(p), a));
        assert(can_follow(m, first.take(p), b));
        if a != b {
            lemma_precedes_total(a, b);
            assert(precedes(a, b) && precedes(b, a));
            lemma_precedes_transitive(a, b, a);
            lemma_precedes_total(a, a);
        }
        assert(first.take(n) =~= first.take(p).push(a));
        assert(second.take(n) =~= second.take(p).push(b));
    }
}

/// Whether `lv` gives the name its level: 0 if it needs nothing, else one more than the
/// greatest level of a name that it needs.
pub open spec fn level_fits(
    m: Map<Seq<char>, Seq<Seq<char>>>,
    lv: Map<Seq<char>, nat>,
    a: Seq<char>,
) -> bool {
    if m[a].len() == 0 {
        lv[a] == 0
    } else {
        &&& forall|b: Seq<char>| #[trigger] needs(m, a, b) ==> lv[b] < lv[a]
        &&& exists|b: Seq<char>| #[trigger] needs(m, a, b) && lv[b] + 1 == lv[a]
    }
}

/// Whether `lv` gives each name its level.
pub open spec fn is_level_map(m: Map<Seq<char>, Seq<Seq<char>>>, lv: Map<Seq<char>, nat>) -> bool {
    &&& lv.dom() == m.dom()
    &&& forall|a: Seq<char>| m.contains_key(a) ==> #[trigger] level_fits(m, lv, a)
}

/// Whether the groups list the names by level, each by ascending name. There is always a first
/// group; the last one is empty only if there are no names.
pub open spec fn is_grouped(lv: Map<Seq<char>, nat>, groups: Seq<Seq<Seq<char>>>) -> bool {
    &&& groups.len() > 0
    &&& groups.len() > 1 ==> groups.last().len() > 0
    &&& forall|a: Seq<char>| #[trigger] lv.contains_key(a) ==> lv[a] < groups.len()
    &&& forall|l: int, a: Seq<char>|
        0 <= l < groups.len() ==> (#[trigger] groups[l].contains(a) <==> lv.contains_key(a)
            && lv[a] == l)
    &&& forall|l: int, i: int, j: int|
        0 <= l < groups.len() && 0 <= i < j < groups[l].len() ==> precedes(
            #[trigger] groups[l][i],
            #[trigger] groups[l][j],
        )
}

// ---------------------------------------------------------------------------------------------
// Names and numbers
// ---------------------------------------------------------------------------------------------

/// The plan that a list of distinct names and their lists describe.
pub open spec fn plan(names: Seq<Seq<char>>, lists: Seq<Seq<Seq<char>>>) -> Map<
    Seq<char>,
    Seq<Seq<char>>,
> {
    Map::new(|a: Seq<char>| names.contains(a), |a: Seq<char>| lists[names.index_of(a)])
}

/// Whether the numbers in `g` stand for the names in the plan.
spec fn numbered(
    names: Seq<Seq<char>>,
    m: Map<Seq<char>, Seq<Seq<char>>>,
    g: Seq<Vec<usize>>,
) -> bool {
    &&& names.no_duplicates()
    &&& names.len() == g.len()
    &&& g.len() <= usize::MAX
    &&& forall|a: Seq<char>| #[trigger] m.contains_key(a) <==> names.contains(a)
    &&& forall|i: int|
        0 <= i < names.len() ==> m.contains_key(names[i]) && m[#[trigger] names[i]].len()
            == g[i]@.len()
    &&& forall|i: int, j: int|
        0 <= i < names.len() && 0 <= j < g[i]@.len() ==> (#[trigger] g[i]@[j]) < names.len()
            && names[g[i]@[j] as int] == m[names[i]][j]
}

/// Edges of the graph are needs of the plan.
proof fn lemma_edge_needs(
    names: Seq<Seq<char>>,
    m: Map<Seq<char>, Seq<Seq<char>>>,
    g: Seq<Vec<usize>>,
    i: int,
    d: int,
)
    requires
        numbered(names, m, g),
    ensures
        edge(g, i, d) ==> 0 <= i < names.len() && 0 <= d < names.len() && needs(
            m,
            names[i],
            names[d],
        ),
        0 <= i < names.len() && 0 <= d < names.len() && needs(m, names[i], names[d]) ==> edge(
            g,
            i,
            d,
        ),
{
    if edge(g, i, d) {
        let j = g[i]@.index_of(d as usize);
        assert(g[i]@[j] == d);
        assert(m[names[i]][j] == names[d]);
    }
    if 0 <= i < names.len() && 0 <= d < names.len() && needs(m, names[i], names[d]) {
        let j = m[names[i]].index_of(names[d]);
        assert(m[names[i]].len() == g[i]@.len());
        assert(names[g[i]@[j] as int] == names[d]);
        assert(g[i]@[j] == d);
    }
}

/// What a plan needs it has, if the plan is numbered.
proof fn lemma_numbered_complete(
    names: Seq<Seq<char>>,
    m: Map<Seq<char>, Seq<Seq<char>>>,
    g: Seq<Vec<usize>>,
)
    requires
        numbered(names, m, g),
    ensures
        complete(m),
        closed_graph(g),
{
    assert forall|a: Seq<char>, b: Seq<char>| #[trigger] needs(m, a, b) implies m.contains_key(b) by {
        let i = names.index_of(a);
        assert(names[i] == a);
        let j = m[a].index_of(b);
        assert(m[names[i]].len() == g[i]@.len());
        assert(names[g[i]@[j] as int] == b);
    }
    assert forall|i: int, d: int| #[trigger] edge(g, i, d) implies 0 <= d < g.len() by {
        lemma_edge_needs(names, m, g, i, d);
    }
}

/// Cycles of the graph are cycles of the plan.
proof fn lemma_cycle_ring(
    names: Seq<Seq<char>>,
    m: Map<Seq<char>, Seq<Seq<char>>>,
    g: Seq<Vec<usize>>,
    c: Seq<int>,
)
    requires
        numbered(names, m, g),
        is_cycle(g, c),
    ensures
        0 <= c[0] < names.len(),
        is_ring(m, Seq::new(c.len(), |k: int| names[c[k]])),
{
    let r = Seq::new(c.len(), |k: int| names[c[k]]);
    assert forall|j: int| 0 <= j < r.len() - 1 implies needs(m, #[trigger] r[j], r[j + 1]) by {
        assert(edge(g, c[j], c[j + 1]));
        lemma_edge_needs(names, m, g, c[j], c[j + 1]);
    }
    lemma_edge_needs(names, m, g, c.last(), c[0]);
}

/// Cycles of the plan are cycles of the graph.
proof fn lemma_ring_cycle(
    names: Seq<Seq<char>>,
    m: Map<Seq<char>, Seq<Seq<char>>>,
    g: Seq<Vec<usize>>,
    r: Seq<Seq<char>>,
)
    requires
        numbered(names, m, g),
        is_ring(m, r),
    ensures
        is_cycle(g, Seq::new(r.len(), |k: int| names.index_of(r[k]))),
{
    let c = Seq::new(r.len(), |k: int| names.index_of(r[k]));
    assert forall|k: int| 0 <= k < r.len() implies #[trigger] names.contains(r[k]) by {
        if k < r.len() - 1 {
            assert(needs(m, r[k], r[k + 1]));
        } else {
            assert(r[k] == r.last());
        }
        assert(m.contains_key(r[k]));
    }
    assert forall|k: int| 0 <= k < r.len() implies 0 <= #[trigger] c[k] < names.len() && names[c[k]]
        == r[k] by {
        assert(names.contains(r[k]));
    }
    assert forall|j: int| 0 <= j < c.len() - 1 implies edge(g, #[trigger] c[j], c[j + 1]) by {
        assert(needs(m, r[j], r[j + 1]));
        assert(0 <= c[j] < names.len() && names[c[j]] == r[j]);
        assert(0 <= c[j + 1] < names.len() && names[c[j + 1]] == r[j + 1]);
        lemma_edge_needs(names, m, g, c[j], c[j + 1]);
    }
    let last = c.len() - 1;
    assert(0 <= c[last] < names.len() && names[c[last]] == r[last]);
    assert(0 <= c[0] < names.len() && names[c[0]] == r[0]);
    lemma_edge_needs(names, m, g, c.last(), c[0]);
}

/// The graph has a cycle exactly if the plan has one.
proof fn lemma_cyclic_circular(
    names: Seq<Seq<char>>,
    m: Map<Seq<char>, Seq<Seq<char>>>,
    g: Seq<Vec<usize>>,
)
    requires
        numbered(names, m, g),
    ensures
        cyclic(g) <==> circular(m),
{
    if cyclic(g) {
        let c = choose|c: Seq<int>| #[trigger] is_cycle(g, c);
        lemma_cycle_ring(names, m, g, c);
    }
    if circular(m) {
        let r = choose|r: Seq<Seq<char>>| #[trigger] is_ring(m, r);
        lemma_ring_cycle(names, m, g, r);
    }
}

/// The names of a set of nodes.
spec fn names_in(names: Seq<Seq<char>>, s: Set<int>) -> Set<Seq<char>> {
    Set::new(
        |a: Seq<char>| exists|k: int| 0 <= k < names.len() && #[trigger] s.contains(k) && names[k] == a,
    )
}

/// The nodes of a set of names.
spec fn nodes_in(names: Seq<Seq<char>>, t: Set<Seq<char>>) -> Set<int> {
    Set::new(|k: int| 0 <= k < names.len() && t.contains(names[k]))
}

proof fn lemma_step_in_names(
    names: Seq<Seq<char>>,
    m: Map<Seq<char>, Seq<Seq<char>>>,
    g: Seq<Vec<usize>>,
    s: Set<int>,
    k: int,
)
    requires
        numbered(names, m, g),
        s.contains(k),
        waits_within(g, s),
    ensures
        0 <= k < names.len(),
        awaits(m, names_in(names, s), names[k]),
{
    assert(waits_on(g, s, k));
    let d = choose|d: int| #[trigger] edge(g, k, d) && s.contains(d);
    lemma_edge_needs(names, m, g, k, d);
    assert(names_in(names, s).contains(names[d]));
}

proof fn lemma_step_in_nodes(
    names: Seq<Seq<char>>,
    m: Map<Seq<char>, Seq<Seq<char>>>,
    g: Seq<Vec<usize>>,
    t: Set<Seq<char>>,
    k: int,
)
    requires
        numbered(names, m, g),
        nodes_in(names, t).contains(k),
        waiting(m, t),
    ensures
        exists|d: int| #[trigger] edge(g, k, d) && nodes_in(names, t).contains(d),
{
    assert(awaits(m, t, names[k]));
    let b = choose|b: Seq<char>| #[trigger] needs(m, names[k], b) && t.contains(b);
    lemma_numbered_complete(names, m, g);
    assert(m.contains_key(b));
    let d = names.index_of(b);
    lemma_edge_needs(names, m, g, k, d);
    assert(nodes_in(names, t).contains(d));
}

/// A node is blocked exactly if its name is stuck.
proof fn lemma_blocked_stuck(
    names: Seq<Seq<char>>,
    m: Map<Seq<char>, Seq<Seq<char>>>,
    g: Seq<Vec<usize>>,
    i: int,
)
    requires
        numbered(names, m, g),
        0 <= i < names.len(),
    ensures
        blocked(g, i) <==> stuck(m, names[i]),
{
    if blocked(g, i) {
        let s = choose|s: Set<int>| #[trigger] waits_within(g, s) && s.contains(i);
        let t = names_in(names, s);
        assert(waiting(m, t)) by {
            assert forall|a: Seq<char>| t.contains(a) implies #[trigger] awaits(m, t, a) by {
                let k = choose|k: int|
                    0 <= k < names.len() && #[trigger] s.contains(k) && names[k] == a;
                lemma_step_in_names(names, m, g, s, k);
            }
        }
        assert(t.contains(names[i]));
    }
    if stuck(m, names[i]) {
        let t = choose|t: Set<Seq<char>>| #[trigger] waiting(m, t) && t.contains(names[i]);
        let s = nodes_in(names, t);
        assert(waits_within(g, s)) by {
            assert forall|k: int| s.contains(k) implies #[trigger] waits_on(g, s, k) by {
                lemma_step_in_nodes(names, m, g, t, k);
            }
        }
        assert(s.contains(i));
    }
}

/// A sort leaves out exactly the nodes whose names are stuck.
proof fn lemma_left_out_iff_stuck(
    names: Seq<Seq<char>>,
    m: Map<Seq<char>, Seq<Seq<char>>>,
    g: Seq<Vec<usize>>,
    order: Seq<usize>,
)
    requires
        numbered(names, m, g),
        closed_graph(g),
        dependencies_first(g, order),
        rest_waits(g, order),
    ensures
        forall|i: int|
            0 <= i < names.len() ==> (#[trigger] listed(order, i) <==> !stuck(m, names[i])),
{
    assert forall|i: int| 0 <= i < names.len() implies (#[trigger] listed(order, i) <==> !stuck(
        m,
        names[i],
    )) by {
        lemma_left_out_iff_blocked(g, order, i);
        lemma_blocked_stuck(names, m, g, i);
    }
}

/// There is a cycle exactly if some name is stuck.
pub proof fn law_circular_iff_stuck(names: Seq<Seq<char>>, m: Map<Seq<char>, Seq<Seq<char>>>)
    requires
        forall|a: Seq<char>| #[trigger] m.contains_key(a) <==> names.contains(a),
    ensures
        circular(m) <==> exists|a: Seq<char>| #[trigger] stuck(m, a),
{
    if circular(m) {
        let c = choose|c: Seq<Seq<char>>| #[trigger] is_ring(m, c);
        let s = c.to_set();
        assert forall|a: Seq<char>| s.contains(a) implies #[trigger] awaits(m, s, a) by {
            let k = c.index_of(a);
            let b = if k < c.len() - 1 {
                c[k + 1]
            } else {
                c[0]
            };
            assert(needs(m, c[k], b));
            assert(c.contains(b));
        }
        assert(waiting(m, s));
        assert(c.contains(c[0]));
        assert(s.contains(c[0]));
        assert(stuck(m, c[0]));
    }
    if exists|a: Seq<char>| #[trigger] stuck(m, a) {
        let a = choose|a: Seq<char>| #[trigger] stuck(m, a);
        let s = choose|s: Set<Seq<char>>| #[trigger] waiting(m, s) && s.contains(a);
        lemma_waiting_chain(m, s, a, names.len() + 1);
        let c = choose|c: Seq<Seq<char>>|
            c.len() == names.len() + 1 && c[0] == a && #[trigger] is_chain(m, c) && (forall|j: int|
                0 <= j < c.len() ==> s.contains(#[trigger] c[j]));
        lemma_repeats(names, m, s, c);
        let (p, q) = choose|p: int, q: int| 0 <= p < q < c.len() && #[trigger] c[p] == #[trigger] c[q];
        let r = c.subrange(p, q);
        assert forall|j: int| 0 <= j < r.len() - 1 implies needs(m, #[trigger] r[j], r[j + 1]) by {
            assert(needs(m, c[p + j], c[p + j + 1]));
        }
        assert(needs(m, c[q - 1], c[q - 1 + 1]));
        assert(r.last() == c[q - 1]);
        assert(is_ring(m, r));
    }
}

/// From a waiting set a chain of any length can be drawn.
proof fn lemma_waiting_chain(
    m: Map<Seq<char>, Seq<Seq<char>>>,
    s: Set<Seq<char>>,
    a: Seq<char>,
    n: nat,
)
    requires
        waiting(m, s),
        s.contains(a),
        n > 0,
    ensures
        exists|c: Seq<Seq<char>>|
            c.len() == n && c[0] == a && #[trigger] is_chain(m, c) && (forall|j: int|
                0 <= j < c.len() ==> s.contains(#[trigger] c[j])),
    decreases n,
{
    if n == 1 {
        let c = seq![a];
        assert(is_chain(m, c));
    } else {
        lemma_waiting_chain(m, s, a, (n - 1) as nat);
        let c = choose|c: Seq<Seq<char>>|
            c.len() == n - 1 && c[0] == a && #[trigger] is_chain(m, c) && (forall|j: int|
                0 <= j < c.len() ==> s.contains(#[trigger] c[j]));
        assert(s.contains(c[c.len() - 1]));
        assert(awaits(m, s, c.last()));
        let b = choose|b: Seq<char>| #[trigger] needs(m, c.last(), b) && s.contains(b);
        let d = c.push(b);
        assert forall|j: int| 0 <= j < d.len() - 1 implies needs(m, #[trigger] d[j], d[j + 1]) by {
            if j < c.len() - 1 {
                assert(needs(m, c[j], c[j + 1]));
            }
        }
        assert(is_chain(m, d));
    }
}

/// A list longer than the names of the plan repeats one.
proof fn lemma_repeats(
    names: Seq<Seq<char>>,
    m: Map<Seq<char>, Seq<Seq<char>>>,
    s: Set<Seq<char>>,
    c: Seq<Seq<char>>,
)
    requires
        forall|a: Seq<char>| #[trigger] m.contains_key(a) <==> names.contains(a),
        waiting(m, s),
        c.len() == names.len() + 1,
        forall|j: int| 0 <= j < c.len() ==> s.contains(#[trigger] c[j]),
    ensures
        exists|p: int, q: int| 0 <= p < q < c.len() && #[trigger] c[p] == #[trigger] c[q],
{
    if c.no_duplicates() {
        let set = c.to_set();
        c.unique_seq_to_set();
        names.lemma_cardinality_of_set();
        assert(set.subset_of(names.to_set())) by {
            assert forall|a: Seq<char>| set.contains(a) implies names.to_set().contains(a) by {
                let j = c.index_of(a);
                assert(s.contains(c[j]));
                assert(awaits(m, s, c[j]));
                let b = choose|b: Seq<char>| #[trigger] needs(m, c[j], b) && s.contains(b);
                assert(m.contains_key(c[j]));
            }
        }
        vstd::set_lib::lemma_len_subset(set, names.to_set());
    }
}

// ---------------------------------------------------------------------------------------------
// Sorting
// ---------------------------------------------------------------------------------------------

/// The views of lists of strings.
pub open spec fn list_views(lists: Seq<Vec<String>>) -> Seq<Seq<Seq<char>>> {
    Seq::new(lists.len(), |i: int| views(lists[i]@))
}

/// A name that needs what is missing.
pub struct Missing {
    /// The number of the name.
    pub at: usize,
    /// What is missing.
    pub needed: String,
}

/// The place of a name in a list.
fn place_of(names: &Vec<String>, name: &str) -> (r: Option<usize>)
    ensures
        match r {
            Some(i) => i < names@.len() && names@[i as int]@ == name@,
            None => !views(names@).contains(name@),
        },
{
    let mut i: usize = 0;
    while i < names.len()
        invariant
            i <= names@.len(),
            forall|j: int| 0 <= j < i ==> #[trigger] names@[j]@ != name@,
        decreases names@.len() - i,
    {
        if same(names[i].as_str(), name) {
            return Some(i);
        }
        i += 1;
    }
    assert forall|j: int| 0 <= j < names@.len() implies views(names@)[j] != name@ by {
        assert(names@[j]@ != name@);
    }
    None
}

/// The places of the names of one list, or a name that has none.
fn number_list(names: &Vec<String>, list: &Vec<String>) -> (r: Result<Vec<usize>, String>)
    ensures
        match r {
            Ok(g) => g@.len() == list@.len() && forall|j: int|
                0 <= j < g@.len() ==> (#[trigger] g@[j]) < names@.len() && names@[g@[j] as int]@
                    == list@[j]@,
            Err(b) => views(list@).contains(b@) && !views(names@).contains(b@),
        },
{
    let mut g: Vec<usize> = Vec::new();
    let mut j: usize = 0;
    while j < list.len()
        invariant
            j <= list@.len(),
            g@.len() == j,
            forall|k: int|
                0 <= k < j ==> (#[trigger] g@[k]) < names@.len() && names@[g@[k] as int]@
                    == list@[k]@,
        decreases list@.len() - j,
    {
        match place_of(names, list[j].as_str()) {
            Some(i) => {
                g.push(i);
            },
            None => {
                assert(views(list@)[j as int] == list@[j as int]@);
                return Err(list[j].clone());
            },
        }
        j += 1;
    }
    Ok(g)
}

/// The graph of a plan, or a name that needs what is missing.
fn number_lists(names: &Vec<String>, lists: &Vec<Vec<String>>) -> (r: Result<
    Vec<Vec<usize>>,
    Missing,
>)
    requires
        names@.len() == lists@.len(),
        views(names@).no_duplicates(),
    ensures
        match r {
            Ok(g) => numbered(
                views(names@),
                plan(views(names@), list_views(lists@)),
                g@,
            ),
            Err(e) => e.at < names@.len() && lacks(
                plan(views(names@), list_views(lists@)),
                names@[e.at as int]@,
                e.needed@,
            ),
        },
{
    let ghost keys = views(names@);
    let ghost m = plan(keys, list_views(lists@));
    let mut g: Vec<Vec<usize>> = Vec::new();
    let n: usize = names.len();
    let mut i: usize = 0;
    assert forall|k: int| 0 <= k < keys.len() implies m.contains_key(#[trigger] keys[k]) && m[keys[k]]
        == views(lists@[k]@) by {
        assert(keys.index_of(keys[k]) == k);
    }
    while i < n
        invariant
            i <= n,
            n == names@.len(),
            names@.len() == lists@.len(),
            keys == views(names@),
            keys.no_duplicates(),
            m == plan(keys, list_views(lists@)),
            forall|k: int|
                0 <= k < keys.len() ==> m.contains_key(#[trigger] keys[k]) && m[keys[k]] == views(
                    lists@[k]@,
                ),
            g@.len() == i,
            forall|k: int| 0 <= k < i ==> m[#[trigger] keys[k]].len() == g@[k]@.len(),
            forall|k: int, j: int|
                0 <= k < i && 0 <= j < g@[k]@.len() ==> (#[trigger] g@[k]@[j]) < keys.len()
                    && keys[g@[k]@[j] as int] == m[keys[k]][j],
        decreases n - i,
    {
        let ghost before = g@;
        match number_list(names, &lists[i]) {
            Ok(list) => {
                assert(m[keys[i as int]] == views(lists@[i as int]@));
                g.push(list);
                assert forall|k: int, j: int| 0 <= k < i + 1 && 0 <= j < g@[k]@.len() implies (
                #[trigger] g@[k]@[j]) < keys.len() && keys[g@[k]@[j] as int] == m[keys[k]][j] by {
                    if k < i {
                        assert(g@[k] == before[k]);
                        assert(before[k]@[j] < keys.len());
                    } else {
                        assert(list@[j] < names@.len());
                        assert(names@[list@[j] as int]@ == lists@[i as int]@[j]@);
                    }
                }
                assert forall|k: int| 0 <= k < i + 1 implies m[#[trigger] keys[k]].len()
                    == g@[k]@.len() by {
                    if k < i {
                        assert(g@[k] == before[k]);
                    }
                }
            },
            Err(b) => {
                assert(m.contains_key(keys[i as int]));
                assert(needs(m, keys[i as int], b@));
                return Err(Missing { at: i, needed: b });
            },
        }
        i += 1;
    }
    Ok(g)
}

/// What goes wrong when names are ordered.
pub enum OrderFault {
    /// A name needs what is missing.
    Missing { name: String, needed: String },
    /// These names wait for each other.
    Cycle { names: Vec<String> },
}

/// The names at the given places.
pub open spec fn names_at(names: Seq<Seq<char>>, places: Seq<usize>) -> Seq<Seq<char>> {
    Seq::new(places.len(), |p: int| names[places[p] as int])
}

fn pick(names: &Vec<String>, places: &Vec<usize>) -> (r: Vec<String>)
    requires
        forall|p: int| 0 <= p < places@.len() ==> (#[trigger] places@[p]) < names@.len(),
    ensures
        views(r@) == names_at(views(names@), places@),
{
    let mut out: Vec<String> = Vec::new();
    let mut p: usize = 0;
    while p < places.len()
        invariant
            p <= places@.len(),
            out@.len() == p,
            forall|k: int| 0 <= k < places@.len() ==> (#[trigger] places@[k]) < names@.len(),
            forall|k: int| 0 <= k < p ==> (#[trigger] out@[k])@ == names@[places@[k] as int]@,
        decreases places@.len() - p,
    {
        out.push(names[places[p]].clone());
        p += 1;
    }
    assert(views(out@) == names_at(views(names@), places@));
    out
}

/// A complete sort of the graph is an order of the plan.
proof fn lemma_sorted_is_order(
    names: Seq<Seq<char>>,
    m: Map<Seq<char>, Seq<Seq<char>>>,
    g: Seq<Vec<usize>>,
    order: Seq<usize>,
)
    requires
        numbered(names, m, g),
        order.no_duplicates(),
        forall|j: int| 0 <= j < order.len() ==> #[trigger] order[j] < g.len(),
        forall|i: int| 0 <= i < g.len() ==> #[trigger] listed(order, i),
        dependencies_first(g, order),
    ensures
        is_order(m, names_at(names, order)),
{
    let r = names_at(names, order);
    assert forall|p: int, q: int| 0 <= p < r.len() && 0 <= q < r.len() && p != q implies r[p] != r[q] by {
        assert(order[p] < g.len() && order[q] < g.len());
        assert(order[p] != order[q]);
    }
    assert forall|a: Seq<char>| #[trigger] r.contains(a) <==> m.contains_key(a) by {
        if r.contains(a) {
            let p = r.index_of(a);
            assert(order[p] < g.len());
            assert(names.contains(a));
        }
        if m.contains_key(a) {
            let i = names.index_of(a);
            assert(listed(order, i));
            let p = order.index_of(i as usize);
            assert(r[p] == a);
        }
    }
    assert forall|p: int, b: Seq<char>|
        0 <= p < r.len() && #[trigger] needs(m, r[p], b) implies exists|q: int|
        0 <= q < p && r[q] == b by {
        lemma_numbered_complete(names, m, g);
        assert(m.contains_key(b));
        let d = names.index_of(b);
        assert(order[p] < g.len());
        lemma_edge_needs(names, m, g, order[p] as int, d);
        assert(edge(g, order[p] as int, d));
        let q = choose|q: int| 0 <= q < p && order[q] as int == d;
        assert(r[q] == b);
    }
}

/// The nodes that can come next are those whose names can follow.
proof fn lemma_last_names_first(
    strings: Seq<String>,
    m: Map<Seq<char>, Seq<Seq<char>>>,
    g: Seq<Vec<usize>>,
    order: Seq<usize>,
)
    requires
        numbered(views(strings), m, g),
        forall|j: int| 0 <= j < order.len() ==> #[trigger] order[j] < g.len(),
        greatest_first(g, strings, order),
    ensures
        last_names_first(m, names_at(views(strings), order)),
{
    let names = views(strings);
    let r = names_at(names, order);
    assert forall|p: int, a: Seq<char>|
        0 <= p < r.len() && #[trigger] can_follow(m, r.take(p), a) implies a == r[p] || precedes(
        a,
        r[p],
    ) by {
        let i = names.index_of(a);
        let before = order.take(p);
        assert(names[i] == a);
        assert(!listed(before, i)) by {
            if listed(before, i) {
                let q = before.index_of(i as usize);
                assert(r.take(p)[q] == a);
            }
        }
        assert forall|d: int| #[trigger] edge(g, i, d) implies listed(before, d) by {
            lemma_edge_needs(names, m, g, i, d);
            assert(needs(m, a, names[d]));
            let q = r.take(p).index_of(names[d]);
            assert(r.take(p)[q] == names[order[q] as int]);
            assert(order[q] < g.len());
            assert(order[q] == d);
            assert(before[q] == d as usize);
        }
        assert(ready(g, before, i));
        assert(order[p] < g.len());
        assert(strings[i]@ == a);
        assert(strings[order[p] as int]@ == r[p]);
    }
}

/// The names that are stuck, in the order of the list.
pub open spec fn stuck_names(
    names: Seq<Seq<char>>,
    m: Map<Seq<char>, Seq<Seq<char>>>,
) -> Seq<Seq<char>>
    decreases names.len(),
{
    if names.len() == 0 {
        seq![]
    } else {
        let rest = stuck_names(names.drop_last(), m);
        if stuck(m, names.last()) {
            rest.push(names.last())
        } else {
            rest
        }
    }
}

/// Where nothing is stuck the list of stuck names is empty.
proof fn lemma_stuck_names(names: Seq<Seq<char>>, m: Map<Seq<char>, Seq<Seq<char>>>)
    ensures
        stuck_names(names, m).len() == 0 <==> forall|i: int|
            0 <= i < names.len() ==> !stuck(m, #[trigger] names[i]),
    decreases names.len(),
{
    if names.len() > 0 {
        let front = names.drop_last();
        lemma_stuck_names(front, m);
        if stuck_names(names, m).len() == 0 {
            assert forall|i: int| 0 <= i < names.len() implies !stuck(m, #[trigger] names[i]) by {
                if i < front.len() {
                    assert(front[i] == names[i]);
                }
            }
        }
        if forall|i: int| 0 <= i < names.len() ==> !stuck(m, #[trigger] names[i]) {
            assert forall|i: int| 0 <= i < front.len() implies !stuck(m, #[trigger] front[i]) by {
                assert(front[i] == names[i]);
            }
            assert(names.last() == names[names.len() - 1]);
        }
    }
}

/// Whether a place is listed.
fn has_place(order: &Vec<usize>, i: usize) -> (r: bool)
    ensures
        r == listed(order@, i as int),
{
    let mut k: usize = 0;
    while k < order.len()
        invariant
            k <= order@.len(),
            forall|j: int| 0 <= j < k ==> #[trigger] order@[j] != i,
        decreases order@.len() - k,
    {
        if order[k] == i {
            return true;
        }
        k += 1;
    }
    false
}

/// The names of a plan, each after the names that it needs; of those that can come at a place
/// the last by name does.
pub fn sort_names(names: &Vec<String>, lists: &Vec<Vec<String>>) -> (r: Result<
    Vec<String>,
    OrderFault,
>)
    requires
        names@.len() == lists@.len(),
        views(names@).no_duplicates(),
    ensures
        ({
            let m = plan(views(names@), list_views(lists@));
            match r {
                Ok(order) => complete(m) && !circular(m) && is_order(m, views(order@))
                    && last_names_first(m, views(order@)),
                Err(OrderFault::Missing { name, needed }) => lacks(m, name@, needed@),
                Err(OrderFault::Cycle { names: left }) => complete(m) && circular(m) && views(left@)
                    == stuck_names(views(names@), m),
            }
        }),
{
    let ghost keys = views(names@);
    let ghost m = plan(keys, list_views(lists@));
    let g = match number_lists(names, lists) {
        Ok(g) => g,
        Err(e) => {
            return Err(OrderFault::Missing { name: names[e.at].clone(), needed: e.needed });
        },
    };
    proof {
        lemma_numbered_complete(keys, m, g@);
        lemma_cyclic_circular(keys, m, g@);
        lemma_cyclic_iff_blocked(g@);
    }
    let order = sort_nodes(&g, names);
    proof {
        lemma_left_out_iff_stuck(keys, m, g@, order@);
    }
    let mut left: Vec<String> = Vec::new();
    let n: usize = names.len();
    let mut i: usize = 0;
    assert(views(left@) == Seq::<Seq<char>>::empty());
    while i < n
        invariant
            i <= n,
            n == names@.len(),
            keys == views(names@),
            forall|k: int|
                0 <= k < keys.len() ==> (#[trigger] listed(order@, k) <==> !stuck(m, keys[k])),
            views(left@) == stuck_names(keys.take(i as int), m),
        decreases n - i,
    {
        let ghost before = views(left@);
        proof {
            assert(keys.take(i + 1).drop_last() == keys.take(i as int));
            assert(keys.take(i + 1).last() == names@[i as int]@);
        }
        if !has_place(&order, i) {
            left.push(names[i].clone());
            assert(views(left@) == before.push(names@[i as int]@));
        }
        i += 1;
    }
    assert(keys.take(i as int) == keys);
    proof {
        lemma_stuck_names(keys, m);
        assert(views(left@).len() == left@.len());
    }
    if left.len() > 0 {
        proof {
            let k = choose|k: int| 0 <= k < keys.len() && stuck(m, #[trigger] keys[k]);
            lemma_blocked_stuck(keys, m, g@, k);
            assert(blocked(g@, k));
        }
        return Err(OrderFault::Cycle { names: left });
    }
    proof {
        assert forall|k: int| 0 <= k < g@.len() implies #[trigger] listed(order@, k) by {
            assert(!stuck(m, keys[k]));
        }
        if circular(m) {
            let k = choose|k: int| #[trigger] blocked(g@, k);
            let s = choose|s: Set<int>| #[trigger] waits_within(g@, s) && s.contains(k);
            assert(!stuck(m, keys[k]));
            lemma_blocked_stuck(keys, m, g@, k);
        }
        lemma_sorted_is_order(keys, m, g@, order@);
        lemma_last_names_first(names@, m, g@, order@);
    }
    Ok(pick(names, &order))
}

// ---------------------------------------------------------------------------------------------
// Levels
// ---------------------------------------------------------------------------------------------

/// The levels of the names, from the levels of the nodes.
spec fn name_levels(names: Seq<Seq<char>>, lv: Seq<usize>) -> Map<Seq<char>, nat> {
    Map::new(|a: Seq<char>| names.contains(a), |a: Seq<char>| lv[names.index_of(a)] as nat)
}

proof fn lemma_level_of_name(
    names: Seq<Seq<char>>,
    m: Map<Seq<char>, Seq<Seq<char>>>,
    g: Seq<Vec<usize>>,
    lv: Seq<usize>,
    i: int,
)
    requires
        numbered(names, m, g),
        is_leveling(g, lv),
        0 <= i < names.len(),
    ensures
        level_fits(m, name_levels(names, lv), names[i]),
{
    let a = names[i];
    let levels = name_levels(names, lv);
    let f = |d: int|
        if 0 <= d < lv.len() {
            Some(lv[d])
        } else {
            None
        };
    assert(names.index_of(a) == i);
    assert(levels[a] == lv[i] as nat);
    assert(level_right(g[i]@, f, lv[i]));
    assert(m[names[i]].len() == g[i]@.len());
    if m[a].len() > 0 {
        assert forall|b: Seq<char>| #[trigger] needs(m, a, b) implies levels[b] < levels[a] by {
            let j = m[a].index_of(b);
            assert(names[g[i]@[j] as int] == b);
            let d = g[i]@[j] as int;
            assert(names.index_of(names[d]) == d);
            assert(f(d) matches Some(k) && k < lv[i]);
        }
        let j = choose|j: int|
            0 <= j < g[i]@.len() && (f(#[trigger] g[i]@[j] as int) matches Some(k) && k + 1 == lv[i]);
        let d = g[i]@[j] as int;
        assert(names[d] == m[a][j]);
        assert(names.index_of(names[d]) == d);
        assert(needs(m, a, names[d]));
    }
}

/// A leveling of the graph is a level map of the plan.
proof fn lemma_leveling_map(
    names: Seq<Seq<char>>,
    m: Map<Seq<char>, Seq<Seq<char>>>,
    g: Seq<Vec<usize>>,
    lv: Seq<usize>,
)
    requires
        numbered(names, m, g),
        is_leveling(g, lv),
    ensures
        is_level_map(m, name_levels(names, lv)),
{
    let levels = name_levels(names, lv);
    assert(levels.dom() =~= m.dom()) by {
        assert forall|a: Seq<char>| levels.dom().contains(a) <==> m.dom().contains(a) by {
            assert(m.contains_key(a) <==> names.contains(a));
        }
    }
    assert forall|a: Seq<char>| m.contains_key(a) implies #[trigger] level_fits(m, levels, a) by {
        let i = names.index_of(a);
        lemma_level_of_name(names, m, g, lv, i);
    }
}

/// The groups of the nodes are the groups of the names.
proof fn lemma_groups_of_names(
    strings: Seq<String>,
    g: Seq<Vec<usize>>,
    lv: Seq<usize>,
    groups: Seq<Vec<usize>>,
    out: Seq<Seq<Seq<char>>>,
)
    requires
        views(strings).no_duplicates(),
        strings.len() == g.len(),
        g.len() <= usize::MAX,
        lv.len() == g.len(),
        groups_by_level(g, strings, lv, groups),
        out.len() == groups.len(),
        forall|l: int| 0 <= l < out.len() ==> #[trigger] out[l] == names_at(views(strings), groups[l]@),
    ensures
        is_grouped(name_levels(views(strings), lv), out),
{
    let names = views(strings);
    let levels = name_levels(names, lv);
    assert forall|i: int| 0 <= i < names.len() implies levels.contains_key(#[trigger] names[i])
        && levels[names[i]] == lv[i] as nat by {
        assert(names.index_of(names[i]) == i);
    }
    assert forall|l: int, a: Seq<char>| 0 <= l < out.len() implies (#[trigger] out[l].contains(a)
        <==> levels.contains_key(a) && levels[a] == l) by {
        assert(out[l] == names_at(names, groups[l]@));
        if out[l].contains(a) {
            let p = out[l].index_of(a);
            let i = groups[l]@[p];
            assert(groups[l]@.contains(i));
            assert(names[i as int] == a);
        }
        if levels.contains_key(a) && levels[a] == l {
            let i = names.index_of(a);
            assert(names[i] == a);
            assert(groups[l]@.contains(i as usize));
            let p = groups[l]@.index_of(i as usize);
            assert(out[l][p] == a);
        }
    }
    assert forall|a: Seq<char>| #[trigger] levels.contains_key(a) implies levels[a] < out.len() by {
        let i = names.index_of(a);
        assert(names[i] == a);
        assert(lv[i] < groups.len());
    }
    assert forall|l: int, i: int, j: int|
        0 <= l < out.len() && 0 <= i < j < out[l].len() implies precedes(
        #[trigger] out[l][i],
        #[trigger] out[l][j],
    ) by {
        assert(out[l] == names_at(names, groups[l]@));
        assert(ascending(strings, groups[l]@));
        assert(groups[l]@.contains(groups[l]@[i]));
        assert(groups[l]@.contains(groups[l]@[j]));
    }
    if out.len() > 1 {
        assert(g.len() > 0);
        let i = choose|i: int| 0 <= i < lv.len() && #[trigger] lv[i] + 1 == groups.len();
        let l = out.len() - 1;
        assert(groups[l]@.contains(i as usize));
        assert(out[l] == names_at(names, groups[l]@));
    }
}

/// The names of a plan by level.
pub fn group_names(names: &Vec<String>, lists: &Vec<Vec<String>>) -> (r: Result<
    Vec<Vec<String>>,
    OrderFault,
>)
    requires
        names@.len() == lists@.len(),
        views(names@).no_duplicates(),
    ensures
        ({
            let m = plan(views(names@), list_views(lists@));
            match r {
                Ok(groups) => complete(m) && !circular(m) && exists|lv: Map<Seq<char>, nat>| #[trigger]
                    is_level_map(m, lv) && is_grouped(lv, list_views(groups@)),
                Err(OrderFault::Missing { name, needed }) => lacks(m, name@, needed@),
                Err(OrderFault::Cycle { names: left }) => complete(m) && left@.len() == 1 && on_ring(
                    m,
                    left@[0]@,
                ),
            }
        }),
{
    let ghost keys = views(names@);
    let ghost m = plan(keys, list_views(lists@));
    let g = match number_lists(names, lists) {
        Ok(g) => g,
        Err(e) => {
            return Err(OrderFault::Missing { name: names[e.at].clone(), needed: e.needed });
        },
    };
    proof {
        lemma_numbered_complete(keys, m, g@);
    }
    let groups = match group_nodes(&g, names) {
        Ok(groups) => groups,
        Err(c) => {
            proof {
                let cycle = choose|w: Seq<int>| #[trigger] is_cycle(g@, w) && w[0] == c as int;
                lemma_cycle_ring(keys, m, g@, cycle);
                let ring = Seq::new(cycle.len(), |k: int| keys[cycle[k]]);
                assert(is_ring(m, ring) && ring[0] == keys[c as int]);
            }
            let mut left: Vec<String> = Vec::new();
            left.push(names[c].clone());
            return Err(OrderFault::Cycle { names: left });
        },
    };
    let ghost lv = choose|lv: Seq<usize>| #[trigger]
        is_leveling(g@, lv) && groups_by_level(g@, names@, lv, groups@);
    proof {
        lemma_leveled_acyclic(g@, lv);
        lemma_cyclic_circular(keys, m, g@);
        lemma_leveling_map(keys, m, g@, lv);
    }
    let mut out: Vec<Vec<String>> = Vec::new();
    let mut l: usize = 0;
    while l < groups.len()
        invariant
            l <= groups@.len(),
            out@.len() == l,
            keys == views(names@),
            names@.len() == g@.len(),
            lv.len() == g@.len(),
            groups_by_level(g@, names@, lv, groups@),
            forall|k: int| 0 <= k < l ==> views((#[trigger] out@[k])@) == names_at(keys, groups@[k]@),
        decreases groups@.len() - l,
    {
        assert forall|p: int| 0 <= p < groups@[l as int]@.len() implies (
        #[trigger] groups@[l as int]@[p]) < names@.len() by {
            assert(groups@[l as int]@.contains(groups@[l as int]@[p]));
        }
        out.push(pick(names, &groups[l]));
        l += 1;
    }
    proof {
        lemma_groups_of_names(names@, g@, lv, groups@, list_views(out@));
    }
    Ok(out)
}

/// A name has one level only.
pub proof fn law_levels_unique(
    m: Map<Seq<char>, Seq<Seq<char>>>,
    one: Map<Seq<char>, nat>,
    two: Map<Seq<char>, nat>,
    a: Seq<char>,
)
    requires
        complete(m),
        is_level_map(m, one),
        is_level_map(m, two),
        m.contains_key(a),
    ensures
        one[a] == two[a],
    decreases one[a],
{
    assert(level_fits(m, one, a) && level_fits(m, two, a));
    if m[a].len() > 0 {
        let b = choose|b: Seq<char>| #[trigger] needs(m, a, b) && one[b] + 1 == one[a];
        let c = choose|c: Seq<char>| #[trigger] needs(m, a, c) && two[c] + 1 == two[a];
        law_levels_unique(m, one, two, b);
        assert(one[c] < one[a]);
        law_levels_unique(m, one, two, c);
        assert(two[b] < two[a]);
    }
}

/// What a name needs stands in an earlier group.
pub proof fn law_needs_in_earlier_group(
    m: Map<Seq<char>, Seq<Seq<char>>>,
    lv: Map<Seq<char>, nat>,
    groups: Seq<Seq<Seq<char>>>,
    l: int,
    a: Seq<char>,
    b: Seq<char>,
)
    requires
        complete(m),
        is_level_map(m, lv),
        is_grouped(lv, groups),
        0 <= l < groups.len(),
        groups[l].contains(a),
        needs(m, a, b),
    ensures
        exists|k: int| 0 <= k < l && #[trigger] groups[k].contains(b),
{
    assert(lv.contains_key(a) && lv[a] == l);
    assert(m.contains_key(a));
    assert(m[a].len() > 0);
    assert(level_fits(m, lv, a));
    assert(lv[b] < lv[a]);
    assert(m.contains_key(b));
    assert(lv.contains_key(b));
    assert(groups[lv[b] as int].contains(b));
}

// ---------------------------------------------------------------------------------------------
// What a name needs in the end
// ---------------------------------------------------------------------------------------------

/// Whether the list leads from `a` to `b`.
pub open spec fn leads(
    m: Map<Seq<char>, Seq<Seq<char>>>,
    c: Seq<Seq<char>>,
    a: Seq<char>,
    b: Seq<char>,
) -> bool {
    c.len() > 0 && c[0] == a && c.last() == b && is_chain(m, c)
}

/// Whether `a` is `b` or needs it, directly or through others.
pub open spec fn reaches(m: Map<Seq<char>, Seq<Seq<char>>>, a: Seq<char>, b: Seq<char>) -> bool {
    exists|c: Seq<Seq<char>>| #[trigger] leads(m, c, a, b)
}

/// The plan for `a` alone: `a` and what it needs in the end.
pub open spec fn plan_for(m: Map<Seq<char>, Seq<Seq<char>>>, a: Seq<char>) -> Map<
    Seq<char>,
    Seq<Seq<char>>,
> {
    m.restrict(Set::new(|b: Seq<char>| reaches(m, a, b)))
}

/// The names of a list that `a` needs in the end.
pub open spec fn reached_names(
    names: Seq<Seq<char>>,
    m: Map<Seq<char>, Seq<Seq<char>>>,
    a: Seq<char>,
) -> Seq<Seq<char>>
    decreases names.len(),
{
    if names.len() == 0 {
        seq![]
    } else {
        let rest = reached_names(names.drop_last(), m, a);
        if reaches(m, a, names.last()) {
            rest.push(names.last())
        } else {
            rest
        }
    }
}

/// A name reaches itself.
pub proof fn lemma_reaches_self(m: Map<Seq<char>, Seq<Seq<char>>>, a: Seq<char>)
    ensures
        reaches(m, a, a),
{
    assert(leads(m, seq![a], a, a));
}

/// What a reached name needs is reached.
pub proof fn lemma_reaches_step(
    m: Map<Seq<char>, Seq<Seq<char>>>,
    a: Seq<char>,
    b: Seq<char>,
    d: Seq<char>,
)
    requires
        reaches(m, a, b),
        needs(m, b, d),
    ensures
        reaches(m, a, d),
{
    let c = choose|c: Seq<Seq<char>>| #[trigger] leads(m, c, a, b);
    let e = c.push(d);
    assert forall|j: int| 0 <= j < e.len() - 1 implies needs(m, #[trigger] e[j], e[j + 1]) by {
        if j < c.len() - 1 {
            assert(needs(m, c[j], c[j + 1]));
        } else {
            assert(c[j] == c.last());
        }
    }
    assert(leads(m, e, a, d));
}

/// A set that holds `a` and all that its members need holds what `a` reaches.
proof fn lemma_closed_holds_reached(
    m: Map<Seq<char>, Seq<Seq<char>>>,
    s: Seq<Seq<char>>,
    c: Seq<Seq<char>>,
    k: int,
)
    requires
        is_chain(m, c),
        0 <= k < c.len(),
        s.contains(c[0]),
        forall|x: Seq<char>, y: Seq<char>| s.contains(x) && #[trigger] needs(m, x, y) ==> s.contains(y),
    ensures
        s.contains(c[k]),
    decreases k,
{
    if k > 0 {
        lemma_closed_holds_reached(m, s, c, k - 1);
        assert(needs(m, c[k - 1], c[k - 1 + 1]));
    }
}

/// Whether the names of the list are reached from `a`, without repetition.
spec fn gathered(m: Map<Seq<char>, Seq<Seq<char>>>, a: Seq<char>, found: Seq<Seq<char>>) -> bool {
    &&& found.no_duplicates()
    &&& found.contains(a)
    &&& forall|j: int|
        0 <= j < found.len() ==> m.contains_key(#[trigger] found[j]) && reaches(m, a, found[j])
}

/// Puts the places of the names that are not listed yet at the end of the list.
fn gather_list(
    names: &Vec<String>,
    lists: &Vec<Vec<String>>,
    a: &str,
    at: usize,
    found: &mut Vec<usize>,
) -> (r: Result<(), String>)
    requires
        names@.len() == lists@.len(),
        views(names@).no_duplicates(),
        at < names@.len(),
        forall|j: int| 0 <= j < old(found)@.len() ==> (#[trigger] old(found)@[j]) < names@.len(),
        gathered(
            plan(views(names@), list_views(lists@)),
            a@,
            names_at(views(names@), old(found)@),
        ),
        reaches(plan(views(names@), list_views(lists@)), a@, names@[at as int]@),
    ensures
        ({
            let m = plan(views(names@), list_views(lists@));
            match r {
                Ok(_) => {
                    &&& forall|j: int|
                        0 <= j < final(found)@.len() ==> (#[trigger] final(found)@[j])
                            < names@.len()
                    &&& gathered(m, a@, names_at(views(names@), final(found)@))
                    &&& old(found)@.is_prefix_of(final(found)@)
                    &&& forall|b: Seq<char>| #[trigger]
                        needs(m, names@[at as int]@, b) ==> names_at(
                            views(names@),
                            final(found)@,
                        ).contains(b)
                },
                Err(b) => lacks(m, names@[at as int]@, b@),
            }
        }),
{
    let ghost keys = views(names@);
    let ghost m = plan(keys, list_views(lists@));
    let ghost start = found@;
    let list = &lists[at];
    assert(keys.index_of(keys[at as int]) == at);
    assert(m[keys[at as int]] == views(list@));
    let mut j: usize = 0;
    while j < list.len()
        invariant
            j <= list@.len(),
            at < names@.len(),
            keys == views(names@),
            keys.no_duplicates(),
            m == plan(keys, list_views(lists@)),
            m.contains_key(keys[at as int]),
            m[keys[at as int]] == views(list@),
            reaches(m, a@, keys[at as int]),
            start == old(found)@,
            start.is_prefix_of(found@),
            forall|k: int| 0 <= k < found@.len() ==> (#[trigger] found@[k]) < names@.len(),
            gathered(m, a@, names_at(keys, found@)),
            forall|k: int| 0 <= k < j ==> names_at(keys, found@).contains(#[trigger] list@[k]@),
        decreases list@.len() - j,
    {
        let ghost before = found@;
        let ghost b = list@[j as int]@;
        assert(views(list@)[j as int] == b);
        assert(needs(m, keys[at as int], b));
        match place_of(names, list[j].as_str()) {
            Some(i) => {
                if !has_place(found, i) {
                    found.push(i);
                    proof {
                        lemma_reaches_step(m, a@, keys[at as int], b);
                        let was = names_at(keys, before);
                        let now = names_at(keys, found@);
                        assert(now == was.push(b));
                        assert(keys[i as int] == b);
                        if was.contains(b) {
                            let k = was.index_of(b);
                            assert(keys[before[k] as int] == keys[i as int]);
                            assert(before.contains(i));
                        }
                        assert(keys.contains(b));
                        assert forall|x: Seq<char>| was.contains(x) implies now.contains(x) by {
                            assert(now[was.index_of(x)] == x);
                        }
                        assert(now[was.len() as int] == b);
                        assert forall|k: int| 0 <= k < now.len() implies m.contains_key(
                            #[trigger] now[k],
                        ) && reaches(m, a@, now[k]) by {
                            if k < was.len() {
                                assert(now[k] == was[k]);
                            }
                        }
                    }
                } else {
                    proof {
                        let k = found@.index_of(i);
                        assert(names_at(keys, found@)[k] == b);
                    }
                }
            },
            None => {
                return Err(list[j].clone());
            },
        }
        j += 1;
    }
    assert forall|b: Seq<char>| #[trigger] needs(m, keys[at as int], b) implies names_at(
        keys,
        found@,
    ).contains(b) by {
        let k = views(list@).index_of(b);
        assert(list@[k]@ == b);
    }
    Ok(())
}

/// The places of `a` and of all that it needs in the end.
fn gather(names: &Vec<String>, lists: &Vec<Vec<String>>, a: &str, from: usize) -> (r: Result<
    Vec<usize>,
    Missing,
>)
    requires
        names@.len() == lists@.len(),
        views(names@).no_duplicates(),
        from < names@.len(),
        names@[from as int]@ == a@,
    ensures
        ({
            let m = plan(views(names@), list_views(lists@));
            match r {
                Ok(found) => forall|i: int|
                    0 <= i < names@.len() ==> (#[trigger] listed(found@, i) <==> reaches(
                        m,
                        a@,
                        names@[i]@,
                    )),
                Err(e) => e.at < names@.len() && reaches(m, a@, names@[e.at as int]@) && lacks(
                    m,
                    names@[e.at as int]@,
                    e.needed@,
                ),
            }
        }),
{
    let ghost keys = views(names@);
    let ghost m = plan(keys, list_views(lists@));
    let mut found: Vec<usize> = Vec::new();
    found.push(from);
    proof {
        assert(keys[from as int] == a@);
        assert(keys.contains(a@));
        lemma_reaches_self(m, a@);
        assert(names_at(keys, found@) == seq![a@]);
        assert(names_at(keys, found@)[0] == a@);
    }
    let n: usize = names.len();
    let mut i: usize = 0;
    while i < found.len()
        invariant
            i <= found@.len(),
            n == names@.len(),
            names@.len() == lists@.len(),
            keys == views(names@),
            keys.no_duplicates(),
            m == plan(keys, list_views(lists@)),
            forall|k: int| 0 <= k < found@.len() ==> (#[trigger] found@[k]) < names@.len(),
            gathered(m, a@, names_at(keys, found@)),
            forall|k: int, b: Seq<char>|
                0 <= k < i && #[trigger] needs(m, keys[found@[k] as int], b) ==> names_at(
                    keys,
                    found@,
                ).contains(b),
        decreases n - i,
    {
        let ghost before = found@;
        let at: usize = found[i];
        proof {
            assert(names_at(keys, found@)[i as int] == keys[at as int]);
            lemma_distinct_places(keys, found@);
        }
        match gather_list(names, lists, a, at, &mut found) {
            Ok(_) => {},
            Err(b) => {
                return Err(Missing { at, needed: b });
            },
        }
        proof {
            let was = names_at(keys, before);
            let now = names_at(keys, found@);
            assert forall|k: int, b: Seq<char>|
                0 <= k < i + 1 && #[trigger] needs(m, keys[found@[k] as int], b) implies now.contains(
                b,
            ) by {
                assert(found@[k] == before[k]);
                if k < i {
                    assert(was.contains(b));
                    let q = was.index_of(b);
                    assert(found@[q] == before[q]);
                    assert(now[q] == b);
                }
            }
        }
        i += 1;
    }
    proof {
        let now = names_at(keys, found@);
        assert forall|x: Seq<char>, y: Seq<char>| now.contains(x) && #[trigger] needs(m, x, y) implies now.contains(
            y,
        ) by {
            let k = now.index_of(x);
            assert(needs(m, keys[found@[k] as int], y));
        }
        assert forall|p: int| 0 <= p < names@.len() implies (#[trigger] listed(found@, p)
            <==> reaches(m, a@, keys[p])) by {
            if listed(found@, p) {
                let k = found@.index_of(p as usize);
                assert(now[k] == keys[p]);
            }
            if reaches(m, a@, keys[p]) {
                let c = choose|c: Seq<Seq<char>>| #[trigger] leads(m, c, a@, keys[p]);
                lemma_closed_holds_reached(m, now, c, c.len() - 1);
                let k = now.index_of(keys[p]);
                assert(keys[found@[k] as int] == keys[p]);
                assert(found@[k] == p);
            }
        }
        assert forall|p: int| 0 <= p < names@.len() implies (#[trigger] listed(found@, p)
            <==> reaches(m, a@, names@[p]@)) by {
            assert(keys[p] == names@[p]@);
        }
    }
    Ok(found)
}

/// There are at most as many places as names.
proof fn lemma_distinct_places(keys: Seq<Seq<char>>, found: Seq<usize>)
    requires
        forall|k: int| 0 <= k < found.len() ==> (#[trigger] found[k]) < keys.len(),
        names_at(keys, found).no_duplicates(),
    ensures
        found.len() <= keys.len(),
{
    let now = names_at(keys, found);
    assert forall|p: int, q: int| 0 <= p < found.len() && 0 <= q < found.len() && p != q implies found[p]
        != found[q] by {
        assert(now[p] != now[q]);
    }
    lemma_distinct_below(found, keys.len());
}

/// The restriction of a plan to the reached names.
proof fn lemma_plan_for(
    names: Seq<Seq<char>>,
    lists: Seq<Seq<Seq<char>>>,
    a: Seq<char>,
    part: Seq<Seq<char>>,
    part_lists: Seq<Seq<Seq<char>>>,
)
    requires
        names.no_duplicates(),
        names.len() == lists.len(),
        part.len() == part_lists.len(),
        part.no_duplicates(),
        forall|b: Seq<char>| #[trigger]
            part.contains(b) <==> names.contains(b) && reaches(plan(names, lists), a, b),
        forall|k: int|
            0 <= k < part.len() ==> #[trigger] part_lists[k] == plan(names, lists)[part[k]],
    ensures
        plan(part, part_lists) == plan_for(plan(names, lists), a),
{
    let m = plan(names, lists);
    assert forall|b: Seq<char>| plan(part, part_lists).contains_key(b) <==> plan_for(
        m,
        a,
    ).contains_key(b) by {
        assert(part.contains(b) <==> names.contains(b) && reaches(m, a, b));
    }
    assert forall|b: Seq<char>| plan(part, part_lists).contains_key(b) implies plan(
        part,
        part_lists,
    )[b] == plan_for(m, a)[b] by {
        assert(part.contains(b));
        let k = part.index_of(b);
        assert(part_lists[k] == m[part[k]]);
    }
    assert(plan(part, part_lists) =~= plan_for(m, a));
}

/// What the list of reached names holds.
proof fn lemma_reached_names(
    names: Seq<Seq<char>>,
    m: Map<Seq<char>, Seq<Seq<char>>>,
    a: Seq<char>,
)
    requires
        names.no_duplicates(),
    ensures
        reached_names(names, m, a).no_duplicates(),
        forall|b: Seq<char>| #[trigger]
            reached_names(names, m, a).contains(b) <==> names.contains(b) && reaches(m, a, b),
    decreases names.len(),
{
    if names.len() > 0 {
        let front = names.drop_last();
        let last = names.last();
        lemma_reached_names(front, m, a);
        let rest = reached_names(front, m, a);
        let all = reached_names(names, m, a);
        assert(!front.contains(last)) by {
            if front.contains(last) {
                let k = front.index_of(last);
                assert(names[k] == names[names.len() - 1]);
            }
        }
        assert(!rest.contains(last));
        assert forall|b: Seq<char>| names.contains(b) <==> front.contains(b) || b == last by {
            if names.contains(b) {
                let k = names.index_of(b);
                if k < front.len() {
                    assert(front[k] == b);
                }
            }
            if front.contains(b) {
                assert(names[front.index_of(b)] == b);
            }
            if b == last {
                assert(names[names.len() - 1] == b);
            }
        }
        assert forall|b: Seq<char>| #[trigger] all.contains(b) <==> names.contains(b) && reaches(
            m,
            a,
            b,
        ) by {
            if reaches(m, a, last) {
                assert(all == rest.push(last));
                if all.contains(b) {
                    let k = all.index_of(b);
                    if k < rest.len() {
                        assert(rest[k] == b);
                    }
                }
                if rest.contains(b) {
                    assert(all[rest.index_of(b)] == b);
                }
                if b == last {
                    assert(all[rest.len() as int] == b);
                }
            }
        }
    }
}

/// What goes wrong when the names that one name needs are ordered, or their order.
pub fn sort_needed(names: &Vec<String>, lists: &Vec<Vec<String>>, a: &str, from: usize) -> (r: Result<
    Vec<String>,
    OrderFault,
>)
    requires
        names@.len() == lists@.len(),
        views(names@).no_duplicates(),
        from < names@.len(),
        names@[from as int]@ == a@,
    ensures
        ({
            let m = plan(views(names@), list_views(lists@));
            let part = plan_for(m, a@);
            match r {
                Ok(order) => complete(part) && !circular(part) && is_order(part, views(order@))
                    && last_names_first(part, views(order@)),
                Err(OrderFault::Missing { name, needed }) => reaches(m, a@, name@) && lacks(
                    m,
                    name@,
                    needed@,
                ),
                Err(OrderFault::Cycle { names: left }) => complete(part) && circular(part) && views(
                    left@,
                ) == stuck_names(reached_names(views(names@), m, a@), part),
            }
        }),
{
    let ghost keys = views(names@);
    let ghost m = plan(keys, list_views(lists@));
    let found = match gather(names, lists, a, from) {
        Ok(found) => found,
        Err(e) => {
            return Err(OrderFault::Missing { name: names[e.at].clone(), needed: e.needed });
        },
    };
    let mut part: Vec<String> = Vec::new();
    let mut part_lists: Vec<Vec<String>> = Vec::new();
    let n: usize = names.len();
    let mut i: usize = 0;
    assert(views(part@) == Seq::<Seq<char>>::empty());
    while i < n
        invariant
            i <= n,
            n == names@.len(),
            names@.len() == lists@.len(),
            keys == views(names@),
            keys.no_duplicates(),
            m == plan(keys, list_views(lists@)),
            forall|p: int|
                0 <= p < names@.len() ==> (#[trigger] listed(found@, p) <==> reaches(
                    m,
                    a@,
                    names@[p]@,
                )),
            part@.len() == part_lists@.len(),
            views(part@) == reached_names(keys.take(i as int), m, a@),
            forall|k: int|
                0 <= k < part@.len() ==> views((#[trigger] part_lists@[k])@) == m[part@[k]@],
        decreases n - i,
    {
        let ghost before = views(part@);
        let ghost lists_before = part_lists@;
        let ghost part_before = part@;
        proof {
            assert(keys.take(i + 1).drop_last() == keys.take(i as int));
            assert(keys.take(i + 1).last() == names@[i as int]@);
            assert(keys.index_of(keys[i as int]) == i);
            assert(keys.contains(keys[i as int]));
        }
        if has_place(&found, i) {
            let list = lists[i].clone();
            assert(views(list@) == views(lists@[i as int]@));
            part.push(names[i].clone());
            part_lists.push(list);
            assert(views(part@) == before.push(names@[i as int]@));
            assert forall|k: int| 0 <= k < part@.len() implies views((#[trigger] part_lists@[k])@)
                == m[part@[k]@] by {
                if k < part_before.len() {
                    assert(part_lists@[k] == lists_before[k]);
                    assert(part@[k] == part_before[k]);
                }
            }
        }
        i += 1;
    }
    assert(keys.take(i as int) == keys);
    proof {
        lemma_reached_names(keys, m, a@);
        assert forall|k: int| 0 <= k < part@.len() implies #[trigger] list_views(part_lists@)[k]
            == m[views(part@)[k]] by {
            assert(views(part_lists@[k]@) == m[part@[k]@]);
        }
        lemma_plan_for(keys, list_views(lists@), a@, views(part@), list_views(part_lists@));
    }
    match sort_names(&part, &part_lists) {
        Ok(order) => Ok(order),
        Err(OrderFault::Missing { name, needed }) => {
            proof {
                let p = plan_for(m, a@);
                assert(needs(p, name@, needed@));
                assert(reaches(m, a@, name@));
                assert(needs(m, name@, needed@));
                lemma_reaches_step(m, a@, name@, needed@);
            }
            Err(OrderFault::Missing { name, needed })
        },
        Err(OrderFault::Cycle { names: left }) => Err(OrderFault::Cycle { names: left }),
    }
}

} // verus!
