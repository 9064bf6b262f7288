//! Ordering of numbered nodes by dependency.
//!
//! Node `i` has the list `g[i]` of nodes that it depends on. A list may name a node more than
//! once.
use vstd::prelude::*;
use crate::text::{before, lemma_precedes_total, lemma_precedes_transitive, precedes, views};

verus! {

/// Whether node `i` depends directly on node `d`.
pub open spec fn edge(g: Seq<Vec<usize>>, i: int, d: int) -> bool {
    0 <= i < g.len() && 0 <= d <= usize::MAX && g[i]@.contains(d as usize)
}

/// Whether every dependency is a node.
pub open spec fn closed_graph(g: Seq<Vec<usize>>) -> bool {
    forall|i: int, d: int| #[trigger] edge(g, i, d) ==> 0 <= d < g.len()
}

/// Whether each listed node comes after all nodes that it depends on.
pub open spec fn dependencies_first(g: Seq<Vec<usize>>, order: Seq<usize>) -> bool {
    forall|p: int, d: int|
        0 <= p < order.len() && #[trigger] edge(g, order[p] as int, d) ==> exists|q: int|
            0 <= q < p && order[q] as int == d
}

/// Whether node `i` depends on a node of `s`.
pub open spec fn waits_on(g: Seq<Vec<usize>>, s: Set<int>, i: int) -> bool {
    exists|d: int| #[trigger] edge(g, i, d) && s.contains(d)
}

/// Whether `s` is a set of nodes each of which depends on a node of `s`.
pub open spec fn waits_within(g: Seq<Vec<usize>>, s: Set<int>) -> bool {
    &&& forall|i: int| #[trigger] s.contains(i) ==> 0 <= i < g.len()
    &&& forall|i: int| s.contains(i) ==> #[trigger] waits_on(g, s, i)
}

/// Whether node `i` can never come: it belongs to a set of nodes that wait for each other.
pub open spec fn blocked(g: Seq<Vec<usize>>, i: int) -> bool {
    exists|s: Set<int>| #[trigger] waits_within(g, s) && s.contains(i)
}

/// Whether node `i` is listed.
pub open spec fn listed(order: Seq<usize>, i: int) -> bool {
    order.contains(i as usize)
}

/// Whether each node that is not listed depends on a node that is not listed.
pub open spec fn rest_waits(g: Seq<Vec<usize>>, order: Seq<usize>) -> bool {
    forall|i: int|
        0 <= i < g.len() && !#[trigger] listed(order, i) ==> exists|d: int| #[trigger]
            edge(g, i, d) && !listed(order, d)
}

/// Whether node `i` can come next: it is not listed, and all that it depends on is.
pub open spec fn ready(g: Seq<Vec<usize>>, order: Seq<usize>, i: int) -> bool {
    &&& 0 <= i < g.len()
    &&& !listed(order, i)
    &&& forall|d: int| #[trigger] edge(g, i, d) ==> listed(order, d)
}

/// Whether each listed node has the greatest name of those that can come at its place.
pub open spec fn greatest_first(g: Seq<Vec<usize>>, names: Seq<String>, order: Seq<usize>) -> bool {
    forall|p: int, i: int|
        0 <= p < order.len() && #[trigger] ready(g, order.take(p), i) ==> i == order[p] || precedes(
            names[i]@,
            names[order[p] as int]@,
        )
}

/// The number of entries of `list` that are not in `done`.
spec fn pending(list: Seq<usize>, done: Seq<usize>) -> nat
    decreases list.len(),
{
    if list.len() == 0 {
        0
    } else {
        pending(list.drop_last(), done) + if done.contains(list.last()) {
            0nat
        } else {
            1nat
        }
    }
}

/// The number of entries of `list` that are `v`.
spec fn occurrences(list: Seq<usize>, v: usize) -> nat
    decreases list.len(),
{
    if list.len() == 0 {
        0
    } else {
        occurrences(list.drop_last(), v) + if list.last() == v {
            1nat
        } else {
            0nat
        }
    }
}

proof fn lemma_pending_none(list: Seq<usize>)
    ensures
        pending(list, seq![]) == list.len(),
    decreases list.len(),
{
    if list.len() > 0 {
        lemma_pending_none(list.drop_last());
    }
}

proof fn lemma_pending_push(list: Seq<usize>, done: Seq<usize>, v: usize)
    requires
        !done.contains(v),
    ensures
        pending(list, done) == pending(list, done.push(v)) + occurrences(list, v),
    decreases list.len(),
{
    if list.len() > 0 {
        lemma_pending_push(list.drop_last(), done, v);
        let x = list.last();
        if done.contains(x) {
            let j = done.index_of(x);
            assert(done.push(v)[j] == x);
        }
        if done.push(v).contains(x) && x != v {
            let j = done.push(v).index_of(x);
            assert(done[j] == x);
        }
        if x == v {
            assert(done.push(v)[done.len() as int] == v);
        }
    }
}

proof fn lemma_pending_zero(list: Seq<usize>, done: Seq<usize>)
    ensures
        pending(list, done) == 0 <==> forall|j: int|
            0 <= j < list.len() ==> done.contains(#[trigger] list[j]),
    decreases list.len(),
{
    if list.len() > 0 {
        let front = list.drop_last();
        lemma_pending_zero(front, done);
        if pending(list, done) == 0 {
            assert forall|j: int| 0 <= j < list.len() implies done.contains(#[trigger] list[j]) by {
                if j < front.len() {
                    assert(front[j] == list[j]);
                }
            }
        }
        if forall|j: int| 0 <= j < list.len() ==> done.contains(#[trigger] list[j]) {
            assert forall|j: int| 0 <= j < front.len() implies done.contains(
                #[trigger] front[j],
            ) by {
                assert(front[j] == list[j]);
            }
            assert(done.contains(list[list.len() - 1]));
        }
    }
}

/// A list of distinct numbers below `n` has at most `n` entries.
pub proof fn lemma_distinct_below(list: Seq<usize>, n: nat)
    requires
        list.no_duplicates(),
        forall|j: int| 0 <= j < list.len() ==> list[j] < n,
    ensures
        list.len() <= n,
{
    let range = vstd::set_lib::set_int_range(0, n as int);
    vstd::set_lib::lemma_int_range(0, n as int);
    let numbers = list.map_values(|x: usize| x as int);
    assert(numbers.no_duplicates()) by {
        assert forall|a: int, b: int| 0 <= a < numbers.len() && 0 <= b < numbers.len() && a
            != b implies numbers[a] != numbers[b] by {
            assert(list[a] != list[b]);
        }
    }
    numbers.unique_seq_to_set();
    assert(numbers.to_set().subset_of(range));
    vstd::set_lib::lemma_len_subset(numbers.to_set(), range);
}

/// How often `v` occurs in `list`.
fn count_occurrences(list: &Vec<usize>, v: usize) -> (r: usize)
    ensures
        r == occurrences(list@, v),
        r <= list@.len(),
{
    let mut c: usize = 0;
    let mut j: usize = 0;
    while j < list.len()
        invariant
            j <= list@.len(),
            c <= j,
            c == occurrences(list@.take(j as int), v),
        decreases list@.len() - j,
    {
        assert(list@.take(j + 1).drop_last() == list@.take(j as int));
        if list[j] == v {
            c += 1;
        }
        j += 1;
    }
    assert(list@.take(list@.len() as int) == list@);
    c
}

/// Whether the nodes are listed by ascending name.
pub open spec fn ascending(names: Seq<String>, list: Seq<usize>) -> bool {
    forall|a: int, b: int|
        0 <= a < b < list.len() ==> precedes(
            names[#[trigger] list[a] as int]@,
            names[#[trigger] list[b] as int]@,
        )
}

/// Puts `node` into a list that is in ascending order of names.
fn insert_ascending(names: &Vec<String>, list: &mut Vec<usize>, node: usize)
    requires
        views(names@).no_duplicates(),
        node < names@.len(),
        forall|j: int| 0 <= j < old(list)@.len() ==> old(list)@[j] < names@.len(),
        !old(list)@.contains(node),
        ascending(names@, old(list)@),
    ensures
        exists|p: int|
            0 <= p <= old(list)@.len() && final(list)@ == #[trigger] old(list)@.insert(p, node),
        ascending(names@, final(list)@),
{
    let mut p: usize = 0;
    while p < list.len() && before(names[list[p]].as_str(), names[node].as_str())
        invariant
            p <= list@.len(),
            node < names@.len(),
            forall|j: int| 0 <= j < list@.len() ==> list@[j] < names@.len(),
            forall|j: int|
                0 <= j < p ==> precedes(names@[#[trigger] list@[j] as int]@, names@[node as int]@),
        decreases list@.len() - p,
    {
        p += 1;
    }
    let ghost was = list@;
    list.insert(p, node);
    proof {
        let now = list@;
        let nn = names@[node as int]@;
        assert forall|j: int| p <= j < was.len() implies precedes(
            nn,
            names@[#[trigger] was[j] as int]@,
        ) by {
            let at = was[p as int];
            assert(was.contains(at));
            assert(views(names@)[at as int] == names@[at as int]@);
            assert(views(names@)[node as int] == nn);
            lemma_precedes_total(names@[at as int]@, nn);
            if j > p {
                lemma_precedes_transitive(nn, names@[at as int]@, names@[was[j] as int]@);
            }
        }
        assert forall|a: int, b: int| 0 <= a < b < now.len() implies precedes(
            names@[#[trigger] now[a] as int]@,
            names@[#[trigger] now[b] as int]@,
        ) by {
            let a0 = if a < p { a } else { a - 1 };
            let b0 = if b < p { b } else { b - 1 };
            if a != p {
                assert(now[a] == was[a0]);
            }
            if b != p {
                assert(now[b] == was[b0]);
            }
        }
    }
}

/// What holds between two rounds of the sort.
spec fn sort_state(
    g: Seq<Vec<usize>>,
    names: Seq<String>,
    pend: Seq<usize>,
    queue: Seq<usize>,
    done: Seq<usize>,
) -> bool {
    &&& names.len() == g.len()
    &&& pend.len() == g.len()
    &&& queue.no_duplicates()
    &&& done.no_duplicates()
    &&& forall|j: int| 0 <= j < queue.len() ==> queue[j] < g.len() && !done.contains(queue[j])
    &&& forall|j: int| 0 <= j < done.len() ==> done[j] < g.len()
    &&& forall|i: int| 0 <= i < g.len() ==> #[trigger] pend[i] == pending(g[i]@, done)
    &&& forall|i: int|
        0 <= i < g.len() ==> (#[trigger] pend[i] == 0 <==> done.contains(i as usize)
            || queue.contains(i as usize))
    &&& dependencies_first(g, done)
    &&& greatest_first(g, names, done)
    &&& ascending(names, queue)
}

/// What holds while the nodes that wait for `v = done.last()` are visited, up to node `k`.
spec fn visit_state(
    g: Seq<Vec<usize>>,
    names: Seq<String>,
    pend: Seq<usize>,
    queue: Seq<usize>,
    done: Seq<usize>,
    k: int,
) -> bool {
    &&& done.len() > 0
    &&& names.len() == g.len()
    &&& pend.len() == g.len()
    &&& queue.no_duplicates()
    &&& done.no_duplicates()
    &&& forall|j: int| 0 <= j < queue.len() ==> queue[j] < g.len() && !done.contains(queue[j])
    &&& forall|j: int| 0 <= j < done.len() ==> done[j] < g.len()
    &&& forall|i: int| 0 <= i < k ==> #[trigger] pend[i] == pending(g[i]@, done)
    &&& forall|i: int|
        k <= i < g.len() ==> #[trigger] pend[i] == pending(g[i]@, done.drop_last())
    &&& forall|i: int|
        0 <= i < g.len() ==> (#[trigger] pend[i] == 0 <==> done.contains(i as usize)
            || queue.contains(i as usize))
    &&& dependencies_first(g, done)
    &&& greatest_first(g, names, done)
    &&& ascending(names, queue)
}

/// Taking the last node of the queue as the next one.
proof fn lemma_take_next(
    g: Seq<Vec<usize>>,
    names: Seq<String>,
    pend: Seq<usize>,
    queue: Seq<usize>,
    done: Seq<usize>,
)
    requires
        closed_graph(g),
        g.len() <= usize::MAX,
        queue.len() > 0,
        sort_state(g, names, pend, queue, done),
    ensures
        visit_state(g, names, pend, queue.drop_last(), done.push(queue.last()), 0),
{
    let v = queue.last();
    let q2 = queue.drop_last();
    let d2 = done.push(v);
    assert(queue[queue.len() - 1] == v);
    assert(d2.drop_last() == done);
    assert(pend[v as int] == 0) by {
        assert(queue.contains(v));
        assert(v as int as usize == v);
    }
    lemma_pending_zero(g[v as int]@, done);
    assert forall|j: int| 0 <= j < q2.len() implies q2[j] < g.len() && !d2.contains(q2[j]) by {
        assert(q2[j] == queue[j]);
        if d2.contains(q2[j]) {
            let m = d2.index_of(q2[j]);
            if m < done.len() {
                assert(done[m] == q2[j]);
            }
        }
    }
    assert(d2.no_duplicates()) by {
        assert forall|a: int, b: int| 0 <= a < d2.len() && 0 <= b < d2.len() && a != b implies d2[a]
            != d2[b] by {
            if a < done.len() && b < done.len() {
            } else if a < done.len() {
                assert(done.contains(done[a]));
            } else {
                assert(done.contains(done[b]));
            }
        }
    }
    assert forall|i: int| 0 <= i < g.len() implies (#[trigger] pend[i] == 0 <==> d2.contains(
        i as usize,
    ) || q2.contains(i as usize)) by {
        let u = i as usize;
        if done.contains(u) {
            assert(d2[done.index_of(u)] == u);
        }
        if queue.contains(u) {
            let m = queue.index_of(u);
            if m < q2.len() {
                assert(q2[m] == u);
            } else {
                assert(d2[done.len() as int] == u);
            }
        }
        if d2.contains(u) {
            let m = d2.index_of(u);
            if m < done.len() {
                assert(done[m] == u);
            } else {
                assert(queue[queue.len() - 1] == u);
            }
        }
        if q2.contains(u) {
            assert(queue[q2.index_of(u)] == u);
        }
    }
    assert forall|p: int, d: int|
        0 <= p < d2.len() && #[trigger] edge(g, d2[p] as int, d) implies exists|q: int|
        0 <= q < p && d2[q] as int == d by {
        if p < done.len() {
            assert(edge(g, done[p] as int, d));
            let q = choose|q: int| 0 <= q < p && done[q] as int == d;
            assert(d2[q] as int == d);
        } else {
            let j = g[v as int]@.index_of(d as usize);
            assert(done.contains(g[v as int]@[j]));
            let q = done.index_of(d as usize);
            assert(d2[q] as int == d);
        }
    }
    assert forall|p: int, i: int|
        0 <= p < d2.len() && #[trigger] ready(g, d2.take(p), i) implies i == d2[p] || precedes(
        names[i]@,
        names[d2[p] as int]@,
    ) by {
        assert(d2.take(p) =~= done.take(p));
        if p == done.len() {
            assert(done.take(p) =~= done);
            assert forall|j: int| 0 <= j < g[i]@.len() implies done.contains(
                #[trigger] g[i]@[j],
            ) by {
                assert(edge(g, i, g[i]@[j] as int));
            }
            lemma_pending_zero(g[i]@, done);
            assert(pend[i] == 0);
            let k = queue.index_of(i as usize);
            assert(queue[k] == i);
            if k < queue.len() - 1 {
                assert(precedes(names[queue[k] as int]@, names[queue[queue.len() - 1] as int]@));
            }
        } else {
            assert(ready(g, done.take(p), i));
            assert(d2[p] == done[p]);
        }
    }
    assert(ascending(names, q2)) by {
        assert forall|a: int, b: int| 0 <= a < b < q2.len() implies precedes(
            names[#[trigger] q2[a] as int]@,
            names[#[trigger] q2[b] as int]@,
        ) by {
            assert(q2[a] == queue[a] && q2[b] == queue[b]);
        }
    }
}

/// Entering node `k` into the queue at place `p`, now that nothing it waits for is left.
proof fn lemma_enqueue(
    g: Seq<Vec<usize>>,
    names: Seq<String>,
    pend: Seq<usize>,
    queue: Seq<usize>,
    done: Seq<usize>,
    k: int,
    p: int,
)
    requires
        closed_graph(g),
        g.len() <= usize::MAX,
        0 <= k < g.len(),
        0 <= p <= queue.len(),
        visit_state(g, names, pend, queue, done, k),
        pend[k] == occurrences(g[k]@, done.last()),
        pend[k] > 0,
        ascending(names, queue.insert(p, k as usize)),
    ensures
        visit_state(
            g,
            names,
            pend.update(k, 0),
            queue.insert(p, k as usize),
            done,
            k + 1,
        ),
{
    let u = k as usize;
    let q2 = queue.insert(p, u);
    let pend2 = pend.update(k, 0);
    let front = done.drop_last();
    assert(done == front.push(done.last()));
    assert(!front.contains(done.last())) by {
        if front.contains(done.last()) {
            let m = front.index_of(done.last());
            assert(done[m] == done[done.len() - 1]);
        }
    }
    lemma_pending_push(g[k]@, front, done.last());
    assert(!queue.contains(u) && !done.contains(u));
    assert forall|j: int| 0 <= j < q2.len() implies q2[j] < g.len() && !done.contains(q2[j]) by {
        if j < p {
            assert(q2[j] == queue[j]);
        } else if j > p {
            assert(q2[j] == queue[j - 1]);
        }
    }
    assert(q2.no_duplicates()) by {
        assert forall|a: int, b: int| 0 <= a < q2.len() && 0 <= b < q2.len() && a != b implies q2[a]
            != q2[b] by {
            let a0 = if a < p { a } else { a - 1 };
            let b0 = if b < p { b } else { b - 1 };
            if a != p {
                assert(q2[a] == queue[a0]);
            }
            if b != p {
                assert(q2[b] == queue[b0]);
            }
        }
    }
    assert forall|i: int| 0 <= i < g.len() implies (#[trigger] pend2[i] == 0 <==> done.contains(
        i as usize,
    ) || q2.contains(i as usize)) by {
        let w = i as usize;
        if i == k {
            assert(q2[p] == u);
        } else {
            assert(pend2[i] == pend[i]);
            if queue.contains(w) {
                let m = queue.index_of(w);
                assert(q2[if m < p { m } else { m + 1 }] == w);
            }
            if q2.contains(w) {
                let m = q2.index_of(w);
                assert(queue[if m < p { m } else { m - 1 }] == w);
            }
        }
    }
}

/// Removing `v = done.last()` from what node `k` waits for, when something else is left.
proof fn lemma_visit(
    g: Seq<Vec<usize>>,
    names: Seq<String>,
    pend: Seq<usize>,
    queue: Seq<usize>,
    done: Seq<usize>,
    k: int,
)
    requires
        closed_graph(g),
        g.len() <= usize::MAX,
        0 <= k < g.len(),
        visit_state(g, names, pend, queue, done, k),
        occurrences(g[k]@, done.last()) == 0 || pend[k] > occurrences(g[k]@, done.last()),
    ensures
        visit_state(
            g,
            names,
            pend.update(k, (pend[k] - occurrences(g[k]@, done.last())) as usize),
            queue,
            done,
            k + 1,
        ),
{
    let front = done.drop_last();
    assert(done == front.push(done.last()));
    assert(!front.contains(done.last())) by {
        if front.contains(done.last()) {
            let m = front.index_of(done.last());
            assert(done[m] == done[done.len() - 1]);
        }
    }
    lemma_pending_push(g[k]@, front, done.last());
    let pend2 = pend.update(k, (pend[k] - occurrences(g[k]@, done.last())) as usize);
    assert forall|i: int| 0 <= i < g.len() implies (#[trigger] pend2[i] == 0 <==> done.contains(
        i as usize,
    ) || queue.contains(i as usize)) by {
        assert(pend[i] == 0 <==> done.contains(i as usize) || queue.contains(i as usize));
    }
}

/// Lists nodes such that each comes after all that it depends on, and leaves out only nodes
/// that wait for a node left out. At each place comes the node with the greatest name of those
/// that can come there.
pub fn sort_nodes(g: &Vec<Vec<usize>>, names: &Vec<String>) -> (r: Vec<usize>)
    requires
        closed_graph(g@),
        names@.len() == g@.len(),
        views(names@).no_duplicates(),
    ensures
        r@.no_duplicates(),
        r@.len() <= g@.len(),
        forall|j: int| 0 <= j < r@.len() ==> #[trigger] r@[j] < g@.len(),
        dependencies_first(g@, r@),
        rest_waits(g@, r@),
        greatest_first(g@, names@, r@),
{
    let n: usize = g.len();
    let mut pend: Vec<usize> = Vec::new();
    let mut queue: Vec<usize> = Vec::new();
    let mut i: usize = 0;
    while i < n
        invariant
            n == g@.len(),
            i <= n,
            names@.len() == n,
            views(names@).no_duplicates(),
            pend@.len() == i,
            forall|j: int| 0 <= j < i ==> #[trigger] pend@[j] == g@[j]@.len(),
            queue@.no_duplicates(),
            forall|j: int| 0 <= j < queue@.len() ==> queue@[j] < i,
            forall|j: int|
                0 <= j < i ==> (#[trigger] pend@[j] == 0 <==> queue@.contains(j as usize)),
            ascending(names@, queue@),
        decreases n - i,
    {
        pend.push(g[i].len());
        let ghost was = queue@;
        if g[i].len() == 0 {
            assert(!queue@.contains(i));
            insert_ascending(names, &mut queue, i);
            proof {
                let p = choose|p: int|
                    0 <= p <= was.len() && queue@ == #[trigger] was.insert(p, i);
                let now = queue@;
                assert forall|a: int, b: int|
                    0 <= a < now.len() && 0 <= b < now.len() && a != b implies now[a]
                    != now[b] by {
                    let a0 = if a < p { a } else { a - 1 };
                    let b0 = if b < p { b } else { b - 1 };
                    if a != p {
                        assert(now[a] == was[a0]);
                    }
                    if b != p {
                        assert(now[b] == was[b0]);
                    }
                }
                assert forall|j: int| 0 <= j < now.len() implies now[j] < i + 1 by {
                    if j < p {
                        assert(now[j] == was[j]);
                    } else if j > p {
                        assert(now[j] == was[j - 1]);
                    }
                }
                assert forall|j: int| 0 <= j < i + 1 implies (#[trigger] pend@[j] == 0
                    <==> now.contains(j as usize)) by {
                    let w = j as usize;
                    if j == i {
                        assert(now[p] == i);
                    } else {
                        if was.contains(w) {
                            let m = was.index_of(w);
                            assert(now[if m < p { m } else { m + 1 }] == w);
                        }
                        if now.contains(w) {
                            let m = now.index_of(w);
                            assert(was[if m < p { m } else { m - 1 }] == w);
                        }
                    }
                }
            }
        }
        i += 1;
    }
    let mut done: Vec<usize> = Vec::new();
    proof {
        assert forall|j: int| 0 <= j < n implies #[trigger] pend@[j] == pending(g@[j]@, done@) by {
            lemma_pending_none(g@[j]@);
            assert(done@ == Seq::<usize>::empty());
        }
        assert(sort_state(g@, names@, pend@, queue@, done@));
    }
    loop
        invariant
            n == g@.len(),
            views(names@).no_duplicates(),
            closed_graph(g@),
            sort_state(g@, names@, pend@, queue@, done@),
        ensures
            sort_state(g@, names@, pend@, queue@, done@),
            queue@.len() == 0,
        decreases n - done@.len(),
    {
        let ghost queue0 = queue@;
        let ghost done0 = done@;
        match queue.pop() {
            None => {
                break;
            },
            Some(v) => {
                proof {
                    lemma_take_next(g@, names@, pend@, queue0, done0);
                    assert(queue0.last() == v);
                }
                done.push(v);
                proof {
                    lemma_distinct_below(done@, n as nat);
                }
                let mut k: usize = 0;
                while k < n
                    invariant
                        n == g@.len(),
                        k <= n,
                        views(names@).no_duplicates(),
                        closed_graph(g@),
                        done@.len() > 0,
                        done@.last() == v,
                        visit_state(g@, names@, pend@, queue@, done@, k as int),
                    decreases n - k,
                {
                    let c: usize = count_occurrences(&g[k], v);
                    let ghost front = done@.drop_last();
                    proof {
                        assert(done@ == front.push(v));
                        assert(!front.contains(v)) by {
                            if front.contains(v) {
                                let m = front.index_of(v);
                                assert(done@[m] == done@[done@.len() - 1]);
                            }
                        }
                        lemma_pending_push(g@[k as int]@, front, v);
                    }
                    if c > 0 {
                        if pend[k] == c {
                            let ghost waiting = queue@;
                            assert(!queue@.contains(k));
                            insert_ascending(names, &mut queue, k);
                            proof {
                                let p = choose|p: int|
                                    0 <= p <= waiting.len() && queue@ == #[trigger] waiting.insert(
                                        p,
                                        k,
                                    );
                                lemma_enqueue(g@, names@, pend@, waiting, done@, k as int, p);
                            }
                            pend.set(k, 0);
                        } else {
                            proof {
                                lemma_visit(g@, names@, pend@, queue@, done@, k as int);
                            }
                            let left: usize = pend[k] - c;
                            pend.set(k, left);
                        }
                    } else {
                        proof {
                            lemma_visit(g@, names@, pend@, queue@, done@, k as int);
                            assert(pend@.update(k as int, pend@[k as int]) == pend@);
                        }
                    }
                    k += 1;
                }
            },
        }
    }
    proof {
        lemma_distinct_below(done@, n as nat);
        assert forall|i: int| 0 <= i < g@.len() && !#[trigger] listed(done@, i) implies exists|d: int|
            #[trigger] edge(g@, i, d) && !listed(done@, d) by {
            assert(pend@[i] != 0);
            lemma_pending_zero(g@[i]@, done@);
            let j = choose|j: int|
                0 <= j < g@[i]@.len() && !done@.contains(#[trigger] g@[i]@[j]);
            let d = g@[i]@[j];
            assert(edge(g@, i, d as int));
        }
    }
    done
}

/// A listed node is not blocked.
pub proof fn lemma_sorted_not_blocked(g: Seq<Vec<usize>>, order: Seq<usize>, p: int, s: Set<int>)
    requires
        dependencies_first(g, order),
        0 <= p < order.len(),
        waits_within(g, s),
    ensures
        !s.contains(order[p] as int),
    decreases p,
{
    if s.contains(order[p] as int) {
        assert(waits_on(g, s, order[p] as int));
        let d = choose|d: int| #[trigger] edge(g, order[p] as int, d) && s.contains(d);
        let q = choose|q: int| 0 <= q < p && order[q] as int == d;
        lemma_sorted_not_blocked(g, order, q, s);
    }
}

/// A sort leaves out exactly the blocked nodes.
pub proof fn lemma_left_out_iff_blocked(g: Seq<Vec<usize>>, order: Seq<usize>, i: int)
    requires
        closed_graph(g),
        g.len() <= usize::MAX,
        0 <= i < g.len(),
        dependencies_first(g, order),
        rest_waits(g, order),
    ensures
        listed(order, i) <==> !blocked(g, i),
{
    if listed(order, i) {
        let p = order.index_of(i as usize);
        if blocked(g, i) {
            let s = choose|s: Set<int>| #[trigger] waits_within(g, s) && s.contains(i);
            lemma_sorted_not_blocked(g, order, p, s);
        }
    } else {
        let s = Set::new(|k: int| 0 <= k < g.len() && !listed(order, k));
        assert(waits_within(g, s)) by {
            assert forall|k: int| #[trigger] s.contains(k) implies 0 <= k < g.len() && exists|d: int|
                #[trigger] edge(g, k, d) && s.contains(d) by {
                assert(!listed(order, k));
                let d = choose|d: int| #[trigger] edge(g, k, d) && !listed(order, d);
                assert(s.contains(d));
            }
        }
        assert(s.contains(i));
    }
}

// ---------------------------------------------------------------------------------------------
// Cycles
// ---------------------------------------------------------------------------------------------

/// Whether `walk` is a list of nodes each of which depends on the next.
pub open spec fn is_walk(g: Seq<Vec<usize>>, walk: Seq<int>) -> bool {
    forall|j: int| 0 <= j < walk.len() - 1 ==> edge(g, #[trigger] walk[j], walk[j + 1])
}

/// Whether `c` is a cycle: each node depends on the next, and the last on the first.
pub open spec fn is_cycle(g: Seq<Vec<usize>>, c: Seq<int>) -> bool {
    c.len() > 0 && is_walk(g, c) && edge(g, c.last(), c[0])
}

/// Whether there is a cycle.
pub open spec fn cyclic(g: Seq<Vec<usize>>) -> bool {
    exists|c: Seq<int>| #[trigger] is_cycle(g, c)
}

/// The nodes of a cycle are blocked.
pub proof fn lemma_cycle_blocks(g: Seq<Vec<usize>>, c: Seq<int>)
    requires
        is_cycle(g, c),
    ensures
        waits_within(g, c.to_set()),
        forall|j: int| 0 <= j < c.len() ==> blocked(g, #[trigger] c[j]),
{
    let s = c.to_set();
    assert forall|i: int| #[trigger] s.contains(i) implies 0 <= i < g.len() && exists|d: int|
        #[trigger] edge(g, i, d) && s.contains(d) by {
        let j = c.index_of(i);
        if j < c.len() - 1 {
            assert(edge(g, c[j], c[j + 1]));
            assert(s.contains(c[j + 1]));
        } else {
            assert(edge(g, c.last(), c[0]));
            assert(s.contains(c[0]));
        }
    }
    assert(waits_within(g, s));
    assert forall|j: int| 0 <= j < c.len() implies blocked(g, #[trigger] c[j]) by {
        assert(s.contains(c[j]));
    }
}

/// From a node of a set of nodes that wait for each other one can walk on inside the set as
/// far as one likes.
proof fn lemma_long_walk(g: Seq<Vec<usize>>, s: Set<int>, i: int, len: nat) -> (walk: Seq<int>)
    requires
        waits_within(g, s),
        s.contains(i),
    ensures
        walk.len() == len + 1,
        walk[0] == i,
        is_walk(g, walk),
        forall|j: int| 0 <= j < walk.len() ==> s.contains(#[trigger] walk[j]),
    decreases len,
{
    if len == 0 {
        seq![i]
    } else {
        let w = lemma_long_walk(g, s, i, (len - 1) as nat);
        assert(s.contains(w.last()));
        assert(waits_on(g, s, w.last()));
        let d = choose|d: int| #[trigger] edge(g, w.last(), d) && s.contains(d);
        let walk = w.push(d);
        assert forall|j: int| 0 <= j < walk.len() - 1 implies edge(
            g,
            #[trigger] walk[j],
            walk[j + 1],
        ) by {
            if j < w.len() - 1 {
                assert(edge(g, w[j], w[j + 1]));
            }
        }
        walk
    }
}

/// A walk that comes back to a node contains a cycle.
proof fn lemma_walk_repeats(g: Seq<Vec<usize>>, walk: Seq<int>, a: int, b: int)
    requires
        is_walk(g, walk),
        0 <= a < b < walk.len(),
        walk[a] == walk[b],
    ensures
        is_cycle(g, walk.subrange(a, b)),
{
    let c = walk.subrange(a, b);
    assert forall|j: int| 0 <= j < c.len() - 1 implies edge(g, #[trigger] c[j], c[j + 1]) by {
        assert(edge(g, walk[a + j], walk[a + j + 1]));
    }
    assert(edge(g, walk[b - 1], walk[b - 1 + 1]));
}

/// Where a node is blocked there is a cycle.
pub proof fn lemma_blocked_cyclic(g: Seq<Vec<usize>>, i: int)
    requires
        blocked(g, i),
    ensures
        cyclic(g),
{
    let s = choose|s: Set<int>| #[trigger] waits_within(g, s) && s.contains(i);
    let walk = lemma_long_walk(g, s, i, g.len());
    if walk.no_duplicates() {
        walk.unique_seq_to_set();
        let range = vstd::set_lib::set_int_range(0, g.len() as int);
        vstd::set_lib::lemma_int_range(0, g.len() as int);
        assert(walk.to_set().subset_of(range)) by {
            assert forall|x: int| walk.to_set().contains(x) implies range.contains(x) by {
                let j = walk.index_of(x);
                assert(s.contains(walk[j]));
            }
        }
        vstd::set_lib::lemma_len_subset(walk.to_set(), range);
        assert(false);
    }
    let (a, b) = choose|a: int, b: int|
        0 <= a < walk.len() && 0 <= b < walk.len() && a != b && walk[a] == walk[b];
    if a < b {
        lemma_walk_repeats(g, walk, a, b);
    } else {
        lemma_walk_repeats(g, walk, b, a);
    }
}

/// There is a cycle exactly if some node is blocked.
pub proof fn lemma_cyclic_iff_blocked(g: Seq<Vec<usize>>)
    ensures
        cyclic(g) <==> exists|i: int| #[trigger] blocked(g, i),
{
    if cyclic(g) {
        let c = choose|c: Seq<int>| #[trigger] is_cycle(g, c);
        lemma_cycle_blocks(g, c);
        assert(blocked(g, c[0]));
    }
    if exists|i: int| #[trigger] blocked(g, i) {
        let i = choose|i: int| #[trigger] blocked(g, i);
        lemma_blocked_cyclic(g, i);
    }
}

/// Whether node `i` stands on a cycle.
pub open spec fn on_cycle(g: Seq<Vec<usize>>, i: int) -> bool {
    exists|c: Seq<int>| #[trigger] is_cycle(g, c) && c[0] == i
}

// ---------------------------------------------------------------------------------------------
// Levels
// ---------------------------------------------------------------------------------------------

/// Whether `level` is right for a node with the dependencies `list`, given the levels of these:
/// zero without dependencies, and otherwise one more than the greatest level of a dependency.
pub open spec fn level_right(list: Seq<usize>, level_of: spec_fn(int) -> Option<usize>, level: usize) -> bool {
    if list.len() == 0 {
        level == 0
    } else {
        &&& forall|j: int|
            0 <= j < list.len() ==> (level_of(#[trigger] list[j] as int) matches Some(k) && k < level)
        &&& exists|j: int|
            0 <= j < list.len() && (level_of(#[trigger] list[j] as int) matches Some(k) && k + 1
                == level)
    }
}

spec fn level_fn(levels: Seq<Option<usize>>) -> spec_fn(int) -> Option<usize> {
    |i: int|
        if 0 <= i < levels.len() {
            levels[i]
        } else {
            None
        }
}

/// Whether the levels found so far are right.
spec fn levels_right(g: Seq<Vec<usize>>, levels: Seq<Option<usize>>) -> bool {
    &&& levels.len() == g.len()
    &&& forall|i: int|
        0 <= i < g.len() ==> (#[trigger] levels[i] matches Some(k) ==> level_right(
            g[i]@,
            level_fn(levels),
            k,
        ))
}

/// From a node of level `k` leads a walk down through all smaller levels.
proof fn lemma_level_walk(g: Seq<Vec<usize>>, levels: Seq<Option<usize>>, i: int, k: usize) -> (walk:
    Seq<int>)
    requires
        levels_right(g, levels),
        0 <= i < g.len(),
        levels[i] == Some(k),
    ensures
        walk.len() == k + 1,
        forall|j: int|
            0 <= j < walk.len() ==> 0 <= #[trigger] walk[j] < g.len() && levels[walk[j]] == Some(
                (k - j) as usize,
            ),
    decreases k,
{
    if k == 0 {
        seq![i]
    } else {
        let list = g[i]@;
        let j = choose|j: int|
            0 <= j < list.len() && (level_fn(levels)(#[trigger] list[j] as int) matches Some(m) && m
                + 1 == k);
        let d = list[j] as int;
        let rest = lemma_level_walk(g, levels, d, (k - 1) as usize);
        let walk = seq![i] + rest;
        assert forall|m: int| 0 <= m < walk.len() implies 0 <= #[trigger] walk[m] < g.len()
            && levels[walk[m]] == Some((k - m) as usize) by {
            if m > 0 {
                assert(walk[m] == rest[m - 1]);
            }
        }
        walk
    }
}

/// Every level is smaller than the number of nodes.
proof fn lemma_level_bound(g: Seq<Vec<usize>>, levels: Seq<Option<usize>>, i: int, k: usize)
    requires
        levels_right(g, levels),
        0 <= i < g.len(),
        levels[i] == Some(k),
    ensures
        k < g.len(),
{
    let walk = lemma_level_walk(g, levels, i, k);
    assert(walk.no_duplicates()) by {
        assert forall|a: int, b: int| 0 <= a < walk.len() && 0 <= b < walk.len() && a != b implies walk[a]
            != walk[b] by {
            assert(levels[walk[a]] == Some((k - a) as usize));
            assert(levels[walk[b]] == Some((k - b) as usize));
        }
    }
    walk.unique_seq_to_set();
    let range = vstd::set_lib::set_int_range(0, g.len() as int);
    vstd::set_lib::lemma_int_range(0, g.len() as int);
    assert(walk.to_set().subset_of(range)) by {
        assert forall|x: int| walk.to_set().contains(x) implies range.contains(x) by {
            let j = walk.index_of(x);
            assert(0 <= walk[j] < g.len());
        }
    }
    vstd::set_lib::lemma_len_subset(walk.to_set(), range);
}

/// The nodes on the way from the start to the present node.
spec fn stack_ok(
    g: Seq<Vec<usize>>,
    levels: Seq<Option<usize>>,
    stack: Seq<usize>,
    i: usize,
) -> bool {
    &&& stack.no_duplicates()
    &&& forall|j: int| 0 <= j < stack.len() ==> #[trigger] stack[j] < g.len()
    &&& forall|j: int|
        0 <= j < stack.len() - 1 ==> edge(g, #[trigger] stack[j] as int, stack[j + 1] as int)
    &&& stack.len() > 0 ==> edge(g, stack.last() as int, i as int)
}

/// Whether what was known of the levels is still known.
spec fn levels_kept(was: Seq<Option<usize>>, now: Seq<Option<usize>>) -> bool {
    &&& was.len() == now.len()
    &&& forall|j: int| 0 <= j < was.len() ==> ((#[trigger] was[j]) is Some ==> now[j] == was[j])
}

/// What is right of a level stays right as more levels become known.
proof fn lemma_level_kept(list: Seq<usize>, was: Seq<Option<usize>>, now: Seq<Option<usize>>, k: usize)
    requires
        levels_kept(was, now),
        level_right(list, level_fn(was), k),
    ensures
        level_right(list, level_fn(now), k),
{
    if list.len() > 0 {
        assert forall|j: int| 0 <= j < list.len() implies (level_fn(now)(#[trigger] list[j] as int)
            matches Some(m) && m < k) by {
            assert(level_fn(was)(list[j] as int) is Some);
            assert(was[list[j] as int] is Some);
        }
        let j = choose|j: int|
            0 <= j < list.len() && (level_fn(was)(#[trigger] list[j] as int) matches Some(m) && m + 1
                == k);
        assert(was[list[j] as int] is Some);
        assert(level_fn(now)(list[j] as int) == level_fn(was)(list[j] as int));
    }
}

/// The level of node `i`, or a node on a cycle.
fn compute_level(
    g: &Vec<Vec<usize>>,
    i: usize,
    levels: &mut Vec<Option<usize>>,
    stack: &mut Vec<usize>,
) -> (r: Result<usize, usize>)
    requires
        closed_graph(g@),
        i < g@.len(),
        levels_right(g@, old(levels)@),
        stack_ok(g@, old(levels)@, old(stack)@, i),
        forall|j: int| 0 <= j < old(stack)@.len() ==> old(levels)@[#[trigger] old(stack)@[j] as int] is None,
    ensures
        match r {
            Ok(k) => {
                &&& levels_right(g@, final(levels)@)
                &&& levels_kept(old(levels)@, final(levels)@)
                &&& final(levels)@[i as int] == Some(k)
                &&& final(stack)@ == old(stack)@
                &&& forall|j: int|
                    0 <= j < old(stack)@.len() ==> final(levels)@[#[trigger] old(
                        stack)@[j] as int] is None
            },
            Err(c) => on_cycle(g@, c as int),
        },
    decreases g@.len() - old(stack)@.len(),
{
    if let Some(k) = levels[i] {
        return Ok(k);
    }
    let ghost base = stack@;
    let ghost levels0 = levels@;
    let mut p: usize = 0;
    while p < stack.len()
        invariant
            stack@ == base,
            p <= base.len(),
            forall|j: int| 0 <= j < p ==> #[trigger] base[j] != i,
            stack_ok(g@, levels0, base, i),
        decreases base.len() - p,
    {
        if stack[p] == i {
            proof {
                let nodes = base.map_values(|x: usize| x as int);
                let c = nodes.subrange(p as int, nodes.len() as int);
                assert forall|j: int| 0 <= j < c.len() - 1 implies edge(
                    g@,
                    #[trigger] c[j],
                    c[j + 1],
                ) by {
                    assert(edge(g@, base[p + j] as int, base[p + j + 1] as int));
                }
                assert(c[0] == i as int);
                assert(c.last() == base.last() as int);
                assert(is_cycle(g@, c));
            }
            return Err(i);
        }
        p += 1;
    }
    stack.push(i);
    proof {
        assert(!base.contains(i));
        lemma_distinct_below(stack@, g@.len());
    }
    let n: usize = g.len();
    let mut level: usize = 0;
    let mut j: usize = 0;
    while j < g[i].len()
        invariant
            closed_graph(g@),
            i < g@.len(),
            j <= g@[i as int]@.len(),
            levels_right(g@, levels@),
            levels_kept(levels0, levels@),
            stack@ == base.push(i),
            base.len() < g@.len(),
            stack_ok(g@, levels0, base, i),
            !base.contains(i),
            forall|q: int| 0 <= q < stack@.len() ==> levels@[#[trigger] stack@[q] as int] is None,
            level <= g@.len(),
            forall|q: int|
                0 <= q < j ==> (level_fn(levels@)(#[trigger] g@[i as int]@[q] as int) matches Some(k)
                    && k < level),
            j == 0 ==> level == 0,
            j > 0 ==> exists|q: int|
                0 <= q < j && (level_fn(levels@)(#[trigger] g@[i as int]@[q] as int) matches Some(k)
                    && k + 1 == level),
            n == g@.len(),
            base == old(stack)@,
        decreases g@[i as int]@.len() - j,
    {
        let d: usize = g[i][j];
        let ghost before = levels@;
        let ghost list = g@[i as int]@;
        proof {
            assert(edge(g@, i as int, d as int));
            assert(stack@.last() == i);
            assert forall|q: int| 0 <= q < stack@.len() - 1 implies edge(
                g@,
                #[trigger] stack@[q] as int,
                stack@[q + 1] as int,
            ) by {
                if q < base.len() - 1 {
                    assert(edge(g@, base[q] as int, base[q + 1] as int));
                }
            }
            assert forall|q: int| 0 <= q < stack@.len() implies #[trigger] stack@[q]
                < g@.len() by {
                if q < base.len() {
                    assert(base[q] < g@.len());
                }
            }
        }
        match compute_level(g, d, levels, stack) {
            Ok(k) => {
                proof {
                    lemma_level_bound(g@, levels@, d as int, k);
                    assert forall|q: int| 0 <= q < j implies level_fn(levels@)(
                        #[trigger] list[q] as int,
                    ) == level_fn(before)(list[q] as int) by {
                        assert(level_fn(before)(list[q] as int) is Some);
                        assert(before[list[q] as int] is Some);
                    }
                }
                let ghost old_level = level;
                if k + 1 > level {
                    level = k + 1;
                }
                proof {
                    assert(level_fn(levels@)(list[j as int] as int) == Some(k));
                    if level == k + 1 {
                    } else {
                        let q = choose|q: int|
                            0 <= q < j && (level_fn(before)(#[trigger] list[q] as int) matches Some(m)
                                && m + 1 == old_level);
                        assert(level_fn(levels@)(list[q] as int) == level_fn(before)(
                            list[q] as int,
                        ));
                    }
                }
            },
            Err(c) => {
                return Err(c);
            },
        }
        j += 1;
    }
    stack.pop();
    assert(stack@ == base);
    let ghost before = levels@;
    levels.set(i, Some(level));
    proof {
        let list = g@[i as int]@;
        assert(before[i as int] is None) by {
            assert(base.push(i)[base.len() as int] == i);
        }
        assert(level_right(list, level_fn(before), level));
        assert(levels_kept(before, levels@));
        assert forall|m: int| 0 <= m < g@.len() implies (#[trigger] levels@[m] matches Some(k)
            ==> level_right(g@[m]@, level_fn(levels@), k)) by {
            if m == i {
                lemma_level_kept(list, before, levels@, level);
            } else if before[m] is Some {
                lemma_level_kept(g@[m]@, before, levels@, before[m]->0);
            }
        }
        assert forall|q: int| 0 <= q < base.len() implies levels@[#[trigger] base[q] as int] is None by {
            assert(base.push(i)[q] == base[q]);
            assert(base[q] != i);
        }
    }
    Ok(level)
}

/// Whether `lv` gives every node its level.
pub open spec fn is_leveling(g: Seq<Vec<usize>>, lv: Seq<usize>) -> bool {
    &&& lv.len() == g.len()
    &&& forall|i: int|
        0 <= i < g.len() ==> level_right(
            g[i]@,
            |d: int|
                if 0 <= d < lv.len() {
                    Some(lv[d])
                } else {
                    None
                },
            #[trigger] lv[i],
        )
}

/// The level of every node, or a node on a cycle.
fn all_levels(g: &Vec<Vec<usize>>) -> (r: Result<Vec<usize>, usize>)
    requires
        closed_graph(g@),
    ensures
        match r {
            Ok(lv) => is_leveling(g@, lv@) && forall|i: int|
                0 <= i < lv@.len() ==> #[trigger] lv@[i] < g@.len(),
            Err(c) => on_cycle(g@, c as int),
        },
{
    let n: usize = g.len();
    let mut levels: Vec<Option<usize>> = Vec::new();
    let mut i: usize = 0;
    while i < n
        invariant
            i <= n,
            levels@.len() == i,
            forall|j: int| 0 <= j < i ==> #[trigger] levels@[j] is None,
        decreases n - i,
    {
        levels.push(None);
        i += 1;
    }
    let mut out: Vec<usize> = Vec::new();
    i = 0;
    while i < n
        invariant
            n == g@.len(),
            closed_graph(g@),
            i <= n,
            levels_right(g@, levels@),
            out@.len() == i,
            forall|j: int| 0 <= j < i ==> levels@[j] == Some(#[trigger] out@[j]) && out@[j] < n,
        decreases n - i,
    {
        let mut stack: Vec<usize> = Vec::new();
        let ghost before = levels@;
        match compute_level(g, i, &mut levels, &mut stack) {
            Ok(k) => {
                proof {
                    lemma_level_bound(g@, levels@, i as int, k);
                    assert forall|j: int| 0 <= j < i implies levels@[j] == Some(
                        #[trigger] out@[j],
                    ) by {
                        assert(before[j] == Some(out@[j]));
                        assert(before[j] is Some);
                    }
                }
                out.push(k);
            },
            Err(c) => {
                return Err(c);
            },
        }
        i += 1;
    }
    proof {
        let lv = out@;
        let f = |d: int|
            if 0 <= d < lv.len() {
                Some(lv[d])
            } else {
                None
            };
        assert forall|m: int| 0 <= m < g@.len() implies level_right(
            g@[m]@,
            f,
            #[trigger] lv[m],
        ) by {
            assert(levels@[m] == Some(lv[m]));
            assert(level_right(g@[m]@, level_fn(levels@), lv[m]));
            let list = g@[m]@;
            assert forall|j: int| 0 <= j < list.len() implies level_fn(levels@)(
                #[trigger] list[j] as int,
            ) == f(list[j] as int) by {
                assert(edge(g@, m, list[j] as int));
                assert(levels@[list[j] as int] == Some(lv[list[j] as int]));
            }
            if list.len() > 0 {
                let j = choose|j: int|
                    0 <= j < list.len() && (level_fn(levels@)(#[trigger] list[j] as int) matches Some(
                        k,
                    ) && k + 1 == lv[m]);
                assert(f(list[j] as int) matches Some(k) && k + 1 == lv[m]);
            }
        }
    }
    Ok(out)
}

/// Whether `groups` lists the nodes by level, each group by ascending name. There is always a
/// first group; the last one is empty only if there are no nodes.
pub open spec fn groups_by_level(
    g: Seq<Vec<usize>>,
    names: Seq<String>,
    lv: Seq<usize>,
    groups: Seq<Vec<usize>>,
) -> bool {
    &&& groups.len() > 0
    &&& g.len() == 0 ==> groups.len() == 1
    &&& g.len() > 0 ==> exists|i: int| 0 <= i < lv.len() && #[trigger] lv[i] + 1 == groups.len()
    &&& forall|i: int| 0 <= i < lv.len() ==> #[trigger] lv[i] < groups.len()
    &&& forall|l: int| 0 <= l < groups.len() ==> ascending(names, #[trigger] groups[l]@)
    &&& forall|l: int, i: usize|
        0 <= l < groups.len() ==> (#[trigger] groups[l]@.contains(i) <==> i < lv.len()
            && lv[i as int] == l)
}

/// The nodes grouped by level, or a node on a cycle.
pub fn group_nodes(g: &Vec<Vec<usize>>, names: &Vec<String>) -> (r: Result<Vec<Vec<usize>>, usize>)
    requires
        closed_graph(g@),
        names@.len() == g@.len(),
        views(names@).no_duplicates(),
    ensures
        match r {
            Ok(groups) => exists|lv: Seq<usize>| #[trigger]
                is_leveling(g@, lv) && groups_by_level(g@, names@, lv, groups@),
            Err(c) => on_cycle(g@, c as int),
        },
{
    let n: usize = g.len();
    let lv = match all_levels(g) {
        Ok(lv) => lv,
        Err(c) => {
            return Err(c);
        },
    };
    let mut max: usize = 0;
    let mut i: usize = 0;
    while i < n
        invariant
            n == g@.len(),
            lv@.len() == n,
            i <= n,
            forall|j: int| 0 <= j < lv@.len() ==> #[trigger] lv@[j] < n,
            forall|j: int| 0 <= j < i ==> #[trigger] lv@[j] <= max,
            i == 0 ==> max == 0,
            i > 0 ==> exists|j: int| 0 <= j < i && #[trigger] lv@[j] == max,
        decreases n - i,
    {
        if lv[i] > max {
            max = lv[i];
        }
        i += 1;
    }
    let mut groups: Vec<Vec<usize>> = Vec::new();
    let mut l: usize = 0;
    assert(max == 0 || max < n);
    loop
        invariant_except_break
            l <= max,
            groups@.len() == l,
            forall|m: int| 0 <= m < l ==> ascending(names@, #[trigger] groups@[m]@),
            forall|m: int, x: usize|
                0 <= m < l ==> (#[trigger] groups@[m]@.contains(x) <==> x < n && lv@[x as int] == m),
        invariant
            n == g@.len(),
            lv@.len() == n,
            max == 0 || max < n,
            names@.len() == n,
            views(names@).no_duplicates(),
        ensures
            groups@.len() == max + 1,
            forall|m: int| 0 <= m < groups@.len() ==> ascending(names@, #[trigger] groups@[m]@),
            forall|m: int, x: usize|
                0 <= m < groups@.len() ==> (#[trigger] groups@[m]@.contains(x) <==> x < n
                    && lv@[x as int] == m),
        decreases max - l,
    {
        let mut group: Vec<usize> = Vec::new();
        i = 0;
        while i < n
            invariant
                lv@.len() == n,
                i <= n,
                names@.len() == n,
                views(names@).no_duplicates(),
                ascending(names@, group@),
                forall|j: int| 0 <= j < group@.len() ==> #[trigger] group@[j] < n,
                forall|x: usize|
                    #[trigger] group@.contains(x) <==> x < i && lv@[x as int] == l,
            decreases n - i,
        {
            if lv[i] == l {
                let ghost was = group@;
                assert(!group@.contains(i));
                insert_ascending(names, &mut group, i);
                proof {
                    let p = choose|p: int|
                        0 <= p <= was.len() && group@ == #[trigger] was.insert(p, i);
                    let now = group@;
                    assert forall|x: usize| #[trigger] now.contains(x) <==> x < i + 1 && lv@[x as int]
                        == l by {
                        if was.contains(x) {
                            let m = was.index_of(x);
                            assert(now[if m < p { m } else { m + 1 }] == x);
                        }
                        if x == i {
                            assert(now[p] == x);
                        }
                        if now.contains(x) && x != i {
                            let m = now.index_of(x);
                            assert(was[if m < p { m } else { m - 1 }] == x);
                        }
                    }
                    assert forall|j: int| 0 <= j < now.len() implies #[trigger] now[j] < n by {
                        assert(now.contains(now[j]));
                    }
                }
            }
            i += 1;
        }
        let ghost members = group@;
        groups.push(group);
        assert(groups@[l as int]@ == members);
        if l == max {
            break;
        }
        l += 1;
    }
    assert(groups_by_level(g@, names@, lv@, groups@));
    Ok(groups)
}

/// Where every node has a level there is no cycle.
pub proof fn lemma_leveled_acyclic(g: Seq<Vec<usize>>, lv: Seq<usize>)
    requires
        closed_graph(g),
        is_leveling(g, lv),
    ensures
        !cyclic(g),
{
    if cyclic(g) {
        let c = choose|c: Seq<int>| #[trigger] is_cycle(g, c);
        lemma_walk_descends(g, lv, c, c.len() - 1);
        lemma_edge_descends(g, lv, c.last(), c[0]);
    }
}

/// A dependency has a smaller level.
pub proof fn lemma_edge_descends(g: Seq<Vec<usize>>, lv: Seq<usize>, i: int, d: int)
    requires
        closed_graph(g),
        is_leveling(g, lv),
        edge(g, i, d),
    ensures
        0 <= d < lv.len(),
        lv[d] < lv[i],
{
    let list = g[i]@;
    let j = list.index_of(d as usize);
    let f = |d: int|
        if 0 <= d < lv.len() {
            Some(lv[d])
        } else {
            None
        };
    assert(level_right(list, f, lv[i]));
    assert(f(list[j] as int) matches Some(k) && k < lv[i]);
}

proof fn lemma_walk_descends(g: Seq<Vec<usize>>, lv: Seq<usize>, walk: Seq<int>, k: int)
    requires
        closed_graph(g),
        is_leveling(g, lv),
        is_walk(g, walk),
        0 <= k < walk.len(),
        0 <= walk[0] < g.len(),
    ensures
        0 <= walk[k] < g.len(),
        lv[walk[k]] <= lv[walk[0]],
    decreases k,
{
    if k > 0 {
        lemma_walk_descends(g, lv, walk, k - 1);
        assert(edge(g, walk[k - 1], walk[k - 1 + 1]));
        lemma_edge_descends(g, lv, walk[k - 1], walk[k]);
    }
}

} // verus!
