//! Task planner: dependency DAG for multi-agent task decomposition.
//!
//! Provides [`TaskPlan`] (a directed acyclic graph of sub-tasks) with
//! topological ordering, parallel batch grouping, and an execution state
//! tracker ([`PlanExecution`]) that enriches downstream prompts with upstream
//! results.

use crate::sorting;
use crate::text;
use crate::text_map::TextMap;
use vstd::prelude::*;

verus! {

// ---------------------------------------------------------------------------
// Data structures
// ---------------------------------------------------------------------------

/// A single unit of work assigned to an agent.
#[derive(Debug, Clone, PartialEq)]
pub struct SubTask {
    pub id: String,
    pub description: String,
    pub agent: String,
    pub prompt: String,
    pub depends_on: Vec<String>,
    pub priority: i32,
}

/// A plan consisting of sub-tasks linked by dependency edges.
#[derive(Debug, Clone)]
pub struct TaskPlan {
    pub goal: String,
    pub tasks: Vec<SubTask>,
}

// ---------------------------------------------------------------------------
// The dependency graph
// ---------------------------------------------------------------------------

/// The task that an id stands for: the last one that carries it.
pub open spec fn resolve(tasks: Seq<SubTask>, id: Seq<char>) -> Option<int>
    decreases tasks.len(),
{
    if tasks.len() == 0 {
        None
    } else if tasks.last().id@ == id {
        Some(tasks.len() - 1)
    } else {
        resolve(tasks.drop_last(), id)
    }
}

/// Task `i` lists an id that stands for task `j`.
pub open spec fn needs(tasks: Seq<SubTask>, i: int, j: int) -> bool {
    exists|k: int|
        0 <= k < tasks[i].depends_on@.len() && resolve(tasks, #[trigger] tasks[i].depends_on@[k]@)
            == Some(j)
}

/// For each task, the tasks that it depends on. Ids that stand for no task are
/// left out.
pub open spec fn dependencies(tasks: Seq<SubTask>) -> Seq<Set<usize>> {
    Seq::new(tasks.len(), |i: int| Set::new(|j: usize| needs(tasks, i, j as int)))
}

/// The place in `order` of the last entry that is one of `deps`, or -1.
pub open spec fn latest(deps: Set<usize>, order: Seq<usize>) -> int
    decreases order.len(),
{
    if order.len() == 0 {
        -1
    } else if deps.contains(order.last()) {
        order.len() - 1
    } else {
        latest(deps, order.drop_last())
    }
}

/// All of `deps` stand in `done`.
pub open spec fn all_in(deps: Set<usize>, done: Seq<usize>) -> bool {
    forall|j: usize| deps.contains(j) ==> #[trigger] done.contains(j)
}

/// `a` becomes free before `b`: its last dependency stands earlier in `order`,
/// or both wait for the same one and `a` is listed first.
pub open spec fn free_before(
    deps: Seq<Set<usize>>,
    order: Seq<usize>,
    a: usize,
    b: usize,
) -> bool {
    let x = latest(deps[a as int], order);
    let y = latest(deps[b as int], order);
    x < y || (x == y && a < b)
}

/// `order` lists every task once, each after its dependencies, and as early as
/// its dependencies allow: tasks come in the order in which they become free,
/// those that become free together in the order of the plan.
pub open spec fn is_run_order(deps: Seq<Set<usize>>, order: Seq<usize>) -> bool {
    &&& sorting::is_arrangement(order, deps.len() as int)
    &&& forall|p: int|
        0 <= p < order.len() ==> all_in(deps[#[trigger] order[p] as int], order.take(p))
    &&& forall|p: int, q: int|
        0 <= p < q < order.len() ==> free_before(
            deps,
            order,
            #[trigger] order[p],
            #[trigger] order[q],
        )
}

/// Each entry of `cycle` depends on the next one, and the last on the first.
pub open spec fn is_cycle(deps: Seq<Set<usize>>, cycle: Seq<usize>) -> bool {
    &&& cycle.len() > 0
    &&& forall|k: int| 0 <= k < cycle.len() ==> #[trigger] cycle[k] < deps.len()
    &&& forall|k: int|
        0 <= k < cycle.len() - 1 ==> deps[#[trigger] cycle[k] as int].contains(cycle[k + 1])
    &&& deps[cycle.last() as int].contains(cycle[0])
}

/// Some tasks depend on each other in a circle.
pub open spec fn has_cycle(deps: Seq<Set<usize>>) -> bool {
    exists|cycle: Seq<usize>| is_cycle(deps, cycle)
}

proof fn lemma_resolve(tasks: Seq<SubTask>, id: Seq<char>)
    ensures
        match resolve(tasks, id) {
            Some(j) => 0 <= j < tasks.len() && tasks[j].id@ == id,
            None => forall|j: int| 0 <= j < tasks.len() ==> (#[trigger] tasks[j]).id@ != id,
        },
    decreases tasks.len(),
{
    if tasks.len() > 0 && tasks.last().id@ != id {
        lemma_resolve(tasks.drop_last(), id);
        assert forall|j: int|
            0 <= j < tasks.len() && resolve(tasks, id) is None implies (#[trigger] tasks[j]).id@
            != id by {
            if j < tasks.len() - 1 {
                assert(tasks.drop_last()[j].id@ != id);
            }
        }
    }
}

proof fn lemma_latest(deps: Set<usize>, order: Seq<usize>)
    ensures
        -1 <= latest(deps, order) < order.len(),
        latest(deps, order) >= 0 ==> deps.contains(order[latest(deps, order)]),
        forall|r: int|
            latest(deps, order) < r < order.len() ==> !deps.contains(#[trigger] order[r]),
    decreases order.len(),
{
    if order.len() > 0 && !deps.contains(order.last()) {
        let d = order.drop_last();
        lemma_latest(deps, d);
        assert forall|r: int| latest(deps, order) < r < order.len() implies !deps.contains(
            #[trigger] order[r],
        ) by {
            if r < d.len() {
                assert(!deps.contains(d[r]));
            }
        }
    }
}

proof fn lemma_latest_is(deps: Set<usize>, order: Seq<usize>, p: int)
    requires
        -1 <= p < order.len(),
        p >= 0 ==> deps.contains(order[p]),
        forall|r: int| p < r < order.len() ==> !deps.contains(#[trigger] order[r]),
    ensures
        latest(deps, order) == p,
{
    lemma_latest(deps, order);
    let l = latest(deps, order);
    if l < p {
        assert(!deps.contains(order[p]));
    }
    if p < l {
        assert(!deps.contains(order[l]));
    }
}

/// A plan whose tasks can all be put in order has no circle.
pub proof fn law_run_order_excludes_cycle(deps: Seq<Set<usize>>, order: Seq<usize>)
    requires
        is_run_order(deps, order),
    ensures
        !has_cycle(deps),
{
    if has_cycle(deps) {
        let cycle = choose|cycle: Seq<usize>| is_cycle(deps, cycle);
        assert(cycle[0] < deps.len());
        sorting::lemma_arrangement_full(order, deps.len() as int, cycle[0]);
        let first = choose|p: int| 0 <= p < order.len() && order[p] == cycle[0];
        lemma_cycle_descends(deps, order, cycle, first, cycle.len() - 1);
        let last = choose|q: int|
            0 <= q <= first - (cycle.len() - 1) && order[q] == cycle[cycle.len() - 1];
        assert(all_in(deps[order[last] as int], order.take(last)));
        assert(order.take(last).contains(cycle[0]));
        let again = choose|p: int| 0 <= p < last && order.take(last)[p] == cycle[0];
        assert(order[again] == order[first]);
    }
}

proof fn lemma_cycle_descends(
    deps: Seq<Set<usize>>,
    order: Seq<usize>,
    cycle: Seq<usize>,
    first: int,
    k: int,
)
    requires
        is_run_order(deps, order),
        is_cycle(deps, cycle),
        0 <= first < order.len(),
        order[first] == cycle[0],
        0 <= k < cycle.len(),
    ensures
        exists|q: int| 0 <= q <= first - k && #[trigger] order[q] == cycle[k],
    decreases k,
{
    if k > 0 {
        lemma_cycle_descends(deps, order, cycle, first, k - 1);
        let q = choose|q: int| 0 <= q <= first - (k - 1) && #[trigger] order[q] == cycle[k - 1];
        assert(all_in(deps[order[q] as int], order.take(q)));
        assert(deps[cycle[k - 1] as int].contains(cycle[k - 1 + 1]));
        assert(order.take(q).contains(cycle[k]));
        let r = choose|r: int| 0 <= r < q && order.take(q)[r] == cycle[k];
        assert(order[r] == cycle[k]);
    }
}

/// There is at most one run order.
pub proof fn law_run_order_unique(deps: Seq<Set<usize>>, a: Seq<usize>, b: Seq<usize>)
    requires
        is_run_order(deps, a),
        is_run_order(deps, b),
    ensures
        a == b,
{
    assert forall|p: int| 0 <= p < a.len() implies a[p] == b[p] by {
        lemma_run_orders_agree(deps, a, b, p);
    }
    assert(a =~= b);
}

proof fn lemma_run_orders_agree(deps: Seq<Set<usize>>, a: Seq<usize>, b: Seq<usize>, p: int)
    requires
        is_run_order(deps, a),
        is_run_order(deps, b),
        0 <= p < a.len(),
    ensures
        a[p] == b[p],
    decreases p,
{
    assert forall|q: int| 0 <= q < p implies #[trigger] a[q] == b[q] by {
        lemma_run_orders_agree(deps, a, b, q);
    }
    if a[p] != b[p] {
        sorting::lemma_arrangement_full(b, deps.len() as int, a[p]);
        sorting::lemma_arrangement_full(a, deps.len() as int, b[p]);
        let q = choose|q: int| 0 <= q < b.len() && b[q] == a[p];
        let r = choose|r: int| 0 <= r < a.len() && a[r] == b[p];
        if q < p {
            assert(a[q] == b[q]);
        }
        if r < p {
            assert(a[r] == b[r]);
        }
        assert(a.take(p) =~= b.take(p));
        lemma_latest_shared(deps[a[p] as int], a, b, p);
        lemma_latest_shared(deps[b[p] as int], a, b, p);
        assert(free_before(deps, a, a[p], a[r]));
        assert(free_before(deps, b, b[p], b[q]));
    }
}

proof fn lemma_latest_shared(d: Set<usize>, a: Seq<usize>, b: Seq<usize>, p: int)
    requires
        0 <= p <= a.len(),
        p <= b.len(),
        a.take(p) == b.take(p),
        all_in(d, a.take(p)),
        forall|i: int, j: int| 0 <= i < j < a.len() ==> #[trigger] a[i] != #[trigger] a[j],
        forall|i: int, j: int| 0 <= i < j < b.len() ==> #[trigger] b[i] != #[trigger] b[j],
    ensures
        latest(d, a) == latest(d, b),
{
    lemma_latest(d, a);
    let l = latest(d, a);
    assert(l < p) by {
        if l >= p {
            assert(a.take(p).contains(a[l]));
            let m = choose|m: int| 0 <= m < p && a.take(p)[m] == a[l];
            assert(a[m] == a[l]);
        }
    }
    if l >= 0 {
        assert(a.take(p)[l] == a[l]);
        assert(b.take(p)[l] == b[l]);
    }
    assert forall|r: int| l < r < b.len() implies !d.contains(#[trigger] b[r]) by {
        if d.contains(b[r]) {
            assert(a.take(p).contains(b[r]));
            let m = choose|m: int| 0 <= m < p && a.take(p)[m] == b[r];
            assert(b.take(p)[m] == b[r]);
            assert(b[m] == b[r]);
            assert(m == r);
            assert(a[r] == b[r]);
        }
    }
    lemma_latest_is(d, b, l);
}

// Task `x` waits for one of `waiting`.
#[verifier::opaque]
spec fn waits(deps: Seq<Set<usize>>, waiting: Set<usize>, x: usize) -> bool {
    exists|y: usize| waiting.contains(y) && deps[x as int].contains(y)
}

// A task that waits, together with a task it waits for, step after step.
spec fn walk(deps: Seq<Set<usize>>, waiting: Set<usize>, start: usize, steps: nat) -> usize
    decreases steps,
{
    if steps == 0 {
        start
    } else {
        let at = walk(deps, waiting, start, (steps - 1) as nat);
        choose|y: usize| waiting.contains(y) && deps[at as int].contains(y)
    }
}

proof fn lemma_walk(deps: Seq<Set<usize>>, waiting: Set<usize>, start: usize, steps: nat)
    requires
        waiting.contains(start),
        forall|x: usize| #[trigger]
            waiting.contains(x) ==> waits(deps, waiting, x),
    ensures
        waiting.contains(walk(deps, waiting, start, steps)),
        steps > 0 ==> deps[walk(deps, waiting, start, (steps - 1) as nat) as int].contains(
            walk(deps, waiting, start, steps),
        ),
    decreases steps,
{
    if steps > 0 {
        lemma_walk(deps, waiting, start, (steps - 1) as nat);
        reveal(waits);
    }
}

/// Where each of some tasks waits for another of them, there is a circle.
proof fn lemma_waiting_has_cycle(deps: Seq<Set<usize>>, waiting: Set<usize>, start: usize)
    requires
        waiting.contains(start),
        forall|x: usize| #[trigger]
            waiting.contains(x) ==> x < deps.len() && waits(deps, waiting, x),
    ensures
        has_cycle(deps),
{
    let n = deps.len();
    let w = Seq::new(n + 1, |k: int| walk(deps, waiting, start, k as nat));
    assert forall|k: int| 0 <= k < w.len() implies waiting.contains(#[trigger] w[k]) && w[k] < n by {
        lemma_walk(deps, waiting, start, k as nat);
    }
    assert forall|k: int| 0 <= k < w.len() - 1 implies deps[#[trigger] w[k] as int].contains(
        w[k + 1],
    ) by {
        lemma_walk(deps, waiting, start, (k + 1) as nat);
    }
    if w.no_duplicates() {
        lemma_queue_bound(w, n as int);
    }
    let (a, b) = choose|a: int, b: int| 0 <= a < b < w.len() && w[a] == w[b];
    assert(0 <= a < b < w.len() && w[a] == w[b]);
    let cycle = w.subrange(a, b);
    assert forall|k: int| 0 <= k < cycle.len() - 1 implies deps[#[trigger] cycle[k] as int].contains(
        cycle[k + 1],
    ) by {
        assert(cycle[k] == w[a + k]);
        assert(cycle[k + 1] == w[a + k + 1]);
    }
    assert forall|k: int| 0 <= k < cycle.len() implies #[trigger] cycle[k] < deps.len() by {
        assert(cycle[k] == w[a + k]);
    }
    assert(cycle.last() == w[b - 1]);
    assert(deps[w[b - 1] as int].contains(w[b - 1 + 1]));
    assert(cycle[0] == w[a]);
    assert(is_cycle(deps, cycle));
}

// ---------------------------------------------------------------------------
// Ordering a graph
// ---------------------------------------------------------------------------

/// The sets that lists of dependencies stand for.
spec fn sets_of(edges: Seq<Vec<usize>>) -> Seq<Set<usize>> {
    Seq::new(edges.len(), |i: int| Set::new(|j: usize| edges[i]@.contains(j)))
}

proof fn place_of<T>(s: Seq<T>, x: T) -> (m: int)
    requires
        s.contains(x),
    ensures
        0 <= m < s.len(),
        s[m] == x,
{
    choose|m: int| 0 <= m < s.len() && s[m] == x
}

fn lists_only_done(deps: &Vec<usize>, done: &Vec<bool>) -> (r: bool)
    requires
        forall|k: int| 0 <= k < deps@.len() ==> #[trigger] deps@[k] < done@.len(),
    ensures
        r == forall|j: usize| deps@.contains(j) ==> #[trigger] done@[j as int],
{
    for k in 0..deps.len()
        invariant
            forall|m: int| 0 <= m < deps@.len() ==> #[trigger] deps@[m] < done@.len(),
            forall|m: int| 0 <= m < k ==> done@[#[trigger] deps@[m] as int],
    {
        if !done[deps[k]] {
            proof {
                assert(deps@.contains(deps@[k as int]));
            }
            return false;
        }
    }
    true
}

// What holds while tasks are taken from the queue: the first `h` of `q` are
// done, and `q` holds the tasks whose dependencies are. Of the tasks below
// `i`, those that only wait for the task at `h` have been entered too.
spec fn queue_holds(deps: Seq<Set<usize>>, q: Seq<usize>, h: int, i: int) -> bool {
    &&& 0 <= h <= q.len()
    &&& forall|p: int| 0 <= p < q.len() ==> #[trigger] q[p] < deps.len()
    &&& forall|p: int, r: int| 0 <= p < r < q.len() ==> #[trigger] q[p] != #[trigger] q[r]
    &&& forall|x: usize|
        x < deps.len() ==> (#[trigger] q.contains(x) <==> all_in(
            deps[x as int],
            q.take(if x < i { h + 1 } else { h }),
        ))
    &&& forall|p: int| 0 <= p < q.len() ==> all_in(deps[#[trigger] q[p] as int], q.take(p))
    &&& forall|p: int, r: int|
        0 <= p < r < q.len() ==> free_before(deps, q, #[trigger] q[p], #[trigger] q[r])
}

proof fn lemma_enter(deps: Seq<Set<usize>>, q: Seq<usize>, h: int, i: usize)
    requires
        queue_holds(deps, q, h, i as int),
        h < q.len(),
        i < deps.len(),
        !q.contains(i),
        all_in(deps[i as int], q.take(h + 1)),
    ensures
        queue_holds(deps, q.push(i), h, i + 1),
{
    let r = q.push(i);
    let d = deps[i as int];
    // The task waited for the one at `h`, and for none after it.
    assert(d.contains(q[h])) by {
        if !d.contains(q[h]) {
            assert forall|j: usize| d.contains(j) implies #[trigger] q.take(h).contains(j) by {
                assert(q.take(h + 1).contains(j));
                let m = place_of(q.take(h + 1), j);
                assert(q[m] == j);
                assert(q.take(h)[m] == j);
            }
            assert(all_in(d, q.take(h)));
        }
    }
    assert forall|x: usize| q.contains(x) implies latest(#[trigger] deps[x as int], r) == latest(
        deps[x as int],
        q,
    ) && latest(deps[x as int], q) <= h && (latest(deps[x as int], q) == h ==> x < i) by {
        let e = deps[x as int];
        let top = if x < i { h + 1 } else { h };
        assert(all_in(e, q.take(top)));
        lemma_latest(e, q);
        let l = latest(e, q);
        if l >= top {
            assert(q.take(top).contains(q[l]));
            let m = place_of(q.take(top), q[l]);
            assert(q[m] == q[l]);
        }
        if e.contains(i) {
            assert(q.take(top).contains(i));
            let m = place_of(q.take(top), i);
            assert(q[m] == i);
        }
        assert(r.drop_last() =~= q);
    }
    assert forall|s: int| h < s < r.len() implies !d.contains(#[trigger] r[s]) by {
        if d.contains(r[s]) {
            assert(q.take(h + 1).contains(r[s]));
            let m = place_of(q.take(h + 1), r[s]);
            assert(q[m] == r[s]);
            if s < q.len() {
                assert(q[s] == q[m]);
            }
        }
    }
    lemma_latest_is(d, r, h);
    assert(r.take(h + 1) =~= q.take(h + 1));
    assert(r.take(h) =~= q.take(h));
    assert forall|p: int| 0 <= p < r.len() implies all_in(deps[#[trigger] r[p] as int], r.take(p)) by {
        assert(r.take(p) =~= q.take(p));
        if p == q.len() {
            assert forall|j: usize| d.contains(j) implies #[trigger] r.take(p).contains(j) by {
                assert(q.take(h + 1).contains(j));
                let m = place_of(q.take(h + 1), j);
                assert(r.take(p)[m] == j);
            }
        } else {
            assert(r[p] == q[p]);
        }
    }
    assert forall|p: int, s: int| 0 <= p < s < r.len() implies #[trigger] r[p] != #[trigger] r[s] by {
        assert(r[p] == q[p]);
        if s < q.len() {
            assert(r[s] == q[s]);
        } else {
            assert(q.contains(q[p]));
        }
    }
    assert forall|p: int, s: int| 0 <= p < s < r.len() implies free_before(
        deps,
        r,
        #[trigger] r[p],
        #[trigger] r[s],
    ) by {
        assert(r[p] == q[p]);
        assert(q.contains(q[p]));
        if s < q.len() {
            assert(r[s] == q[s]);
            assert(q.contains(q[s]));
            assert(free_before(deps, q, q[p], q[s]));
        }
    }
    assert forall|x: usize| x < deps.len() implies (#[trigger] r.contains(x) <==> all_in(
        deps[x as int],
        r.take(if x < i + 1 { h + 1 } else { h }),
    )) by {
        if x == i {
            assert(r[q.len() as int] == i);
        } else {
            if r.contains(x) {
                let m = place_of(r, x);
                assert(q[m] == x);
            }
            if q.contains(x) {
                let m = place_of(q, x);
                assert(r[m] == x);
            }
            assert(q.contains(x) <==> r.contains(x));
        }
    }
}

proof fn lemma_next_round(deps: Seq<Set<usize>>, q: Seq<usize>, h: int)
    requires
        queue_holds(deps, q, h, deps.len() as int),
        h < q.len(),
    ensures
        queue_holds(deps, q, h + 1, 0),
{
    assert forall|x: usize| x < deps.len() implies (#[trigger] q.contains(x) <==> all_in(
        deps[x as int],
        q.take(if x < 0 { h + 2 } else { h + 1 }),
    )) by {}
}

/// The run order of a graph, by Kahn's algorithm: tasks are taken from a queue,
/// and each one that this sets free is entered at its end.
fn run_order(edges: &Vec<Vec<usize>>) -> (r: Option<Vec<usize>>)
    requires
        forall|i: int, k: int|
            0 <= i < edges@.len() && 0 <= k < edges@[i]@.len() ==> #[trigger] edges@[i]@[k]
                < edges@.len(),
    ensures
        match r {
            Some(order) => is_run_order(sets_of(edges@), order@),
            None => has_cycle(sets_of(edges@)),
        },
{
    let n: usize = edges.len();
    let ghost deps = sets_of(edges@);
    let mut done: Vec<bool> = Vec::new();
    let mut entered: Vec<bool> = Vec::new();
    let mut queue: Vec<usize> = Vec::new();
    for i in 0..n
        invariant
            n == edges@.len(),
            deps == sets_of(edges@),
            done@.len() == i,
            entered@.len() == i,
            forall|x: int| 0 <= x < i ==> !(#[trigger] done@[x]),
            forall|x: int| 0 <= x < i ==> (#[trigger] entered@[x] <==> queue@.contains(x as usize)),
            forall|p: int| 0 <= p < queue@.len() ==> #[trigger] queue@[p] < i,
            forall|p: int, q: int|
                0 <= p < q < queue@.len() ==> #[trigger] queue@[p] < #[trigger] queue@[q],
            forall|p: int| 0 <= p < queue@.len() ==> deps[#[trigger] queue@[p] as int].is_empty(),
            forall|x: usize| x < i && deps[x as int].is_empty() ==> #[trigger] queue@.contains(x),
    {
        done.push(false);
        let free = edges[i].len() == 0;
        entered.push(free);
        let ghost before = queue@;
        proof {
            if free {
                assert(deps[i as int] =~= Set::<usize>::empty());
            } else {
                assert(edges@[i as int]@.contains(edges@[i as int]@[0]));
                assert(deps[i as int].contains(edges@[i as int]@[0]));
            }
            if before.contains(i) {
                let m = place_of(before, i);
                assert(before[m] < i);
            }
        }
        if free {
            queue.push(i);
            proof {
                assert forall|x: usize| x < i + 1 implies (#[trigger] queue@.contains(x)
                    <==> before.contains(x) || x == i) by {
                    if before.contains(x) {
                        let m = place_of(before, x);
                        assert(queue@[m] == x);
                    }
                    if x == i {
                        assert(queue@[before.len() as int] == i);
                    }
                    if queue@.contains(x) && x != i {
                        let m = place_of(queue@, x);
                        assert(before[m] == x);
                    }
                }
            }
        }
    }
    let mut h: usize = 0;
    proof {
        assert forall|x: usize| x < deps.len() implies (#[trigger] queue@.contains(x) <==> all_in(
            deps[x as int],
            queue@.take(0),
        )) by {
            if queue@.contains(x) {
                let m = place_of(queue@, x);
                assert(deps[queue@[m] as int].is_empty());
            }
            if all_in(deps[x as int], queue@.take(0)) {
                assert forall|j: usize| !deps[x as int].contains(j) by {
                    if deps[x as int].contains(j) {
                        assert(queue@.take(0).contains(j));
                    }
                }
                assert(deps[x as int] =~= Set::<usize>::empty());
            }
        }
        assert forall|p: int| 0 <= p < queue@.len() implies all_in(
            deps[#[trigger] queue@[p] as int],
            queue@.take(p),
        ) by {
            assert(deps[queue@[p] as int].is_empty());
        }
        assert forall|p: int, q: int| 0 <= p < q < queue@.len() implies free_before(
            deps,
            queue@,
            #[trigger] queue@[p],
            #[trigger] queue@[q],
        ) by {
            assert(deps[queue@[p] as int].is_empty());
            assert(deps[queue@[q] as int].is_empty());
            lemma_latest(deps[queue@[p] as int], queue@);
            lemma_latest(deps[queue@[q] as int], queue@);
        }
        lemma_queue_bound(queue@, n as int);
    }
    while h < queue.len()
        invariant
            n == edges@.len(),
            deps == sets_of(edges@),
            forall|i: int, k: int|
                0 <= i < edges@.len() && 0 <= k < edges@[i]@.len() ==> #[trigger] edges@[i]@[k]
                    < edges@.len(),
            queue_holds(deps, queue@, h as int, 0),
            done@.len() == n,
            entered@.len() == n,
            queue@.len() <= n,
            forall|x: int| 0 <= x < n ==> (#[trigger] entered@[x] <==> queue@.contains(x as usize)),
            forall|x: int|
                0 <= x < n ==> (#[trigger] done@[x] <==> queue@.take(h as int).contains(
                    x as usize,
                )),
        decreases n - h,
    {
        let current: usize = queue[h];
        let ghost done_before = done@;
        done.set(current, true);
        proof {
            assert forall|x: int| 0 <= x < n implies (#[trigger] done@[x] <==> queue@.take(
                h + 1,
            ).contains(x as usize)) by {
                lemma_take_contains(queue@, h as int, x as usize);
                if x != current {
                    assert(done@[x] == done_before[x]);
                }
            }
        }
        for i in 0..n
            invariant
                n == edges@.len(),
                deps == sets_of(edges@),
                forall|i: int, k: int|
                    0 <= i < edges@.len() && 0 <= k < edges@[i]@.len() ==> #[trigger] edges@[i]@[k]
                        < edges@.len(),
                h < queue@.len(),
                queue_holds(deps, queue@, h as int, i as int),
                done@.len() == n,
                entered@.len() == n,
                queue@.len() <= n,
                forall|x: int|
                    0 <= x < n ==> (#[trigger] entered@[x] <==> queue@.contains(x as usize)),
                forall|x: int|
                    0 <= x < n ==> (#[trigger] done@[x] <==> queue@.take(h + 1).contains(
                        x as usize,
                    )),
        {
            let ready = lists_only_done(&edges[i], &done);
            proof {
                lemma_ready(edges@, queue@, h + 1, done@, i as int, ready);
            }
            if !entered[i] && ready {
                let ghost before = queue@;
                proof {
                    lemma_enter(deps, before, h as int, i);
                }
                queue.push(i);
                entered.set(i, true);
                proof {
                    lemma_queue_bound(queue@, n as int);
                    assert(queue@.take(h + 1) =~= before.take(h + 1));
                    assert forall|x: int| 0 <= x < n implies (#[trigger] entered@[x]
                        <==> queue@.contains(x as usize)) by {
                        if x == i {
                            assert(queue@[before.len() as int] == i);
                        } else {
                            if before.contains(x as usize) {
                                let m = place_of(before, x as usize);
                                assert(queue@[m] == x as usize);
                            }
                            if queue@.contains(x as usize) {
                                let m = place_of(queue@, x as usize);
                                assert(before[m] == x as usize);
                            }
                        }
                    }
                }
            } else {
                proof {
                    lemma_pass(deps, queue@, h as int, i);
                }
            }
        }
        proof {
            lemma_next_round(deps, queue@, h as int);
        }
        h = h + 1;
    }
    proof {
        assert(queue@.take(h as int) =~= queue@);
    }
    if queue.len() == n {
        Some(queue)
    } else {
        proof {
            let waiting = Set::new(|x: usize| x < n && !queue@.contains(x));
            assert(exists|x: usize| waiting.contains(x)) by {
                if forall|x: usize| !waiting.contains(x) {
                    assert forall|x: usize| x < n implies #[trigger] queue@.contains(x) by {
                        assert(!waiting.contains(x));
                    }
                    lemma_full_queue(queue@, n as int);
                }
            }
            let start = choose|x: usize| waiting.contains(x);
            assert forall|x: usize| #[trigger] waiting.contains(x) implies x < deps.len()
                && waits(deps, waiting, x) by {
                reveal(waits);
                assert(!all_in(deps[x as int], queue@.take(h as int)));
                let y = choose|y: usize| deps[x as int].contains(y) && !queue@.contains(y);
                assert(deps[x as int].contains(y));
                let k = place_of(edges@[x as int]@, y);
                assert(edges@[x as int]@[k] < n);
                assert(waiting.contains(y));
            }
            lemma_waiting_has_cycle(deps, waiting, start);
        }
        None
    }
}

proof fn lemma_take_contains(q: Seq<usize>, h: int, x: usize)
    requires
        0 <= h < q.len(),
    ensures
        q.take(h + 1).contains(x) <==> q.take(h).contains(x) || q[h] == x,
{
    if q.take(h).contains(x) {
        let m = place_of(q.take(h), x);
        assert(q.take(h + 1)[m] == x);
    }
    if q[h] == x {
        assert(q.take(h + 1)[h] == x);
    }
    if q.take(h + 1).contains(x) && q[h] != x {
        let m = place_of(q.take(h + 1), x);
        assert(q.take(h)[m] == x);
    }
}

proof fn lemma_ready(
    edges: Seq<Vec<usize>>,
    q: Seq<usize>,
    top: int,
    done: Seq<bool>,
    i: int,
    ready: bool,
)
    requires
        0 <= i < edges.len(),
        done.len() == edges.len(),
        forall|i: int, k: int|
            0 <= i < edges.len() && 0 <= k < edges[i]@.len() ==> #[trigger] edges[i]@[k]
                < edges.len(),
        forall|x: int|
            0 <= x < done.len() ==> (#[trigger] done[x] <==> q.take(top).contains(x as usize)),
        ready == forall|j: usize| edges[i]@.contains(j) ==> #[trigger] done[j as int],
    ensures
        ready <==> all_in(sets_of(edges)[i], q.take(top)),
{
    let d = sets_of(edges)[i];
    if ready {
        assert forall|j: usize| d.contains(j) implies #[trigger] q.take(top).contains(j) by {
            let k = place_of(edges[i]@, j);
            assert(edges[i]@[k] < edges.len());
            assert(done[j as int]);
        }
    }
    if all_in(d, q.take(top)) {
        assert forall|j: usize| edges[i]@.contains(j) implies #[trigger] done[j as int] by {
            assert(d.contains(j));
            let k = place_of(edges[i]@, j);
            assert(edges[i]@[k] < edges.len());
            assert(q.take(top).contains(j));
        }
    }
}

proof fn lemma_pass(deps: Seq<Set<usize>>, q: Seq<usize>, h: int, i: usize)
    requires
        queue_holds(deps, q, h, i as int),
        h < q.len(),
        i < deps.len(),
        q.contains(i) || !all_in(deps[i as int], q.take(h + 1)),
    ensures
        queue_holds(deps, q, h, i + 1),
{
    assert forall|x: usize| x < deps.len() implies (#[trigger] q.contains(x) <==> all_in(
        deps[x as int],
        q.take(if x < i + 1 { h + 1 } else { h }),
    )) by {
        if x == i && q.contains(i) {
            assert(all_in(deps[i as int], q.take(h)));
            assert forall|j: usize| deps[i as int].contains(j) implies #[trigger] q.take(
                h + 1,
            ).contains(j) by {
                assert(q.take(h).contains(j));
                lemma_take_contains(q, h, j);
            }
        }
    }
}

proof fn lemma_queue_bound(q: Seq<usize>, n: int)
    requires
        0 <= n,
        forall|p: int| 0 <= p < q.len() ==> #[trigger] q[p] < n,
        forall|p: int, r: int| 0 <= p < r < q.len() ==> #[trigger] q[p] != #[trigger] q[r],
    ensures
        q.len() <= n,
{
    let named = q.map_values(|x: usize| x as int);
    assert(named.no_duplicates());
    named.unique_seq_to_set();
    let range = vstd::set_lib::set_int_range(0, n);
    vstd::set_lib::lemma_int_range(0, n);
    assert(named.to_set().subset_of(range)) by {
        assert forall|x: int| named.to_set().contains(x) implies range.contains(x) by {
            let p = place_of(named, x);
            assert(q[p] < n);
        }
    }
    vstd::set_lib::lemma_len_subset(named.to_set(), range);
}

proof fn lemma_full_queue(q: Seq<usize>, n: int)
    requires
        0 <= n <= usize::MAX,
        forall|x: usize| x < n ==> #[trigger] q.contains(x),
    ensures
        n <= q.len(),
{
    let named = q.map_values(|x: usize| x as int);
    let range = vstd::set_lib::set_int_range(0, n);
    vstd::set_lib::lemma_int_range(0, n);
    assert(range.subset_of(named.to_set())) by {
        assert forall|x: int| range.contains(x) implies named.to_set().contains(x) by {
            assert(q.contains(x as usize));
            let p = place_of(q, x as usize);
            assert(named[p] == x);
        }
    }
    vstd::seq_lib::seq_to_set_is_finite(named);
    vstd::set_lib::lemma_len_subset(range, named.to_set());
    named.lemma_cardinality_of_set();
}

// ---------------------------------------------------------------------------
// Batches
// ---------------------------------------------------------------------------

/// `a` stands before `b` in `order`.
pub open spec fn stands_before(order: Seq<usize>, a: usize, b: usize) -> bool {
    exists|x: int, y: int|
        0 <= x < y < order.len() && #[trigger] order[x] == a && #[trigger] order[y] == b
}

/// Within a batch, tasks are ranked by priority, then by id, then by their
/// place in the run order.
pub open spec fn ranks_before(
    tasks: Seq<SubTask>,
    order: Seq<usize>,
    a: usize,
    b: usize,
) -> bool {
    let s = tasks[a as int];
    let t = tasks[b as int];
    ||| s.priority < t.priority
    ||| s.priority == t.priority && text::precedes(s.id@, t.id@)
    ||| s.priority == t.priority && s.id@ == t.id@ && stands_before(order, a, b)
}

/// Task `j` stands in a batch before `batches[d]`.
pub open spec fn in_earlier_batch(batches: Seq<Seq<usize>>, d: int, j: usize) -> bool {
    exists|e: int| 0 <= e < d && (#[trigger] batches[e]).contains(j)
}

/// `batches` groups the tasks into rounds. Every task stands in exactly one
/// round, all of its dependencies in earlier ones, and one of them in the
/// round right before; each round is ranked.
pub open spec fn is_batching(
    tasks: Seq<SubTask>,
    order: Seq<usize>,
    batches: Seq<Seq<usize>>,
) -> bool {
    let deps = dependencies(tasks);
    &&& forall|i: usize| i < tasks.len() ==> #[trigger] in_earlier_batch(
        batches,
        batches.len() as int,
        i,
    )
    &&& forall|d: int, k: int|
        0 <= d < batches.len() && 0 <= k < batches[d].len() ==> #[trigger] batches[d][k]
            < tasks.len()
    &&& forall|d: int, k: int, e: int, m: int|
        0 <= d < batches.len() && 0 <= k < batches[d].len() && 0 <= e < batches.len() && 0 <= m
            < batches[e].len() && #[trigger] batches[d][k] == #[trigger] batches[e][m] ==> d == e
            && k == m
    &&& forall|d: int| 0 <= d < batches.len() ==> (#[trigger] batches[d]).len() > 0
    &&& forall|d: int, k: int, j: usize|
        0 <= d < batches.len() && 0 <= k < batches[d].len()
            && deps[#[trigger] batches[d][k] as int].contains(j) ==> #[trigger] in_earlier_batch(
            batches,
            d,
            j,
        )
    &&& forall|d: int, k: int|
        0 < d < batches.len() && 0 <= k < batches[d].len() ==> waits_for_batch(
            deps,
            batches,
            d - 1,
            #[trigger] batches[d][k],
        )
    &&& forall|d: int, k: int, m: int|
        0 <= d < batches.len() && 0 <= k < m < batches[d].len() ==> ranks_before(
            tasks,
            order,
            #[trigger] batches[d][k],
            #[trigger] batches[d][m],
        )
}

/// Task `i` depends on a task of the batch `d`.
pub open spec fn waits_for_batch(
    deps: Seq<Set<usize>>,
    batches: Seq<Seq<usize>>,
    d: int,
    i: usize,
) -> bool {
    exists|j: usize| deps[i as int].contains(j) && #[trigger] batches[d].contains(j)
}

/// What tasks of one batch are ranked by, before their place.
struct BatchKey {
    priority: i32,
    id: String,
}

impl sorting::Rank for BatchKey {
    closed spec fn under(&self, other: &Self) -> bool {
        self.priority < other.priority || (self.priority == other.priority && text::precedes(
            self.id@,
            other.id@,
        ))
    }

    proof fn asymmetric(a: &Self, b: &Self) {
        text::lemma_precedes_total(a.id@, b.id@);
    }

    proof fn between(a: &Self, b: &Self, c: &Self) {
        <String as sorting::Rank>::between(&a.id, &b.id, &c.id);
    }

    fn is_under(&self, other: &Self) -> (r: bool) {
        self.priority < other.priority || (self.priority == other.priority && text::comes_before(
            self.id.as_str(),
            other.id.as_str(),
        ))
    }
}

// The round of each task: one after the last round of its dependencies.
spec fn levels_hold(
    deps: Seq<Set<usize>>,
    order: Seq<usize>,
    upto: int,
    level: Seq<usize>,
    top: int,
) -> bool {
    &&& level.len() == deps.len()
    &&& forall|p: int| 0 <= p < upto ==> level[#[trigger] order[p] as int] < top
    &&& forall|p: int, j: usize|
        0 <= p < upto && deps[#[trigger] order[p] as int].contains(j) ==> #[trigger] level[j as int]
            < level[order[p] as int]
    &&& forall|p: int|
        0 <= p < upto && level[#[trigger] order[p] as int] > 0 ==> waits_for_level(
            deps,
            level,
            level[order[p] as int] - 1,
            order[p],
        )
    &&& forall|d: int|
        0 <= d < top ==> exists|p: int|
            0 <= p < upto && level[#[trigger] order[p] as int] == #[trigger] same(d)
}

spec fn same(d: int) -> int {
    d
}

spec fn waits_for_level(deps: Seq<Set<usize>>, level: Seq<usize>, d: int, i: usize) -> bool {
    exists|j: usize| deps[i as int].contains(j) && #[trigger] level[j as int] == d
}

proof fn lemma_level_step(
    deps: Seq<Set<usize>>,
    order: Seq<usize>,
    p: int,
    before: Seq<usize>,
    after: Seq<usize>,
    top: int,
    mine: usize,
)
    requires
        is_run_order(deps, order),
        0 <= p < order.len(),
        levels_hold(deps, order, p, before, top),
        after == before.update(order[p] as int, mine),
        forall|j: usize| deps[order[p] as int].contains(j) ==> #[trigger] before[j as int] < mine,
        mine > 0 ==> waits_for_level(deps, before, mine - 1, order[p]),
    ensures
        levels_hold(deps, order, p + 1, after, if mine < top { top } else { mine + 1 }),
{
    let i = order[p];
    let new_top = if mine < top { top } else { mine + 1 };
    assert forall|q: int, j: usize|
        0 <= q < p + 1 && #[trigger] deps[order[q] as int].contains(j) implies j != i && j
        < deps.len() by {
        assert(all_in(deps[order[q] as int], order.take(q)));
        assert(order.take(q).contains(j));
        let m = place_of(order.take(q), j);
        assert(order[m] == j);
    }
    assert forall|q: int| 0 <= q < p implies #[trigger] order[q] != i by {}
    assert forall|q: int, j: usize|
        0 <= q < p + 1 && deps[#[trigger] order[q] as int].contains(j) implies #[trigger] after[j as int]
        < after[order[q] as int] by {
        assert(deps[order[q] as int].contains(j));
        assert(after[j as int] == before[j as int]);
    }
    assert forall|q: int|
        0 <= q < p + 1 && after[#[trigger] order[q] as int] > 0 implies waits_for_level(
        deps,
        after,
        after[order[q] as int] - 1,
        order[q],
    ) by {
        let l = after[order[q] as int] - 1;
        assert(q < p ==> after[order[q] as int] == before[order[q] as int]);
        assert(waits_for_level(deps, before, l, order[q]));
        let j = choose|j: usize|
            deps[order[q] as int].contains(j) && #[trigger] before[j as int] == l;
        assert(deps[order[q] as int].contains(j));
        assert(after[j as int] == l);
    }
    assert forall|d: int| 0 <= d < new_top implies exists|q: int|
        0 <= q < p + 1 && after[#[trigger] order[q] as int] == #[trigger] same(d) by {
        if d == mine {
            assert(after[order[p] as int] == same(d));
        } else {
            if d >= top {
                // `mine` is then above `top`, so some dependency lies at `mine - 1`.
                assert(waits_for_level(deps, before, mine - 1, i));
                let j = choose|j: usize|
                    deps[i as int].contains(j) && #[trigger] before[j as int] == mine - 1;
                assert(all_in(deps[i as int], order.take(p)));
                assert(order.take(p).contains(j));
                let m = place_of(order.take(p), j);
                assert(order[m] == j);
                assert(before[order[m] as int] < top);
            }
            assert(same(d) < top);
            let q = choose|q: int|
                0 <= q < p && before[#[trigger] order[q] as int] == #[trigger] same(d);
            assert(after[order[q] as int] == same(d));
        }
    }
}

fn batch_order(tasks: &Vec<SubTask>, members: &Vec<usize>) -> (r: Vec<usize>)
    requires
        forall|k: int| 0 <= k < members@.len() ==> #[trigger] members@[k] < tasks@.len(),
    ensures
        r@.len() == members@.len(),
        forall|k: int| 0 <= k < r@.len() ==> members@.contains(#[trigger] r@[k]),
        forall|k: int| 0 <= k < members@.len() ==> r@.contains(#[trigger] members@[k]),
        (forall|i: int, j: int|
            0 <= i < j < members@.len() ==> #[trigger] members@[i] != #[trigger] members@[j]) ==> (
        forall|i: int, j: int| 0 <= i < j < r@.len() ==> #[trigger] r@[i] != #[trigger] r@[j]),
        forall|k: int, m: int|
            0 <= k < m < r@.len() ==> ranks_before(
                tasks@,
                members@,
                #[trigger] r@[k],
                #[trigger] r@[m],
            ),
{
    let mut keys: Vec<BatchKey> = Vec::new();
    for k in 0..members.len()
        invariant
            forall|k: int| 0 <= k < members@.len() ==> #[trigger] members@[k] < tasks@.len(),
            keys@.len() == k,
            forall|m: int|
                0 <= m < k ==> (#[trigger] keys@[m]).priority == tasks@[members@[m] as int].priority
                    && keys@[m].id@ == tasks@[members@[m] as int].id@,
    {
        let task = &tasks[members[k]];
        keys.push(BatchKey { priority: task.priority, id: task.id.clone() });
    }
    let places = sorting::order_of(&keys);
    let mut r: Vec<usize> = Vec::new();
    for k in 0..places.len()
        invariant
            places@.len() == members@.len(),
            sorting::is_arrangement(places@, members@.len() as int),
            r@.len() == k,
            forall|m: int| 0 <= m < k ==> #[trigger] r@[m] == members@[places@[m] as int],
    {
        proof {
            assert(places@[k as int] < members@.len());
        }
        r.push(members[places[k]]);
    }
    proof {
        assert forall|k: int| 0 <= k < members@.len() implies r@.contains(
            #[trigger] members@[k],
        ) by {
            sorting::lemma_arrangement_full(places@, members@.len() as int, k as usize);
            let m = place_of(places@, k as usize);
            assert(r@[m] == members@[k]);
        }
        assert forall|k: int| 0 <= k < r@.len() implies members@.contains(#[trigger] r@[k]) by {
            assert(places@[k] < members@.len());
        }
        assert forall|k: int, m: int| 0 <= k < m < r@.len() implies ranks_before(
            tasks@,
            members@,
            #[trigger] r@[k],
            #[trigger] r@[m],
        ) by {
            let x = places@[k] as int;
            let y = places@[m] as int;
            assert(sorting::comes_first(keys@, x, y));
            let a = keys@[x];
            let b = keys@[y];
            text::lemma_precedes_total(a.id@, b.id@);
            if x < y {
                assert(members@[x] == r@[k] && members@[y] == r@[m]);
            }
        }
        if forall|i: int, j: int|
            0 <= i < j < members@.len() ==> #[trigger] members@[i] != #[trigger] members@[j] {
            assert forall|i: int, j: int| 0 <= i < j < r@.len() implies #[trigger] r@[i]
                != #[trigger] r@[j] by {
                let x = places@[i] as int;
                let y = places@[j] as int;
                if x < y {
                    assert(members@[x] != members@[y]);
                } else {
                    assert(members@[y] != members@[x]);
                }
            }
        }
    }
    r
}

fn levels_of(edges: &Vec<Vec<usize>>, order: &Vec<usize>) -> (r: (Vec<usize>, usize))
    requires
        is_run_order(sets_of(edges@), order@),
    ensures
        levels_hold(sets_of(edges@), order@, order@.len() as int, r.0@, r.1 as int),
{
    let ghost deps = sets_of(edges@);
    let n: usize = edges.len();
    let mut level: Vec<usize> = Vec::new();
    for i in 0..n
        invariant
            level@.len() == i,
    {
        level.push(0);
    }
    let mut top: usize = 0;
    for p in 0..order.len()
        invariant
            n == edges@.len(),
            deps == sets_of(edges@),
            is_run_order(deps, order@),
            levels_hold(deps, order@, p as int, level@, top as int),
            top <= p,
    {
        let i: usize = order[p];
        proof {
            assert(order@[p as int] < n);
            assert(all_in(deps[i as int], order@.take(p as int)));
            assert forall|k: int| 0 <= k < edges@[i as int]@.len() implies deps[i as int].contains(
                #[trigger] edges@[i as int]@[k],
            ) && edges@[i as int]@[k] < n && level@[edges@[i as int]@[k] as int] < top by {
                let j = edges@[i as int]@[k];
                assert(edges@[i as int]@.contains(j));
                assert(order@.take(p as int).contains(j));
                let m = place_of(order@.take(p as int), j);
                assert(order@[m] == j);
            }
        }
        let mut mine: usize = 0;
        let count: usize = edges[i].len();
        for k in 0..count
            invariant
                i < n,
                n == edges@.len(),
                level@.len() == n,
                top <= p,
                p < order@.len(),
                count == edges@[i as int]@.len(),
                deps == sets_of(edges@),
                forall|k: int|
                    0 <= k < edges@[i as int]@.len() ==> deps[i as int].contains(
                        #[trigger] edges@[i as int]@[k],
                    ) && edges@[i as int]@[k] < n && level@[edges@[i as int]@[k] as int] < top,
                mine <= top,
                forall|m: int| 0 <= m < k ==> level@[#[trigger] edges@[i as int]@[m] as int] < mine,
                mine > 0 ==> waits_for_level(deps, level@, mine - 1, i),
        {
            let j: usize = edges[i][k];
            if level[j] >= mine {
                mine = level[j] + 1;
                proof {
                    assert(deps[i as int].contains(j) && level@[j as int] == mine - 1);
                }
            }
        }
        let ghost before = level@;
        proof {
            assert forall|j: usize| deps[i as int].contains(j) implies #[trigger] before[j as int]
                < mine by {
                let k = place_of(edges@[i as int]@, j);
                assert(level@[edges@[i as int]@[k] as int] < mine);
            }
        }
        level.set(i, mine);
        proof {
            lemma_level_step(deps, order@, p as int, before, level@, top as int, mine);
        }
        if mine >= top {
            top = mine + 1;
        }
    }
    (level, top)
}

fn members_of(order: &Vec<usize>, level: &Vec<usize>, d: usize) -> (r: Vec<usize>)
    requires
        forall|p: int| 0 <= p < order@.len() ==> #[trigger] order@[p] < level@.len(),
        forall|p: int, q: int|
            0 <= p < q < order@.len() ==> #[trigger] order@[p] != #[trigger] order@[q],
    ensures
        forall|k: int|
            0 <= k < r@.len() ==> #[trigger] r@[k] < level@.len() && level@[r@[k] as int] == d,
        forall|p: int|
            0 <= p < order@.len() && level@[order@[p] as int] == d ==> r@.contains(
                #[trigger] order@[p],
            ),
        forall|k: int, m: int|
            0 <= k < m < r@.len() ==> stands_before(order@, #[trigger] r@[k], #[trigger] r@[m]),
        forall|k: int, m: int| 0 <= k < m < r@.len() ==> #[trigger] r@[k] != #[trigger] r@[m],
{
    let mut r: Vec<usize> = Vec::new();
    for p in 0..order.len()
        invariant
            forall|p: int| 0 <= p < order@.len() ==> #[trigger] order@[p] < level@.len(),
            forall|p: int, q: int|
                0 <= p < q < order@.len() ==> #[trigger] order@[p] != #[trigger] order@[q],
            forall|k: int|
                0 <= k < r@.len() ==> #[trigger] r@[k] < level@.len() && level@[r@[k] as int] == d
                    && order@.take(p as int).contains(r@[k]),
            forall|q: int|
                0 <= q < p && level@[order@[q] as int] == d ==> r@.contains(#[trigger] order@[q]),
            forall|k: int, m: int|
                0 <= k < m < r@.len() ==> stands_before(order@, #[trigger] r@[k], #[trigger] r@[m]),
            forall|k: int, m: int| 0 <= k < m < r@.len() ==> #[trigger] r@[k] != #[trigger] r@[m],
    {
        let i: usize = order[p];
        let ghost before = r@;
        proof {
            assert forall|k: int| 0 <= k < before.len() implies stands_before(
                order@,
                #[trigger] before[k],
                i,
            ) && before[k] != i && order@.take(p + 1).contains(before[k]) by {
                let x = place_of(order@.take(p as int), before[k]);
                assert(order@[x] == before[k] && order@[p as int] == i);
                assert(order@.take(p + 1)[x] == before[k]);
            }
        }
        if level[i] == d {
            r.push(i);
            proof {
                assert(order@.take(p + 1)[p as int] == i);
                assert forall|q: int|
                    0 <= q < p + 1 && level@[order@[q] as int] == d implies r@.contains(
                    #[trigger] order@[q],
                ) by {
                    if q < p {
                        let m = place_of(before, order@[q]);
                        assert(r@[m] == order@[q]);
                    } else {
                        assert(r@[before.len() as int] == i);
                    }
                }
            }
        }
    }
    r
}

spec fn batch_holds(
    tasks: Seq<SubTask>,
    order: Seq<usize>,
    level: Seq<usize>,
    d: int,
    batch: Seq<usize>,
) -> bool {
    &&& forall|k: int|
        0 <= k < batch.len() ==> #[trigger] batch[k] < tasks.len() && level[batch[k] as int] == d
    &&& forall|i: usize| i < tasks.len() && #[trigger] level[i as int] == d ==> batch.contains(i)
    &&& forall|k: int, m: int| 0 <= k < m < batch.len() ==> #[trigger] batch[k] != #[trigger] batch[m]
    &&& forall|k: int, m: int|
        0 <= k < m < batch.len() ==> ranks_before(
            tasks,
            order,
            #[trigger] batch[k],
            #[trigger] batch[m],
        )
}

proof fn lemma_batching(
    tasks: Seq<SubTask>,
    order: Seq<usize>,
    level: Seq<usize>,
    top: int,
    batches: Seq<Seq<usize>>,
)
    requires
        is_run_order(dependencies(tasks), order),
        levels_hold(dependencies(tasks), order, order.len() as int, level, top),
        batches.len() == top,
        forall|d: int| 0 <= d < top ==> batch_holds(tasks, order, level, d, #[trigger] batches[d]),
    ensures
        is_batching(tasks, order, batches),
{
    let deps = dependencies(tasks);
    assert forall|i: usize| i < tasks.len() implies #[trigger] in_earlier_batch(
        batches,
        batches.len() as int,
        i,
    ) by {
        sorting::lemma_arrangement_full(order, tasks.len() as int, i);
        let p = place_of(order, i);
        assert(level[order[p] as int] < top);
        let d = level[i as int] as int;
        assert(batch_holds(tasks, order, level, d, batches[d]));
        assert(batches[d].contains(i));
    }
    assert forall|d: int, k: int, e: int, m: int|
        0 <= d < batches.len() && 0 <= k < batches[d].len() && 0 <= e < batches.len() && 0 <= m
            < batches[e].len() && #[trigger] batches[d][k] == #[trigger] batches[e][m] implies d == e
        && k == m by {
        assert(batch_holds(tasks, order, level, d, batches[d]));
        assert(batch_holds(tasks, order, level, e, batches[e]));
        if k < m {
            assert(batches[d][k] != batches[d][m]);
        } else if m < k {
            assert(batches[d][m] != batches[d][k]);
        }
    }
    assert forall|d: int| 0 <= d < batches.len() implies (#[trigger] batches[d]).len() > 0 by {
        assert(batch_holds(tasks, order, level, d, batches[d]));
        assert(same(d) < top);
        let p = choose|p: int|
            0 <= p < order.len() && level[#[trigger] order[p] as int] == #[trigger] same(d);
        assert(level[order[p] as int] == d);
        assert(batches[d].contains(order[p]));
    }
    assert forall|d: int, k: int, j: usize|
        0 <= d < batches.len() && 0 <= k < batches[d].len()
            && deps[#[trigger] batches[d][k] as int].contains(j) implies #[trigger] in_earlier_batch(
        batches,
        d,
        j,
    ) by {
        assert(batch_holds(tasks, order, level, d, batches[d]));
        let i = batches[d][k];
        sorting::lemma_arrangement_full(order, tasks.len() as int, i);
        let p = place_of(order, i);
        assert(all_in(deps[order[p] as int], order.take(p)));
        assert(order.take(p).contains(j));
        let q = place_of(order.take(p), j);
        assert(order[q] == j);
        assert(level[j as int] < level[order[p] as int]);
        let e = level[j as int] as int;
        assert(batch_holds(tasks, order, level, e, batches[e]));
        assert(batches[e].contains(j));
    }
    assert forall|d: int, k: int|
        0 < d < batches.len() && 0 <= k < batches[d].len() implies waits_for_batch(
        deps,
        batches,
        d - 1,
        #[trigger] batches[d][k],
    ) by {
        assert(batch_holds(tasks, order, level, d, batches[d]));
        let i = batches[d][k];
        sorting::lemma_arrangement_full(order, tasks.len() as int, i);
        let p = place_of(order, i);
        assert(level[order[p] as int] > 0);
        let j = choose|j: usize| deps[i as int].contains(j) && #[trigger] level[j as int] == d - 1;
        assert(all_in(deps[order[p] as int], order.take(p)));
        assert(order.take(p).contains(j));
        let q = place_of(order.take(p), j);
        assert(order[q] == j);
        assert(batch_holds(tasks, order, level, d - 1, batches[d - 1]));
        assert(batches[d - 1].contains(j));
    }
    assert forall|d: int, k: int, m: int|
        0 <= d < batches.len() && 0 <= k < m < batches[d].len() implies ranks_before(
        tasks,
        order,
        #[trigger] batches[d][k],
        #[trigger] batches[d][m],
    ) by {
        assert(batch_holds(tasks, order, level, d, batches[d]));
    }
    assert forall|d: int, k: int|
        0 <= d < batches.len() && 0 <= k < batches[d].len() implies #[trigger] batches[d][k]
        < tasks.len() by {
        assert(batch_holds(tasks, order, level, d, batches[d]));
    }
}

spec fn nested(v: Seq<Vec<usize>>) -> Seq<Seq<usize>> {
    v.map_values(|b: Vec<usize>| b@)
}

fn batches_of(tasks: &Vec<SubTask>, edges: &Vec<Vec<usize>>, order: &Vec<usize>) -> (r: Vec<
    Vec<usize>,
>)
    requires
        sets_of(edges@) == dependencies(tasks@),
        is_run_order(dependencies(tasks@), order@),
    ensures
        is_batching(tasks@, order@, nested(r@)),
{
    let (level, top) = levels_of(edges, order);
    let mut r: Vec<Vec<usize>> = Vec::new();
    for d in 0..top
        invariant
            is_run_order(dependencies(tasks@), order@),
            level@.len() == tasks@.len(),
            r@.len() == d,
            forall|e: int|
                0 <= e < d ==> batch_holds(tasks@, order@, level@, e, (#[trigger] r@[e])@),
    {
        let members = members_of(order, &level, d);
        let batch = batch_order(tasks, &members);
        proof {
            assert forall|i: usize| i < tasks@.len() && #[trigger] level@[i as int] == d implies batch@.contains(
                i,
            ) by {
                sorting::lemma_arrangement_full(order@, tasks@.len() as int, i);
                let p = place_of(order@, i);
                let k = place_of(members@, order@[p]);
                assert(members@[k] == i);
            }
            assert forall|k: int| 0 <= k < batch@.len() implies #[trigger] batch@[k] < tasks@.len()
                && level@[batch@[k] as int] == d by {
                let m = place_of(members@, batch@[k]);
                assert(members@[m] == batch@[k]);
            }
            assert forall|k: int, m: int| 0 <= k < m < batch@.len() implies ranks_before(
                tasks@,
                order@,
                #[trigger] batch@[k],
                #[trigger] batch@[m],
            ) by {
                assert(ranks_before(tasks@, members@, batch@[k], batch@[m]));
                if stands_before(members@, batch@[k], batch@[m]) {
                    let (x, y) = choose|x: int, y: int|
                        0 <= x < y < members@.len() && #[trigger] members@[x] == batch@[k]
                            && #[trigger] members@[y] == batch@[m];
                    assert(stands_before(order@, members@[x], members@[y]));
                }
            }
            assert(batch_holds(tasks@, order@, level@, d as int, batch@));
        }
        r.push(batch);
    }
    proof {
        assert forall|d: int| 0 <= d < top implies batch_holds(
            tasks@,
            order@,
            level@,
            d,
            #[trigger] nested(r@)[d],
        ) by {
            assert(nested(r@)[d] == r@[d]@);
        }
        lemma_batching(tasks@, order@, level@, top as int, nested(r@));
    }
    r
}

// ---------------------------------------------------------------------------
// TaskPlan implementation
// ---------------------------------------------------------------------------

/// `list` holds the tasks at the places `order`.
pub open spec fn lists(tasks: Seq<SubTask>, order: Seq<usize>, list: Seq<&SubTask>) -> bool {
    &&& list.len() == order.len()
    &&& forall|k: int| 0 <= k < list.len() ==> *(#[trigger] list[k]) == tasks[order[k] as int]
}

/// `rounds` holds the tasks at the places `batches`, round by round.
pub open spec fn lists_rounds(
    tasks: Seq<SubTask>,
    batches: Seq<Seq<usize>>,
    rounds: Seq<Vec<&SubTask>>,
) -> bool {
    &&& rounds.len() == batches.len()
    &&& forall|d: int| 0 <= d < rounds.len() ==> lists(tasks, batches[d], (#[trigger] rounds[d])@)
}

/// What is wrong with the dependency `k` of task `i`.
pub open spec fn edge_fault(tasks: Seq<SubTask>, i: int, k: int) -> Option<Seq<char>> {
    let id = tasks[i].id@;
    let dep = tasks[i].depends_on@[k]@;
    if dep == id {
        Some("task '"@ + id + "' depends on itself"@)
    } else if resolve(tasks, dep) is None {
        Some("task '"@ + id + "' depends on non-existent task '"@ + dep + "'"@)
    } else {
        None
    }
}

/// The first fault of task `i` from its dependency `k` on.
pub open spec fn task_fault(tasks: Seq<SubTask>, i: int, k: int) -> Option<Seq<char>>
    decreases tasks[i].depends_on@.len() - k,
{
    if k < 0 || k >= tasks[i].depends_on@.len() {
        None
    } else if edge_fault(tasks, i, k) is Some {
        edge_fault(tasks, i, k)
    } else {
        task_fault(tasks, i, k + 1)
    }
}

/// The first fault of the tasks from `i` on.
pub open spec fn plan_fault(tasks: Seq<SubTask>, i: int) -> Option<Seq<char>>
    decreases tasks.len() - i,
{
    if i < 0 || i >= tasks.len() {
        None
    } else if task_fault(tasks, i, 0) is Some {
        task_fault(tasks, i, 0)
    } else {
        plan_fault(tasks, i + 1)
    }
}

/// Why a plan is not valid, if it is not: the first reason in this order.
pub open spec fn invalidity(tasks: Seq<SubTask>) -> Option<Seq<char>> {
    if tasks.len() == 0 {
        Some("task plan has no tasks"@)
    } else if plan_fault(tasks, 0) is Some {
        plan_fault(tasks, 0)
    } else if has_cycle(dependencies(tasks)) {
        Some("task plan contains a cycle"@)
    } else {
        None
    }
}

/// One of `names` is `id`.
pub open spec fn names_id(names: Seq<String>, id: Seq<char>) -> bool {
    exists|k: int| 0 <= k < names.len() && (#[trigger] names[k])@ == id
}

/// One of `failures` is about `id`.
pub open spec fn fails_id(failures: Seq<(String, String)>, id: Seq<char>) -> bool {
    exists|k: int| 0 <= k < failures.len() && (#[trigger] failures[k]).0@ == id
}

/// A task can run: it is neither done nor failed, and everything that it
/// depends on is done and has not failed.
pub open spec fn is_ready(
    task: SubTask,
    done: Seq<String>,
    failed: Seq<(String, String)>,
) -> bool {
    &&& !names_id(done, task.id@)
    &&& !fails_id(failed, task.id@)
    &&& forall|k: int|
        0 <= k < task.depends_on@.len() ==> names_id(done, (#[trigger] task.depends_on@[k])@)
            && !fails_id(failed, task.depends_on@[k]@)
}

/// The tasks that can run, in the order of the plan.
pub open spec fn ready_of(
    tasks: Seq<SubTask>,
    done: Seq<String>,
    failed: Seq<(String, String)>,
) -> Seq<SubTask>
    decreases tasks.len(),
{
    if tasks.len() == 0 {
        Seq::<SubTask>::empty()
    } else {
        let before = ready_of(tasks.drop_last(), done, failed);
        if is_ready(tasks.last(), done, failed) {
            before.push(tasks.last())
        } else {
            before
        }
    }
}

/// The tasks that a list of references points to.
pub open spec fn pointees(list: Seq<&SubTask>) -> Seq<SubTask> {
    list.map_values(|t: &SubTask| *t)
}

fn find_task(tasks: &Vec<SubTask>, id: &str) -> (r: Option<usize>)
    ensures
        match r {
            Some(j) => resolve(tasks@, id@) == Some(j as int) && j < tasks@.len(),
            None => resolve(tasks@, id@) is None,
        },
{
    let mut i: usize = tasks.len();
    proof {
        assert(tasks@.take(i as int) =~= tasks@);
    }
    while i > 0
        invariant
            i <= tasks@.len(),
            resolve(tasks@, id@) == resolve(tasks@.take(i as int), id@),
        decreases i,
    {
        if text::same_text(tasks[i - 1].id.as_str(), id) {
            return Some(i - 1);
        }
        proof {
            assert(tasks@.take(i as int).drop_last() =~= tasks@.take(i - 1));
        }
        i = i - 1;
    }
    None
}

fn edges_of(tasks: &Vec<SubTask>) -> (r: Vec<Vec<usize>>)
    ensures
        r@.len() == tasks@.len(),
        sets_of(r@) == dependencies(tasks@),
        forall|i: int, k: int|
            0 <= i < r@.len() && 0 <= k < r@[i]@.len() ==> #[trigger] r@[i]@[k] < r@.len(),
{
    let mut r: Vec<Vec<usize>> = Vec::new();
    for i in 0..tasks.len()
        invariant
            r@.len() == i,
            forall|x: int, j: usize|
                0 <= x < i ==> (#[trigger] r@[x]@.contains(j) <==> needs(tasks@, x, j as int)),
            forall|x: int, k: int|
                0 <= x < i && 0 <= k < r@[x]@.len() ==> #[trigger] r@[x]@[k] < tasks@.len(),
    {
        let task = &tasks[i];
        let mut list: Vec<usize> = Vec::new();
        for k in 0..task.depends_on.len()
            invariant
                i < tasks@.len(),
                *task == tasks@[i as int],
                forall|m: int| 0 <= m < list@.len() ==> #[trigger] list@[m] < tasks@.len(),
                forall|j: usize| #[trigger]
                    list@.contains(j) <==> exists|m: int|
                        0 <= m < k && resolve(tasks@, #[trigger] task.depends_on@[m]@) == Some(
                            j as int,
                        ),
        {
            let ghost before = list@;
            match find_task(tasks, task.depends_on[k].as_str()) {
                Some(j) => {
                    list.push(j);
                    proof {
                        assert forall|x: usize| #[trigger] list@.contains(x) <==> exists|m: int|
                            0 <= m < k + 1 && resolve(tasks@, #[trigger] task.depends_on@[m]@)
                                == Some(x as int) by {
                            if list@.contains(x) {
                                let p = place_of(list@, x);
                                if p < before.len() {
                                    assert(before.contains(x));
                                } else {
                                    assert(resolve(tasks@, task.depends_on@[k as int]@) == Some(
                                        x as int,
                                    ));
                                }
                            }
                            if exists|m: int|
                                0 <= m < k + 1 && resolve(tasks@, #[trigger] task.depends_on@[m]@)
                                    == Some(x as int) {
                                let m = choose|m: int|
                                    0 <= m < k + 1 && resolve(
                                        tasks@,
                                        #[trigger] task.depends_on@[m]@,
                                    ) == Some(x as int);
                                if m == k {
                                    assert(list@[before.len() as int] == x);
                                } else {
                                    assert(before.contains(x));
                                    let p = place_of(before, x);
                                    assert(list@[p] == x);
                                }
                            }
                        }
                    }
                },
                None => {},
            }
        }
        r.push(list);
    }
    proof {
        assert(sets_of(r@).len() == dependencies(tasks@).len());
        assert forall|i: int| 0 <= i < tasks@.len() implies #[trigger] sets_of(r@)[i]
            == dependencies(tasks@)[i] by {
            assert(sets_of(r@)[i] =~= dependencies(tasks@)[i]);
        }
        assert(sets_of(r@) =~= dependencies(tasks@));
    }
    r
}

fn pick<'a>(tasks: &'a Vec<SubTask>, order: &Vec<usize>) -> (r: Vec<&'a SubTask>)
    requires
        forall|k: int| 0 <= k < order@.len() ==> #[trigger] order@[k] < tasks@.len(),
    ensures
        lists(tasks@, order@, r@),
{
    let mut r: Vec<&'a SubTask> = Vec::new();
    for k in 0..order.len()
        invariant
            forall|k: int| 0 <= k < order@.len() ==> #[trigger] order@[k] < tasks@.len(),
            r@.len() == k,
            forall|m: int| 0 <= m < k ==> *(#[trigger] r@[m]) == tasks@[order@[m] as int],
    {
        r.push(&tasks[order[k]]);
    }
    r
}

fn has_name(names: &[String], id: &str) -> (r: bool)
    ensures
        r == names_id(names@, id@),
{
    for k in 0..names.len()
        invariant
            forall|m: int| 0 <= m < k ==> (#[trigger] names@[m])@ != id@,
    {
        if text::same_text(names[k].as_str(), id) {
            proof {
                assert(names@[k as int]@ == id@);
            }
            return true;
        }
    }
    false
}

fn has_failure(failures: &Vec<(String, String)>, id: &str) -> (r: bool)
    ensures
        r == fails_id(failures@, id@),
{
    for k in 0..failures.len()
        invariant
            forall|m: int| 0 <= m < k ==> (#[trigger] failures@[m]).0@ != id@,
    {
        if text::same_text(failures[k].0.as_str(), id) {
            proof {
                assert(failures@[k as int].0@ == id@);
            }
            return true;
        }
    }
    false
}

fn can_run(task: &SubTask, done: &[String], failed: &Vec<(String, String)>) -> (r: bool)
    ensures
        r == is_ready(*task, done@, failed@),
{
    if has_name(done, task.id.as_str()) || has_failure(failed, task.id.as_str()) {
        return false;
    }
    for k in 0..task.depends_on.len()
        invariant
            forall|m: int|
                0 <= m < k ==> names_id(done@, (#[trigger] task.depends_on@[m])@) && !fails_id(
                    failed@,
                    task.depends_on@[m]@,
                ),
    {
        let dep = task.depends_on[k].as_str();
        if !has_name(done, dep) || has_failure(failed, dep) {
            proof {
                assert(task.depends_on@[k as int]@ == dep@);
            }
            return false;
        }
    }
    true
}

fn select_ready<'a>(
    tasks: &'a Vec<SubTask>,
    done: &[String],
    failed: &Vec<(String, String)>,
) -> (r: Vec<&'a SubTask>)
    ensures
        pointees(r@) == ready_of(tasks@, done@, failed@),
{
    let mut r: Vec<&'a SubTask> = Vec::new();
    proof {
        assert(pointees(r@) =~= ready_of(tasks@.take(0), done@, failed@));
    }
    for i in 0..tasks.len()
        invariant
            pointees(r@) == ready_of(tasks@.take(i as int), done@, failed@),
    {
        let ghost before = r@;
        proof {
            assert(tasks@.take(i + 1).drop_last() =~= tasks@.take(i as int));
            assert(tasks@.take(i + 1).last() == tasks@[i as int]);
        }
        if can_run(&tasks[i], done, failed) {
            r.push(&tasks[i]);
            proof {
                assert(pointees(r@) =~= pointees(before).push(tasks@[i as int]));
            }
        }
    }
    proof {
        assert(tasks@.take(tasks@.len() as int) =~= tasks@);
    }
    r
}

proof fn lemma_handed_out(
    list: Seq<&SubTask>,
    tasks: Seq<SubTask>,
    done: Seq<String>,
    failed: Seq<(String, String)>,
)
    requires
        pointees(list) == ready_of(tasks, done, failed),
    ensures
        forall|i: int, k: int|
            0 <= i < list.len() && 0 <= k < list[i].depends_on@.len() ==> exists|m: int|
                0 <= m < done.len() && (#[trigger] done[m])@ == (
                #[trigger] list[i].depends_on@[k])@,
        forall|i: int, m: int|
            0 <= i < list.len() && 0 <= m < done.len() ==> (#[trigger] list[i]).id@ != (
            #[trigger] done[m])@,
        forall|i: int, m: int|
            0 <= i < list.len() && 0 <= m < failed.len() ==> (#[trigger] list[i]).id@ != (
            #[trigger] failed[m]).0@,
{
    let ready = ready_of(tasks, done, failed);
    law_ready_tasks_wait_for_all_dependencies(tasks, done, failed);
    assert forall|i: int| 0 <= i < list.len() implies *(#[trigger] list[i]) == ready[i] by {
        assert(pointees(list)[i] == *list[i]);
    }
    assert(pointees(list).len() == list.len());
    assert forall|i: int, k: int|
        0 <= i < list.len() && 0 <= k < list[i].depends_on@.len() implies exists|m: int|
        0 <= m < done.len() && (#[trigger] done[m])@ == (#[trigger] list[i].depends_on@[k])@ by {
        let dep = ready[i].depends_on@[k];
    }
}

impl TaskPlan {
    /// Validate the plan structure.
    ///
    /// Checks for:
    /// - empty task list
    /// - self-dependencies
    /// - references to non-existent tasks
    /// - dependency cycles (via topological sort)
    pub fn validate(&self) -> (r: Result<(), String>)
        ensures
            match r {
                Ok(()) => invalidity(self.tasks@) is None,
                Err(message) => invalidity(self.tasks@) == Some(message@),
            },
    {
        if self.tasks.len() == 0 {
            return Err("task plan has no tasks".to_string());
        }
        for i in 0..self.tasks.len()
            invariant
                plan_fault(self.tasks@, 0) == plan_fault(self.tasks@, i as int),
                self.tasks@.len() > 0,
        {
            let task = &self.tasks[i];
            for k in 0..task.depends_on.len()
                invariant
                    self.tasks@.len() > 0,
                    i < self.tasks@.len(),
                    *task == self.tasks@[i as int],
                    plan_fault(self.tasks@, 0) == plan_fault(self.tasks@, i as int),
                    task_fault(self.tasks@, i as int, 0) == task_fault(
                        self.tasks@,
                        i as int,
                        k as int,
                    ),
            {
                let dep = &task.depends_on[k];
                if text::same_text(dep.as_str(), task.id.as_str()) {
                    return Err(text::cat3("task '", task.id.as_str(), "' depends on itself"));
                }
                if find_task(&self.tasks, dep.as_str()).is_none() {
                    return Err(
                        text::cat5(
                            "task '",
                            task.id.as_str(),
                            "' depends on non-existent task '",
                            dep.as_str(),
                            "'",
                        ),
                    );
                }
            }
        }
        if self.topological_order().is_none() {
            return Err("task plan contains a cycle".to_string());
        }
        Ok(())
    }

    /// Return tasks in a valid topological order using Kahn's algorithm.
    ///
    /// Returns `None` when the graph contains a cycle.
    pub fn topological_order(&self) -> (r: Option<Vec<&SubTask>>)
        ensures
            r is None <==> has_cycle(dependencies(self.tasks@)),
            r matches Some(list) ==> exists|order: Seq<usize>|
                is_run_order(dependencies(self.tasks@), order) && lists(
                    self.tasks@,
                    order,
                    list@,
                ),
    {
        let edges = edges_of(&self.tasks);
        match run_order(&edges) {
            Some(order) => {
                let list = pick(&self.tasks, &order);
                proof {
                    law_run_order_excludes_cycle(dependencies(self.tasks@), order@);
                    assert(is_run_order(dependencies(self.tasks@), order@) && lists(
                        self.tasks@,
                        order@,
                        list@,
                    ));
                }
                Some(list)
            },
            None => None,
        }
    }

    /// Return tasks whose dependencies are all satisfied and that are not
    /// themselves in the `completed` set.
    pub fn ready_tasks<'a>(&'a self, completed: &[String]) -> (r: Vec<&'a SubTask>)
        ensures
            pointees(r@) == ready_of(self.tasks@, completed@, Seq::<(String, String)>::empty()),
            forall|i: int, k: int|
                0 <= i < r@.len() && 0 <= k < r@[i].depends_on@.len() ==> exists|m: int|
                    0 <= m < completed@.len() && (#[trigger] completed@[m])@ == (
                    #[trigger] r@[i].depends_on@[k])@,
            forall|i: int, m: int|
                0 <= i < r@.len() && 0 <= m < completed@.len() ==> (#[trigger] r@[i]).id@ != (
                #[trigger] completed@[m])@,
    {
        let none = Vec::new();
        let r = select_ready(&self.tasks, completed, &none);
        proof {
            assert(none@ =~= Seq::<(String, String)>::empty());
            lemma_handed_out(r@, self.tasks@, completed@, none@);
        }
        r
    }

    /// Group tasks into sequential batches that can each be executed in
    /// parallel.
    ///
    /// Returns `None` if the graph contains a cycle.
    pub fn execution_batches(&self) -> (r: Option<Vec<Vec<&SubTask>>>)
        ensures
            r is None <==> has_cycle(dependencies(self.tasks@)),
            r matches Some(rounds) ==> exists|order: Seq<usize>, batches: Seq<Seq<usize>>|
                is_run_order(dependencies(self.tasks@), order) && #[trigger] is_batching(
                    self.tasks@,
                    order,
                    batches,
                ) && lists_rounds(self.tasks@, batches, rounds@),
    {
        let edges = edges_of(&self.tasks);
        match run_order(&edges) {
            Some(order) => {
                let batches = batches_of(&self.tasks, &edges, &order);
                let mut rounds: Vec<Vec<&SubTask>> = Vec::new();
                for d in 0..batches.len()
                    invariant
                        is_batching(self.tasks@, order@, nested(batches@)),
                        rounds@.len() == d,
                        forall|e: int|
                            0 <= e < d ==> lists(
                                self.tasks@,
                                nested(batches@)[e],
                                (#[trigger] rounds@[e])@,
                            ),
                {
                    proof {
                        assert(nested(batches@)[d as int] == batches@[d as int]@);
                        assert forall|k: int| 0 <= k < batches@[d as int]@.len() implies #[trigger] batches@[d as int]@[k]
                            < self.tasks@.len() by {
                            assert(nested(batches@)[d as int][k] < self.tasks@.len());
                        }
                    }
                    rounds.push(pick(&self.tasks, &batches[d]));
                }
                proof {
                    law_run_order_excludes_cycle(dependencies(self.tasks@), order@);
                    assert(is_run_order(dependencies(self.tasks@), order@) && is_batching(
                        self.tasks@,
                        order@,
                        nested(batches@),
                    ) && lists_rounds(self.tasks@, nested(batches@), rounds@));
                }
                Some(rounds)
            },
            None => None,
        }
    }
}

// ---------------------------------------------------------------------------
// PlanExecution state tracker
// ---------------------------------------------------------------------------

/// Tracks the runtime state of a [`TaskPlan`] as tasks complete or fail.
#[derive(Debug, Clone)]
pub struct PlanExecution {
    pub plan: TaskPlan,
    pub completed: Vec<String>,
    pub failed: Vec<(String, String)>,
    pub results: TextMap<String>,
}

/// The results of the first `n` of `deps`, each under the id it came from.
pub open spec fn sections(
    results: Map<Seq<char>, String>,
    deps: Seq<String>,
    n: int,
) -> Seq<Seq<char>>
    decreases n,
{
    if n <= 0 {
        Seq::<Seq<char>>::empty()
    } else {
        let before = sections(results, deps, n - 1);
        let id = deps[n - 1]@;
        if results.dom().contains(id) {
            before.push("[Result from '"@ + id + "']\n"@ + results[id]@)
        } else {
            before
        }
    }
}

/// The prompt of `task` with the results of its dependencies in front of it.
pub open spec fn enriched(results: Map<Seq<char>, String>, task: SubTask) -> Seq<char> {
    let parts = sections(results, task.depends_on@, task.depends_on@.len() as int);
    if parts.len() == 0 {
        task.prompt@
    } else {
        text::join(parts, "\n\n"@) + "\n\n"@ + task.prompt@
    }
}

impl PlanExecution {
    /// Create a new execution tracker for the given plan.
    pub fn new(plan: TaskPlan) -> (r: Self)
        ensures
            r.plan == plan,
            r.completed@ == Seq::<String>::empty(),
            r.failed@ == Seq::<(String, String)>::empty(),
            r.results@ == Map::<Seq<char>, String>::empty(),
    {
        PlanExecution {
            plan,
            completed: Vec::new(),
            failed: Vec::new(),
            results: TextMap::new(),
        }
    }

    /// Mark a task as completed, storing its result output.
    pub fn complete(&mut self, task_id: &str, result: String)
        ensures
            final(self).plan == old(self).plan,
            final(self).failed == old(self).failed,
            text::views(final(self).completed@) == text::views(old(self).completed@).push(task_id@),
            final(self).results@ == old(self).results@.insert(task_id@, result),
    {
        let ghost before = self.completed@;
        self.results.insert(task_id.to_string(), result);
        self.completed.push(task_id.to_string());
        proof {
            assert(text::views(self.completed@) =~= text::views(before).push(task_id@));
        }
    }

    /// Mark a task as failed with an error message.
    pub fn fail(&mut self, task_id: &str, error: String)
        ensures
            final(self).plan == old(self).plan,
            final(self).completed == old(self).completed,
            final(self).results == old(self).results,
            final(self).failed@.len() == old(self).failed@.len() + 1,
            final(self).failed@.drop_last() == old(self).failed@,
            final(self).failed@.last().0@ == task_id@,
            final(self).failed@.last().1 == error,
    {
        let ghost before = self.failed@;
        self.failed.push((task_id.to_string(), error));
        proof {
            assert(self.failed@.drop_last() =~= before);
        }
    }

    /// Every task is either completed or failed.
    pub open spec fn finished(&self) -> bool {
        forall|i: int|
            0 <= i < self.plan.tasks@.len() ==> names_id(
                self.completed@,
                (#[trigger] self.plan.tasks@[i]).id@,
            ) || fails_id(self.failed@, self.plan.tasks@[i].id@)
    }

    /// Returns `true` when every task is either completed or failed.
    pub fn is_finished(&self) -> (r: bool)
        ensures
            r == self.finished(),
    {
        for i in 0..self.plan.tasks.len()
            invariant
                forall|m: int|
                    0 <= m < i ==> names_id(
                        self.completed@,
                        (#[trigger] self.plan.tasks@[m]).id@,
                    ) || fails_id(self.failed@, self.plan.tasks@[m].id@),
        {
            let id = self.plan.tasks[i].id.as_str();
            if !has_name(self.completed.as_slice(), id) && !has_failure(&self.failed, id) {
                proof {
                    assert(self.plan.tasks@[i as int].id@ == id@);
                }
                return false;
            }
        }
        true
    }

    /// Nothing failed and every task is completed.
    pub open spec fn succeeded(&self) -> bool {
        &&& self.failed@.len() == 0
        &&& forall|i: int|
            0 <= i < self.plan.tasks@.len() ==> names_id(
                self.completed@,
                (#[trigger] self.plan.tasks@[i]).id@,
            )
    }

    /// Returns `true` when every task completed successfully.
    pub fn is_success(&self) -> (r: bool)
        ensures
            r == self.succeeded(),
    {
        if self.failed.len() > 0 {
            return false;
        }
        for i in 0..self.plan.tasks.len()
            invariant
                forall|m: int|
                    0 <= m < i ==> names_id(
                        self.completed@,
                        (#[trigger] self.plan.tasks@[m]).id@,
                    ),
        {
            let id = self.plan.tasks[i].id.as_str();
            if !has_name(self.completed.as_slice(), id) {
                proof {
                    assert(self.plan.tasks@[i as int].id@ == id@);
                }
                return false;
            }
        }
        true
    }

    /// Return tasks that are ready to run: all dependencies satisfied (and not
    /// failed), task not already completed or failed.
    pub fn ready_tasks(&self) -> (r: Vec<&SubTask>)
        ensures
            pointees(r@) == ready_of(self.plan.tasks@, self.completed@, self.failed@),
            forall|i: int, k: int|
                0 <= i < r@.len() && 0 <= k < r@[i].depends_on@.len() ==> exists|m: int|
                    0 <= m < self.completed@.len() && (#[trigger] self.completed@[m])@ == (
                    #[trigger] r@[i].depends_on@[k])@,
            forall|i: int, m: int|
                0 <= i < r@.len() && 0 <= m < self.completed@.len() ==> (#[trigger] r@[i]).id@ != (
                #[trigger] self.completed@[m])@,
            forall|i: int, m: int|
                0 <= i < r@.len() && 0 <= m < self.failed@.len() ==> (#[trigger] r@[i]).id@ != (
                #[trigger] self.failed@[m]).0@,
    {
        let r = select_ready(&self.plan.tasks, self.completed.as_slice(), &self.failed);
        proof {
            lemma_handed_out(r@, self.plan.tasks@, self.completed@, self.failed@);
        }
        r
    }

    /// Build an enriched prompt for a task by injecting the results of its
    /// completed dependencies.
    pub fn enriched_prompt(&self, task: &SubTask) -> (r: String)
        ensures
            r@ == enriched(self.results@, *task),
    {
        let mut parts: Vec<String> = Vec::new();
        proof {
            assert(text::views(parts@) =~= sections(self.results@, task.depends_on@, 0));
        }
        for k in 0..task.depends_on.len()
            invariant
                text::views(parts@) == sections(self.results@, task.depends_on@, k as int),
        {
            let dep = task.depends_on[k].as_str();
            let ghost before = text::views(parts@);
            match self.results.get(dep) {
                Some(result) => {
                    let section = text::cat4("[Result from '", dep, "']\n", result.as_str());
                    parts.push(section);
                    proof {
                        assert(text::views(parts@) =~= before.push(section@));
                    }
                },
                None => {},
            }
        }
        if parts.len() == 0 {
            task.prompt.clone()
        } else {
            text::cat3(text::joined(&parts, "\n\n").as_str(), "\n\n", task.prompt.as_str())
        }
    }
}

// ---------------------------------------------------------------------------
// Laws
// ---------------------------------------------------------------------------

/// The ready tasks are exactly the tasks of the plan that can run.
pub proof fn law_ready_is_exact(
    tasks: Seq<SubTask>,
    done: Seq<String>,
    failed: Seq<(String, String)>,
    task: SubTask,
)
    ensures
        ready_of(tasks, done, failed).contains(task) <==> tasks.contains(task) && is_ready(
            task,
            done,
            failed,
        ),
    decreases tasks.len(),
{
    if tasks.len() > 0 {
        let rest = tasks.drop_last();
        let last = tasks.last();
        let before = ready_of(rest, done, failed);
        law_ready_is_exact(rest, done, failed, task);
        assert(tasks =~= rest.push(last));
        lemma_push_contains(rest, last, task);
        lemma_push_contains(before, last, task);
    }
}

proof fn lemma_push_contains(s: Seq<SubTask>, x: SubTask, y: SubTask)
    ensures
        s.push(x).contains(y) <==> s.contains(y) || x == y,
{
    if s.contains(y) {
        let k = place_of(s, y);
        assert(s.push(x)[k] == y);
    }
    if x == y {
        assert(s.push(x)[s.len() as int] == y);
    }
    if s.push(x).contains(y) && x != y {
        let k = place_of(s.push(x), y);
        assert(s[k] == y);
    }
}

/// A task that depends on a failed one is not ready, whatever has completed.
pub proof fn law_failure_blocks_dependents(
    task: SubTask,
    done: Seq<String>,
    failed: Seq<(String, String)>,
    id: Seq<char>,
)
    requires
        names_id(task.depends_on@, id),
        fails_id(failed, id),
    ensures
        !is_ready(task, done, failed),
{
    let k = choose|k: int| 0 <= k < task.depends_on@.len() && (#[trigger] task.depends_on@[k])@ == id;
    assert(fails_id(failed, task.depends_on@[k]@));
}

/// A valid plan does not get stuck: as long as nothing has failed and some task
/// has not completed, some task is ready.
pub proof fn law_valid_plan_progresses(tasks: Seq<SubTask>, done: Seq<String>, pending: int)
    requires
        tasks.len() <= usize::MAX,
        invalidity(tasks) is None,
        0 <= pending < tasks.len(),
        !names_id(done, tasks[pending].id@),
    ensures
        ready_of(tasks, done, Seq::<(String, String)>::empty()).len() > 0,
{
    let none = Seq::<(String, String)>::empty();
    let ready = ready_of(tasks, done, none);
    if ready.len() == 0 {
        let deps = dependencies(tasks);
        let waiting = Set::new(|x: usize| x < tasks.len() && !names_id(done, tasks[x as int].id@));
        assert forall|x: usize| #[trigger] waiting.contains(x) implies x < deps.len() && waits(
            deps,
            waiting,
            x,
        ) by {
            let task = tasks[x as int];
            law_ready_is_exact(tasks, done, none, task);
            assert(tasks.contains(task));
            assert(!is_ready(task, done, none));
            let k = choose|k: int|
                0 <= k < task.depends_on@.len() && !(names_id(
                    done,
                    (#[trigger] task.depends_on@[k])@,
                ) && !fails_id(none, task.depends_on@[k]@));
            let dep = task.depends_on@[k]@;
            lemma_sound_edge(tasks, x as int, k);
            lemma_resolve(tasks, dep);
            let j = resolve(tasks, dep)->0;
            assert(needs(tasks, x as int, j));
            assert(waiting.contains(j as usize));
            assert(deps[x as int].contains(j as usize));
            reveal(waits);
        }
        assert(waiting.contains(pending as usize));
        lemma_waiting_has_cycle(deps, waiting, pending as usize);
    }
}

proof fn lemma_sound_edge(tasks: Seq<SubTask>, i: int, k: int)
    requires
        plan_fault(tasks, 0) is None,
        0 <= i < tasks.len(),
        0 <= k < tasks[i].depends_on@.len(),
    ensures
        edge_fault(tasks, i, k) is None,
{
    lemma_sound_task(tasks, 0, i);
    lemma_sound_dep(tasks, i, 0, k);
}

proof fn lemma_sound_task(tasks: Seq<SubTask>, from: int, i: int)
    requires
        plan_fault(tasks, from) is None,
        0 <= from <= i < tasks.len(),
    ensures
        task_fault(tasks, i, 0) is None,
    decreases i - from,
{
    if from < i {
        lemma_sound_task(tasks, from + 1, i);
    }
}

proof fn lemma_sound_dep(tasks: Seq<SubTask>, i: int, from: int, k: int)
    requires
        task_fault(tasks, i, from) is None,
        0 <= from <= k < tasks[i].depends_on@.len(),
    ensures
        edge_fault(tasks, i, k) is None,
    decreases k - from,
{
    if from < k {
        lemma_sound_dep(tasks, i, from + 1, k);
    }
}

/// The enriched prompt of a task holds its own prompt and the result of every
/// dependency that has one.
pub proof fn law_enriched_prompt_holds_results(
    results: Map<Seq<char>, String>,
    task: SubTask,
    k: int,
)
    ensures
        text::contains(enriched(results, task), task.prompt@),
        0 <= k < task.depends_on@.len() && results.dom().contains(task.depends_on@[k]@)
            ==> text::contains(enriched(results, task), results[task.depends_on@[k]@]@),
{
    let n = task.depends_on@.len() as int;
    let parts = sections(results, task.depends_on@, n);
    text::lemma_contains_self(task.prompt@);
    let head = text::join(parts, "\n\n"@) + "\n\n"@;
    text::lemma_contains_within(head, task.prompt@, Seq::<char>::empty(), task.prompt@);
    assert(head + task.prompt@ + Seq::<char>::empty() =~= head + task.prompt@);
    if 0 <= k < n && results.dom().contains(task.depends_on@[k]@) {
        let x = results[task.depends_on@[k]@]@;
        lemma_section(results, task.depends_on@, n, k);
        let m = choose|m: int| 0 <= m < parts.len() && text::contains(#[trigger] parts[m], x);
        text::lemma_join_contains(parts, "\n\n"@, m, x);
        let joined = text::join(parts, "\n\n"@);
        text::lemma_contains_within(Seq::<char>::empty(), joined, "\n\n"@ + task.prompt@, x);
        assert(Seq::<char>::empty() + joined + ("\n\n"@ + task.prompt@) =~= head + task.prompt@);
    }
}

proof fn lemma_section(results: Map<Seq<char>, String>, deps: Seq<String>, n: int, k: int)
    requires
        0 <= k < n <= deps.len(),
        results.dom().contains(deps[k]@),
    ensures
        exists|m: int|
            0 <= m < sections(results, deps, n).len() && text::contains(
                #[trigger] sections(results, deps, n)[m],
                results[deps[k]@]@,
            ),
    decreases n,
{
    let before = sections(results, deps, n - 1);
    let all = sections(results, deps, n);
    let x = results[deps[k]@]@;
    if k == n - 1 {
        let head = "[Result from '"@ + deps[k]@ + "']\n"@;
        text::lemma_contains_self(x);
        text::lemma_contains_within(head, x, Seq::<char>::empty(), x);
        assert(head + x + Seq::<char>::empty() =~= head + x);
        assert(text::contains(all[before.len() as int], x));
    } else {
        lemma_section(results, deps, n - 1, k);
        let m = choose|m: int| 0 <= m < before.len() && text::contains(#[trigger] before[m], x);
        assert(all[m] == before[m]);
    }
}

// ---------------------------------------------------------------------------
// Laws in terms of ids
// ---------------------------------------------------------------------------

/// What is handed out as ready is a task of the plan that has neither completed
/// nor failed, and each id that it depends on is among the completed ones and
/// not among the failed ones. Every task of the plan of which that holds is
/// handed out.
pub proof fn law_ready_tasks_wait_for_all_dependencies(
    tasks: Seq<SubTask>,
    done: Seq<String>,
    failed: Seq<(String, String)>,
)
    ensures
        ({
            let ready = ready_of(tasks, done, failed);
            &&& forall|i: int|
                0 <= i < ready.len() ==> exists|j: int|
                    0 <= j < tasks.len() && #[trigger] tasks[j] == #[trigger] ready[i]
            &&& forall|i: int, m: int|
                0 <= i < ready.len() && 0 <= m < done.len() ==> (#[trigger] ready[i]).id@ != (
                #[trigger] done[m])@
            &&& forall|i: int, m: int|
                0 <= i < ready.len() && 0 <= m < failed.len() ==> (#[trigger] ready[i]).id@ != (
                #[trigger] failed[m]).0@
            &&& forall|i: int, k: int|
                0 <= i < ready.len() && 0 <= k < ready[i].depends_on@.len() ==> exists|m: int|
                    0 <= m < done.len() && (#[trigger] done[m])@ == (
                    #[trigger] ready[i].depends_on@[k])@
            &&& forall|i: int, k: int, m: int|
                0 <= i < ready.len() && 0 <= k < ready[i].depends_on@.len() && 0 <= m
                    < failed.len() ==> (#[trigger] failed[m]).0@ != (
                #[trigger] ready[i].depends_on@[k])@
            &&& forall|j: int|
                0 <= j < tasks.len() && (forall|m: int|
                    0 <= m < done.len() ==> (#[trigger] done[m])@ != tasks[j].id@) && (forall|m: int|

                    0 <= m < failed.len() ==> (#[trigger] failed[m]).0@ != tasks[j].id@) && (
                forall|k: int|
                    0 <= k < tasks[j].depends_on@.len() ==> exists|m: int|
                        0 <= m < done.len() && (#[trigger] done[m])@ == (
                        #[trigger] tasks[j].depends_on@[k])@) && (forall|k: int, m: int|
                    0 <= k < tasks[j].depends_on@.len() && 0 <= m < failed.len() ==> (
                    #[trigger] failed[m]).0@ != (#[trigger] tasks[j].depends_on@[k])@)
                    ==> ready.contains(#[trigger] tasks[j])
        }),
{
    let ready = ready_of(tasks, done, failed);
    assert forall|i: int| 0 <= i < ready.len() implies tasks.contains(#[trigger] ready[i])
        && is_ready(ready[i], done, failed) by {
        law_ready_is_exact(tasks, done, failed, ready[i]);
    }
    assert forall|i: int, k: int|
        0 <= i < ready.len() && 0 <= k < ready[i].depends_on@.len() implies exists|m: int|
        0 <= m < done.len() && (#[trigger] done[m])@ == (#[trigger] ready[i].depends_on@[k])@ by {
        assert(names_id(done, ready[i].depends_on@[k]@));
    }
    assert forall|i: int, k: int, m: int|
        0 <= i < ready.len() && 0 <= k < ready[i].depends_on@.len() && 0 <= m
            < failed.len() implies (#[trigger] failed[m]).0@ != (
    #[trigger] ready[i].depends_on@[k])@ by {
        assert(!fails_id(failed, ready[i].depends_on@[k]@));
    }
    assert forall|j: int|
        0 <= j < tasks.len() && (forall|m: int|
            0 <= m < done.len() ==> (#[trigger] done[m])@ != tasks[j].id@) && (forall|m: int|
            0 <= m < failed.len() ==> (#[trigger] failed[m]).0@ != tasks[j].id@) && (forall|k: int|
            0 <= k < tasks[j].depends_on@.len() ==> exists|m: int|
                0 <= m < done.len() && (#[trigger] done[m])@ == (
                #[trigger] tasks[j].depends_on@[k])@) && (forall|k: int, m: int|
            0 <= k < tasks[j].depends_on@.len() && 0 <= m < failed.len() ==> (
            #[trigger] failed[m]).0@ != (#[trigger] tasks[j].depends_on@[k])@) implies ready.contains(
        #[trigger] tasks[j],
    ) by {
        assert(tasks.contains(tasks[j]));
        law_ready_is_exact(tasks, done, failed, tasks[j]);
    }
}

/// Ready tasks come in the order of the plan: what is ready of the first tasks
/// is where what is ready of all begins.
pub proof fn law_ready_tasks_keep_the_order_of_the_plan(
    first: Seq<SubTask>,
    rest: Seq<SubTask>,
    done: Seq<String>,
    failed: Seq<(String, String)>,
)
    ensures
        ready_of(first + rest, done, failed) == ready_of(first, done, failed) + ready_of(
            rest,
            done,
            failed,
        ),
    decreases rest.len(),
{
    let ready = ready_of(first, done, failed);
    if rest.len() == 0 {
        assert(first + rest =~= first);
        assert(ready + ready_of(rest, done, failed) =~= ready);
    } else {
        law_ready_tasks_keep_the_order_of_the_plan(first, rest.drop_last(), done, failed);
        assert((first + rest).drop_last() =~= first + rest.drop_last());
        let before = ready_of(rest.drop_last(), done, failed);
        assert(ready + before.push(rest.last()) =~= (ready + before).push(rest.last()));
    }
}

/// Task `j` is the one that its id stands for: no later task carries the same.
pub open spec fn owns_its_id(tasks: Seq<SubTask>, j: int) -> bool {
    forall|m: int| j < m < tasks.len() ==> (#[trigger] tasks[m]).id@ != tasks[j].id@
}

proof fn lemma_owner(tasks: Seq<SubTask>, j: int)
    requires
        0 <= j < tasks.len(),
        owns_its_id(tasks, j),
    ensures
        resolve(tasks, tasks[j].id@) == Some(j),
    decreases tasks.len(),
{
    let n = tasks.len() - 1;
    if j < n {
        let rest = tasks.drop_last();
        assert(tasks[n].id@ != tasks[j].id@);
        assert forall|m: int| j < m < rest.len() implies (#[trigger] rest[m]).id@ != rest[j].id@ by {
            assert(tasks[m].id@ != tasks[j].id@);
        }
        lemma_owner(rest, j);
    }
}

/// In a run order every task of the plan has exactly one place, after the places
/// of the tasks whose ids it depends on. Of two tasks with the same
/// dependencies the one that is listed first comes first, and tasks that depend
/// on nothing come before those that wait for some task.
pub proof fn law_run_order_puts_dependencies_first(tasks: Seq<SubTask>, order: Seq<usize>)
    requires
        tasks.len() <= usize::MAX,
        is_run_order(dependencies(tasks), order),
    ensures
        order.len() == tasks.len(),
        forall|p: int| 0 <= p < order.len() ==> #[trigger] order[p] < tasks.len(),
        forall|p: int, q: int| 0 <= p < q < order.len() ==> #[trigger] order[p] != #[trigger] order[q],
        forall|i: usize| i < tasks.len() ==> #[trigger] order.contains(i),
        forall|p: int, k: int, j: usize|
            0 <= p < order.len() && 0 <= k < tasks[order[p] as int].depends_on@.len() && j
                < tasks.len() && #[trigger] owns_its_id(tasks, j as int) && tasks[j as int].id@ == (
            #[trigger] tasks[order[p] as int].depends_on@[k])@ ==> exists|q: int|
                0 <= q < p && #[trigger] order[q] == j,
        forall|p: int, q: int|
            0 <= p < order.len() && 0 <= q < order.len() && (#[trigger] order[p]) < (
            #[trigger] order[q]) && text::views(tasks[order[p] as int].depends_on@) == text::views(
                tasks[order[q] as int].depends_on@,
            ) ==> p < q,
        forall|p: int, q: int, k: int, j: int|
            0 <= p < order.len() && 0 <= q < order.len() && tasks[(
            #[trigger] order[p]) as int].depends_on@.len() == 0 && 0 <= k < tasks[(
            #[trigger] order[q]) as int].depends_on@.len() && 0 <= j < tasks.len() && (
            #[trigger] tasks[j]).id@ == (#[trigger] tasks[order[q] as int].depends_on@[k])@
                ==> p < q,
{
    let deps = dependencies(tasks);
    assert forall|i: usize| i < tasks.len() implies #[trigger] order.contains(i) by {
        sorting::lemma_arrangement_full(order, deps.len() as int, i);
    }
    assert forall|p: int, k: int, j: usize|
        0 <= p < order.len() && 0 <= k < tasks[order[p] as int].depends_on@.len() && j
            < tasks.len() && #[trigger] owns_its_id(tasks, j as int) && tasks[j as int].id@ == (
        #[trigger] tasks[order[p] as int].depends_on@[k])@ implies exists|q: int|
        0 <= q < p && #[trigger] order[q] == j by {
        lemma_owner(tasks, j as int);
        assert(needs(tasks, order[p] as int, j as int));
        assert(all_in(deps[order[p] as int], order.take(p)));
        assert(order.take(p).contains(j));
        let q = place_of(order.take(p), j);
        assert(order[q] == j);
    }
    assert forall|p: int, q: int|
        0 <= p < order.len() && 0 <= q < order.len() && (#[trigger] order[p]) < (
        #[trigger] order[q]) && text::views(tasks[order[p] as int].depends_on@) == text::views(
            tasks[order[q] as int].depends_on@,
        ) implies p < q by {
        let a = order[p] as int;
        let b = order[q] as int;
        lemma_same_needs(tasks, a, b);
        lemma_same_needs(tasks, b, a);
        assert(deps[a] =~= deps[b]);
        if q < p {
            assert(free_before(deps, order, order[q], order[p]));
        }
    }
    assert forall|p: int, q: int, k: int, j: int|
        0 <= p < order.len() && 0 <= q < order.len() && tasks[(
        #[trigger] order[p]) as int].depends_on@.len() == 0 && 0 <= k < tasks[(
        #[trigger] order[q]) as int].depends_on@.len() && 0 <= j < tasks.len() && (
        #[trigger] tasks[j]).id@ == (
        #[trigger] tasks[order[q] as int].depends_on@[k])@ implies p < q by {
        let id = tasks[order[q] as int].depends_on@[k]@;
        lemma_resolve(tasks, id);
        let own = resolve(tasks, id)->0;
        assert(needs(tasks, order[q] as int, own));
        assert(all_in(deps[order[q] as int], order.take(q)));
        assert(order.take(q).contains(own as usize));
        let at = place_of(order.take(q), own as usize);
        lemma_latest(deps[order[q] as int], order);
        lemma_latest(deps[order[p] as int], order);
        let last = latest(deps[order[p] as int], order);
        if last >= 0 {
            assert(needs(tasks, order[p] as int, order[last] as int));
        }
        assert(deps[order[q] as int].contains(order[at]));
        if q < p {
            assert(free_before(deps, order, order[q], order[p]));
        }
    }
}

proof fn lemma_same_needs(tasks: Seq<SubTask>, a: int, b: int)
    requires
        text::views(tasks[a].depends_on@) == text::views(tasks[b].depends_on@),
    ensures
        forall|j: int| needs(tasks, a, j) ==> #[trigger] needs(tasks, b, j),
{
    let x = tasks[a].depends_on@;
    let y = tasks[b].depends_on@;
    assert forall|j: int| needs(tasks, a, j) implies #[trigger] needs(tasks, b, j) by {
        let k = choose|k: int| 0 <= k < x.len() && resolve(tasks, #[trigger] x[k]@) == Some(j);
        assert(text::views(x).len() == x.len());
        assert(text::views(y).len() == y.len());
        assert(text::views(x)[k] == x[k]@);
        assert(text::views(y)[k] == y[k]@);
        assert(resolve(tasks, y[k]@) == Some(j));
    }
}

/// Task `i` stands in one of the rounds.
pub open spec fn stands_in(rounds: Seq<Seq<usize>>, i: usize) -> bool {
    exists|d: int| 0 <= d < rounds.len() && (#[trigger] rounds[d]).contains(i)
}

/// In rounds every task of the plan stands exactly once, in a round after those
/// of the tasks whose ids it depends on. A round is run as early as it can be:
/// every task of a later round depends on the id of a task in the round before.
/// Within a round priorities do not decrease.
pub proof fn law_rounds_run_dependencies_first(
    tasks: Seq<SubTask>,
    order: Seq<usize>,
    rounds: Seq<Seq<usize>>,
)
    requires
        tasks.len() <= usize::MAX,
        is_batching(tasks, order, rounds),
    ensures
        forall|i: usize| i < tasks.len() ==> #[trigger] stands_in(rounds, i),
        forall|d: int, k: int, e: int, m: int|
            0 <= d < rounds.len() && 0 <= k < rounds[d].len() && 0 <= e < rounds.len() && 0 <= m
                < rounds[e].len() && #[trigger] rounds[d][k] == #[trigger] rounds[e][m] ==> d == e
                && k == m,
        forall|d: int, i: usize, k: int, j: usize|
            0 <= d < rounds.len() && (#[trigger] rounds[d]).contains(i) && 0 <= k
                < tasks[i as int].depends_on@.len() && j < tasks.len() && #[trigger] owns_its_id(
                tasks,
                j as int,
            ) && tasks[j as int].id@ == (#[trigger] tasks[i as int].depends_on@[k])@ ==> exists|
                e: int,
            |
                0 <= e < d && (#[trigger] rounds[e]).contains(j),
        forall|d: int, i: usize|
            0 < d < rounds.len() && #[trigger] rounds[d].contains(i) ==> exists|k: int, j: usize|
                0 <= k < tasks[i as int].depends_on@.len() && j < tasks.len() && (
                #[trigger] tasks[i as int].depends_on@[k])@ == tasks[j as int].id@
                    && #[trigger] rounds[d - 1].contains(j),
        forall|d: int, k: int, m: int|
            0 <= d < rounds.len() && 0 <= k < m < rounds[d].len() ==> tasks[(
            #[trigger] rounds[d][k]) as int].priority <= tasks[(
            #[trigger] rounds[d][m]) as int].priority,
{
    let deps = dependencies(tasks);
    assert forall|i: usize| i < tasks.len() implies #[trigger] stands_in(rounds, i) by {
        assert(in_earlier_batch(rounds, rounds.len() as int, i));
    }
    assert forall|d: int, i: usize, k: int, j: usize|
        0 <= d < rounds.len() && (#[trigger] rounds[d]).contains(i) && 0 <= k
            < tasks[i as int].depends_on@.len() && j < tasks.len() && #[trigger] owns_its_id(
            tasks,
            j as int,
        ) && tasks[j as int].id@ == (#[trigger] tasks[i as int].depends_on@[k])@ implies exists|
        e: int,
    |
        0 <= e < d && (#[trigger] rounds[e]).contains(j) by {
        let at = place_of(rounds[d], i);
        lemma_owner(tasks, j as int);
        assert(rounds[d][at] == i);
        assert(needs(tasks, i as int, j as int));
        assert(deps[i as int].contains(j));
        assert(in_earlier_batch(rounds, d, j));
    }
    assert forall|d: int, i: usize| 0 < d < rounds.len() && #[trigger] rounds[d].contains(
        i,
    ) implies exists|k: int, j: usize|
        0 <= k < tasks[i as int].depends_on@.len() && j < tasks.len() && (
        #[trigger] tasks[i as int].depends_on@[k])@ == tasks[j as int].id@
            && #[trigger] rounds[d - 1].contains(j) by {
        let at = place_of(rounds[d], i);
        assert(rounds[d][at] == i);
        assert(waits_for_batch(deps, rounds, d - 1, i));
        let j = choose|j: usize| deps[i as int].contains(j) && #[trigger] rounds[d - 1].contains(j);
        let k = choose|k: int|
            0 <= k < tasks[i as int].depends_on@.len() && resolve(
                tasks,
                #[trigger] tasks[i as int].depends_on@[k]@,
            ) == Some(j as int);
        lemma_resolve(tasks, tasks[i as int].depends_on@[k]@);
        assert(rounds[d - 1].contains(j));
    }
    assert forall|d: int, k: int, m: int|
        0 <= d < rounds.len() && 0 <= k < m < rounds[d].len() implies tasks[(
    #[trigger] rounds[d][k]) as int].priority <= tasks[(
    #[trigger] rounds[d][m]) as int].priority by {
        assert(ranks_before(tasks, order, rounds[d][k], rounds[d][m]));
    }
}

/// Within a round tasks of one priority come by id, and tasks of one priority
/// and one id in their run order.
pub proof fn law_rounds_break_ties_by_id(
    tasks: Seq<SubTask>,
    order: Seq<usize>,
    rounds: Seq<Seq<usize>>,
    d: int,
    k: int,
    m: int,
)
    requires
        is_batching(tasks, order, rounds),
        0 <= d < rounds.len(),
        0 <= k < m < rounds[d].len(),
        tasks[rounds[d][k] as int].priority == tasks[rounds[d][m] as int].priority,
    ensures
        tasks[rounds[d][k] as int].id@ != tasks[rounds[d][m] as int].id@ ==> text::precedes(
            tasks[rounds[d][k] as int].id@,
            tasks[rounds[d][m] as int].id@,
        ),
        tasks[rounds[d][k] as int].id@ == tasks[rounds[d][m] as int].id@ ==> stands_before(
            order,
            rounds[d][k],
            rounds[d][m],
        ),
{
    assert(ranks_before(tasks, order, rounds[d][k], rounds[d][m]));
    text::lemma_precedes_total(
        tasks[rounds[d][k] as int].id@,
        tasks[rounds[d][m] as int].id@,
    );
}

/// A plan is valid exactly where it has a task, no task names itself as a
/// dependency, every dependency names a task of the plan, and no tasks depend on
/// each other in a circle.
pub proof fn law_valid_plans(tasks: Seq<SubTask>)
    requires
        tasks.len() <= usize::MAX,
    ensures
        invalidity(tasks) is None <==> {
            &&& tasks.len() > 0
            &&& forall|i: int, k: int|
                0 <= i < tasks.len() && 0 <= k < tasks[i].depends_on@.len() ==> (
                #[trigger] tasks[i].depends_on@[k])@ != tasks[i].id@
            &&& forall|i: int, k: int|
                0 <= i < tasks.len() && 0 <= k < tasks[i].depends_on@.len() ==> exists|j: int|
                    0 <= j < tasks.len() && (#[trigger] tasks[j]).id@ == (
                    #[trigger] tasks[i].depends_on@[k])@
            &&& !exists|ring: Seq<int>| #[trigger] is_ring(tasks, ring)
        },
        tasks.len() == 0 <==> invalidity(tasks) == Some("task plan has no tasks"@),
{
    lemma_rings(tasks);
    reveal_strlit("task plan has no tasks");
    reveal_strlit("task plan contains a cycle");
    reveal_strlit("task '");
    assert("task plan has no tasks"@.len() != "task plan contains a cycle"@.len());
    if plan_fault(tasks, 0) is None {
        assert forall|i: int, k: int|
            0 <= i < tasks.len() && 0 <= k < tasks[i].depends_on@.len() implies (
        #[trigger] tasks[i].depends_on@[k])@ != tasks[i].id@ && exists|j: int|
            0 <= j < tasks.len() && (#[trigger] tasks[j]).id@ == tasks[i].depends_on@[k]@ by {
            lemma_sound_edge(tasks, i, k);
            lemma_resolve(tasks, tasks[i].depends_on@[k]@);
        }
    } else {
        lemma_fault(tasks, 0);
        let (i, k) = choose|i: int, k: int|
            0 <= i < tasks.len() && 0 <= k < tasks[i].depends_on@.len() && #[trigger] edge_fault(
                tasks,
                i,
                k,
            ) == plan_fault(tasks, 0) && edge_fault(tasks, i, k) is Some;
        let dep = tasks[i].depends_on@[k]@;
        lemma_resolve(tasks, dep);
        let said = edge_fault(tasks, i, k)->0;
        assert(said[5] == '\'');
        assert("task plan has no tasks"@[5] == 'p');
    }
}

/// Each task of `ring` depends on the id of the next one, and the last on that
/// of the first.
pub open spec fn is_ring(tasks: Seq<SubTask>, ring: Seq<int>) -> bool {
    &&& ring.len() > 0
    &&& forall|a: int|
        0 <= a < ring.len() ==> 0 <= #[trigger] ring[a] < tasks.len() && owns_its_id(tasks, ring[a])
    &&& forall|a: int| 0 <= a < ring.len() - 1 ==> mentions(tasks, #[trigger] ring[a], ring[a + 1])
    &&& mentions(tasks, ring.last(), ring[0])
}

/// Task `i` lists the id of task `j`.
pub open spec fn mentions(tasks: Seq<SubTask>, i: int, j: int) -> bool {
    exists|k: int|
        0 <= k < tasks[i].depends_on@.len() && (#[trigger] tasks[i].depends_on@[k])@
            == tasks[j].id@
}

proof fn lemma_rings(tasks: Seq<SubTask>)
    requires
        tasks.len() <= usize::MAX,
    ensures
        has_cycle(dependencies(tasks)) <==> exists|ring: Seq<int>| #[trigger] is_ring(tasks, ring),
{
    let deps = dependencies(tasks);
    if has_cycle(deps) {
        let cycle = choose|cycle: Seq<usize>| is_cycle(deps, cycle);
        let ring = Seq::new(cycle.len(), |a: int| cycle[a] as int);
        assert forall|a: int| 0 <= a < ring.len() - 1 implies needs(
            tasks,
            #[trigger] ring[a],
            ring[a + 1],
        ) by {
            assert(deps[cycle[a] as int].contains(cycle[a + 1]));
        }
        assert forall|a: int| 0 <= a < ring.len() implies 0 <= #[trigger] ring[a] < tasks.len()
            && owns_its_id(tasks, ring[a]) by {
            if a > 0 {
                assert(needs(tasks, ring[a - 1], ring[a - 1 + 1]));
                lemma_needed_owns(tasks, ring[a - 1], ring[a]);
            } else {
                lemma_needed_owns(tasks, ring.last(), ring[0]);
            }
        }
        assert forall|a: int| 0 <= a < ring.len() - 1 implies mentions(
            tasks,
            #[trigger] ring[a],
            ring[a + 1],
        ) by {
            lemma_mentions(tasks, ring[a], ring[a + 1]);
        }
        lemma_mentions(tasks, ring.last(), ring[0]);
        assert(is_ring(tasks, ring));
    }
    if exists|ring: Seq<int>| #[trigger] is_ring(tasks, ring) {
        let ring = choose|ring: Seq<int>| #[trigger] is_ring(tasks, ring);
        let cycle = Seq::new(ring.len(), |a: int| ring[a] as usize);
        assert forall|a: int| 0 <= a < cycle.len() - 1 implies deps[
        #[trigger] cycle[a] as int].contains(cycle[a + 1]) by {
            assert(owns_its_id(tasks, ring[a + 1]));
            assert(mentions(tasks, ring[a], ring[a + 1]));
            lemma_mentions(tasks, ring[a], ring[a + 1]);
        }
        assert(owns_its_id(tasks, ring[0]));
        lemma_mentions(tasks, ring.last(), ring[0]);
        assert forall|a: int| 0 <= a < cycle.len() implies #[trigger] cycle[a] < deps.len() by {
            assert(0 <= ring[a] < tasks.len());
        }
        assert(0 <= ring[ring.len() - 1] < tasks.len());
        assert(is_cycle(deps, cycle));
    }
}

proof fn lemma_mentions(tasks: Seq<SubTask>, i: int, j: int)
    ensures
        needs(tasks, i, j) ==> mentions(tasks, i, j),
        0 <= j < tasks.len() && owns_its_id(tasks, j) && mentions(tasks, i, j) ==> needs(
            tasks,
            i,
            j,
        ),
{
    if needs(tasks, i, j) {
        let k = choose|k: int|
            0 <= k < tasks[i].depends_on@.len() && resolve(
                tasks,
                #[trigger] tasks[i].depends_on@[k]@,
            ) == Some(j);
        lemma_resolve(tasks, tasks[i].depends_on@[k]@);
        assert(tasks[i].depends_on@[k]@ == tasks[j].id@);
    }
    if 0 <= j < tasks.len() && owns_its_id(tasks, j) && mentions(tasks, i, j) {
        let k = choose|k: int|
            0 <= k < tasks[i].depends_on@.len() && (#[trigger] tasks[i].depends_on@[k])@
                == tasks[j].id@;
        lemma_owner(tasks, j);
        assert(resolve(tasks, tasks[i].depends_on@[k]@) == Some(j));
    }
}

proof fn lemma_needed_owns(tasks: Seq<SubTask>, i: int, j: int)
    requires
        needs(tasks, i, j),
    ensures
        0 <= j < tasks.len(),
        owns_its_id(tasks, j),
{
    let k = choose|k: int|
        0 <= k < tasks[i].depends_on@.len() && resolve(tasks, #[trigger] tasks[i].depends_on@[k]@)
            == Some(j);
    lemma_resolve(tasks, tasks[i].depends_on@[k]@);
    lemma_last_owns(tasks, tasks[i].depends_on@[k]@);
}

proof fn lemma_last_owns(tasks: Seq<SubTask>, id: Seq<char>)
    ensures
        resolve(tasks, id) matches Some(j) ==> owns_its_id(tasks, j),
    decreases tasks.len(),
{
    lemma_resolve(tasks, id);
    if tasks.len() > 0 && tasks.last().id@ != id {
        let rest = tasks.drop_last();
        lemma_last_owns(rest, id);
        lemma_resolve(rest, id);
        if let Some(j) = resolve(tasks, id) {
            assert forall|m: int| j < m < tasks.len() implies (#[trigger] tasks[m]).id@
                != tasks[j].id@ by {
                if m < rest.len() {
                    assert(rest[m].id@ != rest[j].id@);
                }
            }
        }
    }
}

proof fn lemma_fault(tasks: Seq<SubTask>, from: int)
    requires
        0 <= from,
        plan_fault(tasks, from) is Some,
    ensures
        exists|i: int, k: int|
            0 <= i < tasks.len() && 0 <= k < tasks[i].depends_on@.len() && #[trigger] edge_fault(
                tasks,
                i,
                k,
            ) == plan_fault(tasks, from) && edge_fault(tasks, i, k) is Some,
    decreases tasks.len() - from,
{
    if task_fault(tasks, from, 0) is Some {
        lemma_task_fault(tasks, from, 0);
    } else {
        lemma_fault(tasks, from + 1);
    }
}

proof fn lemma_task_fault(tasks: Seq<SubTask>, i: int, from: int)
    requires
        0 <= from,
        task_fault(tasks, i, from) is Some,
    ensures
        exists|k: int|
            0 <= k < tasks[i].depends_on@.len() && #[trigger] edge_fault(tasks, i, k)
                == task_fault(tasks, i, from) && edge_fault(tasks, i, k) is Some,
    decreases tasks[i].depends_on@.len() - from,
{
    if edge_fault(tasks, i, from) is None {
        lemma_task_fault(tasks, i, from + 1);
    }
}

/// An execution is finished where each task's id is among the completed or the
/// failed ones; it is a success where nothing failed and each task's id is among
/// the completed ones. So a success is finished.
pub proof fn law_success_is_finished(exec: PlanExecution)
    ensures
        exec.succeeded() ==> exec.finished() && exec.failed@.len() == 0,
        exec.succeeded() ==> forall|i: int|
            0 <= i < exec.plan.tasks@.len() ==> exists|m: int|
                0 <= m < exec.completed@.len() && (#[trigger] exec.completed@[m])@ == (
                #[trigger] exec.plan.tasks@[i]).id@,
        exec.finished() && exec.failed@.len() == 0 ==> exec.succeeded(),
        exec.finished() <==> forall|i: int|
            0 <= i < exec.plan.tasks@.len() ==> (exists|m: int|
                0 <= m < exec.completed@.len() && (#[trigger] exec.completed@[m])@
                    == exec.plan.tasks@[i].id@) || (exists|m: int|
                0 <= m < exec.failed@.len() && (#[trigger] exec.failed@[m]).0@ == (
                #[trigger] exec.plan.tasks@[i]).id@),
        exec.finished() ==> ready_of(exec.plan.tasks@, exec.completed@, exec.failed@).len() == 0,
{
    let ready = ready_of(exec.plan.tasks@, exec.completed@, exec.failed@);
    if exec.succeeded() {
        assert forall|i: int| 0 <= i < exec.plan.tasks@.len() implies exists|m: int|
            0 <= m < exec.completed@.len() && (#[trigger] exec.completed@[m])@ == (
            #[trigger] exec.plan.tasks@[i]).id@ by {
            assert(names_id(exec.completed@, exec.plan.tasks@[i].id@));
        }
    }
    if ready.len() > 0 && exec.finished() {
        law_ready_is_exact(exec.plan.tasks@, exec.completed@, exec.failed@, ready[0]);
        let j = place_of(exec.plan.tasks@, ready[0]);
        assert(names_id(exec.completed@, exec.plan.tasks@[j].id@) || fails_id(
            exec.failed@,
            exec.plan.tasks@[j].id@,
        ));
    }
}

/// A prompt without results of its dependencies stays as it is. One more
/// dependency that has a result, listed last, puts its result under its id right
/// before the prompt, after the results that stood there already.
pub proof fn law_results_are_put_before_the_prompt(
    results: Map<Seq<char>, String>,
    task: SubTask,
    earlier: SubTask,
)
    requires
        task.depends_on@.len() > 0,
        earlier.depends_on@ == task.depends_on@.drop_last(),
        earlier.prompt@ == Seq::<char>::empty(),
    ensures
        (forall|k: int|
            0 <= k < task.depends_on@.len() ==> !results.dom().contains(
                (#[trigger] task.depends_on@[k])@,
            )) ==> enriched(results, task) == task.prompt@,
        results.dom().contains(task.depends_on@.last()@) ==> enriched(results, task) == enriched(
            results,
            earlier,
        ) + "[Result from '"@ + task.depends_on@.last()@ + "']\n"@
            + results[task.depends_on@.last()@]@ + "\n\n"@ + task.prompt@,
{
    let deps = task.depends_on@;
    let n = deps.len() as int;
    lemma_sections_of_first(results, deps, earlier.depends_on@, n - 1);
    if forall|k: int| 0 <= k < n ==> !results.dom().contains((#[trigger] deps[k])@) {
        lemma_no_sections(results, deps, n);
    }
    let before = sections(results, deps, n - 1);
    if results.dom().contains(deps.last()@) {
        let section = "[Result from '"@ + deps.last()@ + "']\n"@ + results[deps.last()@]@;
        let parts = before.push(section);
        assert(parts.drop_last() =~= before);
        if before.len() > 0 {
            assert(text::join(parts, "\n\n"@) == text::join(before, "\n\n"@) + "\n\n"@ + section);
            assert(enriched(results, earlier) =~= text::join(before, "\n\n"@) + "\n\n"@);
        } else {
            assert(text::join(parts, "\n\n"@) =~= section);
        }
        assert(enriched(results, task) =~= enriched(results, earlier) + "[Result from '"@
            + deps.last()@ + "']\n"@ + results[deps.last()@]@ + "\n\n"@ + task.prompt@);
    }
}

proof fn lemma_sections_of_first(
    results: Map<Seq<char>, String>,
    deps: Seq<String>,
    first: Seq<String>,
    n: int,
)
    requires
        n <= first.len() <= deps.len(),
        first == deps.take(first.len() as int),
    ensures
        sections(results, deps, n) == sections(results, first, n),
    decreases n,
{
    if n > 0 {
        lemma_sections_of_first(results, deps, first, n - 1);
    }
}

proof fn lemma_no_sections(results: Map<Seq<char>, String>, deps: Seq<String>, n: int)
    requires
        n <= deps.len(),
        forall|k: int| 0 <= k < deps.len() ==> !results.dom().contains((#[trigger] deps[k])@),
    ensures
        sections(results, deps, n).len() == 0,
    decreases n,
{
    if n > 0 {
        lemma_no_sections(results, deps, n - 1);
        assert(!results.dom().contains(deps[n - 1]@));
    }
}

/// A list holds the tasks at the given places, one for each place; rounds do so
/// round by round.
pub proof fn law_lists_hold_the_tasks_at_their_places(
    tasks: Seq<SubTask>,
    batches: Seq<Seq<usize>>,
    rounds: Seq<Vec<&SubTask>>,
    d: int,
    k: int,
)
    requires
        lists_rounds(tasks, batches, rounds),
        0 <= d < rounds.len(),
        0 <= k < rounds[d]@.len(),
    ensures
        rounds.len() == batches.len(),
        rounds[d]@.len() == batches[d].len(),
        *rounds[d]@[k] == tasks[batches[d][k] as int],
{
    assert(lists(tasks, batches[d], rounds[d]@));
}

/// The dependency `k` of task `i` is on another task of the plan.
pub open spec fn is_sound_edge(tasks: Seq<SubTask>, i: int, k: int) -> bool {
    &&& tasks[i].depends_on@[k]@ != tasks[i].id@
    &&& exists|j: int| 0 <= j < tasks.len() && (#[trigger] tasks[j]).id@ == tasks[i].depends_on@[k]@
}

proof fn lemma_sound_edges_are_passed(tasks: Seq<SubTask>, i: int, from: int, to: int)
    requires
        0 <= i < tasks.len(),
        0 <= from <= to <= tasks[i].depends_on@.len(),
        forall|m: int| from <= m < to ==> #[trigger] is_sound_edge(tasks, i, m),
    ensures
        task_fault(tasks, i, from) == task_fault(tasks, i, to),
    decreases to - from,
{
    if from < to {
        assert(is_sound_edge(tasks, i, from));
        lemma_resolve(tasks, tasks[i].depends_on@[from]@);
        lemma_sound_edges_are_passed(tasks, i, from + 1, to);
    }
}

proof fn lemma_sound_tasks_are_passed(tasks: Seq<SubTask>, from: int, to: int)
    requires
        0 <= from <= to <= tasks.len(),
        forall|i: int, k: int|
            from <= i < to && 0 <= k < tasks[i].depends_on@.len() ==> #[trigger] is_sound_edge(
                tasks,
                i,
                k,
            ),
    ensures
        plan_fault(tasks, from) == plan_fault(tasks, to),
    decreases to - from,
{
    if from < to {
        lemma_sound_edges_are_passed(tasks, from, 0, tasks[from].depends_on@.len() as int);
        lemma_sound_tasks_are_passed(tasks, from + 1, to);
    }
}

/// Where every dependency before this one is on another task of the plan, and this
/// one is not, it is the one that the error is about: it names the task, and what
/// it depends on in vain.
pub proof fn law_the_first_fault_is_named(tasks: Seq<SubTask>, i: int, k: int)
    requires
        0 <= i < tasks.len(),
        0 <= k < tasks[i].depends_on@.len(),
        forall|a: int, b: int|
            0 <= a < i && 0 <= b < tasks[a].depends_on@.len() ==> #[trigger] is_sound_edge(
                tasks,
                a,
                b,
            ),
        forall|b: int| 0 <= b < k ==> #[trigger] is_sound_edge(tasks, i, b),
    ensures
        tasks[i].depends_on@[k]@ == tasks[i].id@ ==> invalidity(tasks) == Some(
            "task '"@ + tasks[i].id@ + "' depends on itself"@,
        ),
        tasks[i].depends_on@[k]@ != tasks[i].id@ && !is_sound_edge(tasks, i, k) ==> invalidity(
            tasks,
        ) == Some(
            "task '"@ + tasks[i].id@ + "' depends on non-existent task '"@
                + tasks[i].depends_on@[k]@ + "'"@,
        ),
{
    lemma_sound_tasks_are_passed(tasks, 0, i);
    lemma_sound_edges_are_passed(tasks, i, 0, k);
    lemma_resolve(tasks, tasks[i].depends_on@[k]@);
}

/// A plan whose dependencies are all on other tasks of it is not valid only where
/// tasks wait for each other, and then the error says so.
pub proof fn law_rings_are_named(tasks: Seq<SubTask>)
    requires
        0 < tasks.len() <= usize::MAX,
        forall|i: int, k: int|
            0 <= i < tasks.len() && 0 <= k < tasks[i].depends_on@.len() ==> #[trigger] is_sound_edge(
                tasks,
                i,
                k,
            ),
    ensures
        (exists|ring: Seq<int>| #[trigger] is_ring(tasks, ring)) ==> invalidity(tasks) == Some(
            "task plan contains a cycle"@,
        ),
        (forall|ring: Seq<int>| !#[trigger] is_ring(tasks, ring)) ==> invalidity(tasks) is None,
{
    lemma_sound_tasks_are_passed(tasks, 0, tasks.len() as int);
    lemma_rings(tasks);
}

} // verus!
