//! Reachability over a dependency graph given as a producer table: entry `b` of the
//! table lists, for each input of node `b`, the node that produces it, if any.

use vstd::prelude::*;
use vstd::set_lib::{lemma_int_range, lemma_len_subset, set_int_range};

verus! {

/// Every producer named in the table is a node of the table.
pub open spec fn table_wf(pt: Seq<Seq<Option<usize>>>) -> bool {
    forall|b: int, j: int|
        0 <= b < pt.len() && 0 <= j < pt[b].len() && #[trigger] pt[b][j] is Some ==> pt[b][j]->0
            < pt.len()
}

/// Node `a` produces one of the inputs of node `b`.
pub open spec fn edge(pt: Seq<Seq<Option<usize>>>, a: int, b: int) -> bool {
    &&& 0 <= a < pt.len()
    &&& 0 <= b < pt.len()
    &&& exists|j: int| produces(pt, a, b, j)
}

/// Input `j` of node `b` is produced by node `a`.
pub open spec fn produces(pt: Seq<Seq<Option<usize>>>, a: int, b: int, j: int) -> bool {
    0 <= j < pt[b].len() && pt[b][j] is Some && pt[b][j]->0 as int == a
}

/// One step along the edges: a node is marked when it was, or when one of its
/// producers was.
pub open spec fn step_forward_spec(pt: Seq<Seq<Option<usize>>>, m: Seq<bool>) -> Seq<bool> {
    Seq::new(m.len(), |b: int| m[b] || exists|a: int| edge(pt, a, b) && m[a])
}

/// One step against the edges: a node is marked when it was, or when one of its
/// consumers was.
pub open spec fn step_backward_spec(pt: Seq<Seq<Option<usize>>>, m: Seq<bool>) -> Seq<bool> {
    Seq::new(m.len(), |a: int| m[a] || exists|b: int| edge(pt, a, b) && m[b])
}

/// The nodes reached from the marked ones by walks of at most `k` edges.
pub open spec fn reached(pt: Seq<Seq<Option<usize>>>, init: Seq<bool>, k: int) -> Seq<bool>
    decreases k,
{
    if k <= 0 {
        init
    } else {
        step_forward_spec(pt, reached(pt, init, k - 1))
    }
}

/// The nodes from which a walk of at most `k` edges leads to a marked one.
pub open spec fn leads_to(pt: Seq<Seq<Option<usize>>>, goal: Seq<bool>, k: int) -> Seq<bool>
    decreases k,
{
    if k <= 0 {
        goal
    } else {
        step_backward_spec(pt, leads_to(pt, goal, k - 1))
    }
}

pub proof fn lemma_reached_len(pt: Seq<Seq<Option<usize>>>, init: Seq<bool>, k: int)
    ensures
        reached(pt, init, k).len() == init.len(),
    decreases k,
{
    if k > 0 {
        lemma_reached_len(pt, init, k - 1);
    }
}

pub proof fn lemma_leads_to_len(pt: Seq<Seq<Option<usize>>>, goal: Seq<bool>, k: int)
    ensures
        leads_to(pt, goal, k).len() == goal.len(),
    decreases k,
{
    if k > 0 {
        lemma_leads_to_len(pt, goal, k - 1);
    }
}

/// `w` is a walk: consecutive nodes are joined by edges.
pub open spec fn is_walk(pt: Seq<Seq<Option<usize>>>, w: Seq<int>) -> bool {
    w.len() > 0 && forall|i: int| 0 <= i < w.len() - 1 ==> edge(pt, #[trigger] w[i], w[i + 1])
}

/// A walk from a node satisfying `init` reaches `b` when `b` is marked after `k` steps.
pub proof fn lemma_reached_has_walk(pt: Seq<Seq<Option<usize>>>, init: Seq<bool>, k: int, b: int)
    requires
        0 <= b < init.len(),
        init.len() == pt.len(),
        reached(pt, init, k)[b],
    ensures
        exists|w: Seq<int>| is_walk(pt, w) && 0 <= w[0] < init.len() && init[w[0]] && w.last() == b,
    decreases k,
{
    lemma_reached_len(pt, init, k);
    if k <= 0 {
        let w = seq![b];
        assert(is_walk(pt, w) && 0 <= w[0] < init.len() && init[w[0]] && w.last() == b);
    } else {
        let prev = reached(pt, init, k - 1);
        lemma_reached_len(pt, init, k - 1);
        if prev[b] {
            lemma_reached_has_walk(pt, init, k - 1, b);
        } else {
            let a = choose|a: int| edge(pt, a, b) && prev[a];
            lemma_reached_has_walk(pt, init, k - 1, a);
            let w = choose|w: Seq<int>| is_walk(pt, w) && 0 <= w[0] < init.len() && init[w[0]] && w.last() == a;
            let w2 = w.push(b);
            assert forall|i: int| 0 <= i < w2.len() - 1 implies edge(pt, #[trigger] w2[i], w2[i + 1]) by {
                if i < w.len() - 1 {
                    assert(w2[i] == w[i] && w2[i + 1] == w[i + 1]);
                }
            }
            assert(is_walk(pt, w2) && 0 <= w2[0] < init.len() && init[w2[0]] && w2.last() == b);
        }
    }
}

/// A walk from `a` reaches a node satisfying `goal` when `a` is marked after `k` steps.
pub proof fn lemma_leads_to_has_walk(pt: Seq<Seq<Option<usize>>>, goal: Seq<bool>, k: int, a: int)
    requires
        0 <= a < goal.len(),
        goal.len() == pt.len(),
        leads_to(pt, goal, k)[a],
    ensures
        exists|w: Seq<int>| is_walk(pt, w) && w[0] == a && 0 <= w.last() < goal.len() && goal[w.last()],
    decreases k,
{
    lemma_leads_to_len(pt, goal, k);
    if k <= 0 {
        let w = seq![a];
        assert(is_walk(pt, w) && w[0] == a && 0 <= w.last() < goal.len() && goal[w.last()]);
    } else {
        let prev = leads_to(pt, goal, k - 1);
        lemma_leads_to_len(pt, goal, k - 1);
        if prev[a] {
            lemma_leads_to_has_walk(pt, goal, k - 1, a);
        } else {
            let b = choose|b: int| edge(pt, a, b) && prev[b];
            lemma_leads_to_has_walk(pt, goal, k - 1, b);
            let w = choose|w: Seq<int>| is_walk(pt, w) && w[0] == b && 0 <= w.last() < goal.len() && goal[w.last()];
            let w2 = seq![a] + w;
            assert forall|i: int| 0 <= i < w2.len() - 1 implies edge(pt, #[trigger] w2[i], w2[i + 1]) by {
                if i > 0 {
                    assert(w2[i] == w[i - 1] && w2[i + 1] == w[i]);
                }
            }
            assert(is_walk(pt, w2) && w2[0] == a && 0 <= w2.last() < goal.len() && goal[w2.last()]);
        }
    }
}

/// Joining a walk that ends at a node with a walk that starts there gives a walk.
pub proof fn lemma_join_walks(pt: Seq<Seq<Option<usize>>>, w1: Seq<int>, w2: Seq<int>)
    requires
        is_walk(pt, w1),
        is_walk(pt, w2),
        w1.last() == w2[0],
    ensures
        is_walk(pt, w1 + w2.skip(1)),
        (w1 + w2.skip(1))[0] == w1[0],
        (w1 + w2.skip(1)).last() == w2.last(),
        (w1 + w2.skip(1)).contains(w1.last()),
{
    let w = w1 + w2.skip(1);
    assert forall|i: int| 0 <= i < w.len() - 1 implies edge(pt, #[trigger] w[i], w[i + 1]) by {
        if i < w1.len() - 1 {
            assert(w[i] == w1[i] && w[i + 1] == w1[i + 1]);
        } else {
            let j = i - (w1.len() - 1);
            assert(w[i] == w2[j]);
            assert(w[i + 1] == w2[j + 1]);
        }
    }
    if w2.len() > 1 {
        assert(w.last() == w2.last());
    }
    assert(w[w1.len() - 1] == w1.last());
}

proof fn lemma_reached_mono(pt: Seq<Seq<Option<usize>>>, init: Seq<bool>, j: int, k: int, b: int)
    requires
        0 <= j <= k,
        0 <= b < init.len(),
        reached(pt, init, j)[b],
    ensures
        reached(pt, init, k)[b],
    decreases k - j,
{
    if j < k {
        lemma_reached_mono(pt, init, j, k - 1, b);
        lemma_reached_len(pt, init, k - 1);
    }
}

/// The end of a walk of at most `k` edges from a marked node is reached after `k` steps.
pub proof fn lemma_walk_is_reached(pt: Seq<Seq<Option<usize>>>, init: Seq<bool>, w: Seq<int>, k: int)
    requires
        is_walk(pt, w),
        init.len() == pt.len(),
        0 <= w[0] < init.len(),
        init[w[0]],
        w.len() - 1 <= k,
    ensures
        0 <= w.last() < pt.len(),
        reached(pt, init, k)[w.last()],
    decreases w.len(),
{
    if w.len() == 1 {
        lemma_reached_mono(pt, init, 0, k, w[0]);
    } else {
        let u = w.drop_last();
        assert forall|i: int| 0 <= i < u.len() - 1 implies edge(pt, #[trigger] u[i], u[i + 1]) by {
            assert(u[i] == w[i] && u[i + 1] == w[i + 1]);
        }
        lemma_walk_is_reached(pt, init, u, k - 1);
        let a = u.last();
        let b = w.last();
        assert(edge(pt, w[w.len() - 2], w[w.len() - 1]));
        assert(a == w[w.len() - 2]);
        lemma_reached_len(pt, init, k - 1);
        assert(reached(pt, init, k - 1)[a]);
        assert(edge(pt, a, b));
    }
}

proof fn lemma_pigeonhole(s: Seq<int>, n: int)
    requires
        0 <= n < s.len(),
        forall|i: int| 0 <= i < s.len() ==> 0 <= #[trigger] s[i] < n,
    ensures
        exists|p: int, q: int| 0 <= p < q < s.len() && s[p] == s[q],
{
    if s.no_duplicates() {
        s.unique_seq_to_set();
        lemma_int_range(0, n);
        assert(s.to_set().subset_of(set_int_range(0, n)));
        lemma_len_subset(s.to_set(), set_int_range(0, n));
    } else {
        let (p, q) = choose|p: int, q: int| 0 <= p < s.len() && 0 <= q < s.len() && p != q && s[p] == s[q];
        if p < q {
            assert(0 <= p < q < s.len() && s[p] == s[q]);
        } else {
            assert(0 <= q < p < s.len() && s[q] == s[p]);
        }
    }
}

/// A closed walk can be shortened to one of at most as many edges as there are nodes.
pub proof fn lemma_short_closed_walk(pt: Seq<Seq<Option<usize>>>, w: Seq<int>)
    requires
        is_walk(pt, w),
        w.len() >= 2,
        w[0] == w.last(),
    ensures
        exists|v: Seq<int>| is_walk(pt, v) && 2 <= v.len() <= pt.len() + 1 && v[0] == w[0] && v.last() == w[0],
    decreases w.len(),
{
    if w.len() <= pt.len() + 1 {
        assert(is_walk(pt, w) && 2 <= w.len() <= pt.len() + 1 && w[0] == w[0] && w.last() == w[0]);
    } else {
        let inner = w.skip(1);
        let n = pt.len() as int;
        assert forall|i: int| 0 <= i < inner.len() implies 0 <= #[trigger] inner[i] < n by {
            assert(inner[i] == w[i + 1]);
            assert(edge(pt, w[i], w[i + 1]));
        }
        lemma_pigeonhole(inner, n);
        let (p0, q0) = choose|p: int, q: int| 0 <= p < q < inner.len() && inner[p] == inner[q];
        let p = p0 + 1;
        let q = q0 + 1;
        assert(w[p] == w[q]);
        let v = w.take(p + 1) + w.skip(q + 1);
        assert forall|i: int| 0 <= i < v.len() - 1 implies edge(pt, #[trigger] v[i], v[i + 1]) by {
            if i < p {
                assert(v[i] == w[i] && v[i + 1] == w[i + 1]);
            } else if i == p {
                assert(v[i] == w[q]);
                assert(v[i + 1] == w[q + 1]);
                assert(edge(pt, w[q], w[q + 1]));
            } else {
                let j = i - p - 1 + q + 1;
                assert(v[i] == w[j] && v[i + 1] == w[j + 1]);
            }
        }
        assert(v[0] == w[0]);
        if q + 1 < w.len() {
            assert(v.last() == w.last());
        } else {
            assert(v.last() == w[p]);
        }
        lemma_short_closed_walk(pt, v);
    }
}

pub open spec fn view_table(pt: &Vec<Vec<Option<usize>>>) -> Seq<Seq<Option<usize>>> {
    Seq::new(pt@.len(), |b: int| pt@[b]@)
}

/// Whether `b` has an input produced by a marked node.
fn has_marked_producer(pt: &Vec<Vec<Option<usize>>>, marks: &Vec<bool>, b: usize) -> (r: bool)
    requires
        table_wf(view_table(pt)),
        marks@.len() == pt@.len(),
        b < pt@.len(),
    ensures
        r == exists|a: int| edge(view_table(pt), a, b as int) && marks@[a],
{
    let ghost t = view_table(pt);
    let row = &pt[b];
    assert(row@ == t[b as int]);
    let mut j: usize = 0;
    while j < row.len()
        invariant
            t == view_table(pt),
            table_wf(t),
            row@ == t[b as int],
            marks@.len() == pt@.len(),
            b < pt@.len(),
            j <= row@.len(),
            forall|jj: int| 0 <= jj < j ==> (#[trigger] row@[jj] matches Some(a) ==> !marks@[a as int]),
        decreases row@.len() - j,
    {
        if let Some(a) = row[j] {
            assert(t[b as int][j as int] is Some);
            if marks[a] {
                assert(produces(t, a as int, b as int, j as int));
                assert(edge(t, a as int, b as int));
                return true;
            }
        }
        j = j + 1;
    }
    assert forall|a: int| edge(t, a, b as int) implies !marks@[a] by {
        let jj = choose|jj: int| produces(t, a, b as int, jj);
        assert(row@[jj] is Some);
    }
    false
}

/// Extends the marks by one step along the edges.
fn step_forward(pt: &Vec<Vec<Option<usize>>>, marks: &Vec<bool>) -> (r: Vec<bool>)
    requires
        table_wf(view_table(pt)),
        marks@.len() == pt@.len(),
    ensures
        r@.len() == marks@.len(),
        forall|b: int| 0 <= b < r@.len() ==> #[trigger] r@[b] == (marks@[b] || exists|a: int|
            edge(view_table(pt), a, b) && marks@[a]),
{
    let mut r: Vec<bool> = Vec::new();
    let mut b: usize = 0;
    while b < pt.len()
        invariant
            table_wf(view_table(pt)),
            marks@.len() == pt@.len(),
            b <= pt@.len(),
            r@.len() == b,
            forall|bb: int| 0 <= bb < b ==> #[trigger] r@[bb] == (marks@[bb] || exists|a: int|
                edge(view_table(pt), a, bb) && marks@[a]),
        decreases pt@.len() - b,
    {
        let v = marks[b] || has_marked_producer(pt, marks, b);
        r.push(v);
        b = b + 1;
    }
    r
}

/// Extends the marks by one step against the edges.
fn step_backward(pt: &Vec<Vec<Option<usize>>>, marks: &Vec<bool>) -> (r: Vec<bool>)
    requires
        table_wf(view_table(pt)),
        marks@.len() == pt@.len(),
    ensures
        r@.len() == marks@.len(),
        forall|a: int| 0 <= a < r@.len() ==> #[trigger] r@[a] == (marks@[a] || exists|b: int|
            edge(view_table(pt), a, b) && marks@[b]),
{
    let ghost t = view_table(pt);
    let mut r = marks.clone();
    let mut b: usize = 0;
    while b < pt.len()
        invariant
            t == view_table(pt),
            table_wf(t),
            marks@.len() == pt@.len(),
            r@.len() == marks@.len(),
            b <= pt@.len(),
            forall|a: int| 0 <= a < r@.len() ==> #[trigger] r@[a] == (marks@[a] || exists|bb: int|
                0 <= bb < b && edge(t, a, bb) && marks@[bb]),
        decreases pt@.len() - b,
    {
        if marks[b] {
            let row = &pt[b];
            assert(row@ == t[b as int]);
            let mut j: usize = 0;
            while j < row.len()
                invariant
                    t == view_table(pt),
                    table_wf(t),
                    row@ == t[b as int],
                    marks@.len() == pt@.len(),
                    r@.len() == marks@.len(),
                    b < pt@.len(),
                    marks@[b as int],
                    j <= row@.len(),
                    forall|a: int| 0 <= a < r@.len() ==> #[trigger] r@[a] == (marks@[a] || (exists|bb: int|
                        0 <= bb < b && edge(t, a, bb) && marks@[bb]) || (exists|jj: int|
                        0 <= jj < j && row@[jj] is Some && row@[jj]->0 as int == a)),
                decreases row@.len() - j,
            {
                if let Some(a) = row[j] {
                    assert(t[b as int][j as int] is Some);
                    r.set(a, true);
                }
                j = j + 1;
            }
            assert forall|a: int| 0 <= a < r@.len() implies #[trigger] r@[a] == (marks@[a] || exists|bb: int|
                0 <= bb < b + 1 && edge(t, a, bb) && marks@[bb]) by {
                if exists|jj: int| 0 <= jj < row@.len() && row@[jj] is Some && row@[jj]->0 as int == a {
                    let jj = choose|jj: int| 0 <= jj < row@.len() && row@[jj] is Some && row@[jj]->0 as int == a;
                    assert(produces(t, a, b as int, jj));
                    assert(edge(t, a, b as int));
                }
                if exists|bb: int| 0 <= bb < b + 1 && edge(t, a, bb) && marks@[bb] {
                    let bb = choose|bb: int| 0 <= bb < b + 1 && edge(t, a, bb) && marks@[bb];
                    if bb == b {
                        let jj = choose|jj: int| produces(t, a, b as int, jj);
                    }
                }
            }
        }
        b = b + 1;
    }
    r
}

/// The nodes reached from the marked ones by walks of at most `k` edges.
pub fn reach_forward(pt: &Vec<Vec<Option<usize>>>, init: Vec<bool>, k: usize) -> (r: Vec<bool>)
    requires
        table_wf(view_table(pt)),
        init@.len() == pt@.len(),
    ensures
        r@ == reached(view_table(pt), init@, k as int),
{
    let ghost t = view_table(pt);
    let ghost i0 = init@;
    let mut marks = init;
    let mut i: usize = 0;
    while i < k
        invariant
            t == view_table(pt),
            table_wf(t),
            i <= k,
            marks@.len() == pt@.len(),
            marks@ == reached(t, i0, i as int),
        decreases k - i,
    {
        let next = step_forward(pt, &marks);
        assert(next@ =~= step_forward_spec(t, marks@));
        marks = next;
        i = i + 1;
    }
    marks
}

/// The nodes from which a walk of at most `k` edges leads to a marked one.
pub fn reach_backward(pt: &Vec<Vec<Option<usize>>>, goal: Vec<bool>, k: usize) -> (r: Vec<bool>)
    requires
        table_wf(view_table(pt)),
        goal@.len() == pt@.len(),
    ensures
        r@ == leads_to(view_table(pt), goal@, k as int),
{
    let ghost t = view_table(pt);
    let ghost g0 = goal@;
    let mut marks = goal;
    let mut i: usize = 0;
    while i < k
        invariant
            t == view_table(pt),
            table_wf(t),
            i <= k,
            marks@.len() == pt@.len(),
            marks@ == leads_to(t, g0, i as int),
        decreases k - i,
    {
        let next = step_backward(pt, &marks);
        assert(next@ =~= step_backward_spec(t, marks@));
        marks = next;
        i = i + 1;
    }
    marks
}

/// Marks the consumers of node `s`.
pub fn successors(pt: &Vec<Vec<Option<usize>>>, s: usize) -> (r: Vec<bool>)
    requires
        table_wf(view_table(pt)),
    ensures
        r@.len() == pt@.len(),
        forall|b: int| 0 <= b < r@.len() ==> #[trigger] r@[b] == edge(view_table(pt), s as int, b),
{
    let ghost t = view_table(pt);
    let mut r: Vec<bool> = Vec::new();
    let mut b: usize = 0;
    while b < pt.len()
        invariant
            t == view_table(pt),
            table_wf(t),
            b <= pt@.len(),
            r@.len() == b,
            forall|bb: int| 0 <= bb < b ==> #[trigger] r@[bb] == edge(t, s as int, bb),
        decreases pt@.len() - b,
    {
        let row = &pt[b];
        assert(row@ == t[b as int]);
        let mut found = false;
        let mut j: usize = 0;
        while j < row.len()
            invariant
                t == view_table(pt),
                table_wf(t),
                b < pt@.len(),
                row@ == t[b as int],
                j <= row@.len(),
                found == exists|jj: int| 0 <= jj < j && produces(t, s as int, b as int, jj),
            decreases row@.len() - j,
        {
            if let Some(a) = row[j] {
                if a == s {
                    assert(produces(t, s as int, b as int, j as int));
                    found = true;
                }
            }
            j = j + 1;
        }
        proof {
            if found {
                let jj = choose|jj: int| 0 <= jj < j && produces(t, s as int, b as int, jj);
                assert(t[b as int][jj] is Some);
                assert(s < t.len());
            }
        }
        r.push(found);
        b = b + 1;
    }
    r
}

} // verus!
