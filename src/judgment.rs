//! A judgment evaluated to its full result set: transitive reachability in
//! a directed graph, the least set closed under its two rules
//! (a successor of the start is reachable; a node reachable from a
//! reachable node is reachable).
use vstd::prelude::*;

verus! {

/// A directed graph given by its edges.
#[derive(Debug)]
pub struct Graph {
    pub edges: Vec<(u32, u32)>,
}

/// The targets of the edges from `n`, in edge order.
pub open spec fn succ_v(edges: Seq<(u32, u32)>, n: u32) -> Seq<u32>
    decreases edges.len(),
{
    if edges.len() == 0 {
        seq![]
    } else {
        let e = edges[edges.len() - 1];
        succ_v(edges.subrange(0, edges.len() - 1), n) + if e.0 == n {
            seq![e.1]
        } else {
            seq![]
        }
    }
}

pub open spec fn edge(edges: Seq<(u32, u32)>, a: u32, b: u32) -> bool {
    exists|i: int| 0 <= i < edges.len() && edges[i] == (a, b)
}

/// There is a path of exactly `k` edges from `a` to `b`.
pub open spec fn reaches(edges: Seq<(u32, u32)>, a: u32, b: u32, k: nat) -> bool
    decreases k,
{
    if k == 0 {
        false
    } else if k == 1 {
        edge(edges, a, b)
    } else {
        exists|x: u32| reaches(edges, a, x, (k - 1) as nat) && #[trigger] edge(edges, x, b)
    }
}

/// `b` is reachable from `a` in one step or more.
pub open spec fn reachable_from(edges: Seq<(u32, u32)>, a: u32, b: u32) -> bool {
    exists|k: nat| k >= 1 && #[trigger] reaches(edges, a, b, k)
}

/// What the judgment yields: each node reachable from `start`, once.
pub open spec fn is_reach_result(edges: Seq<(u32, u32)>, start: u32, r: Seq<u32>) -> bool {
    &&& r.no_duplicates()
    &&& forall|x: u32| r.contains(x) ==> reachable_from(edges, start, x)
    &&& forall|y: u32| edge(edges, start, y) ==> r.contains(y)
    &&& forall|x: u32, y: u32| r.contains(x) && #[trigger] edge(edges, x, y) ==> r.contains(y)
}

pub proof fn lemma_succ_v(edges: Seq<(u32, u32)>, n: u32)
    ensures
        forall|y: u32| succ_v(edges, n).contains(y) <==> edge(edges, n, y),
        forall|y: u32| #[trigger] succ_v(edges, n).contains(y) ==> edges.map_values(|e: (u32, u32)| e.1).contains(y),
    decreases edges.len(),
{
    if edges.len() > 0 {
        let init = edges.subrange(0, edges.len() - 1);
        let e = edges[edges.len() - 1];
        lemma_succ_v(init, n);
        let tail: Seq<u32> = if e.0 == n { seq![e.1] } else { seq![] };
        assert forall|y: u32| succ_v(edges, n).contains(y) <==> edge(edges, n, y) by {
            if succ_v(edges, n).contains(y) {
                let i = choose|i: int| 0 <= i < succ_v(edges, n).len() && succ_v(edges, n)[i] == y;
                if i < succ_v(init, n).len() {
                    assert(succ_v(init, n).contains(y));
                    assert(edge(init, n, y));
                    let j = choose|j: int| 0 <= j < init.len() && init[j] == (n, y);
                    assert(edges[j] == (n, y));
                } else {
                    assert(tail[i - succ_v(init, n).len()] == y);
                    assert(edges[edges.len() - 1] == (n, y));
                }
            }
            if edge(edges, n, y) {
                let j = choose|j: int| 0 <= j < edges.len() && edges[j] == (n, y);
                if j < edges.len() - 1 {
                    assert(init[j] == (n, y));
                    assert(edge(init, n, y));
                    assert(succ_v(init, n).contains(y));
                    let i = choose|i: int| 0 <= i < succ_v(init, n).len() && succ_v(init, n)[i] == y;
                    assert(succ_v(edges, n)[i] == y);
                } else {
                    assert(succ_v(edges, n)[succ_v(init, n).len() as int] == y);
                }
            }
        }
        assert forall|y: u32| #[trigger] succ_v(edges, n).contains(y) implies edges.map_values(|e: (u32, u32)| e.1).contains(y) by {
            assert(edge(edges, n, y));
            let j = choose|j: int| 0 <= j < edges.len() && edges[j] == (n, y);
            assert(edges.map_values(|e: (u32, u32)| e.1)[j] == y);
        }
    }
}

/// Two results of the judgment on the same input hold the same nodes.
pub proof fn lemma_reach_result_unique(edges: Seq<(u32, u32)>, start: u32, r1: Seq<u32>, r2: Seq<u32>)
    requires
        is_reach_result(edges, start, r1),
        is_reach_result(edges, start, r2),
    ensures
        r1.to_set() == r2.to_set(),
{
    assert forall|x: u32| r1.contains(x) implies r2.contains(x) by {
        let k = choose|k: nat| k >= 1 && #[trigger] reaches(edges, start, x, k);
        lemma_reaches_in(edges, start, r2, x, k);
    }
    assert forall|x: u32| r2.contains(x) implies r1.contains(x) by {
        let k = choose|k: nat| k >= 1 && #[trigger] reaches(edges, start, x, k);
        lemma_reaches_in(edges, start, r1, x, k);
    }
    assert(r1.to_set() =~= r2.to_set());
}

/// A result of the judgment holds every node reachable from the start.
pub proof fn lemma_reaches_in(edges: Seq<(u32, u32)>, start: u32, r: Seq<u32>, x: u32, k: nat)
    requires
        is_reach_result(edges, start, r),
        reaches(edges, start, x, k),
    ensures
        r.contains(x),
    decreases k,
{
    if k > 1 {
        let y = choose|y: u32| reaches(edges, start, y, (k - 1) as nat) && #[trigger] edge(edges, y, x);
        lemma_reaches_in(edges, start, r, y, (k - 1) as nat);
    }
}

fn contains(v: &Vec<u32>, x: u32) -> (r: bool)
    ensures
        r == v@.contains(x),
{
    let mut i: usize = 0;
    while i < v.len()
        invariant
            i <= v@.len(),
            forall|j: int| 0 <= j < i ==> v@[j] != x,
        decreases v@.len() - i,
    {
        if v[i] == x {
            return true;
        }
        i = i + 1;
    }
    false
}

impl Graph {
    /// The targets of the edges leaving `n`, in edge order.
    pub fn successors(&self, n: u32) -> (r: Vec<u32>)
        ensures
            r@ == succ_v(self.edges@, n),
    {
        let mut r: Vec<u32> = Vec::new();
        let mut i: usize = 0;
        while i < self.edges.len()
            invariant
                i <= self.edges@.len(),
                r@ == succ_v(self.edges@.subrange(0, i as int), n),
            decreases self.edges@.len() - i,
        {
            let ghost pre = self.edges@.subrange(0, i as int);
            assert(self.edges@.subrange(0, i + 1).subrange(0, i as int) =~= pre);
            let (a, b) = self.edges[i];
            if a == n {
                r.push(b);
            }
            i = i + 1;
            assert(r@ =~= succ_v(self.edges@.subrange(0, i as int), n));
        }
        assert(self.edges@.subrange(0, self.edges@.len() as int) =~= self.edges@);
        r
    }

    /// Every node reachable from `start` in one step or more, each once.
    pub fn reachable(&self, start: u32) -> (r: Vec<u32>)
        ensures
            is_reach_result(self.edges@, start, r@),
    {
        let ghost edges = self.edges@;
        let ghost targets = edges.map_values(|e: (u32, u32)| e.1).to_set();
        proof {
            edges.map_values(|e: (u32, u32)| e.1).lemma_cardinality_of_set();
            vstd::seq_lib::seq_to_set_is_finite(edges.map_values(|e: (u32, u32)| e.1));
        }
        let mut out: Vec<u32> = Vec::new();
        let mut i: usize = 0;
        let first = self.successors(start);
        proof {
            lemma_succ_v(edges, start);
        }
        // Seed with the successors of the start, then close under edges.
        let mut seeds_done: bool = false;
        while !seeds_done || i < out.len()
            invariant
                edges == self.edges@,
                targets == edges.map_values(|e: (u32, u32)| e.1).to_set(),
                targets.finite(),
                targets.len() <= edges.len(),
                first@ == succ_v(edges, start),
                forall|y: u32| first@.contains(y) <==> edge(edges, start, y),
                forall|y: u32| #[trigger] first@.contains(y) ==> edges.map_values(|e: (u32, u32)| e.1).contains(y),
                out@.no_duplicates(),
                forall|x: u32| out@.contains(x) ==> targets.contains(x),
                out@.len() <= edges.len(),
                i <= out@.len(),
                forall|x: u32| out@.contains(x) ==> reachable_from(edges, start, x),
                seeds_done ==> forall|y: u32| edge(edges, start, y) ==> out@.contains(y),
                !seeds_done ==> i == 0,
                forall|j: int, y: u32| 0 <= j < i && #[trigger] edge(edges, out@[j], y) ==> out@.contains(y),
            decreases (if seeds_done { 0int } else { 1int }), edges.len() - i,
        {
            let (from, next) = if !seeds_done {
                (None, copy_u32s(&first))
            } else {
                let x = out[i];
                let s = self.successors(x);
                (Some(x), s)
            };
            proof {
                if let Some(x) = from {
                    lemma_succ_v(edges, x);
                }
            }
            let mut t: usize = 0;
            while t < next.len()
                invariant
                    edges == self.edges@,
                    targets == edges.map_values(|e: (u32, u32)| e.1).to_set(),
                    targets.finite(),
                    targets.len() <= edges.len(),
                    out@.no_duplicates(),
                    forall|x: u32| out@.contains(x) ==> targets.contains(x),
                    out@.len() <= edges.len(),
                    i <= out@.len(),
                    seeds_done ==> i < out@.len(),
                    forall|x: u32| out@.contains(x) ==> reachable_from(edges, start, x),
                    from is Some ==> i < out@.len() && from->0 == out@[i as int],
                    from is None ==> next@ == first@,
                    from is Some ==> next@ == succ_v(edges, from->0),
                    forall|y: u32| next@.contains(y) ==> edges.map_values(|e: (u32, u32)| e.1).contains(y),
                    forall|y: u32| next@.contains(y) ==> (match from {
                        Some(x) => edge(edges, x, y),
                        None => edge(edges, start, y),
                    }),
                    t <= next@.len(),
                    forall|u: int| 0 <= u < t ==> out@.contains(#[trigger] next@[u]),
                    seeds_done ==> forall|y: u32| edge(edges, start, y) ==> out@.contains(y),
                    !seeds_done ==> i == 0,
                    forall|j: int, y: u32| 0 <= j < i && #[trigger] edge(edges, out@[j], y) ==> out@.contains(y),
                decreases next@.len() - t,
            {
                let y = next[t];
                assert(next@.contains(y));
                if !contains(&out, y) {
                    proof {
                        assert(targets.contains(y));
                        let ghost o2 = out@.push(y);
                        out@.unique_seq_to_set();
                        vstd::set_lib::lemma_len_subset(o2.to_set(), targets);
                        assert(o2.to_set().subset_of(targets)) by {
                            assert forall|z: u32| o2.to_set().contains(z) implies targets.contains(z) by {
                                assert(o2.contains(z));
                                if z != y {
                                    let q = choose|q: int| 0 <= q < o2.len() && o2[q] == z;
                                    assert(out@[q] == z);
                                }
                            }
                        }
                        vstd::set_lib::lemma_len_subset(o2.to_set(), targets);
                        o2.unique_seq_to_set();
                        // A new node is one step past a reachable one (or past the start).
                        match from {
                            Some(x) => {
                                assert(out@[i as int] == x);
                                assert(out@.contains(x));
                                let k = choose|k: nat| k >= 1 && #[trigger] reaches(edges, start, x, k);
                                assert(reaches(edges, start, y, k + 1));
                            },
                            None => {
                                assert(reaches(edges, start, y, 1));
                            },
                        }
                    }
                    let ghost before = out@;
                    out.push(y);
                    proof {
                        assert forall|z: u32| before.contains(z) implies out@.contains(z) by {
                            let q = choose|q: int| 0 <= q < before.len() && before[q] == z;
                            assert(out@[q] == z);
                        }
                        assert(out@[out@.len() - 1] == y);
                        assert forall|x: u32| out@.contains(x) implies reachable_from(edges, start, x) by {
                            if x != y {
                                let q = choose|q: int| 0 <= q < out@.len() && out@[q] == x;
                                assert(out@.subrange(0, out@.len() - 1)[q] == x);
                            }
                        }
                    }
                }
                t = t + 1;
            }
            proof {
                assert forall|y: u32| next@.contains(y) implies out@.contains(y) by {
                    let u = choose|u: int| 0 <= u < next@.len() && next@[u] == y;
                }
            }
            if !seeds_done {
                seeds_done = true;
            } else {
                i = i + 1;
            }
        }
        out
    }
}

fn copy_u32s(v: &Vec<u32>) -> (r: Vec<u32>)
    ensures
        r@ == v@,
{
    let mut r: Vec<u32> = Vec::new();
    let mut i: usize = 0;
    while i < v.len()
        invariant
            i <= v@.len(),
            r@ == v@.subrange(0, i as int),
        decreases v@.len() - i,
    {
        r.push(v[i]);
        i = i + 1;
        assert(r@ =~= v@.subrange(0, i as int));
    }
    assert(v@.subrange(0, v@.len() as int) =~= v@);
    r
}

} // verus!
