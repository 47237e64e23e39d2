//! Transitive closure of group membership over `(subgroup, supergroup)` edges.
use vstd::prelude::*;

verus! {

/// `g` is reached from one of `starts` by following at most `n` parent edges.
pub open spec fn reach_within(starts: Seq<i64>, edges: Seq<(i64, i64)>, g: i64, n: nat) -> bool
    decreases n,
{
    if n == 0 {
        starts.contains(g)
    } else {
        reach_within(starts, edges, g, (n - 1) as nat) || exists|k: int|
            0 <= k < edges.len() && #[trigger] edges[k].1 == g && reach_within(
                starts,
                edges,
                edges[k].0,
                (n - 1) as nat,
            )
    }
}

/// `g` is one of `starts` or an ancestor of one of them, by a path of any length.
pub open spec fn in_closure(starts: Seq<i64>, edges: Seq<(i64, i64)>, g: i64) -> bool {
    exists|n: nat| #[trigger] reach_within(starts, edges, g, n)
}

/// A set that holds `starts` and is closed under parent edges.
pub open spec fn closed_over(s: Seq<i64>, starts: Seq<i64>, edges: Seq<(i64, i64)>) -> bool {
    &&& forall|g: i64| #[trigger] starts.contains(g) ==> s.contains(g)
    &&& forall|k: int| 0 <= k < edges.len() && s.contains(#[trigger] edges[k].0) ==> s.contains(
        edges[k].1,
    )
}

proof fn lemma_reach_step(starts: Seq<i64>, edges: Seq<(i64, i64)>, k: int, n: nat)
    requires
        0 <= k < edges.len(),
        reach_within(starts, edges, edges[k].0, n),
    ensures
        reach_within(starts, edges, edges[k].1, n + 1),
{
}

/// Whatever is reachable lies in every set that holds the starting groups
/// and is closed under parent edges.
proof fn lemma_closed_contains_reach(
    s: Seq<i64>,
    starts: Seq<i64>,
    edges: Seq<(i64, i64)>,
    g: i64,
    n: nat,
)
    requires
        closed_over(s, starts, edges),
        reach_within(starts, edges, g, n),
    ensures
        s.contains(g),
    decreases n,
{
    if n > 0 {
        if reach_within(starts, edges, g, (n - 1) as nat) {
            lemma_closed_contains_reach(s, starts, edges, g, (n - 1) as nat);
        } else {
            let k = choose|k: int|
                0 <= k < edges.len() && #[trigger] edges[k].1 == g && reach_within(
                    starts,
                    edges,
                    edges[k].0,
                    (n - 1) as nat,
                );
            lemma_closed_contains_reach(s, starts, edges, edges[k].0, (n - 1) as nat);
        }
    }
}

/// Every start and every edge target, the only values a closure can hold.
spec fn candidates(starts: Seq<i64>, edges: Seq<(i64, i64)>) -> Seq<i64> {
    starts + edges.map_values(|e: (i64, i64)| e.1)
}

proof fn lemma_bounded_by_candidates(r: Seq<i64>, starts: Seq<i64>, edges: Seq<(i64, i64)>)
    requires
        r.no_duplicates(),
        forall|x: i64| #[trigger] r.contains(x) ==> candidates(starts, edges).contains(x),
    ensures
        r.len() <= starts.len() + edges.len(),
{
    let c = candidates(starts, edges);
    r.unique_seq_to_set();
    c.lemma_cardinality_of_set();
    assert(r.to_set().subset_of(c.to_set()));
    vstd::set_lib::lemma_len_subset(r.to_set(), c.to_set());
}

proof fn lemma_push_contains(s: Seq<i64>, b: i64)
    ensures
        forall|x: i64| #[trigger] s.push(b).contains(x) <==> (s.contains(x) || x == b),
{
    assert forall|x: i64| #[trigger] s.push(b).contains(x) <==> (s.contains(x) || x == b) by {
        if s.contains(x) {
            let j = choose|j: int| 0 <= j < s.len() && s[j] == x;
            assert(s.push(b)[j] == x);
        }
        if x == b {
            assert(s.push(b)[s.len() as int] == b);
        }
        if s.push(b).contains(x) && x != b {
            let j = choose|j: int| 0 <= j < s.len() + 1 && s.push(b)[j] == x;
            assert(s[j] == x);
        }
    }
}

/// Whether `x` occurs in `v`.
pub(crate) fn vec_contains(v: &Vec<i64>, x: i64) -> (b: bool)
    ensures
        b == v@.contains(x),
{
    let mut i: usize = 0;
    while i < v.len()
        invariant
            i <= v.len(),
            forall|j: int| 0 <= j < i ==> v@[j] != x,
        decreases v.len() - i,
    {
        if v[i] == x {
            return true;
        }
        i += 1;
    }
    false
}

/// The groups in which a member of the groups `starts` participates: those
/// groups themselves and all their ancestors along `(subgroup, supergroup)`
/// edges, each once. Cycles among the edges are harmless.
pub fn group_closure(starts: &Vec<i64>, edges: &Vec<(i64, i64)>) -> (r: Vec<i64>)
    ensures
        r@.no_duplicates(),
        forall|g: i64| r@.contains(g) <==> in_closure(starts@, edges@, g),
{
    let ghost c = candidates(starts@, edges@);
    let mut r: Vec<i64> = Vec::new();
    let mut i: usize = 0;
    while i < starts.len()
        invariant
            i <= starts.len(),
            r@.no_duplicates(),
            forall|j: int| 0 <= j < i ==> r@.contains(#[trigger] starts@[j]),
            forall|x: i64| #[trigger] r@.contains(x) ==> starts@.contains(x),
        decreases starts.len() - i,
    {
        let s = starts[i];
        if !vec_contains(&r, s) {
            proof {
                lemma_push_contains(r@, s);
            }
            r.push(s);
        }
        i += 1;
    }
    proof {
        assert forall|x: i64| #[trigger] r@.contains(x) implies in_closure(starts@, edges@, x)
            && c.contains(x) by {
            assert(reach_within(starts@, edges@, x, 0));
            let j = choose|j: int| 0 <= j < starts.len() && starts@[j] == x;
            assert(c[j] == x);
        }
        assert forall|g: i64| #[trigger] starts@.contains(g) implies r@.contains(g) by {
            let j = choose|j: int| 0 <= j < starts.len() && starts@[j] == g;
        }
    }
    let mut i: usize = 0;
    while i < r.len()
        invariant
            i <= r.len(),
            c == candidates(starts@, edges@),
            r@.no_duplicates(),
            forall|x: i64| #[trigger] r@.contains(x) ==> in_closure(starts@, edges@, x) && c.contains(x),
            forall|g: i64| #[trigger] starts@.contains(g) ==> r@.contains(g),
            forall|j: int, k: int|
                0 <= j < i && 0 <= k < edges.len() && #[trigger] edges@[k].0 == #[trigger] r@[j]
                    ==> r@.contains(edges@[k].1),
        decreases starts.len() + edges.len() - i,
    {
        proof {
            lemma_bounded_by_candidates(r@, starts@, edges@);
        }
        let g = r[i];
        let ghost before = r@;
        let mut k: usize = 0;
        while k < edges.len()
            invariant
                k <= edges.len(),
                i < r.len(),
                g == r@[i as int],
                c == candidates(starts@, edges@),
                r@.len() >= before.len(),
                forall|j: int| 0 <= j < before.len() ==> r@[j] == before[j],
                r@.no_duplicates(),
                forall|x: i64| #[trigger] r@.contains(x) ==> in_closure(starts@, edges@, x) && c.contains(x),
                forall|x: i64| #[trigger] before.contains(x) ==> r@.contains(x),
                forall|kk: int| 0 <= kk < k && #[trigger] edges@[kk].0 == g ==> r@.contains(edges@[kk].1),
            decreases edges.len() - k,
        {
            let (a, b) = edges[k];
            if a == g && !vec_contains(&r, b) {
                proof {
                    assert(r@.contains(g));
                    let n = choose|n: nat| reach_within(starts@, edges@, g, n);
                    lemma_reach_step(starts@, edges@, k as int, n);
                    assert(c[starts.len() + k] == b);
                }
                proof {
                    lemma_push_contains(r@, b);
                }
                r.push(b);
            }
            k += 1;
        }
        proof {
            assert forall|g2: i64| #[trigger] starts@.contains(g2) implies r@.contains(g2) by {
                assert(before.contains(g2));
            }
            assert forall|j: int, kk: int|
                0 <= j < i + 1 && 0 <= kk < edges.len() && #[trigger] edges@[kk].0
                    == #[trigger] r@[j] implies r@.contains(edges@[kk].1) by {
                if j < i {
                    assert(before[j] == r@[j]);
                    assert(before.contains(edges@[kk].1));
                }
            }
        }
        i += 1;
    }
    proof {
        assert forall|k: int| 0 <= k < edges.len() && r@.contains(#[trigger] edges@[k].0) implies r@.contains(
            edges@[k].1,
        ) by {
            let j = choose|j: int| 0 <= j < r@.len() && r@[j] == edges@[k].0;
        }
        assert(closed_over(r@, starts@, edges@));
        assert forall|g: i64| in_closure(starts@, edges@, g) implies r@.contains(g) by {
            let n = choose|n: nat| reach_within(starts@, edges@, g, n);
            lemma_closed_contains_reach(r@, starts@, edges@, g, n);
        }
    }
    r
}

} // verus!
