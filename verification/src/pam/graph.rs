//! Cycle detection on the sprite reference graph of a PAM document.
//!
//! Sprite `i` references sprite `t` when one of its frames appends `t`; the
//! graph is `g[i]` = the referenced sprite indices, repetitions included.  A
//! document may be saved only when this graph has no cycle, which the editor
//! decides by repeatedly removing sprites that nothing alive references.
use vstd::prelude::*;

verus! {

/// How often `t` occurs in `s`.
pub open spec fn occurrences(s: Seq<usize>, t: usize) -> nat
    decreases s.len(),
{
    if s.len() == 0 {
        0
    } else {
        occurrences(s.drop_last(), t) + if s.last() == t {
            1nat
        } else {
            0nat
        }
    }
}

/// Every reference names a sprite of the graph.
pub open spec fn targets_in_range(g: Seq<Seq<usize>>) -> bool {
    forall|i: int, k: int| 0 <= i < g.len() && 0 <= k < g[i].len() ==> #[trigger] g[i][k] < g.len()
}

/// The number of references in the first `upto` sprites.
pub open spec fn edge_total(g: Seq<Seq<usize>>, upto: int) -> nat
    decreases upto,
{
    if upto <= 0 {
        0
    } else {
        edge_total(g, upto - 1) + g[upto - 1].len()
    }
}

/// `rank` orders the sprites so that every sprite ranks below the sprites it references.
pub open spec fn is_ranking(g: Seq<Seq<usize>>, rank: Seq<int>) -> bool {
    &&& rank.len() == g.len()
    &&& forall|i: int, k: int|
        0 <= i < g.len() && 0 <= k < g[i].len() ==> rank[i] < rank[#[trigger] g[i][k] as int]
}

/// The reference graph has no cycle: some ranking orders every reference.
pub open spec fn acyclic(g: Seq<Seq<usize>>) -> bool {
    exists|rank: Seq<int>| is_ranking(g, rank)
}

/// References into `t` from the alive sprites among the first `upto`.
pub open spec fn indegree(g: Seq<Seq<usize>>, alive: Seq<bool>, t: usize, upto: int) -> nat
    decreases upto,
{
    if upto <= 0 {
        0
    } else {
        indegree(g, alive, t, upto - 1) + if alive[upto - 1] {
            occurrences(g[upto - 1], t)
        } else {
            0nat
        }
    }
}

/// The alive sprites among the first `upto`.
pub open spec fn alive_count(alive: Seq<bool>, upto: int) -> nat
    decreases upto,
{
    if upto <= 0 {
        0
    } else {
        alive_count(alive, upto - 1) + if alive[upto - 1] {
            1nat
        } else {
            0nat
        }
    }
}

proof fn lemma_occurrences_step(s: Seq<usize>, k: int, t: usize)
    requires
        0 <= k < s.len(),
    ensures
        occurrences(s.take(k + 1), t) == occurrences(s.take(k), t) + if s[k] == t {
            1nat
        } else {
            0nat
        },
{
    assert(s.take(k + 1).drop_last() =~= s.take(k));
}

proof fn lemma_occurrences_take_le(s: Seq<usize>, k: int, t: usize)
    requires
        0 <= k <= s.len(),
    ensures
        occurrences(s.take(k), t) <= occurrences(s, t),
    decreases s.len() - k,
{
    if k < s.len() {
        lemma_occurrences_step(s, k, t);
        lemma_occurrences_take_le(s, k + 1, t);
    } else {
        assert(s.take(k) =~= s);
    }
}

proof fn lemma_occurrences_le_len(s: Seq<usize>, t: usize)
    ensures
        occurrences(s, t) <= s.len(),
    decreases s.len(),
{
    if s.len() > 0 {
        lemma_occurrences_le_len(s.drop_last(), t);
    }
}

proof fn lemma_occurrences_zero(s: Seq<usize>, t: usize)
    requires
        occurrences(s, t) == 0,
    ensures
        forall|k: int| 0 <= k < s.len() ==> s[k] != t,
    decreases s.len(),
{
    if s.len() > 0 {
        lemma_occurrences_zero(s.drop_last(), t);
        assert forall|k: int| 0 <= k < s.len() implies s[k] != t by {
            if k < s.len() - 1 {
                assert(s.drop_last()[k] == s[k]);
            }
        }
    }
}

proof fn lemma_occurrences_hit(s: Seq<usize>, k: int)
    requires
        0 <= k < s.len(),
    ensures
        occurrences(s, s[k]) >= occurrences(s.take(k), s[k]) + 1,
{
    lemma_occurrences_step(s, k, s[k]);
    lemma_occurrences_take_le(s, k + 1, s[k]);
}

proof fn lemma_indegree_update(g: Seq<Seq<usize>>, alive: Seq<bool>, j: int, t: usize, upto: int)
    requires
        0 <= j < alive.len(),
        alive[j],
        upto <= alive.len(),
    ensures
        j < upto ==> indegree(g, alive.update(j, false), t, upto) + occurrences(g[j], t) == indegree(
            g,
            alive,
            t,
            upto,
        ),
        upto <= j ==> indegree(g, alive.update(j, false), t, upto) == indegree(g, alive, t, upto),
    decreases upto,
{
    if upto > 0 {
        lemma_indegree_update(g, alive, j, t, upto - 1);
    }
}

proof fn lemma_indegree_ge(g: Seq<Seq<usize>>, alive: Seq<bool>, j: int, t: usize, upto: int)
    requires
        0 <= j < upto <= alive.len(),
        alive[j],
    ensures
        indegree(g, alive, t, upto) >= occurrences(g[j], t),
    decreases upto,
{
    if j < upto - 1 {
        lemma_indegree_ge(g, alive, j, t, upto - 1);
    }
}

proof fn lemma_indegree_positive(g: Seq<Seq<usize>>, alive: Seq<bool>, t: usize, upto: int)
    requires
        0 <= upto <= alive.len(),
        upto <= g.len(),
        indegree(g, alive, t, upto) > 0,
    ensures
        exists|j: int, k: int| 0 <= j < upto && alive[j] && 0 <= k < g[j].len() && #[trigger] g[j][k] == t,
    decreases upto,
{
    if upto > 0 {
        if alive[upto - 1] && occurrences(g[upto - 1], t) > 0 {
            let s = g[upto - 1];
            if forall|k: int| 0 <= k < s.len() ==> s[k] != t {
                lemma_occurrences_absent(s, t);
            }
            let k = choose|k: int| 0 <= k < s.len() && s[k] == t;
            assert(g[upto - 1][k] == t);
        } else {
            lemma_indegree_positive(g, alive, t, upto - 1);
            let (j, k) = choose|j: int, k: int|
                0 <= j < upto - 1 && alive[j] && 0 <= k < g[j].len() && #[trigger] g[j][k] == t;
            assert(g[j][k] == t);
        }
    }
}

proof fn lemma_occurrences_absent(s: Seq<usize>, t: usize)
    requires
        forall|k: int| 0 <= k < s.len() ==> s[k] != t,
    ensures
        occurrences(s, t) == 0,
    decreases s.len(),
{
    if s.len() > 0 {
        assert forall|k: int| 0 <= k < s.drop_last().len() implies s.drop_last()[k] != t by {
            assert(s.drop_last()[k] == s[k]);
        }
        lemma_occurrences_absent(s.drop_last(), t);
    }
}

proof fn lemma_indegree_bound(g: Seq<Seq<usize>>, alive: Seq<bool>, t: usize, upto: int)
    ensures
        indegree(g, alive, t, upto) <= edge_total(g, upto),
    decreases upto,
{
    if upto > 0 {
        lemma_indegree_bound(g, alive, t, upto - 1);
        lemma_occurrences_le_len(g[upto - 1], t);
    }
}

proof fn lemma_alive_count_update(alive: Seq<bool>, j: int, upto: int)
    requires
        0 <= j < alive.len(),
        alive[j],
        upto <= alive.len(),
    ensures
        j < upto ==> alive_count(alive.update(j, false), upto) + 1 == alive_count(alive, upto),
        upto <= j ==> alive_count(alive.update(j, false), upto) == alive_count(alive, upto),
    decreases upto,
{
    if upto > 0 {
        lemma_alive_count_update(alive, j, upto - 1);
    }
}

proof fn lemma_alive_count_zero(alive: Seq<bool>, upto: int)
    requires
        0 <= upto <= alive.len(),
        alive_count(alive, upto) == 0,
    ensures
        forall|i: int| 0 <= i < upto ==> !alive[i],
    decreases upto,
{
    if upto > 0 {
        lemma_alive_count_zero(alive, upto - 1);
    }
}

/// Among the alive sprites, one of least rank.
proof fn lemma_least_alive(alive: Seq<bool>, rank: Seq<int>, upto: int) -> (m: int)
    requires
        0 <= upto <= alive.len(),
        rank.len() == alive.len(),
        alive_count(alive, upto) > 0,
    ensures
        0 <= m < upto,
        alive[m],
        forall|i: int| 0 <= i < upto && alive[i] ==> rank[m] <= rank[i],
    decreases upto,
{
    if alive_count(alive, upto - 1) == 0 {
        lemma_alive_count_zero(alive, upto - 1);
        upto - 1
    } else {
        let m = lemma_least_alive(alive, rank, upto - 1);
        if alive[upto - 1] && rank[upto - 1] < rank[m] {
            upto - 1
        } else {
            m
        }
    }
}

proof fn lemma_all_alive_count(n: int)
    requires
        n >= 0,
    ensures
        alive_count(Seq::new(n as nat, |_i: int| true), n) == n,
{
    let alive = Seq::new(n as nat, |_i: int| true);
    assert forall|u: int| 0 <= u <= n implies alive_count(alive, u) == u by {
        lemma_all_alive_prefix(alive, u);
    }
}

proof fn lemma_all_alive_prefix(alive: Seq<bool>, u: int)
    requires
        0 <= u <= alive.len(),
        forall|i: int| 0 <= i < alive.len() ==> alive[i],
    ensures
        alive_count(alive, u) == u,
    decreases u,
{
    if u > 0 {
        lemma_all_alive_prefix(alive, u - 1);
    }
}

/// Whether the sprite reference graph `g` is free of cycles.
///
/// Sprites whose incoming references all come from removed sprites are removed
/// one at a time; the graph is acyclic exactly when every sprite gets removed.
pub fn sprite_references_acyclic(edges: &Vec<Vec<usize>>) -> (r: bool)
    requires
        targets_in_range(edges.deep_view()),
        edge_total(edges.deep_view(), edges.deep_view().len() as int) <= usize::MAX,
    ensures
        r == acyclic(edges.deep_view()),
{
    let ghost g = edges.deep_view();
    let n = edges.len();
    assert(g.len() == n);
    assert forall|i: int| 0 <= i < n implies #[trigger] g[i] == edges@[i]@ by {}
    let ghost all = Seq::new(n as nat, |_i: int| true);

    // Count the references into every sprite.
    let mut incoming: Vec<usize> = Vec::new();
    let mut z: usize = 0;
    while z < n
        invariant
            z <= n,
            incoming@.len() == z,
            forall|t: int| 0 <= t < z ==> incoming@[t] == 0,
        decreases n - z,
    {
        incoming.push(0);
        z = z + 1;
    }
    let mut i: usize = 0;
    while i < n
        invariant
            n == edges@.len(),
            g == edges.deep_view(),
            g.len() == n,
            forall|i: int| 0 <= i < n ==> #[trigger] g[i] == edges@[i]@,
            targets_in_range(g),
            edge_total(g, n as int) <= usize::MAX,
            all == Seq::new(n as nat, |_i: int| true),
            i <= n,
            incoming@.len() == n,
            forall|t: int| 0 <= t < n ==> #[trigger] incoming@[t] == indegree(g, all, t as usize, i as int),
        decreases n - i,
    {
        let targets = &edges[i];
        let mut k: usize = 0;
        while k < targets.len()
            invariant
                n == edges@.len(),
                g.len() == n,
                i < n,
                targets@ == g[i as int],
                targets_in_range(g),
                edge_total(g, n as int) <= usize::MAX,
                all == Seq::new(n as nat, |_i: int| true),
                k <= targets@.len(),
                incoming@.len() == n,
                forall|t: int|
                    0 <= t < n ==> #[trigger] incoming@[t] == indegree(g, all, t as usize, i as int)
                        + occurrences(targets@.take(k as int), t as usize),
            decreases targets@.len() - k,
        {
            let t = targets[k];
            assert(g[i as int][k as int] == t);
            proof {
                lemma_occurrences_hit(targets@, k as int);
                lemma_occurrences_take_le(targets@, k as int, t);
                lemma_indegree_bound(g, all, t, i as int + 1);
                lemma_edge_total_mono(g, i as int + 1, n as int);
                assert(indegree(g, all, t, i as int + 1) == indegree(g, all, t, i as int)
                    + occurrences(g[i as int], t));
            }
            incoming.set(t, incoming[t] + 1);
            proof {
                assert forall|u: int| 0 <= u < n implies #[trigger] incoming@[u] == indegree(
                    g,
                    all,
                    u as usize,
                    i as int,
                ) + occurrences(targets@.take(k + 1), u as usize) by {
                    lemma_occurrences_step(targets@, k as int, u as usize);
                }
            }
            k = k + 1;
        }
        proof {
            assert(targets@.take(targets@.len() as int) =~= targets@);
        }
        i = i + 1;
    }

    // Sprites that nothing alive references are ready to be removed.
    let mut ready: Vec<usize> = Vec::new();
    let mut t0: usize = 0;
    while t0 < n
        invariant
            t0 <= n,
            incoming@.len() == n,
            ready@.no_duplicates(),
            forall|j: int| 0 <= j < ready@.len() ==> #[trigger] ready@[j] < t0,
            forall|t: int| 0 <= t < t0 ==> (ready@.contains(t as usize) <==> #[trigger] incoming@[t] == 0),
        decreases n - t0,
    {
        let ghost before = ready@;
        if incoming[t0] == 0 {
            ready.push(t0);
            proof {
                assert forall|t: usize| #[trigger] before.push(t0).contains(t) <==> (before.contains(t) || t0 == t) by {
                    lemma_push_contains(before, t0, t);
                }
                assert(!before.contains(t0));
            }
        }
        t0 = t0 + 1;
    }

    let ghost mut alive = all;
    let ghost mut rank: Seq<int> = Seq::new(n as nat, |_i: int| 0int);
    let mut visited: usize = 0;
    proof {
        lemma_all_alive_count(n as int);
    }
    while ready.len() > 0
        invariant
            n == edges@.len(),
            g == edges.deep_view(),
            g.len() == n,
            forall|i: int| 0 <= i < n ==> #[trigger] g[i] == edges@[i]@,
            targets_in_range(g),
            alive.len() == n,
            rank.len() == n,
            incoming@.len() == n,
            forall|t: int| 0 <= t < n ==> #[trigger] incoming@[t] == indegree(g, alive, t as usize, n as int),
            visited + alive_count(alive, n as int) == n,
            ready@.no_duplicates(),
            forall|j: int| 0 <= j < ready@.len() ==> #[trigger] ready@[j] < n && alive[ready@[j] as int],
            forall|t: int|
                0 <= t < n && alive[t] ==> (ready@.contains(t as usize) <==> #[trigger] incoming@[t] == 0),
            forall|t: int| 0 <= t < n && !alive[t] ==> 0 <= #[trigger] rank[t] < visited,
            forall|i: int, k: int|
                0 <= i < n && 0 <= k < g[i].len() && !alive[g[i][k] as int] ==> !alive[i] && rank[i]
                    < rank[#[trigger] g[i][k] as int],
        decreases n - visited,
    {
        let ghost old_ready = ready@;
        let index = ready.pop().unwrap();
        let ghost old_alive = alive;
        proof {
            assert(old_ready == ready@.push(index));
            assert forall|t: usize| #[trigger] old_ready.contains(t) <==> (ready@.contains(t) || index == t) by {
                lemma_push_contains(ready@, index, t);
            }
        }
        proof {
            assert(old_alive[index as int]);
            assert(incoming@[index as int] == 0);
            // No alive sprite references `index`.
            assert forall|i: int, k: int|
                0 <= i < n && 0 <= k < g[i].len() && #[trigger] g[i][k] == index implies !old_alive[i] by {
                if old_alive[i] {
                    lemma_indegree_ge(g, old_alive, i, index, n as int);
                    lemma_occurrences_hit(g[i], k);
                }
            }
            alive = old_alive.update(index as int, false);
            rank = rank.update(index as int, visited as int);
            lemma_alive_count_update(old_alive, index as int, n as int);
            assert(!ready@.contains(index));
        }
        visited = visited + 1;
        let targets = &edges[index];
        let mut k: usize = 0;
        while k < targets.len()
            invariant
                n == edges@.len(),
                g.len() == n,
                index < n,
                targets@ == g[index as int],
                targets_in_range(g),
                old_alive.len() == n,
                old_alive[index as int],
                alive == old_alive.update(index as int, false),
                incoming@.len() == n,
                k <= targets@.len(),
                forall|t: int|
                    0 <= t < n ==> #[trigger] incoming@[t] + occurrences(targets@.take(k as int), t as usize)
                        == indegree(g, old_alive, t as usize, n as int),
                forall|i: int, k: int|
                    0 <= i < n && 0 <= k < g[i].len() && #[trigger] g[i][k] == index ==> !old_alive[i],
                forall|i: int, k: int|
                    0 <= i < n && 0 <= k < g[i].len() && !old_alive[g[i][k] as int] ==> !old_alive[i]
                        && #[trigger] g[i][k] < n,
                ready@.no_duplicates(),
                forall|j: int| 0 <= j < ready@.len() ==> #[trigger] ready@[j] < n && alive[ready@[j] as int],
                forall|t: int|
                    0 <= t < n && alive[t] ==> (ready@.contains(t as usize) <==> #[trigger] incoming@[t] == 0),
            decreases targets@.len() - k,
        {
            let t = targets[k];
            assert(g[index as int][k as int] == t);
            proof {
                lemma_occurrences_hit(targets@, k as int);
                lemma_indegree_ge(g, old_alive, index as int, t, n as int);
                // The referenced sprite is alive and is not `index` itself.
                assert(old_alive[t as int]);
                if t == index {
                    assert(!old_alive[index as int]);
                }
            }
            incoming.set(t, incoming[t] - 1);
            proof {
                assert forall|u: int| 0 <= u < n implies #[trigger] incoming@[u] + occurrences(
                    targets@.take(k + 1),
                    u as usize,
                ) == indegree(g, old_alive, u as usize, n as int) by {
                    lemma_occurrences_step(targets@, k as int, u as usize);
                }
                assert(!ready@.contains(t));
            }
            let ghost before = ready@;
            if incoming[t] == 0 {
                ready.push(t);
                proof {
                    assert forall|u: usize| #[trigger] before.push(t).contains(u) <==> (before.contains(u) || t == u) by {
                        lemma_push_contains(before, t, u);
                    }
                }
            }
            k = k + 1;
        }
        proof {
            assert(targets@.take(targets@.len() as int) =~= targets@);
            assert forall|t: int| 0 <= t < n implies #[trigger] incoming@[t] == indegree(
                g,
                alive,
                t as usize,
                n as int,
            ) by {
                lemma_indegree_update(g, old_alive, index as int, t as usize, n as int);
            }
        }
    }

    proof {
        if visited == n {
            lemma_alive_count_zero(alive, n as int);
            assert(is_ranking(g, rank)) by {
                assert forall|i: int, k: int| 0 <= i < g.len() && 0 <= k < g[i].len() implies rank[i]
                    < rank[#[trigger] g[i][k] as int] by {
                    assert(g[i][k] < n);
                    assert(!alive[g[i][k] as int]);
                }
            }
        } else {
            assert forall|r: Seq<int>| !is_ranking(g, r) by {
                if is_ranking(g, r) {
                    let m = lemma_least_alive(alive, r, n as int);
                    assert(!ready@.contains(m as usize));
                    assert(incoming@[m] != 0);
                    lemma_indegree_positive(g, alive, m as usize, n as int);
                    let (j, k) = choose|j: int, k: int|
                        0 <= j < n && alive[j] && 0 <= k < g[j].len() && #[trigger] g[j][k] == m as usize;
                    assert(r[j] < r[g[j][k] as int]);
                }
            }
        }
    }
    visited == n
}

proof fn lemma_push_contains(s: Seq<usize>, x: usize, y: usize)
    ensures
        s.push(x).contains(y) <==> (s.contains(y) || x == y),
{
    if s.contains(y) {
        let j = choose|j: int| 0 <= j < s.len() && s[j] == y;
        assert(s.push(x)[j] == y);
    }
    if x == y {
        assert(s.push(x)[s.len() as int] == y);
    }
    if s.push(x).contains(y) {
        let j = choose|j: int| 0 <= j < s.push(x).len() && s.push(x)[j] == y;
        if j < s.len() {
            assert(s[j] == y);
        }
    }
}

proof fn lemma_edge_total_mono(g: Seq<Seq<usize>>, a: int, b: int)
    requires
        a <= b,
    ensures
        edge_total(g, a) <= edge_total(g, b),
    decreases b - a,
{
    if a < b {
        lemma_edge_total_mono(g, a, b - 1);
    }
}

} // verus!
