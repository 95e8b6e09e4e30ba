use vstd::prelude::*;
use vstd::string::StringExecFns;

use super::{Dungeon, DungeonModel, ErrorModel, Errors, Room, closed};
use crate::direction::Direction;
use crate::text::str_eq;

verus! {

/// A link leads from room `a` to room `b`.
pub open spec fn is_edge(m: DungeonModel, a: Seq<char>, b: Seq<char>) -> bool {
    m.contains_key(a) && exists|d: Direction| #[trigger] m[a].contains_key(d) && m[a][d] == b
}

/// A non-empty sequence of rooms, each linked to the next.
pub open spec fn is_path(m: DungeonModel, p: Seq<Seq<char>>) -> bool {
    &&& p.len() >= 1
    &&& forall|k: int| 0 <= k < p.len() ==> m.contains_key(#[trigger] p[k])
    &&& forall|k: int| 0 <= k < p.len() - 1 ==> is_edge(m, #[trigger] p[k], p[k + 1])
}

/// A path that starts at `a` and ends at `b`.
pub open spec fn is_route(m: DungeonModel, p: Seq<Seq<char>>, a: Seq<char>, b: Seq<char>) -> bool {
    is_path(m, p) && p[0] == a && p.last() == b
}

/// The names of a sequence of rooms.
pub open spec fn room_names(v: Seq<&Room>) -> Seq<Seq<char>> {
    v.map_values(|r: &Room| r.name@)
}

/// Room `b` can be reached from room `a` over at most `k` links.
#[verifier::opaque]
spec fn within(m: DungeonModel, a: Seq<char>, b: Seq<char>, k: nat) -> bool
    decreases k,
{
    if k == 0 {
        m.contains_key(a) && a == b
    } else {
        within(m, a, b, (k - 1) as nat) || exists|c: Seq<char>|
            #![trigger is_edge(m, c, b)]
            within(m, a, c, (k - 1) as nat) && is_edge(m, c, b)
    }
}

/// `b` is exactly `k` links away from `a`.
spec fn exact(m: DungeonModel, a: Seq<char>, b: Seq<char>, k: nat) -> bool {
    within(m, a, b, k) && (k == 0 || !within(m, a, b, (k - 1) as nat))
}

/// One more link from a room within `k - 1` links reaches a room within `k`.
proof fn lemma_within_step(m: DungeonModel, a: Seq<char>, c: Seq<char>, b: Seq<char>, k: nat)
    requires
        k > 0,
        within(m, a, c, (k - 1) as nat),
        is_edge(m, c, b),
    ensures
        within(m, a, b, k),
{
    reveal(within);
}

/// Within no links lies the start room alone.
proof fn lemma_within_zero(m: DungeonModel, a: Seq<char>, b: Seq<char>)
    ensures
        within(m, a, b, 0) == (m.contains_key(a) && a == b),
{
    reveal(within);
}

/// A room first reached over `k + 1` links is a neighbour of one reached over `k`.
proof fn lemma_within_split(m: DungeonModel, a: Seq<char>, b: Seq<char>, k: nat)
    requires
        within(m, a, b, k + 1),
        !within(m, a, b, k),
    ensures
        exists|c: Seq<char>| within(m, a, c, k) && #[trigger] is_edge(m, c, b),
{
    reveal(within);
    assert((k + 1 - 1) as nat == k);
}

/// What lies within `j` links lies within any larger number.
proof fn lemma_within_mono(m: DungeonModel, a: Seq<char>, b: Seq<char>, j: nat, k: nat)
    requires
        j <= k,
        within(m, a, b, j),
    ensures
        within(m, a, b, k),
    decreases k - j,
{
    reveal(within);
    if j < k {
        lemma_within_mono(m, a, b, j, (k - 1) as nat);
    }
}

/// Everything reachable is a room.
proof fn lemma_within_room(m: DungeonModel, a: Seq<char>, b: Seq<char>, k: nat)
    requires
        closed(m),
        within(m, a, b, k),
    ensures
        m.contains_key(b),
    decreases k,
{
    reveal(within);
    if k > 0 {
        if !within(m, a, b, (k - 1) as nat) {
            let c = choose|c: Seq<char>| within(m, a, c, (k - 1) as nat) && is_edge(m, c, b);
            let d = choose|d: Direction| #[trigger] m[c].contains_key(d) && m[c][d] == b;
            assert(m[c].contains_key(d));
        } else {
            lemma_within_room(m, a, b, (k - 1) as nat);
        }
    }
}

/// A route of `n` rooms reaches its end within `n - 1` links.
proof fn lemma_route_within(m: DungeonModel, p: Seq<Seq<char>>, a: Seq<char>, b: Seq<char>)
    requires
        is_route(m, p, a, b),
    ensures
        within(m, a, b, (p.len() - 1) as nat),
    decreases p.len(),
{
    reveal(within);
    if p.len() > 1 {
        let q = p.drop_last();
        assert(is_edge(m, p[p.len() - 2], p[p.len() - 1]));
        assert(is_route(m, q, a, q.last()));
        lemma_route_within(m, q, a, q.last());
        lemma_within_step(m, a, q.last(), b, (p.len() - 1) as nat);
    } else {
        assert(m.contains_key(p[0]));
    }
}

/// How many entries of `s` are still false.
spec fn unseen(s: Seq<bool>) -> nat
    decreases s.len(),
{
    if s.len() == 0 {
        0
    } else {
        unseen(s.drop_last()) + if s.last() {
            0nat
        } else {
            1nat
        }
    }
}

/// Marking an unmarked entry lowers the count by one.
proof fn lemma_unseen_mark(s: Seq<bool>, j: int)
    requires
        0 <= j < s.len(),
        !s[j],
    ensures
        unseen(s.update(j, true)) + 1 == unseen(s),
    decreases s.len(),
{
    let t = s.update(j, true);
    if j < s.len() - 1 {
        assert(t.drop_last() =~= s.drop_last().update(j, true));
        lemma_unseen_mark(s.drop_last(), j);
    } else {
        assert(t.drop_last() =~= s.drop_last());
    }
}

/// Exactly one distance fits a room.
proof fn lemma_exact_unique(m: DungeonModel, a: Seq<char>, b: Seq<char>, j: nat, k: nat)
    requires
        exact(m, a, b, j),
        exact(m, a, b, k),
    ensures
        j == k,
{
    if j < k {
        lemma_within_mono(m, a, b, j, (k - 1) as nat);
    } else if k < j {
        lemma_within_mono(m, a, b, k, (j - 1) as nat);
    }
}

impl Dungeon {
    spec fn name_at(&self, i: int) -> Seq<char> {
        self.rooms@[i].name@
    }

    /// When no room is exactly `level` links from `a`, nothing lies further out.
    proof fn lemma_closure(&self, a: Seq<char>, b: Seq<char>, level: nat, j: nat)
        requires
            self.wf(),
            forall|i: int| 0 <= i < self.rooms@.len() ==> !exact(self@, a, #[trigger] self.name_at(i), level),
            level <= j,
            within(self@, a, b, j),
        ensures
            within(self@, a, b, level),
        decreases j,
    {
        reveal(within);
        let m = self@;
        if j > level {
            if within(m, a, b, (j - 1) as nat) {
                self.lemma_closure(a, b, level, (j - 1) as nat);
            } else {
                let c = choose|c: Seq<char>| within(m, a, c, (j - 1) as nat) && #[trigger] is_edge(m, c, b);
                self.lemma_closure(a, c, level, (j - 1) as nat);
                lemma_within_room(m, a, c, level);
                let i = self.index_of(c);
                assert(self.has_room_at(i, c));
                assert(!exact(m, a, self.name_at(i), level));
                lemma_within_step(m, a, c, b, level);
            }
        }
    }

    /// The search after `level` rounds: the rooms seen are those within `level` links of `a`,
    /// each with its distance and, past the start, the room it was reached from.
    spec fn layered(&self, a: Seq<char>, seen: Seq<bool>, parent: Seq<usize>, dist: Seq<nat>, level: nat) -> bool {
        let m = self@;
        let n = self.rooms@.len();
        &&& seen.len() == n
        &&& parent.len() == n
        &&& dist.len() == n
        &&& forall|i: int| 0 <= i < n ==> (#[trigger] seen[i] <==> within(m, a, self.name_at(i), level))
        &&& forall|i: int| 0 <= i < n && #[trigger] seen[i] ==> dist[i] <= level && exact(m, a, self.name_at(i), dist[i])
        &&& forall|i: int|
            0 <= i < n && #[trigger] seen[i] && dist[i] > 0 ==> {
                &&& parent[i] < n
                &&& seen[parent[i] as int]
                &&& dist[parent[i] as int] + 1 == dist[i]
                &&& is_edge(m, self.name_at(parent[i] as int), self.name_at(i))
            }
    }

    /// `frontier` holds the rooms exactly `level` links from `a`.
    spec fn is_frontier(&self, a: Seq<char>, frontier: Seq<usize>, level: nat) -> bool {
        &&& forall|k: int| 0 <= k < frontier.len() ==> #[trigger] frontier[k] < self.rooms@.len()
        &&& forall|i: int|
            0 <= i < self.rooms@.len() ==> (frontier.contains(i as usize) <==> exact(
                self@,
                a,
                #[trigger] self.name_at(i),
                level,
            ))
    }

    /// One round of the search: marks every unseen neighbour of the frontier and returns them
    /// as the next frontier.
    fn expand(
        &self,
        Ghost(a): Ghost<Seq<char>>,
        Ghost(level): Ghost<nat>,
        frontier: &Vec<usize>,
        seen: &mut Vec<bool>,
        parent: &mut Vec<usize>,
        Ghost(dist0): Ghost<Seq<nat>>,
    ) -> (r: (Vec<usize>, Ghost<Seq<nat>>))
        requires
            self.wf(),
            self.layered(a, old(seen)@, old(parent)@, dist0, level),
            self.is_frontier(a, frontier@, level),
        ensures
            self.layered(a, final(seen)@, final(parent)@, r.1@, level + 1),
            self.is_frontier(a, r.0@, level + 1),
            unseen(final(seen)@) + r.0@.len() == unseen(old(seen)@),
    {
        let ghost m = self@;
        let n = self.rooms.len();
        let ghost seen0 = seen@;
        let ghost parent0 = parent@;
        let ghost mut dist = dist0;
        let mut next: Vec<usize> = Vec::new();
        let mut f: usize = 0;
        while f < frontier.len()
            invariant
                self.wf(),
                m == self@,
                n == self.rooms@.len(),
                seen@.len() == n,
                parent@.len() == n,
                dist.len() == n,
                f <= frontier@.len(),
                forall|i: int|
                    0 <= i < n ==> (frontier@.contains(i as usize) <==> exact(m, a, #[trigger] self.name_at(i), level)),
                forall|k: int| 0 <= k < frontier@.len() ==> #[trigger] frontier@[k] < n,
                forall|i: int| 0 <= i < n ==> (#[trigger] seen0[i] <==> within(m, a, self.name_at(i), level)),
                forall|i: int|
                    0 <= i < n && #[trigger] seen0[i] ==> dist0[i] <= level && exact(m, a, self.name_at(i), dist0[i]),
                forall|i: int| 0 <= i < n ==> (#[trigger] seen@[i] && !next@.contains(i as usize) <==> seen0[i]),
                forall|i: int| 0 <= i < n && seen0[i] ==> #[trigger] dist[i] == dist0[i] && parent@[i] == parent0[i],
                forall|i: int|
                    0 <= i < n && #[trigger] next@.contains(i as usize) ==> seen@[i] && dist[i] == level + 1
                        && exact(m, a, self.name_at(i), level + 1),
                forall|k: int| 0 <= k < next@.len() ==> #[trigger] next@[k] < n,
                forall|i: int|
                    0 <= i < n && #[trigger] seen@[i] && dist[i] > 0 ==> {
                        &&& parent@[i] < n
                        &&& seen@[parent@[i] as int]
                        &&& dist[parent@[i] as int] + 1 == dist[i]
                        &&& is_edge(m, self.name_at(parent@[i] as int), self.name_at(i))
                    },
                forall|g: int, d: Direction|
                    0 <= g < f && #[trigger] m[self.name_at(frontier@[g] as int)].contains_key(d) ==> seen@[self.index_of(
                        m[self.name_at(frontier@[g] as int)][d],
                    )],
                unseen(seen@) + next@.len() == unseen(seen0),
            decreases frontier@.len() - f,
        {
            let u = frontier[f];
            proof {
                self.lemma_index(u as int);
                assert(frontier@.contains(u));
            }
            let dirs = [Direction::North, Direction::South, Direction::East, Direction::West];
            let mut e: usize = 0;
            while e < 4
                invariant
                        self.wf(),
                        m == self@,
                        n == self.rooms@.len(),
                        seen@.len() == n,
                        parent@.len() == n,
                        dist.len() == n,
                        f <= frontier@.len(),
                        forall|i: int|
                            0 <= i < n ==> (frontier@.contains(i as usize) <==> exact(m, a, #[trigger] self.name_at(i), level)),
                        forall|k: int| 0 <= k < frontier@.len() ==> #[trigger] frontier@[k] < n,
                        forall|i: int| 0 <= i < n ==> (#[trigger] seen0[i] <==> within(m, a, self.name_at(i), level)),
                        forall|i: int|
                            0 <= i < n && #[trigger] seen0[i] ==> dist0[i] <= level && exact(m, a, self.name_at(i), dist0[i]),
                        forall|i: int| 0 <= i < n ==> (#[trigger] seen@[i] && !next@.contains(i as usize) <==> seen0[i]),
                        forall|i: int| 0 <= i < n && seen0[i] ==> #[trigger] dist[i] == dist0[i] && parent@[i] == parent0[i],
                        forall|i: int|
                            0 <= i < n && #[trigger] next@.contains(i as usize) ==> seen@[i] && dist[i] == level + 1
                                && exact(m, a, self.name_at(i), level + 1),
                        forall|k: int| 0 <= k < next@.len() ==> #[trigger] next@[k] < n,
                        forall|i: int|
                            0 <= i < n && #[trigger] seen@[i] && dist[i] > 0 ==> {
                                &&& parent@[i] < n
                                &&& seen@[parent@[i] as int]
                                &&& dist[parent@[i] as int] + 1 == dist[i]
                                &&& is_edge(m, self.name_at(parent@[i] as int), self.name_at(i))
                            },
                        forall|g: int, d: Direction|
                            0 <= g < f && #[trigger] m[self.name_at(frontier@[g] as int)].contains_key(d) ==> seen@[self.index_of(
                                m[self.name_at(frontier@[g] as int)][d],
                            )],
                        unseen(seen@) + next@.len() == unseen(seen0),
                    f < frontier@.len(),
                    u == frontier@[f as int],
                    u < n,
                    seen0[u as int],
                    exact(m, a, self.name_at(u as int), level),
                    dirs@ == seq![Direction::North, Direction::South, Direction::East, Direction::West],
                    e <= 4,
                    forall|x: int|
                        0 <= x < e && #[trigger] m[self.name_at(u as int)].contains_key(dirs@[x]) ==> seen@[self.index_of(
                            m[self.name_at(u as int)][dirs@[x]],
                        )],
                decreases 4 - e,
            {
                let d = dirs[e];
                let ghost c = self.name_at(u as int);
                proof {
                    self.lemma_index(u as int);
                }
                if let Some(nm) = self.rooms[u].neighbor(d) {
                    assert(closed(m));
                    assert(m[c].contains_key(d) ==> m.contains_key(m[c][d]));
                    if let Some(j) = self.find(nm.as_str()) {
                        proof {
                            self.lemma_index(j as int);
                        }
                        if !seen[j] {
                            proof {
                                assert(!seen0[j as int]);
                                assert(m[c].contains_key(d));
                                assert(is_edge(m, c, self.name_at(j as int)));
                                lemma_within_step(m, a, c, self.name_at(j as int), level + 1);
                                lemma_exact_unique(m, a, c, dist0[u as int], level);
                                lemma_unseen_mark(seen@, j as int);
                                dist = dist.update(j as int, level + 1);
                            }
                            let ghost next_before = next@;
                            let ghost seen_before = seen@;
                            seen.set(j, true);
                            parent.set(j, u);
                            next.push(j);
                            proof {
                                assert forall|i: int| 0 <= i < n implies (#[trigger] next@.contains(i as usize)
                                    <==> next_before.contains(i as usize) || i == j) by {
                                    if next_before.contains(i as usize) {
                                        let k = choose|k: int| 0 <= k < next_before.len() && next_before[k] == i as usize;
                                        assert(next@[k] == i as usize);
                                    }
                                    if i == j {
                                        assert(next@[next@.len() - 1] == j);
                                    }
                                }
                                assert forall|g: int, e2: Direction|
                                    0 <= g < f && #[trigger] m[self.name_at(frontier@[g] as int)].contains_key(e2) implies seen@[self.index_of(
                                    m[self.name_at(frontier@[g] as int)][e2],
                                )] by {
                                    let x = m[self.name_at(frontier@[g] as int)][e2];
                                    self.lemma_index(frontier@[g] as int);
                                    assert(closed(m));
                                    self.lemma_key(x);
                                    assert(seen_before[self.index_of(x)]);
                                }
                                assert(!next_before.contains(j)) by {
                                    if next_before.contains(j) {
                                        assert(seen_before[j as int]);
                                    }
                                }
                            }
                        }
                    }
                }
                e = e + 1;
            }
            proof {
                assert forall|g: int, d: Direction|
                    0 <= g < f + 1 && #[trigger] m[self.name_at(frontier@[g] as int)].contains_key(d) implies seen@[self.index_of(
                    m[self.name_at(frontier@[g] as int)][d],
                )] by {
                    if g == f {
                        match d {
                            Direction::North => assert(dirs@[0] == d),
                            Direction::South => assert(dirs@[1] == d),
                            Direction::East => assert(dirs@[2] == d),
                            Direction::West => assert(dirs@[3] == d),
                        }
                    }
                }
            }
            f = f + 1;
        }
        proof {
            assert forall|i: int| 0 <= i < n implies (#[trigger] seen@[i] <==> within(
                m,
                a,
                self.name_at(i),
                level + 1,
            )) by {
                self.lemma_index(i);
                if seen@[i] && !next@.contains(i as usize) {
                    lemma_within_mono(m, a, self.name_at(i), level, level + 1);
                }
                if within(m, a, self.name_at(i), level + 1) && !seen@[i] {
                    let b = self.name_at(i);
                    assert(!seen0[i]);
                    lemma_within_split(m, a, b, level);
                    let c = choose|c: Seq<char>| within(m, a, c, level) && #[trigger] is_edge(m, c, b);
                    lemma_within_room(m, a, c, level);
                    let g = self.index_of(c);
                    assert(self.has_room_at(g, c));
                    self.lemma_index(g);
                    if exact(m, a, c, level) {
                        assert(self.name_at(g) == c);
                        assert(frontier@.contains(g as usize));
                        let k = choose|k: int| 0 <= k < frontier@.len() && frontier@[k] == g as usize;
                        let d = choose|d: Direction| #[trigger] m[c].contains_key(d) && m[c][d] == b;
                        assert(m[self.name_at(frontier@[k] as int)].contains_key(d));
                    } else {
                        lemma_within_step(m, a, c, b, level);
                    }
                }
            }
            assert forall|i: int| 0 <= i < n implies (next@.contains(i as usize) <==> exact(
                m,
                a,
                #[trigger] self.name_at(i),
                level + 1,
            )) by {
                if exact(m, a, self.name_at(i), level + 1) {
                    assert(seen@[i]);
                }
            }
            if next@.len() == 0 {
                assert(unseen(seen@) == unseen(seen0));
            }
        }
        (next, Ghost(dist))
    }

    /// The rooms from the start to room `t`, read backwards along the recorded parents.
    fn trace_back(
        &self,
        Ghost(a): Ghost<Seq<char>>,
        s: usize,
        t: usize,
        seen: &Vec<bool>,
        parent: &Vec<usize>,
        Ghost(dist): Ghost<Seq<nat>>,
        Ghost(level): Ghost<nat>,
    ) -> (rev: Vec<usize>)
        requires
            self.wf(),
            self.layered(a, seen@, parent@, dist, level),
            s < self.rooms@.len(),
            t < self.rooms@.len(),
            self.name_at(s as int) == a,
            seen@[t as int],
        ensures
            rev@.len() >= 1,
            rev@[0] == t,
            rev@.last() == s,
            forall|k: int| 0 <= k < rev@.len() ==> #[trigger] rev@[k] < self.rooms@.len(),
            rev@.len() == dist[t as int] + 1,
            forall|k: int|
                0 <= k < rev@.len() - 1 ==> is_edge(self@, self.name_at(#[trigger] rev@[k + 1] as int), self.name_at(rev@[k] as int)),
    {
        let ghost m = self@;
        let n = self.rooms.len();
        proof {
            self.lemma_index(s as int);
            lemma_within_zero(m, a, a);
            lemma_within_mono(m, a, a, 0, level);
            assert(seen@[s as int]);
            if dist[s as int] > 0 {
                lemma_within_mono(m, a, a, 0, (dist[s as int] - 1) as nat);
            }
        }
        let mut rev: Vec<usize> = Vec::new();
        rev.push(t);
        let mut cur = t;
        while cur != s
            invariant
                self.wf(),
                m == self@,
                n == self.rooms@.len(),
                self.layered(a, seen@, parent@, dist, level),
                s < n,
                cur < n,
                self.name_at(s as int) == a,
                seen@[cur as int],
                dist[s as int] == 0,
                rev@.len() >= 1,
                rev@[0] == t,
                rev@.last() == cur,
                forall|k: int| 0 <= k < rev@.len() ==> #[trigger] rev@[k] < n,
                rev@.len() + dist[cur as int] == dist[t as int] + 1,
                forall|k: int|
                    0 <= k < rev@.len() - 1 ==> is_edge(m, self.name_at(#[trigger] rev@[k + 1] as int), self.name_at(rev@[k] as int)),
            decreases dist[cur as int],
        {
            proof {
                if dist[cur as int] == 0 {
                    lemma_within_zero(m, a, self.name_at(cur as int));
                    self.lemma_index(cur as int);
                    assert(self.has_room_at(cur as int, a));
                }
            }
            let ghost before = rev@;
            cur = parent[cur];
            rev.push(cur);
            proof {
                assert forall|k: int| 0 <= k < rev@.len() - 1 implies is_edge(
                    m,
                    self.name_at(#[trigger] rev@[k + 1] as int),
                    self.name_at(rev@[k] as int),
                ) by {
                    if k < before.len() - 1 {
                        assert(rev@[k + 1] == before[k + 1]);
                    }
                }
            }
        }
        rev
    }

    /// The rooms at the positions of `rev`, in reverse order.
    fn rooms_along(&self, rev: &Vec<usize>) -> (out: Vec<&Room>)
        requires
            forall|x: int| 0 <= x < rev@.len() ==> #[trigger] rev@[x] < self.rooms@.len(),
        ensures
            out@.len() == rev@.len(),
            forall|x: int|
                0 <= x < out@.len() ==> (#[trigger] out@[x]) == &self.rooms@[rev@[rev@.len() - 1 - x] as int],
    {
        let mut out: Vec<&Room> = Vec::new();
        let mut k: usize = rev.len();
        while k > 0
            invariant
                k <= rev@.len(),
                forall|x: int| 0 <= x < rev@.len() ==> #[trigger] rev@[x] < self.rooms@.len(),
                out@.len() + k == rev@.len(),
                forall|x: int|
                    0 <= x < out@.len() ==> (#[trigger] out@[x]) == &self.rooms@[rev@[rev@.len() - 1 - x] as int],
            decreases k,
        {
            k = k - 1;
            out.push(&self.rooms[rev[k]]);
        }
        out
    }

    /// The rooms read back from the parents form a shortest route.
    proof fn lemma_route_along(&self, a: Seq<char>, b: Seq<char>, rev: Seq<usize>, out: Seq<&Room>, dt: nat)
        requires
            self.wf(),
            rev.len() >= 1,
            rev.len() == dt + 1,
            out.len() == rev.len(),
            forall|x: int| 0 <= x < rev.len() ==> #[trigger] rev[x] < self.rooms@.len(),
            forall|x: int| 0 <= x < out.len() ==> (#[trigger] out[x]) == &self.rooms@[rev[rev.len() - 1 - x] as int],
            forall|k: int|
                0 <= k < rev.len() - 1 ==> is_edge(self@, self.name_at(#[trigger] rev[k + 1] as int), self.name_at(rev[k] as int)),
            self.name_at(rev[rev.len() - 1] as int) == a,
            self.name_at(rev[0] as int) == b,
            exact(self@, a, b, dt),
        ensures
            is_route(self@, room_names(out), a, b),
            forall|q: Seq<Seq<char>>| #[trigger] is_route(self@, q, a, b) ==> room_names(out).len() <= q.len(),
            forall|k: int| 0 <= k < out.len() ==> (#[trigger] out[k]).spec_neighbors() == self@[out[k].name@],
    {
        let m = self@;
        let p = room_names(out);
        let len = rev.len() as int;
        assert forall|x: int| 0 <= x < len implies #[trigger] p[x] == self.name_at(rev[len - 1 - x] as int)
            && m.contains_key(p[x]) && p[x] == out[x].name@ && out[x].spec_neighbors() == m[out[x].name@] by {
            self.lemma_index(rev[len - 1 - x] as int);
        }
        assert forall|x: int| 0 <= x < len implies (#[trigger] out[x]).spec_neighbors() == m[out[x].name@] by {
            self.lemma_index(rev[len - 1 - x] as int);
        }
        assert forall|x: int| 0 <= x < len - 1 implies is_edge(m, #[trigger] p[x], p[x + 1]) by {
            assert(p[x + 1] == self.name_at(rev[len - 1 - (x + 1)] as int));
            assert(rev[(len - 2 - x) + 1] == rev[len - 1 - x]);
        }
        assert forall|q: Seq<Seq<char>>| #[trigger] is_route(m, q, a, b) implies p.len() <= q.len() by {
            lemma_route_within(m, q, a, b);
            if q.len() < p.len() {
                lemma_within_mono(m, a, b, (q.len() - 1) as nat, (dt - 1) as nat);
            }
        }
    }

    /// A search that ran out of rooms without seeing `b` shows that no route leads there.
    proof fn lemma_unreached(&self, a: Seq<char>, b: Seq<char>, t: int, seen: Seq<bool>, frontier: Seq<usize>, level: nat)
        requires
            self.wf(),
            0 <= t < self.rooms@.len(),
            self.name_at(t) == b,
            !seen[t],
            frontier.len() == 0,
            seen.len() == self.rooms@.len(),
            forall|i: int| 0 <= i < self.rooms@.len() ==> (#[trigger] seen[i] <==> within(self@, a, self.name_at(i), level)),
            forall|i: int|
                0 <= i < self.rooms@.len() ==> (frontier.contains(i as usize) <==> exact(self@, a, #[trigger] self.name_at(i), level)),
        ensures
            forall|q: Seq<Seq<char>>| !#[trigger] is_route(self@, q, a, b),
    {
        let m = self@;
        assert forall|i: int| 0 <= i < self.rooms@.len() implies !exact(m, a, #[trigger] self.name_at(i), level) by {
            if exact(m, a, self.name_at(i), level) {
                assert(frontier.contains(i as usize));
            }
        }
        assert forall|q: Seq<Seq<char>>| !#[trigger] is_route(m, q, a, b) by {
            if is_route(m, q, a, b) {
                let len = (q.len() - 1) as nat;
                lemma_route_within(m, q, a, b);
                if len >= level {
                    self.lemma_closure(a, b, level, len);
                } else {
                    lemma_within_mono(m, a, b, len, level);
                }
                assert(seen[t]);
            }
        }
    }

    /// A shortest path from `start` to `end`, found breadth-first; `None` when `end` cannot be
    /// reached from `start`.
    pub fn find_path(&self, start: &str, end: &str) -> (r: Result<Option<Vec<&Room>>, Errors>)
        requires
            self.wf(),
        ensures
            !self@.contains_key(start@) ==> (r matches Err(e) && e@ == ErrorModel::UnknownRoom(start@)),
            self@.contains_key(start@) ==> r is Ok,
            r matches Ok(Some(p)) ==> {
                &&& is_route(self@, room_names(p@), start@, end@)
                &&& forall|q: Seq<Seq<char>>| #[trigger]
                    is_route(self@, q, start@, end@) ==> room_names(p@).len() <= q.len()
                &&& forall|k: int|
                    0 <= k < p@.len() ==> (#[trigger] p@[k]).spec_neighbors() == self@[p@[k].name@]
            },
            r matches Ok(None) ==> forall|q: Seq<Seq<char>>| !#[trigger] is_route(self@, q, start@, end@),
            self@.contains_key(start@) && start@ == end@ ==> (r matches Ok(Some(p)) && room_names(p@)
                == seq![start@]),
    {
        let ghost m = self@;
        let s = match self.find(start) {
            Some(s) => s,
            None => {
                return Err(Errors::UnknownRoom(String::from_str(start)));
            },
        };
        proof {
            self.lemma_index(s as int);
        }
        if str_eq(start, end) {
            let mut v: Vec<&Room> = Vec::new();
            v.push(&self.rooms[s]);
            proof {
                assert(room_names(v@) =~= seq![start@]);
                assert(m.contains_key(room_names(v@)[0]));
            }
            return Ok(Some(v));
        }
        let t = match self.find(end) {
            Some(t) => t,
            None => {
                proof {
                    assert forall|q: Seq<Seq<char>>| !#[trigger] is_route(m, q, start@, end@) by {
                        if is_route(m, q, start@, end@) {
                            assert(m.contains_key(q[q.len() - 1]));
                        }
                    }
                }
                return Ok(None);
            },
        };
        proof {
            self.lemma_index(t as int);
        }
        let n = self.rooms.len();
        let ghost a = start@;
        let mut seen: Vec<bool> = vec![false; n];
        let mut parent: Vec<usize> = vec![0; n];
        let mut frontier: Vec<usize> = Vec::new();
        let ghost mut dist: Seq<nat> = Seq::new(n as nat, |i: int| 0nat);
        let ghost mut level: nat = 0;
        seen.set(s, true);
        frontier.push(s);
        proof {
            assert forall|i: int| 0 <= i < n implies (#[trigger] seen@[i] <==> within(m, a, self.name_at(i), level)) by {
                self.lemma_index(i);
                lemma_within_zero(m, a, self.name_at(i));
            }
            assert forall|i: int| 0 <= i < n implies (frontier@.contains(i as usize) <==> exact(
                m,
                a,
                #[trigger] self.name_at(i),
                level,
            )) by {
                self.lemma_index(i);
                lemma_within_zero(m, a, self.name_at(i));
                if i == s {
                    assert(frontier@[0] == s);
                }
            }
        }
        while frontier.len() > 0 && !seen[t]
            invariant
                self.wf(),
                m == self@,
                a == start@,
                n == self.rooms@.len(),
                s < n,
                t < n,
                self.name_at(s as int) == a,
                self.name_at(t as int) == end@,
                self.layered(a, seen@, parent@, dist, level),
                self.is_frontier(a, frontier@, level),
            decreases unseen(seen@), frontier@.len(),
        {
            let (next, Ghost(d)) = self.expand(Ghost(a), Ghost(level), &frontier, &mut seen, &mut parent, Ghost(dist));
            proof {
                dist = d;
                level = level + 1;
            }
            frontier = next;
        }
        if !seen[t] {
            proof {
                self.lemma_unreached(a, end@, t as int, seen@, frontier@, level);
            }
            return Ok(None);
        }
        let rev = self.trace_back(Ghost(a), s, t, &seen, &parent, Ghost(dist), Ghost(level));
        proof {
            assert(seen@[t as int]);
            if dist[t as int] == 0 {
                lemma_within_zero(m, a, end@);
            }
        }
        let out = self.rooms_along(&rev);
        proof {
            self.lemma_route_along(a, end@, rev@, out@, dist[t as int]);
        }
        Ok(Some(out))
    }
}

} // verus!
