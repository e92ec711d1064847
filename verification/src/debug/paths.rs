//! Paths through a snapshot of the dependency graph.
use crate::debug::graph::DependencyGraph;
#[allow(unused_imports)]
use crate::debug::graph::Adjacency;
use crate::key::{file_name, Dep, DynKey};
#[allow(unused_imports)]
use crate::key::Node;
use crate::table::SharedTable;
use vstd::prelude::*;

verus! {

/// Paths of this many edges or more are not followed.
pub const MAX_DEPTH: usize = 1000;

/// Whether a query depends directly on a vertex.
pub open spec fn depends_on(forward: Adjacency, q: Node, n: Node) -> bool {
    crate::debug::graph::beside(forward, q) matches Some(deps) && deps.contains(n)
}

/// The paths found from `current` to `end`, each behind `path`, without going through a vertex of
/// `visited`, where `depth` edges were followed already.
pub open spec fn paths_from(
    forward: Adjacency,
    current: Node,
    end: Node,
    path: Seq<Node>,
    visited: Seq<Node>,
    depth: nat,
) -> Seq<Seq<Node>>
    decreases 2 * (MAX_DEPTH - depth) + 1, 0nat,
{
    if depth >= MAX_DEPTH {
        Seq::empty()
    } else if current == end {
        seq![path]
    } else if visited.contains(current) {
        Seq::empty()
    } else {
        match crate::debug::graph::beside(forward, current) {
            Some(deps) => paths_through(forward, deps, end, path, visited.push(current), depth),
            None => Seq::empty(),
        }
    }
}

/// The paths found to `end` that continue `path` with one of `deps`.
pub open spec fn paths_through(
    forward: Adjacency,
    deps: Seq<Node>,
    end: Node,
    path: Seq<Node>,
    visited: Seq<Node>,
    depth: nat,
) -> Seq<Seq<Node>>
    decreases 2 * (MAX_DEPTH - depth), deps.len(),
{
    if depth >= MAX_DEPTH || deps.len() == 0 {
        Seq::empty()
    } else {
        paths_through(forward, deps.drop_last(), end, path, visited, depth) + paths_from(
            forward,
            deps.last(),
            end,
            path.push(deps.last()),
            visited,
            depth + 1,
        )
    }
}

/// The vertices of several paths.
pub open spec fn path_nodes(paths: Seq<Vec<Dep>>) -> Seq<Seq<Node>> {
    paths.map_values(|p: Vec<Dep>| crate::graph::dep_nodes(p@))
}

/// Whether an index leads to the place at which each query first stands in a list.
spec fn indexes(forward: Adjacency, index: Map<Seq<u8>, usize>) -> bool {
    forall|q: Node|
        match #[trigger] crate::debug::graph::beside(forward, q) {
            Some(deps) => {
                let name = crate::key::node_bytes(q);
                &&& index.contains_key(name)
                &&& index[name] < forward.len()
                &&& forward[index[name] as int].1 == deps
            },
            None => !index.contains_key(crate::key::node_bytes(q)),
        }
}

fn index_queries(graph: &DependencyGraph) -> (r: SharedTable<usize>)
    ensures
        r.wf(),
        indexes(graph.forward(), r@),
{
    let ghost all = graph.forward();
    let mut r: SharedTable<usize> = SharedTable::new();
    let mut i: usize = 0;
    while i < graph.forward_deps.len()
        invariant
            i <= graph.forward_deps@.len(),
            all == graph.forward(),
            r.wf(),
            indexes(all.take(i as int), r@),
        decreases graph.forward_deps@.len() - i,
    {
        let entry: &(DynKey, Vec<Dep>) = &graph.forward_deps[i];
        let ghost shorter = all.take(i as int);
        let ghost longer = all.take(i + 1);
        let ghost before = r@;
        let name: Vec<u8> = file_name(entry.0.kind, &entry.0.key);
        assert(name@ == crate::key::node_bytes(entry.0@));
        if !r.contains(name.as_slice()) {
            let _ = r.insert(name.as_slice(), i);
        }
        proof {
            assert(longer.drop_last() =~= shorter);
            assert(longer.last() == (entry.0@, crate::graph::dep_nodes(entry.1@)));
            assert(crate::debug::graph::beside(shorter, entry.0@) is Some <==> before.contains_key(
                name@,
            ));
            assert forall|q: Node|
                match #[trigger] crate::debug::graph::beside(longer, q) {
                    Some(deps) => {
                        let name = crate::key::node_bytes(q);
                        &&& r@.contains_key(name)
                        &&& r@[name] < longer.len()
                        &&& longer[r@[name] as int].1 == deps
                    },
                    None => !r@.contains_key(crate::key::node_bytes(q)),
                } by {
                let old_deps = crate::debug::graph::beside(shorter, q);
                if crate::key::node_bytes(q) == crate::key::node_bytes(entry.0@) {
                    crate::key::node_bytes_injective(q, entry.0@);
                }
            }
        }
        i = i + 1;
    }
    assert(all.take(i as int) =~= all);
    r
}

fn is_among(keys: &Vec<DynKey>, key: &DynKey) -> (r: bool)
    ensures
        r == crate::debug::graph::key_nodes(keys@).contains(key@),
{
    let ghost nodes = crate::debug::graph::key_nodes(keys@);
    let mut i: usize = 0;
    while i < keys.len()
        invariant
            i <= keys@.len(),
            nodes == crate::debug::graph::key_nodes(keys@),
            forall|j: int| 0 <= j < i ==> nodes[j] != key@,
        decreases keys@.len() - i,
    {
        assert(nodes[i as int] == keys@[i as int]@);
        if keys[i] == *key {
            return true;
        }
        i = i + 1;
    }
    false
}

impl DependencyGraph {
    /// Find all dependency paths from `start` to `end`.
    ///
    /// Each path is a sequence of dependencies, the last of which is `end`. Paths of
    /// [`MAX_DEPTH`] edges or more are not followed.
    pub fn find_paths(&self, start: &DynKey, end: &DynKey) -> (r: Vec<Vec<Dep>>)
        ensures
            path_nodes(r@) == paths_from(
                self.forward(),
                start@,
                end@,
                Seq::empty(),
                Seq::empty(),
                0,
            ),
    {
        let index: SharedTable<usize> = index_queries(self);
        let mut paths: Vec<Vec<Dep>> = Vec::new();
        let mut path: Vec<Dep> = Vec::new();
        let mut visited: Vec<DynKey> = Vec::new();
        assert(crate::graph::dep_nodes(path@) =~= Seq::empty());
        assert(crate::debug::graph::key_nodes(visited@) =~= Seq::empty());
        self.find_paths_recursive(&index, start, end, &mut path, &mut visited, &mut paths, 0);
        assert(path_nodes(paths@) =~= paths_from(
            self.forward(),
            start@,
            end@,
            Seq::empty(),
            Seq::empty(),
            0,
        ));
        paths
    }

    fn find_paths_recursive(
        &self,
        index: &SharedTable<usize>,
        current: &DynKey,
        end: &DynKey,
        path: &mut Vec<Dep>,
        visited: &mut Vec<DynKey>,
        results: &mut Vec<Vec<Dep>>,
        depth: usize,
    )
        requires
            index.wf(),
            indexes(self.forward(), index@),
            depth <= MAX_DEPTH,
        ensures
            final(path)@ == old(path)@,
            final(visited)@ == old(visited)@,
            path_nodes(final(results)@) == path_nodes(old(results)@) + paths_from(
                self.forward(),
                current@,
                end@,
                crate::graph::dep_nodes(old(path)@),
                crate::debug::graph::key_nodes(old(visited)@),
                depth as nat,
            ),
        decreases MAX_DEPTH - depth,
    {
        let ghost forward = self.forward();
        let ghost found = path_nodes(results@);
        let ghost behind = crate::graph::dep_nodes(path@);
        let ghost passed = crate::debug::graph::key_nodes(visited@);
        assert(found + Seq::<Seq<Node>>::empty() =~= found);
        if depth >= MAX_DEPTH {
            return;
        }
        if *current == *end {
            let copy: Vec<Dep> = path.clone();
            assert(crate::graph::dep_nodes(copy@) =~= behind);
            results.push(copy);
            assert(path_nodes(results@) =~= found + seq![behind]);
            return;
        }
        if is_among(visited, current) {
            return;
        }
        let name: Vec<u8> = file_name(current.kind, &current.key);
        let ghost listed = crate::debug::graph::beside(forward, current@);
        let place: usize = match index.get(name.as_slice()) {
            Some(place) => *place,
            None => {
                return;
            },
        };
        visited.push(current.clone());
        let ghost inside = visited@;
        assert(crate::debug::graph::key_nodes(inside) =~= passed.push(current@));
        let deps: &Vec<Dep> = &self.forward_deps[place].1;
        let ghost nodes = crate::graph::dep_nodes(deps@);
        assert(listed matches Some(d) && d == nodes);
        let mut i: usize = 0;
        while i < deps.len()
            invariant
                i <= deps@.len(),
                index.wf(),
                indexes(self.forward(), index@),
                forward == self.forward(),
                depth < MAX_DEPTH,
                nodes == crate::graph::dep_nodes(deps@),
                path@ == old(path)@,
                behind == crate::graph::dep_nodes(path@),
                visited@ == inside,
                crate::debug::graph::key_nodes(inside) == passed.push(current@),
                path_nodes(results@) == found + paths_through(
                    forward,
                    nodes.take(i as int),
                    end@,
                    behind,
                    passed.push(current@),
                    depth as nat,
                ),
            decreases deps@.len() - i,
        {
            let dep: &Dep = &deps[i];
            let next: DynKey = dep.to_dyn_key();
            let ghost before = path@;
            let ghost done = path_nodes(results@);
            path.push(dep.clone());
            assert(crate::graph::dep_nodes(path@) =~= behind.push(nodes[i as int]));
            self.find_paths_recursive(index, &next, end, path, visited, results, depth + 1);
            let _ = path.pop();
            proof {
                assert(path@ =~= before);
                let longer = nodes.take(i + 1);
                assert(longer.drop_last() =~= nodes.take(i as int));
                assert(longer.last() == nodes[i as int]);
                assert(path_nodes(results@) =~= found + paths_through(
                    forward,
                    longer,
                    end@,
                    behind,
                    passed.push(current@),
                    depth as nat,
                ));
            }
            i = i + 1;
        }
        let _ = visited.pop();
        assert(visited@ =~= old(visited)@);
        assert(nodes.take(i as int) =~= nodes);
    }
}

/// Whether `tail` leads from `current` to `end` along dependencies, without meeting a vertex twice
/// and without leaving a vertex of `visited`, and is short enough to be followed after `depth`
/// edges.
spec fn leads_on(
    forward: Adjacency,
    current: Node,
    end: Node,
    visited: Seq<Node>,
    depth: nat,
    tail: Seq<Node>,
) -> bool {
    let full = seq![current] + tail;
    &&& full.last() == end
    &&& full.no_duplicates()
    &&& depth + tail.len() < MAX_DEPTH
    &&& forall|i: int|
        0 <= i < tail.len() ==> depends_on(forward, #[trigger] full[i], tail[i])
            && !visited.contains(full[i])
}

proof fn leads_on_first(
    forward: Adjacency,
    current: Node,
    end: Node,
    visited: Seq<Node>,
    depth: nat,
    tail: Seq<Node>,
)
    requires
        leads_on(forward, current, end, visited, depth, tail),
        tail.len() > 0,
    ensures
        current != end,
        !visited.contains(current),
        depends_on(forward, current, tail[0]),
        leads_on(forward, tail[0], end, visited.push(current), depth + 1, tail.skip(1)),
{
    let full = seq![current] + tail;
    let rest = tail.skip(1);
    let full_rest = seq![tail[0]] + rest;
    assert(full_rest =~= tail);
    assert(full[0] == current);
    assert(full.last() == full[full.len() - 1]);
    assert(full.skip(1) =~= tail);
    assert forall|i: int, j: int| 0 <= i < j < full_rest.len() implies full_rest[i]
        != full_rest[j] by {
        assert(full_rest[i] == full[i + 1] && full_rest[j] == full[j + 1]);
    }
    assert forall|i: int| 0 <= i < rest.len() implies depends_on(
        forward,
        #[trigger] full_rest[i],
        rest[i],
    ) && !visited.push(current).contains(full_rest[i]) by {
        assert(full_rest[i] == full[i + 1]);
        assert(rest[i] == tail[i + 1]);
        if visited.push(current).contains(full_rest[i]) {
            let k = choose|k: int|
                0 <= k < visited.push(current).len() && visited.push(current)[k] == full_rest[i];
            if k < visited.len() {
                assert(visited[k] == full[i + 1]);
            } else {
                assert(full[0] == full[i + 1]);
            }
        }
    }
}

proof fn leads_on_extend(
    forward: Adjacency,
    current: Node,
    end: Node,
    visited: Seq<Node>,
    depth: nat,
    next: Node,
    rest: Seq<Node>,
)
    requires
        current != end,
        !visited.contains(current),
        depends_on(forward, current, next),
        leads_on(forward, next, end, visited.push(current), depth + 1, rest),
    ensures
        leads_on(forward, current, end, visited, depth, seq![next] + rest),
{
    let tail = seq![next] + rest;
    let full = seq![current] + tail;
    let inner = visited.push(current);
    assert(inner[visited.len() as int] == current);
    assert(tail.last() == end);
    assert forall|i: int, j: int| 0 <= i < j < full.len() implies full[i] != full[j] by {
        if i == 0 {
            if j - 1 < rest.len() {
                assert(tail[j - 1] == full[j]);
                assert(!inner.contains(tail[j - 1]));
            } else {
                assert(full[j] == end);
            }
        } else {
            assert(full[i] == tail[i - 1] && full[j] == tail[j - 1]);
        }
    }
    assert forall|i: int| 0 <= i < tail.len() implies depends_on(
        forward,
        #[trigger] full[i],
        tail[i],
    ) && !visited.contains(full[i]) by {
        if i > 0 {
            assert(full[i] == tail[i - 1]);
            assert(tail[i] == rest[i - 1]);
            assert(!inner.contains(tail[i - 1]));
            if visited.contains(full[i]) {
                let k = choose|k: int| 0 <= k < visited.len() && visited[k] == full[i];
                assert(inner[k] == full[i]);
            }
        }
    }
}

proof fn paths_from_sound(
    forward: Adjacency,
    current: Node,
    end: Node,
    path: Seq<Node>,
    visited: Seq<Node>,
    depth: nat,
    found: Seq<Node>,
)
    requires
        paths_from(forward, current, end, path, visited, depth).contains(found),
    ensures
        exists|tail: Seq<Node>|
            found == path + tail && #[trigger] leads_on(
                forward,
                current,
                end,
                visited,
                depth,
                tail,
            ),
    decreases 2 * (MAX_DEPTH - depth) + 1, 0nat,
{
    if current == end {
        let tail = Seq::<Node>::empty();
        assert(found =~= path + tail);
        assert(leads_on(forward, current, end, visited, depth, tail));
    } else {
        let deps = crate::debug::graph::beside(forward, current)->0;
        paths_through_sound(forward, deps, end, path, visited.push(current), depth, found);
        let (next, rest) = choose|next: Node, rest: Seq<Node>|
            deps.contains(next) && found == path.push(next) + rest && #[trigger] leads_on(
                forward,
                next,
                end,
                visited.push(current),
                depth + 1,
                rest,
            );
        leads_on_extend(forward, current, end, visited, depth, next, rest);
        assert(path.push(next) + rest =~= path + (seq![next] + rest));
    }
}

proof fn paths_through_sound(
    forward: Adjacency,
    deps: Seq<Node>,
    end: Node,
    path: Seq<Node>,
    visited: Seq<Node>,
    depth: nat,
    found: Seq<Node>,
)
    requires
        paths_through(forward, deps, end, path, visited, depth).contains(found),
    ensures
        exists|next: Node, rest: Seq<Node>|
            deps.contains(next) && found == path.push(next) + rest && #[trigger] leads_on(
                forward,
                next,
                end,
                visited,
                depth + 1,
                rest,
            ),
    decreases 2 * (MAX_DEPTH - depth), deps.len(),
{
    let front = paths_through(forward, deps.drop_last(), end, path, visited, depth);
    let next = deps.last();
    let back = paths_from(forward, next, end, path.push(next), visited, depth + 1);
    let k = choose|k: int| 0 <= k < (front + back).len() && (front + back)[k] == found;
    if k < front.len() {
        assert(front[k] == found);
        paths_through_sound(forward, deps.drop_last(), end, path, visited, depth, found);
        let (n, rest) = choose|n: Node, rest: Seq<Node>|
            deps.drop_last().contains(n) && found == path.push(n) + rest && #[trigger] leads_on(
                forward,
                n,
                end,
                visited,
                depth + 1,
                rest,
            );
        let j = choose|j: int| 0 <= j < deps.drop_last().len() && deps.drop_last()[j] == n;
        assert(deps[j] == n);
    } else {
        assert(back[k - front.len()] == found);
        paths_from_sound(forward, next, end, path.push(next), visited, depth + 1, found);
        assert(deps[deps.len() - 1] == next);
    }
}

proof fn paths_from_complete(
    forward: Adjacency,
    current: Node,
    end: Node,
    path: Seq<Node>,
    visited: Seq<Node>,
    depth: nat,
    tail: Seq<Node>,
)
    requires
        leads_on(forward, current, end, visited, depth, tail),
    ensures
        paths_from(forward, current, end, path, visited, depth).contains(path + tail),
    decreases 2 * (MAX_DEPTH - depth) + 1, 0nat,
{
    if tail.len() == 0 {
        assert(path + tail =~= path);
        assert((seq![current] + tail).last() == current);
        assert(seq![path][0] == path);
    } else {
        leads_on_first(forward, current, end, visited, depth, tail);
        let deps = crate::debug::graph::beside(forward, current)->0;
        let k = choose|k: int| 0 <= k < deps.len() && deps[k] == tail[0];
        paths_through_complete(
            forward,
            deps,
            end,
            path,
            visited.push(current),
            depth,
            k,
            tail.skip(1),
        );
        assert(path.push(tail[0]) + tail.skip(1) =~= path + tail);
    }
}

proof fn paths_through_complete(
    forward: Adjacency,
    deps: Seq<Node>,
    end: Node,
    path: Seq<Node>,
    visited: Seq<Node>,
    depth: nat,
    k: int,
    rest: Seq<Node>,
)
    requires
        0 <= k < deps.len(),
        depth < MAX_DEPTH,
        leads_on(forward, deps[k], end, visited, depth + 1, rest),
    ensures
        paths_through(forward, deps, end, path, visited, depth).contains(
            path.push(deps[k]) + rest,
        ),
    decreases 2 * (MAX_DEPTH - depth), deps.len(),
{
    let front = paths_through(forward, deps.drop_last(), end, path, visited, depth);
    let next = deps.last();
    let back = paths_from(forward, next, end, path.push(next), visited, depth + 1);
    let wanted = path.push(deps[k]) + rest;
    if k < deps.len() - 1 {
        paths_through_complete(forward, deps.drop_last(), end, path, visited, depth, k, rest);
        let j = choose|j: int| 0 <= j < front.len() && front[j] == wanted;
        assert((front + back)[j] == wanted);
    } else {
        paths_from_complete(forward, next, end, path.push(next), visited, depth + 1, rest);
        let j = choose|j: int| 0 <= j < back.len() && back[j] == wanted;
        assert((front + back)[front.len() + j] == wanted);
    }
}

/// Whether `path` leads from `start` to `end`: each vertex is a dependency of the one before, none
/// is met twice, and the path is short enough to be followed.
pub open spec fn is_path(forward: Adjacency, start: Node, end: Node, path: Seq<Node>) -> bool {
    let full = seq![start] + path;
    &&& full.last() == end
    &&& full.no_duplicates()
    &&& path.len() < MAX_DEPTH
    &&& forall|i: int| 0 <= i < path.len() ==> depends_on(forward, #[trigger] full[i], path[i])
}

/// What is found are exactly the paths from `start` to `end`.
pub proof fn found_paths_are_the_paths(
    forward: Adjacency,
    start: Node,
    end: Node,
    path: Seq<Node>,
)
    ensures
        paths_from(forward, start, end, Seq::empty(), Seq::empty(), 0).contains(path) <==> is_path(
            forward,
            start,
            end,
            path,
        ),
{
    let nothing = Seq::<Node>::empty();
    if paths_from(forward, start, end, nothing, nothing, 0).contains(path) {
        paths_from_sound(forward, start, end, nothing, nothing, 0, path);
        let tail = choose|tail: Seq<Node>|
            path == nothing + tail && #[trigger] leads_on(forward, start, end, nothing, 0, tail);
        assert(path =~= tail);
        let full = seq![start] + path;
        assert forall|i: int| 0 <= i < path.len() implies depends_on(
            forward,
            #[trigger] full[i],
            path[i],
        ) by {}
    }
    if is_path(forward, start, end, path) {
        assert(leads_on(forward, start, end, nothing, 0, path));
        paths_from_complete(forward, start, end, nothing, nothing, 0, path);
        assert(nothing + path =~= path);
    }
}

/// Whether no query is listed with the same dependency twice.
pub open spec fn reads_once(forward: Adjacency) -> bool {
    forall|q: Node| #[trigger]
        crate::debug::graph::beside(forward, q) matches Some(deps) ==> deps.no_duplicates()
}

proof fn paths_from_once(
    forward: Adjacency,
    current: Node,
    end: Node,
    path: Seq<Node>,
    visited: Seq<Node>,
    depth: nat,
)
    requires
        reads_once(forward),
    ensures
        paths_from(forward, current, end, path, visited, depth).no_duplicates(),
    decreases 2 * (MAX_DEPTH - depth) + 1, 0nat,
{
    if depth < MAX_DEPTH && current != end && !visited.contains(current) {
        if let Some(deps) = crate::debug::graph::beside(forward, current) {
            assert(deps.no_duplicates());
            paths_through_once(forward, deps, end, path, visited.push(current), depth);
        }
    }
}

proof fn paths_through_once(
    forward: Adjacency,
    deps: Seq<Node>,
    end: Node,
    path: Seq<Node>,
    visited: Seq<Node>,
    depth: nat,
)
    requires
        reads_once(forward),
        deps.no_duplicates(),
    ensures
        paths_through(forward, deps, end, path, visited, depth).no_duplicates(),
    decreases 2 * (MAX_DEPTH - depth), deps.len(),
{
    if depth < MAX_DEPTH && deps.len() > 0 {
        let front = paths_through(forward, deps.drop_last(), end, path, visited, depth);
        let next = deps.last();
        let back = paths_from(forward, next, end, path.push(next), visited, depth + 1);
        paths_through_once(forward, deps.drop_last(), end, path, visited, depth);
        paths_from_once(forward, next, end, path.push(next), visited, depth + 1);
        assert forall|i: int, j: int| 0 <= i < front.len() && 0 <= j < back.len() implies front[i]
            != back[j] by {
            assert(front.contains(front[i]));
            assert(back.contains(back[j]));
            paths_through_sound(forward, deps.drop_last(), end, path, visited, depth, front[i]);
            paths_from_sound(forward, next, end, path.push(next), visited, depth + 1, back[j]);
            let (n, rest) = choose|n: Node, rest: Seq<Node>|
                deps.drop_last().contains(n) && front[i] == path.push(n) + rest
                    && #[trigger] leads_on(forward, n, end, visited, depth + 1, rest);
            let at = choose|at: int| 0 <= at < deps.len() - 1 && deps.drop_last()[at] == n;
            assert(deps[at] != deps[deps.len() - 1]);
            assert(front[i][path.len() as int] == n);
            assert(back[j][path.len() as int] == next);
        }
    }
}

/// Each path is found once, where no query is listed with the same dependency twice. A query that
/// has recorded a dependency twice yields every path through it twice.
pub proof fn paths_are_found_once(forward: Adjacency, start: Node, end: Node)
    requires
        reads_once(forward),
    ensures
        paths_from(forward, start, end, Seq::empty(), Seq::empty(), 0).no_duplicates(),
{
    paths_from_once(forward, start, end, Seq::empty(), Seq::empty(), 0);
}

/// Whether two vertices stand in a list, the first before the second.
pub open spec fn listed_before(list: Seq<Node>, a: Node, b: Node) -> bool {
    exists|i: int, j: int|
        0 <= i < j < list.len() && #[trigger] list[i] == a && #[trigger] list[j] == b
}

/// The vertex of a path before place `k`.
pub open spec fn vertex_before(start: Node, path: Seq<Node>, k: int) -> Node {
    if k == 0 {
        start
    } else {
        path[k - 1]
    }
}

/// Whether one path parts from another at `k`, and goes on there with a dependency that stands before
/// the other's.
pub open spec fn parts_before(
    forward: Adjacency,
    start: Node,
    p: Seq<Node>,
    q: Seq<Node>,
    k: int,
) -> bool {
    &&& 0 <= k < p.len()
    &&& k < q.len()
    &&& p.take(k) == q.take(k)
    &&& crate::debug::graph::beside(forward, vertex_before(start, p, k)) matches Some(deps)
        && listed_before(deps, p[k], q[k])
}

proof fn paths_from_ordered(
    forward: Adjacency,
    start: Node,
    current: Node,
    end: Node,
    path: Seq<Node>,
    visited: Seq<Node>,
    depth: nat,
    m: int,
    n: int,
)
    requires
        current == vertex_before(start, path, path.len() as int),
        0 <= m < n < paths_from(forward, current, end, path, visited, depth).len(),
    ensures
        ({
            let found = paths_from(forward, current, end, path, visited, depth);
            exists|k: int| parts_before(forward, start, found[m], found[n], k)
        }),
    decreases 2 * (MAX_DEPTH - depth) + 1, 0nat,
{
    let deps = crate::debug::graph::beside(forward, current)->0;
    assert(deps.take(deps.len() as int) =~= deps);
    paths_through_ordered(
        forward,
        start,
        current,
        deps,
        deps.len() as int,
        end,
        path,
        visited.push(current),
        depth,
        m,
        n,
    );
}

proof fn paths_through_ordered(
    forward: Adjacency,
    start: Node,
    current: Node,
    deps: Seq<Node>,
    count: int,
    end: Node,
    path: Seq<Node>,
    visited: Seq<Node>,
    depth: nat,
    m: int,
    n: int,
)
    requires
        current == vertex_before(start, path, path.len() as int),
        crate::debug::graph::beside(forward, current) == Some(deps),
        0 <= count <= deps.len(),
        0 <= m < n < paths_through(forward, deps.take(count), end, path, visited, depth).len(),
    ensures
        ({
            let found = paths_through(forward, deps.take(count), end, path, visited, depth);
            exists|k: int| parts_before(forward, start, found[m], found[n], k)
        }),
    decreases 2 * (MAX_DEPTH - depth), count,
{
    let some = deps.take(count);
    let fewer = deps.take(count - 1);
    assert(some.drop_last() =~= fewer);
    let next = deps[count - 1];
    assert(some.last() == next);
    let front = paths_through(forward, fewer, end, path, visited, depth);
    let back = paths_from(forward, next, end, path.push(next), visited, depth + 1);
    let found = paths_through(forward, some, end, path, visited, depth);
    assert(found == front + back);
    if n < front.len() {
        paths_through_ordered(
            forward,
            start,
            current,
            deps,
            count - 1,
            end,
            path,
            visited,
            depth,
            m,
            n,
        );
        let k = choose|k: int| parts_before(forward, start, front[m], front[n], k);
        assert(parts_before(forward, start, found[m], found[n], k));
    } else if m < front.len() {
        let p = front[m];
        let q = back[n - front.len()];
        assert(front.contains(p));
        assert(back.contains(q));
        paths_through_sound(forward, fewer, end, path, visited, depth, p);
        paths_from_sound(forward, next, end, path.push(next), visited, depth + 1, q);
        let (first, rest) = choose|first: Node, rest: Seq<Node>|
            fewer.contains(first) && p == path.push(first) + rest && #[trigger] leads_on(
                forward,
                first,
                end,
                visited,
                depth + 1,
                rest,
            );
        let tail = choose|tail: Seq<Node>|
            q == path.push(next) + tail && #[trigger] leads_on(
                forward,
                next,
                end,
                visited,
                depth + 1,
                tail,
            );
        let i = choose|i: int| 0 <= i < fewer.len() && fewer[i] == first;
        let k = path.len() as int;
        assert(p.take(k) =~= path);
        assert(q.take(k) =~= path);
        assert(p[k] == first && q[k] == next);
        assert(deps[i] == first && deps[count - 1] == next);
        assert(vertex_before(start, p, k) == current);
        assert(i < count - 1);
        assert(deps[i] == p[k] && deps[count - 1] == q[k]);
        assert(listed_before(deps, p[k], q[k]));
        assert(found[m] == p && found[n] == q);
        assert(parts_before(forward, start, found[m], found[n], k));
    } else {
        let longer = path.push(next);
        assert(vertex_before(start, longer, longer.len() as int) == next);
        let (a, b) = (m - front.len(), n - front.len());
        paths_from_ordered(forward, start, next, end, longer, visited, depth + 1, a, b);
        let k = choose|k: int| parts_before(forward, start, back[a], back[b], k);
        assert(found[m] == back[a] && found[n] == back[b]);
        assert(parts_before(forward, start, found[m], found[n], k));
    }
}

/// Paths are found in the order of the dependencies: of two paths, the one that goes on with an earlier
/// dependency of the vertex at which they part is found before the other.
pub proof fn paths_are_found_in_order(forward: Adjacency, start: Node, end: Node, m: int, n: int)
    requires
        0 <= m < n < paths_from(forward, start, end, Seq::empty(), Seq::empty(), 0).len(),
    ensures
        ({
            let found = paths_from(forward, start, end, Seq::empty(), Seq::empty(), 0);
            exists|k: int| parts_before(forward, start, found[m], found[n], k)
        }),
{
    paths_from_ordered(forward, start, start, end, Seq::empty(), Seq::empty(), 0, m, n);
}

/// A path is found if it has less than a thousand steps, and not otherwise.
pub proof fn short_paths_are_found(
    forward: Adjacency,
    start: Node,
    end: Node,
    path: Seq<Node>,
)
    requires
        (seq![start] + path).no_duplicates(),
        (seq![start] + path).last() == end,
        forall|i: int|
            0 <= i < path.len() ==> depends_on(
                forward,
                #[trigger] (seq![start] + path)[i],
                path[i],
            ),
    ensures
        paths_from(forward, start, end, Seq::empty(), Seq::empty(), 0).contains(path) <==> path.len()
            < 1000,
{
    found_paths_are_the_paths(forward, start, end, path);
}

} // verus!
